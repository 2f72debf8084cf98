//! Canonical output names and paths for automata, word sets and task
//! bundles, built with a verified decimal renderer.

use vstd::prelude::*;
use vstd::string::*;

verus! {

/// The decimal digit character for `d` (0..9).
pub open spec fn digit_char(d: nat) -> char {
    if d == 0 {
        '0'
    } else if d == 1 {
        '1'
    } else if d == 2 {
        '2'
    } else if d == 3 {
        '3'
    } else if d == 4 {
        '4'
    } else if d == 5 {
        '5'
    } else if d == 6 {
        '6'
    } else if d == 7 {
        '7'
    } else if d == 8 {
        '8'
    } else {
        '9'
    }
}

/// The decimal digit string of `n`, most significant digit first, with
/// no leading zeroes (a single zero for n = 0).
pub open spec fn dec_digits(n: nat) -> Seq<char>
    decreases n,
{
    if n < 10 {
        seq![digit_char(n)]
    } else {
        dec_digits(n / 10).push(digit_char(n % 10))
    }
}

/// The decimal string of `n`, left-padded with a zero to width two.
pub open spec fn pad2_digits(n: nat) -> Seq<char> {
    if n < 10 {
        seq!['0'] + dec_digits(n)
    } else {
        dec_digits(n)
    }
}

/// The one-character string for a decimal digit.
fn digit_str(d: u8) -> (r: &'static str)
    requires
        d < 10,
    ensures
        r@ == seq![digit_char(d as nat)],
{
    let r: &'static str = match d {
        0 => "0",
        1 => "1",
        2 => "2",
        3 => "3",
        4 => "4",
        5 => "5",
        6 => "6",
        7 => "7",
        8 => "8",
        _ => "9",
    };
    proof {
        reveal_strlit("0");
        reveal_strlit("1");
        reveal_strlit("2");
        reveal_strlit("3");
        reveal_strlit("4");
        reveal_strlit("5");
        reveal_strlit("6");
        reveal_strlit("7");
        reveal_strlit("8");
        reveal_strlit("9");
        assert(r@ =~= seq![digit_char(d as nat)]);
    }
    r
}

/// Append the decimal rendering of `n`.
pub fn push_decimal(s: &mut String, n: usize)
    ensures
        final(s)@ == old(s)@ + dec_digits(n as nat),
    decreases n,
{
    if n < 10 {
        s.append(digit_str(n as u8));
    } else {
        push_decimal(s, n / 10);
        s.append(digit_str((n % 10) as u8));
        proof {
            assert(old(s)@ + dec_digits((n / 10) as nat) + seq![
                digit_char((n % 10) as nat),
            ] =~= old(s)@ + dec_digits(n as nat));
        }
    }
}

/// Append the decimal rendering of `n`, zero-padded to width two.
pub fn push_pad2(s: &mut String, n: usize)
    ensures
        final(s)@ == old(s)@ + pad2_digits(n as nat),
{
    if n < 10 {
        s.append("0");
        proof {
            reveal_strlit("0");
        }
    }
    push_decimal(s, n);
    proof {
        if n < 10 {
            assert(old(s)@ + "0"@ + dec_digits(n as nat) =~= old(s)@ + pad2_digits(n as nat));
        }
    }
}

/// The canonical file name for an automaton:
/// `data/automata/{acc_type}__aut_size={aut_size}__{aut_index:0>2}.hoa`.
pub open spec fn spec_aut_name(aut_size: nat, aut_index: nat, acc_type: Seq<char>) -> Seq<char> {
    "data/automata/"@ + acc_type + "__aut_size="@ + dec_digits(aut_size) + "__"@ + pad2_digits(
        aut_index,
    ) + ".hoa"@
}

/// File name for an omega automaton.
pub fn aut_name(aut_size: usize, aut_index: usize, acc_type: String) -> (r: String)
    ensures
        r@ == spec_aut_name(aut_size as nat, aut_index as nat, acc_type@),
{
    let mut s = String::new();
    s.append("data/automata/");
    s.append(acc_type.as_str());
    s.append("__aut_size=");
    push_decimal(&mut s, aut_size);
    s.append("__");
    push_pad2(&mut s, aut_index);
    s.append(".hoa");
    proof {
        assert(s@ =~= spec_aut_name(aut_size as nat, aut_index as nat, acc_type@));
    }
    s
}

/// The canonical file name for a word set:
/// `data/sets/word_set__aut_size={N}__sample_size={M}__{index:0>2}_{train|test}.csv`.
pub open spec fn spec_set_name(
    aut_size: nat,
    set_size: nat,
    set_index: nat,
    train: bool,
) -> Seq<char> {
    "data/sets/word_set__aut_size="@ + dec_digits(aut_size) + "__sample_size="@ + dec_digits(
        set_size,
    ) + "__"@ + pad2_digits(set_index) + "_"@ + (if train {
        "train"@
    } else {
        "test"@
    }) + ".csv"@
}

/// File name for a set of omega words.
pub fn set_name(aut_size: usize, set_size: usize, set_index: usize, train: bool) -> (r: String)
    ensures
        r@ == spec_set_name(aut_size as nat, set_size as nat, set_index as nat, train),
{
    let mut s = String::new();
    s.append("data/sets/word_set__aut_size=");
    push_decimal(&mut s, aut_size);
    s.append("__sample_size=");
    push_decimal(&mut s, set_size);
    s.append("__");
    push_pad2(&mut s, set_index);
    s.append("_");
    if train {
        s.append("train");
    } else {
        s.append("test");
    }
    s.append(".csv");
    proof {
        assert(s@ =~= spec_set_name(aut_size as nat, set_size as nat, set_index as nat, train));
    }
    s
}

/// The canonical name of a learning task:
/// `{acc}_task__aut_size={N}__sample_size={M}__{acc}{aut_index:0>2}__sample{set_index:0>2}`.
pub open spec fn spec_task_name(
    aut_size: nat,
    set_size: nat,
    aut_index: nat,
    set_index: nat,
    acc_type: Seq<char>,
) -> Seq<char> {
    acc_type + "_task__aut_size="@ + dec_digits(aut_size) + "__sample_size="@ + dec_digits(
        set_size,
    ) + "__"@ + acc_type + pad2_digits(aut_index) + "__sample"@ + pad2_digits(set_index)
}

/// Name of a learning task bundle.
pub fn task_name(
    aut_size: usize,
    set_size: usize,
    aut_index: usize,
    set_index: usize,
    acc_type: String,
) -> (r: String)
    ensures
        r@ == spec_task_name(
            aut_size as nat,
            set_size as nat,
            aut_index as nat,
            set_index as nat,
            acc_type@,
        ),
{
    let mut s = String::new();
    s.append(acc_type.as_str());
    s.append("_task__aut_size=");
    push_decimal(&mut s, aut_size);
    s.append("__sample_size=");
    push_decimal(&mut s, set_size);
    s.append("__");
    s.append(acc_type.as_str());
    push_pad2(&mut s, aut_index);
    s.append("__sample");
    push_pad2(&mut s, set_index);
    proof {
        assert(s@ =~= spec_task_name(
            aut_size as nat,
            set_size as nat,
            aut_index as nat,
            set_index as nat,
            acc_type@,
        ));
    }
    s
}

} // verus!
