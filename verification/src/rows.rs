//! Text records for word samples: a word becomes (spoke string, cycle
//! string), a labelled word additionally carries a verdict string.
//! Symbols are rendered as lower-case letters. `plain_csv_bytes` is the
//! exact byte form such records take in the delimited output: fields
//! joined by commas, each record ended by a newline — no field here ever
//! needs quoting.

use vstd::prelude::*;
use vstd::string::*;
use crate::words::{UpWord, UpWordV};

verus! {

/// The letter for symbol `s` (0..25 maps to 'a'..'z').
pub open spec fn symbol_char(s: nat) -> char {
    if s == 0 {
        'a'
    } else if s == 1 {
        'b'
    } else if s == 2 {
        'c'
    } else if s == 3 {
        'd'
    } else if s == 4 {
        'e'
    } else if s == 5 {
        'f'
    } else if s == 6 {
        'g'
    } else if s == 7 {
        'h'
    } else if s == 8 {
        'i'
    } else if s == 9 {
        'j'
    } else if s == 10 {
        'k'
    } else if s == 11 {
        'l'
    } else if s == 12 {
        'm'
    } else if s == 13 {
        'n'
    } else if s == 14 {
        'o'
    } else if s == 15 {
        'p'
    } else if s == 16 {
        'q'
    } else if s == 17 {
        'r'
    } else if s == 18 {
        's'
    } else if s == 19 {
        't'
    } else if s == 20 {
        'u'
    } else if s == 21 {
        'v'
    } else if s == 22 {
        'w'
    } else if s == 23 {
        'x'
    } else if s == 24 {
        'y'
    } else {
        'z'
    }
}

/// The field string of a symbol sequence.
pub open spec fn symbols_field(s: Seq<u8>) -> Seq<char> {
    s.map_values(|b: u8| symbol_char(b as nat))
}

/// The verdict field: the textual rendering of the boolean.
pub open spec fn verdict_field(v: bool) -> Seq<char> {
    if v {
        "true"@
    } else {
        "false"@
    }
}

/// The unlabelled record of a word: spoke string, then cycle string.
pub open spec fn word_row(w: UpWordV) -> Seq<Seq<char>> {
    seq![symbols_field(w.spoke), symbols_field(w.cycle)]
}

/// The labelled record: spoke string, cycle string, verdict string.
pub open spec fn labelled_row(w: UpWordV, v: bool) -> Seq<Seq<char>> {
    seq![symbols_field(w.spoke), symbols_field(w.cycle), verdict_field(v)]
}

/// The records of an unlabelled sample, in order.
pub open spec fn word_rows(s: Seq<UpWordV>) -> Seq<Seq<Seq<char>>> {
    s.map_values(|w: UpWordV| word_row(w))
}

/// The records of a labelled sample, in order.
pub open spec fn labelled_rows(s: Seq<(UpWordV, bool)>) -> Seq<Seq<Seq<char>>> {
    s.map_values(|p: (UpWordV, bool)| labelled_row(p.0, p.1))
}

/// A field that the delimited writer emits verbatim: printable ASCII
/// without the delimiter or the quote character.
pub open spec fn plain_field(f: Seq<char>) -> bool {
    forall|i: int|
        0 <= i < f.len() ==> 32 <= (#[trigger] f[i]) as int <= 126 && f[i] != ',' && f[i] != '"'
}

/// Records that the delimited writer emits verbatim. A record with a
/// single empty field is excluded: the writer would quote it.
pub open spec fn plain_rows(rows: Seq<Seq<Seq<char>>>) -> bool {
    forall|i: int|
        0 <= i < rows.len() ==> {
            let row = #[trigger] rows[i];
            &&& row.len() >= 1
            &&& (row.len() == 1 ==> row[0].len() >= 1)
            &&& forall|j: int| 0 <= j < row.len() ==> plain_field(#[trigger] row[j])
        }
}

/// The bytes of one field (plain fields are ASCII, one byte per char).
pub open spec fn field_bytes(f: Seq<char>) -> Seq<u8> {
    f.map_values(|c: char| c as u8)
}

/// The fields of a record joined by the comma delimiter.
pub open spec fn joined_fields(row: Seq<Seq<char>>) -> Seq<u8>
    decreases row.len(),
{
    if row.len() == 0 {
        Seq::empty()
    } else if row.len() == 1 {
        field_bytes(row[0])
    } else {
        field_bytes(row[0]) + seq![44u8] + joined_fields(row.skip(1))
    }
}

/// One record: joined fields, terminated by a newline.
pub open spec fn row_bytes(row: Seq<Seq<char>>) -> Seq<u8> {
    joined_fields(row) + seq![10u8]
}

/// The exact bytes of a sequence of plain records in delimited form.
pub open spec fn plain_csv_bytes(rows: Seq<Seq<Seq<char>>>) -> Seq<u8>
    decreases rows.len(),
{
    if rows.len() == 0 {
        Seq::empty()
    } else {
        row_bytes(rows[0]) + plain_csv_bytes(rows.skip(1))
    }
}

/// The one-character string for a symbol letter.
fn letter_str(s: u8) -> (r: &'static str)
    requires
        s < 26,
    ensures
        r@ == seq![symbol_char(s as nat)],
{
    let r: &'static str = match s {
        0 => "a",
        1 => "b",
        2 => "c",
        3 => "d",
        4 => "e",
        5 => "f",
        6 => "g",
        7 => "h",
        8 => "i",
        9 => "j",
        10 => "k",
        11 => "l",
        12 => "m",
        13 => "n",
        14 => "o",
        15 => "p",
        16 => "q",
        17 => "r",
        18 => "s",
        19 => "t",
        20 => "u",
        21 => "v",
        22 => "w",
        23 => "x",
        24 => "y",
        _ => "z",
    };
    proof {
        reveal_strlit("a");
        reveal_strlit("b");
        reveal_strlit("c");
        reveal_strlit("d");
        reveal_strlit("e");
        reveal_strlit("f");
        reveal_strlit("g");
        reveal_strlit("h");
        reveal_strlit("i");
        reveal_strlit("j");
        reveal_strlit("k");
        reveal_strlit("l");
        reveal_strlit("m");
        reveal_strlit("n");
        reveal_strlit("o");
        reveal_strlit("p");
        reveal_strlit("q");
        reveal_strlit("r");
        reveal_strlit("s");
        reveal_strlit("t");
        reveal_strlit("u");
        reveal_strlit("v");
        reveal_strlit("w");
        reveal_strlit("x");
        reveal_strlit("y");
        reveal_strlit("z");
        assert(r@ =~= seq![symbol_char(s as nat)]);
    }
    r
}

/// Render a symbol sequence as its letter string.
pub fn symbols_string(v: &Vec<u8>) -> (r: String)
    requires
        forall|i: int| 0 <= i < v@.len() ==> (#[trigger] v@[i]) < 26,
    ensures
        r@ == symbols_field(v@),
{
    let mut s = String::new();
    let mut i: usize = 0;
    while i < v.len()
        invariant
            i <= v.len(),
            forall|k: int| 0 <= k < v@.len() ==> (#[trigger] v@[k]) < 26,
            s@ == symbols_field(v@.take(i as int)),
        decreases v.len() - i,
    {
        s.append(letter_str(v[i]));
        i = i + 1;
        proof {
            assert(s@ =~= symbols_field(v@.take(i as int)));
        }
    }
    proof {
        assert(v@.take(v@.len() as int) =~= v@);
    }
    s
}

/// The two field strings of an unlabelled word record.
pub fn word_fields(w: &UpWord) -> (r: Vec<String>)
    requires
        forall|i: int| 0 <= i < w.spoke@.len() ==> (#[trigger] w.spoke@[i]) < 26,
        forall|i: int| 0 <= i < w.cycle@.len() ==> (#[trigger] w.cycle@[i]) < 26,
    ensures
        r@.map_values(|f: String| f@) == word_row(w@),
{
    let mut r: Vec<String> = Vec::new();
    r.push(symbols_string(&w.spoke));
    r.push(symbols_string(&w.cycle));
    proof {
        assert(r@.map_values(|f: String| f@) =~= word_row(w@));
    }
    r
}

/// The three field strings of a labelled word record.
pub fn labelled_fields(w: &UpWord, v: bool) -> (r: Vec<String>)
    requires
        forall|i: int| 0 <= i < w.spoke@.len() ==> (#[trigger] w.spoke@[i]) < 26,
        forall|i: int| 0 <= i < w.cycle@.len() ==> (#[trigger] w.cycle@[i]) < 26,
    ensures
        r@.map_values(|f: String| f@) == labelled_row(w@, v),
{
    let mut r: Vec<String> = Vec::new();
    r.push(symbols_string(&w.spoke));
    r.push(symbols_string(&w.cycle));
    let verdict = if v {
        String::from_str("true")
    } else {
        String::from_str("false")
    };
    proof {
        reveal_strlit("true");
        reveal_strlit("false");
    }
    r.push(verdict);
    proof {
        assert(r@.map_values(|f: String| f@) =~= labelled_row(w@, v));
    }
    r
}

/// Symbol letters make plain fields.
pub proof fn lemma_symbols_field_plain(s: Seq<u8>)
    requires
        forall|i: int| 0 <= i < s.len() ==> (#[trigger] s[i]) < 26,
    ensures
        plain_field(symbols_field(s)),
{
    assert forall|i: int| 0 <= i < symbols_field(s).len() implies 32 <= (#[trigger] symbols_field(
        s,
    )[i]) as int <= 126 && symbols_field(s)[i] != ',' && symbols_field(s)[i] != '"' by {
        assert(symbols_field(s)[i] == symbol_char(s[i] as nat));
    }
}

/// The verdict strings are plain fields.
pub proof fn lemma_verdict_field_plain(v: bool)
    ensures
        plain_field(verdict_field(v)),
{
    reveal_strlit("true");
    reveal_strlit("false");
}

} // verus!
