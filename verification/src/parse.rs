//! Reading word records back: the inverse of the unlabelled export.
//! `spec_parse` gives the meaning of a byte buffer as a sequence of
//! words; the executable parser computes exactly that, and the round
//! trip through `plain_csv_bytes` is proved to recover the sample.

use vstd::prelude::*;
use crate::rows::{
    field_bytes, joined_fields, plain_csv_bytes, row_bytes, symbol_char, symbols_field, word_row,
    word_rows,
};
use crate::words::{word_wf, UpWord, UpWordV};

verus! {

/// Index of the first occurrence of `b` at or after `i`, or -1.
pub open spec fn find_from(s: Seq<u8>, i: int, b: u8) -> int
    decreases s.len() - i
        when 0 <= i <= s.len()
{
    if i >= s.len() {
        -1
    } else if s[i] == b {
        i
    } else {
        find_from(s, i + 1, b)
    }
}

pub proof fn lemma_find_from_found(s: Seq<u8>, i: int, j: int, b: u8)
    requires
        0 <= i <= j < s.len(),
        s[j] == b,
        forall|k: int| i <= k < j ==> s[k] != b,
    ensures
        find_from(s, i, b) == j,
    decreases j - i,
{
    if i < j {
        lemma_find_from_found(s, i + 1, j, b);
    }
}

pub proof fn lemma_find_from_none(s: Seq<u8>, i: int, b: u8)
    requires
        0 <= i <= s.len(),
        forall|k: int| i <= k < s.len() ==> s[k] != b,
    ensures
        find_from(s, i, b) == -1,
    decreases s.len() - i,
{
    if i < s.len() {
        lemma_find_from_none(s, i + 1, b);
    }
}

/// A byte that encodes a symbol of the alphabet: a letter in
/// 'a' .. 'a' + alphabet_size.
pub open spec fn valid_symbol_byte(c: u8, alphabet_size: nat) -> bool {
    97 <= c && (c as nat) < 97 + alphabet_size
}

pub open spec fn valid_field(f: Seq<u8>, alphabet_size: nat) -> bool {
    forall|i: int| 0 <= i < f.len() ==> valid_symbol_byte(#[trigger] f[i], alphabet_size)
}

/// The symbols encoded by a field of letter bytes.
pub open spec fn parse_symbols(f: Seq<u8>) -> Seq<u8> {
    f.map_values(|c: u8| (c - 97) as u8)
}

/// Parse one record line (terminator already removed): the spoke field,
/// one comma, the cycle field; both fields all letters of the alphabet,
/// the cycle non-empty.
pub open spec fn parse_line(line: Seq<u8>, alphabet_size: nat) -> Option<UpWordV> {
    let c = find_from(line, 0, 44);
    if c < 0 {
        None
    } else {
        let sp = line.take(c);
        let cy = line.skip(c + 1);
        if valid_field(sp, alphabet_size) && valid_field(cy, alphabet_size) && cy.len() >= 1 {
            Some(UpWordV { spoke: parse_symbols(sp), cycle: parse_symbols(cy) })
        } else {
            None
        }
    }
}

/// Parse a whole buffer: a sequence of newline-terminated records.
pub open spec fn spec_parse(bytes: Seq<u8>, alphabet_size: nat) -> Option<Seq<UpWordV>>
    decreases bytes.len(),
{
    if bytes.len() == 0 {
        Some(Seq::empty())
    } else {
        let nl = find_from(bytes, 0, 10);
        if nl < 0 || nl >= bytes.len() {
            None
        } else {
            match parse_line(bytes.take(nl), alphabet_size) {
                None => None,
                Some(w) => match spec_parse(bytes.skip(nl + 1), alphabet_size) {
                    None => None,
                    Some(ws) => Some(seq![w] + ws),
                },
            }
        }
    }
}

/// First position of `b` in `v` at or after `from`, if any.
fn find_byte(v: &Vec<u8>, from: usize, b: u8) -> (r: Option<usize>)
    requires
        from <= v@.len(),
    ensures
        match r {
            Some(j) => from <= j < v@.len() && v@[j as int] == b && forall|k: int|
                from <= k < j ==> v@[k] != b,
            None => forall|k: int| from <= k < v@.len() ==> v@[k] != b,
        },
{
    let mut i: usize = from;
    while i < v.len()
        invariant
            from <= i <= v@.len(),
            forall|k: int| from <= k < i ==> v@[k] != b,
        decreases v@.len() - i,
    {
        if v[i] == b {
            return Some(i);
        }
        i = i + 1;
    }
    None
}

/// Read the symbols of one field, `v[start..end)`.
fn parse_field(v: &Vec<u8>, start: usize, end: usize, alphabet_size: usize) -> (r: Option<Vec<u8>>)
    requires
        start <= end <= v@.len(),
        1 <= alphabet_size <= 26,
    ensures
        match r {
            Some(sy) => valid_field(v@.subrange(start as int, end as int), alphabet_size as nat)
                && sy@ == parse_symbols(v@.subrange(start as int, end as int)),
            None => !valid_field(v@.subrange(start as int, end as int), alphabet_size as nat),
        },
{
    let ghost f = v@.subrange(start as int, end as int);
    let mut sy: Vec<u8> = Vec::new();
    let mut i: usize = start;
    while i < end
        invariant
            start <= i <= end <= v@.len(),
            1 <= alphabet_size <= 26,
            f == v@.subrange(start as int, end as int),
            forall|k: int|
                0 <= k < i - start ==> valid_symbol_byte(#[trigger] f[k], alphabet_size as nat),
            sy@ == parse_symbols(f.take(i - start)),
        decreases end - i,
    {
        let c = v[i];
        proof {
            assert(f[i - start] == v@[i as int]);
        }
        if c < 97 || c >= 97 + alphabet_size as u8 {
            proof {
                assert(!valid_symbol_byte(f[i - start], alphabet_size as nat));
            }
            return None;
        }
        sy.push(c - 97);
        i = i + 1;
        proof {
            assert(sy@ =~= parse_symbols(f.take(i - start)));
        }
    }
    proof {
        assert(f.take(end - start) =~= f);
    }
    Some(sy)
}

/// How the parsed prefix and the meaning of the remainder combine.
pub open spec fn parse_combine(acc: Seq<UpWordV>, rest: Option<Seq<UpWordV>>) -> Option<
    Seq<UpWordV>,
> {
    match rest {
        None => None,
        Some(ws) => Some(acc + ws),
    }
}

/// Parse a buffer of word records, as written by the unlabelled export:
/// per line a spoke string and a cycle string over the letters of the
/// alphabet, separated by a comma. Returns exactly what `spec_parse`
/// means, and `None` exactly where the buffer does not parse.
pub fn parse_word_set(bytes: &Vec<u8>, alphabet_size: usize) -> (r: Option<Vec<UpWord>>)
    requires
        1 <= alphabet_size <= 26,
    ensures
        match r {
            Some(ws) => spec_parse(bytes@, alphabet_size as nat) == Some(
                ws@.map_values(|w: UpWord| w@),
            ),
            None => spec_parse(bytes@, alphabet_size as nat) is None,
        },
{
    let ghost a = alphabet_size as nat;
    let mut acc: Vec<UpWord> = Vec::new();
    let mut idx: usize = 0;
    proof {
        assert(bytes@.skip(0) =~= bytes@);
        assert(acc@.map_values(|w: UpWord| w@) =~= Seq::<UpWordV>::empty());
        match spec_parse(bytes@, a) {
            None => {},
            Some(ws) => {
                assert(Seq::<UpWordV>::empty() + ws =~= ws);
            },
        }
    }
    while idx < bytes.len()
        invariant
            idx <= bytes@.len(),
            1 <= alphabet_size <= 26,
            a == alphabet_size as nat,
            spec_parse(bytes@, a) == parse_combine(
                acc@.map_values(|w: UpWord| w@),
                spec_parse(bytes@.skip(idx as int), a),
            ),
        decreases bytes@.len() - idx,
    {
        let ghost tail = bytes@.skip(idx as int);
        let ghost accv = acc@.map_values(|w: UpWord| w@);
        let nl = match find_byte(bytes, idx, 10) {
            None => {
                proof {
                    assert forall|k: int| 0 <= k < tail.len() implies tail[k] != 10 by {
                        assert(tail[k] == bytes@[idx + k]);
                    }
                    lemma_find_from_none(tail, 0, 10);
                }
                return None;
            },
            Some(nl) => nl,
        };
        proof {
            assert(tail[nl - idx] == bytes@[nl as int]);
            assert forall|k: int| 0 <= k < nl - idx implies tail[k] != 10 by {
                assert(tail[k] == bytes@[idx + k]);
            }
            lemma_find_from_found(tail, 0, nl - idx, 10);
            assert(tail.take(nl - idx) =~= bytes@.subrange(idx as int, nl as int));
        }
        let ghost line = tail.take(nl - idx);
        // split the line at its first comma
        let comma = match find_byte(bytes, idx, 44) {
            None => {
                proof {
                    assert forall|k: int| 0 <= k < line.len() implies line[k] != 44 by {
                        assert(line[k] == bytes@[idx + k]);
                    }
                    lemma_find_from_none(line, 0, 44);
                    assert(parse_line(line, a) is None);
                }
                return None;
            },
            Some(c) => c,
        };
        if comma >= nl {
            proof {
                assert forall|k: int| 0 <= k < line.len() implies line[k] != 44 by {
                    assert(line[k] == bytes@[idx + k]);
                }
                lemma_find_from_none(line, 0, 44);
                assert(parse_line(line, a) is None);
            }
            return None;
        }
        proof {
            assert(line[comma - idx] == bytes@[comma as int]);
            assert forall|k: int| 0 <= k < comma - idx implies line[k] != 44 by {
                assert(line[k] == bytes@[idx + k]);
            }
            lemma_find_from_found(line, 0, comma - idx, 44);
            assert(line.take(comma - idx) =~= bytes@.subrange(idx as int, comma as int));
            assert(line.skip(comma - idx + 1) =~= bytes@.subrange(comma as int + 1, nl as int));
        }
        let spoke = match parse_field(bytes, idx, comma, alphabet_size) {
            None => {
                proof {
                    assert(parse_line(line, a) is None);
                }
                return None;
            },
            Some(sy) => sy,
        };
        let cycle = match parse_field(bytes, comma + 1, nl, alphabet_size) {
            None => {
                proof {
                    assert(parse_line(line, a) is None);
                }
                return None;
            },
            Some(sy) => sy,
        };
        if cycle.len() == 0 {
            proof {
                assert(parse_line(line, a) is None);
            }
            return None;
        }
        let w = UpWord { spoke, cycle };
        let ghost wv = w@;
        proof {
            assert(parse_line(line, a) == Some(wv));
            assert(tail.skip(nl - idx + 1) =~= bytes@.skip(nl as int + 1));
            assert(spec_parse(tail, a) == match spec_parse(bytes@.skip(nl as int + 1), a) {
                None => None::<Seq<UpWordV>>,
                Some(ws) => Some(seq![wv] + ws),
            });
        }
        acc.push(w);
        proof {
            assert(acc@.map_values(|w: UpWord| w@) =~= accv.push(wv));
            match spec_parse(bytes@.skip(nl as int + 1), a) {
                None => {
                    assert(spec_parse(bytes@, a) is None);
                },
                Some(ws) => {
                    assert(accv + (seq![wv] + ws) =~= accv.push(wv) + ws);
                },
            }
        }
        idx = nl + 1;
    }
    proof {
        assert(bytes@.skip(bytes@.len() as int) =~= Seq::<u8>::empty());
        assert(spec_parse(bytes@.skip(bytes@.len() as int), a) == Some(Seq::<UpWordV>::empty()));
        assert(acc@.map_values(|w: UpWord| w@) + Seq::<UpWordV>::empty() =~= acc@.map_values(
            |w: UpWord| w@,
        ));
    }
    Some(acc)
}

/// The letter byte of a symbol.
pub proof fn lemma_symbol_byte(x: u8)
    requires
        x < 26,
    ensures
        symbol_char(x as nat) as u8 == 97 + x,
{
}

/// The byte field of a rendered symbol sequence: one letter byte per
/// symbol, each inside the alphabet's letter range, and reading the
/// field back yields the symbols again.
pub proof fn lemma_field_props(x: Seq<u8>, a: nat)
    requires
        a <= 26,
        forall|i: int| 0 <= i < x.len() ==> (#[trigger] x[i] as nat) < a,
    ensures
        field_bytes(symbols_field(x)).len() == x.len(),
        forall|i: int|
            0 <= i < x.len() ==> 97 <= #[trigger] field_bytes(symbols_field(x))[i] && (field_bytes(
                symbols_field(x),
            )[i] as nat) < 97 + a,
        parse_symbols(field_bytes(symbols_field(x))) == x,
{
    let f = field_bytes(symbols_field(x));
    assert forall|i: int| 0 <= i < x.len() implies 97 <= #[trigger] f[i] && (f[i] as nat) < 97
        + a by {
        assert(symbols_field(x)[i] == symbol_char(x[i] as nat));
        assert(f[i] == symbol_char(x[i] as nat) as u8);
        lemma_symbol_byte(x[i]);
    }
    assert forall|i: int| 0 <= i < x.len() implies #[trigger] parse_symbols(f)[i] == x[i] by {
        assert(f[i] == symbol_char(x[i] as nat) as u8);
        lemma_symbol_byte(x[i]);
    }
    assert(parse_symbols(f) =~= x);
}

/// Round trip: exporting a word sample to text records and parsing the
/// records back recovers the original spoke and cycle sequences exactly.
pub proof fn lemma_parse_round_trip(s: Seq<UpWordV>, a: nat)
    requires
        1 <= a <= 26,
        forall|i: int| 0 <= i < s.len() ==> word_wf(#[trigger] s[i], a),
    ensures
        spec_parse(plain_csv_bytes(word_rows(s)), a) == Some(s),
    decreases s.len(),
{
    let enc = plain_csv_bytes(word_rows(s));
    if s.len() == 0 {
        assert(word_rows(s) =~= Seq::<Seq<Seq<char>>>::empty());
        assert(enc.len() == 0);
        assert(s =~= Seq::<UpWordV>::empty());
    } else {
        let rows = word_rows(s);
        let w = s[0];
        assert(word_wf(w, a));
        let fsp = field_bytes(symbols_field(w.spoke));
        let fcy = field_bytes(symbols_field(w.cycle));
        lemma_field_props(w.spoke, a);
        lemma_field_props(w.cycle, a);
        assert(rows[0] == word_row(w));
        let row = word_row(w);
        assert(row.len() == 2);
        assert(row.skip(1) =~= seq![symbols_field(w.cycle)]);
        assert(joined_fields(row.skip(1)) == fcy);
        let line = fsp + seq![44u8] + fcy;
        assert(joined_fields(row) =~= line);
        let rb = row_bytes(row);
        assert(rb =~= line + seq![10u8]);
        let rest = plain_csv_bytes(rows.skip(1));
        assert(enc == rb + rest);
        let ln = line.len() as int;
        assert(enc[ln] == 10) by {
            assert(rb[ln] == 10);
        }
        assert forall|k: int| 0 <= k < ln implies enc[k] != 10 by {
            assert(enc[k] == line[k]);
            if k < fsp.len() {
                assert(line[k] == fsp[k]);
            } else if k == fsp.len() {
                assert(line[k] == 44);
            } else {
                assert(line[k] == fcy[k - fsp.len() - 1]);
            }
        }
        lemma_find_from_found(enc, 0, ln, 10);
        assert(enc.take(ln) =~= line);
        assert(enc.skip(ln + 1) =~= rest);
        // the line splits at its first comma, which ends the spoke field
        let cp = fsp.len() as int;
        assert(line[cp] == 44);
        assert forall|k: int| 0 <= k < cp implies line[k] != 44 by {
            assert(line[k] == fsp[k]);
        }
        lemma_find_from_found(line, 0, cp, 44);
        assert(line.take(cp) =~= fsp);
        assert(line.skip(cp + 1) =~= fcy);
        assert(valid_field(fsp, a));
        assert(valid_field(fcy, a));
        assert(fcy.len() >= 1);
        assert(parse_line(line, a) == Some(
            UpWordV { spoke: parse_symbols(fsp), cycle: parse_symbols(fcy) },
        ));
        assert(UpWordV { spoke: parse_symbols(fsp), cycle: parse_symbols(fcy) } =~= w);
        // the remaining records are the encoding of the remaining words
        assert(word_rows(s.skip(1)) =~= rows.skip(1));
        assert forall|i: int| 0 <= i < s.skip(1).len() implies word_wf(
            #[trigger] s.skip(1)[i],
            a,
        ) by {
            assert(s.skip(1)[i] == s[i + 1]);
        }
        lemma_parse_round_trip(s.skip(1), a);
        assert(spec_parse(rest, a) == Some(s.skip(1)));
        assert(seq![w] + s.skip(1) =~= s);
        assert(spec_parse(enc, a) == Some(s));
    }
}

} // verus!
