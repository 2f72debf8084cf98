//! Ultimately periodic words, word samples, and the train/test split
//! policy: delivered words are deduplicated by value (keeping the first
//! occurrence) and split positionally at the requested train count.

use vstd::prelude::*;

verus! {

/// Largest supported alphabet: symbols are rendered as the lower-case
/// letters, so at most 26 are available.
pub const MAX_ALPHABET: usize = 26;

/// Mathematical value of an ultimately periodic word: a finite spoke
/// followed by the infinite repetition of a finite, non-empty cycle.
#[verifier::ext_equal]
pub struct UpWordV {
    pub spoke: Seq<u8>,
    pub cycle: Seq<u8>,
}

/// An ultimately periodic word over symbols `0 .. alphabet_size`.
pub struct UpWord {
    pub spoke: Vec<u8>,
    pub cycle: Vec<u8>,
}

impl View for UpWord {
    type V = UpWordV;

    open spec fn view(&self) -> UpWordV {
        UpWordV { spoke: self.spoke@, cycle: self.cycle@ }
    }
}

/// Well-formedness: the cycle is non-empty and every symbol lies below
/// `alphabet_size`.
pub open spec fn word_wf(w: UpWordV, alphabet_size: nat) -> bool {
    &&& w.cycle.len() >= 1
    &&& forall|i: int| 0 <= i < w.spoke.len() ==> (w.spoke[i] as nat) < alphabet_size
    &&& forall|i: int| 0 <= i < w.cycle.len() ==> (w.cycle[i] as nat) < alphabet_size
}

impl UpWord {
    /// Build a word from its spoke and cycle symbol sequences.
    pub fn new(spoke: Vec<u8>, cycle: Vec<u8>) -> (r: UpWord)
        ensures
            r@ == (UpWordV { spoke: spoke@, cycle: cycle@ }),
    {
        UpWord { spoke, cycle }
    }

    /// An exact copy of this word.
    pub fn duplicate(&self) -> (r: UpWord)
        ensures
            r@ == self@,
    {
        let spoke = clone_bytes(&self.spoke);
        let cycle = clone_bytes(&self.cycle);
        UpWord { spoke, cycle }
    }

    /// Value equality: spoke and cycle agree element-wise.
    pub fn same_word(&self, other: &UpWord) -> (r: bool)
        ensures
            r == (self@ == other@),
    {
        let r = bytes_eq(&self.spoke, &other.spoke) && bytes_eq(&self.cycle, &other.cycle);
        proof {
            if self@.spoke == other@.spoke && self@.cycle == other@.cycle {
                assert(self@ == other@);
            }
            if self@ == other@ {
                assert(self@.spoke == other@.spoke);
                assert(self@.cycle == other@.cycle);
            }
        }
        r
    }
}

/// Element-wise copy of a byte vector.
fn clone_bytes(v: &Vec<u8>) -> (r: Vec<u8>)
    ensures
        r@ == v@,
{
    let mut r: Vec<u8> = Vec::new();
    let mut i: usize = 0;
    while i < v.len()
        invariant
            i <= v.len(),
            r@ == v@.take(i as int),
        decreases v.len() - i,
    {
        r.push(v[i]);
        i = i + 1;
        proof {
            assert(r@ =~= v@.take(i as int));
        }
    }
    proof {
        assert(r@ =~= v@);
    }
    r
}

/// Element-wise equality of byte vectors.
fn bytes_eq(a: &Vec<u8>, b: &Vec<u8>) -> (r: bool)
    ensures
        r == (a@ == b@),
{
    if a.len() != b.len() {
        return false;
    }
    let mut i: usize = 0;
    while i < a.len()
        invariant
            a@.len() == b@.len(),
            i <= a.len(),
            forall|j: int| 0 <= j < i ==> a@[j] == b@[j],
        decreases a.len() - i,
    {
        if a[i] != b[i] {
            return false;
        }
        i = i + 1;
    }
    proof {
        assert(a@ =~= b@);
    }
    true
}

/// No two elements of the sequence are equal in value.
pub open spec fn distinct_words(s: Seq<UpWordV>) -> bool {
    forall|i: int, j: int| 0 <= i < j < s.len() ==> s[i] != s[j]
}

/// No word occurs in both sequences.
pub open spec fn disjoint_words(a: Seq<UpWordV>, b: Seq<UpWordV>) -> bool {
    forall|i: int, j: int| 0 <= i < a.len() && 0 <= j < b.len() ==> a[i] != b[j]
}

/// Deduplication by value, keeping the first occurrence of each word.
pub open spec fn spec_dedup(s: Seq<UpWordV>) -> Seq<UpWordV>
    decreases s.len(),
{
    if s.len() == 0 {
        Seq::empty()
    } else {
        let d = spec_dedup(s.drop_last());
        if d.contains(s.last()) {
            d
        } else {
            d.push(s.last())
        }
    }
}

pub proof fn lemma_dedup_distinct(s: Seq<UpWordV>)
    ensures
        distinct_words(spec_dedup(s)),
        spec_dedup(s).len() <= s.len(),
        forall|i: int|
            0 <= i < spec_dedup(s).len() ==> #[trigger] s.contains(spec_dedup(s)[i]),
    decreases s.len(),
{
    if s.len() > 0 {
        lemma_dedup_distinct(s.drop_last());
        let d = spec_dedup(s.drop_last());
        assert forall|i: int| 0 <= i < spec_dedup(s).len() implies #[trigger] s.contains(
            spec_dedup(s)[i],
        ) by {
            if i < d.len() {
                assert(s.drop_last().contains(d[i]));
                let k = choose|k: int| 0 <= k < s.drop_last().len() && s.drop_last()[k] == d[i];
                assert(s[k] == d[i]);
            } else {
                assert(spec_dedup(s)[i] == s.last());
                assert(s[s.len() - 1] == s.last());
            }
        }
        if !d.contains(s.last()) {
            assert(forall|i: int, j: int|
                0 <= i < j < d.push(s.last()).len() ==> d.push(s.last())[i] != d.push(
                    s.last(),
                )[j]);
        }
    }
}

/// Remove duplicate words, keeping the first occurrence of each value.
pub fn dedup_words(words: Vec<UpWord>) -> (r: Vec<UpWord>)
    ensures
        r@.map_values(|w: UpWord| w@) == spec_dedup(words@.map_values(|w: UpWord| w@)),
{
    let ghost vs = words@.map_values(|w: UpWord| w@);
    let mut r: Vec<UpWord> = Vec::new();
    let mut i: usize = 0;
    while i < words.len()
        invariant
            i <= words.len(),
            vs == words@.map_values(|w: UpWord| w@),
            r@.map_values(|w: UpWord| w@) == spec_dedup(vs.take(i as int)),
        decreases words.len() - i,
    {
        let ghost prefix = vs.take(i as int);
        let ghost wiv = words@[i as int]@;
        let mut seen = false;
        let mut j: usize = 0;
        while j < r.len()
            invariant
                j <= r.len(),
                i < words.len(),
                vs == words@.map_values(|w: UpWord| w@),
                wiv == words@[i as int]@,
                seen ==> exists|k: int| 0 <= k < r@.len() && (#[trigger] r@[k])@ == wiv,
                !seen ==> forall|k: int| 0 <= k < j ==> (#[trigger] r@[k])@ != wiv,
            ensures
                seen ==> exists|k: int| 0 <= k < r@.len() && (#[trigger] r@[k])@ == wiv,
                !seen ==> forall|k: int| 0 <= k < r@.len() ==> (#[trigger] r@[k])@ != wiv,
            decreases r.len() - j,
        {
            if r[j].same_word(&words[i]) {
                seen = true;
                proof {
                    assert((r@[j as int])@ == wiv);
                }
                break;
            }
            j = j + 1;
        }
        proof {
            let rv = r@.map_values(|w: UpWord| w@);
            assert(forall|k: int| 0 <= k < r@.len() ==> rv[k] == (#[trigger] r@[k])@);
            if seen {
                let k = choose|k: int| 0 <= k < r@.len() && (#[trigger] r@[k])@ == wiv;
                assert(rv[k] == wiv);
                assert(rv.contains(wiv));
            } else {
                if rv.contains(wiv) {
                    let k = choose|k: int| 0 <= k < rv.len() && rv[k] == wiv;
                    assert((r@[k])@ == wiv);
                    assert(false);
                }
            }
            assert(seen <==> r@.map_values(|w: UpWord| w@).contains(words@[i as int]@));
            assert(vs.take(i + 1).drop_last() =~= prefix);
            assert(vs.take(i + 1).last() == vs[i as int]);
            assert(vs[i as int] == words@[i as int]@);
        }
        if !seen {
            let w = words[i].duplicate();
            r.push(w);
            proof {
                assert(r@.map_values(|w: UpWord| w@) =~= spec_dedup(prefix).push(
                    words@[i as int]@,
                ));
            }
        }
        i = i + 1;
    }
    proof {
        assert(vs.take(words@.len() as int) =~= vs);
    }
    r
}

/// Positional split: the first `train_size` words (or all of them, if
/// fewer) form the training side, the remainder the test side.
pub fn split_sample(mut words: Vec<UpWord>, train_size: usize) -> (r: (Vec<UpWord>, Vec<UpWord>))
    ensures
        r.0@.map_values(|w: UpWord| w@) == words@.map_values(|w: UpWord| w@).take(
            spec_split_point(words@.len() as nat, train_size as nat) as int,
        ),
        r.1@.map_values(|w: UpWord| w@) == words@.map_values(|w: UpWord| w@).skip(
            spec_split_point(words@.len() as nat, train_size as nat) as int,
        ),
        r.0@.len() <= train_size,
        r.0@.len() + r.1@.len() == words@.len(),
{
    let ghost orig = words@;
    let cut = if train_size <= words.len() {
        train_size
    } else {
        words.len()
    };
    let test = words.split_off(cut);
    proof {
        assert(words@.map_values(|w: UpWord| w@) =~= orig.map_values(|w: UpWord| w@).take(
            cut as int,
        ));
        assert(test@.map_values(|w: UpWord| w@) =~= orig.map_values(|w: UpWord| w@).skip(
            cut as int,
        ));
    }
    (words, test)
}

/// The actual split index: train_size, capped at the sample length.
pub open spec fn spec_split_point(len: nat, train_size: nat) -> nat {
    if train_size <= len {
        train_size
    } else {
        len
    }
}

/// Every word of the sequence is well formed over the alphabet and keeps
/// its spoke and cycle within the given length bounds.
pub open spec fn words_within(
    s: Seq<UpWordV>,
    alphabet_size: nat,
    max_spoke: nat,
    max_cycle: nat,
) -> bool {
    forall|i: int|
        0 <= i < s.len() ==> word_wf(#[trigger] s[i], alphabet_size) && s[i].spoke.len()
            <= max_spoke && s[i].cycle.len() <= max_cycle
}

/// Source of random ultimately periodic words. The delivered count may
/// fall short of the request (a degenerate parameter space yields fewer
/// distinct words); every delivered word respects the declared bounds.
pub trait WordSource {
    fn sample_words(
        &mut self,
        alphabet_size: usize,
        max_spoke: usize,
        max_cycle: usize,
        count: usize,
    ) -> (r: Vec<UpWord>)
        requires
            1 <= alphabet_size <= MAX_ALPHABET,
            1 <= max_cycle,
        ensures
            r@.len() <= count,
            words_within(
                r@.map_values(|w: UpWord| w@),
                alphabet_size as nat,
                max_spoke as nat,
                max_cycle as nat,
            ),
    ;
}

/// Does the word respect the alphabet and the length bounds?
fn word_fits(w: &UpWord, alphabet_size: usize, max_spoke: usize, max_cycle: usize) -> (r: bool)
    requires
        1 <= alphabet_size <= MAX_ALPHABET,
    ensures
        r == (word_wf(w@, alphabet_size as nat) && w@.spoke.len() <= max_spoke && w@.cycle.len()
            <= max_cycle),
{
    if w.cycle.len() == 0 || w.spoke.len() > max_spoke || w.cycle.len() > max_cycle {
        return false;
    }
    let mut i: usize = 0;
    while i < w.spoke.len()
        invariant
            1 <= alphabet_size <= MAX_ALPHABET,
            i <= w.spoke.len(),
            forall|j: int| 0 <= j < i ==> (w.spoke@[j] as nat) < alphabet_size as nat,
        decreases w.spoke.len() - i,
    {
        if w.spoke[i] >= alphabet_size as u8 {
            return false;
        }
        proof {
            assert((w.spoke@[i as int] as nat) < alphabet_size as nat);
        }
        i = i + 1;
    }
    let mut i: usize = 0;
    while i < w.cycle.len()
        invariant
            1 <= alphabet_size <= MAX_ALPHABET,
            w@.cycle.len() >= 1,
            w@.spoke.len() <= max_spoke,
            w@.cycle.len() <= max_cycle,
            i <= w.cycle.len(),
            forall|j: int| 0 <= j < w.spoke@.len() ==> (w.spoke@[j] as nat) < alphabet_size as nat,
            forall|j: int| 0 <= j < i ==> (w.cycle@[j] as nat) < alphabet_size as nat,
        decreases w.cycle.len() - i,
    {
        if w.cycle[i] >= alphabet_size as u8 {
            return false;
        }
        proof {
            assert((w.cycle@[i as int] as nat) < alphabet_size as nat);
        }
        i = i + 1;
    }
    true
}

/// A scripted word source: delivers its queued words in order, skipping
/// any that do not respect the requested bounds, up to the requested
/// count. The queue itself is left untouched.
pub struct ScriptedWordSource {
    pub queue: Vec<UpWord>,
}

impl WordSource for ScriptedWordSource {
    fn sample_words(
        &mut self,
        alphabet_size: usize,
        max_spoke: usize,
        max_cycle: usize,
        count: usize,
    ) -> (r: Vec<UpWord>) {
        let mut out: Vec<UpWord> = Vec::new();
        let mut i: usize = 0;
        while i < self.queue.len()
            invariant
                1 <= alphabet_size <= MAX_ALPHABET,
                i <= self.queue.len(),
                out@.len() <= count,
                words_within(
                    out@.map_values(|w: UpWord| w@),
                    alphabet_size as nat,
                    max_spoke as nat,
                    max_cycle as nat,
                ),
            decreases self.queue.len() - i,
        {
            if out.len() >= count {
                break;
            }
            let ghost prev = out@.map_values(|w: UpWord| w@);
            if word_fits(&self.queue[i], alphabet_size, max_spoke, max_cycle) {
                let w = self.queue[i].duplicate();
                let ghost wv = w@;
                out.push(w);
                proof {
                    let cur = out@.map_values(|w: UpWord| w@);
                    assert(cur =~= prev.push(wv));
                }
            }
            i = i + 1;
        }
        out
    }
}

/// Generate a training/test pair of random ultimately periodic words:
/// request `train_size + test_size` words within the given bounds,
/// deduplicate by value keeping the delivery order, and split
/// positionally after the first `train_size` words. A short delivery
/// silently yields smaller samples.
pub fn generate_set<S: WordSource>(
    source: &mut S,
    num_symbols: usize,
    len_spoke: usize,
    len_cycle: usize,
    train_size: usize,
    test_size: usize,
) -> (r: (Vec<UpWord>, Vec<UpWord>))
    requires
        1 <= num_symbols <= MAX_ALPHABET,
        1 <= len_cycle,
        train_size + test_size <= usize::MAX,
    ensures
        r.0@.len() <= train_size,
        r.1@.len() <= test_size,
        distinct_words(r.0@.map_values(|w: UpWord| w@)),
        distinct_words(r.1@.map_values(|w: UpWord| w@)),
        disjoint_words(r.0@.map_values(|w: UpWord| w@), r.1@.map_values(|w: UpWord| w@)),
        words_within(
            r.0@.map_values(|w: UpWord| w@),
            num_symbols as nat,
            len_spoke as nat,
            len_cycle as nat,
        ),
        words_within(
            r.1@.map_values(|w: UpWord| w@),
            num_symbols as nat,
            len_spoke as nat,
            len_cycle as nat,
        ),
{
    let delivered = source.sample_words(num_symbols, len_spoke, len_cycle, train_size + test_size);
    let ghost dv = delivered@.map_values(|w: UpWord| w@);
    let unique = dedup_words(delivered);
    let ghost uv = unique@.map_values(|w: UpWord| w@);
    proof {
        lemma_dedup_distinct(dv);
        assert forall|i: int| 0 <= i < uv.len() implies word_wf(
            #[trigger] uv[i],
            num_symbols as nat,
        ) && uv[i].spoke.len() <= len_spoke as nat && uv[i].cycle.len() <= len_cycle as nat by {
            assert(dv.contains(uv[i]));
            let k = choose|k: int| 0 <= k < dv.len() && dv[k] == uv[i];
            assert(word_wf(dv[k], num_symbols as nat));
        }
    }
    let (train, test) = split_sample(unique, train_size);
    proof {
        let tv = train@.map_values(|w: UpWord| w@);
        let sv = test@.map_values(|w: UpWord| w@);
        let cut = spec_split_point(uv.len() as nat, train_size as nat) as int;
        assert(tv == uv.take(cut));
        assert(sv == uv.skip(cut));
        assert(distinct_words(tv)) by {
            assert(forall|i: int| 0 <= i < tv.len() ==> tv[i] == uv[i]);
        }
        assert(distinct_words(sv)) by {
            assert(forall|i: int| 0 <= i < sv.len() ==> sv[i] == uv[i + cut]);
        }
        assert(disjoint_words(tv, sv)) by {
            assert(forall|i: int| 0 <= i < tv.len() ==> tv[i] == uv[i]);
            assert(forall|j: int| 0 <= j < sv.len() ==> sv[j] == uv[j + cut]);
        }
        assert(sv.len() <= test_size) by {
            assert(uv.len() <= dv.len());
            assert(dv.len() <= train_size + test_size);
        }
        assert(words_within(tv, num_symbols as nat, len_spoke as nat, len_cycle as nat)) by {
            assert(forall|i: int| 0 <= i < tv.len() ==> tv[i] == uv[i]);
        }
        assert(words_within(sv, num_symbols as nat, len_spoke as nat, len_cycle as nat)) by {
            assert(forall|j: int| 0 <= j < sv.len() ==> sv[j] == uv[j + cut]);
        }
    }
    (train, test)
}

} // verus!
