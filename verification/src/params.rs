//! Parameter planning: word-length bounds and the oversized generation
//! target, derived from a requested automaton size.

use vstd::prelude::*;

verus! {

/// Largest supported target size. The rounded-logarithm computation
/// squares the target, and the square must fit a `usize` on a 32-bit
/// machine: 65535 is the largest value whose square does.
pub const MAX_TARGET_SIZE: usize = 65535;

/// 2^k.
pub open spec fn pow2(k: nat) -> nat
    decreases k,
{
    if k == 0 {
        1
    } else {
        2 * pow2((k - 1) as nat)
    }
}

/// floor(log2(n)) for n >= 1 (0 for n <= 1).
pub open spec fn floor_log2(n: nat) -> nat
    decreases n,
{
    if n <= 1 {
        0
    } else {
        1 + floor_log2(n / 2)
    }
}

/// ceil(log2(n)) for n >= 1 (0 for n <= 1).
pub open spec fn ceil_log2(n: nat) -> nat
    decreases n,
{
    if n <= 1 {
        0
    } else {
        1 + ceil_log2((n + 1) / 2)
    }
}

/// log2(n) rounded to the nearest integer, for n >= 1. log2 of an integer
/// is never exactly halfway between two integers, so no tie rule is needed:
/// rounding up happens exactly when n * n >= 2^(2 * floor_log2(n) + 1).
pub open spec fn round_log2(n: nat) -> nat {
    if n * n >= pow2(2 * floor_log2(n) + 1) {
        floor_log2(n) + 1
    } else {
        floor_log2(n)
    }
}

pub proof fn lemma_pow2_pos(k: nat)
    ensures
        pow2(k) >= 1,
    decreases k,
{
    if k > 0 {
        lemma_pow2_pos((k - 1) as nat);
    }
}

/// floor_log2 is characterised by pow2(f) <= n < pow2(f + 1).
pub proof fn lemma_floor_log2_bounds(n: nat)
    requires
        n >= 1,
    ensures
        pow2(floor_log2(n)) <= n,
        n < pow2(floor_log2(n) + 1),
    decreases n,
{
    if n <= 1 {
    } else {
        lemma_floor_log2_bounds(n / 2);
    }
}

/// ceil_log2 is characterised by: n <= pow2(c), and for n >= 2 also
/// pow2(c - 1) < n.
pub proof fn lemma_ceil_log2_bounds(n: nat)
    requires
        n >= 1,
    ensures
        n <= pow2(ceil_log2(n)),
        n >= 2 ==> ceil_log2(n) >= 1 && pow2((ceil_log2(n) - 1) as nat) < n,
    decreases n,
{
    if n <= 1 {
    } else {
        lemma_ceil_log2_bounds((n + 1) / 2);
    }
}

/// The characterisation determines ceil_log2 uniquely.
pub proof fn lemma_ceil_log2_unique(n: nat, k: nat)
    requires
        n >= 2,
        k >= 1,
        n <= pow2(k),
        pow2((k - 1) as nat) < n,
    ensures
        k == ceil_log2(n),
{
    lemma_ceil_log2_bounds(n);
    let c = ceil_log2(n);
    if k < c {
        lemma_pow2_monotone(k, (c - 1) as nat);
        assert(false);
    }
    if k > c {
        lemma_pow2_monotone(c, (k - 1) as nat);
        assert(false);
    }
}

pub proof fn lemma_pow2_monotone(a: nat, b: nat)
    requires
        a <= b,
    ensures
        pow2(a) <= pow2(b),
    decreases b,
{
    if a < b {
        lemma_pow2_monotone(a, (b - 1) as nat);
        lemma_pow2_pos((b - 1) as nat);
    }
}

/// ceil_log2(n) < n for n >= 2.
pub proof fn lemma_ceil_log2_small(n: nat)
    requires
        n >= 2,
    ensures
        ceil_log2(n) < n,
    decreases n,
{
    if n == 2 {
        assert(ceil_log2(2nat) == 1) by {
            reveal_with_fuel(ceil_log2, 3);
        }
    } else {
        lemma_ceil_log2_small((n + 1) / 2);
    }
}

/// The exact power of two at the supported range's edge, used to bound
/// derived quantities.
pub proof fn lemma_pow2_16()
    ensures
        pow2(16) == 65536,
{
    assert(pow2(16) == 65536) by {
        reveal_with_fuel(pow2, 17);
    }
}

/// Exact floor of log2, by doubling. Also returns pow2 of the result.
fn floor_log2_exec(n: usize) -> (r: (usize, usize))
    requires
        1 <= n <= MAX_TARGET_SIZE,
    ensures
        r.0 == floor_log2(n as nat),
        r.1 == pow2(r.0 as nat),
        r.1 <= n,
{
    let mut f: usize = 0;
    let mut p: usize = 1;
    proof {
        lemma_floor_log2_bounds(n as nat);
    }
    while 2 * p <= n
        invariant
            1 <= n <= MAX_TARGET_SIZE,
            p == pow2(f as nat),
            1 <= p <= n,
            f <= 16,
            pow2(floor_log2(n as nat)) <= n < pow2(floor_log2(n as nat) + 1),
            f <= floor_log2(n as nat),
        decreases n - p,
    {
        p = 2 * p;
        f = f + 1;
        proof {
            if f > floor_log2(n as nat) {
                lemma_pow2_monotone(floor_log2(n as nat) + 1, f as nat);
                assert(false);
            }
            if f > 16 {
                lemma_pow2_16();
                lemma_pow2_monotone(17, f as nat);
                assert(false);
            }
        }
    }
    proof {
        // 2 * p > n, so pow2(f + 1) > n; with p <= n this pins f.
        if f < floor_log2(n as nat) {
            lemma_pow2_monotone(f as nat + 1, floor_log2(n as nat));
            assert(false);
        }
    }
    (f, p)
}

/// Exact ceiling of log2, by doubling.
fn ceil_log2_exec(n: usize) -> (r: usize)
    requires
        1 <= n <= MAX_TARGET_SIZE,
    ensures
        r == ceil_log2(n as nat),
        r <= 16,
{
    let mut c: usize = 0;
    let mut p: usize = 1;
    proof {
        lemma_ceil_log2_bounds(n as nat);
        if ceil_log2(n as nat) > 16 {
            lemma_pow2_16();
            lemma_pow2_monotone(17, ceil_log2(n as nat));
            lemma_ceil_log2_bounds(n as nat);
            assert(false);
        }
    }
    if n == 1 {
        return 0;
    }
    while p < n
        invariant
            2 <= n <= MAX_TARGET_SIZE,
            p == pow2(c as nat),
            p >= 1,
            c <= 16,
            c >= 1 ==> pow2((c - 1) as nat) < n,
            p < n ==> c <= ceil_log2(n as nat),
            p <= 2 * n,
        decreases 2 * n - p,
    {
        p = 2 * p;
        c = c + 1;
        proof {
            lemma_ceil_log2_bounds(n as nat);
            if p < n && c > ceil_log2(n as nat) {
                lemma_pow2_monotone(ceil_log2(n as nat), (c - 1) as nat);
                assert(false);
            }
            if c > 16 {
                lemma_pow2_16();
                lemma_pow2_monotone(17, c as nat);
                assert(false);
            }
        }
    }
    proof {
        lemma_ceil_log2_unique(n as nat, c as nat);
    }
    c
}

/// Derive the word-length bounds for a target automaton size:
/// spoke_len = 2 * ceil(log2(target_size)) - 1 and
/// cycle_len = (2 * target_size - spoke_len) * spoke_len.
///
/// A target size below 2 is rejected explicitly: the spoke-length formula
/// is undefined there (it would be negative).
pub fn derive_word_lengths(target_size: usize) -> (r: Option<(usize, usize)>)
    requires
        target_size <= MAX_TARGET_SIZE,
    ensures
        r is Some <==> target_size >= 2,
        r is Some ==> {
            let (spoke, cycle) = r.unwrap();
            &&& spoke == 2 * ceil_log2(target_size as nat) - 1
            &&& cycle == (2 * target_size - spoke) * spoke
        },
{
    if target_size < 2 {
        return None;
    }
    let c = ceil_log2_exec(target_size);
    proof {
        lemma_ceil_log2_bounds(target_size as nat);
        lemma_ceil_log2_small(target_size as nat);
    }
    let spoke = 2 * c - 1;
    proof {
        assert((2 * target_size - spoke) * spoke <= 131070 * 31) by (nonlinear_arith)
            requires
                1 <= spoke <= 31,
                spoke < 2 * target_size,
                target_size <= 65535,
        ;
    }
    let cycle = (2 * target_size - spoke) * spoke;
    Some((spoke, cycle))
}

/// Derive the oversized generation target:
/// generation_size = target_size + round(log2(target_size)) - 1.
/// This over-sizes the candidate automaton, anticipating that streamlining
/// shrinks it toward target_size; it is a heuristic, not a guarantee.
pub fn derive_generation_size(target_size: usize) -> (r: usize)
    requires
        1 <= target_size <= MAX_TARGET_SIZE,
    ensures
        r == target_size + round_log2(target_size as nat) - 1,
{
    let (f, p) = floor_log2_exec(target_size);
    proof {
        lemma_floor_log2_bounds(target_size as nat);
        lemma_pow2_16();
        if f >= 16 {
            lemma_pow2_monotone(16, f as nat);
            assert(false);
        }
        lemma_pow2_monotone(f as nat, 15);
        assert(pow2(16nat) == 2 * pow2(15nat));
        assert(p <= 32768);
        lemma_pow2_add(f as nat, f as nat);
        assert(pow2(2 * f as nat) == pow2(f as nat) * pow2(f as nat));
        assert(pow2(2 * f as nat + 1) == 2 * pow2(2 * f as nat));
        assert(target_size * target_size <= 65535 * 65535) by (nonlinear_arith)
            requires
                target_size <= 65535,
        ;
        assert(2 * p * p <= 2 * 32768 * 32768) by (nonlinear_arith)
            requires
                p <= 32768,
        ;
        assert(2 * p * p == 2 * (pow2(f as nat) * pow2(f as nat))) by (nonlinear_arith)
            requires
                p == pow2(f as nat),
        ;
    }
    let rounded: usize = if target_size * target_size >= 2 * p * p {
        f + 1
    } else {
        f
    };
    target_size + rounded - 1
}

pub proof fn lemma_pow2_add(a: nat, b: nat)
    ensures
        pow2(a + b) == pow2(a) * pow2(b),
    decreases a,
{
    lemma_pow2_pos(a);
    lemma_pow2_pos(b);
    assert(pow2(a) * pow2(b) >= 1) by (nonlinear_arith)
        requires
            pow2(a) >= 1,
            pow2(b) >= 1,
    ;
    if a == 0 {
        assert(a + b == b);
        assert(pow2(a) == 1);
        assert(pow2(a + b) == pow2(a) * pow2(b));
    } else {
        let a1 = (a - 1) as nat;
        lemma_pow2_add(a1, b);
        assert(a + b == (a1 + b) + 1);
        assert(pow2(a + b) == 2 * pow2(a1 + b));
        assert(pow2(a) == 2 * pow2(a1));
        assert(2 * (pow2(a1) * pow2(b)) == (2 * pow2(a1)) * pow2(b)) by (nonlinear_arith);
        assert(pow2(a + b) == 2 * (pow2(a1) * pow2(b)));
        assert(pow2(a) * pow2(b) == (2 * pow2(a1)) * pow2(b));
        assert(pow2(a + b) == pow2(a) * pow2(b));
    }
}

} // verus!
