//! The grid of magnitudes that a double-precision number can take, and what it
//! means to round a rational number to it.
//!
//! Magnitudes are counted in units of the least positive double, so every one
//! of them is a natural number, and they are indexed in increasing order: index
//! 0 is zero, index 1 is one unit, and [`TOP`] stands for infinity. The index is
//! the bit pattern of the number without its sign.
use vstd::arithmetic::power2::{lemma2_to64, lemma_pow2_pos, lemma_pow2_unfold, pow2};
use vstd::prelude::*;

verus! {

/// Two to the power of 52: how many magnitudes share one exponent.
pub const FRACTION: u64 = 0x10_0000_0000_0000;

/// The index of infinity. Every index below it is a finite magnitude.
pub const TOP: u64 = 0x7ff0_0000_0000_0000;

/// The exponent of the distance between the magnitude at index `k` and the next.
pub open spec fn spacing(k: nat) -> nat {
    if k < FRACTION {
        0
    } else {
        (k / (FRACTION as nat) - 1) as nat
    }
}

/// The magnitude at index `k`, in units of the least positive double. At [`TOP`]
/// it is the value that the next exponent would have, which is where rounding
/// starts to give infinity.
pub open spec fn magnitude(k: nat) -> nat {
    if k < FRACTION {
        k
    } else {
        ((FRACTION + k % (FRACTION as nat)) * pow2(spacing(k))) as nat
    }
}

/// Index `k` is the one nearest to `n / d` units, an even index winning a tie.
pub open spec fn rounds_to(n: nat, d: nat, k: nat) -> bool {
    &&& k <= TOP
    &&& k > 0 ==> {
        let edge = d * (magnitude((k - 1) as nat) + magnitude(k));
        edge < 2 * n || (edge == 2 * n && k % 2 == 0)
    }
    &&& k < TOP ==> {
        let edge = d * (magnitude(k) + magnitude(k + 1));
        2 * n < edge || (edge == 2 * n && k % 2 == 0)
    }
}

/// The index nearest to `n / d` units, an even index winning a tie.
pub open spec fn nearest(n: nat, d: nat) -> nat {
    choose|k: nat| rounds_to(n, d, k)
}

/// A significand of at most 53 bits and an exponent give the index directly.
pub proof fn lemma_magnitude_at(m: nat, q: nat)
    requires
        m <= 2 * FRACTION,
        q > 0 ==> m >= FRACTION,
    ensures
        magnitude(q * FRACTION as nat + m) == m * pow2(q),
{
    let k = q * FRACTION as nat + m;
    let f = FRACTION as nat;
    lemma2_to64();
    if k < FRACTION {
        assert(q == 0);
    } else if m < 2 * f {
        assert(k / f == q + 1 && k % f == m - f) by (nonlinear_arith)
            requires
                k == q * f + m,
                f <= m < 2 * f,
                f == 0x10_0000_0000_0000,
        ;
    } else {
        assert(k / f == q + 2 && k % f == 0) by (nonlinear_arith)
            requires
                k == q * f + m,
                m == 2 * f,
                f == 0x10_0000_0000_0000,
        ;
        lemma_pow2_unfold(q + 1);
        assert(f * pow2(q + 1) == m * pow2(q)) by (nonlinear_arith)
            requires
                pow2(q + 1) == 2 * pow2(q),
                m == 2 * f,
        ;
    }
}

/// Neighbouring magnitudes are one spacing apart.
pub proof fn lemma_step(k: nat)
    ensures
        magnitude(k + 1) == magnitude(k) + pow2(spacing(k)),
        magnitude(k + 1) > magnitude(k),
{
    let f = FRACTION as nat;
    let q = spacing(k);
    let m = (k - q * f) as nat;
    lemma_pow2_pos(q);
    if k >= FRACTION {
        assert(k == (q + 1) * f + k % f) by (nonlinear_arith)
            requires
                q == k / f - 1,
                f > 0,
        ;
        assert((q + 1) * f == q * f + f) by (nonlinear_arith);
        assert(m == f + k % f);
    }
    assert(k == q * FRACTION as nat + m);
    assert(k + 1 == q * FRACTION as nat + (m + 1));
    lemma_magnitude_at(m, q);
    lemma_magnitude_at(m + 1, q);
    assert((m + 1) * pow2(q) == m * pow2(q) + pow2(q)) by (nonlinear_arith);
}

/// Magnitudes grow with their index.
pub proof fn lemma_increasing(i: nat, j: nat)
    requires
        i < j,
    ensures
        magnitude(i) < magnitude(j),
    decreases j,
{
    lemma_step((j - 1) as nat);
    if i < j - 1 {
        lemma_increasing(i, (j - 1) as nat);
    }
}

/// Indices and magnitudes have the same order.
pub proof fn lemma_order(i: nat, j: nat)
    ensures
        i < j <==> magnitude(i) < magnitude(j),
        i == j <==> magnitude(i) == magnitude(j),
{
    if i < j {
        lemma_increasing(i, j);
    } else if j < i {
        lemma_increasing(j, i);
    }
}

/// Every rational below the last magnitude lies between two neighbours.
pub proof fn lemma_floor(n: nat, d: nat, k: nat) -> (f: nat)
    requires
        n < magnitude(k) * d,
    ensures
        f < k,
        magnitude(f) * d <= n < magnitude(f + 1) * d,
    decreases k,
{
    if k == 0 {
        assert(magnitude(0) * d == 0) by (nonlinear_arith)
            requires
                magnitude(0) == 0,
        ;
        0
    } else if magnitude((k - 1) as nat) * d <= n {
        (k - 1) as nat
    } else {
        lemma_floor(n, d, (k - 1) as nat)
    }
}

/// A rational between two neighbours rounds to the one on its side of the middle.
pub proof fn lemma_round_between(n: nat, d: nat, f: nat)
    requires
        d > 0,
        f < TOP,
        magnitude(f) * d <= n < magnitude(f + 1) * d,
    ensures
        ({
            let middle = d * (magnitude(f) + magnitude(f + 1));
            &&& (2 * n < middle || (2 * n == middle && f % 2 == 0)) ==> rounds_to(n, d, f)
            &&& (2 * n > middle || (2 * n == middle && f % 2 == 1)) ==> rounds_to(n, d, f + 1)
        }),
{
    let lo = magnitude(f);
    let hi = magnitude(f + 1);
    lemma_step(f);
    lemma_step(f + 1);
    let up = magnitude(f + 2);
    assert(2 * n < d * (hi + up)) by (nonlinear_arith)
        requires
            n < hi * d,
            hi < up,
            d > 0,
    ;
    assert(f + 1 + 1 == f + 2);
    if f > 0 {
        let down = magnitude((f - 1) as nat);
        lemma_step((f - 1) as nat);
        assert(d * (down + lo) < 2 * n) by (nonlinear_arith)
            requires
                lo * d <= n,
                down < lo,
                d > 0,
        ;
    }
}

/// A rational at or beyond the last magnitude rounds to infinity.
pub proof fn lemma_round_beyond(n: nat, d: nat)
    requires
        d > 0,
        magnitude(TOP as nat) * d <= n,
    ensures
        rounds_to(n, d, TOP as nat),
{
    let down = magnitude((TOP - 1) as nat);
    let last = magnitude(TOP as nat);
    lemma_step((TOP - 1) as nat);
    assert(d * (down + last) < 2 * n) by (nonlinear_arith)
        requires
            last * d <= n,
            down < last,
            d > 0,
    ;
}

/// Rounding is monotone; in particular it has at most one result.
pub proof fn lemma_round_monotone(n1: nat, d1: nat, k1: nat, n2: nat, d2: nat, k2: nat)
    requires
        d1 > 0,
        d2 > 0,
        n1 * d2 <= n2 * d1,
        rounds_to(n1, d1, k1),
        rounds_to(n2, d2, k2),
    ensures
        k1 <= k2,
{
    if k1 > k2 {
        let a = magnitude((k1 - 1) as nat) + magnitude(k1);
        let b = magnitude(k2) + magnitude(k2 + 1);
        if k1 > k2 + 1 {
            lemma_increasing(k2, (k1 - 1) as nat);
            lemma_increasing(k2 + 1, k1);
            assert(a > b);
        } else {
            assert(a == b);
            assert(d1 * a < 2 * n1 || 2 * n2 < d2 * b);
        }
        assert(false) by (nonlinear_arith)
            requires
                a > b || (a == b && (d1 * a < 2 * n1 || 2 * n2 < d2 * b)),
                d1 * a <= 2 * n1,
                2 * n2 <= d2 * b,
                n1 * d2 <= n2 * d1,
                d1 > 0,
                d2 > 0,
        ;
    }
}

/// The nearest index exists.
pub proof fn lemma_nearest(n: nat, d: nat)
    requires
        d > 0,
    ensures
        rounds_to(n, d, nearest(n, d)),
{
    if n < magnitude(TOP as nat) * d {
        let f = lemma_floor(n, d, TOP as nat);
        lemma_round_between(n, d, f);
        assert(rounds_to(n, d, f) || rounds_to(n, d, f + 1));
    } else {
        lemma_round_beyond(n, d);
    }
}

/// The nearest index is the only one that the number rounds to.
pub proof fn lemma_nearest_is(n: nat, d: nat, k: nat)
    requires
        d > 0,
        rounds_to(n, d, k),
    ensures
        nearest(n, d) == k,
{
    lemma_nearest(n, d);
    lemma_round_monotone(n, d, k, n, d, nearest(n, d));
    lemma_round_monotone(n, d, nearest(n, d), n, d, k);
}

/// A larger rational never has a smaller nearest index.
pub proof fn lemma_nearest_monotone(n1: nat, d1: nat, n2: nat, d2: nat)
    requires
        d1 > 0,
        d2 > 0,
        n1 * d2 <= n2 * d1,
    ensures
        nearest(n1, d1) <= nearest(n2, d2),
{
    lemma_nearest(n1, d1);
    lemma_nearest(n2, d2);
    lemma_round_monotone(n1, d1, nearest(n1, d1), n2, d2, nearest(n2, d2));
}

/// A magnitude on the grid is its own nearest.
pub proof fn lemma_nearest_exact(n: nat, d: nat, k: nat)
    requires
        d > 0,
        k <= TOP,
        n == magnitude(k) * d,
    ensures
        nearest(n, d) == k,
{
    if k < TOP {
        lemma_step(k);
        let lo = magnitude(k);
        let hi = magnitude(k + 1);
        assert(n < hi * d && 2 * n < d * (lo + hi)) by (nonlinear_arith)
            requires
                n == lo * d,
                lo < hi,
                d > 0,
        ;
        lemma_round_between(n, d, k);
    } else {
        lemma_round_beyond(n, d);
    }
    lemma_nearest_is(n, d, k);
}

} // verus!
