//! Rounding a significand of up to 128 bits, with an exponent, to the grid.
use crate::double::grid::{
    lemma_magnitude_at, lemma_round_between, lemma_round_beyond, lemma_step, magnitude, rounds_to,
    FRACTION, TOP,
};
use vstd::arithmetic::power2::{
    lemma2_to64, lemma_pow2_adds, lemma_pow2_pos, lemma_pow2_strictly_increases, lemma_pow2_unfold,
    pow2,
};
use vstd::prelude::*;

verus! {

/// On which side of the middle between two neighbouring magnitudes a number lies.
#[derive(Clone, Copy)]
pub enum Half {
    Below,
    Middle,
    Above,
}

/// The part of two to the power of `t` that is a whole number.
pub open spec fn scale_up(t: int) -> nat {
    if t >= 0 {
        pow2(t as nat)
    } else {
        1
    }
}

/// The denominator of two to the power of `t`.
pub open spec fn scale_down(t: int) -> nat {
    if t >= 0 {
        1
    } else {
        pow2((-t) as nat)
    }
}

/// Where a number lies on the grid that is `s` times two to the power of `t`
/// units, or, when `sticky`, more than that and less than `s + 1` times it:
/// at or above the magnitude at index `f`, below the next one, and in the given
/// half of the gap. For [`TOP`] only the first is meant.
pub open spec fn located(s: nat, t: int, sticky: bool, f: nat, half: Half) -> bool {
    let unit = scale_up(t);
    let base = scale_down(t);
    let middle = (magnitude(f) + magnitude(f + 1)) * base;
    &&& f <= TOP
    &&& magnitude(f) * base <= s * unit
    &&& f < TOP ==> {
        &&& if sticky {
            (s + 1) * unit <= magnitude(f + 1) * base
        } else {
            s * unit < magnitude(f + 1) * base
        }
        &&& match half {
            Half::Below => if sticky {
                2 * ((s + 1) * unit) <= middle
            } else {
                2 * (s * unit) < middle
            },
            Half::Middle => !sticky && 2 * (s * unit) == middle,
            Half::Above => if sticky {
                2 * (s * unit) >= middle
            } else {
                2 * (s * unit) > middle
            },
        }
    }
}

/// The index chosen for a number in the given half of the gap above index `f`.
pub open spec fn settled(f: nat, half: Half) -> nat {
    if f >= TOP {
        f
    } else {
        match half {
            Half::Below => f,
            Half::Middle => f + f % 2,
            Half::Above => f + 1,
        }
    }
}

/// Index `k` is the one that a located number settles on.
pub open spec fn rounded(s: nat, t: int, sticky: bool, k: nat) -> bool {
    exists|f: nat, half: Half| #[trigger] located(s, t, sticky, f, half) && k == settled(f, half)
}

/// Two to the power of `e`.
pub(crate) fn power_of_two(e: u32) -> (p: u128)
    requires
        e < 128,
    ensures
        p == pow2(e as nat),
{
    let mut p: u128 = 1;
    let mut i: u32 = 0;
    proof {
        lemma2_to64();
    }
    while i < e
        invariant
            i <= e < 128,
            p == pow2(i as nat),
        decreases e - i,
    {
        proof {
            lemma_pow2_unfold((i + 1) as nat);
            lemma_pow2_127();
            if i + 1 < 127 {
                lemma_pow2_strictly_increases((i + 1) as nat, 127);
            }
        }
        p = p * 2;
        i = i + 1;
    }
    p
}

pub(crate) proof fn lemma_pow2_127()
    ensures
        pow2(127) == 0x8000_0000_0000_0000_0000_0000_0000_0000,
        pow2(128) == 0x1_0000_0000_0000_0000_0000_0000_0000_0000,
{
    lemma2_to64();
    lemma_pow2_adds(64, 64);
    lemma_pow2_adds(64, 63);
    assert(0x1_0000_0000_0000_0000int * 0x1_0000_0000_0000_0000int
        == 0x1_0000_0000_0000_0000_0000_0000_0000_0000int);
    assert(pow2(63) == 0x8000_0000_0000_0000) by {
        lemma_pow2_unfold(64);
    }
}

/// How many bits the significand has.
pub(crate) fn bit_length(s: u128) -> (b: u32)
    ensures
        b <= 128,
        s < pow2(b as nat),
        b > 0 ==> pow2((b - 1) as nat) <= s,
        b == 0 <==> s == 0,
{
    let mut b: u32 = 0;
    let mut r: u128 = s;
    proof {
        lemma2_to64();
    }
    while r > 0
        invariant
            b <= 128,
            r * pow2(b as nat) <= s < (r + 1) * pow2(b as nat),
            b > 0 ==> pow2((b - 1) as nat) <= s,
            b == 0 ==> r == s,
        decreases r,
    {
        let ghost p = pow2(b as nat);
        proof {
            lemma_pow2_pos(b as nat);
            lemma_pow2_unfold((b + 1) as nat);
            assert(p <= s) by (nonlinear_arith)
                requires
                    r * p <= s,
                    r >= 1,
                    p > 0,
            ;
            lemma_pow2_127();
            if b >= 128 {
                assert(false);
            }
            assert((r / 2) * (2 * p) <= s < (r / 2 + 1) * (2 * p)) by (nonlinear_arith)
                requires
                    r * p <= s < (r + 1) * p,
                    p > 0,
                    2 * (r / 2) <= r < 2 * (r / 2) + 2,
            ;
        }
        r = r / 2;
        b = b + 1;
    }
    proof {
        let p = pow2(b as nat);
        assert((r + 1) * p == p) by (nonlinear_arith)
            requires
                r == 0,
        ;
        if b > 0 {
            lemma_pow2_pos((b - 1) as nat);
        }
    }
    b
}

pub(crate) proof fn lemma_scales(t: int, q: nat, shift: nat)
    requires
        q - t == shift,
    ensures
        scale_up(t) > 0,
        scale_down(t) > 0,
        pow2(shift) * scale_up(t) == pow2(q) * scale_down(t),
{
    if t >= 0 {
        lemma_pow2_pos(t as nat);
        lemma_pow2_adds(shift, t as nat);
        assert(pow2(shift) * pow2(t as nat) == pow2(q));
        assert(pow2(q) * 1 == pow2(q)) by (nonlinear_arith);
    } else {
        lemma_pow2_pos((-t) as nat);
        lemma_pow2_adds(q, (-t) as nat);
        assert(pow2(shift) * 1 == pow2(shift)) by (nonlinear_arith);
    }
}

/// Splitting the significand at the last bit that the grid keeps locates it.
proof fn lemma_located(s: nat, t: int, sticky: bool, m: nat, rem: nat, q: nat, shift: nat, half: Half)
    requires
        q - t == shift,
        shift >= 1,
        q <= 2045,
        m < 2 * FRACTION,
        q > 0 ==> m >= FRACTION,
        s == m * pow2(shift) + rem,
        rem < pow2(shift),
        half == (if rem < pow2((shift - 1) as nat) {
            Half::Below
        } else if rem > pow2((shift - 1) as nat) || sticky {
            Half::Above
        } else {
            Half::Middle
        }),
    ensures
        q * FRACTION as nat + m < TOP,
        located(s, t, sticky, q * FRACTION as nat + m, half),
{
    let f = q * FRACTION as nat + m;
    let unit = scale_up(t);
    let base = scale_down(t);
    let h = pow2((shift - 1) as nat);
    let p = pow2(shift);
    let w = p * unit;
    lemma_scales(t, q, shift);
    lemma_pow2_unfold(shift);
    lemma_magnitude_at(m, q);
    lemma_magnitude_at(m + 1, q);
    assert(q * FRACTION as nat + (m + 1) == f + 1);
    let g = pow2(q);
    assert((m * g) * base == m * w) by (nonlinear_arith)
        requires
            w == g * base,
    ;
    assert(((m + 1) * g) * base == (m + 1) * w) by (nonlinear_arith)
        requires
            w == g * base,
    ;
    assert((m * g + (m + 1) * g) * base == (2 * m + 1) * w) by (nonlinear_arith)
        requires
            w == g * base,
    ;
    assert(m * w <= s * unit) by (nonlinear_arith)
        requires
            w == p * unit,
            s == m * p + rem,
    ;
    assert((s + 1) * unit <= (m + 1) * w) by (nonlinear_arith)
        requires
            w == p * unit,
            s == m * p + rem,
            rem < p,
    ;
    assert(s * unit < (s + 1) * unit) by (nonlinear_arith)
        requires
            unit > 0,
    ;
    if rem < h {
        assert(2 * ((s + 1) * unit) <= (2 * m + 1) * w) by (nonlinear_arith)
            requires
                w == p * unit,
                p == 2 * h,
                s == m * p + rem,
                rem < h,
        ;
    } else if rem > h {
        assert(2 * (s * unit) > (2 * m + 1) * w) by (nonlinear_arith)
            requires
                w == p * unit,
                p == 2 * h,
                s == m * p + rem,
                rem > h,
                unit > 0,
        ;
    } else {
        assert(2 * (s * unit) == (2 * m + 1) * w) by (nonlinear_arith)
            requires
                w == p * unit,
                p == 2 * h,
                s == m * p + rem,
                rem == h,
        ;
    }
}

/// A significand that the grid can hold whole lies on the grid.
proof fn lemma_located_exact(s: nat, t: int, m: nat, q: nat, shift: nat)
    requires
        t - q == shift,
        q <= 2045,
        m == s * pow2(shift),
        m < 2 * FRACTION,
        q > 0 ==> m >= FRACTION,
    ensures
        q * FRACTION as nat + m < TOP,
        located(s, t, false, q * FRACTION as nat + m, Half::Below),
{
    let f = q * FRACTION as nat + m;
    lemma_magnitude_at(m, q);
    lemma_step(f);
    lemma_pow2_adds(shift, q);
    let p = pow2(shift);
    let g = pow2(q);
    assert(m * g == s * (p * g)) by (nonlinear_arith)
        requires
            m == s * p,
    ;
    assert(magnitude(f) * 1 == magnitude(f)) by (nonlinear_arith);
    assert(magnitude(f + 1) * 1 == magnitude(f + 1)) by (nonlinear_arith);
    assert((magnitude(f) + magnitude(f + 1)) * 1 == magnitude(f) + magnitude(f + 1)) by (nonlinear_arith);
}

/// A significand beyond the last exponent lies at or above infinity.
proof fn lemma_located_beyond(s: nat, t: int, sticky: bool, b: nat)
    requires
        0 < b <= 128,
        pow2((b - 1) as nat) <= s,
        t + b - 53 > 2045,
    ensures
        located(s, t, sticky, TOP as nat, Half::Below),
{
    let e = (t + b - 1) as nat;
    lemma2_to64();
    lemma_pow2_adds((b - 1) as nat, t as nat);
    assert(s * pow2(t as nat) >= pow2((b - 1) as nat) * pow2(t as nat)) by (nonlinear_arith)
        requires
            s >= pow2((b - 1) as nat),
    ;
    lemma_magnitude_at(FRACTION as nat, 2046);
    assert(2046 * FRACTION as nat + FRACTION as nat == TOP);
    lemma_pow2_52();
    lemma_pow2_adds(52, 2046);
    if e > 2098 {
        lemma_pow2_strictly_increases(2098, e);
    }
    assert(magnitude(TOP as nat) * 1 == magnitude(TOP as nat)) by (nonlinear_arith);
}

pub(crate) proof fn lemma_pow2_52()
    ensures
        pow2(52) == FRACTION,
        pow2(53) == 2 * FRACTION,
{
    lemma2_to64();
    lemma_pow2_adds(32, 20);
    lemma_pow2_unfold(53);
}

/// Finds where a scaled significand lies on the grid.
pub(crate) fn locate(s: u128, t: i32, sticky: bool) -> (r: (u64, Half))
    requires
        -5000 <= t <= 5000,
        sticky ==> s >= 0x40_0000_0000_0000,
    ensures
        located(s as nat, t as int, sticky, r.0 as nat, r.1),
{
    if s == 0 {
        proof {
            lemma_located_zero(t as int);
        }
        return (0, Half::Below);
    }
    let b: u32 = bit_length(s);
    let kept: i32 = t + b as i32 - 53;
    if kept > 2045 {
        proof {
            lemma_located_beyond(s as nat, t as int, sticky, b as nat);
        }
        return (TOP, Half::Below);
    }
    let q: i32 = if kept < 0 { 0 } else { kept };
    let shift: i32 = q - t;
    proof {
        lemma_pow2_52();
        lemma_pow2_127();
    }
    if shift <= 0 {
        let p: u128 = power_of_two((-shift) as u32);
        proof {
            let j = (-shift) as nat;
            assert(s * p < 2 * FRACTION) by {
                lemma_pow2_adds(b as nat, j);
                lemma_pow2_pos(j);
                assert(s * p < pow2(b as nat) * p) by (nonlinear_arith)
                    requires
                        s < pow2(b as nat),
                        p > 0,
                ;
                if b + j < 53 {
                    lemma_pow2_strictly_increases((b + j) as nat, 53);
                }
            }
            if q > 0 {
                lemma_pow2_adds((b - 1) as nat, j);
                assert(s * p >= pow2((b - 1) as nat) * p) by (nonlinear_arith)
                    requires
                        s >= pow2((b - 1) as nat),
                ;
            }
            if sticky {
                lemma_pow2_54();
                if b < 54 {
                    lemma_pow2_strictly_increases(b as nat, 54);
                }
            }
            lemma_located_exact(s as nat, t as int, (s * p) as nat, q as nat, j);
        }
        let m: u64 = (s * p) as u64;
        (q as u64 * FRACTION + m, Half::Below)
    } else if shift > 128 {
        proof {
            lemma_pow2_strictly_increases(128, shift as nat);
            if shift > 129 {
                lemma_pow2_strictly_increases(128, (shift - 1) as nat);
            }
            assert(0 * pow2(shift as nat) == 0);
            lemma_located(s as nat, t as int, sticky, 0, s as nat, q as nat, shift as nat, Half::Below);
        }
        (0, Half::Below)
    } else {
        let h: u128 = power_of_two((shift - 1) as u32);
        let (m, rem): (u128, u128) = if shift == 128 {
            (0, s)
        } else {
            let p: u128 = power_of_two(shift as u32);
            proof {
                lemma_pow2_pos(shift as nat);
            }
            (s / p, s % p)
        };
        let half: Half = if rem < h {
            Half::Below
        } else if rem > h || sticky {
            Half::Above
        } else {
            Half::Middle
        };
        proof {
            let p = pow2(shift as nat);
            lemma_pow2_pos(shift as nat);
            assert(s == m * p + rem && rem < p) by {
                if shift == 128 {
                    assert(0 * p == 0);
                } else {
                    vstd::arithmetic::div_mod::lemma_fundamental_div_mod(s as int, p as int);
                    assert(m * p == p * m) by (nonlinear_arith);
                }
            }
            assert(m < 2 * FRACTION) by {
                lemma_pow2_adds(shift as nat, 53);
                if b < shift + 53 {
                    lemma_pow2_strictly_increases(b as nat, (shift + 53) as nat);
                }
                assert(m < 2 * FRACTION) by (nonlinear_arith)
                    requires
                        m * p <= s,
                        s < p * (2 * FRACTION),
                        p > 0,
                ;
            }
            if q > 0 {
                lemma_pow2_adds(shift as nat, 52);
                assert(m >= FRACTION) by (nonlinear_arith)
                    requires
                        s < m * p + p,
                        s >= p * FRACTION,
                        p > 0,
                ;
            }
            lemma_located(s as nat, t as int, sticky, m as nat, rem as nat, q as nat, shift as nat, half);
        }
        (q as u64 * FRACTION + m as u64, half)
    }
}

proof fn lemma_pow2_54()
    ensures
        pow2(54) == 0x40_0000_0000_0000,
{
    lemma_pow2_52();
    lemma_pow2_unfold(54);
}

proof fn lemma_located_zero(t: int)
    ensures
        located(0, t, false, 0, Half::Below),
{
    let base = scale_down(t);
    if t < 0 {
        lemma_pow2_pos((-t) as nat);
    }
    assert(0 * scale_up(t) == 0);
    assert(magnitude(0) == 0 && magnitude(1) == 1);
    assert(0 * base == 0 && 1 * base == base);
    assert((0 + 1) * base == base);
}

/// Rounds a scaled significand to the grid.
pub(crate) fn round(s: u128, t: i32, sticky: bool) -> (k: u64)
    requires
        -5000 <= t <= 5000,
        sticky ==> s >= 0x40_0000_0000_0000,
    ensures
        k <= TOP,
        rounded(s as nat, t as int, sticky, k as nat),
{
    let (f, half): (u64, Half) = locate(s, t, sticky);
    assert(located(s as nat, t as int, sticky, f as nat, half));
    if f >= TOP {
        return f;
    }
    match half {
        Half::Below => f,
        Half::Middle => f + f % 2,
        Half::Above => f + 1,
    }
}

/// A rational that the scaled significand brackets rounds to the same index.
pub(crate) proof fn lemma_rounded_ratio(s: nat, t: int, sticky: bool, k: nat, n: nat, d: nat)
    requires
        d > 0,
        rounded(s, t, sticky, k),
        if sticky {
            (s * scale_up(t)) * d < n * scale_down(t) < ((s + 1) * scale_up(t)) * d
        } else {
            (s * scale_up(t)) * d == n * scale_down(t)
        },
    ensures
        rounds_to(n, d, k),
{
    let (f, half): (nat, Half) = choose|f: nat, half: Half| #[trigger]
        located(s, t, sticky, f, half) && k == settled(f, half);
    let unit = scale_up(t);
    let base = scale_down(t);
    if t < 0 {
        lemma_pow2_pos((-t) as nat);
    } else {
        lemma_pow2_pos(t as nat);
    }
    let lo = magnitude(f);
    let low = s * unit;
    let high = (s + 1) * unit;
    assert(low < high) by (nonlinear_arith)
        requires
            low == s * unit,
            high == (s + 1) * unit,
            unit > 0,
    ;
    assert(lo * d <= n) by (nonlinear_arith)
        requires
            lo * base <= low,
            low * d <= n * base,
            base > 0,
    ;
    if f >= TOP {
        lemma_round_beyond(n, d);
    } else {
        let hi = magnitude(f + 1);
        let middle = (lo + hi) * base;
        if sticky {
            assert(n < hi * d) by (nonlinear_arith)
                requires
                    high <= hi * base,
                    n * base < high * d,
                    base > 0,
            ;
            if 2 * high <= middle {
                assert(2 * n < d * (lo + hi)) by (nonlinear_arith)
                    requires
                        2 * high <= (lo + hi) * base,
                        n * base < high * d,
                        base > 0,
                ;
            } else {
                assert(2 * n > d * (lo + hi)) by (nonlinear_arith)
                    requires
                        2 * low >= (lo + hi) * base,
                        low * d < n * base,
                        base > 0,
                ;
            }
        } else {
            assert(n < hi * d) by (nonlinear_arith)
                requires
                    low < hi * base,
                    n * base == low * d,
                    base > 0,
                    d > 0,
            ;
            assert(2 * low < middle ==> 2 * n < d * (lo + hi)) by (nonlinear_arith)
                requires
                    middle == (lo + hi) * base,
                    n * base == low * d,
                    base > 0,
                    d > 0,
            ;
            assert(2 * low > middle ==> 2 * n > d * (lo + hi)) by (nonlinear_arith)
                requires
                    middle == (lo + hi) * base,
                    n * base == low * d,
                    base > 0,
                    d > 0,
            ;
            assert(2 * low == middle ==> 2 * n == d * (lo + hi)) by (nonlinear_arith)
                requires
                    middle == (lo + hi) * base,
                    n * base == low * d,
                    base > 0,
                    d > 0,
            ;
        }
        lemma_round_between(n, d, f);
    }
}

} // verus!
