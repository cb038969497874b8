//! How far rounded results are from the exact ones, in proportion.
//!
//! The estimates are coarse, a millionth, and in return they are linear, so that
//! they add up along a longer calculation.
use crate::double::arith::UNIT;
use crate::double::facts::{
    lemma_bounded, lemma_division, lemma_near_multiple, lemma_nearest_close, lemma_product,
    lemma_ratio, lemma_whole, near, one,
};
use crate::double::grid::{
    lemma_magnitude_at, lemma_nearest, lemma_nearest_exact, lemma_nearest_monotone, lemma_order,
    lemma_step, magnitude, nearest, spacing, FRACTION, TOP,
};
use crate::double::number::Double;
use crate::double::rounding::lemma_pow2_52;
use vstd::arithmetic::power2::{
    lemma2_to64, lemma_pow2_adds, lemma_pow2_pos, lemma_pow2_strictly_increases, pow2,
};
use vstd::prelude::*;

verus! {

/// `a` is `n / d` times `b`, up to a millionth.
pub open spec fn about(a: int, n: int, d: int, b: int) -> bool {
    &&& 1_000_000 * (d * a) <= 1_000_001 * (n * b)
    &&& 999_999 * (n * b) <= 1_000_000 * (d * a)
}

/// Zero, or far above the tiny numbers.
pub open spec fn sizeable(x: int) -> bool {
    x == 0 || x >= pow2(600)
}

/// The number with which values are bounded: two to the power of 52.
proof fn lemma_limit() -> (limit: Double)
    ensures
        limit.finite(),
        !limit.negative(),
        limit.value() == 0x10_0000_0000_0000 * one(),
{
    lemma_whole(0x10_0000_0000_0000);
    Double::ratio(0x10_0000_0000_0000, 1)
}

/// What is not larger than that limit is finite.
pub proof fn lemma_moderate(x: Double)
    requires
        !x.nan(),
        0 <= x.value() <= 0x10_0000_0000_0000 * one(),
    ensures
        x.finite(),
{
    let limit = lemma_limit();
    lemma_bounded(x, limit);
}

/// A ratio of at least two to the power of 53 units has an index beyond the tiny
/// numbers.
proof fn lemma_not_tiny(n: nat, d: nat)
    requires
        d > 0,
        n >= 2 * FRACTION * d,
    ensures
        nearest(n, d) > FRACTION,
{
    let f = FRACTION as nat;
    lemma2_to64();
    lemma_magnitude_at(2 * f, 0);
    assert(0 * f + 2 * f == 2 * f);
    assert(2 * f * 1 == 2 * f);
    lemma_nearest_exact(2 * f, 1, 2 * f);
    assert((2 * f) * d <= n * 1);
    lemma_nearest_monotone(2 * f, 1, n, d);
}

/// Rounding moves a number that is not tiny down by at most one part in two to the
/// power of 53, unless it is beyond all finite ones.
proof fn lemma_nearest_not_below(n: nat, d: nat)
    requires
        d > 0,
        FRACTION < nearest(n, d) < TOP,
    ensures
        n * (2 * FRACTION) <= d * magnitude(nearest(n, d)) * (2 * FRACTION + 1),
{
    let k = nearest(n, d);
    let f = FRACTION as nat;
    let low = magnitude(k);
    let gap = pow2(spacing(k));
    lemma_nearest(n, d);
    lemma_step(k);
    assert(gap * f <= low) by (nonlinear_arith)
        requires
            low == (f + k % f) * gap,
            f > 0,
    ;
    assert(n * (2 * f) <= d * low * (2 * f + 1)) by (nonlinear_arith)
        requires
            2 * n <= d * (low + (low + gap)),
            gap * f <= low,
            d > 0,
            f > 0,
    ;
}

/// Two roundings of one part in two to the power of 53 are less than a millionth.
proof fn lemma_two_parts(x: int, y: int)
    requires
        0 <= x,
        0 <= y,
        x * ((2 * FRACTION) * (2 * FRACTION)) <= y * ((2 * FRACTION + 1) * (2 * FRACTION + 1)),
    ensures
        1_000_000 * x <= 1_000_001 * y,
        999_999 * x <= 1_000_000 * y,
{
    let f = FRACTION as int;
    let s = (2 * f) * (2 * f);
    let t = (2 * f + 1) * (2 * f + 1);
    assert(t * 1_000_000 <= s * 1_000_001 && s > 0) by (nonlinear_arith)
        requires
            f == 0x10_0000_0000_0000,
            s == (2 * f) * (2 * f),
            t == (2 * f + 1) * (2 * f + 1),
    ;
    assert(1_000_000 * x <= 1_000_001 * y) by (nonlinear_arith)
        requires
            x * s <= y * t,
            t * 1_000_000 <= s * 1_000_001,
            s > 0,
            y >= 0,
    ;
}

/// The part `n / d` as a number.
proof fn lemma_part(n: u64, d: u64)
    requires
        0 < n <= 1000 * d,
        d <= 1_000_000,
    ensures
        ({
            let c = magnitude(Double::ratio(n, d).index());
            let f = FRACTION as int;
            &&& Double::ratio(n, d).finite()
            &&& Double::ratio(n, d).value() == c
            &&& d * c * (2 * f) <= (n * one()) * (2 * f + 1)
            &&& (n * one()) * (2 * f) <= d * c * (2 * f + 1)
            &&& one() <= 2_000_000 * c
            &&& c <= 2000 * one()
        }),
{
    let x = Double::ratio(n, d);
    let c = magnitude(x.index());
    let f = FRACTION as int;
    lemma_ratio(n, d);
    lemma_pow2_pos(UNIT as nat);
    lemma_one_is_large();
    assert(n * one() >= 2 * f * d) by (nonlinear_arith)
        requires
            n >= 1,
            d <= 1_000_000,
            one() >= 2 * f * 1_000_000,
            f > 0,
    ;
    lemma_not_tiny(n as nat * one(), d as nat);
    lemma_nearest_close(n as nat * one(), d as nat);
    assert(c <= 2000 * one()) by (nonlinear_arith)
        requires
            d * c * (2 * f) <= (n * one()) * (2 * f + 1),
            n <= 1000 * d,
            d > 0,
            f > 10,
            one() > 0,
    ;
    lemma_moderate(x);
    lemma_nearest_not_below(n as nat * one(), d as nat);
    assert(one() <= 2_000_000 * c) by (nonlinear_arith)
        requires
            (n * one()) * (2 * f) <= d * c * (2 * f + 1),
            n >= 1,
            0 < d <= 1_000_000,
            f > 10,
            one() > 0,
            c >= 0,
    ;
}

/// A ratio is what it stands for, up to a millionth.
pub proof fn lemma_ratio_about(n: u64, d: u64)
    requires
        0 < n <= 1000 * d,
        d <= 1_000_000,
    ensures
        Double::ratio(n, d).finite(),
        about(Double::ratio(n, d).value(), n as int, d as int, one() as int),
{
    let c = magnitude(Double::ratio(n, d).index()) as int;
    let f = FRACTION as int;
    let x = d * c;
    let y = n * one();
    lemma_part(n, d);
    assert(1_000_000 * x <= 1_000_001 * y && 999_999 * y <= 1_000_000 * x) by (nonlinear_arith)
        requires
            x * (2 * f) <= y * (2 * f + 1),
            y * (2 * f) <= x * (2 * f + 1),
            f == 0x10_0000_0000_0000,
            x >= 0,
            y >= 0,
    ;
}

/// Rounding at most doubles a number.
pub proof fn lemma_at_most_twice(n: nat, d: nat)
    requires
        d > 0,
    ensures
        d * magnitude(nearest(n, d)) <= 2 * n,
{
    let k = nearest(n, d);
    lemma_nearest(n, d);
    if k == 0 {
        assert(d * magnitude(0) == 0) by (nonlinear_arith)
            requires
                magnitude(0) == 0,
        ;
    } else {
        assert(d * magnitude(k) <= d * (magnitude((k - 1) as nat) + magnitude(k))) by (nonlinear_arith);
    }
}

proof fn lemma_one_is_large()
    ensures
        one() >= 2 * FRACTION * 1_000_000,
        pow2(600) >= 2 * FRACTION * 2_000_000,
{
    lemma2_to64();
    lemma_pow2_52();
    lemma_pow2_adds(52, 32);
    lemma_pow2_strictly_increases(84, 600);
    lemma_pow2_strictly_increases(84, UNIT as nat);
}

/// The product of a number and the part `n / d` is that part of it, up to a
/// millionth. The order of the factors does not matter.
pub proof fn lemma_share(x: Double, n: u64, d: u64)
    requires
        x.finite(),
        sizeable(magnitude(x.index()) as int),
        magnitude(x.index()) <= 0x100_0000_0000 * one(),
        0 < n <= 1000 * d,
        d <= 1_000_000,
    ensures
        (x * Double::ratio(n, d)).finite(),
        (x * Double::ratio(n, d)).negative() == x.negative(),
        (Double::ratio(n, d) * x).index() == (x * Double::ratio(n, d)).index(),
        (Double::ratio(n, d) * x).negative() == x.negative(),
        about(
            magnitude((x * Double::ratio(n, d)).index()) as int,
            n as int,
            d as int,
            magnitude(x.index()) as int,
        ),
{
    let r = Double::ratio(n, d);
    let p = x * r;
    let c = magnitude(r.index());
    let a = magnitude(x.index());
    let v = magnitude(p.index());
    let f = FRACTION as int;
    let limit = lemma_limit();
    lemma_ratio(n, d);
    lemma_part(n, d);
    lemma_pow2_pos(UNIT as nat);
    lemma_one_is_large();
    lemma_product(x, r);
    lemma_product(r, x);
    assert(a * c == c * a) by (nonlinear_arith);
    // It is not larger than the limit.
    let top = 0x10_0000_0000_0000 * one();
    assert((a * c) * one() <= (top * one()) * one()) by (nonlinear_arith)
        requires
            a <= 0x100_0000_0000 * one(),
            c <= 2000 * one(),
            top == 0x10_0000_0000_0000 * one(),
            one() > 0,
    {
        assert(a * c <= (0x100_0000_0000 * one()) * (2000 * one()));
        assert((0x100_0000_0000 * one()) * (2000 * one()) <= top * one());
    }
    lemma_nearest_monotone(a * c, one(), top * one(), one());
    lemma_order(0, limit.index());
    lemma_nearest_exact(top * one(), one(), limit.index());
    if a == 0 {
        assert(a * c == 0 && magnitude(0) * one() == 0) by (nonlinear_arith)
            requires
                a == 0,
                magnitude(0) == 0,
        ;
        lemma_nearest_exact(0, one(), 0);
        assert(n * a == 0 && d * v == 0) by (nonlinear_arith)
            requires
                a == 0,
                v == 0,
        ;
    } else {
        assert(a * c >= 2 * f * one()) by (nonlinear_arith)
            requires
                a >= 2 * f * 2_000_000,
                one() <= 2_000_000 * c,
                c >= 0,
                f > 0,
        ;
        lemma_not_tiny(a * c, one());
        lemma_nearest_close(a * c, one());
        lemma_nearest_not_below(a * c, one());
        lemma_product_parts(a, c, v, n as int, d as int);
    }
}

proof fn lemma_product_parts(a: nat, c: nat, v: nat, n: int, d: int)
    requires
        one() * v * (2 * FRACTION) <= (a * c) * (2 * FRACTION + 1),
        (a * c) * (2 * FRACTION) <= one() * v * (2 * FRACTION + 1),
        d * c * (2 * FRACTION) <= (n * one()) * (2 * FRACTION + 1),
        (n * one()) * (2 * FRACTION) <= d * c * (2 * FRACTION + 1),
        n > 0,
        d > 0,
    ensures
        about(v as int, n, d, a as int),
{
    let g = 2 * FRACTION as int;
    let e = g + 1;
    let o = one() as int;
    lemma_pow2_pos(UNIT as nat);
    assert((d * v) * (g * g) <= (n * a) * (e * e)) by (nonlinear_arith)
        requires
            o * v * g <= (a * c) * e,
            d * c * g <= (n * o) * e,
            o > 0,
            d > 0,
            a >= 0,
            g > 0,
            e > 0,
    {
        assert((o * v * g) * (d * g) <= ((a * c) * e) * (d * g));
        assert(((a * c) * e) * (d * g) == (d * c * g) * (a * e));
        assert((d * c * g) * (a * e) <= ((n * o) * e) * (a * e));
        assert((o * v * g) * (d * g) == o * ((d * v) * (g * g)));
        assert(((n * o) * e) * (a * e) == o * ((n * a) * (e * e)));
    }
    assert((n * a) * (g * g) <= (d * v) * (e * e)) by (nonlinear_arith)
        requires
            (a * c) * g <= o * v * e,
            (n * o) * g <= d * c * e,
            o > 0,
            d > 0,
            a >= 0,
            g > 0,
            e > 0,
    {
        assert(((n * o) * g) * (a * g) <= (d * c * e) * (a * g));
        assert((d * c * e) * (a * g) == ((a * c) * g) * (d * e));
        assert(((a * c) * g) * (d * e) <= (o * v * e) * (d * e));
        assert(((n * o) * g) * (a * g) == o * ((n * a) * (g * g)));
        assert((o * v * e) * (d * e) == o * ((d * v) * (e * e)));
    }
    assert(n * a >= 0 && d * v >= 0) by (nonlinear_arith)
        requires
            n > 0,
            d > 0,
    ;
    lemma_two_parts(d * v, n * a);
    lemma_two_parts(n * a, d * v);
}

/// A number divided by the part `n / d` is `d / n` of it, up to a millionth.
pub proof fn lemma_quotient(x: Double, n: u64, d: u64)
    requires
        x.finite(),
        !x.negative(),
        sizeable(x.value()),
        x.value() <= 0x100_0000_0000 * one(),
        0 < n <= 1000 * d,
        d <= 1000 * n,
        d <= 1_000_000,
    ensures
        (x / Double::ratio(n, d)).finite(),
        !(x / Double::ratio(n, d)).negative(),
        about((x / Double::ratio(n, d)).value(), d as int, n as int, x.value()),
{
    let r = Double::ratio(n, d);
    let q = x / r;
    let c = magnitude(r.index());
    let a = magnitude(x.index());
    let v = magnitude(q.index());
    let f = FRACTION as int;
    let limit = lemma_limit();
    lemma_ratio(n, d);
    lemma_part(n, d);
    lemma_pow2_pos(UNIT as nat);
    lemma_one_is_large();
    assert(c > 0);
    lemma_division(x, r);
    let top = 0x10_0000_0000_0000 * one();
    assert(one() <= 1001 * c) by (nonlinear_arith)
        requires
            (n * one()) * (2 * f) <= d * c * (2 * f + 1),
            d <= 1000 * n,
            0 < n,
            0 < d,
            f == 0x10_0000_0000_0000,
            one() > 0,
            c >= 0,
    {
        assert((n * one()) * (2 * f) <= (1000 * n) * c * (2 * f + 1));
        assert(n * (one() * (2 * f)) <= n * (1000 * c * (2 * f + 1)));
        assert(one() * (2 * f) <= 1000 * c * (2 * f + 1));
    }
    assert((a * one()) * 1 <= (top * 1) * c) by (nonlinear_arith)
        requires
            a <= 0x100_0000_0000 * one(),
            one() <= 1001 * c,
            top == 0x10_0000_0000_0000 * one(),
            one() > 0,
    ;
    lemma_nearest_monotone(a * one(), c, top * 1, 1);
    lemma_order(0, limit.index());
    lemma_nearest_exact(top * 1, 1, limit.index());
    if a == 0 {
        assert(a * one() == 0 && magnitude(0) * c == 0) by (nonlinear_arith)
            requires
                a == 0,
                magnitude(0) == 0,
        ;
        lemma_nearest_exact(0, c, 0);
        assert(d * a == 0 && n * v == 0) by (nonlinear_arith)
            requires
                a == 0,
                v == 0,
        ;
    } else {
        assert(a * one() >= 2 * f * c) by (nonlinear_arith)
            requires
                a >= 2 * f * 2_000_000,
                c <= 2000 * one(),
                f > 0,
                one() > 0,
        ;
        lemma_not_tiny(a * one(), c);
        lemma_nearest_close(a * one(), c);
        lemma_nearest_not_below(a * one(), c);
        lemma_quotient_parts(a, c, v, n as int, d as int);
    }
}

proof fn lemma_quotient_parts(a: nat, c: nat, v: nat, n: int, d: int)
    requires
        c * v * (2 * FRACTION) <= (a * one()) * (2 * FRACTION + 1),
        (a * one()) * (2 * FRACTION) <= c * v * (2 * FRACTION + 1),
        d * c * (2 * FRACTION) <= (n * one()) * (2 * FRACTION + 1),
        (n * one()) * (2 * FRACTION) <= d * c * (2 * FRACTION + 1),
        n > 0,
        d > 0,
    ensures
        about(v as int, d, n, a as int),
{
    let g = 2 * FRACTION as int;
    let e = g + 1;
    let o = one() as int;
    lemma_pow2_pos(UNIT as nat);
    assert((n * v) * (g * g) <= (d * a) * (e * e)) by (nonlinear_arith)
        requires
            c * v * g <= (a * o) * e,
            (n * o) * g <= d * c * e,
            o > 0,
            d > 0,
            v >= 0,
            g > 0,
            e > 0,
    {
        assert(((n * o) * g) * (v * g) <= (d * c * e) * (v * g));
        assert((d * c * e) * (v * g) == (c * v * g) * (d * e));
        assert((c * v * g) * (d * e) <= ((a * o) * e) * (d * e));
        assert(((n * o) * g) * (v * g) == o * ((n * v) * (g * g)));
        assert(((a * o) * e) * (d * e) == o * ((d * a) * (e * e)));
    }
    assert((d * a) * (g * g) <= (n * v) * (e * e)) by (nonlinear_arith)
        requires
            (a * o) * g <= c * v * e,
            d * c * g <= (n * o) * e,
            o > 0,
            d > 0,
            v >= 0,
            g > 0,
            e > 0,
    {
        assert(((a * o) * g) * (d * g) <= (c * v * e) * (d * g));
        assert((c * v * e) * (d * g) == (d * c * g) * (v * e));
        assert((d * c * g) * (v * e) <= ((n * o) * e) * (v * e));
        assert(((a * o) * g) * (d * g) == o * ((d * a) * (g * g)));
        assert(((n * o) * e) * (v * e) == o * ((n * v) * (e * e)));
    }
    assert(n * v >= 0 && d * a >= 0) by (nonlinear_arith)
        requires
            n > 0,
            d > 0,
    ;
    lemma_two_parts(n * v, d * a);
    lemma_two_parts(d * a, n * v);
}

/// Rounding changes a number that is not negative by at most a millionth.
pub proof fn lemma_near_about(x: int)
    requires
        0 <= x <= 0x10_0000_0000_0000 * one(),
    ensures
        about(near(x), 1, 1, x),
        0 <= near(x) <= 0x10_0000_0000_0000 * one(),
{
    let f = FRACTION as int;
    let k = nearest(x as nat, 1);
    let v = magnitude(k);
    let limit = lemma_limit();
    lemma_order(0, limit.index());
    lemma_nearest_monotone(x as nat, 1, limit.value() as nat, 1);
    assert(magnitude(limit.index()) == magnitude(limit.index()) * 1);
    lemma_nearest_exact(limit.value() as nat, 1, limit.index());
    lemma_order(k, limit.index());
    if x < 2 * f {
        lemma2_to64();
        lemma_near_multiple(x, 0);
        assert(x * pow2(0) == x);
    } else {
        lemma_not_tiny(x as nat, 1);
        lemma_nearest_close(x as nat, 1);
        lemma_nearest_not_below(x as nat, 1);
        assert(1 * v * (2 * f) == v * (2 * f) && 1 * v * (2 * f + 1) == v * (2 * f + 1));
        let g = 2 * f;
        let e = g + 1;
        assert(v * (g * g) <= x * (e * e) && x * (g * g) <= v * (e * e)) by (nonlinear_arith)
            requires
                v * g <= x * e,
                x * g <= v * e,
                g > 0,
                e == g + 1,
                x >= 0,
                v >= 0,
        ;
        lemma_two_parts(v as int, x);
        lemma_two_parts(x, v as int);
    }
}

} // verus!
