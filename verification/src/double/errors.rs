//! How far rounded results are from the exact ones, for numbers of any size.
//!
//! An error is at most a trillionth of the exact result, plus one unit, the least
//! positive number, where the result itself may be as small as that.
use crate::double::arith::UNIT;
use crate::double::facts::{
    lemma_bounded, lemma_division, lemma_division_zero, lemma_near_multiple, lemma_near_twice, lemma_product,
    lemma_product_sign, lemma_ratio, lemma_square, lemma_sum, lemma_whole, near, one,
};
use crate::double::grid::{
    lemma_magnitude_at, lemma_nearest, lemma_nearest_exact, lemma_nearest_monotone, lemma_order, lemma_step, magnitude, nearest,
    spacing, FRACTION, TOP,
};
use crate::double::number::{distance, Double};
use crate::double::root::{lemma_nearest_root, nearest_root, root_rounds_to};
use crate::double::rounding::lemma_pow2_52;
use vstd::arithmetic::power2::{lemma2_to64, lemma_pow2_adds, lemma_pow2_pos, lemma_pow2_strictly_increases, pow2};
use vstd::prelude::*;

verus! {

/// How far `d * a` is from `n * b`: at most a trillionth of that, and `2 d` units.
pub open spec fn close(a: int, n: int, d: int, b: int) -> bool {
    1_000_000_000_000 * distance(d * a - n * b) <= n * distance(b) + 2_000_000_000_000 * d
}

/// Not more than two to the power of 40 either way.
pub open spec fn moderate(x: Double) -> bool {
    x.finite() && distance(x.value()) <= 0x100_0000_0000 * one()
}

/// The error of one rounding.
pub proof fn lemma_rounding_error(n: nat, d: nat)
    requires
        d > 0,
        nearest(n, d) < TOP,
    ensures
        (2 * FRACTION) * distance(d * magnitude(nearest(n, d)) - n) <= n + (2 * FRACTION) * d,
{
    let k = nearest(n, d);
    let f = FRACTION as int;
    let m = magnitude(k) as int;
    lemma_nearest(n, d);
    lemma_step(k);
    let up = pow2(spacing(k)) as int;
    if k < FRACTION {
        lemma2_to64();
        assert(up == 1);
    } else {
        assert(up * f <= m) by (nonlinear_arith)
            requires
                m == (f + k % (f as nat)) * up,
                f > 0,
                up >= 0,
        ;
    }
    assert((2 * f) * (n - d * m) <= n + (2 * f) * d) by (nonlinear_arith)
        requires
            2 * n <= d * (m + (m + up)),
            up == 1 || up * f <= m,
            d > 0,
            f > 0,
            n >= 0,
            m >= 0,
    {
        if up == 1 {
            assert(2 * n <= 2 * (d * m) + d);
        } else {
            assert(d * (up * f) <= d * m);
            if d * m <= n {
                assert((2 * f) * (n - d * m) <= f * (d * up));
                assert(f * (d * up) == d * (up * f));
            } else {
                assert((2 * f) * (n - d * m) <= 0);
            }
        }
    }
    if k > 0 {
        let j = (k - 1) as nat;
        let low = magnitude(j) as int;
        let gap = pow2(spacing(j)) as int;
        lemma_step(j);
        if j < FRACTION {
            lemma2_to64();
            assert(gap == 1);
        } else {
            assert(gap * f <= low) by (nonlinear_arith)
                requires
                    low == (f + j % (f as nat)) * gap,
                    f > 0,
                    gap >= 0,
            ;
        }
        assert((2 * f) * (d * m - n) <= n + (2 * f) * d) by (nonlinear_arith)
            requires
                d * (low + m) <= 2 * n,
                m == low + gap,
                gap == 1 || gap * f <= low,
                d > 0,
                f > 0,
                n >= 0,
                low >= 0,
                gap >= 0,
        {
            if gap == 1 {
                assert(2 * (d * m) - d <= 2 * n);
            } else {
                assert(d * (gap * f) <= d * low);
                assert(d * (low + m) == 2 * (d * low) + d * gap);
                assert(d * gap >= 0);
                assert(d * low <= n);
                assert((2 * f) * (d * m - n) <= f * (d * gap));
                assert(f * (d * gap) == d * (gap * f));
            }
        }
    } else {
        assert(d * m == 0) by (nonlinear_arith)
            requires
                m == 0,
        ;
    }
    assert((2 * f) * distance(d * m - n) <= n + (2 * f) * d) by (nonlinear_arith)
        requires
            (2 * f) * (n - d * m) <= n + (2 * f) * d,
            (2 * f) * (d * m - n) <= n + (2 * f) * d,
    ;
}

/// The least limit that every result here stays below: two to the power of 52.
proof fn lemma_limit() -> (limit: Double)
    ensures
        limit.finite(),
        !limit.negative(),
        limit.value() == 0x10_0000_0000_0000 * one(),
{
    lemma_whole(0x10_0000_0000_0000);
    Double::ratio(0x10_0000_0000_0000, 1)
}

/// What is at most that is rounded to something finite.
pub(crate) proof fn lemma_below_limit(n: nat, d: nat)
    requires
        d > 0,
        n <= (0x10_0000_0000_0000 * one()) * d,
    ensures
        nearest(n, d) < TOP,
        magnitude(nearest(n, d)) <= 0x10_0000_0000_0000 * one(),
{
    let limit = lemma_limit();
    let top = 0x10_0000_0000_0000 * one();
    lemma_order(0, limit.index());
    assert(n * 1 <= (top * 1) * d) by (nonlinear_arith)
        requires
            n <= top * d,
    ;
    lemma_nearest_monotone(n, d, top * 1, 1);
    lemma_nearest_exact(top * 1, 1, limit.index());
    lemma_order(nearest(n, d), limit.index());
}

pub(crate) proof fn lemma_large()
    ensures
        one() >= 0x100_0000_0000 * FRACTION,
        one() >= 1_000_000_000_000_000_000_000_000_000,
        one() >= 16 * (FRACTION * FRACTION),
{
    lemma2_to64();
    lemma_pow2_52();
    lemma_pow2_adds(52, 52);
    lemma_pow2_adds(104, 4);
    lemma_pow2_strictly_increases(108, UNIT as nat);
    lemma_pow2_adds(32, 8);
    lemma_pow2_adds(52, 40);
    lemma_pow2_strictly_increases(92, UNIT as nat);
}

/// The error of rounding a whole number of units.
pub proof fn lemma_near_error(x: int)
    requires
        distance(x) <= 0x10_0000_0000_0000 * one(),
    ensures
        1_000_000_000_000 * distance(near(x) - x) <= distance(x),
        distance(near(x)) <= 0x10_0000_0000_0000 * one(),
{
    let n = distance(x);
    let f = FRACTION as int;
    assert(n <= (0x10_0000_0000_0000 * one()) * 1);
    lemma_below_limit(n, 1);
    if n < 2 * f {
        lemma2_to64();
        lemma_near_multiple(x, 0);
        assert(x * pow2(0) == x);
    } else {
        lemma_rounding_error(n, 1);
        let m = magnitude(nearest(n, 1));
        assert(1 * m == m);
        assert(distance(near(x) - x) == distance(m - n));
    }
}

/// A number that stands for the ratio `n / d`, up to a four trillionth.
pub open spec fn stands_for(c: Double, n: int, d: int) -> bool {
    &&& c.finite()
    &&& c.value() >= 0
    &&& 4_000_000_000_000 * distance(d * c.value() - n * one()) <= n * one() + 4_000_000_000_000 * d
}

/// A ratio of whole numbers stands for itself.
pub proof fn lemma_ratio_error(n: u64, d: u64)
    requires
        0 < d,
        n <= 1_000_000 * d,
        d <= 1_000_000_000_000_000,
    ensures
        stands_for(Double::ratio(n, d), n as int, d as int),
        !Double::ratio(n, d).negative(),
        Double::ratio(n, d).value() <= 1_000_001 * one(),
        FRACTION * distance(d * Double::ratio(n, d).value() - n * one()) <= n * one() + d * FRACTION,
{
    let c = Double::ratio(n, d).value();
    let f = FRACTION as int;
    lemma_pow2_pos(UNIT as nat);
    lemma_ratio(n, d);
    let t = n as nat * one();
    assert(t <= (0x10_0000_0000_0000 * one()) * d as nat && t <= (1_000_000 * one()) * d as nat) by (nonlinear_arith)
        requires
            t == n as nat * one(),
            n <= 1_000_000 * d,
            d > 0,
    ;
    lemma_below_limit(t, d as nat);
    lemma_rounding_error(t, d as nat);
    let x = distance(d * c - n * one()) as int;
    let no = n * one();
    assert(f * x <= no + d * f && 4_000_000_000_000 * x <= no + 4_000_000_000_000 * d) by (nonlinear_arith)
        requires
            (2 * f) * x <= no + (2 * f) * d,
            no >= 0,
            f == 0x10_0000_0000_0000,
    ;
    lemma_large();
    assert(c <= 1_000_001 * one()) by (nonlinear_arith)
        requires
            (2 * f) * (d * c - n * one()) <= n * one() + (2 * f) * d,
            n * one() <= (1_000_000 * one()) * d,
            d > 0,
            f == 0x10_0000_0000_0000,
            one() >= 0x100_0000_0000 * f,
    {
        assert((2 * f) * (d * c) <= (2 * f + 1) * (n * one()) + (2 * f) * d);
        assert((2 * f + 1) * (n * one()) <= (2 * f + 1) * ((1_000_000 * one()) * d));
        assert((2 * f) * (d * c) <= d * ((2 * f + 1) * (1_000_000 * one()) + 2 * f));
        assert((2 * f) * c <= (2 * f + 1) * (1_000_000 * one()) + 2 * f);
    }
}

/// The error of a product of any two numbers.
pub proof fn lemma_product_error(a: Double, b: Double)
    requires
        a.finite(),
        b.finite(),
        magnitude(a.index()) * magnitude(b.index()) <= (0x10_0000_0000_0000 * one()) * one(),
    ensures
        (a * b).finite(),
        (2 * FRACTION) * distance(one() * (a * b).value() - a.value() * b.value()) <= distance(a.value() * b.value())
            + (2 * FRACTION) * one(),
        distance((a * b).value()) <= 0x10_0000_0000_0000 * one(),
{
    lemma_pow2_pos(UNIT as nat);
    lemma_product(a, b);
    lemma_below_limit(magnitude(a.index()) * magnitude(b.index()), one());
    lemma_finite_product_error(a, b);
}

/// A product that is finite.
pub proof fn lemma_finite_product_error(a: Double, b: Double)
    requires
        a.finite(),
        b.finite(),
        (a * b).finite(),
    ensures
        (2 * FRACTION) * distance(one() * (a * b).value() - a.value() * b.value()) <= distance(a.value() * b.value())
            + (2 * FRACTION) * one(),
{
    let x = magnitude(a.index());
    let y = magnitude(b.index());
    let v = magnitude((a * b).index());
    lemma_pow2_pos(UNIT as nat);
    lemma_product(a, b);
    lemma_rounding_error(x * y, one());
    let s = a.negative() != b.negative();
    let p = (a * b).value();
    let t = a.value() * b.value();
    assert(t == (if s { -((x * y) as int) } else { (x * y) as int })) by (nonlinear_arith)
        requires
            t == a.value() * b.value(),
            a.value() == (if a.negative() { -(x as int) } else { x as int }),
            b.value() == (if b.negative() { -(y as int) } else { y as int }),
            s == (a.negative() != b.negative()),
    ;
    assert(one() * p == (if s { -((one() * v) as int) } else { (one() * v) as int })) by (nonlinear_arith)
        requires
            p == (if s { -(v as int) } else { v as int }),
    ;
    assert(x * y >= 0) by (nonlinear_arith);
}

/// A product with a number that stands for `n / d`, whatever the order of the
/// factors.
pub proof fn lemma_times_by(x: Double, c: Double, n: int, d: int)
    requires
        moderate(x),
        stands_for(c, n, d),
        0 < n <= 1000 * d,
        0 < d <= 1_000_000,
    ensures
        (x * c).finite(),
        close((x * c).value(), n, d, x.value()),
        (c * x).finite(),
        (c * x).value() == (x * c).value(),
        x.value() >= 0 ==> (x * c).value() >= 0,
        x.value() <= 0 ==> (x * c).value() <= 0,
{
    let p = x * c;
    let v = c.value();
    let o = one() as int;
    let f = FRACTION as int;
    let h: int = 4_000_000_000_000;
    lemma_pow2_pos(UNIT as nat);
    lemma_large();
    lemma_order(0, c.index());
    let a = magnitude(x.index());
    let b = magnitude(c.index());
    assert(v <= 2000 * o) by (nonlinear_arith)
        requires
            h * (d * v - n * o) <= n * o + h * d,
            n <= 1000 * d,
            d > 0,
            o >= 0x100_0000_0000 * f,
            f == 0x10_0000_0000_0000,
            h == 4_000_000_000_000,
    {
        assert(n * o <= (1000 * d) * o);
        assert(h * (d * v) <= (h + 1) * (n * o) + h * d);
        assert(h * (d * v) <= d * ((h + 1) * (1000 * o) + h));
        assert(h * v <= (h + 1) * (1000 * o) + h);
    }
    assert(a * b <= (0x10_0000_0000_0000 * o) * o) by (nonlinear_arith)
        requires
            a <= 0x100_0000_0000 * o,
            b <= 2000 * o,
            o > 0,
    {
        assert(a * b <= (0x100_0000_0000 * o) * (2000 * o));
        assert((0x100_0000_0000 * o) * (2000 * o) <= (0x10_0000_0000_0000 * o) * o);
    }
    lemma_product_error(x, c);
    lemma_product(x, c);
    lemma_product(c, x);
    assert(a * b == b * a) by (nonlinear_arith);
    lemma_times_chain(x.value(), v, p.value(), n, d);
    lemma_product_sign(x, c);
    lemma_order(0, p.index());
    lemma_order(0, (c * x).index());
}

/// A product with the ratio `n / d`, whatever the order of the factors.
pub proof fn lemma_times(x: Double, n: u64, d: u64)
    requires
        moderate(x),
        0 < n,
        0 < d,
        n <= 1000 * d,
        d <= 1_000_000,
    ensures
        (x * Double::ratio(n, d)).finite(),
        close((x * Double::ratio(n, d)).value(), n as int, d as int, x.value()),
        (Double::ratio(n, d) * x).finite(),
        (Double::ratio(n, d) * x).value() == (x * Double::ratio(n, d)).value(),
        x.value() >= 0 ==> (x * Double::ratio(n, d)).value() >= 0,
        x.value() <= 0 ==> (x * Double::ratio(n, d)).value() <= 0,
{
    lemma_ratio_error(n, d);
    lemma_times_by(x, Double::ratio(n, d), n as int, d as int);
}

/// A product with the ratio `n / d` that is finite, however large.
pub proof fn lemma_finite_times(x: Double, n: u64, d: u64)
    requires
        x.finite(),
        (x * Double::ratio(n, d)).finite(),
        0 < n,
        0 < d,
        n <= 1000 * d,
        d <= 1_000_000,
    ensures
        close((x * Double::ratio(n, d)).value(), n as int, d as int, x.value()),
{
    let c = Double::ratio(n, d);
    lemma_large();
    lemma_ratio_error(n, d);
    lemma_finite_product_error(x, c);
    lemma_times_chain(x.value(), c.value(), (x * c).value(), n as int, d as int);
}

proof fn lemma_times_chain(x: int, c: int, p: int, n: int, d: int)
    requires
        c >= 0,
        (2 * FRACTION) * distance(one() * p - x * c) <= distance(x * c) + (2 * FRACTION) * one(),
        4_000_000_000_000 * distance(d * c - n * one()) <= n * one() + 4_000_000_000_000 * d,
        0 < n,
        0 < d <= 1_000_000,
        one() >= 0x100_0000_0000 * FRACTION,
    ensures
        close(p, n, d, x),
{
    let f = FRACTION as int;
    let h: int = 4_000_000_000_000;
    let o = one() as int;
    let ax = distance(x) as int;
    let e1 = distance(o * p - x * c) as int;
    let e2 = distance(d * c - n * o) as int;
    let gap = distance(d * p - n * x) as int;
    assert(distance(x * c) == ax * c) by (nonlinear_arith)
        requires
            ax == distance(x),
            c >= 0,
    ;
    let whole = o * (d * p - n * x);
    assert(whole == d * (o * p - x * c) + x * (d * c - n * o)) by (nonlinear_arith)
        requires
            whole == o * (d * p - n * x),
    ;
    assert(distance(whole) <= d * e1 + ax * e2) by (nonlinear_arith)
        requires
            whole == d * (o * p - x * c) + x * (d * c - n * o),
            e1 == distance(o * p - x * c),
            e2 == distance(d * c - n * o),
            ax == distance(x),
            d > 0,
    {
        let s = o * p - x * c;
        let t = d * c - n * o;
        assert(d * s <= d * e1 && -(d * s) <= d * e1);
        assert(x * t <= ax * e2 && -(x * t) <= ax * e2);
    }
    assert(distance(whole) == o * gap) by (nonlinear_arith)
        requires
            whole == o * (d * p - n * x),
            gap == distance(d * p - n * x),
            o > 0,
    ;
    assert(d * h <= n * o) by (nonlinear_arith)
        requires
            n >= 1,
            0 < d <= 1_000_000,
            o >= 0x100_0000_0000 * f,
            f == 0x10_0000_0000_0000,
            h == 4_000_000_000_000,
    ;
    let no = n * o;
    let dc = d * c;
    assert(dc <= 2 * no && h * e2 <= 2 * no);
    assert((2 * f) * (d * e1) <= ax * (2 * no) + (2 * f) * (d * o)) by (nonlinear_arith)
        requires
            (2 * f) * e1 <= ax * c + (2 * f) * o,
            d * c <= 2 * no,
            ax >= 0,
            d > 0,
    {
        assert((2 * f) * (d * e1) <= d * (ax * c) + (2 * f) * (d * o));
        assert(d * (ax * c) == ax * (d * c));
        assert(ax * (d * c) <= ax * (2 * no));
    }
    assert(h * (ax * e2) <= 2 * (ax * no)) by (nonlinear_arith)
        requires
            h * e2 <= 2 * no,
            ax >= 0,
    {
        assert(ax * (h * e2) <= ax * (2 * no));
    }
    let an = ax * no;
    let de = d * e1;
    let ae = ax * e2;
    let d_o = d * o;
    assert(ax * (2 * no) == 2 * an) by (nonlinear_arith)
        requires
            an == ax * no,
    ;
    assert(an >= 0) by (nonlinear_arith)
        requires
            an == ax * no,
            ax >= 0,
            no >= 0,
    ;
    assert(1_000_000_000_000 * (o * gap) <= an + 1_000_000_000_000 * d_o) by (nonlinear_arith)
        requires
            o * gap <= de + ae,
            (2 * f) * de <= 2 * an + (2 * f) * d_o,
            h * ae <= 2 * an,
            an >= 0,
            f == 0x10_0000_0000_0000,
            h == 4_000_000_000_000,
    ;
    assert(1_000_000_000_000 * gap <= n * ax + 1_000_000_000_000 * d) by (nonlinear_arith)
        requires
            1_000_000_000_000 * (o * gap) <= an + 1_000_000_000_000 * d_o,
            an == ax * (n * o),
            d_o == d * o,
            o > 0,
    {
        assert(o * (1_000_000_000_000 * gap) <= o * (n * ax + 1_000_000_000_000 * d));
    }
}

/// A number divided by the ratio `n / d`.
pub proof fn lemma_over(x: Double, n: u64, d: u64)
    requires
        moderate(x),
        0 < n,
        0 < d,
        n <= 1_000_000 * d,
        d <= 1000 * n,
        d <= 1_000_000,
        n <= 1_000_000,
    ensures
        (x / Double::ratio(n, d)).finite(),
        close((x / Double::ratio(n, d)).value(), d as int, n as int, x.value()),
        x.value() >= 0 ==> (x / Double::ratio(n, d)).value() >= 0,
        x.value() <= 0 ==> (x / Double::ratio(n, d)).value() <= 0,
{
    let r = Double::ratio(n, d);
    let q = x / r;
    let c = r.value();
    let o = one() as int;
    let f = FRACTION as int;
    lemma_pow2_pos(UNIT as nat);
    lemma_large();
    lemma_ratio_error(n, d);
    let a = magnitude(x.index()) as int;
    // The ratio is at least a 1001st.
    assert(o <= 1001 * c) by (nonlinear_arith)
        requires
            f * (n * o - d * c) <= n * o + d * f,
            d <= 1000 * n,
            0 < n,
            0 < d,
            o >= 0x100_0000_0000 * f,
            f == 0x10_0000_0000_0000,
            c >= 0,
            d <= 1_000_000,
    {
        assert((f - 1) * (n * o) <= f * (d * c) + d * f);
        assert(d * c <= (1000 * n) * c);
        assert(d * f <= (1000 * n) * f);
        assert((f - 1) * (n * o) <= n * (f * (1000 * c) + 1000 * f));
        assert((f - 1) * o <= f * (1000 * c) + 1000 * f);
    }
    lemma_division(x, r);
    let v = magnitude(q.index()) as int;
    assert(a * o <= (0x10_0000_0000_0000 * o) * c) by (nonlinear_arith)
        requires
            a <= 0x100_0000_0000 * o,
            o <= 1001 * c,
            o > 0,
    {
        assert(a * o <= (0x100_0000_0000 * o) * (1001 * c));
    }
    lemma_below_limit((a * o) as nat, c as nat);
    lemma_rounding_error((a * o) as nat, c as nat);
    lemma_over_chain(a, c, v, n as int, d as int);
    assert(distance(n * q.value() - d * x.value()) == distance(n * v - d * a)) by (nonlinear_arith)
        requires
            q.value() == (if x.negative() { -v } else { v }),
            x.value() == (if x.negative() { -a } else { a }),
    ;
    lemma_order(0, x.index());
    if a == 0 {
        lemma_division_zero(x, r);
    }
}

proof fn lemma_over_chain(a: int, c: int, v: int, n: int, d: int)
    requires
        a >= 0,
        c > 0,
        v >= 0,
        (2 * FRACTION) * distance(c * v - a * one()) <= a * one() + (2 * FRACTION) * c,
        FRACTION * distance(d * c - n * one()) <= n * one() + d * FRACTION,
        one() <= 1001 * c,
        0 < n <= 1_000_000,
        0 < d <= 1_000_000,
        one() >= 0x100_0000_0000 * FRACTION,
    ensures
        1_000_000_000_000 * distance(n * v - d * a) <= d * a + 2_000_000_000_000 * n,
{
    let f = FRACTION as int;
    let o = one() as int;
    let e1 = distance(c * v - a * o) as int;
    let e2 = distance(d * c - n * o) as int;
    let g = distance(n * v - d * a) as int;
    // o * (n * v - d * a) == v * (n * o - d * c) + d * (c * v - a * o)
    let whole = o * (n * v - d * a);
    assert(whole == d * (c * v - a * o) - v * (d * c - n * o)) by (nonlinear_arith)
        requires
            whole == o * (n * v - d * a),
    ;
    assert(distance(whole) <= d * e1 + v * e2) by (nonlinear_arith)
        requires
            whole == d * (c * v - a * o) - v * (d * c - n * o),
            e1 == distance(c * v - a * o),
            e2 == distance(d * c - n * o),
            v >= 0,
            d > 0,
    {
        let s = c * v - a * o;
        let t = d * c - n * o;
        assert(d * s <= d * e1 && -(d * s) <= d * e1);
        assert(v * t <= v * e2 && -(v * t) <= v * e2);
    }
    assert(distance(whole) == o * g) by (nonlinear_arith)
        requires
            whole == o * (n * v - d * a),
            g == distance(n * v - d * a),
            o > 0,
    ;
    assert(d * f <= n * o && n * o >= o) by (nonlinear_arith)
        requires
            n >= 1,
            0 < d <= 1_000_000,
            o >= 0x100_0000_0000 * f,
            f > 0,
    ;
    // d * c is about n * o.
    assert(n * o <= 2 * (d * c) && d * c <= 2 * (n * o)) by (nonlinear_arith)
        requires
            f * (d * c - n * o) <= n * o + d * f,
            f * (n * o - d * c) <= n * o + d * f,
            d * f <= n * o,
            f == 0x10_0000_0000_0000,
            n * o >= 0,
    ;
    // v * c is at most twice a * o, and a bit.
    assert((2 * f) * (v * c) <= (2 * f + 1) * (a * o) + (2 * f) * c) by (nonlinear_arith)
        requires
            (2 * f) * e1 <= a * o + (2 * f) * c,
            c * v - a * o <= e1,
            f > 0,
    ;
    // f * v * e2 <= v * (n o + d f) <= 2 v n o <= 4 v d c <= 4 d ((1 + ..) a o + c)
    assert((2 * f) * (v * e2) <= 4 * (v * (n * o))) by (nonlinear_arith)
        requires
            f * e2 <= n * o + d * f,
            d * f <= n * o,
            v >= 0,
    {
        assert(f * e2 <= 2 * (n * o));
        assert(v * (f * e2) <= v * (2 * (n * o)));
    }
    assert(v * (n * o) <= 2 * (d * (v * c))) by (nonlinear_arith)
        requires
            n * o <= 2 * (d * c),
            v >= 0,
    {
        assert(v * (n * o) <= v * (2 * (d * c)));
    }
    assert(v * c <= 2 * (a * o) + c) by (nonlinear_arith)
        requires
            (2 * f) * (v * c) <= (2 * f + 1) * (a * o) + (2 * f) * c,
            a * o >= 0,
            f > 0,
    {
        assert((2 * f + 1) * (a * o) <= (2 * f) * (2 * (a * o)));
    }
    assert(a * o >= 0) by (nonlinear_arith)
        requires
            a >= 0,
            o > 0,
    ;
    assert((2 * f) * (d * e1) <= d * (a * o) + (2 * f) * (d * c)) by (nonlinear_arith)
        requires
            (2 * f) * e1 <= a * o + (2 * f) * c,
            d > 0,
    ;
    assert(d * (v * c) <= 2 * (d * (a * o)) + d * c) by (nonlinear_arith)
        requires
            v * c <= 2 * (a * o) + c,
            d > 0,
    ;
    // Altogether.
    assert((2 * f) * (d * c) <= (2 * f) * (n * o) + 4 * (n * o)) by (nonlinear_arith)
        requires
            f * e2 <= n * o + d * f,
            d * c - n * o <= e2,
            d * f <= n * o,
            f > 0,
    ;
    let og = o * g;
    let de = d * e1;
    let ve = v * e2;
    let vn = v * (n * o);
    let dv = d * (v * c);
    let da = d * (a * o);
    let dc = d * c;
    let no = n * o;
    assert((2 * f) * og <= 17 * da + (2 * f) * no + 100 * no) by (nonlinear_arith)
        requires
            og <= de + ve,
            (2 * f) * de <= da + (2 * f) * dc,
            (2 * f) * ve <= 4 * vn,
            vn <= 2 * dv,
            dv <= 2 * da + dc,
            (2 * f) * dc <= (2 * f) * no + 4 * no,
            dc <= 2 * no,
            no >= 0,
            f == 0x10_0000_0000_0000,
    ;
    assert((2 * f) * g <= 17 * (d * a) + (2 * f) * n + 100 * n) by (nonlinear_arith)
        requires
            (2 * f) * (o * g) <= 17 * (d * (a * o)) + (2 * f) * (n * o) + 100 * (n * o),
            o > 0,
    {
        assert(o * ((2 * f) * g) <= o * (17 * (d * a) + (2 * f) * n + 100 * n));
    }
    assert(d * a >= 0) by (nonlinear_arith)
        requires
            a >= 0,
            d > 0,
    ;
    assert(1_000_000_000_000 * g <= d * a + 2_000_000_000_000 * n) by (nonlinear_arith)
        requires
            (2 * f) * g <= 17 * (d * a) + (2 * f) * n + 100 * n,
            d * a >= 0,
            n > 0,
            f == 0x10_0000_0000_0000,
    ;
}

/// The square of a root is what the root was taken of, up to a trillionth.
pub proof fn lemma_root_error(a: Double)
    requires
        a.finite(),
        a.value() >= 0,
        a.value() <= 0x10_0000_0000_0000 * one(),
    ensures
        a.sqrt().finite(),
        a.sqrt().value() >= 0,
        ({
            let v = a.sqrt().value();
            1_000_000_000_000 * distance(v * v - a.value() * one()) <= v * v
        }),
{
    reveal(Double::root);
    let o = one() as int;
    let v = a.sqrt().value();
    lemma_order(0, a.index());
    if a.index() == 0 {
        assert(a.value() == 0 && v == 0);
        assert(v * v == 0 && a.value() * o == 0) by (nonlinear_arith)
            requires
                v == 0,
                a.value() == 0,
        ;
    } else {
        lemma_root_index(magnitude(a.index()));
    }
}

/// The root of a number of units that is not zero.
proof fn lemma_root_index(x: nat)
    requires
        0 < x <= 0x10_0000_0000_0000 * one(),
    ensures
        ({
            let k = nearest_root(x * one());
            let v = magnitude(k);
            &&& k < TOP
            &&& 1_000_000_000_000 * distance(v * v - x * one()) <= v * v
        }),
{
    let n = x * one();
    let k = nearest_root(n);
    let v = magnitude(k) as int;
    lemma_pow2_pos(UNIT as nat);
    assert(n >= one()) by (nonlinear_arith)
        requires
            n == x * one(),
            x > 0,
    ;
    lemma_nearest_root(n);
    lemma_root_below(x, k);
    lemma_root_above(n, k);
    let f = FRACTION as int;
    let j = (k - 1) as nat;
    let low = magnitude(j) as int;
    let gap = pow2(spacing(j)) as int;
    let up = pow2(spacing(k)) as int;
    lemma_step(j);
    lemma_step(k);
    assert(up * f <= v) by (nonlinear_arith)
        requires
            v == (f + k % (f as nat)) * up,
            f > 0,
            up >= 0,
    ;
    assert(gap * f <= low) by (nonlinear_arith)
        requires
            low == (f + j % (f as nat)) * gap,
            f > 0,
            gap >= 0,
    ;
    lemma_root_chain(v, gap, up, n as int);
}

/// The root lies below the limit.
proof fn lemma_root_below(x: nat, k: nat)
    requires
        0 < x <= 0x10_0000_0000_0000 * one(),
        root_rounds_to(x * one(), k),
    ensures
        k < TOP,
{
    let o = one() as int;
    lemma_pow2_pos(UNIT as nat);
    let limit = lemma_limit();
    lemma_order(0, limit.index());
    if k >= limit.index() + 1 {
        let j = (k - 1) as nat;
        lemma_order(limit.index(), j);
        lemma_order(limit.index(), k);
        let l = limit.value();
        let edge = magnitude(j) as int + magnitude(k) as int;
        assert(edge * edge > 4 * (x * o)) by (nonlinear_arith)
            requires
                edge >= 2 * l,
                l == 0x10_0000_0000_0000 * o,
                x <= l,
                o > 0,
        {
            assert(edge * edge >= (2 * l) * (2 * l));
            assert((2 * l) * (2 * l) == 4 * (l * l));
            assert(l * l >= l * (2 * o));
            assert(l * (2 * o) >= x * o + l * o);
            assert(l * o > 0);
        }
    }
}

/// The root of at least one unit, squared, is not tiny.
proof fn lemma_root_above(n: nat, k: nat)
    requires
        n >= one(),
        k < TOP,
        root_rounds_to(n, k),
    ensures
        k > FRACTION,
{
    if k <= FRACTION {
        let f = FRACTION as int;
        let o = one() as int;
        let v = magnitude(k) as int;
        let up = pow2(spacing(k)) as int;
        lemma2_to64();
        lemma_large();
        lemma_step(k);
        lemma_order(k, FRACTION as nat);
        lemma_magnitude_at(f as nat, 0);
        assert(0 * (f as nat) + (f as nat) == f as nat);
        assert(magnitude(f as nat) == f * 1);
        assert(spacing(k) == 0);
        assert(v <= f);
        let edge = v + (v + up);
        assert(edge * edge < 4 * n) by (nonlinear_arith)
            requires
                0 <= edge <= 2 * f + 1,
                n >= o,
                o >= 16 * (f * f),
                f == 0x10_0000_0000_0000,
        {
            assert(edge * edge <= (2 * f + 1) * (2 * f + 1));
        }
    }
}

proof fn lemma_root_chain(v: int, gap: int, up: int, n: int)
    requires
        0 <= gap,
        0 <= up,
        up * FRACTION <= v,
        gap * FRACTION <= v - gap,
        (2 * v - gap) * (2 * v - gap) <= 4 * n,
        4 * n <= (2 * v + up) * (2 * v + up),
    ensures
        1_000_000_000_000 * distance(v * v - n) <= v * v,
{
    let f = FRACTION as int;
    let s = v * v;
    assert(f * (v * up) <= s && f * (v * gap) <= s && v * up >= 0 && v * gap >= 0 && up * up <= v * up) by (nonlinear_arith)
        requires
            up * f <= v,
            gap * f <= v - gap,
            0 <= gap,
            0 <= up,
            s == v * v,
            f > 1,
    {
        assert(v >= 0);
        assert(v * (up * f) <= v * v);
        assert(v * (gap * f) <= v * v);
        assert(up <= up * f);
    }
    assert(4 * n <= 4 * s + 4 * (v * up) + up * up) by (nonlinear_arith)
        requires
            4 * n <= (2 * v + up) * (2 * v + up),
            s == v * v,
    ;
    assert(4 * s - 4 * (v * gap) <= 4 * n) by (nonlinear_arith)
        requires
            (2 * v - gap) * (2 * v - gap) <= 4 * n,
            s == v * v,
    ;
    let p = v * up;
    let q = v * gap;
    assert(1_000_000_000_000 * (n - s) <= s && 1_000_000_000_000 * (s - n) <= s) by (nonlinear_arith)
        requires
            4 * n <= 4 * s + 5 * p,
            4 * s - 4 * q <= 4 * n,
            f * p <= s,
            f * q <= s,
            p >= 0,
            q >= 0,
            f == 0x10_0000_0000_0000,
    ;
}

/// The square of a number up to a million.
proof fn lemma_square_error(x: Double)
    requires
        x.finite(),
        distance(x.value()) <= 1_000_000 * one(),
    ensures
        (x * x).finite(),
        0 <= (x * x).value() <= 1_100_000_000_000 * one(),
        4_000_000_000_000 * distance(one() * (x * x).value() - x.value() * x.value()) <= x.value() * x.value()
            + 4_000_000_000_000 * one(),
        x.value() * x.value() >= 0,
{
    let a = magnitude(x.index());
    let o = one() as int;
    let f = FRACTION as int;
    lemma_pow2_pos(UNIT as nat);
    lemma_large();
    assert(a * a <= (0x10_0000_0000_0000 * o) * o && a * a <= 1_000_000_000_000 * (o * o)) by (nonlinear_arith)
        requires
            a <= 1_000_000 * o,
            o > 0,
    {
        assert(a * a <= (1_000_000 * o) * (1_000_000 * o));
    }
    lemma_product_error(x, x);
    lemma_square(x);
    let n = x.value() * x.value();
    let v = (x * x).value();
    assert(n == a * a) by (nonlinear_arith)
        requires
            n == x.value() * x.value(),
            x.value() == a || x.value() == -(a as int),
    ;
    assert(n >= 0) by (nonlinear_arith)
        requires
            n == x.value() * x.value(),
    ;
    let e = distance(o * v - n) as int;
    assert(4_000_000_000_000 * e <= n + 4_000_000_000_000 * o) by (nonlinear_arith)
        requires
            (2 * f) * e <= n + (2 * f) * o,
            n >= 0,
            f == 0x10_0000_0000_0000,
    ;
    assert(v <= 1_100_000_000_000 * o) by (nonlinear_arith)
        requires
            4_000_000_000_000 * (o * v - n) <= n + 4_000_000_000_000 * o,
            n <= 1_000_000_000_000 * (o * o),
            o >= 1_000_000_000_000_000_000_000_000_000,
    {
        assert(o <= o * o);
        assert(o * v <= 1_100_000_000_000 * (o * o));
        assert(o * v <= o * (1_100_000_000_000 * o));
    }
}

/// A sum of two numbers that are not negative.
proof fn lemma_plus(a: Double, b: Double)
    requires
        a.finite(),
        b.finite(),
        0 <= a.value() <= 0x4_0000_0000_0000 * one(),
        0 <= b.value() <= 0x4_0000_0000_0000 * one(),
    ensures
        (a + b).finite(),
        0 <= (a + b).value() <= 2 * (a.value() + b.value()),
        1_000_000_000_000 * distance((a + b).value() - (a.value() + b.value())) <= a.value() + b.value(),
        1_000_000_000_000 * distance(one() * (a + b).value() - (one() * a.value() + one() * b.value())) <= one()
            * a.value() + one() * b.value(),
{
    let x = a.value() + b.value();
    let o = one() as int;
    lemma_pow2_pos(UNIT as nat);
    lemma_sum(a, b);
    lemma_near_error(x);
    lemma_near_twice(x);
    let limit = lemma_limit();
    lemma_bounded(a + b, limit);
    let s = (a + b).value();
    let e = distance(s - x) as int;
    assert(1_000_000_000_000 * distance(o * s - (o * a.value() + o * b.value())) <= o * a.value() + o * b.value())
        by (nonlinear_arith)
        requires
            1_000_000_000_000 * e <= x,
            e == distance(s - x),
            x == a.value() + b.value(),
            o > 0,
    {
        assert(o * s - (o * a.value() + o * b.value()) == o * (s - x));
        assert(distance(o * (s - x)) == o * e);
        assert(o * (1_000_000_000_000 * e) <= o * x);
    }
}

/// The total of two components, squared, is the sum of their squares.
pub proof fn lemma_total_error(x: Double, y: Double)
    requires
        x.finite(),
        y.finite(),
        distance(x.value()) <= 1_000_000 * one(),
        distance(y.value()) <= 1_000_000 * one(),
    ensures
        ({
            let v = (x * x + y * y).sqrt().value();
            let n = x.value() * x.value() + y.value() * y.value();
            &&& (x * x + y * y).sqrt().finite()
            &&& v >= 0
            &&& n >= 0
            &&& 100_000_000_000 * distance(v * v - n) <= n + 1_000_000_000_000 * one()
        }),
{
    let o = one() as int;
    lemma_large();
    lemma_square_error(x);
    lemma_square_error(y);
    let a = x * x;
    let b = y * y;
    lemma_plus(a, b);
    let s = a + b;
    lemma_root_error(s);
    let v = s.sqrt().value();
    assert(s.value() * o == o * s.value()) by (nonlinear_arith);
    lemma_norm_chain(
        o,
        x.value() * x.value() + y.value() * y.value(),
        o * a.value() + o * b.value(),
        o * s.value(),
        v * v,
    );
}

/// The length of a vector, squared, is the sum of the squares of its components.
pub proof fn lemma_length_error(x: Double, y: Double, z: Double)
    requires
        x.finite(),
        y.finite(),
        z.finite(),
        distance(x.value()) <= 1_000_000 * one(),
        distance(y.value()) <= 1_000_000 * one(),
        distance(z.value()) <= 1_000_000 * one(),
    ensures
        ({
            let v = (x * x + y * y + z * z).sqrt().value();
            let n = x.value() * x.value() + y.value() * y.value() + z.value() * z.value();
            &&& (x * x + y * y + z * z).sqrt().finite()
            &&& v >= 0
            &&& n >= 0
            &&& 100_000_000_000 * distance(v * v - n) <= n + 1_000_000_000_000 * one()
        }),
{
    let o = one() as int;
    lemma_large();
    lemma_square_error(x);
    lemma_square_error(y);
    lemma_square_error(z);
    let a = x * x;
    let b = y * y;
    let c = z * z;
    lemma_plus(a, b);
    lemma_plus(a + b, c);
    let s = a + b + c;
    lemma_root_error(s);
    let v = s.sqrt().value();
    assert(s.value() * o == o * s.value()) by (nonlinear_arith);
    let n = x.value() * x.value() + y.value() * y.value() + z.value() * z.value();
    let t = o * a.value() + o * b.value() + o * c.value();
    assert(o * a.value() >= 0 && o * b.value() >= 0 && o * c.value() >= 0) by (nonlinear_arith)
        requires
            o > 0,
            a.value() >= 0,
            b.value() >= 0,
            c.value() >= 0,
    ;
    assert(300_000_000_000 * distance(o * s.value() - t) <= t);
    lemma_norm_chain(o, n, t, o * s.value(), v * v);
}

proof fn lemma_norm_chain(o: int, n: int, t: int, s: int, v: int)
    requires
        o > 0,
        n >= 0,
        4_000_000_000_000 * distance(t - n) <= n + 12_000_000_000_000 * o,
        300_000_000_000 * distance(s - t) <= t,
        1_000_000_000_000 * distance(v - s) <= v,
    ensures
        100_000_000_000 * distance(v - n) <= n + 1_000_000_000_000 * o,
{
}

} // verus!
