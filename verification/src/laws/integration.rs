//! Laws of what one sample adds to the speed, over the numbers of the sample.
use crate::double::arith::UNIT;
use crate::double::errors::{
    close, lemma_below_limit, lemma_large, lemma_near_error, lemma_over, lemma_product_error,
    lemma_ratio_error, lemma_rounding_error, lemma_times, moderate, stands_for,
};
use crate::double::facts::{
    lemma_abs, lemma_bounded, lemma_difference, lemma_division, lemma_division_zero, lemma_half,
    lemma_near_exact, lemma_near_monotone, lemma_negated, lemma_product, lemma_product_shrinks,
    lemma_product_sign, lemma_sum, lemma_whole, lemma_zero, one,
};
use crate::double::grid::{lemma_nearest_exact, lemma_order, magnitude, FRACTION};
use crate::double::number::{distance, Double};
use crate::imu::ImuData;
use crate::laws::fusion::samples_count_within_half_a_second;
use crate::laws::gforce::cut;
use crate::laws::mirror::{lemma_opposite, lemma_opposite_products, lemma_opposite_sums, opposite};
use crate::laws::window::lemma_gyro_span;
use crate::window::{corner_weight, seconds_between, SpeedometerWindow};
use vstd::arithmetic::power2::lemma_pow2_pos;
use vstd::prelude::*;

verus! {

/// A product with plus or minus one is exact.
proof fn lemma_signed(a: Double, s: Double)
    requires
        a.finite(),
        s.finite(),
        distance(s.value()) == one(),
    ensures
        (a * s).finite(),
        s.value() > 0 ==> (a * s).value() == a.value(),
        s.value() < 0 ==> (a * s).value() == -a.value(),
        (a * s).index() == a.index(),
{
    lemma_pow2_pos(UNIT as nat);
    lemma_product(a, s);
    lemma_nearest_exact(magnitude(a.index()) * one(), one(), a.index());
}

/// The bounds of the corner weight, and what lies between them.
proof fn lemma_gyro_bounds()
    ensures
        ({
            let low = Double::ratio(10, 100);
            let span = Double::ratio(30, 100) - low;
            let o = one() as int;
            &&& low.finite() && span.finite()
            &&& 100_000_000_000 * distance(10 * low.value() - o) <= o
            &&& 10_000_000_000 * distance(5 * span.value() - o) <= o
        }),
{
    let low = Double::ratio(10, 100);
    let high = Double::ratio(30, 100);
    lemma_pow2_pos(UNIT as nat);
    lemma_large();
    lemma_gyro_span();
    lemma_ratio_error(10, 100);
    lemma_ratio_error(30, 100);
    lemma_near_error(high.value() - low.value());
}

/// A quotient by a span of about one fifth.
proof fn lemma_fifth(a: Double, span: Double)
    requires
        a.finite(),
        distance(a.value()) <= 2 * one(),
        span.finite(),
        10_000_000_000 * distance(5 * span.value() - one()) <= one(),
    ensures
        (a / span).finite(),
        1_000_000_000 * distance((a / span).value() - 5 * a.value()) <= 2 * one(),
{
    let q = a / span;
    let o = one() as int;
    let x = magnitude(a.index()) as int;
    let s = span.value();
    lemma_pow2_pos(UNIT as nat);
    lemma_large();
    lemma_order(0, span.index());
    lemma_division(a, span);
    assert(x * o >= 0 && x * o <= (0x10_0000_0000_0000 * o) * s) by (nonlinear_arith)
        requires
            0 <= x <= 2 * o,
            6 * s >= o,
            o > 0,
    ;
    lemma_below_limit((x * o) as nat, s as nat);
    lemma_rounding_error((x * o) as nat, s as nat);
    let v = magnitude(q.index()) as int;
    assert(1_000_000_000 * distance(v - 5 * x) <= 2 * o) by {
        lemma_fifth_chain(o, s, x, v);
    }
    if a.value() == 0 {
        lemma_division_zero(a, span);
    }
}

proof fn lemma_fifth_chain(o: int, s: int, x: int, v: int)
    requires
        (2 * FRACTION) * distance(s * v - x * o) <= x * o + (2 * FRACTION) * s,
        10_000_000_000 * distance(5 * s - o) <= o,
        0 <= x <= 2 * o,
        v >= 0,
        o >= 1_000_000_000_000_000_000_000_000_000,
    ensures
        1_000_000_000 * distance(v - 5 * x) <= 2 * o,
{
    let f = FRACTION as int;
    let e1 = s * v - x * o;
    let e2 = 5 * s - o;
    let t = o * o;
    assert(x * o <= 2 * t && s <= o && 1_000_000_000_000_000 * o <= t) by (nonlinear_arith)
        requires
            0 <= x <= 2 * o,
            t == o * o,
            10_000_000_000 * e2 <= o,
            e2 == 5 * s - o,
            o >= 1_000_000_000_000_000_000_000_000_000,
    ;
    assert(1_000_000_000_000 * distance(e1) <= t) by (nonlinear_arith)
        requires
            (2 * f) * distance(e1) <= x * o + (2 * f) * s,
            x * o <= 2 * t,
            s <= o,
            1_000_000_000_000_000 * o <= t,
            f == 0x10_0000_0000_0000,
            o > 0,
    ;
    assert(v <= 18 * o) by (nonlinear_arith)
        requires
            s * v <= x * o + t,
            x * o <= 2 * t,
            t == o * o,
            6 * s >= o,
            v >= 0,
            o > 0,
    {
        assert((6 * s) * v <= 18 * t);
        assert(o * v <= (6 * s) * v);
        assert(o * v <= o * (18 * o));
    }
    assert(o * (v - 5 * x) == 5 * e1 - e2 * v) by (nonlinear_arith)
        requires
            e1 == s * v - x * o,
            e2 == 5 * s - o,
    ;
    assert(10_000_000_000 * distance(e2 * v) <= 18 * t) by (nonlinear_arith)
        requires
            10_000_000_000 * distance(e2) <= o,
            0 <= v <= 18 * o,
            t == o * o,
            o > 0,
    {
        assert(distance(e2 * v) == distance(e2) * v);
        assert(10_000_000_000 * (distance(e2) * v) <= o * v);
        assert(o * v <= 18 * t);
    }
    assert(1_000_000_000 * distance(o * (v - 5 * x)) <= 2 * t);
    assert(1_000_000_000 * distance(v - 5 * x) <= 2 * o) by (nonlinear_arith)
        requires
            1_000_000_000 * distance(o * (v - 5 * x)) <= 2 * t,
            t == o * o,
            o > 0,
    {
        assert(distance(o * (v - 5 * x)) == o * distance(v - 5 * x));
        assert(o * (1_000_000_000 * distance(v - 5 * x)) <= o * (2 * o));
    }
}

/// The weight of a sample falls in a straight line, from one at a rate of turning
/// of 0.1 rad/s to zero at 0.3 rad/s.
pub proof fn weight_falls_in_a_line(gyro_rads: Double)
    requires
        gyro_rads.finite(),
        0 <= gyro_rads.value() <= one(),
    ensures
        corner_weight(gyro_rads).finite(),
        0 <= corner_weight(gyro_rads).value() <= one(),
        100_000_000 * distance(
            2 * corner_weight(gyro_rads).value() - cut(3 * one() - 10 * gyro_rads.value(), 0, 2 * one() as int),
        ) <= one(),
{
    let low = Double::ratio(10, 100);
    let span = Double::ratio(30, 100) - low;
    let unit = Double::ratio(1, 1);
    let o = one() as int;
    let g = gyro_rads.value();
    lemma_pow2_pos(UNIT as nat);
    lemma_large();
    lemma_zero();
    lemma_whole(1);
    lemma_whole(4);
    lemma_gyro_bounds();
    let a = gyro_rads - low;
    lemma_difference(gyro_rads, low);
    lemma_near_error(g - low.value());
    lemma_abs(a);
    lemma_bounded(a.abs(), Double::ratio(4, 1));
    lemma_fifth(a, span);
    let c = (a / span).clamp(Double::ratio(0, 1), unit);
    lemma_bounded(c, unit);
    lemma_difference(unit, c);
    lemma_near_error(o - c.value());
    lemma_near_monotone(0, o - c.value());
    lemma_near_monotone(o - c.value(), o);
    lemma_near_exact(unit);
    lemma_bounded(corner_weight(gyro_rads), unit);
    lemma_line(o, g, low.value(), a.value(), (a / span).value(), corner_weight(gyro_rads).value());
}

proof fn lemma_line(o: int, g: int, l: int, a: int, q: int, w: int)
    requires
        o > 0,
        0 <= g <= o,
        100_000_000_000 * distance(10 * l - o) <= o,
        1_000_000_000_000 * distance(a - (g - l)) <= distance(g - l),
        1_000_000_000 * distance(q - 5 * a) <= 2 * o,
        1_000_000_000_000 * distance(w - (o - cut(q, 0, o))) <= distance(o - cut(q, 0, o)),
    ensures
        100_000_000 * distance(2 * w - cut(3 * o - 10 * g, 0, 2 * o)) <= o,
{
    assert(100_000_000 * distance(2 * q - (10 * g - o)) <= o - o / 100);
}

/// The time between two samples in seconds.
proof fn lemma_time(last: u64, now: u64)
    requires
        last < now,
        now - last <= 500_000,
    ensures
        ({
            let dt = seconds_between(last, now);
            let gap = (now - last) * one();
            &&& dt.finite()
            &&& 0 < dt.value() <= one()
            &&& 500_000_000_000 * distance(1_000_000 * dt.value() - gap) <= gap
        }),
{
    let gap = (now - last) as u64;
    let o = one() as int;
    lemma_pow2_pos(UNIT as nat);
    lemma_large();
    lemma_zero();
    lemma_half();
    lemma_whole(gap);
    samples_count_within_half_a_second(last, now);
    assert(gap * o <= 500_000 * o && gap * o >= o) by (nonlinear_arith)
        requires
            1 <= gap <= 500_000,
            o > 0,
    ;
    lemma_over(Double::ratio(gap, 1), 1_000_000, 1);
}

/// What a sample adds, in steps: acceleration times time, times the weight, and
/// from m/s to km/h, all without their sign.
proof fn lemma_steps(o: int, z: int, gap: int, t: int, p1: int, w: int, w2: int, p3: int, p4: int)
    requires
        o >= 1_000_000_000_000_000_000_000_000_000,
        2 * z >= o,
        1 <= gap,
        0 <= t <= o,
        0 <= w <= o,
        0 <= w2 <= 2 * o,
        0 <= p1,
        500_000_000_000 * distance(1_000_000 * t - gap * o) <= gap * o,
        (2 * FRACTION) * distance(o * p1 - z * t) <= distance(z * t) + (2 * FRACTION) * o,
        (2 * FRACTION) * distance(o * p3 - p1 * w) <= distance(p1 * w) + (2 * FRACTION) * o,
        100_000_000 * distance(2 * w - w2) <= o,
        close(p4, 36, 10, p3),
    ensures
        ({
            let y = z * gap;
            1_000_000 * distance((20_000_000 * o) * p4 - 36 * (y * w2)) <= y * o
        }),
{
    let f = FRACTION as int;
    let y = z * gap;
    let e0 = 1_000_000 * t - gap * o;
    let e1 = o * p1 - z * t;
    assert(y >= z && 2 * y >= o && y * o == z * (gap * o) && z * t >= 0) by (nonlinear_arith)
        requires
            y == z * gap,
            1 <= gap,
            2 * z >= o,
            o > 0,
            t >= 0,
    ;
    // The speed gained, in m/s.
    let zt = z * t;
    assert(500_000_000_000 * distance(z * e0) <= y * o && z * e0 == 1_000_000 * zt - y * o) by (nonlinear_arith)
        requires
            500_000_000_000 * distance(e0) <= gap * o,
            e0 == 1_000_000 * t - gap * o,
            zt == z * t,
            y * o == z * (gap * o),
            z > 0,
    {
        assert(distance(z * e0) == z * distance(e0));
        assert(z * (500_000_000_000 * distance(e0)) <= z * (gap * o));
    }
    let yo = y * o;
    assert(1_000_000_000_000_000 * distance(e1) <= zt + 2_000_000_000_000_000 * o) by (nonlinear_arith)
        requires
            (2 * f) * distance(e1) <= zt + (2 * f) * o,
            zt >= 0,
            o > 0,
            f == 0x10_0000_0000_0000,
    ;
    let op1 = o * p1;
    assert(yo >= 100_000_000_000_000_000_000 * o) by (nonlinear_arith)
        requires
            yo == y * o,
            2 * y >= o,
            o >= 1_000_000_000_000_000_000_000_000_000,
    ;
    assert(200_000_000_000 * distance(1_000_000 * op1 - yo) <= yo) by {
        lemma_gained(o, yo, zt, op1);
    }
    assert(200_000_000_000 * distance(1_000_000 * p1 - y) <= y) by (nonlinear_arith)
        requires
            200_000_000_000 * distance(1_000_000 * op1 - yo) <= yo,
            op1 == o * p1,
            yo == y * o,
            o > 0,
    {
        assert(1_000_000 * op1 - yo == o * (1_000_000 * p1 - y));
        assert(distance(o * (1_000_000 * p1 - y)) == o * distance(1_000_000 * p1 - y));
        assert(o * (200_000_000_000 * distance(1_000_000 * p1 - y)) <= o * y);
    }
    lemma_weighed(o, y, p1, w, w2, p3);
    lemma_converted(o, y, w2, p3, p4);
}

proof fn lemma_gained(o: int, yo: int, zt: int, op1: int)
    requires
        o > 0,
        500_000_000_000 * distance(1_000_000 * zt - yo) <= yo,
        1_000_000_000_000_000 * distance(op1 - zt) <= zt + 2_000_000_000_000_000 * o,
        yo >= 100_000_000_000_000_000_000 * o,
    ensures
        200_000_000_000 * distance(1_000_000 * op1 - yo) <= yo,
{
}

proof fn lemma_weighed(o: int, y: int, p1: int, w: int, w2: int, p3: int)
    requires
        o >= 1_000_000_000_000_000_000_000_000_000,
        2 * y >= o,
        0 <= p1,
        0 <= w <= o,
        0 <= w2 <= 2 * o,
        200_000_000_000 * distance(1_000_000 * p1 - y) <= y,
        (2 * FRACTION) * distance(o * p3 - p1 * w) <= distance(p1 * w) + (2 * FRACTION) * o,
        100_000_000 * distance(2 * w - w2) <= o,
    ensures
        50_000_000 * distance(2_000_000 * (o * p3) - y * w2) <= y * o,
{
    let f = FRACTION as int;
    let yo = y * o;
    let pw = p1 * w;
    let op3 = o * p3;
    assert(0 <= pw && 500_000 * pw <= yo && yo >= 100_000_000_000_000_000_000 * o) by (nonlinear_arith)
        requires
            pw == p1 * w,
            500_000 * p1 <= y,
            0 <= p1,
            0 <= w <= o,
            yo == y * o,
            2 * y >= o,
            o >= 1_000_000_000_000_000_000_000_000_000,
    {
        assert(p1 * w <= p1 * o);
        assert((500_000 * p1) * o <= y * o);
        assert(p1 * w >= 0);
    }
    assert(1_000_000_000_000_000 * distance(op3 - pw) <= pw + 2_000_000_000_000_000 * o) by (nonlinear_arith)
        requires
            (2 * f) * distance(op3 - pw) <= pw + (2 * f) * o,
            pw >= 0,
            o > 0,
            f == 0x10_0000_0000_0000,
    ;
    let d1 = 1_000_000 * p1 - y;
    let d2 = 2 * w - w2;
    let yw = y * w2;
    assert(2_000_000 * pw - yw == (2 * w) * d1 + y * d2) by (nonlinear_arith)
        requires
            pw == p1 * w,
            yw == y * w2,
            d1 == 1_000_000 * p1 - y,
            d2 == 2 * w - w2,
    ;
    assert(100_000_000_000 * distance((2 * w) * d1) <= yo) by (nonlinear_arith)
        requires
            200_000_000_000 * distance(d1) <= y,
            0 <= w <= o,
            yo == y * o,
            y >= 0,
    {
        assert(distance((2 * w) * d1) == (2 * w) * distance(d1));
        assert(w * (200_000_000_000 * distance(d1)) <= w * y);
        assert(w * y <= y * o);
    }
    assert(100_000_000 * distance(y * d2) <= yo) by (nonlinear_arith)
        requires
            100_000_000 * distance(d2) <= o,
            y >= 0,
            yo == y * o,
    {
        assert(distance(y * d2) == y * distance(d2));
        assert(y * (100_000_000 * distance(d2)) <= y * o);
    }
    lemma_weighed_sum(o, yo, pw, op3, yw, (2 * w) * d1, y * d2);
}

proof fn lemma_weighed_sum(o: int, yo: int, pw: int, op3: int, yw: int, a: int, b: int)
    requires
        o > 0,
        0 <= pw,
        500_000 * pw <= yo,
        yo >= 100_000_000_000_000_000_000 * o,
        1_000_000_000_000_000 * distance(op3 - pw) <= pw + 2_000_000_000_000_000 * o,
        2_000_000 * pw - yw == a + b,
        100_000_000_000 * distance(a) <= yo,
        100_000_000 * distance(b) <= yo,
    ensures
        50_000_000 * distance(2_000_000 * op3 - yw) <= yo,
{
}

proof fn lemma_converted(o: int, y: int, w2: int, p3: int, p4: int)
    requires
        o >= 1_000_000_000_000_000_000_000_000_000,
        2 * y >= o,
        0 <= w2 <= 2 * o,
        50_000_000 * distance(2_000_000 * (o * p3) - y * w2) <= y * o,
        close(p4, 36, 10, p3),
    ensures
        1_000_000 * distance((20_000_000 * o) * p4 - 36 * (y * w2)) <= y * o,
{
    let yo = y * o;
    let yw = y * w2;
    let op3 = o * p3;
    let e = 10 * p4 - 36 * p3;
    assert(0 <= yw <= 2 * yo && yo >= 100_000_000_000_000_000_000 * o) by (nonlinear_arith)
        requires
            yw == y * w2,
            yo == y * o,
            0 <= w2 <= 2 * o,
            2 * y >= o,
            o >= 1_000_000_000_000_000_000_000_000_000,
    ;
    assert(1_000_000_000_000 * distance(o * e) <= 36 * distance(op3) + 20_000_000_000_000 * o) by (nonlinear_arith)
        requires
            1_000_000_000_000 * distance(e) <= 36 * distance(p3) + 20_000_000_000_000,
            op3 == o * p3,
            o > 0,
    {
        assert(distance(o * e) == o * distance(e));
        assert(distance(op3) == o * distance(p3));
        assert(o * (1_000_000_000_000 * distance(e)) <= o * (36 * distance(p3) + 20_000_000_000_000));
    }
    assert((20_000_000 * o) * p4 == 2_000_000 * (o * e) + 72_000_000 * op3) by (nonlinear_arith)
        requires
            op3 == o * p3,
            e == 10 * p4 - 36 * p3,
    ;
    lemma_converted_sum(o, yo, yw, op3, o * e, (20_000_000 * o) * p4);
}

proof fn lemma_converted_sum(o: int, yo: int, yw: int, op3: int, oe: int, p: int)
    requires
        o > 0,
        0 <= yw <= 2 * yo,
        yo >= 100_000_000_000_000_000_000 * o,
        50_000_000 * distance(2_000_000 * op3 - yw) <= yo,
        1_000_000_000_000 * distance(oe) <= 36 * distance(op3) + 20_000_000_000_000 * o,
        p == 2_000_000 * oe + 72_000_000 * op3,
    ensures
        1_000_000 * distance(p - 36 * yw) <= yo,
{
}

/// Plus or minus one, as an integer.
spec fn sign_of(s: Double) -> int {
    if s.value() > 0 {
        1
    } else {
        -1
    }
}

/// What one sample adds to the change of speed, in km/h.
proof fn lemma_push_value(fwd: Double, last: u64, now: u64, sign: Double, weight: Double, w2: int)
    requires
        moderate(fwd),
        2 * fwd.value() >= one(),
        last < now,
        now - last <= 500_000,
        sign.finite(),
        distance(sign.value()) == one(),
        weight.finite(),
        0 <= weight.value() <= one(),
        0 <= w2 <= 2 * one(),
        100_000_000 * distance(2 * weight.value() - w2) <= one(),
    ensures
        ({
            let push = fwd * seconds_between(last, now) * sign * weight * Double::ratio(36, 10);
            let y = fwd.value() * (now - last);
            &&& push.finite()
            &&& distance(push.value()) <= 0x1000_0000_0000 * one()
            &&& 1_000_000 * distance((20_000_000 * one()) * (sign_of(sign) * push.value()) - 36 * (y * w2)) <= y * one()
        }),
{
    let dt = seconds_between(last, now);
    let o = one() as int;
    let p1 = fwd * dt;
    let p2 = p1 * sign;
    let p3 = p2 * weight;
    let p4 = p3 * Double::ratio(36, 10);
    let sg = sign_of(sign);
    lemma_pow2_pos(UNIT as nat);
    lemma_large();
    lemma_time(last, now);
    lemma_order(0, fwd.index());
    lemma_order(0, dt.index());
    lemma_order(0, weight.index());
    let a = magnitude(fwd.index());
    assert(a * magnitude(dt.index()) <= (0x10_0000_0000_0000 * o) * o) by (nonlinear_arith)
        requires
            a <= 0x100_0000_0000 * o,
            magnitude(dt.index()) <= o,
            o > 0,
    ;
    lemma_product_error(fwd, dt);
    lemma_product_shrinks(fwd, dt);
    lemma_product_sign(fwd, dt);
    lemma_abs(p1);
    lemma_order(0, p1.index());
    lemma_signed(p1, sign);
    let b = magnitude(p2.index());
    assert(b * magnitude(weight.index()) <= (0x10_0000_0000_0000 * o) * o) by (nonlinear_arith)
        requires
            b <= 0x100_0000_0000 * o,
            magnitude(weight.index()) <= o,
            o > 0,
    ;
    lemma_product_error(p2, weight);
    lemma_product_shrinks(p2, weight);
    lemma_times(p3, 36, 10);
    let q3 = sg * p3.value();
    let q4 = sg * p4.value();
    let w = weight.value();
    lemma_turned(o, sg, p1.value(), p2.value(), w, p3.value(), p4.value());
    lemma_steps(o, fwd.value(), now - last, dt.value(), p1.value(), w, w2, q3, q4);
}

/// Both signs at once.
proof fn lemma_turned(o: int, sg: int, p1: int, p2: int, w: int, p3: int, p4: int)
    requires
        sg == 1 || sg == -1,
        p2 == sg * p1,
        (2 * FRACTION) * distance(o * p3 - p2 * w) <= distance(p2 * w) + (2 * FRACTION) * o,
        close(p4, 36, 10, p3),
    ensures
        (2 * FRACTION) * distance(o * (sg * p3) - p1 * w) <= distance(p1 * w) + (2 * FRACTION) * o,
        close(sg * p4, 36, 10, sg * p3),
{
    if sg == -1 {
        assert(o * (sg * p3) - p1 * w == -(o * p3 - p2 * w) && p2 * w == -(p1 * w)) by (nonlinear_arith)
            requires
                sg == -1,
                p2 == sg * p1,
        ;
        assert(sg * p3 == -p3 && sg * p4 == -p4) by (nonlinear_arith)
            requires
                sg == -1,
        ;
    } else {
        assert(sg * p3 == p3 && sg * p4 == p4 && p2 == p1) by (nonlinear_arith)
            requires
                sg == 1,
                p2 == sg * p1,
        ;
    }
}

/// Adding, rounding and cutting off.
proof fn lemma_added(delta: Double, push: Double)
    requires
        delta.finite(),
        distance(delta.value()) <= 20 * one(),
        push.finite(),
        distance(push.value()) <= 0x1000_0000_0000 * one(),
    ensures
        ({
            let next = (delta + push).clamp(-Double::ratio(20, 1), Double::ratio(20, 1));
            let o = one() as int;
            &&& next.finite()
            &&& distance(next.value()) <= 20 * o
            &&& 10_000_000_000 * distance(next.value() - cut(delta.value() + push.value(), -20 * o, 20 * o)) <= o
        }),
{
    let limit = Double::ratio(20, 1);
    lemma_pow2_pos(UNIT as nat);
    lemma_whole(20);
    lemma_negated(limit);
    lemma_sum(delta, push);
    lemma_near_error(delta.value() + push.value());
    let next = (delta + push).clamp(-limit, limit);
    lemma_abs(next);
    lemma_bounded(next.abs(), limit);
}

/// Cutting off commutes with scaling, and brings numbers no further apart.
proof fn lemma_cut(o: int, k: int, x: int, y: int, next: int, bound: int)
    requires
        o > 0,
        k == 20_000_000 * o,
        10_000_000_000 * distance(next - cut(x, -20 * o, 20 * o)) <= o,
        1_000_000 * distance(k * x - y) <= bound,
    ensures
        1_000_000 * distance(k * next - cut(y, -400_000_000 * (o * o), 400_000_000 * (o * o))) <= bound + 2000 * (o * o),
{
    let c = cut(x, -20 * o, 20 * o);
    let s = o * o;
    assert(k * c == cut(k * x, -400_000_000 * s, 400_000_000 * s)) by (nonlinear_arith)
        requires
            k == 20_000_000 * o,
            c == cut(x, -20 * o, 20 * o),
            s == o * o,
            o > 0,
    {
        assert(k * (20 * o) == 400_000_000 * s);
        assert(k * (-20 * o) == -400_000_000 * s);
        assert(x > 20 * o ==> k * x > k * (20 * o));
        assert(x < -20 * o ==> k * x < k * (-20 * o));
        assert(x <= 20 * o ==> k * x <= k * (20 * o));
        assert(x >= -20 * o ==> k * x >= k * (-20 * o));
    }
    assert(1_000_000 * distance(k * next - k * c) <= 2000 * s) by (nonlinear_arith)
        requires
            k == 20_000_000 * o,
            10_000_000_000 * distance(next - c) <= o,
            s == o * o,
            o > 0,
    {
        assert(k * next - k * c == k * (next - c));
        assert(distance(k * (next - c)) == k * distance(next - c));
        assert(o * (10_000_000_000 * distance(next - c)) <= o * o);
    }
}

/// What a strong sample on a road without sharp corners makes of the change of
/// speed, in both directions alike: the magnitude of the longitudinal
/// acceleration, times the seconds since the sample before, times the corner
/// weight, times 3.6, is added or taken away, and the result is cut off at 20 km/h
/// either way. The target is the speed at the last fix with that change, and not
/// negative.
///
/// Twice the weight is `3 - 10 g` at a rate of turning of `g` rad/s, cut off at
/// zero and two, and times are in microseconds. All terms are multiplied by
/// `2 * 10^7`, so that they are whole numbers.
pub proof fn samples_add_acceleration_times_time(w: SpeedometerWindow, imu: ImuData)
    requires
        w.accel_has_gps,
        w.accel_enabled,
        0 < w.accel_last_ts < imu.timestamp_us,
        imu.timestamp_us - w.accel_last_ts <= 500_000,
        w.accel_sign.finite(),
        distance(w.accel_sign.value()) == one(),
        moderate(imu.accel_z_ms2),
        1000 * distance(imu.accel_z_ms2.value()) >= 801 * one(),
        imu.gyro_rads.finite(),
        0 <= imu.gyro_rads.value(),
        10_000 * imu.gyro_rads.value() <= 2979 * one(),
        w.accel_delta.finite(),
        distance(w.accel_delta.value()) <= 20 * one(),
        moderate(w.accel_base_speed),
    ensures
        ({
            let o = one() as int;
            let after = w.after_imu(imu);
            let moved = distance(imu.accel_z_ms2.value()) * (imu.timestamp_us - w.accel_last_ts);
            let weight = cut(3 * o - 10 * imu.gyro_rads.value(), 0, 2 * o);
            let step = 36 * (moved * weight);
            let unit = 20_000_000 * o;
            let sum = if w.accel_sign.value() > 0 {
                unit * w.accel_delta.value() + step
            } else {
                unit * w.accel_delta.value() - step
            };
            let bound = 400_000_000 * (o * o);
            let target = w.accel_base_speed.value() + after.accel_delta.value();
            &&& after.accel_delta.finite()
            &&& distance(after.accel_delta.value()) <= 20 * o
            &&& 1_000_000 * distance(unit * after.accel_delta.value() - cut(sum, -bound, bound)) <= moved * o + 2000 * (o * o)
            &&& after.speed_target.finite()
            &&& target <= 0 ==> after.speed_target.value() == 0
            &&& target >= 0 ==> 1_000_000_000_000 * distance(after.speed_target.value() - target) <= target
        }),
{
    let o = one() as int;
    let fwd = imu.accel_z_ms2.abs();
    let g = imu.gyro_rads.value();
    let weight = corner_weight(imu.gyro_rads);
    let w2 = cut(3 * o - 10 * g, 0, 2 * o);
    let dt = seconds_between(w.accel_last_ts, imu.timestamp_us);
    lemma_pow2_pos(UNIT as nat);
    lemma_large();
    lemma_zero();
    lemma_abs(imu.accel_z_ms2);
    lemma_ratio_error(8, 10);
    lemma_ratio_error(1, 100);
    weight_falls_in_a_line(imu.gyro_rads);
    samples_count_within_half_a_second(w.accel_last_ts, imu.timestamp_us);
    let push = fwd * dt * w.accel_sign * weight * Double::ratio(36, 10);
    assert(w.fusion(imu) is Integrate);
    lemma_push_value(fwd, w.accel_last_ts, imu.timestamp_us, w.accel_sign, weight, w2);
    lemma_added(w.accel_delta, push);
    let next = w.after_imu(imu).accel_delta;
    assert(next == (w.accel_delta + push).clamp(-Double::ratio(20, 1), Double::ratio(20, 1)));
    let moved = distance(imu.accel_z_ms2.value()) * (imu.timestamp_us - w.accel_last_ts);
    let step = 36 * (moved * w2);
    let k = 20_000_000 * o;
    let d = w.accel_delta.value();
    let p = push.value();
    let sg = sign_of(w.accel_sign);
    let sum = if w.accel_sign.value() > 0 {
        k * d + step
    } else {
        k * d - step
    };
    assert(distance(k * (d + p) - sum) == distance(k * (sg * p) - step)) by (nonlinear_arith)
        requires
            sg == 1 && sum == k * d + step || sg == -1 && sum == k * d - step,
    {
        if sg == 1 {
            assert(k * (d + p) - sum == k * (sg * p) - step);
        } else {
            assert(k * (d + p) - sum == -(k * (sg * p) - step));
        }
    }
    lemma_cut(o, k, d + p, sum, next.value(), moved * o);
    let base = w.accel_base_speed;
    let target = base.value() + next.value();
    lemma_sum(base, next);
    lemma_near_error(target);
    if target <= 0 {
        lemma_near_monotone(target, 0);
    } else {
        lemma_near_monotone(0, target);
    }
    let fused = (base + next).max(Double::ratio(0, 1));
    lemma_whole(0x1000_0000_0000);
    lemma_bounded(fused, Double::ratio(0x1000_0000_0000, 1));
}

/// The step has the same size in both directions: where the directions and the
/// changes of speed so far are opposite, the new changes are opposite, whatever
/// the sample.
pub proof fn directions_step_alike(a: SpeedometerWindow, b: SpeedometerWindow, imu: ImuData)
    requires
        b == (SpeedometerWindow { accel_sign: b.accel_sign, accel_delta: b.accel_delta, ..a }),
        opposite(a.accel_sign, b.accel_sign),
        opposite(a.accel_delta, b.accel_delta),
    ensures
        a.fusion(imu) is Ignored == b.fusion(imu) is Ignored,
        a.fusion(imu) is Decay ==> a.fusion(imu) == b.fusion(imu),
        opposite(a.after_imu(imu).accel_delta, b.after_imu(imu).accel_delta),
{
    let fwd = imu.accel_z_ms2.abs();
    let weight = corner_weight(imu.gyro_rads);
    let dt = seconds_between(a.accel_last_ts, imu.timestamp_us);
    let scale = Double::ratio(36, 10);
    let p = fwd * dt;
    lemma_opposite(a.accel_sign, b.accel_sign);
    lemma_opposite_products(a.accel_sign, b.accel_sign, p);
    lemma_opposite_products(p * a.accel_sign, p * b.accel_sign, weight);
    lemma_opposite_products(p * a.accel_sign * weight, p * b.accel_sign * weight, scale);
    lemma_opposite_sums(
        a.accel_delta,
        p * a.accel_sign * weight * scale,
        b.accel_delta,
        p * b.accel_sign * weight * scale,
    );
    lemma_whole(20);
    lemma_negated(Double::ratio(20, 1));
}

/// In a corner, from 0.2981 rad/s on, a strong sample changes nothing but the
/// measured forces and the time.
pub proof fn sharp_corners_change_nothing(w: SpeedometerWindow, imu: ImuData)
    requires
        1000 * distance(imu.accel_z_ms2.value()) >= 801 * one(),
        imu.gyro_rads.finite(),
        10_000 * imu.gyro_rads.value() >= 2981 * one(),
        imu.gyro_rads.value() <= one(),
    ensures
        w.fusion(imu) is Ignored,
        w.after_imu(imu).accel_delta == w.accel_delta,
        w.after_imu(imu).speed_target == w.speed_target,
{
    lemma_pow2_pos(UNIT as nat);
    lemma_large();
    lemma_abs(imu.accel_z_ms2);
    lemma_ratio_error(8, 10);
    lemma_ratio_error(1, 100);
    weight_falls_in_a_line(imu.gyro_rads);
}

/// A weak sample, below 0.799 m/s², in time and with a known direction, lets the
/// change of speed fade: by the power of 0.92 whose exponent is the time since the
/// sample before in units of 80 milliseconds.
pub proof fn weak_samples_fade(w: SpeedometerWindow, imu: ImuData)
    requires
        w.accel_has_gps,
        w.accel_enabled,
        0 < w.accel_last_ts < imu.timestamp_us,
        imu.timestamp_us - w.accel_last_ts <= 500_000,
        w.accel_sign.finite(),
        w.accel_sign.value() != 0,
        imu.accel_z_ms2.finite(),
        1000 * distance(imu.accel_z_ms2.value()) <= 799 * one(),
    ensures
        ({
            let power = w.fusion(imu)->Decay_0;
            let gap = (imu.timestamp_us - w.accel_last_ts) * one();
            &&& w.fusion(imu) is Decay
            &&& stands_for(power.base, 92, 100)
            &&& power.exponent.finite()
            &&& 100_000_000_000 * distance(80_000 * power.exponent.value() - gap) <= gap
            &&& w.after_imu(imu).accel_delta == w.accel_delta
            &&& w.after_imu(imu).speed_target == w.speed_target
        }),
{
    let dt = seconds_between(w.accel_last_ts, imu.timestamp_us);
    let o = one() as int;
    let n = imu.timestamp_us - w.accel_last_ts;
    lemma_pow2_pos(UNIT as nat);
    lemma_large();
    lemma_zero();
    lemma_abs(imu.accel_z_ms2);
    lemma_ratio_error(8, 10);
    lemma_ratio_error(92, 100);
    samples_count_within_half_a_second(w.accel_last_ts, imu.timestamp_us);
    lemma_time(w.accel_last_ts, imu.timestamp_us);
    lemma_over(dt, 8, 100);
    assert(n * o >= o) by (nonlinear_arith)
        requires
            n >= 1,
            o > 0,
    ;
}

/// Where the direction is not known a sample changes nothing about the speed, and
/// neither does one without a good fix or with the assistance switched off.
pub proof fn unknown_directions_change_nothing(w: SpeedometerWindow, imu: ImuData)
    requires
        !w.accel_has_gps || !w.accel_enabled || (!w.accel_sign.nan() && w.accel_sign.value() == 0),
    ensures
        w.fusion(imu) is Ignored,
        w.after_imu(imu).accel_delta == w.accel_delta,
        w.after_imu(imu).speed_target == w.speed_target,
{
}

/// The measured forces are the lateral and the longitudinal acceleration in units
/// of 9.81 m/s², the longitudinal one with the opposite sign: they hold whether or
/// not the sample counts for the speed.
pub proof fn forces_are_accelerations_in_g(w: SpeedometerWindow, imu: ImuData)
    requires
        moderate(imu.accel_x_ms2),
        moderate(imu.accel_z_ms2),
    ensures
        ({
            let after = w.after_imu(imu);
            &&& after.gforce_x_raw.finite() && after.gforce_y_raw.finite()
            &&& close(after.gforce_x_raw.value(), 100, 981, imu.accel_x_ms2.value())
            &&& close(after.gforce_y_raw.value(), 100, 981, -imu.accel_z_ms2.value())
        }),
{
    lemma_negated(imu.accel_z_ms2);
    lemma_over(imu.accel_x_ms2, 981, 100);
    lemma_over(-imu.accel_z_ms2, 981, 100);
}

/// A sample touches nothing but the change of speed, the target, the measured
/// forces and its own time, and it is always the latest one from then on.
pub proof fn samples_touch_nothing_else(w: SpeedometerWindow, imu: ImuData)
    ensures
        ({
            let after = w.after_imu(imu);
            &&& after.accel_last_ts == imu.timestamp_us
            &&& after == (SpeedometerWindow {
                accel_delta: after.accel_delta,
                speed_target: after.speed_target,
                gforce_x_raw: after.gforce_x_raw,
                gforce_y_raw: after.gforce_y_raw,
                accel_last_ts: after.accel_last_ts,
                ..w
            })
        }),
{
}

} // verus!
