//! Laws of the removal of gravity, over the numbers that the sensors report.
use crate::accelerometer::{AccelEvent, AccelWatcher};
use crate::double::arith::UNIT;
use crate::double::errors::{
    close, lemma_large, lemma_length_error, lemma_near_error, lemma_ratio_error, lemma_rounding_error,
    lemma_times, lemma_times_by, moderate, stands_for,
};
use crate::double::facts::{
    lemma_abs, lemma_bounded, lemma_difference, lemma_division, lemma_near_monotone, lemma_sum, lemma_whole,
    near, one,
};
use crate::double::grid::{
    lemma_nearest_exact, lemma_nearest_monotone, lemma_order, magnitude, nearest, FRACTION, TOP,
};
use crate::double::number::{distance, Double};
use crate::imu::{ImuEvent, ImuPhase, ImuWatcher};
use crate::sensor::{Reading, Vector};
use vstd::arithmetic::power2::lemma_pow2_pos;
use vstd::prelude::*;

verus! {

/// A thousandth of G in m/s².
spec fn unit_ms2() -> Double {
    Double::ratio(981, 100) / Double::ratio(1000, 1)
}

proof fn lemma_unit_ms2()
    ensures
        stands_for(unit_ms2(), 981, 100_000),
{
    let g = Double::ratio(981, 100);
    let k = Double::ratio(1000, 1);
    let c = unit_ms2();
    let f = FRACTION as int;
    let o = one() as int;
    lemma_pow2_pos(UNIT as nat);
    lemma_large();
    lemma_ratio_error(981, 100);
    lemma_whole(1000);
    lemma_division(g, k);
    let x = magnitude(g.index()) as int;
    let n = (x * o) as nat;
    let d = (1000 * o) as nat;
    assert(x * o >= 0) by (nonlinear_arith)
        requires
            x >= 0,
            o > 0,
    ;
    lemma_quotient_below(x as nat, d);
    lemma_rounding_error(n, d);
    let v = magnitude(c.index()) as int;
    assert((2 * f) * distance(1000 * v - x) <= x + 2000 * f) by (nonlinear_arith)
        requires
            (2 * f) * distance(d * v - n) <= n + (2 * f) * d,
            n == x * o,
            d == 1000 * o,
            o > 0,
            f > 0,
    {
        assert(d * v - n == o * (1000 * v - x));
        assert(distance(o * (1000 * v - x)) == o * distance(1000 * v - x));
        assert((2 * f) * (o * distance(1000 * v - x)) == o * ((2 * f) * distance(1000 * v - x)));
        assert(n + (2 * f) * d == o * (x + 2000 * f));
    }
    lemma_order(0, c.index());
    assert(4_000_000_000_000 * distance(100_000 * v - 981 * o) <= 981 * o + 4_000_000_000_000 * 100_000)
        by (nonlinear_arith)
        requires
            (2 * f) * distance(1000 * v - x) <= x + 2000 * f,
            f * distance(100 * x - 981 * o) <= 981 * o + 100 * f,
            f == 0x10_0000_0000_0000,
            o >= 0x100_0000_0000 * f,
    ;
}

/// A quotient by at least one is finite.
proof fn lemma_quotient_below(x: nat, d: nat)
    requires
        x <= 1_000_001 * one(),
        d >= one(),
    ensures
        nearest(x * one(), d) < TOP,
{
    lemma_pow2_pos(UNIT as nat);
    lemma_whole(1_000_001);
    let top = Double::ratio(1_000_001, 1);
    let t = 1_000_001 * one();
    assert((x * one()) * 1 <= (t * 1) * d) by (nonlinear_arith)
        requires
            x <= t,
            d >= one(),
            one() > 0,
            t >= 0,
    ;
    lemma_nearest_monotone(x * one(), d, t * 1, 1);
    lemma_nearest_exact(t * 1, 1, top.index());
}

/// What is left of one without a part of it.
proof fn lemma_rest(part: u64)
    requires
        900 <= part <= 990,
    ensures
        stands_for(Double::ratio(1, 1) - Double::ratio(part, 1000), 1000 - part, 1000),
{
    let a = Double::ratio(part, 1000);
    let unit = Double::ratio(1, 1);
    let f = FRACTION as int;
    let o = one() as int;
    lemma_pow2_pos(UNIT as nat);
    lemma_large();
    lemma_ratio_error(part, 1000);
    lemma_whole(1);
    let v = a.value();
    let p = part * o;
    assert(900 * o <= p <= 990 * o) by (nonlinear_arith)
        requires
            p == part * o,
            900 <= part <= 990,
            o > 0,
    ;
    assert(f * distance(1000 * v - p) <= p + 1000 * f);
    assert(0 <= o - v <= o && 5 * (o - v) <= o) by (nonlinear_arith)
        requires
            f * distance(1000 * v - p) <= p + 1000 * f,
            900 * o <= p <= 990 * o,
            f == 0x10_0000_0000_0000,
            o >= 0x100_0000_0000 * f,
            v >= 0,
    ;
    lemma_difference(unit, a);
    let n = (o - v) as nat;
    lemma_near_error(o - v);
    lemma_near_monotone(0, o - v);
    lemma_whole(2);
    lemma_bounded(unit - a, Double::ratio(2, 1));
    assert(n * 1 <= one() * 1);
    lemma_nearest_monotone(n, 1, one(), 1);
    assert(one() == magnitude(unit.index()) * 1);
    lemma_nearest_exact(one(), 1, unit.index());
    lemma_rounding_error(n, 1);
    let r = (unit - a).value();
    assert((2 * f) * distance(r - (o - v)) <= (o - v) + 2 * f);
    assert((1000 - part) * o == 1000 * o - p) by (nonlinear_arith)
        requires
            p == part * o,
    ;
    assert(4_000_000_000_000 * distance(1000 * r - (1000 * o - p)) <= 1000 * o - p + 4_000_000_000_000 * 1000)
        by (nonlinear_arith)
        requires
            (2 * f) * distance(r - (o - v)) <= (o - v) + 2 * f,
            f * distance(1000 * v - p) <= p + 1000 * f,
            900 * o <= p <= 990 * o,
            5 * (o - v) <= o,
            f == 0x10_0000_0000_0000,
            o >= 0x100_0000_0000 * f,
    ;
}

/// A number whose value is bounded is finite.
proof fn lemma_stays_finite(a: Double)
    requires
        !a.nan(),
        distance(a.value()) <= 0x1_0000_0000_0000 * one(),
    ensures
        a.finite(),
{
    lemma_whole(0x1_0000_0000_0000);
    lemma_abs(a);
    lemma_bounded(a.abs(), Double::ratio(0x1_0000_0000_0000, 1));
}

/// One axis: the reading in m/s², the next estimate of gravity, and what is left.
proof fn lemma_axis(part: u64, g: Double, raw: Double)
    requires
        900 <= part <= 990,
        moderate(g),
        moderate(raw),
    ensures
        ({
            let alpha = Double::ratio(part, 1000);
            let t = raw * unit_ms2();
            let kept = alpha * g;
            let taken = (Double::ratio(1, 1) - alpha) * t;
            let new = kept + taken;
            let left = t - new;
            let x = kept.value() + taken.value();
            let y = t.value() - new.value();
            &&& t.finite() && new.finite() && left.finite()
            &&& close(t.value(), 981, 100_000, raw.value())
            &&& close(kept.value(), part as int, 1000, g.value())
            &&& close(taken.value(), 1000 - part, 1000, t.value())
            &&& 1_000_000_000_000 * distance(new.value() - x) <= distance(x)
            &&& 1_000_000_000_000 * distance(left.value() - y) <= distance(y)
            &&& y >= 0 ==> left.value() >= 0
            &&& y <= 0 ==> left.value() <= 0
        }),
{
    let alpha = Double::ratio(part, 1000);
    let rest = Double::ratio(1, 1) - alpha;
    let t = raw * unit_ms2();
    let kept = alpha * g;
    let taken = rest * t;
    let new = kept + taken;
    lemma_pow2_pos(UNIT as nat);
    lemma_large();
    lemma_unit_ms2();
    lemma_rest(part);
    lemma_times_by(raw, unit_ms2(), 981, 100_000);
    lemma_times(g, part, 1000);
    lemma_times_by(t, rest, 1000 - part, 1000);
    lemma_size(981, 100_000, t.value(), raw.value());
    lemma_size(part as int, 1000, kept.value(), g.value());
    lemma_size(1000 - part, 1000, taken.value(), t.value());
    let x = kept.value() + taken.value();
    lemma_distances(kept.value(), taken.value());
    lemma_sum(kept, taken);
    lemma_near_error(x);
    lemma_distances(near(x) - x, x);
    lemma_stays_finite(new);
    lemma_left(t, new);
}

proof fn lemma_left(t: Double, new: Double)
    requires
        t.finite(),
        new.finite(),
        distance(t.value()) <= 0x200_0000_0000 * one(),
        distance(new.value()) <= 0x1000_0000_0000 * one(),
    ensures
        ({
            let left = t - new;
            let y = t.value() - new.value();
            &&& left.finite()
            &&& 1_000_000_000_000 * distance(left.value() - y) <= distance(y)
            &&& y >= 0 ==> left.value() >= 0
            &&& y <= 0 ==> left.value() <= 0
        }),
{
    let y = t.value() - new.value();
    lemma_pow2_pos(UNIT as nat);
    lemma_distances(t.value(), new.value());
    lemma_difference(t, new);
    lemma_near_error(y);
    lemma_distances(near(y) - y, y);
    lemma_stays_finite(t - new);
    if y >= 0 {
        lemma_near_monotone(0, y);
    }
    if y <= 0 {
        lemma_near_monotone(y, 0);
    }
}

/// A part of a number is hardly larger than the number.
proof fn lemma_size(n: int, d: int, a: int, b: int)
    requires
        close(a, n, d, b),
        0 <= n <= d,
        0 < d <= 100_000,
        distance(b) <= 0x200_0000_0000 * one(),
        one() >= 1_000_000_000_000_000_000_000_000_000,
    ensures
        distance(a) <= 2 * distance(b) + 3,
        distance(b) <= 0x100_0000_0000 * one() ==> distance(a) <= 0x200_0000_0000 * one(),
{
    let x = distance(a) as int;
    let y = distance(b) as int;
    let e = distance(d * a - n * b) as int;
    assert(d * x <= n * y + e && n * y <= d * y) by (nonlinear_arith)
        requires
            x == distance(a),
            y == distance(b),
            e == distance(d * a - n * b),
            0 <= n <= d,
    {
        assert(d * x == distance(d * a));
        assert(n * y == distance(n * b));
    }
    assert(x <= 2 * y + 3 && 1_000_000 * x <= 1_000_001 * y + 3_000_000) by (nonlinear_arith)
        requires
            d * x <= d * y + e,
            1_000_000_000_000 * e <= d * y + 2_000_000_000_000 * d,
            d > 0,
            y >= 0,
    {
        assert(d * x <= d * (2 * y + 3));
        assert(d * (1_000_000 * x) <= d * (1_000_001 * y + 3_000_000));
    }
}

/// What becomes of one axis, over values: `old` and `new` are estimates of
/// gravity in m/s², `raw` is a reading in thousandths of G, and `left` is what is
/// left of it in m/s². The estimate keeps `part` thousandths and takes the rest
/// from the reading, and what is left is the reading without the new estimate,
/// with its sign: all to ten digits, plus less than any sensor can tell.
pub open spec fn parted(part: int, old: int, raw: int, new: int, left: int) -> bool {
    let slack = 100_000 * distance(old) + 981 * distance(raw) + one();
    let rest = 1000 - part;
    &&& 10_000_000_000 * distance(100_000_000 * new - (part * (100_000 * old) + rest * (981 * raw))) <= 1000 * slack
    &&& 10_000_000_000 * distance(100_000 * left - (981 * raw - 100_000 * new)) <= slack
    &&& 10_000_000_000 * distance(100_000_000 * left - part * (981 * raw - 100_000 * old)) <= 1000 * slack
}

proof fn lemma_parted(part: u64, g: Double, raw: Double)
    requires
        part == 990 || part == 926,
        moderate(g),
        moderate(raw),
    ensures
        ({
            let alpha = Double::ratio(part, 1000);
            let t = raw * unit_ms2();
            let new = alpha * g + (Double::ratio(1, 1) - alpha) * t;
            let left = t - new;
            &&& t.finite() && new.finite() && left.finite()
            &&& 10_000_000_000 * distance(100_000 * t.value() - 981 * raw.value()) <= 981 * distance(raw.value()) + one()
            &&& parted(part as int, g.value(), raw.value(), new.value(), left.value())
            &&& t.value() >= new.value() ==> left.value() >= 0
            &&& t.value() <= new.value() ==> left.value() <= 0
        }),
{
    lemma_large();
    lemma_axis(part, g, raw);
    let alpha = Double::ratio(part, 1000);
    let t = raw * unit_ms2();
    let kept = alpha * g;
    let taken = (Double::ratio(1, 1) - alpha) * t;
    let new = kept + taken;
    if part == 990 {
        lemma_parted_slowly(
            one() as int,
            g.value(),
            raw.value(),
            t.value(),
            kept.value(),
            taken.value(),
            new.value(),
            (t - new).value(),
        );
    } else {
        lemma_parted_quickly(
            one() as int,
            g.value(),
            raw.value(),
            t.value(),
            kept.value(),
            taken.value(),
            new.value(),
            (t - new).value(),
        );
    }
}

proof fn lemma_parted_slowly(o: int, g: int, raw: int, t: int, kept: int, taken: int, new: int, left: int)
    requires
        o == one(),
        o >= 1_000_000_000_000_000_000_000_000_000,
        close(t, 981, 100_000, raw),
        close(kept, 990, 1000, g),
        close(taken, 10, 1000, t),
        1_000_000_000_000 * distance(new - (kept + taken)) <= distance(kept + taken),
        1_000_000_000_000 * distance(left - (t - new)) <= distance(t - new),
    ensures
        parted(990, g, raw, new, left),
{
    let r = distance(raw) as int;
    let h = distance(g) as int;
    let t1 = distance(t) as int;
    let k1 = distance(kept) as int;
    let k2 = distance(taken) as int;
    assert(100_000 * t1 <= 982 * r + 300_000 && -(981 * r + 200_000_000_000_000_000) <= 1_000_000_000_000 * (100_000 * t
        - 981 * raw) <= 981 * r + 200_000_000_000_000_000) by {
        lemma_reach(100_000, t, 981, raw);
    }
    assert(1000 * k1 <= 991 * h + 3000 && -(990 * h + 2_000_000_000_000_000) <= 1_000_000_000_000 * (1000 * kept
        - 990 * g) <= 990 * h + 2_000_000_000_000_000) by {
        lemma_reach(1000, kept, 990, g);
    }
    assert(1000 * k2 <= 11 * t1 + 3000 && -(10 * t1 + 2_000_000_000_000_000) <= 1_000_000_000_000 * (1000
        * taken - 10 * t) <= 10 * t1 + 2_000_000_000_000_000) by {
        lemma_reach(1000, taken, 10, t);
    }
    lemma_sum_band(kept, taken, new);
    lemma_left_band(t, kept, taken, new, left);
    lemma_parted_slowly_result(o, r, h, t1, k1, k2, g, raw, t, kept, taken, new, left);
}

#[verifier::rlimit(40)]
proof fn lemma_parted_slowly_result(
    o: int,
    r: int,
    h: int,
    t1: int,
    k1: int,
    k2: int,
    g: int,
    raw: int,
    t: int,
    kept: int,
    taken: int,
    new: int,
    left: int,
)
    requires
        o == one(),
        o >= 1_000_000_000_000_000_000_000_000_000,
        r == distance(raw),
        h == distance(g),
        0 <= r,
        0 <= h,
        100_000 * t1 <= 982 * r + 300_000,
        1000 * k1 <= 991 * h + 3000,
        1000 * k2 <= 11 * t1 + 3000,
        -(981 * r + 200_000_000_000_000_000) <= 1_000_000_000_000 * (100_000 * t - 981 * raw) <= 981 * r
            + 200_000_000_000_000_000,
        -(990 * h + 2_000_000_000_000_000) <= 1_000_000_000_000 * (1000 * kept - 990 * g) <= 990 * h
            + 2_000_000_000_000_000,
        -(10 * t1 + 2_000_000_000_000_000) <= 1_000_000_000_000 * (1000 * taken - 10 * t) <= 10 * t1
            + 2_000_000_000_000_000,
        -(k1 + k2) <= 1_000_000_000_000 * (new - (kept + taken)) <= k1 + k2,
        -(t1 + 2 * (k1 + k2)) <= 1_000_000_000_000 * (left - (t - new)) <= t1 + 2 * (k1 + k2),
    ensures
        parted(990, g, raw, new, left),
{
    lemma_parted_slowly_sums(o, r, h, t1, k1, k2, g, raw, t, kept, taken, new, left);
    lemma_within(100_000_000 * new - (990 * (100_000 * g) + 10 * (981 * raw)), 1000 * (100_000 * h + 981 * r + o));
    lemma_within(100_000 * left - (981 * raw - 100_000 * new), 100_000 * h + 981 * r + o);
    lemma_within(100_000_000 * left - 990 * (981 * raw - 100_000 * g), 1000 * (100_000 * h + 981 * r + o));
}

proof fn lemma_parted_slowly_sums(
    o: int,
    r: int,
    h: int,
    t1: int,
    k1: int,
    k2: int,
    g: int,
    raw: int,
    t: int,
    kept: int,
    taken: int,
    new: int,
    left: int,
)
    requires
        o >= 1_000_000_000_000_000_000_000_000_000,
        0 <= r,
        0 <= h,
        100_000 * t1 <= 982 * r + 300_000,
        1000 * k1 <= 991 * h + 3000,
        1000 * k2 <= 11 * t1 + 3000,
        -(981 * r + 200_000_000_000_000_000) <= 1_000_000_000_000 * (100_000 * t - 981 * raw) <= 981 * r
            + 200_000_000_000_000_000,
        -(990 * h + 2_000_000_000_000_000) <= 1_000_000_000_000 * (1000 * kept - 990 * g) <= 990 * h
            + 2_000_000_000_000_000,
        -(10 * t1 + 2_000_000_000_000_000) <= 1_000_000_000_000 * (1000 * taken - 10 * t) <= 10 * t1
            + 2_000_000_000_000_000,
        -(k1 + k2) <= 1_000_000_000_000 * (new - (kept + taken)) <= k1 + k2,
        -(t1 + 2 * (k1 + k2)) <= 1_000_000_000_000 * (left - (t - new)) <= t1 + 2 * (k1 + k2),
    ensures
        ({
            let slack = 100_000 * h + 981 * r + o;
            let c1 = 100_000_000 * new - (990 * (100_000 * g) + 10 * (981 * raw));
            let c2 = 100_000 * left - (981 * raw - 100_000 * new);
            let c3 = 100_000_000 * left - 990 * (981 * raw - 100_000 * g);
            &&& -(1000 * slack) <= 10_000_000_000 * c1 <= 1000 * slack
            &&& -slack <= 10_000_000_000 * c2 <= slack
            &&& -(1000 * slack) <= 10_000_000_000 * c3 <= 1000 * slack
        }),
{
    let e1 = 100_000 * t - 981 * raw;
    let e2 = 1000 * kept - 990 * g;
    let e3 = 1000 * taken - 10 * t;
    let e4 = new - (kept + taken);
    let e5 = left - (t - new);
    lemma_parted_slowly_bounds(o, r, h, t1, k1, k2, e1, e2, e3, e4, e5);
    let c1 = 100_000_000 * new - (990 * (100_000 * g) + 10 * (981 * raw));
    let c2 = 100_000 * left - (981 * raw - 100_000 * new);
    let c3 = 100_000_000 * left - 990 * (981 * raw - 100_000 * g);
    assert(c1 == 100_000 * e2 + 100_000 * e3 + 10 * e1 + 100_000_000 * e4);
    assert(c2 == 100_000 * e5 + e1);
    assert(c3 == 1000 * c2 - c1);
}

proof fn lemma_parted_slowly_bounds(o: int, r: int, h: int, t1: int, k1: int, k2: int, e1: int, e2: int, e3: int, e4: int, e5: int)
    requires
        o >= 1_000_000_000_000_000_000_000_000_000,
        0 <= r,
        0 <= h,
        100_000 * t1 <= 982 * r + 300_000,
        1000 * k1 <= 991 * h + 3000,
        1000 * k2 <= 11 * t1 + 3000,
        -(981 * r + 200_000_000_000_000_000) <= 1_000_000_000_000 * e1 <= 981 * r + 200_000_000_000_000_000,
        -(990 * h + 2_000_000_000_000_000) <= 1_000_000_000_000 * e2 <= 990 * h + 2_000_000_000_000_000,
        -(10 * t1 + 2_000_000_000_000_000) <= 1_000_000_000_000 * e3 <= 10 * t1 + 2_000_000_000_000_000,
        -(k1 + k2) <= 1_000_000_000_000 * e4 <= k1 + k2,
        -(t1 + 2 * (k1 + k2)) <= 1_000_000_000_000 * e5 <= t1 + 2 * (k1 + k2),
    ensures
        ({
            let slack = 100_000 * h + 981 * r + o;
            let c1 = 100_000 * e2 + 100_000 * e3 + 10 * e1 + 100_000_000 * e4;
            let c2 = 100_000 * e5 + e1;
            &&& -(500 * slack) <= 10_000_000_000 * c1 <= 500 * slack
            &&& -slack <= 20_000_000_000 * c2 <= slack
        }),
{
}

proof fn lemma_parted_quickly(o: int, g: int, raw: int, t: int, kept: int, taken: int, new: int, left: int)
    requires
        o == one(),
        o >= 1_000_000_000_000_000_000_000_000_000,
        close(t, 981, 100_000, raw),
        close(kept, 926, 1000, g),
        close(taken, 74, 1000, t),
        1_000_000_000_000 * distance(new - (kept + taken)) <= distance(kept + taken),
        1_000_000_000_000 * distance(left - (t - new)) <= distance(t - new),
    ensures
        parted(926, g, raw, new, left),
{
    let r = distance(raw) as int;
    let h = distance(g) as int;
    let t1 = distance(t) as int;
    let k1 = distance(kept) as int;
    let k2 = distance(taken) as int;
    assert(100_000 * t1 <= 982 * r + 300_000 && -(981 * r + 200_000_000_000_000_000) <= 1_000_000_000_000 * (100_000 * t
        - 981 * raw) <= 981 * r + 200_000_000_000_000_000) by {
        lemma_reach(100_000, t, 981, raw);
    }
    assert(1000 * k1 <= 927 * h + 3000 && -(926 * h + 2_000_000_000_000_000) <= 1_000_000_000_000 * (1000 * kept
        - 926 * g) <= 926 * h + 2_000_000_000_000_000) by {
        lemma_reach(1000, kept, 926, g);
    }
    assert(1000 * k2 <= 75 * t1 + 3000 && -(74 * t1 + 2_000_000_000_000_000) <= 1_000_000_000_000 * (1000
        * taken - 74 * t) <= 74 * t1 + 2_000_000_000_000_000) by {
        lemma_reach(1000, taken, 74, t);
    }
    lemma_sum_band(kept, taken, new);
    lemma_left_band(t, kept, taken, new, left);
    lemma_parted_quickly_result(o, r, h, t1, k1, k2, g, raw, t, kept, taken, new, left);
}

#[verifier::rlimit(40)]
proof fn lemma_parted_quickly_result(
    o: int,
    r: int,
    h: int,
    t1: int,
    k1: int,
    k2: int,
    g: int,
    raw: int,
    t: int,
    kept: int,
    taken: int,
    new: int,
    left: int,
)
    requires
        o == one(),
        o >= 1_000_000_000_000_000_000_000_000_000,
        r == distance(raw),
        h == distance(g),
        0 <= r,
        0 <= h,
        100_000 * t1 <= 982 * r + 300_000,
        1000 * k1 <= 927 * h + 3000,
        1000 * k2 <= 75 * t1 + 3000,
        -(981 * r + 200_000_000_000_000_000) <= 1_000_000_000_000 * (100_000 * t - 981 * raw) <= 981 * r
            + 200_000_000_000_000_000,
        -(926 * h + 2_000_000_000_000_000) <= 1_000_000_000_000 * (1000 * kept - 926 * g) <= 926 * h
            + 2_000_000_000_000_000,
        -(74 * t1 + 2_000_000_000_000_000) <= 1_000_000_000_000 * (1000 * taken - 74 * t) <= 74 * t1
            + 2_000_000_000_000_000,
        -(k1 + k2) <= 1_000_000_000_000 * (new - (kept + taken)) <= k1 + k2,
        -(t1 + 2 * (k1 + k2)) <= 1_000_000_000_000 * (left - (t - new)) <= t1 + 2 * (k1 + k2),
    ensures
        parted(926, g, raw, new, left),
{
    lemma_parted_quickly_sums(o, r, h, t1, k1, k2, g, raw, t, kept, taken, new, left);
    lemma_within(100_000_000 * new - (926 * (100_000 * g) + 74 * (981 * raw)), 1000 * (100_000 * h + 981 * r + o));
    lemma_within(100_000 * left - (981 * raw - 100_000 * new), 100_000 * h + 981 * r + o);
    lemma_within(100_000_000 * left - 926 * (981 * raw - 100_000 * g), 1000 * (100_000 * h + 981 * r + o));
}

proof fn lemma_parted_quickly_sums(
    o: int,
    r: int,
    h: int,
    t1: int,
    k1: int,
    k2: int,
    g: int,
    raw: int,
    t: int,
    kept: int,
    taken: int,
    new: int,
    left: int,
)
    requires
        o >= 1_000_000_000_000_000_000_000_000_000,
        0 <= r,
        0 <= h,
        100_000 * t1 <= 982 * r + 300_000,
        1000 * k1 <= 927 * h + 3000,
        1000 * k2 <= 75 * t1 + 3000,
        -(981 * r + 200_000_000_000_000_000) <= 1_000_000_000_000 * (100_000 * t - 981 * raw) <= 981 * r
            + 200_000_000_000_000_000,
        -(926 * h + 2_000_000_000_000_000) <= 1_000_000_000_000 * (1000 * kept - 926 * g) <= 926 * h
            + 2_000_000_000_000_000,
        -(74 * t1 + 2_000_000_000_000_000) <= 1_000_000_000_000 * (1000 * taken - 74 * t) <= 74 * t1
            + 2_000_000_000_000_000,
        -(k1 + k2) <= 1_000_000_000_000 * (new - (kept + taken)) <= k1 + k2,
        -(t1 + 2 * (k1 + k2)) <= 1_000_000_000_000 * (left - (t - new)) <= t1 + 2 * (k1 + k2),
    ensures
        ({
            let slack = 100_000 * h + 981 * r + o;
            let c1 = 100_000_000 * new - (926 * (100_000 * g) + 74 * (981 * raw));
            let c2 = 100_000 * left - (981 * raw - 100_000 * new);
            let c3 = 100_000_000 * left - 926 * (981 * raw - 100_000 * g);
            &&& -(1000 * slack) <= 10_000_000_000 * c1 <= 1000 * slack
            &&& -slack <= 10_000_000_000 * c2 <= slack
            &&& -(1000 * slack) <= 10_000_000_000 * c3 <= 1000 * slack
        }),
{
    let e1 = 100_000 * t - 981 * raw;
    let e2 = 1000 * kept - 926 * g;
    let e3 = 1000 * taken - 74 * t;
    let e4 = new - (kept + taken);
    let e5 = left - (t - new);
    lemma_parted_quickly_bounds(o, r, h, t1, k1, k2, e1, e2, e3, e4, e5);
    let c1 = 100_000_000 * new - (926 * (100_000 * g) + 74 * (981 * raw));
    let c2 = 100_000 * left - (981 * raw - 100_000 * new);
    let c3 = 100_000_000 * left - 926 * (981 * raw - 100_000 * g);
    assert(c1 == 100_000 * e2 + 100_000 * e3 + 74 * e1 + 100_000_000 * e4);
    assert(c2 == 100_000 * e5 + e1);
    assert(c3 == 1000 * c2 - c1);
}

proof fn lemma_parted_quickly_bounds(o: int, r: int, h: int, t1: int, k1: int, k2: int, e1: int, e2: int, e3: int, e4: int, e5: int)
    requires
        o >= 1_000_000_000_000_000_000_000_000_000,
        0 <= r,
        0 <= h,
        100_000 * t1 <= 982 * r + 300_000,
        1000 * k1 <= 927 * h + 3000,
        1000 * k2 <= 75 * t1 + 3000,
        -(981 * r + 200_000_000_000_000_000) <= 1_000_000_000_000 * e1 <= 981 * r + 200_000_000_000_000_000,
        -(926 * h + 2_000_000_000_000_000) <= 1_000_000_000_000 * e2 <= 926 * h + 2_000_000_000_000_000,
        -(74 * t1 + 2_000_000_000_000_000) <= 1_000_000_000_000 * e3 <= 74 * t1 + 2_000_000_000_000_000,
        -(k1 + k2) <= 1_000_000_000_000 * e4 <= k1 + k2,
        -(t1 + 2 * (k1 + k2)) <= 1_000_000_000_000 * e5 <= t1 + 2 * (k1 + k2),
    ensures
        ({
            let slack = 100_000 * h + 981 * r + o;
            let c1 = 100_000 * e2 + 100_000 * e3 + 74 * e1 + 100_000_000 * e4;
            let c2 = 100_000 * e5 + e1;
            &&& -(500 * slack) <= 10_000_000_000 * c1 <= 500 * slack
            &&& -slack <= 20_000_000_000 * c2 <= slack
        }),
{
}

proof fn lemma_sum_band(kept: int, taken: int, new: int)
    requires
        1_000_000_000_000 * distance(new - (kept + taken)) <= distance(kept + taken),
    ensures
        ({
            let b = distance(kept) + distance(taken);
            &&& -b <= 1_000_000_000_000 * (new - (kept + taken)) <= b
            &&& distance(new) <= 2 * b
        }),
{
}

proof fn lemma_left_band(t: int, kept: int, taken: int, new: int, left: int)
    requires
        distance(new) <= 2 * (distance(kept) + distance(taken)),
        1_000_000_000_000 * distance(left - (t - new)) <= distance(t - new),
    ensures
        ({
            let b = distance(t) + 2 * (distance(kept) + distance(taken));
            -b <= 1_000_000_000_000 * (left - (t - new)) <= b
        }),
{
}

proof fn lemma_within(c: int, bound: int)
    requires
        -bound <= 10_000_000_000 * c <= bound,
    ensures
        10_000_000_000 * distance(c) <= bound,
{
}

proof fn lemma_distances(a: int, b: int)
    ensures
        distance(a + b) <= distance(a) + distance(b),
        distance(a - b) <= distance(a) + distance(b),
{
}

/// What a close part means as a band, and how large it can be.
proof fn lemma_reach(d: int, a: int, n: int, b: int)
    requires
        close(a, n, d, b),
        0 < d <= 100_000,
        0 <= n <= 1000,
    ensures
        ({
            let bound = n * distance(b) + 2_000_000_000_000 * d;
            -bound <= 1_000_000_000_000 * (d * a - n * b) <= bound
        }),
        d * distance(a) <= (n + 1) * distance(b) + 3 * d,
{
    let y = distance(b) as int;
    assert(d * distance(a) == distance(d * a)) by (nonlinear_arith)
        requires
            d > 0,
    ;
    assert(distance(n * b) == n * y && n * y <= 1000 * y && (n + 1) * y == n * y + y) by (nonlinear_arith)
        requires
            0 <= n <= 1000,
            y == distance(b),
    ;
}

pub open spec fn moderate_vector(v: Vector) -> bool {
    moderate(v.x) && moderate(v.y) && moderate(v.z)
}

/// What a sample holds, on every axis with its sign: the reading without the new
/// estimate of gravity, which keeps 99 parts in a hundred of the one before.
pub proof fn samples_are_readings_without_gravity(w: ImuWatcher, rate: Double, reading: Reading)
    requires
        w.phase == ImuPhase::PollingAccel(rate),
        w.gravity is Some,
        reading.timestamp_us != w.last_accel_ts,
        moderate_vector(w.gravity->0),
        moderate_vector(reading.raw),
    ensures
        ({
            let (after, action) = w.next(ImuEvent::Read(reading));
            let sample = action->Send_0;
            let old = w.gravity->0;
            let new = after.gravity->0;
            let raw = reading.raw;
            &&& action is Send
            &&& after.gravity is Some
            &&& after.last_accel_ts == reading.timestamp_us
            &&& after.rate == w.rate && after.has_gyro == w.has_gyro
            &&& sample.timestamp_us == reading.timestamp_us
            &&& sample.gyro_rads == rate
            &&& sample.accel_x_ms2.finite() && sample.accel_y_ms2.finite() && sample.accel_z_ms2.finite()
            &&& parted(990, old.x.value(), raw.x.value(), new.x.value(), sample.accel_x_ms2.value())
            &&& parted(990, old.y.value(), raw.y.value(), new.y.value(), sample.accel_y_ms2.value())
            &&& parted(990, old.z.value(), raw.z.value(), new.z.value(), sample.accel_z_ms2.value())
        }),
{
    let old = w.gravity->0;
    lemma_parted(990, old.x, reading.raw.x);
    lemma_parted(990, old.y, reading.raw.y);
    lemma_parted(990, old.z, reading.raw.z);
}

/// A component is not negative where the reading is at or above the new estimate
/// of gravity, and not positive where it is at or below.
pub proof fn components_have_the_sign_of_the_difference(w: ImuWatcher, rate: Double, reading: Reading)
    requires
        w.phase == ImuPhase::PollingAccel(rate),
        w.gravity is Some,
        reading.timestamp_us != w.last_accel_ts,
        moderate_vector(w.gravity->0),
        moderate_vector(reading.raw),
    ensures
        ({
            let (after, action) = w.next(ImuEvent::Read(reading));
            let sample = action->Send_0;
            let new = after.gravity->0;
            let total = reading.acceleration();
            &&& total.x >= new.x ==> sample.accel_x_ms2.value() >= 0
            &&& total.x <= new.x ==> sample.accel_x_ms2.value() <= 0
            &&& total.y >= new.y ==> sample.accel_y_ms2.value() >= 0
            &&& total.y <= new.y ==> sample.accel_y_ms2.value() <= 0
            &&& total.z >= new.z ==> sample.accel_z_ms2.value() >= 0
            &&& total.z <= new.z ==> sample.accel_z_ms2.value() <= 0
        }),
{
    let old = w.gravity->0;
    lemma_parted(990, old.x, reading.raw.x);
    lemma_parted(990, old.y, reading.raw.y);
    lemma_parted(990, old.z, reading.raw.z);
}

/// The magnitude in a sample is the length of its three components.
pub proof fn magnitude_belongs_to_the_components(w: ImuWatcher, event: ImuEvent)
    requires
        w.next(event).1 is Send,
        ({
            let sample = w.next(event).1->Send_0;
            &&& sample.accel_x_ms2.finite() && distance(sample.accel_x_ms2.value()) <= 1_000_000 * one()
            &&& sample.accel_y_ms2.finite() && distance(sample.accel_y_ms2.value()) <= 1_000_000 * one()
            &&& sample.accel_z_ms2.finite() && distance(sample.accel_z_ms2.value()) <= 1_000_000 * one()
        }),
    ensures
        ({
            let sample = w.next(event).1->Send_0;
            let x = sample.accel_x_ms2.value();
            let y = sample.accel_y_ms2.value();
            let z = sample.accel_z_ms2.value();
            let v = sample.linear_ms2.value();
            let n = x * x + y * y + z * z;
            &&& sample.linear_ms2.finite()
            &&& v >= 0
            &&& 100_000_000_000 * distance(v * v - n) <= n + 1_000_000_000_000 * one()
        }),
{
    let sample = w.next(event).1->Send_0;
    lemma_length_error(sample.accel_x_ms2, sample.accel_y_ms2, sample.accel_z_ms2);
}

/// The first reading sets the estimate of gravity to itself, in m/s².
pub proof fn gravity_starts_at_the_first_reading(w: ImuWatcher, rate: Double, reading: Reading)
    requires
        w.phase == ImuPhase::PollingAccel(rate),
        w.gravity is None,
        reading.timestamp_us != w.last_accel_ts,
        moderate_vector(reading.raw),
    ensures
        ({
            let (after, action) = w.next(ImuEvent::Read(reading));
            let g = after.gravity->0;
            let raw = reading.raw;
            let fits = |a: int, b: int| 10_000_000_000 * distance(100_000 * a - 981 * b) <= 981 * distance(b) + one();
            &&& action is Sleep
            &&& after.gravity is Some
            &&& after.last_accel_ts == reading.timestamp_us
            &&& fits(g.x.value(), raw.x.value())
            &&& fits(g.y.value(), raw.y.value())
            &&& fits(g.z.value(), raw.z.value())
        }),
{
    lemma_parted(990, reading.raw.x, reading.raw.x);
    lemma_parted(990, reading.raw.y, reading.raw.y);
    lemma_parted(990, reading.raw.z, reading.raw.z);
}

/// What the accelerometer thread makes of a reading: its estimate of gravity
/// keeps 926 thousandths of the one before, and what it sends is the length of
/// what is left.
pub proof fn updates_are_readings_without_gravity(w: AccelWatcher, reading: Reading)
    requires
        w.phase is Listening,
        w.gravity is Some,
        moderate_vector(w.gravity->0),
        moderate_vector(reading.raw),
        distance(w.gravity->0.x.value()) <= 100_000 * one(),
        distance(w.gravity->0.y.value()) <= 100_000 * one(),
        distance(w.gravity->0.z.value()) <= 100_000 * one(),
        distance(reading.raw.x.value()) <= 10_000_000 * one(),
        distance(reading.raw.y.value()) <= 10_000_000 * one(),
        distance(reading.raw.z.value()) <= 10_000_000 * one(),
    ensures
        ({
            let (after, action) = w.next(AccelEvent::Read(reading));
            let update = action->Send_0;
            let old = w.gravity->0;
            let new = after.gravity->0;
            let raw = reading.raw;
            let v = update.linear_ms2.value();
            &&& action is Send
            &&& after.gravity is Some
            &&& update.timestamp_us == reading.timestamp_us
            &&& update.linear_ms2.finite() && v >= 0
            &&& exists|x: int, y: int, z: int|
                {
                    let n = x * x + y * y + z * z;
                    &&& #[trigger] parted(926, old.x.value(), raw.x.value(), new.x.value(), x)
                    &&& #[trigger] parted(926, old.y.value(), raw.y.value(), new.y.value(), y)
                    &&& #[trigger] parted(926, old.z.value(), raw.z.value(), new.z.value(), z)
                    &&& 100_000_000_000 * distance(v * v - n) <= n + 1_000_000_000_000 * one()
                }
        }),
{
    let old = w.gravity->0;
    let raw = reading.raw;
    lemma_large();
    lemma_parted(926, old.x, raw.x);
    lemma_parted(926, old.y, raw.y);
    lemma_parted(926, old.z, raw.z);
    let left = reading.acceleration().without(old.low_pass(Double::ratio(926, 1000), reading.acceleration()));
    let new = w.next(AccelEvent::Read(reading)).0.gravity->0;
    assert(parted(926, old.x.value(), raw.x.value(), new.x.value(), left.x.value()));
    assert(parted(926, old.y.value(), raw.y.value(), new.y.value(), left.y.value()));
    assert(parted(926, old.z.value(), raw.z.value(), new.z.value(), left.z.value()));
    lemma_length_error(left.x, left.y, left.z);
}

/// The accelerometer alone: the first reading sets the estimate of gravity to
/// itself, in m/s², and is not sent.
pub proof fn accelerometer_starts_at_the_first_reading(w: AccelWatcher, reading: Reading)
    requires
        w.phase is Listening,
        w.gravity is None,
        moderate_vector(reading.raw),
    ensures
        ({
            let (after, action) = w.next(AccelEvent::Read(reading));
            let g = after.gravity->0;
            let raw = reading.raw;
            let fits = |a: int, b: int| 10_000_000_000 * distance(100_000 * a - 981 * b) <= 981 * distance(b) + one();
            &&& action is AwaitReading
            &&& after.phase is Listening
            &&& after.gravity is Some
            &&& fits(g.x.value(), raw.x.value())
            &&& fits(g.y.value(), raw.y.value())
            &&& fits(g.z.value(), raw.z.value())
        }),
{
    lemma_parted(926, reading.raw.x, reading.raw.x);
    lemma_parted(926, reading.raw.y, reading.raw.y);
    lemma_parted(926, reading.raw.z, reading.raw.z);
}

} // verus!
