//! Laws of one frame: how far the needle and the smoothed forces move, over their
//! numbers.
use crate::double::arith::UNIT;
use crate::double::errors::{close, lemma_large, lemma_near_error, lemma_product_error, lemma_times, moderate};
use crate::double::facts::{
    lemma_abs, lemma_bounded, lemma_difference, lemma_sum, lemma_whole, lemma_zero, near, one,
};
use crate::double::grid::{magnitude, FRACTION};
use crate::double::number::{distance, Double};
use crate::window::{SpeedometerWindow, TICK_MS};
use vstd::arithmetic::power2::lemma_pow2_pos;
use vstd::prelude::*;

verus! {

/// A speed of at most a million km/h either way.
pub open spec fn slow(x: Double) -> bool {
    x.finite() && distance(x.value()) <= 1_000_000 * one()
}

/// A number with a bounded value is moderate, and a rounded one stays so.
proof fn lemma_rounded(a: Double, x: int)
    requires
        !a.nan(),
        a.value() == near(x),
        distance(x) <= 0x80_0000_0000 * one(),
    ensures
        moderate(a),
        -distance(x) <= 1_000_000_000_000 * (a.value() - x) <= distance(x),
        distance(a.value()) <= 2 * distance(x),
{
    lemma_pow2_pos(UNIT as nat);
    lemma_near_error(x);
    lemma_whole(0x100_0000_0000);
    lemma_abs(a);
    lemma_bounded(a.abs(), Double::ratio(0x100_0000_0000, 1));
}

/// A close multiple as a band, with its size.
proof fn lemma_multiple_band(p: int, n: int, d: int, x: int)
    requires
        close(p, n, d, x),
        0 <= n <= 1000,
        0 < d <= 1000,
    ensures
        ({
            let b = n * distance(x) + 2_000_000_000_000 * d;
            -b <= 1_000_000_000_000 * (d * p - n * x) <= b
        }),
        d * distance(p) <= (n + 1) * distance(x) + 3 * d,
{
    let y = distance(x) as int;
    assert(d * distance(p) == distance(d * p)) by (nonlinear_arith)
        requires
            d > 0,
    ;
    assert(distance(n * x) == n * y && n * y <= 1000 * y && (n + 1) * y == n * y + y) by (nonlinear_arith)
        requires
            0 <= n <= 1000,
            y == distance(x),
    ;
}

/// The first steps of the velocity: the pull of the spring and the damper.
proof fn lemma_pull(target: Double, shown: Double, v: Double)
    requires
        slow(target),
        slow(shown),
        slow(v),
    ensures
        ({
            let gap = target.value() - shown.value();
            let d = target - shown;
            let a = Double::ratio(80, 1) * d;
            let b = Double::ratio(134, 10) * v;
            let acc = a - b;
            let x = a.value() - b.value();
            let sv = distance(v.value()) as int;
            let sg = distance(gap) as int;
            let sd = distance(d.value()) as int;
            let sx = distance(x) as int;
            &&& moderate(acc)
            &&& sd <= 2 * sg
            &&& sg <= 2_000_000 * one()
            &&& sx <= 81 * sd + 14 * sv + 10
            &&& distance(acc.value()) <= 2 * sx
            &&& -sg <= 1_000_000_000_000 * (d.value() - gap) <= sg
            &&& -(80 * sd + 2_000_000_000_000) <= 1_000_000_000_000 * (a.value() - 80 * d.value()) <= 80 * sd
                + 2_000_000_000_000
            &&& -(134 * sv + 20_000_000_000_000) <= 1_000_000_000_000 * (10 * b.value() - 134 * v.value()) <= 134 * sv
                + 20_000_000_000_000
            &&& -sx <= 1_000_000_000_000 * (acc.value() - x) <= sx
        }),
{
    let gap = target.value() - shown.value();
    let d = target - shown;
    lemma_pow2_pos(UNIT as nat);
    lemma_large();
    lemma_difference(target, shown);
    lemma_rounded(d, gap);
    lemma_times(d, 80, 1);
    lemma_times(v, 134, 10);
    let a = Double::ratio(80, 1) * d;
    let b = Double::ratio(134, 10) * v;
    lemma_multiple_band(a.value(), 80, 1, d.value());
    lemma_multiple_band(b.value(), 134, 10, v.value());
    lemma_difference(a, b);
    let x = a.value() - b.value();
    lemma_apart(a.value(), b.value());
    assert(distance(x) <= 81 * distance(d.value()) + 14 * distance(v.value()) + 10);
    lemma_rounded(a - b, x);
}

proof fn lemma_apart(a: int, b: int)
    ensures
        distance(a - b) <= distance(a) + distance(b),
        distance(a + b) <= distance(a) + distance(b),
{
}

/// The velocity one frame later.
#[verifier::rlimit(40)]
proof fn lemma_velocity(w: SpeedometerWindow)
    requires
        slow(w.speed_target),
        slow(w.speed_displayed),
        slow(w.needle_velocity),
    ensures
        ({
            let v = w.needle_velocity.value();
            let gap = w.speed_target.value() - w.speed_displayed.value();
            let next = w.next_velocity();
            let slack = 10_000 * distance(v) + 12_800 * distance(gap) + one();
            let c = 10_000 * next.value() - (7856 * v + 12_800 * gap);
            &&& moderate(next)
            &&& distance(next.value()) <= 100_000_000 * one()
            &&& -slack <= 10_000_000_000 * c <= slack
        }),
{
    let v = w.needle_velocity;
    let gap = w.speed_target.value() - w.speed_displayed.value();
    let d = w.speed_target - w.speed_displayed;
    let a = Double::ratio(80, 1) * d;
    let b = Double::ratio(134, 10) * v;
    let acc = a - b;
    let x = a.value() - b.value();
    lemma_pow2_pos(UNIT as nat);
    lemma_large();
    lemma_pull(w.speed_target, w.speed_displayed, v);
    lemma_frame(v, acc);
    let p = acc * Double::ratio(TICK_MS, 1000);
    lemma_velocity_sums(
        one() as int,
        distance(v.value()) as int,
        distance(gap) as int,
        distance(d.value()) as int,
        distance(acc.value()) as int,
        distance(x) as int,
        distance(v.value() + p.value()) as int,
        v.value(),
        gap,
        d.value(),
        a.value(),
        b.value(),
        acc.value(),
        p.value(),
        (v + p).value(),
    );
}

/// What a rate adds in one frame.
proof fn lemma_frame(v: Double, acc: Double)
    requires
        slow(v),
        moderate(acc),
        distance(acc.value()) <= 1_000_000_000 * one(),
    ensures
        ({
            let p = acc * Double::ratio(TICK_MS, 1000);
            let y = v.value() + p.value();
            let sv = distance(v.value()) as int;
            let sa = distance(acc.value()) as int;
            let sy = distance(y) as int;
            &&& moderate(v + p)
            &&& 1000 * sy <= 1000 * sv + 17 * sa + 3000
            &&& distance((v + p).value()) <= 2 * sy
            &&& -(16 * sa + 2_000_000_000_000_000) <= 1_000_000_000_000 * (1000 * p.value() - 16 * acc.value()) <= 16 * sa
                + 2_000_000_000_000_000
            &&& -sy <= 1_000_000_000_000 * ((v + p).value() - y) <= sy
        }),
{
    lemma_pow2_pos(UNIT as nat);
    lemma_large();
    lemma_times(acc, TICK_MS, 1000);
    let p = acc * Double::ratio(TICK_MS, 1000);
    lemma_multiple_band(p.value(), 16, 1000, acc.value());
    let y = v.value() + p.value();
    lemma_apart(v.value(), p.value());
    lemma_sum(v, p);
    lemma_rounded(v + p, y);
}

proof fn lemma_velocity_sums(
    o: int,
    sv: int,
    sg: int,
    sd: int,
    sa: int,
    sx: int,
    sy: int,
    v: int,
    gap: int,
    d: int,
    a: int,
    b: int,
    acc: int,
    p: int,
    next: int,
)
    requires
        o >= 1_000_000_000_000_000_000_000_000_000,
        0 <= sv,
        0 <= sg,
        0 <= sd <= 2 * sg,
        0 <= sx <= 81 * sd + 14 * sv + 10,
        0 <= sa <= 2 * sx,
        0 <= sy,
        1000 * sy <= 1000 * sv + 17 * sa + 3000,
        -sg <= 1_000_000_000_000 * (d - gap) <= sg,
        -(80 * sd + 2_000_000_000_000) <= 1_000_000_000_000 * (a - 80 * d) <= 80 * sd + 2_000_000_000_000,
        -(134 * sv + 20_000_000_000_000) <= 1_000_000_000_000 * (10 * b - 134 * v) <= 134 * sv + 20_000_000_000_000,
        -sx <= 1_000_000_000_000 * (acc - (a - b)) <= sx,
        -(16 * sa + 2_000_000_000_000_000) <= 1_000_000_000_000 * (1000 * p - 16 * acc) <= 16 * sa + 2_000_000_000_000_000,
        -sy <= 1_000_000_000_000 * (next - (v + p)) <= sy,
    ensures
        ({
            let slack = 10_000 * sv + 12_800 * sg + o;
            let c = 10_000 * next - (7856 * v + 12_800 * gap);
            -slack <= 10_000_000_000 * c <= slack
        }),
{
    let e1 = d - gap;
    let e2 = a - 80 * d;
    let e3 = 10 * b - 134 * v;
    let e4 = acc - (a - b);
    let e5 = 1000 * p - 16 * acc;
    let e6 = next - (v + p);
    assert(10_000 * next - (7856 * v + 12_800 * gap) == 10_000 * e6 + 10 * e5 + 160 * e4 + 160 * e2 + 12_800 * e1 - 16 * e3);
    lemma_velocity_bounds(o, sv, sg, sd, sa, sx, sy, e1, e2, e3, e4, e5, e6);
}

proof fn lemma_velocity_bounds(
    o: int,
    sv: int,
    sg: int,
    sd: int,
    sa: int,
    sx: int,
    sy: int,
    e1: int,
    e2: int,
    e3: int,
    e4: int,
    e5: int,
    e6: int,
)
    requires
        o >= 1_000_000_000_000_000_000_000_000_000,
        0 <= sv,
        0 <= sg,
        0 <= sd <= 2 * sg,
        0 <= sx <= 81 * sd + 14 * sv + 10,
        0 <= sa <= 2 * sx,
        1000 * sy <= 1000 * sv + 17 * sa + 3000,
        -sg <= 1_000_000_000_000 * e1 <= sg,
        -(80 * sd + 2_000_000_000_000) <= 1_000_000_000_000 * e2 <= 80 * sd + 2_000_000_000_000,
        -(134 * sv + 20_000_000_000_000) <= 1_000_000_000_000 * e3 <= 134 * sv + 20_000_000_000_000,
        -sx <= 1_000_000_000_000 * e4 <= sx,
        -(16 * sa + 2_000_000_000_000_000) <= 1_000_000_000_000 * e5 <= 16 * sa + 2_000_000_000_000_000,
        -sy <= 1_000_000_000_000 * e6 <= sy,
    ensures
        ({
            let slack = 10_000 * sv + 12_800 * sg + o;
            let c = 10_000 * e6 + 10 * e5 + 160 * e4 + 160 * e2 + 12_800 * e1 - 16 * e3;
            -slack <= 10_000_000_000 * c <= slack
        }),
{
}

/// One frame of 16 milliseconds moves the needle like a spring of stiffness 80
/// with a damping of 13.4: the velocity `v` becomes
/// `v + 0.016 (80 (target - shown) - 13.4 v)`, that is
/// `0.7856 v + 1.28 (target - shown)`, and the speed that is shown grows by 0.016
/// of the new velocity, and is not negative. Both hold to ten digits.
pub proof fn needle_moves_like_a_damped_spring(w: SpeedometerWindow)
    requires
        slow(w.speed_target),
        slow(w.speed_displayed),
        slow(w.needle_velocity),
    ensures
        ({
            let after = w.after_tick();
            let v = w.needle_velocity.value();
            let gap = w.speed_target.value() - w.speed_displayed.value();
            let next = after.needle_velocity.value();
            let moved = 1000 * w.speed_displayed.value() + 16 * next;
            let shown = after.speed_displayed.value();
            let slack = 10_000 * distance(v) + 12_800 * distance(gap) + one();
            &&& after.needle_velocity.finite() && after.speed_displayed.finite()
            &&& 10_000_000_000 * distance(10_000 * next - (7856 * v + 12_800 * gap)) <= slack
            &&& shown >= 0
            &&& moved <= 0 ==> 10_000_000_000 * (1000 * shown) <= 1000 * distance(w.speed_displayed.value()) + 16 * distance(
                next,
            ) + one()
            &&& moved >= 0 ==> 10_000_000_000 * distance(1000 * shown - moved) <= 1000 * distance(
                w.speed_displayed.value(),
            ) + 16 * distance(next) + one()
        }),
{
    let o = one() as int;
    let s = w.speed_displayed;
    let next = w.next_velocity();
    lemma_pow2_pos(UNIT as nat);
    lemma_large();
    lemma_zero();
    lemma_velocity(w);
    lemma_frame(s, next);
    let p = next * Double::ratio(TICK_MS, 1000);
    let x = s.value() + p.value();
    let shown = (s + p).max(Double::ratio(0, 1));
    lemma_whole(0x100_0000_0000);
    lemma_bounded(shown, Double::ratio(0x100_0000_0000, 1));
    lemma_shown(
        o,
        s.value(),
        next.value(),
        p.value(),
        (s + p).value(),
        distance(s.value()) as int,
        distance(next.value()) as int,
        distance(x) as int,
    );
}

proof fn lemma_shown(o: int, s: int, v: int, p: int, sum: int, ss: int, sv: int, sx: int)
    requires
        o >= 1_000_000_000_000_000_000_000_000_000,
        ss == distance(s),
        sv == distance(v),
        1000 * sx <= 1000 * ss + 17 * sv + 3000,
        -(16 * sv + 2_000_000_000_000_000) <= 1_000_000_000_000 * (1000 * p - 16 * v) <= 16 * sv + 2_000_000_000_000_000,
        -sx <= 1_000_000_000_000 * (sum - (s + p)) <= sx,
    ensures
        ({
            let moved = 1000 * s + 16 * v;
            let bound = 1000 * ss + 16 * sv + o;
            let c = 1000 * sum - moved;
            &&& -bound <= 20_000_000_000 * c <= bound
            &&& moved <= 0 ==> 10_000_000_000 * (1000 * sum) <= bound
            &&& moved >= 0 && sum >= 0 ==> 10_000_000_000 * distance(1000 * sum - moved) <= bound
            &&& moved >= 0 && sum < 0 ==> 10_000_000_000 * distance(-moved) <= bound
        }),
{
    let c = 1000 * sum - (1000 * s + 16 * v);
    let e1 = 1000 * p - 16 * v;
    let e2 = sum - (s + p);
    assert(c == 1000 * e2 + e1);
    let bound = 1000 * ss + 16 * sv + o;
    assert(-bound <= 100_000_000_000 * c <= bound);
}

/// A frame moves each smoothed force half of the way to the measured one, to ten
/// digits.
pub proof fn smoothing_goes_half_of_the_way(w: SpeedometerWindow)
    requires
        slow(w.gforce_x),
        slow(w.gforce_y),
        slow(w.gforce_x_raw),
        slow(w.gforce_y_raw),
    ensures
        ({
            let after = w.after_tick();
            let half = |a: int, b: int, c: int| 10_000_000_000 * distance(2 * c - (a + b)) <= distance(a) + distance(b) + one();
            &&& after.gforce_x.finite() && after.gforce_y.finite()
            &&& half(w.gforce_x.value(), w.gforce_x_raw.value(), after.gforce_x.value())
            &&& half(w.gforce_y.value(), w.gforce_y_raw.value(), after.gforce_y.value())
        }),
{
    lemma_halfway_there(w.gforce_x, w.gforce_x_raw);
    lemma_halfway_there(w.gforce_y, w.gforce_y_raw);
}

proof fn lemma_halfway_there(a: Double, b: Double)
    requires
        slow(a),
        slow(b),
    ensures
        ({
            let c = a + (b - a) * Double::ratio(5, 10);
            &&& c.finite()
            &&& 10_000_000_000 * distance(2 * c.value() - (a.value() + b.value())) <= distance(a.value()) + distance(
                b.value(),
            ) + one()
        }),
{
    lemma_pow2_pos(UNIT as nat);
    lemma_large();
    let d = b - a;
    lemma_difference(b, a);
    lemma_rounded(d, b.value() - a.value());
    lemma_times(d, 5, 10);
    let h = d * Double::ratio(5, 10);
    lemma_multiple_band(h.value(), 5, 10, d.value());
    lemma_sum(a, h);
    lemma_rounded(a + h, a.value() + h.value());
    let sa = distance(a.value()) as int;
    let sb = distance(b.value()) as int;
    let sd = distance(d.value()) as int;
    let e1 = d.value() - (b.value() - a.value());
    let e2 = 10 * h.value() - 5 * d.value();
    let e3 = (a + h).value() - (a.value() + h.value());
    assert(-(sa + sb) <= 1_000_000_000_000 * e1 <= sa + sb);
    assert(sd <= 2 * (sa + sb));
    assert(-(3 * (sa + sb) + 10) <= 1_000_000_000_000 * e3 <= 3 * (sa + sb) + 10);
    let c = (a + h).value();
    assert(5 * (2 * c - (a.value() + b.value())) == 10 * e3 + e2 + 5 * e1);
}

/// Fading takes the change of speed times the factor, to the precision of the
/// numbers, and touches nothing else.
pub proof fn fading_is_a_product(w: SpeedometerWindow, factor: Double)
    requires
        w.accel_delta.finite(),
        distance(w.accel_delta.value()) <= 20 * one(),
        factor.finite(),
        0 <= factor.value() <= one(),
    ensures
        ({
            let after = w.after_decay(factor);
            let p = w.accel_delta.value() * factor.value();
            &&& after.accel_delta.finite()
            &&& (2 * FRACTION) * distance(one() * after.accel_delta.value() - p) <= distance(p) + (2 * FRACTION) * one()
            &&& after == (SpeedometerWindow { accel_delta: after.accel_delta, ..w })
        }),
{
    let o = one() as int;
    lemma_pow2_pos(UNIT as nat);
    let a = magnitude(w.accel_delta.index());
    let b = magnitude(factor.index());
    assert(a * b <= (0x10_0000_0000_0000 * o) * o) by (nonlinear_arith)
        requires
            a <= 20 * o,
            b <= o,
            o > 0,
    ;
    lemma_product_error(w.accel_delta, factor);
}

/// A frame touches nothing but the needle and the smoothed forces.
pub proof fn frames_touch_nothing_else(w: SpeedometerWindow)
    ensures
        ({
            let after = w.after_tick();
            after == (SpeedometerWindow {
                needle_velocity: after.needle_velocity,
                speed_displayed: after.speed_displayed,
                gforce_x: after.gforce_x,
                gforce_y: after.gforce_y,
                ..w
            })
        }),
{
}

} // verus!
