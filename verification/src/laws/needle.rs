//! Laws of the needle's movement.
use crate::double::arith::UNIT;
use crate::double::estimates::{lemma_at_most_twice, lemma_ratio_about, lemma_share, sizeable};
use crate::double::facts::{
    lemma_abs, lemma_bounded, lemma_difference, lemma_near_close, lemma_near_exact,
    lemma_near_monotone, lemma_near_twice, lemma_product, lemma_product_shrinks, lemma_product_sign,
    lemma_product_zero, lemma_sum, lemma_whole, lemma_zero, near, one,
};
use crate::double::grid::{lemma_order, magnitude};
use crate::double::number::{distance, Double};
use crate::laws::bearings::lemma_sizes;
use crate::window::{SpeedometerWindow, TICK_MS};
use vstd::arithmetic::power2::{lemma_pow2_pos, lemma_pow2_strictly_increases};
use vstd::prelude::*;

verus! {

/// A number with the value of a finite one is finite.
proof fn lemma_as_finite(a: Double, b: Double)
    requires
        !a.nan(),
        b.finite(),
        a.value() == b.value(),
    ensures
        a.finite(),
        a.index() == b.index(),
{
    lemma_abs(a);
    lemma_abs(b);
    lemma_bounded(a.abs(), b.abs());
    lemma_order(a.index(), b.index());
}

/// How far the needle moves in one frame from rest.
spec fn push(w: SpeedometerWindow) -> Double {
    w.next_velocity() * Double::ratio(TICK_MS, 1000)
}

/// A product with the length of a frame in seconds is smaller by far.
proof fn lemma_framed(x: Double)
    requires
        x.finite(),
    ensures
        ({
            let y = x * Double::ratio(TICK_MS, 1000);
            &&& y.finite()
            &&& 31 * distance(y.value()) <= distance(x.value())
            &&& x.value() >= 0 ==> y.value() >= 0
            &&& x.value() <= 0 ==> y.value() <= 0
        }),
{
    let dt = Double::ratio(TICK_MS, 1000);
    let a = magnitude(x.index());
    let c = magnitude(dt.index());
    let v = magnitude((x * dt).index());
    lemma_pow2_pos(UNIT as nat);
    lemma_ratio_about(TICK_MS, 1000);
    lemma_product(x, dt);
    lemma_product_sign(x, dt);
    lemma_product_shrinks(x, dt);
    lemma_at_most_twice(a * c, one());
    assert(31 * v <= a) by (nonlinear_arith)
        requires
            one() * v <= 2 * (a * c),
            62 * c <= one(),
            one() > 0,
            a >= 0,
    {
        assert(31 * (one() * v) <= a * (62 * c));
        assert(a * (62 * c) <= a * one());
    }
}

/// The steps of a frame that starts from rest: the gap, the pull of the spring,
/// and how far the needle moves.
proof fn lemma_frame(w: SpeedometerWindow)
    requires
        w.speed_displayed.finite(),
        w.speed_target.finite(),
        w.needle_velocity.finite(),
        w.needle_velocity.value() == 0,
        (Double::ratio(80, 1) * (w.speed_target - w.speed_displayed)).finite(),
    ensures
        ({
            let x = w.speed_target.value() - w.speed_displayed.value();
            let gap = w.speed_target - w.speed_displayed;
            let pull = Double::ratio(80, 1) * gap;
            &&& gap.finite() && gap.value() == near(x)
            &&& w.next_velocity().finite()
            &&& w.next_velocity().value() == (pull * Double::ratio(TICK_MS, 1000)).value()
            &&& push(w).finite()
            &&& 3 * distance(push(w).value()) <= distance(x)
            &&& x >= 0 ==> push(w).value() >= 0
            &&& x <= 0 ==> push(w).value() <= 0
        }),
{
    let x = w.speed_target.value() - w.speed_displayed.value();
    let gap = w.speed_target - w.speed_displayed;
    let stiffness = Double::ratio(80, 1);
    let pull = stiffness * gap;
    let drag = Double::ratio(134, 10) * w.needle_velocity;
    let dt = Double::ratio(TICK_MS, 1000);
    lemma_pow2_pos(UNIT as nat);
    lemma_zero();
    lemma_whole(80);
    lemma_ratio_about(134, 10);
    lemma_ratio_about(TICK_MS, 1000);
    lemma_difference(w.speed_target, w.speed_displayed);
    lemma_order(0, stiffness.index());
    assert(gap.finite()) by {
        reveal(Double::spec_mul);
    }
    let g = magnitude(gap.index());
    let a = magnitude(pull.index());
    lemma_product(stiffness, gap);
    lemma_order(0, gap.index());
    lemma_order(0, pull.index());
    if gap.value() == 0 {
        lemma_product_zero(stiffness, gap);
    }
    lemma_at_most_twice((80 * one()) * g, one());
    assert(a <= 160 * g) by (nonlinear_arith)
        requires
            one() * a <= 2 * ((80 * one()) * g),
            one() > 0,
    ;
    lemma_near_twice(distance(x) as int);
    lemma_near_monotone(x, x);
    assert(g == near(distance(x) as int));
    lemma_product_zero(Double::ratio(134, 10), w.needle_velocity);
    let accel = pull - drag;
    lemma_difference(pull, drag);
    lemma_near_exact(pull);
    lemma_as_finite(accel, pull);
    lemma_framed(accel);
    lemma_framed(pull);
    lemma_product(accel, dt);
    lemma_product(pull, dt);
    lemma_order(0, (pull * dt).index());
    let velocity = w.next_velocity();
    lemma_sum(w.needle_velocity, accel * dt);
    lemma_near_exact(accel * dt);
    lemma_as_finite(velocity, accel * dt);
    lemma_framed(velocity);
}

/// From rest, the needle is driven toward its target: the next frame shows a
/// speed between the one that is shown and the target, and where these are at
/// least 1 km/h apart and not above 1000 km/h, the needle does move.
pub proof fn needle_is_driven_toward_the_target(w: SpeedometerWindow)
    requires
        w.speed_displayed.finite(),
        w.speed_displayed >= Double::ratio(0, 1),
        w.speed_target.finite(),
        w.speed_target >= Double::ratio(0, 1),
        w.needle_velocity.finite(),
        w.needle_velocity.value() == 0,
        (Double::ratio(80, 1) * (w.speed_target - w.speed_displayed)).finite(),
    ensures
        ({
            let shown = w.speed_displayed;
            let target = w.speed_target;
            let next = w.after_tick().speed_displayed;
            let slow = shown <= Double::ratio(1000, 1) && target <= Double::ratio(1000, 1);
            &&& shown <= target ==> shown <= next && next <= target
            &&& target <= shown ==> target <= next && next <= shown
            &&& slow && target.value() - shown.value() >= one() ==> shown < next
            &&& slow && shown.value() - target.value() >= one() ==> next < shown
        }),
{
    let shown = w.speed_displayed.value();
    let target = w.speed_target.value();
    let moved = push(w).value();
    lemma_zero();
    lemma_whole(1000);
    lemma_pow2_pos(UNIT as nat);
    lemma_frame(w);
    lemma_sum(w.speed_displayed, push(w));
    lemma_near_exact(w.speed_displayed);
    lemma_near_exact(w.speed_target);
    if shown <= target {
        lemma_near_monotone(shown, shown + moved);
        lemma_near_monotone(shown + moved, target);
    }
    if target <= shown {
        lemma_near_monotone(target, shown + moved);
        lemma_near_monotone(shown + moved, shown);
    }
    if shown <= 1000 * one() && target <= 1000 * one() && distance(target - shown) >= one() {
        lemma_far_push(w);
        lemma_sizes();
        lemma_near_close(shown + moved, 1031);
    }
}

/// From a distance of 1 km/h on, the needle moves by a fiftieth of it or more.
proof fn lemma_far_push(w: SpeedometerWindow)
    requires
        w.speed_displayed.finite(),
        w.speed_target.finite(),
        w.needle_velocity.finite(),
        w.needle_velocity.value() == 0,
        (Double::ratio(80, 1) * (w.speed_target - w.speed_displayed)).finite(),
        one() <= distance(w.speed_target.value() - w.speed_displayed.value()) <= 1000 * one(),
    ensures
        50 * distance(push(w).value()) >= one(),
{
    let x = w.speed_target.value() - w.speed_displayed.value();
    let gap = w.speed_target - w.speed_displayed;
    let pull = Double::ratio(80, 1) * gap;
    let unit = Double::ratio(1, 1);
    let most = Double::ratio(1000, 1);
    lemma_frame(w);
    lemma_whole(1);
    lemma_whole(1000);
    lemma_pow2_pos(UNIT as nat);
    lemma_pow2_strictly_increases(600, UNIT as nat);
    lemma_near_exact(unit);
    lemma_near_exact(most);
    lemma_near_monotone(one() as int, distance(x) as int);
    lemma_near_monotone(distance(x) as int, most.value());
    let g = magnitude(gap.index()) as int;
    assert(g == near(distance(x) as int));
    lemma_share(gap, 80, 1);
    let p = gap * Double::ratio(80, 1);
    assert(pull.index() == p.index());
    let a = magnitude(pull.index()) as int;
    assert(sizeable(a));
    lemma_share(pull, TICK_MS, 1000);
    let step = pull * Double::ratio(TICK_MS, 1000);
    let v = w.next_velocity();
    lemma_as_finite(v, step);
    let b = magnitude(step.index()) as int;
    assert(sizeable(b));
    lemma_share(v, TICK_MS, 1000);
}

} // verus!
