//! Laws of the state behind the window.
use crate::double::arith::UNIT;
use crate::double::facts::{
    lemma_abs, lemma_bounded, lemma_difference, lemma_division_monotone, lemma_division_self,
    lemma_division_sign, lemma_fraction, lemma_halfway, lemma_near_exact, lemma_near_monotone,
    lemma_negated, lemma_power_ratio, lemma_product_shrinks, lemma_product_sign, lemma_product_zero,
    lemma_ratio, lemma_ratio_order, lemma_sum, lemma_whole, lemma_zero, near, one,
};
use crate::double::grid::{lemma_order, TOP};
use crate::double::number::{distance, Double};
use crate::double::remainder::remainder_is_exact;
use crate::imu::ImuData;
use crate::laws::bearings::{is_bearing, lemma_turn_steps};
use crate::laws::watchers::reported_speed_is_not_negative;
use crate::location::{Fix, LocationData};
use crate::window::{
    corner_weight, good_fix, smoothed, straight, turn, whole_seconds, SpeedometerWindow, TICK_MS,
};
use vstd::arithmetic::power2::{lemma2_to64, lemma_pow2_pos};
use vstd::prelude::*;

verus! {

/// Every fix is a new anchor: the speed is that of the fix, and nothing that
/// was integrated before it counts any more.
pub proof fn fix_is_a_new_anchor(w: SpeedometerWindow, data: LocationData, now_us: i64)
    ensures
        w.after_location(data, now_us).accel_base_speed == data.speed_kmh,
        w.after_location(data, now_us).speed_target == data.speed_kmh,
        w.after_location(data, now_us).accel_delta.value() == 0,
        !w.after_location(data, now_us).accel_delta.nan(),
{
    lemma_zero();
}

/// A turn of fifteen degrees or more says nothing about the direction of the
/// acceleration: it stays as it was.
pub proof fn turning_keeps_the_direction(w: SpeedometerWindow, data: LocationData, now_us: i64)
    requires
        data.heading_deg is Some,
        !w.gps_prev_heading.nan(),
        !data.heading_deg->0.nan(),
        turn(w.gps_prev_heading, data.heading_deg->0).abs() >= Double::ratio(15, 1),
    ensures
        w.after_location(data, now_us).accel_sign == w.accel_sign,
{
}

/// The direction of the acceleration is one of the three that it can be.
pub open spec fn is_direction(sign: Double) -> bool {
    sign == Double::ratio(0, 1) || sign == Double::ratio(1, 1) || sign == -Double::ratio(1, 1)
}

/// The direction is plus one, minus one or unknown at the start and after
/// everything that happens.
pub proof fn direction_is_a_sign(w: SpeedometerWindow, location: LocationData, imu: ImuData, now_us: i64)
    ensures
        is_direction(SpeedometerWindow::initial(now_us).accel_sign),
        is_direction(w.accel_sign) ==> is_direction(w.after_location(location, now_us).accel_sign),
        is_direction(w.accel_sign) ==> is_direction(w.after_imu(imu).accel_sign),
        is_direction(w.accel_sign) ==> is_direction(w.after_tick().accel_sign),
{
}

/// The change of speed since the last fix is at most 20 km/h either way.
pub open spec fn delta_is_bounded(delta: Double) -> bool {
    delta.nan() || (-Double::ratio(20, 1) <= delta && delta <= Double::ratio(20, 1))
}

/// What is integrated between two fixes stays within 20 km/h, at the start and
/// after everything that happens, as long as the fading makes it smaller.
pub proof fn integration_is_bounded(
    w: SpeedometerWindow,
    location: LocationData,
    imu: ImuData,
    factor: Double,
    now_us: i64,
)
    requires
        delta_is_bounded(w.accel_delta),
        factor >= Double::ratio(0, 1),
        factor <= Double::ratio(1, 1),
    ensures
        delta_is_bounded(SpeedometerWindow::initial(now_us).accel_delta),
        delta_is_bounded(Double::ratio(0, 1)),
        delta_is_bounded(w.after_location(location, now_us).accel_delta),
        delta_is_bounded(w.after_imu(imu).accel_delta),
        delta_is_bounded(w.accel_delta * factor),
        delta_is_bounded(w.after_tick().accel_delta),
{
    let limit = Double::ratio(20, 1);
    lemma_zero();
    lemma_whole(20);
    lemma_whole(1);
    lemma_negated(limit);
    lemma_pow2_pos(UNIT as nat);
    if w.accel_delta.nan() {
        reveal(Double::spec_mul);
    } else {
        lemma_bounded(factor, Double::ratio(1, 1));
        let size = w.accel_delta.abs();
        lemma_abs(w.accel_delta);
        lemma_bounded(size, limit);
        lemma_product_shrinks(w.accel_delta, factor);
    }
}

/// Fading brings the change of speed closer to zero, and never beyond it.
pub proof fn fading_leads_to_zero(delta: Double, factor: Double)
    requires
        delta.finite(),
        factor >= Double::ratio(0, 1),
        factor <= Double::ratio(1, 1),
    ensures
        (delta * factor).abs() <= delta.abs(),
        delta >= Double::ratio(0, 1) ==> delta * factor >= Double::ratio(0, 1),
        delta <= Double::ratio(0, 1) ==> delta * factor <= Double::ratio(0, 1),
{
    lemma_zero();
    lemma_whole(1);
    lemma_bounded(factor, Double::ratio(1, 1));
    lemma_product_shrinks(delta, factor);
    lemma_product_sign(delta, factor);
    lemma_abs(delta);
    lemma_abs(delta * factor);
}

/// Neither the speed that the needle moves to nor the one that it shows is ever
/// negative: not at the start, and not after anything that happens.
pub proof fn speeds_are_never_negative(w: SpeedometerWindow, fix: Fix, imu: ImuData, now_us: i64)
    requires
        w.speed_target >= Double::ratio(0, 1),
        w.speed_displayed >= Double::ratio(0, 1),
    ensures
        ({
            let zero = Double::ratio(0, 1);
            let start = SpeedometerWindow::initial(now_us);
            let located = w.after_location(LocationData::of(fix), now_us);
            let moved = w.after_imu(imu);
            let drawn = w.after_tick();
            &&& start.speed_target >= zero && start.speed_displayed >= zero
            &&& located.speed_target >= zero && located.speed_displayed >= zero
            &&& moved.speed_target >= zero && moved.speed_displayed >= zero
            &&& drawn.speed_target >= zero && drawn.speed_displayed >= zero
        }),
{
    lemma_zero();
    reported_speed_is_not_negative(fix);
}

/// Without a good fix, or with the assistance switched off, samples leave the
/// speed alone.
pub proof fn unassisted_speed_is_left_alone(w: SpeedometerWindow, imu: ImuData)
    requires
        !w.accel_has_gps || !w.accel_enabled,
    ensures
        w.after_imu(imu).speed_target == w.speed_target,
        w.after_imu(imu).accel_delta == w.accel_delta,
        w.fusion(imu) is Ignored,
{
}

/// The measured G-forces follow every sample, whatever the fix and the setting.
pub proof fn gforce_is_always_measured(w: SpeedometerWindow, imu: ImuData)
    ensures
        w.after_imu(imu).gforce_x_raw == imu.accel_x_ms2 / Double::ratio(981, 100),
        w.after_imu(imu).gforce_y_raw == (-imu.accel_z_ms2) / Double::ratio(981, 100),
{
}

pub(crate) proof fn lemma_gyro_span()
    ensures
        ({
            let low = Double::ratio(10, 100);
            let high = Double::ratio(30, 100);
            &&& low.finite()
            &&& high.finite()
            &&& 0 <= low.value() < high.value()
            &&& (high - low).finite()
            &&& (high - low).value() > 0
            &&& (high - low).value() == near(high.value() - low.value())
        }),
{
    let low = Double::ratio(10, 100);
    let high = Double::ratio(30, 100);
    lemma2_to64();
    lemma_fraction(10, 100);
    lemma_fraction(30, 100);
    lemma_power_ratio(8, 3);
    lemma_power_ratio(4, 2);
    lemma_ratio_order(10, 100, 1, 8);
    lemma_ratio_order(1, 4, 30, 100);
    lemma_difference(high, low);
    let x = high.value() - low.value();
    let unit = Double { bits: 1 };
    assert(unit.value() == 1);
    lemma_near_exact(unit);
    lemma_near_exact(high);
    lemma_near_monotone(1, x);
    lemma_near_monotone(x, high.value());
    lemma_bounded(high - low, high);
}

/// Turning at 0.3 rad/s or more suppresses the integration entirely.
pub proof fn corners_are_not_integrated(w: SpeedometerWindow, imu: ImuData)
    requires
        imu.gyro_rads >= Double::ratio(30, 100),
    ensures
        corner_weight(imu.gyro_rads).value() == 0,
        w.fusion(imu) !is Integrate,
        w.after_imu(imu).accel_delta == w.accel_delta,
        w.after_imu(imu).speed_target == w.speed_target,
{
    let low = Double::ratio(10, 100);
    let high = Double::ratio(30, 100);
    let unit = Double::ratio(1, 1);
    let zero = Double::ratio(0, 1);
    let span = high - low;
    let a = imu.gyro_rads - low;
    lemma_pow2_pos(UNIT as nat);
    lemma_gyro_span();
    lemma_zero();
    lemma_whole(1);
    lemma_order(0, imu.gyro_rads.index());
    lemma_order(0, span.index());
    if imu.gyro_rads.finite() {
        lemma_difference(imu.gyro_rads, low);
        lemma_near_monotone(high.value() - low.value(), imu.gyro_rads.value() - low.value());
        lemma_near_monotone(imu.gyro_rads.value() - low.value(), imu.gyro_rads.value());
        lemma_near_exact(imu.gyro_rads);
        lemma_bounded(a, imu.gyro_rads);
        lemma_division_monotone(span, a, span);
        lemma_division_self(span);
    } else {
        assert(a == imu.gyro_rads) by {
            reveal(Double::spec_add);
        }
        assert((a / span) == Double::of(false, TOP as nat)) by {
            reveal(Double::spec_euclidean_or_real_div);
        }
        lemma_order(unit.index(), TOP as nat);
    }
    let c = (a / span).clamp(zero, unit);
    lemma_bounded(c, unit);
    assert(c.value() == one());
    lemma_difference(unit, c);
    lemma_near_monotone(0, 0);
    lemma_hundredth();
}

pub(crate) proof fn lemma_hundredth()
    ensures
        Double::ratio(1, 100).value() > 0,
        !Double::ratio(1, 100).nan(),
{
    lemma2_to64();
    lemma_fraction(1, 100);
    lemma_power_ratio(128, 7);
    lemma_ratio_order(1, 128, 1, 100);
}

/// Up to 0.1 rad/s the road counts as straight: an acceleration has its full weight.
pub proof fn straight_roads_have_full_weight(gyro_rads: Double)
    requires
        gyro_rads <= Double::ratio(10, 100),
    ensures
        corner_weight(gyro_rads).value() == Double::ratio(1, 1).value(),
{
    let low = Double::ratio(10, 100);
    let span = Double::ratio(30, 100) - low;
    let unit = Double::ratio(1, 1);
    let zero = Double::ratio(0, 1);
    let a = gyro_rads - low;
    lemma_pow2_pos(UNIT as nat);
    lemma_gyro_span();
    lemma_zero();
    lemma_whole(1);
    if gyro_rads.finite() {
        lemma_difference(gyro_rads, low);
        lemma_near_monotone(gyro_rads.value() - low.value(), 0);
    } else {
        lemma_order(low.index(), gyro_rads.index());
        assert(a == gyro_rads) by {
            reveal(Double::spec_add);
        }
    }
    lemma_division_sign(a, span);
    let c = (a / span).clamp(zero, unit);
    assert(c.value() == 0);
    lemma_bounded(c, unit);
    lemma_difference(unit, c);
    lemma_near_exact(unit);
}

/// The turn between two bearings is the shorter way: at most half a circle.
pub proof fn turns_take_the_shorter_way(from: Double, to: Double)
    requires
        is_bearing(from),
        is_bearing(to),
    ensures
        turn(from, to) >= -Double::ratio(180, 1),
        turn(from, to) <= Double::ratio(180, 1),
{
    let half = Double::ratio(180, 1);
    let (_, _, rest) = lemma_turn_steps(from, to);
    lemma_pow2_pos(UNIT as nat);
    lemma_whole(180);
    lemma_negated(half);
    lemma_near_monotone(-half.value(), rest - 180 * one());
    lemma_near_monotone(rest - 180 * one(), half.value());
    lemma_near_exact(half);
    lemma_near_exact(-half);
}

/// A heading that stays the same, or that is not known, counts as straight.
pub proof fn keeping_the_heading_is_straight(heading: Double, unknown: Double)
    requires
        heading.finite(),
        unknown.nan(),
    ensures
        straight(heading, heading),
        straight(heading, unknown),
        straight(unknown, heading),
{
    let full = Double::ratio(360, 1);
    let half = Double::ratio(180, 1);
    let shift = Double::ratio(540, 1);
    lemma_pow2_pos(UNIT as nat);
    lemma_whole(15);
    lemma_whole(180);
    lemma_whole(360);
    lemma_whole(540);
    let d = heading - heading;
    lemma_difference(heading, heading);
    lemma_near_monotone(0, 0);
    lemma_abs(d);
    lemma_bounded(d.abs(), shift);
    let e = d + shift;
    lemma_sum(d, shift);
    lemma_near_exact(shift);
    lemma_bounded(e, shift);
    lemma_order(0, full.index());
    lemma_order(0, e.index());
    lemma_order(e.index(), shift.index());
    remainder_is_exact(e, full);
    assert((540 * one()) % (360 * one()) == 180 * one()) by {
        vstd::arithmetic::div_mod::lemma_fundamental_div_mod_converse(
            (540 * one()) as int,
            (360 * one()) as int,
            1,
            (180 * one()) as int,
        );
    }
    let r = e % full;
    lemma_difference(r, half);
    lemma_abs(turn(heading, heading));
}

/// While there is no good fix, the elapsed time counts up.
pub proof fn search_time_counts_up(w: SpeedometerWindow, earlier: i64, later: i64)
    requires
        !good_fix(w.has_fix, w.accuracy),
        earlier <= later,
    ensures
        w.elapsed(earlier) <= w.elapsed(later),
{
}

/// Once there is a good fix, the elapsed time no longer depends on the clock,
/// and it is the time that the search took until that fix.
pub proof fn search_time_freezes(w: SpeedometerWindow, data: LocationData, fixed: i64, later: i64)
    requires
        !w.prev_has_fix,
        good_fix(data.has_fix, data.accuracy_m),
        i64::MIN <= fixed - w.search_start_us <= i64::MAX,
    ensures
        w.after_location(data, fixed).elapsed(later) == whole_seconds(fixed - w.search_start_us),
{
}

/// A further good fix changes nothing about the time that the search took.
pub proof fn further_fixes_keep_the_time(w: SpeedometerWindow, data: LocationData, now_us: i64)
    requires
        w.prev_has_fix,
        good_fix(data.has_fix, data.accuracy_m),
    ensures
        w.after_location(data, now_us).time_to_fix_s == w.time_to_fix_s,
        w.after_location(data, now_us).search_start_us == w.search_start_us,
{
}

/// Losing a good fix starts the search anew: its time counts from zero, and how
/// long the last one took is forgotten.
pub proof fn losing_the_fix_restarts_the_search(w: SpeedometerWindow, data: LocationData, now_us: i64)
    requires
        w.prev_has_fix,
        !good_fix(data.has_fix, data.accuracy_m),
    ensures
        w.after_location(data, now_us).elapsed(now_us) == 0,
        w.after_location(data, now_us).time_to_fix_s == -1,
{
}

/// A needle that rests at its target stays there.
pub proof fn needle_rests_at_its_target(w: SpeedometerWindow)
    requires
        w.speed_displayed.finite(),
        w.speed_displayed >= Double::ratio(0, 1),
        w.speed_target == w.speed_displayed,
        w.needle_velocity.finite(),
        w.needle_velocity.value() == 0,
    ensures
        w.after_tick().speed_displayed.value() == w.speed_displayed.value(),
        w.after_tick().needle_velocity.value() == 0,
        w.after_tick().needle_velocity.finite(),
{
    let dt = Double::ratio(TICK_MS, 1000);
    let stiffness = Double::ratio(80, 1);
    let damping = Double::ratio(134, 10);
    let gap = w.speed_target - w.speed_displayed;
    let unit = Double::ratio(1, 1);
    lemma_zero();
    lemma_whole(1);
    lemma_whole(80);
    lemma_whole(100);
    lemma_fraction(TICK_MS, 1000);
    lemma_ratio(134, 10);
    lemma_ratio_order(134, 10, 100, 1);
    lemma_bounded(damping, Double::ratio(100, 1));
    lemma_near_monotone(0, 0);
    lemma_difference(w.speed_target, w.speed_displayed);
    lemma_pow2_pos(UNIT as nat);
    lemma_bounded(gap, unit);
    lemma_product_zero(stiffness, gap);
    lemma_product_zero(damping, w.needle_velocity);
    let accel = stiffness * gap - damping * w.needle_velocity;
    lemma_difference(stiffness * gap, damping * w.needle_velocity);
    lemma_bounded(accel, unit);
    lemma_product_zero(accel, dt);
    let velocity = w.next_velocity();
    lemma_sum(w.needle_velocity, accel * dt);
    lemma_bounded(velocity, unit);
    lemma_product_zero(velocity, dt);
    lemma_sum(w.speed_displayed, velocity * dt);
    lemma_near_exact(w.speed_displayed);
}

/// A smoothed G-force lies between what was shown and what was measured.
pub proof fn smoothing_stays_between(shown: Double, measured: Double)
    requires
        shown.finite(),
        measured.finite(),
        (measured - shown).finite(),
    ensures
        shown <= measured ==> shown <= smoothed(shown, measured) && smoothed(shown, measured) <= measured,
        measured <= shown ==> measured <= smoothed(shown, measured) && smoothed(shown, measured) <= shown,
{
    let d = measured - shown;
    let x = measured.value() - shown.value();
    let h = d * Double::ratio(5, 10);
    lemma_difference(measured, shown);
    lemma_near_monotone(0, 0);
    lemma_near_monotone(x, x);
    lemma_near_symmetric(x);
    lemma_halfway(d, distance(x));
    lemma_sum(shown, h);
    lemma_near_exact(shown);
    lemma_near_exact(measured);
    if x >= 0 {
        lemma_near_monotone(shown.value(), shown.value() + h.value());
        lemma_near_monotone(shown.value() + h.value(), measured.value());
    }
    if x <= 0 {
        lemma_near_monotone(shown.value() + h.value(), shown.value());
        lemma_near_monotone(measured.value(), shown.value() + h.value());
    }
}

proof fn lemma_near_symmetric(x: int)
    ensures
        distance(near(x)) == near(distance(x) as int),
{
}

} // verus!
