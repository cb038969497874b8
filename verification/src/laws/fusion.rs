//! Laws of the integration between two fixes.
use crate::double::arith::UNIT;
use crate::double::estimates::{lemma_quotient, lemma_ratio_about};
use crate::double::facts::{
    lemma_abs, lemma_bounded, lemma_difference, lemma_division, lemma_division_monotone,
    lemma_division_sign, lemma_division_zero, lemma_half, lemma_near_exact, lemma_near_monotone,
    lemma_negated, lemma_product, lemma_product_shrinks, lemma_product_sign, lemma_product_zero,
    lemma_ratio, lemma_ratio_order, lemma_sum, lemma_whole, lemma_zero, one,
};
use crate::double::grid::{lemma_nearest_exact, lemma_nearest_monotone, lemma_order, magnitude};
use crate::double::number::Double;
use crate::double::remainder::lemma_representable;
use crate::imu::ImuData;
use crate::laws::window::{delta_is_bounded, is_direction, lemma_gyro_span, lemma_hundredth};
use crate::window::{corner_weight, seconds_between, SpeedometerWindow};
use vstd::arithmetic::power2::{
    lemma2_to64, lemma_pow2_adds, lemma_pow2_pos, lemma_pow2_strictly_increases, lemma_pow2_unfold,
    pow2,
};
use vstd::prelude::*;

verus! {

proof fn lemma_count(n: u64)
    ensures
        Double::ratio(n, 1).finite(),
        Double::ratio(n, 1).value() >= 0,
        !Double::ratio(n, 1).negative(),
{
    lemma_ratio(n, 1);
    lemma2_to64();
    let k = lemma_representable(1, UNIT as nat + 64);
    lemma_pow2_adds(64, UNIT as nat);
    lemma_pow2_pos(UNIT as nat);
    assert(1 * pow2(UNIT as nat + 64) == pow2(UNIT as nat + 64));
    assert((n as nat * one()) * 1 <= (0x1_0000_0000_0000_0000 * one()) * 1) by (nonlinear_arith)
        requires
            n <= 0x1_0000_0000_0000_0000,
    ;
    lemma_nearest_monotone(n as nat * one(), 1, 0x1_0000_0000_0000_0000 * one(), 1);
    lemma_nearest_exact(0x1_0000_0000_0000_0000 * one(), 1, k);
}

/// A sample counts if it comes after the one before and at most half a second
/// later, to the microsecond.
pub proof fn samples_count_within_half_a_second(last: u64, now: u64)
    ensures
        seconds_between(last, now) > Double::ratio(0, 1) <==> now > last,
        seconds_between(last, now) > Double::ratio(5, 10) <==> now - last > 500_000,
        !seconds_between(last, now).nan(),
{
    let gap: u64 = if now > last {
        (now - last) as u64
    } else {
        0
    };
    let r = Double::ratio(gap, 1);
    let million = Double::ratio(1_000_000, 1);
    lemma_count(gap);
    lemma_whole(1_000_000);
    lemma_whole(1);
    lemma_whole(500_000);
    lemma_whole(500_001);
    lemma_zero();
    lemma_half();
    lemma_pow2_pos(UNIT as nat);
    lemma_division(r, million);
    if gap == 0 {
        lemma_division_zero(r, million);
    } else {
        lemma_ratio_order(1, 1, gap, 1);
        lemma_division_monotone(Double::ratio(1, 1), r, million);
        lemma_microsecond();
        if gap <= 500_000 {
            lemma_ratio_order(gap, 1, 500_000, 1);
            lemma_division_monotone(r, Double::ratio(500_000, 1), million);
            lemma_half_second();
        } else {
            lemma_ratio_order(500_001, 1, gap, 1);
            lemma_division_monotone(Double::ratio(500_001, 1), r, million);
            lemma_over_half_second();
        }
    }
}

proof fn lemma_microsecond()
    ensures
        (Double::ratio(1, 1) / Double::ratio(1_000_000, 1)).value() > 0,
{
    let a = Double::ratio(1, 1);
    let b = Double::ratio(1_000_000, 1);
    lemma_whole(1);
    lemma_whole(1_000_000);
    lemma_pow2_pos(UNIT as nat);
    lemma_division(a, b);
    let below = (UNIT - 20) as nat;
    lemma2_to64();
    lemma_pow2_adds(below, 20);
    lemma_pow2_pos(below);
    let k = lemma_representable(1, below);
    let x = magnitude(k);
    assert(x == pow2(below));
    assert((x * 1) * (1_000_000 * one()) <= (one() * one()) * 1) by (nonlinear_arith)
        requires
            x * 1_048_576 == one(),
            one() > 0,
    ;
    lemma_nearest_monotone(x, 1, one() * one(), 1_000_000 * one());
    assert(x == x * 1);
    lemma_nearest_exact(x, 1, k);
    lemma_order(0, k);
    lemma_order(0, (a / b).index());
}

proof fn lemma_half_second()
    ensures
        (Double::ratio(500_000, 1) / Double::ratio(1_000_000, 1)).value() == Double::ratio(5, 10).value(),
{
    let a = Double::ratio(500_000, 1);
    let b = Double::ratio(1_000_000, 1);
    let half = Double::ratio(5, 10);
    lemma_whole(500_000);
    lemma_whole(1_000_000);
    lemma_half();
    lemma_pow2_pos(UNIT as nat);
    lemma_division(a, b);
    let h = magnitude(half.index());
    assert((500_000 * one()) * one() == h * (1_000_000 * one())) by (nonlinear_arith)
        requires
            2 * h == one(),
    ;
    lemma_nearest_exact((500_000 * one()) * one(), 1_000_000 * one(), half.index());
}

proof fn lemma_over_half_second()
    ensures
        (Double::ratio(500_001, 1) / Double::ratio(1_000_000, 1)).value() > Double::ratio(5, 10).value(),
{
    let a = Double::ratio(500_001, 1);
    let b = Double::ratio(1_000_000, 1);
    let half = Double::ratio(5, 10);
    lemma_whole(500_001);
    lemma_whole(1_000_000);
    lemma_half();
    lemma_pow2_pos(UNIT as nat);
    lemma_division(a, b);
    let below = (UNIT - 21) as nat;
    lemma2_to64();
    lemma_pow2_adds(below, 21);
    lemma_pow2_pos(below);
    // A magnitude just above one half, on the grid.
    let k = lemma_representable(1_048_577, below);
    let x = magnitude(k);
    let u = pow2(below);
    assert(pow2(21) == 2_097_152);
    assert((x * 1) * (1_000_000 * one()) <= ((500_001 * one()) * one()) * 1) by (nonlinear_arith)
        requires
            x == 1_048_577 * u,
            u * 2_097_152 == one(),
            u > 0,
    ;
    lemma_nearest_monotone(x, 1, (500_001 * one()) * one(), 1_000_000 * one());
    assert(x == x * 1);
    lemma_nearest_exact(x, 1, k);
    lemma_order(k, (a / b).index());
    assert(x > half.value());
}

/// A sample that comes first, too late, or not after the one before it, changes
/// nothing about the speed.
pub proof fn untimely_samples_are_ignored(w: SpeedometerWindow, imu: ImuData)
    requires
        w.accel_last_ts == 0 || imu.timestamp_us <= w.accel_last_ts || imu.timestamp_us - w.accel_last_ts > 500_000,
    ensures
        w.fusion(imu) is Ignored,
        w.after_imu(imu).speed_target == w.speed_target,
        w.after_imu(imu).accel_delta == w.accel_delta,
{
    samples_count_within_half_a_second(w.accel_last_ts, imu.timestamp_us);
    lemma_zero();
}

/// Braking and accelerating below 0.8 m/s² is never integrated.
pub proof fn weak_samples_are_not_integrated(w: SpeedometerWindow, imu: ImuData)
    requires
        imu.accel_z_ms2.abs() < Double::ratio(8, 10),
    ensures
        w.fusion(imu) !is Integrate,
        w.after_imu(imu).accel_delta == w.accel_delta,
{
}

/// Where the change of speed is to fade, it does so by a power of a number
/// between zero and one with a positive exponent: by a factor below one.
pub proof fn fading_is_by_a_factor_below_one(w: SpeedometerWindow, imu: ImuData)
    requires
        w.fusion(imu) is Decay,
    ensures
        ({
            let power = w.fusion(imu)->Decay_0;
            &&& power.base > Double::ratio(0, 1)
            &&& power.base < Double::ratio(1, 1)
            &&& power.exponent > Double::ratio(0, 1)
            &&& power.exponent.finite()
        }),
{
    let dt = seconds_between(w.accel_last_ts, imu.timestamp_us);
    let half = Double::ratio(5, 10);
    let step = Double::ratio(8, 100);
    lemma_zero();
    lemma_whole(1);
    lemma_half();
    lemma_pow2_pos(UNIT as nat);
    lemma2_to64();
    lemma_pow2_strictly_increases(600, (UNIT - 1) as nat);
    lemma_pow2_unfold(UNIT as nat);
    samples_count_within_half_a_second(w.accel_last_ts, imu.timestamp_us);
    lemma_bounded(dt, half);
    lemma_ratio_about(92, 100);
    lemma_ratio_about(8, 100);
    lemma_order(0, dt.index());
    lemma_order(0, step.index());
    lemma_division(dt, step);
    let x = magnitude(dt.index());
    let c = magnitude(step.index());
    assert((x * 1) * c <= (x * one()) * 1) by (nonlinear_arith)
        requires
            c <= one(),
    ;
    lemma_nearest_monotone(x * 1, 1, x * one(), c);
    lemma_nearest_exact(x * 1, 1, dt.index());
    lemma_order(0, (dt / step).index());
    lemma_division_monotone(dt, half, step);
    lemma_quotient(half, 8, 100);
    lemma_bounded(dt / step, half / step);
}

/// A weight lies between zero and one.
proof fn lemma_weight(gyro_rads: Double)
    requires
        !gyro_rads.nan(),
    ensures
        corner_weight(gyro_rads).finite(),
        0 <= corner_weight(gyro_rads).value() <= one(),
{
    let low = Double::ratio(10, 100);
    let span = Double::ratio(30, 100) - low;
    let unit = Double::ratio(1, 1);
    let a = gyro_rads - low;
    lemma_pow2_pos(UNIT as nat);
    lemma_gyro_span();
    lemma_zero();
    lemma_whole(1);
    if gyro_rads.finite() {
        lemma_difference(gyro_rads, low);
    } else {
        reveal(Double::spec_add);
    }
    lemma_division_sign(a, span);
    let c = (a / span).clamp(Double::ratio(0, 1), unit);
    lemma_bounded(c, unit);
    lemma_difference(unit, c);
    lemma_near_monotone(0, one() - c.value());
    lemma_near_monotone(one() - c.value(), one() as int);
    lemma_near_exact(unit);
    lemma_bounded(corner_weight(gyro_rads), unit);
}

/// The change of speed that one sample stands for has the direction of the sign.
proof fn lemma_push(fwd: Double, dt: Double, sign: Double, weight: Double)
    requires
        !fwd.nan(),
        fwd.value() >= 0,
        dt.finite(),
        0 < dt.value() <= one(),
        weight.finite(),
        0 < weight.value() <= one(),
        sign.finite(),
        sign.value() == one() || sign.value() == -(one() as int),
    ensures
        ({
            let push = fwd * dt * sign * weight * Double::ratio(36, 10);
            &&& !push.nan()
            &&& sign.value() > 0 ==> push.value() >= 0
            &&& sign.value() < 0 ==> push.value() <= 0
        }),
{
    let scale = Double::ratio(36, 10);
    lemma_pow2_pos(UNIT as nat);
    lemma_whole(4);
    lemma_ratio(36, 10);
    lemma_ratio_order(36, 10, 4, 1);
    lemma_bounded(scale, Double::ratio(4, 1));
    let s1 = fwd * dt;
    let s2 = s1 * sign;
    let s3 = s2 * weight;
    if fwd.finite() {
        lemma_product_sign(fwd, dt);
        lemma_product_shrinks(fwd, dt);
        lemma_product_shrinks(s1, sign);
        lemma_product(s1, sign);
        lemma_order(0, s1.index());
        lemma_order(0, s2.index());
        if s1.value() == 0 {
            lemma_product_zero(s1, sign);
        }
        lemma_product_sign(s2, weight);
        lemma_product_shrinks(s2, weight);
        lemma_product_sign(s3, scale);
    } else {
        lemma_ratio_order(1, 1, 36, 10);
        lemma_whole(1);
        lemma_order(0, fwd.index());
        lemma_order(0, dt.index());
        lemma_order(0, sign.index());
        lemma_order(0, weight.index());
        lemma_order(0, scale.index());
        reveal(Double::spec_mul);
    }
}

/// Adding something to a change of speed within its bounds, and cutting it off
/// at them, moves it in the direction of what was added.
proof fn lemma_pushed(delta: Double, push: Double)
    requires
        delta_is_bounded(delta),
        !delta.nan(),
        !push.nan(),
    ensures
        ({
            let next = (delta + push).clamp(-Double::ratio(20, 1), Double::ratio(20, 1));
            &&& push.value() >= 0 ==> next >= delta
            &&& push.value() <= 0 ==> next <= delta
        }),
{
    let limit = Double::ratio(20, 1);
    lemma_pow2_pos(UNIT as nat);
    lemma_whole(20);
    lemma_negated(limit);
    lemma_abs(delta);
    lemma_bounded(delta.abs(), limit);
    lemma_order(0, push.index());
    if push.finite() {
        lemma_sum(delta, push);
        lemma_near_exact(delta);
        if push.value() >= 0 {
            lemma_near_monotone(delta.value(), delta.value() + push.value());
        }
        if push.value() <= 0 {
            lemma_near_monotone(delta.value() + push.value(), delta.value());
        }
    } else {
        lemma_order(limit.index(), push.index());
        reveal(Double::spec_add);
    }
}

/// What is integrated from measured values is a number within its bounds.
pub(crate) proof fn lemma_integrated(w: SpeedometerWindow, imu: ImuData)
    requires
        w.fusion(imu) is Integrate,
        delta_is_bounded(w.accel_delta),
        !w.accel_delta.nan(),
        is_direction(w.accel_sign),
        !imu.accel_z_ms2.nan(),
        !imu.gyro_rads.nan(),
    ensures
        !w.after_imu(imu).accel_delta.nan(),
        delta_is_bounded(w.after_imu(imu).accel_delta),
{
    let unit = Double::ratio(1, 1);
    let limit = Double::ratio(20, 1);
    let dt = seconds_between(w.accel_last_ts, imu.timestamp_us);
    let fwd = imu.accel_z_ms2.abs();
    let weight = corner_weight(imu.gyro_rads);
    lemma_zero();
    lemma_whole(1);
    lemma_whole(20);
    lemma_half();
    lemma_pow2_pos(UNIT as nat);
    lemma_negated(unit);
    lemma_negated(limit);
    samples_count_within_half_a_second(w.accel_last_ts, imu.timestamp_us);
    lemma_bounded(dt, Double::ratio(5, 10));
    lemma_abs(imu.accel_z_ms2);
    lemma_abs(w.accel_delta);
    lemma_bounded(w.accel_delta.abs(), limit);
    lemma_weight(imu.gyro_rads);
    lemma_hundredth();
    let push = fwd * dt * w.accel_sign * weight * Double::ratio(36, 10);
    lemma_push(fwd, dt, w.accel_sign, weight);
    if push.finite() {
        lemma_sum(w.accel_delta, push);
    } else {
        reveal(Double::spec_add);
    }
}

/// Integrating while accelerating never lowers the change of speed, and while
/// braking never raises it.
pub proof fn integration_has_the_direction_of_the_sign(w: SpeedometerWindow, imu: ImuData)
    requires
        w.fusion(imu) is Integrate,
        delta_is_bounded(w.accel_delta),
        !w.accel_delta.nan(),
        !imu.accel_z_ms2.nan(),
        !imu.gyro_rads.nan(),
    ensures
        w.accel_sign == Double::ratio(1, 1) ==> w.after_imu(imu).accel_delta >= w.accel_delta,
        w.accel_sign == -Double::ratio(1, 1) ==> w.after_imu(imu).accel_delta <= w.accel_delta,
{
    let unit = Double::ratio(1, 1);
    let dt = seconds_between(w.accel_last_ts, imu.timestamp_us);
    let fwd = imu.accel_z_ms2.abs();
    let weight = corner_weight(imu.gyro_rads);
    lemma_zero();
    lemma_whole(1);
    lemma_half();
    lemma_pow2_pos(UNIT as nat);
    lemma_negated(unit);
    samples_count_within_half_a_second(w.accel_last_ts, imu.timestamp_us);
    lemma_bounded(dt, Double::ratio(5, 10));
    lemma_abs(imu.accel_z_ms2);
    lemma_weight(imu.gyro_rads);
    lemma_hundredth();
    if w.accel_sign == unit || w.accel_sign == -unit {
        let push = fwd * dt * w.accel_sign * weight * Double::ratio(36, 10);
        lemma_push(fwd, dt, w.accel_sign, weight);
        lemma_pushed(w.accel_delta, push);
    }
}

} // verus!
