//! Laws of the readings over whole runs of the sensor threads.
use crate::accelerometer::{AccelAction, AccelEvent, AccelWatcher};
use crate::double::arith::UNIT;
use crate::double::facts::{
    lemma_abs, lemma_bounded, lemma_difference, lemma_division, lemma_division_monotone,
    lemma_division_self, lemma_division_zero, lemma_fraction, lemma_half, lemma_multiple,
    lemma_near_exact, lemma_near_monotone, lemma_near_multiple, lemma_negated, lemma_power_ratio,
    lemma_product, lemma_product_shrinks, lemma_ratio, lemma_ratio_order, lemma_sum, lemma_whole,
    lemma_zero, one,
};
use crate::double::grid::{
    lemma_magnitude_at, lemma_nearest_exact, lemma_nearest_monotone, lemma_order, magnitude,
    FRACTION, TOP,
};
use crate::double::number::{distance, Double};
use crate::double::remainder::lemma_representable;
use crate::double::rounding::lemma_pow2_52;
use crate::imu::{ImuAction, ImuEvent, ImuPhase, ImuWatcher};
use crate::laws::gforce::length_is_not_negative;
use crate::sensor::{Reading, Vector};
use vstd::arithmetic::power2::{
    lemma2_to64, lemma_pow2_adds, lemma_pow2_pos, lemma_pow2_unfold, pow2,
};
use vstd::prelude::*;

verus! {

/// What no acceleration in m/s² exceeds, in units: two to the power of 1018.
pub open spec fn ceiling() -> nat {
    pow2(2092)
}

/// Three finite components that do not exceed the ceiling.
pub open spec fn contained(v: Vector) -> bool {
    &&& v.x.finite() && distance(v.x.value()) <= ceiling()
    &&& v.y.finite() && distance(v.y.value()) <= ceiling()
    &&& v.z.finite() && distance(v.z.value()) <= ceiling()
}

pub open spec fn finite_reading(reading: Reading) -> bool {
    reading.raw.x.finite() && reading.raw.y.finite() && reading.raw.z.finite()
}

/// The ceiling is on the grid.
proof fn lemma_ceiling() -> (top: Double)
    ensures
        top.finite(),
        !top.negative(),
        top.value() == ceiling(),
{
    lemma2_to64();
    lemma_pow2_52();
    lemma_pow2_adds(52, 2040);
    let k = lemma_representable(FRACTION as nat, 2040);
    Double::of(false, k)
}

/// The factor from thousandths of G to m/s² is less than a 64th.
proof fn lemma_scale()
    ensures
        ({
            let s = Double::ratio(981, 100) / Double::ratio(1000, 1);
            &&& s.finite()
            &&& 0 <= s.value()
            &&& 64 * s.value() <= one()
        }),
{
    let a = Double::ratio(981, 100);
    let d = Double::ratio(1000, 1);
    let s = a / d;
    let ten = Double::ratio(10, 1);
    let small = Double::ratio(1, 64);
    lemma_pow2_pos(UNIT as nat);
    lemma2_to64();
    lemma_zero();
    lemma_whole(10);
    lemma_whole(1000);
    lemma_ratio(981, 100);
    lemma_ratio_order(981, 100, 10, 1);
    lemma_bounded(a, ten);
    lemma_power_ratio(64, 6);
    lemma_division_monotone(Double::ratio(0, 1), a, d);
    lemma_division_zero(Double::ratio(0, 1), d);
    lemma_division_monotone(a, ten, d);
    lemma_division(ten, d);
    lemma_order(0, d.index());
    let m = magnitude(small.index());
    assert(((10 * one()) * one()) * 1 <= (m * 1) * (1000 * one())) by (nonlinear_arith)
        requires
            m * 64 == one(),
            one() > 0,
    ;
    lemma_nearest_monotone((10 * one()) * one(), 1000 * one(), m * 1, 1);
    lemma_nearest_exact(m * 1, 1, small.index());
    lemma_order((ten / d).index(), small.index());
    lemma_bounded(s, small);
}

/// A finite component in m/s² does not exceed the ceiling.
proof fn lemma_component(raw: Double)
    requires
        raw.finite(),
    ensures
        ({
            let total = raw * (Double::ratio(981, 100) / Double::ratio(1000, 1));
            total.finite() && distance(total.value()) <= ceiling()
        }),
{
    let s = Double::ratio(981, 100) / Double::ratio(1000, 1);
    let top = lemma_ceiling();
    let x = magnitude(raw.index());
    let y = magnitude(s.index());
    let c = ceiling();
    lemma_scale();
    lemma_pow2_pos(UNIT as nat);
    lemma_order(0, s.index());
    lemma_order(0, raw.index());
    lemma_order(raw.index(), TOP as nat);
    lemma_order(0, top.index());
    lemma2_to64();
    lemma_pow2_52();
    lemma_pow2_adds(52, 2046);
    lemma_pow2_adds(6, 2092);
    lemma_magnitude_at(FRACTION as nat, 2046);
    assert(2046 * FRACTION as nat + FRACTION as nat == TOP);
    assert(x < 64 * c);
    lemma_product(raw, s);
    assert((x * y) * one() <= (c * one()) * one()) by (nonlinear_arith)
        requires
            x < 64 * c,
            64 * y <= one(),
            x >= 0,
            y >= 0,
    ;
    lemma_nearest_monotone(x * y, one(), c * one(), one());
    lemma_nearest_exact(c * one(), one(), top.index());
    lemma_order((raw * s).index(), top.index());
}

proof fn lemma_acceleration(reading: Reading)
    requires
        finite_reading(reading),
    ensures
        contained(reading.acceleration()),
{
    lemma_component(reading.raw.x);
    lemma_component(reading.raw.y);
    lemma_component(reading.raw.z);
}

/// A part of something below the ceiling is below the same part of it.
proof fn lemma_part(part: Double, m: nat, a: Double)
    requires
        part.finite(),
        m < 2 * FRACTION,
        part.value() == m * pow2((UNIT - 53) as nat),
        a.finite(),
        distance(a.value()) <= ceiling(),
    ensures
        (part * a).finite(),
        distance((part * a).value()) <= m * pow2(2039),
{
    let x = magnitude(part.index());
    let y = magnitude(a.index());
    let g = pow2((UNIT - 53) as nat);
    let k = lemma_representable(m, 2039);
    let z = magnitude(k);
    lemma_order(0, part.index());
    lemma_order(0, a.index());
    lemma_pow2_pos(UNIT as nat);
    lemma_pow2_pos((UNIT - 53) as nat);
    lemma_pow2_adds(53, 2039);
    lemma_pow2_adds(53, (UNIT - 53) as nat);
    lemma_product(part, a);
    assert((x * y) * one() <= (z * one()) * one()) by (nonlinear_arith)
        requires
            x == m * g,
            y <= ceiling(),
            ceiling() == pow2(53) * pow2(2039),
            one() == pow2(53) * g,
            z == m * pow2(2039),
    ;
    lemma_nearest_monotone(x * y, one(), z * one(), one());
    lemma_nearest_exact(z * one(), one(), k);
    lemma_order((part * a).index(), k);
}

/// A weighted mean of two things below the ceiling is below it.
proof fn lemma_mean(alpha: Double, old: Double, new: Double)
    requires
        alpha.finite(),
        one() <= 2 * alpha.value() < 2 * one(),
        old.finite(),
        distance(old.value()) <= ceiling(),
        new.finite(),
        distance(new.value()) <= ceiling(),
    ensures
        ({
            let mean = alpha * old + (Double::ratio(1, 1) - alpha) * new;
            mean.finite() && distance(mean.value()) <= ceiling()
        }),
{
    let unit = Double::ratio(1, 1);
    let rest = unit - alpha;
    let f = FRACTION as int;
    let q = (UNIT - 53) as nat;
    let g = pow2(q) as int;
    let top = lemma_ceiling();
    lemma_whole(1);
    lemma_pow2_52();
    lemma_pow2_pos(q);
    lemma_pow2_pos(2039);
    lemma_pow2_unfold(UNIT as nat);
    lemma_pow2_unfold(53);
    lemma_pow2_adds(52, q);
    lemma_pow2_adds(53, 2039);
    lemma_order(0, alpha.index());
    let m = lemma_multiple(alpha.index(), q);
    assert(f <= m < 2 * f) by (nonlinear_arith)
        requires
            2 * (f * g) <= 2 * (m * g) < 4 * (f * g),
            g > 0,
    ;
    lemma_difference(unit, alpha);
    assert(2 * (f * g) - m * g == (2 * f - m) * g) by (nonlinear_arith);
    lemma_near_multiple(2 * f - m, q);
    lemma_bounded(rest, unit);
    lemma_part(alpha, m, old);
    lemma_part(rest, (2 * f - m) as nat, new);
    let p = alpha * old;
    let r = rest * new;
    let h = pow2(2039) as int;
    assert(m * h + (2 * f - m) * h == ceiling()) by (nonlinear_arith)
        requires
            ceiling() == (2 * f) * h,
    ;
    lemma_sum(p, r);
    lemma_negated(top);
    lemma_near_exact(top);
    lemma_near_exact(-top);
    lemma_near_monotone(-top.value(), p.value() + r.value());
    lemma_near_monotone(p.value() + r.value(), top.value());
    lemma_abs(p + r);
    lemma_bounded((p + r).abs(), top);
}

/// The estimate of gravity stays below the ceiling.
proof fn lemma_filtered(alpha: Double, old: Vector, new: Vector)
    requires
        alpha.finite(),
        one() <= 2 * alpha.value() < 2 * one(),
        contained(old),
        contained(new),
    ensures
        contained(old.low_pass(alpha, new)),
{
    lemma_mean(alpha, old.x, new.x);
    lemma_mean(alpha, old.y, new.y);
    lemma_mean(alpha, old.z, new.z);
}

/// What the two filters keep is at least half and less than all.
proof fn lemma_shares()
    ensures
        crate::imu::gravity_share().finite(),
        one() <= 2 * crate::imu::gravity_share().value() < 2 * one(),
        crate::accelerometer::gravity_share().finite(),
        one() <= 2 * crate::accelerometer::gravity_share().value() < 2 * one(),
{
    let below = (UNIT - 10) as nat;
    lemma2_to64();
    lemma_half();
    lemma_pow2_adds(10, below);
    lemma_pow2_pos(below);
    lemma_pow2_pos(UNIT as nat);
    lemma_fraction(990, 1000);
    lemma_fraction(926, 1000);
    lemma_ratio_order(5, 10, 990, 1000);
    lemma_ratio_order(5, 10, 926, 1000);
    lemma_ratio_order(926, 1000, 990, 1000);
    lemma_ratio(990, 1000);
    // A magnitude just below one, on the grid.
    let k = lemma_representable(1023, below);
    let x = magnitude(k);
    let u = pow2(below);
    assert((990 * one()) * 1 <= x * 1000) by (nonlinear_arith)
        requires
            x == 1023 * u,
            one() == 1024 * u,
    ;
    lemma_nearest_monotone(990 * one(), 1000, x, 1);
    assert(x == x * 1);
    lemma_nearest_exact(x, 1, k);
    lemma_order(Double::ratio(990, 1000).index(), k);
}

/// What is left of a reading without gravity has a length that is not negative.
proof fn lemma_linear(total: Vector, gravity: Vector)
    requires
        contained(total),
        contained(gravity),
    ensures
        total.without(gravity).norm() >= Double::ratio(0, 1),
{
    lemma_difference(total.x, gravity.x);
    lemma_difference(total.y, gravity.y);
    lemma_difference(total.z, gravity.z);
    length_is_not_negative(total.without(gravity));
}

/// The rate of turning of a finite reading is a number and is not negative.
pub proof fn turn_rate_is_not_negative(reading: Reading)
    requires
        finite_reading(reading),
    ensures
        reading.turn_rate() >= Double::ratio(0, 1),
{
    let a = Double::ratio(3_141_592_653_589_793, 1_000_000_000_000_000);
    let d = Double::ratio(180_000, 1);
    let s = a / d;
    lemma_zero();
    lemma_pow2_pos(UNIT as nat);
    lemma_whole(1);
    lemma_whole(180_000);
    lemma_ratio(3_141_592_653_589_793, 1_000_000_000_000_000);
    lemma_ratio_order(3_141_592_653_589_793, 1_000_000_000_000_000, 180_000, 1);
    lemma_bounded(a, d);
    lemma_division_monotone(Double::ratio(0, 1), a, d);
    lemma_division_zero(Double::ratio(0, 1), d);
    lemma_division_monotone(a, d, d);
    lemma_division_self(d);
    lemma_bounded(s, Double::ratio(1, 1));
    lemma_product_shrinks(reading.raw.x, s);
    lemma_product_shrinks(reading.raw.y, s);
    lemma_product_shrinks(reading.raw.z, s);
    length_is_not_negative(reading.raw.scaled(s));
}

/// The sensor thread after a run of events.
pub open spec fn imu_run(w: ImuWatcher, events: Seq<ImuEvent>) -> ImuWatcher
    decreases events.len(),
{
    if events.len() == 0 {
        w
    } else {
        imu_run(w.next(events[0]).0, events.drop_first())
    }
}

/// The accelerometer thread after a run of events.
pub open spec fn accel_run(w: AccelWatcher, events: Seq<AccelEvent>) -> AccelWatcher
    decreases events.len(),
{
    if events.len() == 0 {
        w
    } else {
        accel_run(w.next(events[0]).0, events.drop_first())
    }
}

pub open spec fn finite_imu_event(event: ImuEvent) -> bool {
    event matches ImuEvent::Read(reading) ==> finite_reading(reading)
}

pub open spec fn finite_accel_event(event: AccelEvent) -> bool {
    event matches AccelEvent::Read(reading) ==> finite_reading(reading)
}

spec fn imu_is_settled(w: ImuWatcher) -> bool {
    &&& w.gravity matches Some(gravity) ==> contained(gravity)
    &&& w.rate >= Double::ratio(0, 1)
    &&& w.phase matches ImuPhase::PollingAccel(rate) ==> rate >= Double::ratio(0, 1)
}

proof fn lemma_imu_step(w: ImuWatcher, event: ImuEvent)
    requires
        imu_is_settled(w),
        finite_imu_event(event),
    ensures
        imu_is_settled(w.next(event).0),
        w.next(event).1 matches ImuAction::Send(data) ==> {
            &&& data.linear_ms2 >= Double::ratio(0, 1)
            &&& data.gyro_rads >= Double::ratio(0, 1)
        },
{
    lemma_zero();
    if let ImuEvent::Read(reading) = event {
        let total = reading.acceleration();
        lemma_acceleration(reading);
        turn_rate_is_not_negative(reading);
        if let Some(old) = w.gravity {
            lemma_shares();
            lemma_filtered(crate::imu::gravity_share(), old, total);
            lemma_linear(total, old.low_pass(crate::imu::gravity_share(), total));
        }
    }
}

/// From the start on, as long as the sensors report finite values: neither the
/// magnitude nor the rate of turning of a sample is ever negative, nor is
/// either ever not a number.
pub proof fn sent_samples_are_not_negative(events: Seq<ImuEvent>, event: ImuEvent)
    requires
        forall|i: int| 0 <= i < events.len() ==> finite_imu_event(#[trigger] events[i]),
        finite_imu_event(event),
    ensures
        imu_run(ImuWatcher::start(), events).next(event).1 matches ImuAction::Send(data) ==> {
            &&& data.linear_ms2 >= Double::ratio(0, 1)
            &&& data.gyro_rads >= Double::ratio(0, 1)
        },
{
    lemma_zero();
    lemma_imu_run(ImuWatcher::start(), events);
    lemma_imu_step(imu_run(ImuWatcher::start(), events), event);
}

proof fn lemma_imu_run(w: ImuWatcher, events: Seq<ImuEvent>)
    requires
        imu_is_settled(w),
        forall|i: int| 0 <= i < events.len() ==> finite_imu_event(#[trigger] events[i]),
    ensures
        imu_is_settled(imu_run(w, events)),
    decreases events.len(),
{
    if events.len() > 0 {
        let rest = events.drop_first();
        assert(finite_imu_event(events[0]));
        assert forall|i: int| 0 <= i < rest.len() implies finite_imu_event(#[trigger] rest[i]) by {
            assert(rest[i] == events[i + 1]);
        }
        lemma_imu_step(w, events[0]);
        lemma_imu_run(w.next(events[0]).0, rest);
    }
}

spec fn accel_is_settled(w: AccelWatcher) -> bool {
    w.gravity matches Some(gravity) ==> contained(gravity)
}

proof fn lemma_accel_step(w: AccelWatcher, event: AccelEvent)
    requires
        accel_is_settled(w),
        finite_accel_event(event),
    ensures
        accel_is_settled(w.next(event).0),
        w.next(event).1 matches AccelAction::Send(data) ==> data.linear_ms2 >= Double::ratio(0, 1),
{
    if let AccelEvent::Read(reading) = event {
        let total = reading.acceleration();
        lemma_acceleration(reading);
        if let Some(old) = w.gravity {
            lemma_shares();
            lemma_filtered(crate::accelerometer::gravity_share(), old, total);
            lemma_linear(total, old.low_pass(crate::accelerometer::gravity_share(), total));
        }
    }
}

/// The accelerometer alone, from the start on, as long as it reports finite
/// values: the magnitude of an update is never negative and always a number.
pub proof fn sent_updates_are_not_negative(events: Seq<AccelEvent>, event: AccelEvent)
    requires
        forall|i: int| 0 <= i < events.len() ==> finite_accel_event(#[trigger] events[i]),
        finite_accel_event(event),
    ensures
        accel_run(AccelWatcher::start(), events).next(event).1 matches AccelAction::Send(data) ==> data.linear_ms2
            >= Double::ratio(0, 1),
{
    lemma_accel_run(AccelWatcher::start(), events);
    lemma_accel_step(accel_run(AccelWatcher::start(), events), event);
}

proof fn lemma_accel_run(w: AccelWatcher, events: Seq<AccelEvent>)
    requires
        accel_is_settled(w),
        forall|i: int| 0 <= i < events.len() ==> finite_accel_event(#[trigger] events[i]),
    ensures
        accel_is_settled(accel_run(w, events)),
    decreases events.len(),
{
    if events.len() > 0 {
        let rest = events.drop_first();
        assert(finite_accel_event(events[0]));
        assert forall|i: int| 0 <= i < rest.len() implies finite_accel_event(#[trigger] rest[i]) by {
            assert(rest[i] == events[i + 1]);
        }
        lemma_accel_step(w, events[0]);
        lemma_accel_run(w.next(events[0]).0, rest);
    }
}

} // verus!
