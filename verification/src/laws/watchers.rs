//! Laws of the threads that watch the position and the sensors.
use crate::accelerometer::{AccelAction, AccelEvent, AccelWatcher};
use crate::double::arith::UNIT;
use crate::double::facts::{
    lemma_bounded, lemma_product_sign, lemma_product_zero, lemma_ratio, lemma_ratio_order,
    lemma_whole, lemma_zero,
};
use crate::double::grid::lemma_order;
use crate::double::number::Double;
use crate::imu::{ImuAction, ImuEvent, ImuPhase, ImuWatcher, SendOutcome};
use crate::laws::gforce::length_is_not_negative;
use crate::location::{
    Fix, LocationAction, LocationData, LocationEvent, LocationPhase, LocationWatcher,
};
use crate::sensor::{Reading, Sensor};
use vstd::arithmetic::power2::lemma_pow2_pos;
use vstd::prelude::*;

verus! {

/// The speed of an update is never negative, and is zero where it is unknown.
pub proof fn reported_speed_is_not_negative(fix: Fix)
    ensures
        LocationData::of(fix).speed_kmh >= Double::ratio(0, 1),
        fix.speed is None ==> LocationData::of(fix).speed_kmh.value() == 0,
        LocationData::of(fix).has_fix,
{
    let zero = Double::ratio(0, 1);
    let factor = Double::ratio(36, 10);
    let v = (match fix.speed {
        Some(v) => v,
        None => zero,
    }).max(zero);
    lemma_pow2_pos(UNIT as nat);
    lemma_zero();
    lemma_whole(4);
    lemma_whole(1);
    lemma_ratio(36, 10);
    lemma_ratio_order(36, 10, 4, 1);
    lemma_ratio_order(1, 1, 36, 10);
    lemma_bounded(factor, Double::ratio(4, 1));
    lemma_order(0, factor.index());
    lemma_order(0, v.index());
    if v.finite() {
        lemma_product_sign(v, factor);
        if fix.speed is None {
            lemma_product_zero(v, factor);
        }
    } else {
        reveal(Double::spec_mul);
    }
}

/// The portal is listened to before the session starts, so that the first
/// update is not missed.
pub proof fn listening_comes_before_starting(w: LocationWatcher, event: LocationEvent)
    ensures
        w.next(event).1 is Start ==> w.phase is Subscribing && event is Done,
        w.next(event).0 is Subscribing ==> w.next(event).1 is Subscribe,
{
}

/// An error before the first update ends the location thread, after a report.
pub proof fn location_errors_end_the_thread(w: LocationWatcher, after: LocationEvent)
    requires
        w.phase is Opening || w.phase is Creating || w.phase is Subscribing || w.phase is Starting,
    ensures
        w.next(LocationEvent::Failed) == (LocationPhase::Reporting, LocationAction::Report),
        (LocationWatcher { phase: LocationPhase::Reporting }).next(after) == (
            LocationPhase::Stopped,
            LocationAction::Stop,
        ),
{
}

/// Every update is passed on, and whatever becomes of it the next one is awaited.
pub proof fn every_update_is_passed_on(fix: Fix, after: LocationEvent)
    ensures
        (LocationWatcher { phase: LocationPhase::Listening }).next(LocationEvent::Updated(fix)) == (
            LocationPhase::Sending,
            LocationAction::Send(LocationData::of(fix)),
        ),
        (LocationWatcher { phase: LocationPhase::Sending }).next(after) == (
            LocationPhase::Listening,
            LocationAction::AwaitUpdate,
        ),
{
}

/// A reading with the timestamp of the one before is passed over and changes
/// neither the estimate of gravity nor anything else.
pub proof fn repeated_readings_are_passed_over(w: ImuWatcher, rate: Double, reading: Reading)
    requires
        w.phase == ImuPhase::PollingAccel(rate),
        reading.timestamp_us == w.last_accel_ts,
    ensures
        w.next(ImuEvent::Read(reading)) == w.wait(),
{
}

/// The first reading after a start is not forwarded; it becomes the estimate of
/// gravity.
pub proof fn first_reading_sets_gravity(w: ImuWatcher, rate: Double, reading: Reading)
    requires
        w.phase == ImuPhase::PollingAccel(rate),
        w.gravity is None,
        reading.timestamp_us != w.last_accel_ts,
    ensures
        w.next(ImuEvent::Read(reading)).1 is Sleep,
        w.next(ImuEvent::Read(reading)).0.gravity == Some(reading.acceleration()),
{
}

/// What is forwarded carries the timestamp of its reading and the rate of
/// turning that was polled before it, and its magnitude is not negative.
pub proof fn samples_match_their_reading(w: ImuWatcher, rate: Double, reading: Reading)
    requires
        w.phase == ImuPhase::PollingAccel(rate),
        w.next(ImuEvent::Read(reading)).1 is Send,
    ensures
        ({
            let data = w.next(ImuEvent::Read(reading)).1->Send_0;
            &&& data.timestamp_us == reading.timestamp_us
            &&& data.timestamp_us == w.next(ImuEvent::Read(reading)).0.last_accel_ts
            &&& data.timestamp_us != w.last_accel_ts
            &&& data.gyro_rads == rate
            &&& !data.accel_x_ms2.nan() && !data.accel_y_ms2.nan() && !data.accel_z_ms2.nan() ==> data.linear_ms2
                >= Double::ratio(0, 1)
        }),
{
    let total = reading.acceleration();
    let gravity = w.gravity->0.low_pass(crate::imu::gravity_share(), total);
    let linear = total.without(gravity);
    if !linear.x.nan() && !linear.y.nan() && !linear.z.nan() {
        length_is_not_negative(linear);
    }
}

/// Without a gyroscope a sample counts as taken on a straight road.
pub proof fn missing_gyroscope_counts_as_still(w: ImuWatcher, event: ImuEvent)
    requires
        w.phase is Waiting,
        !w.has_gyro,
    ensures
        w.next(event).0.phase == ImuPhase::PollingAccel(Double::ratio(0, 1)),
        w.next(event).1 == ImuAction::Poll(Sensor::Accelerometer),
{
}

/// The rate of turning is that of the most recent gyroscope sample: a sample
/// replaces it, a poll without an answer leaves it in force, and nothing else
/// touches it until all starts anew, with a rate of zero.
pub proof fn most_recent_turn_rate_stays_in_force(w: ImuWatcher, event: ImuEvent)
    ensures
        w.phase is PollingGyro ==> (event matches ImuEvent::Read(reading) ==> w.next(event).0.phase
            == ImuPhase::PollingAccel(reading.turn_rate()) && w.next(event).0.rate == reading.turn_rate()),
        w.phase is PollingGyro && event !is Read ==> w.next(event).0.phase == ImuPhase::PollingAccel(w.rate),
        w.phase is PollingGyro ==> w.next(event).1 == ImuAction::Poll(Sensor::Accelerometer),
        !(w.phase is PollingGyro && event is Read) && !(w.phase is Pausing) ==> w.next(event).0.rate == w.rate,
        w.phase is Pausing ==> w.next(event).0.rate == Double::ratio(0, 1),
{
}

/// A sample that the window has no room for is dropped, and polling goes on as
/// if it had been taken. Only the end of the window ends the polling.
pub proof fn full_channels_drop_the_sample(w: ImuWatcher)
    requires
        w.phase is Sending,
    ensures
        w.next(ImuEvent::Offered(SendOutcome::Full)) == w.wait(),
        w.next(ImuEvent::Offered(SendOutcome::Full)) == w.next(ImuEvent::Offered(SendOutcome::Sent)),
        w.next(ImuEvent::Offered(SendOutcome::Closed)).1 == (ImuAction::Sleep { millis: 500 }),
        w.next(ImuEvent::Offered(SendOutcome::Closed)).0.phase is Pausing,
{
}

/// Every failure of the setup is reported and followed, after half a second, by
/// a start from scratch.
pub proof fn failures_lead_to_a_new_start(w: ImuWatcher, any: ImuEvent)
    requires
        w.phase is Connecting || w.phase is RequestingAccel || w.phase is StartingAccel,
    ensures
        ({
            let (reporting, report) = w.next(ImuEvent::Failed);
            let (pausing, pause) = reporting.next(any);
            &&& report is Report
            &&& pause == (ImuAction::Sleep { millis: 500 })
            &&& pausing.next(any) == (ImuWatcher::start(), ImuAction::Connect)
        }),
{
}

/// A refused interval and a missing gyroscope do not stop the setup.
pub proof fn optional_steps_may_fail(w: ImuWatcher, any: ImuEvent, session: i32)
    ensures
        w.phase == ImuPhase::TuningAccel(session) ==> w.next(any).1 == (ImuAction::Start {
            sensor: Sensor::Accelerometer,
            session,
        }),
        w.phase == ImuPhase::TuningGyro(session) ==> w.next(any).1 == (ImuAction::Start {
            sensor: Sensor::Gyroscope,
            session,
        }),
        w.phase is RequestingGyro || w.phase is StartingGyro ==> {
            let (warned, warning) = w.next(ImuEvent::Failed);
            warning is WarnNoGyroscope && warned.next(any) == w.wait()
        },
{
}

/// A poll comes only after a pause of 80 milliseconds, or right after the other
/// sensor was polled.
pub proof fn polls_are_paced(w: ImuWatcher, event: ImuEvent)
    ensures
        w.next(event).1 is Poll ==> w.phase is Waiting || w.phase is PollingGyro,
        w.next(event).0.phase is Waiting ==> w.next(event).1 == (ImuAction::Sleep { millis: 80 }),
        w.next(event).0.phase is PollingGyro ==> w.phase is Waiting,
{
}

/// The accelerometer alone: the first reading sets the estimate of gravity, and
/// every further one is forwarded with its timestamp and a magnitude that is not
/// negative.
pub proof fn accelerometer_forwards_from_the_second_reading(w: AccelWatcher, reading: Reading)
    requires
        w.phase is Listening,
    ensures
        w.gravity is None ==> w.next(AccelEvent::Read(reading)).1 is AwaitReading,
        w.gravity is Some ==> {
            &&& w.next(AccelEvent::Read(reading)).1 is Send
            &&& w.next(AccelEvent::Read(reading)).1->Send_0.timestamp_us == reading.timestamp_us
            &&& {
                let linear = reading.acceleration().without(
                    w.gravity->0.low_pass(crate::accelerometer::gravity_share(), reading.acceleration()),
                );
                !linear.x.nan() && !linear.y.nan() && !linear.z.nan() ==> w.next(
                    AccelEvent::Read(reading),
                ).1->Send_0.linear_ms2 >= Double::ratio(0, 1)
            }
        },
        w.next(AccelEvent::Read(reading)).0.gravity is Some,
{
    let total = reading.acceleration();
    let linear = total.without(w.gravity->0.low_pass(crate::accelerometer::gravity_share(), total));
    if !linear.x.nan() && !linear.y.nan() && !linear.z.nan() {
        length_is_not_negative(linear);
    }
}

/// The accelerometer alone: after an error or the last reading, all starts again
/// from scratch in three seconds.
pub proof fn accelerometer_starts_again(w: AccelWatcher, any: AccelEvent)
    ensures
        w.phase is Listening ==> w.next(AccelEvent::Ended).1 == (AccelAction::Sleep { millis: 3000 }),
        w.phase is Reporting ==> w.next(any).1 == (AccelAction::Sleep { millis: 3000 }),
        w.phase is Pausing ==> {
            &&& w.next(any).1 is Connect
            &&& w.next(any).0.gravity is None
            &&& w.next(any).0.phase is Connecting
        },
{
}

} // verus!
