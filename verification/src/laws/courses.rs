//! Laws of the order in which the threads do their work.
use crate::accelerometer::{reading_rule_text, AccelAction, AccelEvent, AccelPhase, AccelWatcher};
use crate::double::facts::lemma_zero;
use crate::imu::{outcome_of, ImuAction, ImuData, ImuEvent, ImuPhase, ImuWatcher, Refusal, SendOutcome};
use crate::location::{LocationAction, LocationEvent, LocationPhase, LocationWatcher};
use crate::sensor::Sensor;
use vstd::prelude::*;

verus! {

/// The sensor thread sets up the accelerometer and then the gyroscope, each in the
/// session that it was given and with an interval of 80 milliseconds, and then polls
/// the gyroscope and the accelerometer in turn.
pub proof fn sensors_are_set_up_in_order(any: ImuEvent, accel: i32, gyro: i32)
    ensures
        ({
            let w0 = ImuWatcher::start();
            let (w1, a1) = w0.next(ImuEvent::Done);
            let (w2, a2) = w1.next(ImuEvent::Session(accel));
            let (w3, a3) = w2.next(any);
            let (w4, a4) = w3.next(ImuEvent::Done);
            let (w5, a5) = w4.next(ImuEvent::Session(gyro));
            let (w6, a6) = w5.next(any);
            let (w7, a7) = w6.next(ImuEvent::Done);
            let (w8, a8) = w7.next(any);
            let (w9, a9) = w8.next(any);
            &&& !w0.has_gyro && w0.rate.finite() && w0.rate.value() == 0
            &&& a1 == ImuAction::Request(Sensor::Accelerometer)
            &&& a2 == (ImuAction::SetInterval { sensor: Sensor::Accelerometer, session: accel, interval_ms: 80 })
            &&& a3 == (ImuAction::Start { sensor: Sensor::Accelerometer, session: accel })
            &&& a4 == ImuAction::Request(Sensor::Gyroscope)
            &&& a5 == (ImuAction::SetInterval { sensor: Sensor::Gyroscope, session: gyro, interval_ms: 80 })
            &&& a6 == (ImuAction::Start { sensor: Sensor::Gyroscope, session: gyro })
            &&& a7 == (ImuAction::Sleep { millis: 80 })
            &&& a8 == ImuAction::Poll(Sensor::Gyroscope)
            &&& a9 == ImuAction::Poll(Sensor::Accelerometer)
            &&& w9.gravity is None && w9.last_accel_ts == 0 && w9.has_gyro
        }),
{
    lemma_zero();
}

/// A step of the setup that does not end as it should is reported, or, of the
/// gyroscope, leads to polling without it.
pub proof fn unexpected_answers_are_failures(w: ImuWatcher, event: ImuEvent, any: ImuEvent)
    ensures
        w.phase is Connecting && event !is Done ==> w.next(event).1 is Report,
        w.phase is RequestingAccel && event !is Session ==> w.next(event).1 is Report,
        w.phase is StartingAccel && event !is Done ==> w.next(event).1 is Report,
        w.phase is RequestingGyro && event !is Session || w.phase is StartingGyro && event !is Done ==> {
            let (warned, warning) = w.next(event);
            &&& warning is WarnNoGyroscope
            &&& warned.next(any).1 == (ImuAction::Sleep { millis: 80 })
            &&& warned.next(any).0.has_gyro == w.has_gyro
        },
        w.phase is Reporting ==> w.next(event).1 == (ImuAction::Sleep { millis: 500 }),
{
}

/// Only a reading of the accelerometer is forwarded, and only in answer to a poll;
/// without one the next poll comes after the usual pause.
pub proof fn only_readings_are_forwarded(w: ImuWatcher, event: ImuEvent)
    ensures
        w.next(event).1 is Send ==> w.phase is PollingAccel && event is Read && w.gravity is Some,
        w.phase is PollingAccel && event !is Read ==> w.next(event).1 == (ImuAction::Sleep { millis: 80 })
            && w.next(event).0 == (ImuWatcher { phase: ImuPhase::Waiting, ..w }),
        w.phase is Sending && event != ImuEvent::Offered(SendOutcome::Closed) ==> w.next(event).1 == (ImuAction::Sleep {
            millis: 80,
        }) && w.next(event).0 == (ImuWatcher { phase: ImuPhase::Waiting, ..w }),
        w.phase is PollingAccel && event is Read && event->Read_0.timestamp_us == w.last_accel_ts ==> w.next(event).1 == (
        ImuAction::Sleep { millis: 80 }) && w.next(event).0 == (ImuWatcher { phase: ImuPhase::Waiting, ..w }),
        w.phase is Waiting ==> w.next(event).0 == (ImuWatcher { phase: w.next(event).0.phase, ..w }),
        w.phase is PollingGyro ==> w.next(event).0 == (ImuWatcher {
            phase: w.next(event).0.phase,
            rate: w.next(event).0.rate,
            ..w
        }),
{
}

/// What became of a sample is what the channel answered.
pub proof fn answers_are_understood(sample: ImuData)
    ensures
        outcome_of(Ok(())) == SendOutcome::Sent,
        outcome_of(Err(Refusal::Full(sample))) == SendOutcome::Full,
        outcome_of(Err(Refusal::Closed(sample))) == SendOutcome::Closed,
{
}

/// The accelerometer thread requests a session, starts it, listens and waits for
/// readings, in this order.
pub proof fn accelerometer_is_set_up_in_order(session: i32)
    ensures
        ({
            let w0 = AccelWatcher::start();
            let (w1, a1) = w0.next(AccelEvent::Done);
            let (w2, a2) = w1.next(AccelEvent::Session(session));
            let (w3, a3) = w2.next(AccelEvent::Done);
            let (w4, a4) = w3.next(AccelEvent::Done);
            &&& a1 == AccelAction::Request(Sensor::Accelerometer)
            &&& a2 == (AccelAction::Start { sensor: Sensor::Accelerometer, session })
            &&& a3 == AccelAction::Subscribe(Sensor::Accelerometer)
            &&& a4 is AwaitReading
            &&& w4.phase is Listening && w4.gravity is None
        }),
{
}

/// A step of the accelerometer's setup that does not end as it should is reported;
/// while listening, so is everything but a reading and the end of the readings.
/// After every update the next reading is awaited.
pub proof fn accelerometer_failures_are_reported(w: AccelWatcher, event: AccelEvent)
    ensures
        w.phase is Connecting && event !is Done ==> w.next(event).1 is Report,
        w.phase is Requesting && event !is Session ==> w.next(event).1 is Report,
        w.phase is Starting && event !is Done ==> w.next(event).1 is Report,
        w.phase is Subscribing && event !is Done ==> w.next(event).1 is Report,
        w.phase is Listening && event !is Read && event !is Ended ==> w.next(event).1 is Report,
        w.next(event).1 is Send ==> w.phase is Listening && event is Read && w.gravity is Some,
        w.phase is Sending ==> w.next(event) == (
            AccelWatcher { phase: AccelPhase::Listening, ..w },
            AccelAction::AwaitReading,
        ),
{
}

/// The location thread opens the portal, creates a session that reports every
/// second and every distance, listens, starts the session and waits for updates.
pub proof fn location_is_set_up_in_order()
    ensures
        ({
            let w0 = LocationWatcher { phase: LocationPhase::Opening };
            let (p1, a1) = w0.next(LocationEvent::Done);
            let (p2, a2) = (LocationWatcher { phase: p1 }).next(LocationEvent::Done);
            let (p3, a3) = (LocationWatcher { phase: p2 }).next(LocationEvent::Done);
            let (p4, a4) = (LocationWatcher { phase: p3 }).next(LocationEvent::Done);
            &&& a1 == (LocationAction::CreateSession { distance_m: 0, time_s: 1 })
            &&& a2 is Subscribe
            &&& a3 is Start
            &&& a4 is AwaitUpdate
            &&& p4 is Listening
        }),
{
}

/// Whatever else happens before the updates is reported and ends the thread, and so
/// does, without a report, whatever comes in place of an update.
pub proof fn location_failures_end_the_thread(w: LocationWatcher, event: LocationEvent)
    ensures
        (w.phase is Opening || w.phase is Creating || w.phase is Subscribing || w.phase is Starting) && event !is Done
            ==> w.next(event).1 is Report && w.next(event).0 is Reporting,
        w.phase is Listening && event !is Updated ==> w.next(event).1 is Stop && w.next(event).0 is Stopped,
        w.phase is Reporting || w.phase is Stopped ==> w.next(event).1 is Stop && w.next(event).0 is Stopped,
        w.next(event).1 is Send ==> w.phase is Listening && event is Updated,
{
}

/// Where a sensor is found: its object lies under that of the manager and is named
/// like the sensor.
pub proof fn sensors_lie_under_the_manager(sensor: Sensor)
    ensures
        sensor.object()@ == "/SensorManager/"@ + sensor.id()@,
        sensor is Accelerometer ==> sensor.id()@ == "accelerometersensor"@ && sensor.face()@
            == "local.AccelerometerSensor"@,
        sensor is Gyroscope ==> sensor.id()@ == "gyroscopesensor"@ && sensor.face()@ == "local.GyroscopeSensor"@,
{
    reveal_strlit("/SensorManager/");
    reveal_strlit("accelerometersensor");
    reveal_strlit("gyroscopesensor");
    reveal_strlit("/SensorManager/accelerometersensor");
    reveal_strlit("/SensorManager/gyroscopesensor");
    assert(sensor.object()@ =~= "/SensorManager/"@ + sensor.id()@);
}

/// The rule that the readings of the accelerometer are selected by, and that of the
/// gyroscope, letter by letter.
pub proof fn rules_name_the_sensor(sensor: Sensor)
    ensures
        ({
            let text = reading_rule_text(sensor);
            let head = "type='signal',sender='com.nokia.SensorService',interface='"@;
            let middle = "',member='dataAvailable',path='"@;
            &&& sensor is Accelerometer ==> text == head + "local.AccelerometerSensor"@ + middle
                + "/SensorManager/accelerometersensor"@ + "'"@
            &&& sensor is Gyroscope ==> text == head + "local.GyroscopeSensor"@ + middle
                + "/SensorManager/gyroscopesensor"@ + "'"@
        }),
{
    reveal_strlit("type='signal',sender='");
    reveal_strlit("com.nokia.SensorService");
    reveal_strlit("',interface='");
    reveal_strlit("type='signal',sender='com.nokia.SensorService',interface='");
    reveal_strlit("',member='");
    reveal_strlit("dataAvailable");
    reveal_strlit("',path='");
    reveal_strlit("',member='dataAvailable',path='");
    let head = "type='signal',sender='com.nokia.SensorService',interface='"@;
    let middle = "',member='dataAvailable',path='"@;
    assert("type='signal',sender='"@ + "com.nokia.SensorService"@ + "',interface='"@ =~= head);
    assert("',member='"@ + "dataAvailable"@ + "',path='"@ =~= middle);
    let face = sensor.face()@;
    let path = sensor.object()@;
    assert(reading_rule_text(sensor) =~= head + face + middle + path + "'"@);
}

} // verus!
