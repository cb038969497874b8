use speedometer::accelerometer::{reading_rule, AccelAction, AccelEvent, AccelWatcher};
use speedometer::application::SpeedometerApplication;
use speedometer::double::number::Double;
use speedometer::imu::{answered, offer, ImuAction, ImuData, ImuEvent, ImuWatcher, Refusal, SendOutcome};
use speedometer::location::{Fix, LocationAction, LocationData, LocationEvent, LocationWatcher};
use speedometer::sensor::{Reading, Sensor, Vector};

fn d(x: f64) -> Double {
    Double::from_bits(x.to_bits())
}

fn f(x: Double) -> f64 {
    f64::from_bits(x.to_bits())
}

fn reading(ts: u64, x: f64, y: f64, z: f64) -> Reading {
    Reading { timestamp_us: ts, raw: Vector { x: d(x), y: d(y), z: d(z) } }
}

fn fix(speed: Option<f64>, altitude: Option<f64>) -> Fix {
    Fix {
        speed: speed.map(d),
        altitude: altitude.map(d),
        accuracy: d(6.5),
        latitude: d(1.0),
        longitude: d(2.0),
        heading: Some(d(270.0)),
    }
}

#[test]
fn unknown_values_count_as_zero() {
    let data = LocationData::from_fix(fix(None, None));
    assert_eq!(f(data.speed_kmh), 0.0);
    assert_eq!(f(data.altitude_m), 0.0);
    assert!(data.has_fix);
    assert_eq!(f(data.accuracy_m), 6.5);
    assert_eq!(f(data.heading_deg.unwrap()), 270.0);
}

#[test]
fn speeds_are_converted_and_not_negative() {
    assert_eq!(f(LocationData::from_fix(fix(Some(13.9), Some(-4.0))).speed_kmh), 13.9 * 3.6);
    assert_eq!(f(LocationData::from_fix(fix(Some(-0.5), None)).speed_kmh), 0.0);
    assert_eq!(f(LocationData::from_fix(fix(Some(f64::NAN), None)).speed_kmh), 0.0);
    assert_eq!(f(LocationData::from_fix(fix(Some(1.0), Some(-4.0))).altitude_m), -4.0);
}

#[test]
fn the_portal_is_asked_in_order() {
    let (mut w, first) = LocationWatcher::new();
    assert!(matches!(first, LocationAction::OpenPortal));
    assert!(matches!(
        w.step(LocationEvent::Done),
        LocationAction::CreateSession { distance_m: 0, time_s: 1 }
    ));
    assert!(matches!(w.step(LocationEvent::Done), LocationAction::Subscribe));
    assert!(matches!(w.step(LocationEvent::Done), LocationAction::Start));
    assert!(matches!(w.step(LocationEvent::Done), LocationAction::AwaitUpdate));
    match w.step(LocationEvent::Updated(fix(Some(10.0), Some(5.0)))) {
        LocationAction::Send(data) => assert_eq!(f(data.speed_kmh), 36.0),
        _ => panic!("nothing to send"),
    }
    // Whatever becomes of the message, the next update is awaited.
    assert!(matches!(w.step(LocationEvent::Failed), LocationAction::AwaitUpdate));
    assert!(matches!(w.step(LocationEvent::Ended), LocationAction::Stop));
    assert!(matches!(w.step(LocationEvent::Done), LocationAction::Stop));
}

#[test]
fn a_refused_portal_ends_the_thread() {
    for steps in 0..4 {
        let (mut w, _) = LocationWatcher::new();
        for _ in 0..steps {
            w.step(LocationEvent::Done);
        }
        assert!(matches!(w.step(LocationEvent::Failed), LocationAction::Report));
        assert!(matches!(w.step(LocationEvent::Done), LocationAction::Stop));
    }
}

/// A watcher that waits for the next poll, with or without a gyroscope.
fn polling(gyro: bool) -> ImuWatcher {
    let (mut w, first) = ImuWatcher::new();
    assert!(matches!(first, ImuAction::Connect));
    assert!(matches!(w.step(ImuEvent::Done), ImuAction::Request(Sensor::Accelerometer)));
    assert!(matches!(
        w.step(ImuEvent::Session(7)),
        ImuAction::SetInterval { sensor: Sensor::Accelerometer, session: 7, interval_ms: 80 }
    ));
    // A refused interval does not matter.
    assert!(matches!(
        w.step(ImuEvent::Failed),
        ImuAction::Start { sensor: Sensor::Accelerometer, session: 7 }
    ));
    assert!(matches!(w.step(ImuEvent::Done), ImuAction::Request(Sensor::Gyroscope)));
    if gyro {
        assert!(matches!(
            w.step(ImuEvent::Session(9)),
            ImuAction::SetInterval { sensor: Sensor::Gyroscope, session: 9, interval_ms: 80 }
        ));
        assert!(matches!(
            w.step(ImuEvent::Done),
            ImuAction::Start { sensor: Sensor::Gyroscope, session: 9 }
        ));
        assert!(matches!(w.step(ImuEvent::Done), ImuAction::Sleep { millis: 80 }));
    } else {
        assert!(matches!(w.step(ImuEvent::Failed), ImuAction::WarnNoGyroscope));
        assert!(matches!(w.step(ImuEvent::Done), ImuAction::Sleep { millis: 80 }));
    }
    w
}

/// Polls the accelerometer once, without a gyroscope.
fn poll(w: &mut ImuWatcher, r: Reading) -> ImuAction {
    assert!(matches!(w.step(ImuEvent::Done), ImuAction::Poll(Sensor::Accelerometer)));
    w.step(ImuEvent::Read(r))
}

#[test]
fn gravity_is_filtered_out() {
    let mut w = polling(false);
    assert!(matches!(poll(&mut w, reading(10, 0.0, 1000.0, 0.0)), ImuAction::Sleep { millis: 80 }));
    let scale = 9.81 / 1000.0;
    let (x, y, z) = (20.0 * scale, 990.0 * scale, -300.0 * scale);
    let g = (
        0.990 * (0.0 * scale) + (1.0 - 0.990) * x,
        0.990 * (1000.0 * scale) + (1.0 - 0.990) * y,
        0.990 * (0.0 * scale) + (1.0 - 0.990) * z,
    );
    match poll(&mut w, reading(20, 20.0, 990.0, -300.0)) {
        ImuAction::Send(data) => {
            let (lx, ly, lz) = (x - g.0, y - g.1, z - g.2);
            assert_eq!(data.timestamp_us, 20);
            assert_eq!(f(data.accel_x_ms2), lx);
            assert_eq!(f(data.accel_y_ms2), ly);
            assert_eq!(f(data.accel_z_ms2), lz);
            assert_eq!(f(data.linear_ms2), (lx * lx + ly * ly + lz * lz).sqrt());
            assert_eq!(f(data.gyro_rads), 0.0);
        }
        _ => panic!("nothing to send"),
    }
}

#[test]
fn repeated_timestamps_are_passed_over() {
    let mut w = polling(false);
    poll(&mut w, reading(10, 0.0, 1000.0, 0.0));
    assert!(matches!(poll(&mut w, reading(10, 500.0, 0.0, 0.0)), ImuAction::Sleep { millis: 80 }));
    assert!(matches!(poll(&mut w, reading(11, 500.0, 0.0, 0.0)), ImuAction::Send(_)));
    assert!(matches!(w.step(ImuEvent::Offered(SendOutcome::Sent)), ImuAction::Sleep { millis: 80 }));
    assert!(matches!(poll(&mut w, reading(11, 1.0, 2.0, 3.0)), ImuAction::Sleep { millis: 80 }));
    // A timestamp of zero is passed over from the start.
    let mut fresh = polling(false);
    poll(&mut fresh, reading(0, 1.0, 1.0, 1.0));
    assert!(fresh.gravity.is_none());
}

#[test]
fn the_gyroscope_is_polled_first() {
    let mut w = polling(true);
    assert!(matches!(w.step(ImuEvent::Done), ImuAction::Poll(Sensor::Gyroscope)));
    assert!(matches!(
        w.step(ImuEvent::Read(reading(1, 3000.0, -4000.0, 12000.0))),
        ImuAction::Poll(Sensor::Accelerometer)
    ));
    w.step(ImuEvent::Read(reading(5, 0.0, 1000.0, 0.0)));
    w.step(ImuEvent::Done);
    w.step(ImuEvent::Read(reading(1, 3000.0, -4000.0, 12000.0)));
    let scale = std::f64::consts::PI / 180_000.0;
    let (x, y, z) = (3000.0 * scale, -4000.0 * scale, 12000.0 * scale);
    match w.step(ImuEvent::Read(reading(6, 0.0, 1000.0, 0.0))) {
        ImuAction::Send(data) => assert_eq!(f(data.gyro_rads), (x * x + y * y + z * z).sqrt()),
        _ => panic!("nothing to send"),
    }
}

#[test]
fn a_gyroscope_that_never_answered_counts_as_still() {
    let mut w = polling(true);
    w.step(ImuEvent::Done);
    w.step(ImuEvent::Failed);
    w.step(ImuEvent::Read(reading(5, 0.0, 1000.0, 0.0)));
    w.step(ImuEvent::Done);
    w.step(ImuEvent::Failed);
    match w.step(ImuEvent::Read(reading(6, 0.0, 1000.0, 0.0))) {
        ImuAction::Send(data) => assert_eq!(f(data.gyro_rads), 0.0),
        _ => panic!("nothing to send"),
    }
}

#[test]
fn the_most_recent_turn_rate_outlasts_a_lost_answer() {
    let mut w = polling(true);
    let mut rates = Vec::new();
    for ts in 1..=3 {
        assert!(matches!(w.step(ImuEvent::Done), ImuAction::Poll(Sensor::Gyroscope)));
        let answer = if ts < 3 { ImuEvent::Read(reading(7, 3000.0, 4000.0, 0.0)) } else { ImuEvent::Failed };
        assert!(matches!(w.step(answer), ImuAction::Poll(Sensor::Accelerometer)));
        if let ImuAction::Send(data) = w.step(ImuEvent::Read(reading(ts, 0.0, 0.0, 0.0))) {
            rates.push(f(data.gyro_rads));
            w.step(ImuEvent::Offered(SendOutcome::Sent));
        }
    }
    assert_eq!(rates.len(), 2);
    for rate in rates {
        assert!((rate - std::f64::consts::PI / 36.0).abs() < 1e-9);
    }
    // A new start forgets it.
    w.step(ImuEvent::Done);
    w.step(ImuEvent::Failed);
    w.step(ImuEvent::Read(reading(9, 0.0, 0.0, 0.0)));
    w.step(ImuEvent::Offered(SendOutcome::Closed));
    w.step(ImuEvent::Done);
    assert_eq!(f(w.rate), 0.0);
}

#[test]
fn a_silent_accelerometer_gives_no_sample() {
    let mut w = polling(false);
    w.step(ImuEvent::Done);
    assert!(matches!(w.step(ImuEvent::Failed), ImuAction::Sleep { millis: 80 }));
    assert!(w.gravity.is_none());
}

#[test]
fn failures_start_anew_after_half_a_second() {
    for steps in [0, 1, 3] {
        let (mut w, _) = ImuWatcher::new();
        let setup = [ImuEvent::Done, ImuEvent::Session(1), ImuEvent::Done];
        for event in setup.iter().take(steps) {
            w.step(*event);
        }
        assert!(matches!(w.step(ImuEvent::Failed), ImuAction::Report));
        assert!(matches!(w.step(ImuEvent::Done), ImuAction::Sleep { millis: 500 }));
        assert!(matches!(w.step(ImuEvent::Done), ImuAction::Connect));
    }
}

#[test]
fn a_gyroscope_that_does_not_start_is_done_without() {
    let (mut w, _) = ImuWatcher::new();
    for event in [
        ImuEvent::Done,
        ImuEvent::Session(1),
        ImuEvent::Done,
        ImuEvent::Done,
        ImuEvent::Session(2),
        ImuEvent::Done,
    ] {
        w.step(event);
    }
    assert!(matches!(w.step(ImuEvent::Failed), ImuAction::WarnNoGyroscope));
    w.step(ImuEvent::Done);
    assert!(matches!(w.step(ImuEvent::Done), ImuAction::Poll(Sensor::Accelerometer)));
}

#[test]
fn samples_are_offered_without_waiting() {
    let data = ImuData {
        timestamp_us: 5,
        linear_ms2: d(1.0),
        accel_x_ms2: d(2.0),
        accel_y_ms2: d(3.0),
        accel_z_ms2: d(4.0),
        gyro_rads: d(5.0),
    };
    let (sender, receiver) = async_channel::bounded::<ImuData>(1);
    assert!(offer(&sender, data).is_ok());
    match offer(&sender, data) {
        Err(Refusal::Full(sample)) => assert_eq!((sample.timestamp_us, f(sample.gyro_rads)), (5, 5.0)),
        _ => panic!("the channel was full"),
    }
    let received = receiver.try_recv().unwrap();
    assert_eq!(received.timestamp_us, 5);
    assert_eq!(f(received.accel_z_ms2), 4.0);
    assert!(matches!(answered(Ok(())), ImuEvent::Offered(SendOutcome::Sent)));
    assert!(matches!(answered(Err(Refusal::Full(data))), ImuEvent::Offered(SendOutcome::Full)));
    assert!(matches!(answered(Err(Refusal::Closed(data))), ImuEvent::Offered(SendOutcome::Closed)));
    drop(receiver);
    match offer(&sender, data) {
        Err(Refusal::Closed(sample)) => assert_eq!((sample.timestamp_us, f(sample.gyro_rads)), (5, 5.0)),
        _ => panic!("the channel was closed"),
    }
}

#[test]
fn only_a_closed_window_ends_the_polling() {
    let mut w = polling(false);
    poll(&mut w, reading(1, 0.0, 1000.0, 0.0));
    assert!(matches!(poll(&mut w, reading(2, 0.0, 1000.0, 0.0)), ImuAction::Send(_)));
    assert!(matches!(w.step(ImuEvent::Offered(SendOutcome::Full)), ImuAction::Sleep { millis: 80 }));
    assert!(matches!(poll(&mut w, reading(3, 0.0, 1000.0, 0.0)), ImuAction::Send(_)));
    assert!(matches!(w.step(ImuEvent::Offered(SendOutcome::Closed)), ImuAction::Sleep { millis: 500 }));
    assert!(matches!(w.step(ImuEvent::Done), ImuAction::Connect));
    assert!(w.gravity.is_none());
    assert_eq!(w.last_accel_ts, 0);
}

#[test]
fn the_accelerometer_alone_is_listened_to() {
    let (mut w, first) = AccelWatcher::new();
    assert!(matches!(first, AccelAction::Connect));
    assert!(matches!(w.step(AccelEvent::Done), AccelAction::Request(Sensor::Accelerometer)));
    assert!(matches!(
        w.step(AccelEvent::Session(3)),
        AccelAction::Start { sensor: Sensor::Accelerometer, session: 3 }
    ));
    assert!(matches!(w.step(AccelEvent::Done), AccelAction::Subscribe(Sensor::Accelerometer)));
    assert!(matches!(w.step(AccelEvent::Done), AccelAction::AwaitReading));
    assert!(matches!(w.step(AccelEvent::Read(reading(1, 0.0, 0.0, 1000.0))), AccelAction::AwaitReading));
    let scale = 9.81 / 1000.0;
    let z = 1200.0 * scale;
    let g = 0.926 * (1000.0 * scale) + (1.0 - 0.926) * z;
    let lz: f64 = z - g;
    match w.step(AccelEvent::Read(reading(2, 0.0, 0.0, 1200.0))) {
        AccelAction::Send(data) => {
            assert_eq!(data.timestamp_us, 2);
            assert_eq!(f(data.linear_ms2), (lz * lz).sqrt());
            assert!(f(data.linear_ms2) >= 0.0);
        }
        _ => panic!("nothing to send"),
    }
    assert!(matches!(w.step(AccelEvent::Done), AccelAction::AwaitReading));
    // The same timestamp counts here.
    assert!(matches!(w.step(AccelEvent::Read(reading(2, 0.0, 0.0, 1200.0))), AccelAction::Send(_)));
    w.step(AccelEvent::Done);
    assert!(matches!(w.step(AccelEvent::Failed), AccelAction::Report));
    assert!(matches!(w.step(AccelEvent::Done), AccelAction::Sleep { millis: 3000 }));
    assert!(matches!(w.step(AccelEvent::Done), AccelAction::Connect));
    assert!(w.gravity.is_none());
}

#[test]
fn the_last_reading_is_no_error() {
    let (mut w, _) = AccelWatcher::new();
    for event in [AccelEvent::Done, AccelEvent::Session(3), AccelEvent::Done, AccelEvent::Done] {
        w.step(event);
    }
    assert!(matches!(w.step(AccelEvent::Ended), AccelAction::Sleep { millis: 3000 }));
}

#[test]
fn readings_are_selected_by_a_rule() {
    assert_eq!(
        reading_rule(Sensor::Accelerometer).unwrap(),
        "type='signal',sender='com.nokia.SensorService',interface='local.AccelerometerSensor',\
         member='dataAvailable',path='/SensorManager/accelerometersensor'"
    );
    let text = reading_rule(Sensor::Gyroscope).unwrap();
    let rule = zbus::MatchRule::try_from(text.as_str()).unwrap();
    assert_eq!(rule.member().unwrap().as_str(), "dataAvailable");
    assert_eq!(rule.interface().unwrap().as_str(), "local.GyroscopeSensor");
    assert_eq!(rule.sender().unwrap().as_str(), "com.nokia.SensorService");
}

#[test]
fn sensors_have_their_places_on_the_bus() {
    assert_eq!(Sensor::Accelerometer.name(), "accelerometersensor");
    assert_eq!(Sensor::Gyroscope.name(), "gyroscopesensor");
    assert_eq!(Sensor::Accelerometer.path(), "/SensorManager/accelerometersensor");
    assert_eq!(Sensor::Gyroscope.path(), "/SensorManager/gyroscopesensor");
    assert_eq!(Sensor::Accelerometer.interface(), "local.AccelerometerSensor");
    assert_eq!(Sensor::Gyroscope.interface(), "local.GyroscopeSensor");
}

#[test]
fn the_screen_is_kept_on_once() {
    let mut app = SpeedometerApplication::new();
    let request = app.activate().unwrap();
    assert!(request.suspend && request.idle);
    app.inhibited(17);
    for _ in 0..3 {
        assert!(app.activate().is_none());
        assert_eq!(app.inhibit_cookie, 17);
    }
    assert_eq!(app.shutdown(), Some(17));
    assert_eq!(app.inhibit_cookie, 0);
    assert_eq!(app.shutdown(), None);
    assert!(app.activate().is_some());
}

#[test]
fn a_refused_request_is_made_again() {
    let mut app = SpeedometerApplication::new();
    app.inhibited(0);
    assert!(app.activate().is_some());
    assert_eq!(app.shutdown(), None);
}

/// What an accelerometer thread sends for readings of the given sign.
fn sent(sign: f64) -> Vec<(u64, u64)> {
    let (mut w, _) = AccelWatcher::new();
    for event in [AccelEvent::Done, AccelEvent::Session(3), AccelEvent::Done, AccelEvent::Done] {
        w.step(event);
    }
    let mut out = Vec::new();
    for i in 0..200 {
        let x = sign * (i as f64 * 13.7 - 900.0);
        let r = reading(i, x, sign * 1000.0, sign * (i % 7) as f64);
        if let AccelAction::Send(data) = w.step(AccelEvent::Read(r)) {
            out.push((data.timestamp_us, data.linear_ms2.to_bits()));
            w.step(AccelEvent::Done);
        }
    }
    out
}

#[test]
fn opposite_readings_are_reported_alike() {
    assert_eq!(sent(1.0).len(), 199);
    assert_eq!(sent(1.0), sent(-1.0));
}

#[test]
fn extreme_readings_have_a_magnitude() {
    let mut w = polling(true);
    for ts in 1..50 {
        let x = if ts % 2 == 0 { f64::MAX } else { f64::MIN };
        w.step(ImuEvent::Done);
        w.step(ImuEvent::Read(reading(ts, x, x, x)));
        if let ImuAction::Send(data) = w.step(ImuEvent::Read(reading(ts, x, -x, x))) {
            assert!(f(data.linear_ms2) >= 0.0);
            assert!(f(data.gyro_rads) >= 0.0);
            w.step(ImuEvent::Offered(SendOutcome::Sent));
        }
    }
}
