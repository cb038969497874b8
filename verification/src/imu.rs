//! Watching the accelerometer and the gyroscope together, by polling.
use crate::double::number::Double;
use crate::sensor::{Reading, Sensor, Vector};
use vstd::prelude::*;

verus! {

/// Combined update forwarded to the window on every accelerometer sample.
#[derive(Clone, Copy, Debug)]
pub struct ImuData {
    /// Sensor timestamp in microseconds.
    pub timestamp_us: u64,
    /// Magnitude of linear acceleration in m/s² after gravity removal.
    pub linear_ms2: Double,
    /// X component of linear acceleration in m/s² (gravity removed).
    /// Phone mounted upright: lateral (right = positive).
    pub accel_x_ms2: Double,
    /// Y component of linear acceleration in m/s² (gravity removed).
    /// Phone mounted upright: vertical axis.
    pub accel_y_ms2: Double,
    /// Z component of linear acceleration in m/s² (gravity removed).
    /// Phone mounted upright: longitudinal (forward = positive).
    pub accel_z_ms2: Double,
    /// Total angular velocity in rad/s from the most recent gyroscope sample,
    /// zero where there has been none.
    /// Used to suppress accel integration during cornering.
    pub gyro_rads: Double,
}

/// How long to wait between two polls. It matches the rate of the sensor.
pub const POLL_MS: u64 = 80;

/// The interval that is asked of the sensors.
pub const INTERVAL_MS: i32 = 80;

/// How long to wait before starting anew.
pub const RETRY_MS: u64 = 500;

/// The part of the gravity estimate that one step keeps. It gives a time
/// constant of about eight seconds at the poll interval.
pub open spec fn gravity_share() -> Double {
    Double::ratio(990, 1000)
}

/// What became of a sample that was offered to the window.
#[derive(Clone, Copy, Debug, PartialEq, Eq, Structural)]
pub enum SendOutcome {
    Sent,
    /// The window is busy: the sample is dropped.
    Full,
    /// The window is gone.
    Closed,
}

/// What the sensor thread has to do next.
#[derive(Clone, Copy, Debug)]
pub enum ImuAction {
    Connect,
    /// Request a session for the sensor.
    Request(Sensor),
    SetInterval { sensor: Sensor, session: i32, interval_ms: i32 },
    Start { sensor: Sensor, session: i32 },
    /// Tell that corners cannot be recognised.
    WarnNoGyroscope,
    Sleep { millis: u64 },
    Poll(Sensor),
    Send(ImuData),
    /// Report the error that the last action ended with.
    Report,
}

/// How the last action ended.
#[derive(Clone, Copy, Debug)]
pub enum ImuEvent {
    Done,
    Failed,
    Session(i32),
    Read(Reading),
    Offered(SendOutcome),
}

#[derive(Clone, Copy, Debug)]
pub enum ImuPhase {
    Connecting,
    RequestingAccel,
    TuningAccel(i32),
    StartingAccel,
    RequestingGyro,
    TuningGyro(i32),
    StartingGyro,
    Warning,
    Waiting,
    PollingGyro,
    /// With the rate of turning that goes with the sample.
    PollingAccel(Double),
    Sending,
    Reporting,
    Pausing,
}

/// The course of the sensor thread.
#[derive(Clone, Copy, Debug)]
pub struct ImuWatcher {
    pub phase: ImuPhase,
    pub has_gyro: bool,
    /// The estimate of gravity, once there has been a reading.
    pub gravity: Option<Vector>,
    pub last_accel_ts: u64,
    /// The rate of turning at the most recent gyroscope sample in rad/s; zero
    /// before the first one.
    pub rate: Double,
}

impl ImuWatcher {
    pub open spec fn start() -> ImuWatcher {
        ImuWatcher {
            phase: ImuPhase::Connecting,
            has_gyro: false,
            gravity: None,
            last_accel_ts: 0,
            rate: Double::ratio(0, 1),
        }
    }

    pub open spec fn at(self, phase: ImuPhase) -> ImuWatcher {
        ImuWatcher { phase, ..self }
    }

    pub open spec fn wait(self) -> (ImuWatcher, ImuAction) {
        (self.at(ImuPhase::Waiting), ImuAction::Sleep { millis: POLL_MS })
    }

    /// A reading with the timestamp of the one before is passed over. The first
    /// other one only sets the estimate of gravity. Every further one moves the
    /// estimate, and what is left of the reading is forwarded.
    pub open spec fn after_reading(self, gyro_rads: Double, reading: Reading) -> (ImuWatcher, ImuAction) {
        if reading.timestamp_us == self.last_accel_ts {
            self.wait()
        } else {
            let total = reading.acceleration();
            let seen = ImuWatcher { last_accel_ts: reading.timestamp_us, ..self };
            match self.gravity {
                None => ImuWatcher { gravity: Some(total), ..seen }.wait(),
                Some(old) => {
                    let gravity = old.low_pass(gravity_share(), total);
                    let linear = total.without(gravity);
                    (
                        ImuWatcher { gravity: Some(gravity), ..seen }.at(ImuPhase::Sending),
                        ImuAction::Send(
                            ImuData {
                                timestamp_us: reading.timestamp_us,
                                linear_ms2: linear.norm(),
                                accel_x_ms2: linear.x,
                                accel_y_ms2: linear.y,
                                accel_z_ms2: linear.z,
                                gyro_rads,
                            },
                        ),
                    )
                },
            }
        }
    }

    /// Where an event leads while the sensors are being set up. The
    /// accelerometer must start; the gyroscope is done without where it does
    /// not. That an interval is refused does not matter.
    pub open spec fn next_setup(self, event: ImuEvent) -> (ImuWatcher, ImuAction) {
        let failure = (self.at(ImuPhase::Reporting), ImuAction::Report);
        let no_gyro = (self.at(ImuPhase::Warning), ImuAction::WarnNoGyroscope);
        match self.phase {
            ImuPhase::Connecting => match event {
                ImuEvent::Done => (
                    self.at(ImuPhase::RequestingAccel),
                    ImuAction::Request(Sensor::Accelerometer),
                ),
                _ => failure,
            },
            ImuPhase::RequestingAccel => match event {
                ImuEvent::Session(session) => (
                    self.at(ImuPhase::TuningAccel(session)),
                    ImuAction::SetInterval { sensor: Sensor::Accelerometer, session, interval_ms: INTERVAL_MS },
                ),
                _ => failure,
            },
            ImuPhase::TuningAccel(session) => (
                self.at(ImuPhase::StartingAccel),
                ImuAction::Start { sensor: Sensor::Accelerometer, session },
            ),
            ImuPhase::StartingAccel => match event {
                ImuEvent::Done => (self.at(ImuPhase::RequestingGyro), ImuAction::Request(Sensor::Gyroscope)),
                _ => failure,
            },
            ImuPhase::RequestingGyro => match event {
                ImuEvent::Session(session) => (
                    self.at(ImuPhase::TuningGyro(session)),
                    ImuAction::SetInterval { sensor: Sensor::Gyroscope, session, interval_ms: INTERVAL_MS },
                ),
                _ => no_gyro,
            },
            ImuPhase::TuningGyro(session) => (
                self.at(ImuPhase::StartingGyro),
                ImuAction::Start { sensor: Sensor::Gyroscope, session },
            ),
            ImuPhase::StartingGyro => match event {
                ImuEvent::Done => ImuWatcher { has_gyro: true, ..self }.wait(),
                _ => no_gyro,
            },
            _ => self.wait(),
        }
    }

    /// Where an event leads. While polling, a sensor that does not answer is
    /// passed over: of the gyroscope the most recent sample stays in force, and
    /// without an answer of the accelerometer there is no sample. Without a
    /// gyroscope, and before its first sample, the rate of turning is zero. A
    /// sample that the window has no room for is dropped. An error, or the end
    /// of the window, leads to a new start after half a second.
    pub open spec fn next(self, event: ImuEvent) -> (ImuWatcher, ImuAction) {
        let pause = (self.at(ImuPhase::Pausing), ImuAction::Sleep { millis: RETRY_MS });
        match self.phase {
            ImuPhase::Waiting => if self.has_gyro {
                (self.at(ImuPhase::PollingGyro), ImuAction::Poll(Sensor::Gyroscope))
            } else {
                (
                    self.at(ImuPhase::PollingAccel(Double::ratio(0, 1))),
                    ImuAction::Poll(Sensor::Accelerometer),
                )
            },
            ImuPhase::PollingGyro => {
                let rate = match event {
                    ImuEvent::Read(reading) => reading.turn_rate(),
                    _ => self.rate,
                };
                (
                    ImuWatcher { phase: ImuPhase::PollingAccel(rate), rate, ..self },
                    ImuAction::Poll(Sensor::Accelerometer),
                )
            },
            ImuPhase::PollingAccel(rate) => match event {
                ImuEvent::Read(reading) => self.after_reading(rate, reading),
                _ => self.wait(),
            },
            ImuPhase::Sending => match event {
                ImuEvent::Offered(SendOutcome::Closed) => pause,
                _ => self.wait(),
            },
            ImuPhase::Reporting => pause,
            ImuPhase::Pausing => (ImuWatcher::start(), ImuAction::Connect),
            _ => self.next_setup(event),
        }
    }

    /// The thread starts by connecting to the bus.
    pub fn new() -> (r: (ImuWatcher, ImuAction))
        ensures
            r.0 == ImuWatcher::start(),
            r.1 == ImuAction::Connect,
    {
        (
            ImuWatcher {
                phase: ImuPhase::Connecting,
                has_gyro: false,
                gravity: None,
                last_accel_ts: 0,
                rate: Double::ratio(0, 1),
            },
            ImuAction::Connect,
        )
    }

    fn enter(&mut self, phase: ImuPhase, action: ImuAction) -> (r: ImuAction)
        ensures
            *final(self) == old(self).at(phase),
            r == action,
    {
        self.phase = phase;
        action
    }

    fn enter_wait(&mut self) -> (r: ImuAction)
        ensures
            (*final(self), r) == old(self).wait(),
    {
        self.enter(ImuPhase::Waiting, ImuAction::Sleep { millis: POLL_MS })
    }

    fn on_reading(&mut self, gyro_rads: Double, reading: Reading) -> (action: ImuAction)
        ensures
            (*final(self), action) == old(self).after_reading(gyro_rads, reading),
    {
        if reading.timestamp_us == self.last_accel_ts {
            return self.enter_wait();
        }
        self.last_accel_ts = reading.timestamp_us;
        let total: Vector = reading.acceleration();
        match self.gravity {
            None => {
                self.gravity = Some(total);
                self.enter_wait()
            },
            Some(old_gravity) => {
                let gravity: Vector = old_gravity.low_pass(Double::ratio(990, 1000), total);
                let linear: Vector = total.without(gravity);
                self.gravity = Some(gravity);
                self.enter(
                    ImuPhase::Sending,
                    ImuAction::Send(
                        ImuData {
                            timestamp_us: reading.timestamp_us,
                            linear_ms2: linear.norm(),
                            accel_x_ms2: linear.x,
                            accel_y_ms2: linear.y,
                            accel_z_ms2: linear.z,
                            gyro_rads,
                        },
                    ),
                )
            },
        }
    }

    fn step_setup(&mut self, event: ImuEvent) -> (action: ImuAction)
        ensures
            (*final(self), action) == old(self).next_setup(event),
    {
        match (self.phase, event) {
            (ImuPhase::Connecting, ImuEvent::Done) => self.enter(
                ImuPhase::RequestingAccel,
                ImuAction::Request(Sensor::Accelerometer),
            ),
            (ImuPhase::RequestingAccel, ImuEvent::Session(session)) => self.enter(
                ImuPhase::TuningAccel(session),
                ImuAction::SetInterval { sensor: Sensor::Accelerometer, session, interval_ms: INTERVAL_MS },
            ),
            (ImuPhase::TuningAccel(session), _) => self.enter(
                ImuPhase::StartingAccel,
                ImuAction::Start { sensor: Sensor::Accelerometer, session },
            ),
            (ImuPhase::StartingAccel, ImuEvent::Done) => self.enter(
                ImuPhase::RequestingGyro,
                ImuAction::Request(Sensor::Gyroscope),
            ),
            (ImuPhase::RequestingGyro, ImuEvent::Session(session)) => self.enter(
                ImuPhase::TuningGyro(session),
                ImuAction::SetInterval { sensor: Sensor::Gyroscope, session, interval_ms: INTERVAL_MS },
            ),
            (ImuPhase::TuningGyro(session), _) => self.enter(
                ImuPhase::StartingGyro,
                ImuAction::Start { sensor: Sensor::Gyroscope, session },
            ),
            (ImuPhase::StartingGyro, ImuEvent::Done) => {
                self.has_gyro = true;
                self.enter_wait()
            },
            (ImuPhase::RequestingGyro, _) => self.enter(ImuPhase::Warning, ImuAction::WarnNoGyroscope),
            (ImuPhase::StartingGyro, _) => self.enter(ImuPhase::Warning, ImuAction::WarnNoGyroscope),
            (ImuPhase::Connecting, _) => self.enter(ImuPhase::Reporting, ImuAction::Report),
            (ImuPhase::RequestingAccel, _) => self.enter(ImuPhase::Reporting, ImuAction::Report),
            (ImuPhase::StartingAccel, _) => self.enter(ImuPhase::Reporting, ImuAction::Report),
            _ => self.enter_wait(),
        }
    }

    /// Takes in how the last action ended and says what to do next.
    pub fn step(&mut self, event: ImuEvent) -> (action: ImuAction)
        ensures
            (*final(self), action) == old(self).next(event),
    {
        match self.phase {
            ImuPhase::Waiting => {
                if self.has_gyro {
                    self.enter(ImuPhase::PollingGyro, ImuAction::Poll(Sensor::Gyroscope))
                } else {
                    self.enter(
                        ImuPhase::PollingAccel(Double::ratio(0, 1)),
                        ImuAction::Poll(Sensor::Accelerometer),
                    )
                }
            },
            ImuPhase::PollingGyro => {
                let rate: Double = match event {
                    ImuEvent::Read(reading) => reading.turn_rate(),
                    _ => self.rate,
                };
                self.rate = rate;
                self.enter(ImuPhase::PollingAccel(rate), ImuAction::Poll(Sensor::Accelerometer))
            },
            ImuPhase::PollingAccel(rate) => match event {
                ImuEvent::Read(reading) => self.on_reading(rate, reading),
                _ => self.enter_wait(),
            },
            ImuPhase::Sending => match event {
                ImuEvent::Offered(SendOutcome::Closed) => self.enter(
                    ImuPhase::Pausing,
                    ImuAction::Sleep { millis: RETRY_MS },
                ),
                _ => self.enter_wait(),
            },
            ImuPhase::Reporting => self.enter(ImuPhase::Pausing, ImuAction::Sleep { millis: RETRY_MS }),
            ImuPhase::Pausing => {
                let (fresh, action): (ImuWatcher, ImuAction) = ImuWatcher::new();
                *self = fresh;
                action
            },
            _ => self.step_setup(event),
        }
    }
}

/// The sending half of a channel.
#[verifier::external_type_specification]
#[verifier::external_body]
#[verifier::reject_recursive_types(T)]
pub struct ExSender<T>(async_channel::Sender<T>);

/// A sample that the channel did not take.
#[derive(Clone, Copy, Debug)]
pub enum Refusal {
    Full(ImuData),
    Closed(ImuData),
}

impl Refusal {
    pub open spec fn sample(self) -> ImuData {
        match self {
            Refusal::Full(data) => data,
            Refusal::Closed(data) => data,
        }
    }
}

/// `async_channel::Sender::try_send`: a sample that is not taken comes back as
/// it was given. Whether it is taken depends on the room in the channel and on
/// the receiver at that moment, so nothing is said of it here.
#[verifier::external_body]
fn try_send(sender: &async_channel::Sender<ImuData>, data: ImuData) -> (r: Result<(), Refusal>)
    ensures
        r matches Err(refusal) ==> refusal.sample() == data,
{
    match sender.try_send(data) {
        Ok(()) => Ok(()),
        Err(async_channel::TrySendError::Full(sample)) => Err(Refusal::Full(sample)),
        Err(async_channel::TrySendError::Closed(sample)) => Err(Refusal::Closed(sample)),
    }
}

/// What an answer of the channel means for the thread.
pub open spec fn outcome_of(answer: Result<(), Refusal>) -> SendOutcome {
    match answer {
        Ok(_) => SendOutcome::Sent,
        Err(Refusal::Full(_)) => SendOutcome::Full,
        Err(Refusal::Closed(_)) => SendOutcome::Closed,
    }
}

/// Takes in what the channel answered to a sample.
pub fn answered(answer: Result<(), Refusal>) -> (event: ImuEvent)
    ensures
        event == ImuEvent::Offered(outcome_of(answer)),
{
    match answer {
        Ok(_) => ImuEvent::Offered(SendOutcome::Sent),
        Err(Refusal::Full(_)) => ImuEvent::Offered(SendOutcome::Full),
        Err(Refusal::Closed(_)) => ImuEvent::Offered(SendOutcome::Closed),
    }
}

/// Offers a sample to the window without waiting. A sample that is not taken
/// comes back; whether it is taken is up to the channel.
pub fn offer(sender: &async_channel::Sender<ImuData>, data: ImuData) -> (answer: Result<(), Refusal>)
    ensures
        answer matches Err(refusal) ==> refusal.sample() == data,
{
    try_send(sender, data)
}

} // verus!
