//! Watching the accelerometer alone, by the signal that carries its readings.
use crate::double::number::Double;
use crate::sensor::{Reading, Sensor, Vector, DATA_SIGNAL, SERVICE};
use vstd::prelude::*;

verus! {

/// Processed accelerometer update forwarded to the window.
#[derive(Clone, Copy, Debug)]
pub struct AccelData {
    /// Sensor timestamp in microseconds.
    pub timestamp_us: u64,
    /// Magnitude of linear acceleration in m/s² after gravity removal.
    pub linear_ms2: Double,
}

/// The part of the gravity estimate that one step keeps. It gives a time
/// constant of about a second at the usual sample interval.
pub open spec fn gravity_share() -> Double {
    Double::ratio(926, 1000)
}

/// What the accelerometer thread has to do next.
#[derive(Clone, Copy, Debug)]
pub enum AccelAction {
    Connect,
    /// Request a session for the sensor.
    Request(Sensor),
    Start { sensor: Sensor, session: i32 },
    /// Listen for the readings of the sensor.
    Subscribe(Sensor),
    AwaitReading,
    Send(AccelData),
    /// Report the error that the last action ended with.
    Report,
    Sleep { millis: u64 },
}

/// How the last action ended.
#[derive(Clone, Copy, Debug)]
pub enum AccelEvent {
    Done,
    Failed,
    Session(i32),
    Read(Reading),
    /// There will be no more readings.
    Ended,
}

#[derive(Clone, Copy, Debug)]
pub enum AccelPhase {
    Connecting,
    Requesting,
    Starting,
    Subscribing,
    Listening,
    Sending,
    Reporting,
    Pausing,
}

/// The course of the accelerometer thread.
#[derive(Clone, Copy, Debug)]
pub struct AccelWatcher {
    pub phase: AccelPhase,
    /// The estimate of gravity, once there has been a reading.
    pub gravity: Option<Vector>,
}

impl AccelWatcher {
    pub open spec fn start() -> AccelWatcher {
        AccelWatcher { phase: AccelPhase::Connecting, gravity: None }
    }

    pub open spec fn at(self, phase: AccelPhase) -> AccelWatcher {
        AccelWatcher { phase, gravity: self.gravity }
    }

    /// The first reading only sets the estimate of gravity. Every further one
    /// moves the estimate and leaves the rest as linear acceleration.
    pub open spec fn after_reading(self, reading: Reading) -> (AccelWatcher, AccelAction) {
        let total = reading.acceleration();
        match self.gravity {
            None => (
                AccelWatcher { phase: AccelPhase::Listening, gravity: Some(total) },
                AccelAction::AwaitReading,
            ),
            Some(old) => {
                let gravity = old.low_pass(gravity_share(), total);
                (
                    AccelWatcher { phase: AccelPhase::Sending, gravity: Some(gravity) },
                    AccelAction::Send(
                        AccelData {
                            timestamp_us: reading.timestamp_us,
                            linear_ms2: total.without(gravity).norm(),
                        },
                    ),
                )
            },
        }
    }

    /// Where an event leads, and what is to be done there. An error is reported,
    /// and after it, or after the last reading, all starts again in three seconds.
    pub open spec fn next(self, event: AccelEvent) -> (AccelWatcher, AccelAction) {
        let failure = (self.at(AccelPhase::Reporting), AccelAction::Report);
        let pause = (self.at(AccelPhase::Pausing), AccelAction::Sleep { millis: 3000 });
        match self.phase {
            AccelPhase::Connecting => match event {
                AccelEvent::Done => (
                    self.at(AccelPhase::Requesting),
                    AccelAction::Request(Sensor::Accelerometer),
                ),
                _ => failure,
            },
            AccelPhase::Requesting => match event {
                AccelEvent::Session(session) => (
                    self.at(AccelPhase::Starting),
                    AccelAction::Start { sensor: Sensor::Accelerometer, session },
                ),
                _ => failure,
            },
            AccelPhase::Starting => match event {
                AccelEvent::Done => (
                    self.at(AccelPhase::Subscribing),
                    AccelAction::Subscribe(Sensor::Accelerometer),
                ),
                _ => failure,
            },
            AccelPhase::Subscribing => match event {
                AccelEvent::Done => (self.at(AccelPhase::Listening), AccelAction::AwaitReading),
                _ => failure,
            },
            AccelPhase::Listening => match event {
                AccelEvent::Read(reading) => self.after_reading(reading),
                AccelEvent::Ended => pause,
                _ => failure,
            },
            AccelPhase::Sending => (self.at(AccelPhase::Listening), AccelAction::AwaitReading),
            AccelPhase::Reporting => pause,
            AccelPhase::Pausing => (AccelWatcher::start(), AccelAction::Connect),
        }
    }

    /// The thread starts by connecting to the bus.
    pub fn new() -> (r: (AccelWatcher, AccelAction))
        ensures
            r.0 == AccelWatcher::start(),
            r.1 == AccelAction::Connect,
    {
        (AccelWatcher { phase: AccelPhase::Connecting, gravity: None }, AccelAction::Connect)
    }

    fn enter(&mut self, phase: AccelPhase, action: AccelAction) -> (r: AccelAction)
        ensures
            *final(self) == old(self).at(phase),
            r == action,
    {
        self.phase = phase;
        action
    }

    fn on_reading(&mut self, reading: Reading) -> (action: AccelAction)
        ensures
            (*final(self), action) == old(self).after_reading(reading),
    {
        let total: Vector = reading.acceleration();
        match self.gravity {
            None => {
                self.gravity = Some(total);
                self.phase = AccelPhase::Listening;
                AccelAction::AwaitReading
            },
            Some(old_gravity) => {
                let gravity: Vector = old_gravity.low_pass(Double::ratio(926, 1000), total);
                self.gravity = Some(gravity);
                self.phase = AccelPhase::Sending;
                AccelAction::Send(
                    AccelData {
                        timestamp_us: reading.timestamp_us,
                        linear_ms2: total.without(gravity).norm(),
                    },
                )
            },
        }
    }

    /// Takes in how the last action ended and says what to do next.
    pub fn step(&mut self, event: AccelEvent) -> (action: AccelAction)
        ensures
            (*final(self), action) == old(self).next(event),
    {
        match (self.phase, event) {
            (AccelPhase::Connecting, AccelEvent::Done) => self.enter(
                AccelPhase::Requesting,
                AccelAction::Request(Sensor::Accelerometer),
            ),
            (AccelPhase::Requesting, AccelEvent::Session(session)) => self.enter(
                AccelPhase::Starting,
                AccelAction::Start { sensor: Sensor::Accelerometer, session },
            ),
            (AccelPhase::Starting, AccelEvent::Done) => self.enter(
                AccelPhase::Subscribing,
                AccelAction::Subscribe(Sensor::Accelerometer),
            ),
            (AccelPhase::Subscribing, AccelEvent::Done) => self.enter(
                AccelPhase::Listening,
                AccelAction::AwaitReading,
            ),
            (AccelPhase::Listening, AccelEvent::Read(reading)) => self.on_reading(reading),
            (AccelPhase::Listening, AccelEvent::Ended) => self.enter(
                AccelPhase::Pausing,
                AccelAction::Sleep { millis: 3000 },
            ),
            (AccelPhase::Sending, _) => self.enter(AccelPhase::Listening, AccelAction::AwaitReading),
            (AccelPhase::Reporting, _) => self.enter(
                AccelPhase::Pausing,
                AccelAction::Sleep { millis: 3000 },
            ),
            (AccelPhase::Pausing, _) => {
                self.gravity = None;
                self.enter(AccelPhase::Connecting, AccelAction::Connect)
            },
            _ => self.enter(AccelPhase::Reporting, AccelAction::Report),
        }
    }
}

/// The text of a rule that matches one signal of one object.
pub open spec fn rule_text(
    sender: Seq<char>,
    path: Seq<char>,
    interface: Seq<char>,
    member: Seq<char>,
) -> Seq<char> {
    "type='signal',sender='"@ + sender + "',interface='"@ + interface + "',member='"@ + member + "',path='"@ + path
        + "'"@
}

/// Whether the bus library takes these as a bus name, an object path, an
/// interface name and a member name.
pub uninterp spec fn names_accepted(sender: Seq<char>, path: Seq<char>, interface: Seq<char>, member: Seq<char>) -> bool;

/// An error of the bus library.
#[verifier::external_type_specification]
#[verifier::external_body]
pub struct ExBusError(zbus::Error);

/// `zbus::MatchRule::builder` with a message type, a sender, a path, an
/// interface and a member, and the rule written out by its `Display`. The
/// builder checks each name and fails on an invalid one; which names are valid
/// depends on nothing else. The text lists what was set in a fixed order, each
/// value as it was given, in single quotes.
#[verifier::external_body]
fn signal_rule(sender: &str, path: &str, interface: &str, member: &str) -> (r: Result<String, zbus::Error>)
    ensures
        r is Ok <==> names_accepted(sender@, path@, interface@, member@),
        r matches Ok(text) ==> text@ == rule_text(sender@, path@, interface@, member@),
{
    Ok(zbus::MatchRule::builder()
        .msg_type(zbus::message::Type::Signal)
        .sender(sender)?
        .path(path)?
        .interface(interface)?
        .member(member)?
        .build()
        .to_string())
}

/// There is no rule: the bus library refuses one of its names.
#[derive(Debug)]
pub struct RuleError {
    /// What the bus library says about it.
    pub cause: zbus::Error,
}

/// The text of the rule that selects the readings of a sensor.
pub open spec fn reading_rule_text(sensor: Sensor) -> Seq<char> {
    rule_text(SERVICE@, sensor.object()@, sensor.face()@, DATA_SIGNAL@)
}

/// The rule that selects the readings of a sensor.
pub fn reading_rule(sensor: Sensor) -> (r: Result<String, RuleError>)
    ensures
        r is Ok <==> names_accepted(SERVICE@, sensor.object()@, sensor.face()@, DATA_SIGNAL@),
        r matches Ok(text) ==> text@ == rule_text(SERVICE@, sensor.object()@, sensor.face()@, DATA_SIGNAL@),
        r matches Ok(text) ==> text@ == reading_rule_text(sensor),
{
    match signal_rule(SERVICE, sensor.path(), sensor.interface(), DATA_SIGNAL) {
        Ok(text) => Ok(text),
        Err(cause) => Err(RuleError { cause }),
    }
}

} // verus!
