//! Watching the position: what the location portal reports, and in which order
//! it is asked.
use crate::double::number::Double;
use vstd::prelude::*;

verus! {

/// What one update of the portal holds. Speed, altitude and heading may be unknown.
#[derive(Clone, Copy, Debug)]
pub struct Fix {
    /// In metres per second.
    pub speed: Option<Double>,
    /// In metres above sea level.
    pub altitude: Option<Double>,
    /// In metres.
    pub accuracy: Double,
    /// In degrees.
    pub latitude: Double,
    /// In degrees.
    pub longitude: Double,
    /// In degrees, clockwise from north.
    pub heading: Option<Double>,
}

/// Data sent from the thread that watches the position to the window.
#[derive(Clone, Copy, Debug)]
pub struct LocationData {
    /// Current speed in km/h (zero when it is unavailable).
    pub speed_kmh: Double,
    /// Altitude in metres above sea level (zero when unavailable).
    pub altitude_m: Double,
    /// Radius of the uncertainty in metres.
    pub accuracy_m: Double,
    /// True once the portal has delivered at least one valid location fix.
    pub has_fix: bool,
    /// In degrees.
    pub latitude: Double,
    /// In degrees.
    pub longitude: Double,
    /// Course over ground in degrees, where known.
    pub heading_deg: Option<Double>,
}

/// What the location thread has to do next.
#[derive(Clone, Copy, Debug)]
pub enum LocationAction {
    OpenPortal,
    /// Create a session for exact positions with these thresholds.
    CreateSession { distance_m: u32, time_s: u32 },
    /// Listen for updates. This comes before the session starts, so that the
    /// first update is not missed.
    Subscribe,
    Start,
    AwaitUpdate,
    Send(LocationData),
    /// Report the error that the last action ended with.
    Report,
    Stop,
}

/// How the last action ended.
#[derive(Clone, Copy, Debug)]
pub enum LocationEvent {
    Done,
    Failed,
    Updated(Fix),
    /// There will be no more updates.
    Ended,
}

#[derive(Clone, Copy, Debug)]
pub enum LocationPhase {
    Opening,
    Creating,
    Subscribing,
    Starting,
    Listening,
    Sending,
    Reporting,
    Stopped,
}

/// The course of the location thread.
#[derive(Clone, Copy, Debug)]
pub struct LocationWatcher {
    pub phase: LocationPhase,
}

impl LocationData {
    /// An unknown speed or altitude counts as zero, and so does a negative speed.
    pub open spec fn of(fix: Fix) -> LocationData {
        let zero = Double::ratio(0, 1);
        LocationData {
            speed_kmh: (match fix.speed {
                Some(v) => v,
                None => zero,
            }).max(zero) * Double::ratio(36, 10),
            altitude_m: match fix.altitude {
                Some(v) => v,
                None => zero,
            },
            accuracy_m: fix.accuracy,
            has_fix: true,
            latitude: fix.latitude,
            longitude: fix.longitude,
            heading_deg: fix.heading,
        }
    }

    /// What the window is told of an update.
    #[verifier::when_used_as_spec(of)]
    pub fn from_fix(fix: Fix) -> (r: LocationData)
        ensures
            r == LocationData::of(fix),
    {
        let zero: Double = Double::ratio(0, 1);
        let speed: Double = match fix.speed {
            Some(v) => v,
            None => zero,
        };
        let altitude: Double = match fix.altitude {
            Some(v) => v,
            None => zero,
        };
        LocationData {
            speed_kmh: speed.max(zero) * Double::ratio(36, 10),
            altitude_m: altitude,
            accuracy_m: fix.accuracy,
            has_fix: true,
            latitude: fix.latitude,
            longitude: fix.longitude,
            heading_deg: fix.heading,
        }
    }
}

impl LocationWatcher {
    /// Where an event leads, and what is to be done there. Every step before
    /// the updates must succeed; an error is reported and ends the thread.
    pub open spec fn next(self, event: LocationEvent) -> (LocationPhase, LocationAction) {
        match self.phase {
            LocationPhase::Opening => match event {
                LocationEvent::Done => (
                    LocationPhase::Creating,
                    LocationAction::CreateSession { distance_m: 0, time_s: 1 },
                ),
                _ => (LocationPhase::Reporting, LocationAction::Report),
            },
            LocationPhase::Creating => match event {
                LocationEvent::Done => (LocationPhase::Subscribing, LocationAction::Subscribe),
                _ => (LocationPhase::Reporting, LocationAction::Report),
            },
            LocationPhase::Subscribing => match event {
                LocationEvent::Done => (LocationPhase::Starting, LocationAction::Start),
                _ => (LocationPhase::Reporting, LocationAction::Report),
            },
            LocationPhase::Starting => match event {
                LocationEvent::Done => (LocationPhase::Listening, LocationAction::AwaitUpdate),
                _ => (LocationPhase::Reporting, LocationAction::Report),
            },
            LocationPhase::Listening => match event {
                LocationEvent::Updated(fix) => (
                    LocationPhase::Sending,
                    LocationAction::Send(LocationData::from_fix(fix)),
                ),
                _ => (LocationPhase::Stopped, LocationAction::Stop),
            },
            LocationPhase::Sending => (LocationPhase::Listening, LocationAction::AwaitUpdate),
            LocationPhase::Reporting => (LocationPhase::Stopped, LocationAction::Stop),
            LocationPhase::Stopped => (LocationPhase::Stopped, LocationAction::Stop),
        }
    }

    /// The thread starts by opening the portal.
    pub fn new() -> (r: (LocationWatcher, LocationAction))
        ensures
            r.0.phase == LocationPhase::Opening,
            r.1 == LocationAction::OpenPortal,
    {
        (LocationWatcher { phase: LocationPhase::Opening }, LocationAction::OpenPortal)
    }

    /// Takes in how the last action ended and says what to do next.
    pub fn step(&mut self, event: LocationEvent) -> (action: LocationAction)
        ensures
            (final(self).phase, action) == old(self).next(event),
    {
        let (phase, action): (LocationPhase, LocationAction) = match self.phase {
            LocationPhase::Opening => match event {
                LocationEvent::Done => (
                    LocationPhase::Creating,
                    LocationAction::CreateSession { distance_m: 0, time_s: 1 },
                ),
                _ => (LocationPhase::Reporting, LocationAction::Report),
            },
            LocationPhase::Creating => match event {
                LocationEvent::Done => (LocationPhase::Subscribing, LocationAction::Subscribe),
                _ => (LocationPhase::Reporting, LocationAction::Report),
            },
            LocationPhase::Subscribing => match event {
                LocationEvent::Done => (LocationPhase::Starting, LocationAction::Start),
                _ => (LocationPhase::Reporting, LocationAction::Report),
            },
            LocationPhase::Starting => match event {
                LocationEvent::Done => (LocationPhase::Listening, LocationAction::AwaitUpdate),
                _ => (LocationPhase::Reporting, LocationAction::Report),
            },
            LocationPhase::Listening => match event {
                LocationEvent::Updated(fix) => (
                    LocationPhase::Sending,
                    LocationAction::Send(LocationData::from_fix(fix)),
                ),
                _ => (LocationPhase::Stopped, LocationAction::Stop),
            },
            LocationPhase::Sending => (LocationPhase::Listening, LocationAction::AwaitUpdate),
            LocationPhase::Reporting => (LocationPhase::Stopped, LocationAction::Stop),
            LocationPhase::Stopped => (LocationPhase::Stopped, LocationAction::Stop),
        };
        self.phase = phase;
        action
    }
}

} // verus!
