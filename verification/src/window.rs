//! The state behind the window: the needle, the time to a fix, and the speed
//! between two fixes.
use crate::double::facts::{lemma_negated, lemma_ratio, lemma_zero};
use crate::double::number::Double;
use crate::imu::ImuData;
use crate::layout::Frame;
use crate::location::LocationData;
use vstd::prelude::*;
use vstd::string::StrSliceExecFns;

verus! {

/// How long one frame lasts.
pub const TICK_MS: u64 = 16;

/// Everything that the window remembers.
///
/// Between two fixes the accelerometer integrates a change of speed, and every
/// fix is a new anchor. Turning, as the gyroscope sees it, suppresses the
/// integration, since a corner would pass for braking.
#[derive(Clone, Copy, Debug)]
pub struct SpeedometerWindow {
    pub altitude: Double,
    pub accuracy: Double,
    pub has_fix: bool,
    pub latitude: Double,
    pub longitude: Double,
    /// The speed that the needle shows (km/h).
    pub speed_displayed: Double,
    /// The speed that the needle moves to (km/h).
    pub speed_target: Double,
    /// How fast the needle moves (km/h per second).
    pub needle_velocity: Double,
    /// When the search began (µs).
    pub search_start_us: i64,
    /// How long the search took (s); -1 as long as it lasts.
    pub time_to_fix_s: i64,
    /// Whether the last update was a good fix.
    pub prev_has_fix: bool,
    pub use_mph: bool,
    /// The speed at the last fix (km/h).
    pub accel_base_speed: Double,
    /// The change of speed since the last fix (km/h).
    pub accel_delta: Double,
    /// +1 accelerating, -1 braking, 0 unknown.
    pub accel_sign: Double,
    /// Timestamp of the most recent sample (µs).
    pub accel_last_ts: u64,
    /// Whether the last update was a good fix to integrate from.
    pub accel_has_gps: bool,
    /// The speed at the fix before (km/h).
    pub gps_prev_speed: Double,
    /// The heading at the fix before (degrees); not a number where unknown.
    pub gps_prev_heading: Double,
    /// Whether the assistance by the accelerometer is on.
    pub accel_enabled: bool,
    /// Lateral G, as measured.
    pub gforce_x_raw: Double,
    /// Longitudinal G, as measured.
    pub gforce_y_raw: Double,
    /// Lateral G, smoothed.
    pub gforce_x: Double,
    /// Longitudinal G, smoothed.
    pub gforce_y: Double,
}

/// Whole seconds in a number of microseconds, towards zero.
pub open spec fn whole_seconds(micros: int) -> int {
    if micros >= 0 {
        micros / 1_000_000
    } else {
        -((-micros) / 1_000_000)
    }
}

/// A fix counts as good with an accuracy below ten metres.
pub open spec fn good_fix(has_fix: bool, accuracy: Double) -> bool {
    has_fix && accuracy < Double::ratio(10, 1)
}

/// The shortest way from one bearing to another, in degrees.
pub open spec fn turn(from: Double, to: Double) -> Double {
    ((to - from + Double::ratio(540, 1)) % Double::ratio(360, 1)) - Double::ratio(180, 1)
}

/// Whether the heading changed by less than fifteen degrees, or is unknown.
pub open spec fn straight(from: Double, to: Double) -> bool {
    from.nan() || to.nan() || turn(from, to).abs() < Double::ratio(15, 1)
}

/// The direction of the acceleration: it changes with a difference in speed of
/// more than half a km/h on a straight road, and stays as it is otherwise.
pub open spec fn next_sign(sign: Double, is_straight: bool, before: Double, now: Double) -> Double {
    if is_straight && now - before > Double::ratio(5, 10) {
        Double::ratio(1, 1)
    } else if is_straight && before - now > Double::ratio(5, 10) {
        -Double::ratio(1, 1)
    } else {
        sign
    }
}

/// How much of an acceleration counts at a rate of turning: all up to 0.1 rad/s,
/// nothing from 0.3 rad/s on.
pub open spec fn corner_weight(gyro_rads: Double) -> Double {
    let low = Double::ratio(10, 100);
    let high = Double::ratio(30, 100);
    Double::ratio(1, 1) - ((gyro_rads - low) / (high - low)).clamp(Double::ratio(0, 1), Double::ratio(1, 1))
}

/// The time between two samples, in seconds.
pub open spec fn seconds_between(last: u64, now: u64) -> Double {
    Double::ratio(if now > last { (now - last) as u64 } else { 0 }, 1) / Double::ratio(1_000_000, 1)
}

/// A power that is still to be computed.
#[derive(Clone, Copy, Debug)]
pub struct Power {
    pub base: Double,
    pub exponent: Double,
}

/// What a sample is good for.
pub enum Fusion {
    /// It changes nothing.
    Ignored,
    /// The change of speed fades, by 8 % in every 80 milliseconds.
    Decay(Power),
    /// The change of speed becomes this.
    Integrate { delta: Double },
}

impl SpeedometerWindow {
    /// The window at its start: nothing is known, the search has just begun, and
    /// the assistance by the accelerometer is on.
    pub open spec fn initial(now_us: i64) -> SpeedometerWindow {
        let zero = Double::ratio(0, 1);
        SpeedometerWindow {
            altitude: zero,
            accuracy: zero,
            has_fix: false,
            latitude: zero,
            longitude: zero,
            speed_displayed: zero,
            speed_target: zero,
            needle_velocity: zero,
            search_start_us: now_us,
            time_to_fix_s: -1i64,
            prev_has_fix: false,
            use_mph: false,
            accel_base_speed: zero,
            accel_delta: zero,
            accel_sign: zero,
            accel_last_ts: 0,
            accel_has_gps: false,
            gps_prev_speed: zero,
            gps_prev_heading: Double::not_a_number(),
            accel_enabled: true,
            gforce_x_raw: zero,
            gforce_y_raw: zero,
            gforce_x: zero,
            gforce_y: zero,
        }
    }

    pub fn new(now_us: i64) -> (r: SpeedometerWindow)
        ensures
            r == SpeedometerWindow::initial(now_us),
    {
        let zero: Double = Double::ratio(0, 1);
        SpeedometerWindow {
            altitude: zero,
            accuracy: zero,
            has_fix: false,
            latitude: zero,
            longitude: zero,
            speed_displayed: zero,
            speed_target: zero,
            needle_velocity: zero,
            search_start_us: now_us,
            time_to_fix_s: -1,
            prev_has_fix: false,
            use_mph: false,
            accel_base_speed: zero,
            accel_delta: zero,
            accel_sign: zero,
            accel_last_ts: 0,
            accel_has_gps: false,
            gps_prev_speed: zero,
            gps_prev_heading: Double::make_nan(),
            accel_enabled: true,
            gforce_x_raw: zero,
            gforce_y_raw: zero,
            gforce_x: zero,
            gforce_y: zero,
        }
    }

    /// What a choice of the unit makes of the window.
    pub open spec fn after_unit(self, use_mph: bool) -> SpeedometerWindow {
        SpeedometerWindow { use_mph, ..self }
    }

    /// What switching the assistance makes of the window: off, it forgets the
    /// change of speed since the last fix.
    pub open spec fn after_toggle(self, on: bool) -> SpeedometerWindow {
        SpeedometerWindow {
            accel_enabled: on,
            accel_delta: if on {
                self.accel_delta
            } else {
                Double::ratio(0, 1)
            },
            ..self
        }
    }

    /// What a choice of the unit by name makes of the window, where one is given.
    pub open spec fn after_choice(self, unit: Option<Seq<char>>) -> SpeedometerWindow {
        self.after_unit(unit == Some("mph"@))
    }

    /// The setting after a switch from the current one, where that is known.
    pub open spec fn switched(current: Option<bool>) -> bool {
        match current {
            Some(on) => !on,
            None => false,
        }
    }

    /// Chooses the unit: miles for `mph`, kilometres for anything else. Returns
    /// the unit that the choice stands at, kilometres where none was given.
    pub fn choose_unit<'a>(&mut self, unit: Option<&'a str>) -> (chosen: &'a str)
        ensures
            chosen@ == (match unit {
                Some(name) => name@,
                None => "kmh"@,
            }),
            *final(self) == old(self).after_unit(chosen@ == "mph"@),
            *final(self) == old(self).after_choice(
                match unit {
                    Some(name) => Some(name@),
                    None => None,
                },
            ),
    {
        let chosen: &'a str = match unit {
            Some(name) => name,
            None => "kmh",
        };
        proof {
            reveal_strlit("mph");
            reveal_strlit("kmh");
        }
        let is_mph: bool = chosen.unicode_len() == 3 && chosen.get_char(0) == 'm' && chosen.get_char(1) == 'p'
            && chosen.get_char(2) == 'h';
        assert(is_mph == (chosen@ =~= "mph"@));
        assert("kmh"@[0] != "mph"@[0]);
        self.use_mph = is_mph;
        chosen
    }

    /// Switches the assistance by the accelerometer from its current setting,
    /// which is on where it is unknown. Switching it off forgets the change of
    /// speed since the last fix.
    pub fn toggle_accel(&mut self, current: Option<bool>) -> (next: bool)
        ensures
            next == (match current {
                Some(on) => !on,
                None => false,
            }),
            next == SpeedometerWindow::switched(current),
            *final(self) == old(self).after_toggle(next),
    {
        let next: bool = match current {
            Some(on) => !on,
            None => false,
        };
        self.accel_enabled = next;
        if !next {
            self.accel_delta = Double::ratio(0, 1);
        }
        next
    }

    /// Sets the speed that the needle moves to.
    pub fn set_speed_target(&mut self, new_target: Double)
        ensures
            *final(self) == (SpeedometerWindow { speed_target: new_target, ..*old(self) }),
    {
        self.speed_target = new_target;
    }

    /// The seconds that the search has lasted, or that it took.
    pub open spec fn elapsed(self, now_us: i64) -> int {
        if good_fix(self.has_fix, self.accuracy) {
            self.time_to_fix_s as int
        } else {
            whole_seconds(now_us - self.search_start_us)
        }
    }

    pub fn elapsed_s(&self, now_us: i64) -> (r: i64)
        requires
            !good_fix(self.has_fix, self.accuracy) ==> i64::MIN <= now_us - self.search_start_us <= i64::MAX,
        ensures
            r == self.elapsed(now_us),
    {
        let good: bool = self.has_fix && self.accuracy.below(Double::ratio(10, 1));
        if !good {
            seconds(now_us - self.search_start_us)
        } else {
            self.time_to_fix_s
        }
    }
}

impl SpeedometerWindow {
    /// When the search began, after an update: it begins again where a good fix
    /// is lost.
    pub open spec fn next_search_start(self, good: bool, now_us: i64) -> i64 {
        if self.prev_has_fix && !good {
            now_us
        } else {
            self.search_start_us
        }
    }

    /// How long the search took, after an update: it is recorded where a good
    /// fix is found, and forgotten where it is lost.
    pub open spec fn next_time_to_fix(self, good: bool, now_us: i64) -> i64 {
        if self.prev_has_fix && !good {
            -1i64
        } else if !self.prev_has_fix && good {
            whole_seconds(now_us - self.search_start_us) as i64
        } else {
            self.time_to_fix_s
        }
    }

    /// What an update of the position makes of the window.
    pub open spec fn after_location(self, data: LocationData, now_us: i64) -> SpeedometerWindow {
        let good = good_fix(data.has_fix, data.accuracy_m);
        let heading = match data.heading_deg {
            Some(degrees) => degrees,
            None => Double::not_a_number(),
        };
        SpeedometerWindow {
            search_start_us: self.next_search_start(good, now_us),
            time_to_fix_s: self.next_time_to_fix(good, now_us),
            prev_has_fix: good,
            accel_sign: next_sign(
                self.accel_sign,
                straight(self.gps_prev_heading, heading),
                self.gps_prev_speed,
                data.speed_kmh,
            ),
            gps_prev_speed: data.speed_kmh,
            gps_prev_heading: heading,
            accel_base_speed: data.speed_kmh,
            accel_delta: Double::ratio(0, 1),
            accel_has_gps: good,
            speed_target: data.speed_kmh,
            altitude: data.altitude_m,
            accuracy: data.accuracy_m,
            has_fix: data.has_fix,
            latitude: data.latitude,
            longitude: data.longitude,
            ..self
        }
    }

    /// Takes in an update of the position.
    pub fn on_location(&mut self, data: LocationData, now_us: i64)
        requires
            !old(self).prev_has_fix && good_fix(data.has_fix, data.accuracy_m) ==> i64::MIN <= now_us
                - old(self).search_start_us <= i64::MAX,
        ensures
            *final(self) == old(self).after_location(data, now_us),
    {
        let good: bool = data.has_fix && data.accuracy_m.below(Double::ratio(10, 1));
        let prev: bool = self.prev_has_fix;
        if prev && !good {
            self.search_start_us = now_us;
            self.time_to_fix_s = -1;
        } else if !prev && good {
            let elapsed: i64 = seconds(now_us - self.search_start_us);
            self.time_to_fix_s = elapsed;
        }
        self.prev_has_fix = good;
        let prev_gps: Double = self.gps_prev_speed;
        let prev_hdg: Double = self.gps_prev_heading;
        let cur_hdg: Double = match data.heading_deg {
            Some(degrees) => degrees,
            None => Double::make_nan(),
        };
        let heading_stable: bool = if prev_hdg.is_nan() || cur_hdg.is_nan() {
            true
        } else {
            let diff: Double = ((cur_hdg - prev_hdg + Double::ratio(540, 1)) % Double::ratio(360, 1))
                - Double::ratio(180, 1);
            diff.abs().below(Double::ratio(15, 1))
        };
        let half: Double = Double::ratio(5, 10);
        if heading_stable && half.below(data.speed_kmh - prev_gps) {
            self.accel_sign = Double::ratio(1, 1);
        } else if heading_stable && half.below(prev_gps - data.speed_kmh) {
            self.accel_sign = Double::ratio(1, 1).negated();
        }
        self.gps_prev_speed = data.speed_kmh;
        self.gps_prev_heading = cur_hdg;
        self.accel_base_speed = data.speed_kmh;
        self.accel_delta = Double::ratio(0, 1);
        self.accel_has_gps = good;
        self.set_speed_target(data.speed_kmh);
        self.altitude = data.altitude_m;
        self.accuracy = data.accuracy_m;
        self.has_fix = data.has_fix;
        self.latitude = data.latitude;
        self.longitude = data.longitude;
    }

    /// Whether samples change the speed at all: with a good fix to start from
    /// and with the assistance switched on.
    pub open spec fn assisted(self) -> bool {
        self.accel_has_gps && self.accel_enabled
    }

    /// What a sample means for the speed. The first one after a start, one after
    /// a gap of more than half a second, one whose direction is not known, and
    /// one in a corner mean nothing. A weak one lets the change of speed fade.
    pub open spec fn fusion(self, data: ImuData) -> Fusion {
        let dt_s = seconds_between(self.accel_last_ts, data.timestamp_us);
        let fwd_ms2 = data.accel_z_ms2.abs();
        let weight = corner_weight(data.gyro_rads);
        if !self.assisted() || self.accel_last_ts == 0 || dt_s <= Double::ratio(0, 1) || dt_s > Double::ratio(
            5,
            10,
        ) || (!self.accel_sign.nan() && self.accel_sign.value() == 0) {
            Fusion::Ignored
        } else if fwd_ms2 < Double::ratio(8, 10) {
            Fusion::Decay(Power { base: Double::ratio(92, 100), exponent: dt_s / Double::ratio(8, 100) })
        } else if weight < Double::ratio(1, 100) {
            Fusion::Ignored
        } else {
            let delta_kmh = fwd_ms2 * dt_s * self.accel_sign * weight * Double::ratio(36, 10);
            Fusion::Integrate {
                delta: (self.accel_delta + delta_kmh).clamp(-Double::ratio(20, 1), Double::ratio(20, 1)),
            }
        }
    }

    /// What a sample makes of the window, apart from the fading.
    pub open spec fn after_imu(self, data: ImuData) -> SpeedometerWindow {
        let seen = SpeedometerWindow {
            gforce_x_raw: data.accel_x_ms2 / Double::ratio(981, 100),
            gforce_y_raw: (-data.accel_z_ms2) / Double::ratio(981, 100),
            accel_last_ts: data.timestamp_us,
            ..self
        };
        match self.fusion(data) {
            Fusion::Integrate { delta } => SpeedometerWindow {
                accel_delta: delta,
                speed_target: (self.accel_base_speed + delta).max(Double::ratio(0, 1)),
                ..seen
            },
            _ => seen,
        }
    }

    /// Takes in a sample of the motion sensors. Where the change of speed is to
    /// fade, returns the power by which it does:
    /// [`decay`](SpeedometerWindow::decay) is then to be called with its value.
    pub fn on_imu(&mut self, data: ImuData) -> (fading: Option<Power>)
        ensures
            *final(self) == old(self).after_imu(data),
            fading == (match old(self).fusion(data) {
                Fusion::Decay(power) => Some(power),
                _ => None,
            }),
    {
        let g: Double = Double::ratio(981, 100);
        self.gforce_x_raw = data.accel_x_ms2 / g;
        self.gforce_y_raw = data.accel_z_ms2.negated() / g;
        let last_ts: u64 = self.accel_last_ts;
        self.accel_last_ts = data.timestamp_us;
        if !self.accel_has_gps || !self.accel_enabled {
            return None;
        }
        if last_ts == 0 {
            return None;
        }
        let gap: u64 = if data.timestamp_us > last_ts { data.timestamp_us - last_ts } else { 0 };
        let dt_s: Double = Double::ratio(gap, 1) / Double::ratio(1_000_000, 1);
        if dt_s.at_most(Double::ratio(0, 1)) || Double::ratio(5, 10).below(dt_s) {
            return None;
        }
        let sign: Double = self.accel_sign;
        if sign.is_zero() {
            return None;
        }
        let fwd_ms2: Double = data.accel_z_ms2.abs();
        if fwd_ms2.below(Double::ratio(8, 10)) {
            return Some(Power { base: Double::ratio(92, 100), exponent: dt_s / Double::ratio(8, 100) });
        }
        let gyro_lo: Double = Double::ratio(10, 100);
        let gyro_hi: Double = Double::ratio(30, 100);
        proof {
            lemma_zero();
            lemma_ratio(1, 1);
            lemma_ratio(20, 1);
            lemma_negated(Double::ratio(20, 1));
        }
        let weight: Double = Double::ratio(1, 1) - ((data.gyro_rads - gyro_lo) / (gyro_hi - gyro_lo)).clamp(
            Double::ratio(0, 1),
            Double::ratio(1, 1),
        );
        if weight.below(Double::ratio(1, 100)) {
            return None;
        }
        let delta_kmh: Double = fwd_ms2 * dt_s * sign * weight * Double::ratio(36, 10);
        let new_delta: Double = (self.accel_delta + delta_kmh).clamp(
            Double::ratio(20, 1).negated(),
            Double::ratio(20, 1),
        );
        self.accel_delta = new_delta;
        let fused: Double = (self.accel_base_speed + new_delta).max(Double::ratio(0, 1));
        self.set_speed_target(fused);
        None
    }

    /// What fading by a factor makes of the window.
    pub open spec fn after_decay(self, factor: Double) -> SpeedometerWindow {
        SpeedometerWindow { accel_delta: self.accel_delta * factor, ..self }
    }

    /// Lets the change of speed fade by a factor. The speed that the needle moves
    /// to stays as it is until the next strong sample or fix.
    pub fn decay(&mut self, factor: Double)
        ensures
            *final(self) == old(self).after_decay(factor),
    {
        self.accel_delta = self.accel_delta * factor;
    }

    /// The velocity of the needle one frame later: a spring pulls it to the
    /// target and a damper slows it down.
    pub open spec fn next_velocity(self) -> Double {
        let accel = Double::ratio(80, 1) * (self.speed_target - self.speed_displayed) - Double::ratio(134, 10)
            * self.needle_velocity;
        self.needle_velocity + accel * Double::ratio(TICK_MS, 1000)
    }

    /// What one frame makes of the window. The smoothed G-forces move half of
    /// the way to the measured ones.
    pub open spec fn after_tick(self) -> SpeedometerWindow {
        let velocity = self.next_velocity();
        SpeedometerWindow {
            needle_velocity: velocity,
            speed_displayed: (self.speed_displayed + velocity * Double::ratio(TICK_MS, 1000)).max(Double::ratio(0, 1)),
            gforce_x: smoothed(self.gforce_x, self.gforce_x_raw),
            gforce_y: smoothed(self.gforce_y, self.gforce_y_raw),
            ..self
        }
    }

    /// Advances the needle and the smoothed G-forces by one frame.
    pub fn tick(&mut self)
        ensures
            *final(self) == old(self).after_tick(),
    {
        let dt: Double = Double::ratio(TICK_MS, 1000);
        let displayed: Double = self.speed_displayed;
        let target: Double = self.speed_target;
        let vel: Double = self.needle_velocity;
        let accel: Double = Double::ratio(80, 1) * (target - displayed) - Double::ratio(134, 10) * vel;
        let new_vel: Double = vel + accel * dt;
        self.needle_velocity = new_vel;
        self.speed_displayed = (displayed + new_vel * dt).max(Double::ratio(0, 1));
        let gx: Double = self.gforce_x;
        let gy: Double = self.gforce_y;
        let alpha: Double = Double::ratio(5, 10);
        self.gforce_x = gx + (self.gforce_x_raw - gx) * alpha;
        self.gforce_y = gy + (self.gforce_y_raw - gy) * alpha;
    }

    /// Everything that a frame shows of the window.
    pub open spec fn snapshot(self, now_us: i64) -> Frame {
        Frame {
            speed: self.speed_displayed,
            altitude: self.altitude,
            accuracy: self.accuracy,
            has_fix: self.has_fix,
            latitude: self.latitude,
            longitude: self.longitude,
            elapsed_s: self.elapsed(now_us) as i64,
            use_mph: self.use_mph,
            gforce_x: self.gforce_x,
            gforce_y: self.gforce_y,
            accel_enabled: self.accel_enabled,
        }
    }

    /// What the window shows.
    pub fn frame(&self, now_us: i64) -> (r: Frame)
        requires
            !good_fix(self.has_fix, self.accuracy) ==> i64::MIN <= now_us - self.search_start_us <= i64::MAX,
        ensures
            r == self.snapshot(now_us),
            r == (Frame {
                speed: self.speed_displayed,
                altitude: self.altitude,
                accuracy: self.accuracy,
                has_fix: self.has_fix,
                latitude: self.latitude,
                longitude: self.longitude,
                elapsed_s: self.elapsed(now_us) as i64,
                use_mph: self.use_mph,
                gforce_x: self.gforce_x,
                gforce_y: self.gforce_y,
                accel_enabled: self.accel_enabled,
            }),
    {
        Frame {
            speed: self.speed_displayed,
            altitude: self.altitude,
            accuracy: self.accuracy,
            has_fix: self.has_fix,
            latitude: self.latitude,
            longitude: self.longitude,
            elapsed_s: self.elapsed_s(now_us),
            use_mph: self.use_mph,
            gforce_x: self.gforce_x,
            gforce_y: self.gforce_y,
            accel_enabled: self.accel_enabled,
        }
    }
}

/// One step of smoothing, half of the way.
pub open spec fn smoothed(shown: Double, measured: Double) -> Double {
    shown + (measured - shown) * Double::ratio(5, 10)
}

fn seconds(micros: i64) -> (r: i64)
    ensures
        r == whole_seconds(micros as int),
{
    micros / 1_000_000
}

} // verus!
