//! Laws of what an update of the position, a switch and a frame do to the window,
//! over the numbers that come with them.
use crate::double::arith::UNIT;
use crate::double::facts::{
    lemma_difference, lemma_half, lemma_near_exact, lemma_near_monotone, lemma_negated, lemma_whole,
    lemma_zero, one,
};
use crate::double::number::Double;
use crate::location::LocationData;
use crate::window::SpeedometerWindow;
use vstd::arithmetic::power2::lemma_pow2_pos;
use vstd::prelude::*;

verus! {

/// A fix with a radius of less than ten metres.
pub open spec fn within_ten_metres(has_fix: bool, accuracy: Double) -> bool {
    has_fix && !accuracy.nan() && accuracy.value() < 10 * one()
}

/// Whole seconds, counted towards zero.
pub open spec fn counts_seconds(micros: int, seconds: int) -> bool {
    if micros >= 0 {
        1_000_000 * seconds <= micros < 1_000_000 * (seconds + 1)
    } else {
        1_000_000 * (seconds - 1) < micros <= 1_000_000 * seconds
    }
}

/// An update is a good fix, to integrate from and to end the search, exactly where
/// its radius is below ten metres.
pub proof fn good_fixes_are_below_ten_metres(w: SpeedometerWindow, data: LocationData, now_us: i64)
    ensures
        w.after_location(data, now_us).prev_has_fix == within_ten_metres(data.has_fix, data.accuracy_m),
        w.after_location(data, now_us).accel_has_gps == within_ten_metres(data.has_fix, data.accuracy_m),
{
    lemma_whole(10);
}

/// The search is timed in whole seconds from its beginning to the first good fix,
/// and begins again where a good fix is lost.
pub proof fn searches_are_timed(w: SpeedometerWindow, data: LocationData, now_us: i64)
    requires
        i64::MIN <= now_us - w.search_start_us <= i64::MAX,
    ensures
        ({
            let after = w.after_location(data, now_us);
            let good = within_ten_metres(data.has_fix, data.accuracy_m);
            &&& !w.prev_has_fix && good ==> counts_seconds(now_us - w.search_start_us, after.time_to_fix_s as int)
            &&& w.prev_has_fix && !good ==> after.time_to_fix_s == -1 && after.search_start_us == now_us
            &&& w.prev_has_fix == good ==> after.time_to_fix_s == w.time_to_fix_s
            &&& !(w.prev_has_fix && !good) ==> after.search_start_us == w.search_start_us
        }),
{
    lemma_whole(10);
}

/// Until there is a good fix the seconds since the beginning of the search are
/// shown, and with one the seconds that it took.
pub proof fn shown_seconds(w: SpeedometerWindow, now_us: i64)
    requires
        i64::MIN <= now_us - w.search_start_us <= i64::MAX,
    ensures
        ({
            let shown = w.snapshot(now_us).elapsed_s;
            &&& w.elapsed(now_us) == shown
            &&& within_ten_metres(w.has_fix, w.accuracy) ==> shown == w.time_to_fix_s
            &&& !within_ten_metres(w.has_fix, w.accuracy) ==> counts_seconds(now_us - w.search_start_us, shown as int)
        }),
{
    lemma_whole(10);
}

/// A frame shows the speed of the needle, the smoothed forces, what the last
/// update said, and the settings.
pub proof fn frames_show_the_window(w: SpeedometerWindow, now_us: i64)
    ensures
        ({
            let f = w.snapshot(now_us);
            &&& f.speed == w.speed_displayed
            &&& f.gforce_x == w.gforce_x && f.gforce_y == w.gforce_y
            &&& f.altitude == w.altitude && f.accuracy == w.accuracy && f.has_fix == w.has_fix
            &&& f.latitude == w.latitude && f.longitude == w.longitude
            &&& f.use_mph == w.use_mph && f.accel_enabled == w.accel_enabled
        }),
{
}

/// What an update says is kept as it is, and it touches neither the needle, nor the
/// forces, nor the settings, nor the time of the last sample.
pub proof fn updates_are_taken_over(w: SpeedometerWindow, data: LocationData, now_us: i64)
    ensures
        ({
            let after = w.after_location(data, now_us);
            &&& after.altitude == data.altitude_m
            &&& after.accuracy == data.accuracy_m
            &&& after.has_fix == data.has_fix
            &&& after.latitude == data.latitude
            &&& after.longitude == data.longitude
            &&& after.speed_target == data.speed_kmh
            &&& after.accel_base_speed == data.speed_kmh
            &&& after.gps_prev_speed == data.speed_kmh
            &&& after.accel_delta.value() == 0 && after.accel_delta.finite()
            &&& after.speed_displayed == w.speed_displayed
            &&& after.needle_velocity == w.needle_velocity
            &&& after.use_mph == w.use_mph
            &&& after.accel_enabled == w.accel_enabled
            &&& after.accel_last_ts == w.accel_last_ts
            &&& after.gforce_x_raw == w.gforce_x_raw && after.gforce_y_raw == w.gforce_y_raw
            &&& after.gforce_x == w.gforce_x && after.gforce_y == w.gforce_y
        }),
{
    lemma_zero();
}

/// The direction changes only on an update: to plus one where the speed grew by
/// more than half a km/h, to minus one where it fell by more than that, and not at
/// all between.
pub proof fn small_changes_keep_the_direction(w: SpeedometerWindow, data: LocationData, now_us: i64)
    requires
        data.speed_kmh.finite(),
        w.gps_prev_speed.finite(),
    ensures
        ({
            let after = w.after_location(data, now_us);
            let gain = data.speed_kmh.value() - w.gps_prev_speed.value();
            &&& -(one() as int) <= 2 * gain <= one() ==> after.accel_sign == w.accel_sign
            &&& 2 * gain > one() ==> after.accel_sign == w.accel_sign || after.accel_sign.value() == one()
            &&& 2 * gain < -(one() as int) ==> after.accel_sign == w.accel_sign || after.accel_sign.value() == -(
            one() as int)
        }),
{
    let half = Double::ratio(5, 10);
    let gain = data.speed_kmh.value() - w.gps_prev_speed.value();
    lemma_pow2_pos(UNIT as nat);
    lemma_whole(1);
    lemma_negated(Double::ratio(1, 1));
    lemma_half();
    lemma_difference(data.speed_kmh, w.gps_prev_speed);
    lemma_difference(w.gps_prev_speed, data.speed_kmh);
    lemma_near_exact(half);
    if gain <= half.value() {
        lemma_near_monotone(gain, half.value());
    }
    if -gain <= half.value() {
        lemma_near_monotone(-gain, half.value());
    }
}

/// At the start nothing is known and the assistance is on.
pub proof fn windows_start_empty(now_us: i64)
    ensures
        ({
            let w = SpeedometerWindow::initial(now_us);
            let nothing = |x: Double| x.finite() && x.value() == 0;
            &&& nothing(w.speed_displayed) && nothing(w.speed_target) && nothing(w.needle_velocity)
            &&& nothing(w.accel_base_speed) && nothing(w.accel_delta) && nothing(w.accel_sign)
            &&& nothing(w.gforce_x) && nothing(w.gforce_y) && nothing(w.gforce_x_raw) && nothing(w.gforce_y_raw)
            &&& nothing(w.gps_prev_speed) && w.gps_prev_heading.nan()
            &&& !w.has_fix && !w.prev_has_fix && !w.accel_has_gps && !w.use_mph
            &&& w.accel_enabled
            &&& w.accel_last_ts == 0
            &&& w.search_start_us == now_us && w.time_to_fix_s == -1
        }),
{
    lemma_zero();
}

/// A switch of the assistance touches only the assistance and, where it goes off,
/// the change of speed since the last fix, which becomes zero. A choice of the unit
/// touches only the unit.
pub proof fn switches_touch_nothing_else(w: SpeedometerWindow, on: bool)
    ensures
        ({
            let toggled = w.after_toggle(on);
            &&& toggled.accel_enabled == on
            &&& on ==> toggled.accel_delta == w.accel_delta
            &&& !on ==> toggled.accel_delta.finite() && toggled.accel_delta.value() == 0
            &&& toggled == (SpeedometerWindow {
                accel_enabled: toggled.accel_enabled,
                accel_delta: toggled.accel_delta,
                ..w
            })
            &&& w.after_unit(on).use_mph == on
            &&& w.after_unit(on) == (SpeedometerWindow { use_mph: w.after_unit(on).use_mph, ..w })
        }),
{
    lemma_zero();
}

/// Miles are chosen by their name alone; every other name, and none at all, means
/// kilometres. A known setting of the assistance is turned round, and an unknown
/// one counts as on.
pub proof fn choices_are_understood(w: SpeedometerWindow, unit: Option<Seq<char>>, on: bool)
    ensures
        w.after_choice(unit) == (SpeedometerWindow { use_mph: w.after_choice(unit).use_mph, ..w }),
        w.after_choice(unit).use_mph ==> unit is Some && unit->0 == "mph"@,
        unit is Some && unit->0 == "mph"@ ==> w.after_choice(unit).use_mph,
        SpeedometerWindow::switched(Some(on)) == !on,
        SpeedometerWindow::switched(None) == SpeedometerWindow::switched(Some(true)),
{
}

} // verus!
