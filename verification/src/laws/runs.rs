//! Laws of the window over whole runs: whatever happens, in whatever order.
use crate::double::arith::UNIT;
use crate::double::facts::{
    lemma_abs, lemma_bounded, lemma_difference, lemma_near_exact, lemma_near_monotone,
    lemma_negated, lemma_product_shrinks, lemma_sum, lemma_whole, lemma_zero,
};
use crate::double::number::Double;
use crate::imu::ImuData;
use crate::laws::fusion::lemma_integrated;
use crate::laws::window::{delta_is_bounded, is_direction};
use crate::location::LocationData;
use crate::window::{good_fix, Fusion, SpeedometerWindow};
use vstd::arithmetic::power2::lemma_pow2_pos;
use vstd::prelude::*;

verus! {

/// What can happen to the window.
pub enum Happening {
    Location { data: LocationData, now_us: i64 },
    /// A sample, with the factor by which the change of speed fades if it is to.
    Imu { sample: ImuData, factor: Double },
    Toggle { on: bool },
    Unit { use_mph: bool },
    Tick,
}

/// What it makes of the window.
pub open spec fn after(w: SpeedometerWindow, happening: Happening) -> SpeedometerWindow {
    match happening {
        Happening::Location { data, now_us } => w.after_location(data, now_us),
        Happening::Imu { sample, factor } => match w.fusion(sample) {
            Fusion::Decay(_) => w.after_imu(sample).after_decay(factor),
            _ => w.after_imu(sample),
        },
        Happening::Toggle { on } => w.after_toggle(on),
        Happening::Unit { use_mph } => w.after_unit(use_mph),
        Happening::Tick => w.after_tick(),
    }
}

/// The window after a whole run.
pub open spec fn run(w: SpeedometerWindow, happenings: Seq<Happening>) -> SpeedometerWindow
    decreases happenings.len(),
{
    if happenings.len() == 0 {
        w
    } else {
        run(after(w, happenings[0]), happenings.drop_first())
    }
}

/// Speeds of updates are finite and not negative, what a sample counts with is a
/// number, and fading makes smaller.
pub open spec fn possible(happening: Happening) -> bool {
    match happening {
        Happening::Location { data, now_us: _ } => data.speed_kmh.finite() && data.speed_kmh >= Double::ratio(0, 1),
        Happening::Imu { sample, factor } => {
            &&& !sample.accel_z_ms2.nan()
            &&& !sample.gyro_rads.nan()
            &&& factor >= Double::ratio(0, 1)
            &&& factor <= Double::ratio(1, 1)
        },
        _ => true,
    }
}

/// The clock, which stands at `clock`, does not go back, and does not get
/// further from `first` than it can tell.
pub open spec fn timely(happenings: Seq<Happening>, first: i64, clock: i64) -> bool
    decreases happenings.len(),
{
    if happenings.len() == 0 {
        true
    } else {
        match happenings[0] {
            Happening::Location { data: _, now_us } => {
                &&& clock <= now_us
                &&& now_us - first <= i64::MAX
                &&& timely(happenings.drop_first(), first, now_us)
            },
            _ => timely(happenings.drop_first(), first, clock),
        }
    }
}

/// Whether the last update of a run was a good fix; `before` where there was none.
pub open spec fn last_good(happenings: Seq<Happening>, before: bool) -> bool
    decreases happenings.len(),
{
    if happenings.len() == 0 {
        before
    } else {
        match happenings[0] {
            Happening::Location { data, now_us: _ } => last_good(
                happenings.drop_first(),
                good_fix(data.has_fix, data.accuracy_m),
            ),
            _ => last_good(happenings.drop_first(), before),
        }
    }
}

/// The change of speed is at most 20 km/h either way, speeds are not negative,
/// the direction is one of three, the target is within 20 km/h of the speed of
/// the last fix (as far as that sum and difference can be told), and how long
/// the search took is known exactly while there is a good fix.
pub open spec fn sound(w: SpeedometerWindow) -> bool {
    let limit = Double::ratio(20, 1);
    let zero = Double::ratio(0, 1);
    &&& -limit <= w.accel_delta && w.accel_delta <= limit
    &&& w.speed_displayed >= zero
    &&& w.speed_target >= zero
    &&& is_direction(w.accel_sign)
    &&& w.accel_base_speed.finite() && w.accel_base_speed >= zero
    &&& w.accel_base_speed - limit <= w.speed_target
    &&& w.speed_target <= w.accel_base_speed + limit
    &&& w.time_to_fix_s == -1 <==> !w.prev_has_fix
}

/// From the start on, after whatever happens in whatever order, the window is
/// sound, and it knows whether the last update was a good fix.
pub proof fn every_run_is_sound(start_us: i64, happenings: Seq<Happening>)
    requires
        forall|i: int| 0 <= i < happenings.len() ==> possible(#[trigger] happenings[i]),
        timely(happenings, start_us, start_us),
    ensures
        ({
            let w = run(SpeedometerWindow::initial(start_us), happenings);
            &&& sound(w)
            &&& w.prev_has_fix == last_good(happenings, false)
            &&& w.accel_has_gps == last_good(happenings, false)
        }),
{
    let w = SpeedometerWindow::initial(start_us);
    let limit = Double::ratio(20, 1);
    lemma_zero();
    lemma_pow2_pos(UNIT as nat);
    lemma_whole(20);
    lemma_negated(limit);
    lemma_around(w.accel_base_speed, w.speed_target);
    lemma_run(w, happenings, start_us, start_us);
}

proof fn lemma_run(w: SpeedometerWindow, happenings: Seq<Happening>, first: i64, clock: i64)
    requires
        forall|i: int| 0 <= i < happenings.len() ==> possible(#[trigger] happenings[i]),
        timely(happenings, first, clock),
        sound(w),
        w.prev_has_fix == w.accel_has_gps,
        first <= w.search_start_us <= clock,
    ensures
        sound(run(w, happenings)),
        run(w, happenings).prev_has_fix == last_good(happenings, w.prev_has_fix),
        run(w, happenings).accel_has_gps == last_good(happenings, w.prev_has_fix),
    decreases happenings.len(),
{
    if happenings.len() > 0 {
        let rest = happenings.drop_first();
        assert(possible(happenings[0]));
        assert forall|i: int| 0 <= i < rest.len() implies possible(#[trigger] rest[i]) by {
            assert(rest[i] == happenings[i + 1]);
        }
        lemma_after(w, happenings[0], first, clock);
        let next = match happenings[0] {
            Happening::Location { data: _, now_us } => now_us,
            _ => clock,
        };
        lemma_run(after(w, happenings[0]), rest, first, next);
    }
}

/// One happening keeps the window sound.
proof fn lemma_after(w: SpeedometerWindow, happening: Happening, first: i64, clock: i64)
    requires
        possible(happening),
        sound(w),
        w.prev_has_fix == w.accel_has_gps,
        first <= w.search_start_us <= clock,
        happening matches Happening::Location { data, now_us } ==> clock <= now_us && now_us - first <= i64::MAX,
    ensures
        sound(after(w, happening)),
        after(w, happening).prev_has_fix == after(w, happening).accel_has_gps,
        first <= after(w, happening).search_start_us,
        happening matches Happening::Location { data, now_us } ==> {
            &&& after(w, happening).search_start_us <= now_us
            &&& after(w, happening).prev_has_fix == good_fix(data.has_fix, data.accuracy_m)
        },
        happening !is Location ==> {
            &&& after(w, happening).search_start_us == w.search_start_us
            &&& after(w, happening).prev_has_fix == w.prev_has_fix
        },
{
    let limit = Double::ratio(20, 1);
    lemma_zero();
    lemma_pow2_pos(UNIT as nat);
    lemma_whole(20);
    lemma_whole(1);
    lemma_negated(limit);
    match happening {
        Happening::Location { data, now_us } => {
            lemma_around(data.speed_kmh, data.speed_kmh);
        },
        Happening::Imu { sample, factor } => match w.fusion(sample) {
            Fusion::Decay(_) => {
                lemma_bounded(factor, Double::ratio(1, 1));
                lemma_abs(w.accel_delta);
                lemma_bounded(w.accel_delta.abs(), limit);
                lemma_product_shrinks(w.accel_delta, factor);
            },
            Fusion::Integrate { delta } => {
                lemma_integrated(w, sample);
                lemma_abs(delta);
                lemma_bounded(delta.abs(), limit);
                lemma_fused(w.accel_base_speed, delta);
            },
            Fusion::Ignored => {},
        },
        _ => {},
    }
}

/// A speed is within 20 km/h of itself.
proof fn lemma_around(base: Double, target: Double)
    requires
        base.finite(),
        target == base,
    ensures
        base - Double::ratio(20, 1) <= target,
        target <= base + Double::ratio(20, 1),
{
    let limit = Double::ratio(20, 1);
    lemma_pow2_pos(UNIT as nat);
    lemma_whole(20);
    lemma_sum(base, limit);
    lemma_difference(base, limit);
    lemma_near_monotone(base.value() - limit.value(), base.value());
    lemma_near_monotone(base.value(), base.value() + limit.value());
    lemma_near_exact(base);
}

/// A fused speed is within 20 km/h of the speed of the last fix.
proof fn lemma_fused(base: Double, delta: Double)
    requires
        base.finite(),
        base >= Double::ratio(0, 1),
        delta.finite(),
        delta_is_bounded(delta),
    ensures
        ({
            let fused = (base + delta).max(Double::ratio(0, 1));
            &&& base - Double::ratio(20, 1) <= fused
            &&& fused <= base + Double::ratio(20, 1)
        }),
{
    let limit = Double::ratio(20, 1);
    lemma_zero();
    lemma_pow2_pos(UNIT as nat);
    lemma_whole(20);
    lemma_negated(limit);
    lemma_sum(base, delta);
    lemma_sum(base, limit);
    lemma_difference(base, limit);
    lemma_near_monotone(base.value() - limit.value(), base.value() + delta.value());
    lemma_near_monotone(base.value() + delta.value(), base.value() + limit.value());
    lemma_near_monotone(0, base.value() + limit.value());
}

/// When the search began and how long it took change only with an update after
/// which there is a good fix and before which there was none, or the other way
/// round: while a good fix lasts, the time is frozen.
pub proof fn search_changes_only_with_the_fix(w: SpeedometerWindow, happening: Happening)
    requires
        happening matches Happening::Location { data, now_us } ==> good_fix(data.has_fix, data.accuracy_m)
            == w.prev_has_fix,
    ensures
        after(w, happening).search_start_us == w.search_start_us,
        after(w, happening).time_to_fix_s == w.time_to_fix_s,
        after(w, happening).prev_has_fix == w.prev_has_fix,
{
}

} // verus!
