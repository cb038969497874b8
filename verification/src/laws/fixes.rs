//! Laws of what the window is told of a fix.
use crate::double::arith::UNIT;
use crate::double::errors::{close, lemma_finite_times, lemma_ratio_error, lemma_times, moderate};
use crate::double::facts::{
    lemma_product, lemma_product_monotone, lemma_product_sign, lemma_ratio_order, lemma_whole, lemma_zero,
};
use crate::double::grid::{lemma_order, TOP};
use crate::double::number::Double;
use crate::location::{Fix, LocationData};
use vstd::arithmetic::power2::lemma_pow2_pos;
use vstd::prelude::*;

verus! {

/// A known speed in m/s becomes km/h: 3.6 times as much, to a trillionth; a
/// negative one, and an unknown one, becomes zero. So it grows by more than three
/// times, whatever its size, as long as that can be told: a speed too large for it
/// becomes infinite.
pub proof fn speeds_become_kilometres_per_hour(fix: Fix)
    requires
        fix.speed matches Some(v) ==> v.finite(),
        LocationData::of(fix).speed_kmh.finite(),
    ensures
        ({
            let kmh = LocationData::of(fix).speed_kmh;
            &&& fix.speed is None ==> kmh.value() == 0
            &&& fix.speed matches Some(v) ==> v.value() <= 0 ==> kmh.value() == 0
            &&& fix.speed matches Some(v) ==> v.value() >= 0 ==> close(kmh.value(), 36, 10, v.value())
            &&& fix.speed matches Some(v) ==> v.value() >= 1000 ==> kmh.value() > 3 * v.value()
            &&& fix.speed matches Some(v) ==> v.value() >= 1000 ==> kmh.value() < 4 * v.value()
        }),
{
    let zero = Double::ratio(0, 1);
    lemma_zero();
    lemma_times(zero, 36, 10);
    if let Some(v) = fix.speed {
        lemma_ratio_error(36, 10);
        if v.value() >= 0 {
            lemma_finite_times(v, 36, 10);
            lemma_product_sign(v, Double::ratio(36, 10));
        }
    }
}

/// Every speed up to a trillion m/s can be told in km/h.
pub proof fn common_speeds_stay_finite(fix: Fix)
    requires
        fix.speed matches Some(v) ==> moderate(v),
    ensures
        LocationData::of(fix).speed_kmh.finite(),
{
    let zero = Double::ratio(0, 1);
    lemma_zero();
    lemma_times(zero, 36, 10);
    if let Some(v) = fix.speed {
        lemma_times(v, 36, 10);
    }
}

/// What is not a number counts as zero.
pub proof fn senseless_speeds_count_as_zero(fix: Fix)
    requires
        fix.speed is Some,
        fix.speed->0.nan(),
    ensures
        LocationData::of(fix).speed_kmh.finite(),
        LocationData::of(fix).speed_kmh.value() == 0,
{
    lemma_zero();
    lemma_times(Double::ratio(0, 1), 36, 10);
}

/// A higher speed in m/s never gives a lower one in km/h.
pub proof fn conversion_keeps_the_order(slow: Fix, fast: Fix)
    requires
        slow.speed is Some,
        fast.speed is Some,
        slow.speed->0 <= fast.speed->0,
    ensures
        LocationData::of(slow).speed_kmh <= LocationData::of(fast).speed_kmh,
{
    let zero = Double::ratio(0, 1);
    let factor = Double::ratio(36, 10);
    lemma_zero();
    lemma_ratio_error(36, 10);
    let a = slow.speed->0.max(zero);
    let b = fast.speed->0.max(zero);
    lemma_order(a.index(), b.index());
    lemma_order(0, a.index());
    lemma_order(0, b.index());
    lemma_ratio_order(1, 1, 36, 10);
    lemma_whole(1);
    lemma_pow2_pos(UNIT as nat);
    lemma_order(0, factor.index());
    if a.finite() && b.finite() {
        lemma_product_monotone(a, b, factor);
    } else {
        lemma_order((a * factor).index(), TOP as nat);
        lemma_order((b * factor).index(), TOP as nat);
        lemma_order(0, (a * factor).index());
        if a.finite() {
            lemma_product(a, factor);
        }
        reveal(Double::spec_mul);
    }
}

/// Everything else that a fix says is passed on as it is, and there is a fix. An
/// unknown altitude counts as zero.
pub proof fn the_rest_of_a_fix_is_passed_on(fix: Fix)
    ensures
        ({
            let data = LocationData::of(fix);
            &&& data.has_fix
            &&& fix.altitude matches Some(v) ==> data.altitude_m == v
            &&& fix.altitude is None ==> data.altitude_m.value() == 0 && !data.altitude_m.nan()
            &&& data.accuracy_m == fix.accuracy
            &&& data.latitude == fix.latitude
            &&& data.longitude == fix.longitude
            &&& data.heading_deg == fix.heading
        }),
{
    lemma_zero();
}

} // verus!
