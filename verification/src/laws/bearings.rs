//! Laws of headings: what a turn is, and what it means for the direction of the
//! acceleration.
use crate::double::arith::UNIT;
use crate::double::facts::{
    lemma_abs, lemma_bounded, lemma_difference, lemma_near_close, lemma_near_exact,
    lemma_near_monotone, lemma_near_multiple, lemma_negated, lemma_sum, lemma_whole, lemma_zero,
    near, one,
};
use crate::double::grid::{lemma_order, FRACTION};
use crate::double::number::{distance, Double};
use crate::double::remainder::remainder_is_exact;
use crate::double::rounding::lemma_pow2_52;
use crate::location::LocationData;
use crate::window::{straight, turn, SpeedometerWindow};
use vstd::arithmetic::div_mod::{lemma_fundamental_div_mod, lemma_fundamental_div_mod_converse};
use vstd::arithmetic::power2::{
    lemma2_to64, lemma_pow2_adds, lemma_pow2_pos, lemma_pow2_unfold, pow2,
};
use vstd::prelude::*;

verus! {

/// A heading between 0 and 360 degrees.
pub open spec fn is_bearing(x: Double) -> bool {
    x >= Double::ratio(0, 1) && x <= Double::ratio(360, 1)
}

/// The shortest angle between two bearings, in units: the difference, or what is
/// missing from it to a full circle.
pub open spec fn shortest_way(from: Double, to: Double) -> int {
    let difference = distance(to.value() - from.value()) as int;
    if difference <= 180 * one() {
        difference
    } else {
        360 * one() - difference
    }
}

/// What rounding may change of a turn, in units: one degree divided by two to
/// the power of 43.
pub open spec fn slack() -> nat {
    pow2(1031)
}

/// How the sizes compare that occur in a turn.
pub(crate) proof fn lemma_sizes()
    ensures
        one() == 0x800_0000_0000 * slack(),
        slack() == 4 * pow2(1029),
        pow2(1030) == 2 * pow2(1029),
        2 * FRACTION * pow2(1029) == 256 * one(),
        2 * FRACTION * pow2(1030) == 512 * one(),
        2 * FRACTION * pow2(1031) == 1024 * one(),
        pow2(1029) > 0,
{
    lemma2_to64();
    lemma_pow2_52();
    lemma_pow2_adds(32, 11);
    lemma_pow2_adds(43, 1031);
    lemma_pow2_unfold(1030);
    lemma_pow2_unfold(1031);
    lemma_pow2_pos(1029);
    let u = pow2(1029);
    let f = FRACTION as nat;
    assert(one() == 0x800_0000_0000 * (4 * u));
    assert(2 * f * u == 256 * (0x800_0000_0000 * (4 * u))) by (nonlinear_arith)
        requires
            f == 0x10_0000_0000_0000,
    ;
    assert(2 * f * (2 * u) == 512 * (0x800_0000_0000 * (4 * u))) by (nonlinear_arith)
        requires
            f == 0x10_0000_0000_0000,
    ;
    assert(2 * f * (4 * u) == 1024 * (0x800_0000_0000 * (4 * u))) by (nonlinear_arith)
        requires
            f == 0x10_0000_0000_0000,
    ;
}

/// The steps of a turn: the difference, its shift by one and a half circles, what
/// is left of that without full circles, and that shifted back by half a circle.
pub(crate) proof fn lemma_turn_steps(from: Double, to: Double) -> (steps: (int, int, int))
    requires
        is_bearing(from),
        is_bearing(to),
    ensures
        ({
            let (d, e, r) = steps;
            &&& d == near(to.value() - from.value())
            &&& -360 * one() <= d <= 360 * one()
            &&& e == near(d + 540 * one())
            &&& 180 * one() <= e <= 900 * one()
            &&& e < 360 * one() ==> r == e
            &&& 360 * one() <= e < 720 * one() ==> r == e - 360 * one()
            &&& 720 * one() <= e ==> r == e - 720 * one()
            &&& !turn(from, to).nan()
            &&& turn(from, to).value() == near(r - 180 * one())
        }),
{
    let full = Double::ratio(360, 1);
    let half = Double::ratio(180, 1);
    let shift = Double::ratio(540, 1);
    let most = Double::ratio(900, 1);
    lemma_pow2_pos(UNIT as nat);
    lemma_zero();
    lemma_whole(180);
    lemma_whole(360);
    lemma_whole(540);
    lemma_whole(900);
    lemma_negated(full);
    lemma_bounded(from, full);
    lemma_bounded(to, full);
    let d = to - from;
    lemma_difference(to, from);
    lemma_near_monotone(-full.value(), to.value() - from.value());
    lemma_near_monotone(to.value() - from.value(), full.value());
    lemma_near_exact(full);
    lemma_near_exact(-full);
    lemma_abs(d);
    lemma_bounded(d.abs(), full);
    let e = d + shift;
    lemma_sum(d, shift);
    lemma_near_monotone(half.value(), d.value() + shift.value());
    lemma_near_monotone(d.value() + shift.value(), most.value());
    lemma_near_exact(half);
    lemma_near_exact(most);
    lemma_bounded(e, most);
    let rest = e % full;
    lemma_order(0, full.index());
    lemma_order(0, e.index());
    lemma_order(0, rest.index());
    remainder_is_exact(e, full);
    let y = 360 * one();
    if e.value() < y {
        lemma_fundamental_div_mod_converse(e.value(), y as int, 0, e.value());
    } else if e.value() < 2 * y {
        lemma_fundamental_div_mod_converse(e.value(), y as int, 1, e.value() - y);
    } else {
        lemma_fundamental_div_mod_converse(e.value(), y as int, 2, e.value() - 2 * y);
    }
    lemma_difference(rest, half);
    (d.value(), e.value(), rest.value())
}

/// The turn between two bearings is as large as the shortest angle between them,
/// up to what rounding may change.
#[verifier::rlimit(40)]
pub proof fn turns_are_as_large_as_the_shortest_way(from: Double, to: Double)
    requires
        is_bearing(from),
        is_bearing(to),
    ensures
        !turn(from, to).nan(),
        distance(turn(from, to).abs().value() - shortest_way(from, to)) <= slack(),
{
    let x = to.value() - from.value();
    let (d, e, r) = lemma_turn_steps(from, to);
    lemma_sizes();
    lemma_zero();
    lemma_whole(360);
    lemma_near_close(x, 1030);
    lemma_near_close(d + 540 * one(), 1031);
    lemma_near_close(r - 180 * one(), 1029);
    lemma_abs(turn(from, to));
}

/// On a grid of one degree divided by two to the power of 43, the turn between
/// two bearings is exactly as large as the shortest angle between them.
pub proof fn turns_on_the_grid_are_exact(from: Double, to: Double)
    requires
        is_bearing(from),
        is_bearing(to),
        from.value() % slack() as int == 0,
        to.value() % slack() as int == 0,
    ensures
        !turn(from, to).nan(),
        turn(from, to).abs().value() == shortest_way(from, to),
{
    let g = slack() as int;
    let n: int = 0x800_0000_0000;
    let (d, e, r) = lemma_turn_steps(from, to);
    lemma_sizes();
    lemma_zero();
    lemma_whole(360);
    lemma_fundamental_div_mod(from.value(), g);
    lemma_fundamental_div_mod(to.value(), g);
    let a = from.value() / g;
    let b = to.value() / g;
    assert(0 <= a <= 360 * n && 0 <= b <= 360 * n) by (nonlinear_arith)
        requires
            0 <= g * a <= 360 * (n * g),
            0 <= g * b <= 360 * (n * g),
            g > 0,
            n == 0x800_0000_0000,
    ;
    let c = b - a;
    assert(g * b - g * a == c * g) by (nonlinear_arith)
        requires
            c == b - a,
    ;
    lemma_near_multiple(c, 1031);
    assert(c * g + 540 * (n * g) == (c + 540 * n) * g) by (nonlinear_arith);
    lemma_near_multiple(c + 540 * n, 1031);
    assert((c + 540 * n) * g - 180 * (n * g) == (c + 360 * n) * g) by (nonlinear_arith);
    assert((c + 540 * n) * g - 540 * (n * g) == c * g) by (nonlinear_arith);
    assert((c + 540 * n) * g - 900 * (n * g) == (c - 360 * n) * g) by (nonlinear_arith);
    if e < 360 * one() {
        assert(c < -180 * n) by (nonlinear_arith)
            requires
                (c + 540 * n) * g < 360 * (n * g),
                g > 0,
        ;
        lemma_near_multiple(c + 360 * n, 1031);
    } else if e < 720 * one() {
        lemma_near_multiple(c, 1031);
    } else {
        assert(c >= 180 * n) by (nonlinear_arith)
            requires
                (c + 540 * n) * g >= 720 * (n * g),
                g > 0,
        ;
        lemma_near_multiple(c - 360 * n, 1031);
    }
    lemma_abs(turn(from, to));
}

/// Between headings in whole degrees the turn is exactly the shortest angle, and
/// the road counts as straight exactly where that is less than fifteen degrees.
pub proof fn whole_degrees_are_exact(from: u64, to: u64)
    requires
        from <= 360,
        to <= 360,
    ensures
        ({
            let difference = distance(to - from) as int;
            let angle = if difference <= 180 {
                difference
            } else {
                360 - difference
            };
            let a = Double::ratio(from, 1);
            let b = Double::ratio(to, 1);
            &&& turn(a, b).abs().value() == angle * one()
            &&& straight(a, b) <==> angle < 15
        }),
{
    let a = Double::ratio(from, 1);
    let b = Double::ratio(to, 1);
    let n: int = 0x800_0000_0000;
    let g = slack() as int;
    let difference = distance(to - from) as int;
    lemma_sizes();
    lemma_zero();
    lemma_whole(from);
    lemma_whole(to);
    lemma_whole(360);
    lemma_whole(15);
    assert(from * (n * g) == g * (from * n) && to * (n * g) == g * (to * n)) by (nonlinear_arith);
    lemma_fundamental_div_mod_converse(a.value(), g, from * n, 0);
    lemma_fundamental_div_mod_converse(b.value(), g, to * n, 0);
    assert(0 <= from * one() <= 360 * one() && 0 <= to * one() <= 360 * one()) by (nonlinear_arith)
        requires
            0 <= from <= 360,
            0 <= to <= 360,
            one() >= 0,
    ;
    turns_on_the_grid_are_exact(a, b);
    let o = one() as int;
    assert(distance(to * o - from * o) == difference * o) by (nonlinear_arith)
        requires
            o > 0,
            difference == distance(to - from),
    ;
    assert((difference <= 180 <==> difference * o <= 180 * o) && (difference < 15 <==> difference * o < 15 * o)
        && (360 - difference < 15 <==> (360 - difference) * o < 15 * o) && 360 * o - difference * o == (360
        - difference) * o) by (nonlinear_arith)
        requires
            o > 0,
    ;
}

/// Whether an update comes on a straight road: a heading is unknown, or the
/// shortest angle to the one before is less than fifteen degrees.
pub open spec fn on_a_straight_road(w: SpeedometerWindow, data: LocationData) -> bool {
    data.heading_deg is None || data.heading_deg->0.nan() || w.gps_prev_heading.nan() || shortest_way(
        w.gps_prev_heading,
        data.heading_deg->0,
    ) < 15 * one()
}

/// The direction of the acceleration becomes plus or minus one where the speed
/// changes by more than half a km/h on a straight road, and stays as it was
/// otherwise; speed and heading are kept for the next update. This is stated of
/// the true shortest angle between the headings, which must not lie so close to
/// fifteen degrees that rounding decides.
pub proof fn direction_follows_the_speed(w: SpeedometerWindow, data: LocationData, now_us: i64)
    requires
        w.gps_prev_heading.nan() || is_bearing(w.gps_prev_heading),
        data.heading_deg matches Some(heading) ==> heading.nan() || is_bearing(heading),
        data.heading_deg matches Some(heading) ==> {
            ||| heading.nan()
            ||| w.gps_prev_heading.nan()
            ||| shortest_way(w.gps_prev_heading, heading) < 15 * one() - slack()
            ||| shortest_way(w.gps_prev_heading, heading) >= 15 * one() + slack()
        },
    ensures
        ({
            let next = w.after_location(data, now_us);
            let half = Double::ratio(5, 10);
            let now = data.speed_kmh;
            let before = w.gps_prev_speed;
            &&& next.accel_sign == (if on_a_straight_road(w, data) && now - before > half {
                Double::ratio(1, 1)
            } else if on_a_straight_road(w, data) && before - now > half {
                -Double::ratio(1, 1)
            } else {
                w.accel_sign
            })
            &&& next.gps_prev_speed == now
            &&& data.heading_deg is Some ==> next.gps_prev_heading == data.heading_deg->0
            &&& data.heading_deg is None ==> next.gps_prev_heading.nan()
        }),
{
    lemma_whole(15);
    if data.heading_deg is Some {
        let heading = data.heading_deg->0;
        if !heading.nan() && !w.gps_prev_heading.nan() {
            turns_are_as_large_as_the_shortest_way(w.gps_prev_heading, heading);
            lemma_abs(turn(w.gps_prev_heading, heading));
        }
    }
}

} // verus!
