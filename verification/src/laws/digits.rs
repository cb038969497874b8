//! Laws of what the dial says: the digits, the needle and the arc, for every speed.
use crate::canvas::{heat, Command, Text};
use crate::dial::{angle_of, angles_of, dial, face, needle_angle, pointed_speed, readout, scale_end, shown_speed, tick_angle, tick_count, DialRays};
use crate::double::arith::UNIT;
use crate::double::errors::{close, lemma_finite_times, lemma_large, lemma_near_error, lemma_over, lemma_ratio_error, lemma_times, moderate};
use crate::double::facts::{
    lemma_bounded, lemma_division_monotone, lemma_division_self, lemma_fraction, lemma_near_exact, lemma_power_ratio,
    lemma_product_shrinks, lemma_product_sign, lemma_ratio_order, lemma_sum, lemma_whole, lemma_zero, one,
};
use crate::double::grid::lemma_order;
use crate::double::number::{distance, Double};
use crate::laws::gforce::{cut, lemma_exact_heat};
use vstd::arithmetic::power2::{lemma2_to64, lemma_pow2_pos};
use vstd::prelude::*;

verus! {

/// With a fix, the digits show the speed in the chosen unit, whatever the end of
/// the scale: the kilometres themselves, or 0.621371 times them in miles; never
/// less than zero, without decimals, and above the name of the unit. What is not a
/// number is shown as zero.
pub proof fn digits_show_the_speed(
    speed: Double,
    use_mph: bool,
    rays: DialRays,
    cx: Double,
    cy: Double,
    size: Double,
)
    ensures
        ({
            let out = dial(speed, true, use_mph, rays, cx, cy, size);
            let digits = out[out.len() - 5]->Caption_text;
            let unit = out[out.len() - 1];
            let shown = digits->Fixed_number.value();
            &&& out[out.len() - 5] is Caption
            &&& digits is Fixed
            &&& digits->Fixed_decimals == 0
            &&& digits->Fixed_before == "" && digits->Fixed_after == ""
            &&& !digits->Fixed_number.nan()
            &&& speed.nan() || speed.value() <= 0 ==> shown == 0
            &&& !use_mph && !speed.nan() && speed.value() >= 0 ==> shown == speed.value()
            &&& use_mph && speed.finite() && speed.value() >= 0 ==> close(shown, 621_371, 1_000_000, speed.value())
            &&& unit is Caption
            &&& use_mph ==> unit->Caption_text == Text::Plain("mph")
            &&& !use_mph ==> unit->Caption_text == Text::Plain("km/h")
        }),
{
    let out = dial(speed, true, use_mph, rays, cx, cy, size);
    let tail = readout(speed, true, use_mph, cx, cy, size);
    lemma_zero();
    if use_mph {
        let miles = Double::ratio(621_371, 1_000_000);
        lemma_fraction(621_371, 1_000_000);
        if speed.finite() {
            lemma_product_shrinks(speed, miles);
            lemma_product_sign(speed, miles);
            lemma_finite_times(speed, 621_371, 1_000_000);
        } else {
            lemma2_to64();
            lemma_power_ratio(2, 1);
            lemma_ratio_order(1, 2, 621_371, 1_000_000);
            lemma_pow2_pos(UNIT as nat);
            lemma_order(0, miles.index());
            lemma_order(0, speed.index());
            reveal(Double::spec_mul);
        }
    }
    assert(out[out.len() - 5] == tail[3]);
    assert(out[out.len() - 1] == tail[7]);
}

/// Without a fix there are no digits, whatever the speed.
pub proof fn no_digits_without_a_fix(
    speed: Double,
    use_mph: bool,
    rays: DialRays,
    cx: Double,
    cy: Double,
    size: Double,
)
    ensures
        ({
            let out = dial(speed, false, use_mph, rays, cx, cy, size);
            &&& out[out.len() - 5] is Caption
            &&& out[out.len() - 5]->Caption_text == Text::Plain("--")
        }),
{
    let out = dial(speed, false, use_mph, rays, cx, cy, size);
    assert(out[out.len() - 5] == readout(speed, false, use_mph, cx, cy, size)[3]);
}

/// The fraction of the scale, and the angle, of a speed on the scale.
#[verifier::rlimit(40)]
proof fn lemma_angle(v: Double, use_mph: bool)
    requires
        v.finite(),
        0 <= v.value() <= scale_end(use_mph) * one(),
    ensures
        ({
            let q = v / Double::ratio(scale_end(use_mph), 1);
            let angle = angle_of(v, use_mph);
            let o = one() as int;
            &&& q.finite() && 0 <= q.value()
            &&& !use_mph ==> 1_000_000_000 * distance(200 * q.value() - v.value()) <= o
            &&& use_mph ==> 1_000_000_000 * distance(120 * q.value() - v.value()) <= o
            &&& angle.finite()
            &&& !use_mph ==> 10_000_000 * distance(5 * angle.value() - (750 * o + 6 * v.value())) <= o
            &&& use_mph ==> 10_000_000 * distance(angle.value() - (150 * o + 2 * v.value())) <= o
        }),
{
    let end = scale_end(use_mph);
    let q = v / Double::ratio(end, 1);
    let o = one();
    lemma_pow2_pos(UNIT as nat);
    lemma_large();
    lemma_whole(150);
    if use_mph {
        lemma_over(v, 120, 1);
    } else {
        lemma_over(v, 200, 1);
    }
    lemma_times(q, 240, 1);
    let p = q * Double::ratio(240, 1);
    lemma_sum(Double::ratio(150, 1), p);
    let x = 150 * one() + p.value();
    lemma_near_error(x);
    lemma_whole(1000);
    lemma_bounded(Double::ratio(150, 1) + p, Double::ratio(1000, 1));
}

/// The needle points at the speed in the chosen unit: at 150 degrees and 240
/// more for the whole scale, of 200 km/h or 120 mph, in proportion. At the ends of
/// the scale it is pinned.
pub proof fn needle_points_at_the_speed(speed: Double, use_mph: bool)
    requires
        moderate(speed),
    ensures
        ({
            let angle = needle_angle(speed, use_mph).value();
            let v = speed.value();
            let o = one() as int;
            &&& !needle_angle(speed, use_mph).nan()
            &&& !use_mph ==> 1_000_000 * distance(5 * angle - (750 * o + 6 * cut(v, 0, 200 * o))) <= o
            &&& use_mph ==> 1_000_000 * distance(
                1_000_000 * angle - (150_000_000 * o + 2 * cut(621_371 * v, 0, 120_000_000 * o)),
            ) <= 1_000_000 * o
        }),
{
    let end = scale_end(use_mph);
    let p = pointed_speed(speed, use_mph);
    lemma_pow2_pos(UNIT as nat);
    lemma_large();
    lemma_zero();
    lemma_whole(200);
    lemma_whole(120);
    lemma_times(speed, 621_371, 1_000_000);
    lemma_bounded(p, Double::ratio(end, 1));
    lemma_angle(p, use_mph);
}

/// Where the needle is not pinned, it points at the very number in the digits.
pub proof fn needle_and_digits_agree(
    speed: Double,
    use_mph: bool,
    rays: DialRays,
    cx: Double,
    cy: Double,
    size: Double,
)
    requires
        speed.finite(),
        0 <= speed.value(),
        !use_mph ==> speed.value() <= 200 * one(),
        use_mph ==> 621_371 * speed.value() <= 119_999_999 * one(),
    ensures
        ({
            let out = dial(speed, true, use_mph, rays, cx, cy, size);
            let shown = out[out.len() - 5]->Caption_text->Fixed_number.value();
            let angle = needle_angle(speed, use_mph).value();
            let o = one() as int;
            &&& !use_mph ==> 1_000_000 * distance(5 * angle - (750 * o + 6 * shown)) <= o
            &&& use_mph ==> 1_000_000 * distance(angle - (150 * o + 2 * shown)) <= o
        }),
{
    let out = dial(speed, true, use_mph, rays, cx, cy, size);
    let tail = readout(speed, true, use_mph, cx, cy, size);
    let end = scale_end(use_mph);
    lemma_pow2_pos(UNIT as nat);
    lemma_large();
    lemma_zero();
    lemma_whole(200);
    lemma_whole(120);
    lemma_times(speed, 621_371, 1_000_000);
    lemma_bounded(shown_speed(speed, use_mph), Double::ratio(end, 1));
    lemma_angle(shown_speed(speed, use_mph), use_mph);
    assert(out[out.len() - 5] == tail[3]);
}

/// The ticks stand every ten km/h or mph: at the angle where the needle points at
/// that speed.
pub proof fn ticks_stand_at_their_speeds(i: int, use_mph: bool)
    requires
        0 <= i < tick_count(use_mph),
    ensures
        tick_count(use_mph) == (if use_mph {
            13nat
        } else {
            21
        }),
        !tick_angle(i, use_mph).nan(),
        1_000_000 * distance(tick_angle(i, use_mph).value() - (150 + (if use_mph {
            20 * i
        } else {
            12 * i
        })) * one()) <= one(),
{
    let n = (10 * i) as u64;
    let o = one() as int;
    lemma_pow2_pos(UNIT as nat);
    lemma_whole(n);
    assert(0 <= n * o <= scale_end(use_mph) * o) by (nonlinear_arith)
        requires
            0 <= n <= scale_end(use_mph),
            o > 0,
    ;
    lemma_angle(Double::ratio(n, 1), use_mph);
    let t = i * o;
    assert(n * o == 10 * t && (150 + 20 * i) * o == 150 * o + 20 * t && (150 + 12 * i) * o == 150 * o + 12 * t)
        by (nonlinear_arith)
        requires
            n == 10 * i,
            t == i * o,
    ;
}

/// From a speed of 0.1 on there is a coloured arc, on the grey track: it starts
/// where the track starts and ends where the needle points.
pub proof fn arc_ends_at_the_needle(speed: Double, use_mph: bool, cx: Double, cy: Double, size: Double)
    requires
        moderate(speed),
        use_mph ==> 621_371 * speed.value() >= 100_001 * one(),
        !use_mph ==> 100_000 * speed.value() >= 10_001 * one(),
    ensures
        ({
            let out = face(speed, use_mph, cx, cy, size);
            &&& out.len() == 11
            &&& out[5] is Arc && out[9] is Arc && out[7] is SourceRgba
            &&& out[5]->Arc_x == cx && out[5]->Arc_y == cy
            &&& out[9]->Arc_x == cx && out[9]->Arc_y == cy
            &&& out[9]->Arc_radius == out[5]->Arc_radius
            &&& out[5]->Arc_from.value() == 150 * one()
            &&& out[9]->Arc_from == out[5]->Arc_from
            &&& out[5]->Arc_to.value() == 390 * one()
            &&& out[9]->Arc_to == needle_angle(speed, use_mph)
        }),
{
    let start = Double::ratio(150, 1);
    lemma_pow2_pos(UNIT as nat);
    lemma_large();
    lemma_zero();
    lemma_whole(200);
    lemma_whole(120);
    lemma_whole(150);
    lemma_whole(240);
    lemma_whole(390);
    lemma_sum(start, Double::ratio(240, 1));
    lemma_near_exact(Double::ratio(390, 1));
    lemma_times(speed, 621_371, 1_000_000);
    lemma_ratio_error(1, 10);
}

/// Up to a speed of 0.1 there is no coloured arc, and without a speed that is a
/// number there is none either.
pub proof fn no_arc_at_rest(speed: Double, use_mph: bool, cx: Double, cy: Double, size: Double)
    requires
        speed.nan() || (speed.finite() && (if use_mph {
            621_371 * speed.value() <= 99_999 * one()
        } else {
            100_000 * speed.value() <= 9_999 * one()
        })),
    ensures
        face(speed, use_mph, cx, cy, size).len() == 7,
{
    let miles = Double::ratio(621_371, 1_000_000);
    lemma_pow2_pos(UNIT as nat);
    lemma_large();
    lemma_zero();
    lemma_whole(200);
    lemma_whole(120);
    lemma_ratio_error(1, 10);
    if speed.nan() {
        reveal(Double::spec_mul);
    } else if use_mph {
        lemma_fraction(621_371, 1_000_000);
        lemma_product_shrinks(speed, miles);
        lemma_product_sign(speed, miles);
        lemma_finite_times(speed, 621_371, 1_000_000);
    }
}

/// The colour of the arc goes from green over yellow to red in proportion to the
/// whole scale: twice the fraction of the scale is the red part, and what is left
/// of two is the green part, each cut off at one.
pub proof fn arc_colour_follows_the_speed(speed: Double, use_mph: bool, cx: Double, cy: Double, size: Double)
    requires
        moderate(speed),
        use_mph ==> 621_371 * speed.value() >= 100_001 * one(),
        !use_mph ==> 100_000 * speed.value() >= 10_001 * one(),
    ensures
        ({
            let colour = face(speed, use_mph, cx, cy, size)[7];
            let o = one() as int;
            let red = colour->SourceRgba_red.value();
            let green = colour->SourceRgba_green.value();
            let v = speed.value();
            &&& colour->SourceRgba_blue.value() == 0
            &&& !use_mph ==> 1_000_000 * distance(100 * red - cut(v, 0, 100 * o)) <= o
            &&& !use_mph ==> 1_000_000 * distance(100 * green - cut(200 * o - v, 0, 100 * o)) <= o
            &&& use_mph ==> 1_000_000 * distance(60_000_000 * red - cut(621_371 * v, 0, 60_000_000 * o)) <= 1_000_000 * o
            &&& use_mph ==> 1_000_000 * distance(
                60_000_000 * green - cut(120_000_000 * o - 621_371 * v, 0, 60_000_000 * o),
            ) <= 1_000_000 * o
        }),
{
    let end = scale_end(use_mph);
    let p = pointed_speed(speed, use_mph);
    let level = p / Double::ratio(end, 1);
    lemma_pow2_pos(UNIT as nat);
    lemma_large();
    lemma_zero();
    lemma_whole(1);
    lemma_whole(200);
    lemma_whole(120);
    lemma_times(speed, 621_371, 1_000_000);
    lemma_bounded(p, Double::ratio(end, 1));
    lemma_division_self(Double::ratio(end, 1));
    lemma_division_monotone(p, Double::ratio(end, 1), Double::ratio(end, 1));
    lemma_angle(p, use_mph);
    lemma_exact_heat(level);
    lemma_ratio_error(1, 10);
    let out = face(speed, use_mph, cx, cy, size);
    assert(p > Double::ratio(1, 10));
    assert(out[7] == (Command::SourceRgba {
        red: heat(level).0,
        green: heat(level).1,
        blue: Double::ratio(0, 1),
        alpha: Double::ratio(9, 10),
    }));
    if use_mph {
        lemma_mph_colour(one() as int, speed.value(), shown_speed(speed, true).value(), p.value(), level.value());
    } else {
        lemma_kmh_colour(one() as int, speed.value(), p.value(), level.value());
    }
}

proof fn lemma_kmh_colour(o: int, v: int, p: int, q: int)
    requires
        o > 0,
        p == cut(v, 0, 200 * o),
        1_000_000_000 * distance(200 * q - p) <= o,
    ensures
        1_000_000 * distance(100 * cut(2 * q, 0, o) - cut(v, 0, 100 * o)) <= o,
        1_000_000 * distance(100 * cut(2 * o - 2 * q, 0, o) - cut(200 * o - v, 0, 100 * o))
            <= o,
{
}

proof fn lemma_mph_colour(o: int, v: int, s: int, p: int, q: int)
    requires
        o >= 1_000_000_000_000_000_000_000_000_000,
        v >= 0,
        close(s, 621_371, 1_000_000, v),
        p == cut(s, 0, 120 * o),
        1_000_000_000 * distance(120 * q - p) <= o,
    ensures
        1_000_000 * distance(60_000_000 * cut(2 * q, 0, o) - cut(621_371 * v, 0, 60_000_000 * o))
            <= 1_000_000 * o,
        1_000_000 * distance(
            60_000_000 * cut(2 * o - 2 * q, 0, o) - cut(120_000_000 * o - 621_371 * v, 0, 60_000_000 * o),
        ) <= 1_000_000 * o,
{
}

/// The angles that the directions of a dial are taken of: one for every tenth of
/// the scale, in order, and that of the needle.
pub proof fn angles_belong_to_the_dial(speed: Double, use_mph: bool, i: int)
    requires
        moderate(speed),
        0 <= i < angles_of(speed, use_mph).0.len(),
    ensures
        ({
            let (marks, pointer) = angles_of(speed, use_mph);
            let v = speed.value();
            let o = one() as int;
            &&& !use_mph ==> marks.len() == 21
            &&& use_mph ==> marks.len() == 13
            &&& !use_mph ==> 1_000_000 * distance(marks[i].value() - (150 * o + 12 * (i * o))) <= o
            &&& use_mph ==> 1_000_000 * distance(marks[i].value() - (150 * o + 20 * (i * o))) <= o
            &&& !use_mph ==> 1_000_000 * distance(5 * pointer.value() - (750 * o + 6 * cut(v, 0, 200 * o))) <= o
            &&& use_mph ==> 1_000_000 * distance(
                1_000_000 * pointer.value() - (150_000_000 * o + 2 * cut(621_371 * v, 0, 120_000_000 * o)),
            ) <= 1_000_000 * o
        }),
{
    let o = one() as int;
    needle_points_at_the_speed(speed, use_mph);
    ticks_stand_at_their_speeds(i, use_mph);
    assert((150 + 20 * i) * o == 150 * o + 20 * (i * o) && (150 + 12 * i) * o == 150 * o + 12 * (i * o))
        by (nonlinear_arith);
}

} // verus!
