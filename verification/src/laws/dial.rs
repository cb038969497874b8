//! Laws of the dial.
use crate::canvas::{heat, Text};
use crate::dial::{
    angle_of, majors_of, needle_angle, pointed_speed, scale_end, shown_speed, speed_text,
    tick_angle, tick_count, MINOR_STEP, START_DEG, SWEEP_DEG,
};
use crate::double::arith::UNIT;
use crate::double::facts::{
    lemma_bounded, lemma_difference, lemma_division_monotone, lemma_division_self,
    lemma_division_zero, lemma_fraction, lemma_half, lemma_near_exact, lemma_near_monotone,
    lemma_product, lemma_product_double, lemma_product_monotone, lemma_product_shrinks,
    lemma_product_zero, lemma_ratio_order, lemma_sum, lemma_sum_monotone, lemma_whole, lemma_zero,
    one,
};
use crate::double::grid::{lemma_order, magnitude, TOP};
use crate::double::number::Double;
use vstd::arithmetic::power2::lemma_pow2_pos;
use vstd::prelude::*;

verus! {

/// The speed that the needle points at lies on the scale.
pub proof fn pointed_speed_is_on_the_scale(speed: Double, use_mph: bool)
    requires
        !speed.nan(),
    ensures
        Double::ratio(0, 1) <= pointed_speed(speed, use_mph),
        pointed_speed(speed, use_mph) <= Double::ratio(scale_end(use_mph), 1),
        pointed_speed(speed, use_mph).finite(),
{
    lemma_zero();
    lemma_whole(scale_end(use_mph));
    lemma_pow2_pos(UNIT as nat);
    lemma_shown(speed, use_mph);
    lemma_bounded(pointed_speed(speed, use_mph), Double::ratio(scale_end(use_mph), 1));
}

proof fn lemma_shown(speed: Double, use_mph: bool)
    requires
        !speed.nan(),
    ensures
        !shown_speed(speed, use_mph).nan(),
{
    if use_mph {
        let factor = Double::ratio(621_371, 1_000_000);
        lemma_fraction(621_371, 1_000_000);
        lemma_factor();
        if speed.finite() {
            lemma_product(speed, factor);
        } else {
            reveal(Double::spec_mul);
        }
    }
}

proof fn lemma_factor()
    ensures
        Double::ratio(621_371, 1_000_000).index() > 0,
{
    lemma_half();
    lemma_ratio_order(5, 10, 621_371, 1_000_000);
    lemma_order(0, Double::ratio(621_371, 1_000_000).index());
}

/// What a speed on the scale has for an angle.
proof fn lemma_angle(v: Double, use_mph: bool)
    requires
        v.finite(),
        0 <= v.value() <= Double::ratio(scale_end(use_mph), 1).value(),
    ensures
        angle_of(v, use_mph).finite(),
        150 * one() <= angle_of(v, use_mph).value() <= 390 * one(),
        v.value() == 0 ==> angle_of(v, use_mph).value() == 150 * one(),
        v.value() == Double::ratio(scale_end(use_mph), 1).value() ==> angle_of(v, use_mph).value() == 390 * one(),
        0 <= (v / Double::ratio(scale_end(use_mph), 1)).value() <= one(),
        (v / Double::ratio(scale_end(use_mph), 1)).finite(),
{
    let zero = Double::ratio(0, 1);
    let end = Double::ratio(scale_end(use_mph), 1);
    let start = Double::ratio(START_DEG, 1);
    let sweep = Double::ratio(SWEEP_DEG, 1);
    let unit = Double::ratio(1, 1);
    let last = Double::ratio(390, 1);
    lemma_pow2_pos(UNIT as nat);
    lemma_zero();
    lemma_whole(scale_end(use_mph));
    lemma_whole(START_DEG);
    lemma_whole(SWEEP_DEG);
    lemma_whole(1);
    lemma_whole(390);
    assert(end.value() > 0) by (nonlinear_arith)
        requires
            end.value() == scale_end(use_mph) * one(),
            scale_end(use_mph) > 0,
            one() > 0,
    ;
    let q = v / end;
    lemma_division_zero(zero, end);
    lemma_division_self(end);
    lemma_division_monotone(zero, v, end);
    lemma_division_monotone(v, end, end);
    lemma_bounded(q, unit);
    let p = q * sweep;
    lemma_product(q, sweep);
    lemma_product(sweep, q);
    assert(magnitude(q.index()) * magnitude(sweep.index()) == magnitude(sweep.index()) * magnitude(q.index()))
        by (nonlinear_arith);
    lemma_product_shrinks(sweep, q);
    lemma_product_monotone(zero, q, sweep);
    lemma_order(0, p.index());
    assert(0 <= p.value() <= 240 * one());
    lemma_sum(start, p);
    lemma_near_monotone(start.value(), 150 * one() + p.value());
    lemma_near_monotone(150 * one() + p.value(), last.value());
    lemma_near_exact(start);
    lemma_near_exact(last);
    lemma_bounded(angle_of(v, use_mph), last);
    if v.value() == 0 {
        lemma_division_zero(v, end);
        lemma_order(0, q.index());
        assert(magnitude(0) * magnitude(sweep.index()) == 0) by (nonlinear_arith)
            requires
                magnitude(0) == 0,
        ;
        assert(magnitude(0) * one() == 0) by (nonlinear_arith)
            requires
                magnitude(0) == 0,
        ;
        crate::double::grid::lemma_nearest_exact(0, one(), 0);
        assert(p.value() == 0);
    }
    if v.value() == end.value() {
        lemma_division_monotone(end, v, end);
        assert(q.value() == one());
        lemma_order(q.index(), unit.index());
        let m = magnitude(sweep.index());
        assert(one() * m == m * one()) by (nonlinear_arith);
        crate::double::grid::lemma_nearest_exact(m * one(), one(), sweep.index());
        assert(p.value() == 240 * one());
    }
}

/// The needle stays between the ends of the scale, whatever the speed: between
/// the angle of zero and 240 degrees further.
pub proof fn needle_stays_on_the_dial(speed: Double, use_mph: bool)
    requires
        !speed.nan(),
    ensures
        needle_angle(speed, use_mph) >= Double::ratio(150, 1),
        needle_angle(speed, use_mph) <= Double::ratio(390, 1),
{
    lemma_zero();
    lemma_whole(150);
    lemma_whole(390);
    pointed_speed_is_on_the_scale(speed, use_mph);
    lemma_angle(pointed_speed(speed, use_mph), use_mph);
}

/// The needle rests at the start of the scale up to a speed of zero, and is
/// pinned at its end from the largest speed of the scale on.
pub proof fn needle_ends(speed: Double, use_mph: bool)
    requires
        !speed.nan(),
    ensures
        speed <= Double::ratio(0, 1) ==> needle_angle(speed, use_mph).value() == Double::ratio(150, 1).value(),
        shown_speed(speed, use_mph) >= Double::ratio(scale_end(use_mph), 1) ==> needle_angle(
            speed,
            use_mph,
        ).value() == Double::ratio(390, 1).value(),
{
    lemma_zero();
    lemma_whole(150);
    lemma_whole(390);
    lemma_whole(scale_end(use_mph));
    lemma_pow2_pos(UNIT as nat);
    pointed_speed_is_on_the_scale(speed, use_mph);
    lemma_angle(pointed_speed(speed, use_mph), use_mph);
    if speed <= Double::ratio(0, 1) {
        let zero = Double::ratio(0, 1);
        lemma_shown_monotone(speed, zero, use_mph);
        if use_mph {
            lemma_fraction(621_371, 1_000_000);
            lemma_product_zero(zero, Double::ratio(621_371, 1_000_000));
        }
    }
}

/// A higher speed never turns the needle back.
pub proof fn needle_follows_the_speed(slow: Double, fast: Double, use_mph: bool)
    requires
        slow <= fast,
    ensures
        needle_angle(slow, use_mph) <= needle_angle(fast, use_mph),
{
    let end = Double::ratio(scale_end(use_mph), 1);
    let sweep = Double::ratio(SWEEP_DEG, 1);
    let v1 = pointed_speed(slow, use_mph);
    let v2 = pointed_speed(fast, use_mph);
    lemma_zero();
    lemma_whole(scale_end(use_mph));
    lemma_whole(SWEEP_DEG);
    lemma_whole(START_DEG);
    lemma_pow2_pos(UNIT as nat);
    assert(end.value() > 0) by (nonlinear_arith)
        requires
            end.value() == scale_end(use_mph) * one(),
            scale_end(use_mph) > 0,
            one() > 0,
    ;
    pointed_speed_is_on_the_scale(slow, use_mph);
    pointed_speed_is_on_the_scale(fast, use_mph);
    lemma_angle(v1, use_mph);
    lemma_angle(v2, use_mph);
    lemma_shown_monotone(slow, fast, use_mph);
    assert(v1 <= v2);
    lemma_division_monotone(v1, v2, end);
    let q1 = v1 / end;
    let q2 = v2 / end;
    lemma_product_monotone(q1, q2, sweep);
    lemma_product_shrinks(sweep, q1);
    lemma_product_shrinks(sweep, q2);
    lemma_product_commutes(q1, sweep);
    lemma_product_commutes(q2, sweep);
    lemma_sum_monotone(q1 * sweep, q2 * sweep, Double::ratio(START_DEG, 1));
}

proof fn lemma_product_commutes(a: Double, b: Double)
    requires
        a.finite(),
        b.finite(),
    ensures
        a * b == b * a,
{
    reveal(Double::spec_mul);
    let x = magnitude(a.index());
    let y = magnitude(b.index());
    assert(x * y == y * x) by (nonlinear_arith);
}

proof fn lemma_shown_monotone(slow: Double, fast: Double, use_mph: bool)
    requires
        slow <= fast,
    ensures
        shown_speed(slow, use_mph) <= shown_speed(fast, use_mph),
{
    lemma_shown(slow, use_mph);
    lemma_shown(fast, use_mph);
    if use_mph {
        let factor = Double::ratio(621_371, 1_000_000);
        lemma_fraction(621_371, 1_000_000);
        lemma_factor();
        if slow.finite() && fast.finite() {
            lemma_product_monotone(slow, fast, factor);
        } else {
            let a = slow * factor;
            let b = fast * factor;
            lemma_order(slow.index(), fast.index());
            lemma_order(slow.index(), 0);
            lemma_order(fast.index(), 0);
            lemma_order(a.index(), b.index());
            lemma_order(a.index(), TOP as nat);
            lemma_order(b.index(), TOP as nat);
            lemma_order(a.index(), 0);
            lemma_order(b.index(), 0);
            reveal(Double::spec_mul);
        }
    }
}

/// The digits show the true speed, also where the needle is pinned.
pub proof fn readout_is_not_cut_off(speed: Double, use_mph: bool)
    requires
        shown_speed(speed, use_mph) > Double::ratio(scale_end(use_mph), 1),
    ensures
        speed_text(speed, true, use_mph) == (Text::Fixed {
            before: "",
            number: shown_speed(speed, use_mph),
            decimals: 0,
            after: "",
        }),
{
    lemma_zero();
    lemma_whole(scale_end(use_mph));
    lemma_pow2_pos(UNIT as nat);
}

/// The first tick is at the start of the scale and the last one at its end.
pub proof fn ticks_span_the_scale(use_mph: bool)
    ensures
        tick_angle(0, use_mph).value() == Double::ratio(150, 1).value(),
        tick_angle(tick_count(use_mph) - 1, use_mph).value() == Double::ratio(390, 1).value(),
{
    lemma_zero();
    lemma_whole(150);
    lemma_whole(390);
    lemma_whole(scale_end(use_mph));
    lemma_pow2_pos(UNIT as nat);
    lemma_angle(Double::ratio(0, 1), use_mph);
    lemma_angle(Double::ratio(scale_end(use_mph), 1), use_mph);
}

/// Every labelled speed has a tick.
pub proof fn labels_stand_at_ticks(use_mph: bool, i: int)
    requires
        0 <= i < majors_of(use_mph).len(),
    ensures
        majors_of(use_mph)[i] % MINOR_STEP == 0,
        majors_of(use_mph)[i] / MINOR_STEP < tick_count(use_mph),
{
}

/// The colour of a level between zero and one is a colour: both parts lie
/// between zero and one.
pub proof fn heat_is_a_colour(level: Double)
    requires
        level >= Double::ratio(0, 1),
        level <= Double::ratio(1, 1),
    ensures
        heat(level).0 >= Double::ratio(0, 1),
        heat(level).0 <= Double::ratio(1, 1),
        heat(level).1 >= Double::ratio(0, 1),
        heat(level).1 <= Double::ratio(1, 1),
{
    let half = Double::ratio(5, 10);
    let unit = Double::ratio(1, 1);
    let two = Double::ratio(2, 1);
    let zero = Double::ratio(0, 1);
    lemma_zero();
    lemma_whole(1);
    lemma_whole(2);
    lemma_half();
    lemma_bounded(level, unit);
    lemma_pow2_pos(UNIT as nat);
    if level <= half {
        lemma_product_monotone(zero, level, two);
        lemma_product_monotone(level, half, two);
        lemma_product_double(half);
    } else {
        let d = level - half;
        lemma_difference(level, half);
        lemma_near_monotone(0, level.value() - half.value());
        lemma_near_monotone(level.value() - half.value(), half.value());
        lemma_near_exact(half);
        lemma_bounded(d, half);
        let e = d * two;
        lemma_product_monotone(zero, d, two);
        lemma_product_monotone(d, half, two);
        lemma_product_double(half);
        lemma_bounded(e, unit);
        lemma_difference(unit, e);
        lemma_near_monotone(0, one() - e.value());
        lemma_near_monotone(one() - e.value(), one() as int);
        lemma_near_exact(unit);
    }
}

} // verus!
