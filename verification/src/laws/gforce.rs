//! Laws of the G-force meter.
use crate::canvas::heat;
use crate::double::arith::UNIT;
use crate::double::facts::{
    lemma_abs, lemma_bounded, lemma_difference, lemma_half, lemma_multiple, lemma_near_exact,
    lemma_near_monotone, lemma_near_multiple, lemma_negated, lemma_product, lemma_product_double,
    lemma_product_monotone, lemma_product_shrinks, lemma_product_sign, lemma_root_sign,
    lemma_square, lemma_sum, lemma_sum_sign, lemma_twice, lemma_whole, lemma_zero, one,
};
use crate::double::grid::{lemma_order, magnitude, FRACTION};
use crate::double::number::Double;
use crate::double::rounding::lemma_pow2_52;
use crate::gforce::{deflection, dot, total_of};
use crate::sensor::Vector;
use vstd::arithmetic::power2::{lemma_pow2_adds, lemma_pow2_pos, lemma_pow2_unfold, pow2};
use vstd::prelude::*;

verus! {

/// The total of two components is a number and is not negative.
pub proof fn total_is_not_negative(gx: Double, gy: Double)
    requires
        !gx.nan(),
        !gy.nan(),
    ensures
        total_of(gx, gy) >= Double::ratio(0, 1),
{
    lemma_zero();
    lemma_square(gx);
    lemma_square(gy);
    lemma_sum_sign(gx * gx, gy * gy);
    lemma_root_sign(gx * gx + gy * gy);
}

/// The length of a vector is a number and is not negative.
pub proof fn length_is_not_negative(v: Vector)
    requires
        !v.x.nan(),
        !v.y.nan(),
        !v.z.nan(),
    ensures
        v.norm() >= Double::ratio(0, 1),
{
    lemma_zero();
    lemma_square(v.x);
    lemma_square(v.y);
    lemma_square(v.z);
    lemma_sum_sign(v.x * v.x, v.y * v.y);
    lemma_sum_sign(v.x * v.x + v.y * v.y, v.z * v.z);
    lemma_root_sign(v.x * v.x + v.y * v.y + v.z * v.z);
}

/// Neither component moves the dot by more than the radius.
proof fn lemma_deflected(g: Double, radius: Double)
    requires
        !g.nan(),
        radius.finite(),
        radius >= Double::ratio(0, 1),
    ensures
        (deflection(g) * radius).finite(),
        -radius.value() <= (deflection(g) * radius).value() <= radius.value(),
{
    let unit = Double::ratio(1, 1);
    let d = deflection(g);
    lemma_zero();
    lemma_whole(1);
    lemma_negated(unit);
    lemma_pow2_pos(UNIT as nat);
    assert(-(one() as int) <= d.value() <= one());
    lemma_abs(d);
    lemma_bounded(d.abs(), unit);
    lemma_product(d, radius);
    lemma_product(radius, d);
    assert(magnitude(d.index()) * magnitude(radius.index()) == magnitude(radius.index()) * magnitude(d.index()))
        by (nonlinear_arith);
    lemma_product_shrinks(radius, d);
}

/// The dot, and the glow around it, never leave the square around the outer
/// ring: their point lies between the edges where the crosshairs end.
pub proof fn dot_stays_in_the_meter(gx: Double, gy: Double, cx: Double, cy: Double, radius: Double)
    requires
        !gx.nan(),
        !gy.nan(),
        cx.finite(),
        cy.finite(),
        radius.finite(),
        radius >= Double::ratio(0, 1),
    ensures
        ({
            let drawn = dot(gx, gy, cx, cy, radius);
            let x = drawn[0]->Circle_x;
            let y = drawn[0]->Circle_y;
            &&& drawn[0] is Circle
            &&& drawn[3] is Circle && drawn[3]->Circle_x == x && drawn[3]->Circle_y == y
            &&& cx - radius <= x && x <= cx + radius
            &&& cy - radius <= y && y <= cy + radius
        }),
{
    let right = deflection(gx) * radius;
    let up = deflection(gy) * radius;
    lemma_deflected(gx, radius);
    lemma_deflected(gy, radius);
    lemma_sum(cx, right);
    lemma_sum(cx, radius);
    lemma_difference(cx, radius);
    lemma_near_monotone(cx.value() - radius.value(), cx.value() + right.value());
    lemma_near_monotone(cx.value() + right.value(), cx.value() + radius.value());
    lemma_difference(cy, up);
    lemma_sum(cy, radius);
    lemma_difference(cy, radius);
    lemma_near_monotone(cy.value() - radius.value(), cy.value() - up.value());
    lemma_near_monotone(cy.value() - up.value(), cy.value() + radius.value());
}

/// An integer moved into the given range.
pub open spec fn cut(x: int, low: int, high: int) -> int {
    if x < low {
        low
    } else if x > high {
        high
    } else {
        x
    }
}

/// The colour of the dot in closed form, exact to the last bit: with a total of
/// `t` G there is `2 t` of red and `2 - 2 t` of green, each cut off at zero and
/// one. So it is green at 0 G, yellow at 0.5 G, and red from 1 G on.
pub proof fn dot_colour_follows_the_total(gx: Double, gy: Double, cx: Double, cy: Double, radius: Double)
    requires
        !gx.nan(),
        !gy.nan(),
    ensures
        ({
            let t = total_of(gx, gy).value();
            let drawn = dot(gx, gy, cx, cy, radius);
            let full = one() as int;
            &&& drawn[1] is SourceRgb
            &&& drawn[1]->SourceRgb_red.value() == cut(2 * t, 0, full)
            &&& drawn[1]->SourceRgb_green.value() == cut(2 * full - 2 * t, 0, full)
            &&& drawn[4]->SourceRgba_red == drawn[1]->SourceRgb_red
            &&& drawn[4]->SourceRgba_green == drawn[1]->SourceRgb_green
        }),
{
    let level = total_of(gx, gy);
    let half = Double::ratio(5, 10);
    let unit = Double::ratio(1, 1);
    total_is_not_negative(gx, gy);
    lemma_zero();
    lemma_whole(1);
    lemma_half();
    lemma_pow2_pos(UNIT as nat);
    if level <= half {
        lemma_twice(level);
    } else {
        lemma_shade(level);
        if level <= unit {
            lemma_exact_shade(level);
        } else {
            lemma_exact_shade(unit);
            lemma_shades(unit, level);
        }
    }
}

/// Up to one, both parts are exact.
pub(crate) proof fn lemma_exact_heat(level: Double)
    requires
        level >= Double::ratio(0, 1),
        level <= Double::ratio(1, 1),
    ensures
        heat(level).0.value() == cut(2 * level.value(), 0, one() as int),
        heat(level).1.value() == cut(2 * one() - 2 * level.value(), 0, one() as int),
{
    lemma_zero();
    lemma_whole(1);
    lemma_half();
    lemma_pow2_pos(UNIT as nat);
    if level <= Double::ratio(5, 10) {
        lemma_twice(level);
    } else {
        lemma_exact_shade(level);
    }
}

/// Between one half and one the green part is exact.
proof fn lemma_exact_shade(level: Double)
    requires
        level > Double::ratio(5, 10),
        level <= Double::ratio(1, 1),
    ensures
        heat(level).1.value() == 2 * one() - 2 * level.value(),
{
    let half = Double::ratio(5, 10);
    let unit = Double::ratio(1, 1);
    let f = FRACTION as int;
    let q = (UNIT - 53) as nat;
    let g = pow2(q) as int;
    lemma_whole(1);
    lemma_whole(2);
    lemma_half();
    lemma_pow2_52();
    lemma_pow2_pos(q);
    lemma_pow2_adds(52, q);
    lemma_pow2_unfold(UNIT as nat);
    lemma_pow2_pos(UNIT as nat);
    assert(half.value() == f * g);
    lemma_order(0, level.index());
    lemma_bounded(level, unit);
    let m = lemma_multiple(level.index(), q);
    assert(f < m <= 2 * f) by (nonlinear_arith)
        requires
            f * g < m * g <= 2 * (f * g),
            g > 0,
    ;
    let d = level - half;
    lemma_difference(level, half);
    assert(m * g - f * g == (m - f) * g) by (nonlinear_arith);
    lemma_near_multiple(m - f, q);
    lemma_bounded(d, half);
    lemma_twice(d);
    let e = d * Double::ratio(2, 1);
    lemma_difference(unit, e);
    assert(2 * (f * g) - 2 * ((m - f) * g) == (4 * f - 2 * m) * g) by (nonlinear_arith);
    assert(m > f);
    lemma_near_multiple(4 * f - 2 * m, q);
}

/// The colour of the dot is a colour: both parts lie between zero and one,
/// however strong the force.
pub proof fn dot_colour_is_a_colour(gx: Double, gy: Double)
    requires
        !gx.nan(),
        !gy.nan(),
    ensures
        ({
            let (red, shade) = heat(total_of(gx, gy));
            let green = shade.clamp(Double::ratio(0, 1), Double::ratio(1, 1));
            &&& red >= Double::ratio(0, 1)
            &&& red <= Double::ratio(1, 1)
            &&& green >= Double::ratio(0, 1)
            &&& green <= Double::ratio(1, 1)
        }),
{
    let level = total_of(gx, gy);
    let half = Double::ratio(5, 10);
    let two = Double::ratio(2, 1);
    let zero = Double::ratio(0, 1);
    total_is_not_negative(gx, gy);
    lemma_zero();
    lemma_whole(1);
    lemma_whole(2);
    lemma_half();
    lemma_pow2_pos(UNIT as nat);
    if level <= half {
        lemma_bounded(level, half);
        lemma_product_monotone(zero, level, two);
        lemma_product_monotone(level, half, two);
        lemma_product_double(half);
    } else {
        lemma_shade(level);
    }
}

/// The colour goes from green over yellow to red: a higher level has no less red
/// and no more green.
pub proof fn heat_rises(cool: Double, hot: Double)
    requires
        cool >= Double::ratio(0, 1),
        cool <= hot,
    ensures
        heat(cool).0 <= heat(hot).0,
        heat(cool).1 >= heat(hot).1,
{
    let half = Double::ratio(5, 10);
    let two = Double::ratio(2, 1);
    lemma_zero();
    lemma_whole(1);
    lemma_whole(2);
    lemma_half();
    lemma_pow2_pos(UNIT as nat);
    if cool <= half {
        lemma_bounded(cool, half);
        lemma_product_monotone(cool, half, two);
        lemma_product_double(half);
    }
    if hot <= half {
        lemma_bounded(hot, half);
        lemma_product_monotone(cool, hot, two);
    } else {
        lemma_shade(hot);
        if cool > half {
            lemma_shade(cool);
            lemma_shades(cool, hot);
        }
    }
}

/// Above one half, a higher level has no more green.
proof fn lemma_shades(cool: Double, hot: Double)
    requires
        cool > Double::ratio(5, 10),
        cool <= hot,
    ensures
        ({
            let unit = Double::ratio(1, 1);
            let two = Double::ratio(2, 1);
            let half = Double::ratio(5, 10);
            unit - (cool - half) * two >= unit - (hot - half) * two
        }),
{
    let half = Double::ratio(5, 10);
    let unit = Double::ratio(1, 1);
    let two = Double::ratio(2, 1);
    let d1 = cool - half;
    let d2 = hot - half;
    let e1 = d1 * two;
    let e2 = d2 * two;
    lemma_half();
    lemma_whole(1);
    lemma_whole(2);
    lemma_pow2_pos(UNIT as nat);
    lemma_shade(cool);
    lemma_shade(hot);
    lemma_order(cool.index(), hot.index());
    lemma_order(0, cool.index());
    lemma_order(0, hot.index());
    if cool.finite() && hot.finite() {
        lemma_difference(cool, half);
        lemma_difference(hot, half);
        lemma_near_monotone(0, cool.value() - half.value());
        lemma_near_monotone(cool.value() - half.value(), hot.value() - half.value());
        lemma_near_monotone(hot.value() - half.value(), hot.value());
        lemma_near_exact(hot);
        lemma_bounded(d2, hot);
        lemma_bounded(d1, d2);
        lemma_product_monotone(d1, d2, two);
        lemma_negated(e1);
        lemma_negated(e2);
        lemma_order(e1.index(), e2.index());
        if e1.finite() && e2.finite() {
            lemma_difference(unit, e1);
            lemma_difference(unit, e2);
            lemma_near_monotone(unit.value() - e2.value(), unit.value() - e1.value());
        } else {
            lemma_lowest(unit - e2, unit - e1, e2);
        }
    } else {
        assert(d2.infinite() && !d2.negative()) by {
            reveal(Double::spec_add);
        }
        lemma_order(0, two.index());
        assert(e2.infinite() && !e2.negative()) by {
            reveal(Double::spec_mul);
        }
        lemma_lowest(unit - e2, unit - e1, e2);
    }
}

/// Taking something infinite away from one gives the lowest number there is.
proof fn lemma_lowest(low: Double, other: Double, e: Double)
    requires
        low == Double::ratio(1, 1) - e,
        !e.nan(),
        !e.finite(),
        e.value() >= 0,
        !other.nan(),
    ensures
        low <= other,
{
    lemma_whole(1);
    lemma_negated(e);
    lemma_order(0, e.index());
    lemma_order(other.index(), e.index());
    reveal(Double::spec_add);
}

proof fn lemma_shade(level: Double)
    requires
        level > Double::ratio(5, 10),
    ensures
        !(Double::ratio(1, 1) - (level - Double::ratio(5, 10)) * Double::ratio(2, 1)).nan(),
        Double::ratio(1, 1) - (level - Double::ratio(5, 10)) * Double::ratio(2, 1) <= Double::ratio(1, 1),
{
    let half = Double::ratio(5, 10);
    let unit = Double::ratio(1, 1);
    let two = Double::ratio(2, 1);
    let d = level - half;
    let e = d * two;
    lemma_whole(1);
    lemma_whole(2);
    lemma_half();
    lemma_pow2_pos(UNIT as nat);
    lemma_order(0, two.index());
    lemma_order(0, level.index());
    lemma_negated(half);
    lemma_negated(e);
    if level.finite() {
        lemma_difference(level, half);
        lemma_near_monotone(0, level.value() - half.value());
        lemma_near_monotone(level.value() - half.value(), level.value());
        lemma_near_exact(level);
        lemma_bounded(d, level);
        lemma_product_sign(d, two);
    } else {
        assert(d.infinite()) by {
            reveal(Double::spec_add);
        }
        assert(!e.nan() && !e.negative()) by {
            reveal(Double::spec_add);
            reveal(Double::spec_mul);
        }
    }
    lemma_order(0, e.index());
    if e.finite() {
        lemma_difference(unit, e);
        lemma_near_monotone(unit.value() - e.value(), unit.value());
        lemma_near_exact(unit);
    } else {
        lemma_lowest(unit - e, unit, e);
        reveal(Double::spec_add);
    }
}

} // verus!
