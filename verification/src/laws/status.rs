//! Laws of what the G-force meter says: the total and what the vehicle does.
use crate::canvas::{Command, Text};
use crate::double::arith::UNIT;
use crate::double::errors::{lemma_large, lemma_near_error, lemma_product_error, lemma_ratio_error, lemma_total_error};
use crate::double::facts::{
    lemma_abs, lemma_bounded, lemma_difference, lemma_negated, lemma_sum, lemma_whole, lemma_zero, one,
};
use crate::double::grid::{magnitude, FRACTION};
use crate::double::number::{distance, Double};
use crate::gforce::{bullseye, deflection, dot, gforce_meter, readings};
use crate::laws::gforce::{cut, total_is_not_negative};
use crate::laws::mirror::{lemma_opposite, lemma_same_square, opposite};
use crate::laws::pixels::{
    lemma_coarser, lemma_placed, lemma_placed_minus, lemma_placed_plus, lemma_placed_times, on_screen, placed, stands_at,
};
use vstd::arithmetic::power2::lemma_pow2_pos;
use vstd::prelude::*;

verus! {

/// From a total of 0.08 G on the stronger axis decides, and its sign alone: the
/// longitudinal one where neither is stronger. Below it nothing is done.
pub proof fn stronger_axis_decides(gx: Double, gy: Double, cx: Double, cy: Double, radius: Double)
    requires
        !gx.nan(),
        !gy.nan(),
    ensures
        ({
            let out = gforce_meter(gx, gy, cx, cy, radius);
            let status = out[out.len() - 5]->Caption_text;
            let total = out[out.len() - 1]->Caption_text;
            let busy = total->Fixed_number >= Double::ratio(8, 100);
            let along = distance(gy.value()) >= distance(gx.value());
            &&& out[out.len() - 5] is Caption
            &&& out[out.len() - 1] is Caption
            &&& total is Fixed
            &&& !total->Fixed_number.nan() && total->Fixed_number.value() >= 0
            &&& total->Fixed_decimals == 2
            &&& total->Fixed_before == "" && total->Fixed_after == "g"
            &&& !busy ==> status == Text::Plain("IDLE")
            &&& busy && along && gy.value() > 0 ==> status == Text::Plain("ACC")
            &&& busy && along && gy.value() <= 0 ==> status == Text::Plain("BRAKE")
            &&& busy && !along && gx.value() > 0 ==> status == Text::Plain("TURN R")
            &&& busy && !along && gx.value() <= 0 ==> status == Text::Plain("TURN L")
        }),
{
    let out = gforce_meter(gx, gy, cx, cy, radius);
    let tail = readings(gx, gy, cx, cy, radius);
    lemma_zero();
    lemma_abs(gx);
    lemma_abs(gy);
    lemma_ratio_error(8, 100);
    total_is_not_negative(gx, gy);
    assert(out[out.len() - 5] == tail[3]);
    assert(out[out.len() - 1] == tail[7]);
}

/// The total is the length of both components together: its square is the sum of
/// their squares. So the vehicle is idle exactly below 0.08 G.
pub proof fn total_is_the_length(gx: Double, gy: Double, cx: Double, cy: Double, radius: Double)
    requires
        gx.finite(),
        gy.finite(),
        distance(gx.value()) <= 1_000_000 * one(),
        distance(gy.value()) <= 1_000_000 * one(),
    ensures
        ({
            let out = gforce_meter(gx, gy, cx, cy, radius);
            let total = out[out.len() - 1]->Caption_text->Fixed_number;
            let v = total.value();
            let n = gx.value() * gx.value() + gy.value() * gy.value();
            let square = (one() * one()) as int;
            &&& total.finite()
            &&& v >= 0
            &&& 100_000_000_000 * distance(v * v - n) <= n + 1_000_000_000_000 * one()
            &&& 1_000_000 * n <= 6399 * square ==> total < Double::ratio(8, 100)
            &&& 1_000_000 * n >= 6401 * square ==> total >= Double::ratio(8, 100)
        }),
{
    let out = gforce_meter(gx, gy, cx, cy, radius);
    let tail = readings(gx, gy, cx, cy, radius);
    let o = one() as int;
    lemma_pow2_pos(UNIT as nat);
    lemma_large();
    lemma_total_error(gx, gy);
    lemma_ratio_error(8, 100);
    assert(out[out.len() - 1] == tail[7]);
    let v = (gx * gx + gy * gy).sqrt().value();
    let c = Double::ratio(8, 100).value();
    let n = gx.value() * gx.value() + gy.value() * gy.value();
    let s = o * o;
    assert(o * 1_000_000_000_000_000_000_000_000_000 <= s) by (nonlinear_arith)
        requires
            s == o * o,
            o >= 1_000_000_000_000_000_000_000_000_000,
    ;
    assert(10_000_000 * (c * c) >= 63_999 * s && 10_000_000 * (c * c) <= 64_001 * s) by (nonlinear_arith)
        requires
            s == o * o,
            1_000_000_000 * distance(100 * c - 8 * o) <= o,
            o > 0,
            c >= 0,
    {
        assert(1_000_000_000 * (100 * c) <= 8_000_000_001 * o);
        assert(1_000_000_000 * (100 * c) >= 7_999_999_999 * o);
        assert((100_000_000_000 * c) * (100_000_000_000 * c) <= (8_000_000_001 * o) * (8_000_000_001 * o));
        assert((100_000_000_000 * c) * (100_000_000_000 * c) >= (7_999_999_999 * o) * (7_999_999_999 * o));
    }
    if 1_000_000 * n <= 6399 * s {
        assert(v < c) by (nonlinear_arith)
            requires
                v * v < c * c,
                c >= 0,
        ;
    }
    if 1_000_000 * n >= 6401 * s {
        assert(v >= c) by (nonlinear_arith)
            requires
                v * v > c * c,
                v >= 0,
                c >= 0,
        ;
    }
}

/// The same force to the other side has the same total and, where the
/// longitudinal component decides, the same status.
pub proof fn sides_do_not_matter_along(gx: Double, hx: Double, gy: Double, cx: Double, cy: Double, radius: Double)
    requires
        opposite(gx, hx),
    ensures
        ({
            let a = gforce_meter(gx, gy, cx, cy, radius);
            let b = gforce_meter(hx, gy, cx, cy, radius);
            &&& a[a.len() - 1] == b[b.len() - 1]
            &&& !gx.nan() && !gy.nan() && distance(gy.value()) >= distance(gx.value()) ==> a[a.len() - 5]
                == b[b.len() - 5]
        }),
{
    let a = gforce_meter(gx, gy, cx, cy, radius);
    let b = gforce_meter(hx, gy, cx, cy, radius);
    lemma_opposite(gx, hx);
    lemma_same_square(gx, hx);
    lemma_abs(gx);
    lemma_abs(hx);
    lemma_abs(gy);
    assert(a[a.len() - 1] == readings(gx, gy, cx, cy, radius)[7]);
    assert(b[b.len() - 1] == readings(hx, gy, cx, cy, radius)[7]);
    assert(a[a.len() - 5] == readings(gx, gy, cx, cy, radius)[3]);
    assert(b[b.len() - 5] == readings(hx, gy, cx, cy, radius)[3]);
}

/// Where a component puts the dot, along its axis.
proof fn lemma_spot(c: Double, g: Double, radius: Double)
    requires
        !g.nan(),
        c.finite(),
        radius.finite(),
        distance(c.value()) <= 1_000_000 * one(),
        distance(radius.value()) <= 1_000_000 * one(),
    ensures
        ({
            let place = deflection(g).value() * radius.value();
            let o = one() as int;
            &&& 100_000 * distance(o * (c + deflection(g) * radius).value() - (o * c.value() + place)) <= o * o
            &&& 100_000 * distance(o * (c - deflection(g) * radius).value() - (o * c.value() - place)) <= o * o
            &&& deflection(g).value() == cut(g.value(), -o, o)
        }),
{
    let unit = Double::ratio(1, 1);
    let d = deflection(g);
    let o = one() as int;
    let f = FRACTION as int;
    lemma_pow2_pos(UNIT as nat);
    lemma_large();
    lemma_whole(1);
    lemma_negated(unit);
    lemma_abs(d);
    lemma_bounded(d.abs(), unit);
    let a = magnitude(d.index());
    let b = magnitude(radius.index());
    assert(a * b <= 1_000_000 * (o * o) && a * b <= (0x10_0000_0000_0000 * o) * o) by (nonlinear_arith)
        requires
            a <= o,
            b <= 1_000_000 * o,
            o > 0,
    ;
    lemma_product_error(d, radius);
    let p = d * radius;
    let t = d.value() * radius.value();
    assert(distance(t) == a * b) by (nonlinear_arith)
        requires
            t == d.value() * radius.value(),
            d.value() == a || d.value() == -(a as int),
            radius.value() == b || radius.value() == -(b as int),
    ;
    let s = o * o;
    assert(s >= 1_000_000_000_000 * o) by (nonlinear_arith)
        requires
            s == o * o,
            o >= 1_000_000_000_000_000_000_000_000_000,
    ;
    let e = distance(o * p.value() - t) as int;
    assert(1_000_000 * e <= s) by (nonlinear_arith)
        requires
            (2 * f) * e <= a * b + (2 * f) * o,
            a * b <= 1_000_000 * s,
            f == 0x10_0000_0000_0000,
            s >= 1_000_000_000_000 * o,
            o > 0,
            s == o * o,
    ;
    assert(distance(p.value()) <= 1_000_001 * o) by (nonlinear_arith)
        requires
            1_000_000 * distance(o * p.value() - t) <= s,
            distance(t) <= 1_000_000 * s,
            s == o * o,
            o > 0,
    {
        assert(o * p.value() <= 1_000_001 * s);
        assert(-(o * p.value()) <= 1_000_001 * s);
        assert(o * p.value() <= o * (1_000_001 * o));
        assert(o * (-p.value()) <= o * (1_000_001 * o));
    }
    lemma_sum(c, p);
    lemma_difference(c, p);
    lemma_near_error(c.value() + p.value());
    lemma_near_error(c.value() - p.value());
    lemma_scaled_gap(o, (c + p).value(), c.value() + p.value());
    lemma_scaled_gap(o, (c - p).value(), c.value() - p.value());
    assert(o * (c.value() + p.value()) == o * c.value() + o * p.value()) by (nonlinear_arith);
    assert(o * (c.value() - p.value()) == o * c.value() - o * p.value()) by (nonlinear_arith);
}

proof fn lemma_scaled_gap(o: int, x: int, y: int)
    requires
        o > 0,
        1_000_000_000_000 * distance(x - y) <= distance(y),
        distance(y) <= 3_000_000 * o,
    ensures
        200_000 * distance(o * x - o * y) <= o * o,
{
    let e = distance(x - y) as int;
    assert(distance(o * x - o * y) == o * e) by (nonlinear_arith)
        requires
            e == distance(x - y),
            o > 0,
    ;
    assert(200_000 * (o * e) <= o * o) by (nonlinear_arith)
        requires
            1_000_000_000_000 * e <= 3_000_000 * o,
            o > 0,
    ;
}

/// Where the dot stands: to the right of the middle by the lateral and above it
/// by the longitudinal component, each cut off at 1 G and in units of the radius,
/// to less than a ten-thousandth of a pixel.
pub proof fn dot_stands_at_the_force(gx: Double, gy: Double, cx: Double, cy: Double, radius: Double)
    requires
        !gx.nan(),
        !gy.nan(),
        cx.finite(),
        cy.finite(),
        radius.finite(),
        distance(cx.value()) <= 1_000_000 * one(),
        distance(cy.value()) <= 1_000_000 * one(),
        distance(radius.value()) <= 1_000_000 * one(),
    ensures
        ({
            let out = gforce_meter(gx, gy, cx, cy, radius);
            let o = one() as int;
            let r = radius.value();
            let right = cut(gx.value(), -o, o) * r;
            let up = cut(gy.value(), -o, o) * r;
            &&& out[23] is Circle && out[26] is Circle
            &&& out[26]->Circle_x == out[23]->Circle_x && out[26]->Circle_y == out[23]->Circle_y
            &&& 100_000 * distance(o * out[23]->Circle_x.value() - (o * cx.value() + right)) <= o * o
            &&& 100_000 * distance(o * out[23]->Circle_y.value() - (o * cy.value() - up)) <= o * o
        }),
{
    let out = gforce_meter(gx, gy, cx, cy, radius);
    let d = dot(gx, gy, cx, cy, radius);
    lemma_spot(cx, gx, radius);
    lemma_spot(cy, gy, radius);
    assert(bullseye(cx, cy, radius).len() == 23);
    assert(out[23] == d[0]);
    assert(out[26] == d[3]);
}

/// The meter in units of its radius: a disc of 1.1 with rings at 1 G, 0.5 G and
/// 0.25 G and crosshairs that end at 1 G; a dot of 0.14 with a glow of 0.2; the
/// status 1.3 above and the total 1.38 below the middle.
pub proof fn meter_is_drawn_to_scale(gx: Double, gy: Double, cx: Double, cy: Double, radius: Double)
    requires
        on_screen(cx),
        on_screen(cy),
        on_screen(radius),
        distance(cx.value()) <= 100_000 * one(),
        distance(cy.value()) <= 100_000 * one(),
        distance(radius.value()) <= 50_000 * one(),
    ensures
        ({
            let out = gforce_meter(gx, gy, cx, cy, radius);
            let n = out.len() as int;
            let r = radius.value();
            let x = 1_000_000 * cx.value();
            let y = 1_000_000 * cy.value();
            let centred = |c: Command| c is Circle && c->Circle_x == cx && c->Circle_y == cy;
            &&& n == 38
            &&& centred(out[0]) && stands_at(out[0]->Circle_radius, 1_100_000 * r)
            &&& centred(out[3]) && stands_at(out[3]->Circle_radius, 1_000_000 * r)
            &&& centred(out[7]) && stands_at(out[7]->Circle_radius, 500_000 * r)
            &&& centred(out[11]) && stands_at(out[11]->Circle_radius, 250_000 * r)
            &&& out[17] is MoveTo && out[17]->MoveTo_y == cy && stands_at(out[17]->MoveTo_x, x - 1_000_000 * r)
            &&& out[18] is LineTo && out[18]->LineTo_y == cy && stands_at(out[18]->LineTo_x, x + 1_000_000 * r)
            &&& out[20] is MoveTo && out[20]->MoveTo_x == cx && stands_at(out[20]->MoveTo_y, y - 1_000_000 * r)
            &&& out[21] is LineTo && out[21]->LineTo_x == cx && stands_at(out[21]->LineTo_y, y + 1_000_000 * r)
            &&& out[23] is Circle && stands_at(out[23]->Circle_radius, 140_000 * r)
            &&& out[26] is Circle && stands_at(out[26]->Circle_radius, 200_000 * r)
            &&& out[n - 5] is Caption && out[n - 5]->Caption_x == cx
            &&& stands_at(out[n - 5]->Caption_y, y - 1_300_000 * r)
            &&& out[n - 1] is Caption && out[n - 1]->Caption_x == cx
            &&& stands_at(out[n - 1]->Caption_y, y + 1_380_000 * r)
        }),
{
    let out = gforce_meter(gx, gy, cx, cy, radius);
    let n = out.len() as int;
    let eye = bullseye(cx, cy, radius);
    let spot = dot(gx, gy, cx, cy, radius);
    let tail = readings(gx, gy, cx, cy, radius);
    lemma_pow2_pos(UNIT as nat);
    lemma_of_radius(radius, 110, 1_100_000);
    lemma_of_radius(radius, 100, 1_000_000);
    lemma_of_radius(radius, 50, 500_000);
    lemma_of_radius(radius, 25, 250_000);
    lemma_of_radius(radius, 14, 140_000);
    lemma_of_radius(radius, 20, 200_000);
    lemma_captions(cy, radius);
    lemma_cross(cx, radius);
    lemma_cross(cy, radius);
    assert(eye.len() == 23 && spot.len() == 7 && tail.len() == 8);
    assert(out[0] == eye[0] && out[3] == eye[3] && out[7] == eye[7] && out[11] == eye[11]);
    assert(out[17] == eye[17] && out[18] == eye[18] && out[20] == eye[20] && out[21] == eye[21]);
    assert(out[23] == spot[0] && out[26] == spot[3]);
    assert(out[n - 5] == tail[3] && out[n - 1] == tail[7]);
}

proof fn lemma_of_radius(radius: Double, n: u64, m: int)
    requires
        on_screen(radius),
        distance(radius.value()) <= 50_000 * one(),
        0 < n <= 400,
        m == 10_000 * n,
    ensures
        stands_at(radius * Double::ratio(n, 100), m * radius.value()),
        placed(radius * Double::ratio(n, 100), m * radius.value(), 5),
        distance((radius * Double::ratio(n, 100)).value()) <= 200_001 * one(),
{
    let r = radius.value();
    lemma_pow2_pos(UNIT as nat);
    lemma_placed(radius);
    assert(100 * (m * r) == n * (1_000_000 * r)) by (nonlinear_arith)
        requires
            m == 10_000 * n,
    ;
    lemma_placed_times(radius, 1_000_000 * r, 0, n, 100, m * r, 5);
    lemma_coarser(radius * Double::ratio(n, 100), m * r, 5, 1000);
}

proof fn lemma_captions(cy: Double, radius: Double)
    requires
        on_screen(cy),
        on_screen(radius),
        distance(cy.value()) <= 100_000 * one(),
        distance(radius.value()) <= 50_000 * one(),
    ensures
        stands_at(cy - radius * Double::ratio(130, 100), 1_000_000 * cy.value() - 1_300_000 * radius.value()),
        stands_at(cy + radius * Double::ratio(138, 100), 1_000_000 * cy.value() + 1_380_000 * radius.value()),
{
    let r = radius.value();
    let y = 1_000_000 * cy.value();
    let a = radius * Double::ratio(130, 100);
    let b = radius * Double::ratio(138, 100);
    lemma_pow2_pos(UNIT as nat);
    lemma_placed(cy);
    lemma_of_radius(radius, 130, 1_300_000);
    lemma_of_radius(radius, 138, 1_380_000);
    lemma_placed_minus(cy, y, 0, a, 1_300_000 * r, 5);
    lemma_placed_plus(cy, y, 0, b, 1_380_000 * r, 5);
    lemma_coarser(cy - a, y - 1_300_000 * r, 6, 1000);
    lemma_coarser(cy + b, y + 1_380_000 * r, 6, 1000);
}

proof fn lemma_cross(c: Double, radius: Double)
    requires
        on_screen(c),
        on_screen(radius),
        distance(c.value()) <= 100_000 * one(),
        distance(radius.value()) <= 50_000 * one(),
    ensures
        stands_at(c - radius, 1_000_000 * c.value() - 1_000_000 * radius.value()),
        stands_at(c + radius, 1_000_000 * c.value() + 1_000_000 * radius.value()),
{
    let r = 1_000_000 * radius.value();
    let x = 1_000_000 * c.value();
    lemma_pow2_pos(UNIT as nat);
    lemma_placed(c);
    lemma_placed(radius);
    lemma_placed_minus(c, x, 0, radius, r, 0);
    lemma_placed_plus(c, x, 0, radius, r, 0);
    lemma_coarser(c - radius, x - r, 1, 1000);
    lemma_coarser(c + radius, x + r, 1, 1000);
}

} // verus!
