//! Laws of the arrangement in the window.
use crate::canvas::{rgb, Command};
use crate::dial::DialRays;
use crate::double::arith::UNIT;
use crate::double::facts::{
    lemma_bounded, lemma_difference, lemma_division, lemma_division_monotone, lemma_division_zero,
    lemma_fraction, lemma_half, lemma_near_exact, lemma_near_monotone, lemma_nearest_close,
    lemma_nearest_doubled, lemma_negated, lemma_power_ratio, lemma_product, lemma_product_shrinks,
    lemma_product_sign, lemma_product_zero, lemma_ratio, lemma_ratio_order, lemma_whole, lemma_zero,
    one,
};
use crate::double::grid::{
    lemma_magnitude_at, lemma_nearest_exact, lemma_nearest_monotone, lemma_order, magnitude,
    nearest, FRACTION,
};
use crate::double::number::Double;
use crate::double::remainder::lemma_representable;
use crate::double::rounding::lemma_pow2_52;
use crate::gps_status::{dot_colour, gps_status, hint_text};
use crate::info::{accel_disabled_note, info_labels};
use crate::layout::{
    landscape, landscape_plain, landscape_size, portrait, portrait_of, portrait_plain, speedometer,
    Frame,
};
use crate::window::good_fix;
use vstd::arithmetic::power2::{
    lemma2_to64, lemma_pow2_adds, lemma_pow2_pos, lemma_pow2_strictly_increases, pow2,
};
use vstd::prelude::*;

verus! {

/// The value of a whole number of pixels.
pub(crate) proof fn lemma_integer(i: i32)
    ensures
        Double::from_int(i).finite(),
        Double::from_int(i).value() == i * one(),
{
    if i < 0 {
        lemma_whole((-i) as u64);
        lemma_negated(Double::ratio((-i) as u64, 1));
        assert(-((-i) * one()) == i * one()) by (nonlinear_arith);
    } else {
        lemma_whole(i as u64);
    }
}

/// A window that is wider than high has the wide arrangement, and every other
/// one the tall arrangement.
pub proof fn wide_windows_are_split(f: Frame, rays: DialRays, width: i32, height: i32)
    ensures
        ({
            let w = Double::from_int(width);
            let h = Double::from_int(height);
            speedometer(f, rays, width, height) == seq![rgb(10, 10, 12), Command::Paint] + (if width > height {
                landscape(f, rays, w, h)
            } else {
                portrait(f, rays, w, h)
            })
        }),
{
    lemma_integer(width);
    lemma_integer(height);
    lemma_pow2_pos(UNIT as nat);
    assert(width > height <==> width * one() > height * one()) by (nonlinear_arith)
        requires
            one() > 0,
    ;
}

/// The factors of the dial's size: the radius of its arc is 0.42 of it, and 0.84
/// is exactly twice that, as a number too.
proof fn lemma_dial_factors()
    ensures
        Double::ratio(42, 100).finite(),
        Double::ratio(84, 100).finite(),
        0 < Double::ratio(42, 100).value(),
        Double::ratio(84, 100).value() == 2 * Double::ratio(42, 100).value(),
        Double::ratio(84, 100).value() <= one(),
{
    let f = FRACTION as nat;
    let quarter = Double::ratio(1, 4);
    let unit = Double::ratio(1, 1);
    let radius = Double::ratio(42, 100);
    lemma2_to64();
    lemma_pow2_52();
    lemma_pow2_pos(UNIT as nat);
    lemma_fraction(42, 100);
    lemma_fraction(84, 100);
    lemma_ratio(42, 100);
    lemma_ratio(84, 100);
    lemma_whole(1);
    lemma_power_ratio(4, 2);
    lemma_ratio_order(1, 4, 42, 100);
    lemma_ratio_order(42, 100, 1, 1);
    lemma_pow2_adds(52, 1022);
    lemma_pow2_adds(52, 1020);
    lemma_pow2_adds(2, 1072);
    lemma_magnitude_at(f, 1022);
    lemma_magnitude_at(f, 1020);
    lemma_order(unit.index(), 1022 * f + f);
    lemma_order(quarter.index(), 1020 * f + f);
    lemma_order(quarter.index(), radius.index());
    lemma_order(radius.index(), unit.index());
    assert(2 * (42 * one()) == 84 * one());
    lemma_nearest_doubled(42 * one(), 100);
}

/// The height between the margins is at least half of the window's.
proof fn lemma_usable_height(height: i32)
    requires
        height >= 0,
    ensures
        ({
            let h = Double::from_int(height);
            let usable_h = h - h * Double::ratio(17, 100) - h * Double::ratio(22, 100);
            &&& usable_h.finite()
            &&& 2 * usable_h.value() >= height * one()
        }),
{
    let h = Double::from_int(height);
    let top = h * Double::ratio(17, 100);
    let bottom = h * Double::ratio(22, 100);
    let part = pow2((UNIT - 2) as nat);
    lemma_integer(height);
    lemma_pow2_pos(UNIT as nat);
    lemma2_to64();
    lemma_pow2_adds(2, (UNIT - 2) as nat);
    assert(h.value() == 4 * (height * part) && 0 <= height * part) by (nonlinear_arith)
        requires
            h.value() == height * one(),
            one() == 4 * part,
            height >= 0,
    ;
    lemma_fraction(17, 100);
    lemma_fraction(22, 100);
    lemma_power_ratio(4, 2);
    lemma_ratio_order(17, 100, 1, 4);
    lemma_ratio_order(22, 100, 1, 4);
    lemma_share(h, Double::ratio(17, 100), height as nat);
    lemma_share(h, Double::ratio(22, 100), height as nat);
    let rest = h - top;
    lemma_difference(h, top);
    let k = lemma_representable((3 * height) as nat, (UNIT - 2) as nat);
    let three = Double::of(false, k);
    assert((3 * height) * part == 3 * (height * part)) by (nonlinear_arith);
    lemma_near_monotone(three.value(), h.value() - top.value());
    lemma_near_monotone(h.value() - top.value(), h.value());
    lemma_near_exact(three);
    lemma_near_exact(h);
    lemma_bounded(rest, h);
    let usable_h = rest - bottom;
    lemma_difference(rest, bottom);
    let j = lemma_representable((2 * height) as nat, (UNIT - 2) as nat);
    let two = Double::of(false, j);
    assert((2 * height) * part == 2 * (height * part)) by (nonlinear_arith);
    lemma_near_monotone(two.value(), rest.value() - bottom.value());
    lemma_near_monotone(rest.value() - bottom.value(), rest.value());
    lemma_near_exact(two);
    lemma_near_exact(rest);
    lemma_bounded(usable_h, rest);
}

/// At most a quarter of a whole number, rounded, is at most a quarter of it.
proof fn lemma_share(h: Double, factor: Double, n: nat)
    requires
        h.finite(),
        n <= i32::MAX,
        h.value() == n * one(),
        factor.finite(),
        factor.value() >= 0,
        4 * factor.value() <= one(),
    ensures
        (h * factor).finite(),
        0 <= (h * factor).value() <= n * pow2((UNIT - 2) as nat),
{
    let part = pow2((UNIT - 2) as nat);
    lemma2_to64();
    lemma_pow2_pos(UNIT as nat);
    lemma_pow2_adds(2, (UNIT - 2) as nat);
    lemma_order(0, h.index());
    lemma_order(0, factor.index());
    lemma_product(h, factor);
    lemma_product_sign(h, factor);
    lemma_product_shrinks(h, factor);
    let k = lemma_representable(n, (UNIT - 2) as nat);
    let x = magnitude(h.index());
    let y = magnitude(factor.index());
    assert((x * y) * one() <= (magnitude(k) * one()) * one()) by (nonlinear_arith)
        requires
            x == n * one(),
            4 * y <= one(),
            one() == 4 * part,
            magnitude(k) == n * part,
    ;
    lemma_nearest_monotone(x * y, one(), magnitude(k) * one(), one());
    lemma_nearest_exact(magnitude(k) * one(), one(), k);
    lemma_order((h * factor).index(), k);
}

/// Two roundings in a row, of a quotient and of a product that undoes it.
proof fn lemma_two_roundings(u: nat, c: nat, h: nat, q: nat, r: nat)
    requires
        c * q * (2 * FRACTION) <= (u * one()) * (2 * FRACTION + 1),
        one() * r * (2 * FRACTION) <= (q * h) * (2 * FRACTION + 1),
        c == 2 * h,
        h > 0,
    ensures
        (2 * FRACTION) * r <= (FRACTION + 2) * u,
{
    let f = FRACTION as int;
    let e = 2 * f + 1;
    let o = one() as int;
    lemma_pow2_pos(UNIT as nat);
    assert((o * r * (2 * f)) * (c * (2 * f)) <= ((q * h) * e) * (c * (2 * f))) by (nonlinear_arith)
        requires
            o * r * (2 * f) <= (q * h) * e,
            c >= 0,
            f > 0,
    ;
    assert((c * q * (2 * f)) * (h * e) <= ((u * o) * e) * (h * e)) by (nonlinear_arith)
        requires
            c * q * (2 * f) <= (u * o) * e,
            h > 0,
            e > 0,
    ;
    assert(((q * h) * e) * (c * (2 * f)) == (c * q * (2 * f)) * (h * e)) by (nonlinear_arith);
    assert((o * r * (2 * f)) * (c * (2 * f)) == (2 * o * h) * (r * (4 * f * f))) by (nonlinear_arith)
        requires
            c == 2 * h,
    ;
    assert(((u * o) * e) * (h * e) == (o * h) * (u * (e * e))) by (nonlinear_arith);
    assert(2 * (r * (4 * f * f)) <= u * (e * e)) by (nonlinear_arith)
        requires
            (2 * o * h) * (r * (4 * f * f)) <= (o * h) * (u * (e * e)),
            o > 0,
            h > 0,
    ;
    assert(u * (e * e) <= (4 * f) * ((f + 2) * u)) by (nonlinear_arith)
        requires
            e == 2 * f + 1,
            f >= 1,
            u >= 0,
    ;
    assert((2 * f) * r <= (f + 2) * u) by (nonlinear_arith)
        requires
            2 * (r * (4 * f * f)) <= (4 * f) * ((f + 2) * u),
            f > 0,
    ;
}

/// In a tall window the dial is no wider than the window, and its arc is no
/// higher than the height between the margins, up to one part in two to the
/// power of 51 that rounding may add.
pub proof fn portrait_dial_fits(width: i32, height: i32)
    requires
        width >= 0,
        height >= 0,
    ensures
        ({
            let w = Double::from_int(width);
            let h = Double::from_int(height);
            let usable_h = h - h * Double::ratio(17, 100) - h * Double::ratio(22, 100);
            let size = portrait_of(w, h).size;
            let radius = size * Double::ratio(42, 100);
            &&& Double::ratio(0, 1) <= size
            &&& size <= w
            &&& size <= usable_h / Double::ratio(84, 100)
            &&& (2 * FRACTION) * radius.value() <= (FRACTION + 2) * usable_h.value()
        }),
{
    let w = Double::from_int(width);
    let h = Double::from_int(height);
    let usable_h = h - h * Double::ratio(17, 100) - h * Double::ratio(22, 100);
    let most = Double::ratio(84, 100);
    let factor = Double::ratio(42, 100);
    let quotient = usable_h / most;
    let size = portrait_of(w, h).size;
    let radius = size * factor;
    lemma_zero();
    lemma_pow2_pos(UNIT as nat);
    lemma_integer(width);
    lemma_dial_factors();
    lemma_usable_height(height);
    assert(w.value() >= 0 && usable_h.value() >= 0) by (nonlinear_arith)
        requires
            w.value() == width * one(),
            width >= 0,
            2 * usable_h.value() >= height * one(),
            height >= 0,
    ;
    lemma_order(0, usable_h.index());
    lemma_order(0, most.index());
    lemma_order(0, factor.index());
    lemma_division(usable_h, most);
    lemma_division_monotone(Double::ratio(0, 1), usable_h, most);
    lemma_division_zero(Double::ratio(0, 1), most);
    lemma_order(0, quotient.index());
    lemma_bounded(size, w);
    lemma_order(0, size.index());
    lemma_product(size, factor);
    lemma_product_sign(size, factor);
    lemma_order(0, radius.index());
    let u = magnitude(usable_h.index());
    let q = magnitude(quotient.index());
    let c = magnitude(most.index());
    let f = magnitude(factor.index());
    let s = magnitude(size.index());
    let k = nearest(q * f, one());
    assert((s * f) * one() <= (q * f) * one()) by (nonlinear_arith)
        requires
            s <= q,
    ;
    lemma_nearest_monotone(s * f, one(), q * f, one());
    lemma_order(radius.index(), k);
    lemma_nearest_close(u * one(), c);
    lemma_nearest_close(q * f, one());
    if height == 0 {
        lemma_no_height();
        lemma_division_zero(usable_h, most);
        assert(q * f == 0 && magnitude(0) * one() == 0) by (nonlinear_arith)
            requires
                q == 0,
                magnitude(0) == 0,
        ;
        lemma_nearest_exact(0, one(), 0);
    } else {
        lemma_large(height, u, c, quotient.index());
        if k > FRACTION {
            lemma_two_roundings(u, c, f, q, magnitude(k));
        } else {
            lemma_order(k, FRACTION as nat);
            lemma_tiny(u, magnitude(k));
        }
        assert((2 * FRACTION) * magnitude(radius.index()) <= (2 * FRACTION) * magnitude(k)) by (nonlinear_arith)
            requires
                magnitude(radius.index()) <= magnitude(k),
        ;
    }
}

/// In a window without a height there is none between the margins.
proof fn lemma_no_height()
    ensures
        ({
            let h = Double::from_int(0);
            (h - h * Double::ratio(17, 100) - h * Double::ratio(22, 100)).value() == 0
        }),
{
    let h = Double::from_int(0);
    lemma_zero();
    lemma_fraction(17, 100);
    lemma_fraction(22, 100);
    lemma_product_zero(h, Double::ratio(17, 100));
    lemma_product_zero(h, Double::ratio(22, 100));
    let rest = h - h * Double::ratio(17, 100);
    lemma_difference(h, h * Double::ratio(17, 100));
    lemma_near_monotone(0, 0);
    lemma_bounded(rest, h);
    lemma_difference(rest, h * Double::ratio(22, 100));
}

/// From half a pixel on, a quotient by at most one is not tiny.
proof fn lemma_large(height: i32, u: nat, c: nat, k: nat)
    requires
        height > 0,
        2 * u >= height * one(),
        0 < c <= one(),
        k == nearest(u * one(), c),
    ensures
        k > FRACTION,
        2 * u >= one(),
{
    let half = Double::ratio(5, 10);
    let m = magnitude(half.index());
    lemma_half();
    lemma_pow2_pos(UNIT as nat);
    assert(2 * u >= one()) by (nonlinear_arith)
        requires
            2 * u >= height * one(),
            height >= 1,
    ;
    assert(m * c <= u * one()) by (nonlinear_arith)
        requires
            m <= u,
            c <= one(),
    ;
    assert((m * 1) * c <= (u * one()) * 1);
    lemma_nearest_monotone(m * 1, 1, u * one(), c);
    lemma_nearest_exact(m * 1, 1, half.index());
    lemma_unit_is_large();
    lemma_order(FRACTION as nat, half.index());
}

proof fn lemma_unit_is_large()
    ensures
        one() > 8 * (FRACTION * FRACTION),
        magnitude(FRACTION as nat) == FRACTION,
{
    lemma2_to64();
    lemma_pow2_52();
    lemma_pow2_adds(52, 52);
    lemma_pow2_adds(104, 4);
    lemma_pow2_strictly_increases(108, UNIT as nat);
    lemma_magnitude_at(FRACTION as nat, 0);
    assert(0 * FRACTION as nat + FRACTION as nat == FRACTION);
}

proof fn lemma_tiny(u: nat, r: nat)
    requires
        2 * u >= one(),
        r <= magnitude(FRACTION as nat),
    ensures
        (2 * FRACTION) * r <= (FRACTION + 2) * u,
{
    lemma_unit_is_large();
    assert((2 * FRACTION) * r <= (FRACTION + 2) * u) by (nonlinear_arith)
        requires
            r <= FRACTION,
            2 * u >= 8 * (FRACTION * FRACTION),
    ;
}

/// The note that stands in for the G-force meter is kept above the lower edge, in
/// a tall window and in a wide one.
pub proof fn note_stays_above_the_edge(f: Frame, width: i32, height: i32)
    requires
        width >= 0,
        height >= 0,
    ensures
        ({
            let h = Double::from_int(height);
            let p = portrait_of(Double::from_int(width), h);
            let top = p.band_center_y - p.row_gap * Double::ratio(2, 1);
            exists|y: Double|
                y <= h - p.size * Double::ratio(9, 100) && portrait_plain(f, p, h) == info_labels(
                    f.altitude,
                    f.latitude,
                    f.longitude,
                    f.has_fix,
                    p.cx,
                    top,
                    p.row_gap,
                    p.size,
                ) + #[trigger] accel_disabled_note(p.cx, y, p.size)
        }),
        ({
            let h = Double::from_int(height);
            let half_w = Double::from_int(width) / Double::ratio(2, 1);
            let size = landscape_size(half_w, h);
            let cx = half_w + half_w / Double::ratio(2, 1);
            exists|y: Double|
                y <= h * Double::ratio(90, 100) && landscape_plain(f, half_w, h, size) == gps_status(
                    f.accuracy,
                    f.has_fix,
                    f.elapsed_s,
                    cx,
                    h * Double::ratio(15, 100),
                    size,
                ) + info_labels(
                    f.altitude,
                    f.latitude,
                    f.longitude,
                    f.has_fix,
                    cx,
                    h * Double::ratio(40, 100),
                    size * Double::ratio(75, 1000),
                    size,
                ) + #[trigger] accel_disabled_note(cx, y, size)
        }),
{
    let w = Double::from_int(width);
    let h = Double::from_int(height);
    let p = portrait_of(w, h);
    lemma_zero();
    lemma_integer(width);
    lemma_integer(height);
    portrait_dial_fits(width, height);
    lemma_bounded(p.size, w);
    lemma_fraction(9, 100);
    lemma_fraction(90, 100);
    lemma_product_shrinks(p.size, Double::ratio(9, 100));
    lemma_difference(h, p.size * Double::ratio(9, 100));
    lemma_product_shrinks(h, Double::ratio(90, 100));
    let top = p.band_center_y - p.row_gap * Double::ratio(2, 1);
    let low = (top + Double::ratio(35, 10) * p.row_gap).min(h - p.size * Double::ratio(9, 100));
    assert(accel_disabled_note(p.cx, low, p.size) == accel_disabled_note(p.cx, low, p.size));
    let half_w = w / Double::ratio(2, 1);
    let size = landscape_size(half_w, h);
    let cx = half_w + half_w / Double::ratio(2, 1);
    let gap = size * Double::ratio(75, 1000);
    let wide = (h * Double::ratio(40, 100) + Double::ratio(35, 10) * gap).min(h * Double::ratio(90, 100));
    assert(accel_disabled_note(cx, wide, size) == accel_disabled_note(cx, wide, size));
}

/// Without a fix there is nothing to read in the rows of text.
pub proof fn rows_are_empty_without_a_fix(
    altitude: Double,
    latitude: Double,
    longitude: Double,
    cx: Double,
    top: Double,
    gap: Double,
    size: Double,
)
    ensures
        info_labels(altitude, latitude, longitude, false, cx, top, gap, size) == Seq::<Command>::empty(),
{
}

/// The dot is green exactly under the condition that ends the search, and
/// there is a hint exactly where it is not. With an accuracy that is not a number
/// the dot is not green, but there is no hint.
pub proof fn dot_is_green_on_a_good_fix(accuracy: Double, has_fix: bool)
    ensures
        good_fix(has_fix, accuracy) <==> dot_colour(accuracy, has_fix) == rgb(18, 85, 30),
        !accuracy.nan() ==> (good_fix(has_fix, accuracy) <==> hint_text(accuracy, has_fix) is None),
{
    lemma_whole(10);
    lemma2_to64();
    lemma_pow2_pos(UNIT as nat);
    lemma_power_ratio(2, 1);
    lemma_power_ratio(4, 2);
    lemma_ratio_order(18, 100, 1, 4);
    lemma_ratio_order(1, 2, 90, 100);
    lemma_ratio_order(1, 2, 95, 100);
}

} // verus!
