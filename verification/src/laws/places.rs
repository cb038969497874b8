//! Laws of what stands beside or above what in the window.
use crate::double::arith::UNIT;
use crate::double::estimates::{
    about, lemma_moderate, lemma_near_about, lemma_quotient, lemma_share, sizeable,
};
use crate::double::facts::{
    lemma_difference, lemma_rounding, lemma_sum, lemma_whole, lemma_zero, one,
};
use crate::double::number::{distance, Double};
use crate::laws::layout::lemma_integer;
use crate::layout::{landscape_size, portrait_of};
use vstd::arithmetic::power2::{
    lemma2_to64, lemma_pow2_adds, lemma_pow2_pos, lemma_pow2_strictly_increases, pow2,
};
use vstd::prelude::*;

verus! {

/// A length in the window: not negative, not huge, and zero or not tiny.
spec fn is_length(x: Double) -> bool {
    x.finite() && !x.negative() && sizeable(x.value()) && 0 <= x.value() <= 0x1_0000_0000 * one()
}

/// One pixel is much larger than what counts as tiny.
proof fn lemma_pixel()
    ensures
        one() >= 1_000_000 * pow2(600),
        pow2(600) > 0,
{
    lemma2_to64();
    lemma_pow2_pos(600);
    lemma_pow2_adds(20, 600);
    lemma_pow2_strictly_increases(620, UNIT as nat);
    assert(pow2(20) == 0x10_0000);
}

proof fn lemma_pixels(i: i32)
    requires
        i >= 0,
    ensures
        is_length(Double::from_int(i)),
        i == 0 ==> Double::from_int(i).value() == 0,
        i > 0 ==> Double::from_int(i).value() >= one(),
{
    lemma_integer(i);
    lemma_pixel();
    lemma_whole(i as u64);
    assert(0 <= i * one() <= 0x1_0000_0000 * one() && (i > 0 ==> i * one() >= one())) by (nonlinear_arith)
        requires
            0 <= i <= 0x7fff_ffff,
            one() > 0,
    ;
}

/// A part of a length.
proof fn lemma_scaled(x: Double, n: u64, d: u64)
    requires
        is_length(x),
        0 < n <= 1000 * d,
        d <= 1_000_000,
    ensures
        (x * Double::ratio(n, d)).finite(),
        !(x * Double::ratio(n, d)).negative(),
        (x * Double::ratio(n, d)).value() >= 0,
        about((x * Double::ratio(n, d)).value(), n as int, d as int, x.value()),
{
    lemma_share(x, n, d);
}

/// The sum of two lengths.
proof fn lemma_added(a: Double, b: Double)
    requires
        a.finite(),
        b.finite(),
        !a.negative(),
        !b.negative(),
        0 <= a.value(),
        0 <= b.value(),
        a.value() + b.value() <= 0x10_0000_0000_0000 * one(),
    ensures
        (a + b).finite(),
        !(a + b).negative(),
        about((a + b).value(), 1, 1, a.value() + b.value()),
{
    let x = a.value() + b.value();
    lemma_sum(a, b);
    lemma_near_about(x);
    lemma_moderate(a + b);
    reveal(Double::spec_add);
    lemma_rounding(false, distance(x), 1);
}

/// What is left of a length without a shorter one.
proof fn lemma_left(a: Double, b: Double)
    requires
        a.finite(),
        b.finite(),
        !a.negative(),
        !b.negative(),
        0 <= b.value() <= a.value() <= 0x10_0000_0000_0000 * one(),
    ensures
        (a - b).finite(),
        !(a - b).negative(),
        about((a - b).value(), 1, 1, a.value() - b.value()),
{
    let x = a.value() - b.value();
    lemma_difference(a, b);
    lemma_near_about(x);
    lemma_moderate(a - b);
    reveal(Double::spec_add);
    lemma_rounding(false, distance(x), 1);
}

/// In a tall window the status stands above the dial: the second of its lines of
/// text stands no lower than the top of the dial's arc.
pub proof fn status_stands_above_the_dial(width: i32, height: i32)
    requires
        width >= 0,
        height >= 0,
    ensures
        ({
            let p = portrait_of(Double::from_int(width), Double::from_int(height));
            let gap = p.size * Double::ratio(52, 1000);
            let label_y = p.dot_cy + p.size * Double::ratio(22, 1000) + gap;
            &&& label_y + gap <= p.cy - p.size * Double::ratio(42, 100)
            &&& 1000 * p.dot_cy.value() + 126 * p.size.value() <= 1000 * p.cy.value() - 420 * p.size.value()
        }),
{
    let w = Double::from_int(width);
    let h = Double::from_int(height);
    let p = portrait_of(w, h);
    lemma_pixel();
    lemma_pixels(width);
    lemma_pixels(height);
    let top = h * Double::ratio(17, 100);
    let bottom = h * Double::ratio(22, 100);
    lemma_scaled(h, 17, 100);
    lemma_scaled(h, 22, 100);
    let rest = h - top;
    lemma_left(h, top);
    let usable = rest - bottom;
    lemma_left(rest, bottom);
    lemma_quotient(usable, 84, 100);
    lemma_quotient(usable, 2, 1);
    lemma_added(top, usable / Double::ratio(2, 1));
    lemma_scaled(top, 38, 100);
    let size = p.size;
    let r = size * Double::ratio(42, 100);
    let dot_r = size * Double::ratio(22, 1000);
    let gap = size * Double::ratio(52, 1000);
    lemma_scaled(size, 42, 100);
    lemma_scaled(size, 22, 1000);
    lemma_scaled(size, 52, 1000);
    lemma_added(p.dot_cy, dot_r);
    lemma_added(p.dot_cy + dot_r, gap);
    lemma_added(p.dot_cy + dot_r + gap, gap);
    lemma_left(p.cy, r);
}

/// In a wide window the dial stands in the left half: its disc lies between the
/// left edge and the middle, and between the upper and the lower edge.
pub proof fn wide_dial_stands_in_the_left_half(width: i32, height: i32)
    requires
        width >= 0,
        height >= 0,
    ensures
        ({
            let h = Double::from_int(height);
            let half = Double::from_int(width) / Double::ratio(2, 1);
            let size = landscape_size(half, h);
            let cx = half / Double::ratio(2, 1);
            let cy = h / Double::ratio(2, 1);
            let disc = size * Double::ratio(42, 100) + size * Double::ratio(38, 1000) * Double::ratio(12, 10);
            let zero = Double::ratio(0, 1);
            &&& zero <= cx - disc && cx + disc <= half
            &&& zero <= cy - disc && cy + disc <= h
            &&& 4656 * size.value() <= 10_000 * cx.value()
            &&& 10_000 * cx.value() + 4656 * size.value() <= 10_000 * half.value()
            &&& 4656 * size.value() <= 10_000 * cy.value()
            &&& 10_000 * cy.value() + 4656 * size.value() <= 10_000 * h.value()
        }),
{
    let w = Double::from_int(width);
    let h = Double::from_int(height);
    let half = w / Double::ratio(2, 1);
    let size = landscape_size(half, h);
    let cx = half / Double::ratio(2, 1);
    let cy = h / Double::ratio(2, 1);
    lemma_zero();
    lemma_pixel();
    lemma_pixels(width);
    lemma_pixels(height);
    lemma_quotient(w, 2, 1);
    lemma_quotient(half, 2, 1);
    lemma_quotient(h, 2, 1);
    lemma_scaled(half, 90, 100);
    lemma_scaled(h, 90, 100);
    let arc = size * Double::ratio(42, 100);
    let track = size * Double::ratio(38, 1000);
    let rim = track * Double::ratio(12, 10);
    lemma_scaled(size, 42, 100);
    lemma_scaled(size, 38, 1000);
    lemma_scaled(track, 12, 10);
    lemma_added(arc, rim);
    let disc = arc + rim;
    lemma_left(cx, disc);
    lemma_added(cx, disc);
    lemma_left(cy, disc);
    lemma_added(cy, disc);
}

} // verus!
