//! Laws of where everything stands in the window, to a thousandth of a pixel, and of
//! what is shown there.
use crate::canvas::Command;
use crate::dial::{dial, DialRays};
use crate::double::arith::UNIT;
use crate::double::errors::{lemma_large, lemma_over, lemma_times};
use crate::double::facts::one;
use crate::double::number::{distance, Double};
use crate::gforce::gforce_meter;
use crate::gps_status::gps_status;
use crate::info::{accel_disabled_note, info_labels};
use crate::laws::layout::lemma_integer;
use crate::laws::pixels::{
    lemma_coarser, lemma_placed, lemma_placed_minus, lemma_placed_over, lemma_placed_plus, lemma_placed_times, on_screen,
    placed, stands_at,
};
use crate::layout::{divider, landscape, landscape_size, portrait, portrait_of, Frame};
use vstd::arithmetic::power2::lemma_pow2_pos;
use vstd::prelude::*;

verus! {

/// A number of pixels that a window can be wide or high.
pub open spec fn is_extent(i: i32) -> bool {
    0 <= i <= 50_000
}

pub open spec fn lesser(a: int, b: int) -> int {
    if a <= b {
        a
    } else {
        b
    }
}

proof fn lemma_extent(i: i32)
    requires
        is_extent(i),
    ensures
        ({
            let x = Double::from_int(i);
            &&& x.value() == i * one()
            &&& placed(x, 1_000_000 * (i * one()), 0)
            &&& 0 <= x.value() <= 50_000 * one()
        }),
{
    let o = one() as int;
    lemma_pow2_pos(UNIT as nat);
    lemma_integer(i);
    assert(0 <= i * o <= 50_000 * o) by (nonlinear_arith)
        requires
            0 <= i <= 50_000,
            o > 0,
    ;
    lemma_placed(Double::from_int(i));
}

/// The lesser of two lengths.
proof fn lemma_placed_min(a: Double, r: int, k: int, b: Double, s: int, l: int)
    requires
        placed(a, r, k),
        placed(b, s, l),
    ensures
        placed(a.min(b), lesser(r, s), k + l),
{
    let o = one() as int;
    lemma_pow2_pos(UNIT as nat);
    assert((k + l) * o == k * o + l * o) by (nonlinear_arith);
}

/// The measures of a tall window: the dial in the middle of its width, at 0.475 of
/// its height, as wide as the window or 61/84 as high, whichever is less; the
/// status at 0.0646 of the height; and the panel below the dial.
pub proof fn tall_windows_are_measured(width: i32, height: i32)
    requires
        is_extent(width),
        is_extent(height),
    ensures
        ({
            let w = width * one();
            let h = height * one();
            let p = portrait_of(Double::from_int(width), Double::from_int(height));
            let s = p.size.value();
            &&& stands_at(p.cx, 500_000 * w)
            &&& stands_at(p.cy, 475_000 * h)
            &&& stands_at(p.dot_cy, 64_600 * h)
            &&& on_screen(p.size)
            &&& 1_000_000 * distance(84 * s - lesser(84 * w, 61 * h)) <= 84_000 * one()
            &&& stands_at(p.panel_top, 475_000 * h + 525_600 * s)
            &&& stands_at(p.row_gap, 75_000 * s)
            &&& stands_at(p.band_center_y, 737_500 * h + 262_800 * s)
        }),
{
    let wd = Double::from_int(width);
    let hd = Double::from_int(height);
    let w = width * one();
    let p = portrait_of(wd, hd);
    lemma_pow2_pos(UNIT as nat);
    lemma_extent(width);
    lemma_placed_over(wd, 1_000_000 * w, 0, 2, 1, 500_000 * w, 2);
    lemma_coarser(p.cx, 500_000 * w, 2, 1000);
    lemma_tall_middle(height);
    lemma_tall_size(width, height);
    lemma_tall_panel(width, height);
}

/// The height between the margins, and what stands in its middle.
proof fn lemma_tall_middle(height: i32)
    requires
        is_extent(height),
    ensures
        ({
            let hd = Double::from_int(height);
            let h = height * one();
            let top = hd * Double::ratio(17, 100);
            let usable = hd - top - hd * Double::ratio(22, 100);
            let cy = top + usable / Double::ratio(2, 1);
            &&& placed(usable, 610_000 * h, 6)
            &&& 0 <= h <= 50_000 * one()
            &&& placed(cy, 475_000 * h, 10)
            &&& distance(cy.value()) <= 50_000 * one()
            &&& stands_at(cy, 475_000 * h)
            &&& stands_at(top * Double::ratio(38, 100), 64_600 * h)
        }),
{
    let hd = Double::from_int(height);
    let h = height * one();
    let top = hd * Double::ratio(17, 100);
    let bottom = hd * Double::ratio(22, 100);
    lemma_pow2_pos(UNIT as nat);
    lemma_extent(height);
    lemma_placed_times(hd, 1_000_000 * h, 0, 17, 100, 170_000 * h, 2);
    lemma_placed_times(hd, 1_000_000 * h, 0, 22, 100, 220_000 * h, 2);
    lemma_placed_minus(hd, 1_000_000 * h, 0, top, 170_000 * h, 2);
    let rest = hd - top;
    lemma_placed_minus(rest, 830_000 * h, 3, bottom, 220_000 * h, 2);
    let usable = rest - bottom;
    assert(distance(usable.value()) <= 31_000 * one());
    lemma_placed_over(usable, 610_000 * h, 6, 2, 1, 305_000 * h, 5);
    lemma_placed_plus(top, 170_000 * h, 2, usable / Double::ratio(2, 1), 305_000 * h, 5);
    let cy = top + usable / Double::ratio(2, 1);
    lemma_coarser(cy, 475_000 * h, 8, 10);
    lemma_coarser(cy, 475_000 * h, 8, 1000);
    lemma_placed_times(top, 170_000 * h, 2, 38, 100, 64_600 * h, 4);
    lemma_coarser(top * Double::ratio(38, 100), 64_600 * h, 4, 1000);
}

/// How large the dial is.
proof fn lemma_tall_size(width: i32, height: i32)
    requires
        is_extent(width),
        is_extent(height),
    ensures
        ({
            let w = width * one();
            let h = height * one();
            let size = portrait_of(Double::from_int(width), Double::from_int(height)).size;
            &&& size.finite()
            &&& distance(size.value()) <= 50_001 * one()
            &&& 1_000_000 * distance(84 * size.value() - lesser(84 * w, 61 * h)) <= 84_000 * one()
        }),
{
    let hd = Double::from_int(height);
    let usable = hd - hd * Double::ratio(17, 100) - hd * Double::ratio(22, 100);
    lemma_pow2_pos(UNIT as nat);
    lemma_large();
    lemma_extent(width);
    lemma_tall_middle(height);
    lemma_over(usable, 84, 100);
    let q = usable / Double::ratio(84, 100);
    let o = one() as int;
    let u = usable.value();
    let h = height * one();
    assert(distance(1_000_000 * u - 610_000 * h) <= 6 * o);
    assert(distance(u) <= 31_000 * o);
    assert(1_000_000_000_000 * distance(84 * q.value() - 100 * u) <= 100 * distance(u) + 2_000_000_000_000 * 84);
    assert(1_000_000 * distance(84 * q.value() - 61 * h) <= 10_000 * o);
}

/// Where the panel starts, and its rows.
proof fn lemma_tall_panel(width: i32, height: i32)
    requires
        is_extent(width),
        is_extent(height),
    ensures
        ({
            let h = height * one();
            let p = portrait_of(Double::from_int(width), Double::from_int(height));
            let s = p.size.value();
            &&& placed(p.panel_top, 475_000 * h + 525_600 * s, 40)
            &&& distance(p.panel_top.value()) <= 180_000 * one()
            &&& stands_at(p.panel_top, 475_000 * h + 525_600 * s)
            &&& placed(p.row_gap, 75_000 * s, 2)
            &&& stands_at(p.row_gap, 75_000 * s)
            &&& distance(p.row_gap.value()) <= 10_000 * one()
            &&& placed(p.band_center_y, 737_500 * h + 262_800 * s, 40)
            &&& stands_at(p.band_center_y, 737_500 * h + 262_800 * s)
            &&& distance(p.band_center_y.value()) <= 150_000 * one()
        }),
{
    let hd = Double::from_int(height);
    let h = height * one();
    let p = portrait_of(Double::from_int(width), hd);
    let size = p.size;
    let s = size.value();
    lemma_pow2_pos(UNIT as nat);
    lemma_extent(height);
    lemma_tall_middle(height);
    lemma_tall_size(width, height);
    lemma_panel(p.cy, size, h);
    lemma_placed(size);
    lemma_placed_times(size, 1_000_000 * s, 0, 75, 1000, 75_000 * s, 2);
    lemma_coarser(p.row_gap, 75_000 * s, 2, 1000);
    lemma_coarser(p.panel_top, 475_000 * h + 525_600 * s, 22, 40);
    lemma_coarser(p.panel_top, 475_000 * h + 525_600 * s, 22, 1000);
    lemma_tall_band(p.panel_top, hd, h, s);
}

/// The panel starts below the rim of the dial.
proof fn lemma_panel(cy: Double, size: Double, h: int)
    requires
        placed(cy, 475_000 * h, 10),
        distance(cy.value()) <= 50_000 * one(),
        size.finite(),
        distance(size.value()) <= 50_001 * one(),
    ensures
        ({
            let r = size * Double::ratio(42, 100);
            let track = size * Double::ratio(38, 1000);
            let top = cy + r + track * Double::ratio(12, 10) + size * Double::ratio(6, 100);
            &&& placed(top, 475_000 * h + 525_600 * size.value(), 22)
            &&& distance(top.value()) <= 130_000 * one()
        }),
{
    let s = size.value();
    let r = size * Double::ratio(42, 100);
    let track = size * Double::ratio(38, 1000);
    let rim = track * Double::ratio(12, 10);
    let space = size * Double::ratio(6, 100);
    lemma_pow2_pos(UNIT as nat);
    lemma_rim(size);
    lemma_placed_plus(cy, 475_000 * h, 10, r, 420_000 * s, 2);
    lemma_placed_plus(cy + r, 475_000 * h + 420_000 * s, 13, rim, 45_600 * s, 5);
    lemma_placed_plus(cy + r + rim, 475_000 * h + 465_600 * s, 19, space, 60_000 * s, 2);
}

proof fn lemma_rim(size: Double)
    requires
        size.finite(),
        distance(size.value()) <= 50_001 * one(),
    ensures
        ({
            let s = size.value();
            let r = size * Double::ratio(42, 100);
            let track = size * Double::ratio(38, 1000);
            let rim = track * Double::ratio(12, 10);
            let space = size * Double::ratio(6, 100);
            &&& placed(r, 420_000 * s, 2) && distance(r.value()) <= 22_000 * one()
            &&& placed(rim, 45_600 * s, 5) && distance(rim.value()) <= 4_000 * one()
            &&& placed(space, 60_000 * s, 2) && distance(space.value()) <= 4_000 * one()
        }),
{
    let s = size.value();
    let track = size * Double::ratio(38, 1000);
    lemma_pow2_pos(UNIT as nat);
    lemma_placed(size);
    lemma_placed_times(size, 1_000_000 * s, 0, 42, 100, 420_000 * s, 2);
    lemma_placed_times(size, 1_000_000 * s, 0, 38, 1000, 38_000 * s, 2);
    lemma_placed_times(size, 1_000_000 * s, 0, 6, 100, 60_000 * s, 2);
    assert(distance(track.value()) <= 2_000 * one());
    lemma_placed_times(track, 38_000 * s, 2, 12, 10, 45_600 * s, 5);
}

/// The middle of the panel.
proof fn lemma_tall_band(panel: Double, hd: Double, h: int, s: int)
    requires
        placed(panel, 475_000 * h + 525_600 * s, 40),
        placed(hd, 1_000_000 * h, 0),
        distance(panel.value()) <= 130_000 * one(),
        distance(hd.value()) <= 50_000 * one(),
    ensures
        ({
            let band = (panel + hd) / Double::ratio(2, 1);
            &&& placed(band, 737_500 * h + 262_800 * s, 40)
            &&& stands_at(band, 737_500 * h + 262_800 * s)
            &&& distance(band.value()) <= 150_000 * one()
        }),
{
    lemma_pow2_pos(UNIT as nat);
    lemma_placed_plus(panel, 475_000 * h + 525_600 * s, 40, hd, 1_000_000 * h, 0);
    lemma_placed_over(panel + hd, 1_475_000 * h + 525_600 * s, 41, 2, 1, 737_500 * h + 262_800 * s, 22);
    let band = (panel + hd) / Double::ratio(2, 1);
    lemma_coarser(band, 737_500 * h + 262_800 * s, 22, 40);
    lemma_coarser(band, 737_500 * h + 262_800 * s, 22, 1000);
    assert(distance(1_000_000 * band.value() - (737_500 * h + 262_800 * s)) <= 40 * one());
    assert(distance(1_000_000 * panel.value() - (475_000 * h + 525_600 * s)) <= 40 * one());
    assert(distance(1_000_000 * hd.value() - 1_000_000 * h) <= 0) by {
        assert(0 * one() == 0);
    }
}

/// Where the meter stands in the panel of a tall window, and the rows beside it.
#[verifier::rlimit(40)]
proof fn lemma_tall_meter(width: i32, height: i32) -> (m: (Double, Double, Double, Double))
    requires
        is_extent(width),
        is_extent(height),
    ensures
        ({
            let wd = Double::from_int(width);
            let hd = Double::from_int(height);
            let w = width * one();
            let h = height * one();
            let p = portrait_of(wd, hd);
            let s = p.size.value();
            let radius = ((hd - p.panel_top) * Double::ratio(32, 100)).min(wd * Double::ratio(18, 100));
            let x = wd * Double::ratio(22, 100);
            &&& m == (x, radius, x + radius + (wd - x - radius) / Double::ratio(2, 1), p.band_center_y - p.row_gap)
            &&& stands_at(m.0, 220_000 * w)
            &&& stands_at(m.1, lesser(168_000 * h - 168_192 * s, 180_000 * w))
            &&& stands_at(m.2, 610_000 * w + 500_000 * m.1.value())
            &&& stands_at(m.3, 737_500 * h + 187_800 * s)
        }),
{
    let wd = Double::from_int(width);
    let hd = Double::from_int(height);
    let w = width * one();
    let h = height * one();
    let p = portrait_of(wd, hd);
    let s = p.size.value();
    lemma_pow2_pos(UNIT as nat);
    lemma_extent(width);
    lemma_extent(height);
    lemma_tall_panel(width, height);
    let left = hd - p.panel_top;
    lemma_placed_minus(hd, 1_000_000 * h, 0, p.panel_top, 475_000 * h + 525_600 * s, 40);
    assert(distance(left.value()) <= 200_000 * one()) by {
        lemma_tall_room(width, height);
    }
    lemma_placed_times(left, 525_000 * h - 525_600 * s, 41, 32, 100, 168_000 * h - 168_192 * s, 15);
    lemma_placed_times(wd, 1_000_000 * w, 0, 18, 100, 180_000 * w, 2);
    lemma_placed_times(wd, 1_000_000 * w, 0, 22, 100, 220_000 * w, 2);
    let tall = left * Double::ratio(32, 100);
    let wide = wd * Double::ratio(18, 100);
    let radius = tall.min(wide);
    let x = wd * Double::ratio(22, 100);
    lemma_placed_min(tall, 168_000 * h - 168_192 * s, 15, wide, 180_000 * w, 2);
    lemma_coarser(radius, lesser(168_000 * h - 168_192 * s, 180_000 * w), 17, 1000);
    lemma_coarser(x, 220_000 * w, 2, 1000);
    assert(distance(x.value()) <= 51_000 * one());
    assert(distance(radius.value()) <= 51_000 * one()) by {
        lemma_tall_size(width, height);
        lemma_tall_middle(height);
        assert(1_000_000 * distance(84 * s - lesser(84 * w, 61 * h)) <= 84_000 * one());
        assert(distance(1_000_000 * radius.value() - lesser(168_000 * h - 168_192 * s, 180_000 * w)) <= 17 * one());
    }
    lemma_beside(wd, x, radius, w);
    lemma_placed_minus(p.band_center_y, 737_500 * h + 262_800 * s, 40, p.row_gap, 75_000 * s, 2);
    lemma_coarser(p.band_center_y - p.row_gap, 737_500 * h + 187_800 * s, 43, 1000);
    (x, radius, x + radius + (wd - x - radius) / Double::ratio(2, 1), p.band_center_y - p.row_gap)
}

/// There is not more room below the dial than the window is high.
proof fn lemma_tall_room(width: i32, height: i32)
    requires
        is_extent(width),
        is_extent(height),
    ensures
        ({
            let hd = Double::from_int(height);
            distance((hd - portrait_of(Double::from_int(width), hd).panel_top).value()) <= 200_000 * one()
        }),
{
    let hd = Double::from_int(height);
    let h = height * one();
    let p = portrait_of(Double::from_int(width), hd);
    let s = p.size.value();
    lemma_pow2_pos(UNIT as nat);
    lemma_extent(height);
    lemma_tall_panel(width, height);
    lemma_tall_middle(height);
    lemma_tall_size(width, height);
    lemma_placed_minus(hd, 1_000_000 * h, 0, p.panel_top, 475_000 * h + 525_600 * s, 40);
    let x = (hd - p.panel_top).value();
    assert(distance(1_000_000 * x - (1_000_000 * h - (475_000 * h + 525_600 * s))) <= 41 * one());
}

/// The middle of what is left beside the meter.
proof fn lemma_beside(wd: Double, x: Double, radius: Double, w: int)
    requires
        placed(wd, 1_000_000 * w, 0),
        placed(x, 220_000 * w, 2),
        on_screen(radius),
        distance(wd.value()) <= 50_000 * one(),
        distance(x.value()) <= 51_000 * one(),
        distance(radius.value()) <= 51_000 * one(),
    ensures
        stands_at(x + radius + (wd - x - radius) / Double::ratio(2, 1), 610_000 * w + 500_000 * radius.value()),
{
    let r = radius.value();
    lemma_pow2_pos(UNIT as nat);
    lemma_placed(radius);
    lemma_placed_plus(x, 220_000 * w, 2, radius, 1_000_000 * r, 0);
    lemma_placed_minus(wd, 1_000_000 * w, 0, x, 220_000 * w, 2);
    lemma_placed_minus(wd - x, 780_000 * w, 3, radius, 1_000_000 * r, 0);
    let rest = wd - x - radius;
    lemma_placed_over(rest, 780_000 * w - 1_000_000 * r, 4, 2, 1, 390_000 * w - 500_000 * r, 4);
    lemma_placed_plus(x + radius, 220_000 * w + 1_000_000 * r, 3, rest / Double::ratio(2, 1), 390_000 * w - 500_000 * r, 4);
    lemma_coarser(x + radius + rest / Double::ratio(2, 1), 610_000 * w + 500_000 * r, 8, 1000);
}

/// A tall window shows, in this order: the dial with the needle's speed, the status
/// above it, the meter with the smoothed forces in the left part of the panel, and
/// the rows with the place in the right part.
pub proof fn tall_windows_show_everything(f: Frame, rays: DialRays, width: i32, height: i32) -> (m: (
    Double,
    Double,
    Double,
    Double,
))
    requires
        is_extent(width),
        is_extent(height),
        f.accel_enabled,
    ensures
        ({
            let w = width * one();
            let h = height * one();
            let p = portrait_of(Double::from_int(width), Double::from_int(height));
            let s = p.size.value();
            &&& portrait(f, rays, Double::from_int(width), Double::from_int(height)) == dial(
                f.speed,
                f.has_fix,
                f.use_mph,
                rays,
                p.cx,
                p.cy,
                p.size,
            ) + gps_status(f.accuracy, f.has_fix, f.elapsed_s, p.cx, p.dot_cy, p.size) + gforce_meter(
                f.gforce_x,
                f.gforce_y,
                m.0,
                p.band_center_y,
                m.1,
            ) + info_labels(f.altitude, f.latitude, f.longitude, f.has_fix, m.2, m.3, p.row_gap, p.size)
            &&& stands_at(m.0, 220_000 * w)
            &&& stands_at(m.1, lesser(168_000 * h - 168_192 * s, 180_000 * w))
            &&& stands_at(m.2, 610_000 * w + 500_000 * m.1.value())
            &&& stands_at(m.3, 737_500 * h + 187_800 * s)
        }),
{
    let m = lemma_tall_meter(width, height);
    let p = portrait_of(Double::from_int(width), Double::from_int(height));
    lemma_join(
        dial(f.speed, f.has_fix, f.use_mph, rays, p.cx, p.cy, p.size),
        gps_status(f.accuracy, f.has_fix, f.elapsed_s, p.cx, p.dot_cy, p.size),
        gforce_meter(f.gforce_x, f.gforce_y, m.0, p.band_center_y, m.1),
        info_labels(f.altitude, f.latitude, f.longitude, f.has_fix, m.2, m.3, p.row_gap, p.size),
    );
    m
}

proof fn lemma_join(a: Seq<Command>, b: Seq<Command>, c: Seq<Command>, d: Seq<Command>)
    ensures
        a + b + (c + d) == a + b + c + d,
        a + (b + c + d) == a + b + c + d,
{
    assert(a + b + (c + d) =~= a + b + c + d);
    assert(a + (b + c + d) =~= a + b + c + d);
}

/// Where the rows and the note stand in the panel of a tall window without a meter.
proof fn lemma_tall_note(width: i32, height: i32) -> (m: (Double, Double))
    requires
        is_extent(width),
        is_extent(height),
    ensures
        ({
            let hd = Double::from_int(height);
            let h = height * one();
            let p = portrait_of(Double::from_int(width), hd);
            let s = p.size.value();
            let top = p.band_center_y - p.row_gap * Double::ratio(2, 1);
            &&& m == (top, (top + Double::ratio(35, 10) * p.row_gap).min(hd - p.size * Double::ratio(9, 100)))
            &&& stands_at(m.0, 737_500 * h + 112_800 * s)
            &&& stands_at(m.1, lesser(737_500 * h + 375_300 * s, 1_000_000 * h - 90_000 * s))
        }),
{
    let hd = Double::from_int(height);
    let h = height * one();
    let p = portrait_of(Double::from_int(width), hd);
    let s = p.size.value();
    lemma_pow2_pos(UNIT as nat);
    lemma_extent(height);
    lemma_tall_panel(width, height);
    lemma_tall_size(width, height);
    lemma_placed(p.size);
    let two = p.row_gap * Double::ratio(2, 1);
    let more = Double::ratio(35, 10) * p.row_gap;
    lemma_placed_times(p.row_gap, 75_000 * s, 2, 2, 1, 150_000 * s, 7);
    lemma_placed_times(p.row_gap, 75_000 * s, 2, 35, 10, 262_500 * s, 12);
    lemma_times(p.row_gap, 35, 10);
    lemma_placed_minus(p.band_center_y, 737_500 * h + 262_800 * s, 40, two, 150_000 * s, 7);
    let top = p.band_center_y - two;
    lemma_coarser(top, 737_500 * h + 112_800 * s, 48, 1000);
    lemma_placed_plus(top, 737_500 * h + 112_800 * s, 48, more, 262_500 * s, 12);
    let edge = p.size * Double::ratio(9, 100);
    lemma_placed_times(p.size, 1_000_000 * s, 0, 9, 100, 90_000 * s, 2);
    lemma_placed_minus(hd, 1_000_000 * h, 0, edge, 90_000 * s, 2);
    lemma_placed_min(top + more, 737_500 * h + 375_300 * s, 61, hd - edge, 1_000_000 * h - 90_000 * s, 3);
    let y = (top + more).min(hd - edge);
    lemma_coarser(y, lesser(737_500 * h + 375_300 * s, 1_000_000 * h - 90_000 * s), 64, 1000);
    (top, y)
}

/// With the assistance off, a tall window shows the dial, the status, the rows with
/// the place in the middle of the panel, and the note below them, kept above the
/// lower edge.
pub proof fn tall_windows_show_the_note(f: Frame, rays: DialRays, width: i32, height: i32) -> (m: (Double, Double))
    requires
        is_extent(width),
        is_extent(height),
        !f.accel_enabled,
    ensures
        ({
            let h = height * one();
            let p = portrait_of(Double::from_int(width), Double::from_int(height));
            let s = p.size.value();
            &&& portrait(f, rays, Double::from_int(width), Double::from_int(height)) == dial(
                f.speed,
                f.has_fix,
                f.use_mph,
                rays,
                p.cx,
                p.cy,
                p.size,
            ) + gps_status(f.accuracy, f.has_fix, f.elapsed_s, p.cx, p.dot_cy, p.size) + info_labels(
                f.altitude,
                f.latitude,
                f.longitude,
                f.has_fix,
                p.cx,
                m.0,
                p.row_gap,
                p.size,
            ) + accel_disabled_note(p.cx, m.1, p.size)
            &&& stands_at(m.0, 737_500 * h + 112_800 * s)
            &&& stands_at(m.1, lesser(737_500 * h + 375_300 * s, 1_000_000 * h - 90_000 * s))
        }),
{
    let m = lemma_tall_note(width, height);
    let p = portrait_of(Double::from_int(width), Double::from_int(height));
    lemma_join(
        dial(f.speed, f.has_fix, f.use_mph, rays, p.cx, p.cy, p.size),
        gps_status(f.accuracy, f.has_fix, f.elapsed_s, p.cx, p.dot_cy, p.size),
        info_labels(f.altitude, f.latitude, f.longitude, f.has_fix, p.cx, m.0, p.row_gap, p.size),
        accel_disabled_note(p.cx, m.1, p.size),
    );
    m
}

/// The measures that both arrangements of a wide window share: the dial in the
/// middle of the left half, 0.9 of the half or of the height, whichever is less.
pub proof fn wide_windows_are_measured(width: i32, height: i32)
    requires
        is_extent(width),
        is_extent(height),
    ensures
        ({
            let w = width * one();
            let h = height * one();
            let hd = Double::from_int(height);
            let half = Double::from_int(width) / Double::ratio(2, 1);
            let size = landscape_size(half, hd);
            &&& placed(half, 500_000 * w, 2)
            &&& distance(half.value()) <= 50_001 * one()
            &&& stands_at(half / Double::ratio(2, 1), 250_000 * w)
            &&& stands_at(hd / Double::ratio(2, 1), 500_000 * h)
            &&& stands_at(size, lesser(450_000 * w, 900_000 * h))
            &&& distance(size.value()) <= 50_003 * one()
            &&& size.finite()
        }),
{
    let wd = Double::from_int(width);
    let hd = Double::from_int(height);
    let w = width * one();
    let h = height * one();
    lemma_pow2_pos(UNIT as nat);
    lemma_extent(width);
    lemma_extent(height);
    lemma_placed_over(wd, 1_000_000 * w, 0, 2, 1, 500_000 * w, 2);
    let half = wd / Double::ratio(2, 1);
    lemma_placed_over(half, 500_000 * w, 2, 2, 1, 250_000 * w, 3);
    lemma_coarser(half / Double::ratio(2, 1), 250_000 * w, 3, 1000);
    lemma_placed_over(hd, 1_000_000 * h, 0, 2, 1, 500_000 * h, 2);
    lemma_coarser(hd / Double::ratio(2, 1), 500_000 * h, 2, 1000);
    lemma_placed_times(half, 500_000 * w, 2, 90, 100, 450_000 * w, 4);
    lemma_placed_times(hd, 1_000_000 * h, 0, 90, 100, 900_000 * h, 2);
    let a = half * Double::ratio(90, 100);
    let b = hd * Double::ratio(90, 100);
    lemma_placed_min(a, 450_000 * w, 4, b, 900_000 * h, 2);
    lemma_coarser(a.min(b), lesser(450_000 * w, 900_000 * h), 6, 1000);
}

/// Where everything stands in the right half, beside the meter.
proof fn lemma_wide_meter(width: i32, height: i32) -> (m: (Double, Double, Double, Double, Double, Double, Double))
    requires
        is_extent(width),
        is_extent(height),
    ensures
        ({
            let hd = Double::from_int(height);
            let half = Double::from_int(width) / Double::ratio(2, 1);
            let size = landscape_size(half, hd);
            let w = width * one();
            let h = height * one();
            let s = size.value();
            &&& m == (
                half + half * Double::ratio(28, 100),
                half + half * Double::ratio(72, 100),
                (hd * Double::ratio(30, 100)).min(half * Double::ratio(26, 100)),
                hd * Double::ratio(18, 100),
                hd * Double::ratio(50, 100),
                hd * Double::ratio(60, 100),
                size * Double::ratio(75, 1000),
            )
            &&& stands_at(m.0, 640_000 * w)
            &&& stands_at(m.1, 860_000 * w)
            &&& stands_at(m.2, lesser(300_000 * h, 130_000 * w))
            &&& stands_at(m.3, 180_000 * h)
            &&& stands_at(m.4, 500_000 * h)
            &&& stands_at(m.5, 600_000 * h)
            &&& stands_at(m.6, 75_000 * s)
        }),
{
    let hd = Double::from_int(height);
    let half = Double::from_int(width) / Double::ratio(2, 1);
    let size = landscape_size(half, hd);
    let w = width * one();
    let h = height * one();
    let s = size.value();
    lemma_pow2_pos(UNIT as nat);
    lemma_extent(height);
    wide_windows_are_measured(width, height);
    lemma_wide_part(half, w, 28, 140_000);
    lemma_wide_part(half, w, 72, 360_000);
    lemma_high_part(hd, h, 18, 180_000);
    lemma_high_part(hd, h, 50, 500_000);
    lemma_high_part(hd, h, 60, 600_000);
    lemma_placed_times(hd, 1_000_000 * h, 0, 30, 100, 300_000 * h, 2);
    lemma_placed_times(half, 500_000 * w, 2, 26, 100, 130_000 * w, 4);
    let a = hd * Double::ratio(30, 100);
    let b = half * Double::ratio(26, 100);
    lemma_placed_min(a, 300_000 * h, 2, b, 130_000 * w, 4);
    lemma_coarser(a.min(b), lesser(300_000 * h, 130_000 * w), 6, 1000);
    lemma_placed(size);
    lemma_placed_times(size, 1_000_000 * s, 0, 75, 1000, 75_000 * s, 2);
    lemma_coarser(size * Double::ratio(75, 1000), 75_000 * s, 2, 1000);
    (
        half + half * Double::ratio(28, 100),
        half + half * Double::ratio(72, 100),
        a.min(b),
        hd * Double::ratio(18, 100),
        hd * Double::ratio(50, 100),
        hd * Double::ratio(60, 100),
        size * Double::ratio(75, 1000),
    )
}

/// A part of the right half, from the middle on.
proof fn lemma_wide_part(half: Double, w: int, n: u64, m: int)
    requires
        placed(half, 500_000 * w, 2),
        distance(half.value()) <= 50_001 * one(),
        0 < n <= 100,
        m == 5000 * n,
    ensures
        stands_at(half + half * Double::ratio(n, 100), (500_000 + m) * w),
{
    lemma_pow2_pos(UNIT as nat);
    assert(100 * (m * w) == n * (500_000 * w) && 100 * 4 >= n * (2 + 1) + 100 && (500_000 + m) * w == 500_000 * w + m * w)
        by (nonlinear_arith)
        requires
            m == 5000 * n,
            n <= 100,
    ;
    lemma_placed_times(half, 500_000 * w, 2, n, 100, m * w, 4);
    lemma_placed_plus(half, 500_000 * w, 2, half * Double::ratio(n, 100), m * w, 4);
    lemma_coarser(half + half * Double::ratio(n, 100), (500_000 + m) * w, 7, 1000);
}

/// A part of the height.
proof fn lemma_high_part(hd: Double, h: int, n: u64, m: int)
    requires
        placed(hd, 1_000_000 * h, 0),
        distance(hd.value()) <= 50_000 * one(),
        0 < n <= 100,
        m == 10_000 * n,
    ensures
        stands_at(hd * Double::ratio(n, 100), m * h),
        placed(hd * Double::ratio(n, 100), m * h, 2),
        distance((hd * Double::ratio(n, 100)).value()) <= 50_001 * one(),
{
    lemma_pow2_pos(UNIT as nat);
    assert(100 * (m * h) == n * (1_000_000 * h) && 100 * 2 >= n * (0 + 1) + 100) by (nonlinear_arith)
        requires
            m == 10_000 * n,
            n <= 100,
    ;
    lemma_placed_times(hd, 1_000_000 * h, 0, n, 100, m * h, 2);
    lemma_coarser(hd * Double::ratio(n, 100), m * h, 2, 1000);
}

/// A wide window shows the dial with the needle's speed in its left half, a line
/// between the halves, and in its right half the status and the rows with the place
/// beside the meter with the smoothed forces.
pub proof fn wide_windows_show_everything(f: Frame, rays: DialRays, width: i32, height: i32) -> (m: (
    Double,
    Double,
    Double,
    Double,
    Double,
    Double,
    Double,
))
    requires
        is_extent(width),
        is_extent(height),
        f.accel_enabled,
    ensures
        ({
            let w = width * one();
            let h = height * one();
            let hd = Double::from_int(height);
            let half = Double::from_int(width) / Double::ratio(2, 1);
            let size = landscape_size(half, hd);
            &&& landscape(f, rays, Double::from_int(width), hd) == dial(
                f.speed,
                f.has_fix,
                f.use_mph,
                rays,
                half / Double::ratio(2, 1),
                hd / Double::ratio(2, 1),
                size,
            ) + divider(half, hd) + (gps_status(f.accuracy, f.has_fix, f.elapsed_s, m.1, m.3, size) + gforce_meter(
                f.gforce_x,
                f.gforce_y,
                m.0,
                m.4,
                m.2,
            ) + info_labels(f.altitude, f.latitude, f.longitude, f.has_fix, m.1, m.5, m.6, size))
            &&& stands_at(m.0, 640_000 * w)
            &&& stands_at(m.1, 860_000 * w)
            &&& stands_at(m.2, lesser(300_000 * h, 130_000 * w))
            &&& stands_at(m.3, 180_000 * h)
            &&& stands_at(m.4, 500_000 * h)
            &&& stands_at(m.5, 600_000 * h)
            &&& stands_at(m.6, 75_000 * size.value())
        }),
{
    lemma_wide_meter(width, height)
}

/// Where the rows and the note stand in the right half without a meter.
proof fn lemma_wide_note(width: i32, height: i32) -> (m: (Double, Double, Double, Double, Double))
    requires
        is_extent(width),
        is_extent(height),
    ensures
        ({
            let hd = Double::from_int(height);
            let half = Double::from_int(width) / Double::ratio(2, 1);
            let size = landscape_size(half, hd);
            let w = width * one();
            let h = height * one();
            let s = size.value();
            let gap = size * Double::ratio(75, 1000);
            let top = hd * Double::ratio(40, 100);
            &&& m == (
                half + half / Double::ratio(2, 1),
                hd * Double::ratio(15, 100),
                top,
                gap,
                (top + Double::ratio(35, 10) * gap).min(hd * Double::ratio(90, 100)),
            )
            &&& stands_at(m.0, 750_000 * w)
            &&& stands_at(m.1, 150_000 * h)
            &&& stands_at(m.2, 400_000 * h)
            &&& stands_at(m.3, 75_000 * s)
            &&& stands_at(m.4, lesser(400_000 * h + 262_500 * s, 900_000 * h))
        }),
{
    let hd = Double::from_int(height);
    let half = Double::from_int(width) / Double::ratio(2, 1);
    let size = landscape_size(half, hd);
    let w = width * one();
    let h = height * one();
    let s = size.value();
    lemma_pow2_pos(UNIT as nat);
    lemma_extent(height);
    wide_windows_are_measured(width, height);
    lemma_placed_over(half, 500_000 * w, 2, 2, 1, 250_000 * w, 3);
    lemma_placed_plus(half, 500_000 * w, 2, half / Double::ratio(2, 1), 250_000 * w, 3);
    lemma_coarser(half + half / Double::ratio(2, 1), 750_000 * w, 6, 1000);
    lemma_high_part(hd, h, 15, 150_000);
    lemma_high_part(hd, h, 40, 400_000);
    lemma_high_part(hd, h, 90, 900_000);
    lemma_placed(size);
    lemma_placed_times(size, 1_000_000 * s, 0, 75, 1000, 75_000 * s, 2);
    let gap = size * Double::ratio(75, 1000);
    assert(distance(gap.value()) <= 4_000 * one());
    lemma_coarser(gap, 75_000 * s, 2, 1000);
    lemma_placed_times(gap, 75_000 * s, 2, 35, 10, 262_500 * s, 12);
    lemma_times(gap, 35, 10);
    let top = hd * Double::ratio(40, 100);
    let more = Double::ratio(35, 10) * gap;
    lemma_placed_plus(top, 400_000 * h, 2, more, 262_500 * s, 12);
    let edge = hd * Double::ratio(90, 100);
    lemma_placed_min(top + more, 400_000 * h + 262_500 * s, 15, edge, 900_000 * h, 2);
    let y = (top + more).min(edge);
    lemma_coarser(y, lesser(400_000 * h + 262_500 * s, 900_000 * h), 17, 1000);
    (half + half / Double::ratio(2, 1), hd * Double::ratio(15, 100), top, gap, y)
}

/// With the assistance off, a wide window shows in its right half the status, the
/// rows with the place, and the note below them.
pub proof fn wide_windows_show_the_note(f: Frame, rays: DialRays, width: i32, height: i32) -> (m: (
    Double,
    Double,
    Double,
    Double,
    Double,
))
    requires
        is_extent(width),
        is_extent(height),
        !f.accel_enabled,
    ensures
        ({
            let w = width * one();
            let h = height * one();
            let hd = Double::from_int(height);
            let half = Double::from_int(width) / Double::ratio(2, 1);
            let size = landscape_size(half, hd);
            let s = size.value();
            &&& landscape(f, rays, Double::from_int(width), hd) == dial(
                f.speed,
                f.has_fix,
                f.use_mph,
                rays,
                half / Double::ratio(2, 1),
                hd / Double::ratio(2, 1),
                size,
            ) + divider(half, hd) + (gps_status(f.accuracy, f.has_fix, f.elapsed_s, m.0, m.1, size) + info_labels(
                f.altitude,
                f.latitude,
                f.longitude,
                f.has_fix,
                m.0,
                m.2,
                m.3,
                size,
            ) + accel_disabled_note(m.0, m.4, size))
            &&& stands_at(m.0, 750_000 * w)
            &&& stands_at(m.1, 150_000 * h)
            &&& stands_at(m.2, 400_000 * h)
            &&& stands_at(m.3, 75_000 * s)
            &&& stands_at(m.4, lesser(400_000 * h + 262_500 * s, 900_000 * h))
        }),
{
    lemma_wide_note(width, height)
}

/// The line between the halves stands in the middle, from 0.08 to 0.92 of the
/// height.
pub proof fn halves_are_divided(width: i32, height: i32)
    requires
        is_extent(width),
        is_extent(height),
    ensures
        ({
            let h = height * one();
            let half = Double::from_int(width) / Double::ratio(2, 1);
            let out = divider(half, Double::from_int(height));
            &&& out.len() == 5
            &&& out[2] is MoveTo && out[3] is LineTo && out[4] is Stroke
            &&& out[2]->MoveTo_x == half && out[3]->LineTo_x == half
            &&& stands_at(out[2]->MoveTo_y, 80_000 * h)
            &&& stands_at(out[3]->LineTo_y, 920_000 * h)
        }),
{
    let hd = Double::from_int(height);
    lemma_extent(height);
    lemma_high_part(hd, height * one(), 8, 80_000);
    lemma_high_part(hd, height * one(), 92, 920_000);
}

} // verus!
