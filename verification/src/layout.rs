//! Where everything stands, in a tall and in a wide window.
use crate::canvas::{rgb, rgba, Command};
use crate::dial::{dial, draw_dial, tick_count, DialRays};
use crate::double::number::Double;
use crate::gforce::{draw_gforce_meter, gforce_meter};
use crate::gps_status::{draw_gps_status, gps_status};
use crate::info::{accel_disabled_note, draw_accel_disabled_note, draw_info_labels, info_labels};
use vstd::prelude::*;

verus! {

/// Everything that one frame shows.
#[derive(Clone, Copy, Debug)]
pub struct Frame {
    /// In kilometres per hour.
    pub speed: Double,
    /// In metres.
    pub altitude: Double,
    /// In metres.
    pub accuracy: Double,
    pub has_fix: bool,
    /// In degrees.
    pub latitude: Double,
    /// In degrees.
    pub longitude: Double,
    /// How long the search lasts, or how long it took.
    pub elapsed_s: i64,
    pub use_mph: bool,
    /// Lateral.
    pub gforce_x: Double,
    /// Longitudinal.
    pub gforce_y: Double,
    pub accel_enabled: bool,
}

/// The measures of a tall window.
pub struct Portrait {
    pub cx: Double,
    pub cy: Double,
    pub size: Double,
    pub dot_cy: Double,
    pub panel_top: Double,
    pub row_gap: Double,
    pub band_center_y: Double,
}

/// The status above the dial, the dial, and the panel below it. The dial is as
/// large as the width and the height between the margins allow.
pub open spec fn portrait_of(w: Double, h: Double) -> Portrait {
    let top_margin = h * Double::ratio(17, 100);
    let bot_margin = h * Double::ratio(22, 100);
    let usable_h = h - top_margin - bot_margin;
    let size = w.min(usable_h / Double::ratio(84, 100));
    let cy = top_margin + usable_h / Double::ratio(2, 1);
    let r = size * Double::ratio(42, 100);
    let track_width = size * Double::ratio(38, 1000);
    let panel_top = cy + r + track_width * Double::ratio(12, 10) + size * Double::ratio(6, 100);
    Portrait {
        cx: w / Double::ratio(2, 1),
        cy,
        size,
        dot_cy: top_margin * Double::ratio(38, 100),
        panel_top,
        row_gap: size * Double::ratio(75, 1000),
        band_center_y: (panel_top + h) / Double::ratio(2, 1),
    }
}

/// The panel with the G-force meter on the left and the rows of text on the right.
pub open spec fn portrait_assisted(f: Frame, p: Portrait, w: Double, h: Double) -> Seq<Command> {
    let available_h = h - p.panel_top;
    let gf_radius = (available_h * Double::ratio(32, 100)).min(w * Double::ratio(18, 100));
    let gf_cx = w * Double::ratio(22, 100);
    let text_cx = gf_cx + gf_radius + (w - gf_cx - gf_radius) / Double::ratio(2, 1);
    let text_top = p.band_center_y - p.row_gap;
    gforce_meter(f.gforce_x, f.gforce_y, gf_cx, p.band_center_y, gf_radius) + info_labels(
        f.altitude,
        f.latitude,
        f.longitude,
        f.has_fix,
        text_cx,
        text_top,
        p.row_gap,
        p.size,
    )
}

/// The panel with the rows of text and, below them, the note, kept above the
/// lower edge.
pub open spec fn portrait_plain(f: Frame, p: Portrait, h: Double) -> Seq<Command> {
    let text_top = p.band_center_y - p.row_gap * Double::ratio(2, 1);
    let note_cy = (text_top + Double::ratio(35, 10) * p.row_gap).min(h - p.size * Double::ratio(9, 100));
    info_labels(f.altitude, f.latitude, f.longitude, f.has_fix, p.cx, text_top, p.row_gap, p.size)
        + accel_disabled_note(p.cx, note_cy, p.size)
}

pub open spec fn portrait(f: Frame, rays: DialRays, w: Double, h: Double) -> Seq<Command> {
    let p = portrait_of(w, h);
    dial(f.speed, f.has_fix, f.use_mph, rays, p.cx, p.cy, p.size) + gps_status(
        f.accuracy,
        f.has_fix,
        f.elapsed_s,
        p.cx,
        p.dot_cy,
        p.size,
    ) + (if f.accel_enabled {
        portrait_assisted(f, p, w, h)
    } else {
        portrait_plain(f, p, h)
    })
}

/// A thin line between the two halves.
pub open spec fn divider(half_w: Double, h: Double) -> Seq<Command> {
    seq![
        rgba(25, 25, 28, 50),
        Command::LineWidth(Double::ratio(1, 1)),
        Command::MoveTo { x: half_w, y: h * Double::ratio(8, 100) },
        Command::LineTo { x: half_w, y: h * Double::ratio(92, 100) },
        Command::Stroke,
    ]
}

/// How large the dial is in the left half.
pub open spec fn landscape_size(half_w: Double, h: Double) -> Double {
    (half_w * Double::ratio(90, 100)).min(h * Double::ratio(90, 100))
}

/// The right half with the status and the rows of text beside the G-force meter.
pub open spec fn landscape_assisted(f: Frame, half_w: Double, h: Double, size: Double) -> Seq<Command> {
    let cx_gf = half_w + half_w * Double::ratio(28, 100);
    let cx_info = half_w + half_w * Double::ratio(72, 100);
    let gf_radius = (h * Double::ratio(30, 100)).min(half_w * Double::ratio(26, 100));
    gps_status(f.accuracy, f.has_fix, f.elapsed_s, cx_info, h * Double::ratio(18, 100), size) + gforce_meter(
        f.gforce_x,
        f.gforce_y,
        cx_gf,
        h * Double::ratio(50, 100),
        gf_radius,
    ) + info_labels(
        f.altitude,
        f.latitude,
        f.longitude,
        f.has_fix,
        cx_info,
        h * Double::ratio(60, 100),
        size * Double::ratio(75, 1000),
        size,
    )
}

/// The right half with the status, the rows of text and the note.
pub open spec fn landscape_plain(f: Frame, half_w: Double, h: Double, size: Double) -> Seq<Command> {
    let cx_info = half_w + half_w / Double::ratio(2, 1);
    let row_gap = size * Double::ratio(75, 1000);
    let info_top = h * Double::ratio(40, 100);
    let note_cy = (info_top + Double::ratio(35, 10) * row_gap).min(h * Double::ratio(90, 100));
    gps_status(f.accuracy, f.has_fix, f.elapsed_s, cx_info, h * Double::ratio(15, 100), size) + info_labels(
        f.altitude,
        f.latitude,
        f.longitude,
        f.has_fix,
        cx_info,
        info_top,
        row_gap,
        size,
    ) + accel_disabled_note(cx_info, note_cy, size)
}

pub open spec fn landscape(f: Frame, rays: DialRays, w: Double, h: Double) -> Seq<Command> {
    let half_w = w / Double::ratio(2, 1);
    let size = landscape_size(half_w, h);
    dial(f.speed, f.has_fix, f.use_mph, rays, half_w / Double::ratio(2, 1), h / Double::ratio(2, 1), size)
        + divider(half_w, h) + (if f.accel_enabled {
        landscape_assisted(f, half_w, h, size)
    } else {
        landscape_plain(f, half_w, h, size)
    })
}

/// The whole window: the background, then the tall or the wide arrangement.
pub open spec fn speedometer(f: Frame, rays: DialRays, width: i32, height: i32) -> Seq<Command> {
    let w = Double::from_int(width);
    let h = Double::from_int(height);
    seq![rgb(10, 10, 12), Command::Paint] + (if w > h {
        landscape(f, rays, w, h)
    } else {
        portrait(f, rays, w, h)
    })
}

fn make_portrait(w: Double, h: Double) -> (r: Portrait)
    ensures
        r == portrait_of(w, h),
{
    let top_margin: Double = h * Double::ratio(17, 100);
    let bot_margin: Double = h * Double::ratio(22, 100);
    let usable_h: Double = h - top_margin - bot_margin;
    let size: Double = w.min(usable_h / Double::ratio(84, 100));
    let cy: Double = top_margin + usable_h / Double::ratio(2, 1);
    let r: Double = size * Double::ratio(42, 100);
    let track_width: Double = size * Double::ratio(38, 1000);
    let panel_top: Double = cy + r + track_width * Double::ratio(12, 10) + size * Double::ratio(6, 100);
    Portrait {
        cx: w / Double::ratio(2, 1),
        cy,
        size,
        dot_cy: top_margin * Double::ratio(38, 100),
        panel_top,
        row_gap: size * Double::ratio(75, 1000),
        band_center_y: (panel_top + h) / Double::ratio(2, 1),
    }
}

/// Draws the status above the dial, the dial, and the panel below it.
pub fn draw_portrait(f: &Frame, rays: &DialRays, w: Double, h: Double) -> (r: Vec<Command>)
    requires
        rays.ticks.len() == tick_count(f.use_mph),
    ensures
        r@ == portrait(*f, *rays, w, h),
{
    let p: Portrait = make_portrait(w, h);
    let mut out: Vec<Command> = draw_dial(f.speed, f.has_fix, f.use_mph, rays, p.cx, p.cy, p.size);
    let mut status: Vec<Command> = draw_gps_status(f.accuracy, f.has_fix, f.elapsed_s, p.cx, p.dot_cy, p.size);
    out.append(&mut status);
    if f.accel_enabled {
        let available_h: Double = h - p.panel_top;
        let gf_radius: Double = (available_h * Double::ratio(32, 100)).min(w * Double::ratio(18, 100));
        let gf_cx: Double = w * Double::ratio(22, 100);
        let mut meter: Vec<Command> = draw_gforce_meter(f.gforce_x, f.gforce_y, gf_cx, p.band_center_y, gf_radius);
        let text_cx: Double = gf_cx + gf_radius + (w - gf_cx - gf_radius) / Double::ratio(2, 1);
        let text_top: Double = p.band_center_y - p.row_gap;
        let mut rows: Vec<Command> = draw_info_labels(
            f.altitude,
            f.latitude,
            f.longitude,
            f.has_fix,
            text_cx,
            text_top,
            p.row_gap,
            p.size,
        );
        meter.append(&mut rows);
        assert(meter@ == portrait_assisted(*f, p, w, h));
        out.append(&mut meter);
    } else {
        let text_top: Double = p.band_center_y - p.row_gap * Double::ratio(2, 1);
        let mut rows: Vec<Command> = draw_info_labels(
            f.altitude,
            f.latitude,
            f.longitude,
            f.has_fix,
            p.cx,
            text_top,
            p.row_gap,
            p.size,
        );
        let note_cy: Double = (text_top + Double::ratio(35, 10) * p.row_gap).min(
            h - p.size * Double::ratio(9, 100),
        );
        let mut note: Vec<Command> = draw_accel_disabled_note(p.cx, note_cy, p.size);
        rows.append(&mut note);
        assert(rows@ == portrait_plain(*f, p, h));
        out.append(&mut rows);
    }
    out
}

/// Draws the dial in the left half, and the rest in the right half.
pub fn draw_landscape(f: &Frame, rays: &DialRays, w: Double, h: Double) -> (r: Vec<Command>)
    requires
        rays.ticks.len() == tick_count(f.use_mph),
    ensures
        r@ == landscape(*f, *rays, w, h),
{
    let half_w: Double = w / Double::ratio(2, 1);
    let size: Double = (half_w * Double::ratio(90, 100)).min(h * Double::ratio(90, 100));
    let mut out: Vec<Command> = draw_dial(
        f.speed,
        f.has_fix,
        f.use_mph,
        rays,
        half_w / Double::ratio(2, 1),
        h / Double::ratio(2, 1),
        size,
    );
    let mut line: Vec<Command> = vec![
        rgba(25, 25, 28, 50),
        Command::LineWidth(Double::ratio(1, 1)),
        Command::MoveTo { x: half_w, y: h * Double::ratio(8, 100) },
        Command::LineTo { x: half_w, y: h * Double::ratio(92, 100) },
        Command::Stroke,
    ];
    out.append(&mut line);
    let row_gap: Double = size * Double::ratio(75, 1000);
    if f.accel_enabled {
        let cx_gf: Double = half_w + half_w * Double::ratio(28, 100);
        let cx_info: Double = half_w + half_w * Double::ratio(72, 100);
        let mut status: Vec<Command> = draw_gps_status(
            f.accuracy,
            f.has_fix,
            f.elapsed_s,
            cx_info,
            h * Double::ratio(18, 100),
            size,
        );
        let gf_radius: Double = (h * Double::ratio(30, 100)).min(half_w * Double::ratio(26, 100));
        let mut meter: Vec<Command> = draw_gforce_meter(
            f.gforce_x,
            f.gforce_y,
            cx_gf,
            h * Double::ratio(50, 100),
            gf_radius,
        );
        let mut rows: Vec<Command> = draw_info_labels(
            f.altitude,
            f.latitude,
            f.longitude,
            f.has_fix,
            cx_info,
            h * Double::ratio(60, 100),
            row_gap,
            size,
        );
        status.append(&mut meter);
        status.append(&mut rows);
        assert(status@ == landscape_assisted(*f, half_w, h, size));
        out.append(&mut status);
    } else {
        let cx_info: Double = half_w + half_w / Double::ratio(2, 1);
        let mut status: Vec<Command> = draw_gps_status(
            f.accuracy,
            f.has_fix,
            f.elapsed_s,
            cx_info,
            h * Double::ratio(15, 100),
            size,
        );
        let info_top: Double = h * Double::ratio(40, 100);
        let mut rows: Vec<Command> = draw_info_labels(
            f.altitude,
            f.latitude,
            f.longitude,
            f.has_fix,
            cx_info,
            info_top,
            row_gap,
            size,
        );
        let note_cy: Double = (info_top + Double::ratio(35, 10) * row_gap).min(h * Double::ratio(90, 100));
        let mut note: Vec<Command> = draw_accel_disabled_note(cx_info, note_cy, size);
        status.append(&mut rows);
        status.append(&mut note);
        assert(status@ == landscape_plain(*f, half_w, h, size));
        out.append(&mut status);
    }
    out
}

/// Draws one frame into a window of the given size.
pub fn draw_speedometer(f: &Frame, rays: &DialRays, width: i32, height: i32) -> (r: Vec<Command>)
    requires
        rays.ticks.len() == tick_count(f.use_mph),
    ensures
        r@ == speedometer(*f, *rays, width, height),
{
    let w: Double = Double::from_int(width);
    let h: Double = Double::from_int(height);
    let mut out: Vec<Command> = vec![rgb(10, 10, 12), Command::Paint];
    let mut rest: Vec<Command> = if h.below(w) {
        draw_landscape(f, rays, w, h)
    } else {
        draw_portrait(f, rays, w, h)
    };
    out.append(&mut rest);
    out
}

} // verus!
