//! The rows of text: altitude and coordinates, and the note that replaces the
//! G-force meter.
use crate::canvas::{rgb, rgba, Command, Slant, Text, Weight};
use crate::double::number::Double;
use vstd::prelude::*;

verus! {

/// The altitude, in whole metres.
pub open spec fn altitude_text(altitude: Double) -> Text {
    Text::Fixed { before: "Altitude: ", number: altitude, decimals: 0, after: " m" }
}

/// The latitude without its sign, and the hemisphere.
pub open spec fn latitude_text(latitude: Double) -> Text {
    Text::Fixed {
        before: "Lat: ",
        number: latitude.abs(),
        decimals: 5,
        after: if latitude >= Double::ratio(0, 1) {
            "° N"
        } else {
            "° S"
        },
    }
}

/// The longitude without its sign, and the hemisphere.
pub open spec fn longitude_text(longitude: Double) -> Text {
    Text::Fixed {
        before: "Lon: ",
        number: longitude.abs(),
        decimals: 5,
        after: if longitude >= Double::ratio(0, 1) {
            "° E"
        } else {
            "° W"
        },
    }
}

/// The altitude and the coordinates, one row each. Nothing without a fix.
pub open spec fn info_labels(
    altitude: Double,
    latitude: Double,
    longitude: Double,
    has_fix: bool,
    cx: Double,
    panel_top: Double,
    row_gap: Double,
    size: Double,
) -> Seq<Command> {
    if !has_fix {
        seq![]
    } else {
        seq![
            Command::Font { slant: Slant::Normal, weight: Weight::Normal },
            Command::FontSize(size * Double::ratio(52, 1000)),
            rgb(62, 64, 68),
            Command::Caption { text: altitude_text(altitude), x: cx, y: panel_top },
            Command::FontSize(size * Double::ratio(46, 1000)),
            rgb(50, 52, 56),
            Command::Caption { text: latitude_text(latitude), x: cx, y: panel_top + row_gap },
            Command::FontSize(size * Double::ratio(46, 1000)),
            rgb(50, 52, 56),
            Command::Caption {
                text: longitude_text(longitude),
                x: cx,
                y: panel_top + row_gap * Double::ratio(2, 1),
            },
        ]
    }
}

/// Draws the altitude and coordinate rows from `panel_top` down, centred at `cx`.
pub fn draw_info_labels(
    altitude: Double,
    latitude: Double,
    longitude: Double,
    has_fix: bool,
    cx: Double,
    panel_top: Double,
    row_gap: Double,
    size: Double,
) -> (r: Vec<Command>)
    ensures
        r@ == info_labels(altitude, latitude, longitude, has_fix, cx, panel_top, row_gap, size),
{
    if !has_fix {
        return Vec::new();
    }
    let zero: Double = Double::ratio(0, 1);
    let lat_hem: &'static str = if zero.at_most(latitude) { "° N" } else { "° S" };
    let lon_hem: &'static str = if zero.at_most(longitude) { "° E" } else { "° W" };
    vec![
        Command::Font { slant: Slant::Normal, weight: Weight::Normal },
        Command::FontSize(size * Double::ratio(52, 1000)),
        rgb(62, 64, 68),
        Command::Caption {
            text: Text::Fixed { before: "Altitude: ", number: altitude, decimals: 0, after: " m" },
            x: cx,
            y: panel_top,
        },
        Command::FontSize(size * Double::ratio(46, 1000)),
        rgb(50, 52, 56),
        Command::Caption {
            text: Text::Fixed { before: "Lat: ", number: latitude.abs(), decimals: 5, after: lat_hem },
            x: cx,
            y: panel_top + row_gap,
        },
        Command::FontSize(size * Double::ratio(46, 1000)),
        rgb(50, 52, 56),
        Command::Caption {
            text: Text::Fixed { before: "Lon: ", number: longitude.abs(), decimals: 5, after: lon_hem },
            x: cx,
            y: panel_top + row_gap * Double::ratio(2, 1),
        },
    ]
}

/// Three dimmed lines, one and a half font sizes apart, centred at `(cx, cy)`.
pub open spec fn accel_disabled_note(cx: Double, cy: Double, size: Double) -> Seq<Command> {
    let font_size = size * Double::ratio(38, 1000);
    let line_h = font_size * Double::ratio(15, 10);
    let total_h = line_h * (Double::ratio(3, 1) - Double::ratio(1, 1));
    let y = cy - total_h / Double::ratio(2, 1);
    seq![
        Command::Font { slant: Slant::Italic, weight: Weight::Normal },
        Command::FontSize(font_size),
        rgba(55, 56, 60, 90),
        Command::Caption { text: Text::Plain("Accel assist off"), x: cx, y },
        Command::Caption { text: Text::Plain("Speed may feel less responsive"), x: cx, y: y + line_h },
        Command::Caption { text: Text::Plain("during rapid acceleration"), x: cx, y: y + line_h + line_h },
    ]
}

/// Draws the small dimmed note shown in place of the G-force meter when the
/// assistance by the accelerometer is off.
pub fn draw_accel_disabled_note(cx: Double, cy: Double, size: Double) -> (r: Vec<Command>)
    ensures
        r@ == accel_disabled_note(cx, cy, size),
{
    let font_size: Double = size * Double::ratio(38, 1000);
    let line_h: Double = font_size * Double::ratio(15, 10);
    let total_h: Double = line_h * (Double::ratio(3, 1) - Double::ratio(1, 1));
    let first: Double = cy - total_h / Double::ratio(2, 1);
    let second: Double = first + line_h;
    let third: Double = second + line_h;
    vec![
        Command::Font { slant: Slant::Italic, weight: Weight::Normal },
        Command::FontSize(font_size),
        rgba(55, 56, 60, 90),
        Command::Caption { text: Text::Plain("Accel assist off"), x: cx, y: first },
        Command::Caption { text: Text::Plain("Speed may feel less responsive"), x: cx, y: second },
        Command::Caption { text: Text::Plain("during rapid acceleration"), x: cx, y: third },
    ]
}

} // verus!
