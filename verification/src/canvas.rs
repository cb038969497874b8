//! What there is to draw: a list of commands for a canvas.
use crate::double::number::Double;
use vstd::prelude::*;

verus! {

/// A piece of text. Numbers are spelled out by whoever draws it.
#[derive(Clone, Copy, Debug)]
pub enum Text {
    Plain(&'static str),
    /// A whole number between two fixed parts.
    Count { before: &'static str, value: i64, after: &'static str },
    /// A number with the given count of decimals between two fixed parts.
    Fixed { before: &'static str, number: Double, decimals: u32, after: &'static str },
}

#[derive(Clone, Copy, Debug)]
pub enum Slant {
    Normal,
    Italic,
}

#[derive(Clone, Copy, Debug)]
pub enum Weight {
    Normal,
    Bold,
}

/// One step of drawing. Lengths are in pixels, angles in degrees, clockwise
/// from the right.
#[derive(Clone, Copy, Debug)]
pub enum Command {
    Paint,
    Fill,
    Stroke,
    SourceRgb { red: Double, green: Double, blue: Double },
    SourceRgba { red: Double, green: Double, blue: Double, alpha: Double },
    LineWidth(Double),
    /// Lines end in a half circle from here on.
    RoundCap,
    MoveTo { x: Double, y: Double },
    LineTo { x: Double, y: Double },
    Circle { x: Double, y: Double, radius: Double },
    Arc { x: Double, y: Double, radius: Double, from: Double, to: Double },
    FontSize(Double),
    Font { slant: Slant, weight: Weight },
    /// Text centred at `x`, standing on the line `y`.
    Caption { text: Text, x: Double, y: Double },
    /// Text centred at `x` and at `y`.
    Label { text: Text, x: Double, y: Double },
}

/// An opaque colour, in hundredths.
pub open spec fn colour_of(red: u64, green: u64, blue: u64) -> Command {
    Command::SourceRgb {
        red: Double::ratio(red, 100),
        green: Double::ratio(green, 100),
        blue: Double::ratio(blue, 100),
    }
}

#[verifier::when_used_as_spec(colour_of)]
pub fn rgb(red: u64, green: u64, blue: u64) -> (r: Command)
    ensures
        r == colour_of(red, green, blue),
{
    Command::SourceRgb {
        red: Double::ratio(red, 100),
        green: Double::ratio(green, 100),
        blue: Double::ratio(blue, 100),
    }
}

/// A translucent colour, in hundredths.
pub open spec fn glaze_of(red: u64, green: u64, blue: u64, alpha: u64) -> Command {
    Command::SourceRgba {
        red: Double::ratio(red, 100),
        green: Double::ratio(green, 100),
        blue: Double::ratio(blue, 100),
        alpha: Double::ratio(alpha, 100),
    }
}

#[verifier::when_used_as_spec(glaze_of)]
pub fn rgba(red: u64, green: u64, blue: u64, alpha: u64) -> (r: Command)
    ensures
        r == glaze_of(red, green, blue, alpha),
{
    Command::SourceRgba {
        red: Double::ratio(red, 100),
        green: Double::ratio(green, 100),
        blue: Double::ratio(blue, 100),
        alpha: Double::ratio(alpha, 100),
    }
}

/// From green over yellow to red: how much of red and green there is at a level
/// of which one half is yellow.
pub open spec fn heat_of(level: Double) -> (Double, Double) {
    if level <= Double::ratio(5, 10) {
        (level * Double::ratio(2, 1), Double::ratio(1, 1))
    } else {
        (Double::ratio(1, 1), Double::ratio(1, 1) - (level - Double::ratio(5, 10)) * Double::ratio(2, 1))
    }
}

#[verifier::when_used_as_spec(heat_of)]
pub fn heat(level: Double) -> (r: (Double, Double))
    ensures
        r == heat_of(level),
{
    if level.at_most(Double::ratio(5, 10)) {
        (level * Double::ratio(2, 1), Double::ratio(1, 1))
    } else {
        (Double::ratio(1, 1), Double::ratio(1, 1) - (level - Double::ratio(5, 10)) * Double::ratio(2, 1))
    }
}

/// Where the pen starts so that text of the given width and bearing is centred at `x`.
pub open spec fn text_start(x: Double, width: Double, bearing: Double) -> Double {
    x - width / Double::ratio(2, 1) - bearing
}

#[verifier::when_used_as_spec(text_start)]
pub fn centred(x: Double, width: Double, bearing: Double) -> (r: Double)
    ensures
        r == text_start(x, width, bearing),
{
    x - width / Double::ratio(2, 1) - bearing
}

/// The line on which text of the given height stands so that it is centred at `y`.
pub open spec fn text_line(y: Double, height: Double) -> Double {
    y + height / Double::ratio(2, 1)
}

#[verifier::when_used_as_spec(text_line)]
pub fn lowered(y: Double, height: Double) -> (r: Double)
    ensures
        r == text_line(y, height),
{
    y + height / Double::ratio(2, 1)
}

} // verus!
