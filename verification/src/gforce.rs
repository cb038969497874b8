//! The G-force meter: a dot on a bullseye.
use crate::canvas::{heat, rgb, rgba, Command, Slant, Text, Weight};
use crate::double::facts::{lemma_negated, lemma_ratio, lemma_zero};
use crate::double::number::Double;
use vstd::prelude::*;

verus! {

/// The strength of both components together.
pub open spec fn total_of(gx: Double, gy: Double) -> Double {
    (gx * gx + gy * gy).sqrt()
}

/// What the vehicle does: the stronger axis decides, and its sign. Below 0.08 G
/// it does nothing.
pub open spec fn status_of(gx: Double, gy: Double) -> &'static str {
    if total_of(gx, gy) < Double::ratio(8, 100) {
        "IDLE"
    } else if gy.abs() >= gx.abs() {
        if gy > Double::ratio(0, 1) {
            "ACC"
        } else {
            "BRAKE"
        }
    } else if gx > Double::ratio(0, 1) {
        "TURN R"
    } else {
        "TURN L"
    }
}

/// One ring around the middle.
pub open spec fn ring(cx: Double, cy: Double, r: Double, frac: Double, alpha: Double, width: Double) -> Seq<Command> {
    seq![
        Command::Circle { x: cx, y: cy, radius: r * frac },
        Command::SourceRgba {
            red: Double::ratio(35, 100),
            green: Double::ratio(35, 100),
            blue: Double::ratio(38, 100),
            alpha,
        },
        Command::LineWidth(r * width),
        Command::Stroke,
    ]
}

/// The dark disc, rings at 1, 0.5 and 0.25 G, and the crosshairs.
pub open spec fn bullseye(cx: Double, cy: Double, r: Double) -> Seq<Command> {
    seq![
        Command::Circle { x: cx, y: cy, radius: r * Double::ratio(110, 100) },
        rgb(7, 7, 9),
        Command::Fill,
    ] + ring(cx, cy, r, Double::ratio(100, 100), Double::ratio(65, 100), Double::ratio(40, 1000))
        + ring(cx, cy, r, Double::ratio(50, 100), Double::ratio(40, 100), Double::ratio(25, 1000))
        + ring(cx, cy, r, Double::ratio(25, 100), Double::ratio(28, 100), Double::ratio(18, 1000))
        + seq![
        rgba(32, 32, 35, 55),
        Command::LineWidth(r * Double::ratio(18, 1000)),
        Command::MoveTo { x: cx - r, y: cy },
        Command::LineTo { x: cx + r, y: cy },
        Command::Stroke,
        Command::MoveTo { x: cx, y: cy - r },
        Command::LineTo { x: cx, y: cy + r },
        Command::Stroke,
    ]
}

/// A component, cut off at 1 G.
pub open spec fn deflection(g: Double) -> Double {
    g.clamp(-Double::ratio(1, 1), Double::ratio(1, 1))
}

/// The dot and the glow around it. It moves right with the lateral and up with
/// the longitudinal component, and turns from green to red with their total.
pub open spec fn dot(gx: Double, gy: Double, cx: Double, cy: Double, r: Double) -> Seq<Command> {
    let x = cx + deflection(gx) * r;
    let y = cy - deflection(gy) * r;
    let (red, shade) = heat(total_of(gx, gy));
    let green = shade.clamp(Double::ratio(0, 1), Double::ratio(1, 1));
    let blue = Double::ratio(5, 100);
    seq![
        Command::Circle { x, y, radius: r * Double::ratio(14, 100) },
        Command::SourceRgb { red, green, blue },
        Command::Fill,
        Command::Circle { x, y, radius: r * Double::ratio(20, 100) },
        Command::SourceRgba { red, green, blue, alpha: Double::ratio(25, 100) },
        Command::LineWidth(r * Double::ratio(5, 100)),
        Command::Stroke,
    ]
}

/// The status above the meter and the total below it.
pub open spec fn readings(gx: Double, gy: Double, cx: Double, cy: Double, r: Double) -> Seq<Command> {
    seq![
        Command::Font { slant: Slant::Normal, weight: Weight::Bold },
        Command::FontSize(r * Double::ratio(30, 100)),
        rgb(52, 54, 58),
        Command::Caption {
            text: Text::Plain(status_of(gx, gy)),
            x: cx,
            y: cy - r * Double::ratio(130, 100),
        },
        Command::Font { slant: Slant::Normal, weight: Weight::Normal },
        Command::FontSize(r * Double::ratio(28, 100)),
        rgb(45, 47, 50),
        Command::Caption {
            text: Text::Fixed { before: "", number: total_of(gx, gy), decimals: 2, after: "g" },
            x: cx,
            y: cy + r * Double::ratio(138, 100),
        },
    ]
}

/// The whole meter.
pub open spec fn gforce_meter(gx: Double, gy: Double, cx: Double, cy: Double, radius: Double) -> Seq<Command> {
    bullseye(cx, cy, radius) + dot(gx, gy, cx, cy, radius) + readings(gx, gy, cx, cy, radius)
}

fn make_ring(cx: Double, cy: Double, r: Double, frac: Double, alpha: Double, width: Double) -> (out: Vec<Command>)
    ensures
        out@ == ring(cx, cy, r, frac, alpha, width),
{
    vec![
        Command::Circle { x: cx, y: cy, radius: r * frac },
        Command::SourceRgba {
            red: Double::ratio(35, 100),
            green: Double::ratio(35, 100),
            blue: Double::ratio(38, 100),
            alpha,
        },
        Command::LineWidth(r * width),
        Command::Stroke,
    ]
}

fn make_bullseye(cx: Double, cy: Double, r: Double) -> (out: Vec<Command>)
    ensures
        out@ == bullseye(cx, cy, r),
{
    let mut out: Vec<Command> = vec![
        Command::Circle { x: cx, y: cy, radius: r * Double::ratio(110, 100) },
        rgb(7, 7, 9),
        Command::Fill,
    ];
    let mut outer: Vec<Command> = make_ring(
        cx,
        cy,
        r,
        Double::ratio(100, 100),
        Double::ratio(65, 100),
        Double::ratio(40, 1000),
    );
    let mut middle: Vec<Command> = make_ring(
        cx,
        cy,
        r,
        Double::ratio(50, 100),
        Double::ratio(40, 100),
        Double::ratio(25, 1000),
    );
    let mut inner: Vec<Command> = make_ring(
        cx,
        cy,
        r,
        Double::ratio(25, 100),
        Double::ratio(28, 100),
        Double::ratio(18, 1000),
    );
    let left: Double = cx - r;
    let top: Double = cy - r;
    let mut cross: Vec<Command> = vec![
        rgba(32, 32, 35, 55),
        Command::LineWidth(r * Double::ratio(18, 1000)),
        Command::MoveTo { x: left, y: cy },
        Command::LineTo { x: cx + r, y: cy },
        Command::Stroke,
        Command::MoveTo { x: cx, y: top },
        Command::LineTo { x: cx, y: cy + r },
        Command::Stroke,
    ];
    out.append(&mut outer);
    out.append(&mut middle);
    out.append(&mut inner);
    out.append(&mut cross);
    out
}

fn make_deflection(g: Double) -> (r: Double)
    ensures
        r == deflection(g),
{
    let one: Double = Double::ratio(1, 1);
    proof {
        lemma_ratio(1, 1);
        lemma_negated(one);
    }
    g.clamp(one.negated(), one)
}

fn make_dot(gx: Double, gy: Double, total_g: Double, cx: Double, cy: Double, r: Double) -> (out: Vec<Command>)
    requires
        total_g == total_of(gx, gy),
    ensures
        out@ == dot(gx, gy, cx, cy, r),
{
    let x: Double = cx + make_deflection(gx) * r;
    let y: Double = cy - make_deflection(gy) * r;
    let (red, shade): (Double, Double) = heat(total_g);
    proof {
        lemma_ratio(0, 1);
        lemma_ratio(1, 1);
        lemma_zero();
    }
    let green: Double = shade.clamp(Double::ratio(0, 1), Double::ratio(1, 1));
    let blue: Double = Double::ratio(5, 100);
    vec![
        Command::Circle { x, y, radius: r * Double::ratio(14, 100) },
        Command::SourceRgb { red, green, blue },
        Command::Fill,
        Command::Circle { x, y, radius: r * Double::ratio(20, 100) },
        Command::SourceRgba { red, green, blue, alpha: Double::ratio(25, 100) },
        Command::LineWidth(r * Double::ratio(5, 100)),
        Command::Stroke,
    ]
}

/// Draws the meter centred at `(cx, cy)`.
///
/// `gx` is the lateral and `gy` the longitudinal component, and `radius` is the
/// length that stands for 1 G.
pub fn draw_gforce_meter(gx: Double, gy: Double, cx: Double, cy: Double, radius: Double) -> (r: Vec<Command>)
    ensures
        r@ == gforce_meter(gx, gy, cx, cy, radius),
{
    let total_g: Double = (gx * gx + gy * gy).sqrt();
    let zero: Double = Double::ratio(0, 1);
    let status: &'static str = if total_g.below(Double::ratio(8, 100)) {
        "IDLE"
    } else if gx.abs().at_most(gy.abs()) {
        if zero.below(gy) {
            "ACC"
        } else {
            "BRAKE"
        }
    } else if zero.below(gx) {
        "TURN R"
    } else {
        "TURN L"
    };
    let mut out: Vec<Command> = make_bullseye(cx, cy, radius);
    let mut dot: Vec<Command> = make_dot(gx, gy, total_g, cx, cy, radius);
    let status_y: Double = cy - radius * Double::ratio(130, 100);
    let mut readings: Vec<Command> = vec![
        Command::Font { slant: Slant::Normal, weight: Weight::Bold },
        Command::FontSize(radius * Double::ratio(30, 100)),
        rgb(52, 54, 58),
        Command::Caption { text: Text::Plain(status), x: cx, y: status_y },
        Command::Font { slant: Slant::Normal, weight: Weight::Normal },
        Command::FontSize(radius * Double::ratio(28, 100)),
        rgb(45, 47, 50),
        Command::Caption {
            text: Text::Fixed { before: "", number: total_g, decimals: 2, after: "g" },
            x: cx,
            y: cy + radius * Double::ratio(138, 100),
        },
    ];
    out.append(&mut dot);
    out.append(&mut readings);
    out
}

} // verus!
