//! The dial: a scale on an arc, a needle and the speed in digits.
use crate::canvas::{heat, rgb, rgba, Command, Slant, Text, Weight};
use crate::double::facts::{lemma_ratio, lemma_zero};
use crate::double::number::Double;
use vstd::prelude::*;

verus! {

/// The angle of speed zero, in degrees clockwise from the right: the lower left.
pub const START_DEG: u64 = 150;

/// How far the scale reaches, in degrees: over the top to the lower right.
pub const SWEEP_DEG: u64 = 240;

/// How far apart two ticks are, in the unit of the scale.
pub const MINOR_STEP: u64 = 10;

/// The cosine and the sine of an angle.
#[derive(Clone, Copy, Debug)]
pub struct Ray {
    pub cos: Double,
    pub sin: Double,
}

/// The angles that a dial is drawn with, in degrees.
#[derive(Debug)]
pub struct DialAngles {
    pub ticks: Vec<Double>,
    pub needle: Double,
}

/// The directions that belong to the angles of a dial, in the same order.
#[derive(Debug)]
pub struct DialRays {
    pub ticks: Vec<Ray>,
    pub needle: Ray,
}

/// The end of the scale: 120 miles or 200 kilometres per hour.
pub open spec fn scale_end(use_mph: bool) -> u64 {
    if use_mph {
        120
    } else {
        200
    }
}

/// The speeds that have a long tick and a label.
pub open spec fn majors_of(use_mph: bool) -> Seq<u64> {
    if use_mph {
        seq![0, 20, 40, 60, 80, 100, 120]
    } else {
        seq![0, 40, 80, 120, 160, 200]
    }
}

pub open spec fn tick_count(use_mph: bool) -> nat {
    (scale_end(use_mph) / MINOR_STEP + 1) as nat
}

/// The speed in the unit of the scale.
pub open spec fn shown_speed(speed: Double, use_mph: bool) -> Double {
    if use_mph {
        speed * Double::ratio(621_371, 1_000_000)
    } else {
        speed
    }
}

/// The speed in the unit of the scale, cut off at its ends.
pub open spec fn pointed_speed(speed: Double, use_mph: bool) -> Double {
    shown_speed(speed, use_mph).clamp(Double::ratio(0, 1), Double::ratio(scale_end(use_mph), 1))
}

/// The angle of a speed on the scale.
pub open spec fn angle_of(v: Double, use_mph: bool) -> Double {
    Double::ratio(START_DEG, 1) + (v / Double::ratio(scale_end(use_mph), 1)) * Double::ratio(SWEEP_DEG, 1)
}

pub open spec fn needle_angle(speed: Double, use_mph: bool) -> Double {
    angle_of(pointed_speed(speed, use_mph), use_mph)
}

pub open spec fn tick_angle(i: int, use_mph: bool) -> Double {
    angle_of(Double::ratio((i * MINOR_STEP) as u64, 1), use_mph)
}

/// All angles that a dial is drawn with: those of its ticks and that of its needle.
pub open spec fn angles_of(speed: Double, use_mph: bool) -> (Seq<Double>, Double) {
    (Seq::new(tick_count(use_mph), |i: int| tick_angle(i, use_mph)), needle_angle(speed, use_mph))
}

/// The dark disc, the grey track over the whole scale and the coloured arc up
/// to the needle. The arc is absent up to a speed of 0.1.
pub open spec fn face(speed: Double, use_mph: bool, cx: Double, cy: Double, size: Double) -> Seq<Command> {
    let r = size * Double::ratio(42, 100);
    let track_width = size * Double::ratio(38, 1000);
    let v = pointed_speed(speed, use_mph);
    let start = Double::ratio(START_DEG, 1);
    let (red, green) = heat(v / Double::ratio(scale_end(use_mph), 1));
    seq![
        Command::Circle { x: cx, y: cy, radius: r + track_width * Double::ratio(12, 10) },
        rgb(7, 7, 9),
        Command::Fill,
        rgba(28, 28, 30, 70),
        Command::LineWidth(track_width),
        Command::Arc {
            x: cx,
            y: cy,
            radius: r,
            from: start,
            to: start + Double::ratio(SWEEP_DEG, 1),
        },
        Command::Stroke,
    ] + (if v > Double::ratio(1, 10) {
        seq![
            Command::SourceRgba { red, green, blue: Double::ratio(0, 1), alpha: Double::ratio(9, 10) },
            Command::LineWidth(track_width),
            Command::Arc { x: cx, y: cy, radius: r, from: start, to: needle_angle(speed, use_mph) },
            Command::Stroke,
        ]
    } else {
        seq![]
    })
}

/// The tick at index `i`, from the circle inwards; longer and thicker at the
/// labelled speeds.
pub open spec fn tick(i: int, ray: Ray, use_mph: bool, cx: Double, cy: Double, size: Double) -> Seq<Command> {
    let r = size * Double::ratio(42, 100);
    let major = majors_of(use_mph).contains((i * MINOR_STEP) as u64);
    let inner = if major {
        r - size * Double::ratio(65, 1000)
    } else {
        r - size * Double::ratio(38, 1000)
    };
    seq![
        rgb(80, 80, 82),
        Command::LineWidth(
            if major {
                size * Double::ratio(13, 1000)
            } else {
                size * Double::ratio(7, 1000)
            },
        ),
        Command::MoveTo { x: cx + inner * ray.cos, y: cy + inner * ray.sin },
        Command::LineTo { x: cx + r * ray.cos, y: cy + r * ray.sin },
        Command::Stroke,
    ]
}

/// The first `n` ticks.
pub open spec fn ticks(n: nat, rays: Seq<Ray>, use_mph: bool, cx: Double, cy: Double, size: Double) -> Seq<Command>
    decreases n,
{
    if n == 0 {
        seq![]
    } else {
        ticks((n - 1) as nat, rays, use_mph, cx, cy, size) + tick(n - 1, rays[n - 1], use_mph, cx, cy, size)
    }
}

/// The label of the speed `v`, inside the circle on the ray of its tick.
pub open spec fn scale_label(v: u64, rays: Seq<Ray>, cx: Double, cy: Double, size: Double) -> Command {
    let r = size * Double::ratio(42, 100) - size * Double::ratio(14, 100);
    let ray = rays[(v / MINOR_STEP) as int];
    Command::Label {
        text: Text::Count { before: "", value: v as i64, after: "" },
        x: cx + r * ray.cos,
        y: cy + r * ray.sin,
    }
}

/// All ticks, and the labels at the long ones.
pub open spec fn scale_marks(rays: Seq<Ray>, use_mph: bool, cx: Double, cy: Double, size: Double) -> Seq<Command> {
    seq![Command::RoundCap] + ticks(tick_count(use_mph), rays, use_mph, cx, cy, size) + seq![
        rgb(88, 88, 90),
        Command::FontSize(size * Double::ratio(55, 1000)),
        Command::Font { slant: Slant::Normal, weight: Weight::Normal },
    ] + majors_of(use_mph).map_values(|v: u64| scale_label(v, rays, cx, cy, size))
}

/// The needle with its shadow, red with a fix and grey without, and the hub.
pub open spec fn needle(has_fix: bool, ray: Ray, cx: Double, cy: Double, size: Double) -> Seq<Command> {
    let r = size * Double::ratio(42, 100);
    let tail_x = cx - r * Double::ratio(18, 100) * ray.cos;
    let tail_y = cy - r * Double::ratio(18, 100) * ray.sin;
    let tip_x = cx + r * Double::ratio(88, 100) * ray.cos;
    let tip_y = cy + r * Double::ratio(88, 100) * ray.sin;
    let two = Double::ratio(2, 1);
    seq![
        rgba(0, 0, 0, 40),
        Command::LineWidth(size * Double::ratio(18, 1000)),
        Command::RoundCap,
        Command::MoveTo { x: tail_x + two, y: tail_y + two },
        Command::LineTo { x: tip_x + two, y: tip_y + two },
        Command::Stroke,
        if has_fix {
            rgb(92, 22, 22)
        } else {
            rgb(55, 55, 55)
        },
        Command::LineWidth(size * Double::ratio(14, 1000)),
        Command::MoveTo { x: tail_x, y: tail_y },
        Command::LineTo { x: tip_x, y: tip_y },
        Command::Stroke,
        Command::Circle { x: cx, y: cy, radius: size * Double::ratio(28, 1000) },
        rgb(75, 75, 77),
        Command::Fill,
        Command::Circle { x: cx, y: cy, radius: size * Double::ratio(12, 1000) },
        rgb(30, 30, 32),
        Command::Fill,
    ]
}

/// The speed in digits. It is not cut off at the end of the scale.
pub open spec fn speed_text(speed: Double, has_fix: bool, use_mph: bool) -> Text {
    if has_fix {
        Text::Fixed {
            before: "",
            number: shown_speed(speed, use_mph).max(Double::ratio(0, 1)),
            decimals: 0,
            after: "",
        }
    } else {
        Text::Plain("--")
    }
}

/// The speed in digits below the middle, and the unit below it.
pub open spec fn readout(
    speed: Double,
    has_fix: bool,
    use_mph: bool,
    cx: Double,
    cy: Double,
    size: Double,
) -> Seq<Command> {
    let speed_y = cy + size * Double::ratio(22, 100);
    seq![
        rgb(100, 100, 100),
        Command::FontSize(size * Double::ratio(16, 100)),
        Command::Font { slant: Slant::Normal, weight: Weight::Bold },
        Command::Caption { text: speed_text(speed, has_fix, use_mph), x: cx, y: speed_y },
        rgb(55, 57, 60),
        Command::FontSize(size * Double::ratio(55, 1000)),
        Command::Font { slant: Slant::Normal, weight: Weight::Normal },
        Command::Caption {
            text: Text::Plain(
                if use_mph {
                    "mph"
                } else {
                    "km/h"
                },
            ),
            x: cx,
            y: speed_y + size * Double::ratio(75, 1000),
        },
    ]
}

/// The whole dial.
pub open spec fn dial(
    speed: Double,
    has_fix: bool,
    use_mph: bool,
    rays: DialRays,
    cx: Double,
    cy: Double,
    size: Double,
) -> Seq<Command> {
    face(speed, use_mph, cx, cy, size) + scale_marks(rays.ticks@, use_mph, cx, cy, size) + needle(
        has_fix,
        rays.needle,
        cx,
        cy,
        size,
    ) + readout(speed, has_fix, use_mph, cx, cy, size)
}

fn max_speed(use_mph: bool) -> (r: u64)
    ensures
        r == scale_end(use_mph),
{
    if use_mph {
        120
    } else {
        200
    }
}

fn tick_majors(use_mph: bool) -> (r: Vec<u64>)
    ensures
        r@ == majors_of(use_mph),
{
    if use_mph {
        vec![0, 20, 40, 60, 80, 100, 120]
    } else {
        vec![0, 40, 80, 120, 160, 200]
    }
}

fn display_speed(speed: Double, use_mph: bool) -> (r: Double)
    ensures
        r == shown_speed(speed, use_mph),
{
    if use_mph {
        speed * Double::ratio(621_371, 1_000_000)
    } else {
        speed
    }
}

fn clamped_speed(speed: Double, use_mph: bool) -> (r: Double)
    ensures
        r == pointed_speed(speed, use_mph),
{
    proof {
        lemma_zero();
        lemma_ratio(scale_end(use_mph), 1);
    }
    display_speed(speed, use_mph).clamp(Double::ratio(0, 1), Double::ratio(max_speed(use_mph), 1))
}

fn scale_angle(v: Double, use_mph: bool) -> (r: Double)
    ensures
        r == angle_of(v, use_mph),
{
    Double::ratio(START_DEG, 1) + (v / Double::ratio(max_speed(use_mph), 1)) * Double::ratio(SWEEP_DEG, 1)
}

/// The angles whose cosines and sines the dial is drawn with.
pub fn dial_angles(speed: Double, use_mph: bool) -> (r: DialAngles)
    ensures
        (r.ticks@, r.needle) == angles_of(speed, use_mph),
        r.ticks@ == Seq::new(tick_count(use_mph), |i: int| tick_angle(i, use_mph)),
        r.needle == needle_angle(speed, use_mph),
{
    let count: u64 = max_speed(use_mph) / MINOR_STEP + 1;
    let mut ticks: Vec<Double> = Vec::new();
    let mut i: u64 = 0;
    while i < count
        invariant
            i <= count == tick_count(use_mph),
            count <= 21,
            ticks@ == Seq::new(i as nat, |j: int| tick_angle(j, use_mph)),
        decreases count - i,
    {
        ticks.push(scale_angle(Double::ratio(i * MINOR_STEP, 1), use_mph));
        i = i + 1;
    }
    DialAngles { ticks, needle: scale_angle(clamped_speed(speed, use_mph), use_mph) }
}

fn make_face(speed: Double, use_mph: bool, cx: Double, cy: Double, size: Double) -> (out: Vec<Command>)
    ensures
        out@ == face(speed, use_mph, cx, cy, size),
{
    let r: Double = size * Double::ratio(42, 100);
    let track_width: Double = size * Double::ratio(38, 1000);
    let v: Double = clamped_speed(speed, use_mph);
    let start: Double = Double::ratio(START_DEG, 1);
    let mut out: Vec<Command> = vec![
        Command::Circle { x: cx, y: cy, radius: r + track_width * Double::ratio(12, 10) },
        rgb(7, 7, 9),
        Command::Fill,
        rgba(28, 28, 30, 70),
        Command::LineWidth(track_width),
        Command::Arc { x: cx, y: cy, radius: r, from: start, to: start + Double::ratio(SWEEP_DEG, 1) },
        Command::Stroke,
    ];
    if Double::ratio(1, 10).below(v) {
        let (red, green): (Double, Double) = heat(v / Double::ratio(max_speed(use_mph), 1));
        let mut arc: Vec<Command> = vec![
            Command::SourceRgba { red, green, blue: Double::ratio(0, 1), alpha: Double::ratio(9, 10) },
            Command::LineWidth(track_width),
            Command::Arc { x: cx, y: cy, radius: r, from: start, to: scale_angle(v, use_mph) },
            Command::Stroke,
        ];
        out.append(&mut arc);
    }
    out
}

fn contains(list: &Vec<u64>, v: u64) -> (r: bool)
    ensures
        r == list@.contains(v),
{
    let mut i: usize = 0;
    while i < list.len()
        invariant
            i <= list.len(),
            forall|j: int| 0 <= j < i ==> list@[j] != v,
        decreases list.len() - i,
    {
        if list[i] == v {
            return true;
        }
        i = i + 1;
    }
    false
}

fn make_tick(
    i: u64,
    ray: Ray,
    majors: &Vec<u64>,
    use_mph: bool,
    cx: Double,
    cy: Double,
    size: Double,
) -> (out: Vec<Command>)
    requires
        i < 1000,
        majors@ == majors_of(use_mph),
    ensures
        out@ == tick(i as int, ray, use_mph, cx, cy, size),
{
    let r: Double = size * Double::ratio(42, 100);
    let is_major: bool = contains(majors, i * MINOR_STEP);
    let inner: Double = if is_major {
        r - size * Double::ratio(65, 1000)
    } else {
        r - size * Double::ratio(38, 1000)
    };
    let width: Double = if is_major { size * Double::ratio(13, 1000) } else { size * Double::ratio(7, 1000) };
    vec![
        rgb(80, 80, 82),
        Command::LineWidth(width),
        Command::MoveTo { x: cx + inner * ray.cos, y: cy + inner * ray.sin },
        Command::LineTo { x: cx + r * ray.cos, y: cy + r * ray.sin },
        Command::Stroke,
    ]
}

fn make_scale_marks(rays: &Vec<Ray>, use_mph: bool, cx: Double, cy: Double, size: Double) -> (out: Vec<Command>)
    requires
        rays.len() == tick_count(use_mph),
    ensures
        out@ == scale_marks(rays@, use_mph, cx, cy, size),
{
    let majors: Vec<u64> = tick_majors(use_mph);
    let mut out: Vec<Command> = vec![Command::RoundCap];
    let mut i: usize = 0;
    while i < rays.len()
        invariant
            i <= rays.len() == tick_count(use_mph),
            rays.len() <= 21,
            majors@ == majors_of(use_mph),
            out@ == seq![Command::RoundCap] + ticks(i as nat, rays@, use_mph, cx, cy, size),
        decreases rays.len() - i,
    {
        let mut one: Vec<Command> = make_tick(i as u64, rays[i], &majors, use_mph, cx, cy, size);
        out.append(&mut one);
        i = i + 1;
        proof {
            let done = ticks((i - 1) as nat, rays@, use_mph, cx, cy, size);
            let new = tick(i - 1, rays@[i - 1], use_mph, cx, cy, size);
            assert((seq![Command::RoundCap] + done) + new =~= seq![Command::RoundCap] + (done + new));
        }
    }
    let mut font: Vec<Command> = vec![
        rgb(88, 88, 90),
        Command::FontSize(size * Double::ratio(55, 1000)),
        Command::Font { slant: Slant::Normal, weight: Weight::Normal },
    ];
    out.append(&mut font);
    let r: Double = size * Double::ratio(42, 100) - size * Double::ratio(14, 100);
    let ghost start = out@;
    let mut m: usize = 0;
    let ghost label = |v: u64| scale_label(v, rays@, cx, cy, size);
    while m < majors.len()
        invariant
            m <= majors.len(),
            majors@ == majors_of(use_mph),
            rays.len() == tick_count(use_mph),
            r == size * Double::ratio(42, 100) - size * Double::ratio(14, 100),
            label == (|v: u64| scale_label(v, rays@, cx, cy, size)),
            out@ == start + majors@.take(m as int).map_values(label),
        decreases majors.len() - m,
    {
        let v: u64 = majors[m];
        assert(v <= scale_end(use_mph));
        let ray: Ray = rays[(v / MINOR_STEP) as usize];
        out.push(
            Command::Label {
                text: Text::Count { before: "", value: v as i64, after: "" },
                x: cx + r * ray.cos,
                y: cy + r * ray.sin,
            },
        );
        proof {
            assert(majors@.take(m + 1) =~= majors@.take(m as int).push(v));
            assert(majors@.take(m + 1).map_values(label) =~= majors@.take(m as int).map_values(label).push(label(v)));
        }
        m = m + 1;
    }
    proof {
        assert(majors@.take(m as int) =~= majors@);
    }
    out
}

fn make_needle(has_fix: bool, ray: Ray, cx: Double, cy: Double, size: Double) -> (out: Vec<Command>)
    ensures
        out@ == needle(has_fix, ray, cx, cy, size),
{
    let r: Double = size * Double::ratio(42, 100);
    let tail_x: Double = cx - r * Double::ratio(18, 100) * ray.cos;
    let tail_y: Double = cy - r * Double::ratio(18, 100) * ray.sin;
    let tip_x: Double = cx + r * Double::ratio(88, 100) * ray.cos;
    let tip_y: Double = cy + r * Double::ratio(88, 100) * ray.sin;
    let two: Double = Double::ratio(2, 1);
    let colour: Command = if has_fix { rgb(92, 22, 22) } else { rgb(55, 55, 55) };
    vec![
        rgba(0, 0, 0, 40),
        Command::LineWidth(size * Double::ratio(18, 1000)),
        Command::RoundCap,
        Command::MoveTo { x: tail_x + two, y: tail_y + two },
        Command::LineTo { x: tip_x + two, y: tip_y + two },
        Command::Stroke,
        colour,
        Command::LineWidth(size * Double::ratio(14, 1000)),
        Command::MoveTo { x: tail_x, y: tail_y },
        Command::LineTo { x: tip_x, y: tip_y },
        Command::Stroke,
        Command::Circle { x: cx, y: cy, radius: size * Double::ratio(28, 1000) },
        rgb(75, 75, 77),
        Command::Fill,
        Command::Circle { x: cx, y: cy, radius: size * Double::ratio(12, 1000) },
        rgb(30, 30, 32),
        Command::Fill,
    ]
}

fn make_readout(
    speed: Double,
    has_fix: bool,
    use_mph: bool,
    cx: Double,
    cy: Double,
    size: Double,
) -> (out: Vec<Command>)
    ensures
        out@ == readout(speed, has_fix, use_mph, cx, cy, size),
{
    let speed_y: Double = cy + size * Double::ratio(22, 100);
    let text: Text = if has_fix {
        Text::Fixed {
            before: "",
            number: display_speed(speed, use_mph).max(Double::ratio(0, 1)),
            decimals: 0,
            after: "",
        }
    } else {
        Text::Plain("--")
    };
    let unit: &'static str = if use_mph { "mph" } else { "km/h" };
    vec![
        rgb(100, 100, 100),
        Command::FontSize(size * Double::ratio(16, 100)),
        Command::Font { slant: Slant::Normal, weight: Weight::Bold },
        Command::Caption { text, x: cx, y: speed_y },
        rgb(55, 57, 60),
        Command::FontSize(size * Double::ratio(55, 1000)),
        Command::Font { slant: Slant::Normal, weight: Weight::Normal },
        Command::Caption { text: Text::Plain(unit), x: cx, y: speed_y + size * Double::ratio(75, 1000) },
    ]
}

/// Draws the dial centred at `(cx, cy)`. The rays are the cosines and sines of
/// what [`dial_angles`] gives for the same speed and unit.
pub fn draw_dial(
    speed: Double,
    has_fix: bool,
    use_mph: bool,
    rays: &DialRays,
    cx: Double,
    cy: Double,
    size: Double,
) -> (r: Vec<Command>)
    requires
        rays.ticks.len() == tick_count(use_mph),
    ensures
        r@ == dial(speed, has_fix, use_mph, *rays, cx, cy, size),
{
    let mut out: Vec<Command> = make_face(speed, use_mph, cx, cy, size);
    let mut marks: Vec<Command> = make_scale_marks(&rays.ticks, use_mph, cx, cy, size);
    let mut needle: Vec<Command> = make_needle(has_fix, rays.needle, cx, cy, size);
    let mut readout: Vec<Command> = make_readout(speed, has_fix, use_mph, cx, cy, size);
    out.append(&mut marks);
    out.append(&mut needle);
    out.append(&mut readout);
    out
}

} // verus!
