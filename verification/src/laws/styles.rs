//! Laws of the colours, fonts and widths that the parts of the window are drawn with.
use crate::canvas::{rgb, rgba, Command, Slant, Weight};
use crate::dial::{dial, face, needle, readout, scale_marks, tick_count, ticks, DialRays, Ray, MINOR_STEP};
use crate::double::arith::UNIT;
use crate::double::errors::{lemma_ratio_error, stands_for};
use crate::double::facts::one;
use crate::double::number::Double;
use crate::gforce::{bullseye, dot, gforce_meter, readings};
use crate::gps_status::{dot_and_label, gps_status, hint_text, small_line, timer_text};
use crate::info::{accel_disabled_note, info_labels};
use crate::laws::drawing::{lemma_majors, lemma_ticks, on_paper};
use crate::laws::pixels::{lemma_coarser, lemma_placed, lemma_placed_times, stands_at};
use crate::laws::texts::is_colour;
use vstd::arithmetic::power2::lemma_pow2_pos;
use vstd::prelude::*;

verus! {

/// A translucent colour, in hundredths.
pub open spec fn is_glaze(command: Command, red: int, green: int, blue: int, alpha: int) -> bool {
    &&& command is SourceRgba
    &&& stands_for(command->SourceRgba_red, red, 100)
    &&& stands_for(command->SourceRgba_green, green, 100)
    &&& stands_for(command->SourceRgba_blue, blue, 100)
    &&& stands_for(command->SourceRgba_alpha, alpha, 100)
}

/// A font size, or the width of a line, of so many millionths of a size.
pub open spec fn is_font_size(command: Command, r: int) -> bool {
    command is FontSize && stands_at(command->FontSize_0, r)
}

pub open spec fn is_width(command: Command, r: int) -> bool {
    command is LineWidth && stands_at(command->LineWidth_0, r)
}

pub open spec fn upright() -> Command {
    Command::Font { slant: Slant::Normal, weight: Weight::Normal }
}

pub open spec fn upright_bold() -> Command {
    Command::Font { slant: Slant::Normal, weight: Weight::Bold }
}

proof fn lemma_rgb(red: u64, green: u64, blue: u64)
    requires
        red <= 100,
        green <= 100,
        blue <= 100,
    ensures
        is_colour(rgb(red, green, blue), red as int, green as int, blue as int),
{
    lemma_ratio_error(red, 100);
    lemma_ratio_error(green, 100);
    lemma_ratio_error(blue, 100);
}

proof fn lemma_rgba(red: u64, green: u64, blue: u64, alpha: u64)
    requires
        red <= 100,
        green <= 100,
        blue <= 100,
        alpha <= 100,
    ensures
        is_glaze(rgba(red, green, blue, alpha), red as int, green as int, blue as int, alpha as int),
{
    lemma_ratio_error(red, 100);
    lemma_ratio_error(green, 100);
    lemma_ratio_error(blue, 100);
    lemma_ratio_error(alpha, 100);
}

/// A part of a size.
proof fn lemma_part_of(size: Double, n: u64, d: u64, m: int)
    requires
        on_paper(size),
        0 < n <= d <= 1000,
        d * m == 1_000_000 * n,
    ensures
        stands_at(size * Double::ratio(n, d), m * size.value()),
{
    let s = size.value();
    lemma_pow2_pos(UNIT as nat);
    lemma_placed(size);
    assert(d * (m * s) == n * (1_000_000 * s) && d * 2 >= n * (0 + 1) + d) by (nonlinear_arith)
        requires
            d * m == 1_000_000 * n,
            n <= d,
    ;
    lemma_placed_times(size, 1_000_000 * s, 0, n, d, m * s, 2);
    lemma_coarser(size * Double::ratio(n, d), m * s, 2, 1000);
}

/// The rows with the place: the altitude a little larger and brighter than the
/// coordinates.
pub proof fn rows_are_styled(
    altitude: Double,
    latitude: Double,
    longitude: Double,
    cx: Double,
    top: Double,
    gap: Double,
    size: Double,
)
    requires
        on_paper(size),
    ensures
        ({
            let out = info_labels(altitude, latitude, longitude, true, cx, top, gap, size);
            let s = size.value();
            &&& out[0] == upright()
            &&& is_font_size(out[1], 52_000 * s) && is_colour(out[2], 62, 64, 68)
            &&& is_font_size(out[4], 46_000 * s) && is_colour(out[5], 50, 52, 56)
            &&& is_font_size(out[7], 46_000 * s) && is_colour(out[8], 50, 52, 56)
        }),
{
    lemma_part_of(size, 52, 1000, 52_000);
    lemma_part_of(size, 46, 1000, 46_000);
    lemma_rgb(62, 64, 68);
    lemma_rgb(50, 52, 56);
}

/// The note is small, dimmed and in italics.
pub proof fn note_is_styled(cx: Double, cy: Double, size: Double)
    requires
        on_paper(size),
    ensures
        ({
            let out = accel_disabled_note(cx, cy, size);
            &&& out[0] == (Command::Font { slant: Slant::Italic, weight: Weight::Normal })
            &&& is_font_size(out[1], 38_000 * size.value())
            &&& is_glaze(out[2], 55, 56, 60, 90)
        }),
{
    lemma_part_of(size, 38, 1000, 38_000);
    lemma_rgba(55, 56, 60, 90);
}

/// The status: the accuracy below the dot, and the smaller and dimmer lines below
/// it.
pub proof fn status_is_styled(accuracy: Double, has_fix: bool, elapsed_s: i64, x: Double, y: Double, size: Double)
    requires
        on_paper(size),
    ensures
        ({
            let out = gps_status(accuracy, has_fix, elapsed_s, x, y, size);
            let s = size.value();
            let n = out.len() as int;
            let hinted = hint_text(accuracy, has_fix) is Some;
            let timed = timer_text(has_fix, elapsed_s) is Some;
            &&& out[0] is Circle && stands_at(out[0]->Circle_radius, 22_000 * s)
            &&& is_colour(out[3], 55, 57, 60) && is_font_size(out[4], 42_000 * s) && out[5] == upright()
            &&& hinted ==> is_font_size(out[7], 34_000 * s) && is_colour(out[8], 45, 47, 50)
            &&& timed ==> is_font_size(out[n - 3], 34_000 * s) && is_colour(out[n - 2], 38, 40, 44)
        }),
{
    let out = gps_status(accuracy, has_fix, elapsed_s, x, y, size);
    let gap = size * Double::ratio(52, 1000);
    let label_y = y + size * Double::ratio(22, 1000) + gap;
    lemma_part_of(size, 22, 1000, 22_000);
    lemma_part_of(size, 42, 1000, 42_000);
    lemma_part_of(size, 34, 1000, 34_000);
    lemma_rgb(55, 57, 60);
    lemma_rgb(45, 47, 50);
    lemma_rgb(38, 40, 44);
    let head = dot_and_label(accuracy, has_fix, x, y, label_y, size);
    assert(out[0] == head[0] && out[3] == head[3] && out[4] == head[4] && out[5] == head[5]);
    let lines: u64 = if hint_text(accuracy, has_fix) is Some {
        2
    } else {
        1
    };
    if timer_text(has_fix, elapsed_s) is Some {
        let line = small_line(
            rgb(38, 40, 44),
            timer_text(has_fix, elapsed_s)->0,
            x,
            label_y + gap * Double::ratio(lines, 1),
            size,
        );
        assert(out[out.len() - 3] == line[0]);
        assert(out[out.len() - 2] == line[1]);
    }
}

/// The meter: rings that grow fainter and thinner inwards, a glow of a quarter of
/// the dot's strength, and the status brighter than the total.
#[verifier::rlimit(40)]
pub proof fn meter_is_styled(gx: Double, gy: Double, cx: Double, cy: Double, radius: Double)
    requires
        on_paper(radius),
    ensures
        ({
            let out = gforce_meter(gx, gy, cx, cy, radius);
            let r = radius.value();
            let n = out.len() as int;
            &&& is_colour(out[1], 7, 7, 9) && out[2] is Fill
            &&& is_glaze(out[4], 35, 35, 38, 65) && is_width(out[5], 40_000 * r) && out[6] is Stroke
            &&& is_glaze(out[8], 35, 35, 38, 40) && is_width(out[9], 25_000 * r) && out[10] is Stroke
            &&& is_glaze(out[12], 35, 35, 38, 28) && is_width(out[13], 18_000 * r) && out[14] is Stroke
            &&& is_glaze(out[15], 32, 32, 35, 55) && is_width(out[16], 18_000 * r)
            &&& out[19] is Stroke && out[22] is Stroke
            &&& out[24] is SourceRgb && stands_for(out[24]->SourceRgb_blue, 5, 100) && out[25] is Fill
            &&& out[27] is SourceRgba && stands_for(out[27]->SourceRgba_blue, 5, 100)
            &&& stands_for(out[27]->SourceRgba_alpha, 25, 100)
            &&& is_width(out[28], 50_000 * r) && out[29] is Stroke
            &&& out[n - 8] == upright_bold() && is_font_size(out[n - 7], 300_000 * r) && is_colour(out[n - 6], 52, 54, 58)
            &&& out[n - 4] == upright() && is_font_size(out[n - 3], 280_000 * r) && is_colour(out[n - 2], 45, 47, 50)
        }),
{
    let out = gforce_meter(gx, gy, cx, cy, radius);
    let n = out.len() as int;
    let eye = bullseye(cx, cy, radius);
    let spot = dot(gx, gy, cx, cy, radius);
    let tail = readings(gx, gy, cx, cy, radius);
    lemma_part_of(radius, 40, 1000, 40_000);
    lemma_part_of(radius, 25, 1000, 25_000);
    lemma_part_of(radius, 18, 1000, 18_000);
    lemma_part_of(radius, 5, 100, 50_000);
    lemma_part_of(radius, 30, 100, 300_000);
    lemma_part_of(radius, 28, 100, 280_000);
    lemma_rgb(7, 7, 9);
    lemma_rgba(35, 35, 38, 65);
    lemma_rgba(35, 35, 38, 40);
    lemma_rgba(35, 35, 38, 28);
    lemma_rgba(32, 32, 35, 55);
    lemma_rgb(52, 54, 58);
    lemma_rgb(45, 47, 50);
    lemma_ratio_error(5, 100);
    lemma_ratio_error(25, 100);
    assert(eye.len() == 23 && spot.len() == 7 && tail.len() == 8);
    assert(out.subrange(0, 23) =~= eye);
    assert(forall|i: int| 0 <= i < 23 ==> #[trigger] out[i] == eye[i]);
    assert(out[24] == spot[1] && out[25] == spot[2] && out[27] == spot[4] && out[28] == spot[5] && out[29] == spot[6]);
    assert(out[n - 8] == tail[0] && out[n - 7] == tail[1] && out[n - 6] == tail[2]);
    assert(out[n - 4] == tail[4] && out[n - 3] == tail[5] && out[n - 2] == tail[6]);
}

/// The face of the dial is nearly black, with a dim track.
pub proof fn face_is_styled(speed: Double, use_mph: bool, cx: Double, cy: Double, size: Double)
    ensures
        ({
            let out = face(speed, use_mph, cx, cy, size);
            &&& is_colour(out[1], 7, 7, 9) && out[2] is Fill
            &&& is_glaze(out[3], 28, 28, 30, 70) && out[6] is Stroke
            &&& out.len() > 7 ==> {
                &&& out[7] is SourceRgba && stands_for(out[7]->SourceRgba_alpha, 9, 10)
                &&& out[8] == out[4]
                &&& out[10] is Stroke
            }
        }),
{
    lemma_rgb(7, 7, 9);
    lemma_rgba(28, 28, 30, 70);
    lemma_ratio_error(9, 10);
}

/// The needle with its shadow, the hub and the digits.
pub proof fn needle_and_digits_are_styled(
    speed: Double,
    has_fix: bool,
    use_mph: bool,
    rays: DialRays,
    cx: Double,
    cy: Double,
    size: Double,
)
    requires
        on_paper(size),
    ensures
        ({
            let out = dial(speed, has_fix, use_mph, rays, cx, cy, size);
            let s = size.value();
            let n = out.len() as int;
            &&& is_glaze(out[n - 25], 0, 0, 0, 40) && is_width(out[n - 24], 18_000 * s) && out[n - 23] is RoundCap
            &&& out[n - 22] is MoveTo && out[n - 21] is LineTo && out[n - 20] is Stroke
            &&& out[n - 22]->MoveTo_x == out[n - 17]->MoveTo_x + Double::ratio(2, 1)
            &&& out[n - 22]->MoveTo_y == out[n - 17]->MoveTo_y + Double::ratio(2, 1)
            &&& out[n - 21]->LineTo_x == out[n - 16]->LineTo_x + Double::ratio(2, 1)
            &&& out[n - 21]->LineTo_y == out[n - 16]->LineTo_y + Double::ratio(2, 1)
            &&& is_width(out[n - 18], 14_000 * s)
            &&& stands_at(out[n - 14]->Circle_radius, 28_000 * s) && is_colour(out[n - 13], 75, 75, 77)
            &&& out[n - 11] is Circle && stands_at(out[n - 11]->Circle_radius, 12_000 * s)
            &&& out[n - 11]->Circle_x == cx && out[n - 11]->Circle_y == cy && is_colour(out[n - 10], 30, 30, 32)
            &&& out[n - 12] is Fill && out[n - 9] is Fill
            &&& is_colour(out[n - 8], 100, 100, 100) && out[n - 6] == upright_bold()
            &&& is_colour(out[n - 4], 55, 57, 60) && out[n - 2] == upright()
        }),
{
    let out = dial(speed, has_fix, use_mph, rays, cx, cy, size);
    let n = out.len() as int;
    let part = needle(has_fix, rays.needle, cx, cy, size);
    let tail = readout(speed, has_fix, use_mph, cx, cy, size);
    lemma_part_of(size, 18, 1000, 18_000);
    lemma_part_of(size, 14, 1000, 14_000);
    lemma_part_of(size, 28, 1000, 28_000);
    lemma_part_of(size, 12, 1000, 12_000);
    lemma_rgba(0, 0, 0, 40);
    lemma_rgb(75, 75, 77);
    lemma_rgb(30, 30, 32);
    lemma_rgb(100, 100, 100);
    lemma_rgb(55, 57, 60);
    assert(part.len() == 17 && tail.len() == 8);
    assert(forall|i: int| 0 <= i < 17 ==> #[trigger] part[i] == out[n - 25 + i]);
    assert(forall|i: int| 0 <= i < 8 ==> #[trigger] tail[i] == out[n - 8 + i]);
    assert(out[n - 25] == part[0] && out[n - 24] == part[1] && out[n - 23] == part[2] && out[n - 22] == part[3]);
    assert(out[n - 21] == part[4] && out[n - 20] == part[5] && out[n - 18] == part[7] && out[n - 17] == part[8]);
    assert(out[n - 16] == part[9] && out[n - 14] == part[11] && out[n - 13] == part[12] && out[n - 12] == part[13]);
    assert(out[n - 11] == part[14] && out[n - 10] == part[15] && out[n - 9] == part[16]);
    assert(out[n - 8] == tail[0] && out[n - 6] == tail[2] && out[n - 4] == tail[4] && out[n - 2] == tail[6]);
}

/// Ticks are light and, at the labelled speeds, nearly twice as thick; labels are a
/// little lighter.
pub proof fn ticks_are_styled(i: int, rays: Seq<Ray>, use_mph: bool, cx: Double, cy: Double, size: Double)
    requires
        0 <= i < tick_count(use_mph),
        on_paper(size),
    ensures
        ({
            let out = scale_marks(rays, use_mph, cx, cy, size);
            let s = size.value();
            let long = if use_mph {
                i % 2 == 0
            } else {
                i % 4 == 0
            };
            let after = if use_mph {
                66int
            } else {
                106
            };
            &&& out[0] is RoundCap
            &&& is_colour(out[5 * i + 1], 80, 80, 82)
            &&& long ==> is_width(out[5 * i + 2], 13_000 * s)
            &&& !long ==> is_width(out[5 * i + 2], 7_000 * s)
            &&& is_colour(out[after], 88, 88, 90)
            &&& is_font_size(out[after + 1], 55_000 * s)
            &&& out[after + 2] == upright()
        }),
{
    let out = scale_marks(rays, use_mph, cx, cy, size);
    let n = tick_count(use_mph);
    let all = ticks(n, rays, use_mph, cx, cy, size);
    lemma_part_of(size, 13, 1000, 13_000);
    lemma_part_of(size, 7, 1000, 7_000);
    lemma_part_of(size, 55, 1000, 55_000);
    lemma_rgb(80, 80, 82);
    lemma_rgb(88, 88, 90);
    lemma_ticks(n, rays, use_mph, cx, cy, size, i);
    lemma_majors(i, use_mph);
    assert(i * MINOR_STEP == i * 10);
    assert(out[5 * i + 1] == all[5 * i + 0]);
    assert(out[5 * i + 2] == all[5 * i + 1]);
    let after = if use_mph {
        66int
    } else {
        106
    };
    assert(all.len() + 1 == after);
}

} // verus!
