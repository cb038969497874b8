//! Laws of what stands in the rows of text, and where.
use crate::canvas::{centred, lowered, rgb, Command, Text};
use crate::double::arith::UNIT;
use crate::double::errors::{close, lemma_over, lemma_ratio_error, moderate, stands_for};
use crate::double::facts::{lemma_abs, lemma_difference, lemma_near_exact, lemma_whole, lemma_zero, one};
use crate::double::grid::lemma_order;
use crate::double::number::{distance, Double};
use crate::gps_status::{dot_and_label, gps_status, hint_text, small_line, timer_text};
use crate::info::{accel_disabled_note, info_labels};
use crate::laws::pixels::{
    lemma_coarser, lemma_placed, lemma_placed_minus, lemma_placed_over, lemma_placed_plus, lemma_placed_times, on_screen,
    placed, stands_at,
};
use vstd::arithmetic::power2::lemma_pow2_pos;
use vstd::prelude::*;

verus! {

/// An opaque colour, in hundredths.
pub open spec fn is_colour(command: Command, red: int, green: int, blue: int) -> bool {
    &&& command is SourceRgb
    &&& stands_for(command->SourceRgb_red, red, 100)
    &&& stands_for(command->SourceRgb_green, green, 100)
    &&& stands_for(command->SourceRgb_blue, blue, 100)
}

/// What the status says of the fix: the colour of its dot, the accuracy in metres
/// below a kilometre and in kilometres from there on, and a hint where there is no
/// fix or a poor one.
pub proof fn status_tells_the_accuracy(
    accuracy: Double,
    has_fix: bool,
    elapsed_s: i64,
    x: Double,
    y: Double,
    size: Double,
)
    requires
        moderate(accuracy),
    ensures
        ({
            let out = gps_status(accuracy, has_fix, elapsed_s, x, y, size);
            let a = accuracy.value();
            let label = out[6]->Caption_text;
            let hint = out[9]->Caption_text;
            let good = has_fix && a < 10 * one();
            &&& out[0] is Circle && out[0]->Circle_x == x && out[0]->Circle_y == y
            &&& !has_fix ==> is_colour(out[1], 90, 20, 20)
            &&& good ==> is_colour(out[1], 18, 85, 30)
            &&& has_fix && !good ==> is_colour(out[1], 95, 78, 10)
            &&& out[2] is Fill
            &&& out[6] is Caption && out[6]->Caption_x == x
            &&& !has_fix ==> label == Text::Plain("No signal")
            &&& has_fix ==> label is Fixed && label->Fixed_before == "±"
            &&& has_fix && a < 1000 * one() ==> {
                &&& label->Fixed_number == accuracy
                &&& label->Fixed_decimals == 0
                &&& label->Fixed_after == " m"
            }
            &&& has_fix && a >= 1000 * one() ==> {
                &&& close(label->Fixed_number.value(), 1, 1000, a)
                &&& label->Fixed_decimals == 1
                &&& label->Fixed_after == " km"
            }
            &&& !has_fix ==> out.len() >= 10 && out[9] is Caption && hint == Text::Plain("Is GPS enabled?")
            &&& has_fix && !good ==> out.len() >= 10 && out[9] is Caption && hint == Text::Plain(
                "Speed cannot be determined at this accuracy",
            )
            &&& !good ==> out[9]->Caption_x == x
        }),
{
    let out = gps_status(accuracy, has_fix, elapsed_s, x, y, size);
    let gap = size * Double::ratio(52, 1000);
    let label_y = y + size * Double::ratio(22, 1000) + gap;
    let head = dot_and_label(accuracy, has_fix, x, y, label_y, size);
    lemma_whole(10);
    lemma_whole(1000);
    lemma_over(accuracy, 1000, 1);
    lemma_ratio_error(90, 100);
    lemma_ratio_error(20, 100);
    lemma_ratio_error(18, 100);
    lemma_ratio_error(85, 100);
    lemma_ratio_error(30, 100);
    lemma_ratio_error(95, 100);
    lemma_ratio_error(78, 100);
    lemma_ratio_error(10, 100);
    assert(head.len() == 7);
    assert(out[0] == head[0] && out[1] == head[1] && out[2] == head[2] && out[6] == head[6]);
}

/// What the status says of the search: how long it has lasted where there is no
/// fix, and how long it took where that is known; nothing otherwise. Each line
/// stands below the one before.
pub proof fn status_tells_the_time(
    accuracy: Double,
    has_fix: bool,
    elapsed_s: i64,
    x: Double,
    y: Double,
    size: Double,
)
    requires
        !accuracy.nan(),
    ensures
        ({
            let out = gps_status(accuracy, has_fix, elapsed_s, x, y, size);
            let hinted = !(has_fix && accuracy.value() < 10 * one());
            let timed = !has_fix || elapsed_s >= 0;
            let timer = out[out.len() - 1];
            &&& out.len() == 7 + (if hinted {
                3int
            } else {
                0
            }) + (if timed {
                3int
            } else {
                0
            })
            &&& timed ==> timer is Caption && timer->Caption_x == x
            &&& !has_fix ==> timer->Caption_text == (Text::Count { before: "Searching… ", value: elapsed_s, after: "s" })
            &&& has_fix && timed ==> timer->Caption_text == (Text::Count {
                before: "Fixed in ",
                value: elapsed_s,
                after: "s",
            })
        }),
{
    let out = gps_status(accuracy, has_fix, elapsed_s, x, y, size);
    let gap = size * Double::ratio(52, 1000);
    let label_y = y + size * Double::ratio(22, 1000) + gap;
    lemma_whole(10);
    let lines: u64 = if hint_text(accuracy, has_fix) is Some {
        2
    } else {
        1
    };
    if timer_text(has_fix, elapsed_s) is Some {
        let line = small_line(
            rgb(38, 40, 44),
            timer_text(has_fix, elapsed_s)->0,
            x,
            label_y + gap * Double::ratio(lines, 1),
            size,
        );
        assert(out[out.len() - 1] == line[2]);
    }
}

/// Where the lines of the status stand, in parts of the size below the dot: the
/// accuracy at 0.074, and the hint and the timer each 0.052 further down.
pub proof fn status_lines_are_spaced(accuracy: Double, has_fix: bool, elapsed_s: i64, x: Double, y: Double, size: Double)
    requires
        !accuracy.nan(),
        on_screen(y),
        on_screen(size),
        distance(y.value()) <= 100_000 * one(),
        distance(size.value()) <= 100_000 * one(),
    ensures
        ({
            let out = gps_status(accuracy, has_fix, elapsed_s, x, y, size);
            let hinted = !(has_fix && accuracy.value() < 10 * one());
            let timed = !has_fix || elapsed_s >= 0;
            let top = 1_000_000 * y.value();
            let unit = 1000 * size.value();
            &&& stands_at(out[6]->Caption_y, top + 74 * unit)
            &&& hinted ==> stands_at(out[9]->Caption_y, top + 126 * unit)
            &&& timed && !hinted ==> stands_at(out[out.len() - 1]->Caption_y, top + 126 * unit)
            &&& timed && hinted ==> stands_at(out[out.len() - 1]->Caption_y, top + 178 * unit)
        }),
{
    let out = gps_status(accuracy, has_fix, elapsed_s, x, y, size);
    let gap = size * Double::ratio(52, 1000);
    let label_y = y + size * Double::ratio(22, 1000) + gap;
    lemma_whole(10);
    lemma_line_heights(y, size);
    let head = dot_and_label(accuracy, has_fix, x, y, label_y, size);
    assert(out[6] == head[6]);
    let lines: u64 = if hint_text(accuracy, has_fix) is Some {
        2
    } else {
        1
    };
    if timer_text(has_fix, elapsed_s) is Some {
        let line = small_line(
            rgb(38, 40, 44),
            timer_text(has_fix, elapsed_s)->0,
            x,
            label_y + gap * Double::ratio(lines, 1),
            size,
        );
        assert(out[out.len() - 1] == line[2]);
    }
}

/// The heights of the lines of the status.
proof fn lemma_line_heights(y: Double, size: Double)
    requires
        on_screen(y),
        on_screen(size),
        distance(y.value()) <= 100_000 * one(),
        distance(size.value()) <= 100_000 * one(),
    ensures
        ({
            let top = 1_000_000 * y.value();
            let unit = 1000 * size.value();
            let gap = size * Double::ratio(52, 1000);
            let label_y = y + size * Double::ratio(22, 1000) + gap;
            &&& stands_at(label_y, top + 74 * unit)
            &&& stands_at(label_y + gap, top + 126 * unit)
            &&& stands_at(label_y + gap * Double::ratio(1, 1), top + 126 * unit)
            &&& stands_at(label_y + gap * Double::ratio(2, 1), top + 178 * unit)
        }),
{
    let u = 1000 * size.value();
    let top = 1_000_000 * y.value();
    let dot = size * Double::ratio(22, 1000);
    let gap = size * Double::ratio(52, 1000);
    let label_y = y + dot + gap;
    lemma_pow2_pos(UNIT as nat);
    lemma_placed(y);
    lemma_placed(size);
    lemma_placed_times(size, 1000 * u, 0, 22, 1000, 22 * u, 2);
    lemma_placed_times(size, 1000 * u, 0, 52, 1000, 52 * u, 2);
    lemma_placed_plus(y, top, 0, dot, 22 * u, 2);
    lemma_placed_plus(y + dot, top + 22 * u, 3, gap, 52 * u, 2);
    lemma_coarser(label_y, top + 74 * u, 6, 1000);
    lemma_placed_plus(label_y, top + 74 * u, 6, gap, 52 * u, 2);
    lemma_coarser(label_y + gap, top + 126 * u, 9, 1000);
    assert(distance(gap.value()) <= 6_000 * one());
    lemma_placed_times(gap, 52 * u, 2, 1, 1, 52 * u, 4);
    lemma_placed_times(gap, 52 * u, 2, 2, 1, 104 * u, 7);
    lemma_placed_plus(label_y, top + 74 * u, 6, gap * Double::ratio(1, 1), 52 * u, 4);
    lemma_placed_plus(label_y, top + 74 * u, 6, gap * Double::ratio(2, 1), 104 * u, 7);
    lemma_coarser(label_y + gap * Double::ratio(1, 1), top + 126 * u, 11, 1000);
    lemma_coarser(label_y + gap * Double::ratio(2, 1), top + 178 * u, 14, 1000);
}

/// What the rows of text say with a fix: the altitude as it is, and the
/// coordinates without their sign and with their hemisphere, one row each.
pub proof fn rows_tell_the_place(
    altitude: Double,
    latitude: Double,
    longitude: Double,
    cx: Double,
    top: Double,
    gap: Double,
    size: Double,
)
    requires
        !latitude.nan(),
        !longitude.nan(),
        on_screen(top),
        on_screen(gap),
        distance(top.value()) <= 100_000 * one(),
        distance(gap.value()) <= 100_000 * one(),
    ensures
        ({
            let out = info_labels(altitude, latitude, longitude, true, cx, top, gap, size);
            let first = out[3]->Caption_text;
            let second = out[6]->Caption_text;
            let third = out[9]->Caption_text;
            &&& out.len() == 10
            &&& out[3] is Caption && out[6] is Caption && out[9] is Caption
            &&& out[3]->Caption_x == cx && out[6]->Caption_x == cx && out[9]->Caption_x == cx
            &&& out[3]->Caption_y == top
            &&& stands_at(out[6]->Caption_y, 1_000_000 * (top.value() + gap.value()))
            &&& stands_at(out[9]->Caption_y, 1_000_000 * (top.value() + 2 * gap.value()))
            &&& first == (Text::Fixed { before: "Altitude: ", number: altitude, decimals: 0, after: " m" })
            &&& second is Fixed && second->Fixed_before == "Lat: " && second->Fixed_decimals == 5
            &&& second->Fixed_number.value() == distance(latitude.value())
            &&& latitude.value() >= 0 ==> second->Fixed_after == "° N"
            &&& latitude.value() < 0 ==> second->Fixed_after == "° S"
            &&& third is Fixed && third->Fixed_before == "Lon: " && third->Fixed_decimals == 5
            &&& third->Fixed_number.value() == distance(longitude.value())
            &&& longitude.value() >= 0 ==> third->Fixed_after == "° E"
            &&& longitude.value() < 0 ==> third->Fixed_after == "° W"
        }),
{
    let t = 1_000_000 * top.value();
    let g = 1_000_000 * gap.value();
    lemma_pow2_pos(UNIT as nat);
    lemma_zero();
    lemma_abs(latitude);
    lemma_abs(longitude);
    lemma_placed(top);
    lemma_placed(gap);
    lemma_placed_plus(top, t, 0, gap, g, 0);
    lemma_coarser(top + gap, t + g, 1, 1000);
    lemma_placed_times(gap, g, 0, 2, 1, 2 * g, 3);
    lemma_placed_plus(top, t, 0, gap * Double::ratio(2, 1), 2 * g, 3);
    lemma_coarser(top + gap * Double::ratio(2, 1), t + 2 * g, 4, 1000);
}

/// The note in place of the meter: three lines, 0.057 of the size apart, the
/// second of them at the given height.
pub proof fn note_has_three_lines(cx: Double, cy: Double, size: Double)
    requires
        on_screen(cy),
        on_screen(size),
        distance(cy.value()) <= 100_000 * one(),
        distance(size.value()) <= 100_000 * one(),
    ensures
        ({
            let out = accel_disabled_note(cx, cy, size);
            let middle = 1_000_000 * cy.value();
            let line = 57_000 * size.value();
            &&& out.len() == 6
            &&& out[3] is Caption && out[4] is Caption && out[5] is Caption
            &&& out[3]->Caption_x == cx && out[4]->Caption_x == cx && out[5]->Caption_x == cx
            &&& out[3]->Caption_text == Text::Plain("Accel assist off")
            &&& out[4]->Caption_text == Text::Plain("Speed may feel less responsive")
            &&& out[5]->Caption_text == Text::Plain("during rapid acceleration")
            &&& stands_at(out[3]->Caption_y, middle - line)
            &&& stands_at(out[4]->Caption_y, middle)
            &&& stands_at(out[5]->Caption_y, middle + line)
        }),
{
    let m = 1_000_000 * cy.value();
    let s = size.value();
    let line = size * Double::ratio(38, 1000) * Double::ratio(15, 10);
    let y = cy - (line * (Double::ratio(3, 1) - Double::ratio(1, 1))) / Double::ratio(2, 1);
    lemma_note_top(cy, size);
    lemma_coarser(y, m - 57_000 * s, 10, 1000);
    lemma_placed_plus(y, m - 57_000 * s, 10, line, 57_000 * s, 6);
    lemma_coarser(y + line, m, 17, 1000);
    lemma_placed_plus(y + line, m, 17, line, 57_000 * s, 6);
    lemma_coarser(y + line + line, m + 57_000 * s, 24, 1000);
}

/// Three without one is two, exactly.
proof fn lemma_two()
    ensures
        Double::ratio(3, 1) - Double::ratio(1, 1) == Double::ratio(2, 1),
{
    let two = Double::ratio(3, 1) - Double::ratio(1, 1);
    let exact = Double::ratio(2, 1);
    lemma_pow2_pos(UNIT as nat);
    lemma_whole(1);
    lemma_whole(2);
    lemma_whole(3);
    lemma_difference(Double::ratio(3, 1), Double::ratio(1, 1));
    lemma_near_exact(exact);
    lemma_order(two.index(), exact.index());
    lemma_order(0, two.index());
}

/// How far apart the lines of the note are, and where the first one stands.
proof fn lemma_note_top(cy: Double, size: Double)
    requires
        on_screen(cy),
        on_screen(size),
        distance(cy.value()) <= 100_000 * one(),
        distance(size.value()) <= 100_000 * one(),
    ensures
        ({
            let m = 1_000_000 * cy.value();
            let s = size.value();
            let line = size * Double::ratio(38, 1000) * Double::ratio(15, 10);
            let y = cy - (line * (Double::ratio(3, 1) - Double::ratio(1, 1))) / Double::ratio(2, 1);
            &&& placed(line, 57_000 * s, 6)
            &&& placed(y, m - 57_000 * s, 10)
            &&& distance(line.value()) <= 20_000 * one()
            &&& distance(y.value()) <= 200_000 * one()
        }),
{
    let m = 1_000_000 * cy.value();
    let s = size.value();
    let font = size * Double::ratio(38, 1000);
    let line = font * Double::ratio(15, 10);
    lemma_pow2_pos(UNIT as nat);
    lemma_two();
    lemma_placed(cy);
    lemma_placed(size);
    lemma_placed_times(size, 1_000_000 * s, 0, 38, 1000, 38_000 * s, 2);
    lemma_placed_times(font, 38_000 * s, 2, 15, 10, 57_000 * s, 6);
    assert(distance(font.value()) <= 4_000 * one());
    assert(distance(line.value()) <= 20_000 * one());
    let total = line * Double::ratio(2, 1);
    lemma_placed_times(line, 57_000 * s, 6, 2, 1, 114_000 * s, 15);
    lemma_placed_over(total, 114_000 * s, 15, 2, 1, 57_000 * s, 9);
    lemma_placed_minus(cy, m, 0, total / Double::ratio(2, 1), 57_000 * s, 9);
}

/// Text of a given width starts so that its middle stands at the given place, and
/// text of a given height stands on the line that puts its middle there.
pub proof fn text_is_centred(x: Double, y: Double, width: Double, bearing: Double, height: Double)
    requires
        on_screen(x),
        on_screen(y),
        on_screen(width),
        on_screen(bearing),
        on_screen(height),
        distance(x.value()) <= 100_000 * one(),
        distance(y.value()) <= 100_000 * one(),
        distance(width.value()) <= 100_000 * one(),
        distance(bearing.value()) <= 100_000 * one(),
        distance(height.value()) <= 100_000 * one(),
    ensures
        stands_at(
            centred(x, width, bearing),
            1_000_000 * x.value() - 500_000 * width.value() - 1_000_000 * bearing.value(),
        ),
        stands_at(lowered(y, height), 1_000_000 * y.value() + 500_000 * height.value()),
{
    let two = Double::ratio(2, 1);
    let xv = 1_000_000 * x.value();
    let yv = 1_000_000 * y.value();
    let wv = 500_000 * width.value();
    let hv = 500_000 * height.value();
    let bv = 1_000_000 * bearing.value();
    lemma_pow2_pos(UNIT as nat);
    lemma_placed(x);
    lemma_placed(y);
    lemma_placed(width);
    lemma_placed(height);
    lemma_placed(bearing);
    lemma_placed_over(width, 2 * wv, 0, 2, 1, wv, 2);
    lemma_placed_over(height, 2 * hv, 0, 2, 1, hv, 2);
    lemma_placed_minus(x, xv, 0, width / two, wv, 2);
    lemma_placed_minus(x - width / two, xv - wv, 3, bearing, bv, 0);
    lemma_coarser(x - width / two - bearing, xv - wv - bv, 4, 1000);
    lemma_placed_plus(y, yv, 0, height / two, hv, 2);
    lemma_coarser(y + height / two, yv + hv, 3, 1000);
}

} // verus!
