//! The satellite status: a coloured dot, the accuracy, a hint and a timer.
use crate::canvas::{rgb, Command, Slant, Text, Weight};
use crate::double::number::Double;
use vstd::prelude::*;

verus! {

/// Red without a fix, green with an accuracy below ten metres, yellow otherwise.
pub open spec fn dot_colour(accuracy: Double, has_fix: bool) -> Command {
    if !has_fix {
        rgb(90, 20, 20)
    } else if accuracy < Double::ratio(10, 1) {
        rgb(18, 85, 30)
    } else {
        rgb(95, 78, 10)
    }
}

/// The accuracy, in kilometres from a thousand metres on.
pub open spec fn accuracy_text(accuracy: Double, has_fix: bool) -> Text {
    if !has_fix {
        Text::Plain("No signal")
    } else if accuracy >= Double::ratio(1000, 1) {
        Text::Fixed { before: "±", number: accuracy / Double::ratio(1000, 1), decimals: 1, after: " km" }
    } else {
        Text::Fixed { before: "±", number: accuracy, decimals: 0, after: " m" }
    }
}

/// What to tell about a missing or a poor fix.
pub open spec fn hint_text(accuracy: Double, has_fix: bool) -> Option<&'static str> {
    if !has_fix {
        Some("Is GPS enabled?")
    } else if accuracy >= Double::ratio(10, 1) {
        Some("Speed cannot be determined at this accuracy")
    } else {
        None
    }
}

/// The timer counts while there is no fix and tells afterwards how long the fix
/// took. It is absent as long as that is not known.
pub open spec fn timer_text(has_fix: bool, elapsed_s: i64) -> Option<Text> {
    if !has_fix {
        Some(Text::Count { before: "Searching… ", value: elapsed_s, after: "s" })
    } else if elapsed_s >= 0 {
        Some(Text::Count { before: "Fixed in ", value: elapsed_s, after: "s" })
    } else {
        None
    }
}

/// The dot, centred at the given point, and the accuracy below it.
pub open spec fn dot_and_label(
    accuracy: Double,
    has_fix: bool,
    dot_cx: Double,
    dot_cy: Double,
    label_y: Double,
    size: Double,
) -> Seq<Command> {
    seq![
        Command::Circle { x: dot_cx, y: dot_cy, radius: size * Double::ratio(22, 1000) },
        dot_colour(accuracy, has_fix),
        Command::Fill,
        rgb(55, 57, 60),
        Command::FontSize(size * Double::ratio(42, 1000)),
        Command::Font { slant: Slant::Normal, weight: Weight::Normal },
        Command::Caption { text: accuracy_text(accuracy, has_fix), x: dot_cx, y: label_y },
    ]
}

/// A line of small text.
pub open spec fn small_line(colour: Command, text: Text, x: Double, y: Double, size: Double) -> Seq<Command> {
    seq![
        Command::FontSize(size * Double::ratio(34, 1000)),
        colour,
        Command::Caption { text, x, y },
    ]
}

/// The whole status, with the dot centred at the given point. The timer moves
/// down by one line where there is a hint.
pub open spec fn gps_status(
    accuracy: Double,
    has_fix: bool,
    elapsed_s: i64,
    dot_cx: Double,
    dot_cy: Double,
    size: Double,
) -> Seq<Command> {
    let line_gap = size * Double::ratio(52, 1000);
    let label_y = dot_cy + size * Double::ratio(22, 1000) + line_gap;
    let lines: u64 = if hint_text(accuracy, has_fix) is Some {
        2
    } else {
        1
    };
    dot_and_label(accuracy, has_fix, dot_cx, dot_cy, label_y, size) + (match hint_text(accuracy, has_fix) {
        Some(hint) => small_line(rgb(45, 47, 50), Text::Plain(hint), dot_cx, label_y + line_gap, size),
        None => seq![],
    }) + (match timer_text(has_fix, elapsed_s) {
        Some(timer) => small_line(
            rgb(38, 40, 44),
            timer,
            dot_cx,
            label_y + line_gap * Double::ratio(lines, 1),
            size,
        ),
        None => seq![],
    })
}

fn make_dot_colour(accuracy: Double, has_fix: bool) -> (r: Command)
    ensures
        r == dot_colour(accuracy, has_fix),
{
    if !has_fix {
        rgb(90, 20, 20)
    } else if accuracy.below(Double::ratio(10, 1)) {
        rgb(18, 85, 30)
    } else {
        rgb(95, 78, 10)
    }
}

fn make_accuracy_text(accuracy: Double, has_fix: bool) -> (r: Text)
    ensures
        r == accuracy_text(accuracy, has_fix),
{
    if !has_fix {
        Text::Plain("No signal")
    } else if Double::ratio(1000, 1).at_most(accuracy) {
        Text::Fixed { before: "±", number: accuracy / Double::ratio(1000, 1), decimals: 1, after: " km" }
    } else {
        Text::Fixed { before: "±", number: accuracy, decimals: 0, after: " m" }
    }
}

fn make_small_line(colour: Command, text: Text, x: Double, y: Double, size: Double) -> (r: Vec<Command>)
    ensures
        r@ == small_line(colour, text, x, y, size),
{
    vec![
        Command::FontSize(size * Double::ratio(34, 1000)),
        colour,
        Command::Caption { text, x, y },
    ]
}

/// Draws the status dot, the accuracy and, where there is something to say, a
/// hint and the timer.
pub fn draw_gps_status(
    accuracy: Double,
    has_fix: bool,
    elapsed_s: i64,
    dot_cx: Double,
    dot_cy: Double,
    size: Double,
) -> (r: Vec<Command>)
    ensures
        r@ == gps_status(accuracy, has_fix, elapsed_s, dot_cx, dot_cy, size),
{
    let dot_r: Double = size * Double::ratio(22, 1000);
    let line_gap: Double = size * Double::ratio(52, 1000);
    let label_y: Double = dot_cy + dot_r + line_gap;
    let mut out: Vec<Command> = vec![
        Command::Circle { x: dot_cx, y: dot_cy, radius: dot_r },
        make_dot_colour(accuracy, has_fix),
        Command::Fill,
        rgb(55, 57, 60),
        Command::FontSize(size * Double::ratio(42, 1000)),
        Command::Font { slant: Slant::Normal, weight: Weight::Normal },
        Command::Caption { text: make_accuracy_text(accuracy, has_fix), x: dot_cx, y: label_y },
    ];
    let hint: Option<&'static str> = if !has_fix {
        Some("Is GPS enabled?")
    } else if Double::ratio(10, 1).at_most(accuracy) {
        Some("Speed cannot be determined at this accuracy")
    } else {
        None
    };
    let mut lines: u64 = 1;
    if let Some(words) = hint {
        let mut line: Vec<Command> = make_small_line(
            rgb(45, 47, 50),
            Text::Plain(words),
            dot_cx,
            label_y + line_gap,
            size,
        );
        out.append(&mut line);
        lines = 2;
    }
    let timer: Text = if !has_fix {
        Text::Count { before: "Searching… ", value: elapsed_s, after: "s" }
    } else if elapsed_s >= 0 {
        Text::Count { before: "Fixed in ", value: elapsed_s, after: "s" }
    } else {
        return out;
    };
    let mut line: Vec<Command> = make_small_line(
        rgb(38, 40, 44),
        timer,
        dot_cx,
        label_y + line_gap * Double::ratio(lines, 1),
        size,
    );
    out.append(&mut line);
    out
}

} // verus!
