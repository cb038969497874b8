use speedometer::canvas::{centred, heat, lowered, Command, Text};
use speedometer::dial::{dial_angles, draw_dial, DialRays, Ray};
use speedometer::double::number::Double;
use speedometer::gforce::draw_gforce_meter;
use speedometer::gps_status::draw_gps_status;
use speedometer::info::{draw_accel_disabled_note, draw_info_labels};
use speedometer::layout::{draw_landscape, draw_portrait, draw_speedometer, Frame};

fn d(x: f64) -> Double {
    Double::from_bits(x.to_bits())
}

fn f(x: Double) -> f64 {
    f64::from_bits(x.to_bits())
}

/// The text as it is read on the screen.
fn read(text: Text) -> String {
    match text {
        Text::Plain(words) => words.to_string(),
        Text::Count { before, value, after } => format!("{before}{value}{after}"),
        Text::Fixed { before, number, decimals, after } => {
            format!("{before}{:.*}{after}", decimals as usize, f(number))
        }
    }
}

/// All captions, with their places.
fn captions(commands: &Vec<Command>) -> Vec<(String, f64, f64)> {
    let mut out = Vec::new();
    for command in commands {
        if let Command::Caption { text, x, y } = command {
            out.push((read(*text), f(*x), f(*y)));
        }
    }
    out
}

fn words(commands: &Vec<Command>) -> Vec<String> {
    captions(commands).into_iter().map(|c| c.0).collect()
}

fn colours(commands: &Vec<Command>) -> Vec<(f64, f64, f64)> {
    let mut out = Vec::new();
    for command in commands {
        if let Command::SourceRgb { red, green, blue } = command {
            out.push((f(*red), f(*green), f(*blue)));
        }
    }
    out
}

fn same(a: &Command, b: &Command) -> bool {
    format!("{a:?}") == format!("{b:?}")
}

fn starts_with(all: &Vec<Command>, part: &Vec<Command>) -> bool {
    all.len() >= part.len() && all.iter().zip(part).all(|(a, b)| same(a, b))
}

fn ray(degrees: Double) -> Ray {
    let t = f(degrees).to_radians();
    Ray { cos: d(t.cos()), sin: d(t.sin()) }
}

fn rays(speed: f64, use_mph: bool) -> DialRays {
    let angles = dial_angles(d(speed), use_mph);
    DialRays { ticks: angles.ticks.iter().map(|a| ray(*a)).collect(), needle: ray(angles.needle) }
}

fn frame() -> Frame {
    Frame {
        speed: d(50.0),
        altitude: d(312.4),
        accuracy: d(4.6),
        has_fix: true,
        latitude: d(48.123456),
        longitude: d(-11.5),
        elapsed_s: 12,
        use_mph: false,
        gforce_x: d(0.1),
        gforce_y: d(0.3),
        accel_enabled: true,
    }
}

#[test]
fn text_is_centred_by_its_extents() {
    assert_eq!(f(centred(d(100.0), d(31.0), d(1.5))), 100.0 - 31.0 / 2.0 - 1.5);
    assert_eq!(f(lowered(d(100.0), d(9.0))), 104.5);
}

#[test]
fn heat_runs_from_green_to_red() {
    let at = |level: f64| {
        let (red, green) = heat(d(level));
        (f(red), f(green))
    };
    assert_eq!(at(0.0), (0.0, 1.0));
    assert_eq!(at(0.25), (0.5, 1.0));
    assert_eq!(at(0.5), (1.0, 1.0));
    assert_eq!(at(0.75), (1.0, 0.5));
    assert_eq!(at(1.0), (1.0, 0.0));
}

#[test]
fn angles_span_the_scale() {
    let kmh = dial_angles(d(100.0), false);
    assert_eq!(kmh.ticks.len(), 21);
    assert_eq!(f(kmh.ticks[0]), 150.0);
    assert_eq!(f(kmh.ticks[20]), 390.0);
    assert_eq!(f(kmh.ticks[7]), 150.0 + (70.0 / 200.0) * 240.0);
    assert_eq!(f(kmh.needle), 270.0);
    let mph = dial_angles(d(100.0), true);
    assert_eq!(mph.ticks.len(), 13);
    assert_eq!(f(mph.ticks[0]), 150.0);
    assert_eq!(f(mph.ticks[12]), 390.0);
    assert_eq!(f(mph.needle), 150.0 + (100.0 * 0.621_371 / 120.0) * 240.0);
}

#[test]
fn the_needle_is_pinned_at_the_ends() {
    assert_eq!(f(dial_angles(d(-3.0), false).needle), 150.0);
    assert_eq!(f(dial_angles(d(0.0), true).needle), 150.0);
    assert_eq!(f(dial_angles(d(200.0), false).needle), 390.0);
    assert_eq!(f(dial_angles(d(1e300), false).needle), 390.0);
    assert_eq!(f(dial_angles(d(f64::INFINITY), true).needle), 390.0);
    assert!(f(dial_angles(d(f64::NAN), false).needle).is_nan());
}

#[test]
fn the_needle_follows_the_speed() {
    for use_mph in [false, true] {
        let mut last = 0.0;
        for i in 0..3_000 {
            let angle = f(dial_angles(d(i as f64 * 0.1), use_mph).needle);
            assert!(angle >= last);
            assert!((150.0..=390.0).contains(&angle));
            last = angle;
        }
    }
}

#[test]
fn a_dial_in_kilometres() {
    let (speed, size, cx, cy) = (50.0_f64, 300.0_f64, 200.0_f64, 220.0_f64);
    let out = draw_dial(d(speed), true, false, &rays(speed, false), d(cx), d(cy), d(size));
    let r = size * 0.42;
    let track = size * 0.038;
    assert_eq!(out.len(), 7 + 4 + 1 + 21 * 5 + 3 + 6 + 17 + 8);
    assert!(same(&out[0], &Command::Circle { x: d(cx), y: d(cy), radius: d(r + track * 1.2) }));
    assert!(same(
        &out[5],
        &Command::Arc { x: d(cx), y: d(cy), radius: d(r), from: d(150.0), to: d(390.0) }
    ));
    let ratio = speed / 200.0;
    assert!(same(
        &out[7],
        &Command::SourceRgba { red: d(ratio * 2.0), green: d(1.0), blue: d(0.0), alpha: d(0.9) }
    ));
    assert!(same(
        &out[9],
        &Command::Arc { x: d(cx), y: d(cy), radius: d(r), from: d(150.0), to: d(150.0 + ratio * 240.0) }
    ));
    // The tick at 40 km/h is a long one, the one at 50 km/h a short one.
    let tick = |i: usize, inner: f64, width: f64| {
        let t = (150.0 + ((i * 10) as f64 / 200.0) * 240.0).to_radians();
        let at = 12 + 5 * i;
        assert!(same(&out[at + 1], &Command::LineWidth(d(size * width))));
        let inner = r - size * inner;
        assert!(same(
            &out[at + 2],
            &Command::MoveTo { x: d(cx + inner * t.cos()), y: d(cy + inner * t.sin()) }
        ));
        assert!(same(&out[at + 3], &Command::LineTo { x: d(cx + r * t.cos()), y: d(cy + r * t.sin()) }));
    };
    tick(4, 0.065, 0.013);
    tick(5, 0.038, 0.007);
    let labels: Vec<String> = out
        .iter()
        .filter_map(|c| match c {
            Command::Label { text, .. } => Some(read(*text)),
            _ => None,
        })
        .collect();
    assert_eq!(labels, ["0", "40", "80", "120", "160", "200"]);
    assert_eq!(words(&out), ["50", "km/h"]);
    let t = (150.0 + (speed / 200.0) * 240.0).to_radians();
    let needle = 12 + 105 + 3 + 6;
    assert!(same(
        &out[needle + 3],
        &Command::MoveTo { x: d(cx - r * 0.18 * t.cos() + 2.0), y: d(cy - r * 0.18 * t.sin() + 2.0) }
    ));
    assert!(same(
        &out[needle + 9],
        &Command::LineTo { x: d(cx + r * 0.88 * t.cos()), y: d(cy + r * 0.88 * t.sin()) }
    ));
    assert!(same(
        &out[needle + 6],
        &Command::SourceRgb { red: d(0.92), green: d(0.22), blue: d(0.22) }
    ));
}

#[test]
fn a_dial_in_miles() {
    let out = draw_dial(d(250.0), true, true, &rays(250.0, true), d(0.0), d(0.0), d(100.0));
    // The digits are not cut off at the end of the scale.
    assert_eq!(words(&out), ["155", "mph"]);
    let labels: Vec<String> = out
        .iter()
        .filter_map(|c| match c {
            Command::Label { text, .. } => Some(read(*text)),
            _ => None,
        })
        .collect();
    assert_eq!(labels, ["0", "20", "40", "60", "80", "100", "120"]);
    assert_eq!(out.len(), 7 + 4 + 1 + 13 * 5 + 3 + 7 + 17 + 8);
}

#[test]
fn a_dial_without_a_fix_or_speed() {
    let out = draw_dial(d(0.1), false, false, &rays(0.1, false), d(0.0), d(0.0), d(100.0));
    assert_eq!(words(&out), ["--", "km/h"]);
    // No coloured arc up to a speed of 0.1, and a grey needle.
    assert_eq!(out.len(), 7 + 1 + 21 * 5 + 3 + 6 + 17 + 8);
    assert!(colours(&out).contains(&(0.55, 0.55, 0.55)));
    let still = draw_dial(d(-4.0), true, false, &rays(0.0, false), d(0.0), d(0.0), d(100.0));
    assert_eq!(words(&still), ["0", "km/h"]);
}

#[test]
fn status_without_a_signal() {
    let out = draw_gps_status(d(3.0), false, 42, d(100.0), d(50.0), d(200.0));
    let dot_r = 200.0 * 0.022;
    let gap = 200.0 * 0.052;
    let label_y = 50.0 + dot_r + gap;
    assert_eq!(
        captions(&out),
        [
            ("No signal".to_string(), 100.0, label_y),
            ("Is GPS enabled?".to_string(), 100.0, label_y + gap),
            ("Searching… 42s".to_string(), 100.0, label_y + gap * 2.0),
        ]
    );
    assert_eq!(colours(&out)[0], (0.90, 0.20, 0.20));
}

#[test]
fn status_with_a_poor_fix() {
    let out = draw_gps_status(d(10.0), true, 7, d(0.0), d(0.0), d(100.0));
    assert_eq!(
        words(&out),
        ["±10 m", "Speed cannot be determined at this accuracy", "Fixed in 7s"]
    );
    assert_eq!(colours(&out)[0], (0.95, 0.78, 0.10));
    let far = draw_gps_status(d(1234.0), true, -1, d(0.0), d(0.0), d(100.0));
    assert_eq!(words(&far), ["±1.2 km", "Speed cannot be determined at this accuracy"]);
}

#[test]
fn status_with_a_good_fix() {
    let out = draw_gps_status(d(4.6), true, 0, d(10.0), d(0.0), d(100.0));
    assert_eq!(words(&out), ["±5 m", "Fixed in 0s"]);
    assert_eq!(colours(&out)[0], (0.18, 0.85, 0.30));
    let label_y = 0.0 + 100.0 * 0.022 + 100.0 * 0.052;
    assert_eq!(captions(&out)[1].2, label_y + 100.0 * 0.052 * 1.0);
    assert_eq!(words(&draw_gps_status(d(4.6), true, -1, d(10.0), d(0.0), d(100.0))), ["±5 m"]);
}

#[test]
fn status_with_an_unknown_accuracy() {
    let out = draw_gps_status(d(f64::NAN), true, 3, d(0.0), d(0.0), d(100.0));
    assert_eq!(words(&out), ["±NaN m", "Fixed in 3s"]);
    assert_eq!(colours(&out)[0], (0.95, 0.78, 0.10));
}

#[test]
fn rows_name_the_hemispheres() {
    let out = draw_info_labels(d(312.4), d(48.123456), d(-11.5), true, d(5.0), d(10.0), d(3.0), d(100.0));
    assert_eq!(
        captions(&out),
        [
            ("Altitude: 312 m".to_string(), 5.0, 10.0),
            ("Lat: 48.12346° N".to_string(), 5.0, 13.0),
            ("Lon: 11.50000° W".to_string(), 5.0, 16.0),
        ]
    );
    let south = draw_info_labels(d(0.0), d(-1.0), d(0.0), true, d(0.0), d(0.0), d(0.0), d(1.0));
    assert_eq!(words(&south), ["Altitude: 0 m", "Lat: 1.00000° S", "Lon: 0.00000° E"]);
    assert!(draw_info_labels(d(1.0), d(1.0), d(1.0), false, d(0.0), d(0.0), d(0.0), d(1.0)).is_empty());
}

#[test]
fn the_note_has_three_lines() {
    let out = draw_accel_disabled_note(d(50.0), d(80.0), d(100.0));
    let font = 100.0 * 0.038;
    let line = font * 1.5;
    let first = 80.0 - line * 2.0 / 2.0;
    assert_eq!(
        captions(&out),
        [
            ("Accel assist off".to_string(), 50.0, first),
            ("Speed may feel less responsive".to_string(), 50.0, first + line),
            ("during rapid acceleration".to_string(), 50.0, first + line + line),
        ]
    );
}

#[test]
fn the_meter_names_what_happens() {
    let status = |gx: f64, gy: f64| {
        let out = draw_gforce_meter(d(gx), d(gy), d(0.0), d(0.0), d(10.0));
        words(&out)
    };
    assert_eq!(status(0.05, 0.05), ["IDLE", "0.07g"]);
    assert_eq!(status(0.1, 0.3), ["ACC", "0.32g"]);
    assert_eq!(status(-0.3, -0.3), ["BRAKE", "0.42g"]);
    assert_eq!(status(0.5, -0.1), ["TURN R", "0.51g"]);
    assert_eq!(status(-0.5, 0.1), ["TURN L", "0.51g"]);
}

#[test]
fn the_dot_stays_in_the_meter() {
    let dot = |gx: f64, gy: f64| {
        let out = draw_gforce_meter(d(gx), d(gy), d(100.0), d(200.0), d(30.0));
        assert_eq!(out.len(), 3 + 12 + 8 + 7 + 8);
        match out[23] {
            Command::Circle { x, y, .. } => (f(x), f(y)),
            _ => panic!("no dot"),
        }
    };
    assert_eq!(dot(0.5, 0.25), (115.0, 192.5));
    assert_eq!(dot(3.0, -7.0), (130.0, 230.0));
    assert_eq!(dot(-1.5, 1.0), (70.0, 170.0));
    let strong = draw_gforce_meter(d(2.0), d(0.0), d(0.0), d(0.0), d(30.0));
    assert_eq!(colours(&strong)[1], (1.0, 0.0, 0.05));
    let weak = draw_gforce_meter(d(0.3), d(0.0), d(0.0), d(0.0), d(30.0));
    let total = (0.3_f64 * 0.3).sqrt();
    assert_eq!(colours(&weak)[1], (total * 2.0, 1.0, 0.05));
}

#[test]
fn a_tall_window_with_assistance() {
    let fr = frame();
    let r = rays(50.0, false);
    let (w, h) = (400.0_f64, 800.0_f64);
    let out = draw_portrait(&fr, &r, d(w), d(h));
    let top = h * 0.17;
    let bottom = h * 0.22;
    let usable = h - top - bottom;
    let size = w.min(usable / 0.84);
    let cy = top + usable / 2.0;
    let dial = draw_dial(d(50.0), true, false, &r, d(w / 2.0), d(cy), d(size));
    assert!(starts_with(&out, &dial));
    let panel = cy + size * 0.42 + size * 0.038 * 1.2 + size * 0.06;
    let middle = (panel + h) / 2.0;
    let radius = ((h - panel) * 0.32).min(w * 0.18);
    let gap = size * 0.075;
    let text_x = w * 0.22 + radius + (w - w * 0.22 - radius) / 2.0;
    let tail = captions(&out);
    assert_eq!(
        tail[2..],
        [
            ("±5 m".to_string(), w / 2.0, top * 0.38 + size * 0.022 + size * 0.052),
            (
                "Fixed in 12s".to_string(),
                w / 2.0,
                top * 0.38 + size * 0.022 + size * 0.052 + size * 0.052 * 1.0
            ),
            ("ACC".to_string(), w * 0.22, middle - radius * 1.30),
            ("0.32g".to_string(), w * 0.22, middle + radius * 1.38),
            ("Altitude: 312 m".to_string(), text_x, middle - gap),
            ("Lat: 48.12346° N".to_string(), text_x, middle - gap + gap),
            ("Lon: 11.50000° W".to_string(), text_x, middle - gap + gap * 2.0),
        ]
    );
}

#[test]
fn a_tall_window_without_assistance() {
    let fr = Frame { accel_enabled: false, ..frame() };
    let (w, h) = (400.0_f64, 500.0_f64);
    let out = draw_portrait(&fr, &rays(50.0, false), d(w), d(h));
    let top = h * 0.17;
    let usable = h - top - h * 0.22;
    let size = w.min(usable / 0.84);
    let cy = top + usable / 2.0;
    let panel = cy + size * 0.42 + size * 0.038 * 1.2 + size * 0.06;
    let middle = (panel + h) / 2.0;
    let gap = size * 0.075;
    let text_top = middle - gap * 2.0;
    let note = (text_top + 3.5 * gap).min(h - size * 0.09);
    let tail = captions(&out);
    assert_eq!(tail[4], ("Altitude: 312 m".to_string(), w / 2.0, text_top));
    let line = size * 0.038 * 1.5;
    assert_eq!(tail[7], ("Accel assist off".to_string(), w / 2.0, note - line * 2.0 / 2.0));
    assert_eq!(tail.len(), 10);
}

#[test]
fn a_wide_window_with_assistance() {
    let fr = frame();
    let r = rays(50.0, false);
    let (w, h) = (900.0_f64, 400.0_f64);
    let out = draw_landscape(&fr, &r, d(w), d(h));
    let half = w / 2.0;
    let size = (half * 0.90).min(h * 0.90);
    let dial = draw_dial(d(50.0), true, false, &r, d(half / 2.0), d(h / 2.0), d(size));
    assert!(starts_with(&out, &dial));
    assert!(same(&out[dial.len() + 2], &Command::MoveTo { x: d(half), y: d(h * 0.08) }));
    assert!(same(&out[dial.len() + 3], &Command::LineTo { x: d(half), y: d(h * 0.92) }));
    let tail = captions(&out);
    let info = half + half * 0.72;
    let meter = half + half * 0.28;
    let radius = (h * 0.30).min(half * 0.26);
    assert_eq!(tail[2], ("±5 m".to_string(), info, h * 0.18 + size * 0.022 + size * 0.052));
    assert_eq!(tail[4], ("ACC".to_string(), meter, h * 0.50 - radius * 1.30));
    assert_eq!(tail[6], ("Altitude: 312 m".to_string(), info, h * 0.60));
    assert_eq!(tail[7], ("Lat: 48.12346° N".to_string(), info, h * 0.60 + size * 0.075));
}

#[test]
fn a_wide_window_without_assistance() {
    let fr = Frame { accel_enabled: false, has_fix: false, ..frame() };
    let (w, h) = (900.0_f64, 400.0_f64);
    let out = draw_landscape(&fr, &rays(50.0, false), d(w), d(h));
    let half = w / 2.0;
    let size = (half * 0.90).min(h * 0.90);
    let info = half + half / 2.0;
    let gap = size * 0.075;
    let note = (h * 0.40 + 3.5 * gap).min(h * 0.90);
    let tail = captions(&out);
    assert_eq!(tail[2], ("No signal".to_string(), info, h * 0.15 + size * 0.022 + size * 0.052));
    let line = size * 0.038 * 1.5;
    assert_eq!(tail[5], ("Accel assist off".to_string(), info, note - line * 2.0 / 2.0));
    assert_eq!(tail.len(), 8);
}

#[test]
fn the_wider_side_decides_the_arrangement() {
    let fr = frame();
    let r = rays(50.0, false);
    let draw = |width: i32, height: i32| draw_speedometer(&fr, &r, width, height);
    let tail = |all: &Vec<Command>| all[2..].to_vec();
    let wide = draw(801, 800);
    assert!(same(&wide[0], &Command::SourceRgb { red: d(0.10), green: d(0.10), blue: d(0.12) }));
    assert!(same(&wide[1], &Command::Paint));
    let expected = draw_landscape(&fr, &r, d(801.0), d(800.0));
    assert!(tail(&wide).len() == expected.len() && starts_with(&tail(&wide), &expected));
    let square = draw(800, 800);
    let expected = draw_portrait(&fr, &r, d(800.0), d(800.0));
    assert!(tail(&square).len() == expected.len() && starts_with(&tail(&square), &expected));
}

#[test]
fn heat_rises_with_the_level() {
    let mut last = (0.0, 1.0);
    for i in 0..2_000 {
        let (red, green) = heat(d(i as f64 * 0.001));
        assert!(f(red) >= last.0 && f(green) <= last.1);
        last = (f(red), f(green));
    }
    let (red, green) = heat(d(f64::INFINITY));
    assert_eq!((f(red), f(green)), (1.0, f64::NEG_INFINITY));
}

#[test]
fn the_arc_fits_between_the_margins() {
    let fr = frame();
    let r = rays(50.0, false);
    for (width, height) in [(360, 720), (500, 500), (1, 1), (0, 700), (2_000, 2_001), (640, 641)] {
        let out = draw_speedometer(&fr, &r, width, height);
        let h = height as f64;
        let usable = h - h * 0.17 - h * 0.22;
        let radius = match out[2 + 5] {
            Command::Arc { radius, .. } => f(radius),
            _ => panic!("no arc"),
        };
        assert!(radius >= 0.0);
        assert!(radius <= width as f64 * 0.42);
        assert!(radius <= usable / 2.0 * (1.0 + 2.0_f64.powi(-51)));
    }
}

#[test]
fn the_note_stays_above_the_edge() {
    let fr = Frame { accel_enabled: false, ..frame() };
    let r = rays(50.0, false);
    for (width, height) in [(360, 720), (500, 500), (900, 400), (300, 2_000), (400, 60)] {
        let out = draw_speedometer(&fr, &r, width, height);
        let first = captions(&out).into_iter().find(|c| c.0 == "Accel assist off").unwrap();
        assert!(first.2 <= height as f64);
    }
}

#[test]
fn a_poor_fix_has_a_yellow_dot_and_a_hint() {
    for (accuracy, green) in [(0.0, true), (9.999, true), (10.0, false), (5_000.0, false)] {
        let out = draw_gps_status(d(accuracy), true, -1, d(0.0), d(0.0), d(100.0));
        assert_eq!(colours(&out)[0] == (0.18, 0.85, 0.30), green);
        assert_eq!(words(&out).len(), if green { 1 } else { 2 });
    }
}

#[test]
fn the_dot_is_drawn_between_the_edges() {
    for (gx, gy) in [(0.0, 0.0), (0.999, -0.3), (-4.0, 2.0), (f64::INFINITY, f64::NEG_INFINITY)] {
        let (cx, cy, r) = (317.3, 511.9, 71.1);
        let out = draw_gforce_meter(d(gx), d(gy), d(cx), d(cy), d(r));
        match out[23] {
            Command::Circle { x, y, .. } => {
                assert!(f(x) >= cx - r && f(x) <= cx + r);
                assert!(f(y) >= cy - r && f(y) <= cy + r);
            }
            _ => panic!("no dot"),
        }
    }
}

#[test]
fn the_dot_has_the_colour_of_the_total() {
    for i in 0..3_000 {
        let t = i as f64 * 0.0007;
        let out = draw_gforce_meter(d(t), d(0.0), d(0.0), d(0.0), d(10.0));
        let total = (t * t).sqrt();
        let expected = ((2.0 * total).clamp(0.0, 1.0), (2.0 - 2.0 * total).clamp(0.0, 1.0), 0.05);
        assert_eq!(colours(&out)[1], expected);
    }
}

#[test]
fn the_needle_rests_at_the_start_up_to_zero() {
    for speed in [0.0, -0.0, -1e-300, -55.5, f64::NEG_INFINITY] {
        assert_eq!(f(dial_angles(d(speed), false).needle), 150.0);
        assert_eq!(f(dial_angles(d(speed), true).needle), 150.0);
    }
}

#[test]
fn the_status_stands_above_the_dial() {
    let fr = frame();
    let r = rays(50.0, false);
    for (width, height) in [(360, 720), (500, 500), (1, 1), (0, 0), (0, 9), (3_000, 3_001), (77, 4_000)] {
        let out = draw_speedometer(&fr, &r, width, height);
        let arc = match out[2 + 5] {
            Command::Arc { y, radius, .. } => f(y) - f(radius),
            _ => panic!("no arc"),
        };
        let second = captions(&out).into_iter().find(|c| c.0 == "Fixed in 12s").unwrap();
        assert!(second.2 <= arc);
    }
}

#[test]
fn a_wide_dial_stands_in_the_left_half() {
    let fr = frame();
    let r = rays(50.0, false);
    for (width, height) in [(720, 360), (501, 500), (2, 1), (9, 0), (4_000, 77), (3_001, 3_000)] {
        let out = draw_speedometer(&fr, &r, width, height);
        match out[2] {
            Command::Circle { x, y, radius } => {
                assert!(f(x) - f(radius) >= 0.0);
                assert!(f(x) + f(radius) <= width as f64 / 2.0);
                assert!(f(y) - f(radius) >= 0.0);
                assert!(f(y) + f(radius) <= height as f64);
            }
            _ => panic!("no disc"),
        }
    }
}
