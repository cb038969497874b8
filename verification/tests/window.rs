use speedometer::double::number::Double;
use speedometer::imu::ImuData;
use speedometer::location::LocationData;
use speedometer::window::SpeedometerWindow;

fn d(x: f64) -> Double {
    Double::from_bits(x.to_bits())
}

fn f(x: Double) -> f64 {
    f64::from_bits(x.to_bits())
}

fn fix(speed: f64, accuracy: f64, heading: Option<f64>) -> LocationData {
    LocationData {
        speed_kmh: d(speed),
        altitude_m: d(312.5),
        accuracy_m: d(accuracy),
        has_fix: true,
        latitude: d(48.25),
        longitude: d(-11.5),
        heading_deg: heading.map(d),
    }
}

fn sample(ts: u64, x: f64, z: f64, gyro: f64) -> ImuData {
    ImuData {
        timestamp_us: ts,
        linear_ms2: d((x * x + z * z).sqrt()),
        accel_x_ms2: d(x),
        accel_y_ms2: d(0.0),
        accel_z_ms2: d(z),
        gyro_rads: d(gyro),
    }
}

/// A window with a good fix at 50 km/h, accelerating, and one sample seen.
fn driving() -> SpeedometerWindow {
    let mut w = SpeedometerWindow::new(0);
    w.on_location(fix(50.0, 5.0, Some(90.0)), 1_000_000);
    w.on_imu(sample(1_000, 0.0, 0.0, 0.0));
    w
}

#[test]
fn a_new_window_is_searching() {
    let w = SpeedometerWindow::new(5_000_000);
    assert!(!w.has_fix);
    assert!(w.accel_enabled);
    assert!(!w.use_mph);
    assert_eq!(w.time_to_fix_s, -1);
    assert_eq!(w.elapsed_s(5_000_000), 0);
    assert_eq!(w.elapsed_s(17_999_999), 12);
    assert!(f(w.gps_prev_heading).is_nan());
    assert_eq!(f(w.speed_displayed), 0.0);
    assert_eq!(f(w.accel_sign), 0.0);
}

#[test]
fn the_clock_may_run_backwards() {
    let w = SpeedometerWindow::new(5_000_000);
    assert_eq!(w.elapsed_s(1_500_000), -3);
}

#[test]
fn units_are_chosen_by_name() {
    let mut w = SpeedometerWindow::new(0);
    assert_eq!(w.choose_unit(Some("mph")), "mph");
    assert!(w.use_mph);
    assert_eq!(w.choose_unit(Some("mp")), "mp");
    assert!(!w.use_mph);
    w.choose_unit(Some("mph"));
    assert_eq!(w.choose_unit(Some("kmh")), "kmh");
    assert!(!w.use_mph);
    w.choose_unit(Some("mph"));
    assert_eq!(w.choose_unit(None), "kmh");
    assert!(!w.use_mph);
    assert_eq!(w.choose_unit(Some("mphs")), "mphs");
    assert!(!w.use_mph);
}

#[test]
fn switching_the_assistance_off_forgets_the_change() {
    let mut w = driving();
    w.on_imu(sample(101_000, 0.0, 2.0, 0.0));
    assert!(f(w.accel_delta) > 0.0);
    assert!(!w.toggle_accel(Some(true)));
    assert!(!w.accel_enabled);
    assert_eq!(f(w.accel_delta), 0.0);
    assert!(w.toggle_accel(Some(false)));
    assert!(w.accel_enabled);
    assert!(!w.toggle_accel(None));
    assert!(!w.accel_enabled);
}

#[test]
fn switching_the_assistance_on_keeps_the_change() {
    let mut w = driving();
    w.accel_delta = d(3.5);
    assert!(w.toggle_accel(Some(false)));
    assert_eq!(f(w.accel_delta), 3.5);
}

#[test]
fn a_good_fix_stops_the_timer() {
    let mut w = SpeedometerWindow::new(1_000_000);
    w.on_location(fix(0.0, 25.0, None), 4_000_000);
    assert_eq!(w.time_to_fix_s, -1);
    assert_eq!(w.elapsed_s(6_000_000), 5);
    w.on_location(fix(0.0, 9.99, None), 8_700_000);
    assert_eq!(w.time_to_fix_s, 7);
    assert_eq!(w.elapsed_s(99_000_000), 7);
    w.on_location(fix(10.0, 3.0, None), 20_000_000);
    assert_eq!(w.time_to_fix_s, 7);
    // Ten metres are no longer good.
    w.on_location(fix(10.0, 10.0, None), 30_000_000);
    assert_eq!(w.time_to_fix_s, -1);
    assert_eq!(w.search_start_us, 30_000_000);
    assert_eq!(w.elapsed_s(30_000_000), 0);
    assert_eq!(w.elapsed_s(32_500_000), 2);
    assert!(!w.accel_has_gps);
}

#[test]
fn an_accuracy_that_is_not_a_number_is_no_good_fix() {
    let mut w = SpeedometerWindow::new(0);
    w.on_location(fix(30.0, f64::NAN, None), 2_000_000);
    assert!(!w.prev_has_fix);
    assert!(!w.accel_has_gps);
    assert_eq!(w.elapsed_s(2_000_000), 2);
}

#[test]
fn a_fix_is_a_new_anchor() {
    let mut w = driving();
    w.on_imu(sample(81_000, 0.0, 3.0, 0.0));
    w.on_location(fix(61.5, 4.0, Some(91.0)), 2_000_000);
    assert_eq!(f(w.accel_base_speed), 61.5);
    assert_eq!(f(w.speed_target), 61.5);
    assert_eq!(f(w.accel_delta), 0.0);
    assert_eq!(f(w.gps_prev_speed), 61.5);
    assert_eq!(f(w.gps_prev_heading), 91.0);
    assert_eq!(f(w.altitude), 312.5);
    assert_eq!(f(w.latitude), 48.25);
    assert_eq!(f(w.longitude), -11.5);
    assert_eq!(f(w.accuracy), 4.0);
    assert!(w.has_fix);
}

#[test]
fn the_direction_needs_a_straight_road_and_half_a_kilometre() {
    let mut w = SpeedometerWindow::new(0);
    w.on_location(fix(50.0, 5.0, Some(10.0)), 0);
    assert_eq!(f(w.accel_sign), 1.0);
    w.on_location(fix(49.5, 5.0, Some(10.0)), 0);
    assert_eq!(f(w.accel_sign), 1.0);
    w.on_location(fix(48.9, 5.0, Some(10.0)), 0);
    assert_eq!(f(w.accel_sign), -1.0);
    // A turn of 90 degrees: the direction stays.
    w.on_location(fix(80.0, 5.0, Some(100.0)), 0);
    assert_eq!(f(w.accel_sign), -1.0);
    // Exactly fifteen degrees is a turn as well.
    w.on_location(fix(90.0, 5.0, Some(115.0)), 0);
    assert_eq!(f(w.accel_sign), -1.0);
    w.on_location(fix(95.0, 5.0, Some(129.9)), 0);
    assert_eq!(f(w.accel_sign), 1.0);
}

#[test]
fn the_shorter_way_leads_over_north() {
    let mut w = SpeedometerWindow::new(0);
    w.on_location(fix(50.0, 5.0, Some(359.0)), 0);
    w.on_location(fix(40.0, 5.0, Some(3.0)), 0);
    assert_eq!(f(w.accel_sign), -1.0);
    w.on_location(fix(60.0, 5.0, Some(352.0)), 0);
    assert_eq!(f(w.accel_sign), 1.0);
    w.on_location(fix(50.0, 5.0, Some(172.0)), 0);
    assert_eq!(f(w.accel_sign), 1.0);
}

#[test]
fn an_unknown_heading_counts_as_straight() {
    let mut w = SpeedometerWindow::new(0);
    w.on_location(fix(50.0, 5.0, Some(0.0)), 0);
    w.on_location(fix(40.0, 5.0, None), 0);
    assert_eq!(f(w.accel_sign), -1.0);
    assert!(f(w.gps_prev_heading).is_nan());
    w.on_location(fix(60.0, 5.0, Some(180.0)), 0);
    assert_eq!(f(w.accel_sign), 1.0);
}

#[test]
fn the_gforce_is_measured_without_a_fix() {
    let mut w = SpeedometerWindow::new(0);
    assert!(w.on_imu(sample(77, 4.905, -9.81, 0.0)).is_none());
    assert_eq!(f(w.gforce_x_raw), 4.905 / 9.81);
    assert_eq!(f(w.gforce_y_raw), 1.0);
    assert_eq!(w.accel_last_ts, 77);
    assert_eq!(f(w.speed_target), 0.0);
}

#[test]
fn strong_samples_are_integrated() {
    let mut w = driving();
    assert!(w.on_imu(sample(81_000, 0.3, -2.5, 0.05)).is_none());
    let dt = 80_000.0_f64 / 1_000_000.0;
    let delta = 2.5 * dt * 1.0 * 1.0 * 3.6;
    assert_eq!(f(w.accel_delta), delta);
    assert_eq!(f(w.speed_target), 50.0 + delta);
    assert_eq!(f(w.gforce_y_raw), 2.5 / 9.81);
}

#[test]
fn braking_lowers_the_speed_but_not_below_zero() {
    let mut w = driving();
    w.on_location(fix(2.0, 5.0, Some(90.0)), 2_000_000);
    assert_eq!(f(w.accel_sign), -1.0);
    let mut ts = 1_000;
    for _ in 0..40 {
        ts += 400_000;
        w.on_imu(sample(ts, 0.0, 9.0, 0.0));
    }
    assert_eq!(f(w.accel_delta), -20.0);
    assert_eq!(f(w.speed_target), 0.0);
}

#[test]
fn the_change_is_cut_off_at_twenty() {
    let mut w = driving();
    let mut ts = 1_000;
    for _ in 0..40 {
        ts += 400_000;
        w.on_imu(sample(ts, 0.0, 9.0, 0.0));
    }
    assert_eq!(f(w.accel_delta), 20.0);
    assert_eq!(f(w.speed_target), 70.0);
}

#[test]
fn weak_samples_let_the_change_fade() {
    let mut w = driving();
    w.accel_delta = d(4.0);
    let power = w.on_imu(sample(41_000, 0.0, 0.79, 0.0)).unwrap();
    assert_eq!(f(power.base), 0.92);
    assert_eq!(f(power.exponent), 0.04 / 0.08);
    assert_eq!(f(w.accel_delta), 4.0);
    w.decay(d(f(power.base).powf(f(power.exponent))));
    assert_eq!(f(w.accel_delta), 4.0 * 0.92_f64.powf(0.04 / 0.08));
    assert_eq!(f(w.speed_target), 50.0);
}

#[test]
fn corners_suppress_the_integration() {
    let mut w = driving();
    w.on_imu(sample(81_000, 5.0, 3.0, 0.30));
    assert_eq!(f(w.accel_delta), 0.0);
    w.on_imu(sample(161_000, 5.0, 3.0, 7.0));
    assert_eq!(f(w.accel_delta), 0.0);
    assert_eq!(f(w.speed_target), 50.0);
    w.on_imu(sample(241_000, 5.0, 3.0, 0.20));
    let weight = 1.0 - ((0.20_f64 - 0.10) / (0.30 - 0.10)).clamp(0.0, 1.0);
    assert_eq!(f(w.accel_delta), 3.0 * (80_000.0 / 1_000_000.0) * 1.0 * weight * 3.6);
}

#[test]
fn untimely_samples_count_for_nothing() {
    let mut w = driving();
    w.on_imu(sample(1_000, 0.0, 9.0, 0.0));
    assert_eq!(f(w.accel_delta), 0.0);
    w.on_imu(sample(900, 0.0, 9.0, 0.0));
    assert_eq!(f(w.accel_delta), 0.0);
    assert_eq!(w.accel_last_ts, 900);
    w.on_imu(sample(500_901, 0.0, 9.0, 0.0));
    assert_eq!(f(w.accel_delta), 0.0);
    w.on_imu(sample(1_000_901, 0.0, 1.0, 0.0));
    assert_eq!(f(w.accel_delta), 1.0 * 0.5 * 1.0 * 1.0 * 3.6);
}

#[test]
fn samples_without_a_direction_count_for_nothing() {
    let mut w = SpeedometerWindow::new(0);
    w.on_location(fix(0.2, 5.0, None), 0);
    assert_eq!(f(w.accel_sign), 0.0);
    w.on_imu(sample(1_000, 0.0, 9.0, 0.0));
    assert!(w.on_imu(sample(81_000, 0.0, 9.0, 0.0)).is_none());
    assert!(w.on_imu(sample(161_000, 0.0, 0.1, 0.0)).is_none());
    assert_eq!(f(w.accel_delta), 0.0);
    assert_eq!(f(w.speed_target), 0.2);
}

#[test]
fn samples_count_for_nothing_when_switched_off() {
    let mut w = driving();
    w.toggle_accel(Some(true));
    assert!(w.on_imu(sample(81_000, 0.0, 9.0, 0.0)).is_none());
    assert_eq!(f(w.accel_delta), 0.0);
    assert_eq!(f(w.speed_target), 50.0);
    assert_eq!(w.accel_last_ts, 81_000);
}

#[test]
fn the_needle_moves_like_a_damped_spring() {
    let mut w = SpeedometerWindow::new(0);
    w.set_speed_target(d(50.0));
    let (mut shown, mut vel) = (0.0_f64, 0.0_f64);
    for _ in 0..2_000 {
        w.tick();
        let accel = 80.0 * (50.0 - shown) - 13.4 * vel;
        vel += accel * 0.016;
        shown = (shown + vel * 0.016).max(0.0);
        assert_eq!(f(w.needle_velocity), vel);
        assert_eq!(f(w.speed_displayed), shown);
    }
    assert!((shown - 50.0).abs() < 1e-9);
}

#[test]
fn the_needle_does_not_swing_below_zero() {
    let mut w = SpeedometerWindow::new(0);
    w.speed_displayed = d(1.0);
    w.needle_velocity = d(-500.0);
    w.tick();
    assert_eq!(f(w.speed_displayed), 0.0);
}

#[test]
fn a_resting_needle_stays() {
    let mut w = SpeedometerWindow::new(0);
    w.speed_displayed = d(37.3);
    w.set_speed_target(d(37.3));
    w.tick();
    assert_eq!(f(w.speed_displayed), 37.3);
    assert_eq!(f(w.needle_velocity), 0.0);
}

#[test]
fn gforces_are_smoothed_halfway() {
    let mut w = SpeedometerWindow::new(0);
    w.on_imu(sample(1, 9.81, 9.81, 0.0));
    w.tick();
    assert_eq!(f(w.gforce_x), 0.5);
    assert_eq!(f(w.gforce_y), -0.5);
    w.tick();
    assert_eq!(f(w.gforce_x), 0.75);
    assert_eq!(f(w.gforce_y), -0.75);
}

#[test]
fn a_frame_shows_the_state() {
    let mut w = driving();
    w.choose_unit(Some("mph"));
    w.tick();
    let frame = w.frame(9_000_000);
    assert_eq!(frame.speed.to_bits(), w.speed_displayed.to_bits());
    assert_eq!(f(frame.altitude), 312.5);
    assert_eq!(f(frame.accuracy), 5.0);
    assert!(frame.has_fix && frame.use_mph && frame.accel_enabled);
    assert_eq!(f(frame.latitude), 48.25);
    assert_eq!(f(frame.longitude), -11.5);
    assert_eq!(frame.elapsed_s, 1);
    assert_eq!(f(frame.gforce_x), 0.0);
    assert_eq!(f(frame.gforce_y), 0.0);
}

#[test]
fn fading_never_changes_the_direction() {
    for (delta, factor) in [(4.0, 0.92), (-4.0, 0.92), (-7.5, 0.0), (3.25, 1.0), (0.0, 0.5)] {
        let mut w = driving();
        w.accel_delta = d(delta);
        w.decay(d(factor));
        assert_eq!(f(w.accel_delta), delta * factor);
        assert!(f(w.accel_delta).abs() <= f64::abs(delta));
        assert!(f(w.accel_delta) * delta >= 0.0);
    }
}

#[test]
fn an_endless_acceleration_is_cut_off() {
    let mut w = driving();
    w.on_imu(sample(81_000, 0.0, f64::INFINITY, 0.0));
    assert_eq!(f(w.accel_delta), 20.0);
    let mut w = driving();
    w.on_imu(sample(81_000, 0.0, 5.0, f64::INFINITY));
    assert_eq!(f(w.accel_delta), 0.0);
}

#[test]
fn the_speed_follows_the_formula_on_many_samples() {
    let mut w = driving();
    let (base, mut delta, mut target, mut last) = (50.0_f64, 0.0_f64, 50.0_f64, 1_000_u64);
    let mut seed: u64 = 0x1234_5678_9abc_def1;
    for _ in 0..3_000 {
        seed ^= seed << 13;
        seed ^= seed >> 7;
        seed ^= seed << 17;
        let ts = last + seed % 600_000;
        let z = ((seed >> 20) % 4_000) as f64 / 1_000.0 - 2.0;
        let gyro = ((seed >> 40) % 400) as f64 / 1_000.0;
        let fading = w.on_imu(sample(ts, 0.0, z, gyro));
        let dt = ts.saturating_sub(last) as f64 / 1_000_000.0;
        last = ts;
        if dt > 0.0 && dt <= 0.5 {
            if z.abs() < 0.8 {
                let power = fading.unwrap();
                let factor = 0.92_f64.powf(dt / 0.08);
                assert_eq!(f(power.base).powf(f(power.exponent)), factor);
                w.decay(d(factor));
                delta *= factor;
            } else {
                let weight = 1.0 - ((gyro - 0.10) / (0.30 - 0.10)).clamp(0.0, 1.0);
                if weight >= 0.01 {
                    delta = (delta + z.abs() * dt * 1.0 * weight * 3.6).clamp(-20.0, 20.0);
                    target = (base + delta).max(0.0);
                }
            }
        }
        assert_eq!(f(w.accel_delta), delta);
        assert_eq!(f(w.speed_target), target);
    }
}

#[test]
fn whole_degrees_turn_by_the_shortest_way() {
    for from in (0..360).step_by(7) {
        for to in 0..360 {
            let difference = i32::abs(to - from);
            let angle = difference.min(360 - difference);
            let mut w = SpeedometerWindow::new(0);
            w.on_location(fix(50.0, 5.0, Some(from as f64)), 0);
            w.on_location(fix(40.0, 5.0, Some(to as f64)), 0);
            assert_eq!(f(w.accel_sign), if angle < 15 { -1.0 } else { 1.0 }, "{from} to {to}");
            assert_eq!(f(w.gps_prev_heading), to as f64);
            assert_eq!(f(w.gps_prev_speed), 40.0);
        }
    }
}

#[test]
fn every_run_stays_within_its_bounds() {
    let mut w = SpeedometerWindow::new(7_000_000);
    let (mut now, mut ts, mut good) = (7_000_000_i64, 1_u64, false);
    let mut seed: u64 = 0x9e37_79b9_7f4a_7c15;
    for _ in 0..20_000 {
        seed ^= seed << 13;
        seed ^= seed >> 7;
        seed ^= seed << 17;
        let pick = (seed >> 8) % 100;
        let part = (seed >> 16) % 1_000;
        let (start, time) = (w.search_start_us, w.time_to_fix_s);
        if pick < 10 {
            now += (part * 1_000) as i64;
            let accuracy = (part % 20) as f64;
            w.on_location(fix(part as f64 / 7.0, accuracy, Some(part as f64 % 360.0)), now);
            if (accuracy < 10.0) == good {
                assert_eq!((w.search_start_us, w.time_to_fix_s), (start, time));
            }
            good = accuracy < 10.0;
        } else if pick < 60 {
            ts += part * 500;
            let z = part as f64 / 50.0 - 10.0;
            if let Some(power) = w.on_imu(sample(ts, 0.0, z, part as f64 / 3_000.0)) {
                w.decay(d(f(power.base).powf(f(power.exponent))));
            }
        } else if pick < 62 {
            w.toggle_accel(Some(part % 4 == 0));
        } else if pick < 63 {
            w.choose_unit(Some("mph"));
        } else {
            w.tick();
        }
        assert!(f(w.accel_delta).abs() <= 20.0);
        assert!(f(w.speed_target) >= 0.0 && f(w.speed_displayed) >= 0.0);
        assert!([-1.0, 0.0, 1.0].contains(&f(w.accel_sign)));
        assert!(f(w.speed_target) >= f(w.accel_base_speed) - 20.0);
        assert!(f(w.speed_target) <= f(w.accel_base_speed) + 20.0);
        assert_eq!(w.prev_has_fix, good);
        assert_eq!(w.time_to_fix_s == -1, !good);
    }
}

#[test]
fn a_resting_needle_is_driven_toward_its_target() {
    for (shown, target) in [(0.0, 50.0), (50.0, 0.0), (10.0, 11.0), (999.0, 1_000.0), (3.0, 3.0), (0.0, 5e-324)] {
        let mut w = SpeedometerWindow::new(0);
        w.speed_displayed = d(shown);
        w.set_speed_target(d(target));
        w.tick();
        let next = f(w.speed_displayed);
        assert!(next >= f64::min(shown, target) && next <= f64::max(shown, target));
        if f64::abs(target - shown) >= 1.0 {
            assert!(next != shown);
        }
    }
}

#[test]
fn fading_leaves_the_target_alone() {
    let mut w = driving();
    w.accel_delta = d(-10.0);
    w.set_speed_target(d(40.0));
    let power = w.on_imu(sample(81_000, 0.0, 0.1, 0.0)).unwrap();
    assert!(f(power.base) > 0.0 && f(power.base) < 1.0 && f(power.exponent) > 0.0);
    w.decay(d(f(power.base).powf(f(power.exponent))));
    assert_eq!(f(w.accel_delta), -10.0 * 0.92);
    assert_eq!(f(w.speed_target), 40.0);
}
