use speedometer::double::number::Double;

/// A fixed sequence of bit patterns that reaches every exponent.
fn next(state: &mut u64) -> u64 {
    *state ^= *state << 13;
    *state ^= *state >> 7;
    *state ^= *state << 17;
    *state
}

fn same(ours: Double, theirs: f64, what: &str) {
    if theirs.is_nan() {
        assert!(ours.is_nan(), "{what}");
    } else {
        assert_eq!(ours.to_bits(), theirs.to_bits(), "{what}: {theirs:e}");
    }
}

fn check_pair(x: u64, y: u64) {
    let (a, b) = (Double::from_bits(x), Double::from_bits(y));
    let (f, g) = (f64::from_bits(x), f64::from_bits(y));
    same(a + b, f + g, "sum");
    same(a - b, f - g, "difference");
    same(a * b, f * g, "product");
    same(a / b, f / g, "quotient");
    same(a % b, f % g, "remainder");
    same(a.sqrt(), f.sqrt(), "root");
    assert_eq!(a.below(b), f < g);
    assert_eq!(a.at_most(b), f <= g);
    same(a.abs(), f.abs(), "magnitude");
    same(a.negated(), -f, "negation");
    if f != 0.0 || g != 0.0 {
        same(a.max(b), f.max(g), "maximum");
        same(a.min(b), f.min(g), "minimum");
    }
}

#[test]
fn arithmetic_agrees_with_hardware_on_all_exponents() {
    let mut state: u64 = 0x9e37_79b9_7f4a_7c15;
    for _ in 0..60_000 {
        let x = next(&mut state);
        let y = next(&mut state);
        check_pair(x, y);
    }
}

#[test]
fn arithmetic_agrees_with_hardware_on_close_exponents() {
    let mut state: u64 = 0x2545_f491_4f6c_dd1d;
    for i in 0..60_000u64 {
        let x = next(&mut state);
        // The same sign and exponent up to a small difference, with few or many
        // significant bits.
        let shift = i % 53;
        let gap = (next(&mut state) % 130) << 52;
        let y = (x & 0xfff0_0000_0000_0000).wrapping_add(gap) ^ ((next(&mut state) >> 12) >> shift << shift);
        check_pair(x, y);
        check_pair(y, x);
        check_pair(x, y ^ (1 << 63));
        check_pair(x >> shift << shift, y);
    }
}

#[test]
fn arithmetic_agrees_with_hardware_on_special_values() {
    let specials: [u64; 22] = [
        0,
        1,
        2,
        3,
        0x000f_ffff_ffff_ffff,
        0x0010_0000_0000_0000,
        0x0010_0000_0000_0001,
        0x001f_ffff_ffff_ffff,
        0x3fe0_0000_0000_0000,
        0x3fef_ffff_ffff_ffff,
        0x3ff0_0000_0000_0000,
        0x3ff0_0000_0000_0001,
        0x4000_0000_0000_0000,
        0x4024_0000_0000_0000,
        0x4330_0000_0000_0000,
        0x4340_0000_0000_0001,
        0x7fe0_0000_0000_0000,
        0x7fef_ffff_ffff_fffe,
        0x7fef_ffff_ffff_ffff,
        0x7ff0_0000_0000_0000,
        0x7ff0_0000_0000_0001,
        0x7ff8_0000_0000_0000,
    ];
    for x in specials {
        for y in specials {
            check_pair(x, y);
            check_pair(x | 1 << 63, y);
            check_pair(x, y | 1 << 63);
            check_pair(x | 1 << 63, y | 1 << 63);
        }
    }
}

#[test]
fn ratio_reads_decimal_literals() {
    same(Double::ratio(621_371, 1_000_000), 0.621_371, "mph");
    same(Double::ratio(981, 100), 9.81, "gravity");
    same(Double::ratio(1, 10), 0.1, "tenth");
    same(Double::ratio(3_141_592_653_589_793, 1_000_000_000_000_000), std::f64::consts::PI, "pi");
    same(Double::ratio(0, 7), 0.0, "zero");
    same(Double::ratio(u64::MAX, 1), u64::MAX as f64, "integer");
    let mut state: u64 = 88_172_645_463_325_252;
    for _ in 0..20_000 {
        let n = next(&mut state) >> (next(&mut state) % 64);
        same(Double::ratio(n, 1), n as f64, "integer");
        let m = n % 9_007_199_254_740_992;
        same(Double::ratio(m, 1_000), m as f64 / 1_000.0, "thousandths");
    }
}

#[test]
fn clamp_keeps_what_is_not_a_number() {
    let (low, high) = (Double::ratio(20, 1).negated(), Double::ratio(20, 1));
    assert!(Double::make_nan().clamp(low, high).is_nan());
    same(Double::ratio(21, 1).clamp(low, high), 20.0, "above");
    same(Double::ratio(21, 1).negated().clamp(low, high), -20.0, "below");
    same(Double::ratio(3, 2).clamp(low, high), 1.5, "inside");
    same(Double::from_bits(0).max(Double::make_nan()), 0.0, "larger");
    same(Double::make_nan().min(high), 20.0, "smaller");
}
