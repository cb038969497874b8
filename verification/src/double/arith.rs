//! Addition, subtraction, multiplication and division.
use crate::double::grid::{
    lemma_magnitude_at, lemma_nearest_exact, lemma_nearest_is, lemma_nearest_monotone, magnitude,
    nearest, FRACTION, TOP,
};
use crate::double::number::{distance, Double, NAN, SIGN};
use crate::double::rounding::{
    bit_length, lemma_pow2_127, lemma_pow2_52, lemma_rounded_ratio, lemma_scales, power_of_two,
    round, scale_down, scale_up,
};
use vstd::arithmetic::power2::{
    lemma2_to64, lemma_pow2_adds, lemma_pow2_pos, lemma_pow2_strictly_increases, pow2,
};
use vstd::prelude::*;

verus! {

/// How many units make one, as a power of two.
pub const UNIT: u32 = 1074;

impl Double {
    #[verifier::opaque]
    pub open spec fn spec_add(self, rhs: Double) -> Double {
        if self.nan() || rhs.nan() {
            Double::not_a_number()
        } else if self.infinite() {
            if rhs.infinite() && self.negative() != rhs.negative() {
                Double::not_a_number()
            } else {
                self
            }
        } else if rhs.infinite() {
            rhs
        } else {
            let sum = self.value() + rhs.value();
            Double::rounding(
                sum < 0 || (sum == 0 && self.negative() && rhs.negative()),
                distance(sum),
                1,
            )
        }
    }

    pub open spec fn spec_sub(self, rhs: Double) -> Double {
        self + (-rhs)
    }

    #[verifier::opaque]
    pub open spec fn spec_mul(self, rhs: Double) -> Double {
        let negative = self.negative() != rhs.negative();
        if self.nan() || rhs.nan() {
            Double::not_a_number()
        } else if self.infinite() || rhs.infinite() {
            if self.index() == 0 || rhs.index() == 0 {
                Double::not_a_number()
            } else {
                Double::of(negative, TOP as nat)
            }
        } else {
            Double::rounding(
                negative,
                magnitude(self.index()) * magnitude(rhs.index()),
                pow2(UNIT as nat),
            )
        }
    }

    #[verifier::opaque]
    pub open spec fn spec_euclidean_or_real_div(self, rhs: Double) -> Double {
        let negative = self.negative() != rhs.negative();
        if self.nan() || rhs.nan() {
            Double::not_a_number()
        } else if self.infinite() {
            if rhs.infinite() {
                Double::not_a_number()
            } else {
                Double::of(negative, TOP as nat)
            }
        } else if rhs.infinite() {
            Double::of(negative, 0)
        } else if rhs.index() == 0 {
            if self.index() == 0 {
                Double::not_a_number()
            } else {
                Double::of(negative, TOP as nat)
            }
        } else {
            Double::rounding(
                negative,
                magnitude(self.index()) * pow2(UNIT as nat),
                magnitude(rhs.index()),
            )
        }
    }

}

/// Splits a magnitude into its significand and its exponent.
pub(crate) fn parts(k: u64) -> (r: (u64, u32))
    requires
        k < TOP,
    ensures
        r.0 < 2 * FRACTION,
        r.1 <= 2045,
        r.1 > 0 ==> r.0 >= FRACTION,
        magnitude(k as nat) == r.0 * pow2(r.1 as nat),
        r.0 == 0 <==> k == 0,
        k == r.1 * FRACTION + r.0,
{
    proof {
        lemma2_to64();
    }
    if k < FRACTION {
        (k, 0)
    } else {
        let s: u64 = k % FRACTION + FRACTION;
        let q: u32 = (k / FRACTION - 1) as u32;
        proof {
            lemma_magnitude_at(s as nat, q as nat);
        }
        (s, q)
    }
}

pub(crate) fn make(negative: bool, k: u64) -> (r: Double)
    requires
        k <= TOP,
    ensures
        r == Double::of(negative, k as nat),
{
    Double { bits: if negative { SIGN + k } else { k } }
}

/// The sign and the index of the sum of two finite numbers whose exponents are
/// at most 64 apart.
fn sum_near(n1: bool, s1: u64, q1: u32, n2: bool, s2: u64, q2: u32) -> (r: (bool, u64))
    requires
        s1 < 2 * FRACTION,
        s2 < 2 * FRACTION,
        q2 <= q1 <= q2 + 64,
        q1 <= 2045,
    ensures
        r.1 <= TOP,
        ({
            let x = signed(n1, s1 as nat, q1 as nat) + signed(n2, s2 as nat, q2 as nat);
            &&& r.0 == (x < 0 || (x == 0 && n1 && n2))
            &&& r.1 == nearest(distance(x), 1)
        }),
{
    let gap: u32 = q1 - q2;
    let p: u128 = power_of_two(gap);
    proof {
        lemma_pow2_adds(gap as nat, q2 as nat);
        lemma2_to64();
        lemma_pow2_pos(gap as nat);
        lemma_pow2_pos(q2 as nat);
        if gap < 64 {
            lemma_pow2_strictly_increases(gap as nat, 64);
        }
        assert(s1 * p <= 2 * FRACTION * 0x1_0000_0000_0000_0000) by (nonlinear_arith)
            requires
                s1 < 2 * FRACTION,
                0 < p <= 0x1_0000_0000_0000_0000,
        ;
    }
    let a: u128 = s1 as u128 * p;
    let b: u128 = s2 as u128;
    let (negative, s): (bool, u128) = if n1 == n2 {
        (n1, a + b)
    } else if a > b {
        (n1, a - b)
    } else if b > a {
        (n2, b - a)
    } else {
        (false, 0)
    };
    let k: u64 = round(s, q2 as i32, false);
    proof {
        let g = pow2(q2 as nat);
        let x = signed(n1, s1 as nat, q1 as nat) + signed(n2, s2 as nat, q2 as nat);
        assert(s1 * pow2(q1 as nat) == a * g) by (nonlinear_arith)
            requires
                a == s1 * p,
                pow2(q1 as nat) == p * g,
        ;
        let y = if negative {
            -(s as int)
        } else {
            s as int
        };
        assert(x == y * g) by (nonlinear_arith)
            requires
                x == (if n1 { -(a * g) } else { a * g }) + (if n2 { -(b * g) } else { b * g }),
                y == (if n1 { -(a as int) } else { a as int }) + (if n2 { -(b as int) } else { b as int }),
        ;
        assert((y < 0 ==> x < 0) && (y == 0 ==> x == 0) && (y > 0 ==> x > 0) && distance(x) == s * g) by (nonlinear_arith)
            requires
                x == y * g,
                g > 0,
                y == (if negative { -(s as int) } else { s as int }),
        ;
        let n = distance(x);
        assert((s * g) * 1 == n * 1);
        lemma_rounded_ratio(s as nat, q2 as int, false, k as nat, n, 1);
        lemma_nearest_is(n, 1, k as nat);
    }
    (negative, k)
}

/// The value of a significand with a sign and an exponent, in units.
pub open spec fn signed(negative: bool, s: nat, q: nat) -> int {
    if negative {
        -((s * pow2(q)) as int)
    } else {
        (s * pow2(q)) as int
    }
}

/// The index of the sum of two finite numbers of which the second is so much
/// smaller that it only decides the direction of rounding. The sum has the sign
/// of the first.
fn sum_far(same: bool, s1: u64, q1: u32, s2: u64, q2: u32) -> (k: u64)
    requires
        FRACTION <= s1 < 2 * FRACTION,
        0 < s2 < 2 * FRACTION,
        q2 + 64 < q1 <= 2045,
    ensures
        k <= TOP,
        s1 * pow2(q1 as nat) > s2 * pow2(q2 as nat),
        ({
            let x = s1 * pow2(q1 as nat) + (if same { s2 * pow2(q2 as nat) } else { -(s2 * pow2(q2 as nat)) });
            k == nearest(x as nat, 1)
        }),
{
    let a: u128 = s1 as u128 * 4096;
    let s: u128 = if same { a } else { a - 1 };
    let t: i32 = q1 as i32 - 12;
    let k: u64 = round(s, t, true);
    proof {
        let u = pow2(t as nat);
        let big = s1 * pow2(q1 as nat);
        let small = s2 * pow2(q2 as nat);
        let x = big + (if same { small } else { -small });
        lemma2_to64();
        lemma_pow2_52();
        lemma_pow2_adds(12, t as nat);
        lemma_pow2_adds(53, q2 as nat);
        lemma_pow2_pos(t as nat);
        lemma_pow2_pos(q2 as nat);
        if q2 + 53 < t {
            lemma_pow2_strictly_increases((q2 + 53) as nat, t as nat);
        }
        assert(big == a * u) by (nonlinear_arith)
            requires
                big == s1 * (4096 * u),
                a == s1 * 4096,
        ;
        assert(0 < small < u) by (nonlinear_arith)
            requires
                small == s2 * pow2(q2 as nat),
                0 < s2 < 2 * FRACTION,
                2 * FRACTION * pow2(q2 as nat) <= u,
                pow2(q2 as nat) > 0,
        ;
        assert((a + 1) * u == a * u + u && (a - 1) * u == a * u - u) by (nonlinear_arith);
        assert(a * u >= u) by (nonlinear_arith)
            requires
                a >= 1,
        ;
        assert((s * u) * 1 == s * u && ((s + 1) * u) * 1 == (s + 1) * u);
        lemma_rounded_ratio(s as nat, t as int, true, k as nat, x as nat, 1);
        lemma_nearest_is(x as nat, 1, k as nat);
    }
    k
}

impl core::ops::Add for Double {
    type Output = Double;

    fn add(self, rhs: Double) -> (r: Double) {
        proof {
            reveal(Double::spec_add);
        }
        let a: u64 = self.bits % SIGN;
        let b: u64 = rhs.bits % SIGN;
        let n1: bool = self.bits >= SIGN;
        let n2: bool = rhs.bits >= SIGN;
        if a > TOP || b > TOP {
            return Double { bits: NAN };
        }
        if a == TOP {
            if b == TOP && n1 != n2 {
                return Double { bits: NAN };
            }
            return self;
        }
        if b == TOP {
            return rhs;
        }
        let (s1, q1): (u64, u32) = parts(a);
        let (s2, q2): (u64, u32) = parts(b);
        assert(signed(n1, s1 as nat, q1 as nat) == self.value());
        assert(signed(n2, s2 as nat, q2 as nat) == rhs.value());
        if q2 <= q1 && q1 <= q2 + 64 {
            let (negative, k): (bool, u64) = sum_near(n1, s1, q1, n2, s2, q2);
            make(negative, k)
        } else if q1 <= q2 && q2 <= q1 + 64 {
            let (negative, k): (bool, u64) = sum_near(n2, s2, q2, n1, s1, q1);
            make(negative, k)
        } else if q1 > q2 {
            if b == 0 {
                proof {
                    lemma_sum_alone(self, rhs);
                }
                return self;
            }
            let k: u64 = sum_far(n1 == n2, s1, q1, s2, q2);
            make(n1, k)
        } else {
            if a == 0 {
                proof {
                    lemma_sum_alone(rhs, self);
                }
                return rhs;
            }
            let k: u64 = sum_far(n1 == n2, s2, q2, s1, q1);
            make(n2, k)
        }
    }
}

/// Adding zero to a finite number other than zero changes nothing.
proof fn lemma_sum_alone(a: Double, zero: Double)
    requires
        0 < a.index() < TOP,
        zero.index() == 0,
    ensures
        zero.value() == 0,
        distance(a.value() + zero.value()) == magnitude(a.index()),
        (a.value() + zero.value() < 0) == a.negative(),
        a.value() + zero.value() != 0,
        nearest(magnitude(a.index()), 1) == a.index(),
        a == Double::of(a.negative(), a.index()),
{
    crate::double::grid::lemma_increasing(0, a.index());
    assert(magnitude(0) == 0);
    assert(magnitude(a.index()) == magnitude(a.index()) * 1);
    lemma_nearest_exact(magnitude(a.index()), 1, a.index());
}

impl vstd::std_specs::ops::AddSpecImpl for Double {
    open spec fn obeys_add_spec() -> bool {
        true
    }

    open spec fn add_req(self, rhs: Double) -> bool {
        true
    }

    open spec fn add_spec(self, rhs: Double) -> Double {
        self + rhs
    }
}

impl core::ops::Sub for Double {
    type Output = Double;

    fn sub(self, rhs: Double) -> (r: Double) {
        self + rhs.negated()
    }
}

impl vstd::std_specs::ops::SubSpecImpl for Double {
    open spec fn obeys_sub_spec() -> bool {
        true
    }

    open spec fn sub_req(self, rhs: Double) -> bool {
        true
    }

    open spec fn sub_spec(self, rhs: Double) -> Double {
        self - rhs
    }
}

impl core::ops::Mul for Double {
    type Output = Double;

    fn mul(self, rhs: Double) -> (r: Double) {
        proof {
            reveal(Double::spec_mul);
        }
        let a: u64 = self.bits % SIGN;
        let b: u64 = rhs.bits % SIGN;
        let negative: bool = (self.bits >= SIGN) != (rhs.bits >= SIGN);
        if a > TOP || b > TOP {
            return Double { bits: NAN };
        }
        if a == TOP || b == TOP {
            if a == 0 || b == 0 {
                return Double { bits: NAN };
            }
            return make(negative, TOP);
        }
        let (s1, q1): (u64, u32) = parts(a);
        let (s2, q2): (u64, u32) = parts(b);
        assert(s1 * s2 < 4 * FRACTION * FRACTION) by (nonlinear_arith)
            requires
                s1 < 2 * FRACTION,
                s2 < 2 * FRACTION,
        ;
        let s: u128 = s1 as u128 * s2 as u128;
        let t: i32 = q1 as i32 + q2 as i32 - UNIT as i32;
        let k: u64 = round(s, t, false);
        proof {
            let g = pow2((q1 + q2) as nat);
            let one = pow2(UNIT as nat);
            let n = magnitude(a as nat) * magnitude(b as nat);
            lemma_pow2_adds(q1 as nat, q2 as nat);
            lemma_pow2_pos(UNIT as nat);
            lemma_scales(t as int, (q1 + q2) as nat, UNIT as nat);
            assert(n == s * g) by (nonlinear_arith)
                requires
                    n == (s1 * pow2(q1 as nat)) * (s2 * pow2(q2 as nat)),
                    g == pow2(q1 as nat) * pow2(q2 as nat),
                    s == s1 * s2,
            ;
            let unit = scale_up(t as int);
            let base = scale_down(t as int);
            assert((s * unit) * one == n * base) by (nonlinear_arith)
                requires
                    n == s * g,
                    one * unit == g * base,
            ;
            lemma_rounded_ratio(s as nat, t as int, false, k as nat, n, one);
            lemma_nearest_is(n, one, k as nat);
        }
        make(negative, k)
    }
}

impl vstd::std_specs::ops::MulSpecImpl for Double {
    open spec fn obeys_mul_spec() -> bool {
        true
    }

    open spec fn mul_req(self, rhs: Double) -> bool {
        true
    }

    open spec fn mul_spec(self, rhs: Double) -> Double {
        self * rhs
    }
}

/// Equal rationals have the same nearest index.
pub proof fn lemma_nearest_equal(n1: nat, d1: nat, n2: nat, d2: nat)
    requires
        d1 > 0,
        d2 > 0,
        n1 * d2 == n2 * d1,
    ensures
        nearest(n1, d1) == nearest(n2, d2),
{
    lemma_nearest_monotone(n1, d1, n2, d2);
    lemma_nearest_monotone(n2, d2, n1, d1);
}

/// The index nearest to `a / b` times two to the power of `e` units.
fn divide(a: u64, b: u64, e: i32) -> (k: u64)
    requires
        a > 0,
        b > 0,
        -3000 <= e <= 4000,
    ensures
        k <= TOP,
        k == nearest(a as nat * scale_up(e as int), b as nat * scale_down(e as int)),
{
    let c: u32 = 128 - bit_length(a as u128);
    proof {
        lemma_pow2_127();
        lemma2_to64();
        let b = (128 - c) as nat;
        if b > 65 {
            lemma_pow2_strictly_increases(64, (b - 1) as nat);
        }
        assert(c >= 64);
    }
    let p: u128 = power_of_two(c);
    proof {
        lemma_pow2_adds((128 - c) as nat, c as nat);
        lemma_pow2_adds((127 - c) as nat, c as nat);
        lemma_pow2_pos(c as nat);
        assert(0x8000_0000_0000_0000_0000_0000_0000_0000 <= a * p
            < 0x1_0000_0000_0000_0000_0000_0000_0000_0000) by (nonlinear_arith)
            requires
                pow2((127 - c) as nat) <= a < pow2((128 - c) as nat),
                pow2((127 - c) as nat) * p == 0x8000_0000_0000_0000_0000_0000_0000_0000,
                pow2((128 - c) as nat) * p == 0x1_0000_0000_0000_0000_0000_0000_0000_0000,
                p > 0,
        ;
    }
    let wide: u128 = a as u128 * p;
    let s: u128 = wide / (b as u128);
    let rem: u128 = wide % (b as u128);
    let t: i32 = e - c as i32;
    proof {
        vstd::arithmetic::div_mod::lemma_fundamental_div_mod(wide as int, b as int);
        assert(s >= 0x40_0000_0000_0000) by (nonlinear_arith)
            requires
                wide == b * s + rem,
                rem < b,
                b <= 0xffff_ffff_ffff_ffff,
                wide >= 0x8000_0000_0000_0000_0000_0000_0000_0000,
        ;
    }
    let k: u64 = round(s, t, rem != 0);
    proof {
        let n = a * scale_up(e as int);
        let d = b * scale_down(e as int);
        let z = scale_up(t as int) * scale_down(e as int);
        lemma_scale_shift(e as int, c as nat);
        assert(d > 0) by (nonlinear_arith)
            requires
                d == b * scale_down(e as int),
                b > 0,
                scale_down(e as int) > 0,
        ;
        assert((s * scale_up(t as int)) * d == (s * b) * z) by (nonlinear_arith)
            requires
                d == b * scale_down(e as int),
                z == scale_up(t as int) * scale_down(e as int),
        ;
        assert(((s + 1) * scale_up(t as int)) * d == ((s + 1) * b) * z) by (nonlinear_arith)
            requires
                d == b * scale_down(e as int),
                z == scale_up(t as int) * scale_down(e as int),
        ;
        assert(n * scale_down(t as int) == wide * z) by (nonlinear_arith)
            requires
                n == a * scale_up(e as int),
                wide == a * p,
                scale_up(e as int) * scale_down(t as int) == p * z,
        ;
        assert((s + 1) * b == s * b + b) by (nonlinear_arith);
        assert(s * b == b * s) by (nonlinear_arith);
        if rem != 0 {
            assert((s * b) * z < wide * z < ((s + 1) * b) * z) by (nonlinear_arith)
                requires
                    s * b < wide < (s + 1) * b,
                    z > 0,
            ;
        }
        lemma_rounded_ratio(s as nat, t as int, rem != 0, k as nat, n as nat, d as nat);
        lemma_nearest_is(n as nat, d as nat, k as nat);
    }
    k
}

proof fn lemma_scale_shift(e: int, c: nat)
    ensures
        scale_up(e) * scale_down(e - c) == pow2(c) * (scale_up(e - c) * scale_down(e)),
        scale_up(e - c) * scale_down(e) > 0,
        scale_down(e) > 0,
{
    let t = e - c;
    if e >= 0 {
        lemma_scales(t, e as nat, c);
        assert(scale_up(t) * 1 == scale_up(t)) by (nonlinear_arith);
    } else {
        lemma_pow2_adds((-e) as nat, c);
        lemma_pow2_pos((-e) as nat);
        assert((c - e) as nat == (-t) as nat);
        let x = pow2((-e) as nat);
        let y = pow2(c);
        assert(1 * (x * y) == y * (1 * x)) by (nonlinear_arith);
    }
}

impl core::ops::Div for Double {
    type Output = Double;

    fn div(self, rhs: Double) -> (r: Double) {
        proof {
            reveal(Double::spec_euclidean_or_real_div);
        }
        let a: u64 = self.bits % SIGN;
        let b: u64 = rhs.bits % SIGN;
        let negative: bool = (self.bits >= SIGN) != (rhs.bits >= SIGN);
        if a > TOP || b > TOP {
            return Double { bits: NAN };
        }
        if a == TOP {
            if b == TOP {
                return Double { bits: NAN };
            }
            return make(negative, TOP);
        }
        if b == TOP {
            return make(negative, 0);
        }
        if b == 0 {
            if a == 0 {
                return Double { bits: NAN };
            }
            return make(negative, TOP);
        }
        let (s1, q1): (u64, u32) = parts(a);
        let (s2, q2): (u64, u32) = parts(b);
        let ghost one = pow2(UNIT as nat);
        let ghost n = magnitude(a as nat) * one;
        let ghost d = magnitude(b as nat);
        proof {
            lemma_pow2_pos(q2 as nat);
            assert(d > 0) by (nonlinear_arith)
                requires
                    d == s2 * pow2(q2 as nat),
                    s2 > 0,
                    pow2(q2 as nat) > 0,
            ;
        }
        if a == 0 {
            proof {
                assert(magnitude(0) * one == 0 && magnitude(0) * d == 0) by (nonlinear_arith)
                    requires
                        magnitude(0) == 0,
                ;
                lemma_nearest_exact(n, d, 0);
            }
            return make(negative, 0);
        }
        let e: i32 = q1 as i32 + UNIT as i32 - q2 as i32;
        let k: u64 = divide(s1, s2, e);
        proof {
            let up = scale_up(e as int);
            let down = scale_down(e as int);
            lemma_scales(e as int, (q1 + UNIT) as nat, q2 as nat);
            lemma_pow2_adds(q1 as nat, UNIT as nat);
            assert((s1 * up) * d == n * (s2 * down)) by (nonlinear_arith)
                requires
                    d == s2 * pow2(q2 as nat),
                    n == (s1 * pow2(q1 as nat)) * one,
                    pow2(q2 as nat) * up == (pow2(q1 as nat) * one) * down,
            ;
            assert(s2 * down > 0) by (nonlinear_arith)
                requires
                    s2 > 0,
                    down > 0,
            ;
            lemma_nearest_equal((s1 * up) as nat, (s2 * down) as nat, n, d);
        }
        make(negative, k)
    }
}

impl vstd::std_specs::ops::DivSpecImpl for Double {
    open spec fn obeys_div_spec() -> bool {
        true
    }

    open spec fn div_req(self, rhs: Double) -> bool {
        true
    }

    open spec fn div_spec(self, rhs: Double) -> Double {
        self / rhs
    }
}

impl Double {
    /// The double nearest to the rational number `n / d`.
    #[verifier::opaque]
    pub open spec fn quotient(n: u64, d: u64) -> Double {
        Double::rounding(false, n as nat * pow2(UNIT as nat), d as nat)
    }

    /// The double nearest to `n / d`. A decimal number is written as the ratio
    /// of its digits to a power of ten.
    #[verifier::when_used_as_spec(quotient)]
    pub fn ratio(n: u64, d: u64) -> (r: Double)
        requires
            d > 0,
        ensures
            r == Double::quotient(n, d),
    {
        proof {
            reveal(Double::quotient);
        }
        let ghost one = pow2(UNIT as nat);
        if n == 0 {
            proof {
                assert(0 * one == 0 && magnitude(0) * d == 0) by (nonlinear_arith)
                    requires
                        magnitude(0) == 0,
                ;
                lemma_nearest_exact(0, d as nat, 0);
            }
            return Double { bits: 0 };
        }
        let k: u64 = divide(n, d, UNIT as i32);
        assert(d * 1 == d) by (nonlinear_arith);
        make(false, k)
    }

    /// The double that equals an integer.
    pub open spec fn integer(i: i32) -> Double {
        if i < 0 {
            -Double::ratio((-i) as u64, 1)
        } else {
            Double::ratio(i as u64, 1)
        }
    }

    #[verifier::when_used_as_spec(integer)]
    pub fn from_int(i: i32) -> (r: Double)
        ensures
            r == Double::integer(i),
    {
        if i < 0 {
            let size: i64 = -(i as i64);
            Double::ratio(size as u64, 1).negated()
        } else {
            Double::ratio(i as u64, 1)
        }
    }
}

} // verus!
