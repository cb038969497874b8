//! The remainder of a division.
use crate::double::arith::{make, parts};
use crate::double::grid::{
    lemma_magnitude_at, lemma_nearest_exact, lemma_nearest_is, lemma_order, magnitude, FRACTION,
    TOP,
};
use crate::double::number::{Double, NAN, SIGN};
use crate::double::rounding::{lemma_rounded_ratio, round};
use vstd::arithmetic::power2::{
    lemma2_to64, lemma_pow2_adds, lemma_pow2_pos, lemma_pow2_unfold, pow2,
};
use vstd::prelude::*;

verus! {

impl Double {
    /// What is left of `self` after as many whole `rhs` as fit are taken away
    /// from its magnitude. It has the sign of `self`.
    #[verifier::opaque]
    pub open spec fn spec_euclidean_mod(self, rhs: Double) -> Double {
        if self.nan() || rhs.nan() || self.infinite() || rhs.index() == 0 {
            Double::not_a_number()
        } else if rhs.infinite() {
            self
        } else {
            Double::rounding(
                self.negative(),
                magnitude(self.index()) % magnitude(rhs.index()),
                1,
            )
        }
    }
}

/// A significand of at most 53 bits is on the grid, whatever its exponent.
pub proof fn lemma_representable(m: nat, q: nat) -> (k: nat)
    requires
        m < 2 * FRACTION,
        q <= 2045,
    ensures
        k < TOP,
        magnitude(k) == m * pow2(q),
    decreases q,
{
    if q == 0 || m >= FRACTION {
        lemma_magnitude_at(m, q);
        q * FRACTION as nat + m
    } else {
        lemma_pow2_unfold(q);
        assert((2 * m) * pow2((q - 1) as nat) == m * pow2(q)) by (nonlinear_arith)
            requires
                pow2(q) == 2 * pow2((q - 1) as nat),
        ;
        lemma_representable(2 * m, (q - 1) as nat)
    }
}

proof fn lemma_mod_scaled(x: nat, y: nat, g: nat)
    requires
        y > 0,
        g > 0,
    ensures
        (x * g) % (y * g) == (x % y) * g,
{
    let q = x / y;
    let r = x % y;
    vstd::arithmetic::div_mod::lemma_fundamental_div_mod(x as int, y as int);
    assert(x * g == q * (y * g) + r * g && 0 <= r * g < y * g) by (nonlinear_arith)
        requires
            x == y * q + r,
            0 <= r < y,
            g > 0,
    ;
    vstd::arithmetic::div_mod::lemma_fundamental_div_mod_converse((x * g) as int, (y * g) as int, q as int, (r * g) as int);
}

/// The remainder of `s1` times two to the power of `gap`, divided by `s2`.
fn scaled_remainder(s1: u64, gap: u32, s2: u64) -> (r: u64)
    requires
        0 < s2 < 2 * FRACTION,
    ensures
        r == (s1 as nat * pow2(gap as nat)) % (s2 as nat),
        r < s2,
{
    let mut r: u64 = s1 % s2;
    let mut i: u32 = 0;
    proof {
        lemma2_to64();
        assert(s1 * 1 == s1);
    }
    while i < gap
        invariant
            i <= gap,
            r < s2 < 2 * FRACTION,
            r == (s1 as nat * pow2(i as nat)) % (s2 as nat),
        decreases gap - i,
    {
        proof {
            let x = s1 as int * pow2(i as nat);
            lemma_pow2_unfold((i + 1) as nat);
            assert(s1 * pow2((i + 1) as nat) == 2 * x) by (nonlinear_arith)
                requires
                    x == s1 as int * pow2(i as nat),
                    pow2((i + 1) as nat) == 2 * pow2(i as nat),
            ;
            vstd::arithmetic::div_mod::lemma_mul_mod_noop_right(2, x, s2 as int);
            assert((2 * r) % (s2 as int) == (2 * x) % (s2 as int));
        }
        r = (2 * r) % s2;
        i = i + 1;
    }
    r
}

impl core::ops::Rem for Double {
    type Output = Double;

    fn rem(self, rhs: Double) -> (r: Double) {
        proof {
            reveal(Double::spec_euclidean_mod);
        }
        let a: u64 = self.bits % SIGN;
        let b: u64 = rhs.bits % SIGN;
        if a >= TOP || b > TOP || b == 0 {
            return Double { bits: NAN };
        }
        if b == TOP {
            return self;
        }
        let negative: bool = self.bits >= SIGN;
        let (s1, q1): (u64, u32) = parts(a);
        let (s2, q2): (u64, u32) = parts(b);
        let ghost n = magnitude(a as nat) % magnitude(b as nat);
        if q1 < q2 {
            proof {
                assert(a < b);
                lemma_order(a as nat, b as nat);
                lemma_order(0, b as nat);
                vstd::arithmetic::div_mod::lemma_small_mod(magnitude(a as nat), magnitude(b as nat));
                lemma_nearest_exact(n, 1, a as nat);
            }
            return make(negative, a);
        }
        let r: u64 = scaled_remainder(s1, q1 - q2, s2);
        let k: u64 = round(r as u128, q2 as i32, false);
        proof {
            let gap = (q1 - q2) as nat;
            let g = pow2(q2 as nat);
            let x = s1 as nat * pow2(gap);
            lemma_pow2_pos(q2 as nat);
            lemma_pow2_adds(gap, q2 as nat);
            lemma_mod_scaled(x, s2 as nat, g);
            assert(magnitude(a as nat) == x * g) by (nonlinear_arith)
                requires
                    magnitude(a as nat) == s1 * pow2(q1 as nat),
                    pow2(q1 as nat) == pow2(gap) * g,
                    x == s1 as nat * pow2(gap),
            ;
            assert(n == r * g);
            assert((r * g) * 1 == n * 1);
            lemma_rounded_ratio(r as nat, q2 as int, false, k as nat, n, 1);
            lemma_nearest_is(n, 1, k as nat);
        }
        make(negative, k)
    }
}

impl vstd::std_specs::ops::RemSpecImpl for Double {
    open spec fn obeys_rem_spec() -> bool {
        true
    }

    open spec fn rem_req(self, rhs: Double) -> bool {
        true
    }

    open spec fn rem_spec(self, rhs: Double) -> Double {
        self % rhs
    }
}

/// The remainder of two finite numbers is exact: no rounding takes place.
pub proof fn remainder_is_exact(a: Double, b: Double)
    requires
        a.finite(),
        b.finite(),
        b.index() > 0,
    ensures
        (a % b).finite(),
        (a % b).negative() == a.negative(),
        magnitude((a % b).index()) == magnitude(a.index()) % magnitude(b.index()),
        magnitude((a % b).index()) < magnitude(b.index()),
{
    reveal(Double::spec_euclidean_mod);
    let x = magnitude(a.index());
    let y = magnitude(b.index());
    lemma_order(0, b.index());
    let n = x % y;
    let (s1, q1) = lemma_parts(a.index());
    let (s2, q2) = lemma_parts(b.index());
    if a.index() < b.index() {
        lemma_order(a.index(), b.index());
        vstd::arithmetic::div_mod::lemma_small_mod(x, y);
        lemma_nearest_exact(n, 1, a.index());
    } else {
        assert(q1 >= q2) by {
            if q1 < q2 {
                assert(q1 * FRACTION + FRACTION <= q2 * FRACTION) by (nonlinear_arith)
                    requires
                        q1 + 1 <= q2,
                ;
            }
        }
        let gap = (q1 - q2) as nat;
        let g = pow2(q2);
        let m = (s1 * pow2(gap)) % s2;
        lemma_pow2_pos(q2);
        lemma_pow2_adds(gap, q2);
        lemma_mod_scaled(s1 * pow2(gap), s2, g);
        assert(x == (s1 * pow2(gap)) * g) by (nonlinear_arith)
            requires
                x == s1 * pow2(q1),
                pow2(q1) == pow2(gap) * g,
        ;
        assert(n == m * g);
        let k = lemma_representable(m, q2);
        lemma_nearest_exact(n, 1, k);
    }
}

/// A magnitude is a significand of at most 53 bits with an exponent.
pub proof fn lemma_parts(k: nat) -> (r: (nat, nat))
    requires
        k < TOP,
    ensures
        r.0 < 2 * FRACTION,
        r.1 <= 2045,
        r.1 > 0 ==> r.0 >= FRACTION,
        magnitude(k) == r.0 * pow2(r.1),
        r.0 == 0 <==> k == 0,
        k == r.1 * FRACTION + r.0,
{
    lemma2_to64();
    if k < FRACTION {
        (k, 0)
    } else {
        let s = k % (FRACTION as nat) + FRACTION as nat;
        let q = (k / (FRACTION as nat) - 1) as nat;
        lemma_magnitude_at(s, q);
        (s, q)
    }
}

} // verus!
