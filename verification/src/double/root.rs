//! The square root.
use crate::double::arith::{make, parts, UNIT};
use crate::double::grid::{lemma_increasing, lemma_step, magnitude, TOP};
use crate::double::number::{Double, NAN, SIGN};
use crate::double::rounding::{
    bit_length, lemma_pow2_52, located, power_of_two, round, rounded, settled, Half,
};
use vstd::arithmetic::power2::{
    lemma2_to64, lemma_pow2_adds, lemma_pow2_pos, lemma_pow2_strictly_increases, lemma_pow2_unfold,
    pow2,
};
use vstd::prelude::*;

verus! {

/// Index `k` is the one nearest to the square root of `n`, an even index
/// winning a tie.
pub open spec fn root_rounds_to(n: nat, k: nat) -> bool {
    &&& k <= TOP
    &&& k > 0 ==> {
        let edge = magnitude((k - 1) as nat) + magnitude(k);
        edge * edge < 4 * n || (edge * edge == 4 * n && k % 2 == 0)
    }
    &&& k < TOP ==> {
        let edge = magnitude(k) + magnitude(k + 1);
        4 * n < edge * edge || (edge * edge == 4 * n && k % 2 == 0)
    }
}

/// The index nearest to the square root of `n`.
pub open spec fn nearest_root(n: nat) -> nat {
    choose|k: nat| root_rounds_to(n, k)
}

/// A number has at most one nearest root.
pub proof fn lemma_root_unique(n: nat, k1: nat, k2: nat)
    requires
        root_rounds_to(n, k1),
        root_rounds_to(n, k2),
    ensures
        k1 == k2,
{
    lemma_root_ordered(n, k1, k2);
    lemma_root_ordered(n, k2, k1);
}

proof fn lemma_root_ordered(n: nat, k1: nat, k2: nat)
    requires
        root_rounds_to(n, k1),
        root_rounds_to(n, k2),
    ensures
        k1 <= k2,
{
    if k1 > k2 {
        let a = magnitude((k1 - 1) as nat) + magnitude(k1);
        let b = magnitude(k2) + magnitude(k2 + 1);
        if k1 > k2 + 1 {
            lemma_increasing(k2, (k1 - 1) as nat);
            lemma_increasing(k2 + 1, k1);
            assert(a * a > b * b) by (nonlinear_arith)
                requires
                    a > b,
                    b >= 0,
            ;
        } else {
            assert(a == b);
        }
    }
}

/// Every number has a nearest root.
pub proof fn lemma_nearest_root(n: nat)
    ensures
        root_rounds_to(n, nearest_root(n)),
{
    let top = magnitude(TOP as nat);
    if n < top * top {
        let f = lemma_root_floor(n, TOP as nat);
        let lo = magnitude(f);
        let hi = magnitude(f + 1);
        let middle = lo + hi;
        lemma_step(f);
        lemma_step(f + 1);
        assert(f + 1 + 1 == f + 2);
        assert(4 * n < (hi + magnitude(f + 2)) * (hi + magnitude(f + 2))) by (nonlinear_arith)
            requires
                n < hi * hi,
                hi < magnitude(f + 2),
                hi >= 0,
        ;
        if f > 0 {
            lemma_step((f - 1) as nat);
            let edge = magnitude((f - 1) as nat) + lo;
            assert(edge * edge < 4 * n) by (nonlinear_arith)
                requires
                    edge < 2 * lo,
                    edge >= 0,
                    lo * lo <= n,
            ;
        }
        if 4 * n < middle * middle || (4 * n == middle * middle && f % 2 == 0) {
            assert(root_rounds_to(n, f));
        } else {
            assert(root_rounds_to(n, f + 1));
        }
    } else {
        let down = magnitude((TOP - 1) as nat);
        lemma_step((TOP - 1) as nat);
        assert((down + top) * (down + top) < 4 * n) by (nonlinear_arith)
            requires
                top * top <= n,
                0 <= down < top,
        ;
        assert(root_rounds_to(n, TOP as nat));
    }
}

proof fn lemma_root_floor(n: nat, k: nat) -> (f: nat)
    requires
        n < magnitude(k) * magnitude(k),
    ensures
        f < k,
        magnitude(f) * magnitude(f) <= n < magnitude(f + 1) * magnitude(f + 1),
    decreases k,
{
    if k == 0 {
        assert(magnitude(0) * magnitude(0) == 0) by (nonlinear_arith)
            requires
                magnitude(0) == 0,
        ;
        0
    } else if magnitude((k - 1) as nat) * magnitude((k - 1) as nat) <= n {
        (k - 1) as nat
    } else {
        lemma_root_floor(n, (k - 1) as nat)
    }
}

/// The integer square root.
fn integer_root(n: u128) -> (r: u64)
    requires
        n < 0x4000_0000_0000_0000_0000_0000_0000_0000,
    ensures
        r * r <= n < (r + 1) * (r + 1),
        r < 0x8000_0000_0000_0000,
{
    let mut r: u64 = 0;
    let mut bit: u64 = 0x8000_0000_0000_0000;
    let mut left: u32 = 63;
    proof {
        lemma_pow2_63();
    }
    while left > 0
        invariant
            bit == pow2(left as nat),
            r * r <= n,
            n < (r + bit) * (r + bit),
            r + bit <= 0x8000_0000_0000_0000,
        decreases left,
    {
        proof {
            lemma_pow2_unfold(left as nat);
            lemma_pow2_pos((left - 1) as nat);
        }
        bit = bit / 2;
        left = left - 1;
        let c: u128 = r as u128 + bit as u128;
        assert(c * c <= 0x8000_0000_0000_0000 * 0x8000_0000_0000_0000) by (nonlinear_arith)
            requires
                0 <= c <= 0x8000_0000_0000_0000,
        ;
        if c * c <= n {
            r = c as u64;
        }
    }
    proof {
        lemma2_to64();
    }
    r
}

proof fn lemma_pow2_63()
    ensures
        pow2(62) == 0x4000_0000_0000_0000,
        pow2(63) == 0x8000_0000_0000_0000,
{
    lemma2_to64();
    lemma_pow2_unfold(64);
    lemma_pow2_unfold(63);
}

/// A root that the scaled significand brackets rounds to the same index.
proof fn lemma_rounded_root(s: nat, t: nat, sticky: bool, k: nat, n: nat)
    requires
        rounded(s, t as int, sticky, k),
        ({
            let low = s * pow2(t);
            let high = (s + 1) * pow2(t);
            if sticky {
                low * low < n < high * high
            } else {
                low * low == n
            }
        }),
    ensures
        root_rounds_to(n, k),
{
    let (f, half): (nat, Half) = choose|f: nat, half: Half| #[trigger]
        located(s, t as int, sticky, f, half) && k == settled(f, half);
    let unit = pow2(t);
    let low = s * unit;
    let high = (s + 1) * unit;
    lemma_pow2_pos(t);
    assert(low < high) by (nonlinear_arith)
        requires
            low == s * unit,
            high == (s + 1) * unit,
            unit > 0,
    ;
    let lo = magnitude(f);
    assert(lo * 1 == lo) by (nonlinear_arith);
    assert(lo <= low);
    if f > 0 {
        lemma_step((f - 1) as nat);
        let edge = magnitude((f - 1) as nat) + lo;
        assert(edge * edge < 4 * n) by (nonlinear_arith)
            requires
                edge < 2 * lo,
                edge >= 0,
                lo <= low,
                low * low <= n,
        ;
    }
    if f < TOP {
        let hi = magnitude(f + 1);
        let top = magnitude(f + 2);
        let middle = lo + hi;
        lemma_step(f);
        lemma_step(f + 1);
        assert(f + 1 + 1 == f + 2);
        assert(hi * 1 == hi) by (nonlinear_arith);
        assert(middle * 1 == middle) by (nonlinear_arith);
        assert(4 * n < (hi + top) * (hi + top)) by (nonlinear_arith)
            requires
                n < high * high || n == low * low,
                n == low * low || high <= hi,
                low < hi || high <= hi,
                low < high,
                low >= 0,
                hi < top,
        ;
        if sticky {
            if 2 * high <= middle {
                assert(4 * n < middle * middle) by (nonlinear_arith)
                    requires
                        n < high * high,
                        2 * high <= middle,
                        high >= 0,
                ;
            } else {
                assert(4 * n > middle * middle) by (nonlinear_arith)
                    requires
                        n > low * low,
                        2 * low >= middle,
                        middle >= 0,
                ;
            }
        } else {
            assert(2 * low < middle ==> 4 * n < middle * middle) by (nonlinear_arith)
                requires
                    n == low * low,
                    low >= 0,
            ;
            assert(2 * low > middle ==> 4 * n > middle * middle) by (nonlinear_arith)
                requires
                    n == low * low,
                    middle >= 0,
            ;
            assert(2 * low == middle ==> 4 * n == middle * middle) by (nonlinear_arith)
                requires
                    n == low * low,
            ;
        }
    }
}

impl Double {
    /// The square root, rounded.
    #[verifier::opaque]
    pub open spec fn root(self) -> Double {
        if self.nan() || (self.negative() && self.index() > 0) {
            Double::not_a_number()
        } else if self.index() == 0 || self.infinite() {
            self
        } else {
            Double::of(false, nearest_root(magnitude(self.index()) * pow2(UNIT as nat)))
        }
    }

    /// The square root.
    #[verifier::when_used_as_spec(root)]
    pub fn sqrt(self) -> (r: Double)
        ensures
            r == self.root(),
    {
        proof {
            reveal(Double::root);
        }
        let a: u64 = self.bits % SIGN;
        if a > TOP || (self.bits >= SIGN && a > 0) {
            return Double { bits: NAN };
        }
        if a == 0 || a == TOP {
            return self;
        }
        let (s, q): (u64, u32) = parts(a);
        let b: u32 = bit_length(s as u128);
        proof {
            lemma_pow2_52();
            if b > 53 {
                if b > 54 {
                    lemma_pow2_strictly_increases(53, (b - 1) as nat);
                }
                assert(false);
            }
        }
        let c: u32 = if (q + b) % 2 == 0 { 126 - b } else { 125 - b };
        let p: u128 = power_of_two(c);
        let j: u32 = (q + UNIT - c) / 2;
        proof {
            lemma_wide(s as nat, b as nat, c as nat);
        }
        let wide: u128 = s as u128 * p;
        let r: u64 = integer_root(wide);
        assert(r >= 0x40_0000_0000_0000) by (nonlinear_arith)
            requires
                wide < (r + 1) * (r + 1),
                wide >= 0x1000_0000_0000_0000_0000_0000_0000_0000,
                r >= 0,
        ;
        let exact: bool = r as u128 * r as u128 == wide;
        let k: u64 = round(r as u128, j as i32, !exact);
        proof {
            let u = pow2(j as nat);
            let n = magnitude(a as nat) * pow2(UNIT as nat);
            assert(2 * j + c == q + UNIT);
            lemma_pow2_adds(j as nat, j as nat);
            lemma_pow2_adds((2 * j) as nat, c as nat);
            lemma_pow2_adds(q as nat, UNIT as nat);
            assert(n == wide * (u * u)) by (nonlinear_arith)
                requires
                    n == (s * pow2(q as nat)) * pow2(UNIT as nat),
                    wide == s * p,
                    pow2(q as nat) * pow2(UNIT as nat) == (u * u) * p,
            ;
            let low = r * u;
            let high = (r + 1) * u;
            lemma_pow2_pos(j as nat);
            assert(low * low == (r * r) * (u * u) && high * high == ((r + 1) * (r + 1)) * (u * u)) by (nonlinear_arith)
                requires
                    low == r * u,
                    high == (r + 1) * u,
            ;
            assert(u * u > 0) by (nonlinear_arith)
                requires
                    u > 0,
            ;
            assert(high * high > n && low * low <= n && (!exact ==> low * low < n) && (exact ==> low * low == n)) by (nonlinear_arith)
                requires
                    low * low == (r * r) * (u * u),
                    high * high == ((r + 1) * (r + 1)) * (u * u),
                    n == wide * (u * u),
                    r * r <= wide < (r + 1) * (r + 1),
                    exact == (r * r == wide),
                    u * u > 0,
            ;
            lemma_rounded_root(r as nat, j as nat, !exact, k as nat, n);
            lemma_root_unique(n, k as nat, nearest_root(n));
        }
        make(false, k)
    }
}

proof fn lemma_wide(s: nat, b: nat, c: nat)
    requires
        0 < b <= 53,
        pow2((b - 1) as nat) <= s < pow2(b),
        c == 126 - b || c == 125 - b,
    ensures
        0x1000_0000_0000_0000_0000_0000_0000_0000 <= s * pow2(c)
            < 0x4000_0000_0000_0000_0000_0000_0000_0000,
{
    lemma_pow2_63();
    lemma2_to64();
    lemma_pow2_adds(64, 62);
    lemma_pow2_unfold(126);
    lemma_pow2_unfold(125);
    assert(pow2(126) == 0x4000_0000_0000_0000_0000_0000_0000_0000);
    lemma_pow2_adds(b, c);
    lemma_pow2_adds((b - 1) as nat, c);
    lemma_pow2_pos(c);
    assert(pow2((b - 1) as nat) * pow2(c) <= s * pow2(c) < pow2(b) * pow2(c)) by (nonlinear_arith)
        requires
            pow2((b - 1) as nat) <= s < pow2(b),
            pow2(c) > 0,
    ;
}

} // verus!
