//! The number type: its parts, its order and the operations that round nothing.
use crate::double::grid::{lemma_increasing, lemma_order, magnitude, nearest, TOP};
use vstd::prelude::*;

verus! {

/// The weight of the sign in a bit pattern.
pub const SIGN: u64 = 0x8000_0000_0000_0000;

/// The bit pattern that every operation without a numeric result gives.
pub const NAN: u64 = 0x7ff8_0000_0000_0000;

/// An IEEE 754 binary64 number, held as its bit pattern.
#[derive(Clone, Copy, Debug)]
pub struct Double {
    pub bits: u64,
}

/// The absolute value of an integer.
pub open spec fn distance(x: int) -> nat {
    if x < 0 {
        (-x) as nat
    } else {
        x as nat
    }
}

impl Double {
    /// Whether the sign bit is set. Zero has a sign too.
    pub open spec fn negative(self) -> bool {
        self.bits >= SIGN
    }

    /// The index of the magnitude on the grid.
    pub open spec fn index(self) -> nat {
        (self.bits % SIGN) as nat
    }

    /// Not a number.
    pub open spec fn nan(self) -> bool {
        self.index() > TOP
    }

    pub open spec fn infinite(self) -> bool {
        self.index() == TOP
    }

    pub open spec fn finite(self) -> bool {
        self.index() < TOP
    }

    /// The value in units of the least positive double. An infinity has the
    /// value that lies one step beyond the largest finite one.
    pub open spec fn value(self) -> int {
        if self.negative() {
            -(magnitude(self.index()) as int)
        } else {
            magnitude(self.index()) as int
        }
    }

    /// The number with the given sign and magnitude.
    pub open spec fn of(negative: bool, index: nat) -> Double {
        Double {
            bits: if negative {
                (SIGN + index) as u64
            } else {
                index as u64
            },
        }
    }

    pub open spec fn not_a_number() -> Double {
        Double { bits: NAN }
    }

    /// The double nearest to `n / d` times two to the power of -1074, with the given sign.
    pub open spec fn rounding(negative: bool, n: nat, d: nat) -> Double {
        Double::of(negative, nearest(n, d))
    }

    /// `self < rhs`. False where either is not a number.
    pub open spec fn spec_lt(self, rhs: Double) -> bool {
        !self.nan() && !rhs.nan() && self.value() < rhs.value()
    }

    /// `self <= rhs`. False where either is not a number.
    pub open spec fn spec_le(self, rhs: Double) -> bool {
        !self.nan() && !rhs.nan() && self.value() <= rhs.value()
    }

    /// `self > rhs`. False where either is not a number.
    pub open spec fn spec_gt(self, rhs: Double) -> bool {
        rhs < self
    }

    /// `self >= rhs`. False where either is not a number.
    pub open spec fn spec_ge(self, rhs: Double) -> bool {
        rhs <= self
    }

    /// The same number with the other sign.
    pub open spec fn spec_neg(self) -> Double {
        Double::of(!self.negative(), self.index())
    }

    /// The same number without its sign.
    pub open spec fn magnitude_of(self) -> Double {
        Double::of(false, self.index())
    }

    /// The larger of two numbers; the other one where one is not a number.
    pub open spec fn larger(self, rhs: Double) -> Double {
        if self.nan() || self < rhs {
            rhs
        } else {
            self
        }
    }

    /// The smaller of two numbers; the other one where one is not a number.
    pub open spec fn smaller(self, rhs: Double) -> Double {
        if self.nan() || rhs < self {
            rhs
        } else {
            self
        }
    }

    /// The number moved into the given range; not a number stays so.
    pub open spec fn within(self, low: Double, high: Double) -> Double {
        if self < low {
            low
        } else if self > high {
            high
        } else {
            self
        }
    }

    pub fn from_bits(bits: u64) -> (r: Double)
        ensures
            r.bits == bits,
    {
        Double { bits }
    }

    pub fn to_bits(self) -> (bits: u64)
        ensures
            bits == self.bits,
    {
        self.bits
    }

    pub fn make_nan() -> (r: Double)
        ensures
            r == Double::not_a_number(),
            r.nan(),
    {
        Double { bits: NAN }
    }

    pub fn is_nan(self) -> (r: bool)
        ensures
            r == self.nan(),
    {
        self.bits % SIGN > TOP
    }

    /// Whether the number equals zero, of either sign.
    pub fn is_zero(self) -> (r: bool)
        ensures
            r == (!self.nan() && self.value() == 0),
    {
        proof {
            if self.index() > 0 {
                lemma_increasing(0, self.index());
            }
        }
        self.bits % SIGN == 0
    }

    /// Whether `self < rhs`.
    pub fn below(self, rhs: Double) -> (r: bool)
        ensures
            r == (self < rhs),
    {
        let a: u64 = self.bits % SIGN;
        let b: u64 = rhs.bits % SIGN;
        proof {
            lemma_order(a as nat, b as nat);
            lemma_order(a as nat, 0);
            lemma_order(b as nat, 0);
        }
        if a > TOP || b > TOP {
            false
        } else if self.bits >= SIGN {
            if rhs.bits >= SIGN {
                b < a
            } else {
                a > 0 || b > 0
            }
        } else if rhs.bits >= SIGN {
            false
        } else {
            a < b
        }
    }

    /// Whether `self <= rhs`.
    pub fn at_most(self, rhs: Double) -> (r: bool)
        ensures
            r == (self <= rhs),
    {
        !self.is_nan() && !rhs.is_nan() && !rhs.below(self)
    }

    /// The absolute value.
    #[verifier::when_used_as_spec(magnitude_of)]
    pub fn abs(self) -> (r: Double)
        ensures
            r == self.magnitude_of(),
    {
        Double { bits: self.bits % SIGN }
    }

    /// The number with the other sign.
    pub fn negated(self) -> (r: Double)
        ensures
            r == -self,
    {
        if self.bits >= SIGN {
            Double { bits: self.bits - SIGN }
        } else {
            Double { bits: self.bits + SIGN }
        }
    }

    #[verifier::when_used_as_spec(larger)]
    pub fn max(self, rhs: Double) -> (r: Double)
        ensures
            r == self.larger(rhs),
    {
        if self.is_nan() || self.below(rhs) {
            rhs
        } else {
            self
        }
    }

    #[verifier::when_used_as_spec(smaller)]
    pub fn min(self, rhs: Double) -> (r: Double)
        ensures
            r == self.smaller(rhs),
    {
        if self.is_nan() || rhs.below(self) {
            rhs
        } else {
            self
        }
    }

    #[verifier::when_used_as_spec(within)]
    pub fn clamp(self, low: Double, high: Double) -> (r: Double)
        requires
            low <= high,
        ensures
            r == self.within(low, high),
    {
        if self.below(low) {
            low
        } else if high.below(self) {
            high
        } else {
            self
        }
    }
}

} // verus!
