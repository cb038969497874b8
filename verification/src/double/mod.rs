//! Double-precision numbers, computed in integer arithmetic.
//!
//! A [`Double`](number::Double) is the bit pattern of an IEEE 754 binary64
//! number. Every operation has the exact result as its meaning, rounded to the
//! nearest double with ties to even, and is proved to return just that.
pub mod arith;
pub mod errors;
pub mod estimates;
pub mod facts;
pub mod grid;
pub mod number;
pub mod remainder;
pub mod root;
pub mod rounding;
