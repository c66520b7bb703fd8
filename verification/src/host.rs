//! What an embedding supplies to the evaluator.

use crate::errortype::CPSError;
use crate::value::Value;
use vstd::prelude::*;

verus! {

/// The operations that the library does not define itself. Real numbers are
/// IEEE-754 doubles, held by the library as their bit patterns; the library
/// has no floating point of its own, so every operation on a real is asked of
/// the host. The builtin routines (LENGTH, MID, RAND and the rest) are asked
/// of the host too. Of an operation on reals nothing is assumed but that it
/// answers the same arguments the same way, which each names as a spec
/// function; the library's contracts say what it does with the answer.
pub trait Host {
    /// `i as f64`.
    fn real_from_integer(&self, i: i64) -> (res: u64)
        ensures
            res == self.real_of(i),
    ;

    /// What `real_from_integer` answers: the same arguments get the same answer.
    closed spec fn real_of(&self, i: i64) -> u64 {
        arbitrary()
    }

    /// `r as i64` (saturating, NaN to 0).
    fn real_to_integer(&self, r: u64) -> (res: i64)
        ensures
            res == self.integer_of(r),
    ;

    /// What `real_to_integer` answers: the same arguments get the same answer.
    closed spec fn integer_of(&self, r: u64) -> i64 {
        arbitrary()
    }

    /// `r.fract() != 0.0`.
    fn real_has_fraction(&self, r: u64) -> (res: bool)
        ensures
            res == self.has_fraction_of(r),
    ;

    /// What `real_has_fraction` answers: the same arguments get the same answer.
    closed spec fn has_fraction_of(&self, r: u64) -> bool {
        arbitrary()
    }

    /// `r == 0.0`.
    fn real_is_zero(&self, r: u64) -> (res: bool)
        ensures
            res == self.is_zero_of(r),
    ;

    /// What `real_is_zero` answers: the same arguments get the same answer.
    closed spec fn is_zero_of(&self, r: u64) -> bool {
        arbitrary()
    }

    /// `a + b`.
    fn real_add(&self, a: u64, b: u64) -> (res: u64)
        ensures
            res == self.sum_of(a, b),
    ;

    /// What `real_add` answers: the same arguments get the same answer.
    closed spec fn sum_of(&self, a: u64, b: u64) -> u64 {
        arbitrary()
    }

    /// `a - b`.
    fn real_sub(&self, a: u64, b: u64) -> (res: u64)
        ensures
            res == self.difference_of(a, b),
    ;

    /// What `real_sub` answers: the same arguments get the same answer.
    closed spec fn difference_of(&self, a: u64, b: u64) -> u64 {
        arbitrary()
    }

    /// `a * b`.
    fn real_mul(&self, a: u64, b: u64) -> (res: u64)
        ensures
            res == self.product_of(a, b),
    ;

    /// What `real_mul` answers: the same arguments get the same answer.
    closed spec fn product_of(&self, a: u64, b: u64) -> u64 {
        arbitrary()
    }

    /// `a / b`.
    fn real_div(&self, a: u64, b: u64) -> (res: u64)
        ensures
            res == self.quotient_of(a, b),
    ;

    /// What `real_div` answers: the same arguments get the same answer.
    closed spec fn quotient_of(&self, a: u64, b: u64) -> u64 {
        arbitrary()
    }

    /// `a % b`.
    fn real_rem(&self, a: u64, b: u64) -> (res: u64)
        ensures
            res == self.remainder_of(a, b),
    ;

    /// What `real_rem` answers: the same arguments get the same answer.
    closed spec fn remainder_of(&self, a: u64, b: u64) -> u64 {
        arbitrary()
    }

    /// `(a / b).floor()`.
    fn real_floor_div(&self, a: u64, b: u64) -> (res: u64)
        ensures
            res == self.floor_quotient_of(a, b),
    ;

    /// What `real_floor_div` answers: the same arguments get the same answer.
    closed spec fn floor_quotient_of(&self, a: u64, b: u64) -> u64 {
        arbitrary()
    }

    /// `a.powf(b)`.
    fn real_pow(&self, a: u64, b: u64) -> (res: u64)
        ensures
            res == self.power_of(a, b),
    ;

    /// What `real_pow` answers: the same arguments get the same answer.
    closed spec fn power_of(&self, a: u64, b: u64) -> u64 {
        arbitrary()
    }

    /// `a == b`.
    fn real_eq(&self, a: u64, b: u64) -> (res: bool)
        ensures
            res == self.equal_of(a, b),
    ;

    /// What `real_eq` answers: the same arguments get the same answer.
    closed spec fn equal_of(&self, a: u64, b: u64) -> bool {
        arbitrary()
    }

    /// `(a - b).abs() < f64::EPSILON`.
    fn real_close(&self, a: u64, b: u64) -> (res: bool)
        ensures
            res == self.close_of(a, b),
    ;

    /// What `real_close` answers: the same arguments get the same answer.
    closed spec fn close_of(&self, a: u64, b: u64) -> bool {
        arbitrary()
    }

    /// `a < b`.
    fn real_lt(&self, a: u64, b: u64) -> (res: bool)
        ensures
            res == self.less_of(a, b),
    ;

    /// What `real_lt` answers: the same arguments get the same answer.
    closed spec fn less_of(&self, a: u64, b: u64) -> bool {
        arbitrary()
    }

    /// `a <= b`.
    fn real_le(&self, a: u64, b: u64) -> (res: bool)
        ensures
            res == self.at_most_of(a, b),
    ;

    /// What `real_le` answers: the same arguments get the same answer.
    closed spec fn at_most_of(&self, a: u64, b: u64) -> bool {
        arbitrary()
    }

    /// `r.to_string()`.
    fn real_to_text(&self, r: u64) -> String;

    /// `format!("{:?}", r)`.
    fn real_debug_text(&self, r: u64) -> String;

    /// `s.parse::<f64>()`, as a bit pattern.
    fn real_parse(&self, s: &str) -> Option<u64>;

    /// Runs the builtin routine `name` on the evaluated arguments.
    fn call_builtin(&mut self, name: &str, args: &Vec<Value>) -> Result<Option<Value>, CPSError>;
}

} // verus!
