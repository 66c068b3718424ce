//! Double-precision numbers, carried by their bit patterns.
//!
//! The library compares such numbers and hands them on; it does no arithmetic on
//! them.
use vstd::prelude::*;

verus! {

/// The bit pattern of an IEEE 754 binary64 number.
#[derive(Debug, Clone, Copy)]
pub struct Double {
    pub bits: u64,
}

impl Double {
    /// The bits without the sign.
    pub open spec fn magnitude(self) -> int {
        if self.bits < 0x8000_0000_0000_0000 {
            self.bits as int
        } else {
            self.bits - 0x8000_0000_0000_0000
        }
    }

    /// Whether the pattern is that of no number.
    pub open spec fn is_nan(self) -> bool {
        self.magnitude() > 0x7ff0_0000_0000_0000
    }

    /// An integer that orders the patterns of numbers as the numbers are ordered.
    pub open spec fn rank(self) -> int {
        if self.bits < 0x8000_0000_0000_0000 {
            self.magnitude()
        } else {
            -self.magnitude()
        }
    }

    /// `self <= other`, which holds of no pattern of no number.
    pub open spec fn at_most(self, other: Double) -> bool {
        !self.is_nan() && !other.is_nan() && self.rank() <= other.rank()
    }

    /// `self > other`, which holds of no pattern of no number.
    pub open spec fn above(self, other: Double) -> bool {
        !self.is_nan() && !other.is_nan() && self.rank() > other.rank()
    }

    fn strip_sign(self) -> (r: u64)
        ensures
            r == self.magnitude(),
    {
        if self.bits < 0x8000_0000_0000_0000 {
            self.bits
        } else {
            self.bits - 0x8000_0000_0000_0000
        }
    }

    /// The rank, `None` for no number.
    fn order(self) -> (r: Option<i64>)
        ensures
            r is None <==> self.is_nan(),
            r matches Some(k) ==> k == self.rank(),
    {
        let m: u64 = self.strip_sign();
        if m > 0x7ff0_0000_0000_0000 {
            None
        } else if self.bits < 0x8000_0000_0000_0000 {
            Some(m as i64)
        } else {
            Some(-(m as i64))
        }
    }

    /// Whether `self <= other`.
    pub fn le(self, other: Double) -> (r: bool)
        ensures
            r == self.at_most(other),
    {
        match (self.order(), other.order()) {
            (Some(a), Some(b)) => a <= b,
            _ => false,
        }
    }

    /// Whether `self > other`.
    pub fn gt(self, other: Double) -> (r: bool)
        ensures
            r == self.above(other),
    {
        match (self.order(), other.order()) {
            (Some(a), Some(b)) => a > b,
            _ => false,
        }
    }
}

/// Of two numbers exactly one of `<=` and `>` holds; of anything else, neither does.
pub proof fn law_order_is_decided(a: Double, b: Double)
    ensures
        !a.is_nan() && !b.is_nan() ==> a.at_most(b) != a.above(b),
        a.is_nan() || b.is_nan() ==> !a.at_most(b) && !a.above(b),
{
}

/// A pattern is that of no number exactly where its exponent is all ones and its fraction
/// is not zero.
pub proof fn law_patterns_of_no_number(a: Double)
    ensures
        a.is_nan() <==> (a.bits / 0x10_0000_0000_0000) % 0x800 == 0x7ff && a.bits
            % 0x10_0000_0000_0000 != 0,
{
}

/// Numbers that are not negative are ordered as their patterns are. Changing both signs
/// turns the order round, a negative number is never above one that is not, and the two
/// zeros are equal.
pub proof fn law_order_of_numbers(a: Double, b: Double, minus_a: Double, minus_b: Double)
    requires
        !a.is_nan(),
        !b.is_nan(),
        a.bits < 0x8000_0000_0000_0000,
        b.bits < 0x8000_0000_0000_0000,
        minus_a.bits == a.bits + 0x8000_0000_0000_0000,
        minus_b.bits == b.bits + 0x8000_0000_0000_0000,
    ensures
        a.at_most(b) <==> a.bits <= b.bits,
        minus_a.at_most(minus_b) <==> b.at_most(a),
        minus_a.at_most(b),
        a.at_most(minus_b) <==> a.bits == 0 && b.bits == 0,
        !minus_a.is_nan(),
{
}

/// One number is above another exactly where the other is at most it and not the other
/// way round.
pub proof fn law_above_is_the_converse(a: Double, b: Double, c: Double)
    ensures
        a.above(b) <==> b.at_most(a) && !a.at_most(b),
        a.at_most(b) && b.at_most(c) ==> a.at_most(c),
        !a.is_nan() ==> a.at_most(a),
{
}

} // verus!
