//! Exact fractions.
//!
//! Every statistic of a burst is a quotient of two integers. It is kept as
//! that pair, so that nothing is rounded before a caller decides how to
//! show it.

use vstd::prelude::*;

verus! {

/// The mathematical fraction `num / den`.
///
/// Two fractions stand for the same number when [`Fraction::same`] holds of
/// them; their fields may still differ, since nothing is reduced.
pub struct Fraction {
    pub num: int,
    pub den: int,
}

impl Fraction {
    /// A fraction is well formed when its denominator is positive.
    pub open spec fn wf(self) -> bool {
        self.den > 0
    }

    /// The whole number `n`.
    pub open spec fn whole(n: int) -> Fraction {
        Fraction { num: n, den: 1 }
    }

    /// `self <= other` as numbers, for well-formed fractions.
    pub open spec fn le(self, other: Fraction) -> bool {
        self.num * other.den <= other.num * self.den
    }

    /// `self == other` as numbers, for well-formed fractions.
    pub open spec fn same(self, other: Fraction) -> bool {
        self.num * other.den == other.num * self.den
    }
}

/// A fraction in machine integers. Its view is the [`Fraction`] with the
/// same numerator and denominator.
#[derive(Clone, Copy, Debug, PartialEq, Eq)]
pub struct Ratio {
    pub num: i128,
    pub den: u64,
}

impl View for Ratio {
    type V = Fraction;

    open spec fn view(&self) -> Fraction {
        Fraction { num: self.num as int, den: self.den as int }
    }
}

impl Ratio {
    /// The whole number `n`.
    pub fn whole(n: i64) -> (r: Ratio)
        ensures
            r@ == Fraction::whole(n as int),
    {
        Ratio { num: n as i128, den: 1 }
    }
}

} // verus!
