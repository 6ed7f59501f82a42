//! Exact quotients of whole numbers.
use vstd::prelude::*;

verus! {

/// A quotient of two whole numbers, not necessarily in lowest terms.
#[derive(Debug, Clone, Copy, PartialEq, Eq, Structural)]
pub struct Ratio {
    pub numerator: u128,
    pub denominator: u128,
}

impl Ratio {
    /// Whether the quotient is a number.
    pub open spec fn wf(self) -> bool {
        self.denominator > 0
    }
}

} // verus!
