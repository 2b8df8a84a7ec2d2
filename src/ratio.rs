//! Exact non-negative fractions, the value type of every summary.
use vstd::prelude::*;

verus! {

/// A fraction `numer / denom`. Summaries never hand out a zero denominator:
/// an average over no observations is written `0 / 1`.
#[derive(Clone, Copy, Debug, PartialEq, Eq, Structural)]
pub struct Ratio {
    pub numer: u128,
    pub denom: u128,
}

/// The fraction `numer / denom`, or `0 / 1` when there is nothing to divide by.
pub open spec fn ratio_or_zero(numer: int, denom: int) -> Ratio {
    if denom == 0 {
        Ratio { numer: 0, denom: 1 }
    } else {
        Ratio { numer: numer as u128, denom: denom as u128 }
    }
}

impl Ratio {
    /// Builds `numer / denom`, or `0 / 1` when `denom` is zero.
    pub fn of(numer: u128, denom: u128) -> (r: Ratio)
        ensures
            r == ratio_or_zero(numer as int, denom as int),
    {
        if denom == 0 {
            Ratio { numer: 0, denom: 1 }
        } else {
            Ratio { numer, denom }
        }
    }
}

} // verus!
