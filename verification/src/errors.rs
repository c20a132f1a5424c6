//! Validation errors for sale creation.

use vstd::prelude::*;

verus! {

/// Why a sale input was rejected before the sale was created.
#[derive(Clone, Copy, Debug, PartialEq, Eq, Structural)]
pub enum SaleValidationError {
    /// The sale starts sooner than the minimum lead time.
    StartsTooSoon,
    /// The sale starts later than the maximum lead time.
    StartsTooLate,
    /// The duration exceeds the maximum.
    TooLongDuration,
    /// The duration is below the minimum.
    TooShortDuration,
    /// More out-tokens than allowed.
    TooManyOutTokens,
    /// No out-token was listed.
    TooFewOutTokens,
    /// The title exceeds the length bound.
    TooLongTitle,
    /// The URL exceeds the length bound.
    TooLongUrl,
    /// An out-token was listed with a zero amount.
    ZeroOutAmount,
    /// The in-token also appears as an out-token.
    SameTokens,
    /// An out-token appears twice.
    NonUniqueOutTokens,
}

} // verus!
