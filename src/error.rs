//! The ways a submission can fail. Each aborts the submission and leaves
//! the book as it was.

use vstd::prelude::*;

verus! {

#[derive(Clone, Copy, Debug, PartialEq, Eq, Structural)]
pub enum MarketError {
    /// A malformed side tag or numeric field in an instruction.
    InvalidInput,
    /// A buyer whose balance is below the amount asked for.
    InsufficientFunds,
    /// A buy with no resting sell at or below its limit.
    NoMatchingOrder,
    /// The transfer of a matched trade failed.
    SettlementFailed,
}

} // verus!
