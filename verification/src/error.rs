//! Errors reported by the bidding engine.
//!
//! Every failure is synchronous and aborts the whole call: a caller either
//! sees all effects of an operation or none of them.

use vstd::prelude::*;

verus! {

/// The reasons an engine call can fail.
#[derive(Clone, Copy, PartialEq, Eq, Structural, Debug)]
pub enum ContractError {
    /// The caller is not the configured owner.
    Unauthorized {},
    /// A new round's window is empty or starts in the past.
    InvalidBiddingTimeRange {},
    /// The funds attached to a call do not match what it needs.
    InvalidFunds {},
    /// A bid was submitted outside the round's open window.
    BidNotOpen {},
    /// The round's window has not closed yet.
    BidNotEnded {},
    /// An addition or multiplication exceeded the 128-bit range.
    Overflow {},
    /// The deposited amount is below the configured minimum.
    MinDeposit { min: u128, deposit: u128 },
    /// The premium slot is zero or above the configured maximum.
    InvalidPremiumSlot { max_slot: u8, slot: u8 },
    /// The round was already finalized; the exchange rate is frozen.
    RoundAlreadyFinalized { round: u64 },
    /// No round with this id exists.
    RoundNotFound { round: u64 },
    /// No bid with this id exists.
    BidNotFound { idx: u64 },
}

} // verus!
