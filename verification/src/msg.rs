//! Request and response shapes of the engine's public interface.

use vstd::prelude::*;

use crate::numeric::Rate;
use crate::state::{AssetInfo, BiddingInfo, DistributionInfo};

verus! {

/// What a token-contract hook may ask the engine to do with the tokens it
/// forwards.
#[derive(Clone, Copy, PartialEq, Eq, Structural, Debug)]
pub enum Cw20HookMsg {
    SubmitBid { round: u64, premium_slot: u8 },
    CreateNewRoundFromTreasury {},
}

/// A migration carries no data.
#[derive(Clone, Copy, PartialEq, Eq, Structural, Debug)]
pub struct MigrateMsg {}

/// The initial configuration of the engine.
#[derive(PartialEq, Eq, Debug)]
pub struct InstantiateMsg {
    pub owner: String,
    pub underlying_token: AssetInfo,
    pub distribution_token: AssetInfo,
    pub max_slot: u8,
    pub premium_rate_per_slot: Rate,
    pub min_deposit_amount: u128,
    pub treasury: String,
    pub bidding_duration: u64,
}

/// A round's two aggregates, as one answer.
#[derive(Clone, Copy, PartialEq, Eq, Structural, Debug)]
pub struct BiddingInfoResponse {
    pub bid_info: BiddingInfo,
    pub distribution_info: DistributionInfo,
}

/// The projected outcome of settling a deposit: the reward paid in the
/// distribution asset and the unmatched part refunded in the underlying
/// asset.
#[derive(Clone, Copy, PartialEq, Eq, Structural, Debug)]
pub struct EstimateAmountReceiveOfBidResponse {
    pub receive: u128,
    pub residue_bid: u128,
}

} // verus!
