use vstd::prelude::*;

mod bid;
mod contract;
mod error;
mod helper;
mod msg;
mod numeric;
mod state;

pub use bid::{
    allocate_seq, bonus_atomics, boundary_frozen, desired_of, desired_part1,
    execute_create_new_round, execute_distribute, execute_finalize_bidding_round_result,
    execute_submit_bid, lemma_allocate_bounds, lemma_allocate_len, lemma_allocate_shape_at,
    lemma_settle_idempotent, lemma_single_boundary, process_calc_distribution_amount,
    ratios_bounded, ratios_unset, settle_compose, settle_flows, settle_fold, submit_old_pool_total,
    submit_overflow, submit_pool_updated, sum_totals,
};
pub use contract::{
    estimate_of, execute_update_config, instantiate, query_bid, query_bidding_info,
    query_bids_by_user, query_bids_idx_by_user, query_estimate_amount_receive,
    query_estimate_amount_receive_of_bid, user_bid_ids, user_bids, with_extra_bid,
};
pub use error::ContractError;
pub use helper::{into_cosmos_msg, ValueFlow};
pub use msg::{
    BiddingInfoResponse, Cw20HookMsg, EstimateAmountReceiveOfBidResponse, InstantiateMsg,
    MigrateMsg,
};
pub use numeric::{amount_mul_rate, mul_rate_spec, Rate, RATE_DENOM};
pub use state::{
    asc_cursor, bid_record_wf, check_wf, count_bids_in_round_upto, count_number_bids_in_round,
    desc_cursor, effective_limit, lemma_bid_ids_sequential, page_ids_asc, page_ids_desc,
    pools_wf, pop_bid_idx, read_bids_by_round, read_or_create_bid_pool, round_wf, state_wf,
    store_bid, AssetInfo, Bid, BidPool, BiddingInfo, Config, DistributionInfo, RoundEntry, State,
};

verus! {

} // verus!
