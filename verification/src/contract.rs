//! The engine's entry points that do not move value: setting up the
//! state, updating the configuration, and the read-only queries,
//! including the what-if settlement projections.

use vstd::prelude::*;

use crate::bid::{
    allocate_seq, lemma_allocate_len, lemma_allocate_shape_at, lemma_matched_at_most_total,
    process_calc_distribution_amount, ratios_bounded,
};
use crate::error::ContractError;
use crate::msg::{BiddingInfoResponse, EstimateAmountReceiveOfBidResponse, InstantiateMsg};
use crate::numeric::{amount_mul_rate, mul_rate_spec, Rate, RATE_DENOM};
use crate::state::{state_wf, AssetInfo, Bid, BidPool, Config, State};

verus! {

/// Sets up a fresh engine state with the given configuration, no rounds
/// and an empty ledger.
pub fn instantiate(msg: InstantiateMsg) -> (s: State)
    ensures
        state_wf(s),
        s.config == (Config {
            owner: msg.owner,
            underlying_token: msg.underlying_token,
            distribution_token: msg.distribution_token,
            max_slot: msg.max_slot,
            premium_rate_per_slot: msg.premium_rate_per_slot,
            min_deposit_amount: msg.min_deposit_amount,
            treasury: msg.treasury,
            bidding_duration: msg.bidding_duration,
        }),
        s.last_round_id == 0,
        s.rounds@.len() == 0,
        s.bids@.len() == 0,
{
    State {
        config: Config {
            owner: msg.owner,
            underlying_token: msg.underlying_token,
            distribution_token: msg.distribution_token,
            max_slot: msg.max_slot,
            premium_rate_per_slot: msg.premium_rate_per_slot,
            min_deposit_amount: msg.min_deposit_amount,
            treasury: msg.treasury,
            bidding_duration: msg.bidding_duration,
        },
        last_round_id: 0,
        rounds: Vec::new(),
        bids: Vec::new(),
    }
}

/// Replaces the configuration fields that are given; the others keep
/// their values.  Only the current owner may call this.  On error the
/// state is unchanged.
pub fn execute_update_config(
    s: &mut State,
    sender: &String,
    owner: Option<String>,
    underlying_token: Option<AssetInfo>,
    distribution_token: Option<AssetInfo>,
    max_slot: Option<u8>,
    premium_rate_per_slot: Option<Rate>,
    min_deposit_amount: Option<u128>,
    treasury: Option<String>,
    bidding_duration: Option<u64>,
) -> (r: Result<(), ContractError>)
    requires
        state_wf(*old(s)),
    ensures
        state_wf(*final(s)),
        (match r {
            Ok(_) => sender@ == old(s).config.owner@ && final(s).rounds == old(s).rounds && final(s).bids == old(s).bids && final(s).last_round_id == old(s).last_round_id && final(s).config == (Config {
                owner: (match owner {
                    Some(v) => v,
                    None => old(s).config.owner,
                }),
                underlying_token: (match underlying_token {
                    Some(v) => v,
                    None => old(s).config.underlying_token,
                }),
                distribution_token: (match distribution_token {
                    Some(v) => v,
                    None => old(s).config.distribution_token,
                }),
                max_slot: (match max_slot {
                    Some(v) => v,
                    None => old(s).config.max_slot,
                }),
                premium_rate_per_slot: (match premium_rate_per_slot {
                    Some(v) => v,
                    None => old(s).config.premium_rate_per_slot,
                }),
                min_deposit_amount: (match min_deposit_amount {
                    Some(v) => v,
                    None => old(s).config.min_deposit_amount,
                }),
                treasury: (match treasury {
                    Some(v) => v,
                    None => old(s).config.treasury,
                }),
                bidding_duration: (match bidding_duration {
                    Some(v) => v,
                    None => old(s).config.bidding_duration,
                }),
            }),
            Err(e) => *final(s) == *old(s) && e == (ContractError::Unauthorized {}) && sender@
                != old(s).config.owner@,
        }),
{
    if *sender != s.config.owner {
        return Err(ContractError::Unauthorized {});
    }
    let mut config = s.config.clone();
    match owner {
        Some(v) => {
            config.owner = v;
        }
        None => {}
    }
    match underlying_token {
        Some(v) => {
            config.underlying_token = v;
        }
        None => {}
    }
    match distribution_token {
        Some(v) => {
            config.distribution_token = v;
        }
        None => {}
    }
    match max_slot {
        Some(v) => {
            config.max_slot = v;
        }
        None => {}
    }
    match premium_rate_per_slot {
        Some(v) => {
            config.premium_rate_per_slot = v;
        }
        None => {}
    }
    match min_deposit_amount {
        Some(v) => {
            config.min_deposit_amount = v;
        }
        None => {}
    }
    match treasury {
        Some(v) => {
            config.treasury = v;
        }
        None => {}
    }
    match bidding_duration {
        Some(v) => {
            config.bidding_duration = v;
        }
        None => {}
    }
    s.config = config;
    Ok(())
}

/// A round's two aggregates.
pub fn query_bidding_info(s: &State, round: u64) -> (r: Result<BiddingInfoResponse, ContractError>)
    requires
        state_wf(*s),
    ensures
        (match r {
            Ok(resp) => 1 <= round <= s.rounds@.len() && resp == (BiddingInfoResponse {
                bid_info: s.rounds@[round - 1].bidding_info,
                distribution_info: s.rounds@[round - 1].distribution_info,
            }),
            Err(e) => e == (ContractError::RoundNotFound { round }) && !(1 <= round
                <= s.rounds@.len()),
        }),
{
    if round < 1 || round > s.rounds.len() as u64 {
        return Err(ContractError::RoundNotFound { round });
    }
    let entry = &s.rounds[(round - 1) as usize];
    Ok(BiddingInfoResponse {
        bid_info: entry.bidding_info,
        distribution_info: entry.distribution_info,
    })
}

/// One bid record, by id.
pub fn query_bid(s: &State, idx: u64) -> (r: Result<Bid, ContractError>)
    requires
        state_wf(*s),
    ensures
        (match r {
            Ok(b) => 1 <= idx <= s.bids@.len() && b == s.bids@[idx - 1],
            Err(e) => e == (ContractError::BidNotFound { idx }) && !(1 <= idx <= s.bids@.len()),
        }),
{
    if idx < 1 || idx > s.bids.len() as u64 {
        return Err(ContractError::BidNotFound { idx });
    }
    Ok(s.bids[(idx - 1) as usize].clone())
}

/// The ids of one user's bids in a round, scanning the ledger from
/// position `k`, in ascending order.
pub open spec fn user_bid_ids(bids: Seq<Bid>, round: u64, user: Seq<char>, k: int) -> Seq<u64>
    decreases bids.len() - k,
{
    if k < 0 || k >= bids.len() {
        Seq::empty()
    } else if bids[k].round == round && bids[k].bidder@ == user {
        seq![(k + 1) as u64] + user_bid_ids(bids, round, user, k + 1)
    } else {
        user_bid_ids(bids, round, user, k + 1)
    }
}

/// One user's bid records in a round, scanning the ledger from position
/// `k`, in ascending id order.
pub open spec fn user_bids(bids: Seq<Bid>, round: u64, user: Seq<char>, k: int) -> Seq<Bid>
    decreases bids.len() - k,
{
    if k < 0 || k >= bids.len() {
        Seq::empty()
    } else if bids[k].round == round && bids[k].bidder@ == user {
        seq![bids[k]] + user_bids(bids, round, user, k + 1)
    } else {
        user_bids(bids, round, user, k + 1)
    }
}

/// The ids of all bids a user placed in a round, in ascending order.
#[verifier::loop_isolation(false)]
pub fn query_bids_idx_by_user(s: &State, round: u64, user: &String) -> (r: Vec<u64>)
    requires
        state_wf(*s),
    ensures
        r@ == user_bid_ids(s.bids@, round, user@, 0),
{
    let n = s.bids.len();
    let mut out: Vec<u64> = Vec::new();
    let mut k: usize = 0;
    proof {
        assert(out@ + user_bid_ids(s.bids@, round, user@, 0) =~= user_bid_ids(
            s.bids@,
            round,
            user@,
            0,
        ));
    }
    while k < n
        invariant
            k <= n,
            user_bid_ids(s.bids@, round, user@, 0) == out@ + user_bid_ids(
                s.bids@,
                round,
                user@,
                k as int,
            ),
        decreases n - k,
    {
        let matches_user = s.bids[k].round == round && s.bids[k].bidder == *user;
        if matches_user {
            let ghost out_pre = out@;
            out.push((k as u64) + 1);
            proof {
                assert(out@ =~= out_pre.push(((k + 1) as u64)));
                assert(out_pre.push(((k + 1) as u64)) + user_bid_ids(s.bids@, round, user@, k + 1)
                    =~= out_pre + (seq![((k + 1) as u64)] + user_bid_ids(
                    s.bids@,
                    round,
                    user@,
                    k + 1,
                )));
            }
        }
        k = k + 1;
    }
    proof {
        assert(user_bid_ids(s.bids@, round, user@, n as int) =~= Seq::<u64>::empty());
        assert(out@ + Seq::<u64>::empty() =~= out@);
    }
    out
}

/// All bid records a user placed in a round, in ascending id order.
#[verifier::loop_isolation(false)]
pub fn query_bids_by_user(s: &State, round: u64, user: &String) -> (r: Vec<Bid>)
    requires
        state_wf(*s),
    ensures
        r@ == user_bids(s.bids@, round, user@, 0),
{
    let n = s.bids.len();
    let mut out: Vec<Bid> = Vec::new();
    let mut k: usize = 0;
    proof {
        assert(out@ + user_bids(s.bids@, round, user@, 0) =~= user_bids(s.bids@, round, user@, 0));
    }
    while k < n
        invariant
            k <= n,
            user_bids(s.bids@, round, user@, 0) == out@ + user_bids(
                s.bids@,
                round,
                user@,
                k as int,
            ),
        decreases n - k,
    {
        let matches_user = s.bids[k].round == round && s.bids[k].bidder == *user;
        if matches_user {
            let ghost out_pre = out@;
            out.push(s.bids[k].clone());
            proof {
                assert(out@ =~= out_pre.push(s.bids@[k as int]));
                assert(out_pre.push(s.bids@[k as int]) + user_bids(s.bids@, round, user@, k + 1)
                    =~= out_pre + (seq![s.bids@[k as int]] + user_bids(
                    s.bids@,
                    round,
                    user@,
                    k + 1,
                )));
            }
        }
        k = k + 1;
    }
    proof {
        assert(user_bids(s.bids@, round, user@, n as int) =~= Seq::<Bid>::empty());
        assert(out@ + Seq::<Bid>::empty() =~= out@);
    }
    out
}

/// The settlement a deposit of `amount` into `slot` would receive under
/// the given allocation outcome: the reward at the slot's payout rate and
/// the refund of the unfunded part.
pub open spec fn estimate_of(pools: Seq<BidPool>, slot: u8, amount: u128) -> Option<
    EstimateAmountReceiveOfBidResponse,
> {
    let rpt = (if 1 <= slot <= pools.len() {
        pools[slot - 1].received_per_token
    } else {
        Rate { atomics: 0 }
    });
    let idx = (if 1 <= slot <= pools.len() {
        pools[slot - 1].index_snapshot
    } else {
        Rate { atomics: 0 }
    });
    if mul_rate_spec(amount as int, rpt) > u128::MAX || idx.atomics > RATE_DENOM {
        None
    } else {
        Some(
            EstimateAmountReceiveOfBidResponse {
                receive: mul_rate_spec(amount as int, rpt) as u128,
                residue_bid: (amount * (RATE_DENOM - idx.atomics) / (RATE_DENOM as int)) as u128,
            },
        )
    }
}

/// Computes the reward and refund of `amount` against one allocated pool
/// list.  The fill ratio must be at most one; the reward can overflow.
fn settle_against(pools: &Vec<BidPool>, slot: u8, amount: u128) -> (r: Result<
    EstimateAmountReceiveOfBidResponse,
    ContractError,
>)
    requires
        ratios_bounded(pools@),
    ensures
        (match r {
            Ok(resp) => estimate_of(pools@, slot, amount) == Some(resp),
            Err(e) => e == (ContractError::Overflow {}) && estimate_of(pools@, slot, amount)
                is None,
        }),
{
    let (rpt, idx) = if slot >= 1 && (slot as usize) <= pools.len() {
        let p = pools[(slot - 1) as usize];
        (p.received_per_token, p.index_snapshot)
    } else {
        (Rate::zero(), Rate::zero())
    };
    let receive = match amount_mul_rate(amount, rpt) {
        Some(v) => v,
        None => {
            return Err(ContractError::Overflow {});
        }
    };
    let one_minus = Rate::one().sub(idx);
    proof {
        lemma_matched_at_most_total(amount as int, one_minus.atomics as int);
    }
    let residue_bid = match amount_mul_rate(amount, one_minus) {
        Some(v) => v,
        None => {
            // Unreachable: the refund is at most the amount itself.
            return Err(ContractError::Overflow {});
        }
    };
    Ok(EstimateAmountReceiveOfBidResponse { receive, residue_bid })
}

/// Projects the settlement of an existing bid under a hypothetical
/// exchange rate, without changing any state: the round's pools are run
/// through the allocation walk with the round's budget, and the bid's
/// reward and refund are computed from its slot's resulting rates.
pub fn query_estimate_amount_receive_of_bid(
    s: &State,
    round: u64,
    idx: u64,
    exchange_rate: Rate,
) -> (r: Result<EstimateAmountReceiveOfBidResponse, ContractError>)
    requires
        state_wf(*s),
    ensures
        (match r {
            Ok(resp) => 1 <= round <= s.rounds@.len() && 1 <= idx <= s.bids@.len() && {
                let alloc = allocate_seq(
                    s.rounds@[round - 1].pools@,
                    s.rounds@[round - 1].distribution_info.total_distribution as int,
                    0,
                    exchange_rate,
                );
                alloc is Some && estimate_of(
                    alloc->Some_0.0,
                    s.bids@[idx - 1].premium_slot,
                    s.bids@[idx - 1].amount,
                ) == Some(resp)
            },
            Err(e) => (if !(1 <= round <= s.rounds@.len()) {
                e == (ContractError::RoundNotFound { round })
            } else if !(1 <= idx <= s.bids@.len()) {
                e == (ContractError::BidNotFound { idx })
            } else {
                e == (ContractError::Overflow {}) && {
                    let alloc = allocate_seq(
                        s.rounds@[round - 1].pools@,
                        s.rounds@[round - 1].distribution_info.total_distribution as int,
                        0,
                        exchange_rate,
                    );
                    alloc is None || estimate_of(
                        alloc->Some_0.0,
                        s.bids@[idx - 1].premium_slot,
                        s.bids@[idx - 1].amount,
                    ) is None
                }
            }),
        }),
{
    if round < 1 || round > s.rounds.len() as u64 {
        return Err(ContractError::RoundNotFound { round });
    }
    if idx < 1 || idx > s.bids.len() as u64 {
        return Err(ContractError::BidNotFound { idx });
    }
    let ridx = (round - 1) as usize;
    let dinfo = s.rounds[ridx].distribution_info;
    let mut pools = s.rounds[ridx].pools.clone();
    proof {
        assert(pools@ =~= s.rounds@[ridx as int].pools@);
    }
    let mut remaining: u128 = dinfo.total_distribution;
    match process_calc_distribution_amount(&mut pools, &mut remaining, exchange_rate) {
        Ok(_) => {}
        Err(e) => {
            return Err(e);
        }
    }
    let bid = &s.bids[(idx - 1) as usize];
    proof {
        let pools_in = s.rounds@[ridx as int].pools@;
        let budget = dinfo.total_distribution as int;
        lemma_allocate_len(pools_in, budget, 0, exchange_rate);
        assert forall|k: int| 0 <= k < pools@.len() implies (
        #[trigger] pools@[k]).index_snapshot.atomics <= RATE_DENOM by {
            lemma_allocate_shape_at(pools_in, budget, 0, exchange_rate, k);
        }
    }
    settle_against(&pools, bid.premium_slot, bid.amount)
}

/// Projects the settlement of a hypothetical extra deposit of
/// `bid_amount` into `slot` under a hypothetical exchange rate, without
/// changing any state: the deposit is added onto the slot's pool, the
/// allocation walk is run, and the deposit's reward and refund are
/// computed from the slot's resulting rates.
pub fn query_estimate_amount_receive(
    s: &State,
    round: u64,
    slot: u8,
    bid_amount: u128,
    exchange_rate: Rate,
) -> (r: Result<EstimateAmountReceiveOfBidResponse, ContractError>)
    requires
        state_wf(*s),
    ensures
        (match r {
            Ok(resp) => 1 <= round <= s.rounds@.len() && {
                let pools_in = with_extra_bid(s.rounds@[round - 1].pools@, slot, bid_amount);
                let alloc = allocate_seq(
                    pools_in,
                    s.rounds@[round - 1].distribution_info.total_distribution as int,
                    0,
                    exchange_rate,
                );
                (1 <= slot as int <= s.rounds@[round - 1].pools@.len()
                    ==> s.rounds@[round - 1].pools@[slot - 1].total_bid_amount + bid_amount
                    <= u128::MAX) && alloc is Some && estimate_of(alloc->Some_0.0, slot, bid_amount)
                    == Some(resp)
            },
            Err(e) => (if !(1 <= round <= s.rounds@.len()) {
                e == (ContractError::RoundNotFound { round })
            } else {
                e == (ContractError::Overflow {}) && {
                    let pools_old = s.rounds@[round - 1].pools@;
                    (1 <= slot as int <= pools_old.len() && pools_old[slot - 1].total_bid_amount
                        + bid_amount > u128::MAX) || {
                        let alloc = allocate_seq(
                            with_extra_bid(pools_old, slot, bid_amount),
                            s.rounds@[round - 1].distribution_info.total_distribution as int,
                            0,
                            exchange_rate,
                        );
                        alloc is None || estimate_of(alloc->Some_0.0, slot, bid_amount) is None
                    }
                }
            }),
        }),
{
    if round < 1 || round > s.rounds.len() as u64 {
        return Err(ContractError::RoundNotFound { round });
    }
    let ridx = (round - 1) as usize;
    let dinfo = s.rounds[ridx].distribution_info;
    let mut pools = s.rounds[ridx].pools.clone();
    proof {
        assert(pools@ =~= s.rounds@[ridx as int].pools@);
    }
    if slot >= 1 && (slot as usize) <= pools.len() {
        let pidx = (slot - 1) as usize;
        let p = pools[pidx];
        let new_total = match p.total_bid_amount.checked_add(bid_amount) {
            Some(v) => v,
            None => {
                return Err(ContractError::Overflow {});
            }
        };
        pools[pidx] = BidPool {
            slot: p.slot,
            total_bid_amount: new_total,
            premium_rate: p.premium_rate,
            index_snapshot: p.index_snapshot,
            received_per_token: p.received_per_token,
        };
        proof {
            assert(pools@ =~= with_extra_bid(s.rounds@[ridx as int].pools@, slot, bid_amount));
        }
    } else {
        proof {
            assert(pools@ =~= with_extra_bid(s.rounds@[ridx as int].pools@, slot, bid_amount));
        }
    }
    let ghost pools_in = pools@;
    let mut remaining: u128 = dinfo.total_distribution;
    match process_calc_distribution_amount(&mut pools, &mut remaining, exchange_rate) {
        Ok(_) => {}
        Err(e) => {
            return Err(e);
        }
    }
    proof {
        let budget = dinfo.total_distribution as int;
        lemma_allocate_len(pools_in, budget, 0, exchange_rate);
        assert forall|k: int| 0 <= k < pools@.len() implies (
        #[trigger] pools@[k]).index_snapshot.atomics <= RATE_DENOM by {
            lemma_allocate_shape_at(pools_in, budget, 0, exchange_rate, k);
        }
    }
    settle_against(&pools, slot, bid_amount)
}

/// The pool list with a hypothetical extra deposit added onto one slot;
/// a slot without a pool leaves the list unchanged.
pub open spec fn with_extra_bid(pools: Seq<BidPool>, slot: u8, amount: u128) -> Seq<BidPool> {
    if 1 <= slot <= pools.len() {
        pools.update(
            slot - 1,
            BidPool {
                slot: pools[slot - 1].slot,
                total_bid_amount: (pools[slot - 1].total_bid_amount + amount) as u128,
                premium_rate: pools[slot - 1].premium_rate,
                index_snapshot: pools[slot - 1].index_snapshot,
                received_per_token: pools[slot - 1].received_per_token,
            },
        )
    } else {
        pools
    }
}

} // verus!
