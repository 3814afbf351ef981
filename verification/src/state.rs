//! Data model of the bidding engine.
//!
//! One `State` value holds everything a round-based sealed-rate auction
//! needs: the configuration, every round with its premium-slot pools, and
//! the append-only ledger of individual bids.  Bid ids are the ledger
//! positions shifted by one, so they are unique, gapless and strictly
//! increasing by construction.

use vstd::prelude::*;

use crate::bid::ratios_unset;
use crate::error::ContractError;
use crate::numeric::{Rate, RATE_DENOM};

verus! {

/// An asset is either a native coin, named by its denomination, or a
/// token governed by a contract, named by the contract address.  The set
/// of kinds is closed: value movement always uses one of these two forms.
#[derive(PartialEq, Eq, Debug)]
pub enum AssetInfo {
    NativeToken { denom: String },
    Token { contract_addr: String },
}

/// Global configuration, updated only as a whole snapshot.
#[derive(PartialEq, Eq, Debug)]
pub struct Config {
    /// The operator allowed to create and finalize rounds.
    pub owner: String,
    /// The asset participants deposit.
    pub underlying_token: AssetInfo,
    /// The asset rewards are paid in.
    pub distribution_token: AssetInfo,
    /// Number of premium slots in a round; valid slots are `1..=max_slot`.
    pub max_slot: u8,
    /// Premium rate added per slot: slot `k` carries premium `k` times this.
    pub premium_rate_per_slot: Rate,
    /// Smallest accepted deposit.
    pub min_deposit_amount: u128,
    /// Treasury address.
    pub treasury: String,
    /// Default length of a bidding window, in seconds.
    pub bidding_duration: u64,
}

/// Per-round bidding aggregate.
#[derive(Clone, Copy, PartialEq, Eq, Structural, Debug)]
pub struct BiddingInfo {
    /// Round id; ids start at 1 and are assigned in order.
    pub round: u64,
    /// First second at which bids are accepted.
    pub start_time: u64,
    /// Last second at which bids are accepted.
    pub end_time: u64,
    /// Sum of all amounts deposited in the round.
    pub total_bid_amount: u128,
    /// Underlying-asset amount matched at finalization; 0 before.
    pub total_bid_matched: u128,
}

/// Per-round distribution aggregate.
#[derive(Clone, Copy, PartialEq, Eq, Structural, Debug)]
pub struct DistributionInfo {
    /// The distribution budget for the round.
    pub total_distribution: u128,
    /// Exchange rate set once at finalization; 0 before.
    pub exchange_rate: Rate,
    /// Set to true exactly once, at finalization.
    pub is_released: bool,
    /// Budget actually consumed at finalization.
    pub actual_distributed: u128,
    /// Number of bids settled so far.
    pub num_bids_distributed: u64,
}

/// Aggregate for one premium slot of one round.
#[derive(Copy, PartialEq, Eq, Structural, Debug)]
pub struct BidPool {
    /// The slot number, in `1..=max_slot`.
    pub slot: u8,
    /// Sum of all amounts deposited into this slot.
    pub total_bid_amount: u128,
    /// Premium rate of this slot, fixed at creation.
    pub premium_rate: Rate,
    /// Fill ratio, in `[0, 1]`: the fraction of the slot's full claim the
    /// budget funded.  0 until the round is released.
    pub index_snapshot: Rate,
    /// Reward units granted per deposited unit.  0 until released.
    pub received_per_token: Rate,
}

/// One recorded deposit.
#[derive(PartialEq, Eq, Debug)]
pub struct Bid {
    /// Ledger id: unique, gapless, strictly increasing, starting at 1.
    pub idx: u64,
    /// Round the bid belongs to.
    pub round: u64,
    /// Premium slot the bid went into.
    pub premium_slot: u8,
    /// Submission time, in seconds.
    pub timestamp: u64,
    /// The depositor.
    pub bidder: String,
    /// Deposited amount of the underlying asset.
    pub amount: u128,
    /// Unmatched part, refunded at settlement; the full amount until then.
    pub residue_bid: u128,
    /// Reward paid at settlement; 0 until then.
    pub amount_received: u128,
    /// Set to true exactly once, when the bid is settled.
    pub is_distributed: bool,
}

/// One round: its two aggregates and its slot pools.  `pools[k]` is the
/// pool of slot `k + 1`; the list is dense, so slots nobody deposited into
/// simply keep zero totals.
#[derive(PartialEq, Eq, Debug)]
pub struct RoundEntry {
    pub bidding_info: BiddingInfo,
    pub distribution_info: DistributionInfo,
    pub pools: Vec<BidPool>,
}

/// The whole engine state.
#[derive(PartialEq, Eq, Debug)]
pub struct State {
    pub config: Config,
    /// Id of the most recently created round; also the number of rounds.
    pub last_round_id: u64,
    /// `rounds[r]` is the round with id `r + 1`.
    pub rounds: Vec<RoundEntry>,
    /// The ledger: `bids[k]` is the bid with id `k + 1`.
    pub bids: Vec<Bid>,
}

/// Slot pools are dense and ordered: the pool at position `k` is slot
/// `k + 1`, and no recorded fill ratio ever exceeds one.
pub open spec fn pools_wf(pools: Seq<BidPool>) -> bool {
    pools.len() <= 255 && forall|k: int|
        0 <= k < pools.len() ==> (#[trigger] pools[k]).slot == k + 1
            && pools[k].index_snapshot.atomics <= RATE_DENOM
}

/// A round is well formed when it carries its own id, its pools are dense
/// and ordered, and, until it is released, no pool has ratios set.
pub open spec fn round_wf(r: RoundEntry, id: int) -> bool {
    r.bidding_info.round == id && pools_wf(r.pools@) && (!r.distribution_info.is_released
        ==> ratios_unset(r.pools@))
}

/// A ledger record is well formed when it carries its own id and points at
/// an existing round and an existing slot of that round.
pub open spec fn bid_record_wf(b: Bid, id: int, rounds: Seq<RoundEntry>) -> bool {
    b.idx == id && 1 <= b.round <= rounds.len() && 1 <= b.premium_slot
        <= rounds[b.round - 1].pools@.len()
}

/// Well-formedness of the whole state: the round counter matches the
/// round list, rounds and ledger records are well formed, and there is
/// room for at least one more bid id.
pub open spec fn state_wf(s: State) -> bool {
    s.last_round_id == s.rounds@.len() && s.bids@.len() < u64::MAX && (forall|r: int|
        0 <= r < s.rounds@.len() ==> round_wf(#[trigger] s.rounds@[r], r + 1)) && (forall|k: int|
        0 <= k < s.bids@.len() ==> bid_record_wf(#[trigger] s.bids@[k], k + 1, s.rounds@))
}

impl Clone for BidPool {
    fn clone(&self) -> (res: Self)
        ensures
            res == *self,
    {
        *self
    }
}

impl Clone for AssetInfo {
    fn clone(&self) -> (res: Self)
        ensures
            res == *self,
    {
        match self {
            AssetInfo::NativeToken { denom } => AssetInfo::NativeToken { denom: denom.clone() },
            AssetInfo::Token { contract_addr } => AssetInfo::Token {
                contract_addr: contract_addr.clone(),
            },
        }
    }
}

impl Clone for Config {
    fn clone(&self) -> (res: Self)
        ensures
            res == *self,
    {
        Config {
            owner: self.owner.clone(),
            underlying_token: self.underlying_token.clone(),
            distribution_token: self.distribution_token.clone(),
            max_slot: self.max_slot,
            premium_rate_per_slot: self.premium_rate_per_slot,
            min_deposit_amount: self.min_deposit_amount,
            treasury: self.treasury.clone(),
            bidding_duration: self.bidding_duration,
        }
    }
}

impl Clone for Bid {
    fn clone(&self) -> (res: Self)
        ensures
            res == *self,
    {
        Bid {
            idx: self.idx,
            round: self.round,
            premium_slot: self.premium_slot,
            timestamp: self.timestamp,
            bidder: self.bidder.clone(),
            amount: self.amount,
            residue_bid: self.residue_bid,
            amount_received: self.amount_received,
            is_distributed: self.is_distributed,
        }
    }
}

impl Clone for RoundEntry {
    fn clone(&self) -> (res: Self)
        ensures
            res.bidding_info == self.bidding_info,
            res.distribution_info == self.distribution_info,
            res.pools@ == self.pools@,
    {
        let pools = self.pools.clone();
        proof {
            assert(pools@ =~= self.pools@);
        }
        RoundEntry {
            bidding_info: self.bidding_info,
            distribution_info: self.distribution_info,
            pools,
        }
    }
}

impl BiddingInfo {
    /// A window is valid when it is non-empty and does not start in the
    /// past.
    pub fn is_valid_duration(&self, now: u64) -> (r: bool)
        ensures
            r == (self.start_time < self.end_time && self.start_time >= now),
    {
        self.start_time < self.end_time && self.start_time >= now
    }

    /// Whether bids are currently accepted.
    pub fn opening(&self, now: u64) -> (r: bool)
        ensures
            r == (self.start_time <= now && now <= self.end_time),
    {
        self.start_time <= now && now <= self.end_time
    }

    /// Whether the window has closed.
    pub fn finished(&self, now: u64) -> (r: bool)
        ensures
            r == (self.end_time < now),
    {
        self.end_time < now
    }
}

/// The id the next recorded bid receives: ids start at 1 and follow the
/// ledger length.
pub fn pop_bid_idx(s: &State) -> (r: u64)
    requires
        s.bids@.len() < u64::MAX,
    ensures
        r == s.bids@.len() + 1,
{
    (s.bids.len() as u64) + 1
}

/// Appends a well-formed bid record to the ledger.  The record must carry
/// the next free id and point at an existing round and slot.
pub fn store_bid(s: &mut State, bid: Bid)
    requires
        state_wf(*old(s)),
        bid_record_wf(bid, old(s).bids@.len() as int + 1, old(s).rounds@),
    ensures
        final(s).bids@ == old(s).bids@.push(bid),
        final(s).rounds == old(s).rounds,
        final(s).config == old(s).config,
        final(s).last_round_id == old(s).last_round_id,
        final(s).bids@.len() == old(s).bids@.len() + 1,
{
    s.bids.push(bid);
}

/// Looks up the pool of a premium slot in a round.  The slot must exist:
/// pools are dense, so every slot up to the round's width is present.
pub fn read_or_create_bid_pool(s: &State, round: u64, premium_slot: u8) -> (r: Result<
    BidPool,
    ContractError,
>)
    requires
        state_wf(*s),
    ensures
        (match r {
            Ok(p) => 1 <= round <= s.rounds@.len() && 1 <= premium_slot
                <= s.rounds@[round - 1].pools@.len() && p == s.rounds@[round
                - 1].pools@[premium_slot - 1],
            Err(e) => (e == (ContractError::RoundNotFound { round }) && !(1 <= round
                <= s.rounds@.len())) || (1 <= round <= s.rounds@.len() && e
                == (ContractError::InvalidPremiumSlot {
                max_slot: s.rounds@[round - 1].pools@.len() as u8,
                slot: premium_slot,
            }) && !(1 <= premium_slot <= s.rounds@[round - 1].pools@.len())),
        }),
{
    if round < 1 || round > s.rounds.len() as u64 {
        return Err(ContractError::RoundNotFound { round });
    }
    let entry = &s.rounds[(round - 1) as usize];
    if premium_slot < 1 || premium_slot as usize > entry.pools.len() {
        return Err(ContractError::InvalidPremiumSlot {
            max_slot: entry.pools.len() as u8,
            slot: premium_slot,
        });
    }
    Ok(entry.pools[(premium_slot - 1) as usize])
}

impl State {
    /// All slot pools of a round, lowest premium first.
    pub fn read_all_bid_pool(&self, round: u64) -> (r: Result<Vec<BidPool>, ContractError>)
        requires
            state_wf(*self),
        ensures
            (match r {
                Ok(pools) => 1 <= round <= self.rounds@.len() && pools@ == self.rounds@[round
                    - 1].pools@,
                Err(e) => e == (ContractError::RoundNotFound { round }) && !(1 <= round
                    <= self.rounds@.len()),
            }),
    {
        if round < 1 || round > self.rounds.len() as u64 {
            return Err(ContractError::RoundNotFound { round });
        }
        let pools = self.rounds[(round - 1) as usize].pools.clone();
        proof {
            assert(pools@ =~= self.rounds@[round - 1].pools@);
        }
        Ok(pools)
    }
}

/// How many ledger records belong to a round, among the first `n`.
pub open spec fn count_bids_in_round_upto(bids: Seq<Bid>, round: u64, n: int) -> int
    decreases n,
{
    if n <= 0 {
        0
    } else {
        count_bids_in_round_upto(bids, round, n - 1) + if bids[n - 1].round == round {
            1int
        } else {
            0int
        }
    }
}

/// Counts the bids recorded for a round.
pub fn count_number_bids_in_round(s: &State, round: u64) -> (r: u64)
    requires
        state_wf(*s),
    ensures
        r == count_bids_in_round_upto(s.bids@, round, s.bids@.len() as int),
{
    let n = s.bids.len();
    let mut count: u64 = 0;
    let mut k: usize = 0;
    while k < n
        invariant
            k <= n,
            n == s.bids@.len(),
            s.bids@.len() < u64::MAX,
            count == count_bids_in_round_upto(s.bids@, round, k as int),
            count <= k,
        decreases n - k,
    {
        if s.bids[k].round == round {
            count = count + 1;
        }
        k = k + 1;
    }
    count
}

/// The ids of a round's bids in ascending order, scanning from position
/// `k`, keeping ids strictly above `lo_excl`, at most `limit` of them.
pub open spec fn page_ids_asc(bids: Seq<Bid>, round: u64, k: int, lo_excl: int, limit: int) -> Seq<
    u64,
>
    decreases bids.len() - k,
{
    if k < 0 || k >= bids.len() || limit <= 0 {
        Seq::empty()
    } else if bids[k].round == round && k + 1 > lo_excl {
        seq![(k + 1) as u64] + page_ids_asc(bids, round, k + 1, lo_excl, limit - 1)
    } else {
        page_ids_asc(bids, round, k + 1, lo_excl, limit)
    }
}

/// The ids of a round's bids in descending order, scanning down from
/// position `k`, keeping ids strictly below `hi_excl`, at most `limit`.
pub open spec fn page_ids_desc(bids: Seq<Bid>, round: u64, k: int, hi_excl: int, limit: int) -> Seq<
    u64,
>
    decreases k + 1,
{
    if k < 0 || k >= bids.len() || limit <= 0 {
        Seq::empty()
    } else if bids[k].round == round && k + 1 < hi_excl {
        seq![(k + 1) as u64] + page_ids_desc(bids, round, k - 1, hi_excl, limit - 1)
    } else {
        page_ids_desc(bids, round, k - 1, hi_excl, limit)
    }
}

/// The effective page size: the caller's limit, defaulting to 30, capped
/// at 1000.
pub open spec fn effective_limit(limit: Option<u64>) -> int {
    let l = match limit {
        Some(v) => v as int,
        None => 30,
    };
    if l <= 1000 {
        l
    } else {
        1000
    }
}

/// The ascending cursor: ids strictly above it are returned.
pub open spec fn asc_cursor(start_after: Option<u64>) -> int {
    match start_after {
        Some(v) => v as int,
        None => 0,
    }
}

/// The descending cursor: ids strictly below it are returned.
pub open spec fn desc_cursor(start_after: Option<u64>, len: int) -> int {
    match start_after {
        Some(v) => v as int,
        None => len + 1,
    }
}

/// One page of a round's bid ids.  Ascending by default; descending when
/// `order_by` is 2.  The cursor is exclusive: the page starts strictly
/// after it (ascending) or strictly below it (descending).
pub fn read_bids_by_round(
    s: &State,
    round: u64,
    start_after: Option<u64>,
    limit: Option<u64>,
    order_by: Option<i32>,
) -> (r: Vec<u64>)
    requires
        state_wf(*s),
    ensures
        (match order_by {
            Some(2i32) => r@ == page_ids_desc(
                s.bids@,
                round,
                s.bids@.len() - 1,
                desc_cursor(start_after, s.bids@.len() as int),
                effective_limit(limit),
            ),
            _ => r@ == page_ids_asc(
                s.bids@,
                round,
                0,
                asc_cursor(start_after),
                effective_limit(limit),
            ),
        }),
{
    let limit_eff: u64 = match limit {
        Some(v) => if v <= 1000 {
            v
        } else {
            1000
        },
        None => 30,
    };
    let descending: bool = match order_by {
        Some(v) => v == 2,
        None => false,
    };
    let n = s.bids.len();
    let mut out: Vec<u64> = Vec::new();
    if descending {
        let ghost hi = desc_cursor(start_after, s.bids@.len() as int);
        let mut k: usize = n;
        proof {
            assert(out@ =~= Seq::<u64>::empty());
            assert(out@ + page_ids_desc(s.bids@, round, n - 1, hi, limit_eff as int)
                =~= page_ids_desc(s.bids@, round, n - 1, hi, limit_eff as int));
        }
        while k > 0 && (out.len() as u64) < limit_eff
            invariant
                k <= n,
                n == s.bids@.len(),
                s.bids@.len() < u64::MAX,
                hi == desc_cursor(start_after, s.bids@.len() as int),
                out@.len() <= limit_eff,
                page_ids_desc(s.bids@, round, n - 1, hi, limit_eff as int) == out@ + page_ids_desc(
                    s.bids@,
                    round,
                    k - 1,
                    hi,
                    limit_eff - out@.len(),
                ),
            decreases k,
        {
            let id = k as u64;
            let in_page = s.bids[k - 1].round == round && (match start_after {
                Some(v) => id < v,
                None => true,
            });
            proof {
                let rem = limit_eff - out@.len();
                if in_page {
                    assert(page_ids_desc(s.bids@, round, k - 1, hi, rem) == seq![id]
                        + page_ids_desc(s.bids@, round, k - 2, hi, rem - 1));
                } else {
                    assert(page_ids_desc(s.bids@, round, k - 1, hi, rem) == page_ids_desc(
                        s.bids@,
                        round,
                        k - 2,
                        hi,
                        rem,
                    ));
                }
            }
            if in_page {
                let ghost out_pre = out@;
                out.push(id);
                proof {
                    assert(out@ =~= out_pre.push(id));
                    assert(out_pre.push(id) + page_ids_desc(
                        s.bids@,
                        round,
                        k - 2,
                        hi,
                        limit_eff - out_pre.len() - 1,
                    ) =~= out_pre + (seq![id] + page_ids_desc(
                        s.bids@,
                        round,
                        k - 2,
                        hi,
                        limit_eff - out_pre.len() - 1,
                    )));
                }
            }
            k = k - 1;
        }
        proof {
            if out@.len() < limit_eff {
                assert(k == 0);
            }
            assert(page_ids_desc(s.bids@, round, k - 1, hi, limit_eff - out@.len())
                =~= Seq::<u64>::empty());
            assert(out@ + Seq::<u64>::empty() =~= out@);
        }
        out
    } else {
        let ghost lo = asc_cursor(start_after);
        let mut k: usize = 0;
        proof {
            assert(out@ =~= Seq::<u64>::empty());
            assert(out@ + page_ids_asc(s.bids@, round, 0, lo, limit_eff as int) =~= page_ids_asc(
                s.bids@,
                round,
                0,
                lo,
                limit_eff as int,
            ));
        }
        while k < n && (out.len() as u64) < limit_eff
            invariant
                k <= n,
                n == s.bids@.len(),
                s.bids@.len() < u64::MAX,
                lo == asc_cursor(start_after),
                out@.len() <= limit_eff,
                page_ids_asc(s.bids@, round, 0, lo, limit_eff as int) == out@ + page_ids_asc(
                    s.bids@,
                    round,
                    k as int,
                    lo,
                    limit_eff - out@.len(),
                ),
            decreases n - k,
        {
            let id = (k as u64) + 1;
            let in_page = s.bids[k].round == round && (match start_after {
                Some(v) => id > v,
                None => true,
            });
            proof {
                let rem = limit_eff - out@.len();
                if in_page {
                    assert(page_ids_asc(s.bids@, round, k as int, lo, rem) == seq![id]
                        + page_ids_asc(s.bids@, round, k as int + 1, lo, rem - 1));
                } else {
                    assert(page_ids_asc(s.bids@, round, k as int, lo, rem) == page_ids_asc(
                        s.bids@,
                        round,
                        k as int + 1,
                        lo,
                        rem,
                    ));
                }
            }
            if in_page {
                let ghost out_pre = out@;
                out.push(id);
                proof {
                    assert(out@ =~= out_pre.push(id));
                    assert(out_pre.push(id) + page_ids_asc(
                        s.bids@,
                        round,
                        k + 1,
                        lo,
                        limit_eff - out_pre.len() - 1,
                    ) =~= out_pre + (seq![id] + page_ids_asc(
                        s.bids@,
                        round,
                        k + 1,
                        lo,
                        limit_eff - out_pre.len() - 1,
                    )));
                }
            }
            k = k + 1;
        }
        proof {
            if out@.len() < limit_eff {
                assert(k == n);
            }
            assert(page_ids_asc(s.bids@, round, k as int, lo, limit_eff - out@.len())
                =~= Seq::<u64>::empty());
            assert(out@ + Seq::<u64>::empty() =~= out@);
        }
        out
    }
}


/// Deposit ids are unique, gapless and strictly increasing: in any
/// well-formed state the N recorded deposits carry exactly the ids
/// `1..=N`, in ledger order, whatever order rounds and deposits were
/// created in.
pub proof fn lemma_bid_ids_sequential(s: State)
    requires
        state_wf(s),
    ensures
        forall|i: int| 0 <= i < s.bids@.len() ==> (#[trigger] s.bids@[i]).idx == i + 1,
        forall|i: int, j: int|
            0 <= i < j < s.bids@.len() ==> (#[trigger] s.bids@[i]).idx < (#[trigger] s.bids@[j]).idx,
{
    assert forall|i: int| 0 <= i < s.bids@.len() implies (#[trigger] s.bids@[i]).idx == i + 1 by {
        assert(bid_record_wf(s.bids@[i], i + 1, s.rounds@));
    }
}

/// Decides `round_wf` at run time.
fn check_round(entry: &RoundEntry, id: u64) -> (r: bool)
    ensures
        r == round_wf(*entry, id as int),
{
    if entry.bidding_info.round != id {
        return false;
    }
    if entry.pools.len() > 255 {
        return false;
    }
    let released = entry.distribution_info.is_released;
    let n = entry.pools.len();
    let mut k: usize = 0;
    while k < n
        invariant
            k <= n,
            n == entry.pools@.len(),
            n <= 255,
            released == entry.distribution_info.is_released,
            forall|q: int|
                0 <= q < k ==> (#[trigger] entry.pools@[q]).slot == q + 1
                    && entry.pools@[q].index_snapshot.atomics <= RATE_DENOM,
            forall|q: int|
                !released && 0 <= q < k ==> (#[trigger] entry.pools@[q]).index_snapshot.atomics
                    == 0 && entry.pools@[q].received_per_token.atomics == 0,
        decreases n - k,
    {
        let p = entry.pools[k];
        if p.slot as usize != k + 1 {
            return false;
        }
        if p.index_snapshot.atomics > RATE_DENOM {
            return false;
        }
        if !released && (p.index_snapshot.atomics != 0 || p.received_per_token.atomics != 0) {
            return false;
        }
        k = k + 1;
    }
    true
}

/// Decides `state_wf` at run time, so that state crossing an unverified
/// boundary (storage, the wire) can be validated before the engine relies
/// on its invariants.
pub fn check_wf(s: &State) -> (r: bool)
    ensures
        r == state_wf(*s),
{
    if s.last_round_id != s.rounds.len() as u64 {
        return false;
    }
    if s.bids.len() as u64 == u64::MAX {
        return false;
    }
    let rn = s.rounds.len();
    let mut q: usize = 0;
    while q < rn
        invariant
            q <= rn,
            rn == s.rounds@.len(),
            s.last_round_id == s.rounds@.len(),
            forall|i: int| 0 <= i < q ==> round_wf(#[trigger] s.rounds@[i], i + 1),
        decreases rn - q,
    {
        let entry = &s.rounds[q];
        if !check_round(entry, (q as u64) + 1) {
            return false;
        }
        q = q + 1;
    }
    let bn = s.bids.len();
    let mut k: usize = 0;
    while k < bn
        invariant
            k <= bn,
            bn == s.bids@.len(),
            bn < u64::MAX,
            s.last_round_id == s.rounds@.len(),
            forall|i: int| 0 <= i < s.rounds@.len() ==> round_wf(#[trigger] s.rounds@[i], i + 1),
            forall|i: int| 0 <= i < k ==> bid_record_wf(#[trigger] s.bids@[i], i + 1, s.rounds@),
        decreases bn - k,
    {
        let b = &s.bids[k];
        if b.idx != (k as u64) + 1 {
            return false;
        }
        if b.round < 1 || b.round > s.rounds.len() as u64 {
            return false;
        }
        if b.premium_slot < 1 || b.premium_slot as usize > s.rounds[(b.round - 1) as usize].pools.len() {
            return false;
        }
        k = k + 1;
    }
    true
}

} // verus!
