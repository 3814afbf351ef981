//! The allocation engine.
//!
//! Given the ordered slot pools of a round, a distribution budget and an
//! exchange rate, the engine walks the pools in ascending premium order and
//! funds each as far as the remaining budget allows, recording a fill ratio
//! and a payout rate on every pool it touches.  `allocate_seq` is the
//! mathematical description of that walk; the executable
//! `process_calc_distribution_amount` is proved to compute exactly it.

use vstd::prelude::*;

use crate::error::ContractError;
use crate::helper::ValueFlow;
use crate::numeric::{amount_mul_rate, Rate, RATE_DENOM};
use crate::state::{
    asc_cursor, bid_record_wf, effective_limit, page_ids_asc, pools_wf, pop_bid_idx,
    read_bids_by_round, round_wf, state_wf, store_bid, AssetInfo, Bid, BidPool, BiddingInfo,
    DistributionInfo, RoundEntry, State,
};

use vstd::arithmetic::div_mod::{
    lemma_div_is_ordered, lemma_div_multiples_vanish,
};
use vstd::arithmetic::mul::lemma_mul_inequality;

verus! {

/// First stage of a slot's full claim: the deposited amount converted at
/// the exchange rate, rounded down.
pub open spec fn desired_part1(p: BidPool, rate: Rate) -> int {
    p.total_bid_amount * rate.atomics / (RATE_DENOM as int)
}

/// Atomics of one plus the slot's premium rate.
pub open spec fn bonus_atomics(p: BidPool) -> int {
    RATE_DENOM + p.premium_rate.atomics
}

/// The distribution-asset amount needed to fund the slot in full: the
/// converted amount, scaled by one plus the premium, each step rounded
/// down exactly as the executable code rounds.
pub open spec fn desired_of(p: BidPool, rate: Rate) -> int {
    desired_part1(p, rate) * bonus_atomics(p) / (RATE_DENOM as int)
}

/// Prepends already-processed pools onto the result of allocating the
/// remaining ones; `None` (overflow) stays `None`.
pub open spec fn opt_prepend(
    prefix: Seq<BidPool>,
    r: Option<(Seq<BidPool>, int, int)>,
) -> Option<(Seq<BidPool>, int, int)> {
    match r {
        Some(t) => Some((prefix + t.0, t.1, t.2)),
        None => None,
    }
}

/// The allocation walk, pool by pool, in list order (ascending premium).
///
/// Returns `Some((pools, remaining_budget, total_matched))` on success and
/// `None` when some step would exceed the 128-bit range.  Pools with zero
/// deposits, and pools whose full claim rounds down to zero, are skipped
/// unchanged.  Every processed pool receives its fill ratio
/// `actual / desired` and payout rate `actual / deposited`; when the
/// budget reaches exactly zero the walk stops and all later pools stay
/// untouched.
pub open spec fn allocate_seq(
    pools: Seq<BidPool>,
    budget: int,
    matched: int,
    rate: Rate,
) -> Option<(Seq<BidPool>, int, int)>
    decreases pools.len(),
{
    if pools.len() == 0 {
        Some((pools, budget, matched))
    } else {
        let p = pools[0];
        let rest = pools.skip(1);
        if p.total_bid_amount == 0 {
            opt_prepend(seq![p], allocate_seq(rest, budget, matched, rate))
        } else if desired_part1(p, rate) > u128::MAX || bonus_atomics(p) > u128::MAX
            || desired_of(p, rate) > u128::MAX {
            None
        } else if desired_of(p, rate) == 0 {
            opt_prepend(seq![p], allocate_seq(rest, budget, matched, rate))
        } else {
            let desired = desired_of(p, rate);
            let actual = if desired <= budget { desired } else { budget };
            let idx_at = actual * RATE_DENOM / desired;
            let rpt_at = actual * RATE_DENOM / (p.total_bid_amount as int);
            let add_m = p.total_bid_amount * idx_at / (RATE_DENOM as int);
            if rpt_at > u128::MAX || matched + add_m > u128::MAX {
                None
            } else {
                let p2 = BidPool {
                    slot: p.slot,
                    total_bid_amount: p.total_bid_amount,
                    premium_rate: p.premium_rate,
                    index_snapshot: Rate { atomics: idx_at as u128 },
                    received_per_token: Rate { atomics: rpt_at as u128 },
                };
                if budget - actual == 0 {
                    Some((seq![p2] + rest, 0, matched + add_m))
                } else {
                    opt_prepend(
                        seq![p2],
                        allocate_seq(rest, budget - actual, matched + add_m, rate),
                    )
                }
            }
        }
    }
}

proof fn lemma_opt_prepend_assoc(
    pre: Seq<BidPool>,
    mid: Seq<BidPool>,
    r: Option<(Seq<BidPool>, int, int)>,
)
    ensures
        opt_prepend(pre, opt_prepend(mid, r)) == opt_prepend(pre + mid, r),
{
    match r {
        Some(t) => {
            assert(pre + (mid + t.0) =~= (pre + mid) + t.0);
        }
        None => {}
    }
}

/// `floor(a * k / k) == a` stated for the two cancellations the engine
/// needs: a fully funded slot has ratio exactly one, and a ratio never
/// exceeds one.
proof fn lemma_ratio_at_most_one(actual: int, desired: int)
    requires
        0 <= actual <= desired,
        0 < desired,
    ensures
        actual * RATE_DENOM / desired <= RATE_DENOM,
        actual == desired ==> actual * RATE_DENOM / desired == RATE_DENOM,
{
    lemma_mul_inequality(actual, desired, RATE_DENOM as int);
    lemma_div_is_ordered(actual * RATE_DENOM, desired * RATE_DENOM, desired);
    lemma_div_multiples_vanish(RATE_DENOM as int, desired);
    assert(desired * (RATE_DENOM as int) == desired * RATE_DENOM);
}

/// The amount a ratio of at most one grants never exceeds the amount
/// itself: `floor(total * idx / RATE_DENOM) <= total`.
pub proof fn lemma_matched_at_most_total(total: int, idx_at: int)
    requires
        0 <= total,
        0 <= idx_at <= RATE_DENOM,
    ensures
        total * idx_at / (RATE_DENOM as int) <= total,
{
    lemma_mul_inequality(idx_at, RATE_DENOM as int, total);
    assert(idx_at * total == total * idx_at);
    assert((RATE_DENOM as int) * total == total * RATE_DENOM);
    lemma_div_is_ordered(total * idx_at, total * RATE_DENOM, RATE_DENOM as int);
    lemma_div_multiples_vanish(total, RATE_DENOM as int);
}

/// Sum of the deposited amounts of a list of pools.
pub open spec fn sum_totals(pools: Seq<BidPool>) -> int
    decreases pools.len(),
{
    if pools.len() == 0 {
        0
    } else {
        pools[0].total_bid_amount + sum_totals(pools.skip(1))
    }
}

/// True when no pool carries a fill ratio or payout rate yet, as before a
/// round is released.
pub open spec fn ratios_unset(pools: Seq<BidPool>) -> bool {
    forall|k: int|
        0 <= k < pools.len() ==> pools[k].index_snapshot.atomics == 0
            && pools[k].received_per_token.atomics == 0
}

/// The single-boundary shape of an allocation result: pools are served in
/// ascending premium order, so once a pool with a real claim is left short
/// (fill ratio below one), every later pool gets nothing at all.
pub open spec fn boundary_frozen(pools: Seq<BidPool>, out: Seq<BidPool>, rate: Rate) -> bool {
    forall|i: int, j: int| #![trigger out[i], out[j]]
        0 <= i < j < out.len() && pools[i].total_bid_amount > 0 && desired_of(pools[i], rate) > 0
            && out[i].index_snapshot.atomics < RATE_DENOM
            ==> out[j].index_snapshot.atomics == 0
}

/// The number of pools never changes under the allocation walk.
pub proof fn lemma_allocate_len(pools: Seq<BidPool>, budget: int, matched: int, rate: Rate)
    ensures
        (match allocate_seq(pools, budget, matched, rate) {
            Some(t) => t.0.len() == pools.len(),
            None => true,
        }),
    decreases pools.len(),
{
    if pools.len() == 0 {
    } else {
        let p = pools[0];
        let rest = pools.skip(1);
        lemma_allocate_len(rest, budget, matched, rate);
        if p.total_bid_amount != 0 && desired_part1(p, rate) <= u128::MAX && bonus_atomics(p)
            <= u128::MAX && desired_of(p, rate) <= u128::MAX && desired_of(p, rate) != 0 {
            let desired = desired_of(p, rate);
            let actual = if desired <= budget { desired } else { budget };
            lemma_allocate_len(rest, budget - actual, matched + p.total_bid_amount * (actual
                * RATE_DENOM / desired) / (RATE_DENOM as int), rate);
        }
    }
}

/// True when no pool's recorded fill ratio exceeds one.
pub open spec fn ratios_bounded(pools: Seq<BidPool>) -> bool {
    forall|k: int|
        0 <= k < pools.len() ==> (#[trigger] pools[k]).index_snapshot.atomics <= RATE_DENOM
}

/// The allocation walk only rewrites ratios: pool `k` keeps its slot, its
/// deposited total and its premium rate, and when the walk starts from
/// fill ratios of at most one and a non-negative budget, the fill ratio
/// it leaves never exceeds one either.
pub proof fn lemma_allocate_shape_at(
    pools: Seq<BidPool>,
    budget: int,
    matched: int,
    rate: Rate,
    k: int,
)
    requires
        allocate_seq(pools, budget, matched, rate) is Some,
        0 <= k < pools.len(),
    ensures
        (match allocate_seq(pools, budget, matched, rate) {
            Some(t) => t.0.len() == pools.len() && t.0[k].slot == pools[k].slot
                && t.0[k].total_bid_amount == pools[k].total_bid_amount && t.0[k].premium_rate
                == pools[k].premium_rate && (ratios_bounded(pools) && 0 <= budget
                ==> t.0[k].index_snapshot.atomics <= RATE_DENOM),
            None => true,
        }),
    decreases pools.len(),
{
    lemma_allocate_len(pools, budget, matched, rate);
    let p = pools[0];
    let rest = pools.skip(1);
    assert(forall|q: int| 0 <= q < rest.len() ==> rest[q] == pools[q + 1]);
    assert(ratios_bounded(pools) ==> ratios_bounded(rest));
    if p.total_bid_amount == 0 || (desired_part1(p, rate) <= u128::MAX && bonus_atomics(p)
        <= u128::MAX && desired_of(p, rate) <= u128::MAX && desired_of(p, rate) == 0) {
        let t = allocate_seq(rest, budget, matched, rate)->Some_0;
        if k == 0 {
            assert((seq![p] + t.0)[0] == p);
        } else {
            lemma_allocate_shape_at(rest, budget, matched, rate, k - 1);
            assert((seq![p] + t.0)[k] == t.0[k - 1]);
        }
    } else {
        let desired = desired_of(p, rate);
        let actual = if desired <= budget { desired } else { budget };
        let idx_at = actual * RATE_DENOM / desired;
        let rpt_at = actual * RATE_DENOM / (p.total_bid_amount as int);
        let add_m = p.total_bid_amount * idx_at / (RATE_DENOM as int);
        let p2 = BidPool {
            slot: p.slot,
            total_bid_amount: p.total_bid_amount,
            premium_rate: p.premium_rate,
            index_snapshot: Rate { atomics: idx_at as u128 },
            received_per_token: Rate { atomics: rpt_at as u128 },
        };
        if 0 <= budget {
            lemma_ratio_at_most_one(actual, desired);
        }
        if budget - actual == 0 {
            if k == 0 {
                assert((seq![p2] + rest)[0] == p2);
            } else {
                assert((seq![p2] + rest)[k] == rest[k - 1]);
            }
        } else {
            let t = allocate_seq(rest, budget - actual, matched + add_m, rate)->Some_0;
            if k == 0 {
                assert((seq![p2] + t.0)[0] == p2);
            } else {
                lemma_allocate_shape_at(rest, budget - actual, matched + add_m, rate, k - 1);
                assert((seq![p2] + t.0)[k] == t.0[k - 1]);
            }
        }
    }
}

/// What the allocation walk hands out is bounded: the remaining budget
/// never goes below zero or above what it started at, and the matched
/// total grows by at most the sum of the deposited amounts.
pub proof fn lemma_allocate_bounds(pools: Seq<BidPool>, budget: int, matched: int, rate: Rate)
    requires
        0 <= budget,
    ensures
        (match allocate_seq(pools, budget, matched, rate) {
            Some(t) => 0 <= t.1 <= budget && matched <= t.2 && t.2 - matched <= sum_totals(pools),
            None => true,
        }),
    decreases pools.len(),
{
    if pools.len() == 0 {
    } else {
        let p = pools[0];
        let rest = pools.skip(1);
        assert(sum_totals(pools) == p.total_bid_amount + sum_totals(rest));
        if p.total_bid_amount == 0 || (desired_part1(p, rate) <= u128::MAX && bonus_atomics(p)
            <= u128::MAX && desired_of(p, rate) <= u128::MAX && desired_of(p, rate) == 0) {
            lemma_allocate_bounds(rest, budget, matched, rate);
            lemma_sum_totals_nonnegative(rest);
        } else if desired_part1(p, rate) > u128::MAX || bonus_atomics(p) > u128::MAX
            || desired_of(p, rate) > u128::MAX {
        } else {
            let desired = desired_of(p, rate);
            let actual = if desired <= budget { desired } else { budget };
            let idx_at = actual * RATE_DENOM / desired;
            let rpt_at = actual * RATE_DENOM / (p.total_bid_amount as int);
            let add_m = p.total_bid_amount * idx_at / (RATE_DENOM as int);
            if rpt_at > u128::MAX || matched + add_m > u128::MAX {
            } else {
                lemma_ratio_at_most_one(actual, desired);
                lemma_matched_at_most_total(p.total_bid_amount as int, idx_at);
                vstd::arithmetic::div_mod::lemma_div_pos_is_pos(
                    p.total_bid_amount * idx_at,
                    RATE_DENOM as int,
                );
                if budget - actual == 0 {
                    lemma_sum_totals_nonnegative(rest);
                } else {
                    lemma_allocate_bounds(rest, budget - actual, matched + add_m, rate);
                }
            }
        }
    }
}

proof fn lemma_sum_totals_nonnegative(pools: Seq<BidPool>)
    ensures
        0 <= sum_totals(pools),
    decreases pools.len(),
{
    if pools.len() == 0 {
    } else {
        lemma_sum_totals_nonnegative(pools.skip(1));
    }
}

/// One instance of the single-boundary law: if pool `i` had a nonzero
/// claim but ended with a fill ratio below one, then pool `j` after it
/// ended with a fill ratio of exactly zero.
proof fn lemma_single_boundary_at(
    pools: Seq<BidPool>,
    budget: int,
    matched: int,
    rate: Rate,
    i: int,
    j: int,
)
    requires
        0 <= budget,
        ratios_unset(pools),
        allocate_seq(pools, budget, matched, rate) is Some,
        0 <= i < j < pools.len(),
        pools[i].total_bid_amount > 0,
        desired_of(pools[i], rate) > 0,
        allocate_seq(pools, budget, matched, rate)->Some_0.0[i].index_snapshot.atomics
            < RATE_DENOM,
    ensures
        allocate_seq(pools, budget, matched, rate)->Some_0.0[j].index_snapshot.atomics == 0,
    decreases pools.len(),
{
    let p = pools[0];
    let rest = pools.skip(1);
    assert(forall|q: int| 0 <= q < rest.len() ==> rest[q] == pools[q + 1]);
    assert(ratios_unset(rest));
    if p.total_bid_amount == 0 || (desired_part1(p, rate) <= u128::MAX && bonus_atomics(p)
        <= u128::MAX && desired_of(p, rate) <= u128::MAX && desired_of(p, rate) == 0) {
        let t = allocate_seq(rest, budget, matched, rate)->Some_0;
        lemma_allocate_len(rest, budget, matched, rate);
        assert((seq![p] + t.0)[i] == (if i == 0 { p } else { t.0[i - 1] }));
        assert((seq![p] + t.0)[j] == t.0[j - 1]);
        lemma_single_boundary_at(rest, budget, matched, rate, i - 1, j - 1);
    } else {
        let desired = desired_of(p, rate);
        let actual = if desired <= budget { desired } else { budget };
        let idx_at = actual * RATE_DENOM / desired;
        let rpt_at = actual * RATE_DENOM / (p.total_bid_amount as int);
        let add_m = p.total_bid_amount * idx_at / (RATE_DENOM as int);
        let p2 = BidPool {
            slot: p.slot,
            total_bid_amount: p.total_bid_amount,
            premium_rate: p.premium_rate,
            index_snapshot: Rate { atomics: idx_at as u128 },
            received_per_token: Rate { atomics: rpt_at as u128 },
        };
        lemma_ratio_at_most_one(actual, desired);
        if budget - actual == 0 {
            assert((seq![p2] + rest)[j] == rest[j - 1]);
        } else {
            // The budget was not exhausted here, so this pool was funded in
            // full and its fill ratio is exactly one.
            assert(actual == desired);
            let t = allocate_seq(rest, budget - actual, matched + add_m, rate)->Some_0;
            lemma_allocate_len(rest, budget - actual, matched + add_m, rate);
            assert((seq![p2] + t.0)[i] == (if i == 0 { p2 } else { t.0[i - 1] }));
            assert((seq![p2] + t.0)[j] == t.0[j - 1]);
            if i == 0 {
                assert(p2.index_snapshot.atomics == RATE_DENOM);
            } else {
                lemma_single_boundary_at(rest, budget - actual, matched + add_m, rate, i - 1,
                    j - 1);
            }
        }
    }
}

/// The single-boundary law: starting from pools with no ratios set and a
/// non-negative budget, the allocation serves pools in list order, so
/// whenever a pool with a nonzero claim ends up with a fill ratio below
/// one, every pool after it keeps a fill ratio of exactly zero.
pub proof fn lemma_single_boundary(pools: Seq<BidPool>, budget: int, matched: int, rate: Rate)
    requires
        0 <= budget,
        ratios_unset(pools),
    ensures
        (match allocate_seq(pools, budget, matched, rate) {
            Some(t) => boundary_frozen(pools, t.0, rate),
            None => true,
        }),
{
    match allocate_seq(pools, budget, matched, rate) {
        Some(t) => {
            lemma_allocate_len(pools, budget, matched, rate);
            assert forall|i: int, j: int|
                0 <= i < j < t.0.len() && pools[i].total_bid_amount > 0 && desired_of(
                    pools[i],
                    rate,
                ) > 0 && t.0[i].index_snapshot.atomics < RATE_DENOM implies t.0[j].index_snapshot.atomics
                == 0 by {
                lemma_single_boundary_at(pools, budget, matched, rate, i, j);
            }
        }
        None => {}
    }
}

/// Computes each pool's fill ratio and payout rate, in list order, until
/// the distribution budget is exhausted.
///
/// On success the pools, the remaining budget and the returned total of
/// matched underlying tokens are exactly the result of the `allocate_seq`
/// walk.  The only error is `Overflow`, returned exactly when some step of
/// the walk exceeds the 128-bit range; the budget is then left unchanged.
pub fn process_calc_distribution_amount(
    bid_pools: &mut Vec<BidPool>,
    distribution_amount: &mut u128,
    exchange_rate: Rate,
) -> (r: Result<u128, ContractError>)
    ensures
        (match r {
            Ok(total_matched) => allocate_seq(
                old(bid_pools)@,
                *old(distribution_amount) as int,
                0,
                exchange_rate,
            ) == Some((
                final(bid_pools)@,
                *final(distribution_amount) as int,
                total_matched as int,
            )),
            Err(e) => e == (ContractError::Overflow {}) && allocate_seq(
                old(bid_pools)@,
                *old(distribution_amount) as int,
                0,
                exchange_rate,
            ) is None && *final(distribution_amount) == *old(distribution_amount),
        }),
{
    let ghost pools0 = bid_pools@;
    let ghost b0 = *distribution_amount as int;
    let n = bid_pools.len();
    let mut budget: u128 = *distribution_amount;
    let mut matched: u128 = 0;
    let mut i: usize = 0;
    proof {
        assert(pools0.skip(0) =~= pools0);
        assert(bid_pools@.take(0) =~= Seq::<BidPool>::empty());
        match allocate_seq(pools0, b0, 0, exchange_rate) {
            Some(t) => {
                assert(Seq::<BidPool>::empty() + t.0 =~= t.0);
            }
            None => {}
        }
    }
    loop
        invariant_except_break
            i <= n,
            n == bid_pools@.len(),
            bid_pools@.len() == pools0.len(),
            pools0 == old(bid_pools)@,
            b0 == *old(distribution_amount) as int,
            *distribution_amount == *old(distribution_amount),
            forall|k: int| i <= k < n ==> bid_pools@[k] == pools0[k],
            allocate_seq(pools0, b0, 0, exchange_rate) == opt_prepend(
                bid_pools@.take(i as int),
                allocate_seq(pools0.skip(i as int), budget as int, matched as int, exchange_rate),
            ),
        ensures
            allocate_seq(pools0, b0, 0, exchange_rate)
                == Some((bid_pools@, budget as int, matched as int)),
        decreases n - i,
    {
        if i == n {
            proof {
                assert(pools0.skip(n as int) =~= Seq::<BidPool>::empty());
                assert(bid_pools@.take(n as int) =~= bid_pools@);
                assert(bid_pools@ + Seq::<BidPool>::empty() =~= bid_pools@);
            }
            break;
        }
        let p = bid_pools[i];
        let ghost suffix = pools0.skip(i as int);
        proof {
            assert(suffix[0] == pools0[i as int]);
            assert(suffix.skip(1) =~= pools0.skip(i as int + 1));
        }
        if p.total_bid_amount == 0 {
            proof {
                lemma_opt_prepend_assoc(
                    bid_pools@.take(i as int),
                    seq![p],
                    allocate_seq(
                        pools0.skip(i as int + 1),
                        budget as int,
                        matched as int,
                        exchange_rate,
                    ),
                );
                assert(bid_pools@.take(i as int) + seq![p] =~= bid_pools@.take(i as int + 1));
            }
            i += 1;
            continue;
        }
        let d1 = match amount_mul_rate(p.total_bid_amount, exchange_rate) {
            Some(v) => v,
            None => {
                return Err(ContractError::Overflow {});
            }
        };
        let bonus = match Rate::one().checked_add(p.premium_rate) {
            Some(v) => v,
            None => {
                return Err(ContractError::Overflow {});
            }
        };
        let desired = match amount_mul_rate(d1, bonus) {
            Some(v) => v,
            None => {
                return Err(ContractError::Overflow {});
            }
        };
        proof {
            assert(d1 as int == desired_part1(p, exchange_rate));
            assert(bonus.atomics as int == bonus_atomics(p));
            assert(desired as int == desired_of(p, exchange_rate));
        }
        if desired == 0 {
            proof {
                lemma_opt_prepend_assoc(
                    bid_pools@.take(i as int),
                    seq![p],
                    allocate_seq(
                        pools0.skip(i as int + 1),
                        budget as int,
                        matched as int,
                        exchange_rate,
                    ),
                );
                assert(bid_pools@.take(i as int) + seq![p] =~= bid_pools@.take(i as int + 1));
            }
            i += 1;
            continue;
        }
        let actual = if desired <= budget {
            desired
        } else {
            budget
        };
        proof {
            lemma_ratio_at_most_one(actual as int, desired as int);
        }
        let index_snapshot = match Rate::from_ratio(actual, desired) {
            Some(v) => v,
            None => {
                // Unreachable: the ratio is at most one, which fits.
                return Err(ContractError::Overflow {});
            }
        };
        let received_per_token = match Rate::from_ratio(actual, p.total_bid_amount) {
            Some(v) => v,
            None => {
                return Err(ContractError::Overflow {});
            }
        };
        proof {
            lemma_matched_at_most_total(p.total_bid_amount as int, index_snapshot.atomics as int);
        }
        let add_m = match amount_mul_rate(p.total_bid_amount, index_snapshot) {
            Some(v) => v,
            None => {
                // Unreachable: a ratio of at most one grants at most the
                // amount itself.
                return Err(ContractError::Overflow {});
            }
        };
        matched = match matched.checked_add(add_m) {
            Some(v) => v,
            None => {
                return Err(ContractError::Overflow {});
            }
        };
        budget = budget - actual;
        let new_pool = BidPool {
            slot: p.slot,
            total_bid_amount: p.total_bid_amount,
            premium_rate: p.premium_rate,
            index_snapshot,
            received_per_token,
        };
        bid_pools[i] = new_pool;
        proof {
            lemma_opt_prepend_assoc(
                bid_pools@.take(i as int),
                seq![new_pool],
                allocate_seq(
                    pools0.skip(i as int + 1),
                    budget as int,
                    matched as int,
                    exchange_rate,
                ),
            );
            assert(bid_pools@.take(i as int) + seq![new_pool] =~= bid_pools@.take(i as int + 1));
        }
        if budget == 0 {
            proof {
                assert(seq![new_pool] + pools0.skip(i as int + 1)
                    =~= bid_pools@.skip(i as int));
                assert(bid_pools@.take(i as int) + bid_pools@.skip(i as int) =~= bid_pools@);
            }
            break;
        }
        i += 1;
    }
    *distribution_amount = budget;
    Ok(matched)
}

/// The premium pools of a fresh round: one zero pool per slot, slot
/// `k + 1` carrying `k + 1` times the configured per-slot premium.
fn build_pools(per_slot: Rate, max_slot: u8) -> (r: Result<Vec<BidPool>, ContractError>)
    ensures
        r is Ok ==> (r->Ok_0)@.len() == max_slot,
        r is Ok ==> forall|k: int|
            0 <= k < max_slot ==> (r->Ok_0)@[k] == (BidPool {
                slot: (k + 1) as u8,
                total_bid_amount: 0,
                premium_rate: Rate { atomics: (per_slot.atomics * (k + 1)) as u128 },
                index_snapshot: Rate { atomics: 0 },
                received_per_token: Rate { atomics: 0 },
            }),
        r is Ok ==> per_slot.atomics * (max_slot as int) <= u128::MAX,
        r is Err ==> r->Err_0 == (ContractError::Overflow {}) && max_slot > 0 && per_slot.atomics
            * (max_slot as int) > u128::MAX,
{
    let mut pools: Vec<BidPool> = Vec::new();
    let mut k: usize = 0;
    while k < max_slot as usize
        invariant
            k <= max_slot as usize,
            pools@.len() == k,
            forall|q: int| 0 <= q < k ==> pools@[q] == (BidPool {
                slot: (q + 1) as u8,
                total_bid_amount: 0,
                premium_rate: Rate { atomics: (per_slot.atomics * (q + 1)) as u128 },
                index_snapshot: Rate { atomics: 0 },
                received_per_token: Rate { atomics: 0 },
            }),
            k > 0 ==> per_slot.atomics * (k as int) <= u128::MAX,
        decreases max_slot as usize - k,
    {
        let slot_number = k + 1;
        let premium = match per_slot.checked_scale(slot_number as u128) {
            Some(v) => v,
            None => {
                proof {
                    lemma_mul_inequality(
                        slot_number as int,
                        max_slot as int,
                        per_slot.atomics as int,
                    );
                    assert((slot_number as int) * (per_slot.atomics as int) == per_slot.atomics * (
                    slot_number as int));
                    assert((max_slot as int) * (per_slot.atomics as int) == per_slot.atomics * (
                    max_slot as int));
                }
                return Err(ContractError::Overflow {});
            }
        };
        pools.push(
            BidPool {
                slot: slot_number as u8,
                total_bid_amount: 0,
                premium_rate: premium,
                index_snapshot: Rate::zero(),
                received_per_token: Rate::zero(),
            },
        );
        k = slot_number;
    }
    Ok(pools)
}

/// Opens a new bidding round.  Only the configured owner may call this;
/// the window must be non-empty and must not start in the past.  On
/// success the new round's id (the old round count plus one) is returned
/// and a fresh round with zeroed aggregates and one zero pool per
/// configured premium slot is appended.  On any error the state is left
/// unchanged.
pub fn execute_create_new_round(
    s: &mut State,
    now: u64,
    sender: &String,
    _total_bid_threshold: u128,
    start_time: u64,
    end_time: u64,
    total_distribution: u128,
) -> (r: Result<u64, ContractError>)
    requires
        state_wf(*old(s)),
    ensures
        state_wf(*final(s)),
        (match r {
            Ok(round_id) => sender@ == old(s).config.owner@ && round_id == old(s).last_round_id
                + 1 && start_time < end_time && start_time >= now && final(s).config == old(
            s).config && final(s).bids == old(s).bids && final(s).last_round_id == round_id
                && final(s).rounds@.len() == old(s).rounds@.len() + 1 && (forall|q: int|
                0 <= q < old(s).rounds@.len() ==> final(s).rounds@[q] == old(s).rounds@[q]) && {
                let e = final(s).rounds@.last();
                e.bidding_info == (BiddingInfo {
                    round: round_id,
                    start_time,
                    end_time,
                    total_bid_amount: 0,
                    total_bid_matched: 0,
                }) && e.distribution_info == (DistributionInfo {
                    total_distribution,
                    exchange_rate: Rate { atomics: 0 },
                    is_released: false,
                    actual_distributed: 0,
                    num_bids_distributed: 0,
                }) && e.pools@.len() == old(s).config.max_slot && (forall|k: int|
                    0 <= k < e.pools@.len() ==> e.pools@[k] == (BidPool {
                        slot: (k + 1) as u8,
                        total_bid_amount: 0,
                        premium_rate: Rate {
                            atomics: (old(s).config.premium_rate_per_slot.atomics * (k
                                + 1)) as u128,
                        },
                        index_snapshot: Rate { atomics: 0 },
                        received_per_token: Rate { atomics: 0 },
                    }))
            },
            Err(e) => *final(s) == *old(s) && (if sender@ != old(s).config.owner@ {
                e == (ContractError::Unauthorized {})
            } else if old(s).last_round_id == u64::MAX {
                e == (ContractError::Overflow {})
            } else if !(start_time < end_time && start_time >= now) {
                e == (ContractError::InvalidBiddingTimeRange {})
            } else {
                e == (ContractError::Overflow {}) && old(s).config.max_slot > 0 && old(
                s).config.premium_rate_per_slot.atomics * (old(s).config.max_slot as int)
                    > u128::MAX
            }),
        }),
{
    if *sender != s.config.owner {
        return Err(ContractError::Unauthorized {});
    }
    let new_round_id = match s.last_round_id.checked_add(1) {
        Some(v) => v,
        None => {
            return Err(ContractError::Overflow {});
        }
    };
    let bidding_info = BiddingInfo {
        round: new_round_id,
        start_time,
        end_time,
        total_bid_amount: 0,
        total_bid_matched: 0,
    };
    let distribution_info = DistributionInfo {
        total_distribution,
        exchange_rate: Rate::zero(),
        is_released: false,
        actual_distributed: 0,
        num_bids_distributed: 0,
    };
    if !bidding_info.is_valid_duration(now) {
        return Err(ContractError::InvalidBiddingTimeRange {});
    }
    let pools = match build_pools(s.config.premium_rate_per_slot, s.config.max_slot) {
        Ok(v) => v,
        Err(e) => {
            return Err(e);
        }
    };
    let entry = RoundEntry { bidding_info, distribution_info, pools };
    s.rounds.push(entry);
    s.last_round_id = new_round_id;
    proof {
        assert(final(s).rounds@.last() == final(s).rounds@[old(s).rounds@.len() as int]);
        assert forall|q: int| 0 <= q < final(s).rounds@.len() implies round_wf(
            #[trigger] final(s).rounds@[q],
            q + 1,
        ) by {
            if q < old(s).rounds@.len() {
                assert(final(s).rounds@[q] == old(s).rounds@[q]);
            }
        }
        assert forall|k: int| 0 <= k < final(s).bids@.len() implies bid_record_wf(
            #[trigger] final(s).bids@[k],
            k + 1,
            final(s).rounds@,
        ) by {
            assert(bid_record_wf(old(s).bids@[k], k + 1, old(s).rounds@));
            assert(final(s).rounds@[old(s).bids@[k].round - 1] == old(s).rounds@[old(
                s,
            ).bids@[k].round - 1]);
        }
    }
    Ok(new_round_id)
}

/// The pool total a submission adds onto: the existing slot total, or
/// zero when the slot's pool does not exist yet.
pub open spec fn submit_old_pool_total(old_pools: Seq<BidPool>, premium_slot: u8) -> int {
    if premium_slot as int <= old_pools.len() {
        old_pools[premium_slot - 1].total_bid_amount as int
    } else {
        0
    }
}

/// How a submission rewrites a round's pool list: slots up to the chosen
/// one exist afterwards (missing ones are created with zero totals and
/// their premium), the chosen slot's total grows by the amount, and every
/// other pool is untouched.
pub open spec fn submit_pool_updated(
    old_pools: Seq<BidPool>,
    new_pools: Seq<BidPool>,
    premium_slot: u8,
    amount: u128,
    per: Rate,
) -> bool {
    new_pools.len() == (if premium_slot as int <= old_pools.len() {
        old_pools.len() as int
    } else {
        premium_slot as int
    }) && (forall|k: int|
        0 <= k < old_pools.len() && k != premium_slot - 1 ==> new_pools[k] == old_pools[k]) && (
    forall|k: int|
        old_pools.len() <= k < new_pools.len() && k != premium_slot - 1 ==> new_pools[k] == (
        BidPool {
            slot: (k + 1) as u8,
            total_bid_amount: 0,
            premium_rate: Rate { atomics: (per.atomics * (k + 1)) as u128 },
            index_snapshot: Rate { atomics: 0 },
            received_per_token: Rate { atomics: 0 },
        })) && new_pools[premium_slot - 1] == (BidPool {
        slot: premium_slot,
        total_bid_amount: (submit_old_pool_total(old_pools, premium_slot) + amount) as u128,
        premium_rate: (if premium_slot as int <= old_pools.len() {
            old_pools[premium_slot - 1].premium_rate
        } else {
            Rate { atomics: (per.atomics * (premium_slot as int)) as u128 }
        }),
        index_snapshot: (if premium_slot as int <= old_pools.len() {
            old_pools[premium_slot - 1].index_snapshot
        } else {
            Rate { atomics: 0 }
        }),
        received_per_token: (if premium_slot as int <= old_pools.len() {
            old_pools[premium_slot - 1].received_per_token
        } else {
            Rate { atomics: 0 }
        }),
    })
}

/// The additions a submission performs that can exceed the 128-bit range:
/// the round total, the slot total, or the premium of a slot pool that
/// has to be created first.
pub open spec fn submit_overflow(s: State, round: u64, premium_slot: u8, amount: u128) -> bool {
    let entry = s.rounds@[round - 1];
    entry.bidding_info.total_bid_amount + amount > u128::MAX || (premium_slot as int
        <= entry.pools@.len() && entry.pools@[premium_slot - 1].total_bid_amount + amount
        > u128::MAX) || (premium_slot as int > entry.pools@.len()
        && s.config.premium_rate_per_slot.atomics * (premium_slot as int) > u128::MAX)
        || s.bids@.len() + 1 >= u64::MAX
}

/// Records one deposit: the amount is added to the round's and the slot's
/// running totals and a ledger record with the next id is appended.  The
/// deposit must meet the configured minimum, name a valid slot, and fall
/// inside the round's open window.  On any error the state is unchanged.
#[verifier::loop_isolation(false)]
pub fn execute_submit_bid(
    s: &mut State,
    now: u64,
    round: u64,
    premium_slot: u8,
    bidder: String,
    amount: u128,
) -> (r: Result<u64, ContractError>)
    requires
        state_wf(*old(s)),
    ensures
        state_wf(*final(s)),
        (match r {
            Ok(idx) => amount >= old(s).config.min_deposit_amount && 1 <= premium_slot <= old(
                s,
            ).config.max_slot && 1 <= round <= old(s).rounds@.len() && {
                let e_old = old(s).rounds@[round - 1];
                let e_new = final(s).rounds@[round - 1];
                e_old.bidding_info.start_time <= now <= e_old.bidding_info.end_time
                    && !submit_overflow(*old(s), round, premium_slot, amount) && idx == old(
                    s,
                ).bids@.len() + 1 && final(s).config == old(s).config && final(s).last_round_id
                    == old(s).last_round_id && final(s).rounds@.len() == old(s).rounds@.len() && (
                forall|q: int|
                    0 <= q < old(s).rounds@.len() && q != round - 1 ==> final(s).rounds@[q] == old(
                        s,
                    ).rounds@[q]) && e_new.distribution_info == e_old.distribution_info
                    && e_new.bidding_info == (BiddingInfo {
                    round: e_old.bidding_info.round,
                    start_time: e_old.bidding_info.start_time,
                    end_time: e_old.bidding_info.end_time,
                    total_bid_amount: (e_old.bidding_info.total_bid_amount + amount) as u128,
                    total_bid_matched: e_old.bidding_info.total_bid_matched,
                }) && submit_pool_updated(
                    e_old.pools@,
                    e_new.pools@,
                    premium_slot,
                    amount,
                    old(s).config.premium_rate_per_slot,
                ) && final(s).bids@ == old(s).bids@.push(
                    Bid {
                        idx,
                        round,
                        premium_slot,
                        timestamp: now,
                        bidder,
                        amount,
                        residue_bid: amount,
                        amount_received: 0,
                        is_distributed: false,
                    },
                )
            },
            Err(e) => *final(s) == *old(s) && (if amount < old(s).config.min_deposit_amount {
                e == (ContractError::MinDeposit {
                    min: old(s).config.min_deposit_amount,
                    deposit: amount,
                })
            } else if premium_slot < 1 || premium_slot > old(s).config.max_slot {
                e == (ContractError::InvalidPremiumSlot {
                    max_slot: old(s).config.max_slot,
                    slot: premium_slot,
                })
            } else if !(1 <= round <= old(s).rounds@.len()) {
                e == (ContractError::RoundNotFound { round })
            } else if !(old(s).rounds@[round - 1].bidding_info.start_time <= now <= old(
                s,
            ).rounds@[round - 1].bidding_info.end_time) {
                e == (ContractError::BidNotOpen {})
            } else {
                e == (ContractError::Overflow {}) && submit_overflow(
                    *old(s),
                    round,
                    premium_slot,
                    amount,
                )
            }),
        }),
{
    if amount < s.config.min_deposit_amount {
        return Err(ContractError::MinDeposit {
            min: s.config.min_deposit_amount,
            deposit: amount,
        });
    }
    if premium_slot < 1 || premium_slot > s.config.max_slot {
        return Err(ContractError::InvalidPremiumSlot {
            max_slot: s.config.max_slot,
            slot: premium_slot,
        });
    }
    if round < 1 || round > s.rounds.len() as u64 {
        return Err(ContractError::RoundNotFound { round });
    }
    let ridx = (round - 1) as usize;
    let binfo = s.rounds[ridx].bidding_info;
    if !binfo.opening(now) {
        return Err(ContractError::BidNotOpen {});
    }
    let mut entry = s.rounds[ridx].clone();
    let ghost pools_orig = entry.pools@;
    while entry.pools.len() < premium_slot as usize
        invariant
            pools_orig.len() <= entry.pools@.len(),
            entry.pools@.len() <= (if pools_orig.len() >= premium_slot as int {
                pools_orig.len() as int
            } else {
                premium_slot as int
            }),
            entry.bidding_info == old(s).rounds@[round - 1].bidding_info,
            entry.distribution_info == old(s).rounds@[round - 1].distribution_info,
            forall|k: int| 0 <= k < pools_orig.len() ==> entry.pools@[k] == pools_orig[k],
            forall|k: int|
                pools_orig.len() <= k < entry.pools@.len() ==> entry.pools@[k] == (BidPool {
                    slot: (k + 1) as u8,
                    total_bid_amount: 0,
                    premium_rate: Rate {
                        atomics: (s.config.premium_rate_per_slot.atomics * (k + 1)) as u128,
                    },
                    index_snapshot: Rate { atomics: 0 },
                    received_per_token: Rate { atomics: 0 },
                }),
            entry.pools@.len() > pools_orig.len()
                ==> s.config.premium_rate_per_slot.atomics * (entry.pools@.len() as int)
                <= u128::MAX,
        decreases premium_slot as int - entry.pools@.len(),
    {
        let slot_number = entry.pools.len() + 1;
        let premium = match s.config.premium_rate_per_slot.checked_scale(slot_number as u128) {
            Some(v) => v,
            None => {
                proof {
                    lemma_mul_inequality(
                        slot_number as int,
                        premium_slot as int,
                        s.config.premium_rate_per_slot.atomics as int,
                    );
                    assert((slot_number as int) * (s.config.premium_rate_per_slot.atomics as int)
                        == s.config.premium_rate_per_slot.atomics * (slot_number as int));
                    assert((premium_slot as int) * (s.config.premium_rate_per_slot.atomics as int)
                        == s.config.premium_rate_per_slot.atomics * (premium_slot as int));
                }
                return Err(ContractError::Overflow {});
            }
        };
        entry.pools.push(
            BidPool {
                slot: slot_number as u8,
                total_bid_amount: 0,
                premium_rate: premium,
                index_snapshot: Rate::zero(),
                received_per_token: Rate::zero(),
            },
        );
    }
    let new_round_total = match entry.bidding_info.total_bid_amount.checked_add(amount) {
        Some(v) => v,
        None => {
            return Err(ContractError::Overflow {});
        }
    };
    let pidx = (premium_slot - 1) as usize;
    let pool = entry.pools[pidx];
    let new_pool_total = match pool.total_bid_amount.checked_add(amount) {
        Some(v) => v,
        None => {
            return Err(ContractError::Overflow {});
        }
    };
    entry.bidding_info = BiddingInfo {
        round: entry.bidding_info.round,
        start_time: entry.bidding_info.start_time,
        end_time: entry.bidding_info.end_time,
        total_bid_amount: new_round_total,
        total_bid_matched: entry.bidding_info.total_bid_matched,
    };
    entry.pools[pidx] = BidPool {
        slot: pool.slot,
        total_bid_amount: new_pool_total,
        premium_rate: pool.premium_rate,
        index_snapshot: pool.index_snapshot,
        received_per_token: pool.received_per_token,
    };
    if (s.bids.len() as u64) >= u64::MAX - 1 {
        return Err(ContractError::Overflow {});
    }
    let idx = pop_bid_idx(s);
    let bid = Bid {
        idx,
        round,
        premium_slot,
        timestamp: now,
        bidder,
        amount,
        residue_bid: amount,
        amount_received: 0,
        is_distributed: false,
    };
    s.rounds[ridx] = entry;
    proof {
        assert forall|q: int| 0 <= q < s.rounds@.len() implies round_wf(
            #[trigger] s.rounds@[q],
            q + 1,
        ) by {
            if q != ridx {
                assert(s.rounds@[q] == old(s).rounds@[q]);
            } else {
                let e_old = old(s).rounds@[q];
                let e_new = s.rounds@[q];
                assert(round_wf(e_old, q + 1));
                assert forall|k: int| 0 <= k < e_new.pools@.len() implies (
                #[trigger] e_new.pools@[k]).slot == k + 1
                    && e_new.pools@[k].index_snapshot.atomics <= RATE_DENOM by {
                    if k < e_old.pools@.len() {
                        assert(e_old.pools@[k].slot == k + 1);
                    }
                }
                if !e_new.distribution_info.is_released {
                    assert forall|k: int|
                        0 <= k < e_new.pools@.len() implies e_new.pools@[k].index_snapshot.atomics
                        == 0 && e_new.pools@[k].received_per_token.atomics == 0 by {
                        if k < e_old.pools@.len() {
                            assert(e_old.pools@[k].index_snapshot.atomics == 0);
                        }
                    }
                }
            }
        }
        assert forall|k: int| 0 <= k < s.bids@.len() implies bid_record_wf(
            #[trigger] s.bids@[k],
            k + 1,
            s.rounds@,
        ) by {
            assert(bid_record_wf(old(s).bids@[k], k + 1, old(s).rounds@));
            if old(s).bids@[k].round - 1 == ridx as int {
                assert(s.rounds@[ridx as int].pools@.len() >= old(s).rounds@[ridx as int].pools@.len());
            } else {
                assert(s.rounds@[old(s).bids@[k].round - 1] == old(s).rounds@[old(
                    s,
                ).bids@[k].round - 1]);
            }
        }
        assert(state_wf(*s));
        assert(bid_record_wf(bid, s.bids@.len() as int + 1, s.rounds@));
    }
    store_bid(s, bid);
    Ok(idx)
}

/// Closes a round: sets the exchange rate once, runs the allocation walk
/// over the round's pools with the round's distribution budget, freezes
/// the resulting fill ratios and payout rates, and returns the value
/// movements the walk decided: a burn of the matched underlying tokens,
/// and, when budget is left over, its transfer back to the owner.  Only
/// the owner may call this, only after the round's window has closed, and
/// only once.  On any error the state is unchanged.
pub fn execute_finalize_bidding_round_result(
    s: &mut State,
    now: u64,
    sender: &String,
    round: u64,
    exchange_rate: Rate,
) -> (r: Result<Vec<ValueFlow>, ContractError>)
    requires
        state_wf(*old(s)),
    ensures
        state_wf(*final(s)),
        (match r {
            Ok(msgs) => sender@ == old(s).config.owner@ && 1 <= round <= old(s).rounds@.len()
                && {
                let e_old = old(s).rounds@[round - 1];
                let alloc = allocate_seq(
                    e_old.pools@,
                    e_old.distribution_info.total_distribution as int,
                    0,
                    exchange_rate,
                );
                e_old.bidding_info.end_time < now && !e_old.distribution_info.is_released
                    && alloc is Some && {
                    let t = alloc->Some_0;
                    let e_new = final(s).rounds@[round - 1];
                    final(s).config == old(s).config && final(s).bids == old(s).bids && final(s).last_round_id == old(s).last_round_id && final(s).rounds@.len() == old(
                        s,
                    ).rounds@.len() && (forall|q: int|
                        0 <= q < old(s).rounds@.len() && q != round - 1 ==> final(s).rounds@[q]
                            == old(s).rounds@[q]) && e_new.pools@ == t.0 && e_new.bidding_info
                        == (BiddingInfo {
                        round: e_old.bidding_info.round,
                        start_time: e_old.bidding_info.start_time,
                        end_time: e_old.bidding_info.end_time,
                        total_bid_amount: e_old.bidding_info.total_bid_amount,
                        total_bid_matched: t.2 as u128,
                    }) && e_new.distribution_info == (DistributionInfo {
                        total_distribution: e_old.distribution_info.total_distribution,
                        exchange_rate,
                        is_released: true,
                        actual_distributed: (e_old.distribution_info.total_distribution
                            - t.1) as u128,
                        num_bids_distributed: e_old.distribution_info.num_bids_distributed,
                    }) && (if t.1 == 0 {
                        msgs@ == seq![
                            ValueFlow::Burn {
                                asset: old(s).config.underlying_token,
                                amount: t.2 as u128,
                            },
                        ]
                    } else {
                        msgs@ == seq![
                            ValueFlow::Burn {
                                asset: old(s).config.underlying_token,
                                amount: t.2 as u128,
                            },
                            ValueFlow::Transfer {
                                asset: old(s).config.distribution_token,
                                recipient: old(s).config.owner,
                                amount: t.1 as u128,
                            },
                        ]
                    })
                }
            },
            Err(e) => *final(s) == *old(s) && (if sender@ != old(s).config.owner@ {
                e == (ContractError::Unauthorized {})
            } else if !(1 <= round <= old(s).rounds@.len()) {
                e == (ContractError::RoundNotFound { round })
            } else if !(old(s).rounds@[round - 1].bidding_info.end_time < now) {
                e == (ContractError::BidNotEnded {})
            } else if old(s).rounds@[round - 1].distribution_info.is_released {
                e == (ContractError::RoundAlreadyFinalized { round })
            } else {
                e == (ContractError::Overflow {}) && allocate_seq(
                    old(s).rounds@[round - 1].pools@,
                    old(s).rounds@[round - 1].distribution_info.total_distribution as int,
                    0,
                    exchange_rate,
                ) is None
            }),
        }),
{
    if *sender != s.config.owner {
        return Err(ContractError::Unauthorized {});
    }
    if round < 1 || round > s.rounds.len() as u64 {
        return Err(ContractError::RoundNotFound { round });
    }
    let ridx = (round - 1) as usize;
    let binfo = s.rounds[ridx].bidding_info;
    if !binfo.finished(now) {
        return Err(ContractError::BidNotEnded {});
    }
    let dinfo = s.rounds[ridx].distribution_info;
    if dinfo.is_released {
        return Err(ContractError::RoundAlreadyFinalized { round });
    }
    let mut pools = s.rounds[ridx].pools.clone();
    proof {
        assert(pools@ =~= s.rounds@[ridx as int].pools@);
    }
    let mut remaining: u128 = dinfo.total_distribution;
    let total_matched = match process_calc_distribution_amount(
        &mut pools,
        &mut remaining,
        exchange_rate,
    ) {
        Ok(v) => v,
        Err(e) => {
            return Err(e);
        }
    };
    let ghost e_old = old(s).rounds@[round - 1];
    let ghost alloc = allocate_seq(
        e_old.pools@,
        e_old.distribution_info.total_distribution as int,
        0,
        exchange_rate,
    );
    proof {
        lemma_allocate_bounds(
            e_old.pools@,
            e_old.distribution_info.total_distribution as int,
            0,
            exchange_rate,
        );
        lemma_allocate_len(
            e_old.pools@,
            e_old.distribution_info.total_distribution as int,
            0,
            exchange_rate,
        );
    }
    let actual_distributed = dinfo.total_distribution - remaining;
    let mut entry = s.rounds[ridx].clone();
    entry.pools = pools;
    entry.bidding_info = BiddingInfo {
        round: entry.bidding_info.round,
        start_time: entry.bidding_info.start_time,
        end_time: entry.bidding_info.end_time,
        total_bid_amount: entry.bidding_info.total_bid_amount,
        total_bid_matched: total_matched,
    };
    entry.distribution_info = DistributionInfo {
        total_distribution: dinfo.total_distribution,
        exchange_rate,
        is_released: true,
        actual_distributed,
        num_bids_distributed: dinfo.num_bids_distributed,
    };
    s.rounds[ridx] = entry;
    let mut msgs: Vec<ValueFlow> = Vec::new();
    msgs.push(ValueFlow::Burn { asset: s.config.underlying_token.clone(), amount: total_matched });
    if remaining > 0 {
        msgs.push(
            ValueFlow::Transfer {
                asset: s.config.distribution_token.clone(),
                recipient: s.config.owner.clone(),
                amount: remaining,
            },
        );
        proof {
            assert(msgs@ =~= seq![
                ValueFlow::Burn { asset: old(s).config.underlying_token, amount: total_matched },
                ValueFlow::Transfer {
                    asset: old(s).config.distribution_token,
                    recipient: old(s).config.owner,
                    amount: remaining,
                },
            ]);
        }
    } else {
        proof {
            assert(msgs@ =~= seq![
                ValueFlow::Burn { asset: old(s).config.underlying_token, amount: total_matched },
            ]);
        }
    }
    proof {
        let t = alloc->Some_0;
        assert forall|q: int| 0 <= q < s.rounds@.len() implies round_wf(
            #[trigger] s.rounds@[q],
            q + 1,
        ) by {
            if q != ridx as int {
                assert(s.rounds@[q] == old(s).rounds@[q]);
            } else {
                let e_new = s.rounds@[q];
                assert(round_wf(e_old, q + 1));
                assert(e_new.pools@ == t.0);
                assert forall|k: int| 0 <= k < e_new.pools@.len() implies (
                #[trigger] e_new.pools@[k]).slot == k + 1
                    && e_new.pools@[k].index_snapshot.atomics <= RATE_DENOM by {
                    lemma_allocate_shape_at(
                        e_old.pools@,
                        e_old.distribution_info.total_distribution as int,
                        0,
                        exchange_rate,
                        k,
                    );
                    assert(e_old.pools@[k].slot == k + 1);
                }
            }
        }
        assert forall|k: int| 0 <= k < s.bids@.len() implies bid_record_wf(
            #[trigger] s.bids@[k],
            k + 1,
            s.rounds@,
        ) by {
            assert(bid_record_wf(old(s).bids@[k], k + 1, old(s).rounds@));
            if old(s).bids@[k].round - 1 == ridx as int {
                assert(s.rounds@[ridx as int].pools@.len() == old(
                    s,
                ).rounds@[ridx as int].pools@.len());
            } else {
                assert(s.rounds@[old(s).bids@[k].round - 1] == old(s).rounds@[old(
                    s,
                ).bids@[k].round - 1]);
            }
        }
    }
    Ok(msgs)
}

/// The value movements one settled bid emits: the reward in the
/// distribution asset if it is nonzero, then the refund of the unmatched
/// part in the underlying asset if it is nonzero.
pub open spec fn settle_flows(
    b: Bid,
    recv: int,
    resid: int,
    dist_token: AssetInfo,
    under_token: AssetInfo,
) -> Seq<ValueFlow> {
    (if recv > 0 {
        seq![
            ValueFlow::Transfer {
                asset: dist_token,
                recipient: b.bidder,
                amount: recv as u128,
            },
        ]
    } else {
        Seq::empty()
    }) + (if resid > 0 {
        seq![
            ValueFlow::Transfer {
                asset: under_token,
                recipient: b.bidder,
                amount: resid as u128,
            },
        ]
    } else {
        Seq::empty()
    })
}

/// The settlement walk over one page of bid ids.
///
/// Each id is looked up in the ledger; ids out of range, bids already
/// settled, and bids whose slot has no pool are skipped.  Every other bid
/// receives its reward `amount * payout_rate` and its refund
/// `amount * (1 - fill_ratio)`, both rounded down, is marked settled, and
/// bumps the settled counter by one.  `None` when a reward or the counter
/// would exceed its range, or a fill ratio above one is met.
pub open spec fn settle_fold(
    bids: Seq<Bid>,
    ids: Seq<u64>,
    pools: Seq<BidPool>,
    dist_token: AssetInfo,
    under_token: AssetInfo,
    counter: int,
) -> Option<(Seq<Bid>, Seq<ValueFlow>, int)>
    decreases ids.len(),
{
    if ids.len() == 0 {
        Some((bids, Seq::empty(), counter))
    } else {
        let id = ids[0] as int;
        if !(1 <= id <= bids.len()) {
            settle_fold(bids, ids.skip(1), pools, dist_token, under_token, counter)
        } else {
            let b = bids[id - 1];
            if b.is_distributed || !(1 <= b.premium_slot <= pools.len()) {
                settle_fold(bids, ids.skip(1), pools, dist_token, under_token, counter)
            } else {
                let pool = pools[b.premium_slot - 1];
                let recv = b.amount * pool.received_per_token.atomics / (RATE_DENOM as int);
                let idx_at = pool.index_snapshot.atomics as int;
                if recv > u128::MAX || idx_at > RATE_DENOM || counter + 1 > u64::MAX {
                    None
                } else {
                    let resid = b.amount * (RATE_DENOM - idx_at) / (RATE_DENOM as int);
                    let b2 = Bid {
                        idx: b.idx,
                        round: b.round,
                        premium_slot: b.premium_slot,
                        timestamp: b.timestamp,
                        bidder: b.bidder,
                        amount: b.amount,
                        residue_bid: resid as u128,
                        amount_received: recv as u128,
                        is_distributed: true,
                    };
                    match settle_fold(
                        bids.update(id - 1, b2),
                        ids.skip(1),
                        pools,
                        dist_token,
                        under_token,
                        counter + 1,
                    ) {
                        Some(t) => Some(
                            (t.0, settle_flows(b, recv, resid, dist_token, under_token) + t.1, t.2),
                        ),
                        None => None,
                    }
                }
            }
        }
    }
}

/// Prepends already-emitted flows onto the result of settling the
/// remaining ids; `None` (overflow) stays `None`.
pub open spec fn settle_compose(
    flows: Seq<ValueFlow>,
    o: Option<(Seq<Bid>, Seq<ValueFlow>, int)>,
) -> Option<(Seq<Bid>, Seq<ValueFlow>, int)> {
    match o {
        Some(t) => Some((t.0, flows + t.1, t.2)),
        None => None,
    }
}

/// The settlement walk only rewrites settlement fields: the ledger keeps
/// its length, every record keeps its id, round, slot, owner, time and
/// amount, and a record that was already settled is not touched at all.
pub proof fn lemma_settle_preserves(
    bids: Seq<Bid>,
    ids: Seq<u64>,
    pools: Seq<BidPool>,
    dist_token: AssetInfo,
    under_token: AssetInfo,
    counter: int,
    k: int,
)
    requires
        settle_fold(bids, ids, pools, dist_token, under_token, counter) is Some,
        0 <= k < bids.len(),
    ensures
        ({
            let t = settle_fold(bids, ids, pools, dist_token, under_token, counter)->Some_0;
            t.0.len() == bids.len() && t.0[k].idx == bids[k].idx && t.0[k].round == bids[k].round
                && t.0[k].premium_slot == bids[k].premium_slot && t.0[k].timestamp
                == bids[k].timestamp && t.0[k].bidder == bids[k].bidder && t.0[k].amount
                == bids[k].amount && (bids[k].is_distributed ==> t.0[k] == bids[k])
        }),
    decreases ids.len(),
{
    if ids.len() == 0 {
    } else {
        let id = ids[0] as int;
        if !(1 <= id <= bids.len()) {
            lemma_settle_preserves(bids, ids.skip(1), pools, dist_token, under_token, counter, k);
        } else {
            let b = bids[id - 1];
            if b.is_distributed || !(1 <= b.premium_slot <= pools.len()) {
                lemma_settle_preserves(
                    bids,
                    ids.skip(1),
                    pools,
                    dist_token,
                    under_token,
                    counter,
                    k,
                );
            } else {
                let pool = pools[b.premium_slot - 1];
                let recv = b.amount * pool.received_per_token.atomics / (RATE_DENOM as int);
                let idx_at = pool.index_snapshot.atomics as int;
                if recv > u128::MAX || idx_at > RATE_DENOM || counter + 1 > u64::MAX {
                } else {
                    let resid = b.amount * (RATE_DENOM - idx_at) / (RATE_DENOM as int);
                    let b2 = Bid {
                        idx: b.idx,
                        round: b.round,
                        premium_slot: b.premium_slot,
                        timestamp: b.timestamp,
                        bidder: b.bidder,
                        amount: b.amount,
                        residue_bid: resid as u128,
                        amount_received: recv as u128,
                        is_distributed: true,
                    };
                    lemma_settle_preserves(
                        bids.update(id - 1, b2),
                        ids.skip(1),
                        pools,
                        dist_token,
                        under_token,
                        counter + 1,
                        k,
                    );
                }
            }
        }
    }
}

/// After the settlement walk, every id on the page that names a real bid
/// with a real slot pool is settled.
pub proof fn lemma_settle_marks(
    bids: Seq<Bid>,
    ids: Seq<u64>,
    pools: Seq<BidPool>,
    dist_token: AssetInfo,
    under_token: AssetInfo,
    counter: int,
    q: int,
)
    requires
        settle_fold(bids, ids, pools, dist_token, under_token, counter) is Some,
        0 <= q < ids.len(),
        1 <= ids[q] <= bids.len(),
        1 <= bids[ids[q] - 1].premium_slot <= pools.len(),
    ensures
        ({
            let t = settle_fold(bids, ids, pools, dist_token, under_token, counter)->Some_0;
            t.0[ids[q] - 1].is_distributed
        }),
    decreases ids.len(),
{
    let id = ids[0] as int;
    if !(1 <= id <= bids.len()) {
        if q == 0 {
        } else {
            lemma_settle_marks(
                bids,
                ids.skip(1),
                pools,
                dist_token,
                under_token,
                counter,
                q - 1,
            );
        }
    } else {
        let b = bids[id - 1];
        if b.is_distributed || !(1 <= b.premium_slot <= pools.len()) {
            if q == 0 {
                lemma_settle_preserves(
                    bids,
                    ids.skip(1),
                    pools,
                    dist_token,
                    under_token,
                    counter,
                    id - 1,
                );
            } else {
                lemma_settle_marks(
                    bids,
                    ids.skip(1),
                    pools,
                    dist_token,
                    under_token,
                    counter,
                    q - 1,
                );
            }
        } else {
            let pool = pools[b.premium_slot - 1];
            let recv = b.amount * pool.received_per_token.atomics / (RATE_DENOM as int);
            let idx_at = pool.index_snapshot.atomics as int;
            let resid = b.amount * (RATE_DENOM - idx_at) / (RATE_DENOM as int);
            let b2 = Bid {
                idx: b.idx,
                round: b.round,
                premium_slot: b.premium_slot,
                timestamp: b.timestamp,
                bidder: b.bidder,
                amount: b.amount,
                residue_bid: resid as u128,
                amount_received: recv as u128,
                is_distributed: true,
            };
            let bids2 = bids.update(id - 1, b2);
            if q == 0 {
                lemma_settle_preserves(
                    bids2,
                    ids.skip(1),
                    pools,
                    dist_token,
                    under_token,
                    counter + 1,
                    id - 1,
                );
            } else {
                lemma_settle_marks(
                    bids2,
                    ids.skip(1),
                    pools,
                    dist_token,
                    under_token,
                    counter + 1,
                    q - 1,
                );
            }
        }
    }
}

/// A settlement walk over a page whose every id is out of range, already
/// settled, or without a slot pool changes nothing and emits nothing.
pub proof fn lemma_settle_noop(
    bids: Seq<Bid>,
    ids: Seq<u64>,
    pools: Seq<BidPool>,
    dist_token: AssetInfo,
    under_token: AssetInfo,
    counter: int,
)
    requires
        forall|q: int|
            0 <= q < ids.len() ==> !(1 <= ids[q] <= bids.len())
                || (#[trigger] bids[ids[q] - 1]).is_distributed
                || !(1 <= bids[ids[q] - 1].premium_slot <= pools.len()),
    ensures
        settle_fold(bids, ids, pools, dist_token, under_token, counter) == Some(
            (bids, Seq::<ValueFlow>::empty(), counter),
        ),
    decreases ids.len(),
{
    if ids.len() == 0 {
    } else {
        assert(!(1 <= ids[0] <= bids.len()) || bids[ids[0] - 1].is_distributed || !(1
            <= bids[ids[0] - 1].premium_slot <= pools.len()));
        assert(forall|q: int|
            0 <= q < ids.skip(1).len() ==> ids.skip(1)[q] == ids[q + 1]);
        lemma_settle_noop(bids, ids.skip(1), pools, dist_token, under_token, counter);
    }
}

/// Settlement is idempotent: running the walk again over the same page,
/// starting from the state the first walk produced, changes nothing,
/// emits no value movement, and leaves the settled counter where it was.
pub proof fn lemma_settle_idempotent(
    bids: Seq<Bid>,
    ids: Seq<u64>,
    pools: Seq<BidPool>,
    dist_token: AssetInfo,
    under_token: AssetInfo,
    counter: int,
)
    requires
        settle_fold(bids, ids, pools, dist_token, under_token, counter) is Some,
    ensures
        ({
            let t = settle_fold(bids, ids, pools, dist_token, under_token, counter)->Some_0;
            settle_fold(t.0, ids, pools, dist_token, under_token, t.2) == Some(
                (t.0, Seq::<ValueFlow>::empty(), t.2),
            )
        }),
{
    let t = settle_fold(bids, ids, pools, dist_token, under_token, counter)->Some_0;
    lemma_settle_len(bids, ids, pools, dist_token, under_token, counter);
    assert forall|q: int|
        0 <= q < ids.len() implies !(1 <= ids[q] <= t.0.len()) || (#[trigger] t.0[ids[q]
        - 1]).is_distributed || !(1 <= t.0[ids[q] - 1].premium_slot <= pools.len()) by {
        if 1 <= ids[q] <= bids.len() {
            lemma_settle_preserves(
                bids,
                ids,
                pools,
                dist_token,
                under_token,
                counter,
                ids[q] - 1,
            );
            if 1 <= bids[ids[q] - 1].premium_slot <= pools.len() {
                lemma_settle_marks(bids, ids, pools, dist_token, under_token, counter, q);
            }
        }
    }
    lemma_settle_noop(t.0, ids, pools, dist_token, under_token, t.2);
}

proof fn lemma_settle_len(
    bids: Seq<Bid>,
    ids: Seq<u64>,
    pools: Seq<BidPool>,
    dist_token: AssetInfo,
    under_token: AssetInfo,
    counter: int,
)
    requires
        settle_fold(bids, ids, pools, dist_token, under_token, counter) is Some,
    ensures
        settle_fold(bids, ids, pools, dist_token, under_token, counter)->Some_0.0.len()
            == bids.len(),
    decreases ids.len(),
{
    if ids.len() == 0 {
    } else {
        let id = ids[0] as int;
        if !(1 <= id <= bids.len()) {
            lemma_settle_len(bids, ids.skip(1), pools, dist_token, under_token, counter);
        } else {
            let b = bids[id - 1];
            if b.is_distributed || !(1 <= b.premium_slot <= pools.len()) {
                lemma_settle_len(bids, ids.skip(1), pools, dist_token, under_token, counter);
            } else {
                let pool = pools[b.premium_slot - 1];
                let recv = b.amount * pool.received_per_token.atomics / (RATE_DENOM as int);
                let idx_at = pool.index_snapshot.atomics as int;
                if recv > u128::MAX || idx_at > RATE_DENOM || counter + 1 > u64::MAX {
                } else {
                    let resid = b.amount * (RATE_DENOM - idx_at) / (RATE_DENOM as int);
                    let b2 = Bid {
                        idx: b.idx,
                        round: b.round,
                        premium_slot: b.premium_slot,
                        timestamp: b.timestamp,
                        bidder: b.bidder,
                        amount: b.amount,
                        residue_bid: resid as u128,
                        amount_received: recv as u128,
                        is_distributed: true,
                    };
                    lemma_settle_len(
                        bids.update(id - 1, b2),
                        ids.skip(1),
                        pools,
                        dist_token,
                        under_token,
                        counter + 1,
                    );
                }
            }
        }
    }
}

/// Settles one page of a round's bids: for each bid id on the page that
/// is not yet settled, computes the reward and refund from the slot's
/// frozen rates, marks the bid settled, bumps the round's settled
/// counter, and collects the value movements.  Requires the round to be
/// released.  Safe to repeat: settled bids are skipped.  On any error
/// the state is unchanged.
#[verifier::loop_isolation(false)]
pub fn execute_distribute(
    s: &mut State,
    round: u64,
    start_after: Option<u64>,
    limit: Option<u64>,
) -> (r: Result<Vec<ValueFlow>, ContractError>)
    requires
        state_wf(*old(s)),
    ensures
        state_wf(*final(s)),
        (match r {
            Ok(msgs) => 1 <= round <= old(s).rounds@.len() && {
                let e_old = old(s).rounds@[round - 1];
                let page = page_ids_asc(
                    old(s).bids@,
                    round,
                    0,
                    asc_cursor(start_after),
                    effective_limit(limit),
                );
                let fold = settle_fold(
                    old(s).bids@,
                    page,
                    e_old.pools@,
                    old(s).config.distribution_token,
                    old(s).config.underlying_token,
                    e_old.distribution_info.num_bids_distributed as int,
                );
                e_old.distribution_info.is_released && fold is Some && {
                    let t = fold->Some_0;
                    final(s).bids@ == t.0 && msgs@ == t.1 && final(s).config == old(s).config
                        && final(s).last_round_id == old(s).last_round_id && final(s).rounds@.len() == old(s).rounds@.len() && (forall|q: int|
                        0 <= q < old(s).rounds@.len() && q != round - 1 ==> final(s).rounds@[q]
                            == old(s).rounds@[q]) && {
                        let e_new = final(s).rounds@[round - 1];
                        e_new.bidding_info == e_old.bidding_info && e_new.pools@ == e_old.pools@
                            && e_new.distribution_info == (DistributionInfo {
                            total_distribution: e_old.distribution_info.total_distribution,
                            exchange_rate: e_old.distribution_info.exchange_rate,
                            is_released: true,
                            actual_distributed: e_old.distribution_info.actual_distributed,
                            num_bids_distributed: t.2 as u64,
                        })
                    }
                }
            },
            Err(e) => *final(s) == *old(s) && (if !(1 <= round <= old(s).rounds@.len()) {
                e == (ContractError::RoundNotFound { round })
            } else if !old(s).rounds@[round - 1].distribution_info.is_released {
                e == (ContractError::BidNotEnded {})
            } else {
                e == (ContractError::Overflow {}) && settle_fold(
                    old(s).bids@,
                    page_ids_asc(
                        old(s).bids@,
                        round,
                        0,
                        asc_cursor(start_after),
                        effective_limit(limit),
                    ),
                    old(s).rounds@[round - 1].pools@,
                    old(s).config.distribution_token,
                    old(s).config.underlying_token,
                    old(s).rounds@[round - 1].distribution_info.num_bids_distributed as int,
                ) is None
            }),
        }),
{
    if round < 1 || round > s.rounds.len() as u64 {
        return Err(ContractError::RoundNotFound { round });
    }
    let ridx = (round - 1) as usize;
    let dinfo = s.rounds[ridx].distribution_info;
    if !dinfo.is_released {
        return Err(ContractError::BidNotEnded {});
    }
    let ids = read_bids_by_round(s, round, start_after, limit, None);
    let mut new_bids = s.bids.clone();
    proof {
        assert forall|k: int| 0 <= k < s.bids@.len() implies new_bids@[k] == s.bids@[k] by {
            assert(cloned::<Bid>(s.bids@[k], new_bids@[k]));
        }
        assert(new_bids@ =~= s.bids@);
    }
    let mut msgs: Vec<ValueFlow> = Vec::new();
    let mut counter: u64 = dinfo.num_bids_distributed;
    let mut t: usize = 0;
    let ghost bids0 = s.bids@;
    let ghost pools0 = s.rounds@[ridx as int].pools@;
    let ghost dist_token = s.config.distribution_token;
    let ghost under_token = s.config.underlying_token;
    let ghost c0 = dinfo.num_bids_distributed as int;
    proof {
        assert(ids@.skip(0) =~= ids@);
        assert(Seq::<ValueFlow>::empty() + settle_fold(
            bids0,
            ids@,
            pools0,
            dist_token,
            under_token,
            c0,
        )->Some_0.1 =~= settle_fold(bids0, ids@, pools0, dist_token, under_token, c0)->Some_0.1);
    }
    while t < ids.len()
        invariant
            t <= ids@.len(),
            new_bids@.len() == bids0.len(),
            forall|k: int|
                0 <= k < bids0.len() ==> (#[trigger] new_bids@[k]).idx == bids0[k].idx
                    && new_bids@[k].round == bids0[k].round && new_bids@[k].premium_slot
                    == bids0[k].premium_slot,
            settle_fold(bids0, ids@, pools0, dist_token, under_token, c0) == settle_compose(
                msgs@,
                settle_fold(
                    new_bids@,
                    ids@.skip(t as int),
                    pools0,
                    dist_token,
                    under_token,
                    counter as int,
                ),
            ),
        decreases ids@.len() - t,
    {
        let ghost ids_suffix = ids@.skip(t as int);
        proof {
            assert(ids_suffix[0] == ids@[t as int]);
            assert(ids_suffix.skip(1) =~= ids@.skip(t as int + 1));
        }
        let id = ids[t];
        if id < 1 || id > new_bids.len() as u64 {
            t = t + 1;
            continue;
        }
        let bidx = (id - 1) as usize;
        let slot_ok = {
            let b_slot = new_bids[bidx].premium_slot;
            b_slot >= 1 && (b_slot as usize) <= s.rounds[ridx].pools.len()
        };
        if new_bids[bidx].is_distributed || !slot_ok {
            t = t + 1;
            continue;
        }
        let b = new_bids[bidx].clone();
        let pool = s.rounds[ridx].pools[(b.premium_slot - 1) as usize];
        proof {
            assert(pools_wf(pools0));
            assert(pool == pools0[b.premium_slot - 1]);
            assert(pool.index_snapshot.atomics <= RATE_DENOM);
        }
        let recv = match amount_mul_rate(b.amount, pool.received_per_token) {
            Some(v) => v,
            None => {
                return Err(ContractError::Overflow {});
            }
        };
        let new_counter = match counter.checked_add(1) {
            Some(v) => v,
            None => {
                return Err(ContractError::Overflow {});
            }
        };
        let one_minus = Rate::one().sub(pool.index_snapshot);
        proof {
            lemma_matched_at_most_total(b.amount as int, one_minus.atomics as int);
        }
        let resid = match amount_mul_rate(b.amount, one_minus) {
            Some(v) => v,
            None => {
                // Unreachable: the refund is at most the amount itself.
                return Err(ContractError::Overflow {});
            }
        };
        let bidder_for_reward = b.bidder.clone();
        let bidder_for_refund = b.bidder.clone();
        let b2 = Bid {
            idx: b.idx,
            round: b.round,
            premium_slot: b.premium_slot,
            timestamp: b.timestamp,
            bidder: b.bidder,
            amount: b.amount,
            residue_bid: resid,
            amount_received: recv,
            is_distributed: true,
        };
        let ghost msgs_pre = msgs@;
        if recv > 0 {
            msgs.push(
                ValueFlow::Transfer {
                    asset: s.config.distribution_token.clone(),
                    recipient: bidder_for_reward,
                    amount: recv,
                },
            );
        }
        if resid > 0 {
            msgs.push(
                ValueFlow::Transfer {
                    asset: s.config.underlying_token.clone(),
                    recipient: bidder_for_refund,
                    amount: resid,
                },
            );
        }
        let ghost bids_pre = new_bids@;
        new_bids[bidx] = b2;
        counter = new_counter;
        proof {
            let flows1 = settle_flows(
                bids_pre[id - 1],
                recv as int,
                resid as int,
                dist_token,
                under_token,
            );
            assert(msgs@ =~= msgs_pre + flows1);
            assert(new_bids@ =~= bids_pre.update(id - 1, b2));
            match settle_fold(
                new_bids@,
                ids@.skip(t as int + 1),
                pools0,
                dist_token,
                under_token,
                counter as int,
            ) {
                Some(t2) => {
                    assert(msgs_pre + (flows1 + t2.1) =~= (msgs_pre + flows1) + t2.1);
                }
                None => {}
            }
        }
        t = t + 1;
    }
    proof {
        assert(ids@.skip(ids@.len() as int) =~= Seq::<u64>::empty());
        match settle_fold(bids0, ids@, pools0, dist_token, under_token, c0) {
            Some(t2) => {
                assert(msgs@ + Seq::<ValueFlow>::empty() =~= msgs@);
            }
            None => {}
        }
    }
    s.bids = new_bids;
    let mut entry = s.rounds[ridx].clone();
    entry.distribution_info = DistributionInfo {
        total_distribution: dinfo.total_distribution,
        exchange_rate: dinfo.exchange_rate,
        is_released: true,
        actual_distributed: dinfo.actual_distributed,
        num_bids_distributed: counter,
    };
    s.rounds[ridx] = entry;
    proof {
        assert forall|q: int| 0 <= q < s.rounds@.len() implies round_wf(
            #[trigger] s.rounds@[q],
            q + 1,
        ) by {
            if q != ridx as int {
                assert(s.rounds@[q] == old(s).rounds@[q]);
            } else {
                assert(round_wf(old(s).rounds@[q], q + 1));
                assert(s.rounds@[q].pools@ == old(s).rounds@[q].pools@);
            }
        }
        assert forall|k: int| 0 <= k < s.bids@.len() implies bid_record_wf(
            #[trigger] s.bids@[k],
            k + 1,
            s.rounds@,
        ) by {
            assert(bid_record_wf(old(s).bids@[k], k + 1, old(s).rounds@));
            assert(s.rounds@[s.bids@[k].round - 1].pools@.len() == old(s).rounds@[s.bids@[k].round
                - 1].pools@.len());
        }
    }
    Ok(msgs)
}

} // verus!
