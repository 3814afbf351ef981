use coharvest_bid_pool::{
    check_wf, count_number_bids_in_round, execute_create_new_round, execute_distribute,
    execute_finalize_bidding_round_result, execute_submit_bid, execute_update_config, instantiate,
    into_cosmos_msg, query_bid, query_bidding_info, query_bids_by_user, query_bids_idx_by_user,
    query_estimate_amount_receive, query_estimate_amount_receive_of_bid, read_bids_by_round,
    read_or_create_bid_pool, AssetInfo, Bid, BidPool, BiddingInfo, BiddingInfoResponse, Config,
    ContractError, DistributionInfo, EstimateAmountReceiveOfBidResponse, InstantiateMsg, Rate,
    State, ValueFlow,
};

const OWNER: &str = "owner";
const ORAIX_ADDR: &str = "orai1lus0f0rhx8s03gdllx2n6vhkmf0536dv57wfge";
const USDC: &str = "orai15un8msx3n5zf9ahlxmfeqd2kwa5wm0nrpxer304m9nd5q6qq0g6sku5pdd";
const NOW: u64 = 1571797419;

fn rate(numerator: u128, denominator: u128) -> Rate {
    Rate::from_ratio(numerator, denominator).unwrap()
}

pub fn init() -> State {
    instantiate(InstantiateMsg {
        owner: OWNER.to_string(),
        underlying_token: AssetInfo::Token {
            contract_addr: ORAIX_ADDR.to_string(),
        },
        distribution_token: AssetInfo::Token {
            contract_addr: USDC.to_string(),
        },
        max_slot: 25,
        premium_rate_per_slot: rate(1, 100),
        min_deposit_amount: 100_000000,
        treasury: "treasury".to_string(),
        bidding_duration: 86400,
    })
}

pub fn do_submit_bid(
    state: &mut State,
    now: u64,
    sender: &str,
    amount: u128,
    round: u64,
    premium_slot: u8,
) -> Result<u64, ContractError> {
    execute_submit_bid(state, now, round, premium_slot, sender.to_string(), amount)
}

#[test]
fn proper_initialization() {
    let state = init();

    assert_eq!(
        state.config,
        Config {
            owner: OWNER.to_string(),
            underlying_token: AssetInfo::Token {
                contract_addr: ORAIX_ADDR.to_string(),
            },
            distribution_token: AssetInfo::Token {
                contract_addr: USDC.to_string(),
            },
            max_slot: 25,
            premium_rate_per_slot: rate(1, 100),
            min_deposit_amount: 100_000000,
            treasury: "treasury".to_string(),
            bidding_duration: 86400,
        }
    )
}

#[test]
fn test_create_new_round() {
    let mut state = init();

    // create failed, unauthorized
    let err = execute_create_new_round(
        &mut state,
        NOW,
        &"addr0001".to_string(),
        0,
        NOW,
        NOW + 1000,
        20000_000000,
    )
    .unwrap_err();
    assert_eq!(err, ContractError::Unauthorized {});

    // create new round success
    let round = execute_create_new_round(
        &mut state,
        NOW,
        &OWNER.to_string(),
        0,
        NOW,
        NOW + 1000,
        20000_000000,
    )
    .unwrap();
    assert_eq!(round, 1);

    // read bidding info & distribution info
    let bidding_info = query_bidding_info(&state, 1).unwrap();
    assert_eq!(
        bidding_info,
        BiddingInfoResponse {
            bid_info: BiddingInfo {
                round: 1,
                start_time: NOW,
                end_time: NOW + 1000,
                total_bid_amount: 0,
                total_bid_matched: 0,
            },
            distribution_info: DistributionInfo {
                total_distribution: 20000_000000,
                exchange_rate: Rate::zero(),
                is_released: false,
                actual_distributed: 0,
                num_bids_distributed: 0,
            },
        }
    );
}

#[test]
fn test_create_round_rejects_bad_window() {
    let mut state = init();

    // empty window
    let err = execute_create_new_round(
        &mut state,
        NOW,
        &OWNER.to_string(),
        0,
        NOW + 10,
        NOW + 10,
        1_000000,
    )
    .unwrap_err();
    assert_eq!(err, ContractError::InvalidBiddingTimeRange {});

    // window starting in the past
    let err = execute_create_new_round(
        &mut state,
        NOW,
        &OWNER.to_string(),
        0,
        NOW - 1,
        NOW + 1000,
        1_000000,
    )
    .unwrap_err();
    assert_eq!(err, ContractError::InvalidBiddingTimeRange {});
    assert_eq!(state.last_round_id, 0);
}

#[test]
fn test_submit_bids_and_querier() {
    let mut state = init();

    // create failed, unauthorized
    let err = execute_create_new_round(
        &mut state,
        NOW,
        &"addr0001".to_string(),
        0,
        NOW,
        NOW + 1000,
        20000_000000,
    )
    .unwrap_err();
    assert_eq!(err, ContractError::Unauthorized {});

    // create new round success
    execute_create_new_round(
        &mut state,
        NOW,
        &OWNER.to_string(),
        0,
        NOW,
        NOW + 1000,
        20000_000000,
    )
    .unwrap();

    // try submit to the bidding with amount less than the minimum deposit
    let err = do_submit_bid(&mut state, NOW - 100, "addr000", 1, 1, 1).unwrap_err();
    assert_eq!(
        err,
        ContractError::MinDeposit { min: 100000000, deposit: 1 }
    );

    // try submit to the bidding round that hasn't started yet
    let err = do_submit_bid(&mut state, NOW - 200, "addr000", 100_000000, 1, 1).unwrap_err();
    assert_eq!(err, ContractError::BidNotOpen {});

    // submit bid success
    let idx = do_submit_bid(&mut state, NOW, "addr000", 100_000000, 1, 1).unwrap();
    assert_eq!(idx, 1);

    // query bid info
    let bid = query_bid(&state, 1).unwrap();
    assert_eq!(
        bid,
        Bid {
            idx: 1,
            round: 1,
            bidder: "addr000".to_string(),
            timestamp: NOW,
            amount: 100_000000,
            residue_bid: 100_000000,
            premium_slot: 1,
            amount_received: 0,
            is_distributed: false,
        }
    );

    // try submit other bid with the same slot
    do_submit_bid(&mut state, NOW, "addr000", 200_000000, 1, 1).unwrap();

    // try submit other bid from another user
    do_submit_bid(&mut state, NOW, "addr001", 300_000000, 1, 2).unwrap();

    // query bid pool info
    let bid_pool = read_or_create_bid_pool(&state, 1, 1).unwrap();
    assert_eq!(
        bid_pool,
        BidPool {
            total_bid_amount: 300_000000,
            premium_rate: rate(1, 100),
            index_snapshot: Rate::zero(),
            received_per_token: Rate::zero(),
            slot: 1,
        }
    );

    // read bidding info & distribution info
    let bidding_info = query_bidding_info(&state, 1).unwrap();
    assert_eq!(
        bidding_info,
        BiddingInfoResponse {
            bid_info: BiddingInfo {
                round: 1,
                start_time: NOW,
                end_time: NOW + 1000,
                total_bid_amount: 600_000000,
                total_bid_matched: 0,
            },
            distribution_info: DistributionInfo {
                total_distribution: 20000_000000,
                exchange_rate: Rate::zero(),
                is_released: false,
                actual_distributed: 0,
                num_bids_distributed: 0,
            },
        }
    );

    // query all bid pools of the round
    let bid_pools = state.read_all_bid_pool(1).unwrap();
    assert_eq!(
        bid_pools[0],
        BidPool {
            slot: 1,
            total_bid_amount: 300_000000,
            premium_rate: rate(1, 100),
            index_snapshot: Rate::zero(),
            received_per_token: Rate::zero(),
        }
    );
    assert_eq!(
        bid_pools[1],
        BidPool {
            slot: 2,
            total_bid_amount: 300_000000,
            premium_rate: rate(2, 100),
            index_snapshot: Rate::zero(),
            received_per_token: Rate::zero(),
        }
    );
    for i in 2..bid_pools.len() {
        assert_eq!(
            bid_pools[i],
            BidPool {
                slot: i as u8 + 1,
                total_bid_amount: 0,
                premium_rate: rate(i as u128 + 1, 100),
                index_snapshot: Rate::zero(),
                received_per_token: Rate::zero(),
            }
        );
    }

    // query all bid ids in the round
    let bids = read_bids_by_round(&state, 1, None, None, None);
    assert_eq!(bids, vec![1, 2, 3]);

    let bids_by_users = query_bids_idx_by_user(&state, 1, &"addr000".to_string());
    assert_eq!(bids_by_users, vec![1, 2]);
}

#[test]
fn test_submit_rejects_bad_slot_and_round() {
    let mut state = init();
    execute_create_new_round(
        &mut state,
        NOW,
        &OWNER.to_string(),
        0,
        NOW,
        NOW + 1000,
        20000_000000,
    )
    .unwrap();

    let err = do_submit_bid(&mut state, NOW, "addr000", 100_000000, 1, 0).unwrap_err();
    assert_eq!(err, ContractError::InvalidPremiumSlot { max_slot: 25, slot: 0 });

    let err = do_submit_bid(&mut state, NOW, "addr000", 100_000000, 1, 26).unwrap_err();
    assert_eq!(err, ContractError::InvalidPremiumSlot { max_slot: 25, slot: 26 });

    let err = do_submit_bid(&mut state, NOW, "addr000", 100_000000, 7, 1).unwrap_err();
    assert_eq!(err, ContractError::RoundNotFound { round: 7 });

    let err = query_bid(&state, 99).unwrap_err();
    assert_eq!(err, ContractError::BidNotFound { idx: 99 });
}

#[test]
fn test_finalize_bidding_round_result() {
    let mut state = init();

    // fulfilled
    execute_create_new_round(
        &mut state,
        NOW,
        &OWNER.to_string(),
        0,
        NOW,
        NOW + 1000,
        1080_000000,
    )
    .unwrap();

    for i in 1..=25u8 {
        do_submit_bid(&mut state, NOW, "addr000", 4000_000000, 1, i).unwrap();
    }

    // finalize error, unauthorized
    let err = execute_finalize_bidding_round_result(
        &mut state,
        NOW,
        &"addr000".to_string(),
        1,
        rate(1, 100),
    )
    .unwrap_err();
    assert_eq!(err, ContractError::Unauthorized {});

    // finalize error, this round has not ended
    let err = execute_finalize_bidding_round_result(
        &mut state,
        NOW,
        &OWNER.to_string(),
        1,
        rate(1, 100),
    )
    .unwrap_err();
    assert_eq!(err, ContractError::BidNotEnded {});

    // finalize success
    let msgs = execute_finalize_bidding_round_result(
        &mut state,
        NOW + 1001,
        &OWNER.to_string(),
        1,
        rate(1, 100),
    )
    .unwrap();

    let info = query_bidding_info(&state, 1).unwrap();
    assert_eq!(info.bid_info.total_bid_matched, 96000_000000);
    assert_eq!(info.distribution_info.exchange_rate, rate(1, 100));
    assert!(info.distribution_info.is_released);
    assert_eq!(info.distribution_info.actual_distributed, 1080_000000);

    assert_eq!(
        msgs,
        vec![ValueFlow::Burn {
            asset: AssetInfo::Token {
                contract_addr: ORAIX_ADDR.to_string(),
            },
            amount: 96000_000000,
        }]
    );

    // case 2: all bids matched but distribution amount remains
    let now2 = NOW + 1001;
    execute_create_new_round(
        &mut state,
        now2,
        &OWNER.to_string(),
        0,
        now2,
        now2 + 1000,
        1200_000000,
    )
    .unwrap();

    for i in 1..=25u8 {
        do_submit_bid(&mut state, now2, "addr000", 4000_000000, 2, i).unwrap();
    }

    let msgs = execute_finalize_bidding_round_result(
        &mut state,
        now2 + 1001,
        &OWNER.to_string(),
        2,
        rate(1, 100),
    )
    .unwrap();

    let info = query_bidding_info(&state, 2).unwrap();
    assert_eq!(info.bid_info.total_bid_matched, 100000_000000);
    assert_eq!(info.distribution_info.actual_distributed, 1130_000000);

    assert_eq!(
        msgs,
        vec![
            ValueFlow::Burn {
                asset: AssetInfo::Token {
                    contract_addr: ORAIX_ADDR.to_string(),
                },
                amount: 100000_000000,
            },
            ValueFlow::Transfer {
                asset: AssetInfo::Token {
                    contract_addr: USDC.to_string(),
                },
                recipient: OWNER.to_string(),
                amount: 70_000000,
            },
        ]
    );
}

#[test]
fn test_finalize_twice_rejected() {
    let mut state = init();
    execute_create_new_round(
        &mut state,
        NOW,
        &OWNER.to_string(),
        0,
        NOW,
        NOW + 1000,
        1200_000000,
    )
    .unwrap();
    do_submit_bid(&mut state, NOW, "addr000", 4000_000000, 1, 1).unwrap();

    execute_finalize_bidding_round_result(
        &mut state,
        NOW + 1001,
        &OWNER.to_string(),
        1,
        rate(1, 100),
    )
    .unwrap();
    let info_after_first = query_bidding_info(&state, 1).unwrap();

    // the second finalization fails and changes nothing
    let err = execute_finalize_bidding_round_result(
        &mut state,
        NOW + 2000,
        &OWNER.to_string(),
        1,
        rate(5, 100),
    )
    .unwrap_err();
    assert_eq!(err, ContractError::RoundAlreadyFinalized { round: 1 });
    assert_eq!(query_bidding_info(&state, 1).unwrap(), info_after_first);
}

#[test]
fn test_distribute() {
    let mut state = init();

    // all bids filled
    execute_create_new_round(
        &mut state,
        NOW,
        &OWNER.to_string(),
        0,
        NOW,
        NOW + 1000,
        1200_000000,
    )
    .unwrap();

    for i in 1..=25u8 {
        do_submit_bid(&mut state, NOW, "addr000", 4000_000000, 1, i).unwrap();
    }
    execute_finalize_bidding_round_result(
        &mut state,
        NOW + 1001,
        &OWNER.to_string(),
        1,
        rate(1, 100),
    )
    .unwrap();

    // query total bids in this round
    assert_eq!(count_number_bids_in_round(&state, 1), 25);

    let msgs = execute_distribute(&mut state, 1, None, None).unwrap();
    assert_eq!(
        query_bidding_info(&state, 1).unwrap().distribution_info.num_bids_distributed,
        25
    );

    let expected: Vec<ValueFlow> = (1..=25u128)
        .map(|i| ValueFlow::Transfer {
            asset: AssetInfo::Token {
                contract_addr: USDC.to_string(),
            },
            recipient: "addr000".to_string(),
            amount: 40_000000 + 400000 * i,
        })
        .collect();
    assert_eq!(msgs, expected);

    // 23 bids filled, the 24th partially, the 25th not at all
    let now2 = NOW + 1001;
    execute_create_new_round(
        &mut state,
        now2,
        &OWNER.to_string(),
        0,
        now2,
        now2 + 1000,
        1055_200000,
    )
    .unwrap();

    for i in 1..=25u8 {
        do_submit_bid(&mut state, now2, "addr000", 4000_000000, 2, i).unwrap();
    }
    execute_finalize_bidding_round_result(
        &mut state,
        now2 + 1001,
        &OWNER.to_string(),
        2,
        rate(1, 100),
    )
    .unwrap();

    let msgs = execute_distribute(&mut state, 2, None, None).unwrap();
    assert_eq!(
        query_bidding_info(&state, 2).unwrap().distribution_info.num_bids_distributed,
        25
    );

    let mut expected: Vec<ValueFlow> = (1..=23u128)
        .map(|i| ValueFlow::Transfer {
            asset: AssetInfo::Token {
                contract_addr: USDC.to_string(),
            },
            recipient: "addr000".to_string(),
            amount: 40_000000 + 400000 * i,
        })
        .collect();
    // the 24th bid is filled by half
    expected.push(ValueFlow::Transfer {
        asset: AssetInfo::Token {
            contract_addr: USDC.to_string(),
        },
        recipient: "addr000".to_string(),
        amount: 24_800000,
    });
    expected.push(ValueFlow::Transfer {
        asset: AssetInfo::Token {
            contract_addr: ORAIX_ADDR.to_string(),
        },
        recipient: "addr000".to_string(),
        amount: 2000_000000,
    });
    // the 25th bid is not filled
    expected.push(ValueFlow::Transfer {
        asset: AssetInfo::Token {
            contract_addr: ORAIX_ADDR.to_string(),
        },
        recipient: "addr000".to_string(),
        amount: 4000_000000,
    });
    assert_eq!(msgs, expected);
}

#[test]
fn test_distribute_is_idempotent() {
    let mut state = init();
    execute_create_new_round(
        &mut state,
        NOW,
        &OWNER.to_string(),
        0,
        NOW,
        NOW + 1000,
        1200_000000,
    )
    .unwrap();
    for i in 1..=5u8 {
        do_submit_bid(&mut state, NOW, "addr000", 4000_000000, 1, i).unwrap();
    }

    // settling before release is refused
    let err = execute_distribute(&mut state, 1, None, None).unwrap_err();
    assert_eq!(err, ContractError::BidNotEnded {});

    execute_finalize_bidding_round_result(
        &mut state,
        NOW + 1001,
        &OWNER.to_string(),
        1,
        rate(1, 100),
    )
    .unwrap();

    let msgs = execute_distribute(&mut state, 1, None, None).unwrap();
    assert_eq!(msgs.len(), 5);
    let bids_after_first: Vec<Bid> =
        (1..=5).map(|i| query_bid(&state, i).unwrap()).collect();
    let counter_after_first =
        query_bidding_info(&state, 1).unwrap().distribution_info.num_bids_distributed;

    // the same page again: no new movement, identical final bid state
    let msgs = execute_distribute(&mut state, 1, None, None).unwrap();
    assert_eq!(msgs, Vec::<ValueFlow>::new());
    let bids_after_second: Vec<Bid> =
        (1..=5).map(|i| query_bid(&state, i).unwrap()).collect();
    assert_eq!(bids_after_second, bids_after_first);
    assert_eq!(
        query_bidding_info(&state, 1).unwrap().distribution_info.num_bids_distributed,
        counter_after_first
    );
}

#[test]
fn test_distribute_paged() {
    let mut state = init();
    execute_create_new_round(
        &mut state,
        NOW,
        &OWNER.to_string(),
        0,
        NOW,
        NOW + 1000,
        1200_000000,
    )
    .unwrap();
    for i in 1..=5u8 {
        do_submit_bid(&mut state, NOW, "addr000", 4000_000000, 1, i).unwrap();
    }
    execute_finalize_bidding_round_result(
        &mut state,
        NOW + 1001,
        &OWNER.to_string(),
        1,
        rate(1, 100),
    )
    .unwrap();

    // two pages of three, cursor = last processed id
    let msgs = execute_distribute(&mut state, 1, None, Some(3)).unwrap();
    assert_eq!(msgs.len(), 3);
    assert_eq!(
        query_bidding_info(&state, 1).unwrap().distribution_info.num_bids_distributed,
        3
    );
    let msgs = execute_distribute(&mut state, 1, Some(3), Some(3)).unwrap();
    assert_eq!(msgs.len(), 2);
    assert_eq!(
        query_bidding_info(&state, 1).unwrap().distribution_info.num_bids_distributed,
        5
    );
    // overlapping pages settle nothing twice
    let msgs = execute_distribute(&mut state, 1, None, None).unwrap();
    assert_eq!(msgs, Vec::<ValueFlow>::new());
}

#[test]
fn test_bid_ids_monotone_across_rounds() {
    let mut state = init();
    execute_create_new_round(
        &mut state,
        NOW,
        &OWNER.to_string(),
        0,
        NOW,
        NOW + 1000,
        1200_000000,
    )
    .unwrap();
    execute_create_new_round(
        &mut state,
        NOW,
        &OWNER.to_string(),
        0,
        NOW,
        NOW + 2000,
        1200_000000,
    )
    .unwrap();

    // deposits interleaved across rounds and users still get ids 1..=N
    let mut expected_id = 0u64;
    for (round, user, slot) in [
        (1u64, "addr000", 1u8),
        (2, "addr001", 3),
        (1, "addr001", 2),
        (2, "addr000", 3),
        (1, "addr000", 1),
    ] {
        let idx = do_submit_bid(&mut state, NOW, user, 150_000000, round, slot).unwrap();
        expected_id += 1;
        assert_eq!(idx, expected_id);
    }
    let ids_round1 = read_bids_by_round(&state, 1, None, None, None);
    let ids_round2 = read_bids_by_round(&state, 2, None, None, None);
    assert_eq!(ids_round1, vec![1, 3, 5]);
    assert_eq!(ids_round2, vec![2, 4]);

    // descending enumeration with an exclusive upper cursor
    let ids_desc = read_bids_by_round(&state, 1, None, None, Some(2));
    assert_eq!(ids_desc, vec![5, 3, 1]);
    let ids_desc = read_bids_by_round(&state, 1, Some(5), None, Some(2));
    assert_eq!(ids_desc, vec![3, 1]);
    // ascending with an exclusive lower cursor and a limit
    let ids_asc = read_bids_by_round(&state, 1, Some(1), Some(1), None);
    assert_eq!(ids_asc, vec![3]);
}

#[test]
fn test_estimate_token_received() {
    let mut state = init();

    // all bids filled
    execute_create_new_round(
        &mut state,
        NOW,
        &OWNER.to_string(),
        0,
        NOW,
        NOW + 1000,
        1130_000000,
    )
    .unwrap();

    for i in 1..=25u8 {
        do_submit_bid(&mut state, NOW, "addr000", 4000_000000, 1, i).unwrap();
    }

    // all bids will be matched
    let res = query_estimate_amount_receive_of_bid(&state, 1, 10, rate(1, 100)).unwrap();
    assert_eq!(
        res,
        EstimateAmountReceiveOfBidResponse {
            receive: 44_000000,
            residue_bid: 0,
        }
    );

    // if another 4000 came into slot 25, that slot would match only half
    let res = query_estimate_amount_receive(&state, 1, 25, 4000_000000, rate(1, 100)).unwrap();
    assert_eq!(
        res,
        EstimateAmountReceiveOfBidResponse {
            receive: 25_000000,
            residue_bid: 2000_000000,
        }
    );

    // try submitting that bid
    do_submit_bid(&mut state, NOW, "addr000", 4000_000000, 1, 25).unwrap();
    let res = query_estimate_amount_receive_of_bid(&state, 1, 26, rate(1, 100)).unwrap();
    assert_eq!(
        res,
        EstimateAmountReceiveOfBidResponse {
            receive: 25_000000,
            residue_bid: 2000_000000,
        }
    );
}

#[test]
fn test_update_config() {
    let mut state = init();

    // update failed, unauthorized
    let err = execute_update_config(
        &mut state,
        &"addr000".to_string(),
        None,
        None,
        None,
        None,
        None,
        Some(5_000000),
        None,
        None,
    )
    .unwrap_err();
    assert_eq!(err, ContractError::Unauthorized {});
    assert_eq!(state.config.min_deposit_amount, 100_000000);

    // update success: given fields change, the others stay
    execute_update_config(
        &mut state,
        &OWNER.to_string(),
        Some("new_owner".to_string()),
        None,
        None,
        Some(10),
        None,
        Some(5_000000),
        None,
        None,
    )
    .unwrap();
    assert_eq!(state.config.owner, "new_owner");
    assert_eq!(state.config.max_slot, 10);
    assert_eq!(state.config.min_deposit_amount, 5_000000);
    assert_eq!(state.config.bidding_duration, 86400);
    assert_eq!(state.config.premium_rate_per_slot, rate(1, 100));
}

#[test]
fn test_check_wf_accepts_and_rejects() {
    let mut state = init();
    assert!(check_wf(&state));
    execute_create_new_round(
        &mut state,
        NOW,
        &OWNER.to_string(),
        0,
        NOW,
        NOW + 1000,
        1200_000000,
    )
    .unwrap();
    do_submit_bid(&mut state, NOW, "addr000", 4000_000000, 1, 3).unwrap();
    assert!(check_wf(&state));

    // a ledger record pointing at a round that does not exist is refused
    let mut broken = init();
    broken.bids.push(Bid {
        idx: 1,
        round: 9,
        premium_slot: 1,
        timestamp: NOW,
        bidder: "addr000".to_string(),
        amount: 1,
        residue_bid: 1,
        amount_received: 0,
        is_distributed: false,
    });
    assert!(!check_wf(&broken));

    // a mismatched round counter is refused
    let mut broken = init();
    broken.last_round_id = 3;
    assert!(!check_wf(&broken));
}

#[test]
fn test_into_cosmos_msg_builds_transfer() {
    let asset = AssetInfo::NativeToken { denom: "orai".to_string() };
    let flow = into_cosmos_msg(&asset, "addr000".to_string(), 42);
    assert_eq!(
        flow,
        ValueFlow::Transfer {
            asset: AssetInfo::NativeToken { denom: "orai".to_string() },
            recipient: "addr000".to_string(),
            amount: 42,
        }
    );
}

#[test]
fn test_query_bids_by_user_returns_records() {
    let mut state = init();
    execute_create_new_round(
        &mut state,
        NOW,
        &OWNER.to_string(),
        0,
        NOW,
        NOW + 1000,
        1200_000000,
    )
    .unwrap();
    do_submit_bid(&mut state, NOW, "addr000", 150_000000, 1, 1).unwrap();
    do_submit_bid(&mut state, NOW, "addr001", 250_000000, 1, 2).unwrap();
    do_submit_bid(&mut state, NOW, "addr000", 350_000000, 1, 3).unwrap();

    let bids = query_bids_by_user(&state, 1, &"addr000".to_string());
    assert_eq!(bids.len(), 2);
    assert_eq!(bids[0].idx, 1);
    assert_eq!(bids[0].amount, 150_000000);
    assert_eq!(bids[1].idx, 3);
    assert_eq!(bids[1].amount, 350_000000);

    let bids = query_bids_by_user(&state, 1, &"nobody".to_string());
    assert_eq!(bids, Vec::<Bid>::new());
}
