use coharvest_bid_pool::{
    process_calc_distribution_amount, amount_mul_rate, BidPool, ContractError, Rate, RATE_DENOM,
};

fn rate(numerator: u128, denominator: u128) -> Rate {
    Rate::from_ratio(numerator, denominator).unwrap()
}

fn fresh_pool(slot: u8, total: u128, premium_num: u128) -> BidPool {
    BidPool {
        slot,
        total_bid_amount: total,
        premium_rate: rate(premium_num, 100),
        index_snapshot: Rate::zero(),
        received_per_token: Rate::zero(),
    }
}

#[test]
fn test_full_amount_to_be_distributed() {
    let mut bid_pools: Vec<BidPool> = vec![];

    for slot in 1..=25u8 {
        bid_pools.push(fresh_pool(slot, 4000_000000, slot as u128));
    }

    // 25 slots of 4000 at rate 0.01 need 4000 * 0.01 * (1.01 + ... + 1.25)
    // = 1130 to fill completely.
    let mut distribution_amount: u128 = 1130_000000;
    let exchange_rate = rate(1, 100);

    let total_matched =
        process_calc_distribution_amount(&mut bid_pools, &mut distribution_amount, exchange_rate)
            .unwrap();

    assert_eq!(total_matched, 100000_000000);
    assert_eq!(distribution_amount, 0);

    for bid_pool in bid_pools {
        assert_eq!(bid_pool.index_snapshot, Rate::one());
        // received_per_token == (1 + premium) * exchange_rate
        let expected = (RATE_DENOM + bid_pool.premium_rate.atomics) / 100;
        assert_eq!(bid_pool.received_per_token.atomics, expected);
    }
}

#[test]
fn test_partial_amount_to_be_distributed() {
    let mut bid_pools: Vec<BidPool> = vec![];

    for slot in 1..=24u8 {
        bid_pools.push(fresh_pool(slot, 4000_000000, slot as u128));
    }

    let mut distribution_amount: u128 = 1130_000000;
    let exchange_rate = rate(1, 100);

    let total_matched =
        process_calc_distribution_amount(&mut bid_pools, &mut distribution_amount, exchange_rate)
            .unwrap();

    assert_eq!(total_matched, 96000_000000);
    assert_eq!(distribution_amount, 50_000000);

    for bid_pool in bid_pools {
        assert_eq!(bid_pool.index_snapshot, Rate::one());
        let expected = (RATE_DENOM + bid_pool.premium_rate.atomics) / 100;
        assert_eq!(bid_pool.received_per_token.atomics, expected);
    }
}

#[test]
fn test_one_bid_pool_is_partially_matched() {
    let mut bid_pools: Vec<BidPool> = vec![
        fresh_pool(10, 1000_000000, 10),
        fresh_pool(20, 1000_000000, 20),
    ];

    let mut distribution_amount: u128 = 20_000000;
    let exchange_rate = rate(1, 100);

    // slot 10 is fulfilled (1000 * 1.1 * 0.01 = 11), the remaining 9 go to
    // slot 20: total matched = 1000 + 9 / 12 * 1000 = 1750.
    let total_matched =
        process_calc_distribution_amount(&mut bid_pools, &mut distribution_amount, exchange_rate)
            .unwrap();
    assert_eq!(total_matched, 1750_000000);
    assert_eq!(distribution_amount, 0);

    assert_eq!(
        bid_pools[0],
        BidPool {
            slot: 10,
            total_bid_amount: 1000_000000,
            premium_rate: rate(10, 100),
            index_snapshot: Rate::one(),
            received_per_token: rate(11, 1000),
        }
    );
    assert_eq!(
        bid_pools[1],
        BidPool {
            slot: 20,
            total_bid_amount: 1000_000000,
            premium_rate: rate(20, 100),
            index_snapshot: rate(3, 4),
            received_per_token: rate(9, 1000),
        }
    );
}

#[test]
fn test_all_bid_matched_but_distribution_amount_remains() {
    let mut bid_pools: Vec<BidPool> = vec![];

    for slot in 1..=25u8 {
        bid_pools.push(fresh_pool(slot, 4000_000000, slot as u128));
    }

    let mut distribution_amount: u128 = 1200_000000;
    let exchange_rate = rate(1, 100);

    let total_matched =
        process_calc_distribution_amount(&mut bid_pools, &mut distribution_amount, exchange_rate)
            .unwrap();
    assert_eq!(total_matched, 100000_000000);
    assert_eq!(distribution_amount, 70_000000);
}

#[test]
fn test_single_boundary_slot_shape() {
    // Three pools, a budget that fully funds the first, partially funds
    // the second and leaves nothing for the third: once a ratio drops
    // below one, every later ratio is exactly zero.
    let mut bid_pools: Vec<BidPool> = vec![
        fresh_pool(1, 1000_000000, 1),
        fresh_pool(2, 1000_000000, 2),
        fresh_pool(3, 1000_000000, 3),
    ];
    let mut distribution_amount: u128 = 15_000000;
    let exchange_rate = rate(1, 100);

    process_calc_distribution_amount(&mut bid_pools, &mut distribution_amount, exchange_rate)
        .unwrap();

    assert_eq!(bid_pools[0].index_snapshot, Rate::one());
    assert!(bid_pools[1].index_snapshot.atomics < RATE_DENOM);
    assert!(bid_pools[1].index_snapshot.atomics > 0);
    assert_eq!(bid_pools[2].index_snapshot, Rate::zero());
    assert_eq!(bid_pools[2].received_per_token, Rate::zero());
}

#[test]
fn test_allocation_bounds_hold() {
    // The matched total never exceeds what was deposited, and the budget
    // consumed never exceeds the budget given.
    let mut bid_pools: Vec<BidPool> = vec![
        fresh_pool(1, 123_456789, 1),
        fresh_pool(2, 0, 2),
        fresh_pool(3, 987_654321, 3),
    ];
    let budget: u128 = 7_000000;
    let mut distribution_amount: u128 = budget;
    let exchange_rate = rate(3, 100);

    let total_matched =
        process_calc_distribution_amount(&mut bid_pools, &mut distribution_amount, exchange_rate)
            .unwrap();

    assert!(total_matched <= 123_456789 + 987_654321);
    assert!(distribution_amount <= budget);
    // Untouched zero-deposit pool keeps zero ratios.
    assert_eq!(bid_pools[1].index_snapshot, Rate::zero());
}

#[test]
fn test_engine_overflow_is_reported() {
    // A pool so large that converting it at the exchange rate exceeds the
    // 128-bit range must abort the walk with an overflow error.
    let mut bid_pools: Vec<BidPool> = vec![BidPool {
        slot: 1,
        total_bid_amount: u128::MAX,
        premium_rate: rate(1, 100),
        index_snapshot: Rate::zero(),
        received_per_token: Rate::zero(),
    }];
    let mut distribution_amount: u128 = u128::MAX;
    let exchange_rate = rate(2, 1);

    let err =
        process_calc_distribution_amount(&mut bid_pools, &mut distribution_amount, exchange_rate)
            .unwrap_err();
    assert_eq!(err, ContractError::Overflow {});
}

#[test]
fn test_rate_matches_fixed_point_reference() {
    // The fixed-point primitives agree with the reference implementation
    // the engine's arithmetic is built on.
    let ours = Rate::from_ratio(11, 1000).unwrap();
    assert_eq!(ours.atomics, 11_000_000_000_000_000);
    let reference = cosmwasm_std::Decimal::from_ratio(11u128, 1000u128);
    assert_eq!(ours.atomics, reference.atomics().u128());

    assert_eq!(amount_mul_rate(250, Rate::from_ratio(1, 2).unwrap()), Some(125));
    let reference_mul = cosmwasm_std::Uint128::new(250)
        * cosmwasm_std::Decimal::from_ratio(1u128, 2u128);
    assert_eq!(reference_mul.u128(), 125);

    // Rounding is towards zero, exactly as the reference rounds.
    assert_eq!(amount_mul_rate(5, Rate::from_ratio(99, 100).unwrap()), Some(4));
    let reference_floor = cosmwasm_std::Uint128::new(5)
        * cosmwasm_std::Decimal::from_ratio(99u128, 100u128);
    assert_eq!(reference_floor.u128(), 4);

    // A ratio whose scaled numerator cannot fit is refused.
    assert_eq!(Rate::from_ratio(u128::MAX, 1), None);
    assert_eq!(Rate::from_ratio(1, 0), None);
}
