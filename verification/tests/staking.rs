use staking_app::ledger::Settlement;
use staking_app::ledger::StakingContract;
use staking_app::ledger::StakingError;
use staking_app::ledger::TransferFromAction;
use staking_app::rewards::reward_for;
use staking_app::stake_map::StakeInfo;
use staking_app::stake_map::StakeMap;

const TOKEN: u128 = 7;
const ALICE: u128 = 1;
const BOB: u128 = 2;

const ONE_YEAR: u64 = 365 * 86400;

#[test]
fn first_stake_creates_record() {
    let mut contract = StakingContract::new(TOKEN);
    let r = contract.stake(BOB, 10_000);
    assert_eq!(
        r,
        Ok(TransferFromAction { token: TOKEN, from: BOB, amount: 10_000 })
    );
    assert_eq!(
        contract.stake_of(BOB),
        Some(StakeInfo { amount: 10_000, timestamp: 0 })
    );
}

#[test]
fn stake_works() {
    // An asset ledger with a supply of 1,000,000 minted to alice, of
    // which 10,000 move to bob; bob stakes all of it.
    let mint_amount: u128 = 1_000_000;
    let mut alice_balance: u128 = mint_amount;
    let mut bob_balance: u128 = 0;
    let mut pool_balance: u128 = 0;

    alice_balance -= 10_000;
    bob_balance += 10_000;

    let mut contract = StakingContract::new(TOKEN);
    let action = contract.stake(BOB, 10_000).expect("stake failed");
    assert_eq!(action.token, TOKEN);
    assert_eq!(action.from, BOB);
    assert_eq!(action.amount, 10_000);
    bob_balance -= action.amount;
    pool_balance += action.amount;

    assert_eq!(bob_balance, 0);
    assert_eq!(pool_balance, 10_000);
    assert_eq!(alice_balance, mint_amount - 10_000);
}

#[test]
fn unstake_works() {
    // Stake 10,000, withdraw 1,000 right away: the pool covers the
    // payout, nothing is minted, and the remainder stays staked.
    let mut bob_balance: u128 = 10_000;
    let mut pool_balance: u128 = 0;

    let mut contract = StakingContract::new(TOKEN);
    let action = contract.stake(BOB, 10_000).expect("stake failed");
    bob_balance -= action.amount;
    pool_balance += action.amount;

    let settlement = contract.unstake(BOB, 1_000, pool_balance).expect("unstake failed");
    assert_eq!(
        settlement,
        Settlement { token: TOKEN, to: BOB, transferred: 1_000, minted: 0 }
    );
    pool_balance -= settlement.transferred;
    bob_balance += settlement.transferred + settlement.minted;

    assert_eq!(bob_balance, 1_000);
    assert_eq!(pool_balance, 9_000);
    // The partial withdrawal is persisted.
    assert_eq!(
        contract.stake_of(BOB),
        Some(StakeInfo { amount: 9_000, timestamp: 0 })
    );
}

#[test]
fn unstake_after_year_pays_from_pool() {
    // Stake 10,000 at day 0, withdraw 1,100 a year later: the accrued
    // interest makes 13,650 available; the pool holds the original
    // 10,000, so the payout needs no minting.
    let mut bob_balance: u128 = 10_000;
    let mut pool_balance: u128 = 0;

    let mut contract = StakingContract::new(TOKEN);
    let action = contract.stake(BOB, 10_000).expect("stake failed");
    bob_balance -= action.amount;
    pool_balance += action.amount;

    contract.set_timestamp(ONE_YEAR);
    assert_eq!(contract.available(BOB), Some(13_650));

    let settlement = contract.unstake(BOB, 1_100, pool_balance).expect("unstake failed");
    assert_eq!(settlement.transferred, 1_100);
    assert_eq!(settlement.minted, 0);
    pool_balance -= settlement.transferred;
    bob_balance += settlement.transferred + settlement.minted;

    assert_eq!(bob_balance, 1_100);
    assert_eq!(pool_balance, 8_900);
    assert_eq!(
        contract.stake_of(BOB),
        Some(StakeInfo { amount: 12_550, timestamp: ONE_YEAR })
    );
}

#[test]
fn available_at_day_zero_equals_principal() {
    let mut contract = StakingContract::new(TOKEN);
    contract.stake(ALICE, 10_000).expect("stake failed");
    assert_eq!(contract.available(ALICE), Some(10_000));
}

#[test]
fn available_after_one_year() {
    let mut contract = StakingContract::new(TOKEN);
    contract.stake(ALICE, 10_000).expect("stake failed");
    contract.set_timestamp(ONE_YEAR);
    assert_eq!(contract.available(ALICE), Some(13_650));
}

#[test]
fn overdraw_fails_insufficient_stake() {
    let mut contract = StakingContract::new(TOKEN);
    contract.stake(ALICE, 10_000).expect("stake failed");
    contract.set_timestamp(ONE_YEAR);
    let r = contract.unstake(ALICE, 13_651, 10_000);
    assert_eq!(r, Err(StakingError::InsufficientStake));
    // No state change: the available balance re-queries unchanged.
    assert_eq!(contract.available(ALICE), Some(13_650));
    assert_eq!(
        contract.stake_of(ALICE),
        Some(StakeInfo { amount: 10_000, timestamp: 0 })
    );
}

#[test]
fn shortfall_is_minted() {
    // The pool holds nothing, the caller's available balance is 1,100:
    // the whole withdrawal is minted and nothing is transferred.
    let mut contract = StakingContract::new(TOKEN);
    contract.stake(ALICE, 1_000).expect("stake failed");
    // 100 days: interest of 0.1% per day on 1,000 makes 100.
    contract.set_timestamp(100 * 86400);
    assert_eq!(contract.available(ALICE), Some(1_100));
    let settlement = contract.unstake(ALICE, 1_100, 0).expect("unstake failed");
    assert_eq!(
        settlement,
        Settlement { token: TOKEN, to: ALICE, transferred: 0, minted: 1_100 }
    );
    assert_eq!(contract.stake_of(ALICE), None);
}

#[test]
fn partial_shortfall_splits_transfer_and_mint() {
    let mut contract = StakingContract::new(TOKEN);
    contract.stake(ALICE, 1_000).expect("stake failed");
    contract.set_timestamp(100 * 86400);
    // The pool holds only the 1,000 principal; the 100 of interest is
    // minted.
    let settlement = contract.unstake(ALICE, 1_100, 1_000).expect("unstake failed");
    assert_eq!(settlement.transferred, 1_000);
    assert_eq!(settlement.minted, 100);
}

#[test]
fn full_unstake_closes_position() {
    let mut contract = StakingContract::new(TOKEN);
    contract.stake(ALICE, 10_000).expect("stake failed");
    contract.set_timestamp(ONE_YEAR);
    let available = contract.available(ALICE).expect("no position");
    let settlement = contract.unstake(ALICE, available, 10_000).expect("unstake failed");
    assert_eq!(settlement.transferred, 10_000);
    assert_eq!(settlement.minted, 3_650);
    assert_eq!(contract.stake_of(ALICE), None);
    assert_eq!(contract.available(ALICE), None);
    // Any further withdrawal fails: the position no longer exists.
    assert_eq!(contract.unstake(ALICE, 1, 10_000), Err(StakingError::NoStakeFound));
    assert_eq!(contract.unstake(ALICE, 13_650, 10_000), Err(StakingError::NoStakeFound));
}

#[test]
fn unstake_without_position_fails() {
    let mut contract = StakingContract::new(TOKEN);
    assert_eq!(contract.unstake(BOB, 1, 0), Err(StakingError::NoStakeFound));
}

#[test]
fn stake_unconfigured_fails() {
    let mut contract = StakingContract::default();
    assert_eq!(contract.token(), None);
    assert_eq!(contract.stake(ALICE, 10), Err(StakingError::AssetNotConfigured));
    assert_eq!(contract.stake_of(ALICE), None);
}

#[test]
fn configure_then_stake() {
    let mut contract = StakingContract::default();
    contract.configure(TOKEN);
    assert_eq!(contract.token(), Some(TOKEN));
    let r = contract.stake(ALICE, 10);
    assert_eq!(
        r,
        Ok(TransferFromAction { token: TOKEN, from: ALICE, amount: 10 })
    );
}

#[test]
fn restake_folds_accrued_interest() {
    let mut contract = StakingContract::new(TOKEN);
    contract.stake(ALICE, 10_000).expect("stake failed");
    contract.set_timestamp(ONE_YEAR);
    // The year's interest (3,650) is realized into the principal and
    // the new deposit is added on top.
    contract.stake(ALICE, 1_000).expect("stake failed");
    assert_eq!(
        contract.stake_of(ALICE),
        Some(StakeInfo { amount: 14_650, timestamp: ONE_YEAR })
    );
    assert_eq!(contract.available(ALICE), Some(14_650));
}

#[test]
fn reward_formula_exact() {
    // floor(floor(elapsed * principal * 1,000,000) / 86,400) / 1,000,000,000
    assert_eq!(reward_for(10_000, ONE_YEAR), 3_650);
    assert_eq!(reward_for(10_000, 86_400), 10);
    assert_eq!(reward_for(1_000, 100 * 86_400), 100);
}

#[test]
fn reward_rounds_down() {
    // One second short of a day on a principal of 1 rounds to nothing.
    assert_eq!(reward_for(1, 86_399), 0);
    // A small principal accrues nothing until the product clears the
    // rate denominator.
    assert_eq!(reward_for(1, 86_400), 0);
}

#[test]
fn reward_zero_elapsed_is_zero() {
    assert_eq!(reward_for(10_000, 0), 0);
    assert_eq!(reward_for(u128::MAX / 1_000_000, 0), 0);
}

#[test]
fn reward_monotone_in_elapsed() {
    let mut last: u128 = 0;
    for days in 0u64..36 {
        let r = reward_for(12_345, days * 86_400);
        assert!(r >= last);
        last = r;
    }
}

#[test]
fn reward_monotone_in_principal() {
    let mut last: u128 = 0;
    for p in 0u128..40 {
        let r = reward_for(p * 500, ONE_YEAR);
        assert!(r >= last);
        last = r;
    }
}

#[test]
fn block_timestamp_follows_set_timestamp() {
    let mut contract = StakingContract::new(TOKEN);
    assert_eq!(contract.block_timestamp(), 0);
    contract.set_timestamp(123);
    assert_eq!(contract.block_timestamp(), 123);
    contract.set_timestamp(123);
    assert_eq!(contract.block_timestamp(), 123);
}

#[test]
fn stake_map_insert_get_remove() {
    let mut map = StakeMap::new();
    assert_eq!(map.len(), 0);
    assert_eq!(map.get(ALICE), None);
    map.insert(ALICE, StakeInfo { amount: 5, timestamp: 1 });
    map.insert(BOB, StakeInfo { amount: 9, timestamp: 2 });
    assert_eq!(map.len(), 2);
    assert_eq!(map.get(ALICE), Some(StakeInfo { amount: 5, timestamp: 1 }));
    assert_eq!(map.get(BOB), Some(StakeInfo { amount: 9, timestamp: 2 }));
    map.insert(ALICE, StakeInfo { amount: 6, timestamp: 3 });
    assert_eq!(map.len(), 2);
    assert_eq!(map.get(ALICE), Some(StakeInfo { amount: 6, timestamp: 3 }));
    map.remove(ALICE);
    assert_eq!(map.get(ALICE), None);
    assert_eq!(map.get(BOB), Some(StakeInfo { amount: 9, timestamp: 2 }));
    assert_eq!(map.len(), 1);
    map.remove(ALICE);
    assert_eq!(map.len(), 1);
}

#[test]
fn two_accounts_stake_independently() {
    let mut contract = StakingContract::new(TOKEN);
    contract.stake(ALICE, 1_000).expect("stake failed");
    contract.stake(BOB, 2_000).expect("stake failed");
    contract.set_timestamp(ONE_YEAR);
    contract.unstake(BOB, 2_000, 3_000).expect("unstake failed");
    assert_eq!(contract.available(ALICE), Some(1_365));
    assert_eq!(
        contract.stake_of(BOB),
        Some(StakeInfo { amount: 730, timestamp: ONE_YEAR })
    );
}
