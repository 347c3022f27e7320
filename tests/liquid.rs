use staking_rewards::assets::{AssetBook, TokenError};
use staking_rewards::liquid_staking::{Error, Pallet, UnlockChunk};
use staking_rewards::types::{
    ArithmeticError, DecimalProvider, LiquidStakingCurrenciesProvider, StakingAccount,
};

const POOL: u64 = 1000;
const ALICE: u64 = 1;
const BOB: u64 = 2;

fn setup() -> (Pallet, AssetBook) {
    let pool = Pallet::new(POOL, 1, Some(18), 10, 3, 0);
    let mut book = AssetBook::new();
    book.set_native(ALICE, 1_000);
    book.set_native(BOB, 1_000);
    (pool, book)
}

#[test]
fn scenario_stake_records_amount() {
    let (mut pool, mut book) = setup();
    assert_eq!(pool.stake(&mut book, ALICE, 100), Ok(()));
    assert_eq!(pool.stake_record(ALICE), 100);
    assert_eq!(pool.matching_pool.total_stake_amount.total, 100);
    assert_eq!(book.liquid_balance(ALICE), 100);
    assert_eq!(book.free_balance(ALICE), 900);
    assert_eq!(book.free_balance(POOL), 100);
    assert_eq!(pool.staked_accounts, vec![ALICE]);
}

#[test]
fn scenario_unstake_adds_chunk() {
    let (mut pool, mut book) = setup();
    pool.stake(&mut book, ALICE, 100).unwrap();
    assert_eq!(pool.unstake(&mut book, ALICE, 40, 5), Ok(()));
    assert_eq!(pool.stake_record(ALICE), 60);
    assert_eq!(pool.unlocking_chunks(ALICE), vec![UnlockChunk { value: 40, era: 9 }]);
    assert_eq!(pool.matching_pool.total_unstake_amount.total, 40);
    assert_eq!(pool.matching_pool.total_stake_amount.total, 100);
    assert_eq!(book.liquid_balance(ALICE), 60);
}

#[test]
fn scenario_claim_waits_for_target_era() {
    let (mut pool, mut book) = setup();
    pool.stake(&mut book, ALICE, 100).unwrap();
    pool.unstake(&mut book, ALICE, 40, 5).unwrap();
    assert_eq!(pool.claim_for(&mut book, ALICE, 8), Err(Error::NothingToClaim));
    assert_eq!(pool.unlocking_chunks(ALICE), vec![UnlockChunk { value: 40, era: 9 }]);
    assert_eq!(pool.claim_for(&mut book, ALICE, 9), Ok(40));
    assert_eq!(pool.unlocking_chunks(ALICE), vec![]);
    assert!(!pool.unlockings.contains_key(&ALICE));
    assert_eq!(book.free_balance(ALICE), 940);
    assert_eq!(pool.claim_for(&mut book, ALICE, 9), Err(Error::NoUnlockings));
}

#[test]
fn stake_unstake_claim_round_trip() {
    let (mut pool, mut book) = setup();
    pool.stake(&mut book, BOB, 250).unwrap();
    pool.unstake(&mut book, BOB, 250, 2).unwrap();
    assert_eq!(pool.stake_record(BOB), 0);
    assert!(!pool.staked_accounts.contains(&BOB));
    assert_eq!(pool.claim_for(&mut book, BOB, 20), Ok(250));
    assert_eq!(book.free_balance(BOB), 1_000);
    assert_eq!(book.free_balance(POOL), 0);
    assert_eq!(book.liquid_balance(BOB), 0);
}

#[test]
fn unstake_never_lowers_stake_total() {
    let (mut pool, mut book) = setup();
    pool.stake(&mut book, ALICE, 100).unwrap();
    pool.stake(&mut book, BOB, 50).unwrap();
    pool.unstake(&mut book, ALICE, 30, 1).unwrap();
    pool.unstake(&mut book, BOB, 50, 1).unwrap();
    assert_eq!(pool.matching_pool.total_stake_amount.total, 150);
    assert_eq!(pool.matching_pool.total_unstake_amount.total, 80);
    let records = pool.stake_record(ALICE) + pool.stake_record(BOB);
    assert_eq!(records, 70);
}

#[test]
fn unstakes_in_one_era_merge_and_later_ones_append() {
    let (mut pool, mut book) = setup();
    pool.stake(&mut book, ALICE, 100).unwrap();
    pool.unstake(&mut book, ALICE, 10, 5).unwrap();
    pool.unstake(&mut book, ALICE, 15, 5).unwrap();
    pool.unstake(&mut book, ALICE, 20, 6).unwrap();
    assert_eq!(
        pool.unlocking_chunks(ALICE),
        vec![UnlockChunk { value: 25, era: 9 }, UnlockChunk { value: 20, era: 10 }]
    );
    assert_eq!(pool.claim_for(&mut book, ALICE, 9), Ok(25));
    assert_eq!(pool.unlocking_chunks(ALICE), vec![UnlockChunk { value: 20, era: 10 }]);
}

#[test]
fn stake_errors() {
    let (mut pool, mut book) = setup();
    assert_eq!(pool.stake(&mut book, ALICE, 9), Err(Error::StakeTooSmall));
    assert_eq!(pool.stake(&mut book, ALICE, 1_001), Err(Error::Token(TokenError::FundsUnavailable)));
    assert_eq!(book.liquid_balance(ALICE), 0);
    assert_eq!(pool.stake_record(ALICE), 0);
    let mut unregistered = Pallet::new(POOL, 1, None, 10, 3, 0);
    assert_eq!(unregistered.stake(&mut book, ALICE, 100), Err(Error::InvalidLiquidCurrency));
}

#[test]
fn stake_total_overflow_changes_nothing() {
    let (mut pool, mut book) = setup();
    pool.matching_pool.total_stake_amount.total = u128::MAX - 50;
    assert_eq!(pool.stake(&mut book, ALICE, 100), Err(Error::Arithmetic(ArithmeticError::Overflow)));
    assert_eq!(book.free_balance(ALICE), 1_000);
    assert_eq!(book.liquid_balance(ALICE), 0);
    assert_eq!(pool.stake_record(ALICE), 0);
}

#[test]
fn unstake_errors() {
    let (mut pool, mut book) = setup();
    assert_eq!(pool.unstake(&mut book, ALICE, 10, 1), Err(Error::NotStaked));
    pool.stake(&mut book, ALICE, 100).unwrap();
    assert_eq!(pool.unstake(&mut book, ALICE, 101, 1), Err(Error::Token(TokenError::FundsUnavailable)));
    book.mint_liquid(ALICE, 50).unwrap();
    assert_eq!(pool.unstake(&mut book, ALICE, 101, 1), Err(Error::InsufficientBalance));
    assert_eq!(pool.unstake(&mut book, ALICE, 10, u32::MAX), Err(Error::Arithmetic(ArithmeticError::Overflow)));
    assert_eq!(pool.stake_record(ALICE), 100);
    assert_eq!(book.liquid_balance(ALICE), 150);
}

#[test]
fn burn_shortfall_within_tolerance_is_accepted() {
    let mut pool = Pallet::new(POOL, 1, Some(18), 10, 3, 5);
    let mut book = AssetBook::new();
    book.set_native(ALICE, 1_000);
    pool.stake(&mut book, ALICE, 100).unwrap();
    let burned = book.burn_liquid_best_effort(ALICE, 3);
    assert_eq!(burned, 3);
    assert_eq!(pool.unstake(&mut book, ALICE, 100, 0), Ok(()));
    assert_eq!(book.liquid_balance(ALICE), 0);
    assert_eq!(pool.stake_record(ALICE), 0);
}

#[test]
fn claim_fails_when_custody_lacks_funds() {
    let (mut pool, mut book) = setup();
    pool.stake(&mut book, ALICE, 100).unwrap();
    pool.unstake(&mut book, ALICE, 100, 0).unwrap();
    book.set_native(POOL, 10);
    assert_eq!(pool.claim_for(&mut book, ALICE, 4), Err(Error::Token(TokenError::FundsUnavailable)));
    assert_eq!(pool.unlocking_chunks(ALICE), vec![UnlockChunk { value: 100, era: 4 }]);
}

#[test]
fn bond_and_unbond() {
    let (mut pool, _) = setup();
    assert_eq!(pool.unbond(ALICE, 1), Err(Error::NotBonded));
    pool.bond(ALICE, 100);
    assert_eq!(pool.unbond(ALICE, 101), Err(Error::InsufficientBonded));
    assert_eq!(pool.unbond(ALICE, 60), Ok(()));
    assert_eq!(pool.bonds.get(&ALICE), Some(&40));
    assert_eq!(pool.unbond(ALICE, 40), Ok(()));
    assert!(!pool.bonds.contains_key(&ALICE));
}

#[test]
fn nominate_needs_minimum_bond() {
    let (mut pool, mut book) = setup();
    assert_eq!(pool.nominate(ALICE, 100), Err(Error::NotStaked));
    assert_eq!(pool.rebond(ALICE), Err(Error::NotStaked));
    pool.stake(&mut book, ALICE, 60).unwrap();
    assert_eq!(pool.nominate(ALICE, 100), Err(Error::CannotNominate));
    pool.stake(&mut book, BOB, 40).unwrap();
    assert_eq!(pool.total_stake_records(), 100);
    assert_eq!(pool.nominate(ALICE, 100), Ok(()));
    assert_eq!(pool.rebond(ALICE), Ok(()));
}

#[test]
fn derivative_reward_requests() {
    let (mut pool, mut book) = setup();
    assert_eq!(pool.claim_reward(ALICE), Err(Error::NotStaked));
    pool.stake(&mut book, ALICE, 300).unwrap();
    pool.stake(&mut book, BOB, 100).unwrap();
    assert_eq!(pool.claim_reward(ALICE), Ok(true));
    assert_eq!(pool.claim_reward(ALICE), Err(Error::WaitTheEraToComplete));
    assert_eq!(pool.claim_reward(BOB), Ok(false));
    assert_eq!(pool.derivative_reward_accounts(), vec![ALICE, BOB]);
}

#[test]
fn derivative_reward_is_stake_proportional() {
    let (mut pool, mut book) = setup();
    pool.stake(&mut book, ALICE, 300).unwrap();
    pool.stake(&mut book, BOB, 100).unwrap();
    assert_eq!(pool.claim_derivative(&mut book, ALICE, 80), Err(Error::AccountNotInDerivativeReward));
    pool.claim_reward(ALICE).unwrap();
    assert_eq!(pool.claim_derivative(&mut book, ALICE, 80), Ok(60));
    assert_eq!(book.liquid_balance(ALICE), 360);
    assert_eq!(pool.stake_record(ALICE), 360);
    assert_eq!(pool.derivative_reward_accounts(), vec![]);
    assert_eq!(Pallet::calculate_reward(1, 3, 10), Some(3));
    assert_eq!(Pallet::calculate_reward(5, 0, 10), Some(0));
}

#[test]
fn pool_accessors() {
    let (pool, _) = setup();
    assert_eq!(pool.account_id(), POOL);
    assert_eq!(pool.staking_account(), POOL);
    assert_eq!(pool.liquid_currency(), Ok(1));
    assert_eq!(pool.get_liquid_currency(), Some(1));
    assert_eq!(pool.get_decimal(&1), Some(18));
    assert_eq!(pool.get_decimal(&2), None);
    let unregistered = Pallet::new(POOL, 1, None, 10, 3, 0);
    assert_eq!(unregistered.get_liquid_currency(), None);
    assert_eq!(unregistered.liquid_currency(), Err(Error::InvalidLiquidCurrency));
    assert_eq!(pool.target_era(5), Ok(9));
    assert_eq!(pool.target_era(u32::MAX - 3), Err(Error::Arithmetic(ArithmeticError::Overflow)));
}
