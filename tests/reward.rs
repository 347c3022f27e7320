use staking_rewards::assets::AssetBook;
use staking_rewards::reward::{Error, Exposure, IndividualExposure, Pallet, ValidatorEra};
use staking_rewards::types::{ArithmeticError, Origin};

const TREASURY: u64 = 500;
const V: u64 = 10;
const N1: u64 = 11;
const N2: u64 = 12;

/// An engine with one era per year and a 10% reward, so that a validator with all
/// the points and an exposure of 1000 earns 100 in the era.
fn engine() -> Pallet {
    let mut p = Pallet::new(TREASURY, 60, 60);
    p.set_reward_percent_value(Origin::Root, 10).unwrap();
    p.reward_percent();
    p
}

fn validator(total: u128, own: u128, others: Vec<(u64, u128)>, commission: u32) -> ValidatorEra {
    ValidatorEra {
        validator: V,
        points: 1,
        commission,
        exposure: Exposure {
            total,
            own,
            others: others.into_iter().map(|(who, value)| IndividualExposure { who, value }).collect(),
        },
    }
}

#[test]
fn scenario_commission_split() {
    let mut p = engine();
    let ve = validator(1000, 400, vec![(N1, 600)], 10);
    assert_eq!(Pallet::calculate_validator_commission_reward(100, 10, &ve.exposure), Some((46, 90)));
    assert_eq!(Pallet::calculate_reward_share(600, 1000, 90), Some(54));
    assert_eq!(p.calculate_reward(&vec![ve], 1), Ok(()));
    assert_eq!(p.accrued.validator_reward(V), 46);
    assert_eq!(p.accrued.nominator_reward(V, N1), 54);
    assert_eq!(p.accrued.validator_reward(V) + p.accrued.nominator_reward(V, N1), 100);
    assert_eq!(p.accrued.nominators_of(V), vec![N1]);
}

#[test]
fn split_loses_at_most_truncation() {
    let mut p = engine();
    // 1010 at 10% gives 101; 10% commission is 10, leaving 91.
    let ve = validator(1010, 404, vec![(N1, 606)], 10);
    p.calculate_reward(&vec![ve], 1).unwrap();
    let v = p.accrued.validator_reward(V);
    let n = p.accrued.nominator_reward(V, N1);
    assert_eq!(v, 10 + 91 * 404 / 1010);
    assert_eq!(n, 91 * 606 / 1010);
    assert_eq!(v + n, 100);
    assert!(v + n <= 101 && v + n + 2 >= 101);
}

#[test]
fn validator_without_nominators_takes_all() {
    let mut p = engine();
    let ve = validator(1000, 1000, vec![], 10);
    p.calculate_reward(&vec![ve.clone(), ve], 1).unwrap();
    assert_eq!(p.accrued.validator_reward(V), 200);
    assert_eq!(p.accrued.nominators_of(V), vec![]);
}

#[test]
fn era_reward_formula() {
    let p = Pallet::new(TREASURY, 525_600, 1_440);
    let exposure = Exposure { total: 36_500_000, own: 36_500_000, others: vec![] };
    assert_eq!(p.calculate_annual_validator_reward(&exposure), Some(2_920_000));
    assert_eq!(p.compute_era_reward_from_annual(2_920_000), 8_000);
    assert_eq!(Pallet::calculate_validator_era_reward(3, 4, 8_000), Some(6_000));
    assert_eq!(Pallet::calculate_validator_era_reward(3, 0, 8_000), Some(0));
    assert_eq!(Pallet::validator_commission(100_000_000), 10);
}

#[test]
fn era_pass_overflow_changes_nothing() {
    let mut p = engine();
    let small = validator(1000, 400, vec![(N1, 600)], 10);
    let huge = ValidatorEra { validator: 20, ..validator(u128::MAX, 0, vec![], 0) };
    assert_eq!(p.calculate_reward(&vec![small, huge], 1), Err(Error::Arithmetic(ArithmeticError::Overflow)));
    assert_eq!(p.accrued.validator_reward(V), 0);
    assert_eq!(p.accrued.nominator_reward(V, N1), 0);
}

#[test]
fn claim_rewards_pays_once() {
    let mut p = engine();
    let mut book = AssetBook::new();
    book.set_native(TREASURY, 1_000);
    let ve = validator(1000, 400, vec![(N1, 300), (N2, 300)], 10);
    p.calculate_reward(&vec![ve], 1).unwrap();
    p.get_rewards(V, &vec![V]).unwrap();
    assert_eq!(p.claim_rewards(&mut book, V), Ok(()));
    assert_eq!(book.free_balance(V), 46);
    assert_eq!(book.free_balance(N1), 27);
    assert_eq!(book.free_balance(N2), 27);
    assert_eq!(book.free_balance(TREASURY), 900);
    assert_eq!(p.total_rewards(V), 46);
    assert_eq!(p.total_rewards(N1), 27);
    assert_eq!(p.payout_validators(), vec![]);
    assert_eq!(p.accrued.validator_reward(V), 0);
    assert_eq!(p.accrued.nominator_reward(V, N1), 0);
    // The second claim moves nothing.
    assert_eq!(p.claim_rewards(&mut book, V), Ok(()));
    assert_eq!(book.free_balance(V), 46);
    assert_eq!(book.free_balance(N1), 27);
    assert_eq!(book.free_balance(N2), 27);
    assert_eq!(book.free_balance(TREASURY), 900);
    assert_eq!(p.total_rewards(V), 46);
}

#[test]
fn claim_rewards_needs_treasury_funds() {
    let mut p = engine();
    let mut book = AssetBook::new();
    book.set_native(TREASURY, 99);
    let ve = validator(1000, 400, vec![(N1, 600)], 10);
    p.calculate_reward(&vec![ve], 1).unwrap();
    assert_eq!(p.claim_rewards(&mut book, V), Err(Error::InsufficientRewardBalance));
    assert_eq!(p.accrued.validator_reward(V), 46);
    assert_eq!(book.free_balance(V), 0);
    book.set_native(TREASURY, 100);
    assert_eq!(p.claim_rewards(&mut book, V), Ok(()));
    assert_eq!(book.free_balance(TREASURY), 0);
}

#[test]
fn payout_requests() {
    let mut p = engine();
    assert_eq!(p.get_rewards(V, &vec![N1]), Err(Error::NoSuchValidator));
    assert_eq!(p.get_rewards(V, &vec![V]), Ok(()));
    assert_eq!(p.get_rewards(V, &vec![V]), Err(Error::WaitTheEraToComplete));
    assert_eq!(p.payout_validators(), vec![V]);
    p.update_rewarded_accounts(V);
    assert_eq!(p.payout_validators(), vec![]);
}

#[test]
fn reward_percent_is_root_only() {
    let mut p = Pallet::new(TREASURY, 60, 60);
    assert_eq!(p.base_reward_percent, 8);
    assert_eq!(p.set_reward_percent_value(Origin::Signed(1), 20), Err(Error::BadOrigin));
    p.reward_percent();
    assert_eq!(p.base_reward_percent, 8);
    assert_eq!(p.set_reward_percent_value(Origin::Root, 20), Ok(()));
    p.reward_percent();
    assert_eq!(p.base_reward_percent, 20);
}

#[test]
fn reward_checks() {
    let mut p = engine();
    assert_eq!(Pallet::check_reward(0), Err(Error::NoReward));
    assert_eq!(Pallet::check_reward(1), Ok(()));
    assert_eq!(p.verify_validator(V), Err(Error::NoReward));
    p.calculate_reward(&vec![validator(1000, 1000, vec![], 0)], 1).unwrap();
    assert_eq!(p.verify_validator(V), Ok(100));
    p.store_reward_received(N1, u128::MAX);
    p.store_reward_received(N1, 5);
    assert_eq!(p.total_rewards(N1), u128::MAX);
}
