use staking_rewards::fixed::{from_fixed, mul_div, to_fixed};
use staking_rewards::types::{ArithmeticError, MatchingLedger, ReservableAmount};

fn ledger(stake_total: u128, stake_reserved: u128) -> MatchingLedger {
    MatchingLedger {
        total_stake_amount: ReservableAmount { total: stake_total, reserved: stake_reserved },
        total_unstake_amount: ReservableAmount { total: 0, reserved: 0 },
    }
}

#[test]
fn free_is_total_minus_reserved() {
    let r = ReservableAmount { total: 100, reserved: 30 };
    assert_eq!(r.free(), Ok(70));
    let broken = ReservableAmount { total: 10, reserved: 30 };
    assert_eq!(broken.free(), Err(ArithmeticError::Underflow));
}

#[test]
fn add_amounts_and_overflow() {
    let mut l = ledger(u128::MAX - 5, 0);
    assert_eq!(l.add_stake_amount(5), Ok(()));
    assert_eq!(l.total_stake_amount.total, u128::MAX);
    assert_eq!(l.add_stake_amount(1), Err(ArithmeticError::Overflow));
    assert_eq!(l.total_stake_amount.total, u128::MAX);
    assert_eq!(l.add_unstake_amount(40), Ok(()));
    assert_eq!(l.total_unstake_amount.total, 40);
}

#[test]
fn sub_needs_free_amount() {
    let mut l = ledger(100, 60);
    assert_eq!(l.sub_stake_amount(41), Err(ArithmeticError::Underflow));
    assert_eq!(l.total_stake_amount, ReservableAmount { total: 100, reserved: 60 });
    assert_eq!(l.sub_stake_amount(40), Ok(()));
    assert_eq!(l.total_stake_amount, ReservableAmount { total: 60, reserved: 60 });
    assert_eq!(l.sub_unstake_amount(1), Err(ArithmeticError::Underflow));
}

#[test]
fn reserve_stays_within_total() {
    let mut l = ledger(100, 0);
    assert_eq!(l.set_stake_amount_lock(70), Ok(()));
    assert_eq!(l.set_stake_amount_lock(31), Err(ArithmeticError::Overflow));
    assert_eq!(l.set_stake_amount_lock(30), Ok(()));
    assert_eq!(l.total_stake_amount, ReservableAmount { total: 100, reserved: 100 });
    assert!(l.total_stake_amount.reserved <= l.total_stake_amount.total);
    assert_eq!(l.set_unstake_amount_lock(1), Err(ArithmeticError::Overflow));
    l.add_unstake_amount(5).unwrap();
    assert_eq!(l.set_unstake_amount_lock(5), Ok(()));
    assert_eq!(l.total_unstake_amount, ReservableAmount { total: 5, reserved: 5 });
}

#[test]
fn fixed_point_conversions_truncate() {
    assert_eq!(to_fixed(1, 3, 18), Some(333_333_333_333_333_333));
    assert_eq!(to_fixed(2, 1, 0), Some(2));
    assert_eq!(to_fixed(1, 1, 39), None);
    assert_eq!(from_fixed(2_500_000_000_000_000_000, 18), 2);
    assert_eq!(from_fixed(999, 3), 0);
    assert_eq!(from_fixed(12_345, 0), 12_345);
    assert_eq!(from_fixed(12_345, 40), 0);
}

#[test]
fn mul_div_truncates_and_checks() {
    assert_eq!(mul_div(90, 400, 1000), Some(36));
    assert_eq!(mul_div(91, 600, 1000), Some(54));
    assert_eq!(mul_div(7, 3, 0), Some(0));
    assert_eq!(mul_div(u128::MAX, 2, 3), None);
}
