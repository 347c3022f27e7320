use staking_rewards::assets::AssetBook;
use staking_rewards::burn::{Error, Pallet};
use staking_rewards::types::Origin;

const BURN_ACCOUNT: u64 = 77;

fn set_balance(book: &mut AssetBook, burn: &Pallet) {
    book.set_native(burn.burn_account().unwrap(), 1_000_000_000_000_000);
}

#[test]
fn burn_amount_works() {
    let burn = Pallet::new(BURN_ACCOUNT);
    let mut book = AssetBook::new();
    set_balance(&mut book, &burn);
    let burn_amount = 1000000000000;
    let result = burn.burn_amount(&mut book, Origin::Root, burn_amount);
    assert_eq!(result, Ok(()));
    assert_eq!(book.free_balance(BURN_ACCOUNT), 1_000_000_000_000_000 - 1000000000000);
}

#[test]
fn burn_fails() {
    let burn = Pallet::new(BURN_ACCOUNT);
    let mut book = AssetBook::new();
    set_balance(&mut book, &burn);
    let burn_amount = 9_000_000_000_000_000;
    let result = burn.burn_amount(&mut book, Origin::Root, burn_amount);
    assert_eq!(result, Err(Error::InsufficientBalance));
    assert_eq!(book.free_balance(BURN_ACCOUNT), 1_000_000_000_000_000);
}

#[test]
fn burn_amount_fails_for_non_root() {
    let burn = Pallet::new(BURN_ACCOUNT);
    let mut book = AssetBook::new();
    let burn_amount = 10;
    let result = burn.burn_amount(&mut book, Origin::Signed(1), burn_amount);
    assert_eq!(result, Err(Error::BadOrigin));
}

#[test]
fn burn_of_whole_balance_is_refused() {
    let burn = Pallet::new(BURN_ACCOUNT);
    let mut book = AssetBook::new();
    book.set_native(BURN_ACCOUNT, 500);
    assert_eq!(burn.burn_amount(&mut book, Origin::Root, 500), Err(Error::InsufficientBalance));
    assert_eq!(burn.burn_amount(&mut book, Origin::Root, 499), Ok(()));
    assert_eq!(book.free_balance(BURN_ACCOUNT), 1);
}
