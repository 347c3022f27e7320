use vstd::prelude::*;
use crate::assets::AssetBook;
use crate::types::{AccountId, Balance, Origin};

verus! {

/// Why a burn was refused.
#[derive(Clone, Copy, Debug, PartialEq, Eq, Structural)]
pub enum Error {
    /// The burn account holds no more than the amount.
    InsufficientBalance,
    /// The call needs the root origin.
    BadOrigin,
}

/// Destroys native tokens held by a dedicated burn account.
pub struct Pallet {
    pub account_id: AccountId,
}

impl Pallet {
    pub fn new(account_id: AccountId) -> (r: Self)
        ensures
            r.account_id == account_id,
    {
        Pallet { account_id }
    }

    /// The burn account.
    pub fn account_id(&self) -> (r: AccountId)
        ensures
            r == self.account_id,
    {
        self.account_id
    }

    /// The burn account, which always exists.
    pub fn burn_account(&self) -> (r: Option<AccountId>)
        ensures
            r == Some(self.account_id),
    {
        Some(self.account_id)
    }

    /// Destroys `amount` of what the burn account holds; root only, and only an
    /// amount below the account's balance.
    pub fn burn_amount(&self, book: &mut AssetBook, origin: Origin, amount: Balance) -> (r: Result<(), Error>)
        ensures
            origin != Origin::Root ==> r == Err::<(), Error>(Error::BadOrigin),
            origin == Origin::Root && amount >= old(book).native_of(self.account_id) ==> r == Err::<(), Error>(
                Error::InsufficientBalance,
            ),
            r is Err ==> final(book).native@ == old(book).native@,
            origin == Origin::Root && amount < old(book).native_of(self.account_id) ==> r == Ok::<(), Error>(())
                && final(book).native@ == old(book).native@.insert(
                self.account_id,
                (old(book).native_of(self.account_id) - amount) as Balance,
            ),
            final(book).liquid@ == old(book).liquid@,
    {
        if origin != Origin::Root {
            return Err(Error::BadOrigin);
        }
        let balance = book.free_balance(self.account_id);
        if amount >= balance {
            return Err(Error::InsufficientBalance);
        }
        book.slash(self.account_id, amount);
        Ok(())
    }
}

} // verus!
