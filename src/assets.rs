use vstd::prelude::*;
use std::collections::HashMap;
use crate::types::{AccountId, Balance};

verus! {

broadcast use vstd::std_specs::hash::group_hash_axioms;

/// Failure of a transfer, mint or burn.
#[derive(Clone, Copy, Debug, PartialEq, Eq, Structural)]
pub enum TokenError {
    /// The source account does not hold the amount.
    FundsUnavailable,
    /// The destination balance would exceed the largest balance.
    Overflow,
}

/// Free balance of `a` in a balance table; an absent account holds nothing.
pub open spec fn balance_in(m: Map<AccountId, Balance>, a: AccountId) -> nat {
    if m.contains_key(a) {
        m[a] as nat
    } else {
        0
    }
}

/// The table after `amount` moves from `from` to `to`, where `from` holds it and
/// `to` can receive it.
pub open spec fn moved(m: Map<AccountId, Balance>, from: AccountId, to: AccountId, amount: Balance) -> Result<
    Map<AccountId, Balance>,
    TokenError,
> {
    if balance_in(m, from) < amount {
        Err(TokenError::FundsUnavailable)
    } else if from == to {
        Ok(m)
    } else if balance_in(m, to) + amount > Balance::MAX {
        Err(TokenError::Overflow)
    } else {
        Ok(
            m.insert(from, (balance_in(m, from) - amount) as Balance).insert(
                to,
                (balance_in(m, to) + amount) as Balance,
            ),
        )
    }
}

/// The table after `amount` is created in `to`, where it fits.
pub open spec fn minted(m: Map<AccountId, Balance>, to: AccountId, amount: Balance) -> Result<
    Map<AccountId, Balance>,
    TokenError,
> {
    if balance_in(m, to) + amount > Balance::MAX {
        Err(TokenError::Overflow)
    } else {
        Ok(m.insert(to, (balance_in(m, to) + amount) as Balance))
    }
}

/// The smaller of `a` and `b`.
pub open spec fn min_of(a: nat, b: nat) -> nat {
    if a <= b {
        a
    } else {
        b
    }
}

/// Balances of the underlying (native) asset and of the liquid derivative asset.
pub struct AssetBook {
    pub native: HashMap<AccountId, Balance>,
    pub liquid: HashMap<AccountId, Balance>,
}

impl AssetBook {
    pub open spec fn native_of(&self, a: AccountId) -> nat {
        balance_in(self.native@, a)
    }

    pub open spec fn liquid_of(&self, a: AccountId) -> nat {
        balance_in(self.liquid@, a)
    }

    /// A book in which nobody holds anything.
    pub fn new() -> (r: Self)
        ensures
            r.native@ == Map::<AccountId, Balance>::empty(),
            r.liquid@ == Map::<AccountId, Balance>::empty(),
    {
        AssetBook { native: HashMap::new(), liquid: HashMap::new() }
    }

    /// A copy of the book.
    pub fn duplicate(&self) -> (r: Self)
        ensures
            r.native@ == self.native@,
            r.liquid@ == self.liquid@,
    {
        AssetBook { native: self.native.clone(), liquid: self.liquid.clone() }
    }

    /// Sets the native balance of `who`, as genesis or a deposit does.
    pub fn set_native(&mut self, who: AccountId, amount: Balance)
        ensures
            final(self).native@ == old(self).native@.insert(who, amount),
            final(self).liquid@ == old(self).liquid@,
    {
        self.native.insert(who, amount);
    }

    /// Native balance of `who`.
    pub fn free_balance(&self, who: AccountId) -> (r: Balance)
        ensures
            r as nat == self.native_of(who),
    {
        match self.native.get(&who) {
            Some(b) => *b,
            None => 0,
        }
    }

    /// Liquid balance of `who`.
    pub fn liquid_balance(&self, who: AccountId) -> (r: Balance)
        ensures
            r as nat == self.liquid_of(who),
    {
        match self.liquid.get(&who) {
            Some(b) => *b,
            None => 0,
        }
    }

    /// Moves `amount` of the native asset from `from` to `to`.
    pub fn transfer(&mut self, from: AccountId, to: AccountId, amount: Balance) -> (r: Result<(), TokenError>)
        ensures
            final(self).liquid@ == old(self).liquid@,
            match moved(old(self).native@, from, to, amount) {
                Ok(m) => r == Ok::<(), TokenError>(()) && final(self).native@ == m,
                Err(e) => r == Err::<(), TokenError>(e) && final(self).native@ == old(self).native@,
            },
    {
        let held = self.free_balance(from);
        if held < amount {
            return Err(TokenError::FundsUnavailable);
        }
        if from == to {
            return Ok(());
        }
        let received = self.free_balance(to);
        let new_to = match received.checked_add(amount) {
            Some(v) => v,
            None => return Err(TokenError::Overflow),
        };
        self.native.insert(from, held - amount);
        self.native.insert(to, new_to);
        Ok(())
    }

    /// Removes up to `amount` of the native asset from `who`; returns what was removed.
    pub fn slash(&mut self, who: AccountId, amount: Balance) -> (r: Balance)
        ensures
            r as nat == min_of(old(self).native_of(who), amount as nat),
            final(self).native@ == old(self).native@.insert(who, (old(self).native_of(who) - r) as Balance),
            final(self).liquid@ == old(self).liquid@,
    {
        let held = self.free_balance(who);
        let taken = if held < amount {
            held
        } else {
            amount
        };
        self.native.insert(who, held - taken);
        taken
    }

    /// Creates `amount` of the liquid asset in `to`.
    pub fn mint_liquid(&mut self, to: AccountId, amount: Balance) -> (r: Result<(), TokenError>)
        ensures
            final(self).native@ == old(self).native@,
            match minted(old(self).liquid@, to, amount) {
                Ok(m) => r == Ok::<(), TokenError>(()) && final(self).liquid@ == m,
                Err(e) => r == Err::<(), TokenError>(e) && final(self).liquid@ == old(self).liquid@,
            },
    {
        let held = self.liquid_balance(to);
        match held.checked_add(amount) {
            Some(v) => {
                self.liquid.insert(to, v);
                Ok(())
            },
            None => Err(TokenError::Overflow),
        }
    }

    /// Destroys as much as `who` holds of `amount` of the liquid asset; returns what
    /// was destroyed.
    pub fn burn_liquid_best_effort(&mut self, who: AccountId, amount: Balance) -> (r: Balance)
        ensures
            r as nat == min_of(old(self).liquid_of(who), amount as nat),
            final(self).liquid@ == old(self).liquid@.insert(who, (old(self).liquid_of(who) - r) as Balance),
            final(self).native@ == old(self).native@,
    {
        let held = self.liquid_balance(who);
        let taken = if held < amount {
            held
        } else {
            amount
        };
        self.liquid.insert(who, held - taken);
        taken
    }
}

} // verus!
