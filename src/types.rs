use vstd::prelude::*;

verus! {

/// Identifier of an account.
pub type AccountId = u64;

/// Amount of an asset, in its smallest unit.
pub type Balance = u128;

/// Index of an era.
pub type EraIndex = u32;

/// Identifier of an asset.
pub type CurrencyId = u32;

/// Failure of a checked arithmetic step.
#[derive(Clone, Copy, Debug, PartialEq, Eq, Structural)]
pub enum ArithmeticError {
    Overflow,
    Underflow,
}

/// Who sends a call: the privileged root, or a signed account.
#[derive(Clone, Copy, Debug, PartialEq, Eq, Structural)]
pub enum Origin {
    Root,
    Signed(AccountId),
}

/// Whether the pool's custody account bonds what it holds.
#[derive(Clone, Copy, Debug, PartialEq, Eq, Structural)]
pub enum Staking {
    Bond,
    NoBond,
}

/// Number of decimals of an asset, where it is known.
pub trait DecimalProvider<CurrencyId> {
    fn get_decimal(&self, asset_id: &CurrencyId) -> Option<u8>;
}

/// The derivative asset of the pool, where it is configured.
pub trait LiquidStakingCurrenciesProvider<CurrencyId> {
    fn get_liquid_currency(&self) -> Option<CurrencyId>;
}

/// The account under which a pool holds and stakes its custody.
pub trait StakingAccount<AccountId> {
    fn staking_account(&self) -> AccountId;
}

/// An amount of which a part is reserved (committed) and the rest is free.
#[derive(Clone, Copy, Debug, PartialEq, Eq, Structural, Default)]
pub struct ReservableAmount {
    pub total: Balance,
    pub reserved: Balance,
}

impl ReservableAmount {
    /// The reserved part never exceeds the total.
    pub open spec fn wf(&self) -> bool {
        self.reserved <= self.total
    }

    /// `total - reserved`; `Underflow` only where the reserved part exceeds the total.
    pub fn free(&self) -> (r: Result<Balance, ArithmeticError>)
        ensures
            self.wf() ==> r == Ok::<Balance, ArithmeticError>((self.total - self.reserved) as Balance),
            !self.wf() ==> r == Err::<Balance, ArithmeticError>(ArithmeticError::Underflow),
    {
        if self.reserved <= self.total {
            Ok(self.total - self.reserved)
        } else {
            Err(ArithmeticError::Underflow)
        }
    }
}

/// The matching pool's aggregate stake and unstake amounts.
#[derive(Clone, Copy, Debug, PartialEq, Eq, Structural, Default)]
pub struct MatchingLedger {
    /// Total amount staked.
    pub total_stake_amount: ReservableAmount,
    /// Total amount requested for unstaking.
    pub total_unstake_amount: ReservableAmount,
}

/// `r.total + amount`, where it fits.
pub open spec fn added(r: ReservableAmount, amount: Balance) -> Result<ReservableAmount, ArithmeticError> {
    if r.total + amount <= Balance::MAX {
        Ok(ReservableAmount { total: (r.total + amount) as Balance, reserved: r.reserved })
    } else {
        Err(ArithmeticError::Overflow)
    }
}

/// `r.total - amount`, where the free part covers `amount`.
pub open spec fn subtracted(r: ReservableAmount, amount: Balance) -> Result<ReservableAmount, ArithmeticError> {
    if r.reserved <= r.total && amount <= r.total - r.reserved {
        Ok(ReservableAmount { total: (r.total - amount) as Balance, reserved: r.reserved })
    } else {
        Err(ArithmeticError::Underflow)
    }
}

/// `r.reserved + amount`, where the result stays within the total.
pub open spec fn reserved_more(r: ReservableAmount, amount: Balance) -> Result<ReservableAmount, ArithmeticError> {
    if r.reserved + amount <= r.total {
        Ok(ReservableAmount { total: r.total, reserved: (r.reserved + amount) as Balance })
    } else {
        Err(ArithmeticError::Overflow)
    }
}

/// Applies a step to one side of the ledger: on `Ok` the side takes the new value,
/// on `Err` the ledger stays as it was.
pub open spec fn ledger_step(
    before: MatchingLedger,
    after: MatchingLedger,
    stake_side: bool,
    step: Result<ReservableAmount, ArithmeticError>,
    r: Result<(), ArithmeticError>,
) -> bool {
    match step {
        Ok(side) => {
            &&& r == Ok::<(), ArithmeticError>(())
            &&& stake_side ==> after == MatchingLedger { total_stake_amount: side, ..before }
            &&& !stake_side ==> after == MatchingLedger { total_unstake_amount: side, ..before }
        },
        Err(e) => r == Err::<(), ArithmeticError>(e) && after == before,
    }
}

impl MatchingLedger {
    /// Both sides keep their reserved part within their total.
    pub open spec fn wf(&self) -> bool {
        self.total_stake_amount.wf() && self.total_unstake_amount.wf()
    }

    pub fn add_stake_amount(&mut self, amount: Balance) -> (r: Result<(), ArithmeticError>)
        ensures
            ledger_step(*old(self), *final(self), true, added(old(self).total_stake_amount, amount), r),
            old(self).wf() ==> final(self).wf(),
    {
        match self.total_stake_amount.total.checked_add(amount) {
            Some(t) => {
                self.total_stake_amount.total = t;
                Ok(())
            },
            None => Err(ArithmeticError::Overflow),
        }
    }

    pub fn add_unstake_amount(&mut self, amount: Balance) -> (r: Result<(), ArithmeticError>)
        ensures
            ledger_step(*old(self), *final(self), false, added(old(self).total_unstake_amount, amount), r),
            old(self).wf() ==> final(self).wf(),
    {
        match self.total_unstake_amount.total.checked_add(amount) {
            Some(t) => {
                self.total_unstake_amount.total = t;
                Ok(())
            },
            None => Err(ArithmeticError::Overflow),
        }
    }

    pub fn sub_stake_amount(&mut self, amount: Balance) -> (r: Result<(), ArithmeticError>)
        ensures
            ledger_step(*old(self), *final(self), true, subtracted(old(self).total_stake_amount, amount), r),
            old(self).wf() ==> final(self).wf(),
    {
        let free = self.total_stake_amount.free()?;
        if free < amount {
            return Err(ArithmeticError::Underflow);
        }
        self.total_stake_amount.total = self.total_stake_amount.total - amount;
        Ok(())
    }

    pub fn sub_unstake_amount(&mut self, amount: Balance) -> (r: Result<(), ArithmeticError>)
        ensures
            ledger_step(*old(self), *final(self), false, subtracted(old(self).total_unstake_amount, amount), r),
            old(self).wf() ==> final(self).wf(),
    {
        let free = self.total_unstake_amount.free()?;
        if free < amount {
            return Err(ArithmeticError::Underflow);
        }
        self.total_unstake_amount.total = self.total_unstake_amount.total - amount;
        Ok(())
    }

    pub fn set_stake_amount_lock(&mut self, amount: Balance) -> (r: Result<(), ArithmeticError>)
        ensures
            ledger_step(*old(self), *final(self), true, reserved_more(old(self).total_stake_amount, amount), r),
            old(self).wf() ==> final(self).wf(),
    {
        let reserved = match self.total_stake_amount.reserved.checked_add(amount) {
            Some(v) => v,
            None => return Err(ArithmeticError::Overflow),
        };
        if reserved > self.total_stake_amount.total {
            return Err(ArithmeticError::Overflow);
        }
        self.total_stake_amount.reserved = reserved;
        Ok(())
    }

    pub fn set_unstake_amount_lock(&mut self, amount: Balance) -> (r: Result<(), ArithmeticError>)
        ensures
            ledger_step(*old(self), *final(self), false, reserved_more(old(self).total_unstake_amount, amount), r),
            old(self).wf() ==> final(self).wf(),
    {
        let reserved = match self.total_unstake_amount.reserved.checked_add(amount) {
            Some(v) => v,
            None => return Err(ArithmeticError::Overflow),
        };
        if reserved > self.total_unstake_amount.total {
            return Err(ArithmeticError::Overflow);
        }
        self.total_unstake_amount.reserved = reserved;
        Ok(())
    }
}

} // verus!
