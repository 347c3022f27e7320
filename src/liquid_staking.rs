use vstd::prelude::*;
use std::collections::HashMap;
use crate::assets::{balance_in, min_of, minted, moved, AssetBook, TokenError};
use crate::fixed::{mul_div, share};
use crate::types::{
    AccountId, ArithmeticError, Balance, CurrencyId, EraIndex, MatchingLedger, ReservableAmount,
    DecimalProvider, LiquidStakingCurrenciesProvider, StakingAccount,
};

verus! {

broadcast use vstd::std_specs::hash::group_hash_axioms;

/// Stake waiting to become claimable at `era`.
#[derive(Clone, Copy, Debug, PartialEq, Eq, Structural)]
pub struct UnlockChunk {
    pub value: Balance,
    pub era: EraIndex,
}

/// Why a liquid staking operation was refused.
#[derive(Clone, Copy, Debug, PartialEq, Eq, Structural)]
pub enum Error {
    /// The liquid currency has no known decimals.
    InvalidLiquidCurrency,
    /// The account holds no stake.
    NotStaked,
    /// The stake is below the minimum.
    StakeTooSmall,
    /// No unlock chunk of the account is due yet.
    NothingToClaim,
    /// The account has no unlock chunks.
    NoUnlockings,
    /// The account already asked for this era's reward.
    WaitTheEraToComplete,
    /// The account's stake is smaller than the amount.
    InsufficientBalance,
    /// The account's bond is smaller than the amount.
    InsufficientBonded,
    /// The account has no bond.
    NotBonded,
    /// The account did not ask for this era's reward.
    AccountNotInDerivativeReward,
    /// The pool's aggregate stake is below the minimum nominator bond.
    CannotNominate,
    /// A checked arithmetic step failed.
    Arithmetic(ArithmeticError),
    /// The asset book refused a transfer, mint or burn.
    Token(TokenError),
}

/// The liquid staking pool: per-account stake records, unlock chunks, bonds, the
/// matching ledger, and the accounts that asked for this era's derivative reward.
pub struct Pallet {
    /// The pool's custody account.
    pub account_id: AccountId,
    /// The derivative asset minted on stake.
    pub liquid_currency: CurrencyId,
    /// Decimals of the derivative asset, where it is registered.
    pub liquid_decimals: Option<u8>,
    /// Smallest amount that one stake call accepts.
    pub min_stake: Balance,
    /// Eras between an unstake request and its claim.
    pub bonding_duration: EraIndex,
    /// Largest shortfall of a derivative burn that an unstake tolerates.
    pub burn_tolerance: Balance,
    pub matching_pool: MatchingLedger,
    /// Stake record of each staked account.
    pub account_stake: HashMap<AccountId, Balance>,
    /// The staked accounts, in the order they first staked.
    pub staked_accounts: Vec<AccountId>,
    /// Unlock chunks of each account that has any.
    pub unlockings: HashMap<AccountId, Vec<UnlockChunk>>,
    /// Amount bonded through the pool by each depositor.
    pub bonds: HashMap<AccountId, Balance>,
    /// Accounts that asked for this era's derivative reward, in request order.
    pub era_reward_accounts: Vec<AccountId>,
}

/// Eras of a chunk list are pairwise distinct.
pub open spec fn distinct_eras(s: Seq<UnlockChunk>) -> bool {
    forall|i: int, j: int| 0 <= i < s.len() && 0 <= j < s.len() && i != j ==> s[i].era != s[j].era
}

/// Some chunk of `s` targets `era`.
pub open spec fn has_era(s: Seq<UnlockChunk>, era: EraIndex) -> bool {
    exists|i: int| 0 <= i < s.len() && s[i].era == era
}

/// `s` with `value` added to the chunk that targets `era`, or with a new chunk for it.
pub open spec fn merged(s: Seq<UnlockChunk>, value: Balance, era: EraIndex) -> Seq<UnlockChunk> {
    if has_era(s, era) {
        let i = choose|i: int| 0 <= i < s.len() && s[i].era == era;
        s.update(i, UnlockChunk { value: (s[i].value + value) as Balance, era })
    } else {
        s.push(UnlockChunk { value, era })
    }
}

/// Merging `value` into the chunk for `era` keeps it within a balance.
pub open spec fn merge_fits(s: Seq<UnlockChunk>, value: Balance, era: EraIndex) -> bool {
    forall|i: int| 0 <= i < s.len() && s[i].era == era ==> s[i].value + value <= Balance::MAX
}

/// Sum of the chunks of `s` due at `era`.
pub open spec fn due_total(s: Seq<UnlockChunk>, era: EraIndex) -> nat
    decreases s.len(),
{
    if s.len() == 0 {
        0
    } else {
        due_total(s.drop_last(), era) + if s.last().era <= era {
            s.last().value as nat
        } else {
            0
        }
    }
}

/// The chunks of `s` not yet due at `era`, in order.
pub open spec fn not_yet_due(s: Seq<UnlockChunk>, era: EraIndex) -> Seq<UnlockChunk>
    decreases s.len(),
{
    if s.len() == 0 {
        Seq::empty()
    } else if s.last().era > era {
        not_yet_due(s.drop_last(), era).push(s.last())
    } else {
        not_yet_due(s.drop_last(), era)
    }
}

/// Some chunk of `s` is due at `era`.
pub open spec fn has_due(s: Seq<UnlockChunk>, era: EraIndex) -> bool {
    exists|i: int| 0 <= i < s.len() && s[i].era <= era
}

/// Sum of the stake records of the accounts in `accounts`.
pub open spec fn total_staked(accounts: Seq<AccountId>, stakes: Map<AccountId, Balance>) -> nat
    decreases accounts.len(),
{
    if accounts.len() == 0 {
        0
    } else {
        total_staked(accounts.drop_last(), stakes) + balance_in(stakes, accounts.last())
    }
}

/// `accounts` with `who` appended, unless it is already there.
pub open spec fn registered(accounts: Seq<AccountId>, who: AccountId) -> Seq<AccountId> {
    if accounts.contains(who) {
        accounts
    } else {
        accounts.push(who)
    }
}

/// `accounts` without `who`.
pub open spec fn unregistered(accounts: Seq<AccountId>, who: AccountId) -> Seq<AccountId> {
    if accounts.contains(who) {
        accounts.remove(choose|i: int| 0 <= i < accounts.len() && accounts[i] == who)
    } else {
        accounts
    }
}

/// The era at which a withdrawal requested in `current_era` becomes claimable.
pub open spec fn target_era_of(current_era: EraIndex, bonding_duration: EraIndex) -> nat {
    (current_era + bonding_duration + 1) as nat
}

impl Pallet {
    /// The stake record of `who`; zero where there is none.
    pub open spec fn stake_of(&self, who: AccountId) -> nat {
        balance_in(self.account_stake@, who)
    }

    /// The unlock chunks of `who`; empty where there are none.
    pub open spec fn chunks_of(&self, who: AccountId) -> Seq<UnlockChunk> {
        if self.unlockings@.contains_key(who) {
            self.unlockings@[who]@
        } else {
            Seq::empty()
        }
    }

    /// The pool's invariant: the ledger keeps reserved amounts within totals; the
    /// staked set lists exactly the accounts with a stake record, once each; each
    /// chunk list is non-empty with one chunk per era; each account asks for the
    /// era's reward at most once.
    pub open spec fn wf(&self) -> bool {
        &&& self.matching_pool.wf()
        &&& self.staked_accounts@.no_duplicates()
        &&& forall|a: AccountId| self.staked_accounts@.contains(a) <==> #[trigger] self.account_stake@.contains_key(a)
        &&& forall|a: AccountId| #[trigger] self.unlockings@.contains_key(a) ==> self.unlockings@[a]@.len() > 0
            && distinct_eras(self.unlockings@[a]@)
        &&& self.era_reward_accounts@.no_duplicates()
    }

    /// The parts of the pool that no operation but `bond`/`unbond` and
    /// `claim_reward`/`claim_derivative` touches stay as they were.
    pub open spec fn same_config(&self, other: &Self) -> bool {
        &&& self.account_id == other.account_id
        &&& self.liquid_currency == other.liquid_currency
        &&& self.liquid_decimals == other.liquid_decimals
        &&& self.min_stake == other.min_stake
        &&& self.bonding_duration == other.bonding_duration
        &&& self.burn_tolerance == other.burn_tolerance
    }

    /// A pool with nothing staked.
    pub fn new(
        account_id: AccountId,
        liquid_currency: CurrencyId,
        liquid_decimals: Option<u8>,
        min_stake: Balance,
        bonding_duration: EraIndex,
        burn_tolerance: Balance,
    ) -> (r: Self)
        ensures
            r.wf(),
            r.account_id == account_id,
            r.liquid_currency == liquid_currency,
            r.liquid_decimals == liquid_decimals,
            r.min_stake == min_stake,
            r.bonding_duration == bonding_duration,
            r.burn_tolerance == burn_tolerance,
            r.matching_pool == (MatchingLedger {
                total_stake_amount: ReservableAmount { total: 0, reserved: 0 },
                total_unstake_amount: ReservableAmount { total: 0, reserved: 0 },
            }),
            r.account_stake@ == Map::<AccountId, Balance>::empty(),
            r.staked_accounts@ == Seq::<AccountId>::empty(),
            r.unlockings@ == Map::<AccountId, Vec<UnlockChunk>>::empty(),
            r.bonds@ == Map::<AccountId, Balance>::empty(),
            r.era_reward_accounts@ == Seq::<AccountId>::empty(),
    {
        Pallet {
            account_id,
            liquid_currency,
            liquid_decimals,
            min_stake,
            bonding_duration,
            burn_tolerance,
            matching_pool: MatchingLedger {
                total_stake_amount: ReservableAmount { total: 0, reserved: 0 },
                total_unstake_amount: ReservableAmount { total: 0, reserved: 0 },
            },
            account_stake: HashMap::new(),
            staked_accounts: Vec::new(),
            unlockings: HashMap::new(),
            bonds: HashMap::new(),
            era_reward_accounts: Vec::new(),
        }
    }

    /// The pool's custody account.
    pub fn account_id(&self) -> (r: AccountId)
        ensures
            r == self.account_id,
    {
        self.account_id
    }

    /// The derivative asset, where its decimals are known.
    pub fn liquid_currency(&self) -> (r: Result<CurrencyId, Error>)
        ensures
            self.liquid_decimals is Some ==> r == Ok::<CurrencyId, Error>(self.liquid_currency),
            self.liquid_decimals is None ==> r == Err::<CurrencyId, Error>(Error::InvalidLiquidCurrency),
    {
        match self.liquid_decimals {
            Some(_) => Ok(self.liquid_currency),
            None => Err(Error::InvalidLiquidCurrency),
        }
    }

    /// The era at which a withdrawal requested now becomes claimable:
    /// `current_era + bonding_duration + 1`.
    pub fn target_era(&self, current_era: EraIndex) -> (r: Result<EraIndex, Error>)
        ensures
            target_era_of(current_era, self.bonding_duration) <= EraIndex::MAX ==> r == Ok::<EraIndex, Error>(
                target_era_of(current_era, self.bonding_duration) as EraIndex,
            ),
            target_era_of(current_era, self.bonding_duration) > EraIndex::MAX ==> r == Err::<EraIndex, Error>(
                Error::Arithmetic(ArithmeticError::Overflow),
            ),
    {
        match current_era.checked_add(self.bonding_duration) {
            Some(e) => match e.checked_add(1) {
                Some(t) => Ok(t),
                None => Err(Error::Arithmetic(ArithmeticError::Overflow)),
            },
            None => Err(Error::Arithmetic(ArithmeticError::Overflow)),
        }
    }

    /// The stake record of `who`; zero where there is none.
    pub fn stake_record(&self, who: AccountId) -> (r: Balance)
        ensures
            r as nat == self.stake_of(who),
    {
        match self.account_stake.get(&who) {
            Some(v) => *v,
            None => 0,
        }
    }

    /// A copy of the unlock chunks of `who`; empty where there are none.
    pub fn unlocking_chunks(&self, who: AccountId) -> (r: Vec<UnlockChunk>)
        ensures
            r@ == self.chunks_of(who),
    {
        match self.unlockings.get(&who) {
            Some(v) => v.clone(),
            None => Vec::new(),
        }
    }

    /// Registers `who` in the staked set if absent.
    pub fn bonded_account(&mut self, who: AccountId)
        ensures
            final(self).staked_accounts@ == registered(old(self).staked_accounts@, who),
            old(self).staked_accounts@.no_duplicates() ==> final(self).staked_accounts@.no_duplicates(),
            final(self).account_stake == old(self).account_stake,
            final(self).matching_pool == old(self).matching_pool,
            final(self).unlockings == old(self).unlockings,
            final(self).bonds == old(self).bonds,
            final(self).era_reward_accounts == old(self).era_reward_accounts,
            final(self).same_config(old(self)),
    {
        if !vec_contains(&self.staked_accounts, who) {
            self.staked_accounts.push(who);
            proof {
                lemma_push_absent_no_duplicates(old(self).staked_accounts@, who);
            }
        }
    }

    /// Adds `amount` to the stake record of `who`, registering `who` in the staked set
    /// if absent.
    pub fn update_share(&mut self, who: AccountId, amount: Balance) -> (r: Result<(), Error>)
        requires
            old(self).wf(),
        ensures
            final(self).wf(),
            old(self).stake_of(who) + amount <= Balance::MAX ==> r == Ok::<(), Error>(())
                && final(self).account_stake@ == old(self).account_stake@.insert(
                who,
                (old(self).stake_of(who) + amount) as Balance,
            ) && final(self).staked_accounts@ == registered(old(self).staked_accounts@, who),
            old(self).stake_of(who) + amount > Balance::MAX ==> r == Err::<(), Error>(
                Error::Arithmetic(ArithmeticError::Overflow),
            ) && *final(self) == *old(self),
            final(self).matching_pool == old(self).matching_pool,
            final(self).unlockings == old(self).unlockings,
            final(self).bonds == old(self).bonds,
            final(self).era_reward_accounts == old(self).era_reward_accounts,
            final(self).same_config(old(self)),
    {
        let held = self.stake_record(who);
        match held.checked_add(amount) {
            Some(v) => {
                self.bonded_account(who);
                self.account_stake.insert(who, v);
                proof {
                    lemma_registered_contains(old(self).staked_accounts@, who);
                }
                Ok(())
            },
            None => Err(Error::Arithmetic(ArithmeticError::Overflow)),
        }
    }
}

/// The outcome of an operation: `Err(e)` where a check named `e`, else `Ok(())`.
pub open spec fn outcome(e: Option<Error>) -> Result<(), Error> {
    match e {
        Some(e) => Err(e),
        None => Ok(()),
    }
}

/// What a successful `stake(who, amount)` leaves: the derivative minted to `who`,
/// `amount` moved into custody, the stake record raised, `who` registered, and the
/// ledger's stake total raised by `amount`.
pub open spec fn stake_post(p0: Pallet, b0: AssetBook, who: AccountId, amount: Balance, p: Pallet, b: AssetBook) -> bool {
    &&& p0.stake_error(b0, who, amount) is None
    &&& b.liquid@ == minted(b0.liquid@, who, amount)->Ok_0
    &&& b.native@ == moved(b0.native@, who, p0.account_id, amount)->Ok_0
    &&& p.account_stake@ == p0.account_stake@.insert(who, (p0.stake_of(who) + amount) as Balance)
    &&& p.staked_accounts@ == registered(p0.staked_accounts@, who)
    &&& p.matching_pool == (MatchingLedger {
        total_stake_amount: ReservableAmount {
            total: (p0.matching_pool.total_stake_amount.total + amount) as Balance,
            ..p0.matching_pool.total_stake_amount
        },
        ..p0.matching_pool
    })
    &&& p.unlockings == p0.unlockings
    &&& p.bonds == p0.bonds
    &&& p.era_reward_accounts == p0.era_reward_accounts
    &&& p.same_config(&p0)
}

/// What a successful `unstake(who, amount)` in `current_era` leaves: the derivative
/// burnt (best effort), the stake record lowered (removed with the registration at
/// zero), `amount` merged into the chunk for the target era, and the ledger's
/// unstake total raised by `amount`; the stake total is not lowered.
pub open spec fn unstake_post(
    p0: Pallet,
    b0: AssetBook,
    who: AccountId,
    amount: Balance,
    current_era: EraIndex,
    p: Pallet,
    b: AssetBook,
) -> bool {
    let rest = (p0.stake_of(who) - amount) as Balance;
    let target = target_era_of(current_era, p0.bonding_duration) as EraIndex;
    &&& p0.unstake_error(b0, who, amount, current_era) is None
    &&& b.native@ == b0.native@
    &&& b.liquid@ == b0.liquid@.insert(
        who,
        (b0.liquid_of(who) - min_of(b0.liquid_of(who), amount as nat)) as Balance,
    )
    &&& rest == 0 ==> p.account_stake@ == p0.account_stake@.remove(who) && p.staked_accounts@ == unregistered(
        p0.staked_accounts@,
        who,
    )
    &&& rest != 0 ==> p.account_stake@ == p0.account_stake@.insert(who, rest) && p.staked_accounts@
        == p0.staked_accounts@
    &&& p.unlockings@.contains_key(who)
    &&& p.chunks_of(who) == merged(p0.chunks_of(who), amount, target)
    &&& p.unlockings@.remove(who) == p0.unlockings@.remove(who)
    &&& p.matching_pool == (MatchingLedger {
        total_unstake_amount: ReservableAmount {
            total: (p0.matching_pool.total_unstake_amount.total + amount) as Balance,
            ..p0.matching_pool.total_unstake_amount
        },
        ..p0.matching_pool
    })
    &&& p.bonds == p0.bonds
    &&& p.era_reward_accounts == p0.era_reward_accounts
    &&& p.same_config(&p0)
}

/// An unstake raises the ledger's unstake total by its amount and leaves the stake
/// side as it was: the stake total is never lowered by unstaking, so the sum of the
/// stake records need not equal the difference of the two totals.
pub proof fn lemma_unstake_leaves_stake_total(
    p0: Pallet,
    b0: AssetBook,
    who: AccountId,
    amount: Balance,
    current_era: EraIndex,
    p: Pallet,
    b: AssetBook,
)
    requires
        unstake_post(p0, b0, who, amount, current_era, p, b),
    ensures
        p.matching_pool.total_stake_amount == p0.matching_pool.total_stake_amount,
        p.matching_pool.total_unstake_amount.total == p0.matching_pool.total_unstake_amount.total + amount,
        p.stake_of(who) == p0.stake_of(who) - amount,
{
}

/// Staking `amount` on an account without unlock chunks, unstaking it in
/// `unstake_era`, and claiming in an era at or past the target era: neither unstake
/// nor the claim is refused for want of stake or of due chunks, and the claim pays
/// exactly `amount` and leaves no chunk behind.
pub proof fn lemma_stake_unstake_claim(
    p0: Pallet,
    b0: AssetBook,
    who: AccountId,
    amount: Balance,
    p1: Pallet,
    b1: AssetBook,
    unstake_era: EraIndex,
    p2: Pallet,
    b2: AssetBook,
    claim_era: EraIndex,
)
    requires
        p0.wf(),
        !p0.unlockings@.contains_key(who),
        stake_post(p0, b0, who, amount, p1, b1),
        unstake_post(p1, b1, who, amount, unstake_era, p2, b2),
        claim_era >= target_era_of(unstake_era, p1.bonding_duration),
        target_era_of(unstake_era, p1.bonding_duration) <= EraIndex::MAX,
    ensures
        p1.staked_accounts@.contains(who),
        amount <= p1.stake_of(who),
        p2.unlockings@.contains_key(who),
        has_due(p2.chunks_of(who), claim_era),
        due_total(p2.chunks_of(who), claim_era) == amount,
        not_yet_due(p2.chunks_of(who), claim_era).len() == 0,
{
    lemma_registered_contains(p0.staked_accounts@, who);
    let target = target_era_of(unstake_era, p1.bonding_duration) as EraIndex;
    assert(p1.chunks_of(who) == Seq::<UnlockChunk>::empty());
    let c = seq![UnlockChunk { value: amount, era: target }];
    assert(!has_era(Seq::<UnlockChunk>::empty(), target));
    assert(merged(Seq::<UnlockChunk>::empty(), amount, target) =~= c);
    assert(c.drop_last() =~= Seq::<UnlockChunk>::empty());
    assert(c[0].era <= claim_era);
    assert(c.last() == c[0]);
    assert(due_total(c.drop_last(), claim_era) == 0);
    assert(due_total(c, claim_era) == amount);
    assert(not_yet_due(c.drop_last(), claim_era).len() == 0);
}

impl Pallet {
    /// The first check that refuses `stake(who, amount)`, in the order the
    /// operation makes them.
    pub open spec fn stake_error(&self, book: AssetBook, who: AccountId, amount: Balance) -> Option<Error> {
        if amount < self.min_stake {
            Some(Error::StakeTooSmall)
        } else if self.liquid_decimals is None {
            Some(Error::InvalidLiquidCurrency)
        } else if minted(book.liquid@, who, amount) is Err {
            Some(Error::Token(minted(book.liquid@, who, amount)->Err_0))
        } else if moved(book.native@, who, self.account_id, amount) is Err {
            Some(Error::Token(moved(book.native@, who, self.account_id, amount)->Err_0))
        } else if self.stake_of(who) + amount > Balance::MAX {
            Some(Error::Arithmetic(ArithmeticError::Overflow))
        } else if self.matching_pool.total_stake_amount.total + amount > Balance::MAX {
            Some(Error::Arithmetic(ArithmeticError::Overflow))
        } else {
            None
        }
    }

    /// Deposits `amount` of the native asset from `who` into the pool's custody,
    /// minting as much of the derivative asset to `who`, and records the stake.
    pub fn stake(&mut self, book: &mut AssetBook, who: AccountId, amount: Balance) -> (r: Result<(), Error>)
        requires
            old(self).wf(),
        ensures
            final(self).wf(),
            r == outcome(old(self).stake_error(*old(book), who, amount)),
            r is Err ==> *final(self) == *old(self) && final(book).native@ == old(book).native@
                && final(book).liquid@ == old(book).liquid@,
            r is Ok ==> stake_post(*old(self), *old(book), who, amount, *final(self), *final(book)),
    {
        if amount < self.min_stake {
            return Err(Error::StakeTooSmall);
        }
        self.liquid_currency()?;
        if book.liquid_balance(who).checked_add(amount).is_none() {
            return Err(Error::Token(TokenError::Overflow));
        }
        if book.free_balance(who) < amount {
            return Err(Error::Token(TokenError::FundsUnavailable));
        }
        if who != self.account_id && book.free_balance(self.account_id).checked_add(amount).is_none() {
            return Err(Error::Token(TokenError::Overflow));
        }
        if self.stake_record(who).checked_add(amount).is_none() {
            return Err(Error::Arithmetic(ArithmeticError::Overflow));
        }
        if self.matching_pool.total_stake_amount.total.checked_add(amount).is_none() {
            return Err(Error::Arithmetic(ArithmeticError::Overflow));
        }
        let minted_ok = book.mint_liquid(who, amount);
        let moved_ok = book.transfer(who, self.account_id, amount);
        let shared = self.update_share(who, amount);
        let pooled = self.matching_pool.add_stake_amount(amount);
        assert(minted_ok is Ok && moved_ok is Ok && shared is Ok && pooled is Ok);
        Ok(())
    }
}

impl Pallet {
    /// The first check that refuses `unstake(who, amount)` in `current_era`, in the
    /// order the operation makes them.
    pub open spec fn unstake_error(
        &self,
        book: AssetBook,
        who: AccountId,
        amount: Balance,
        current_era: EraIndex,
    ) -> Option<Error> {
        let target = target_era_of(current_era, self.bonding_duration);
        if !self.staked_accounts@.contains(who) {
            Some(Error::NotStaked)
        } else if book.liquid_of(who) + self.burn_tolerance < amount {
            Some(Error::Token(TokenError::FundsUnavailable))
        } else if amount > self.stake_of(who) {
            Some(Error::InsufficientBalance)
        } else if target > EraIndex::MAX {
            Some(Error::Arithmetic(ArithmeticError::Overflow))
        } else if !merge_fits(self.chunks_of(who), amount, target as EraIndex) {
            Some(Error::Arithmetic(ArithmeticError::Overflow))
        } else if self.matching_pool.total_unstake_amount.total + amount > Balance::MAX {
            Some(Error::Arithmetic(ArithmeticError::Overflow))
        } else {
            None
        }
    }

    /// Withdraws `amount` of the stake of `who`: burns as much of the derivative
    /// asset (a shortfall up to the burn tolerance is accepted), lowers the stake
    /// record, and adds an unlock chunk claimable `bonding_duration + 1` eras after
    /// `current_era`. The matching pool's stake total is left as it is.
    pub fn unstake(&mut self, book: &mut AssetBook, who: AccountId, amount: Balance, current_era: EraIndex) -> (r:
        Result<(), Error>)
        requires
            old(self).wf(),
        ensures
            final(self).wf(),
            r == outcome(old(self).unstake_error(*old(book), who, amount, current_era)),
            r is Err ==> *final(self) == *old(self) && final(book).native@ == old(book).native@
                && final(book).liquid@ == old(book).liquid@,
            r is Ok ==> unstake_post(*old(self), *old(book), who, amount, current_era, *final(self), *final(book)),
    {
        if !vec_contains(&self.staked_accounts, who) {
            return Err(Error::NotStaked);
        }
        let liquid = book.liquid_balance(who);
        if liquid < amount && amount - liquid > self.burn_tolerance {
            return Err(Error::Token(TokenError::FundsUnavailable));
        }
        let held = self.stake_record(who);
        if amount > held {
            return Err(Error::InsufficientBalance);
        }
        let target = self.target_era(current_era)?;
        let mut chunks = self.unlocking_chunks(who);
        if !chunk_merge_fits(&chunks, amount, target) {
            return Err(Error::Arithmetic(ArithmeticError::Overflow));
        }
        if self.matching_pool.total_unstake_amount.total.checked_add(amount).is_none() {
            return Err(Error::Arithmetic(ArithmeticError::Overflow));
        }
        book.burn_liquid_best_effort(who, amount);
        let rest = held - amount;
        if rest == 0 {
            self.account_stake.remove(&who);
            remove_account(&mut self.staked_accounts, who);
        } else {
            self.account_stake.insert(who, rest);
        }
        merge_chunk(&mut chunks, amount, target);
        self.unlockings.insert(who, chunks);
        let pooled = self.matching_pool.add_unstake_amount(amount);
        assert(pooled is Ok);
        proof {
            assert(self.unlockings@.remove(who) =~= old(self).unlockings@.remove(who));
        }
        Ok(())
    }
}

impl Pallet {
    /// The first check that refuses `claim_for(dest)` in `current_era`, in the order
    /// the operation makes them.
    pub open spec fn claim_error(&self, book: AssetBook, dest: AccountId, current_era: EraIndex) -> Option<
        Error,
    > {
        let chunks = self.chunks_of(dest);
        if !self.unlockings@.contains_key(dest) {
            Some(Error::NoUnlockings)
        } else if !has_due(chunks, current_era) {
            Some(Error::NothingToClaim)
        } else if due_total(chunks, current_era) > Balance::MAX {
            Some(Error::Arithmetic(ArithmeticError::Overflow))
        } else if moved(book.native@, self.account_id, dest, due_total(chunks, current_era) as Balance) is Err {
            Some(
                Error::Token(
                    moved(book.native@, self.account_id, dest, due_total(chunks, current_era) as Balance)->Err_0,
                ),
            )
        } else {
            None
        }
    }

    /// Pays `dest` the sum of its unlock chunks due by `current_era` from the pool's
    /// custody, and keeps only the chunks not yet due; returns the sum paid.
    pub fn claim_for(&mut self, book: &mut AssetBook, dest: AccountId, current_era: EraIndex) -> (r: Result<
        Balance,
        Error,
    >)
        requires
            old(self).wf(),
        ensures
            final(self).wf(),
            match old(self).claim_error(*old(book), dest, current_era) {
                Some(e) => r == Err::<Balance, Error>(e),
                None => r == Ok::<Balance, Error>(due_total(old(self).chunks_of(dest), current_era) as Balance),
            },
            r is Err ==> *final(self) == *old(self) && final(book).native@ == old(book).native@
                && final(book).liquid@ == old(book).liquid@,
            r is Ok ==> {
                let kept = not_yet_due(old(self).chunks_of(dest), current_era);
                &&& final(book).native@ == moved(old(book).native@, old(self).account_id, dest, r->Ok_0)->Ok_0
                &&& final(book).liquid@ == old(book).liquid@
                &&& kept.len() == 0 ==> final(self).unlockings@ == old(self).unlockings@.remove(dest)
                &&& kept.len() > 0 ==> final(self).unlockings@.contains_key(dest)
                    && final(self).chunks_of(dest) == kept
                    && final(self).unlockings@.remove(dest) == old(self).unlockings@.remove(dest)
                &&& final(self).account_stake == old(self).account_stake
                &&& final(self).staked_accounts == old(self).staked_accounts
                &&& final(self).matching_pool == old(self).matching_pool
                &&& final(self).bonds == old(self).bonds
                &&& final(self).era_reward_accounts == old(self).era_reward_accounts
                &&& final(self).same_config(old(self))
            },
    {
        let chunks = match self.unlockings.get(&dest) {
            Some(c) => c,
            None => return Err(Error::NoUnlockings),
        };
        let ghost s = chunks@;
        let mut amount: Balance = 0;
        let mut overflow = false;
        let mut any_due = false;
        let mut kept: Vec<UnlockChunk> = Vec::new();
        let mut i: usize = 0;
        while i < chunks.len()
            invariant
                i <= s.len(),
                s == chunks@,
                s == self.chunks_of(dest),
                distinct_eras(s),
                !overflow ==> amount as nat == due_total(s.take(i as int), current_era),
                overflow ==> due_total(s.take(i as int), current_era) > Balance::MAX,
                any_due <==> has_due(s.take(i as int), current_era),
                kept@ == not_yet_due(s.take(i as int), current_era),
                distinct_eras(kept@),
                forall|j: int| 0 <= j < kept@.len() ==> exists|k: int| 0 <= k < i && #[trigger] kept@[j] == s[k],
            decreases s.len() - i,
        {
            let c = chunks[i];
            proof {
                assert(s.take(i + 1).drop_last() =~= s.take(i as int));
                assert(s.take(i + 1).last() == c);
                let t0 = s.take(i as int);
                let t1 = s.take(i + 1);
                if has_due(t1, current_era) && c.era > current_era {
                    let j = choose|j: int| 0 <= j < t1.len() && #[trigger] t1[j].era <= current_era;
                    assert(t0[j] == s[j]);
                }
                if has_due(t0, current_era) {
                    let j = choose|j: int| 0 <= j < t0.len() && #[trigger] t0[j].era <= current_era;
                    assert(t1[j] == s[j]);
                }
                if c.era <= current_era {
                    assert(s.take(i + 1)[i as int] == c);
                }
            }
            if c.era > current_era {
                proof {
                    assert forall|a: int, b: int|
                        0 <= a < kept@.push(c).len() && 0 <= b < kept@.push(c).len() && a != b implies
                        kept@.push(c)[a].era != kept@.push(c)[b].era by {
                        if a == kept@.len() {
                            let k = choose|k: int| 0 <= k < i && kept@[b] == s[k];
                            assert(s[k].era != s[i as int].era);
                        } else if b == kept@.len() {
                            let k = choose|k: int| 0 <= k < i && kept@[a] == s[k];
                            assert(s[k].era != s[i as int].era);
                        }
                    }
                }
                kept.push(c);
                proof {
                    assert forall|j: int| 0 <= j < kept@.len() implies exists|k: int|
                        0 <= k < i + 1 && #[trigger] kept@[j] == s[k] by {
                        if j == kept@.len() - 1 {
                            assert(kept@[j] == s[i as int]);
                        }
                    }
                }
            } else {
                any_due = true;
                if !overflow {
                    match amount.checked_add(c.value) {
                        Some(v) => amount = v,
                        None => overflow = true,
                    }
                }
            }
            i = i + 1;
        }
        proof {
            assert(s.take(s.len() as int) =~= s);
        }
        if !any_due {
            return Err(Error::NothingToClaim);
        }
        if overflow {
            return Err(Error::Arithmetic(ArithmeticError::Overflow));
        }
        match book.transfer(self.account_id, dest, amount) {
            Ok(()) => {},
            Err(e) => return Err(Error::Token(e)),
        }
        if kept.len() == 0 {
            self.unlockings.remove(&dest);
        } else {
            self.unlockings.insert(dest, kept);
            proof {
                assert(self.unlockings@.remove(dest) =~= old(self).unlockings@.remove(dest));
            }
        }
        Ok(amount)
    }
}


impl Pallet {
    /// The bond of `who`; zero where there is none.
    pub open spec fn bond_of(&self, who: AccountId) -> nat {
        balance_in(self.bonds@, who)
    }

    /// Records that `who` bonded `balance` through the pool, replacing any earlier record.
    pub fn bond(&mut self, who: AccountId, balance: Balance)
        requires
            old(self).wf(),
        ensures
            final(self).wf(),
            final(self).bonds@ == old(self).bonds@.insert(who, balance),
            *final(self) == (Pallet { bonds: final(self).bonds, ..*old(self) }),
    {
        self.bonds.insert(who, balance);
    }

    /// Lowers the bond of `who` by `balance`, removing the record when it reaches zero.
    pub fn unbond(&mut self, who: AccountId, balance: Balance) -> (r: Result<(), Error>)
        requires
            old(self).wf(),
        ensures
            final(self).wf(),
            !old(self).bonds@.contains_key(who) ==> r == Err::<(), Error>(Error::NotBonded),
            old(self).bonds@.contains_key(who) && old(self).bond_of(who) < balance ==> r == Err::<(), Error>(
                Error::InsufficientBonded,
            ),
            r is Err ==> *final(self) == *old(self),
            old(self).bonds@.contains_key(who) && old(self).bond_of(who) >= balance ==> {
                &&& r == Ok::<(), Error>(())
                &&& old(self).bond_of(who) == balance ==> final(self).bonds@ == old(self).bonds@.remove(who)
                &&& old(self).bond_of(who) > balance ==> final(self).bonds@ == old(self).bonds@.insert(
                    who,
                    (old(self).bond_of(who) - balance) as Balance,
                )
                &&& *final(self) == (Pallet { bonds: final(self).bonds, ..*old(self) })
            },
    {
        let bonded = match self.bonds.get(&who) {
            Some(b) => *b,
            None => return Err(Error::NotBonded),
        };
        if bonded < balance {
            return Err(Error::InsufficientBonded);
        }
        let rest = bonded - balance;
        if rest == 0 {
            self.bonds.remove(&who);
        } else {
            self.bonds.insert(who, rest);
        }
        Ok(())
    }

    /// Checks that `who` may rebond through the pool: it must hold stake.
    pub fn rebond(&self, who: AccountId) -> (r: Result<(), Error>)
        ensures
            r == (if self.staked_accounts@.contains(who) {
                Ok::<(), Error>(())
            } else {
                Err::<(), Error>(Error::NotStaked)
            }),
    {
        if vec_contains(&self.staked_accounts, who) {
            Ok(())
        } else {
            Err(Error::NotStaked)
        }
    }

    /// Sum of all stake records, saturated at the largest balance.
    pub fn total_stake_records(&self) -> (r: Balance)
        ensures
            r as nat == min_of(total_staked(self.staked_accounts@, self.account_stake@), Balance::MAX as nat),
    {
        let mut total: Balance = 0;
        let mut i: usize = 0;
        while i < self.staked_accounts.len()
            invariant
                i <= self.staked_accounts@.len(),
                total as nat == min_of(
                    total_staked(self.staked_accounts@.take(i as int), self.account_stake@),
                    Balance::MAX as nat,
                ),
            decreases self.staked_accounts@.len() - i,
        {
            let a = self.staked_accounts[i];
            proof {
                let t = self.staked_accounts@.take(i + 1);
                assert(t.drop_last() =~= self.staked_accounts@.take(i as int));
                assert(t.last() == a);
            }
            total = total.saturating_add(self.stake_record(a));
            i = i + 1;
        }
        proof {
            assert(self.staked_accounts@.take(i as int) =~= self.staked_accounts@);
        }
        total
    }

    /// Checks that `who` may have the pool nominate: it must hold stake, and the sum of
    /// all stake records must reach `min_nominator_bond`.
    pub fn nominate(&self, who: AccountId, min_nominator_bond: Balance) -> (r: Result<(), Error>)
        ensures
            r == (if !self.staked_accounts@.contains(who) {
                Err::<(), Error>(Error::NotStaked)
            } else if total_staked(self.staked_accounts@, self.account_stake@) < min_nominator_bond {
                Err::<(), Error>(Error::CannotNominate)
            } else {
                Ok::<(), Error>(())
            }),
    {
        if !vec_contains(&self.staked_accounts, who) {
            return Err(Error::NotStaked);
        }
        if self.total_stake_records() < min_nominator_bond {
            return Err(Error::CannotNominate);
        }
        Ok(())
    }

    /// Registers `who` as asking for this era's derivative reward. Returns `true` for
    /// the era's first request, on which the pool asks for the payouts of the
    /// validators it nominates.
    pub fn claim_reward(&mut self, who: AccountId) -> (r: Result<bool, Error>)
        requires
            old(self).wf(),
        ensures
            final(self).wf(),
            !old(self).staked_accounts@.contains(who) ==> r == Err::<bool, Error>(Error::NotStaked),
            old(self).staked_accounts@.contains(who) && old(self).era_reward_accounts@.contains(who) ==> r
                == Err::<bool, Error>(Error::WaitTheEraToComplete),
            old(self).staked_accounts@.contains(who) && !old(self).era_reward_accounts@.contains(who) ==> r
                == Ok::<bool, Error>(old(self).era_reward_accounts@.len() == 0),
            r is Err ==> *final(self) == *old(self),
            r is Ok ==> final(self).era_reward_accounts@ == old(self).era_reward_accounts@.push(who)
                && *final(self) == (Pallet { era_reward_accounts: final(self).era_reward_accounts, ..*old(self) }),
    {
        if !vec_contains(&self.staked_accounts, who) {
            return Err(Error::NotStaked);
        }
        if vec_contains(&self.era_reward_accounts, who) {
            return Err(Error::WaitTheEraToComplete);
        }
        let first = self.era_reward_accounts.len() == 0;
        self.era_reward_accounts.push(who);
        proof {
            lemma_push_absent_no_duplicates(old(self).era_reward_accounts@, who);
        }
        Ok(first)
    }

    /// The accounts that asked for this era's derivative reward.
    pub fn derivative_reward_accounts(&self) -> (r: Vec<AccountId>)
        ensures
            r@ == self.era_reward_accounts@,
    {
        self.era_reward_accounts.clone()
    }

    /// The part of `reward` that `share` out of `total_stake` earns:
    /// `floor(share * reward / total_stake)`, zero for a zero total.
    pub fn calculate_reward(share: Balance, total_stake: Balance, reward: Balance) -> (r: Option<Balance>)
        ensures
            r matches Some(v) ==> crate::fixed::share(share as nat, reward as nat, total_stake as nat) == Some(
                v as nat,
            ),
            r is None <==> crate::fixed::share(share as nat, reward as nat, total_stake as nat) is None,
    {
        mul_div(share, reward, total_stake)
    }

    /// What `claim_derivative(account, nominator_reward)` pays `account`, where it fits.
    pub open spec fn derivative_share(&self, account: AccountId, nominator_reward: Balance) -> Option<nat> {
        share(
            self.stake_of(account),
            nominator_reward as nat,
            self.matching_pool.total_stake_amount.total as nat,
        )
    }

    /// The first check that refuses `claim_derivative(account, nominator_reward)`.
    pub open spec fn derivative_error(&self, book: AssetBook, account: AccountId, nominator_reward: Balance) -> Option<
        Error,
    > {
        let paid = self.derivative_share(account, nominator_reward);
        if self.liquid_decimals is None {
            Some(Error::InvalidLiquidCurrency)
        } else if !self.era_reward_accounts@.contains(account) {
            Some(Error::AccountNotInDerivativeReward)
        } else if paid is None {
            Some(Error::Arithmetic(ArithmeticError::Overflow))
        } else if minted(book.liquid@, account, paid->Some_0 as Balance) is Err {
            Some(Error::Token(minted(book.liquid@, account, paid->Some_0 as Balance)->Err_0))
        } else if self.stake_of(account) + paid->Some_0 > Balance::MAX {
            Some(Error::Arithmetic(ArithmeticError::Overflow))
        } else {
            None
        }
    }

    /// Pays `account`, which asked for this era's reward, its part of the pool's
    /// `nominator_reward` in proportion to its stake record among the pool's stake
    /// total: mints that much derivative asset to it, adds it to its stake record, and
    /// removes it from the askers. Returns the amount paid.
    pub fn claim_derivative(&mut self, book: &mut AssetBook, account: AccountId, nominator_reward: Balance) -> (r:
        Result<Balance, Error>)
        requires
            old(self).wf(),
        ensures
            final(self).wf(),
            match old(self).derivative_error(*old(book), account, nominator_reward) {
                Some(e) => r == Err::<Balance, Error>(e),
                None => r == Ok::<Balance, Error>(
                    old(self).derivative_share(account, nominator_reward)->Some_0 as Balance,
                ),
            },
            r is Err ==> *final(self) == *old(self) && final(book).native@ == old(book).native@
                && final(book).liquid@ == old(book).liquid@,
            r is Ok ==> {
                &&& final(book).native@ == old(book).native@
                &&& final(book).liquid@ == minted(old(book).liquid@, account, r->Ok_0)->Ok_0
                &&& final(self).account_stake@ == old(self).account_stake@.insert(
                    account,
                    (old(self).stake_of(account) + r->Ok_0) as Balance,
                )
                &&& final(self).staked_accounts@ == registered(old(self).staked_accounts@, account)
                &&& final(self).era_reward_accounts@ == unregistered(old(self).era_reward_accounts@, account)
                &&& final(self).matching_pool == old(self).matching_pool
                &&& final(self).unlockings == old(self).unlockings
                &&& final(self).bonds == old(self).bonds
                &&& final(self).same_config(old(self))
            },
    {
        self.liquid_currency()?;
        if !vec_contains(&self.era_reward_accounts, account) {
            return Err(Error::AccountNotInDerivativeReward);
        }
        let individual = self.stake_record(account);
        let paid = match Self::calculate_reward(
            individual,
            self.matching_pool.total_stake_amount.total,
            nominator_reward,
        ) {
            Some(v) => v,
            None => return Err(Error::Arithmetic(ArithmeticError::Overflow)),
        };
        if book.liquid_balance(account).checked_add(paid).is_none() {
            return Err(Error::Token(TokenError::Overflow));
        }
        if individual.checked_add(paid).is_none() {
            return Err(Error::Arithmetic(ArithmeticError::Overflow));
        }
        remove_account(&mut self.era_reward_accounts, account);
        let minted_ok = book.mint_liquid(account, paid);
        let shared = self.update_share(account, paid);
        assert(minted_ok is Ok && shared is Ok);
        Ok(paid)
    }
}

impl DecimalProvider<CurrencyId> for Pallet {
    fn get_decimal(&self, asset_id: &CurrencyId) -> Option<u8> {
        if *asset_id == self.liquid_currency {
            self.liquid_decimals
        } else {
            None
        }
    }
}

impl LiquidStakingCurrenciesProvider<CurrencyId> for Pallet {
    fn get_liquid_currency(&self) -> Option<CurrencyId> {
        match self.get_decimal(&self.liquid_currency) {
            Some(_) => Some(self.liquid_currency),
            None => None,
        }
    }
}

impl StakingAccount<AccountId> for Pallet {
    fn staking_account(&self) -> AccountId {
        self.account_id
    }
}

/// Whether adding `value` to the chunk for `era` keeps it within a balance.
fn chunk_merge_fits(chunks: &Vec<UnlockChunk>, value: Balance, era: EraIndex) -> (r: bool)
    ensures
        r == merge_fits(chunks@, value, era),
{
    let mut i: usize = 0;
    while i < chunks.len()
        invariant
            i <= chunks.len(),
            forall|j: int| 0 <= j < i && chunks@[j].era == era ==> chunks@[j].value + value <= Balance::MAX,
        decreases chunks.len() - i,
    {
        if chunks[i].era == era && chunks[i].value.checked_add(value).is_none() {
            return false;
        }
        i = i + 1;
    }
    true
}

/// Adds `value` to the chunk for `era`, or appends a chunk for it.
fn merge_chunk(chunks: &mut Vec<UnlockChunk>, value: Balance, era: EraIndex)
    requires
        distinct_eras(old(chunks)@),
        merge_fits(old(chunks)@, value, era),
    ensures
        final(chunks)@ == merged(old(chunks)@, value, era),
        distinct_eras(final(chunks)@),
        final(chunks)@.len() > 0,
{
    let mut i: usize = 0;
    while i < chunks.len()
        invariant
            i <= chunks.len(),
            chunks@ == old(chunks)@,
            distinct_eras(chunks@),
            merge_fits(chunks@, value, era),
            forall|j: int| 0 <= j < i ==> chunks@[j].era != era,
        decreases chunks.len() - i,
    {
        if chunks[i].era == era {
            let c = chunks[i];
            proof {
                assert(0 <= i < chunks@.len() && chunks@[i as int].era == era);
                let k = choose|k: int| 0 <= k < chunks@.len() && chunks@[k].era == era;
                assert(k == i) by {
                    if k != i {
                        assert(chunks@[k].era != chunks@[i as int].era);
                    }
                }
                assert(c.value + value <= Balance::MAX);
            }
            chunks.set(i, UnlockChunk { value: c.value + value, era });
            return;
        }
        i = i + 1;
    }
    chunks.push(UnlockChunk { value, era });
}

/// Removes `x` from `v`, which holds it at most once.
pub fn remove_account(v: &mut Vec<AccountId>, x: AccountId)
    requires
        old(v)@.no_duplicates(),
    ensures
        final(v)@ == unregistered(old(v)@, x),
        final(v)@.no_duplicates(),
        forall|a: AccountId| #[trigger] final(v)@.contains(a) <==> old(v)@.contains(a) && a != x,
{
    let mut i: usize = 0;
    while i < v.len()
        invariant
            i <= v.len(),
            v@ == old(v)@,
            v@.no_duplicates(),
            forall|j: int| 0 <= j < i ==> v@[j] != x,
        decreases v.len() - i,
    {
        if v[i] == x {
            proof {
                assert(0 <= i < v@.len() && v@[i as int] == x);
                let k = choose|k: int| 0 <= k < v@.len() && v@[k] == x;
                assert(k == i) by {
                    if k != i {
                        assert(v@[k] != v@[i as int]);
                    }
                }
            }
            v.remove(i);
            proof {
                let s = old(v)@;
                let t = v@;
                assert(t == s.remove(i as int));
                assert(t.len() == s.len() - 1);
                assert(forall|j: int| 0 <= j < i ==> t[j] == s[j]);
                assert(forall|j: int| i <= j < t.len() ==> t[j] == s[j + 1]);
                assert forall|a: AccountId| #[trigger] t.contains(a) <==> s.contains(a) && a != x by {
                    if t.contains(a) {
                        let j = choose|j: int| 0 <= j < t.len() && t[j] == a;
                        if j < i {
                            assert(s[j] == a);
                        } else {
                            assert(s[j + 1] == a);
                        }
                    }
                    if s.contains(a) && a != x {
                        let j = choose|j: int| 0 <= j < s.len() && s[j] == a;
                        if j < i {
                            assert(t[j] == a);
                        } else {
                            assert(t[j - 1] == a);
                        }
                    }
                }
            }
            return;
        }
        i = i + 1;
    }
}

proof fn lemma_registered_contains(s: Seq<AccountId>, x: AccountId)
    ensures
        forall|a: AccountId| #[trigger] registered(s, x).contains(a) <==> s.contains(a) || a == x,
{
    let t = registered(s, x);
    assert forall|a: AccountId| #[trigger] t.contains(a) <==> s.contains(a) || a == x by {
        if !s.contains(x) {
            if s.contains(a) {
                let i = choose|i: int| 0 <= i < s.len() && s[i] == a;
                assert(t[i] == a);
            }
            if a == x {
                assert(t[s.len() as int] == x);
            }
            if t.contains(a) {
                let i = choose|i: int| 0 <= i < t.len() && t[i] == a;
                if i < s.len() {
                    assert(s[i] == a);
                }
            }
        }
    }
}

pub proof fn lemma_push_absent_no_duplicates(s: Seq<AccountId>, x: AccountId)
    requires
        !s.contains(x),
    ensures
        s.no_duplicates() ==> s.push(x).no_duplicates(),
{
    let t = s.push(x);
    if s.no_duplicates() {
        assert forall|i: int, j: int| 0 <= i < t.len() && 0 <= j < t.len() && i != j implies t[i] != t[j] by {
            if i == s.len() {
                assert(s[j] == t[j]);
            } else if j == s.len() {
                assert(s[i] == t[i]);
            }
        }
    }
}

/// Whether `v` holds `x`.
pub fn vec_contains(v: &Vec<AccountId>, x: AccountId) -> (r: bool)
    ensures
        r == v@.contains(x),
{
    let mut i: usize = 0;
    while i < v.len()
        invariant
            i <= v.len(),
            forall|j: int| 0 <= j < i ==> v@[j] != x,
        decreases v.len() - i,
    {
        if v[i] == x {
            return true;
        }
        i = i + 1;
    }
    false
}

} // verus!
