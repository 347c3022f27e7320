use vstd::prelude::*;
use std::collections::HashMap;
use crate::assets::{balance_in, min_of, moved, AssetBook, TokenError};
use crate::liquid_staking::{remove_account, unregistered, vec_contains};
use crate::fixed::{mul_div, share};
use crate::types::{AccountId, ArithmeticError, Balance, Origin};

verus! {

broadcast use vstd::std_specs::hash::group_hash_axioms;

/// Reward percent that applies until root sets another.
pub const DEFAULT_REWARD_PERCENT: u32 = 8;

/// Parts per billion in one percent.
pub const PERBILL_PER_PERCENT: u32 = 10_000_000;

/// 2^64, the factor that places a validator above a nominator in a pair key.
pub const PAIR_SHIFT: u128 = 0x1_0000_0000_0000_0000;

/// Why a reward operation was refused.
#[derive(Clone, Copy, Debug, PartialEq, Eq, Structural)]
pub enum Error {
    /// There is no accrued reward.
    NoReward,
    /// The validator is already queued for this era's payout.
    WaitTheEraToComplete,
    /// The treasury does not hold what is owed.
    InsufficientRewardBalance,
    /// The account is not an electable validator.
    NoSuchValidator,
    /// The call needs the root origin.
    BadOrigin,
    /// A checked arithmetic step failed.
    Arithmetic(ArithmeticError),
    /// The asset book refused a transfer.
    Token(TokenError),
}

/// The stake a nominator backs a validator with.
#[derive(Clone, Copy, Debug, PartialEq, Eq, Structural)]
pub struct IndividualExposure {
    pub who: AccountId,
    pub value: Balance,
}

/// The stake behind a validator in an era: its total, the validator's own part,
/// and each nominator's part.
#[derive(Clone, Debug)]
pub struct Exposure {
    pub total: Balance,
    pub own: Balance,
    pub others: Vec<IndividualExposure>,
}

/// What the era reward pass reads of one validator: its points in the era, its
/// commission in percent, and its exposure.
#[derive(Clone, Debug)]
pub struct ValidatorEra {
    pub validator: AccountId,
    pub points: u32,
    pub commission: u32,
    pub exposure: Exposure,
}

/// The key of the reward that `validator` accrued for `nominator`.
pub open spec fn pair_key(validator: AccountId, nominator: AccountId) -> u128 {
    (validator * PAIR_SHIFT + nominator) as u128
}

/// The key of the reward that `validator` accrued for `nominator`.
pub fn nominator_key(validator: AccountId, nominator: AccountId) -> (r: u128)
    ensures
        r == pair_key(validator, nominator),
{
    let v = validator as u128;
    let n = nominator as u128;
    assert(v * PAIR_SHIFT + n <= u128::MAX) by (nonlinear_arith)
        requires
            v <= u64::MAX,
            n <= u64::MAX,
            PAIR_SHIFT == 0x1_0000_0000_0000_0000u128,
    ;
    v * PAIR_SHIFT + n
}

/// Amount held under key `k`; zero for an absent key.
pub open spec fn accrued_in<K>(m: Map<K, Balance>, k: K) -> nat {
    if m.contains_key(k) {
        m[k] as nat
    } else {
        0
    }
}

/// `m` with `r` more under `k`, where it fits.
pub open spec fn credited<K>(m: Map<K, Balance>, k: K, r: nat) -> Option<Map<K, Balance>> {
    if accrued_in(m, k) + r > Balance::MAX {
        None
    } else {
        Some(m.insert(k, (accrued_in(m, k) + r) as Balance))
    }
}

/// Accrued, unpaid rewards, as values.
pub struct AccruedView {
    /// Reward of each validator for its own part.
    pub validator: Map<AccountId, Balance>,
    /// Reward of each (validator, nominator) pair, under `pair_key`.
    pub nominator: Map<u128, Balance>,
    /// The nominators with a reward under each validator, in order of first credit.
    pub nominators: Map<AccountId, Seq<AccountId>>,
}

/// The nominators recorded under `v`.
pub open spec fn nominators_in(a: AccruedView, v: AccountId) -> Seq<AccountId> {
    if a.nominators.contains_key(v) {
        a.nominators[v]
    } else {
        Seq::empty()
    }
}

/// `ns` with `n` appended, unless it is already there.
pub open spec fn with_nominator(ns: Seq<AccountId>, n: AccountId) -> Seq<AccountId> {
    if ns.contains(n) {
        ns
    } else {
        ns.push(n)
    }
}

/// Accrued, unpaid rewards.
pub struct AccruedRewards {
    pub validator: HashMap<AccountId, Balance>,
    pub nominator: HashMap<u128, Balance>,
    pub nominators: HashMap<AccountId, Vec<AccountId>>,
}

/// The sequences held in a table of account lists.
pub open spec fn lists_view(m: Map<AccountId, Vec<AccountId>>) -> Map<AccountId, Seq<AccountId>> {
    Map::new(|k: AccountId| m.contains_key(k), |k: AccountId| m[k]@)
}

impl View for AccruedRewards {
    type V = AccruedView;

    open spec fn view(&self) -> AccruedView {
        AccruedView {
            validator: self.validator@,
            nominator: self.nominator@,
            nominators: lists_view(self.nominators@),
        }
    }
}

impl AccruedRewards {
    /// No nominator is listed twice under one validator.
    pub open spec fn wf(&self) -> bool {
        forall|v: AccountId| #[trigger] self.nominators@.contains_key(v) ==> self.nominators@[v]@.no_duplicates()
    }

    pub fn new() -> (r: Self)
        ensures
            r.wf(),
            r@.validator == Map::<AccountId, Balance>::empty(),
            r@.nominator == Map::<u128, Balance>::empty(),
            r@.nominators == Map::<AccountId, Seq<AccountId>>::empty(),
    {
        let r = AccruedRewards { validator: HashMap::new(), nominator: HashMap::new(), nominators: HashMap::new() };
        assert(r@.nominators =~= Map::<AccountId, Seq<AccountId>>::empty());
        r
    }

    /// A copy of the tables.
    pub fn duplicate(&self) -> (r: Self)
        ensures
            r@ == self@,
            r.wf() == self.wf(),
            r.nominators@ == self.nominators@,
    {
        AccruedRewards {
            validator: self.validator.clone(),
            nominator: self.nominator.clone(),
            nominators: self.nominators.clone(),
        }
    }

    /// Reward accrued by `validator` for its own part.
    pub fn validator_reward(&self, validator: AccountId) -> (r: Balance)
        ensures
            r as nat == accrued_in(self@.validator, validator),
    {
        match self.validator.get(&validator) {
            Some(b) => *b,
            None => 0,
        }
    }

    /// Reward accrued under `validator` for `nominator`.
    pub fn nominator_reward(&self, validator: AccountId, nominator: AccountId) -> (r: Balance)
        ensures
            r as nat == accrued_in(self@.nominator, pair_key(validator, nominator)),
    {
        match self.nominator.get(&nominator_key(validator, nominator)) {
            Some(b) => *b,
            None => 0,
        }
    }

    /// The nominators with a reward under `validator`.
    pub fn nominators_of(&self, validator: AccountId) -> (r: Vec<AccountId>)
        ensures
            r@ == nominators_in(self@, validator),
    {
        match self.nominators.get(&validator) {
            Some(ns) => ns.clone(),
            None => Vec::new(),
        }
    }

    /// Adds `reward` to what `validator` accrued, for itself or, with a nominator,
    /// for that nominator (who is then listed under the validator). Returns `false`,
    /// changing nothing, where the sum would not fit.
    pub fn allocate_rewards(&mut self, validator: AccountId, nominator: Option<AccountId>, reward: Balance) -> (r:
        bool)
        requires
            old(self).wf(),
        ensures
            final(self).wf(),
            match nominator {
                None => match credited(old(self)@.validator, validator, reward as nat) {
                    Some(m) => r && final(self)@ == AccruedView { validator: m, ..old(self)@ },
                    None => !r && final(self)@ == old(self)@,
                },
                Some(n) => match credited(old(self)@.nominator, pair_key(validator, n), reward as nat) {
                    Some(m) => r && final(self)@ == AccruedView {
                        nominator: m,
                        nominators: old(self)@.nominators.insert(
                            validator,
                            with_nominator(nominators_in(old(self)@, validator), n),
                        ),
                        ..old(self)@
                    },
                    None => !r && final(self)@ == old(self)@,
                },
            },
    {
        match nominator {
            None => {
                let held = self.validator_reward(validator);
                match held.checked_add(reward) {
                    Some(v) => {
                        self.validator.insert(validator, v);
                        true
                    },
                    None => false,
                }
            },
            Some(n) => {
                let held = self.nominator_reward(validator, n);
                match held.checked_add(reward) {
                    Some(v) => {
                        self.nominator.insert(nominator_key(validator, n), v);
                        let mut ns = self.nominators_of(validator);
                        if !crate::liquid_staking::vec_contains(&ns, n) {
                            ns.push(n);
                            proof {
                                crate::liquid_staking::lemma_push_absent_no_duplicates(
                                    nominators_in(old(self)@, validator),
                                    n,
                                );
                            }
                        }
                        self.nominators.insert(validator, ns);
                        proof {
                            assert(lists_view(self.nominators@) =~= lists_view(old(self).nominators@).insert(
                                validator,
                                with_nominator(nominators_in(old(self)@, validator), n),
                            ));
                        }
                        true
                    },
                    None => false,
                }
            },
        }
    }
}

/// `a` after every nominator in `others` is credited `remaining * stake / total` under `v`.
pub open spec fn credit_nominators(
    a: AccruedView,
    v: AccountId,
    others: Seq<IndividualExposure>,
    remaining: nat,
    total: nat,
) -> Option<AccruedView>
    decreases others.len(),
{
    if others.len() == 0 {
        Some(a)
    } else {
        match credit_nominators(a, v, others.drop_last(), remaining, total) {
            None => None,
            Some(b) => {
                let n = others.last();
                match share(remaining, n.value as nat, total) {
                    None => None,
                    Some(r) => match credited(b.nominator, pair_key(v, n.who), r) {
                        None => None,
                        Some(m) => Some(
                            AccruedView {
                                nominator: m,
                                nominators: b.nominators.insert(v, with_nominator(nominators_in(b, v), n.who)),
                                ..b
                            },
                        ),
                    },
                }
            },
        }
    }
}

/// The validator's era reward: its points' part of the era's part of
/// `percent`% of its exposure's total.
pub open spec fn validator_era_reward(ve: ValidatorEra, percent: nat, eras_per_year: nat, total_points: nat) -> Option<
    nat,
> {
    match share(ve.exposure.total as nat, percent, 100) {
        None => None,
        Some(annual) => share(annual / eras_per_year, ve.points as nat, total_points),
    }
}

/// The commission part of a validator era reward `ver` at `commission`%.
pub open spec fn commission_share(ver: nat, commission: nat) -> Option<nat> {
    share(ver, commission, 100)
}

/// `a` after one validator's era reward is credited: wholly to the validator where
/// it has no nominators; else the commission and the validator's own-stake part of
/// the rest to the validator, and each nominator's stake part of the rest to it.
pub open spec fn accrue_validator(
    a: AccruedView,
    ve: ValidatorEra,
    percent: nat,
    eras_per_year: nat,
    total_points: nat,
) -> Option<AccruedView> {
    let v = ve.validator;
    let others = ve.exposure.others@;
    let total = ve.exposure.total as nat;
    match validator_era_reward(ve, percent, eras_per_year, total_points) {
        None => None,
        Some(ver) => if others.len() == 0 {
            match credited(a.validator, v, ver) {
                None => None,
                Some(m) => Some(AccruedView { validator: m, ..a }),
            }
        } else {
            match commission_share(ver, ve.commission as nat) {
                None => None,
                Some(cs) => {
                    let remaining = (ver - cs) as nat;
                    match share(remaining, ve.exposure.own as nat, total) {
                        None => None,
                        Some(own) => match credited(a.validator, v, cs + own) {
                            None => None,
                            Some(m) => {
                                let b = AccruedView { validator: m, ..a };
                                if remaining == 0 {
                                    Some(b)
                                } else {
                                    credit_nominators(b, v, others, remaining, total)
                                }
                            },
                        },
                    }
                },
            }
        },
    }
}

/// `a` after the era pass over `vs`, in order; `None` where a step overflows.
pub open spec fn accrue_all(
    a: AccruedView,
    vs: Seq<ValidatorEra>,
    percent: nat,
    eras_per_year: nat,
    total_points: nat,
) -> Option<AccruedView>
    decreases vs.len(),
{
    if vs.len() == 0 {
        Some(a)
    } else {
        match accrue_all(a, vs.drop_last(), percent, eras_per_year, total_points) {
            None => None,
            Some(b) => accrue_validator(b, vs.last(), percent, eras_per_year, total_points),
        }
    }
}

/// A commission of at most 100% takes at most the whole reward.
pub proof fn lemma_commission_within(ver: nat, commission: nat)
    requires
        commission <= 100,
    ensures
        commission_share(ver, commission) matches Some(cs) ==> cs <= ver,
{
    assert(ver * commission / 100 <= ver) by (nonlinear_arith)
        requires
            commission <= 100,
    ;
}

/// Every commission is a percentage.
pub open spec fn commissions_valid(vs: Seq<ValidatorEra>) -> bool {
    forall|i: int| 0 <= i < vs.len() ==> #[trigger] vs[i].commission <= 100
}

impl AccruedRewards {
    /// Credits every nominator in `others` its stake part `remaining * stake / total`
    /// under `validator`. Returns `false` where a step overflows; the tables are then
    /// left in an unspecified state.
    pub fn credit_nominators(
        &mut self,
        validator: AccountId,
        others: &Vec<IndividualExposure>,
        remaining: Balance,
        total: Balance,
    ) -> (r: bool)
        requires
            old(self).wf(),
        ensures
            final(self).wf(),
            r <==> credit_nominators(old(self)@, validator, others@, remaining as nat, total as nat) is Some,
            r ==> final(self)@ == credit_nominators(
                old(self)@,
                validator,
                others@,
                remaining as nat,
                total as nat,
            )->Some_0,
    {
        let mut i: usize = 0;
        while i < others.len()
            invariant
                i <= others@.len(),
                self.wf(),
                credit_nominators(old(self)@, validator, others@.take(i as int), remaining as nat, total as nat)
                    == Some(self@),
            decreases others@.len() - i,
        {
            let n = others[i];
            proof {
                assert(others@.take(i + 1).drop_last() =~= others@.take(i as int));
                assert(others@.take(i + 1).last() == n);
            }
            let part = match mul_div(remaining, n.value, total) {
                Some(p) => p,
                None => {
                    proof {
                        lemma_credit_nominators_none_extends(old(self)@, validator, others@, i + 1, remaining as nat, total as nat);
                    }
                    return false;
                },
            };
            if !self.allocate_rewards(validator, Some(n.who), part) {
                proof {
                    lemma_credit_nominators_none_extends(old(self)@, validator, others@, i + 1, remaining as nat, total as nat);
                }
                return false;
            }
            i = i + 1;
        }
        proof {
            assert(others@.take(others@.len() as int) =~= others@);
        }
        true
    }
}

/// Once a prefix of the nominators overflows, the whole pass does.
proof fn lemma_credit_nominators_none_extends(
    a: AccruedView,
    v: AccountId,
    others: Seq<IndividualExposure>,
    k: int,
    remaining: nat,
    total: nat,
)
    requires
        0 <= k <= others.len(),
        credit_nominators(a, v, others.take(k), remaining, total) is None,
    ensures
        credit_nominators(a, v, others, remaining, total) is None,
    decreases others.len() - k,
{
    if k < others.len() {
        assert(others.take(k + 1).drop_last() =~= others.take(k));
        lemma_credit_nominators_none_extends(a, v, others, k + 1, remaining, total);
    } else {
        assert(others.take(k) =~= others);
    }
}

/// Once a prefix of the validators overflows, the whole pass does.
proof fn lemma_accrue_all_none_extends(
    a: AccruedView,
    vs: Seq<ValidatorEra>,
    k: int,
    percent: nat,
    eras_per_year: nat,
    total_points: nat,
)
    requires
        0 <= k <= vs.len(),
        accrue_all(a, vs.take(k), percent, eras_per_year, total_points) is None,
    ensures
        accrue_all(a, vs, percent, eras_per_year, total_points) is None,
    decreases vs.len() - k,
{
    if k < vs.len() {
        assert(vs.take(k + 1).drop_last() =~= vs.take(k));
        lemma_accrue_all_none_extends(a, vs, k + 1, percent, eras_per_year, total_points);
    } else {
        assert(vs.take(k) =~= vs);
    }
}

/// The reward engine: the reward percent, the era length, accrued rewards, the
/// validators queued for payout, and the record of all rewards ever paid.
pub struct Pallet {
    /// The account that rewards are paid from.
    pub treasury_account: AccountId,
    pub total_minutes_per_year: u128,
    pub era_minutes: u128,
    /// Percent of a validator's exposure paid per year.
    pub base_reward_percent: u32,
    /// Percent that root set, to apply from the next `reward_percent` call.
    pub reward_percent: Option<u32>,
    /// Total reward ever paid to each account.
    pub beneficial_reward_record: HashMap<AccountId, Balance>,
    pub accrued: AccruedRewards,
    /// Validators queued for payout, in request order.
    pub era_rewards_vault: Vec<AccountId>,
}

impl Pallet {
    /// The era length divides the year at least once; no validator is queued twice.
    pub open spec fn wf(&self) -> bool {
        &&& self.era_minutes > 0
        &&& self.total_minutes_per_year >= self.era_minutes
        &&& self.accrued.wf()
        &&& self.era_rewards_vault@.no_duplicates()
    }

    /// Eras in a year.
    pub open spec fn eras_per_year(&self) -> nat {
        (self.total_minutes_per_year / self.era_minutes) as nat
    }

    /// An engine with nothing accrued, at the default reward percent.
    pub fn new(treasury_account: AccountId, total_minutes_per_year: u128, era_minutes: u128) -> (r: Self)
        requires
            era_minutes > 0,
            total_minutes_per_year >= era_minutes,
        ensures
            r.wf(),
            r.treasury_account == treasury_account,
            r.total_minutes_per_year == total_minutes_per_year,
            r.era_minutes == era_minutes,
            r.base_reward_percent == DEFAULT_REWARD_PERCENT,
            r.reward_percent is None,
            r.beneficial_reward_record@ == Map::<AccountId, Balance>::empty(),
            r.accrued@.validator == Map::<AccountId, Balance>::empty(),
            r.accrued@.nominator == Map::<u128, Balance>::empty(),
            r.accrued@.nominators == Map::<AccountId, Seq<AccountId>>::empty(),
            r.era_rewards_vault@ == Seq::<AccountId>::empty(),
    {
        Pallet {
            treasury_account,
            total_minutes_per_year,
            era_minutes,
            base_reward_percent: DEFAULT_REWARD_PERCENT,
            reward_percent: None,
            beneficial_reward_record: HashMap::new(),
            accrued: AccruedRewards::new(),
            era_rewards_vault: Vec::new(),
        }
    }

    /// `base_reward_percent`% of `exposure.total`: the validator's annual reward.
    pub fn calculate_annual_validator_reward(&self, exposure: &Exposure) -> (r: Option<Balance>)
        ensures
            r matches Some(v) ==> share(exposure.total as nat, self.base_reward_percent as nat, 100) == Some(v as nat),
            r is None <==> share(exposure.total as nat, self.base_reward_percent as nat, 100) is None,
    {
        mul_div(exposure.total, self.base_reward_percent as Balance, 100)
    }

    /// The era's part of an annual reward: `annual / (total_minutes_per_year / era_minutes)`.
    pub fn compute_era_reward_from_annual(&self, annual: Balance) -> (r: Balance)
        requires
            self.wf(),
        ensures
            r as nat == annual as nat / self.eras_per_year(),
    {
        let eras = self.total_minutes_per_year / self.era_minutes;
        proof {
            vstd::arithmetic::div_mod::lemma_div_is_ordered(
                self.era_minutes as int,
                self.total_minutes_per_year as int,
                self.era_minutes as int,
            );
            vstd::arithmetic::div_mod::lemma_div_basics(self.era_minutes as int);
        }
        annual / eras
    }

    /// The validator's part of the era reward: `era_reward * points / total_points`,
    /// zero where no points were earned at all.
    pub fn calculate_validator_era_reward(validator_points: u32, total_points: u32, era_reward: Balance) -> (r:
        Option<Balance>)
        ensures
            r matches Some(v) ==> share(era_reward as nat, validator_points as nat, total_points as nat) == Some(
                v as nat,
            ),
            r is None <==> share(era_reward as nat, validator_points as nat, total_points as nat) is None,
    {
        mul_div(era_reward, validator_points as Balance, total_points as Balance)
    }

    /// The part of `reward` that `share` out of `total_stake` earns:
    /// `reward * share / total_stake`, zero for a zero total.
    pub fn calculate_reward_share(share: Balance, total_stake: Balance, reward: Balance) -> (r: Option<Balance>)
        ensures
            r matches Some(v) ==> crate::fixed::share(reward as nat, share as nat, total_stake as nat) == Some(
                v as nat,
            ),
            r is None <==> crate::fixed::share(reward as nat, share as nat, total_stake as nat) is None,
    {
        mul_div(reward, share, total_stake)
    }

    /// The validator's commission in whole percent, from parts per billion.
    pub fn validator_commission(perbill: u32) -> (r: u32)
        ensures
            r == perbill / PERBILL_PER_PERCENT,
    {
        perbill / PERBILL_PER_PERCENT
    }

    /// Splits a validator era reward `ver` with nominators: returns the validator's
    /// credit (its `commission`% plus its own-stake part `own / total` of the rest)
    /// and the rest left to share among nominators.
    pub fn calculate_validator_commission_reward(ver: Balance, commission: u32, exposure: &Exposure) -> (r: Option<
        (Balance, Balance),
    >)
        requires
            commission <= 100,
        ensures
            match commission_share(ver as nat, commission as nat) {
                None => r is None,
                Some(cs) => match share((ver - cs) as nat, exposure.own as nat, exposure.total as nat) {
                    None => r is None,
                    Some(own) => if cs + own > Balance::MAX {
                        r is None
                    } else {
                        r == Some(((cs + own) as Balance, (ver - cs) as Balance))
                    },
                },
            },
    {
        let cs = mul_div(ver, commission as Balance, 100)?;
        proof {
            assert(ver as nat * commission as nat / 100 <= ver) by (nonlinear_arith)
                requires
                    commission <= 100,
            ;
        }
        let remaining = ver - cs;
        let own = mul_div(remaining, exposure.own, exposure.total)?;
        match cs.checked_add(own) {
            Some(credit) => Some((credit, remaining)),
            None => None,
        }
    }
}

impl Pallet {
    /// Credits one validator's era reward into `acc` (see `accrue_validator`).
    /// Returns `false` where a step overflows; `acc` is then left in an unspecified state.
    fn accrue_validator(&self, acc: &mut AccruedRewards, ve: &ValidatorEra, total_points: u32) -> (r: bool)
        requires
            self.wf(),
            old(acc).wf(),
            ve.commission <= 100,
        ensures
            final(acc).wf(),
            r <==> accrue_validator(
                old(acc)@,
                *ve,
                self.base_reward_percent as nat,
                self.eras_per_year(),
                total_points as nat,
            ) is Some,
            r ==> final(acc)@ == accrue_validator(
                old(acc)@,
                *ve,
                self.base_reward_percent as nat,
                self.eras_per_year(),
                total_points as nat,
            )->Some_0,
    {
        let annual = match self.calculate_annual_validator_reward(&ve.exposure) {
            Some(a) => a,
            None => return false,
        };
        let era_reward = self.compute_era_reward_from_annual(annual);
        let ver = match Self::calculate_validator_era_reward(ve.points, total_points, era_reward) {
            Some(v) => v,
            None => return false,
        };
        if ve.exposure.others.len() == 0 {
            return acc.allocate_rewards(ve.validator, None, ver);
        }
        let split = Self::calculate_validator_commission_reward(ver, ve.commission, &ve.exposure);
        let (credit, remaining) = match split {
            Some(p) => p,
            None => return false,
        };
        proof {
            let cs = commission_share(ver as nat, ve.commission as nat)->Some_0;
            assert(commission_share(ver as nat, ve.commission as nat) == Some(cs));
            lemma_commission_within(ver as nat, ve.commission as nat);
            let own = share((ver - cs) as nat, ve.exposure.own as nat, ve.exposure.total as nat)->Some_0;
            assert(share((ver - cs) as nat, ve.exposure.own as nat, ve.exposure.total as nat) == Some(own));
            assert(credit == cs + own && remaining == ver - cs);
        }
        if !acc.allocate_rewards(ve.validator, None, credit) {
            return false;
        }
        if remaining == 0 {
            return true;
        }
        acc.credit_nominators(ve.validator, &ve.exposure.others, remaining, ve.exposure.total)
    }

    /// The era pass: credits each validator of `validators`, in order, its era reward
    /// and each of its nominators their share (see `accrue_all`). All or nothing:
    /// where a step overflows, nothing changes.
    pub fn calculate_reward(&mut self, validators: &Vec<ValidatorEra>, total_points: u32) -> (r: Result<(), Error>)
        requires
            old(self).wf(),
            commissions_valid(validators@),
        ensures
            final(self).wf(),
            match accrue_all(
                old(self).accrued@,
                validators@,
                old(self).base_reward_percent as nat,
                old(self).eras_per_year(),
                total_points as nat,
            ) {
                Some(a) => r == Ok::<(), Error>(()) && final(self).accrued@ == a,
                None => r == Err::<(), Error>(Error::Arithmetic(ArithmeticError::Overflow)) && final(self).accrued@
                    == old(self).accrued@,
            },
            final(self).treasury_account == old(self).treasury_account,
            final(self).total_minutes_per_year == old(self).total_minutes_per_year,
            final(self).era_minutes == old(self).era_minutes,
            final(self).base_reward_percent == old(self).base_reward_percent,
            final(self).reward_percent == old(self).reward_percent,
            final(self).beneficial_reward_record == old(self).beneficial_reward_record,
            final(self).era_rewards_vault == old(self).era_rewards_vault,
    {
        let mut next = self.accrued.duplicate();
        let mut i: usize = 0;
        while i < validators.len()
            invariant
                i <= validators@.len(),
                self.wf(),
                next.wf(),
                commissions_valid(validators@),
                accrue_all(
                    self.accrued@,
                    validators@.take(i as int),
                    self.base_reward_percent as nat,
                    self.eras_per_year(),
                    total_points as nat,
                ) == Some(next@),
            decreases validators@.len() - i,
        {
            proof {
                assert(validators@.take(i + 1).drop_last() =~= validators@.take(i as int));
                assert(validators@.take(i + 1).last() == validators@[i as int]);
                assert(validators@[i as int].commission <= 100);
            }
            if !self.accrue_validator(&mut next, &validators[i], total_points) {
                proof {
                    lemma_accrue_all_none_extends(
                        self.accrued@,
                        validators@,
                        i + 1,
                        self.base_reward_percent as nat,
                        self.eras_per_year(),
                        total_points as nat,
                    );
                }
                return Err(Error::Arithmetic(ArithmeticError::Overflow));
            }
            i = i + 1;
        }
        proof {
            assert(validators@.take(validators@.len() as int) =~= validators@);
        }
        self.accrued = next;
        Ok(())
    }
}

/// The payouts of a claim for `v`: the validator's own reward first, then the reward
/// of each nominator listed under it, in list order.
pub open spec fn payouts(a: AccruedView, v: AccountId) -> Seq<(AccountId, Balance)> {
    seq![(v, accrued_in(a.validator, v) as Balance)] + nominators_in(a, v).map_values(
        |n: AccountId| (n, accrued_in(a.nominator, pair_key(v, n)) as Balance),
    )
}

/// Sum of the amounts of `ps`.
pub open spec fn owed(ps: Seq<(AccountId, Balance)>) -> nat
    decreases ps.len(),
{
    if ps.len() == 0 {
        0
    } else {
        owed(ps.drop_last()) + ps.last().1 as nat
    }
}

/// Native balances after `from` pays each of `ps` in order; a zero amount moves
/// nothing. The first refused transfer ends it.
pub open spec fn paid_out(m: Map<AccountId, Balance>, from: AccountId, ps: Seq<(AccountId, Balance)>) -> Result<
    Map<AccountId, Balance>,
    TokenError,
>
    decreases ps.len(),
{
    if ps.len() == 0 {
        Ok(m)
    } else {
        match paid_out(m, from, ps.drop_last()) {
            Err(e) => Err(e),
            Ok(m2) => if ps.last().1 == 0 {
                Ok(m2)
            } else {
                moved(m2, from, ps.last().0, ps.last().1)
            },
        }
    }
}

/// The record of rewards received after each of `ps` is added, saturating at the
/// largest balance; a zero amount adds nothing.
pub open spec fn recorded(rec: Map<AccountId, Balance>, ps: Seq<(AccountId, Balance)>) -> Map<AccountId, Balance>
    decreases ps.len(),
{
    if ps.len() == 0 {
        rec
    } else {
        let r2 = recorded(rec, ps.drop_last());
        let (a, x) = ps.last();
        if x == 0 {
            r2
        } else {
            r2.insert(a, min_of((balance_in(r2, a) + x) as nat, Balance::MAX as nat) as Balance)
        }
    }
}

/// The keys of the rewards accrued under `v` for the nominators `ns`.
pub open spec fn pair_keys(v: AccountId, ns: Seq<AccountId>) -> Set<u128> {
    Set::new(|k: u128| exists|j: int| 0 <= j < ns.len() && k == pair_key(v, #[trigger] ns[j]))
}

/// `a` once everything accrued under `v` is paid: its own reward, its nominators'
/// rewards, and its nominator list are gone.
pub open spec fn cleared(a: AccruedView, v: AccountId) -> AccruedView {
    AccruedView {
        validator: a.validator.remove(v),
        nominator: a.nominator.remove_keys(pair_keys(v, nominators_in(a, v))),
        nominators: a.nominators.remove(v),
    }
}

impl Pallet {
    /// The validators queued for payout.
    pub fn payout_validators(&self) -> (r: Vec<AccountId>)
        ensures
            r@ == self.era_rewards_vault@,
    {
        self.era_rewards_vault.clone()
    }

    /// `NoReward` for a zero reward.
    pub fn check_reward(reward: Balance) -> (r: Result<(), Error>)
        ensures
            r == (if reward == 0 {
                Err::<(), Error>(Error::NoReward)
            } else {
                Ok::<(), Error>(())
            }),
    {
        if reward == 0 {
            Err(Error::NoReward)
        } else {
            Ok(())
        }
    }

    /// The reward `validator` accrued for itself; `NoReward` where it is zero.
    pub fn verify_validator(&self, validator: AccountId) -> (r: Result<Balance, Error>)
        ensures
            accrued_in(self.accrued@.validator, validator) == 0 ==> r == Err::<Balance, Error>(Error::NoReward),
            accrued_in(self.accrued@.validator, validator) > 0 ==> r == Ok::<Balance, Error>(
                accrued_in(self.accrued@.validator, validator) as Balance,
            ),
    {
        let reward = self.accrued.validator_reward(validator);
        Self::check_reward(reward)?;
        Ok(reward)
    }

    /// Queues `validator` for payout. It must be among the `electable` validators and
    /// not queued already.
    pub fn get_rewards(&mut self, validator: AccountId, electable: &Vec<AccountId>) -> (r: Result<(), Error>)
        requires
            old(self).wf(),
        ensures
            final(self).wf(),
            !electable@.contains(validator) ==> r == Err::<(), Error>(Error::NoSuchValidator),
            electable@.contains(validator) && old(self).era_rewards_vault@.contains(validator) ==> r == Err::<
                (),
                Error,
            >(Error::WaitTheEraToComplete),
            electable@.contains(validator) && !old(self).era_rewards_vault@.contains(validator) ==> r == Ok::<
                (),
                Error,
            >(()),
            r is Err ==> *final(self) == *old(self),
            r is Ok ==> final(self).era_rewards_vault@ == old(self).era_rewards_vault@.push(validator)
                && *final(self) == (Pallet { era_rewards_vault: final(self).era_rewards_vault, ..*old(self) }),
    {
        if !vec_contains(electable, validator) {
            return Err(Error::NoSuchValidator);
        }
        if vec_contains(&self.era_rewards_vault, validator) {
            return Err(Error::WaitTheEraToComplete);
        }
        self.era_rewards_vault.push(validator);
        proof {
            crate::liquid_staking::lemma_push_absent_no_duplicates(old(self).era_rewards_vault@, validator);
        }
        Ok(())
    }

    /// Sets the reward percent that the next `reward_percent` call applies; root only.
    pub fn set_reward_percent_value(&mut self, origin: Origin, value: u32) -> (r: Result<(), Error>)
        ensures
            origin != Origin::Root ==> r == Err::<(), Error>(Error::BadOrigin) && *final(self) == *old(self),
            origin == Origin::Root ==> r == Ok::<(), Error>(()) && *final(self) == (Pallet {
                reward_percent: Some(value),
                ..*old(self)
            }),
    {
        match origin {
            Origin::Root => {
                self.reward_percent = Some(value);
                Ok(())
            },
            Origin::Signed(_) => Err(Error::BadOrigin),
        }
    }

    /// Applies the percent that root set, or the default where none was set.
    pub fn reward_percent(&mut self)
        ensures
            *final(self) == (Pallet {
                base_reward_percent: match old(self).reward_percent {
                    Some(p) => p,
                    None => DEFAULT_REWARD_PERCENT,
                },
                ..*old(self)
            }),
    {
        self.base_reward_percent = match self.reward_percent {
            Some(p) => p,
            None => DEFAULT_REWARD_PERCENT,
        };
    }

    /// Removes `account` from the payout queue.
    pub fn update_rewarded_accounts(&mut self, account: AccountId)
        requires
            old(self).wf(),
        ensures
            final(self).wf(),
            final(self).era_rewards_vault@ == unregistered(old(self).era_rewards_vault@, account),
            *final(self) == (Pallet { era_rewards_vault: final(self).era_rewards_vault, ..*old(self) }),
    {
        remove_account(&mut self.era_rewards_vault, account);
    }

    /// Adds `reward` to the record of what `account` received, saturating.
    pub fn store_reward_received(&mut self, account: AccountId, reward: Balance)
        ensures
            final(self).beneficial_reward_record@ == old(self).beneficial_reward_record@.insert(
                account,
                min_of(
                    (balance_in(old(self).beneficial_reward_record@, account) + reward) as nat,
                    Balance::MAX as nat,
                ) as Balance,
            ),
            *final(self) == (Pallet { beneficial_reward_record: final(self).beneficial_reward_record, ..*old(self) }),
    {
        let held = match self.beneficial_reward_record.get(&account) {
            Some(b) => *b,
            None => 0,
        };
        self.beneficial_reward_record.insert(account, held.saturating_add(reward));
    }

    /// Total reward ever paid to `account`.
    pub fn total_rewards(&self, account: AccountId) -> (r: Balance)
        ensures
            r as nat == balance_in(self.beneficial_reward_record@, account),
    {
        match self.beneficial_reward_record.get(&account) {
            Some(b) => *b,
            None => 0,
        }
    }
}

/// Once a prefix of the payouts is refused, the whole claim is, with the same error.
proof fn lemma_paid_out_err_extends(
    m: Map<AccountId, Balance>,
    from: AccountId,
    ps: Seq<(AccountId, Balance)>,
    k: int,
    e: TokenError,
)
    requires
        0 <= k <= ps.len(),
        paid_out(m, from, ps.take(k)) == Err::<Map<AccountId, Balance>, TokenError>(e),
    ensures
        paid_out(m, from, ps) == Err::<Map<AccountId, Balance>, TokenError>(e),
    decreases ps.len() - k,
{
    if k < ps.len() {
        assert(ps.take(k + 1).drop_last() =~= ps.take(k));
        lemma_paid_out_err_extends(m, from, ps, k + 1, e);
    } else {
        assert(ps.take(k) =~= ps);
    }
}

proof fn lemma_pair_keys_step(v: AccountId, ns: Seq<AccountId>, j: int)
    requires
        0 <= j < ns.len(),
    ensures
        pair_keys(v, ns.take(j + 1)) == pair_keys(v, ns.take(j)).insert(pair_key(v, ns[j])),
{
    let a = pair_keys(v, ns.take(j + 1));
    let b = pair_keys(v, ns.take(j)).insert(pair_key(v, ns[j]));
    assert forall|k: u128| a.contains(k) <==> b.contains(k) by {
        if a.contains(k) {
            let i = choose|i: int| 0 <= i < j + 1 && k == pair_key(v, #[trigger] ns.take(j + 1)[i]);
            if i < j {
                assert(ns.take(j)[i] == ns.take(j + 1)[i]);
            }
        }
        if b.contains(k) && k != pair_key(v, ns[j]) {
            let i = choose|i: int| 0 <= i < j && k == pair_key(v, #[trigger] ns.take(j)[i]);
            assert(ns.take(j)[i] == ns.take(j + 1)[i]);
        }
        if k == pair_key(v, ns[j]) {
            assert(ns.take(j + 1)[j] == ns[j]);
        }
    }
    assert(a =~= b);
}

/// Pays each of `ps` from `from`, in order; a zero amount moves nothing. On a refused
/// transfer the book is left in an unspecified state.
fn pay_all(book: &mut AssetBook, from: AccountId, ps: &Vec<(AccountId, Balance)>) -> (r: Result<(), TokenError>)
    ensures
        match paid_out(old(book).native@, from, ps@) {
            Err(e) => r == Err::<(), TokenError>(e),
            Ok(m) => r == Ok::<(), TokenError>(()) && final(book).native@ == m,
        },
        final(book).liquid@ == old(book).liquid@,
{
    let mut k: usize = 0;
    while k < ps.len()
        invariant
            k <= ps@.len(),
            paid_out(old(book).native@, from, ps@.take(k as int)) == Ok::<Map<AccountId, Balance>, TokenError>(
                book.native@,
            ),
            book.liquid@ == old(book).liquid@,
        decreases ps@.len() - k,
    {
        proof {
            assert(ps@.take(k + 1).drop_last() =~= ps@.take(k as int));
        }
        let (to, amount) = ps[k];
        if amount > 0 {
            match book.transfer(from, to, amount) {
                Ok(()) => {},
                Err(e) => {
                    proof {
                        lemma_paid_out_err_extends(old(book).native@, from, ps@, k + 1, e);
                    }
                    return Err(e);
                },
            }
        }
        k = k + 1;
    }
    proof {
        assert(ps@.take(ps@.len() as int) =~= ps@);
    }
    Ok(())
}

impl Pallet {
    /// The payouts of a claim for `validator` (see `payouts`).
    pub fn payouts_of(&self, validator: AccountId) -> (r: Vec<(AccountId, Balance)>)
        ensures
            r@ == payouts(self.accrued@, validator),
    {
        let ghost big = payouts(self.accrued@, validator);
        let ns = self.accrued.nominators_of(validator);
        let mut ps: Vec<(AccountId, Balance)> = Vec::new();
        ps.push((validator, self.accrued.validator_reward(validator)));
        let mut i: usize = 0;
        while i < ns.len()
            invariant
                i <= ns@.len(),
                ns@ == nominators_in(self.accrued@, validator),
                big == payouts(self.accrued@, validator),
                ps@.len() == i + 1,
                forall|j: int| 0 <= j < i + 1 ==> ps@[j] == big[j],
            decreases ns@.len() - i,
        {
            let n = ns[i];
            ps.push((n, self.accrued.nominator_reward(validator, n)));
            i = i + 1;
        }
        assert(ps@ =~= big);
        ps
    }

    /// Whether the treasury holds the sum of `payouts`; `InsufficientRewardBalance`
    /// where it does not.
    pub fn verify_balance(&self, book: &AssetBook, payouts: &Vec<(AccountId, Balance)>) -> (r: Result<(), Error>)
        ensures
            r == (if owed(payouts@) <= book.native_of(self.treasury_account) {
                Ok::<(), Error>(())
            } else {
                Err::<(), Error>(Error::InsufficientRewardBalance)
            }),
    {
        let mut sum: Balance = 0;
        let mut overflow = false;
        let mut k: usize = 0;
        while k < payouts.len()
            invariant
                k <= payouts@.len(),
                !overflow ==> sum as nat == owed(payouts@.take(k as int)),
                overflow ==> owed(payouts@.take(k as int)) > Balance::MAX,
            decreases payouts@.len() - k,
        {
            proof {
                assert(payouts@.take(k + 1).drop_last() =~= payouts@.take(k as int));
            }
            if !overflow {
                match sum.checked_add(payouts[k].1) {
                    Some(v) => sum = v,
                    None => overflow = true,
                }
            }
            k = k + 1;
        }
        proof {
            assert(payouts@.take(payouts@.len() as int) =~= payouts@);
        }
        if overflow || sum > book.free_balance(self.treasury_account) {
            Err(Error::InsufficientRewardBalance)
        } else {
            Ok(())
        }
    }

    /// Pays everything accrued under `validator` from the treasury: first its own
    /// reward, then each listed nominator's (a zero amount moves nothing). Each paid
    /// amount is added to the recipient's record, the accrued entries are cleared,
    /// and the validator leaves the payout queue. Refused with
    /// `InsufficientRewardBalance` where the treasury holds less than the sum owed.
    /// All or nothing.
    pub fn claim_rewards(&mut self, book: &mut AssetBook, validator: AccountId) -> (r: Result<(), Error>)
        requires
            old(self).wf(),
        ensures
            final(self).wf(),
            ({
                let ps = payouts(old(self).accrued@, validator);
                let treasury = old(self).treasury_account;
                if owed(ps) > old(book).native_of(treasury) {
                    r == Err::<(), Error>(Error::InsufficientRewardBalance)
                } else {
                    match paid_out(old(book).native@, treasury, ps) {
                        Err(e) => r == Err::<(), Error>(Error::Token(e)),
                        Ok(m) => r == Ok::<(), Error>(()) && final(book).native@ == m,
                    }
                }
            }),
            r is Err ==> *final(self) == *old(self) && final(book).native@ == old(book).native@
                && final(book).liquid@ == old(book).liquid@,
            r is Ok ==> {
                &&& final(book).liquid@ == old(book).liquid@
                &&& final(self).beneficial_reward_record@ == recorded(
                    old(self).beneficial_reward_record@,
                    payouts(old(self).accrued@, validator),
                )
                &&& final(self).accrued@ == cleared(old(self).accrued@, validator)
                &&& final(self).era_rewards_vault@ == unregistered(old(self).era_rewards_vault@, validator)
                &&& final(self).treasury_account == old(self).treasury_account
                &&& final(self).total_minutes_per_year == old(self).total_minutes_per_year
                &&& final(self).era_minutes == old(self).era_minutes
                &&& final(self).base_reward_percent == old(self).base_reward_percent
                &&& final(self).reward_percent == old(self).reward_percent
            },
    {
        let ghost a0 = self.accrued@;
        let treasury = self.treasury_account;
        let ns = self.accrued.nominators_of(validator);
        let ps = self.payouts_of(validator);
        self.verify_balance(book, &ps)?;
        // Pay on a copy of the book, so that a refused transfer changes nothing.
        let mut next = book.duplicate();
        match pay_all(&mut next, treasury, &ps) {
            Ok(()) => {},
            Err(e) => return Err(Error::Token(e)),
        }
        *book = next;
        // Record what each recipient received.
        let mut k: usize = 0;
        while k < ps.len()
            invariant
                k <= ps@.len(),
                self.beneficial_reward_record@ == recorded(old(self).beneficial_reward_record@, ps@.take(k as int)),
                self.accrued@ == a0,
                self.accrued.wf(),
                self.era_rewards_vault == old(self).era_rewards_vault,
                self.treasury_account == old(self).treasury_account,
                self.total_minutes_per_year == old(self).total_minutes_per_year,
                self.era_minutes == old(self).era_minutes,
                self.base_reward_percent == old(self).base_reward_percent,
                self.reward_percent == old(self).reward_percent,
            decreases ps@.len() - k,
        {
            proof {
                assert(ps@.take(k + 1).drop_last() =~= ps@.take(k as int));
            }
            let (to, amount) = ps[k];
            if amount > 0 {
                self.store_reward_received(to, amount);
            }
            k = k + 1;
        }
        proof {
            assert(ps@.take(ps@.len() as int) =~= ps@);
        }
        // Clear what was paid.
        self.accrued.validator.remove(&validator);
        let mut j: usize = 0;
        while j < ns.len()
            invariant
                j <= ns@.len(),
                ns@ == nominators_in(a0, validator),
                self.accrued.nominator@ == a0.nominator.remove_keys(pair_keys(validator, ns@.take(j as int))),
                self.accrued.validator@ == a0.validator.remove(validator),
                lists_view(self.accrued.nominators@) == a0.nominators,
                self.accrued.wf(),
                self.beneficial_reward_record@ == recorded(old(self).beneficial_reward_record@, ps@),
                self.era_rewards_vault == old(self).era_rewards_vault,
                self.treasury_account == old(self).treasury_account,
                self.total_minutes_per_year == old(self).total_minutes_per_year,
                self.era_minutes == old(self).era_minutes,
                self.base_reward_percent == old(self).base_reward_percent,
                self.reward_percent == old(self).reward_percent,
            decreases ns@.len() - j,
        {
            let key = nominator_key(validator, ns[j]);
            self.accrued.nominator.remove(&key);
            proof {
                lemma_pair_keys_step(validator, ns@, j as int);
                assert(self.accrued.nominator@ =~= a0.nominator.remove_keys(
                    pair_keys(validator, ns@.take(j + 1)),
                ));
            }
            j = j + 1;
        }
        proof {
            assert(ns@.take(ns@.len() as int) =~= ns@);
        }
        self.accrued.nominators.remove(&validator);
        proof {
            assert(lists_view(self.accrued.nominators@) =~= a0.nominators.remove(validator));
        }
        self.update_rewarded_accounts(validator);
        Ok(())
    }
}

/// Claiming twice in a row pays once: after a claim for `v`, every payout of a
/// second claim is zero, so it owes nothing, moves no balance, adds nothing to the
/// record, and clears nothing more.
pub proof fn lemma_claim_rewards_idempotent(
    a: AccruedView,
    v: AccountId,
    m: Map<AccountId, Balance>,
    treasury: AccountId,
    rec: Map<AccountId, Balance>,
)
    ensures
        forall|i: int|
            0 <= i < payouts(cleared(a, v), v).len() ==> #[trigger] payouts(cleared(a, v), v)[i].1 == 0,
        owed(payouts(cleared(a, v), v)) == 0,
        paid_out(m, treasury, payouts(cleared(a, v), v)) == Ok::<Map<AccountId, Balance>, TokenError>(m),
        recorded(rec, payouts(cleared(a, v), v)) == rec,
        cleared(cleared(a, v), v) == cleared(a, v),
{
    let c = cleared(a, v);
    let ps = payouts(c, v);
    assert(nominators_in(c, v) == Seq::<AccountId>::empty());
    assert(ps =~= seq![(v, 0 as Balance)]);
    assert(ps.drop_last() =~= Seq::<(AccountId, Balance)>::empty());
    assert(paid_out(m, treasury, ps.drop_last()) == Ok::<Map<AccountId, Balance>, TokenError>(m));
    assert(ps.last().1 == 0);
    assert(owed(ps.drop_last()) == 0);
    assert(recorded(rec, ps.drop_last()) == rec);
    assert(pair_keys(v, Seq::<AccountId>::empty()) =~= Set::<u128>::empty());
    assert(c.nominator.remove_keys(Set::<u128>::empty()) =~= c.nominator);
    assert(c.validator.remove(v) =~= c.validator);
    assert(c.nominators.remove(v) =~= c.nominators);
}

/// Split conservation for a validator with one nominator that holds the rest of the
/// exposure: what the validator and the nominator are credited together falls short
/// of the validator era reward by at most two units, and never exceeds it.
pub proof fn lemma_split_conservation(
    a: AccruedView,
    ve: ValidatorEra,
    percent: nat,
    eras_per_year: nat,
    total_points: nat,
)
    requires
        ve.exposure.others@.len() == 1,
        ve.exposure.own + ve.exposure.others@[0].value == ve.exposure.total,
        ve.commission <= 100,
        eras_per_year > 0,
        accrued_in(a.validator, ve.validator) == 0,
        accrued_in(a.nominator, pair_key(ve.validator, ve.exposure.others@[0].who)) == 0,
        accrue_validator(a, ve, percent, eras_per_year, total_points) is Some,
    ensures
        ({
            let b = accrue_validator(a, ve, percent, eras_per_year, total_points)->Some_0;
            let ver = validator_era_reward(ve, percent, eras_per_year, total_points)->Some_0;
            let credited_sum = accrued_in(b.validator, ve.validator) + accrued_in(
                b.nominator,
                pair_key(ve.validator, ve.exposure.others@[0].who),
            );
            &&& credited_sum <= ver
            &&& credited_sum + 2 >= ver
        }),
{
    let v = ve.validator;
    let n = ve.exposure.others@[0];
    let others = ve.exposure.others@;
    let total = ve.exposure.total as nat;
    let own = ve.exposure.own as nat;
    let ver = validator_era_reward(ve, percent, eras_per_year, total_points)->Some_0;
    let cs = commission_share(ver, ve.commission as nat)->Some_0;
    lemma_commission_within(ver, ve.commission as nat);
    let remaining = (ver - cs) as nat;
    let own_share = share(remaining, own, total)->Some_0;
    let b0 = AccruedView { validator: credited(a.validator, v, cs + own_share)->Some_0, ..a };
    assert(accrued_in(b0.validator, v) == cs + own_share);
    assert(accrued_in(b0.nominator, pair_key(v, n.who)) == 0);
    assert(cs == ver * (ve.commission as nat) / 100);
    if remaining == 0 {
        assert(own_share == 0);
        assert(accrue_validator(a, ve, percent, eras_per_year, total_points) == Some(b0));
    } else {
        assert(others.drop_last() =~= Seq::<IndividualExposure>::empty());
        assert(others.last() == n);
        let nom = share(remaining, n.value as nat, total)->Some_0;
        if total == 0 {
            let annual = share(0, percent, 100)->Some_0;
            assert(annual == 0);
            assert(annual / eras_per_year == 0);
            assert(0 * (ve.points as nat) == 0);
            if total_points > 0 {
                assert(0nat / total_points == 0);
            }
            assert(ver == 0);
        }
        assert(total > 0);
        assert(own_share == remaining * own / total);
        assert(nom == remaining * (n.value as nat) / total);
        lemma_two_floors(remaining, own, n.value as nat, total);
        assert(credit_nominators(b0, v, others.drop_last(), remaining, total) == Some(b0));
        let key = pair_key(v, n.who);
        assert(credited(b0.nominator, key, nom) == Some(b0.nominator.insert(key, nom as Balance)));
        let b = credit_nominators(b0, v, others, remaining, total)->Some_0;
        assert(b.nominator == b0.nominator.insert(key, nom as Balance));
        assert(b.validator == b0.validator);
        assert(accrue_validator(a, ve, percent, eras_per_year, total_points) == Some(b));
    }
}

/// `floor(r * x / t) + floor(r * y / t)` lies within two units below `r` when `x + y == t`.
proof fn lemma_two_floors(r: nat, x: nat, y: nat, t: nat)
    requires
        t > 0,
        x + y == t,
    ensures
        r * x / t + r * y / t <= r,
        r * x / t + r * y / t + 2 >= r,
{
    let p = r * x;
    let q = r * y;
    vstd::arithmetic::div_mod::lemma_fundamental_div_mod(p as int, t as int);
    vstd::arithmetic::div_mod::lemma_fundamental_div_mod(q as int, t as int);
    vstd::arithmetic::div_mod::lemma_mod_bound(p as int, t as int);
    vstd::arithmetic::div_mod::lemma_mod_bound(q as int, t as int);
    assert(p + q == r * t) by (nonlinear_arith)
        requires
            p == r * x,
            q == r * y,
            x + y == t,
    ;
    let a = p / t;
    let c = q / t;
    assert(t * (a + c) + p % t + q % t == r * t) by (nonlinear_arith)
        requires
            p == t * a + p % t,
            q == t * c + q % t,
            p + q == r * t,
    ;
    assert(a + c <= r) by (nonlinear_arith)
        requires
            t * (a + c) + p % t + q % t == r * t,
            p % t >= 0,
            q % t >= 0,
            t > 0,
    ;
    assert(a + c + 2 >= r) by (nonlinear_arith)
        requires
            t * (a + c) + p % t + q % t == r * t,
            p % t < t,
            q % t < t,
            t > 0,
    ;
}

} // verus!
