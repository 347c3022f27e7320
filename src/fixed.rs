use vstd::prelude::*;
use crate::types::Balance;

verus! {

/// `10^p`.
pub open spec fn pow10(p: nat) -> nat
    decreases p,
{
    if p == 0 {
        1
    } else {
        10 * pow10((p - 1) as nat)
    }
}

/// `floor(x * num / den)`, the share of `x` that `num` parts out of `den` make; a zero
/// denominator leaves no share. `None` where the product does not fit in a balance.
pub open spec fn share(x: nat, num: nat, den: nat) -> Option<nat> {
    if den == 0 {
        Some(0)
    } else if x * num > Balance::MAX {
        None
    } else {
        Some(x * num / den)
    }
}

/// The fixed-point form of the rational `num / den` at `precision` decimals:
/// `floor(num * 10^precision / den)`.
pub open spec fn fixed_of(num: nat, den: nat, precision: nat) -> Option<nat> {
    if pow10(precision) > Balance::MAX || num * pow10(precision) > Balance::MAX {
        None
    } else {
        Some(num * pow10(precision) / den)
    }
}

proof fn lemma_pow10_positive(p: nat)
    ensures
        pow10(p) >= 1,
    decreases p,
{
    if p > 0 {
        lemma_pow10_positive((p - 1) as nat);
    }
}

/// `10^precision`, where it fits in a balance.
pub fn checked_pow10(precision: u32) -> (r: Option<Balance>)
    ensures
        pow10(precision as nat) <= Balance::MAX ==> r == Some(pow10(precision as nat) as Balance),
        pow10(precision as nat) > Balance::MAX ==> r is None,
{
    let mut acc: Balance = 1;
    let mut i: u32 = 0;
    while i < precision
        invariant
            i <= precision,
            acc == pow10(i as nat),
        decreases precision - i,
    {
        match acc.checked_mul(10) {
            Some(next) => {
                acc = next;
                i = i + 1;
            },
            None => {
                proof {
                    lemma_pow10_grows(i as nat, precision as nat);
                }
                return None;
            },
        }
    }
    Some(acc)
}

proof fn lemma_pow10_grows(i: nat, k: nat)
    requires
        i < k,
    ensures
        pow10(k) >= 10 * pow10(i),
    decreases k,
{
    lemma_pow10_positive(k);
    if k == i + 1 {
    } else {
        lemma_pow10_grows(i, (k - 1) as nat);
        lemma_pow10_positive((k - 1) as nat);
    }
}

/// `floor(x * num / den)`: the proportional share of `x` for `num` parts out of `den`.
/// A zero denominator gives a zero share. Fails where `x * num` does not fit.
pub fn mul_div(x: Balance, num: Balance, den: Balance) -> (r: Option<Balance>)
    ensures
        r matches Some(v) ==> share(x as nat, num as nat, den as nat) == Some(v as nat),
        r is None <==> share(x as nat, num as nat, den as nat) is None,
{
    if den == 0 {
        return Some(0);
    }
    match x.checked_mul(num) {
        Some(p) => {
            proof {
                vstd::arithmetic::div_mod::lemma_div_is_ordered_by_denominator(p as int, 1, den as int);
            }
            Some(p / den)
        },
        None => None,
    }
}

/// Converts the rational `num / den` to a fixed-point integer at `precision` decimals,
/// truncating toward zero.
pub fn to_fixed(num: Balance, den: Balance, precision: u32) -> (r: Option<Balance>)
    requires
        den > 0,
    ensures
        r matches Some(v) ==> fixed_of(num as nat, den as nat, precision as nat) == Some(v as nat),
        r is None <==> fixed_of(num as nat, den as nat, precision as nat) is None,
{
    let scale = checked_pow10(precision)?;
    match num.checked_mul(scale) {
        Some(p) => {
            proof {
                vstd::arithmetic::div_mod::lemma_div_is_ordered_by_denominator(p as int, 1, den as int);
            }
            Some(p / den)
        },
        None => None,
    }
}

/// Converts a fixed-point integer at `precision` decimals back to whole units,
/// truncating toward zero.
pub fn from_fixed(value: Balance, precision: u32) -> (r: Balance)
    ensures
        r as nat == value as nat / pow10(precision as nat),
{
    proof {
        lemma_pow10_positive(precision as nat);
    }
    match checked_pow10(precision) {
        Some(scale) => value / scale,
        None => {
            proof {
                vstd::arithmetic::div_mod::lemma_basic_div(value as int, pow10(precision as nat) as int);
            }
            0
        },
    }
}

} // verus!
