//! Value sums over the chain's collections, and how they move under updates.
//! Supply conservation is stated and proved in terms of these.

use vstd::prelude::*;

use crate::state::{Account, ChainState, Delegation, Unbonding, Validator};

verus! {

/// The sum of all account balances.
pub open spec fn sum_balances(s: Seq<Account>) -> int
    decreases s.len(),
{
    if s.len() == 0 {
        0
    } else {
        sum_balances(s.drop_last()) + s.last().balance_x
    }
}

/// The sum of all validator stakes.
pub open spec fn sum_stakes(s: Seq<Validator>) -> int
    decreases s.len(),
{
    if s.len() == 0 {
        0
    } else {
        sum_stakes(s.drop_last()) + s.last().stake
    }
}

/// The sum of all pending unbonding amounts.
pub open spec fn sum_unbonds(s: Seq<Unbonding>) -> int
    decreases s.len(),
{
    if s.len() == 0 {
        0
    } else {
        sum_unbonds(s.drop_last()) + s.last().amount
    }
}

/// The stake delegated to one validator across all delegation rows.
pub open spec fn sum_delegated_to(s: Seq<Delegation>, vid: u128) -> int
    decreases s.len(),
{
    if s.len() == 0 {
        0
    } else {
        sum_delegated_to(s.drop_last(), vid) + (if s.last().validator_id == vid {
            s.last().stake as int
        } else {
            0
        })
    }
}

/// Everything the fee pools hold.
pub open spec fn fee_pool_total(s: ChainState) -> int {
    s.fee_pools.l1_gas + s.fee_pools.da + s.fee_pools.sequencer + s.fee_pools.treasury
}

/// Every unit of value the chain tracks: balances, bonded stake, fee pools,
/// maturing unbondings and the shielded pool. Supply conservation says this
/// equals `total_supply` after any committed block.
pub open spec fn supply_measure(s: ChainState) -> int {
    sum_balances(s.accounts@) + sum_stakes(s.validators@) + fee_pool_total(s) + sum_unbonds(
        s.pending_unbonds@,
    ) + s.privacy_pool.total_shielded
}

/// The chain's books balance: the measured value equals the recorded supply.
pub open spec fn supply_ok(s: ChainState) -> bool {
    supply_measure(s) == s.total_supply
}

// ---------------------------------------------------------------------------
// How the sums move under push, update and remove.
// ---------------------------------------------------------------------------

pub proof fn lemma_sum_balances_push(s: Seq<Account>, a: Account)
    ensures
        sum_balances(s.push(a)) == sum_balances(s) + a.balance_x,
{
    assert(s.push(a).drop_last() =~= s);
}

pub proof fn lemma_sum_balances_update(s: Seq<Account>, i: int, a: Account)
    requires
        0 <= i < s.len(),
    ensures
        sum_balances(s.update(i, a)) == sum_balances(s) - s[i].balance_x + a.balance_x,
    decreases s.len(),
{
    if i == s.len() - 1 {
        assert(s.update(i, a).drop_last() =~= s.drop_last());
        assert(s.update(i, a).last() == a);
    } else {
        assert(s.update(i, a).drop_last() =~= s.drop_last().update(i, a));
        assert(s.update(i, a).last() == s.last());
        lemma_sum_balances_update(s.drop_last(), i, a);
    }
}

pub proof fn lemma_sum_stakes_push(s: Seq<Validator>, v: Validator)
    ensures
        sum_stakes(s.push(v)) == sum_stakes(s) + v.stake,
{
    assert(s.push(v).drop_last() =~= s);
}

pub proof fn lemma_sum_stakes_update(s: Seq<Validator>, i: int, v: Validator)
    requires
        0 <= i < s.len(),
    ensures
        sum_stakes(s.update(i, v)) == sum_stakes(s) - s[i].stake + v.stake,
    decreases s.len(),
{
    if i == s.len() - 1 {
        assert(s.update(i, v).drop_last() =~= s.drop_last());
        assert(s.update(i, v).last() == v);
    } else {
        assert(s.update(i, v).drop_last() =~= s.drop_last().update(i, v));
        assert(s.update(i, v).last() == s.last());
        lemma_sum_stakes_update(s.drop_last(), i, v);
    }
}

pub proof fn lemma_sum_unbonds_push(s: Seq<Unbonding>, u: Unbonding)
    ensures
        sum_unbonds(s.push(u)) == sum_unbonds(s) + u.amount,
{
    assert(s.push(u).drop_last() =~= s);
}

pub proof fn lemma_sum_unbonds_remove(s: Seq<Unbonding>, i: int)
    requires
        0 <= i < s.len(),
    ensures
        sum_unbonds(s.remove(i)) == sum_unbonds(s) - s[i].amount,
    decreases s.len(),
{
    if i == s.len() - 1 {
        assert(s.remove(i) =~= s.drop_last());
    } else {
        assert(s.remove(i).drop_last() =~= s.drop_last().remove(i));
        assert(s.remove(i).last() == s.last());
        lemma_sum_unbonds_remove(s.drop_last(), i);
    }
}

pub proof fn lemma_sum_delegated_push(s: Seq<Delegation>, d: Delegation, vid: u128)
    ensures
        sum_delegated_to(s.push(d), vid) == sum_delegated_to(s, vid) + (if d.validator_id == vid {
            d.stake as int
        } else {
            0
        }),
{
    assert(s.push(d).drop_last() =~= s);
}

pub proof fn lemma_sum_delegated_update(s: Seq<Delegation>, i: int, d: Delegation, vid: u128)
    requires
        0 <= i < s.len(),
    ensures
        sum_delegated_to(s.update(i, d), vid) == sum_delegated_to(s, vid) - (if s[i].validator_id
            == vid {
            s[i].stake as int
        } else {
            0
        }) + (if d.validator_id == vid {
            d.stake as int
        } else {
            0
        }),
    decreases s.len(),
{
    if i == s.len() - 1 {
        assert(s.update(i, d).drop_last() =~= s.drop_last());
        assert(s.update(i, d).last() == d);
    } else {
        assert(s.update(i, d).drop_last() =~= s.drop_last().update(i, d));
        assert(s.update(i, d).last() == s.last());
        lemma_sum_delegated_update(s.drop_last(), i, d, vid);
    }
}

pub proof fn lemma_sum_delegated_remove(s: Seq<Delegation>, i: int, vid: u128)
    requires
        0 <= i < s.len(),
    ensures
        sum_delegated_to(s.remove(i), vid) == sum_delegated_to(s, vid) - (if s[i].validator_id
            == vid {
            s[i].stake as int
        } else {
            0
        }),
    decreases s.len(),
{
    if i == s.len() - 1 {
        assert(s.remove(i) =~= s.drop_last());
    } else {
        assert(s.remove(i).drop_last() =~= s.drop_last().remove(i));
        assert(s.remove(i).last() == s.last());
        lemma_sum_delegated_remove(s.drop_last(), i, vid);
    }
}

/// Sums are nonnegative.
pub proof fn lemma_sum_balances_nonneg(s: Seq<Account>)
    ensures
        sum_balances(s) >= 0,
    decreases s.len(),
{
    if s.len() > 0 {
        lemma_sum_balances_nonneg(s.drop_last());
    }
}

pub proof fn lemma_sum_stakes_nonneg(s: Seq<Validator>)
    ensures
        sum_stakes(s) >= 0,
    decreases s.len(),
{
    if s.len() > 0 {
        lemma_sum_stakes_nonneg(s.drop_last());
    }
}

pub proof fn lemma_sum_unbonds_nonneg(s: Seq<Unbonding>)
    ensures
        sum_unbonds(s) >= 0,
    decreases s.len(),
{
    if s.len() > 0 {
        lemma_sum_unbonds_nonneg(s.drop_last());
    }
}

pub proof fn lemma_sum_delegated_nonneg(s: Seq<Delegation>, vid: u128)
    ensures
        sum_delegated_to(s, vid) >= 0,
    decreases s.len(),
{
    if s.len() > 0 {
        lemma_sum_delegated_nonneg(s.drop_last(), vid);
    }
}

/// A single account's balance never exceeds the sum over all accounts.
pub proof fn lemma_sum_balances_bounds(s: Seq<Account>, i: int)
    requires
        0 <= i < s.len(),
    ensures
        s[i].balance_x <= sum_balances(s),
    decreases s.len(),
{
    lemma_sum_balances_nonneg(s.drop_last());
    if i == s.len() - 1 {
    } else {
        lemma_sum_balances_bounds(s.drop_last(), i);
    }
}

/// A single unbonding's amount never exceeds the sum over all unbondings.
pub proof fn lemma_sum_unbonds_bounds(s: Seq<Unbonding>, i: int)
    requires
        0 <= i < s.len(),
    ensures
        s[i].amount <= sum_unbonds(s),
    decreases s.len(),
{
    lemma_sum_unbonds_nonneg(s.drop_last());
    if i == s.len() - 1 {
    } else {
        lemma_sum_unbonds_bounds(s.drop_last(), i);
    }
}

/// Two distinct accounts' balances together never exceed the sum.
pub proof fn lemma_sum_balances_two(s: Seq<Account>, i: int, j: int)
    requires
        0 <= i < s.len(),
        0 <= j < s.len(),
        i != j,
    ensures
        s[i].balance_x + s[j].balance_x <= sum_balances(s),
    decreases s.len(),
{
    let lo = if i < j { i } else { j };
    let hi = if i < j { j } else { i };
    if hi == s.len() - 1 {
        lemma_sum_balances_bounds(s.drop_last(), lo);
    } else {
        lemma_sum_balances_two(s.drop_last(), i, j);
    }
}

/// A single validator's stake never exceeds the sum over all validators.
pub proof fn lemma_sum_stakes_bounds(s: Seq<Validator>, i: int)
    requires
        0 <= i < s.len(),
    ensures
        s[i].stake <= sum_stakes(s),
    decreases s.len(),
{
    lemma_sum_stakes_nonneg(s.drop_last());
    if i == s.len() - 1 {
    } else {
        lemma_sum_stakes_bounds(s.drop_last(), i);
    }
}

} // verus!
