//! The execution runtime's configuration, genesis construction, and the
//! verified state-mutation primitives that every transaction path goes
//! through: debiting and crediting accounts, routing fees, staking moves,
//! maturing unbondings and minting rewards. Each primitive states how it
//! moves the supply measure, which is what supply conservation rests on.

use vstd::prelude::*;

use crate::bytes::bytes_eq;
use crate::codec::copy_bytes;
use crate::errors::ExecError;
use crate::state::{
    Account, ChainState, Delegation, DomainEntry, DomainParams, FeePools, GovernanceParams,
    PrivacyPool, Proposal, ProposalStatus, Unbonding, Validator, ValidatorStatus, VoteChoice,
    VoteRecord, VoterWeight, accts_unique, acct_ix, balance_of, contains_bytes, find_account,
    has_acct, has_validator, has_validator_owned, nonce_of, validator_ix, validator_owned_ix,
    zero32, zero_hash,
};
use crate::sums::{
    fee_pool_total, lemma_sum_balances_push, lemma_sum_balances_update, lemma_sum_delegated_push,
    lemma_sum_delegated_remove, lemma_sum_delegated_update, lemma_sum_stakes_push,
    lemma_sum_stakes_update, lemma_sum_unbonds_push, lemma_sum_unbonds_remove, sum_balances,
    sum_delegated_to, sum_stakes, sum_unbonds, supply_measure, supply_ok,
};
use vstd::pervasive::VecAdditionalExecFns;

verus! {

/// How gas and availability fees are split, in whole percents.
#[derive(Debug, Clone, Copy, PartialEq, Eq, Structural)]
pub struct FeeSplit {
    pub l1_gas_burn_pct: u8,
    pub l1_gas_validators_pct: u8,
    pub da_validators_pct: u8,
    pub da_nodes_pct: u8,
    pub da_treasury_pct: u8,
    pub l2_sequencer_pct: u8,
    pub l2_da_costs_pct: u8,
    pub l2_l1_rent_pct: u8,
}

/// Inflation and reward-distribution parameters, in basis points and
/// percents.
#[derive(Debug, Clone, Copy, PartialEq, Eq, Structural)]
pub struct RewardParams {
    pub base_inflation_bps: u16,
    pub max_inflation_bps: u16,
    pub target_stake_bps: u16,
    pub treasury_pct: u8,
    pub proposer_bonus_pct: u8,
}

impl RewardParams {
    /// Five percent at target, fifteen below it, 67% staking target, 10%
    /// treasury cut, 5% proposer bonus.
    pub fn standard() -> (r: RewardParams)
        ensures
            r.base_inflation_bps == 500,
            r.max_inflation_bps == 1500,
            r.target_stake_bps == 6700,
            r.treasury_pct == 10,
            r.proposer_bonus_pct == 5,
    {
        RewardParams {
            base_inflation_bps: 500,
            max_inflation_bps: 1500,
            target_stake_bps: 6700,
            treasury_pct: 10,
            proposer_bonus_pct: 5,
        }
    }
}

/// The default number of blocks an unbonding waits before it is credited.
pub fn default_unbonding_delay_blocks() -> (r: u64)
    ensures
        r == 10,
{
    10
}

/// The default slashing penalty in basis points.
pub fn default_slash_penalty_bps() -> (r: u16)
    ensures
        r == 500,
{
    500
}

/// One bonded validator at genesis.
#[derive(Debug)]
pub struct GenesisValidator {
    pub pubkey: Vec<u8>,
    pub stake: u128,
    pub commission_rate: u8,
}

/// The typed genesis file: initial balances, validators and chain limits.
#[derive(Debug)]
pub struct GenesisConfig {
    pub chain_id: Vec<u8>,
    pub initial_validators: Vec<GenesisValidator>,
    pub initial_accounts: Vec<(Vec<u8>, u128)>,
    pub block_time_ms: u64,
    pub max_gas_per_block: u64,
    pub base_fee: u128,
    pub da_sample_count: u16,
    pub slashing_double_sign: u8,
    pub fee_split: FeeSplit,
    pub initial_total_supply: u128,
    pub reward_params: RewardParams,
    pub unbonding_delay_blocks: u64,
    pub slash_penalty_bps: u16,
}

/// The chain's immutable execution parameters, fixed at genesis.
#[derive(Debug)]
pub struct ExecutionConfig {
    pub fee_split: FeeSplit,
    pub chain_id: Vec<u8>,
    pub base_fee: u128,
    pub max_gas_per_block: u64,
    pub block_time_ms: u64,
    pub da_sample_count: u16,
    pub slashing_double_sign: u8,
    pub reward_params: RewardParams,
    pub unbonding_delay_blocks: u64,
    pub slash_penalty_bps: u16,
}

/// Percentages must be percentages for the fee and reward splits to route no
/// more than they were given.
pub open spec fn config_wf(cfg: ExecutionConfig) -> bool {
    &&& cfg.fee_split.l1_gas_burn_pct <= 100
    &&& cfg.fee_split.l1_gas_validators_pct <= 100
    &&& cfg.reward_params.treasury_pct <= 100
    &&& cfg.reward_params.proposer_bonus_pct <= 100
    &&& cfg.block_time_ms >= 1
}

/// What one applied transaction reports back.
#[derive(Debug)]
pub struct ExecutionOutcome {
    pub gas_used: u64,
    pub events: Vec<Vec<u8>>,
}

impl ExecutionOutcome {
    /// Packages gas use and events.
    pub fn success(gas_used: u64, events: Vec<Vec<u8>>) -> (r: ExecutionOutcome)
        ensures
            r.gas_used == gas_used,
            r.events == events,
    {
        ExecutionOutcome { gas_used, events }
    }
}

/// What applying a whole block reports back.
#[derive(Debug)]
pub struct BlockApplyResult {
    pub state_root: Vec<u8>,
    pub gas_used: u64,
    pub events: Vec<Vec<u8>>,
}

// ---------------------------------------------------------------------------
// Verified mutation primitives.
// ---------------------------------------------------------------------------

/// All nonces, keyed by address, are the same in both account lists.
pub open spec fn nonces_unchanged(pre: Seq<Account>, post: Seq<Account>) -> bool {
    forall|a: Seq<u8>| nonce_of(post, a) == nonce_of(pre, a)
}

/// All balances, keyed by address, are the same in both account lists.
pub open spec fn balances_unchanged(pre: Seq<Account>, post: Seq<Account>) -> bool {
    forall|a: Seq<u8>| balance_of(post, a) == balance_of(pre, a)
}

/// Everything in the state but the accounts is unchanged.
pub open spec fn non_account_state_unchanged(pre: ChainState, post: ChainState) -> bool {
    &&& post.validators == pre.validators
    &&& post.delegations == pre.delegations
    &&& post.domains == pre.domains
    &&& post.da_commitments == pre.da_commitments
    &&& post.domain_roots == pre.domain_roots
    &&& post.proposals == pre.proposals
    &&& post.fee_pools == pre.fee_pools
    &&& post.privacy_pool == pre.privacy_pool
    &&& post.governance_params == pre.governance_params
    &&& post.total_supply == pre.total_supply
    &&& post.last_reward_height == pre.last_reward_height
    &&& post.pending_unbonds == pre.pending_unbonds
}

pub proof fn lemma_acct_ix_unique_pub(s: Seq<Account>, addr: Seq<u8>, i: int)
    requires
        accts_unique(s),
        0 <= i < s.len(),
        s[i].address@ == addr,
    ensures
        has_acct(s, addr),
        acct_ix(s, addr) == i,
{
    assert(has_acct(s, addr));
    let w = acct_ix(s, addr);
    assert(0 <= w < s.len() && s[w].address@ == addr);
    if w < i {
        assert(s[w].address@ != s[i].address@);
    } else if w > i {
        assert(s[i].address@ != s[w].address@);
    }
}

/// Debits one account and bumps its nonce by one: the transaction's sender
/// paying its way.
pub fn debit_sender_bump_nonce(state: &mut ChainState, i: usize, total_debit: u128)
    requires
        accts_unique(old(state).accounts@),
        i < old(state).accounts@.len(),
        old(state).accounts@[i as int].balance_x >= total_debit,
        old(state).accounts@[i as int].nonce < u64::MAX,
    ensures
        accts_unique(final(state).accounts@),
        final(state).accounts@.len() == old(state).accounts@.len(),
        sum_balances(final(state).accounts@) == sum_balances(old(state).accounts@) - total_debit,
        non_account_state_unchanged(*old(state), *final(state)),
        final(state).accounts@[i as int].address@ == old(state).accounts@[i as int].address@,
        final(state).accounts@[i as int].nonce == old(state).accounts@[i as int].nonce + 1,
        final(state).accounts@[i as int].balance_x == old(state).accounts@[i as int].balance_x
            - total_debit,
        forall|j: int|
            0 <= j < old(state).accounts@.len() && j != i ==> final(state).accounts@[j] == old(
                state,
            ).accounts@[j],
        forall|a: Seq<u8>|
            a != old(state).accounts@[i as int].address@ ==> nonce_of(final(state).accounts@, a)
                == nonce_of(old(state).accounts@, a) && balance_of(final(state).accounts@, a)
                == balance_of(old(state).accounts@, a),
        nonce_of(final(state).accounts@, old(state).accounts@[i as int].address@) == old(
            state,
        ).accounts@[i as int].nonce + 1,
        balance_of(final(state).accounts@, old(state).accounts@[i as int].address@) == old(
            state,
        ).accounts@[i as int].balance_x - total_debit,
{
    let ghost pre = state.accounts@;
    let acct = &mut state.accounts[i];
    acct.balance_x = acct.balance_x - total_debit;
    acct.nonce = acct.nonce + 1;
    proof {
        assert(state.accounts@ =~= pre.update(
            i as int,
            state.accounts@[i as int],
        ));
        lemma_sum_balances_update(pre, i as int, state.accounts@[i as int]);
        assert(accts_unique(state.accounts@)) by {
            assert forall|p: int, q: int| #![trigger state.accounts@[p].address, state.accounts@[q].address]
                0 <= p < q < state.accounts@.len() implies state.accounts@[p].address@
                != state.accounts@[q].address@ by {
                assert(state.accounts@[p].address@ == pre[p].address@);
                assert(state.accounts@[q].address@ == pre[q].address@);
            }
        }
        let addr = pre[i as int].address@;
        lemma_acct_ix_unique_pub(state.accounts@, addr, i as int);
        assert forall|a: Seq<u8>| a != addr implies nonce_of(state.accounts@, a) == nonce_of(
            pre,
            a,
        ) && balance_of(state.accounts@, a) == balance_of(pre, a) by {
            lemma_other_accounts_same(pre, state.accounts@, i as int, a);
        }
    }
}

proof fn lemma_other_accounts_same(pre: Seq<Account>, post: Seq<Account>, i: int, a: Seq<u8>)
    requires
        accts_unique(pre),
        pre.len() == post.len(),
        0 <= i < pre.len(),
        forall|j: int| 0 <= j < pre.len() && j != i ==> post[j] == pre[j],
        post[i].address@ == pre[i].address@,
        a != pre[i].address@,
    ensures
        nonce_of(post, a) == nonce_of(pre, a),
        balance_of(post, a) == balance_of(pre, a),
{
    assert(accts_unique(post)) by {
        assert forall|p: int, q: int| #![trigger post[p].address, post[q].address]
            0 <= p < q < post.len() implies post[p].address@ != post[q].address@ by {
            assert(post[p].address@ == pre[p].address@);
            assert(post[q].address@ == pre[q].address@);
        }
    }
    if has_acct(pre, a) {
        let w = acct_ix(pre, a);
        assert(0 <= w < pre.len() && pre[w].address@ == a);
        assert(w != i);
        assert(post[w].address@ == a);
        lemma_acct_ix_unique_pub(post, a, w);
        assert(post[w] == pre[w]);
    } else {
        assert forall|j: int| 0 <= j < post.len() implies post[j].address@ != a by {
            if j != i {
                assert(post[j] == pre[j]);
            }
        }
        assert(!has_acct(post, a));
    }
}

/// Finds an account or appends a fresh one for the address; returns its
/// index.
pub fn find_or_create_account(state: &mut ChainState, addr: &Vec<u8>) -> (i: usize)
    requires
        accts_unique(old(state).accounts@),
    ensures
        accts_unique(final(state).accounts@),
        i < final(state).accounts@.len(),
        final(state).accounts@[i as int].address@ == addr@,
        non_account_state_unchanged(*old(state), *final(state)),
        sum_balances(final(state).accounts@) == sum_balances(old(state).accounts@),
        has_acct(old(state).accounts@, addr@) ==> final(state).accounts == old(state).accounts
            && final(state).accounts@[i as int] == old(state).accounts@[acct_ix(
            old(state).accounts@,
            addr@,
        )],
        !has_acct(old(state).accounts@, addr@) ==> final(state).accounts@ == old(
            state,
        ).accounts@.push(final(state).accounts@[i as int]) && final(state).accounts@[i as int].nonce
            == 0 && final(state).accounts@[i as int].balance_x == 0,
        nonces_unchanged(old(state).accounts@, final(state).accounts@),
        balances_unchanged(old(state).accounts@, final(state).accounts@),
        nonce_of(final(state).accounts@, addr@) == final(state).accounts@[i as int].nonce,
        balance_of(final(state).accounts@, addr@) == final(state).accounts@[i as int].balance_x,
{
    let ghost pre = state.accounts@;
    match find_account(&state.accounts, addr) {
        Some(i) => {
            proof {
                lemma_acct_ix_unique_pub(pre, addr@, i as int);
                assert(nonces_unchanged(pre, state.accounts@));
                assert(balances_unchanged(pre, state.accounts@));
            }
            i
        },
        None => {
            let mut a: Vec<u8> = Vec::new();
            copy_bytes(&mut a, addr);
            proof {
                assert(a@ =~= addr@);
            }
            let fresh = Account {
                address: a,
                nonce: 0,
                balance_x: 0,
                code_hash: None,
                storage_root: None,
            };
            let i = state.accounts.len();
            proof {
                lemma_sum_balances_push(pre, fresh);
            }
            state.accounts.push(fresh);
            proof {
                assert(state.accounts@[i as int].address@ == addr@);
                assert(accts_unique(state.accounts@)) by {
                    assert forall|p: int, q: int| #![trigger state.accounts@[p].address, state.accounts@[q].address]
                        0 <= p < q < state.accounts@.len() implies state.accounts@[p].address@
                        != state.accounts@[q].address@ by {
                        if q < i as int {
                            assert(state.accounts@[p] == pre[p] && state.accounts@[q] == pre[q]);
                        } else {
                            assert(state.accounts@[p] == pre[p]);
                            assert(!has_acct(pre, addr@));
                        }
                    }
                }
                lemma_acct_ix_unique_pub(state.accounts@, addr@, i as int);
                assert forall|x: Seq<u8>| nonce_of(state.accounts@, x) == nonce_of(pre, x)
                    && balance_of(state.accounts@, x) == balance_of(pre, x) by {
                    lemma_push_preserves_lookup(pre, state.accounts@, i as int, x);
                }
            }
            i
        },
    }
}

proof fn lemma_push_preserves_lookup(pre: Seq<Account>, post: Seq<Account>, i: int, x: Seq<u8>)
    requires
        post.len() == pre.len() + 1,
        i == pre.len(),
        forall|j: int| 0 <= j < pre.len() ==> post[j] == pre[j],
        accts_unique(post),
        post[i].nonce == 0,
        post[i].balance_x == 0,
    ensures
        nonce_of(post, x) == nonce_of(pre, x),
        balance_of(post, x) == balance_of(pre, x),
{
    if has_acct(pre, x) {
        let w = acct_ix(pre, x);
        assert(0 <= w < pre.len() && pre[w].address@ == x);
        assert(post[w].address@ == x);
        assert(has_acct(post, x));
        let w2 = acct_ix(post, x);
        assert(0 <= w2 < post.len() && post[w2].address@ == x);
        if w2 != w {
            if w2 < w {
                assert(post[w2].address@ != post[w].address@);
            } else {
                assert(post[w].address@ != post[w2].address@);
            }
        }
        assert(w2 == w);
        assert(post[w] == pre[w]);
    } else {
        if has_acct(post, x) {
            let w2 = acct_ix(post, x);
            assert(0 <= w2 < post.len() && post[w2].address@ == x);
            if w2 < i {
                assert(pre[w2].address@ == x);
                assert(false);
            }
            assert(w2 == i);
            assert(nonce_of(post, x) == 0 && balance_of(post, x) == 0);
        }
    }
}

/// Credits an account, creating it when absent. The caller has already ruled
/// overflow out.
pub fn credit_account(state: &mut ChainState, addr: &Vec<u8>, amount: u128)
    requires
        accts_unique(old(state).accounts@),
        balance_of(old(state).accounts@, addr@) + amount <= u128::MAX,
    ensures
        accts_unique(final(state).accounts@),
        sum_balances(final(state).accounts@) == sum_balances(old(state).accounts@) + amount,
        non_account_state_unchanged(*old(state), *final(state)),
        nonces_unchanged(old(state).accounts@, final(state).accounts@),
        balance_of(final(state).accounts@, addr@) == balance_of(old(state).accounts@, addr@)
            + amount,
        forall|a: Seq<u8>|
            a != addr@ ==> balance_of(final(state).accounts@, a) == balance_of(
                old(state).accounts@,
                a,
            ),
{
    let i = find_or_create_account(state, addr);
    let ghost mid = state.accounts@;
    let acct = &mut state.accounts[i];
    acct.balance_x = acct.balance_x + amount;
    proof {
        assert(state.accounts@ =~= mid.update(i as int, state.accounts@[i as int]));
        lemma_sum_balances_update(mid, i as int, state.accounts@[i as int]);
        assert(accts_unique(state.accounts@)) by {
            assert forall|p: int, q: int| #![trigger state.accounts@[p].address, state.accounts@[q].address]
                0 <= p < q < state.accounts@.len() implies state.accounts@[p].address@
                != state.accounts@[q].address@ by {
                assert(state.accounts@[p].address@ == mid[p].address@);
                assert(state.accounts@[q].address@ == mid[q].address@);
            }
        }
        lemma_acct_ix_unique_pub(state.accounts@, addr@, i as int);
        assert forall|a: Seq<u8>| a != addr@ implies nonce_of(state.accounts@, a) == nonce_of(
            mid,
            a,
        ) && balance_of(state.accounts@, a) == balance_of(mid, a) by {
            lemma_other_accounts_same(mid, state.accounts@, i as int, a);
        }
        assert forall|a: Seq<u8>| nonce_of(state.accounts@, a) == nonce_of(mid, a) by {
            if a == addr@ {
                lemma_acct_ix_unique_pub(mid, addr@, i as int);
            } else {
                lemma_other_accounts_same(mid, state.accounts@, i as int, a);
            }
        }
    }
}

/// Whether crediting the address with the amount stays within the balance
/// type.
pub fn can_credit(state: &ChainState, addr: &Vec<u8>, amount: u128) -> (r: bool)
    requires
        accts_unique(state.accounts@),
    ensures
        r == (balance_of(state.accounts@, addr@) + amount <= u128::MAX),
{
    match find_account(&state.accounts, addr) {
        Some(i) => {
            proof {
                lemma_acct_ix_unique_pub(state.accounts@, addr@, i as int);
            }
            u128::MAX - amount >= state.accounts[i].balance_x
        },
        None => true,
    }
}

/// Routes a gas fee: the configured validator share goes to the gas pool and
/// everything else, the burn share included, accrues to the treasury, so the
/// fee pools absorb exactly the fee.
pub fn route_gas_fee(state: &mut ChainState, gas_fee: u128, split: &FeeSplit) -> (r: Result<
    (),
    ExecError,
>)
    requires
        split.l1_gas_validators_pct <= 100,
    ensures
        match r {
            Ok(()) => {
                &&& fee_pool_total(*final(state)) == fee_pool_total(*old(state)) + gas_fee
                &&& final(state).fee_pools.l1_gas == old(state).fee_pools.l1_gas + (gas_fee as int)
                    * (split.l1_gas_validators_pct as int) / 100
                &&& final(state).fee_pools.treasury == old(state).fee_pools.treasury + (gas_fee - (
                gas_fee as int) * (split.l1_gas_validators_pct as int) / 100)
                &&& final(state).fee_pools.da == old(state).fee_pools.da
                &&& final(state).fee_pools.sequencer == old(state).fee_pools.sequencer
                &&& final(state).accounts == old(state).accounts
                &&& final(state).validators == old(state).validators
                &&& final(state).delegations == old(state).delegations
                &&& final(state).domains == old(state).domains
                &&& final(state).da_commitments == old(state).da_commitments
                &&& final(state).domain_roots == old(state).domain_roots
                &&& final(state).proposals == old(state).proposals
                &&& final(state).privacy_pool == old(state).privacy_pool
                &&& final(state).governance_params == old(state).governance_params
                &&& final(state).total_supply == old(state).total_supply
                &&& final(state).last_reward_height == old(state).last_reward_height
                &&& final(state).pending_unbonds == old(state).pending_unbonds
            },
            Err(e) => e == ExecError::Overflow && *final(state) == *old(state),
        },
        r is Ok <==> old(state).fee_pools.l1_gas + (gas_fee as int) * (
        split.l1_gas_validators_pct as int) / 100 <= u128::MAX && old(state).fee_pools.treasury + (
        gas_fee - (gas_fee as int) * (split.l1_gas_validators_pct as int) / 100) <= u128::MAX,
{
    let validator_share = mul_div_100(gas_fee, split.l1_gas_validators_pct);
    proof {
        assert(validator_share <= gas_fee);
    }
    let treasury_share = gas_fee - validator_share;
    if u128::MAX - validator_share < state.fee_pools.l1_gas {
        return Err(ExecError::Overflow);
    }
    if u128::MAX - treasury_share < state.fee_pools.treasury {
        return Err(ExecError::Overflow);
    }
    state.fee_pools.l1_gas = state.fee_pools.l1_gas + validator_share;
    state.fee_pools.treasury = state.fee_pools.treasury + treasury_share;
    Ok(())
}

/// `value * pct / 100`, with the product bounded so it cannot overflow and
/// the result bounded by the value.
pub fn mul_div_100(value: u128, pct: u8) -> (r: u128)
    requires
        pct <= 100,
    ensures
        r == (value as int) * (pct as int) / 100,
        r <= value,
{
    let hi = value / 100;
    let lo = value % 100;
    proof {
        assert(value == hi * 100 + lo) by (nonlinear_arith)
            requires
                hi == value / 100,
                lo == value % 100,
                value >= 0,
        ;
        assert(hi * (pct as int) <= hi * 100) by (nonlinear_arith)
            requires
                pct <= 100,
                hi >= 0,
        ;
        assert(lo * (pct as int) <= 100 * 100) by (nonlinear_arith)
            requires
                lo < 100,
                pct <= 100,
        ;
    }
    proof {
        assert(hi * 100 <= value) by (nonlinear_arith)
            requires
                hi == value as int / 100,
                value >= 0,
        ;
        lemma_mul_div_100(value as int, pct as int, hi as int, lo as int);
        assert((hi as int) * (pct as int) + ((lo as int) * (pct as int)) / 100 <= value)
            by (nonlinear_arith)
            requires
                (hi as int) * (pct as int) + ((lo as int) * (pct as int)) / 100 == (value as int)
                    * (pct as int) / 100,
                pct <= 100,
                value >= 0,
        ;
    }
    let r = hi * (pct as u128) + lo * (pct as u128) / 100;
    r
}

proof fn lemma_mul_div_100(value: int, pct: int, hi: int, lo: int)
    requires
        0 <= value,
        0 <= pct <= 100,
        hi == value / 100,
        lo == value % 100,
    ensures
        hi * pct + lo * pct / 100 == value * pct / 100,
{
    assert(value == 100 * hi + lo) by (nonlinear_arith)
        requires
            hi == value / 100,
            lo == value % 100,
            value >= 0,
    ;
    assert(value * pct == (100 * hi + lo) * pct) by (nonlinear_arith)
        requires
            value == 100 * hi + lo,
    ;
    assert((100 * hi + lo) * pct == 100 * (hi * pct) + lo * pct) by (nonlinear_arith);
    assert((100 * (hi * pct) + lo * pct) / 100 == hi * pct + (lo * pct) / 100) by (nonlinear_arith)
        requires
            lo * pct >= 0,
    ;
}

/// `value * bps / 10_000`, bounded by the value.
pub fn mul_div_bps(value: u128, bps: u16) -> (r: u128)
    requires
        bps <= 10_000,
    ensures
        r == (value as int) * (bps as int) / 10_000,
        r <= value,
{
    let hi = value / 10_000;
    let lo = value % 10_000;
    proof {
        assert(value == hi * 10_000 + lo) by (nonlinear_arith)
            requires
                hi == value / 10_000,
                lo == value % 10_000,
                value >= 0,
        ;
        assert(hi * (bps as int) <= hi * 10_000) by (nonlinear_arith)
            requires
                bps <= 10_000,
                hi >= 0,
        ;
        assert(lo * (bps as int) <= 10_000 * 10_000) by (nonlinear_arith)
            requires
                lo < 10_000,
                bps <= 10_000,
        ;
    }
    proof {
        assert(hi * 10_000 <= value) by (nonlinear_arith)
            requires
                hi == value as int / 10_000,
                value >= 0,
        ;
        lemma_mul_div_bps(value as int, bps as int, hi as int, lo as int);
        assert((hi as int) * (bps as int) + ((lo as int) * (bps as int)) / 10_000 <= value)
            by (nonlinear_arith)
            requires
                (hi as int) * (bps as int) + ((lo as int) * (bps as int)) / 10_000 == (value as int)
                    * (bps as int) / 10_000,
                bps <= 10_000,
                value >= 0,
        ;
    }
    let r = hi * (bps as u128) + lo * (bps as u128) / 10_000;
    r
}

proof fn lemma_mul_div_bps(value: int, bps: int, hi: int, lo: int)
    requires
        0 <= value,
        0 <= bps <= 10_000,
        hi == value / 10_000,
        lo == value % 10_000,
    ensures
        hi * bps + lo * bps / 10_000 == value * bps / 10_000,
{
    assert(value == 10_000 * hi + lo) by (nonlinear_arith)
        requires
            hi == value / 10_000,
            lo == value % 10_000,
            value >= 0,
    ;
    assert(value * bps == (10_000 * hi + lo) * bps) by (nonlinear_arith)
        requires
            value == 10_000 * hi + lo,
    ;
    assert((10_000 * hi + lo) * bps == 10_000 * (hi * bps) + lo * bps) by (nonlinear_arith);
    assert((10_000 * (hi * bps) + lo * bps) / 10_000 == hi * bps + (lo * bps) / 10_000)
        by (nonlinear_arith)
        requires
            lo * bps >= 0,
    ;
}

} // verus!
