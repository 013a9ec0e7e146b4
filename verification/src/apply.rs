//! Deterministic transaction application. Every payload kind is applied
//! against the chain state through the verified mutation primitives, so each
//! successful transaction provably keeps the supply measure unchanged and
//! bumps the sender's nonce by exactly one; blocks then mature unbondings and
//! mint inflation, growing measure and recorded supply by the same amount.

use vstd::prelude::*;

use crate::bytes::{bytes_eq, views_of};
use crate::codec::copy_bytes;
use crate::crypto::uuid_v5_from_name;
use crate::domains::{DomainRuntime, DomainVm, copy_message};
use crate::errors::ExecError;
use crate::root::fold_leaves;
use crate::runtime::{
    BlockApplyResult, ExecutionConfig, ExecutionOutcome, FeeSplit, GenesisConfig, GenesisValidator,
    RewardParams,
    balances_unchanged, can_credit, config_wf, credit_account, debit_sender_bump_nonce,
    find_or_create_account, mul_div_100, mul_div_bps, nonces_unchanged, route_gas_fee,
};
use crate::state::{
    Account, ChainState, DACommitment, Delegation, DomainEntry, DomainParams, DomainRoot,
    Proposal, ProposalStatus, SecurityModel, Unbonding, Validator, ValidatorStatus, VoteChoice,
    VoteRecord, VoterWeight, accts_unique, balance_of, bytes_list_contains, contains_bytes,
    find_account, find_domain, find_proposal, find_validator, find_validator_by_owner, has_acct,
    has_validator_owned, lookup_weight, nonce_of, votes_contain, zero_hash,
};
use crate::sums::{
    fee_pool_total, lemma_sum_stakes_push, lemma_sum_stakes_update, lemma_sum_unbonds_push,
    lemma_sum_unbonds_remove, sum_balances, sum_stakes, sum_unbonds, supply_measure, supply_ok,
};
use crate::tx::{
    Tx, TxPayload, effective_gas_price, gas_cost, spec_tx_sender, spec_tx_sig_ok,
    verify_tx_signature,
};
use crate::zk::{ProgramId, ProgramIdV, ProofArtifact, program_id_eq};
use crate::zk_privacy::{PrivacyWithdrawInput, verify_stub_artifact};
use vstd::pervasive::VecAdditionalExecFns;

verus! {

/// Charges a sender: debits `extra + gas_fee` from its balance, bumps its
/// nonce, and routes the gas fee into the fee pools. Fails without touching
/// the state when funds are short or a pool would overflow.
fn charge_sender(
    cfg: &ExecutionConfig,
    state: &mut ChainState,
    sender: &Vec<u8>,
    extra: u128,
    gas_fee: u128,
) -> (r: Result<(), ExecError>)
    requires
        accts_unique(old(state).accounts@),
        config_wf(*cfg),
        nonce_of(old(state).accounts@, sender@) < u64::MAX,
        extra + gas_fee <= u128::MAX,
    ensures
        accts_unique(final(state).accounts@),
        match r {
            Ok(()) => {
                &&& supply_measure(*final(state)) == supply_measure(*old(state)) - extra
                &&& sum_balances(final(state).accounts@) == sum_balances(old(state).accounts@)
                    - extra - gas_fee
                &&& fee_pool_total(*final(state)) == fee_pool_total(*old(state)) + gas_fee
                &&& final(state).fee_pools.l1_gas == old(state).fee_pools.l1_gas + (gas_fee as int)
                    * (cfg.fee_split.l1_gas_validators_pct as int) / 100
                &&& final(state).fee_pools.treasury == old(state).fee_pools.treasury + (gas_fee - (
                gas_fee as int) * (cfg.fee_split.l1_gas_validators_pct as int) / 100)
                &&& final(state).fee_pools.da == old(state).fee_pools.da
                &&& final(state).fee_pools.sequencer == old(state).fee_pools.sequencer
                &&& balance_of(old(state).accounts@, sender@) >= extra + gas_fee
                &&& nonce_of(final(state).accounts@, sender@) == nonce_of(
                    old(state).accounts@,
                    sender@,
                ) + 1
                &&& forall|a: Seq<u8>|
                    a != sender@ ==> nonce_of(final(state).accounts@, a) == nonce_of(
                        old(state).accounts@,
                        a,
                    ) && balance_of(final(state).accounts@, a) == balance_of(
                        old(state).accounts@,
                        a,
                    )
                &&& balance_of(final(state).accounts@, sender@) == balance_of(
                    old(state).accounts@,
                    sender@,
                ) - extra - gas_fee
                &&& final(state).validators == old(state).validators
                &&& final(state).delegations == old(state).delegations
                &&& final(state).domains == old(state).domains
                &&& final(state).da_commitments == old(state).da_commitments
                &&& final(state).domain_roots == old(state).domain_roots
                &&& final(state).proposals == old(state).proposals
                &&& final(state).privacy_pool == old(state).privacy_pool
                &&& final(state).governance_params == old(state).governance_params
                &&& final(state).total_supply == old(state).total_supply
                &&& final(state).last_reward_height == old(state).last_reward_height
                &&& final(state).pending_unbonds == old(state).pending_unbonds
            },
            Err(e) => {
                &&& *final(state) == *old(state)
                &&& (e == ExecError::InsufficientFunds || e == ExecError::Overflow)
                &&& (e == ExecError::InsufficientFunds ==> balance_of(
                    old(state).accounts@,
                    sender@,
                ) < extra + gas_fee)
                &&& (e == ExecError::Overflow ==> old(state).fee_pools.l1_gas + vshare_of(
                    gas_fee as int,
                    cfg.fee_split.l1_gas_validators_pct,
                ) > u128::MAX || old(state).fee_pools.treasury + (gas_fee - vshare_of(
                    gas_fee as int,
                    cfg.fee_split.l1_gas_validators_pct,
                )) > u128::MAX)
            },
        },
{
    let total = extra + gas_fee;
    let balance = match find_account(&state.accounts, sender) {
        Some(i) => {
            proof {
                crate::runtime::lemma_acct_ix_unique_pub(state.accounts@, sender@, i as int);
            }
            state.accounts[i].balance_x
        },
        None => 0,
    };
    if balance < total {
        return Err(ExecError::InsufficientFunds);
    }
    // pre-check the fee routing so nothing is mutated on failure
    let validator_share = mul_div_100(gas_fee, cfg.fee_split.l1_gas_validators_pct);
    let treasury_share = gas_fee - validator_share;
    if u128::MAX - validator_share < state.fee_pools.l1_gas {
        return Err(ExecError::Overflow);
    }
    if u128::MAX - treasury_share < state.fee_pools.treasury {
        return Err(ExecError::Overflow);
    }
    let ghost pre = *state;
    let i = find_or_create_account(state, sender);
    proof {
        assert(balance_of(state.accounts@, sender@) == balance);
        assert(state.accounts@[i as int].balance_x == balance);
        assert(nonce_of(state.accounts@, sender@) == state.accounts@[i as int].nonce);
    }
    debit_sender_bump_nonce(state, i, total);
    let routed = route_gas_fee(state, gas_fee, &cfg.fee_split);
    proof {
        assert(routed is Ok);
    }
    match routed {
        Ok(()) => Ok(()),
        Err(e) => {
            proof {
                assert(false);
            }
            Err(e)
        },
    }
}

/// Adds stake to the validator at an index.
fn add_validator_stake(state: &mut ChainState, i: usize, amount: u128)
    requires
        i < old(state).validators@.len(),
        old(state).validators@[i as int].stake + amount <= u128::MAX,
    ensures
        final(state).validators@.len() == old(state).validators@.len(),
        sum_stakes(final(state).validators@) == sum_stakes(old(state).validators@) + amount,
        final(state).validators@[i as int].stake == old(state).validators@[i as int].stake
            + amount,
        final(state).validators@[i as int].owner == old(state).validators@[i as int].owner,
        final(state).validators@[i as int].id == old(state).validators@[i as int].id,
        final(state).validators@[i as int].status is Active,
        forall|j: int|
            0 <= j < old(state).validators@.len() && j != i ==> final(state).validators@[j] == old(state).validators@[j],
        final(state).accounts == old(state).accounts,
        final(state).delegations == old(state).delegations,
        final(state).fee_pools == old(state).fee_pools,
        final(state).privacy_pool == old(state).privacy_pool,
        final(state).pending_unbonds == old(state).pending_unbonds,
        final(state).total_supply == old(state).total_supply,
        final(state).domains == old(state).domains,
        final(state).da_commitments == old(state).da_commitments,
        final(state).domain_roots == old(state).domain_roots,
        final(state).proposals == old(state).proposals,
        final(state).governance_params == old(state).governance_params,
        final(state).last_reward_height == old(state).last_reward_height,
{
    let ghost pre = state.validators@;
    let v = &mut state.validators[i];
    v.stake = v.stake + amount;
    v.status = ValidatorStatus::Active;
    proof {
        assert(state.validators@ =~= pre.update(i as int, state.validators@[i as int]));
        lemma_sum_stakes_update(pre, i as int, state.validators@[i as int]);
    }
}

/// Removes stake from the validator at an index; a drained validator exits.
fn remove_validator_stake(state: &mut ChainState, i: usize, amount: u128, exit_when_zero: bool)
    requires
        i < old(state).validators@.len(),
        old(state).validators@[i as int].stake >= amount,
    ensures
        final(state).validators@.len() == old(state).validators@.len(),
        sum_stakes(final(state).validators@) == sum_stakes(old(state).validators@) - amount,
        final(state).validators@[i as int].stake == old(state).validators@[i as int].stake
            - amount,
        final(state).validators@[i as int].owner == old(state).validators@[i as int].owner,
        final(state).validators@[i as int].id == old(state).validators@[i as int].id,
        exit_when_zero && old(state).validators@[i as int].stake == amount ==> final(state).validators@[i as int].status is Exited,
        !(exit_when_zero && old(state).validators@[i as int].stake == amount) ==> final(state).validators@[i as int].status == old(state).validators@[i as int].status,
        forall|j: int|
            0 <= j < old(state).validators@.len() && j != i ==> final(state).validators@[j] == old(state).validators@[j],
        final(state).accounts == old(state).accounts,
        final(state).delegations == old(state).delegations,
        final(state).fee_pools == old(state).fee_pools,
        final(state).privacy_pool == old(state).privacy_pool,
        final(state).pending_unbonds == old(state).pending_unbonds,
        final(state).total_supply == old(state).total_supply,
        final(state).domains == old(state).domains,
        final(state).da_commitments == old(state).da_commitments,
        final(state).domain_roots == old(state).domain_roots,
        final(state).proposals == old(state).proposals,
        final(state).governance_params == old(state).governance_params,
        final(state).last_reward_height == old(state).last_reward_height,
{
    let ghost pre = state.validators@;
    let v = &mut state.validators[i];
    v.stake = v.stake - amount;
    if v.stake == 0 && exit_when_zero {
        v.status = ValidatorStatus::Exited;
    }
    proof {
        assert(state.validators@ =~= pre.update(i as int, state.validators@[i as int]));
        lemma_sum_stakes_update(pre, i as int, state.validators@[i as int]);
    }
}

/// Enqueues an unbonding entry.
fn push_unbonding(state: &mut ChainState, owner: &Vec<u8>, validator_id: Option<u128>, amount: u128, release_height: u64)
    ensures
        sum_unbonds(final(state).pending_unbonds@) == sum_unbonds(old(state).pending_unbonds@)
            + amount,
        final(state).pending_unbonds@.len() == old(state).pending_unbonds@.len() + 1,
        final(state).pending_unbonds@.last().amount == amount,
        final(state).pending_unbonds@.last().release_height == release_height,
        final(state).pending_unbonds@.last().owner@ == owner@,
        final(state).pending_unbonds@.last().validator_id == validator_id,
        forall|j: int|
            0 <= j < old(state).pending_unbonds@.len() ==> final(state).pending_unbonds@[j] == old(state).pending_unbonds@[j],
        final(state).accounts == old(state).accounts,
        final(state).validators == old(state).validators,
        final(state).delegations == old(state).delegations,
        final(state).fee_pools == old(state).fee_pools,
        final(state).privacy_pool == old(state).privacy_pool,
        final(state).total_supply == old(state).total_supply,
        final(state).domains == old(state).domains,
        final(state).da_commitments == old(state).da_commitments,
        final(state).domain_roots == old(state).domain_roots,
        final(state).proposals == old(state).proposals,
        final(state).governance_params == old(state).governance_params,
        final(state).last_reward_height == old(state).last_reward_height,
{
    let mut o: Vec<u8> = Vec::new();
    copy_bytes(&mut o, owner);
    proof {
        assert(o@ =~= owner@);
    }
    let entry = Unbonding { owner: o, validator_id, amount, release_height };
    proof {
        lemma_sum_unbonds_push(state.pending_unbonds@, entry);
    }
    state.pending_unbonds.push(entry);
}

/// Recomputes a shielded pool's root: the sorted fold of the commitment
/// digests, independent of insertion order.
pub fn pool_root(commitments: &Vec<Vec<u8>>) -> (r: Vec<u8>)
    ensures
        r@ == spec_pool_root(views_of(commitments@)),
        r@.len() == 32,
{
    let n = commitments.len();
    let mut leaves: Vec<Vec<u8>> = Vec::new();
    let mut i: usize = 0;
    proof {
        assert(views_of(leaves@) =~= pool_leaves(views_of(commitments@)).take(0));
        assert(pool_leaves(views_of(commitments@)).take(0) =~= Seq::<Seq<u8>>::empty());
    }
    while i < n
        invariant
            i <= n,
            n == commitments@.len(),
            views_of(leaves@) == pool_leaves(views_of(commitments@)).take(i as int),
        decreases n - i,
    {
        let ghost pre = leaves@;
        let h = crate::crypto::blake3_hash(&commitments[i]);
        let ghost hv = h@;
        leaves.push(h);
        proof {
            assert(hv == pool_leaves(views_of(commitments@))[i as int]);
            assert(views_of(leaves@) =~= views_of(pre).push(hv));
            assert(pool_leaves(views_of(commitments@)).take(i as int + 1) =~= pool_leaves(
                views_of(commitments@),
            ).take(i as int).push(hv));
        }
        i += 1;
    }
    proof {
        assert(pool_leaves(views_of(commitments@)).take(n as int) =~= pool_leaves(
            views_of(commitments@),
        ));
    }
    fold_leaves(leaves)
}

/// The digest leaves of a pool's commitments.
pub open spec fn pool_leaves(commitments: Seq<Seq<u8>>) -> Seq<Seq<u8>> {
    commitments.map_values(|c: Seq<u8>| crate::crypto::blake3_of(c))
}

/// The root a pool with these commitments carries.
pub open spec fn spec_pool_root(commitments: Seq<Seq<u8>>) -> Seq<u8> {
    crate::root::spec_fold_leaves(pool_leaves(commitments))
}

// ---------------------------------------------------------------------------
// Transaction application.
// ---------------------------------------------------------------------------

/// The shared admission gate passed: signature, chain and nonce all match.
pub open spec fn spec_gate_ok(t: crate::tx::TxV, cfg: ExecutionConfig, s: ChainState) -> bool {
    &&& spec_tx_sig_ok(t)
    &&& t.chain_id == cfg.chain_id@
    &&& nonce_of(s.accounts@, spec_tx_sender(t)) == t.nonce
    &&& nonce_of(s.accounts@, spec_tx_sender(t)) < u64::MAX
}

/// Applies one transaction to the chain state. On success the sender's nonce
/// rises by exactly one, nobody else's nonce moves, and the supply measure
/// and the recorded total supply are both unchanged: no transaction can mint
/// or burn value. On failure the chain state is untouched and the error names
/// the first check that failed.
#[verifier::rlimit(100)]
#[verifier::spinoff_prover]
pub fn apply_tx<V: DomainVm>(
    cfg: &ExecutionConfig,
    state: &mut ChainState,
    domains: &mut DomainRuntime,
    vm: &V,
    tx: &Tx,
    current_height: u64,
    now_ms: u64,
) -> (r: Result<ExecutionOutcome, ExecError>)
    requires
        accts_unique(old(state).accounts@),
        config_wf(*cfg),
    ensures
        accts_unique(final(state).accounts@),
        match r {
            Ok(out) => {
                &&& spec_gate_ok(tx@, *cfg, *old(state))
                &&& nonce_of(final(state).accounts@, spec_tx_sender(tx@)) == tx.nonce + 1
                &&& forall|a: Seq<u8>|
                    a != spec_tx_sender(tx@) ==> nonce_of(final(state).accounts@, a) == nonce_of(
                        old(state).accounts@,
                        a,
                    )
                &&& supply_measure(*final(state)) == supply_measure(*old(state))
                &&& final(state).total_supply == old(state).total_supply
                &&& (spec_gas_fee(tx@, cfg.base_fee) matches Some(fee) && spec_payload_effect(
                    *cfg,
                    *old(state),
                    *final(state),
                    tx@,
                    spec_tx_sender(tx@),
                    fee,
                    current_height,
                ))
                &&& (!(tx.payload@ is DomainExecute) ==> out.gas_used == crate::tx::spec_gas_cost(
                    tx.payload@,
                ))
                &&& (tx.payload@ matches crate::tx::TxPayloadV::PrivacyWithdraw {
                    nullifier,
                    ..
                } ==> contains_bytes(final(state).privacy_pool.nullifiers@, nullifier)
                    && !contains_bytes(old(state).privacy_pool.nullifiers@, nullifier))
            },
            Err(e) => {
                &&& *final(state) == *old(state)
                &&& (!spec_tx_sig_ok(tx@) ==> e == ExecError::InvalidSignature)
                &&& (spec_tx_sig_ok(tx@) && tx.chain_id@ != cfg.chain_id@ ==> e
                    == ExecError::WrongChainId)
                &&& (spec_tx_sig_ok(tx@) && tx.chain_id@ == cfg.chain_id@ && nonce_of(
                    old(state).accounts@,
                    spec_tx_sender(tx@),
                ) != tx.nonce ==> e == ExecError::BadNonce)
            },
        },
        (spec_gate_ok(tx@, *cfg, *old(state)) && supply_ok(*old(state)) && (spec_gas_fee(
            tx@,
            cfg.base_fee,
        ) matches Some(fee) && spec_payload_admissible(
            *cfg,
            *old(state),
            tx@,
            spec_tx_sender(tx@),
            fee,
        ))) ==> r is Ok,
{
    let sender = match verify_tx_signature(tx) {
        Ok(s) => s,
        Err(e) => {
            return Err(e);
        },
    };
    if !bytes_eq(&tx.chain_id, &cfg.chain_id) {
        return Err(ExecError::WrongChainId);
    }
    let sender_nonce = match find_account(&state.accounts, &sender) {
        Some(i) => {
            proof {
                crate::runtime::lemma_acct_ix_unique_pub(state.accounts@, sender@, i as int);
            }
            state.accounts[i].nonce
        },
        None => 0,
    };
    if sender_nonce != tx.nonce {
        return Err(ExecError::BadNonce);
    }
    if sender_nonce == u64::MAX {
        return Err(ExecError::Overflow);
    }
    let gas_used = gas_cost(&tx.payload);
    let gas_price = match effective_gas_price(tx, cfg.base_fee) {
        Ok(p) => p,
        Err(e) => {
            return Err(e);
        },
    };
    if gas_price != 0 && gas_used as u128 > u128::MAX / gas_price {
        return Err(ExecError::Overflow);
    }
    proof {
        if gas_price != 0 {
            assert((gas_used as int) * (gas_price as int) <= u128::MAX) by (nonlinear_arith)
                requires
                    gas_used as int <= (u128::MAX as int) / (gas_price as int),
                    gas_price > 0,
            ;
        }
    }
    let gas_fee: u128 = if gas_price == 0 {
        0
    } else {
        (gas_used as u128) * gas_price
    };
    proof {
        assert(spec_gas_fee(tx@, cfg.base_fee) == Some(gas_fee as int));
    }
    let r = match &tx.payload {
        TxPayload::Transfer { to, amount } => apply_transfer(cfg, state, domains, vm, tx, &sender, gas_used, gas_fee, current_height, now_ms),
        TxPayload::Stake { amount } => apply_stake(cfg, state, domains, vm, tx, &sender, gas_used, gas_fee, current_height, now_ms),
        TxPayload::Unstake { amount } => apply_unstake(cfg, state, domains, vm, tx, &sender, gas_used, gas_fee, current_height, now_ms),
        TxPayload::Delegate { validator, amount } => apply_delegate(cfg, state, domains, vm, tx, &sender, gas_used, gas_fee, current_height, now_ms),
        TxPayload::Undelegate { validator, amount } => apply_undelegate(cfg, state, domains, vm, tx, &sender, gas_used, gas_fee, current_height, now_ms),
        TxPayload::DomainExecute(call) => apply_domainexecute(cfg, state, domains, vm, tx, &sender, gas_used, gas_fee, current_height, now_ms),
        TxPayload::CrossDomainSend { from_domain, to_domain, payload, fee } => apply_crossdomainsend(cfg, state, domains, vm, tx, &sender, gas_used, gas_fee, current_height, now_ms),
        TxPayload::CrossDomainRelay { message } => apply_crossdomainrelay(cfg, state, domains, vm, tx, &sender, gas_used, gas_fee, current_height, now_ms),
        TxPayload::FraudChallenge { domain_id, claimed_root, witness: _ } => apply_fraudchallenge(cfg, state, domains, vm, tx, &sender, gas_used, gas_fee, current_height, now_ms),
        TxPayload::DomainCreate { domain_id, params } => apply_domaincreate(cfg, state, domains, vm, tx, &sender, gas_used, gas_fee, current_height, now_ms),
        TxPayload::DomainConfigUpdate { domain_id, params } => apply_domainconfigupdate(cfg, state, domains, vm, tx, &sender, gas_used, gas_fee, current_height, now_ms),
        TxPayload::RollupBatchCommit { domain_id, blob_id } => apply_rollupbatchcommit(cfg, state, domains, vm, tx, &sender, gas_used, gas_fee, current_height, now_ms),
        TxPayload::RollupBridgeDeposit { domain_id: _, amount } => apply_rollupbridgedeposit(cfg, state, domains, vm, tx, &sender, gas_used, gas_fee, current_height, now_ms),
        TxPayload::RollupBridgeWithdraw { domain_id: _, amount } => apply_rollupbridgewithdraw(cfg, state, domains, vm, tx, &sender, gas_used, gas_fee, current_height, now_ms),
        TxPayload::GovernanceProposal { payload, kind } => apply_governanceproposal(cfg, state, domains, vm, tx, &sender, gas_used, gas_fee, current_height, now_ms),
        TxPayload::GovernanceVote { proposal_id, support } => apply_governancevote(cfg, state, domains, vm, tx, &sender, gas_used, gas_fee, current_height, now_ms),
        TxPayload::GovernanceBridgeApprove { proposal_id } => apply_governancebridgeapprove(cfg, state, domains, vm, tx, &sender, gas_used, gas_fee, current_height, now_ms),
        TxPayload::GovernanceExecute { proposal_id } => apply_governanceexecute(cfg, state, domains, vm, tx, &sender, gas_used, gas_fee, current_height, now_ms),
        TxPayload::Slash { validator, penalty_bps, reason: _ } => apply_slash(cfg, state, domains, vm, tx, &sender, gas_used, gas_fee, current_height, now_ms),
        TxPayload::PrivacyDeposit { commitment, amount } => apply_privacydeposit(cfg, state, domains, vm, tx, &sender, gas_used, gas_fee, current_height, now_ms),
        TxPayload::PrivacyWithdraw {
            nullifier,
            recipient,
            amount,
            merkle_root,
            commitment,
            proof: artifact,
        } => apply_privacywithdraw(cfg, state, domains, vm, tx, &sender, gas_used, gas_fee, current_height, now_ms),
        TxPayload::SystemUpgrade { module, version } => apply_systemupgrade(cfg, state, domains, vm, tx, &sender, gas_used, gas_fee, current_height, now_ms),
    };
    proof {
        if r is Ok && tx.payload@ is PrivacyWithdraw {
            reveal(spec_payload_effect);
            let n = tx@.payload->PrivacyWithdraw_nullifier;
            assert(views_of(state.privacy_pool.nullifiers@) == views_of(
                old(state).privacy_pool.nullifiers@,
            ).push(n));
            let last = state.privacy_pool.nullifiers@.len() - 1;
            assert(views_of(state.privacy_pool.nullifiers@)[last] == n);
            assert(state.privacy_pool.nullifiers@[last]@ == n);
            assert(contains_bytes(state.privacy_pool.nullifiers@, n));
        }
    }
    r
}

#[verifier::rlimit(100)]
#[verifier::spinoff_prover]
fn apply_transfer<V: DomainVm>(
    cfg: &ExecutionConfig,
    state: &mut ChainState,
    domains: &mut DomainRuntime,
    vm: &V,
    tx: &Tx,
    sender: &Vec<u8>,
    gas_used: u64,
    gas_fee: u128,
    current_height: u64,
    now_ms: u64,
) -> (r: Result<ExecutionOutcome, ExecError>)
    requires
        accts_unique(old(state).accounts@),
        config_wf(*cfg),
        spec_gate_ok(tx@, *cfg, *old(state)),
        sender@ == spec_tx_sender(tx@),
        spec_gas_fee(tx@, cfg.base_fee) == Some(gas_fee as int),
        gas_used == crate::tx::spec_gas_cost(tx.payload@),
        tx.payload@ is Transfer,
    ensures
        accts_unique(final(state).accounts@),
        match r {
            Ok(out) => {
                &&& nonce_of(final(state).accounts@, spec_tx_sender(tx@)) == tx.nonce + 1
                &&& (forall|a: Seq<u8>|
                    a != spec_tx_sender(tx@) ==> nonce_of(final(state).accounts@, a) == nonce_of(
                        old(state).accounts@,
                        a,
                    ))
                &&& supply_measure(*final(state)) == supply_measure(*old(state))
                &&& final(state).total_supply == old(state).total_supply
                &&& spec_payload_effect(
                    *cfg,
                    *old(state),
                    *final(state),
                    tx@,
                    sender@,
                    gas_fee as int,
                    current_height,
                )
                &&& out.gas_used == gas_used
            },
            Err(e) => *final(state) == *old(state) && !(supply_ok(*old(state))
                && spec_payload_admissible(*cfg, *old(state), tx@, sender@, gas_fee as int)),
        },
{
    proof {
        reveal(spec_payload_effect);
        reveal(spec_payload_admissible);
        if supply_ok(*old(state)) && spec_payload_admissible(
            *cfg,
            *old(state),
            tx@,
            sender@,
            gas_fee as int,
        ) {
            lemma_supply_components(*old(state));
            assert((gas_fee as int) * (cfg.fee_split.l1_gas_validators_pct as int) / 100 >= 0
                && (gas_fee as int) * (cfg.fee_split.l1_gas_validators_pct as int) / 100
                <= gas_fee as int) by (nonlinear_arith)
                requires
                    cfg.fee_split.l1_gas_validators_pct <= 100,
                    gas_fee >= 0,
            ;
        }
    }
    match &tx.payload {
        TxPayload::Transfer { to, amount } => {
            if u128::MAX - gas_fee < *amount {
                return Err(ExecError::Overflow);
            }
            let base = if bytes_eq(to, sender) {
                let b = match find_account(&state.accounts, sender) {
                    Some(i) => {
                        proof {
                            crate::runtime::lemma_acct_ix_unique_pub(
                                state.accounts@,
                                sender@,
                                i as int,
                            );
                        }
                        state.accounts[i].balance_x
                    },
                    None => 0,
                };
                if b < *amount + gas_fee {
                    return Err(ExecError::InsufficientFunds);
                }
                b - (*amount + gas_fee)
            } else {
                match find_account(&state.accounts, to) {
                    Some(i) => {
                        proof {
                            crate::runtime::lemma_acct_ix_unique_pub(
                                state.accounts@,
                                to@,
                                i as int,
                            );
                        }
                        state.accounts[i].balance_x
                    },
                    None => 0,
                }
            };
            if u128::MAX - *amount < base {
                proof {
                    if supply_ok(*old(state)) && spec_payload_admissible(
                        *cfg,
                        *old(state),
                        tx@,
                        sender@,
                        gas_fee as int,
                    ) {
                        reveal(spec_payload_admissible);
                        lemma_supply_components(*old(state));
                        if to@ == sender@ {
                            assert(base == balance_of(old(state).accounts@, sender@) - (*amount
                                + gas_fee));
                        } else {
                            assert(base == balance_of(old(state).accounts@, to@));
                            assert(balance_of(old(state).accounts@, to@) + balance_of(
                                old(state).accounts@,
                                sender@,
                            ) <= sum_balances(old(state).accounts@));
                        }
                        assert(false);
                    }
                }
                return Err(ExecError::Overflow);
            }
            charge_sender(cfg, state, sender, *amount, gas_fee)?;
            credit_account(state, to, *amount);
            proof {
                reveal(spec_payload_effect);
                assert(spec_payload_effect(
                    *cfg,
                    *old(state),
                    *state,
                    tx@,
                    sender@,
                    gas_fee as int,
                    current_height,
                ));
            }
            Ok(ExecutionOutcome::success(gas_used, vec![event_bytes(1)]))
        },
        _ => {
            proof {
                assert(false);
            }
            Err(ExecError::Overflow)
        },
    }
}

#[verifier::rlimit(100)]
#[verifier::spinoff_prover]
fn apply_stake<V: DomainVm>(
    cfg: &ExecutionConfig,
    state: &mut ChainState,
    domains: &mut DomainRuntime,
    vm: &V,
    tx: &Tx,
    sender: &Vec<u8>,
    gas_used: u64,
    gas_fee: u128,
    current_height: u64,
    now_ms: u64,
) -> (r: Result<ExecutionOutcome, ExecError>)
    requires
        accts_unique(old(state).accounts@),
        config_wf(*cfg),
        spec_gate_ok(tx@, *cfg, *old(state)),
        sender@ == spec_tx_sender(tx@),
        spec_gas_fee(tx@, cfg.base_fee) == Some(gas_fee as int),
        gas_used == crate::tx::spec_gas_cost(tx.payload@),
        tx.payload@ is Stake,
    ensures
        accts_unique(final(state).accounts@),
        match r {
            Ok(out) => {
                &&& nonce_of(final(state).accounts@, spec_tx_sender(tx@)) == tx.nonce + 1
                &&& (forall|a: Seq<u8>|
                    a != spec_tx_sender(tx@) ==> nonce_of(final(state).accounts@, a) == nonce_of(
                        old(state).accounts@,
                        a,
                    ))
                &&& supply_measure(*final(state)) == supply_measure(*old(state))
                &&& final(state).total_supply == old(state).total_supply
                &&& spec_payload_effect(
                    *cfg,
                    *old(state),
                    *final(state),
                    tx@,
                    sender@,
                    gas_fee as int,
                    current_height,
                )
                &&& out.gas_used == gas_used
            },
            Err(e) => *final(state) == *old(state) && !(supply_ok(*old(state))
                && spec_payload_admissible(*cfg, *old(state), tx@, sender@, gas_fee as int)),
        },
{
    proof {
        reveal(spec_payload_effect);
        reveal(spec_payload_admissible);
        if supply_ok(*old(state)) && spec_payload_admissible(
            *cfg,
            *old(state),
            tx@,
            sender@,
            gas_fee as int,
        ) {
            lemma_supply_components(*old(state));
            assert((gas_fee as int) * (cfg.fee_split.l1_gas_validators_pct as int) / 100 >= 0
                && (gas_fee as int) * (cfg.fee_split.l1_gas_validators_pct as int) / 100
                <= gas_fee as int) by (nonlinear_arith)
                requires
                    cfg.fee_split.l1_gas_validators_pct <= 100,
                    gas_fee >= 0,
            ;
        }
    }
    match &tx.payload {
        TxPayload::Stake { amount } => {
            if u128::MAX - gas_fee < *amount {
                return Err(ExecError::Overflow);
            }
            let existing = find_validator_by_owner(&state.validators, sender);
            match existing {
                Some(vi) => {
                    if u128::MAX - *amount < state.validators[vi].stake {
                        return Err(ExecError::Overflow);
                    }
                    charge_sender(cfg, state, sender, *amount, gas_fee)?;
                    add_validator_stake(state, vi, *amount);
                    proof {
                        assert(state.validators@ =~= old(state).validators@.update(
                            vi as int,
                            state.validators@[vi as int],
                        ));
                    }
                },
                None => {
                    charge_sender(cfg, state, sender, *amount, gas_fee)?;
                    let id = uuid_v5_from_name(&tx.public_key);
                    let mut owner: Vec<u8> = Vec::new();
                    copy_bytes(&mut owner, sender);
                    let mut pk: Vec<u8> = Vec::new();
                    copy_bytes(&mut pk, &tx.public_key);
                    let v = Validator {
                        owner,
                        id,
                        pubkey: pk,
                        stake: *amount,
                        status: ValidatorStatus::Active,
                        commission_rate: 0,
                    };
                    proof {
                        lemma_sum_stakes_push(state.validators@, v);
                    }
                    state.validators.push(v);
                    proof {
                        assert(state.validators@ =~= old(state).validators@.push(
                            state.validators@.last(),
                        ));
                    }
                },
            }
            proof {
                reveal(spec_payload_effect);
                assert(spec_payload_effect(
                    *cfg,
                    *old(state),
                    *state,
                    tx@,
                    sender@,
                    gas_fee as int,
                    current_height,
                ));
            }
            Ok(ExecutionOutcome::success(gas_used, vec![event_bytes(2)]))
        },
        _ => {
            proof {
                assert(false);
            }
            Err(ExecError::Overflow)
        },
    }
}

#[verifier::rlimit(100)]
#[verifier::spinoff_prover]
fn apply_unstake<V: DomainVm>(
    cfg: &ExecutionConfig,
    state: &mut ChainState,
    domains: &mut DomainRuntime,
    vm: &V,
    tx: &Tx,
    sender: &Vec<u8>,
    gas_used: u64,
    gas_fee: u128,
    current_height: u64,
    now_ms: u64,
) -> (r: Result<ExecutionOutcome, ExecError>)
    requires
        accts_unique(old(state).accounts@),
        config_wf(*cfg),
        spec_gate_ok(tx@, *cfg, *old(state)),
        sender@ == spec_tx_sender(tx@),
        spec_gas_fee(tx@, cfg.base_fee) == Some(gas_fee as int),
        gas_used == crate::tx::spec_gas_cost(tx.payload@),
        tx.payload@ is Unstake,
    ensures
        accts_unique(final(state).accounts@),
        match r {
            Ok(out) => {
                &&& nonce_of(final(state).accounts@, spec_tx_sender(tx@)) == tx.nonce + 1
                &&& (forall|a: Seq<u8>|
                    a != spec_tx_sender(tx@) ==> nonce_of(final(state).accounts@, a) == nonce_of(
                        old(state).accounts@,
                        a,
                    ))
                &&& supply_measure(*final(state)) == supply_measure(*old(state))
                &&& final(state).total_supply == old(state).total_supply
                &&& spec_payload_effect(
                    *cfg,
                    *old(state),
                    *final(state),
                    tx@,
                    sender@,
                    gas_fee as int,
                    current_height,
                )
                &&& out.gas_used == gas_used
            },
            Err(e) => *final(state) == *old(state) && !(supply_ok(*old(state))
                && spec_payload_admissible(*cfg, *old(state), tx@, sender@, gas_fee as int)),
        },
{
    proof {
        reveal(spec_payload_effect);
        reveal(spec_payload_admissible);
        if supply_ok(*old(state)) && spec_payload_admissible(
            *cfg,
            *old(state),
            tx@,
            sender@,
            gas_fee as int,
        ) {
            lemma_supply_components(*old(state));
            assert((gas_fee as int) * (cfg.fee_split.l1_gas_validators_pct as int) / 100 >= 0
                && (gas_fee as int) * (cfg.fee_split.l1_gas_validators_pct as int) / 100
                <= gas_fee as int) by (nonlinear_arith)
                requires
                    cfg.fee_split.l1_gas_validators_pct <= 100,
                    gas_fee >= 0,
            ;
        }
    }
    match &tx.payload {
        TxPayload::Unstake { amount } => {
            let Some(vi) = find_validator_by_owner(&state.validators, sender) else {
                return Err(ExecError::UnknownValidator);
            };
            if state.validators[vi].stake < *amount {
                return Err(ExecError::InsufficientStake);
            }
            let vid = state.validators[vi].id;
            charge_sender(cfg, state, sender, 0, gas_fee)?;
            remove_validator_stake(state, vi, *amount, true);
            let release_height = if u64::MAX - cfg.unbonding_delay_blocks < current_height {
                u64::MAX
            } else {
                current_height + cfg.unbonding_delay_blocks
            };
            push_unbonding(state, sender, Some(vid), *amount, release_height);
            proof {
                assert(state.validators@ =~= old(state).validators@.update(
                    vi as int,
                    state.validators@[vi as int],
                ));
                assert(state.pending_unbonds@ =~= old(state).pending_unbonds@.push(
                    state.pending_unbonds@.last(),
                ));
                let i = vi as int;
                let amt = tx@.payload->Unstake_amount;
                assert(0 <= i < old(state).validators@.len());
                assert(old(state).validators@[i].owner@ == sender@);
                assert(forall|j: int| 0 <= j < i ==> old(state).validators@[j].owner@ != sender@);
                assert(state.validators@ == old(state).validators@.update(
                    i,
                    state.validators@[i],
                ));
                assert(state.validators@[i].stake == old(state).validators@[i].stake - amt);
                assert(old(state).validators@[i].stake == amt ==> state.validators@[i].status
                    is Exited);
                assert(state.pending_unbonds@ == old(state).pending_unbonds@.push(
                    state.pending_unbonds@.last(),
                ));
                assert(state.pending_unbonds@.last().owner@ == sender@);
                assert(state.pending_unbonds@.last().amount == amt);
                assert(state.pending_unbonds@.last().validator_id == Some(
                    old(state).validators@[i].id,
                ));
                assert(state.pending_unbonds@.last().release_height == (if u64::MAX
                    - cfg.unbonding_delay_blocks < current_height {
                    u64::MAX as int
                } else {
                    current_height + cfg.unbonding_delay_blocks
                }));
                reveal(spec_payload_effect);
                assert(spec_payload_effect(
                    *cfg,
                    *old(state),
                    *state,
                    tx@,
                    sender@,
                    gas_fee as int,
                    current_height,
                ));
            }
            Ok(ExecutionOutcome::success(gas_used, vec![event_bytes(3)]))
        },
        _ => {
            proof {
                assert(false);
            }
            Err(ExecError::Overflow)
        },
    }
}

#[verifier::rlimit(100)]
#[verifier::spinoff_prover]
fn apply_delegate<V: DomainVm>(
    cfg: &ExecutionConfig,
    state: &mut ChainState,
    domains: &mut DomainRuntime,
    vm: &V,
    tx: &Tx,
    sender: &Vec<u8>,
    gas_used: u64,
    gas_fee: u128,
    current_height: u64,
    now_ms: u64,
) -> (r: Result<ExecutionOutcome, ExecError>)
    requires
        accts_unique(old(state).accounts@),
        config_wf(*cfg),
        spec_gate_ok(tx@, *cfg, *old(state)),
        sender@ == spec_tx_sender(tx@),
        spec_gas_fee(tx@, cfg.base_fee) == Some(gas_fee as int),
        gas_used == crate::tx::spec_gas_cost(tx.payload@),
        tx.payload@ is Delegate,
    ensures
        accts_unique(final(state).accounts@),
        match r {
            Ok(out) => {
                &&& nonce_of(final(state).accounts@, spec_tx_sender(tx@)) == tx.nonce + 1
                &&& (forall|a: Seq<u8>|
                    a != spec_tx_sender(tx@) ==> nonce_of(final(state).accounts@, a) == nonce_of(
                        old(state).accounts@,
                        a,
                    ))
                &&& supply_measure(*final(state)) == supply_measure(*old(state))
                &&& final(state).total_supply == old(state).total_supply
                &&& spec_payload_effect(
                    *cfg,
                    *old(state),
                    *final(state),
                    tx@,
                    sender@,
                    gas_fee as int,
                    current_height,
                )
                &&& out.gas_used == gas_used
            },
            Err(e) => *final(state) == *old(state) && !(supply_ok(*old(state))
                && spec_payload_admissible(*cfg, *old(state), tx@, sender@, gas_fee as int)),
        },
{
    proof {
        reveal(spec_payload_effect);
        reveal(spec_payload_admissible);
        if supply_ok(*old(state)) && spec_payload_admissible(
            *cfg,
            *old(state),
            tx@,
            sender@,
            gas_fee as int,
        ) {
            lemma_supply_components(*old(state));
            assert((gas_fee as int) * (cfg.fee_split.l1_gas_validators_pct as int) / 100 >= 0
                && (gas_fee as int) * (cfg.fee_split.l1_gas_validators_pct as int) / 100
                <= gas_fee as int) by (nonlinear_arith)
                requires
                    cfg.fee_split.l1_gas_validators_pct <= 100,
                    gas_fee >= 0,
            ;
        }
    }
    match &tx.payload {
        TxPayload::Delegate { validator, amount } => {
            if u128::MAX - gas_fee < *amount {
                return Err(ExecError::Overflow);
            }
            let Some(vi) = find_validator_by_owner(&state.validators, validator) else {
                return Err(ExecError::UnknownValidator);
            };
            if u128::MAX - *amount < state.validators[vi].stake {
                return Err(ExecError::Overflow);
            }
            let vid = state.validators[vi].id;
            charge_sender(cfg, state, sender, *amount, gas_fee)?;
            add_validator_stake(state, vi, *amount);
            let mut delegator: Vec<u8> = Vec::new();
            copy_bytes(&mut delegator, sender);
            state.delegations.push(Delegation { delegator, validator_id: vid, stake: *amount });
            proof {
                assert(state.validators@ =~= old(state).validators@.update(
                    vi as int,
                    state.validators@[vi as int],
                ));
                assert(state.delegations@ =~= old(state).delegations@.push(
                    state.delegations@.last(),
                ));
                reveal(spec_payload_effect);
                assert(spec_payload_effect(
                    *cfg,
                    *old(state),
                    *state,
                    tx@,
                    sender@,
                    gas_fee as int,
                    current_height,
                ));
            }
            Ok(ExecutionOutcome::success(gas_used, vec![event_bytes(4)]))
        },
        _ => {
            proof {
                assert(false);
            }
            Err(ExecError::Overflow)
        },
    }
}

#[verifier::rlimit(100)]
#[verifier::spinoff_prover]
fn apply_undelegate<V: DomainVm>(
    cfg: &ExecutionConfig,
    state: &mut ChainState,
    domains: &mut DomainRuntime,
    vm: &V,
    tx: &Tx,
    sender: &Vec<u8>,
    gas_used: u64,
    gas_fee: u128,
    current_height: u64,
    now_ms: u64,
) -> (r: Result<ExecutionOutcome, ExecError>)
    requires
        accts_unique(old(state).accounts@),
        config_wf(*cfg),
        spec_gate_ok(tx@, *cfg, *old(state)),
        sender@ == spec_tx_sender(tx@),
        spec_gas_fee(tx@, cfg.base_fee) == Some(gas_fee as int),
        gas_used == crate::tx::spec_gas_cost(tx.payload@),
        tx.payload@ is Undelegate,
    ensures
        accts_unique(final(state).accounts@),
        match r {
            Ok(out) => {
                &&& nonce_of(final(state).accounts@, spec_tx_sender(tx@)) == tx.nonce + 1
                &&& (forall|a: Seq<u8>|
                    a != spec_tx_sender(tx@) ==> nonce_of(final(state).accounts@, a) == nonce_of(
                        old(state).accounts@,
                        a,
                    ))
                &&& supply_measure(*final(state)) == supply_measure(*old(state))
                &&& final(state).total_supply == old(state).total_supply
                &&& spec_payload_effect(
                    *cfg,
                    *old(state),
                    *final(state),
                    tx@,
                    sender@,
                    gas_fee as int,
                    current_height,
                )
                &&& out.gas_used == gas_used
            },
            Err(e) => *final(state) == *old(state) && !(supply_ok(*old(state))
                && spec_payload_admissible(*cfg, *old(state), tx@, sender@, gas_fee as int)),
        },
{
    proof {
        reveal(spec_payload_effect);
        reveal(spec_payload_admissible);
        if supply_ok(*old(state)) && spec_payload_admissible(
            *cfg,
            *old(state),
            tx@,
            sender@,
            gas_fee as int,
        ) {
            lemma_supply_components(*old(state));
            assert((gas_fee as int) * (cfg.fee_split.l1_gas_validators_pct as int) / 100 >= 0
                && (gas_fee as int) * (cfg.fee_split.l1_gas_validators_pct as int) / 100
                <= gas_fee as int) by (nonlinear_arith)
                requires
                    cfg.fee_split.l1_gas_validators_pct <= 100,
                    gas_fee >= 0,
            ;
        }
    }
    match &tx.payload {
        TxPayload::Undelegate { validator, amount } => {
            let Some(vi) = find_validator_by_owner(&state.validators, validator) else {
                return Err(ExecError::UnknownValidator);
            };
            let vid = state.validators[vi].id;
            let Some(di) = find_delegation(&state.delegations, sender, vid) else {
                return Err(ExecError::DelegationNotFound);
            };
            if state.delegations[di].stake < *amount {
                return Err(ExecError::InsufficientStake);
            }
            if state.validators[vi].stake < *amount {
                return Err(ExecError::InsufficientStake);
            }
            charge_sender(cfg, state, sender, 0, gas_fee)?;
            let d = &mut state.delegations[di];
            d.stake = d.stake - *amount;
            let drained = state.delegations[di].stake == 0;
            if drained {
                state.delegations.remove(di);
            }
            remove_validator_stake(state, vi, *amount, false);
            let release_height = if u64::MAX - cfg.unbonding_delay_blocks < current_height {
                u64::MAX
            } else {
                current_height + cfg.unbonding_delay_blocks
            };
            push_unbonding(state, sender, Some(vid), *amount, release_height);
            proof {
                assert(state.validators@ =~= old(state).validators@.update(
                    vi as int,
                    state.validators@[vi as int],
                ));
                assert(state.pending_unbonds@ =~= old(state).pending_unbonds@.push(
                    state.pending_unbonds@.last(),
                ));
                reveal(spec_payload_effect);
                assert(spec_payload_effect(
                    *cfg,
                    *old(state),
                    *state,
                    tx@,
                    sender@,
                    gas_fee as int,
                    current_height,
                ));
            }
            Ok(ExecutionOutcome::success(gas_used, vec![event_bytes(5)]))
        },
        _ => {
            proof {
                assert(false);
            }
            Err(ExecError::Overflow)
        },
    }
}

#[verifier::rlimit(100)]
#[verifier::spinoff_prover]
fn apply_domainexecute<V: DomainVm>(
    cfg: &ExecutionConfig,
    state: &mut ChainState,
    domains: &mut DomainRuntime,
    vm: &V,
    tx: &Tx,
    sender: &Vec<u8>,
    gas_used: u64,
    gas_fee: u128,
    current_height: u64,
    now_ms: u64,
) -> (r: Result<ExecutionOutcome, ExecError>)
    requires
        accts_unique(old(state).accounts@),
        config_wf(*cfg),
        spec_gate_ok(tx@, *cfg, *old(state)),
        sender@ == spec_tx_sender(tx@),
        spec_gas_fee(tx@, cfg.base_fee) == Some(gas_fee as int),
        gas_used == crate::tx::spec_gas_cost(tx.payload@),
        tx.payload@ is DomainExecute,
    ensures
        accts_unique(final(state).accounts@),
        match r {
            Ok(out) => {
                &&& nonce_of(final(state).accounts@, spec_tx_sender(tx@)) == tx.nonce + 1
                &&& (forall|a: Seq<u8>|
                    a != spec_tx_sender(tx@) ==> nonce_of(final(state).accounts@, a) == nonce_of(
                        old(state).accounts@,
                        a,
                    ))
                &&& supply_measure(*final(state)) == supply_measure(*old(state))
                &&& final(state).total_supply == old(state).total_supply
                &&& spec_payload_effect(
                    *cfg,
                    *old(state),
                    *final(state),
                    tx@,
                    sender@,
                    gas_fee as int,
                    current_height,
                )
                &&& true
            },
            Err(e) => *final(state) == *old(state) && !(supply_ok(*old(state))
                && spec_payload_admissible(*cfg, *old(state), tx@, sender@, gas_fee as int)),
        },
{
    proof {
        reveal(spec_payload_effect);
        reveal(spec_payload_admissible);
        if supply_ok(*old(state)) && spec_payload_admissible(
            *cfg,
            *old(state),
            tx@,
            sender@,
            gas_fee as int,
        ) {
            lemma_supply_components(*old(state));
            assert((gas_fee as int) * (cfg.fee_split.l1_gas_validators_pct as int) / 100 >= 0
                && (gas_fee as int) * (cfg.fee_split.l1_gas_validators_pct as int) / 100
                <= gas_fee as int) by (nonlinear_arith)
                requires
                    cfg.fee_split.l1_gas_validators_pct <= 100,
                    gas_fee >= 0,
            ;
        }
    }
    match &tx.payload {
        TxPayload::DomainExecute(call) => {
            if !has_domain_entry(&state.domains, call.domain_id) {
                return Err(ExecError::UnknownDomain);
            }
            let outcome = domains.execute(vm, call, &cfg.chain_id, current_height)?;
            charge_sender(cfg, state, sender, 0, gas_fee)?;
            upsert_domain_root(state, call.domain_id, &outcome.state_root, current_height);
            Ok(ExecutionOutcome::success(outcome.gas_used, vec![event_bytes(6)]))
        },
        _ => {
            proof {
                assert(false);
            }
            Err(ExecError::Overflow)
        },
    }
}

#[verifier::rlimit(100)]
#[verifier::spinoff_prover]
fn apply_crossdomainsend<V: DomainVm>(
    cfg: &ExecutionConfig,
    state: &mut ChainState,
    domains: &mut DomainRuntime,
    vm: &V,
    tx: &Tx,
    sender: &Vec<u8>,
    gas_used: u64,
    gas_fee: u128,
    current_height: u64,
    now_ms: u64,
) -> (r: Result<ExecutionOutcome, ExecError>)
    requires
        accts_unique(old(state).accounts@),
        config_wf(*cfg),
        spec_gate_ok(tx@, *cfg, *old(state)),
        sender@ == spec_tx_sender(tx@),
        spec_gas_fee(tx@, cfg.base_fee) == Some(gas_fee as int),
        gas_used == crate::tx::spec_gas_cost(tx.payload@),
        tx.payload@ is CrossDomainSend,
    ensures
        accts_unique(final(state).accounts@),
        match r {
            Ok(out) => {
                &&& nonce_of(final(state).accounts@, spec_tx_sender(tx@)) == tx.nonce + 1
                &&& (forall|a: Seq<u8>|
                    a != spec_tx_sender(tx@) ==> nonce_of(final(state).accounts@, a) == nonce_of(
                        old(state).accounts@,
                        a,
                    ))
                &&& supply_measure(*final(state)) == supply_measure(*old(state))
                &&& final(state).total_supply == old(state).total_supply
                &&& spec_payload_effect(
                    *cfg,
                    *old(state),
                    *final(state),
                    tx@,
                    sender@,
                    gas_fee as int,
                    current_height,
                )
                &&& out.gas_used == gas_used
            },
            Err(e) => *final(state) == *old(state) && !(supply_ok(*old(state))
                && spec_payload_admissible(*cfg, *old(state), tx@, sender@, gas_fee as int)),
        },
{
    proof {
        reveal(spec_payload_effect);
        reveal(spec_payload_admissible);
        if supply_ok(*old(state)) && spec_payload_admissible(
            *cfg,
            *old(state),
            tx@,
            sender@,
            gas_fee as int,
        ) {
            lemma_supply_components(*old(state));
            assert((gas_fee as int) * (cfg.fee_split.l1_gas_validators_pct as int) / 100 >= 0
                && (gas_fee as int) * (cfg.fee_split.l1_gas_validators_pct as int) / 100
                <= gas_fee as int) by (nonlinear_arith)
                requires
                    cfg.fee_split.l1_gas_validators_pct <= 100,
                    gas_fee >= 0,
            ;
        }
    }
    match &tx.payload {
        TxPayload::CrossDomainSend { from_domain, to_domain, payload, fee } => {
            if u128::MAX - gas_fee < *fee {
                return Err(ExecError::Overflow);
            }
            if !has_domain_entry(&state.domains, *from_domain) {
                return Err(ExecError::UnknownDomain);
            }
            if !has_domain_entry(&state.domains, *to_domain) {
                return Err(ExecError::UnknownDomain);
            }
            // the cross-domain fee is burned into the treasury pool
            let vshare = mul_div_100(gas_fee, cfg.fee_split.l1_gas_validators_pct);
            let tshare = gas_fee - vshare;
            if u128::MAX - tshare < state.fee_pools.treasury {
                return Err(ExecError::Overflow);
            }
            if u128::MAX - tshare - state.fee_pools.treasury < *fee {
                return Err(ExecError::Overflow);
            }
            let nonce = domains.next_out_nonce(*from_domain);
            charge_sender(cfg, state, sender, *fee, gas_fee)?;
            state.fee_pools.treasury = state.fee_pools.treasury + *fee;
            let mut p: Vec<u8> = Vec::new();
            copy_bytes(&mut p, payload);
            domains.push_outbox(
                crate::domains::CrossDomainMessage {
                    from: *from_domain,
                    to: *to_domain,
                    nonce,
                    fee: *fee,
                    payload: p,
                },
            );
            Ok(ExecutionOutcome::success(gas_used, vec![event_bytes(7)]))
        },
        _ => {
            proof {
                assert(false);
            }
            Err(ExecError::Overflow)
        },
    }
}

#[verifier::rlimit(100)]
#[verifier::spinoff_prover]
fn apply_crossdomainrelay<V: DomainVm>(
    cfg: &ExecutionConfig,
    state: &mut ChainState,
    domains: &mut DomainRuntime,
    vm: &V,
    tx: &Tx,
    sender: &Vec<u8>,
    gas_used: u64,
    gas_fee: u128,
    current_height: u64,
    now_ms: u64,
) -> (r: Result<ExecutionOutcome, ExecError>)
    requires
        accts_unique(old(state).accounts@),
        config_wf(*cfg),
        spec_gate_ok(tx@, *cfg, *old(state)),
        sender@ == spec_tx_sender(tx@),
        spec_gas_fee(tx@, cfg.base_fee) == Some(gas_fee as int),
        gas_used == crate::tx::spec_gas_cost(tx.payload@),
        tx.payload@ is CrossDomainRelay,
    ensures
        accts_unique(final(state).accounts@),
        match r {
            Ok(out) => {
                &&& nonce_of(final(state).accounts@, spec_tx_sender(tx@)) == tx.nonce + 1
                &&& (forall|a: Seq<u8>|
                    a != spec_tx_sender(tx@) ==> nonce_of(final(state).accounts@, a) == nonce_of(
                        old(state).accounts@,
                        a,
                    ))
                &&& supply_measure(*final(state)) == supply_measure(*old(state))
                &&& final(state).total_supply == old(state).total_supply
                &&& spec_payload_effect(
                    *cfg,
                    *old(state),
                    *final(state),
                    tx@,
                    sender@,
                    gas_fee as int,
                    current_height,
                )
                &&& out.gas_used == gas_used
            },
            Err(e) => *final(state) == *old(state) && !(supply_ok(*old(state))
                && spec_payload_admissible(*cfg, *old(state), tx@, sender@, gas_fee as int)),
        },
{
    proof {
        reveal(spec_payload_effect);
        reveal(spec_payload_admissible);
        if supply_ok(*old(state)) && spec_payload_admissible(
            *cfg,
            *old(state),
            tx@,
            sender@,
            gas_fee as int,
        ) {
            lemma_supply_components(*old(state));
            assert((gas_fee as int) * (cfg.fee_split.l1_gas_validators_pct as int) / 100 >= 0
                && (gas_fee as int) * (cfg.fee_split.l1_gas_validators_pct as int) / 100
                <= gas_fee as int) by (nonlinear_arith)
                requires
                    cfg.fee_split.l1_gas_validators_pct <= 100,
                    gas_fee >= 0,
            ;
        }
    }
    match &tx.payload {
        TxPayload::CrossDomainRelay { message } => {
            charge_sender(cfg, state, sender, 0, gas_fee)?;
            domains.relay_message(copy_message(message));
            Ok(ExecutionOutcome::success(gas_used, vec![event_bytes(8)]))
        },
        _ => {
            proof {
                assert(false);
            }
            Err(ExecError::Overflow)
        },
    }
}

#[verifier::rlimit(100)]
#[verifier::spinoff_prover]
fn apply_fraudchallenge<V: DomainVm>(
    cfg: &ExecutionConfig,
    state: &mut ChainState,
    domains: &mut DomainRuntime,
    vm: &V,
    tx: &Tx,
    sender: &Vec<u8>,
    gas_used: u64,
    gas_fee: u128,
    current_height: u64,
    now_ms: u64,
) -> (r: Result<ExecutionOutcome, ExecError>)
    requires
        accts_unique(old(state).accounts@),
        config_wf(*cfg),
        spec_gate_ok(tx@, *cfg, *old(state)),
        sender@ == spec_tx_sender(tx@),
        spec_gas_fee(tx@, cfg.base_fee) == Some(gas_fee as int),
        gas_used == crate::tx::spec_gas_cost(tx.payload@),
        tx.payload@ is FraudChallenge,
    ensures
        accts_unique(final(state).accounts@),
        match r {
            Ok(out) => {
                &&& nonce_of(final(state).accounts@, spec_tx_sender(tx@)) == tx.nonce + 1
                &&& (forall|a: Seq<u8>|
                    a != spec_tx_sender(tx@) ==> nonce_of(final(state).accounts@, a) == nonce_of(
                        old(state).accounts@,
                        a,
                    ))
                &&& supply_measure(*final(state)) == supply_measure(*old(state))
                &&& final(state).total_supply == old(state).total_supply
                &&& spec_payload_effect(
                    *cfg,
                    *old(state),
                    *final(state),
                    tx@,
                    sender@,
                    gas_fee as int,
                    current_height,
                )
                &&& out.gas_used == gas_used
            },
            Err(e) => *final(state) == *old(state) && !(supply_ok(*old(state))
                && spec_payload_admissible(*cfg, *old(state), tx@, sender@, gas_fee as int)),
        },
{
    proof {
        reveal(spec_payload_effect);
        reveal(spec_payload_admissible);
        if supply_ok(*old(state)) && spec_payload_admissible(
            *cfg,
            *old(state),
            tx@,
            sender@,
            gas_fee as int,
        ) {
            lemma_supply_components(*old(state));
            assert((gas_fee as int) * (cfg.fee_split.l1_gas_validators_pct as int) / 100 >= 0
                && (gas_fee as int) * (cfg.fee_split.l1_gas_validators_pct as int) / 100
                <= gas_fee as int) by (nonlinear_arith)
                requires
                    cfg.fee_split.l1_gas_validators_pct <= 100,
                    gas_fee >= 0,
            ;
        }
    }
    match &tx.payload {
        TxPayload::FraudChallenge { domain_id, claimed_root, witness: _ } => {
            match domains.submit_fraud_proof(
                &crate::domains::FraudProof {
                    domain_id: *domain_id,
                    claimed_root: {
                        let mut c: Vec<u8> = Vec::new();
                        copy_bytes(&mut c, claimed_root);
                        c
                    },
                    witness: Vec::new(),
                },
            ) {
                Ok(()) => {},
                Err(e) => {
                    return Err(e);
                },
            }
            charge_sender(cfg, state, sender, 0, gas_fee)?;
            upsert_domain_root(state, *domain_id, claimed_root, current_height);
            Ok(ExecutionOutcome::success(gas_used, vec![event_bytes(9)]))
        },
        _ => {
            proof {
                assert(false);
            }
            Err(ExecError::Overflow)
        },
    }
}

#[verifier::rlimit(100)]
#[verifier::spinoff_prover]
fn apply_domaincreate<V: DomainVm>(
    cfg: &ExecutionConfig,
    state: &mut ChainState,
    domains: &mut DomainRuntime,
    vm: &V,
    tx: &Tx,
    sender: &Vec<u8>,
    gas_used: u64,
    gas_fee: u128,
    current_height: u64,
    now_ms: u64,
) -> (r: Result<ExecutionOutcome, ExecError>)
    requires
        accts_unique(old(state).accounts@),
        config_wf(*cfg),
        spec_gate_ok(tx@, *cfg, *old(state)),
        sender@ == spec_tx_sender(tx@),
        spec_gas_fee(tx@, cfg.base_fee) == Some(gas_fee as int),
        gas_used == crate::tx::spec_gas_cost(tx.payload@),
        tx.payload@ is DomainCreate,
    ensures
        accts_unique(final(state).accounts@),
        match r {
            Ok(out) => {
                &&& nonce_of(final(state).accounts@, spec_tx_sender(tx@)) == tx.nonce + 1
                &&& (forall|a: Seq<u8>|
                    a != spec_tx_sender(tx@) ==> nonce_of(final(state).accounts@, a) == nonce_of(
                        old(state).accounts@,
                        a,
                    ))
                &&& supply_measure(*final(state)) == supply_measure(*old(state))
                &&& final(state).total_supply == old(state).total_supply
                &&& spec_payload_effect(
                    *cfg,
                    *old(state),
                    *final(state),
                    tx@,
                    sender@,
                    gas_fee as int,
                    current_height,
                )
                &&& out.gas_used == gas_used
            },
            Err(e) => *final(state) == *old(state) && !(supply_ok(*old(state))
                && spec_payload_admissible(*cfg, *old(state), tx@, sender@, gas_fee as int)),
        },
{
    proof {
        reveal(spec_payload_effect);
        reveal(spec_payload_admissible);
        if supply_ok(*old(state)) && spec_payload_admissible(
            *cfg,
            *old(state),
            tx@,
            sender@,
            gas_fee as int,
        ) {
            lemma_supply_components(*old(state));
            assert((gas_fee as int) * (cfg.fee_split.l1_gas_validators_pct as int) / 100 >= 0
                && (gas_fee as int) * (cfg.fee_split.l1_gas_validators_pct as int) / 100
                <= gas_fee as int) by (nonlinear_arith)
                requires
                    cfg.fee_split.l1_gas_validators_pct <= 100,
                    gas_fee >= 0,
            ;
        }
    }
    match &tx.payload {
        TxPayload::DomainCreate { domain_id, params } => {
            if !risk_params_ok(params) {
                return Err(ExecError::RiskParamViolation);
            }
            charge_sender(cfg, state, sender, 0, gas_fee)?;
            if find_domain(&state.domains, *domain_id).is_none() {
                let entry = DomainEntry {
                    domain_id: *domain_id,
                    kind: params.kind,
                    security_model: SecurityModel::SharedSecurity,
                    sequencer_binding: None,
                    bridge_contracts: Vec::new(),
                    risk_params: *params,
                };
                let _ = domains.register(&entry);
                state.domains.push(entry);
            }
            Ok(ExecutionOutcome::success(gas_used, vec![event_bytes(10)]))
        },
        _ => {
            proof {
                assert(false);
            }
            Err(ExecError::Overflow)
        },
    }
}

#[verifier::rlimit(100)]
#[verifier::spinoff_prover]
fn apply_domainconfigupdate<V: DomainVm>(
    cfg: &ExecutionConfig,
    state: &mut ChainState,
    domains: &mut DomainRuntime,
    vm: &V,
    tx: &Tx,
    sender: &Vec<u8>,
    gas_used: u64,
    gas_fee: u128,
    current_height: u64,
    now_ms: u64,
) -> (r: Result<ExecutionOutcome, ExecError>)
    requires
        accts_unique(old(state).accounts@),
        config_wf(*cfg),
        spec_gate_ok(tx@, *cfg, *old(state)),
        sender@ == spec_tx_sender(tx@),
        spec_gas_fee(tx@, cfg.base_fee) == Some(gas_fee as int),
        gas_used == crate::tx::spec_gas_cost(tx.payload@),
        tx.payload@ is DomainConfigUpdate,
    ensures
        accts_unique(final(state).accounts@),
        match r {
            Ok(out) => {
                &&& nonce_of(final(state).accounts@, spec_tx_sender(tx@)) == tx.nonce + 1
                &&& (forall|a: Seq<u8>|
                    a != spec_tx_sender(tx@) ==> nonce_of(final(state).accounts@, a) == nonce_of(
                        old(state).accounts@,
                        a,
                    ))
                &&& supply_measure(*final(state)) == supply_measure(*old(state))
                &&& final(state).total_supply == old(state).total_supply
                &&& spec_payload_effect(
                    *cfg,
                    *old(state),
                    *final(state),
                    tx@,
                    sender@,
                    gas_fee as int,
                    current_height,
                )
                &&& out.gas_used == gas_used
            },
            Err(e) => *final(state) == *old(state) && !(supply_ok(*old(state))
                && spec_payload_admissible(*cfg, *old(state), tx@, sender@, gas_fee as int)),
        },
{
    proof {
        reveal(spec_payload_effect);
        reveal(spec_payload_admissible);
        if supply_ok(*old(state)) && spec_payload_admissible(
            *cfg,
            *old(state),
            tx@,
            sender@,
            gas_fee as int,
        ) {
            lemma_supply_components(*old(state));
            assert((gas_fee as int) * (cfg.fee_split.l1_gas_validators_pct as int) / 100 >= 0
                && (gas_fee as int) * (cfg.fee_split.l1_gas_validators_pct as int) / 100
                <= gas_fee as int) by (nonlinear_arith)
                requires
                    cfg.fee_split.l1_gas_validators_pct <= 100,
                    gas_fee >= 0,
            ;
        }
    }
    match &tx.payload {
        TxPayload::DomainConfigUpdate { domain_id, params } => {
            if !risk_params_ok(params) {
                return Err(ExecError::RiskParamViolation);
            }
            charge_sender(cfg, state, sender, 0, gas_fee)?;
            match find_domain(&state.domains, *domain_id) {
                Some(i) => {
                    let entry = &mut state.domains[i];
                    entry.risk_params = *params;
                },
                None => {},
            }
            Ok(ExecutionOutcome::success(gas_used, vec![event_bytes(11)]))
        },
        _ => {
            proof {
                assert(false);
            }
            Err(ExecError::Overflow)
        },
    }
}

#[verifier::rlimit(100)]
#[verifier::spinoff_prover]
fn apply_rollupbatchcommit<V: DomainVm>(
    cfg: &ExecutionConfig,
    state: &mut ChainState,
    domains: &mut DomainRuntime,
    vm: &V,
    tx: &Tx,
    sender: &Vec<u8>,
    gas_used: u64,
    gas_fee: u128,
    current_height: u64,
    now_ms: u64,
) -> (r: Result<ExecutionOutcome, ExecError>)
    requires
        accts_unique(old(state).accounts@),
        config_wf(*cfg),
        spec_gate_ok(tx@, *cfg, *old(state)),
        sender@ == spec_tx_sender(tx@),
        spec_gas_fee(tx@, cfg.base_fee) == Some(gas_fee as int),
        gas_used == crate::tx::spec_gas_cost(tx.payload@),
        tx.payload@ is RollupBatchCommit,
    ensures
        accts_unique(final(state).accounts@),
        match r {
            Ok(out) => {
                &&& nonce_of(final(state).accounts@, spec_tx_sender(tx@)) == tx.nonce + 1
                &&& (forall|a: Seq<u8>|
                    a != spec_tx_sender(tx@) ==> nonce_of(final(state).accounts@, a) == nonce_of(
                        old(state).accounts@,
                        a,
                    ))
                &&& supply_measure(*final(state)) == supply_measure(*old(state))
                &&& final(state).total_supply == old(state).total_supply
                &&& spec_payload_effect(
                    *cfg,
                    *old(state),
                    *final(state),
                    tx@,
                    sender@,
                    gas_fee as int,
                    current_height,
                )
                &&& out.gas_used == gas_used
            },
            Err(e) => *final(state) == *old(state) && !(supply_ok(*old(state))
                && spec_payload_admissible(*cfg, *old(state), tx@, sender@, gas_fee as int)),
        },
{
    proof {
        reveal(spec_payload_effect);
        reveal(spec_payload_admissible);
        if supply_ok(*old(state)) && spec_payload_admissible(
            *cfg,
            *old(state),
            tx@,
            sender@,
            gas_fee as int,
        ) {
            lemma_supply_components(*old(state));
            assert((gas_fee as int) * (cfg.fee_split.l1_gas_validators_pct as int) / 100 >= 0
                && (gas_fee as int) * (cfg.fee_split.l1_gas_validators_pct as int) / 100
                <= gas_fee as int) by (nonlinear_arith)
                requires
                    cfg.fee_split.l1_gas_validators_pct <= 100,
                    gas_fee >= 0,
            ;
        }
    }
    match &tx.payload {
        TxPayload::RollupBatchCommit { domain_id, blob_id } => {
            charge_sender(cfg, state, sender, 0, gas_fee)?;
            let mut blob_ids: Vec<u64> = Vec::new();
            blob_ids.push(*blob_id);
            state.da_commitments.push(
                DACommitment { block_height: current_height, da_root: zero_hash(), blob_ids },
            );
            let z = zero_hash();
            upsert_domain_root(state, *domain_id, &z, current_height);
            Ok(ExecutionOutcome::success(gas_used, vec![event_bytes(12)]))
        },
        _ => {
            proof {
                assert(false);
            }
            Err(ExecError::Overflow)
        },
    }
}

#[verifier::rlimit(100)]
#[verifier::spinoff_prover]
fn apply_rollupbridgedeposit<V: DomainVm>(
    cfg: &ExecutionConfig,
    state: &mut ChainState,
    domains: &mut DomainRuntime,
    vm: &V,
    tx: &Tx,
    sender: &Vec<u8>,
    gas_used: u64,
    gas_fee: u128,
    current_height: u64,
    now_ms: u64,
) -> (r: Result<ExecutionOutcome, ExecError>)
    requires
        accts_unique(old(state).accounts@),
        config_wf(*cfg),
        spec_gate_ok(tx@, *cfg, *old(state)),
        sender@ == spec_tx_sender(tx@),
        spec_gas_fee(tx@, cfg.base_fee) == Some(gas_fee as int),
        gas_used == crate::tx::spec_gas_cost(tx.payload@),
        tx.payload@ is RollupBridgeDeposit,
    ensures
        accts_unique(final(state).accounts@),
        match r {
            Ok(out) => {
                &&& nonce_of(final(state).accounts@, spec_tx_sender(tx@)) == tx.nonce + 1
                &&& (forall|a: Seq<u8>|
                    a != spec_tx_sender(tx@) ==> nonce_of(final(state).accounts@, a) == nonce_of(
                        old(state).accounts@,
                        a,
                    ))
                &&& supply_measure(*final(state)) == supply_measure(*old(state))
                &&& final(state).total_supply == old(state).total_supply
                &&& spec_payload_effect(
                    *cfg,
                    *old(state),
                    *final(state),
                    tx@,
                    sender@,
                    gas_fee as int,
                    current_height,
                )
                &&& out.gas_used == gas_used
            },
            Err(e) => *final(state) == *old(state) && !(supply_ok(*old(state))
                && spec_payload_admissible(*cfg, *old(state), tx@, sender@, gas_fee as int)),
        },
{
    proof {
        reveal(spec_payload_effect);
        reveal(spec_payload_admissible);
        if supply_ok(*old(state)) && spec_payload_admissible(
            *cfg,
            *old(state),
            tx@,
            sender@,
            gas_fee as int,
        ) {
            lemma_supply_components(*old(state));
            assert((gas_fee as int) * (cfg.fee_split.l1_gas_validators_pct as int) / 100 >= 0
                && (gas_fee as int) * (cfg.fee_split.l1_gas_validators_pct as int) / 100
                <= gas_fee as int) by (nonlinear_arith)
                requires
                    cfg.fee_split.l1_gas_validators_pct <= 100,
                    gas_fee >= 0,
            ;
        }
    }
    match &tx.payload {
        TxPayload::RollupBridgeDeposit { domain_id: _, amount } => {
            if u128::MAX - gas_fee < *amount {
                return Err(ExecError::Overflow);
            }
            let vshare = mul_div_100(gas_fee, cfg.fee_split.l1_gas_validators_pct);
            let tshare = gas_fee - vshare;
            if u128::MAX - tshare < state.fee_pools.treasury {
                return Err(ExecError::Overflow);
            }
            if u128::MAX - tshare - state.fee_pools.treasury < *amount {
                return Err(ExecError::Overflow);
            }
            charge_sender(cfg, state, sender, *amount, gas_fee)?;
            state.fee_pools.treasury = state.fee_pools.treasury + *amount;
            Ok(ExecutionOutcome::success(gas_used, vec![event_bytes(13)]))
        },
        _ => {
            proof {
                assert(false);
            }
            Err(ExecError::Overflow)
        },
    }
}

#[verifier::rlimit(100)]
#[verifier::spinoff_prover]
fn apply_rollupbridgewithdraw<V: DomainVm>(
    cfg: &ExecutionConfig,
    state: &mut ChainState,
    domains: &mut DomainRuntime,
    vm: &V,
    tx: &Tx,
    sender: &Vec<u8>,
    gas_used: u64,
    gas_fee: u128,
    current_height: u64,
    now_ms: u64,
) -> (r: Result<ExecutionOutcome, ExecError>)
    requires
        accts_unique(old(state).accounts@),
        config_wf(*cfg),
        spec_gate_ok(tx@, *cfg, *old(state)),
        sender@ == spec_tx_sender(tx@),
        spec_gas_fee(tx@, cfg.base_fee) == Some(gas_fee as int),
        gas_used == crate::tx::spec_gas_cost(tx.payload@),
        tx.payload@ is RollupBridgeWithdraw,
    ensures
        accts_unique(final(state).accounts@),
        match r {
            Ok(out) => {
                &&& nonce_of(final(state).accounts@, spec_tx_sender(tx@)) == tx.nonce + 1
                &&& (forall|a: Seq<u8>|
                    a != spec_tx_sender(tx@) ==> nonce_of(final(state).accounts@, a) == nonce_of(
                        old(state).accounts@,
                        a,
                    ))
                &&& supply_measure(*final(state)) == supply_measure(*old(state))
                &&& final(state).total_supply == old(state).total_supply
                &&& spec_payload_effect(
                    *cfg,
                    *old(state),
                    *final(state),
                    tx@,
                    sender@,
                    gas_fee as int,
                    current_height,
                )
                &&& out.gas_used == gas_used
            },
            Err(e) => *final(state) == *old(state) && !(supply_ok(*old(state))
                && spec_payload_admissible(*cfg, *old(state), tx@, sender@, gas_fee as int)),
        },
{
    proof {
        reveal(spec_payload_effect);
        reveal(spec_payload_admissible);
        if supply_ok(*old(state)) && spec_payload_admissible(
            *cfg,
            *old(state),
            tx@,
            sender@,
            gas_fee as int,
        ) {
            lemma_supply_components(*old(state));
            assert((gas_fee as int) * (cfg.fee_split.l1_gas_validators_pct as int) / 100 >= 0
                && (gas_fee as int) * (cfg.fee_split.l1_gas_validators_pct as int) / 100
                <= gas_fee as int) by (nonlinear_arith)
                requires
                    cfg.fee_split.l1_gas_validators_pct <= 100,
                    gas_fee >= 0,
            ;
        }
    }
    match &tx.payload {
        TxPayload::RollupBridgeWithdraw { domain_id: _, amount } => {
            // the mirror image: the amount leaves the treasury for the sender
            if state.fee_pools.treasury < *amount {
                return Err(ExecError::InsufficientFunds);
            }
            let base = match find_account(&state.accounts, sender) {
                Some(i) => {
                    proof {
                        crate::runtime::lemma_acct_ix_unique_pub(
                            state.accounts@,
                            sender@,
                            i as int,
                        );
                    }
                    state.accounts[i].balance_x
                },
                None => 0,
            };
            if base < gas_fee {
                return Err(ExecError::InsufficientFunds);
            }
            if u128::MAX - *amount < base - gas_fee {
                return Err(ExecError::Overflow);
            }
            let ghost old_treasury = state.fee_pools.treasury;
            charge_sender(cfg, state, sender, 0, gas_fee)?;
            proof {
                assert((gas_fee as int) * (cfg.fee_split.l1_gas_validators_pct as int) / 100
                    <= gas_fee) by (nonlinear_arith)
                    requires
                        cfg.fee_split.l1_gas_validators_pct <= 100,
                        gas_fee >= 0,
                ;
                assert(state.fee_pools.treasury >= old_treasury);
            }
            state.fee_pools.treasury = state.fee_pools.treasury - *amount;
            credit_account(state, sender, *amount);
            Ok(ExecutionOutcome::success(gas_used, vec![event_bytes(14)]))
        },
        _ => {
            proof {
                assert(false);
            }
            Err(ExecError::Overflow)
        },
    }
}

#[verifier::rlimit(100)]
#[verifier::spinoff_prover]
fn apply_governanceproposal<V: DomainVm>(
    cfg: &ExecutionConfig,
    state: &mut ChainState,
    domains: &mut DomainRuntime,
    vm: &V,
    tx: &Tx,
    sender: &Vec<u8>,
    gas_used: u64,
    gas_fee: u128,
    current_height: u64,
    now_ms: u64,
) -> (r: Result<ExecutionOutcome, ExecError>)
    requires
        accts_unique(old(state).accounts@),
        config_wf(*cfg),
        spec_gate_ok(tx@, *cfg, *old(state)),
        sender@ == spec_tx_sender(tx@),
        spec_gas_fee(tx@, cfg.base_fee) == Some(gas_fee as int),
        gas_used == crate::tx::spec_gas_cost(tx.payload@),
        tx.payload@ is GovernanceProposal,
    ensures
        accts_unique(final(state).accounts@),
        match r {
            Ok(out) => {
                &&& nonce_of(final(state).accounts@, spec_tx_sender(tx@)) == tx.nonce + 1
                &&& (forall|a: Seq<u8>|
                    a != spec_tx_sender(tx@) ==> nonce_of(final(state).accounts@, a) == nonce_of(
                        old(state).accounts@,
                        a,
                    ))
                &&& supply_measure(*final(state)) == supply_measure(*old(state))
                &&& final(state).total_supply == old(state).total_supply
                &&& spec_payload_effect(
                    *cfg,
                    *old(state),
                    *final(state),
                    tx@,
                    sender@,
                    gas_fee as int,
                    current_height,
                )
                &&& out.gas_used == gas_used
            },
            Err(e) => *final(state) == *old(state) && !(supply_ok(*old(state))
                && spec_payload_admissible(*cfg, *old(state), tx@, sender@, gas_fee as int)),
        },
{
    proof {
        reveal(spec_payload_effect);
        reveal(spec_payload_admissible);
        if supply_ok(*old(state)) && spec_payload_admissible(
            *cfg,
            *old(state),
            tx@,
            sender@,
            gas_fee as int,
        ) {
            lemma_supply_components(*old(state));
            assert((gas_fee as int) * (cfg.fee_split.l1_gas_validators_pct as int) / 100 >= 0
                && (gas_fee as int) * (cfg.fee_split.l1_gas_validators_pct as int) / 100
                <= gas_fee as int) by (nonlinear_arith)
                requires
                    cfg.fee_split.l1_gas_validators_pct <= 100,
                    gas_fee >= 0,
            ;
        }
    }
    match &tx.payload {
        TxPayload::GovernanceProposal { payload, kind } => {
            charge_sender(cfg, state, sender, 0, gas_fee)?;
            let proposal = build_proposal(state, sender, payload, kind, now_ms);
            state.proposals.push(proposal);
            Ok(ExecutionOutcome::success(gas_used, vec![event_bytes(15)]))
        },
        _ => {
            proof {
                assert(false);
            }
            Err(ExecError::Overflow)
        },
    }
}

#[verifier::rlimit(100)]
#[verifier::spinoff_prover]
fn apply_governancevote<V: DomainVm>(
    cfg: &ExecutionConfig,
    state: &mut ChainState,
    domains: &mut DomainRuntime,
    vm: &V,
    tx: &Tx,
    sender: &Vec<u8>,
    gas_used: u64,
    gas_fee: u128,
    current_height: u64,
    now_ms: u64,
) -> (r: Result<ExecutionOutcome, ExecError>)
    requires
        accts_unique(old(state).accounts@),
        config_wf(*cfg),
        spec_gate_ok(tx@, *cfg, *old(state)),
        sender@ == spec_tx_sender(tx@),
        spec_gas_fee(tx@, cfg.base_fee) == Some(gas_fee as int),
        gas_used == crate::tx::spec_gas_cost(tx.payload@),
        tx.payload@ is GovernanceVote,
    ensures
        accts_unique(final(state).accounts@),
        match r {
            Ok(out) => {
                &&& nonce_of(final(state).accounts@, spec_tx_sender(tx@)) == tx.nonce + 1
                &&& (forall|a: Seq<u8>|
                    a != spec_tx_sender(tx@) ==> nonce_of(final(state).accounts@, a) == nonce_of(
                        old(state).accounts@,
                        a,
                    ))
                &&& supply_measure(*final(state)) == supply_measure(*old(state))
                &&& final(state).total_supply == old(state).total_supply
                &&& spec_payload_effect(
                    *cfg,
                    *old(state),
                    *final(state),
                    tx@,
                    sender@,
                    gas_fee as int,
                    current_height,
                )
                &&& out.gas_used == gas_used
            },
            Err(e) => *final(state) == *old(state) && !(supply_ok(*old(state))
                && spec_payload_admissible(*cfg, *old(state), tx@, sender@, gas_fee as int)),
        },
{
    proof {
        reveal(spec_payload_effect);
        reveal(spec_payload_admissible);
        if supply_ok(*old(state)) && spec_payload_admissible(
            *cfg,
            *old(state),
            tx@,
            sender@,
            gas_fee as int,
        ) {
            lemma_supply_components(*old(state));
            assert((gas_fee as int) * (cfg.fee_split.l1_gas_validators_pct as int) / 100 >= 0
                && (gas_fee as int) * (cfg.fee_split.l1_gas_validators_pct as int) / 100
                <= gas_fee as int) by (nonlinear_arith)
                requires
                    cfg.fee_split.l1_gas_validators_pct <= 100,
                    gas_fee >= 0,
            ;
        }
    }
    match &tx.payload {
        TxPayload::GovernanceVote { proposal_id, support } => {
            let Some(pi) = find_proposal(&state.proposals, *proposal_id) else {
                return Err(ExecError::GovernanceStageViolation);
            };
            if !matches!(state.proposals[pi].status, ProposalStatus::Active) {
                return Err(ExecError::GovernanceStageViolation);
            }
            if now_ms > state.proposals[pi].end {
                return Err(ExecError::VotingClosed);
            }
            if votes_contain(&state.proposals[pi].votes, sender) {
                return Err(ExecError::AlreadyVoted);
            }
            let weight = lookup_weight_unchecked(&state.proposals[pi].voter_weights, sender);
            if weight == 0 {
                return Err(ExecError::NoVotingPower);
            }
            charge_sender(cfg, state, sender, 0, gas_fee)?;
            let p = &mut state.proposals[pi];
            match support {
                VoteChoice::For => {
                    p.for_votes = sat_add_u128(p.for_votes, weight);
                },
                VoteChoice::Against => {
                    p.against_votes = sat_add_u128(p.against_votes, weight);
                },
                VoteChoice::Abstain => {
                    p.abstain_votes = sat_add_u128(p.abstain_votes, weight);
                },
            }
            let mut voter: Vec<u8> = Vec::new();
            copy_bytes(&mut voter, sender);
            p.votes.push(VoteRecord { voter, choice: *support, weight });
            let q_bps = state.governance_params.quorum_bps;
            let a_bps = state.governance_params.approval_threshold_bps;
            let t_ms = state.governance_params.timelock_ms;
            finalize_proposal(&mut state.proposals, pi, q_bps, a_bps, t_ms, now_ms);
            Ok(ExecutionOutcome::success(gas_used, vec![event_bytes(16)]))
        },
        _ => {
            proof {
                assert(false);
            }
            Err(ExecError::Overflow)
        },
    }
}

#[verifier::rlimit(100)]
#[verifier::spinoff_prover]
fn apply_governancebridgeapprove<V: DomainVm>(
    cfg: &ExecutionConfig,
    state: &mut ChainState,
    domains: &mut DomainRuntime,
    vm: &V,
    tx: &Tx,
    sender: &Vec<u8>,
    gas_used: u64,
    gas_fee: u128,
    current_height: u64,
    now_ms: u64,
) -> (r: Result<ExecutionOutcome, ExecError>)
    requires
        accts_unique(old(state).accounts@),
        config_wf(*cfg),
        spec_gate_ok(tx@, *cfg, *old(state)),
        sender@ == spec_tx_sender(tx@),
        spec_gas_fee(tx@, cfg.base_fee) == Some(gas_fee as int),
        gas_used == crate::tx::spec_gas_cost(tx.payload@),
        tx.payload@ is GovernanceBridgeApprove,
    ensures
        accts_unique(final(state).accounts@),
        match r {
            Ok(out) => {
                &&& nonce_of(final(state).accounts@, spec_tx_sender(tx@)) == tx.nonce + 1
                &&& (forall|a: Seq<u8>|
                    a != spec_tx_sender(tx@) ==> nonce_of(final(state).accounts@, a) == nonce_of(
                        old(state).accounts@,
                        a,
                    ))
                &&& supply_measure(*final(state)) == supply_measure(*old(state))
                &&& final(state).total_supply == old(state).total_supply
                &&& spec_payload_effect(
                    *cfg,
                    *old(state),
                    *final(state),
                    tx@,
                    sender@,
                    gas_fee as int,
                    current_height,
                )
                &&& out.gas_used == gas_used
            },
            Err(e) => *final(state) == *old(state) && !(supply_ok(*old(state))
                && spec_payload_admissible(*cfg, *old(state), tx@, sender@, gas_fee as int)),
        },
{
    proof {
        reveal(spec_payload_effect);
        reveal(spec_payload_admissible);
        if supply_ok(*old(state)) && spec_payload_admissible(
            *cfg,
            *old(state),
            tx@,
            sender@,
            gas_fee as int,
        ) {
            lemma_supply_components(*old(state));
            assert((gas_fee as int) * (cfg.fee_split.l1_gas_validators_pct as int) / 100 >= 0
                && (gas_fee as int) * (cfg.fee_split.l1_gas_validators_pct as int) / 100
                <= gas_fee as int) by (nonlinear_arith)
                requires
                    cfg.fee_split.l1_gas_validators_pct <= 100,
                    gas_fee >= 0,
            ;
        }
    }
    match &tx.payload {
        TxPayload::GovernanceBridgeApprove { proposal_id } => {
            let Some(pi) = find_proposal(&state.proposals, *proposal_id) else {
                return Err(ExecError::GovernanceStageViolation);
            };
            let ready = matches!(
                state.proposals[pi].status,
                ProposalStatus::Queued | ProposalStatus::Succeeded
            );
            if !ready {
                return Err(ExecError::GovernanceStageViolation);
            }
            if state.governance_params.multisig_signers.len() > 0 && !bytes_list_contains(
                &state.governance_params.multisig_signers,
                sender,
            ) {
                return Err(ExecError::MultisigNotAuthorized);
            }
            if bytes_list_contains(&state.proposals[pi].approvals, sender) {
                return Err(ExecError::AlreadyApproved);
            }
            charge_sender(cfg, state, sender, 0, gas_fee)?;
            let mut approver: Vec<u8> = Vec::new();
            copy_bytes(&mut approver, sender);
            let p = &mut state.proposals[pi];
            p.approvals.push(approver);
            Ok(ExecutionOutcome::success(gas_used, vec![event_bytes(17)]))
        },
        _ => {
            proof {
                assert(false);
            }
            Err(ExecError::Overflow)
        },
    }
}

#[verifier::rlimit(100)]
#[verifier::spinoff_prover]
fn apply_governanceexecute<V: DomainVm>(
    cfg: &ExecutionConfig,
    state: &mut ChainState,
    domains: &mut DomainRuntime,
    vm: &V,
    tx: &Tx,
    sender: &Vec<u8>,
    gas_used: u64,
    gas_fee: u128,
    current_height: u64,
    now_ms: u64,
) -> (r: Result<ExecutionOutcome, ExecError>)
    requires
        accts_unique(old(state).accounts@),
        config_wf(*cfg),
        spec_gate_ok(tx@, *cfg, *old(state)),
        sender@ == spec_tx_sender(tx@),
        spec_gas_fee(tx@, cfg.base_fee) == Some(gas_fee as int),
        gas_used == crate::tx::spec_gas_cost(tx.payload@),
        tx.payload@ is GovernanceExecute,
    ensures
        accts_unique(final(state).accounts@),
        match r {
            Ok(out) => {
                &&& nonce_of(final(state).accounts@, spec_tx_sender(tx@)) == tx.nonce + 1
                &&& (forall|a: Seq<u8>|
                    a != spec_tx_sender(tx@) ==> nonce_of(final(state).accounts@, a) == nonce_of(
                        old(state).accounts@,
                        a,
                    ))
                &&& supply_measure(*final(state)) == supply_measure(*old(state))
                &&& final(state).total_supply == old(state).total_supply
                &&& spec_payload_effect(
                    *cfg,
                    *old(state),
                    *final(state),
                    tx@,
                    sender@,
                    gas_fee as int,
                    current_height,
                )
                &&& out.gas_used == gas_used
            },
            Err(e) => *final(state) == *old(state) && !(supply_ok(*old(state))
                && spec_payload_admissible(*cfg, *old(state), tx@, sender@, gas_fee as int)),
        },
{
    proof {
        reveal(spec_payload_effect);
        reveal(spec_payload_admissible);
        if supply_ok(*old(state)) && spec_payload_admissible(
            *cfg,
            *old(state),
            tx@,
            sender@,
            gas_fee as int,
        ) {
            lemma_supply_components(*old(state));
            assert((gas_fee as int) * (cfg.fee_split.l1_gas_validators_pct as int) / 100 >= 0
                && (gas_fee as int) * (cfg.fee_split.l1_gas_validators_pct as int) / 100
                <= gas_fee as int) by (nonlinear_arith)
                requires
                    cfg.fee_split.l1_gas_validators_pct <= 100,
                    gas_fee >= 0,
            ;
        }
    }
    match &tx.payload {
        TxPayload::GovernanceExecute { proposal_id } => {
            let Some(pi) = find_proposal(&state.proposals, *proposal_id) else {
                return Err(ExecError::GovernanceStageViolation);
            };
            if !matches!(state.proposals[pi].status, ProposalStatus::Queued) {
                return Err(ExecError::GovernanceStageViolation);
            }
            match state.proposals[pi].eta {
                Some(eta) => {
                    if now_ms < eta {
                        return Err(ExecError::TimelockNotSatisfied);
                    }
                },
                None => {
                    return Err(ExecError::TimelockNotSatisfied);
                },
            }
            if state.governance_params.multisig_signers.len() > 0 {
                let unique = count_unique_approvals(&state.proposals[pi].approvals);
                if unique < state.governance_params.multisig_threshold as usize {
                    return Err(ExecError::MultisigNotAuthorized);
                }
            }
            charge_sender(cfg, state, sender, 0, gas_fee)?;
            let p = &mut state.proposals[pi];
            p.status = ProposalStatus::Executed;
            Ok(ExecutionOutcome::success(gas_used, vec![event_bytes(18)]))
        },
        _ => {
            proof {
                assert(false);
            }
            Err(ExecError::Overflow)
        },
    }
}

#[verifier::rlimit(100)]
#[verifier::spinoff_prover]
fn apply_slash<V: DomainVm>(
    cfg: &ExecutionConfig,
    state: &mut ChainState,
    domains: &mut DomainRuntime,
    vm: &V,
    tx: &Tx,
    sender: &Vec<u8>,
    gas_used: u64,
    gas_fee: u128,
    current_height: u64,
    now_ms: u64,
) -> (r: Result<ExecutionOutcome, ExecError>)
    requires
        accts_unique(old(state).accounts@),
        config_wf(*cfg),
        spec_gate_ok(tx@, *cfg, *old(state)),
        sender@ == spec_tx_sender(tx@),
        spec_gas_fee(tx@, cfg.base_fee) == Some(gas_fee as int),
        gas_used == crate::tx::spec_gas_cost(tx.payload@),
        tx.payload@ is Slash,
    ensures
        accts_unique(final(state).accounts@),
        match r {
            Ok(out) => {
                &&& nonce_of(final(state).accounts@, spec_tx_sender(tx@)) == tx.nonce + 1
                &&& (forall|a: Seq<u8>|
                    a != spec_tx_sender(tx@) ==> nonce_of(final(state).accounts@, a) == nonce_of(
                        old(state).accounts@,
                        a,
                    ))
                &&& supply_measure(*final(state)) == supply_measure(*old(state))
                &&& final(state).total_supply == old(state).total_supply
                &&& spec_payload_effect(
                    *cfg,
                    *old(state),
                    *final(state),
                    tx@,
                    sender@,
                    gas_fee as int,
                    current_height,
                )
                &&& out.gas_used == gas_used
            },
            Err(e) => *final(state) == *old(state) && !(supply_ok(*old(state))
                && spec_payload_admissible(*cfg, *old(state), tx@, sender@, gas_fee as int)),
        },
{
    proof {
        reveal(spec_payload_effect);
        reveal(spec_payload_admissible);
        if supply_ok(*old(state)) && spec_payload_admissible(
            *cfg,
            *old(state),
            tx@,
            sender@,
            gas_fee as int,
        ) {
            lemma_supply_components(*old(state));
            assert((gas_fee as int) * (cfg.fee_split.l1_gas_validators_pct as int) / 100 >= 0
                && (gas_fee as int) * (cfg.fee_split.l1_gas_validators_pct as int) / 100
                <= gas_fee as int) by (nonlinear_arith)
                requires
                    cfg.fee_split.l1_gas_validators_pct <= 100,
                    gas_fee >= 0,
            ;
        }
    }
    match &tx.payload {
        TxPayload::Slash { validator, penalty_bps, reason: _ } => {
            let Some(vi) = find_validator_by_owner(&state.validators, validator) else {
                return Err(ExecError::UnknownValidator);
            };
            let stake_before = state.validators[vi].stake;
            if stake_before == 0 {
                return Err(ExecError::InsufficientStake);
            }
            let bps = if *penalty_bps == 0 {
                cfg.slash_penalty_bps
            } else {
                *penalty_bps
            };
            let bps = if bps > 10_000 {
                10_000
            } else {
                bps
            };
            let penalty = mul_div_bps(stake_before, bps);
            if penalty == 0 {
                return Err(ExecError::PenaltyTooSmall);
            }
            let vshare = mul_div_100(gas_fee, cfg.fee_split.l1_gas_validators_pct);
            let tshare = gas_fee - vshare;
            if u128::MAX - tshare < state.fee_pools.treasury {
                return Err(ExecError::Overflow);
            }
            if u128::MAX - tshare - state.fee_pools.treasury < penalty {
                return Err(ExecError::Overflow);
            }
            charge_sender(cfg, state, sender, 0, gas_fee)?;
            reduce_delegations(&mut state.delegations, state.validators[vi].id, penalty, stake_before);
            let vid_stake = state.validators[vi].stake;
            proof {
                assert(vid_stake >= penalty);
            }
            remove_validator_stake(state, vi, penalty, false);
            if state.validators[vi].stake == 0 {
                let ghost vpre = state.validators@;
                let v = &mut state.validators[vi];
                v.status = ValidatorStatus::Jailed;
                proof {
                    assert(state.validators@ =~= vpre.update(
                        vi as int,
                        state.validators@[vi as int],
                    ));
                    lemma_sum_stakes_update(vpre, vi as int, state.validators@[vi as int]);
                }
            }
            state.fee_pools.treasury = state.fee_pools.treasury + penalty;
            Ok(ExecutionOutcome::success(gas_used, vec![event_bytes(19)]))
        },
        _ => {
            proof {
                assert(false);
            }
            Err(ExecError::Overflow)
        },
    }
}

#[verifier::rlimit(100)]
#[verifier::spinoff_prover]
fn apply_privacydeposit<V: DomainVm>(
    cfg: &ExecutionConfig,
    state: &mut ChainState,
    domains: &mut DomainRuntime,
    vm: &V,
    tx: &Tx,
    sender: &Vec<u8>,
    gas_used: u64,
    gas_fee: u128,
    current_height: u64,
    now_ms: u64,
) -> (r: Result<ExecutionOutcome, ExecError>)
    requires
        accts_unique(old(state).accounts@),
        config_wf(*cfg),
        spec_gate_ok(tx@, *cfg, *old(state)),
        sender@ == spec_tx_sender(tx@),
        spec_gas_fee(tx@, cfg.base_fee) == Some(gas_fee as int),
        gas_used == crate::tx::spec_gas_cost(tx.payload@),
        tx.payload@ is PrivacyDeposit,
    ensures
        accts_unique(final(state).accounts@),
        match r {
            Ok(out) => {
                &&& nonce_of(final(state).accounts@, spec_tx_sender(tx@)) == tx.nonce + 1
                &&& (forall|a: Seq<u8>|
                    a != spec_tx_sender(tx@) ==> nonce_of(final(state).accounts@, a) == nonce_of(
                        old(state).accounts@,
                        a,
                    ))
                &&& supply_measure(*final(state)) == supply_measure(*old(state))
                &&& final(state).total_supply == old(state).total_supply
                &&& spec_payload_effect(
                    *cfg,
                    *old(state),
                    *final(state),
                    tx@,
                    sender@,
                    gas_fee as int,
                    current_height,
                )
                &&& out.gas_used == gas_used
            },
            Err(e) => *final(state) == *old(state) && !(supply_ok(*old(state))
                && spec_payload_admissible(*cfg, *old(state), tx@, sender@, gas_fee as int)),
        },
{
    proof {
        reveal(spec_payload_effect);
        reveal(spec_payload_admissible);
        if supply_ok(*old(state)) && spec_payload_admissible(
            *cfg,
            *old(state),
            tx@,
            sender@,
            gas_fee as int,
        ) {
            lemma_supply_components(*old(state));
            assert((gas_fee as int) * (cfg.fee_split.l1_gas_validators_pct as int) / 100 >= 0
                && (gas_fee as int) * (cfg.fee_split.l1_gas_validators_pct as int) / 100
                <= gas_fee as int) by (nonlinear_arith)
                requires
                    cfg.fee_split.l1_gas_validators_pct <= 100,
                    gas_fee >= 0,
            ;
        }
    }
    match &tx.payload {
        TxPayload::PrivacyDeposit { commitment, amount } => {
            if *amount == 0 {
                return Err(ExecError::AmountZero);
            }
            if u128::MAX - gas_fee < *amount {
                return Err(ExecError::Overflow);
            }
            if bytes_list_contains(&state.privacy_pool.commitments, commitment) {
                return Err(ExecError::DuplicateCommitment);
            }
            if u128::MAX - *amount < state.privacy_pool.total_shielded {
                return Err(ExecError::Overflow);
            }
            charge_sender(cfg, state, sender, *amount, gas_fee)?;
            let mut c: Vec<u8> = Vec::new();
            copy_bytes(&mut c, commitment);
            state.privacy_pool.commitments.push(c);
            state.privacy_pool.total_shielded = state.privacy_pool.total_shielded + *amount;
            let new_root = pool_root(&state.privacy_pool.commitments);
            state.privacy_pool.merkle_root = new_root;
            proof {
                assert(views_of(state.privacy_pool.commitments@) =~= views_of(
                    old(state).privacy_pool.commitments@,
                ).push(tx@.payload->PrivacyDeposit_commitment));
                reveal(spec_payload_effect);
                assert(spec_payload_effect(
                    *cfg,
                    *old(state),
                    *state,
                    tx@,
                    sender@,
                    gas_fee as int,
                    current_height,
                ));
            }
            Ok(ExecutionOutcome::success(gas_used, vec![event_bytes(20)]))
        },
        _ => {
            proof {
                assert(false);
            }
            Err(ExecError::Overflow)
        },
    }
}

#[verifier::rlimit(100)]
#[verifier::spinoff_prover]
fn apply_privacywithdraw<V: DomainVm>(
    cfg: &ExecutionConfig,
    state: &mut ChainState,
    domains: &mut DomainRuntime,
    vm: &V,
    tx: &Tx,
    sender: &Vec<u8>,
    gas_used: u64,
    gas_fee: u128,
    current_height: u64,
    now_ms: u64,
) -> (r: Result<ExecutionOutcome, ExecError>)
    requires
        accts_unique(old(state).accounts@),
        config_wf(*cfg),
        spec_gate_ok(tx@, *cfg, *old(state)),
        sender@ == spec_tx_sender(tx@),
        spec_gas_fee(tx@, cfg.base_fee) == Some(gas_fee as int),
        gas_used == crate::tx::spec_gas_cost(tx.payload@),
        tx.payload@ is PrivacyWithdraw,
    ensures
        accts_unique(final(state).accounts@),
        match r {
            Ok(out) => {
                &&& nonce_of(final(state).accounts@, spec_tx_sender(tx@)) == tx.nonce + 1
                &&& (forall|a: Seq<u8>|
                    a != spec_tx_sender(tx@) ==> nonce_of(final(state).accounts@, a) == nonce_of(
                        old(state).accounts@,
                        a,
                    ))
                &&& supply_measure(*final(state)) == supply_measure(*old(state))
                &&& final(state).total_supply == old(state).total_supply
                &&& spec_payload_effect(
                    *cfg,
                    *old(state),
                    *final(state),
                    tx@,
                    sender@,
                    gas_fee as int,
                    current_height,
                )
                &&& out.gas_used == gas_used
            },
            Err(e) => *final(state) == *old(state) && !(supply_ok(*old(state))
                && spec_payload_admissible(*cfg, *old(state), tx@, sender@, gas_fee as int)),
        },
{
    proof {
        reveal(spec_payload_effect);
        reveal(spec_payload_admissible);
        if supply_ok(*old(state)) && spec_payload_admissible(
            *cfg,
            *old(state),
            tx@,
            sender@,
            gas_fee as int,
        ) {
            lemma_supply_components(*old(state));
            assert((gas_fee as int) * (cfg.fee_split.l1_gas_validators_pct as int) / 100 >= 0
                && (gas_fee as int) * (cfg.fee_split.l1_gas_validators_pct as int) / 100
                <= gas_fee as int) by (nonlinear_arith)
                requires
                    cfg.fee_split.l1_gas_validators_pct <= 100,
                    gas_fee >= 0,
            ;
        }
    }
    match &tx.payload {
        TxPayload::PrivacyWithdraw {
            nullifier,
            recipient,
            amount,
            merkle_root,
            commitment,
            proof: artifact,
        } => {
            if *amount == 0 {
                return Err(ExecError::AmountZero);
            }
            if bytes_list_contains(&state.privacy_pool.nullifiers, nullifier) {
                return Err(ExecError::DoubleSpendNullifier);
            }
            if !bytes_eq(&state.privacy_pool.merkle_root, merkle_root) {
                return Err(ExecError::MerkleRootMismatch);
            }
            if !bytes_list_contains(&state.privacy_pool.commitments, commitment) {
                return Err(ExecError::CommitmentUnknown);
            }
            if state.privacy_pool.total_shielded < *amount {
                return Err(ExecError::InsufficientFunds);
            }
            if !matches!(artifact.program_id, ProgramId::PrivacyWithdraw) {
                return Err(ExecError::ProofVerifyFailed);
            }
            let input = PrivacyWithdrawInput {
                nullifier: {
                    let mut b: Vec<u8> = Vec::new();
                    copy_bytes(&mut b, nullifier);
                    b
                },
                merkle_root: {
                    let mut b: Vec<u8> = Vec::new();
                    copy_bytes(&mut b, merkle_root);
                    b
                },
                recipient: {
                    let mut b: Vec<u8> = Vec::new();
                    copy_bytes(&mut b, recipient);
                    b
                },
                amount: *amount,
                commitment: {
                    let mut b: Vec<u8> = Vec::new();
                    copy_bytes(&mut b, commitment);
                    b
                },
            };
            proof {
                assert(input.nullifier@ =~= nullifier@);
                assert(input.merkle_root@ =~= merkle_root@);
                assert(input.recipient@ =~= recipient@);
                assert(input.commitment@ =~= commitment@);
            }
            match verify_stub_artifact(artifact, &input) {
                Ok(()) => {},
                Err(e) => {
                    return Err(e);
                },
            }
            let base = if bytes_eq(recipient, sender) {
                let b = match find_account(&state.accounts, sender) {
                    Some(i) => {
                        proof {
                            crate::runtime::lemma_acct_ix_unique_pub(
                                state.accounts@,
                                sender@,
                                i as int,
                            );
                        }
                        state.accounts[i].balance_x
                    },
                    None => 0,
                };
                if b < gas_fee {
                    return Err(ExecError::InsufficientFunds);
                }
                b - gas_fee
            } else {
                match find_account(&state.accounts, recipient) {
                    Some(i) => {
                        proof {
                            crate::runtime::lemma_acct_ix_unique_pub(
                                state.accounts@,
                                recipient@,
                                i as int,
                            );
                        }
                        state.accounts[i].balance_x
                    },
                    None => 0,
                }
            };
            if u128::MAX - *amount < base {
                return Err(ExecError::Overflow);
            }
            charge_sender(cfg, state, sender, 0, gas_fee)?;
            let ghost nulls_pre = state.privacy_pool.nullifiers@;
            let mut n: Vec<u8> = Vec::new();
            copy_bytes(&mut n, nullifier);
            proof {
                assert(n@ =~= nullifier@);
            }
            state.privacy_pool.nullifiers.push(n);
            proof {
                assert(state.privacy_pool.nullifiers@[nulls_pre.len() as int]@ == nullifier@);
                assert(contains_bytes(state.privacy_pool.nullifiers@, nullifier@));
            }
            state.privacy_pool.total_shielded = state.privacy_pool.total_shielded - *amount;
            credit_account(state, recipient, *amount);
            proof {
                assert(views_of(state.privacy_pool.nullifiers@) =~= views_of(
                    old(state).privacy_pool.nullifiers@,
                ).push(tx@.payload->PrivacyWithdraw_nullifier));
                reveal(spec_payload_effect);
                assert(spec_payload_effect(
                    *cfg,
                    *old(state),
                    *state,
                    tx@,
                    sender@,
                    gas_fee as int,
                    current_height,
                ));
            }
            Ok(ExecutionOutcome::success(gas_used, vec![event_bytes(21)]))
        },
        _ => {
            proof {
                assert(false);
            }
            Err(ExecError::Overflow)
        },
    }
}

#[verifier::rlimit(100)]
#[verifier::spinoff_prover]
fn apply_systemupgrade<V: DomainVm>(
    cfg: &ExecutionConfig,
    state: &mut ChainState,
    domains: &mut DomainRuntime,
    vm: &V,
    tx: &Tx,
    sender: &Vec<u8>,
    gas_used: u64,
    gas_fee: u128,
    current_height: u64,
    now_ms: u64,
) -> (r: Result<ExecutionOutcome, ExecError>)
    requires
        accts_unique(old(state).accounts@),
        config_wf(*cfg),
        spec_gate_ok(tx@, *cfg, *old(state)),
        sender@ == spec_tx_sender(tx@),
        spec_gas_fee(tx@, cfg.base_fee) == Some(gas_fee as int),
        gas_used == crate::tx::spec_gas_cost(tx.payload@),
        tx.payload@ is SystemUpgrade,
    ensures
        accts_unique(final(state).accounts@),
        match r {
            Ok(out) => {
                &&& nonce_of(final(state).accounts@, spec_tx_sender(tx@)) == tx.nonce + 1
                &&& (forall|a: Seq<u8>|
                    a != spec_tx_sender(tx@) ==> nonce_of(final(state).accounts@, a) == nonce_of(
                        old(state).accounts@,
                        a,
                    ))
                &&& supply_measure(*final(state)) == supply_measure(*old(state))
                &&& final(state).total_supply == old(state).total_supply
                &&& spec_payload_effect(
                    *cfg,
                    *old(state),
                    *final(state),
                    tx@,
                    sender@,
                    gas_fee as int,
                    current_height,
                )
                &&& out.gas_used == gas_used
            },
            Err(e) => *final(state) == *old(state) && !(supply_ok(*old(state))
                && spec_payload_admissible(*cfg, *old(state), tx@, sender@, gas_fee as int)),
        },
{
    proof {
        reveal(spec_payload_effect);
        reveal(spec_payload_admissible);
        if supply_ok(*old(state)) && spec_payload_admissible(
            *cfg,
            *old(state),
            tx@,
            sender@,
            gas_fee as int,
        ) {
            lemma_supply_components(*old(state));
            assert((gas_fee as int) * (cfg.fee_split.l1_gas_validators_pct as int) / 100 >= 0
                && (gas_fee as int) * (cfg.fee_split.l1_gas_validators_pct as int) / 100
                <= gas_fee as int) by (nonlinear_arith)
                requires
                    cfg.fee_split.l1_gas_validators_pct <= 100,
                    gas_fee >= 0,
            ;
        }
    }
    match &tx.payload {
        TxPayload::SystemUpgrade { module, version } => {
            charge_sender(cfg, state, sender, 0, gas_fee)?;
            let proposal = build_upgrade_proposal(state, sender, module, version, now_ms);
            state.proposals.push(proposal);
            Ok(ExecutionOutcome::success(gas_used, vec![event_bytes(22)]))
        },
        _ => {
            proof {
                assert(false);
            }
            Err(ExecError::Overflow)
        },
    }
}



/// Saturating addition for vote tallies.
fn sat_add_u128(a: u128, b: u128) -> (r: u128)
    ensures
        r == (if a + b > u128::MAX {
            u128::MAX as int
        } else {
            a + b
        }),
{
    if u128::MAX - b < a {
        u128::MAX
    } else {
        a + b
    }
}

/// A one-byte event tag naming the payload kind that ran.
fn event_bytes(tag: u8) -> (r: Vec<u8>)
    ensures
        r@ == seq![tag],
{
    let mut v: Vec<u8> = Vec::new();
    v.push(tag);
    proof {
        assert(v@ =~= seq![tag]);
    }
    v
}

/// Whether a domain entry exists.
fn has_domain_entry(domains: &Vec<DomainEntry>, id: u128) -> (r: bool)
    ensures
        r == crate::state::has_domain(domains@, id),
{
    match find_domain(domains, id) {
        Some(i) => {
            proof {
                assert(domains@[i as int].domain_id == id);
            }
            true
        },
        None => false,
    }
}

/// Bounded validation of domain risk parameters.
pub fn risk_params_ok(params: &DomainParams) -> (r: bool)
    ensures
        r == spec_risk_params_ok(*params),
{
    let loss_ok = match params.max_loss_bps {
        Some(bps) => bps <= 10_000,
        None => true,
    };
    let cap_ok = match params.risk_cap {
        Some(cap) => cap > 0,
        None => true,
    };
    loss_ok && cap_ok
}

/// Risk parameters are bounded: a loss cap of at most 100% and a positive
/// risk cap when present.
pub open spec fn spec_risk_params_ok(params: DomainParams) -> bool {
    &&& (params.max_loss_bps matches Some(bps) ==> bps <= 10_000)
    &&& (params.risk_cap matches Some(cap) ==> cap > 0)
}

/// Records a domain's new state root, replacing an earlier record.
fn upsert_domain_root(state: &mut ChainState, domain_id: u128, root: &Vec<u8>, height: u64)
    ensures
        crate::state::has_domain_root(final(state).domain_roots@, domain_id),
        final(state).accounts == old(state).accounts,
        final(state).validators == old(state).validators,
        final(state).delegations == old(state).delegations,
        final(state).fee_pools == old(state).fee_pools,
        final(state).privacy_pool == old(state).privacy_pool,
        final(state).pending_unbonds == old(state).pending_unbonds,
        final(state).total_supply == old(state).total_supply,
        final(state).domains == old(state).domains,
        final(state).da_commitments == old(state).da_commitments,
        final(state).proposals == old(state).proposals,
        final(state).governance_params == old(state).governance_params,
        final(state).last_reward_height == old(state).last_reward_height,
{
    let mut r: Vec<u8> = Vec::new();
    copy_bytes(&mut r, root);
    let record = DomainRoot {
        domain_id,
        state_root: r,
        da_root: zero_hash(),
        last_verified_epoch: height,
        proof_meta: Vec::new(),
    };
    let n = state.domain_roots.len();
    let mut i: usize = 0;
    while i < n
        invariant
            i <= n,
            n == state.domain_roots@.len(),
            state.accounts == old(state).accounts,
            state.validators == old(state).validators,
            state.delegations == old(state).delegations,
            state.fee_pools == old(state).fee_pools,
            state.privacy_pool == old(state).privacy_pool,
            state.pending_unbonds == old(state).pending_unbonds,
            state.total_supply == old(state).total_supply,
            state.domains == old(state).domains,
            state.da_commitments == old(state).da_commitments,
            state.proposals == old(state).proposals,
            state.governance_params == old(state).governance_params,
            state.last_reward_height == old(state).last_reward_height,
            record.domain_id == domain_id,
        decreases n - i,
    {
        if state.domain_roots[i].domain_id == domain_id {
            state.domain_roots.set(i, record);
            proof {
                assert(state.domain_roots@[i as int].domain_id == domain_id);
            }
            return ;
        }
        i += 1;
    }
    let ghost pre = state.domain_roots@;
    state.domain_roots.push(record);
    proof {
        assert(state.domain_roots@[pre.len() as int].domain_id == domain_id);
    }
}

/// Finds the delegation row of a delegator to a validator.
fn find_delegation(delegations: &Vec<Delegation>, delegator: &Vec<u8>, vid: u128) -> (r: Option<
    usize,
>)
    ensures
        match r {
            Some(i) => i < delegations@.len() && delegations@[i as int].delegator@ == delegator@
                && delegations@[i as int].validator_id == vid && forall|j: int|
                0 <= j < i ==> !(delegations@[j].delegator@ == delegator@
                    && delegations@[j].validator_id == vid),
            None => forall|j: int|
                0 <= j < delegations@.len() ==> !(delegations@[j].delegator@ == delegator@
                    && delegations@[j].validator_id == vid),
        },
{
    let n = delegations.len();
    let mut i: usize = 0;
    while i < n
        invariant
            i <= n,
            n == delegations@.len(),
            forall|j: int|
                0 <= j < i ==> !(delegations@[j].delegator@ == delegator@
                    && delegations@[j].validator_id == vid),
        decreases n - i,
    {
        if bytes_eq(&delegations[i].delegator, delegator) && delegations[i].validator_id == vid {
            return Some(i);
        }
        i += 1;
    }
    None
}

/// Cuts every delegation row of a slashed validator pro-rata; rows reduced to
/// nothing stay with zero stake. Delegation rows carry no supply weight, so
/// the measure is untouched.
fn reduce_delegations(delegations: &mut Vec<Delegation>, vid: u128, penalty: u128, stake_before: u128)
    requires
        stake_before > 0,
    ensures
        final(delegations)@ == slashed_delegations(old(delegations)@, vid, penalty, stake_before),
{
    let n = delegations.len();
    let ghost orig = delegations@;
    let mut out: Vec<Delegation> = Vec::new();
    let mut i: usize = 0;
    proof {
        assert(orig.take(0) =~= Seq::<Delegation>::empty());
        assert(orig.skip(0) =~= orig);
    }
    while i < n
        invariant
            i <= n,
            n == orig.len(),
            stake_before > 0,
            delegations@ == orig.skip(i as int),
            out@ == slashed_delegations(orig.take(i as int), vid, penalty, stake_before),
        decreases n - i,
    {
        let d = delegations.remove(0);
        proof {
            assert(orig.skip(i as int).remove(0) =~= orig.skip(i as int + 1));
            assert(d == orig[i as int]);
            assert(orig.take(i as int + 1).drop_last() =~= orig.take(i as int));
            assert(orig.take(i as int + 1).last() == orig[i as int]);
        }
        if d.validator_id == vid {
            let dstake = d.stake;
            let scaled = if penalty > 0 && dstake > u128::MAX / penalty {
                u128::MAX
            } else {
                proof {
                    if penalty > 0 {
                        assert((dstake as int) * (penalty as int) <= u128::MAX)
                            by (nonlinear_arith)
                            requires
                                dstake as int <= (u128::MAX as int) / (penalty as int),
                                penalty > 0,
                        ;
                    }
                }
                if penalty == 0 {
                    0
                } else {
                    dstake * penalty
                }
            };
            let cut = scaled / stake_before;
            let cut = if cut > dstake {
                dstake
            } else {
                cut
            };
            proof {
                assert(cut == spec_delegation_cut(dstake, penalty, stake_before));
            }
            if dstake - cut > 0 {
                out.push(
                    Delegation {
                        delegator: d.delegator,
                        validator_id: d.validator_id,
                        stake: dstake - cut,
                    },
                );
            }
        } else {
            out.push(d);
        }
        i += 1;
    }
    proof {
        assert(orig.take(n as int) =~= orig);
    }
    *delegations = out;
}

/// A voter weight lookup that tolerates duplicate rows by taking the first.
fn lookup_weight_unchecked(weights: &Vec<VoterWeight>, voter: &Vec<u8>) -> (r: u128)
{
    let n = weights.len();
    let mut i: usize = 0;
    while i < n
        invariant
            i <= n,
            n == weights@.len(),
        decreases n - i,
    {
        if bytes_eq(&weights[i].voter, voter) {
            return weights[i].weight;
        }
        i += 1;
    }
    0
}

/// Builds a fresh active proposal with the validator weights snapshotted.
fn build_proposal(
    state: &ChainState,
    proposer: &Vec<u8>,
    payload: &Vec<u8>,
    kind: &Option<Vec<u8>>,
    now_ms: u64,
) -> (r: Proposal)
    ensures
        r.status is Active,
        r.proposer@ == proposer@,
        r.payload@ == payload@,
{
    let mut weights: Vec<VoterWeight> = Vec::new();
    let n = state.validators.len();
    let mut i: usize = 0;
    let mut total: u128 = 0;
    while i < n
        invariant
            i <= n,
            n == state.validators@.len(),
        decreases n - i,
    {
        let mut owner: Vec<u8> = Vec::new();
        copy_bytes(&mut owner, &state.validators[i].owner);
        weights.push(VoterWeight { voter: owner, weight: state.validators[i].stake });
        total = sat_add_u128(total, state.validators[i].stake);
        i += 1;
    }
    let mut p: Vec<u8> = Vec::new();
    copy_bytes(&mut p, payload);
    proof {
        assert(p@ =~= payload@);
    }
    let mut e: Vec<u8> = Vec::new();
    copy_bytes(&mut e, payload);
    let k: Vec<u8> = match kind {
        Some(kk) => {
            let mut k2: Vec<u8> = Vec::new();
            copy_bytes(&mut k2, kk);
            k2
        },
        None => Vec::new(),
    };
    let mut prop: Vec<u8> = Vec::new();
    copy_bytes(&mut prop, proposer);
    proof {
        assert(prop@ =~= proposer@);
    }
    let end = if u64::MAX - state.governance_params.voting_period_ms < now_ms {
        u64::MAX
    } else {
        now_ms + state.governance_params.voting_period_ms
    };
    let id = proposal_identity(&prop, now_ms);
    Proposal {
        id,
        payload: p,
        kind: k,
        status: ProposalStatus::Active,
        proposer: prop,
        start: now_ms,
        end,
        eta: None,
        snapshot_total_stake: total,
        for_votes: 0,
        against_votes: 0,
        abstain_votes: 0,
        votes: Vec::new(),
        execution: e,
        voter_weights: weights,
        approvals: Vec::new(),
    }
}

/// Builds the queued, timelocked proposal a system upgrade files.
fn build_upgrade_proposal(
    state: &ChainState,
    proposer: &Vec<u8>,
    module: &Vec<u8>,
    version: &Vec<u8>,
    now_ms: u64,
) -> (r: Proposal)
    ensures
        r.status is Queued,
        r.proposer@ == proposer@,
{
    let mut payload: Vec<u8> = Vec::new();
    copy_bytes(&mut payload, module);
    copy_bytes(&mut payload, version);
    let mut e: Vec<u8> = Vec::new();
    copy_bytes(&mut e, &payload);
    let mut prop: Vec<u8> = Vec::new();
    copy_bytes(&mut prop, proposer);
    proof {
        assert(prop@ =~= proposer@);
    }
    let eta = if u64::MAX - state.governance_params.timelock_ms < now_ms {
        u64::MAX
    } else {
        now_ms + state.governance_params.timelock_ms
    };
    let id = proposal_identity(&prop, now_ms);
    Proposal {
        id,
        payload,
        kind: Vec::new(),
        status: ProposalStatus::Queued,
        proposer: prop,
        start: now_ms,
        end: now_ms,
        eta: Some(eta),
        snapshot_total_stake: 0,
        for_votes: 0,
        against_votes: 0,
        abstain_votes: 0,
        votes: Vec::new(),
        execution: e,
        voter_weights: Vec::new(),
        approvals: Vec::new(),
    }
}

/// Counts distinct approval addresses.
fn count_unique_approvals(approvals: &Vec<Vec<u8>>) -> (r: usize)
    ensures
        r <= approvals@.len(),
{
    let n = approvals.len();
    let mut count: usize = 0;
    let mut i: usize = 0;
    while i < n
        invariant
            i <= n,
            count <= i,
            n == approvals@.len(),
        decreases n - i,
    {
        let mut seen = false;
        let mut j: usize = 0;
        while j < i
            invariant
                j <= i,
                i < n,
                n == approvals@.len(),
            decreases i - j,
        {
            if bytes_eq(&approvals[j], &approvals[i]) {
                seen = true;
            }
            j += 1;
        }
        if !seen {
            count = count + 1;
        }
        i += 1;
    }
    count
}

/// Closes a voting window that has ended: a proposal that met quorum and
/// approval queues with a timelock; anything else is defeated.
fn finalize_proposal(
    proposals: &mut Vec<Proposal>,
    pi: usize,
    quorum_bps: u16,
    approval_threshold_bps: u16,
    timelock_ms: u64,
    now_ms: u64,
)
    requires
        pi < old(proposals)@.len(),
    ensures
        final(proposals)@.len() == old(proposals)@.len(),
        forall|j: int|
            0 <= j < old(proposals)@.len() && j != pi ==> final(proposals)@[j] == old(proposals)@[j],
        final(proposals)@[pi as int].id == old(proposals)@[pi as int].id,
        final(proposals)@[pi as int].votes == old(proposals)@[pi as int].votes,
        final(proposals)@[pi as int].approvals == old(proposals)@[pi as int].approvals,
        final(proposals)@[pi as int].voter_weights == old(proposals)@[pi as int].voter_weights,
        final(proposals)@[pi as int].for_votes == old(proposals)@[pi as int].for_votes,
        final(proposals)@[pi as int].against_votes == old(proposals)@[pi as int].against_votes,
        final(proposals)@[pi as int].abstain_votes == old(proposals)@[pi as int].abstain_votes,
        final(proposals)@[pi as int].proposer == old(proposals)@[pi as int].proposer,
{
    let is_active = matches!(proposals[pi].status, ProposalStatus::Active);
    if !is_active {
        return ;
    }
    if now_ms < proposals[pi].end {
        return ;
    }
    let p_for = proposals[pi].for_votes;
    let p_against = proposals[pi].against_votes;
    let p_abstain = proposals[pi].abstain_votes;
    let snapshot = proposals[pi].snapshot_total_stake;
    let participated = sat_add_u128(sat_add_u128(p_for, p_against), p_abstain);
    let quorum = snapshot > 0 && sat_mul_u128(participated, 10_000) >= sat_mul_u128(
        quorum_bps as u128,
        snapshot,
    );
    if !quorum {
        let p = &mut proposals[pi];
        p.status = ProposalStatus::Defeated;
        return ;
    }
    let approval = participated > 0 && sat_mul_u128(p_for, 10_000) >= sat_mul_u128(
        approval_threshold_bps as u128,
        participated,
    );
    let p = &mut proposals[pi];
    if approval {
        p.status = ProposalStatus::Queued;
        p.eta = Some(
            if u64::MAX - timelock_ms < now_ms {
                u64::MAX
            } else {
                now_ms + timelock_ms
            },
        );
    } else {
        p.status = ProposalStatus::Defeated;
    }
}

/// A deterministic proposal identity derived from the proposer and the
/// creation time, stable across replicas.
fn proposal_identity(proposer: &Vec<u8>, now_ms: u64) -> (r: u128)
{
    let mut buf: Vec<u8> = Vec::new();
    copy_bytes(&mut buf, proposer);
    crate::codec::enc_u64(&mut buf, now_ms);
    uuid_v5_from_name(&buf)
}

/// Saturating multiplication.
fn sat_mul_u128(a: u128, b: u128) -> (r: u128)
    ensures
        r as int == sat_mul_spec(a as int, b as int),
{
    if a == 0 || b == 0 {
        return 0;
    }
    if a > u128::MAX / b {
        proof {
            assert((a as int) * (b as int) > u128::MAX) by (nonlinear_arith)
                requires
                    a as int > (u128::MAX as int) / (b as int),
                    b > 0,
            ;
        }
        u128::MAX
    } else {
        proof {
            assert((a as int) * (b as int) <= u128::MAX) by (nonlinear_arith)
                requires
                    a as int <= (u128::MAX as int) / (b as int),
                    b > 0,
            ;
        }
        a * b
    }
}

// ---------------------------------------------------------------------------
// Block application.
// ---------------------------------------------------------------------------

/// The matured amount owed to one owner at a height.
pub open spec fn matured_sum(s: Seq<Unbonding>, a: Seq<u8>, h: u64) -> int
    decreases s.len(),
{
    if s.len() == 0 {
        0
    } else {
        matured_sum(s.drop_last(), a, h) + (if s.last().owner@ == a && s.last().release_height
            <= h {
            s.last().amount as int
        } else {
            0
        })
    }
}

proof fn lemma_matured_sum_remove(s: Seq<Unbonding>, i: int, a: Seq<u8>, h: u64)
    requires
        0 <= i < s.len(),
    ensures
        matured_sum(s.remove(i), a, h) == matured_sum(s, a, h) - (if s[i].owner@ == a
            && s[i].release_height <= h {
            s[i].amount as int
        } else {
            0
        }),
    decreases s.len(),
{
    if i == s.len() - 1 {
        assert(s.remove(i) =~= s.drop_last());
    } else {
        assert(s.remove(i).drop_last() =~= s.drop_last().remove(i));
        assert(s.remove(i).last() == s.last());
        lemma_matured_sum_remove(s.drop_last(), i, a, h);
    }
}

proof fn lemma_matured_sum_none(s: Seq<Unbonding>, a: Seq<u8>, h: u64)
    requires
        forall|j: int| 0 <= j < s.len() ==> (#[trigger] s[j]).release_height > h,
    ensures
        matured_sum(s, a, h) == 0,
    decreases s.len(),
{
    if s.len() > 0 {
        lemma_matured_sum_none(s.drop_last(), a, h);
    }
}

/// Credits every unbonding whose release height has arrived and removes it;
/// later entries keep waiting. Value moves from the unbonding ledger into
/// balances, so the supply measure is unchanged.
pub fn process_unbondings(state: &mut ChainState, current_height: u64) -> (r: Result<
    (),
    ExecError,
>)
    requires
        accts_unique(old(state).accounts@),
    ensures
        accts_unique(final(state).accounts@),
        supply_ok(*old(state)) ==> r is Ok,
        match r {
            Ok(()) => {
                &&& supply_measure(*final(state)) == supply_measure(*old(state))
                &&& final(state).total_supply == old(state).total_supply
                &&& sum_balances(final(state).accounts@) == sum_balances(old(state).accounts@) + (
                sum_unbonds(old(state).pending_unbonds@) - sum_unbonds(
                    final(state).pending_unbonds@,
                ))
                &&& (forall|a: Seq<u8>|
                    balance_of(final(state).accounts@, a) == balance_of(old(state).accounts@, a)
                        + matured_sum(old(state).pending_unbonds@, a, current_height))
                &&& final(state).validators == old(state).validators
                &&& final(state).fee_pools == old(state).fee_pools
                &&& final(state).privacy_pool == old(state).privacy_pool
                &&& forall|j: int|
                    0 <= j < final(state).pending_unbonds@.len() ==> (#[trigger] final(state).pending_unbonds@[j]).release_height > current_height
                &&& nonces_unchanged(old(state).accounts@, final(state).accounts@)
            },
            Err(e) => e == ExecError::Overflow,
        },
{
    let mut i: usize = 0;
    while i < state.pending_unbonds.len()
        invariant
            accts_unique(state.accounts@),
            supply_measure(*state) == supply_measure(*old(state)),
            state.total_supply == old(state).total_supply,
            sum_balances(state.accounts@) == sum_balances(old(state).accounts@) + (sum_unbonds(
                old(state).pending_unbonds@,
            ) - sum_unbonds(state.pending_unbonds@)),
            forall|a: Seq<u8>|
                balance_of(state.accounts@, a) == balance_of(old(state).accounts@, a) + (
                matured_sum(old(state).pending_unbonds@, a, current_height) - matured_sum(
                    state.pending_unbonds@,
                    a,
                    current_height,
                )),
            state.validators == old(state).validators,
            state.fee_pools == old(state).fee_pools,
            state.privacy_pool == old(state).privacy_pool,
            i <= state.pending_unbonds@.len(),
            forall|j: int|
                0 <= j < i ==> (#[trigger] state.pending_unbonds@[j]).release_height
                    > current_height,
            nonces_unchanged(old(state).accounts@, state.accounts@),
        decreases state.pending_unbonds@.len() - i,
    {
        if state.pending_unbonds[i].release_height <= current_height {
            let amount = state.pending_unbonds[i].amount;
            let mut owner: Vec<u8> = Vec::new();
            copy_bytes(&mut owner, &state.pending_unbonds[i].owner);
            proof {
                assert(owner@ =~= state.pending_unbonds@[i as int].owner@);
            }
            if !can_credit(state, &owner, amount) {
                proof {
                    if supply_ok(*old(state)) {
                        assert(supply_ok(*state));
                        lemma_supply_components(*state);
                        crate::sums::lemma_sum_unbonds_bounds(state.pending_unbonds@, i as int);
                        assert(false);
                    }
                }
                return Err(ExecError::Overflow);
            }
            let ghost unbonds_pre = state.pending_unbonds@;
            proof {
                lemma_sum_unbonds_remove(unbonds_pre, i as int);
                assert forall|a: Seq<u8>| matured_sum(
                    unbonds_pre.remove(i as int),
                    a,
                    current_height,
                ) == matured_sum(unbonds_pre, a, current_height) - (if unbonds_pre[i as int].owner@
                    == a {
                    unbonds_pre[i as int].amount as int
                } else {
                    0
                }) by {
                    lemma_matured_sum_remove(unbonds_pre, i as int, a, current_height);
                }
            }
            state.pending_unbonds.remove(i);
            credit_account(state, &owner, amount);
        } else {
            i += 1;
        }
    }
    proof {
        assert forall|a: Seq<u8>| matured_sum(state.pending_unbonds@, a, current_height)
            == 0 by {
            lemma_matured_sum_none(state.pending_unbonds@, a, current_height);
        }
    }
    Ok(())
}

/// Saturating u128 addition at the specification level.
pub open spec fn sat_add_spec(a: int, b: int) -> int {
    if a + b > u128::MAX {
        u128::MAX as int
    } else {
        a + b
    }
}

/// Saturating u128 multiplication at the specification level.
pub open spec fn sat_mul_spec(a: int, b: int) -> int {
    if a * b > u128::MAX {
        u128::MAX as int
    } else {
        a * b
    }
}

/// The bonded stake total, saturating, as the reward path sums it.
pub open spec fn spec_bonded_stake(s: Seq<Validator>) -> int
    decreases s.len(),
{
    if s.len() == 0 {
        0
    } else {
        sat_add_spec(spec_bonded_stake(s.drop_last()), s.last().stake as int)
    }
}

/// The inflation rate the bonded ratio selects.
pub open spec fn spec_inflation_bps(s: ChainState, params: RewardParams) -> u16 {
    let staked = spec_bonded_stake(s.validators@);
    if staked == 0 {
        params.max_inflation_bps
    } else {
        let supply = if s.total_supply == 0 {
            1int
        } else {
            s.total_supply as int
        };
        let capped = if staked > supply {
            supply
        } else {
            staked
        };
        let ratio = sat_mul_spec(capped, 10_000) / supply;
        if ratio >= params.target_stake_bps {
            params.base_inflation_bps
        } else {
            params.max_inflation_bps
        }
    }
}

/// Blocks per year at a block time, at least one.
pub open spec fn spec_blocks_per_year(block_time_ms: u64) -> int {
    let denom = if block_time_ms == 0 {
        1int
    } else {
        block_time_ms as int
    };
    let b = 31_536_000_000int / denom;
    if b == 0 {
        1
    } else {
        b
    }
}

/// The amount one block mints: the supply times the selected rate over a
/// year's worth of blocks; nothing when nothing is bonded.
pub open spec fn spec_block_mint(s: ChainState, cfg: ExecutionConfig) -> int {
    if spec_bonded_stake(s.validators@) == 0 {
        0
    } else {
        let bps0 = spec_inflation_bps(s, cfg.reward_params);
        let bps = if bps0 > 10_000 {
            10_000int
        } else {
            bps0 as int
        };
        ((s.total_supply as int) * bps / 10_000) / spec_blocks_per_year(cfg.block_time_ms)
    }
}

/// Picks the inflation rate: the base rate when the bonded ratio meets the
/// target, the maximum rate otherwise.
pub fn current_inflation_bps(state: &ChainState, params: &RewardParams) -> (r: u16)
    ensures
        r == spec_inflation_bps(*state, *params),
        r == params.base_inflation_bps || r == params.max_inflation_bps,
{
    let staked = total_bonded_stake(state);
    if staked == 0 {
        return params.max_inflation_bps;
    }
    let supply = if state.total_supply == 0 {
        1
    } else {
        state.total_supply
    };
    let capped = if staked > supply {
        supply
    } else {
        staked
    };
    let scaled = sat_mul_u128(capped, 10_000);
    let ratio = scaled / supply;
    if ratio >= params.target_stake_bps as u128 {
        params.base_inflation_bps
    } else {
        params.max_inflation_bps
    }
}

/// The total stake bonded across all validators, saturating.
pub fn total_bonded_stake(state: &ChainState) -> (r: u128)
    ensures
        r as int == spec_bonded_stake(state.validators@),
{
    let n = state.validators.len();
    let mut total: u128 = 0;
    let mut i: usize = 0;
    proof {
        assert(state.validators@.take(0) =~= Seq::<Validator>::empty());
    }
    while i < n
        invariant
            i <= n,
            n == state.validators@.len(),
            total as int == spec_bonded_stake(state.validators@.take(i as int)),
        decreases n - i,
    {
        proof {
            assert(state.validators@.take(i as int + 1).drop_last() =~= state.validators@.take(
                i as int,
            ));
            assert(state.validators@.take(i as int + 1).last() == state.validators@[i as int]);
        }
        total = sat_add_u128(total, state.validators[i].stake);
        i += 1;
    }
    proof {
        assert(state.validators@.take(n as int) =~= state.validators@);
    }
    total
}

/// How many blocks a year holds at this block time.
pub fn blocks_per_year(block_time_ms: u64) -> (r: u128)
    ensures
        r as int == spec_blocks_per_year(block_time_ms),
        r >= 1,
{
    let ms_per_year: u128 = 31_536_000_000;
    let denom: u128 = if block_time_ms == 0 {
        1
    } else {
        block_time_ms as u128
    };
    let b = ms_per_year / denom;
    if b == 0 {
        1
    } else {
        b
    }
}

/// Mints one block's inflation and distributes it: a treasury cut, a proposer
/// bonus, and the remainder pro-rata over validator stake with commission on
/// the delegated part. Every payout is capped by the remaining mint, and
/// whatever rounding leaves over accrues to the treasury, so the supply
/// measure and the recorded supply grow by exactly the minted amount.
proof fn lemma_balance_in_measure(s: ChainState)
    requires
        accts_unique(s.accounts@),
    ensures
        sum_balances(s.accounts@) >= 0,
        sum_balances(s.accounts@) <= supply_measure(s),
        s.fee_pools.treasury <= supply_measure(s),
        forall|a: Seq<u8>| balance_of(s.accounts@, a) <= sum_balances(s.accounts@),
{
    crate::sums::lemma_sum_balances_nonneg(s.accounts@);
    crate::sums::lemma_sum_stakes_nonneg(s.validators@);
    crate::sums::lemma_sum_unbonds_nonneg(s.pending_unbonds@);
    assert forall|a: Seq<u8>| balance_of(s.accounts@, a) <= sum_balances(s.accounts@) by {
        if has_acct(s.accounts@, a) {
            crate::sums::lemma_sum_balances_bounds(
                s.accounts@,
                crate::state::acct_ix(s.accounts@, a),
            );
        }
    }
}

pub fn apply_inflation_rewards(
    cfg: &ExecutionConfig,
    state: &mut ChainState,
    proposer: &Vec<u8>,
    height: u64,
) -> (r: Result<u128, ExecError>)
    requires
        accts_unique(old(state).accounts@),
        config_wf(*cfg),
    ensures
        accts_unique(final(state).accounts@),
        match r {
            Ok(minted) => {
                &&& minted == spec_block_mint(*old(state), *cfg)
                &&& supply_measure(*final(state)) == supply_measure(*old(state)) + minted
                &&& final(state).total_supply == old(state).total_supply + minted
                &&& nonces_unchanged(old(state).accounts@, final(state).accounts@)
                &&& (minted > 0 ==> final(state).fee_pools.treasury >= old(
                    state,
                ).fee_pools.treasury + (minted as int) * (cfg.reward_params.treasury_pct as int)
                    / 100)
                &&& (minted > 0 ==> final(state).fee_pools.treasury <= old(
                    state,
                ).fee_pools.treasury + (minted as int) - ((minted as int) - (minted as int) * (
                cfg.reward_params.treasury_pct as int) / 100) * (
                cfg.reward_params.proposer_bonus_pct as int) / 100)
                &&& (minted > 0 ==> balance_of(final(state).accounts@, proposer@) >= balance_of(
                    old(state).accounts@,
                    proposer@,
                ) + ((minted as int) - (minted as int) * (cfg.reward_params.treasury_pct as int)
                    / 100) * (cfg.reward_params.proposer_bonus_pct as int) / 100)
                &&& final(state).pending_unbonds == old(state).pending_unbonds
                &&& final(state).validators == old(state).validators
                &&& final(state).privacy_pool == old(state).privacy_pool
                &&& (forall|a: Seq<u8>|
                    balance_of(final(state).accounts@, a) >= balance_of(old(state).accounts@, a))
            },
            Err(e) => e == ExecError::Overflow,
        },
        supply_ok(*old(state)) && old(state).total_supply + spec_block_mint(*old(state), *cfg)
            <= u128::MAX ==> r is Ok,
{
    let total_stake = total_bonded_stake(state);
    if total_stake == 0 {
        return Ok(0);
    }
    let inflation_bps = current_inflation_bps(state, &cfg.reward_params);
    let bps = if inflation_bps > 10_000 {
        10_000
    } else {
        inflation_bps
    };
    let per_year = mul_div_bps(state.total_supply, bps);
    let mint = per_year / blocks_per_year(cfg.block_time_ms);
    let ghost owed = supply_ok(*old(state)) && old(state).total_supply + spec_block_mint(
        *old(state),
        *cfg,
    ) <= u128::MAX;
    proof {
        assert(mint == spec_block_mint(*old(state), *cfg));
    }
    if mint == 0 {
        return Ok(0);
    }
    if u128::MAX - mint < state.total_supply {
        proof {
            assert(!owed);
        }
        return Err(ExecError::Overflow);
    }
    let ghost measure0 = supply_measure(*state);
    let mut remaining = mint;

    // treasury cut
    let treasury_cut = mul_div_100(mint, cfg.reward_params.treasury_pct);
    if u128::MAX - treasury_cut < state.fee_pools.treasury {
        proof {
            if owed {
                lemma_supply_components(*old(state));
                assert(false);
            }
        }
        return Err(ExecError::Overflow);
    }
    state.fee_pools.treasury = state.fee_pools.treasury + treasury_cut;
    remaining = remaining - treasury_cut;
    proof {
        assert(supply_measure(*state) == measure0 + (mint - remaining));
    }

    // proposer bonus
    let ghost prop_bal0 = balance_of(old(state).accounts@, proposer@);
    let bonus = mul_div_100(remaining, cfg.reward_params.proposer_bonus_pct);
    if bonus > 0 {
        if !can_credit(state, proposer, bonus) {
            proof {
                if owed {
                    lemma_supply_components(*old(state));
                    assert(false);
                }
            }
            return Err(ExecError::Overflow);
        }
        credit_account(state, proposer, bonus);
        remaining = remaining - bonus;
    }
    proof {
        assert(supply_measure(*state) == measure0 + (mint - remaining));
    }

    // pro-rata validator rewards, each capped by what is left of the mint
    let distributable = remaining;
    let n = state.validators.len();
    let mut v: usize = 0;
    while v < n
        invariant
            accts_unique(state.accounts@),
            n == state.validators@.len(),
            v <= n,
            remaining <= mint,
            remaining + treasury_cut + bonus <= mint,
            supply_measure(*state) == measure0 + (mint - remaining),
            state.total_supply == old(state).total_supply,
            nonces_unchanged(old(state).accounts@, state.accounts@),
            total_stake > 0,
            owed == (supply_ok(*old(state)) && old(state).total_supply + spec_block_mint(
                *old(state),
                *cfg,
            ) <= u128::MAX),
            owed ==> measure0 == old(state).total_supply && old(state).total_supply + mint
                <= u128::MAX,
            state.fee_pools.treasury == old(state).fee_pools.treasury + treasury_cut,
            treasury_cut == (mint as int) * (cfg.reward_params.treasury_pct as int) / 100,
            balance_of(state.accounts@, proposer@) >= prop_bal0 + bonus,
            bonus == ((mint as int) - (mint as int) * (cfg.reward_params.treasury_pct as int)
                / 100) * (cfg.reward_params.proposer_bonus_pct as int) / 100,
            state.pending_unbonds == old(state).pending_unbonds,
            state.validators == old(state).validators,
            state.privacy_pool == old(state).privacy_pool,
            forall|a: Seq<u8>|
                balance_of(state.accounts@, a) >= balance_of(old(state).accounts@, a),
        decreases n - v,
    {
        let vstake = state.validators[v].stake;
        if vstake > 0 {
            let share_raw = sat_mul_u128(distributable, vstake) / total_stake;
            let mut budget = if share_raw > remaining {
                remaining
            } else {
                share_raw
            };
            let ghost rem_pre = remaining;
            remaining = remaining - budget;
            proof {
                assert(supply_measure(*state) == measure0 + (mint - remaining - budget));
            }
            let ghost budget0 = budget;
            let mut owner: Vec<u8> = Vec::new();
            copy_bytes(&mut owner, &state.validators[v].owner);
            let vid = state.validators[v].id;
            let commission_rate = if state.validators[v].commission_rate > 100 {
                100
            } else {
                state.validators[v].commission_rate
            };
            // split the share between self-stake and delegations
            let delegated_total = delegated_stake_of(&state.delegations, vid);
            let delegated_capped = if delegated_total > vstake {
                vstake
            } else {
                delegated_total
            };
            let delegated_reward_raw = sat_mul_u128(budget, delegated_capped) / vstake;
            let delegated_reward = if delegated_reward_raw > budget {
                budget
            } else {
                delegated_reward_raw
            };
            let commission = mul_div_100(delegated_reward, commission_rate);
            let delegator_pool = delegated_reward - commission;
            let validator_reward = budget - delegator_pool;
            // pay the validator its own share plus commission
            if validator_reward > 0 {
                if !can_credit(state, &owner, validator_reward) {
                    proof {
                        if owed {
                            lemma_balance_in_measure(*state);
                            assert(false);
                        }
                    }
                    return Err(ExecError::Overflow);
                }
                credit_account(state, &owner, validator_reward);
                budget = budget - validator_reward;
            }
            proof {
                assert(supply_measure(*state) == measure0 + (mint - remaining - budget));
            }
            // pay the delegators from the remaining pool
            if delegated_capped > 0 && budget > 0 {
                let dn = state.delegations.len();
                let mut d: usize = 0;
                while d < dn
                    invariant
                        accts_unique(state.accounts@),
                        dn == state.delegations@.len(),
                        n == state.validators@.len(),
                        d <= dn,
                        budget <= budget0,
                        remaining <= mint,
                        supply_measure(*state) == measure0 + (mint - remaining - budget),
                        state.total_supply == old(state).total_supply,
                        nonces_unchanged(old(state).accounts@, state.accounts@),
                        delegated_capped > 0,
                        owed == (supply_ok(*old(state)) && old(
                            state,
                        ).total_supply + spec_block_mint(*old(state), *cfg) <= u128::MAX),
                        owed ==> measure0 == old(state).total_supply && old(
                            state,
                        ).total_supply + mint <= u128::MAX,
                        state.fee_pools.treasury == old(state).fee_pools.treasury + treasury_cut,
                        balance_of(state.accounts@, proposer@) >= prop_bal0 + bonus,
                        state.pending_unbonds == old(state).pending_unbonds,
                        state.validators == old(state).validators,
                        state.privacy_pool == old(state).privacy_pool,
                        forall|a: Seq<u8>|
                            balance_of(state.accounts@, a) >= balance_of(
                                old(state).accounts@,
                                a,
                            ),
                    decreases dn - d,
                {
                    if state.delegations[d].validator_id == vid {
                        let dr_raw = sat_mul_u128(delegator_pool, state.delegations[d].stake)
                            / delegated_capped;
                        let dr = if dr_raw > budget {
                            budget
                        } else {
                            dr_raw
                        };
                        if dr > 0 {
                            let mut delegator: Vec<u8> = Vec::new();
                            copy_bytes(&mut delegator, &state.delegations[d].delegator);
                            if !can_credit(state, &delegator, dr) {
                                proof {
                                    if owed {
                                        lemma_balance_in_measure(*state);
                                        assert(false);
                                    }
                                }
                                return Err(ExecError::Overflow);
                            }
                            credit_account(state, &delegator, dr);
                            budget = budget - dr;
                        }
                    }
                    d += 1;
                }
            }
            // rounding residue of this validator's share returns to the mint
            proof {
                assert(budget <= budget0);
                assert(remaining + budget <= rem_pre);
                assert(rem_pre <= mint);
            }
            remaining = remaining + budget;
            proof {
                assert(supply_measure(*state) == measure0 + (mint - remaining));
            }
        }
        v += 1;
    }
    // whatever rounding left over accrues to the treasury
    if u128::MAX - remaining < state.fee_pools.treasury {
        proof {
            if owed {
                lemma_balance_in_measure(*state);
                assert(false);
            }
        }
        return Err(ExecError::Overflow);
    }
    state.fee_pools.treasury = state.fee_pools.treasury + remaining;
    proof {
        assert(supply_measure(*state) == measure0 + mint);
    }
    state.total_supply = state.total_supply + mint;
    state.last_reward_height = height;
    Ok(mint)
}

/// The stake delegated to one validator, saturating.
fn delegated_stake_of(delegations: &Vec<Delegation>, vid: u128) -> (r: u128)
{
    let n = delegations.len();
    let mut total: u128 = 0;
    let mut i: usize = 0;
    while i < n
        invariant
            i <= n,
            n == delegations@.len(),
        decreases n - i,
    {
        if delegations[i].validator_id == vid {
            total = sat_add_u128(total, delegations[i].stake);
        }
        i += 1;
    }
    total
}

/// The gas the payloads of a transaction list are priced at, in block order.
pub open spec fn spec_gas_sum(txs: Seq<Tx>) -> int
    decreases txs.len(),
{
    if txs.len() == 0 {
        0
    } else {
        spec_gas_sum(txs.drop_last()) + crate::tx::spec_gas_cost(txs.last().payload@)
    }
}

proof fn lemma_gas_sum_prefix(s: Seq<Tx>, i: int)
    requires
        0 <= i <= s.len(),
    ensures
        spec_gas_sum(s.take(i)) <= spec_gas_sum(s),
        spec_gas_sum(s.take(i)) >= 0,
    decreases s.len() - i,
{
    if i == s.len() {
        assert(s.take(i) =~= s);
        lemma_gas_sum_nonneg(s);
    } else {
        lemma_gas_sum_prefix(s, i + 1);
        assert(s.take(i + 1).drop_last() =~= s.take(i));
        assert(s.take(i + 1).last() == s[i]);
        lemma_gas_sum_nonneg(s.take(i));
    }
}

proof fn lemma_gas_sum_nonneg(s: Seq<Tx>)
    ensures
        spec_gas_sum(s) >= 0,
    decreases s.len(),
{
    if s.len() > 0 {
        lemma_gas_sum_nonneg(s.drop_last());
    }
}

/// One transaction's step: the admission checks held against the state it
/// met, its fee was defined, its payload effect relates the two states, and
/// the supply was conserved.
pub open spec fn spec_tx_step(
    cfg: ExecutionConfig,
    pre: ChainState,
    post: ChainState,
    t: crate::tx::TxV,
    height: u64,
) -> bool {
    &&& spec_gate_ok(t, cfg, pre)
    &&& (spec_gas_fee(t, cfg.base_fee) matches Some(fee) && spec_payload_effect(
        cfg,
        pre,
        post,
        t,
        spec_tx_sender(t),
        fee,
        height,
    ))
    &&& post.total_supply == pre.total_supply
    &&& supply_measure(post) == supply_measure(pre)
}

/// The transactions were applied strictly in block order: a chain of
/// intermediate states links the pre-state to the post-state, one step per
/// transaction.
pub open spec fn spec_txs_applied(
    cfg: ExecutionConfig,
    pre: ChainState,
    post: ChainState,
    txs: Seq<Tx>,
    height: u64,
) -> bool
    decreases txs.len(),
{
    if txs.len() == 0 {
        post == pre
    } else {
        exists|mid: ChainState|
            #![trigger spec_tx_step(cfg, mid, post, txs.last()@, height)]
            spec_txs_applied(cfg, pre, mid, txs.drop_last(), height) && spec_tx_step(
                cfg,
                mid,
                post,
                txs.last()@,
                height,
            )
    }
}

/// Applies a whole block: every transaction in order, then matured
/// unbondings, then the inflation mint, then the state commitment. A chain
/// whose books balanced before the block balances after it: the measure and
/// the recorded supply both grow by exactly the minted amount.
pub fn apply_block<V: DomainVm>(
    cfg: &ExecutionConfig,
    state: &mut ChainState,
    domains: &mut DomainRuntime,
    vm: &V,
    block: &crate::block::Block,
) -> (r: Result<BlockApplyResult, ExecError>)
    requires
        accts_unique(old(state).accounts@),
        config_wf(*cfg),
    ensures
        accts_unique(final(state).accounts@),
        match r {
            Ok(out) => {
                &&& supply_measure(*final(state)) == supply_measure(*old(state)) + (final(state).total_supply - old(state).total_supply)
                &&& final(state).total_supply >= old(state).total_supply
                &&& (supply_ok(*old(state)) ==> supply_ok(*final(state)))
                &&& out.gas_used <= cfg.max_gas_per_block
                &&& out.state_root@ == crate::root::spec_state_root(*final(state))
                &&& ((forall|j: int|
                    0 <= j < block.transactions@.len() ==> !((
                    #[trigger] block.transactions@[j]).payload@ is DomainExecute))
                    && spec_gas_sum(block.transactions@) <= u64::MAX ==> out.gas_used
                    == spec_gas_sum(block.transactions@))
                &&& exists|mid: ChainState, mid2: ChainState|
                    #![trigger spec_block_mint(mid, *cfg), spec_block_mint(mid2, *cfg)]
                    {
                        &&& spec_txs_applied(
                            *cfg,
                            *old(state),
                            mid,
                            block.transactions@,
                            block.header.height,
                        )
                        &&& mid.total_supply == old(state).total_supply
                        &&& (forall|a: Seq<u8>|
                            balance_of(mid2.accounts@, a) == balance_of(mid.accounts@, a)
                                + matured_sum(mid.pending_unbonds@, a, block.header.height))
                        &&& (forall|j: int|
                            0 <= j < mid2.pending_unbonds@.len() ==> (
                            #[trigger] mid2.pending_unbonds@[j]).release_height
                                > block.header.height)
                        &&& mid2.validators == mid.validators
                        &&& mid2.total_supply == mid.total_supply
                        &&& (forall|a: Seq<u8>|
                            balance_of(final(state).accounts@, a) >= balance_of(
                                mid2.accounts@,
                                a,
                            ))
                        &&& final(state).pending_unbonds == mid2.pending_unbonds
                        &&& final(state).total_supply == old(state).total_supply
                            + spec_block_mint(mid, *cfg)
                    }
            },
            Err(_) => true,
        },
        (block.transactions@.len() == 0 && supply_ok(*old(state))) ==> (r is Ok || r == Err::<
            BlockApplyResult,
            ExecError,
        >(ExecError::Overflow)),
        (block.transactions@.len() == 0 && supply_ok(*old(state)) && old(state).total_supply
            + spec_block_mint(*old(state), *cfg) <= u128::MAX) ==> r is Ok,
{
    let mut gas_used: u64 = 0;
    let mut events: Vec<Vec<u8>> = Vec::new();
    let n = block.transactions.len();
    let mut i: usize = 0;
    proof {
        assert(block.transactions@.take(0) =~= Seq::<Tx>::empty());
        assert(spec_txs_applied(
            *cfg,
            *old(state),
            *state,
            block.transactions@.take(0),
            block.header.height,
        ));
    }
    while i < n
        invariant
            accts_unique(state.accounts@),
            config_wf(*cfg),
            n == block.transactions@.len(),
            i <= n,
            supply_measure(*state) == supply_measure(*old(state)),
            state.total_supply == old(state).total_supply,
            gas_used <= cfg.max_gas_per_block,
            spec_txs_applied(
                *cfg,
                *old(state),
                *state,
                block.transactions@.take(i as int),
                block.header.height,
            ),
            (forall|j: int|
                0 <= j < n ==> !((#[trigger] block.transactions@[j]).payload@ is DomainExecute))
                && spec_gas_sum(block.transactions@) <= u64::MAX ==> gas_used == spec_gas_sum(
                block.transactions@.take(i as int),
            ),
        decreases n - i,
    {
        let ghost pre_i = *state;
        let outcome = apply_tx(
            cfg,
            state,
            domains,
            vm,
            &block.transactions[i],
            block.header.height,
            block.header.timestamp,
        )?;
        proof {
            let txs = block.transactions@;
            assert(txs.take(i as int + 1).drop_last() =~= txs.take(i as int));
            assert(txs.take(i as int + 1).last() == txs[i as int]);
            assert(spec_tx_step(*cfg, pre_i, *state, txs[i as int]@, block.header.height));
            assert(spec_tx_step(
                *cfg,
                pre_i,
                *state,
                txs.take(i as int + 1).last()@,
                block.header.height,
            ));
            assert(spec_txs_applied(
                *cfg,
                *old(state),
                *state,
                txs.take(i as int + 1),
                block.header.height,
            ));
        }
        proof {
            let txs = block.transactions@;
            if (forall|j: int| 0 <= j < n ==> !((#[trigger] txs[j]).payload@ is DomainExecute))
                && spec_gas_sum(txs) <= u64::MAX {
                lemma_gas_sum_prefix(txs, i as int + 1);
                assert(!(txs[i as int].payload@ is DomainExecute));
                assert(outcome.gas_used == crate::tx::spec_gas_cost(txs[i as int].payload@));
                assert(spec_gas_sum(txs.take(i as int + 1)) == spec_gas_sum(txs.take(i as int))
                    + crate::tx::spec_gas_cost(txs[i as int].payload@));
                assert(gas_used + outcome.gas_used <= u64::MAX);
            }
        }
        gas_used = if u64::MAX - outcome.gas_used < gas_used {
            u64::MAX
        } else {
            gas_used + outcome.gas_used
        };
        let mut outcome_events = outcome.events;
        let mut k: usize = 0;
        let en = outcome_events.len();
        while k < en
            invariant
                k <= en,
                en == outcome_events@.len(),
            decreases en - k,
        {
            let mut e: Vec<u8> = Vec::new();
            copy_bytes(&mut e, &outcome_events[k]);
            events.push(e);
            k += 1;
        }
        if gas_used > cfg.max_gas_per_block {
            return Err(ExecError::BlockGasExceeded);
        }
        i += 1;
    }
    let ghost mid = *state;
    proof {
        assert(block.transactions@.take(n as int) =~= block.transactions@);
        if block.transactions@.len() == 0 {
            assert(mid == *old(state));
        }
    }
    process_unbondings(state, block.header.height)?;
    let ghost mid2 = *state;
    proof {
        assert(mid2.validators == mid.validators);
        assert(mid2.total_supply == mid.total_supply);
        assert(spec_block_mint(mid2, *cfg) == spec_block_mint(mid, *cfg));
        if supply_ok(*old(state)) {
            assert(supply_ok(mid2));
        }
    }
    let minted = apply_inflation_rewards(cfg, state, &block.header.proposer_id, block.header.height)?;
    proof {
        assert(spec_txs_applied(
            *cfg,
            *old(state),
            mid,
            block.transactions@,
            block.header.height,
        ));
        assert(state.total_supply == old(state).total_supply + spec_block_mint(mid, *cfg));
    }
    if minted > 0 {
        events.push(event_bytes(23));
    }
    let state_root = crate::root::state_root(state);
    Ok(BlockApplyResult { state_root, gas_used, events })
}

/// The balances a genesis file funds, in total.
pub open spec fn genesis_acct_total(s: Seq<(Vec<u8>, u128)>) -> int
    decreases s.len(),
{
    if s.len() == 0 {
        0
    } else {
        genesis_acct_total(s.drop_last()) + s.last().1
    }
}

/// The stake a genesis file bonds, in total.
pub open spec fn genesis_stake_total(s: Seq<GenesisValidator>) -> int
    decreases s.len(),
{
    if s.len() == 0 {
        0
    } else {
        genesis_stake_total(s.drop_last()) + s.last().stake
    }
}

proof fn lemma_genesis_acct_prefix(s: Seq<(Vec<u8>, u128)>, i: int)
    requires
        0 <= i <= s.len(),
    ensures
        genesis_acct_total(s.take(i)) <= genesis_acct_total(s),
        genesis_acct_total(s.take(i)) >= 0,
    decreases s.len() - i,
{
    if i == s.len() {
        assert(s.take(i) =~= s);
        lemma_genesis_acct_nonneg(s);
    } else {
        lemma_genesis_acct_prefix(s, i + 1);
        assert(s.take(i + 1).drop_last() =~= s.take(i));
        assert(s.take(i + 1).last() == s[i]);
        lemma_genesis_acct_nonneg(s.take(i));
    }
}

proof fn lemma_genesis_acct_nonneg(s: Seq<(Vec<u8>, u128)>)
    ensures
        genesis_acct_total(s) >= 0,
    decreases s.len(),
{
    if s.len() > 0 {
        lemma_genesis_acct_nonneg(s.drop_last());
    }
}

proof fn lemma_genesis_stake_prefix(s: Seq<GenesisValidator>, i: int)
    requires
        0 <= i <= s.len(),
    ensures
        genesis_stake_total(s.take(i)) <= genesis_stake_total(s),
        genesis_stake_total(s.take(i)) >= 0,
    decreases s.len() - i,
{
    if i == s.len() {
        assert(s.take(i) =~= s);
        lemma_genesis_stake_nonneg(s);
    } else {
        lemma_genesis_stake_prefix(s, i + 1);
        assert(s.take(i + 1).drop_last() =~= s.take(i));
        assert(s.take(i + 1).last() == s[i]);
        lemma_genesis_stake_nonneg(s.take(i));
    }
}

proof fn lemma_genesis_stake_nonneg(s: Seq<GenesisValidator>)
    ensures
        genesis_stake_total(s) >= 0,
    decreases s.len(),
{
    if s.len() > 0 {
        lemma_genesis_stake_nonneg(s.drop_last());
    }
}

/// Builds the chain's configuration and initial state from a genesis file.
/// The initial supply, when not given, is the sum of the funded balances and
/// bonded stakes, so the books balance from the first block.
pub fn from_genesis(genesis: &GenesisConfig) -> (r: Result<
    (ExecutionConfig, ChainState),
    ExecError,
>)
    requires
        genesis.fee_split.l1_gas_burn_pct <= 100,
        genesis.fee_split.l1_gas_validators_pct <= 100,
        genesis.reward_params.treasury_pct <= 100,
        genesis.reward_params.proposer_bonus_pct <= 100,
        genesis.block_time_ms >= 1,
        forall|i: int, j: int|
            #![trigger genesis.initial_accounts@[i], genesis.initial_accounts@[j]]
            0 <= i < j < genesis.initial_accounts@.len() ==> genesis.initial_accounts@[i].0@
                != genesis.initial_accounts@[j].0@,
    ensures
        genesis_acct_total(genesis.initial_accounts@) + genesis_stake_total(
            genesis.initial_validators@,
        ) <= u128::MAX ==> r is Ok,
        match r {
            Ok((cfg, state)) => {
                &&& config_wf(cfg)
                &&& accts_unique(state.accounts@)
                &&& (genesis.initial_total_supply == 0 ==> supply_ok(state))
                &&& state.total_supply == (if genesis.initial_total_supply == 0 {
                    genesis_acct_total(genesis.initial_accounts@) + genesis_stake_total(
                        genesis.initial_validators@,
                    )
                } else {
                    genesis.initial_total_supply as int
                })
                &&& (forall|i: int|
                    0 <= i < genesis.initial_accounts@.len() ==> balance_of(
                        state.accounts@,
                        (#[trigger] genesis.initial_accounts@[i]).0@,
                    ) == genesis.initial_accounts@[i].1)
                &&& state.validators@.len() == genesis.initial_validators@.len()
                &&& (forall|j: int|
                    0 <= j < genesis.initial_validators@.len() ==> {
                        let v = #[trigger] state.validators@[j];
                        let gv = genesis.initial_validators@[j];
                        &&& v.owner@ == crate::crypto::blake3_of(gv.pubkey@)
                        &&& v.id == crate::crypto::uuid_v5_of(gv.pubkey@)
                        &&& v.pubkey@ == gv.pubkey@
                        &&& v.stake == gv.stake
                        &&& v.status is Active
                        &&& v.commission_rate == gv.commission_rate
                    })
                &&& state.pending_unbonds@.len() == 0
                &&& state.privacy_pool.total_shielded == 0
                &&& (forall|a: Seq<u8>| nonce_of(state.accounts@, a) == 0)
                &&& state.fee_pools.l1_gas == 0
                &&& state.fee_pools.da == 0
                &&& state.fee_pools.sequencer == 0
                &&& state.fee_pools.treasury == 0
                &&& state.last_reward_height == 0
                &&& state.delegations@.len() == 0
                &&& cfg.chain_id@ == genesis.chain_id@
                &&& cfg.base_fee == genesis.base_fee
                &&& cfg.max_gas_per_block == genesis.max_gas_per_block
                &&& cfg.unbonding_delay_blocks == genesis.unbonding_delay_blocks
                &&& cfg.fee_split == genesis.fee_split
                &&& cfg.block_time_ms == genesis.block_time_ms
                &&& cfg.da_sample_count == genesis.da_sample_count
                &&& cfg.slashing_double_sign == genesis.slashing_double_sign
                &&& cfg.reward_params == genesis.reward_params
                &&& cfg.slash_penalty_bps == genesis.slash_penalty_bps
            },
            Err(e) => e == ExecError::Overflow,
        },
{
    let mut state = ChainState::empty();
    proof {
        assert(state.accounts@ =~= Seq::<Account>::empty());
        assert(accts_unique(state.accounts@));
        assert(supply_measure(state) == 0);
    }
    let mut funded: u128 = 0;
    let n = genesis.initial_accounts.len();
    let mut i: usize = 0;
    proof {
        assert(genesis.initial_accounts@.take(0) =~= Seq::<(Vec<u8>, u128)>::empty());
    }
    while i < n
        invariant
            accts_unique(state.accounts@),
            n == genesis.initial_accounts@.len(),
            i <= n,
            supply_measure(state) == funded,
            funded == genesis_acct_total(genesis.initial_accounts@.take(i as int)),
            state.total_supply == 0,
            state.validators@.len() == 0,
            state.pending_unbonds@.len() == 0,
            state.privacy_pool.total_shielded == 0,
            state.fee_pools.l1_gas == 0 && state.fee_pools.da == 0 && state.fee_pools.sequencer
                == 0 && state.fee_pools.treasury == 0,
            forall|a: Seq<u8>| nonce_of(state.accounts@, a) == 0,
            state.last_reward_height == 0,
            state.delegations@.len() == 0,
            forall|i2: int, j2: int|
                #![trigger genesis.initial_accounts@[i2], genesis.initial_accounts@[j2]]
                0 <= i2 < j2 < genesis.initial_accounts@.len() ==> genesis.initial_accounts@[i2].0@
                    != genesis.initial_accounts@[j2].0@,
            forall|k: int|
                0 <= k < i ==> balance_of(
                    state.accounts@,
                    (#[trigger] genesis.initial_accounts@[k]).0@,
                ) == genesis.initial_accounts@[k].1,
            forall|k: int|
                i <= k < n ==> balance_of(
                    state.accounts@,
                    (#[trigger] genesis.initial_accounts@[k]).0@,
                ) == 0,
        decreases n - i,
    {
        let addr = &genesis.initial_accounts[i].0;
        let amount = genesis.initial_accounts[i].1;
        if !can_credit(&state, addr, amount) {
            proof {
                assert(balance_of(state.accounts@, addr@) == 0);
                assert(false);
            }
            return Err(ExecError::Overflow);
        }
        if u128::MAX - amount < funded {
            proof {
                if genesis_acct_total(genesis.initial_accounts@) + genesis_stake_total(
                    genesis.initial_validators@,
                ) <= u128::MAX {
                    lemma_genesis_acct_prefix(genesis.initial_accounts@, i as int + 1);
                    lemma_genesis_stake_nonneg(genesis.initial_validators@);
                    assert(genesis.initial_accounts@.take(i as int + 1).drop_last()
                        =~= genesis.initial_accounts@.take(i as int));
                    assert(genesis.initial_accounts@.take(i as int + 1).last()
                        == genesis.initial_accounts@[i as int]);
                    assert(false);
                }
            }
            return Err(ExecError::Overflow);
        }
        credit_account(&mut state, addr, amount);
        funded = funded + amount;
        proof {
            assert(genesis.initial_accounts@.take(i as int + 1).drop_last()
                =~= genesis.initial_accounts@.take(i as int));
            assert(genesis.initial_accounts@.take(i as int + 1).last()
                == genesis.initial_accounts@[i as int]);
        }
        i += 1;
    }
    proof {
        assert(genesis.initial_accounts@.take(n as int) =~= genesis.initial_accounts@);
    }
    let vn = genesis.initial_validators.len();
    let mut v: usize = 0;
    let ghost acct_total = funded as int;
    proof {
        assert(genesis.initial_validators@.take(0) =~= Seq::<GenesisValidator>::empty());
    }
    while v < vn
        invariant
            accts_unique(state.accounts@),
            vn == genesis.initial_validators@.len(),
            v <= vn,
            supply_measure(state) == funded,
            acct_total == genesis_acct_total(genesis.initial_accounts@),
            funded == acct_total + genesis_stake_total(
                genesis.initial_validators@.take(v as int),
            ),
            state.total_supply == 0,
            state.pending_unbonds@.len() == 0,
            state.privacy_pool.total_shielded == 0,
            state.fee_pools.l1_gas == 0 && state.fee_pools.da == 0 && state.fee_pools.sequencer
                == 0 && state.fee_pools.treasury == 0,
            forall|a: Seq<u8>| nonce_of(state.accounts@, a) == 0,
            state.last_reward_height == 0,
            state.delegations@.len() == 0,
            state.validators@.len() == v,
            forall|i2: int|
                0 <= i2 < genesis.initial_accounts@.len() ==> balance_of(
                    state.accounts@,
                    (#[trigger] genesis.initial_accounts@[i2]).0@,
                ) == genesis.initial_accounts@[i2].1,
            forall|j: int|
                0 <= j < v ==> {
                    let val = #[trigger] state.validators@[j];
                    let gval = genesis.initial_validators@[j];
                    &&& val.owner@ == crate::crypto::blake3_of(gval.pubkey@)
                    &&& val.id == crate::crypto::uuid_v5_of(gval.pubkey@)
                    &&& val.pubkey@ == gval.pubkey@
                    &&& val.stake == gval.stake
                    &&& val.status is Active
                    &&& val.commission_rate == gval.commission_rate
                },
        decreases vn - v,
    {
        let gv = &genesis.initial_validators[v];
        if u128::MAX - gv.stake < funded {
            proof {
                if genesis_acct_total(genesis.initial_accounts@) + genesis_stake_total(
                    genesis.initial_validators@,
                ) <= u128::MAX {
                    lemma_genesis_stake_prefix(genesis.initial_validators@, v as int + 1);
                    assert(genesis.initial_validators@.take(v as int + 1).drop_last()
                        =~= genesis.initial_validators@.take(v as int));
                    assert(genesis.initial_validators@.take(v as int + 1).last()
                        == genesis.initial_validators@[v as int]);
                    assert(false);
                }
            }
            return Err(ExecError::Overflow);
        }
        let id = uuid_v5_from_name(&gv.pubkey);
        let owner = crate::tx::address_from_pubkey(&gv.pubkey);
        let mut pk: Vec<u8> = Vec::new();
        copy_bytes(&mut pk, &gv.pubkey);
        let val = Validator {
            owner,
            id,
            pubkey: pk,
            stake: gv.stake,
            status: ValidatorStatus::Active,
            commission_rate: gv.commission_rate,
        };
        proof {
            lemma_sum_stakes_push(state.validators@, val);
        }
        state.validators.push(val);
        funded = funded + gv.stake;
        proof {
            assert(genesis.initial_validators@.take(v as int + 1).drop_last()
                =~= genesis.initial_validators@.take(v as int));
            assert(genesis.initial_validators@.take(v as int + 1).last()
                == genesis.initial_validators@[v as int]);
        }
        v += 1;
    }
    proof {
        assert(genesis.initial_validators@.take(vn as int) =~= genesis.initial_validators@);
    }
    if genesis.initial_total_supply == 0 {
        state.total_supply = funded;
    } else {
        state.total_supply = genesis.initial_total_supply;
    }
    let mut chain_id: Vec<u8> = Vec::new();
    copy_bytes(&mut chain_id, &genesis.chain_id);
    proof {
        assert(chain_id@ =~= genesis.chain_id@);
    }
    let cfg = ExecutionConfig {
        fee_split: genesis.fee_split,
        chain_id,
        base_fee: genesis.base_fee,
        max_gas_per_block: genesis.max_gas_per_block,
        block_time_ms: genesis.block_time_ms,
        da_sample_count: genesis.da_sample_count,
        slashing_double_sign: genesis.slashing_double_sign,
        reward_params: genesis.reward_params,
        unbonding_delay_blocks: genesis.unbonding_delay_blocks,
        slash_penalty_bps: genesis.slash_penalty_bps,
    };
    Ok((cfg, state))
}

// ---------------------------------------------------------------------------
// Per-payload semantics: what each payload does on success, and on which
// inputs success is owed.
// ---------------------------------------------------------------------------

/// The validator share of a routed fee.
pub open spec fn vshare_of(fee: int, pct: u8) -> int {
    fee * (pct as int) / 100
}

/// The fee pools after routing one gas fee: the validator share to the gas
/// pool, the rest (plus `extra_treasury`) to the treasury.
pub open spec fn pools_routed(
    pre: ChainState,
    post: ChainState,
    fee: int,
    pct: u8,
    extra_treasury: int,
) -> bool {
    &&& post.fee_pools.l1_gas == pre.fee_pools.l1_gas + vshare_of(fee, pct)
    &&& post.fee_pools.treasury == pre.fee_pools.treasury + (fee - vshare_of(fee, pct))
        + extra_treasury
    &&& post.fee_pools.da == pre.fee_pools.da
    &&& post.fee_pools.sequencer == pre.fee_pools.sequencer
}

/// The delegation rows after a slash: every row to the slashed validator
/// takes its pro-rata cut, and rows whose stake reaches zero are compacted
/// away; other rows are untouched.
pub open spec fn slashed_delegations(
    s: Seq<Delegation>,
    vid: u128,
    penalty: u128,
    stake_before: u128,
) -> Seq<Delegation>
    decreases s.len(),
{
    if s.len() == 0 {
        Seq::empty()
    } else {
        let rest = slashed_delegations(s.drop_last(), vid, penalty, stake_before);
        let d = s.last();
        if d.validator_id == vid {
            let cut = spec_delegation_cut(d.stake, penalty, stake_before);
            if d.stake - cut == 0 {
                rest
            } else {
                rest.push(
                    Delegation {
                        delegator: d.delegator,
                        validator_id: d.validator_id,
                        stake: (d.stake - cut) as u128,
                    },
                )
            }
        } else {
            rest.push(d)
        }
    }
}

/// The gas fee a transaction pays, when its price and the product fit.
pub open spec fn spec_gas_fee(t: crate::tx::TxV, base_fee: u128) -> Option<int> {
    match crate::tx::spec_effective_gas_price(t, base_fee) {
        None => None,
        Some(p) => {
            let gas = crate::tx::spec_gas_cost(t.payload) as int;
            if p != 0 && gas > (u128::MAX as int) / (p as int) {
                None
            } else {
                Some(gas * (p as int))
            }
        },
    }
}

/// The pro-rata cut a slash takes from one delegation row, mirroring the
/// saturating arithmetic of the implementation.
pub open spec fn spec_delegation_cut(dstake: u128, penalty: u128, stake_before: u128) -> int {
    let scaled = if penalty > 0 && dstake > u128::MAX / penalty {
        u128::MAX as int
    } else {
        (dstake as int) * (penalty as int)
    };
    let cut = scaled / (stake_before as int);
    if cut > dstake {
        dstake as int
    } else {
        cut
    }
}

/// The effective slashing rate in basis points.
pub open spec fn spec_effective_bps(penalty_bps: u16, default_bps: u16) -> u16 {
    let bps = if penalty_bps == 0 {
        default_bps
    } else {
        penalty_bps
    };
    if bps > 10_000 {
        10_000
    } else {
        bps
    }
}

/// What a successful transaction of each payload kind does to the chain
/// state, given the sender and the gas fee it paid.
#[verifier::opaque]
pub open spec fn spec_payload_effect(
    cfg: ExecutionConfig,
    pre: ChainState,
    post: ChainState,
    t: crate::tx::TxV,
    sender: Seq<u8>,
    fee: int,
    height: u64,
) -> bool {
    let pct = cfg.fee_split.l1_gas_validators_pct;
    match t.payload {
        crate::tx::TxPayloadV::Transfer { to, amount } => {
            &&& pools_routed(pre, post, fee, pct, 0)
            &&& (to == sender ==> balance_of(post.accounts@, sender) == balance_of(
                pre.accounts@,
                sender,
            ) - fee)
            &&& (to != sender ==> balance_of(post.accounts@, sender) == balance_of(
                pre.accounts@,
                sender,
            ) - amount - fee && balance_of(post.accounts@, to) == balance_of(pre.accounts@, to)
                + amount)
            &&& (forall|a: Seq<u8>|
                a != sender && a != to ==> balance_of(post.accounts@, a) == balance_of(
                    pre.accounts@,
                    a,
                ))
            &&& post.validators == pre.validators
            &&& post.pending_unbonds == pre.pending_unbonds
            &&& post.privacy_pool == pre.privacy_pool
        },
        crate::tx::TxPayloadV::Stake { amount } => {
            &&& pools_routed(pre, post, fee, pct, 0)
            &&& balance_of(post.accounts@, sender) == balance_of(pre.accounts@, sender) - amount
                - fee
            &&& (has_validator_owned(pre.validators@, sender) ==> exists|i: int|
                #![trigger pre.validators@[i]]
                {
                    &&& 0 <= i < pre.validators@.len()
                    &&& pre.validators@[i].owner@ == sender
                    &&& (forall|j: int| 0 <= j < i ==> pre.validators@[j].owner@ != sender)
                    &&& post.validators@ == pre.validators@.update(i, post.validators@[i])
                    &&& post.validators@[i].stake == pre.validators@[i].stake + amount
                    &&& post.validators@[i].status is Active
                    &&& post.validators@[i].owner == pre.validators@[i].owner
                    &&& post.validators@[i].id == pre.validators@[i].id
                })
            &&& (!has_validator_owned(pre.validators@, sender) ==> post.validators@
                == pre.validators@.push(post.validators@.last()) && post.validators@.last().owner@
                == sender && post.validators@.last().id == crate::crypto::uuid_v5_of(t.public_key)
                && post.validators@.last().pubkey@ == t.public_key
                && post.validators@.last().stake == amount
                && post.validators@.last().status is Active
                && post.validators@.last().commission_rate == 0)
            &&& post.pending_unbonds == pre.pending_unbonds
            &&& post.privacy_pool == pre.privacy_pool
        },
        crate::tx::TxPayloadV::Unstake { amount } => {
            &&& pools_routed(pre, post, fee, pct, 0)
            &&& balance_of(post.accounts@, sender) == balance_of(pre.accounts@, sender) - fee
            &&& exists|i: int|
                #![trigger pre.validators@[i]]
                {
                    &&& 0 <= i < pre.validators@.len()
                    &&& pre.validators@[i].owner@ == sender
                    &&& (forall|j: int| 0 <= j < i ==> pre.validators@[j].owner@ != sender)
                    &&& post.validators@ == pre.validators@.update(i, post.validators@[i])
                    &&& post.validators@[i].stake == pre.validators@[i].stake - amount
                    &&& (pre.validators@[i].stake == amount ==> post.validators@[i].status
                        is Exited)
                    &&& post.pending_unbonds@ == pre.pending_unbonds@.push(
                        post.pending_unbonds@.last(),
                    )
                    &&& post.pending_unbonds@.last().owner@ == sender
                    &&& post.pending_unbonds@.last().amount == amount
                    &&& post.pending_unbonds@.last().validator_id == Some(pre.validators@[i].id)
                    &&& post.pending_unbonds@.last().release_height == (if u64::MAX
                        - cfg.unbonding_delay_blocks < height {
                        u64::MAX as int
                    } else {
                        height + cfg.unbonding_delay_blocks
                    })
                }
            &&& post.privacy_pool == pre.privacy_pool
        },
        crate::tx::TxPayloadV::Delegate { validator, amount } => {
            &&& pools_routed(pre, post, fee, pct, 0)
            &&& balance_of(post.accounts@, sender) == balance_of(pre.accounts@, sender) - amount
                - fee
            &&& exists|i: int|
                #![trigger pre.validators@[i]]
                {
                    &&& 0 <= i < pre.validators@.len()
                    &&& pre.validators@[i].owner@ == validator
                    &&& (forall|j: int| 0 <= j < i ==> pre.validators@[j].owner@ != validator)
                    &&& post.validators@ == pre.validators@.update(i, post.validators@[i])
                    &&& post.validators@[i].stake == pre.validators@[i].stake + amount
                    &&& post.delegations@ == pre.delegations@.push(post.delegations@.last())
                    &&& post.delegations@.last().delegator@ == sender
                    &&& post.delegations@.last().validator_id == pre.validators@[i].id
                    &&& post.delegations@.last().stake == amount
                }
            &&& post.pending_unbonds == pre.pending_unbonds
            &&& post.privacy_pool == pre.privacy_pool
        },
        crate::tx::TxPayloadV::Undelegate { validator, amount } => {
            &&& pools_routed(pre, post, fee, pct, 0)
            &&& balance_of(post.accounts@, sender) == balance_of(pre.accounts@, sender) - fee
            &&& exists|i: int|
                #![trigger pre.validators@[i]]
                {
                    &&& 0 <= i < pre.validators@.len()
                    &&& pre.validators@[i].owner@ == validator
                    &&& (forall|j: int| 0 <= j < i ==> pre.validators@[j].owner@ != validator)
                    &&& post.validators@ == pre.validators@.update(i, post.validators@[i])
                    &&& post.validators@[i].stake == pre.validators@[i].stake - amount
                    &&& post.pending_unbonds@ == pre.pending_unbonds@.push(
                        post.pending_unbonds@.last(),
                    )
                    &&& post.pending_unbonds@.last().owner@ == sender
                    &&& post.pending_unbonds@.last().amount == amount
                    &&& post.pending_unbonds@.last().release_height == (if u64::MAX
                        - cfg.unbonding_delay_blocks < height {
                        u64::MAX as int
                    } else {
                        height + cfg.unbonding_delay_blocks
                    })
                }
            &&& post.privacy_pool == pre.privacy_pool
        },
        crate::tx::TxPayloadV::Slash { validator, penalty_bps, .. } => {
            &&& balance_of(post.accounts@, sender) == balance_of(pre.accounts@, sender) - fee
            &&& exists|i: int|
                #![trigger pre.validators@[i]]
                {
                    let penalty = (pre.validators@[i].stake as int) * (spec_effective_bps(
                        penalty_bps,
                        cfg.slash_penalty_bps,
                    ) as int) / 10_000;
                    &&& 0 <= i < pre.validators@.len()
                    &&& pre.validators@[i].owner@ == validator
                    &&& (forall|j: int| 0 <= j < i ==> pre.validators@[j].owner@ != validator)
                    &&& post.validators@[i].stake == pre.validators@[i].stake - penalty
                    &&& post.validators@.len() == pre.validators@.len()
                    &&& (post.validators@[i].stake == 0 ==> post.validators@[i].status is Jailed)
                    &&& post.fee_pools.treasury == pre.fee_pools.treasury + (fee - vshare_of(
                        fee,
                        pct,
                    )) + penalty
                    &&& post.fee_pools.l1_gas == pre.fee_pools.l1_gas + vshare_of(fee, pct)
                    &&& post.delegations@ == slashed_delegations(
                        pre.delegations@,
                        pre.validators@[i].id,
                        penalty as u128,
                        pre.validators@[i].stake,
                    )
                }
            &&& post.pending_unbonds == pre.pending_unbonds
            &&& post.privacy_pool == pre.privacy_pool
        },
        crate::tx::TxPayloadV::PrivacyDeposit { commitment, amount } => {
            &&& pools_routed(pre, post, fee, pct, 0)
            &&& amount > 0
            &&& !contains_bytes(pre.privacy_pool.commitments@, commitment)
            &&& balance_of(post.accounts@, sender) == balance_of(pre.accounts@, sender) - amount
                - fee
            &&& views_of(post.privacy_pool.commitments@) == views_of(
                pre.privacy_pool.commitments@,
            ).push(commitment)
            &&& post.privacy_pool.total_shielded == pre.privacy_pool.total_shielded + amount
            &&& post.privacy_pool.merkle_root@ == spec_pool_root(
                views_of(post.privacy_pool.commitments@),
            )
            &&& post.privacy_pool.nullifiers == pre.privacy_pool.nullifiers
            &&& post.validators == pre.validators
            &&& post.pending_unbonds == pre.pending_unbonds
        },
        crate::tx::TxPayloadV::PrivacyWithdraw {
            nullifier,
            recipient,
            amount,
            merkle_root,
            commitment,
            proof: prf,
        } => {
            &&& pools_routed(pre, post, fee, pct, 0)
            &&& amount > 0
            &&& !contains_bytes(pre.privacy_pool.nullifiers@, nullifier)
            &&& pre.privacy_pool.merkle_root@ == merkle_root
            &&& contains_bytes(pre.privacy_pool.commitments@, commitment)
            &&& crate::zk_privacy::spec_stub_artifact_ok(
                prf,
                crate::zk_privacy::PrivacyWithdrawInputV {
                    nullifier,
                    merkle_root,
                    recipient,
                    amount,
                    commitment,
                },
            )
            &&& (recipient == sender ==> balance_of(post.accounts@, sender) == balance_of(
                pre.accounts@,
                sender,
            ) - fee + amount)
            &&& (recipient != sender ==> balance_of(post.accounts@, sender) == balance_of(
                pre.accounts@,
                sender,
            ) - fee && balance_of(post.accounts@, recipient) == balance_of(
                pre.accounts@,
                recipient,
            ) + amount)
            &&& views_of(post.privacy_pool.nullifiers@) == views_of(
                pre.privacy_pool.nullifiers@,
            ).push(nullifier)
            &&& post.privacy_pool.total_shielded == pre.privacy_pool.total_shielded - amount
            &&& post.privacy_pool.commitments == pre.privacy_pool.commitments
            &&& post.privacy_pool.merkle_root == pre.privacy_pool.merkle_root
            &&& post.validators == pre.validators
            &&& post.pending_unbonds == pre.pending_unbonds
        },
        crate::tx::TxPayloadV::RollupBridgeDeposit { amount, .. } => {
            &&& balance_of(post.accounts@, sender) == balance_of(pre.accounts@, sender) - amount
                - fee
            &&& post.fee_pools.treasury == pre.fee_pools.treasury + (fee - vshare_of(fee, pct))
                + amount
            &&& post.fee_pools.l1_gas == pre.fee_pools.l1_gas + vshare_of(fee, pct)
            &&& post.validators == pre.validators
            &&& post.pending_unbonds == pre.pending_unbonds
            &&& post.privacy_pool == pre.privacy_pool
        },
        crate::tx::TxPayloadV::RollupBridgeWithdraw { amount, .. } => {
            &&& balance_of(post.accounts@, sender) == balance_of(pre.accounts@, sender) - fee
                + amount
            &&& post.fee_pools.treasury == pre.fee_pools.treasury + (fee - vshare_of(fee, pct))
                - amount
            &&& post.fee_pools.l1_gas == pre.fee_pools.l1_gas + vshare_of(fee, pct)
            &&& post.validators == pre.validators
            &&& post.pending_unbonds == pre.pending_unbonds
            &&& post.privacy_pool == pre.privacy_pool
        },
        crate::tx::TxPayloadV::CrossDomainSend { fee: xfee, .. } => {
            &&& balance_of(post.accounts@, sender) == balance_of(pre.accounts@, sender) - xfee
                - fee
            &&& post.fee_pools.treasury == pre.fee_pools.treasury + (fee - vshare_of(fee, pct))
                + xfee
            &&& post.fee_pools.l1_gas == pre.fee_pools.l1_gas + vshare_of(fee, pct)
            &&& post.validators == pre.validators
            &&& post.pending_unbonds == pre.pending_unbonds
            &&& post.privacy_pool == pre.privacy_pool
        },
        crate::tx::TxPayloadV::DomainCreate { domain_id, params } => {
            &&& pools_routed(pre, post, fee, pct, 0)
            &&& balance_of(post.accounts@, sender) == balance_of(pre.accounts@, sender) - fee
            &&& (crate::state::has_domain(pre.domains@, domain_id) ==> post.domains
                == pre.domains)
            &&& (!crate::state::has_domain(pre.domains@, domain_id) ==> post.domains@
                == pre.domains@.push(post.domains@.last()) && post.domains@.last().domain_id
                == domain_id && post.domains@.last().risk_params == params
                && post.domains@.last().kind == params.kind)
            &&& post.validators == pre.validators
            &&& post.pending_unbonds == pre.pending_unbonds
            &&& post.privacy_pool == pre.privacy_pool
        },
        crate::tx::TxPayloadV::DomainConfigUpdate { domain_id, params } => {
            &&& pools_routed(pre, post, fee, pct, 0)
            &&& balance_of(post.accounts@, sender) == balance_of(pre.accounts@, sender) - fee
            &&& (!crate::state::has_domain(pre.domains@, domain_id) ==> post.domains
                == pre.domains)
            &&& (crate::state::has_domain(pre.domains@, domain_id) ==> exists|i: int|
                #![trigger pre.domains@[i]]
                {
                    &&& 0 <= i < pre.domains@.len()
                    &&& pre.domains@[i].domain_id == domain_id
                    &&& post.domains@ == pre.domains@.update(i, post.domains@[i])
                    &&& post.domains@[i].risk_params == params
                    &&& post.domains@[i].domain_id == domain_id
                })
            &&& post.validators == pre.validators
            &&& post.pending_unbonds == pre.pending_unbonds
            &&& post.privacy_pool == pre.privacy_pool
        },
        crate::tx::TxPayloadV::GovernanceProposal { payload, .. } => {
            &&& pools_routed(pre, post, fee, pct, 0)
            &&& balance_of(post.accounts@, sender) == balance_of(pre.accounts@, sender) - fee
            &&& post.proposals@ == pre.proposals@.push(post.proposals@.last())
            &&& post.proposals@.last().status is Active
            &&& post.proposals@.last().proposer@ == sender
            &&& post.proposals@.last().payload@ == payload
            &&& post.validators == pre.validators
            &&& post.pending_unbonds == pre.pending_unbonds
            &&& post.privacy_pool == pre.privacy_pool
        },
        crate::tx::TxPayloadV::SystemUpgrade { .. } => {
            &&& pools_routed(pre, post, fee, pct, 0)
            &&& balance_of(post.accounts@, sender) == balance_of(pre.accounts@, sender) - fee
            &&& post.proposals@ == pre.proposals@.push(post.proposals@.last())
            &&& post.proposals@.last().status is Queued
            &&& post.proposals@.last().proposer@ == sender
            &&& post.validators == pre.validators
            &&& post.pending_unbonds == pre.pending_unbonds
            &&& post.privacy_pool == pre.privacy_pool
        },
        crate::tx::TxPayloadV::GovernanceBridgeApprove { proposal_id } => {
            &&& pools_routed(pre, post, fee, pct, 0)
            &&& balance_of(post.accounts@, sender) == balance_of(pre.accounts@, sender) - fee
            &&& exists|i: int|
                #![trigger pre.proposals@[i]]
                {
                    &&& 0 <= i < pre.proposals@.len()
                    &&& pre.proposals@[i].id == proposal_id
                    &&& post.proposals@ == pre.proposals@.update(i, post.proposals@[i])
                    &&& post.proposals@[i].approvals@.len() == pre.proposals@[i].approvals@.len()
                        + 1
                    &&& post.proposals@[i].approvals@.last()@ == sender
                }
            &&& post.validators == pre.validators
            &&& post.pending_unbonds == pre.pending_unbonds
            &&& post.privacy_pool == pre.privacy_pool
        },
        crate::tx::TxPayloadV::GovernanceExecute { proposal_id } => {
            &&& pools_routed(pre, post, fee, pct, 0)
            &&& balance_of(post.accounts@, sender) == balance_of(pre.accounts@, sender) - fee
            &&& exists|i: int|
                #![trigger pre.proposals@[i]]
                {
                    &&& 0 <= i < pre.proposals@.len()
                    &&& pre.proposals@[i].id == proposal_id
                    &&& post.proposals@ == pre.proposals@.update(i, post.proposals@[i])
                    &&& post.proposals@[i].status is Executed
                }
            &&& post.validators == pre.validators
            &&& post.pending_unbonds == pre.pending_unbonds
            &&& post.privacy_pool == pre.privacy_pool
        },
        crate::tx::TxPayloadV::GovernanceVote { proposal_id, support } => {
            &&& pools_routed(pre, post, fee, pct, 0)
            &&& balance_of(post.accounts@, sender) == balance_of(pre.accounts@, sender) - fee
            &&& exists|i: int|
                #![trigger pre.proposals@[i]]
                {
                    &&& 0 <= i < pre.proposals@.len()
                    &&& pre.proposals@[i].id == proposal_id
                    &&& post.proposals@.len() == pre.proposals@.len()
                    &&& post.proposals@[i].votes@.len() == pre.proposals@[i].votes@.len() + 1
                    &&& post.proposals@[i].votes@.last().voter@ == sender
                    &&& post.proposals@[i].votes@.last().choice == support
                }
            &&& post.validators == pre.validators
            &&& post.pending_unbonds == pre.pending_unbonds
            &&& post.privacy_pool == pre.privacy_pool
        },
        crate::tx::TxPayloadV::RollupBatchCommit { domain_id, .. } => {
            &&& pools_routed(pre, post, fee, pct, 0)
            &&& balance_of(post.accounts@, sender) == balance_of(pre.accounts@, sender) - fee
            &&& post.da_commitments@.len() == pre.da_commitments@.len() + 1
            &&& post.validators == pre.validators
            &&& post.pending_unbonds == pre.pending_unbonds
            &&& post.privacy_pool == pre.privacy_pool
        },
        crate::tx::TxPayloadV::FraudChallenge { domain_id, claimed_root, .. } => {
            &&& pools_routed(pre, post, fee, pct, 0)
            &&& balance_of(post.accounts@, sender) == balance_of(pre.accounts@, sender) - fee
            &&& crate::state::has_domain_root(post.domain_roots@, domain_id)
            &&& post.validators == pre.validators
            &&& post.pending_unbonds == pre.pending_unbonds
            &&& post.privacy_pool == pre.privacy_pool
        },
        crate::tx::TxPayloadV::CrossDomainRelay { .. } => {
            &&& pools_routed(pre, post, fee, pct, 0)
            &&& balance_of(post.accounts@, sender) == balance_of(pre.accounts@, sender) - fee
            &&& post.validators == pre.validators
            &&& post.pending_unbonds == pre.pending_unbonds
            &&& post.privacy_pool == pre.privacy_pool
        },
        crate::tx::TxPayloadV::DomainExecute(call) => {
            &&& pools_routed(pre, post, fee, pct, 0)
            &&& balance_of(post.accounts@, sender) == balance_of(pre.accounts@, sender) - fee
            &&& crate::state::has_domain_root(post.domain_roots@, call.domain_id)
            &&& post.validators == pre.validators
            &&& post.pending_unbonds == pre.pending_unbonds
            &&& post.privacy_pool == pre.privacy_pool
        },
    }
}

/// On which inputs each payload kind is owed success, assuming the admission
/// gate passed, the gas fee is `fee`, and the chain's books balance (which
/// rules every internal overflow out).
#[verifier::opaque]
pub open spec fn spec_payload_admissible(
    cfg: ExecutionConfig,
    pre: ChainState,
    t: crate::tx::TxV,
    sender: Seq<u8>,
    fee: int,
) -> bool {
    let bal = balance_of(pre.accounts@, sender) as int;
    match t.payload {
        crate::tx::TxPayloadV::Transfer { to, amount } => amount + fee <= u128::MAX && bal
            >= amount + fee,
        crate::tx::TxPayloadV::Stake { amount } => amount + fee <= u128::MAX && bal >= amount
            + fee,
        crate::tx::TxPayloadV::Unstake { amount } => bal >= fee && exists|i: int|
            #![trigger pre.validators@[i]]
            0 <= i < pre.validators@.len() && pre.validators@[i].owner@ == sender && (forall|
                j: int,
            | 0 <= j < i ==> pre.validators@[j].owner@ != sender) && pre.validators@[i].stake
                >= amount,
        crate::tx::TxPayloadV::Delegate { validator, amount } => amount + fee <= u128::MAX && bal
            >= amount + fee && exists|i: int|
            #![trigger pre.validators@[i]]
            0 <= i < pre.validators@.len() && pre.validators@[i].owner@ == validator && (forall|
                j: int,
            | 0 <= j < i ==> pre.validators@[j].owner@ != validator),
        crate::tx::TxPayloadV::Undelegate { validator, amount } => bal >= fee && exists|i: int|
            #![trigger pre.validators@[i]]
            {
                &&& 0 <= i < pre.validators@.len()
                &&& pre.validators@[i].owner@ == validator
                &&& (forall|j: int| 0 <= j < i ==> pre.validators@[j].owner@ != validator)
                &&& pre.validators@[i].stake >= amount
                &&& exists|d: int|
                    #![trigger pre.delegations@[d]]
                    0 <= d < pre.delegations@.len() && pre.delegations@[d].delegator@ == sender
                        && pre.delegations@[d].validator_id == pre.validators@[i].id && (forall|
                        e: int,
                    |
                        0 <= e < d ==> !(pre.delegations@[e].delegator@ == sender
                            && pre.delegations@[e].validator_id == pre.validators@[i].id))
                        && pre.delegations@[d].stake >= amount
            },
        crate::tx::TxPayloadV::Slash { validator, penalty_bps, .. } => bal >= fee && exists|i: int|
            #![trigger pre.validators@[i]]
            {
                &&& 0 <= i < pre.validators@.len()
                &&& pre.validators@[i].owner@ == validator
                &&& (forall|j: int| 0 <= j < i ==> pre.validators@[j].owner@ != validator)
                &&& pre.validators@[i].stake > 0
                &&& (pre.validators@[i].stake as int) * (spec_effective_bps(
                    penalty_bps,
                    cfg.slash_penalty_bps,
                ) as int) / 10_000 > 0
            },
        crate::tx::TxPayloadV::PrivacyDeposit { commitment, amount } => amount > 0 && amount + fee
            <= u128::MAX && !contains_bytes(pre.privacy_pool.commitments@, commitment) && bal
            >= amount + fee,
        crate::tx::TxPayloadV::PrivacyWithdraw {
            nullifier,
            recipient,
            amount,
            merkle_root,
            commitment,
            proof,
        } => amount > 0 && !contains_bytes(pre.privacy_pool.nullifiers@, nullifier)
            && pre.privacy_pool.merkle_root@ == merkle_root && contains_bytes(
            pre.privacy_pool.commitments@,
            commitment,
        ) && pre.privacy_pool.total_shielded >= amount && proof.program_id
            is PrivacyWithdraw && crate::zk_privacy::spec_stub_artifact_ok(
            proof,
            crate::zk_privacy::PrivacyWithdrawInputV {
                nullifier,
                merkle_root,
                recipient,
                amount,
                commitment,
            },
        ) && bal >= fee,
        crate::tx::TxPayloadV::RollupBridgeDeposit { amount, .. } => amount + fee <= u128::MAX
            && bal >= amount + fee,
        crate::tx::TxPayloadV::RollupBridgeWithdraw { amount, .. } => pre.fee_pools.treasury
            >= amount && bal >= fee,
        crate::tx::TxPayloadV::CrossDomainSend { from_domain, to_domain, fee: xfee, .. } => xfee
            + fee <= u128::MAX && bal >= xfee + fee && crate::state::has_domain(
            pre.domains@,
            from_domain,
        ) && crate::state::has_domain(pre.domains@, to_domain),
        crate::tx::TxPayloadV::CrossDomainRelay { .. } => bal >= fee,
        crate::tx::TxPayloadV::DomainCreate { params, .. } => crate::apply::spec_risk_params_ok(
            params,
        ) && bal >= fee,
        crate::tx::TxPayloadV::DomainConfigUpdate { params, .. } =>
            crate::apply::spec_risk_params_ok(params) && bal >= fee,
        crate::tx::TxPayloadV::RollupBatchCommit { .. } => bal >= fee,
        crate::tx::TxPayloadV::GovernanceProposal { .. } => bal >= fee,
        crate::tx::TxPayloadV::GovernanceBridgeApprove { proposal_id } => bal >= fee && exists|
            i: int,
        |
            #![trigger pre.proposals@[i]]
            {
                &&& 0 <= i < pre.proposals@.len()
                &&& pre.proposals@[i].id == proposal_id
                &&& (forall|j: int| 0 <= j < i ==> pre.proposals@[j].id != proposal_id)
                &&& (pre.proposals@[i].status is Queued || pre.proposals@[i].status is Succeeded)
                &&& (pre.governance_params.multisig_signers@.len() > 0 ==> contains_bytes(
                    pre.governance_params.multisig_signers@,
                    sender,
                ))
                &&& !contains_bytes(pre.proposals@[i].approvals@, sender)
            },
        crate::tx::TxPayloadV::SystemUpgrade { .. } => bal >= fee,
        // success of a domain execution is the virtual machine's to give, and
        // vote and execute admission turn on tallies the runtime reads
        crate::tx::TxPayloadV::DomainExecute(..) => false,
        crate::tx::TxPayloadV::FraudChallenge { .. } => false,
        crate::tx::TxPayloadV::GovernanceVote { .. } => false,
        crate::tx::TxPayloadV::GovernanceExecute { .. } => false,
    }
}

/// Balanced books bound every component of the measure by the recorded
/// supply, which is what rules the runtime's internal overflows out.
pub proof fn lemma_supply_components(s: ChainState)
    requires
        supply_ok(s),
        accts_unique(s.accounts@),
    ensures
        sum_balances(s.accounts@) >= 0,
        sum_stakes(s.validators@) >= 0,
        sum_unbonds(s.pending_unbonds@) >= 0,
        sum_balances(s.accounts@) + sum_stakes(s.validators@) + fee_pool_total(s) + sum_unbonds(
            s.pending_unbonds@,
        ) + s.privacy_pool.total_shielded == s.total_supply,
        forall|a: Seq<u8>| balance_of(s.accounts@, a) <= sum_balances(s.accounts@),
        forall|a: Seq<u8>, b: Seq<u8>|
            a != b ==> balance_of(s.accounts@, a) + balance_of(s.accounts@, b) <= sum_balances(
                s.accounts@,
            ),
        forall|i: int|
            0 <= i < s.validators@.len() ==> (#[trigger] s.validators@[i]).stake <= sum_stakes(
                s.validators@,
            ),
{
    crate::sums::lemma_sum_balances_nonneg(s.accounts@);
    crate::sums::lemma_sum_stakes_nonneg(s.validators@);
    crate::sums::lemma_sum_unbonds_nonneg(s.pending_unbonds@);
    assert forall|a: Seq<u8>| balance_of(s.accounts@, a) <= sum_balances(s.accounts@) by {
        if has_acct(s.accounts@, a) {
            crate::sums::lemma_sum_balances_bounds(
                s.accounts@,
                crate::state::acct_ix(s.accounts@, a),
            );
        }
    }
    assert forall|a: Seq<u8>, b: Seq<u8>|
        a != b implies balance_of(s.accounts@, a) + balance_of(s.accounts@, b) <= sum_balances(
        s.accounts@,
    ) by {
        if has_acct(s.accounts@, a) && has_acct(s.accounts@, b) {
            let ia = crate::state::acct_ix(s.accounts@, a);
            let ib = crate::state::acct_ix(s.accounts@, b);
            assert(s.accounts@[ia].address@ == a && s.accounts@[ib].address@ == b);
            assert(ia != ib);
            crate::sums::lemma_sum_balances_two(s.accounts@, ia, ib);
        } else if has_acct(s.accounts@, a) {
            crate::sums::lemma_sum_balances_bounds(
                s.accounts@,
                crate::state::acct_ix(s.accounts@, a),
            );
        } else if has_acct(s.accounts@, b) {
            crate::sums::lemma_sum_balances_bounds(
                s.accounts@,
                crate::state::acct_ix(s.accounts@, b),
            );
        }
    }
    assert forall|i: int|
        0 <= i < s.validators@.len() implies (#[trigger] s.validators@[i]).stake <= sum_stakes(
        s.validators@,
    ) by {
        crate::sums::lemma_sum_stakes_bounds(s.validators@, i);
    }
}

} // verus!
