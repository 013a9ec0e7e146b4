//! The state commitment: every entity is serialized with the canonical fixed
//! encoding and hashed to a leaf; the leaves are sorted and folded through one
//! BLAKE3 hash. Sorting first makes the root independent of the order in
//! which the collections were built up, so replicas agree bit for bit.

use vstd::prelude::*;

use crate::bytes::{concat_all, concat_bytes, lex_leq_fn, sort_bytes, views_of};
use crate::codec::{
    copy_bytes, enc_bytes, enc_opt_bytes, enc_opt_u128, enc_opt_u64, enc_u128, enc_u16, enc_u64,
    enc_u8, senc_bytes, senc_opt_bytes, senc_opt_u128, senc_opt_u64, senc_u128, senc_u16, senc_u64,
    senc_u8, vec_len_bound, view_opt_bytes,
};
use crate::crypto::{blake3_hash, blake3_of};
use crate::state::{
    Account, ChainState, DACommitment, Delegation, DomainEntry, DomainParams, DomainRoot,
    DomainType, FeePools, GovernanceParams, PrivacyPool, Proposal, ProposalStatus, SecurityModel,
    Unbonding, Validator, ValidatorStatus, VoteChoice, VoteRecord, VoterWeight, zero32, zero_hash,
};

verus! {

// ---------------------------------------------------------------------------
// Canonical bytes of each entity.
// ---------------------------------------------------------------------------

pub open spec fn senc_bytes_list(s: Seq<Seq<u8>>) -> Seq<u8> {
    senc_u64(s.len() as u64) + concat_all(s.map_values(|x: Seq<u8>| senc_bytes(x)))
}

pub open spec fn senc_u64_list(s: Seq<u64>) -> Seq<u8> {
    senc_u64(s.len() as u64) + concat_all(s.map_values(|x: u64| senc_u64(x)))
}

pub open spec fn senc_status(v: ValidatorStatus) -> Seq<u8> {
    match v {
        ValidatorStatus::Active => senc_u8(0),
        ValidatorStatus::Jailed => senc_u8(1),
        ValidatorStatus::Exited => senc_u8(2),
    }
}

pub open spec fn senc_domain_type(v: DomainType) -> Seq<u8> {
    match v {
        DomainType::EvmSharedSecurity => senc_u8(0),
        DomainType::Wasm => senc_u8(1),
        DomainType::Privacy => senc_u8(2),
        DomainType::Payment => senc_u8(3),
        DomainType::Custom => senc_u8(4),
    }
}

pub open spec fn senc_security_model(v: SecurityModel) -> Seq<u8> {
    match v {
        SecurityModel::SharedSecurity => senc_u8(0),
        SecurityModel::OwnSecurity => senc_u8(1),
    }
}

pub open spec fn senc_proposal_status(v: ProposalStatus) -> Seq<u8> {
    match v {
        ProposalStatus::Pending => senc_u8(0),
        ProposalStatus::Active => senc_u8(1),
        ProposalStatus::Defeated => senc_u8(2),
        ProposalStatus::Succeeded => senc_u8(3),
        ProposalStatus::Queued => senc_u8(4),
        ProposalStatus::Executed => senc_u8(5),
        ProposalStatus::Cancelled => senc_u8(6),
        ProposalStatus::Expired => senc_u8(7),
    }
}

pub open spec fn senc_vote_choice(v: VoteChoice) -> Seq<u8> {
    match v {
        VoteChoice::For => senc_u8(0),
        VoteChoice::Against => senc_u8(1),
        VoteChoice::Abstain => senc_u8(2),
    }
}

pub open spec fn senc_domain_params(p: DomainParams) -> Seq<u8> {
    senc_domain_type(p.kind) + senc_opt_u64(p.max_loss_bps) + senc_opt_u64(p.risk_cap)
}

pub open spec fn senc_account(a: Account) -> Seq<u8> {
    senc_bytes(a.address@) + senc_u64(a.nonce) + senc_u128(a.balance_x) + senc_opt_bytes(
        view_opt_bytes(a.code_hash),
    ) + senc_opt_bytes(view_opt_bytes(a.storage_root))
}

pub open spec fn senc_validator(v: Validator) -> Seq<u8> {
    senc_bytes(v.owner@) + senc_u128(v.id) + senc_bytes(v.pubkey@) + senc_u128(v.stake)
        + senc_status(v.status) + senc_u8(v.commission_rate)
}

pub open spec fn senc_delegation(d: Delegation) -> Seq<u8> {
    senc_bytes(d.delegator@) + senc_u128(d.validator_id) + senc_u128(d.stake)
}

pub open spec fn senc_unbonding(u: Unbonding) -> Seq<u8> {
    senc_bytes(u.owner@) + senc_opt_u128(u.validator_id) + senc_u128(u.amount) + senc_u64(
        u.release_height,
    )
}

pub open spec fn senc_domain_entry(d: DomainEntry) -> Seq<u8> {
    senc_u128(d.domain_id) + senc_domain_type(d.kind) + senc_security_model(d.security_model)
        + senc_opt_u128(d.sequencer_binding) + senc_bytes_list(views_of(d.bridge_contracts@))
        + senc_domain_params(d.risk_params)
}

pub open spec fn senc_da_commitment(d: DACommitment) -> Seq<u8> {
    senc_u64(d.block_height) + senc_bytes(d.da_root@) + senc_u64_list(d.blob_ids@)
}

pub open spec fn senc_domain_root(d: DomainRoot) -> Seq<u8> {
    senc_u128(d.domain_id) + senc_bytes(d.state_root@) + senc_bytes(d.da_root@) + senc_u64(
        d.last_verified_epoch,
    ) + senc_bytes(d.proof_meta@)
}

pub open spec fn senc_vote_record(v: VoteRecord) -> Seq<u8> {
    senc_bytes(v.voter@) + senc_vote_choice(v.choice) + senc_u128(v.weight)
}

pub open spec fn senc_voter_weight(v: VoterWeight) -> Seq<u8> {
    senc_bytes(v.voter@) + senc_u128(v.weight)
}

pub open spec fn senc_proposal(p: Proposal) -> Seq<u8> {
    senc_u128(p.id) + senc_bytes(p.payload@) + senc_bytes(p.kind@) + senc_proposal_status(p.status)
        + senc_bytes(p.proposer@) + senc_u64(p.start) + senc_u64(p.end) + senc_opt_u64(p.eta)
        + senc_u128(p.snapshot_total_stake) + senc_u128(p.for_votes) + senc_u128(p.against_votes)
        + senc_u128(p.abstain_votes) + concat_all(p.votes@.map_values(|v: VoteRecord| senc_vote_record(v)))
        + senc_bytes(p.execution@) + concat_all(
        p.voter_weights@.map_values(|v: VoterWeight| senc_voter_weight(v)),
    ) + senc_bytes_list(views_of(p.approvals@))
}

pub open spec fn senc_governance_params(g: GovernanceParams) -> Seq<u8> {
    senc_u64(g.voting_period_ms) + senc_u64(g.timelock_ms) + senc_u16(g.quorum_bps) + senc_u16(
        g.approval_threshold_bps,
    ) + senc_bytes_list(views_of(g.multisig_signers@)) + senc_u8(g.multisig_threshold)
}

pub open spec fn senc_fee_pools(f: FeePools) -> Seq<u8> {
    senc_u128(f.l1_gas) + senc_u128(f.da) + senc_u128(f.sequencer) + senc_u128(f.treasury)
}

pub open spec fn senc_privacy_pool(p: PrivacyPool) -> Seq<u8> {
    senc_bytes(p.merkle_root@) + senc_bytes_list(views_of(p.nullifiers@)) + senc_bytes_list(
        views_of(p.commitments@),
    ) + senc_u128(p.total_shielded)
}

// ---------------------------------------------------------------------------
// Executable encoders for the entities.
// ---------------------------------------------------------------------------

fn enc_bytes_list(out: &mut Vec<u8>, list: &Vec<Vec<u8>>)
    ensures
        final(out)@ == old(out)@ + senc_bytes_list(views_of(list@)),
{
    proof {
        vec_len_bound(list);
    }
    enc_u64(out, list.len() as u64);
    let ghost mid = out@;
    let ghost mapped = views_of(list@).map_values(|x: Seq<u8>| senc_bytes(x));
    let n = list.len();
    let mut i: usize = 0;
    proof {
        assert(out@ =~= mid + concat_all(mapped.take(0)));
    }
    while i < n
        invariant
            i <= n,
            n == list@.len(),
            mapped == views_of(list@).map_values(|x: Seq<u8>| senc_bytes(x)),
            out@ == mid + concat_all(mapped.take(i as int)),
        decreases n - i,
    {
        proof {
            vec_len_bound(&list@[i as int]);
        }
        enc_bytes(out, &list[i]);
        proof {
            crate::bytes::lemma_concat_all_take_step(mapped, i as int);
        }
        i += 1;
    }
    proof {
        assert(mapped.take(n as int) =~= mapped);
        assert(out@ =~= old(out)@ + senc_bytes_list(views_of(list@)));
    }
}

fn enc_u64_list(out: &mut Vec<u8>, list: &Vec<u64>)
    ensures
        final(out)@ == old(out)@ + senc_u64_list(list@),
{
    proof {
        vec_len_bound(list);
    }
    enc_u64(out, list.len() as u64);
    let ghost mid = out@;
    let ghost mapped = list@.map_values(|x: u64| senc_u64(x));
    let n = list.len();
    let mut i: usize = 0;
    proof {
        assert(out@ =~= mid + concat_all(mapped.take(0)));
    }
    while i < n
        invariant
            i <= n,
            n == list@.len(),
            mapped == list@.map_values(|x: u64| senc_u64(x)),
            out@ == mid + concat_all(mapped.take(i as int)),
        decreases n - i,
    {
        enc_u64(out, list[i]);
        proof {
            crate::bytes::lemma_concat_all_take_step(mapped, i as int);
        }
        i += 1;
    }
    proof {
        assert(mapped.take(n as int) =~= mapped);
        assert(out@ =~= old(out)@ + senc_u64_list(list@));
    }
}

fn enc_status(out: &mut Vec<u8>, v: ValidatorStatus)
    ensures
        final(out)@ == old(out)@ + senc_status(v),
{
    match v {
        ValidatorStatus::Active => enc_u8(out, 0),
        ValidatorStatus::Jailed => enc_u8(out, 1),
        ValidatorStatus::Exited => enc_u8(out, 2),
    }
}

pub fn enc_domain_type(out: &mut Vec<u8>, v: DomainType)
    ensures
        final(out)@ == old(out)@ + senc_domain_type(v),
{
    match v {
        DomainType::EvmSharedSecurity => enc_u8(out, 0),
        DomainType::Wasm => enc_u8(out, 1),
        DomainType::Privacy => enc_u8(out, 2),
        DomainType::Payment => enc_u8(out, 3),
        DomainType::Custom => enc_u8(out, 4),
    }
}

fn enc_security_model(out: &mut Vec<u8>, v: SecurityModel)
    ensures
        final(out)@ == old(out)@ + senc_security_model(v),
{
    match v {
        SecurityModel::SharedSecurity => enc_u8(out, 0),
        SecurityModel::OwnSecurity => enc_u8(out, 1),
    }
}

fn enc_proposal_status(out: &mut Vec<u8>, v: ProposalStatus)
    ensures
        final(out)@ == old(out)@ + senc_proposal_status(v),
{
    match v {
        ProposalStatus::Pending => enc_u8(out, 0),
        ProposalStatus::Active => enc_u8(out, 1),
        ProposalStatus::Defeated => enc_u8(out, 2),
        ProposalStatus::Succeeded => enc_u8(out, 3),
        ProposalStatus::Queued => enc_u8(out, 4),
        ProposalStatus::Executed => enc_u8(out, 5),
        ProposalStatus::Cancelled => enc_u8(out, 6),
        ProposalStatus::Expired => enc_u8(out, 7),
    }
}

pub fn enc_vote_choice(out: &mut Vec<u8>, v: VoteChoice)
    ensures
        final(out)@ == old(out)@ + senc_vote_choice(v),
{
    match v {
        VoteChoice::For => enc_u8(out, 0),
        VoteChoice::Against => enc_u8(out, 1),
        VoteChoice::Abstain => enc_u8(out, 2),
    }
}

pub fn enc_domain_params(out: &mut Vec<u8>, p: &DomainParams)
    ensures
        final(out)@ == old(out)@ + senc_domain_params(*p),
{
    enc_domain_type(out, p.kind);
    enc_opt_u64(out, &p.max_loss_bps);
    enc_opt_u64(out, &p.risk_cap);
    proof {
        assert(out@ =~= old(out)@ + senc_domain_params(*p));
    }
}

/// The canonical bytes of one account.
pub fn encode_account(a: &Account) -> (r: Vec<u8>)
    ensures
        r@ == senc_account(*a),
{
    let mut out: Vec<u8> = Vec::new();
    proof {
        vec_len_bound(&a.address);
    }
    enc_bytes(&mut out, &a.address);
    enc_u64(&mut out, a.nonce);
    enc_u128(&mut out, a.balance_x);
    proof {
        if let Some(b) = &a.code_hash {
            vec_len_bound(b);
        }
        if let Some(b) = &a.storage_root {
            vec_len_bound(b);
        }
    }
    enc_opt_bytes(&mut out, &a.code_hash);
    enc_opt_bytes(&mut out, &a.storage_root);
    proof {
        assert(out@ =~= senc_account(*a));
    }
    out
}

/// The canonical bytes of one validator.
pub fn encode_validator(v: &Validator) -> (r: Vec<u8>)
    ensures
        r@ == senc_validator(*v),
{
    let mut out: Vec<u8> = Vec::new();
    proof {
        vec_len_bound(&v.owner);
        vec_len_bound(&v.pubkey);
    }
    enc_bytes(&mut out, &v.owner);
    enc_u128(&mut out, v.id);
    enc_bytes(&mut out, &v.pubkey);
    enc_u128(&mut out, v.stake);
    enc_status(&mut out, v.status);
    enc_u8(&mut out, v.commission_rate);
    proof {
        assert(out@ =~= senc_validator(*v));
    }
    out
}

/// The canonical bytes of one delegation row.
pub fn encode_delegation(d: &Delegation) -> (r: Vec<u8>)
    ensures
        r@ == senc_delegation(*d),
{
    let mut out: Vec<u8> = Vec::new();
    proof {
        vec_len_bound(&d.delegator);
    }
    enc_bytes(&mut out, &d.delegator);
    enc_u128(&mut out, d.validator_id);
    enc_u128(&mut out, d.stake);
    proof {
        assert(out@ =~= senc_delegation(*d));
    }
    out
}

/// The canonical bytes of one pending unbonding.
pub fn encode_unbonding(u: &Unbonding) -> (r: Vec<u8>)
    ensures
        r@ == senc_unbonding(*u),
{
    let mut out: Vec<u8> = Vec::new();
    proof {
        vec_len_bound(&u.owner);
    }
    enc_bytes(&mut out, &u.owner);
    enc_opt_u128(&mut out, &u.validator_id);
    enc_u128(&mut out, u.amount);
    enc_u64(&mut out, u.release_height);
    proof {
        assert(out@ =~= senc_unbonding(*u));
    }
    out
}

/// The canonical bytes of one domain entry.
pub fn encode_domain_entry(d: &DomainEntry) -> (r: Vec<u8>)
    ensures
        r@ == senc_domain_entry(*d),
{
    let mut out: Vec<u8> = Vec::new();
    enc_u128(&mut out, d.domain_id);
    enc_domain_type(&mut out, d.kind);
    enc_security_model(&mut out, d.security_model);
    enc_opt_u128(&mut out, &d.sequencer_binding);
    enc_bytes_list(&mut out, &d.bridge_contracts);
    enc_domain_params(&mut out, &d.risk_params);
    proof {
        assert(out@ =~= senc_domain_entry(*d));
    }
    out
}

/// The canonical bytes of one recorded availability commitment.
pub fn encode_da_commitment(d: &DACommitment) -> (r: Vec<u8>)
    ensures
        r@ == senc_da_commitment(*d),
{
    let mut out: Vec<u8> = Vec::new();
    enc_u64(&mut out, d.block_height);
    proof {
        vec_len_bound(&d.da_root);
    }
    enc_bytes(&mut out, &d.da_root);
    enc_u64_list(&mut out, &d.blob_ids);
    proof {
        assert(out@ =~= senc_da_commitment(*d));
    }
    out
}

/// The canonical bytes of one domain root record.
pub fn encode_domain_root(d: &DomainRoot) -> (r: Vec<u8>)
    ensures
        r@ == senc_domain_root(*d),
{
    let mut out: Vec<u8> = Vec::new();
    enc_u128(&mut out, d.domain_id);
    proof {
        vec_len_bound(&d.state_root);
        vec_len_bound(&d.da_root);
        vec_len_bound(&d.proof_meta);
    }
    enc_bytes(&mut out, &d.state_root);
    enc_bytes(&mut out, &d.da_root);
    enc_u64(&mut out, d.last_verified_epoch);
    enc_bytes(&mut out, &d.proof_meta);
    proof {
        assert(out@ =~= senc_domain_root(*d));
    }
    out
}

fn enc_vote_records(out: &mut Vec<u8>, list: &Vec<VoteRecord>)
    ensures
        final(out)@ == old(out)@ + concat_all(
            list@.map_values(|v: VoteRecord| senc_vote_record(v)),
        ),
{
    let ghost mapped = list@.map_values(|v: VoteRecord| senc_vote_record(v));
    let n = list.len();
    let mut i: usize = 0;
    proof {
        assert(out@ =~= out@ + concat_all(mapped.take(0)));
    }
    while i < n
        invariant
            i <= n,
            n == list@.len(),
            mapped == list@.map_values(|v: VoteRecord| senc_vote_record(v)),
            out@ == old(out)@ + concat_all(mapped.take(i as int)),
        decreases n - i,
    {
        proof {
            vec_len_bound(&list@[i as int].voter);
        }
        enc_bytes(out, &list[i].voter);
        enc_vote_choice(out, list[i].choice);
        enc_u128(out, list[i].weight);
        proof {
            crate::bytes::lemma_concat_all_take_step(mapped, i as int);
            assert(out@ =~= old(out)@ + concat_all(mapped.take(i as int + 1)));
        }
        i += 1;
    }
    proof {
        assert(mapped.take(n as int) =~= mapped);
    }
}

fn enc_voter_weights(out: &mut Vec<u8>, list: &Vec<VoterWeight>)
    ensures
        final(out)@ == old(out)@ + concat_all(
            list@.map_values(|v: VoterWeight| senc_voter_weight(v)),
        ),
{
    let ghost mapped = list@.map_values(|v: VoterWeight| senc_voter_weight(v));
    let n = list.len();
    let mut i: usize = 0;
    proof {
        assert(out@ =~= out@ + concat_all(mapped.take(0)));
    }
    while i < n
        invariant
            i <= n,
            n == list@.len(),
            mapped == list@.map_values(|v: VoterWeight| senc_voter_weight(v)),
            out@ == old(out)@ + concat_all(mapped.take(i as int)),
        decreases n - i,
    {
        proof {
            vec_len_bound(&list@[i as int].voter);
        }
        enc_bytes(out, &list[i].voter);
        enc_u128(out, list[i].weight);
        proof {
            crate::bytes::lemma_concat_all_take_step(mapped, i as int);
            assert(out@ =~= old(out)@ + concat_all(mapped.take(i as int + 1)));
        }
        i += 1;
    }
    proof {
        assert(mapped.take(n as int) =~= mapped);
    }
}

/// The canonical bytes of one governance proposal.
pub fn encode_proposal(p: &Proposal) -> (r: Vec<u8>)
    ensures
        r@ == senc_proposal(*p),
{
    let mut out: Vec<u8> = Vec::new();
    enc_u128(&mut out, p.id);
    proof {
        vec_len_bound(&p.payload);
        vec_len_bound(&p.kind);
        vec_len_bound(&p.proposer);
        vec_len_bound(&p.execution);
    }
    enc_bytes(&mut out, &p.payload);
    enc_bytes(&mut out, &p.kind);
    enc_proposal_status(&mut out, p.status);
    enc_bytes(&mut out, &p.proposer);
    enc_u64(&mut out, p.start);
    enc_u64(&mut out, p.end);
    enc_opt_u64(&mut out, &p.eta);
    enc_u128(&mut out, p.snapshot_total_stake);
    enc_u128(&mut out, p.for_votes);
    enc_u128(&mut out, p.against_votes);
    enc_u128(&mut out, p.abstain_votes);
    enc_vote_records(&mut out, &p.votes);
    enc_bytes(&mut out, &p.execution);
    enc_voter_weights(&mut out, &p.voter_weights);
    enc_bytes_list(&mut out, &p.approvals);
    proof {
        assert(out@ =~= senc_proposal(*p));
    }
    out
}

/// The canonical bytes of the governance parameters.
pub fn encode_governance_params(g: &GovernanceParams) -> (r: Vec<u8>)
    ensures
        r@ == senc_governance_params(*g),
{
    let mut out: Vec<u8> = Vec::new();
    enc_u64(&mut out, g.voting_period_ms);
    enc_u64(&mut out, g.timelock_ms);
    enc_u16(&mut out, g.quorum_bps);
    enc_u16(&mut out, g.approval_threshold_bps);
    enc_bytes_list(&mut out, &g.multisig_signers);
    enc_u8(&mut out, g.multisig_threshold);
    proof {
        assert(out@ =~= senc_governance_params(*g));
    }
    out
}

/// The canonical bytes of the fee pools.
pub fn encode_fee_pools(f: &FeePools) -> (r: Vec<u8>)
    ensures
        r@ == senc_fee_pools(*f),
{
    let mut out: Vec<u8> = Vec::new();
    enc_u128(&mut out, f.l1_gas);
    enc_u128(&mut out, f.da);
    enc_u128(&mut out, f.sequencer);
    enc_u128(&mut out, f.treasury);
    proof {
        assert(out@ =~= senc_fee_pools(*f));
    }
    out
}

/// The canonical bytes of the shielded pool.
pub fn encode_privacy_pool(p: &PrivacyPool) -> (r: Vec<u8>)
    ensures
        r@ == senc_privacy_pool(*p),
{
    let mut out: Vec<u8> = Vec::new();
    proof {
        vec_len_bound(&p.merkle_root);
    }
    enc_bytes(&mut out, &p.merkle_root);
    enc_bytes_list(&mut out, &p.nullifiers);
    enc_bytes_list(&mut out, &p.commitments);
    enc_u128(&mut out, p.total_shielded);
    proof {
        assert(out@ =~= senc_privacy_pool(*p));
    }
    out
}

// ---------------------------------------------------------------------------
// Folding sorted leaves into the root.
// ---------------------------------------------------------------------------

/// Folds a bag of leaves into one digest: sorted, concatenated, hashed. The
/// empty bag folds to the zero hash.
pub open spec fn spec_fold_leaves(leaves: Seq<Seq<u8>>) -> Seq<u8> {
    if leaves.len() == 0 {
        zero32()
    } else {
        blake3_of(concat_all(leaves.sort_by(lex_leq_fn())))
    }
}

/// The fold only depends on which leaves are present, not on their order.
pub proof fn lemma_fold_leaves_order_independent(l1: Seq<Seq<u8>>, l2: Seq<Seq<u8>>)
    requires
        l1.to_multiset() == l2.to_multiset(),
    ensures
        spec_fold_leaves(l1) == spec_fold_leaves(l2),
{
    broadcast use vstd::seq_lib::group_to_multiset_ensures;

    crate::bytes::lemma_lex_leq_total_ordering();
    assert(l1.len() == l1.to_multiset().len());
    assert(l2.len() == l2.to_multiset().len());
    if l1.len() != 0 {
        l1.lemma_sort_by_ensures(lex_leq_fn());
        l2.lemma_sort_by_ensures(lex_leq_fn());
        assert(l1.sort_by(lex_leq_fn()).to_multiset() == l2.sort_by(lex_leq_fn()).to_multiset());
        vstd::seq_lib::lemma_sorted_unique(
            l1.sort_by(lex_leq_fn()),
            l2.sort_by(lex_leq_fn()),
            lex_leq_fn(),
        );
        assert(l1.sort_by(lex_leq_fn()) == l2.sort_by(lex_leq_fn()));
    }
}

/// Sorts and folds leaf hashes into the commitment digest.
pub fn fold_leaves(leaves: Vec<Vec<u8>>) -> (r: Vec<u8>)
    ensures
        r@ == spec_fold_leaves(views_of(leaves@)),
        r@.len() == 32,
{
    broadcast use vstd::seq_lib::group_to_multiset_ensures;

    if leaves.len() == 0 {
        let r = zero_hash();
        proof {
            assert(views_of(leaves@).len() == 0);
            assert(zero32().len() == 32);
        }
        return r;
    }
    let ghost orig = views_of(leaves@);
    let sorted = sort_bytes(leaves);
    proof {
        crate::bytes::lemma_lex_leq_total_ordering();
        orig.lemma_sort_by_ensures(lex_leq_fn());
        vstd::seq_lib::lemma_sorted_unique(
            views_of(sorted@),
            orig.sort_by(lex_leq_fn()),
            lex_leq_fn(),
        );
        assert(views_of(sorted@) == orig.sort_by(lex_leq_fn()));
    }
    let joined = concat_bytes(&sorted);
    blake3_hash(&joined)
}

// ---------------------------------------------------------------------------
// The state root.
// ---------------------------------------------------------------------------

pub open spec fn account_leaf_of(a: Account) -> Seq<u8> {
    blake3_of(senc_account(a))
}

pub open spec fn validator_leaf_of(v: Validator) -> Seq<u8> {
    blake3_of(senc_validator(v))
}

pub open spec fn delegation_leaf_of(d: Delegation) -> Seq<u8> {
    blake3_of(senc_delegation(d))
}

pub open spec fn domain_leaf_of(d: DomainEntry) -> Seq<u8> {
    blake3_of(senc_domain_entry(d))
}

pub open spec fn da_commitment_leaf_of(d: DACommitment) -> Seq<u8> {
    blake3_of(senc_da_commitment(d))
}

pub open spec fn domain_root_leaf_of(d: DomainRoot) -> Seq<u8> {
    blake3_of(senc_domain_root(d))
}

pub open spec fn proposal_leaf_of(p: Proposal) -> Seq<u8> {
    blake3_of(senc_proposal(p))
}

pub open spec fn unbonding_leaf_of(u: Unbonding) -> Seq<u8> {
    blake3_of(senc_unbonding(u))
}

pub open spec fn account_leaves(s: Seq<Account>) -> Seq<Seq<u8>> {
    s.map_values(|a: Account| account_leaf_of(a))
}

pub open spec fn validator_leaves(s: Seq<Validator>) -> Seq<Seq<u8>> {
    s.map_values(|v: Validator| validator_leaf_of(v))
}

pub open spec fn delegation_leaves(s: Seq<Delegation>) -> Seq<Seq<u8>> {
    s.map_values(|d: Delegation| delegation_leaf_of(d))
}

pub open spec fn domain_leaves(s: Seq<DomainEntry>) -> Seq<Seq<u8>> {
    s.map_values(|d: DomainEntry| domain_leaf_of(d))
}

pub open spec fn da_commitment_leaves(s: Seq<DACommitment>) -> Seq<Seq<u8>> {
    s.map_values(|d: DACommitment| da_commitment_leaf_of(d))
}

pub open spec fn domain_root_leaves(s: Seq<DomainRoot>) -> Seq<Seq<u8>> {
    s.map_values(|d: DomainRoot| domain_root_leaf_of(d))
}

pub open spec fn proposal_leaves(s: Seq<Proposal>) -> Seq<Seq<u8>> {
    s.map_values(|p: Proposal| proposal_leaf_of(p))
}

pub open spec fn unbonding_leaves(s: Seq<Unbonding>) -> Seq<Seq<u8>> {
    s.map_values(|u: Unbonding| unbonding_leaf_of(u))
}

/// Every leaf of the chain state, in a canonical build order. The fold sorts
/// them, so any permutation commits to the same root.
pub open spec fn state_leaves(s: ChainState) -> Seq<Seq<u8>> {
    account_leaves(s.accounts@) + validator_leaves(s.validators@) + delegation_leaves(
        s.delegations@,
    ) + domain_leaves(s.domains@) + da_commitment_leaves(s.da_commitments@) + domain_root_leaves(
        s.domain_roots@,
    ) + proposal_leaves(s.proposals@) + seq![
        blake3_of(senc_fee_pools(s.fee_pools)),
        blake3_of(senc_privacy_pool(s.privacy_pool)),
        blake3_of(senc_governance_params(s.governance_params)),
        blake3_of(senc_u128(s.total_supply)),
        blake3_of(senc_u64(s.last_reward_height)),
    ] + unbonding_leaves(s.pending_unbonds@)
}

/// The state root: the fold of all entity leaves.
pub open spec fn spec_state_root(s: ChainState) -> Seq<u8> {
    spec_fold_leaves(state_leaves(s))
}

fn push_account_leaves(leaves: &mut Vec<Vec<u8>>, items: &Vec<Account>)
    ensures
        views_of(final(leaves)@) == views_of(old(leaves)@) + account_leaves(items@),
{
    let n = items.len();
    let mut i: usize = 0;
    proof {
        assert(views_of(leaves@) =~= views_of(old(leaves)@) + account_leaves(items@).take(0));
    }
    while i < n
        invariant
            i <= n,
            n == items@.len(),
            views_of(leaves@) == views_of(old(leaves)@) + account_leaves(items@).take(i as int),
        decreases n - i,
    {
        let ghost pre_push = leaves@;
        let encoded = encode_account(&items[i]);
        let hashed = blake3_hash(&encoded);
        let ghost h = hashed@;
        leaves.push(hashed);
        proof {
            assert(h == account_leaf_of(items@[i as int]));
            assert(views_of(leaves@) =~= views_of(pre_push).push(h));
            assert(account_leaves(items@).take(i as int + 1) =~= account_leaves(items@).take(i as int).push(
                account_leaf_of(items@[i as int]),
            ));
            assert(views_of(pre_push).push(h) =~= views_of(old(leaves)@) + account_leaves(items@).take(
                i as int + 1,
            ));
        }
        i += 1;
    }
    proof {
        assert(account_leaves(items@).take(n as int) =~= account_leaves(items@));
    }
}

fn push_validator_leaves(leaves: &mut Vec<Vec<u8>>, items: &Vec<Validator>)
    ensures
        views_of(final(leaves)@) == views_of(old(leaves)@) + validator_leaves(items@),
{
    let n = items.len();
    let mut i: usize = 0;
    proof {
        assert(views_of(leaves@) =~= views_of(old(leaves)@) + validator_leaves(items@).take(0));
    }
    while i < n
        invariant
            i <= n,
            n == items@.len(),
            views_of(leaves@) == views_of(old(leaves)@) + validator_leaves(items@).take(i as int),
        decreases n - i,
    {
        let ghost pre_push = leaves@;
        let encoded = encode_validator(&items[i]);
        let hashed = blake3_hash(&encoded);
        let ghost h = hashed@;
        leaves.push(hashed);
        proof {
            assert(h == validator_leaf_of(items@[i as int]));
            assert(views_of(leaves@) =~= views_of(pre_push).push(h));
            assert(validator_leaves(items@).take(i as int + 1) =~= validator_leaves(items@).take(i as int).push(
                validator_leaf_of(items@[i as int]),
            ));
            assert(views_of(pre_push).push(h) =~= views_of(old(leaves)@) + validator_leaves(items@).take(
                i as int + 1,
            ));
        }
        i += 1;
    }
    proof {
        assert(validator_leaves(items@).take(n as int) =~= validator_leaves(items@));
    }
}

fn push_delegation_leaves(leaves: &mut Vec<Vec<u8>>, items: &Vec<Delegation>)
    ensures
        views_of(final(leaves)@) == views_of(old(leaves)@) + delegation_leaves(items@),
{
    let n = items.len();
    let mut i: usize = 0;
    proof {
        assert(views_of(leaves@) =~= views_of(old(leaves)@) + delegation_leaves(items@).take(0));
    }
    while i < n
        invariant
            i <= n,
            n == items@.len(),
            views_of(leaves@) == views_of(old(leaves)@) + delegation_leaves(items@).take(i as int),
        decreases n - i,
    {
        let ghost pre_push = leaves@;
        let encoded = encode_delegation(&items[i]);
        let hashed = blake3_hash(&encoded);
        let ghost h = hashed@;
        leaves.push(hashed);
        proof {
            assert(h == delegation_leaf_of(items@[i as int]));
            assert(views_of(leaves@) =~= views_of(pre_push).push(h));
            assert(delegation_leaves(items@).take(i as int + 1) =~= delegation_leaves(items@).take(i as int).push(
                delegation_leaf_of(items@[i as int]),
            ));
            assert(views_of(pre_push).push(h) =~= views_of(old(leaves)@) + delegation_leaves(items@).take(
                i as int + 1,
            ));
        }
        i += 1;
    }
    proof {
        assert(delegation_leaves(items@).take(n as int) =~= delegation_leaves(items@));
    }
}

fn push_domain_leaves(leaves: &mut Vec<Vec<u8>>, items: &Vec<DomainEntry>)
    ensures
        views_of(final(leaves)@) == views_of(old(leaves)@) + domain_leaves(items@),
{
    let n = items.len();
    let mut i: usize = 0;
    proof {
        assert(views_of(leaves@) =~= views_of(old(leaves)@) + domain_leaves(items@).take(0));
    }
    while i < n
        invariant
            i <= n,
            n == items@.len(),
            views_of(leaves@) == views_of(old(leaves)@) + domain_leaves(items@).take(i as int),
        decreases n - i,
    {
        let ghost pre_push = leaves@;
        let encoded = encode_domain_entry(&items[i]);
        let hashed = blake3_hash(&encoded);
        let ghost h = hashed@;
        leaves.push(hashed);
        proof {
            assert(h == domain_leaf_of(items@[i as int]));
            assert(views_of(leaves@) =~= views_of(pre_push).push(h));
            assert(domain_leaves(items@).take(i as int + 1) =~= domain_leaves(items@).take(i as int).push(
                domain_leaf_of(items@[i as int]),
            ));
            assert(views_of(pre_push).push(h) =~= views_of(old(leaves)@) + domain_leaves(items@).take(
                i as int + 1,
            ));
        }
        i += 1;
    }
    proof {
        assert(domain_leaves(items@).take(n as int) =~= domain_leaves(items@));
    }
}

fn push_da_commitment_leaves(leaves: &mut Vec<Vec<u8>>, items: &Vec<DACommitment>)
    ensures
        views_of(final(leaves)@) == views_of(old(leaves)@) + da_commitment_leaves(items@),
{
    let n = items.len();
    let mut i: usize = 0;
    proof {
        assert(views_of(leaves@) =~= views_of(old(leaves)@) + da_commitment_leaves(items@).take(0));
    }
    while i < n
        invariant
            i <= n,
            n == items@.len(),
            views_of(leaves@) == views_of(old(leaves)@) + da_commitment_leaves(items@).take(i as int),
        decreases n - i,
    {
        let ghost pre_push = leaves@;
        let encoded = encode_da_commitment(&items[i]);
        let hashed = blake3_hash(&encoded);
        let ghost h = hashed@;
        leaves.push(hashed);
        proof {
            assert(h == da_commitment_leaf_of(items@[i as int]));
            assert(views_of(leaves@) =~= views_of(pre_push).push(h));
            assert(da_commitment_leaves(items@).take(i as int + 1) =~= da_commitment_leaves(items@).take(i as int).push(
                da_commitment_leaf_of(items@[i as int]),
            ));
            assert(views_of(pre_push).push(h) =~= views_of(old(leaves)@) + da_commitment_leaves(items@).take(
                i as int + 1,
            ));
        }
        i += 1;
    }
    proof {
        assert(da_commitment_leaves(items@).take(n as int) =~= da_commitment_leaves(items@));
    }
}

fn push_domain_root_leaves(leaves: &mut Vec<Vec<u8>>, items: &Vec<DomainRoot>)
    ensures
        views_of(final(leaves)@) == views_of(old(leaves)@) + domain_root_leaves(items@),
{
    let n = items.len();
    let mut i: usize = 0;
    proof {
        assert(views_of(leaves@) =~= views_of(old(leaves)@) + domain_root_leaves(items@).take(0));
    }
    while i < n
        invariant
            i <= n,
            n == items@.len(),
            views_of(leaves@) == views_of(old(leaves)@) + domain_root_leaves(items@).take(i as int),
        decreases n - i,
    {
        let ghost pre_push = leaves@;
        let encoded = encode_domain_root(&items[i]);
        let hashed = blake3_hash(&encoded);
        let ghost h = hashed@;
        leaves.push(hashed);
        proof {
            assert(h == domain_root_leaf_of(items@[i as int]));
            assert(views_of(leaves@) =~= views_of(pre_push).push(h));
            assert(domain_root_leaves(items@).take(i as int + 1) =~= domain_root_leaves(items@).take(i as int).push(
                domain_root_leaf_of(items@[i as int]),
            ));
            assert(views_of(pre_push).push(h) =~= views_of(old(leaves)@) + domain_root_leaves(items@).take(
                i as int + 1,
            ));
        }
        i += 1;
    }
    proof {
        assert(domain_root_leaves(items@).take(n as int) =~= domain_root_leaves(items@));
    }
}

fn push_proposal_leaves(leaves: &mut Vec<Vec<u8>>, items: &Vec<Proposal>)
    ensures
        views_of(final(leaves)@) == views_of(old(leaves)@) + proposal_leaves(items@),
{
    let n = items.len();
    let mut i: usize = 0;
    proof {
        assert(views_of(leaves@) =~= views_of(old(leaves)@) + proposal_leaves(items@).take(0));
    }
    while i < n
        invariant
            i <= n,
            n == items@.len(),
            views_of(leaves@) == views_of(old(leaves)@) + proposal_leaves(items@).take(i as int),
        decreases n - i,
    {
        let ghost pre_push = leaves@;
        let encoded = encode_proposal(&items[i]);
        let hashed = blake3_hash(&encoded);
        let ghost h = hashed@;
        leaves.push(hashed);
        proof {
            assert(h == proposal_leaf_of(items@[i as int]));
            assert(views_of(leaves@) =~= views_of(pre_push).push(h));
            assert(proposal_leaves(items@).take(i as int + 1) =~= proposal_leaves(items@).take(i as int).push(
                proposal_leaf_of(items@[i as int]),
            ));
            assert(views_of(pre_push).push(h) =~= views_of(old(leaves)@) + proposal_leaves(items@).take(
                i as int + 1,
            ));
        }
        i += 1;
    }
    proof {
        assert(proposal_leaves(items@).take(n as int) =~= proposal_leaves(items@));
    }
}

fn push_unbonding_leaves(leaves: &mut Vec<Vec<u8>>, items: &Vec<Unbonding>)
    ensures
        views_of(final(leaves)@) == views_of(old(leaves)@) + unbonding_leaves(items@),
{
    let n = items.len();
    let mut i: usize = 0;
    proof {
        assert(views_of(leaves@) =~= views_of(old(leaves)@) + unbonding_leaves(items@).take(0));
    }
    while i < n
        invariant
            i <= n,
            n == items@.len(),
            views_of(leaves@) == views_of(old(leaves)@) + unbonding_leaves(items@).take(i as int),
        decreases n - i,
    {
        let ghost pre_push = leaves@;
        let encoded = encode_unbonding(&items[i]);
        let hashed = blake3_hash(&encoded);
        let ghost h = hashed@;
        leaves.push(hashed);
        proof {
            assert(h == unbonding_leaf_of(items@[i as int]));
            assert(views_of(leaves@) =~= views_of(pre_push).push(h));
            assert(unbonding_leaves(items@).take(i as int + 1) =~= unbonding_leaves(items@).take(i as int).push(
                unbonding_leaf_of(items@[i as int]),
            ));
            assert(views_of(pre_push).push(h) =~= views_of(old(leaves)@) + unbonding_leaves(items@).take(
                i as int + 1,
            ));
        }
        i += 1;
    }
    proof {
        assert(unbonding_leaves(items@).take(n as int) =~= unbonding_leaves(items@));
    }
}

/// Computes the state root of a chain state. Two states with the same
/// contents commit to byte-identical roots, on any replica.
pub fn state_root(s: &ChainState) -> (r: Vec<u8>)
    ensures
        r@ == spec_state_root(*s),
        r@.len() == 32,
{
    let mut leaves: Vec<Vec<u8>> = Vec::new();
    proof {
        assert(views_of(leaves@) =~= Seq::<Seq<u8>>::empty());
    }
    push_account_leaves(&mut leaves, &s.accounts);
    push_validator_leaves(&mut leaves, &s.validators);
    push_delegation_leaves(&mut leaves, &s.delegations);
    push_domain_leaves(&mut leaves, &s.domains);
    push_da_commitment_leaves(&mut leaves, &s.da_commitments);
    push_domain_root_leaves(&mut leaves, &s.domain_roots);
    push_proposal_leaves(&mut leaves, &s.proposals);
    let fee_encoded = encode_fee_pools(&s.fee_pools);
    leaves.push(blake3_hash(&fee_encoded));
    let pool_encoded = encode_privacy_pool(&s.privacy_pool);
    leaves.push(blake3_hash(&pool_encoded));
    let gov_encoded = encode_governance_params(&s.governance_params);
    leaves.push(blake3_hash(&gov_encoded));
    let mut supply_encoded: Vec<u8> = Vec::new();
    enc_u128(&mut supply_encoded, s.total_supply);
    proof {
        assert(supply_encoded@ =~= senc_u128(s.total_supply));
    }
    leaves.push(blake3_hash(&supply_encoded));
    let mut height_encoded: Vec<u8> = Vec::new();
    enc_u64(&mut height_encoded, s.last_reward_height);
    proof {
        assert(height_encoded@ =~= senc_u64(s.last_reward_height));
    }
    leaves.push(blake3_hash(&height_encoded));
    push_unbonding_leaves(&mut leaves, &s.pending_unbonds);
    proof {
        assert(views_of(leaves@) =~= state_leaves(*s));
    }
    fold_leaves(leaves)
}

// ---------------------------------------------------------------------------
// A sparse Merkle tree over keyed leaves.
// ---------------------------------------------------------------------------

/// A keyed set of leaf hashes committing to a map of byte strings; the root
/// folds the leaf hashes like the state root folds its leaves.
pub struct SparseMerkleTree {
    keys: Vec<Vec<u8>>,
    hashes: Vec<Vec<u8>>,
}

impl SparseMerkleTree {
    /// The committed map: each key to the hash of its value.
    pub closed spec fn map(&self) -> Map<Seq<u8>, Seq<u8>> {
        Map::new(
            |k: Seq<u8>| crate::state::contains_bytes(self.keys@, k),
            |k: Seq<u8>|
                self.hashes@[choose|i: int|
                    0 <= i < self.keys@.len() && self.keys@[i]@ == k]@,
        )
    }

    /// Representation: keys unique, one hash per key.
    pub closed spec fn wf(&self) -> bool {
        &&& self.keys@.len() == self.hashes@.len()
        &&& forall|i: int, j: int| #![trigger self.keys@[i], self.keys@[j]]
            0 <= i < j < self.keys@.len() ==> self.keys@[i]@ != self.keys@[j]@
    }

    /// An empty tree.
    pub fn new() -> (r: SparseMerkleTree)
        ensures
            r.wf(),
            r.map() == Map::<Seq<u8>, Seq<u8>>::empty(),
            r.leaf_hashes().len() == 0,
    {
        let r = SparseMerkleTree { keys: Vec::new(), hashes: Vec::new() };
        proof {
            assert(r.map() =~= Map::<Seq<u8>, Seq<u8>>::empty());
        }
        r
    }

    /// Sets a key to the hash of the value.
    pub fn set(&mut self, key: &Vec<u8>, value: &Vec<u8>)
        requires
            old(self).wf(),
        ensures
            final(self).wf(),
            final(self).map() == old(self).map().insert(key@, blake3_of(value@)),
            old(self).map().contains_key(key@) ==> views_of(final(self).leaf_hashes()).to_multiset()
                == views_of(old(self).leaf_hashes()).to_multiset().insert(
                blake3_of(value@),
            ).remove(old(self).map()[key@]),
            !old(self).map().contains_key(key@) ==> views_of(
                final(self).leaf_hashes(),
            ).to_multiset() == views_of(old(self).leaf_hashes()).to_multiset().insert(
                blake3_of(value@),
            ),
    {
        broadcast use vstd::seq_lib::group_to_multiset_ensures;
        broadcast use vstd::multiset::group_multiset_axioms;

        let leaf = blake3_hash(value);
        let ghost pre = *self;
        let n = self.keys.len();
        let mut i: usize = 0;
        while i < n
            invariant
                i <= n,
                n == self.keys@.len(),
                *self == pre,
                pre == *old(self),
                pre.wf(),
                forall|j: int| 0 <= j < i ==> self.keys@[j]@ != key@,
                leaf@ == blake3_of(value@),
            decreases n - i,
        {
            if crate::bytes::bytes_eq(&self.keys[i], key) {
                self.hashes.set(i, leaf);
                proof {
                    assert(self.keys@[i as int]@ == key@);
                    assert(self.wf());
                    assert(views_of(self.hashes@) =~= views_of(pre.hashes@).update(
                        i as int,
                        blake3_of(value@),
                    ));
                    vstd::seq_lib::to_multiset_update(
                        views_of(pre.hashes@),
                        i as int,
                        blake3_of(value@),
                    );
                    assert(pre.map().contains_key(key@)) by {
                        assert(pre.keys@[i as int]@ == key@);
                    }
                    assert(pre.map()[key@] == views_of(pre.hashes@)[i as int]) by {
                        let w = choose|w: int|
                            0 <= w < pre.keys@.len() && pre.keys@[w]@ == key@;
                        assert(pre.keys@[i as int]@ == key@);
                        if w < i as int {
                            assert(pre.keys@[w]@ != pre.keys@[i as int]@);
                        } else if w > i as int {
                            assert(pre.keys@[i as int]@ != pre.keys@[w]@);
                        }
                        assert(pre.map()[key@] == pre.hashes@[w]@);
                        assert(views_of(pre.hashes@)[i as int] == pre.hashes@[i as int]@);
                    }
                    assert(views_of(self.hashes@).to_multiset() == views_of(
                        pre.hashes@,
                    ).to_multiset().insert(blake3_of(value@)).remove(pre.map()[key@]));
                    assert(self.map() =~= pre.map().insert(key@, blake3_of(value@))) by {
                        assert forall|k: Seq<u8>| #[trigger]
                            self.map().contains_key(k) implies pre.map().insert(
                            key@,
                            blake3_of(value@),
                        ).contains_key(k) && self.map()[k] == pre.map().insert(
                            key@,
                            blake3_of(value@),
                        )[k] by {
                            let w = choose|w: int|
                                0 <= w < self.keys@.len() && self.keys@[w]@ == k;
                            assert(self.keys@[w]@ == k);
                            assert(pre.keys@[w]@ == k);
                            if k == key@ {
                                assert(w == i as int);
                            } else {
                                let pw = choose|pw: int|
                                    0 <= pw < pre.keys@.len() && pre.keys@[pw]@ == k;
                                assert(pw == w);
                                assert(w != i as int);
                            }
                        }
                        assert forall|k: Seq<u8>| #[trigger]
                            pre.map().insert(key@, blake3_of(value@)).contains_key(
                            k,
                        ) implies self.map().contains_key(k) by {
                            if k == key@ {
                                assert(self.keys@[i as int]@ == k);
                            } else {
                                let pw = choose|pw: int|
                                    0 <= pw < pre.keys@.len() && pre.keys@[pw]@ == k;
                                assert(self.keys@[pw]@ == k);
                            }
                        }
                    }
                }
                return ;
            }
            i += 1;
        }
        let mut key_copy: Vec<u8> = Vec::new();
        copy_bytes(&mut key_copy, key);
        proof {
        assert(key_copy@ =~= key@);
        }
        self.keys.push(key_copy);
        self.hashes.push(leaf);
        proof {
            assert(views_of(self.hashes@) =~= views_of(pre.hashes@).push(blake3_of(value@)));
            vstd::seq_lib::to_multiset_build(views_of(pre.hashes@), blake3_of(value@));
            assert(!pre.map().contains_key(key@));
            let last = pre.keys@.len() as int;
            assert(self.keys@[last]@ == key@);
            assert(self.wf()) by {
                assert forall|p: int, q: int| #![trigger self.keys@[p], self.keys@[q]]
                    0 <= p < q < self.keys@.len() implies self.keys@[p]@ != self.keys@[q]@ by {
                    if q < last {
                        assert(pre.keys@[p]@ != pre.keys@[q]@);
                    } else {
                        assert(self.keys@[p]@ == pre.keys@[p]@);
                    }
                }
            }
            assert(self.map() =~= pre.map().insert(key@, blake3_of(value@))) by {
                assert forall|k: Seq<u8>| #[trigger]
                    self.map().contains_key(k) implies pre.map().insert(
                    key@,
                    blake3_of(value@),
                ).contains_key(k) && self.map()[k] == pre.map().insert(
                    key@,
                    blake3_of(value@),
                )[k] by {
                    let w = choose|w: int| 0 <= w < self.keys@.len() && self.keys@[w]@ == k;
                    if k == key@ {
                        assert(w == last);
                    } else {
                        assert(w < last);
                        assert(pre.keys@[w]@ == k);
                        let pw = choose|pw: int|
                            0 <= pw < pre.keys@.len() && pre.keys@[pw]@ == k;
                        assert(pw == w);
                    }
                }
                assert forall|k: Seq<u8>| #[trigger]
                    pre.map().insert(key@, blake3_of(value@)).contains_key(
                    k,
                ) implies self.map().contains_key(k) by {
                    if k == key@ {
                        assert(self.keys@[last]@ == k);
                    } else {
                        let pw = choose|pw: int|
                            0 <= pw < pre.keys@.len() && pre.keys@[pw]@ == k;
                        assert(self.keys@[pw]@ == k);
                    }
                }
            }
        }
    }

    /// Removes a key.
    pub fn delete(&mut self, key: &Vec<u8>)
        requires
            old(self).wf(),
        ensures
            final(self).wf(),
            final(self).map() == old(self).map().remove(key@),
            old(self).map().contains_key(key@) ==> views_of(final(self).leaf_hashes()).to_multiset()
                == views_of(old(self).leaf_hashes()).to_multiset().remove(old(self).map()[key@]),
            !old(self).map().contains_key(key@) ==> *final(self) == *old(self),
    {
        broadcast use vstd::seq_lib::group_to_multiset_ensures;
        broadcast use vstd::multiset::group_multiset_axioms;

        let ghost pre = *self;
        let n = self.keys.len();
        let mut i: usize = 0;
        while i < n
            invariant
                i <= n,
                n == self.keys@.len(),
                *self == pre,
                pre == *old(self),
                pre.wf(),
                forall|j: int| 0 <= j < i ==> self.keys@[j]@ != key@,
            decreases n - i,
        {
            if crate::bytes::bytes_eq(&self.keys[i], key) {
                let ghost hit = i as int;
                self.keys.remove(i);
                self.hashes.remove(i);
                proof {
                    assert(pre.keys@[hit]@ == key@);
                    assert(views_of(self.hashes@) =~= views_of(pre.hashes@).remove(hit));
                    vstd::seq_lib::to_multiset_remove(views_of(pre.hashes@), hit);
                    assert(pre.map()[key@] == views_of(pre.hashes@)[hit]) by {
                        let w = choose|w: int|
                            0 <= w < pre.keys@.len() && pre.keys@[w]@ == key@;
                        if w < hit {
                            assert(pre.keys@[w]@ != pre.keys@[hit]@);
                        } else if w > hit {
                            assert(pre.keys@[hit]@ != pre.keys@[w]@);
                        }
                    }
                    assert(self.wf()) by {
                        assert forall|p: int, q: int| #![trigger self.keys@[p], self.keys@[q]]
                            0 <= p < q < self.keys@.len() implies self.keys@[p]@
                            != self.keys@[q]@ by {
                            let pp = if p < hit { p } else { p + 1 };
                            let qq = if q < hit { q } else { q + 1 };
                            assert(pre.keys@[pp]@ != pre.keys@[qq]@);
                        }
                    }
                    assert(self.map() =~= pre.map().remove(key@)) by {
                        assert forall|k: Seq<u8>| #[trigger]
                            self.map().contains_key(k) implies pre.map().remove(
                            key@,
                        ).contains_key(k) && self.map()[k] == pre.map().remove(key@)[k] by {
                            let w = choose|w: int|
                                0 <= w < self.keys@.len() && self.keys@[w]@ == k;
                            let ww = if w < hit { w } else { w + 1 };
                            assert(pre.keys@[ww]@ == k);
                            if ww != hit {
                                assert(k != key@) by {
                                    if ww < hit {
                                        assert(pre.keys@[ww]@ != pre.keys@[hit]@);
                                    } else {
                                        assert(pre.keys@[hit]@ != pre.keys@[ww]@);
                                    }
                                }
                            }
                            let pw = choose|pw: int|
                                0 <= pw < pre.keys@.len() && pre.keys@[pw]@ == k;
                            assert(pw == ww);
                        }
                        assert forall|k: Seq<u8>| #[trigger]
                            pre.map().remove(key@).contains_key(k) implies self.map().contains_key(
                            k,
                        ) by {
                            let pw = choose|pw: int|
                                0 <= pw < pre.keys@.len() && pre.keys@[pw]@ == k;
                            assert(pw != hit);
                            let w = if pw < hit { pw } else { pw - 1 };
                            assert(self.keys@[w]@ == k);
                        }
                    }
                }
                return ;
            }
            i += 1;
        }
        proof {
            assert(!crate::state::contains_bytes(self.keys@, key@));
            assert(self.map() =~= pre.map().remove(key@));
        }
    }

    /// The root committing to the current leaves.
    pub fn root(&self) -> (r: Vec<u8>)
        ensures
            r@ == spec_fold_leaves(views_of(self.leaf_hashes())),
            r@.len() == 32,
    {
        let mut copy: Vec<Vec<u8>> = Vec::new();
        let n = self.hashes.len();
        let mut i: usize = 0;
        proof {
            assert(views_of(copy@) =~= views_of(self.hashes@).take(0));
        }
        while i < n
            invariant
                i <= n,
                n == self.hashes@.len(),
                views_of(copy@) == views_of(self.hashes@).take(i as int),
            decreases n - i,
        {
            let ghost pre_push = copy@;
            let mut h: Vec<u8> = Vec::new();
            copy_bytes(&mut h, &self.hashes[i]);
            let ghost hv = h@;
            proof {
                assert(hv =~= self.hashes@[i as int]@);
            }
            copy.push(h);
            proof {
                assert(views_of(copy@) =~= views_of(pre_push).push(hv));
                assert(views_of(self.hashes@).take(i as int + 1) =~= views_of(
                    self.hashes@,
                ).take(i as int).push(self.hashes@[i as int]@));
                assert(views_of(copy@) =~= views_of(self.hashes@).take(i as int + 1));
            }
            i += 1;
        }
        proof {
            assert(views_of(self.hashes@).take(n as int) =~= views_of(self.hashes@));
        }
        let r = fold_leaves(copy);
        proof {
            assert(views_of(copy@) == views_of(self.hashes@));
        }
        r
    }

    /// The leaf hashes the root folds, in insertion order.
    pub closed spec fn leaf_hashes(&self) -> Seq<Vec<u8>> {
        self.hashes@
    }
}

} // verus!
