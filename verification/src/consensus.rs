//! The view-based, stake-weighted BFT consensus engine: signed proposals and
//! votes, stake-weighted tallies, quorum certificates, a commit queue, and
//! stake-weighted round-robin leader election.

use vstd::prelude::*;

use crate::block::{Block, hash_block, spec_block_id};
use crate::bytes::bytes_eq;
use crate::codec::{copy_bytes, enc_bytes, enc_u128, enc_u64, senc_bytes, senc_u128, senc_u64, vec_len_bound};
use crate::crypto::{blake3_hash, blake3_of, ed25519_sign_of, ed25519_verifies};
use crate::errors::ExecError;
use crate::state::Validator;
use crate::sums::{lemma_sum_stakes_bounds, lemma_sum_stakes_nonneg, sum_stakes};
use crate::tx::{address_from_pubkey, sign_bytes, spec_address_of, verify_signature_bytes};
use vstd::pervasive::VecAdditionalExecFns;

verus! {

/// A block proposal signed by its proposer over the block identifier.
#[derive(Debug)]
pub struct SignedProposal {
    pub block: Block,
    pub public_key: Vec<u8>,
    pub signature: Vec<u8>,
}

/// A vote for a block in a view, signed by the voter.
#[derive(Debug)]
pub struct SignedVote {
    pub block_id: Vec<u8>,
    pub view: u64,
    pub voter: Validator,
    pub signature: Vec<u8>,
}

/// Evidence of validator misbehaviour, recorded for observability.
#[derive(Debug)]
pub struct SlashEvidence {
    pub validator_id: u128,
    pub reason: Vec<u8>,
    pub height: u64,
}

/// A snapshot of the engine's externally visible counters.
#[derive(Debug, Clone, Copy, PartialEq, Eq, Structural)]
pub struct ConsensusMetrics {
    pub current_view: u64,
    pub locked_qc: bool,
    pub pending_qc: bool,
    pub commit_queue_depth: usize,
}

/// Votes whose combined stake reached the quorum threshold.
#[derive(Debug)]
pub struct QuorumCertificate {
    pub block_id: Vec<u8>,
    pub view: u64,
    pub signatures: Vec<Vec<u8>>,
    pub voters: Vec<u128>,
}

/// The engine's view and height counters and its certificates.
#[derive(Debug)]
pub struct ConsensusState {
    pub view: u64,
    pub height: u64,
    pub locked_qc: Option<QuorumCertificate>,
    pub pending_qc: Option<QuorumCertificate>,
}

/// One proposed block held under its identifier.
pub struct BlockEntry {
    pub block_id: Vec<u8>,
    pub block: Block,
}

/// The running tally of one (block, view) pair.
pub struct VoteTally {
    pub block_id: Vec<u8>,
    pub view: u64,
    pub stake: u128,
    pub voters: Vec<u128>,
    pub signatures: Vec<Vec<u8>>,
}

/// The consensus engine state machine; callers serialize access to it.
pub struct HotStuffEngine {
    pub state: ConsensusState,
    pub block_tree: Vec<BlockEntry>,
    pub votes: Vec<VoteTally>,
    pub validators: Vec<Validator>,
    pub commit_queue: Vec<Vec<u8>>,
    pub total_stake: u128,
}

/// The bytes a vote signs: the block identifier and the view.
pub open spec fn spec_vote_msg(block_id: Seq<u8>, view: u64) -> Seq<u8> {
    senc_bytes(block_id) + senc_u64(view)
}

/// Builds the signing bytes of a vote.
pub fn vote_signing_bytes(block_id: &Vec<u8>, view: u64) -> (r: Vec<u8>)
    ensures
        r@ == spec_vote_msg(block_id@, view),
{
    let mut out: Vec<u8> = Vec::new();
    proof {
        vec_len_bound(block_id);
    }
    enc_bytes(&mut out, block_id);
    enc_u64(&mut out, view);
    proof {
        assert(out@ =~= spec_vote_msg(block_id@, view));
    }
    out
}

/// Signs a vote for a block in a view with a 32-byte secret key.
pub fn sign_vote(block_id: &Vec<u8>, view: u64, secret: &Vec<u8>) -> (r: Vec<u8>)
    requires
        secret@.len() == 32,
    ensures
        r@ == ed25519_sign_of(secret@, spec_vote_msg(block_id@, view)),
        r@.len() == 64,
        ed25519_verifies(crate::crypto::ed25519_pubkey_of(secret@), r@, spec_vote_msg(block_id@, view)),
{
    let msg = vote_signing_bytes(block_id, view);
    sign_bytes(secret, &msg)
}

/// Signs a block proposal: the signature covers the block identifier.
pub fn sign_proposal(block: &Block, secret: &Vec<u8>) -> (r: Vec<u8>)
    requires
        secret@.len() == 32,
    ensures
        r@ == ed25519_sign_of(secret@, spec_block_id(*block)),
        r@.len() == 64,
        ed25519_verifies(crate::crypto::ed25519_pubkey_of(secret@), r@, spec_block_id(*block)),
{
    let block_id = hash_block(block);
    sign_bytes(secret, &block_id)
}

/// A proposal is valid when the proposer's key hashes to the header's
/// proposer identity and the signature verifies over the block identifier.
pub open spec fn spec_proposal_ok(p: SignedProposal) -> bool {
    &&& spec_address_of(p.public_key@) == p.block.header.proposer_id@
    &&& p.public_key@.len() == 32
    &&& p.signature@.len() == 64
    &&& ed25519_verifies(p.public_key@, p.signature@, spec_block_id(p.block))
}

/// Checks a proposal's proposer identity and signature.
pub fn verify_proposal(proposal: &SignedProposal) -> (r: Result<(), ExecError>)
    ensures
        r is Ok <==> spec_proposal_ok(*proposal),
        r matches Err(e) ==> e == ExecError::InvalidSignature,
{
    let proposer_addr = address_from_pubkey(&proposal.public_key);
    if !bytes_eq(&proposer_addr, &proposal.block.header.proposer_id) {
        return Err(ExecError::InvalidSignature);
    }
    let block_id = hash_block(&proposal.block);
    verify_signature_bytes(&proposal.public_key, &proposal.signature, &block_id)
}

/// A vote is valid against a validator set when the voter is in the set with
/// the same public key and the signature verifies over the vote bytes.
pub open spec fn spec_vote_ok(v: SignedVote, validators: Seq<Validator>) -> bool {
    &&& exists|i: int|
        0 <= i < validators.len() && validators[i].id == v.voter.id && validators[i].pubkey@
            == v.voter.pubkey@
    &&& v.voter.pubkey@.len() == 32
    &&& v.signature@.len() == 64
    &&& ed25519_verifies(v.voter.pubkey@, v.signature@, spec_vote_msg(v.block_id@, v.view))
}

/// Whether the roster holds the voter with the same key.
fn roster_has_voter(validators: &Vec<Validator>, voter: &Validator) -> (r: bool)
    ensures
        r == exists|i: int|
            0 <= i < validators@.len() && validators@[i].id == voter.id && validators@[i].pubkey@
                == voter.pubkey@,
{
    let n = validators.len();
    let mut i: usize = 0;
    while i < n
        invariant
            i <= n,
            n == validators@.len(),
            forall|j: int|
                0 <= j < i ==> !(validators@[j].id == voter.id && validators@[j].pubkey@
                    == voter.pubkey@),
        decreases n - i,
    {
        if validators[i].id == voter.id && bytes_eq(&validators[i].pubkey, &voter.pubkey) {
            proof {
                assert(validators@[i as int].id == voter.id && validators@[i as int].pubkey@
                    == voter.pubkey@);
            }
            return true;
        }
        i += 1;
    }
    false
}

/// Checks a vote's membership and signature against a validator set.
pub fn verify_vote(vote: &SignedVote, validators: &Vec<Validator>) -> (r: Result<(), ExecError>)
    ensures
        r is Ok <==> spec_vote_ok(*vote, validators@),
        r matches Err(e) ==> e == ExecError::QuorumVoteRejected || e
            == ExecError::InvalidSignature,
{
    if !roster_has_voter(validators, &vote.voter) {
        return Err(ExecError::QuorumVoteRejected);
    }
    let msg = vote_signing_bytes(&vote.block_id, vote.view);
    verify_signature_bytes(&vote.voter.pubkey, &vote.signature, &msg)
}

// ---------------------------------------------------------------------------
// Leader election.
// ---------------------------------------------------------------------------

/// Walks the roster subtracting stakes; the index where the slot lands, or
/// the roster's length when the slot runs past every stake.
pub open spec fn pick_leader(s: Seq<Validator>, slot: int) -> int
    decreases s.len(),
{
    if s.len() == 0 {
        0
    } else if slot < s[0].stake {
        0
    } else {
        1 + pick_leader(s.drop_first(), slot - s[0].stake)
    }
}

/// The leader index for a view: the slot is the view modulo the total stake,
/// and the walk falls back to the first validator if it overruns.
pub open spec fn spec_leader_ix(s: Seq<Validator>, total_stake: u128, view: u64) -> int {
    let t = if total_stake == 0 {
        1int
    } else {
        total_stake as int
    };
    let k = pick_leader(s, (view as int) % t);
    if k >= s.len() {
        0
    } else {
        k
    }
}

proof fn lemma_pick_leader_nonneg(s: Seq<Validator>, slot: int)
    ensures
        pick_leader(s, slot) >= 0,
    decreases s.len(),
{
    if s.len() > 0 && slot >= s[0].stake {
        lemma_pick_leader_nonneg(s.drop_first(), slot - s[0].stake);
    }
}

impl HotStuffEngine {
    /// The engine's bookkeeping matches its roster, and at most one tally
    /// exists per (block, view) pair.
    pub open spec fn wf(&self) -> bool {
        &&& self.total_stake == sum_stakes(self.validators@)
        &&& self.total_stake <= u128::MAX / 2
        &&& tallies_unique(self.votes@)
    }

    /// A fresh engine over a validator roster, at view and height zero.
    pub fn new(validators: Vec<Validator>) -> (r: HotStuffEngine)
        requires
            sum_stakes(validators@) <= u128::MAX / 2,
        ensures
            r.wf(),
            r.validators == validators,
            r.state.view == 0,
            r.state.height == 0,
            r.state.locked_qc is None,
            r.state.pending_qc is None,
            r.commit_queue@.len() == 0,
            r.votes@.len() == 0,
    {
        let mut total: u128 = 0;
        let n = validators.len();
        let mut i: usize = 0;
        proof {
            assert(validators@.take(0) =~= Seq::<Validator>::empty());
        }
        while i < n
            invariant
                i <= n,
                n == validators@.len(),
                total == sum_stakes(validators@.take(i as int)),
                sum_stakes(validators@) <= u128::MAX / 2,
            decreases n - i,
        {
            proof {
                assert(validators@.take(i as int + 1).drop_last() =~= validators@.take(i as int));
                assert(validators@.take(i as int + 1).last() == validators@[i as int]);
                lemma_sum_stakes_prefix(validators@, i as int + 1);
            }
            total = total + validators[i].stake;
            i += 1;
        }
        proof {
            assert(validators@.take(n as int) =~= validators@);
        }
        HotStuffEngine {
            state: ConsensusState { view: 0, height: 0, locked_qc: None, pending_qc: None },
            block_tree: Vec::new(),
            votes: Vec::new(),
            validators,
            commit_queue: Vec::new(),
            total_stake: total,
        }
    }

    /// The stake a quorum must reach: strictly more than two thirds.
    pub open spec fn spec_quorum_threshold(&self) -> u128 {
        ((self.total_stake * 2) / 3 + 1) as u128
    }

    /// Computes the quorum threshold.
    pub fn quorum_threshold(&self) -> (r: u128)
        requires
            self.wf(),
        ensures
            r == self.spec_quorum_threshold(),
    {
        (self.total_stake * 2) / 3 + 1
    }

    /// The validator that should propose for a view. Every leader is a member
    /// of the roster; an empty roster has no leader.
    pub fn leader_for_view(&self, view: u64) -> (r: Option<&Validator>)
        ensures
            match r {
                Some(v) => self.validators@.len() > 0 && 0 <= spec_leader_ix(
                    self.validators@,
                    self.total_stake,
                    view,
                ) < self.validators@.len() && *v == self.validators@[spec_leader_ix(
                    self.validators@,
                    self.total_stake,
                    view,
                )],
                None => self.validators@.len() == 0,
            },
    {
        if self.validators.len() == 0 {
            return None;
        }
        let total: u128 = if self.total_stake == 0 {
            1
        } else {
            self.total_stake
        };
        let slot0 = (view as u128) % total;
        let ghost target = pick_leader(self.validators@, slot0 as int);
        let mut slot = slot0;
        let n = self.validators.len();
        let mut i: usize = 0;
        proof {
            assert(self.validators@.skip(0) =~= self.validators@);
        }
        while i < n
            invariant
                i <= n,
                n == self.validators@.len(),
                n > 0,
                total == (if self.total_stake == 0 {
                    1u128
                } else {
                    self.total_stake
                }),
                slot0 == (view as u128) % total,
                target == pick_leader(self.validators@, slot0 as int),
                target == i + pick_leader(self.validators@.skip(i as int), slot as int),
                slot <= slot0,
            decreases n - i,
        {
            if slot < self.validators[i].stake {
                proof {
                    assert(self.validators@.skip(i as int)[0] == self.validators@[i as int]);
                    assert(pick_leader(self.validators@.skip(i as int), slot as int) == 0);
                    assert(target == i);
                    assert(spec_leader_ix(self.validators@, self.total_stake, view) == i);
                }
                return Some(&self.validators[i]);
            }
            proof {
                assert(self.validators@.skip(i as int)[0] == self.validators@[i as int]);
                assert(self.validators@.skip(i as int).drop_first() =~= self.validators@.skip(
                    i as int + 1,
                ));
            }
            slot = slot - self.validators[i].stake;
            i += 1;
        }
        proof {
            assert(self.validators@.skip(n as int) =~= Seq::<Validator>::empty());
            assert(pick_leader(self.validators@.skip(n as int), slot as int) == 0);
            assert(target == n);
            assert(spec_leader_ix(self.validators@, self.total_stake, view) == 0);
        }
        Some(&self.validators[0])
    }

    /// Accepts a proposal whose proposer identity and signature check out,
    /// records the block, and advances the view. A proposal from a validator
    /// other than the computed leader is still accepted; safety rests on the
    /// quorum, not on who proposed.
    pub fn propose(&mut self, proposal: SignedProposal) -> (r: Result<(), ExecError>)
        ensures
            match r {
                Ok(()) => spec_proposal_ok(proposal) && final(self).state.view == (if old(self).state.view < u64::MAX {
                    (old(self).state.view + 1) as u64
                } else {
                    old(self).state.view
                }) && final(self).block_tree@.len() == old(self).block_tree@.len() + 1 && final(self).block_tree@.last().block == proposal.block && final(self).block_tree@.last().block_id@ == spec_block_id(proposal.block) && final(self).commit_queue == old(self).commit_queue && final(self).votes == old(self).votes
                    && final(self).validators == old(self).validators && final(self).total_stake
                    == old(self).total_stake,
                Err(e) => !spec_proposal_ok(proposal) && e == ExecError::InvalidSignature && *final(self) == *old(self),
            },
    {
        match verify_proposal(&proposal) {
            Ok(()) => {},
            Err(e) => {
                return Err(e);
            },
        }
        let block_id = hash_block(&proposal.block);
        let SignedProposal { block, public_key: _, signature: _ } = proposal;
        self.block_tree.push(BlockEntry { block_id, block });
        if self.state.view < u64::MAX {
            self.state.view = self.state.view + 1;
        }
        Ok(())
    }

    /// Registers a vote. An invalid vote is rejected without touching state;
    /// a duplicate vote by the same voter changes nothing at all; a fresh
    /// valid vote appends the voter and signature to the (block, view) tally
    /// and adds the voter's stake, and exactly when the tally reaches the
    /// quorum threshold a certificate carrying the tally's voters and
    /// signatures is locked, set pending, and the block enters the commit
    /// queue.
    pub fn vote(&mut self, vote: SignedVote) -> (r: Result<(), ExecError>)
        requires
            old(self).wf(),
        ensures
            final(self).wf(),
            final(self).validators == old(self).validators,
            final(self).total_stake == old(self).total_stake,
            final(self).state.view == old(self).state.view,
            final(self).state.height == old(self).state.height,
            final(self).block_tree == old(self).block_tree,
            match r {
                Ok(()) => spec_vote_ok(vote, old(self).validators@) && (tally_has_voter(
                    old(self).votes@,
                    vote.block_id@,
                    vote.view,
                    vote.voter.id,
                ) ==> *final(self) == *old(self)) && (!tally_has_voter(
                    old(self).votes@,
                    vote.block_id@,
                    vote.view,
                    vote.voter.id,
                ) ==> {
                    let new_stake = sat_add(
                        tally_stake(old(self).votes@, vote.block_id@, vote.view),
                        vote.voter.stake,
                    );
                    &&& tally_stake(final(self).votes@, vote.block_id@, vote.view) == new_stake
                    &&& tally_voters(final(self).votes@, vote.block_id@, vote.view) == tally_voters(
                        old(self).votes@,
                        vote.block_id@,
                        vote.view,
                    ).push(vote.voter.id)
                    &&& tally_sigs(final(self).votes@, vote.block_id@, vote.view) == tally_sigs(
                        old(self).votes@,
                        vote.block_id@,
                        vote.view,
                    ).push(vote.signature@)
                    &&& tally_has_voter(
                        final(self).votes@,
                        vote.block_id@,
                        vote.view,
                        vote.voter.id,
                    )
                    &&& (new_stake >= old(self).spec_quorum_threshold() ==> crate::bytes::views_of(
                        final(self).commit_queue@,
                    ) == crate::bytes::views_of(old(self).commit_queue@).push(vote.block_id@) && (
                    final(self).state.locked_qc matches Some(qc) && qc.block_id@ == vote.block_id@
                        && qc.view == vote.view && qc.voters@ == tally_voters(
                        final(self).votes@,
                        vote.block_id@,
                        vote.view,
                    ) && crate::bytes::views_of(qc.signatures@) == tally_sigs(
                        final(self).votes@,
                        vote.block_id@,
                        vote.view,
                    )) && (final(self).state.pending_qc matches Some(qc2) && qc2.block_id@
                        == vote.block_id@ && qc2.view == vote.view && qc2.voters@ == tally_voters(
                        final(self).votes@,
                        vote.block_id@,
                        vote.view,
                    ) && crate::bytes::views_of(qc2.signatures@) == tally_sigs(
                        final(self).votes@,
                        vote.block_id@,
                        vote.view,
                    )))
                    &&& (new_stake < old(self).spec_quorum_threshold() ==> final(self).commit_queue == old(self).commit_queue && final(self).state == old(self).state)
                }),
                Err(e) => !spec_vote_ok(vote, old(self).validators@) && *final(self) == *old(self)
                    && (e == ExecError::QuorumVoteRejected || e == ExecError::InvalidSignature),
            },
    {
        match verify_vote(&vote, &self.validators) {
            Ok(()) => {},
            Err(e) => {
                return Err(e);
            },
        }
        let threshold = self.quorum_threshold();
        let ghost votes_pre = self.votes@;
        let ghost queue_pre = self.commit_queue@;
        let found = find_tally(&self.votes, &vote.block_id, vote.view);
        match found {
            Some(i) => {
                proof {
                    lemma_tally_unique_ix(votes_pre, vote.block_id@, vote.view, i as int);
                }
                if voters_contain(&self.votes[i].voters, vote.voter.id) {
                    proof {
                        let k = choose|k: int|
                            0 <= k < votes_pre[i as int].voters@.len()
                                && votes_pre[i as int].voters@[k] == vote.voter.id;
                        assert(tally_has_voter(votes_pre, vote.block_id@, vote.view, vote.voter.id));
                    }
                    return Ok(());
                }
                proof {
                    assert(!tally_has_voter(votes_pre, vote.block_id@, vote.view, vote.voter.id))
                        by {
                        if tally_has_voter(votes_pre, vote.block_id@, vote.view, vote.voter.id) {
                            let (j, m): (int, int) = choose|j: int, m: int|
                                0 <= j < votes_pre.len() && votes_pre[j].block_id@ == vote.block_id@
                                    && votes_pre[j].view == vote.view && 0 <= m
                                    < votes_pre[j].voters@.len() && votes_pre[j].voters@[m]
                                    == vote.voter.id;
                            assert(j == i as int);
                        }
                    }
                    assert(tally_stake(votes_pre, vote.block_id@, vote.view)
                        == votes_pre[i as int].stake);
                    assert(tally_voters(votes_pre, vote.block_id@, vote.view)
                        == votes_pre[i as int].voters@);
                    assert(tally_sigs(votes_pre, vote.block_id@, vote.view)
                        == crate::bytes::views_of(votes_pre[i as int].signatures@));
                }
                let old_stake = self.votes[i].stake;
                let new_stake = if u128::MAX - vote.voter.stake < old_stake {
                    u128::MAX
                } else {
                    old_stake + vote.voter.stake
                };
                let ghost voter_id = vote.voter.id;
                let ghost sig_view = vote.signature@;
                let SignedVote { block_id, view: _, voter, signature } = vote;
                let tally = &mut self.votes[i];
                tally.stake = new_stake;
                tally.voters.push(voter.id);
                tally.signatures.push(signature);
                proof {
                    assert(self.votes@[i as int].block_id@ == vote.block_id@);
                    assert(self.votes@[i as int].view == vote.view);
                    assert(self.votes@[i as int].stake == new_stake);
                    assert(self.votes@[i as int].voters@ == votes_pre[i as int].voters@.push(
                        voter_id,
                    ));
                    assert(crate::bytes::views_of(self.votes@[i as int].signatures@)
                        =~= crate::bytes::views_of(votes_pre[i as int].signatures@).push(sig_view));
                    assert(forall|j: int|
                        0 <= j < self.votes@.len() && j != i as int ==> self.votes@[j]
                            == votes_pre[j]);
                    assert(tallies_unique(self.votes@)) by {
                        assert forall|p: int, q: int|
                            0 <= p < q < self.votes@.len() implies !(#[trigger] self.votes@[p].block_id@
                            == #[trigger] self.votes@[q].block_id@ && self.votes@[p].view
                            == self.votes@[q].view) by {
                            assert(self.votes@[p].block_id@ == votes_pre[p].block_id@
                                && self.votes@[p].view == votes_pre[p].view);
                            assert(self.votes@[q].block_id@ == votes_pre[q].block_id@
                                && self.votes@[q].view == votes_pre[q].view);
                        }
                    }
                    lemma_tally_unique_ix(self.votes@, vote.block_id@, vote.view, i as int);
                    assert(tally_stake(self.votes@, vote.block_id@, vote.view) == new_stake);
                    let newk = self.votes@[i as int].voters@.len() - 1;
                    assert(self.votes@[i as int].voters@[newk] == voter_id);
                    assert(tally_has_voter(self.votes@, vote.block_id@, vote.view, voter_id));
                    assert(new_stake == sat_add(
                        tally_stake(votes_pre, vote.block_id@, vote.view),
                        vote.voter.stake,
                    ));
                }
                if new_stake >= threshold {
                    let mut qc_block_id: Vec<u8> = Vec::new();
                    copy_bytes(&mut qc_block_id, &block_id);
                    let mut qc_block_id2: Vec<u8> = Vec::new();
                    copy_bytes(&mut qc_block_id2, &block_id);
                    proof {
                        assert(qc_block_id@ =~= vote.block_id@);
                        assert(qc_block_id2@ =~= vote.block_id@);
                    }
                    let qc_voters = copy_ids(&self.votes[i].voters);
                    let qc_sigs = copy_bytes_list(&self.votes[i].signatures);
                    let qc_voters2 = copy_ids(&self.votes[i].voters);
                    let qc_sigs2 = copy_bytes_list(&self.votes[i].signatures);
                    let qc = QuorumCertificate {
                        block_id: qc_block_id,
                        view: vote.view,
                        signatures: qc_sigs,
                        voters: qc_voters,
                    };
                    let qc2 = QuorumCertificate {
                        block_id: qc_block_id2,
                        view: vote.view,
                        signatures: qc_sigs2,
                        voters: qc_voters2,
                    };
                    self.state.pending_qc = Some(qc2);
                    self.state.locked_qc = Some(qc);
                    self.commit_queue.push(block_id);
                    proof {
                        assert(crate::bytes::views_of(self.commit_queue@)
                            =~= crate::bytes::views_of(queue_pre).push(vote.block_id@));
                    }
                }
                Ok(())
            },
            None => {
                proof {
                    lemma_tally_stake_absent(votes_pre, vote.block_id@, vote.view);
                    assert(!tally_has_voter(votes_pre, vote.block_id@, vote.view, vote.voter.id));
                    assert(tally_voters(votes_pre, vote.block_id@, vote.view) =~= Seq::<
                        u128,
                    >::empty());
                    assert(tally_sigs(votes_pre, vote.block_id@, vote.view) =~= Seq::<
                        Seq<u8>,
                    >::empty());
                }
                let new_stake = vote.voter.stake;
                let ghost voter_id = vote.voter.id;
                let ghost sig_view = vote.signature@;
                let SignedVote { block_id, view, voter, signature } = vote;
                let mut tally_block_id: Vec<u8> = Vec::new();
                copy_bytes(&mut tally_block_id, &block_id);
                proof {
                    assert(tally_block_id@ =~= block_id@);
                }
                let mut voters: Vec<u128> = Vec::new();
                voters.push(voter.id);
                let mut signatures: Vec<Vec<u8>> = Vec::new();
                signatures.push(signature);
                let qc_voters = copy_ids(&voters);
                let qc_sigs = copy_bytes_list(&signatures);
                let qc_voters2 = copy_ids(&voters);
                let qc_sigs2 = copy_bytes_list(&signatures);
                self.votes.push(
                    VoteTally {
                        block_id: tally_block_id,
                        view,
                        stake: new_stake,
                        voters,
                        signatures,
                    },
                );
                proof {
                    let last = self.votes@.len() - 1;
                    assert(self.votes@[last].block_id@ == vote.block_id@ && self.votes@[last].view
                        == vote.view);
                    assert(tallies_unique(self.votes@)) by {
                        assert forall|p: int, q: int|
                            0 <= p < q < self.votes@.len() implies !(#[trigger] self.votes@[p].block_id@
                            == #[trigger] self.votes@[q].block_id@ && self.votes@[p].view
                            == self.votes@[q].view) by {
                            if q < last {
                                assert(self.votes@[p] == votes_pre[p] && self.votes@[q]
                                    == votes_pre[q]);
                            } else {
                                assert(self.votes@[p] == votes_pre[p]);
                                assert(!(votes_pre[p].block_id@ == vote.block_id@
                                    && votes_pre[p].view == vote.view));
                            }
                        }
                    }
                    lemma_tally_unique_ix(self.votes@, vote.block_id@, vote.view, last);
                    assert(tally_stake(self.votes@, vote.block_id@, vote.view) == new_stake);
                    assert(self.votes@[last].voters@ =~= Seq::<u128>::empty().push(voter_id));
                    assert(crate::bytes::views_of(self.votes@[last].signatures@) =~= Seq::<
                        Seq<u8>,
                    >::empty().push(sig_view));
                    assert(self.votes@[last].voters@[0] == voter_id);
                    assert(tally_has_voter(self.votes@, vote.block_id@, vote.view, voter_id));
                    assert(sat_add(0, vote.voter.stake) == new_stake);
                }
                if new_stake >= threshold {
                    let mut qc_block_id: Vec<u8> = Vec::new();
                    copy_bytes(&mut qc_block_id, &block_id);
                    let mut qc_block_id2: Vec<u8> = Vec::new();
                    copy_bytes(&mut qc_block_id2, &block_id);
                    proof {
                        assert(qc_block_id@ =~= vote.block_id@);
                        assert(qc_block_id2@ =~= vote.block_id@);
                    }
                    let qc = QuorumCertificate {
                        block_id: qc_block_id,
                        view,
                        signatures: qc_sigs,
                        voters: qc_voters,
                    };
                    let qc2 = QuorumCertificate {
                        block_id: qc_block_id2,
                        view,
                        signatures: qc_sigs2,
                        voters: qc_voters2,
                    };
                    self.state.pending_qc = Some(qc2);
                    self.state.locked_qc = Some(qc);
                    self.commit_queue.push(block_id);
                    proof {
                        assert(crate::bytes::views_of(self.commit_queue@)
                            =~= crate::bytes::views_of(queue_pre).push(vote.block_id@));
                    }
                }
                Ok(())
            },
        }
    }

    /// Adopts a certificate: locks it, advances the height, and enqueues the
    /// certified block's parent when the block is known and its parent is not
    /// the genesis hash.
    pub fn on_qc(&mut self, qc: QuorumCertificate)
        ensures
            final(self).state.locked_qc == Some(qc),
            final(self).state.pending_qc == old(self).state.pending_qc,
            final(self).state.view == old(self).state.view,
            final(self).state.height == (if old(self).state.height < u64::MAX {
                (old(self).state.height + 1) as u64
            } else {
                old(self).state.height
            }),
            final(self).validators == old(self).validators,
            final(self).total_stake == old(self).total_stake,
            final(self).votes == old(self).votes,
            final(self).block_tree == old(self).block_tree,
            (forall|k: int|
                0 <= k < old(self).block_tree@.len() ==> (#[trigger] old(
                    self,
                ).block_tree@[k]).block_id@ != qc.block_id@) ==> final(self).commit_queue == old(
                self,
            ).commit_queue,
            (exists|k: int|
                0 <= k < old(self).block_tree@.len() && (#[trigger] old(
                    self,
                ).block_tree@[k]).block_id@ == qc.block_id@) ==> exists|k: int|
                {
                    &&& 0 <= k < old(self).block_tree@.len()
                    &&& (#[trigger] old(self).block_tree@[k]).block_id@ == qc.block_id@
                    &&& (forall|j: int|
                        0 <= j < k ==> (#[trigger] old(self).block_tree@[j]).block_id@
                            != qc.block_id@)
                    &&& (old(self).block_tree@[k].block.header.parent_hash@ == crate::state::zero32()
                        ==> final(self).commit_queue == old(self).commit_queue)
                    &&& (old(self).block_tree@[k].block.header.parent_hash@
                        != crate::state::zero32() ==> crate::bytes::views_of(
                        final(self).commit_queue@,
                    ) == crate::bytes::views_of(old(self).commit_queue@).push(
                        old(self).block_tree@[k].block.header.parent_hash@,
                    ))
                },
    {
        let ghost queue_pre = self.commit_queue@;
        let parent = find_parent(&self.block_tree, &qc.block_id);
        self.state.locked_qc = Some(qc);
        if self.state.height < u64::MAX {
            self.state.height = self.state.height + 1;
        }
        match parent {
            Some(p) => {
                if !is_zero_hash(&p) {
                    let ghost pv = p@;
                    self.commit_queue.push(p);
                    proof {
                        assert(crate::bytes::views_of(self.commit_queue@)
                            =~= crate::bytes::views_of(queue_pre).push(pv));
                    }
                }
            },
            None => {},
        }
    }

    /// Advances the view when the timed-out view is still current; everything
    /// else the engine holds is untouched.
    pub fn on_timeout(&mut self, view: u64)
        ensures
            old(self).state.view == view && view < u64::MAX ==> final(self).state.view == view + 1,
            !(old(self).state.view == view && view < u64::MAX) ==> *final(self) == *old(self),
            final(self).state.height == old(self).state.height,
            final(self).state.locked_qc == old(self).state.locked_qc,
            final(self).state.pending_qc == old(self).state.pending_qc,
            final(self).votes == old(self).votes,
            final(self).block_tree == old(self).block_tree,
            final(self).validators == old(self).validators,
            final(self).commit_queue == old(self).commit_queue,
            final(self).total_stake == old(self).total_stake,
    {
        if self.state.view == view && view < u64::MAX {
            self.state.view = self.state.view + 1;
        }
    }

    /// The validator roster the engine tallies against.
    pub fn validator_set(&self) -> (r: &Vec<Validator>)
        ensures
            r == self.validators,
    {
        &self.validators
    }

    /// Records misbehaviour evidence: its digest joins the commit queue as an
    /// observability artifact; stake reduction is the runtime's business.
    pub fn record_slash(&mut self, evidence: &SlashEvidence)
        ensures
            final(self).commit_queue@.len() == old(self).commit_queue@.len() + 1,
            final(self).commit_queue@.last()@ == blake3_of(senc_u128(evidence.validator_id)),
            final(self).commit_queue@.take(old(self).commit_queue@.len() as int) == old(self).commit_queue@,
            final(self).validators == old(self).validators,
            final(self).state == old(self).state,
            final(self).total_stake == old(self).total_stake,
    {
        let mut encoded: Vec<u8> = Vec::new();
        enc_u128(&mut encoded, evidence.validator_id);
        proof {
            assert(encoded@ =~= senc_u128(evidence.validator_id));
        }
        let digest = blake3_hash(&encoded);
        self.commit_queue.push(digest);
    }

    /// A snapshot of the engine's counters.
    pub fn metrics(&self) -> (r: ConsensusMetrics)
        ensures
            r.current_view == self.state.view,
            r.locked_qc == self.state.locked_qc is Some,
            r.pending_qc == self.state.pending_qc is Some,
            r.commit_queue_depth == self.commit_queue@.len(),
    {
        ConsensusMetrics {
            current_view: self.state.view,
            locked_qc: matches!(self.state.locked_qc, Some(_)),
            pending_qc: matches!(self.state.pending_qc, Some(_)),
            commit_queue_depth: self.commit_queue.len(),
        }
    }

    /// Drains the oldest committed block identifier, if any.
    pub fn pop_commit(&mut self) -> (r: Option<Vec<u8>>)
        ensures
            match r {
                Some(id) => old(self).commit_queue@.len() > 0 && id == old(self).commit_queue@.first() && final(self).commit_queue@ == old(self).commit_queue@.drop_first(),
                None => old(self).commit_queue@.len() == 0 && *final(self) == *old(self),
            },
            final(self).state == old(self).state,
            final(self).validators == old(self).validators,
            final(self).total_stake == old(self).total_stake,
    {
        if self.commit_queue.len() == 0 {
            return None;
        }
        let id = self.commit_queue.remove(0);
        proof {
            assert(self.commit_queue@ =~= old(self).commit_queue@.drop_first());
        }
        Some(id)
    }

    /// The current view.
    pub fn current_view(&self) -> (r: u64)
        ensures
            r == self.state.view,
    {
        self.state.view
    }
}

/// The recorded voter identities of a (block, view) tally; empty when none.
pub open spec fn tally_voters(s: Seq<VoteTally>, block_id: Seq<u8>, view: u64) -> Seq<u128> {
    if tally_exists(s, block_id, view) {
        s[tally_ix(s, block_id, view)].voters@
    } else {
        Seq::empty()
    }
}

/// The views of the recorded signatures of a (block, view) tally.
pub open spec fn tally_sigs(s: Seq<VoteTally>, block_id: Seq<u8>, view: u64) -> Seq<Seq<u8>> {
    if tally_exists(s, block_id, view) {
        crate::bytes::views_of(s[tally_ix(s, block_id, view)].signatures@)
    } else {
        Seq::empty()
    }
}

/// Copies a list of voter identities.
fn copy_ids(v: &Vec<u128>) -> (r: Vec<u128>)
    ensures
        r@ == v@,
{
    let mut out: Vec<u128> = Vec::new();
    let n = v.len();
    let mut i: usize = 0;
    proof {
        assert(out@ =~= v@.take(0));
    }
    while i < n
        invariant
            i <= n,
            n == v@.len(),
            out@ == v@.take(i as int),
        decreases n - i,
    {
        out.push(v[i]);
        proof {
            assert(out@ =~= v@.take(i as int + 1));
        }
        i += 1;
    }
    proof {
        assert(v@.take(n as int) =~= v@);
    }
    out
}

/// Copies a list of byte strings.
fn copy_bytes_list(v: &Vec<Vec<u8>>) -> (r: Vec<Vec<u8>>)
    ensures
        crate::bytes::views_of(r@) == crate::bytes::views_of(v@),
{
    let mut out: Vec<Vec<u8>> = Vec::new();
    let n = v.len();
    let mut i: usize = 0;
    proof {
        assert(crate::bytes::views_of(out@) =~= crate::bytes::views_of(v@).take(0));
    }
    while i < n
        invariant
            i <= n,
            n == v@.len(),
            crate::bytes::views_of(out@) == crate::bytes::views_of(v@).take(i as int),
        decreases n - i,
    {
        let ghost pre = out@;
        let mut b: Vec<u8> = Vec::new();
        copy_bytes(&mut b, &v[i]);
        let ghost bv = b@;
        out.push(b);
        proof {
            assert(bv == crate::bytes::views_of(v@)[i as int]);
            assert(crate::bytes::views_of(out@) =~= crate::bytes::views_of(pre).push(bv));
            assert(crate::bytes::views_of(v@).take(i as int + 1) =~= crate::bytes::views_of(
                v@,
            ).take(i as int).push(bv));
        }
        i += 1;
    }
    proof {
        assert(crate::bytes::views_of(v@).take(n as int) =~= crate::bytes::views_of(v@));
    }
    out
}

/// At most one tally per (block, view) pair.
pub open spec fn tallies_unique(s: Seq<VoteTally>) -> bool {
    forall|p: int, q: int|
        0 <= p < q < s.len() ==> !(#[trigger] s[p].block_id@ == #[trigger] s[q].block_id@
            && s[p].view == s[q].view)
}

/// Finds the tally of a (block, view) pair.
fn find_tally(votes: &Vec<VoteTally>, block_id: &Vec<u8>, view: u64) -> (r: Option<usize>)
    ensures
        match r {
            Some(i) => i < votes@.len() && votes@[i as int].block_id@ == block_id@
                && votes@[i as int].view == view,
            None => !tally_exists(votes@, block_id@, view),
        },
{
    let n = votes.len();
    let mut i: usize = 0;
    while i < n
        invariant
            i <= n,
            n == votes@.len(),
            forall|j: int|
                0 <= j < i ==> !(votes@[j].block_id@ == block_id@ && votes@[j].view == view),
        decreases n - i,
    {
        if bytes_eq(&votes[i].block_id, block_id) && votes[i].view == view {
            return Some(i);
        }
        i += 1;
    }
    None
}

/// Whether a voter identifier is already recorded.
fn voters_contain(voters: &Vec<u128>, id: u128) -> (r: bool)
    ensures
        r == exists|k: int| 0 <= k < voters@.len() && voters@[k] == id,
{
    let n = voters.len();
    let mut i: usize = 0;
    while i < n
        invariant
            i <= n,
            n == voters@.len(),
            forall|j: int| 0 <= j < i ==> voters@[j] != id,
        decreases n - i,
    {
        if voters[i] == id {
            proof {
                assert(voters@[i as int] == id);
            }
            return true;
        }
        i += 1;
    }
    false
}

proof fn lemma_tally_unique_ix(s: Seq<VoteTally>, block_id: Seq<u8>, view: u64, i: int)
    requires
        tallies_unique(s),
        0 <= i < s.len(),
        s[i].block_id@ == block_id,
        s[i].view == view,
    ensures
        tally_exists(s, block_id, view),
        tally_ix(s, block_id, view) == i,
        forall|j: int|
            0 <= j < s.len() && s[j].block_id@ == block_id && s[j].view == view ==> j == i,
{
    assert(tally_exists(s, block_id, view));
    assert forall|j: int|
        0 <= j < s.len() && s[j].block_id@ == block_id && s[j].view == view implies j == i by {
        if j < i {
            assert(!(s[j].block_id@ == s[i].block_id@ && s[j].view == s[i].view));
        } else if j > i {
            assert(!(s[i].block_id@ == s[j].block_id@ && s[i].view == s[j].view));
        }
    }
    let w = tally_ix(s, block_id, view);
    assert(0 <= w < s.len() && s[w].block_id@ == block_id && s[w].view == view);
}

/// The parent hash of the first recorded block with the identifier.
fn find_parent(tree: &Vec<BlockEntry>, block_id: &Vec<u8>) -> (r: Option<Vec<u8>>)
    ensures
        match r {
            Some(p) => exists|k: int|
                {
                    &&& 0 <= k < tree@.len()
                    &&& (#[trigger] tree@[k]).block_id@ == block_id@
                    &&& (forall|j: int|
                        0 <= j < k ==> (#[trigger] tree@[j]).block_id@ != block_id@)
                    &&& p@ == tree@[k].block.header.parent_hash@
                },
            None => forall|k: int|
                0 <= k < tree@.len() ==> (#[trigger] tree@[k]).block_id@ != block_id@,
        },
{
    let n = tree.len();
    let mut i: usize = 0;
    while i < n
        invariant
            i <= n,
            n == tree@.len(),
            forall|j: int| 0 <= j < i ==> (#[trigger] tree@[j]).block_id@ != block_id@,
        decreases n - i,
    {
        if bytes_eq(&tree[i].block_id, block_id) {
            let mut p: Vec<u8> = Vec::new();
            copy_bytes(&mut p, &tree[i].block.header.parent_hash);
            proof {
                assert(p@ =~= tree@[i as int].block.header.parent_hash@);
                assert(tree@[i as int].block_id@ == block_id@);
            }
            return Some(p);
        }
        i += 1;
    }
    None
}

/// Saturating addition over stakes, as the tally accumulates them.
pub open spec fn sat_add(a: u128, b: u128) -> u128 {
    if a + b > u128::MAX {
        u128::MAX
    } else {
        (a + b) as u128
    }
}

/// Whether a tally for the (block, view) pair exists.
pub open spec fn tally_exists(s: Seq<VoteTally>, block_id: Seq<u8>, view: u64) -> bool {
    exists|i: int| 0 <= i < s.len() && s[i].block_id@ == block_id && s[i].view == view
}

/// The index of the tally for the (block, view) pair.
pub open spec fn tally_ix(s: Seq<VoteTally>, block_id: Seq<u8>, view: u64) -> int {
    choose|i: int| 0 <= i < s.len() && s[i].block_id@ == block_id && s[i].view == view
}

/// The accumulated stake of a (block, view) tally; zero when none exists.
pub open spec fn tally_stake(s: Seq<VoteTally>, block_id: Seq<u8>, view: u64) -> u128 {
    if tally_exists(s, block_id, view) {
        s[tally_ix(s, block_id, view)].stake
    } else {
        0
    }
}

/// Whether the voter was already counted for the (block, view) pair.
pub open spec fn tally_has_voter(
    s: Seq<VoteTally>,
    block_id: Seq<u8>,
    view: u64,
    voter_id: u128,
) -> bool {
    exists|i: int, k: int|
        0 <= i < s.len() && s[i].block_id@ == block_id && s[i].view == view && 0 <= k
            < s[i].voters@.len() && s[i].voters@[k] == voter_id
}

proof fn lemma_tally_lookup(s: Seq<VoteTally>, block_id: Seq<u8>, view: u64, i: int)
    requires
        0 <= i < s.len(),
        s[i].block_id@ == block_id,
        s[i].view == view,
    ensures
        tally_exists(s, block_id, view),
        0 <= tally_ix(s, block_id, view) < s.len(),
        s[tally_ix(s, block_id, view)].block_id@ == block_id,
        s[tally_ix(s, block_id, view)].view == view,
{
    assert(tally_exists(s, block_id, view));
}

proof fn lemma_tally_stake_absent(s: Seq<VoteTally>, block_id: Seq<u8>, view: u64)
    requires
        !tally_exists(s, block_id, view),
    ensures
        tally_stake(s, block_id, view) == 0,
{
}

/// Whether a hash is the all-zero genesis parent.
pub fn is_zero_hash(h: &Vec<u8>) -> (r: bool)
    ensures
        r == (h@ == crate::state::zero32()),
{
    let z = crate::state::zero_hash();
    bytes_eq(h, &z)
}

proof fn lemma_sum_stakes_prefix(s: Seq<Validator>, i: int)
    requires
        0 < i <= s.len(),
    ensures
        sum_stakes(s.take(i)) == sum_stakes(s.take(i - 1)) + s[i - 1].stake,
        sum_stakes(s.take(i)) <= sum_stakes(s) || i == s.len(),
    decreases s.len() - i,
{
    assert(s.take(i).drop_last() =~= s.take(i - 1));
    assert(s.take(i).last() == s[i - 1]);
    if i < s.len() {
        lemma_sum_stakes_prefix(s, i + 1);
        lemma_sum_stakes_nonneg(s.drop_last());
        assert(s.take(i + 1).drop_last() =~= s.take(i));
        if i + 1 == s.len() {
            assert(s.take(i + 1) =~= s);
        }
    } else {
        assert(s.take(i) =~= s);
    }
}

} // verus!
