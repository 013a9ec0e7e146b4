//! Transactions: the payload kinds the runtime executes, the canonical wire
//! encoding, the signing domain, signature verification, gas pricing and
//! mempool priority.

use vstd::prelude::*;

use crate::codec::{
    enc_bytes, enc_opt_bytes, enc_opt_u128, enc_opt_u64, enc_u128, enc_u16, enc_u64, enc_u8,
    senc_bytes, senc_opt_bytes, senc_opt_u128, senc_opt_u64, senc_u128, senc_u16, senc_u64,
    senc_u8, vec_len_bound, view_opt_bytes,
};
use crate::crypto::{blake3_hash, blake3_of, ed25519_sign, ed25519_sign_of, ed25519_verifies, ed25519_verify};
use crate::domains::{CrossDomainMessage, CrossDomainMessageV, DomainCall, DomainCallV, enc_message, senc_message};
use crate::errors::ExecError;
use crate::root::{enc_domain_params, enc_vote_choice, senc_domain_params, senc_vote_choice};
use crate::state::{DomainParams, VoteChoice};
use crate::zk::{
    Commitments, CommitmentsV, ProofArtifact, ProofArtifactV, enc_program_id, senc_program_id,
    view_opt_commitments,
};

verus! {

/// What a transaction asks the chain to do.
#[derive(Debug)]
pub enum TxPayload {
    Transfer { to: Vec<u8>, amount: u128 },
    Stake { amount: u128 },
    Unstake { amount: u128 },
    Delegate { validator: Vec<u8>, amount: u128 },
    Undelegate { validator: Vec<u8>, amount: u128 },
    DomainExecute(DomainCall),
    CrossDomainSend { from_domain: u128, to_domain: u128, payload: Vec<u8>, fee: u128 },
    CrossDomainRelay { message: CrossDomainMessage },
    FraudChallenge { domain_id: u128, claimed_root: Vec<u8>, witness: Vec<u8> },
    DomainCreate { domain_id: u128, params: DomainParams },
    DomainConfigUpdate { domain_id: u128, params: DomainParams },
    RollupBatchCommit { domain_id: u128, blob_id: u64 },
    RollupBridgeDeposit { domain_id: u128, amount: u128 },
    RollupBridgeWithdraw { domain_id: u128, amount: u128 },
    GovernanceProposal { payload: Vec<u8>, kind: Option<Vec<u8>> },
    GovernanceVote { proposal_id: u128, support: VoteChoice },
    GovernanceBridgeApprove { proposal_id: u128 },
    GovernanceExecute { proposal_id: u128 },
    Slash { validator: Vec<u8>, penalty_bps: u16, reason: Option<Vec<u8>> },
    PrivacyDeposit { commitment: Vec<u8>, amount: u128 },
    PrivacyWithdraw {
        nullifier: Vec<u8>,
        recipient: Vec<u8>,
        amount: u128,
        merkle_root: Vec<u8>,
        commitment: Vec<u8>,
        proof: ProofArtifact,
    },
    SystemUpgrade { module: Vec<u8>, version: Vec<u8> },
}

/// Ghost mirror of `TxPayload`.
pub ghost enum TxPayloadV {
    Transfer { to: Seq<u8>, amount: u128 },
    Stake { amount: u128 },
    Unstake { amount: u128 },
    Delegate { validator: Seq<u8>, amount: u128 },
    Undelegate { validator: Seq<u8>, amount: u128 },
    DomainExecute(DomainCallV),
    CrossDomainSend { from_domain: u128, to_domain: u128, payload: Seq<u8>, fee: u128 },
    CrossDomainRelay { message: CrossDomainMessageV },
    FraudChallenge { domain_id: u128, claimed_root: Seq<u8>, witness: Seq<u8> },
    DomainCreate { domain_id: u128, params: DomainParams },
    DomainConfigUpdate { domain_id: u128, params: DomainParams },
    RollupBatchCommit { domain_id: u128, blob_id: u64 },
    RollupBridgeDeposit { domain_id: u128, amount: u128 },
    RollupBridgeWithdraw { domain_id: u128, amount: u128 },
    GovernanceProposal { payload: Seq<u8>, kind: Option<Seq<u8>> },
    GovernanceVote { proposal_id: u128, support: VoteChoice },
    GovernanceBridgeApprove { proposal_id: u128 },
    GovernanceExecute { proposal_id: u128 },
    Slash { validator: Seq<u8>, penalty_bps: u16, reason: Option<Seq<u8>> },
    PrivacyDeposit { commitment: Seq<u8>, amount: u128 },
    PrivacyWithdraw {
        nullifier: Seq<u8>,
        recipient: Seq<u8>,
        amount: u128,
        merkle_root: Seq<u8>,
        commitment: Seq<u8>,
        proof: ProofArtifactV,
    },
    SystemUpgrade { module: Seq<u8>, version: Seq<u8> },
}

impl View for TxPayload {
    type V = TxPayloadV;

    open spec fn view(&self) -> TxPayloadV {
        match self {
            TxPayload::Transfer { to, amount } => TxPayloadV::Transfer {
                to: to@,
                amount: *amount,
            },
            TxPayload::Stake { amount } => TxPayloadV::Stake { amount: *amount },
            TxPayload::Unstake { amount } => TxPayloadV::Unstake { amount: *amount },
            TxPayload::Delegate { validator, amount } => TxPayloadV::Delegate {
                validator: validator@,
                amount: *amount,
            },
            TxPayload::Undelegate { validator, amount } => TxPayloadV::Undelegate {
                validator: validator@,
                amount: *amount,
            },
            TxPayload::DomainExecute(call) => TxPayloadV::DomainExecute(call@),
            TxPayload::CrossDomainSend { from_domain, to_domain, payload, fee } =>
                TxPayloadV::CrossDomainSend {
                from_domain: *from_domain,
                to_domain: *to_domain,
                payload: payload@,
                fee: *fee,
            },
            TxPayload::CrossDomainRelay { message } => TxPayloadV::CrossDomainRelay {
                message: message@,
            },
            TxPayload::FraudChallenge { domain_id, claimed_root, witness } =>
                TxPayloadV::FraudChallenge {
                domain_id: *domain_id,
                claimed_root: claimed_root@,
                witness: witness@,
            },
            TxPayload::DomainCreate { domain_id, params } => TxPayloadV::DomainCreate {
                domain_id: *domain_id,
                params: *params,
            },
            TxPayload::DomainConfigUpdate { domain_id, params } => TxPayloadV::DomainConfigUpdate {
                domain_id: *domain_id,
                params: *params,
            },
            TxPayload::RollupBatchCommit { domain_id, blob_id } => TxPayloadV::RollupBatchCommit {
                domain_id: *domain_id,
                blob_id: *blob_id,
            },
            TxPayload::RollupBridgeDeposit { domain_id, amount } => TxPayloadV::RollupBridgeDeposit {
                domain_id: *domain_id,
                amount: *amount,
            },
            TxPayload::RollupBridgeWithdraw { domain_id, amount } =>
                TxPayloadV::RollupBridgeWithdraw {
                domain_id: *domain_id,
                amount: *amount,
            },
            TxPayload::GovernanceProposal { payload, kind } => TxPayloadV::GovernanceProposal {
                payload: payload@,
                kind: view_opt_bytes(*kind),
            },
            TxPayload::GovernanceVote { proposal_id, support } => TxPayloadV::GovernanceVote {
                proposal_id: *proposal_id,
                support: *support,
            },
            TxPayload::GovernanceBridgeApprove { proposal_id } => TxPayloadV::GovernanceBridgeApprove {
                proposal_id: *proposal_id,
            },
            TxPayload::GovernanceExecute { proposal_id } => TxPayloadV::GovernanceExecute {
                proposal_id: *proposal_id,
            },
            TxPayload::Slash { validator, penalty_bps, reason } => TxPayloadV::Slash {
                validator: validator@,
                penalty_bps: *penalty_bps,
                reason: view_opt_bytes(*reason),
            },
            TxPayload::PrivacyDeposit { commitment, amount } => TxPayloadV::PrivacyDeposit {
                commitment: commitment@,
                amount: *amount,
            },
            TxPayload::PrivacyWithdraw {
                nullifier,
                recipient,
                amount,
                merkle_root,
                commitment,
                proof,
            } => TxPayloadV::PrivacyWithdraw {
                nullifier: nullifier@,
                recipient: recipient@,
                amount: *amount,
                merkle_root: merkle_root@,
                commitment: commitment@,
                proof: proof@,
            },
            TxPayload::SystemUpgrade { module, version } => TxPayloadV::SystemUpgrade {
                module: module@,
                version: version@,
            },
        }
    }
}

/// A signed transaction. The signature covers every field but itself.
#[derive(Debug)]
pub struct Tx {
    pub chain_id: Vec<u8>,
    pub nonce: u64,
    pub gas_limit: u64,
    pub max_fee: Option<u128>,
    pub max_priority_fee: Option<u128>,
    pub gas_price: Option<u128>,
    pub payload: TxPayload,
    pub public_key: Vec<u8>,
    pub signature: Vec<u8>,
}

/// Ghost mirror of `Tx`.
pub ghost struct TxV {
    pub chain_id: Seq<u8>,
    pub nonce: u64,
    pub gas_limit: u64,
    pub max_fee: Option<u128>,
    pub max_priority_fee: Option<u128>,
    pub gas_price: Option<u128>,
    pub payload: TxPayloadV,
    pub public_key: Seq<u8>,
    pub signature: Seq<u8>,
}

impl View for Tx {
    type V = TxV;

    open spec fn view(&self) -> TxV {
        TxV {
            chain_id: self.chain_id@,
            nonce: self.nonce,
            gas_limit: self.gas_limit,
            max_fee: self.max_fee,
            max_priority_fee: self.max_priority_fee,
            gas_price: self.gas_price,
            payload: self.payload@,
            public_key: self.public_key@,
            signature: self.signature@,
        }
    }
}

// ---------------------------------------------------------------------------
// Canonical encoding.
// ---------------------------------------------------------------------------

pub open spec fn senc_domain_call(c: DomainCallV) -> Seq<u8> {
    senc_u128(c.domain_id) + senc_bytes(c.payload) + senc_bytes(c.raw) + senc_opt_u64(c.max_gas)
}

pub open spec fn senc_commitments(c: CommitmentsV) -> Seq<u8> {
    senc_opt_bytes(c.state_root) + senc_opt_bytes(c.da_root) + senc_opt_bytes(c.events_root)
        + senc_opt_bytes(c.domain_root)
}

pub open spec fn senc_opt_commitments(c: Option<CommitmentsV>) -> Seq<u8> {
    match c {
        None => seq![0u8],
        Some(x) => seq![1u8] + senc_commitments(x),
    }
}

pub open spec fn senc_proof_artifact(a: ProofArtifactV) -> Seq<u8> {
    senc_bytes(a.backend) + senc_program_id(a.program_id) + senc_bytes(a.proof) + senc_bytes(
        a.public_outputs,
    ) + senc_opt_commitments(a.commitments) + senc_opt_bytes(a.verification_key)
}

#[verifier::opaque]
pub open spec fn senc_payload(p: TxPayloadV) -> Seq<u8> {
    match p {
        TxPayloadV::Transfer { to, amount } => senc_u8(0) + senc_bytes(to) + senc_u128(amount),
        TxPayloadV::Stake { amount } => senc_u8(1) + senc_u128(amount),
        TxPayloadV::Unstake { amount } => senc_u8(2) + senc_u128(amount),
        TxPayloadV::Delegate { validator, amount } => senc_u8(3) + senc_bytes(validator)
            + senc_u128(amount),
        TxPayloadV::Undelegate { validator, amount } => senc_u8(4) + senc_bytes(validator)
            + senc_u128(amount),
        TxPayloadV::DomainExecute(call) => senc_u8(5) + senc_domain_call(call),
        TxPayloadV::CrossDomainSend { from_domain, to_domain, payload, fee } => senc_u8(6)
            + senc_u128(from_domain) + senc_u128(to_domain) + senc_bytes(payload) + senc_u128(fee),
        TxPayloadV::CrossDomainRelay { message } => senc_u8(7) + senc_message(message),
        TxPayloadV::FraudChallenge { domain_id, claimed_root, witness } => senc_u8(8) + senc_u128(
            domain_id,
        ) + senc_bytes(claimed_root) + senc_bytes(witness),
        TxPayloadV::DomainCreate { domain_id, params } => senc_u8(9) + senc_u128(domain_id)
            + senc_domain_params(params),
        TxPayloadV::DomainConfigUpdate { domain_id, params } => senc_u8(10) + senc_u128(domain_id)
            + senc_domain_params(params),
        TxPayloadV::RollupBatchCommit { domain_id, blob_id } => senc_u8(11) + senc_u128(domain_id)
            + senc_u64(blob_id),
        TxPayloadV::RollupBridgeDeposit { domain_id, amount } => senc_u8(12) + senc_u128(domain_id)
            + senc_u128(amount),
        TxPayloadV::RollupBridgeWithdraw { domain_id, amount } => senc_u8(13) + senc_u128(
            domain_id,
        ) + senc_u128(amount),
        TxPayloadV::GovernanceProposal { payload, kind } => senc_u8(14) + senc_bytes(payload)
            + senc_opt_bytes(kind),
        TxPayloadV::GovernanceVote { proposal_id, support } => senc_u8(15) + senc_u128(proposal_id)
            + senc_vote_choice(support),
        TxPayloadV::GovernanceBridgeApprove { proposal_id } => senc_u8(16) + senc_u128(proposal_id),
        TxPayloadV::GovernanceExecute { proposal_id } => senc_u8(17) + senc_u128(proposal_id),
        TxPayloadV::Slash { validator, penalty_bps, reason } => senc_u8(18) + senc_bytes(validator)
            + senc_u16(penalty_bps) + senc_opt_bytes(reason),
        TxPayloadV::PrivacyDeposit { commitment, amount } => senc_u8(19) + senc_bytes(commitment)
            + senc_u128(amount),
        TxPayloadV::PrivacyWithdraw {
            nullifier,
            recipient,
            amount,
            merkle_root,
            commitment,
            proof,
        } => senc_u8(20) + senc_bytes(nullifier) + senc_bytes(recipient) + senc_u128(amount)
            + senc_bytes(merkle_root) + senc_bytes(commitment) + senc_proof_artifact(proof),
        TxPayloadV::SystemUpgrade { module, version } => senc_u8(21) + senc_bytes(module)
            + senc_bytes(version),
    }
}

/// The signing domain: every field of the transaction except the signature.
pub open spec fn senc_tx_core(t: TxV) -> Seq<u8> {
    senc_bytes(t.chain_id) + senc_u64(t.nonce) + senc_u64(t.gas_limit) + senc_opt_u128(t.max_fee)
        + senc_opt_u128(t.max_priority_fee) + senc_opt_u128(t.gas_price) + senc_payload(t.payload)
        + senc_bytes(t.public_key)
}

/// The full wire form: the signing domain followed by the signature.
pub open spec fn senc_tx(t: TxV) -> Seq<u8> {
    senc_tx_core(t) + senc_bytes(t.signature)
}

/// Appends the canonical bytes of one domain call.
pub fn enc_domain_call(out: &mut Vec<u8>, c: &DomainCall)
    ensures
        final(out)@ == old(out)@ + senc_domain_call(c@),
{
    enc_u128(out, c.domain_id);
    proof {
        vec_len_bound(&c.payload);
        vec_len_bound(&c.raw);
    }
    enc_bytes(out, &c.payload);
    enc_bytes(out, &c.raw);
    enc_opt_u64(out, &c.max_gas);
    proof {
        assert(out@ =~= old(out)@ + senc_domain_call(c@));
    }
}

fn enc_commitments(out: &mut Vec<u8>, c: &Commitments)
    ensures
        final(out)@ == old(out)@ + senc_commitments(c@),
{
    proof {
        if let Some(b) = &c.state_root {
            vec_len_bound(b);
        }
        if let Some(b) = &c.da_root {
            vec_len_bound(b);
        }
        if let Some(b) = &c.events_root {
            vec_len_bound(b);
        }
        if let Some(b) = &c.domain_root {
            vec_len_bound(b);
        }
    }
    enc_opt_bytes(out, &c.state_root);
    enc_opt_bytes(out, &c.da_root);
    enc_opt_bytes(out, &c.events_root);
    enc_opt_bytes(out, &c.domain_root);
    proof {
        assert(out@ =~= old(out)@ + senc_commitments(c@));
    }
}

/// Appends the canonical bytes of one proof artifact.
pub fn enc_proof_artifact(out: &mut Vec<u8>, a: &ProofArtifact)
    ensures
        final(out)@ == old(out)@ + senc_proof_artifact(a@),
{
    proof {
        vec_len_bound(&a.backend);
        vec_len_bound(&a.proof);
        vec_len_bound(&a.public_outputs);
        if let Some(b) = &a.verification_key {
            vec_len_bound(b);
        }
    }
    enc_bytes(out, &a.backend);
    enc_program_id(out, &a.program_id);
    enc_bytes(out, &a.proof);
    enc_bytes(out, &a.public_outputs);
    match &a.commitments {
        None => {
            enc_u8(out, 0);
        },
        Some(c) => {
            enc_u8(out, 1);
            enc_commitments(out, c);
        },
    }
    enc_opt_bytes(out, &a.verification_key);
    proof {
        assert(senc_opt_commitments(a@.commitments) == match a@.commitments {
            None => seq![0u8],
            Some(x) => seq![1u8] + senc_commitments(x),
        });
        assert(out@ =~= old(out)@ + senc_proof_artifact(a@));
    }
}

/// Appends the canonical bytes of one payload.
pub fn enc_payload(out: &mut Vec<u8>, p: &TxPayload)
    ensures
        final(out)@ == old(out)@ + senc_payload(p@),
{
    match p {
        TxPayload::Transfer { to, amount } => {
            enc_u8(out, 0);
            proof {
                vec_len_bound(to);
            }
            enc_bytes(out, to);
            enc_u128(out, *amount);
        },
        TxPayload::Stake { amount } => {
            enc_u8(out, 1);
            enc_u128(out, *amount);
        },
        TxPayload::Unstake { amount } => {
            enc_u8(out, 2);
            enc_u128(out, *amount);
        },
        TxPayload::Delegate { validator, amount } => {
            enc_u8(out, 3);
            proof {
                vec_len_bound(validator);
            }
            enc_bytes(out, validator);
            enc_u128(out, *amount);
        },
        TxPayload::Undelegate { validator, amount } => {
            enc_u8(out, 4);
            proof {
                vec_len_bound(validator);
            }
            enc_bytes(out, validator);
            enc_u128(out, *amount);
        },
        TxPayload::DomainExecute(call) => {
            enc_u8(out, 5);
            enc_domain_call(out, call);
        },
        TxPayload::CrossDomainSend { from_domain, to_domain, payload, fee } => {
            enc_u8(out, 6);
            enc_u128(out, *from_domain);
            enc_u128(out, *to_domain);
            proof {
                vec_len_bound(payload);
            }
            enc_bytes(out, payload);
            enc_u128(out, *fee);
        },
        TxPayload::CrossDomainRelay { message } => {
            enc_u8(out, 7);
            enc_message(out, message);
        },
        TxPayload::FraudChallenge { domain_id, claimed_root, witness } => {
            enc_u8(out, 8);
            enc_u128(out, *domain_id);
            proof {
                vec_len_bound(claimed_root);
                vec_len_bound(witness);
            }
            enc_bytes(out, claimed_root);
            enc_bytes(out, witness);
        },
        TxPayload::DomainCreate { domain_id, params } => {
            enc_u8(out, 9);
            enc_u128(out, *domain_id);
            enc_domain_params(out, params);
        },
        TxPayload::DomainConfigUpdate { domain_id, params } => {
            enc_u8(out, 10);
            enc_u128(out, *domain_id);
            enc_domain_params(out, params);
        },
        TxPayload::RollupBatchCommit { domain_id, blob_id } => {
            enc_u8(out, 11);
            enc_u128(out, *domain_id);
            enc_u64(out, *blob_id);
        },
        TxPayload::RollupBridgeDeposit { domain_id, amount } => {
            enc_u8(out, 12);
            enc_u128(out, *domain_id);
            enc_u128(out, *amount);
        },
        TxPayload::RollupBridgeWithdraw { domain_id, amount } => {
            enc_u8(out, 13);
            enc_u128(out, *domain_id);
            enc_u128(out, *amount);
        },
        TxPayload::GovernanceProposal { payload, kind } => {
            enc_u8(out, 14);
            proof {
                vec_len_bound(payload);
                if let Some(b) = kind {
                    vec_len_bound(b);
                }
            }
            enc_bytes(out, payload);
            enc_opt_bytes(out, kind);
        },
        TxPayload::GovernanceVote { proposal_id, support } => {
            enc_u8(out, 15);
            enc_u128(out, *proposal_id);
            enc_vote_choice(out, *support);
        },
        TxPayload::GovernanceBridgeApprove { proposal_id } => {
            enc_u8(out, 16);
            enc_u128(out, *proposal_id);
        },
        TxPayload::GovernanceExecute { proposal_id } => {
            enc_u8(out, 17);
            enc_u128(out, *proposal_id);
        },
        TxPayload::Slash { validator, penalty_bps, reason } => {
            enc_u8(out, 18);
            proof {
                vec_len_bound(validator);
                if let Some(b) = reason {
                    vec_len_bound(b);
                }
            }
            enc_bytes(out, validator);
            enc_u16(out, *penalty_bps);
            enc_opt_bytes(out, reason);
        },
        TxPayload::PrivacyDeposit { commitment, amount } => {
            enc_u8(out, 19);
            proof {
                vec_len_bound(commitment);
            }
            enc_bytes(out, commitment);
            enc_u128(out, *amount);
        },
        TxPayload::PrivacyWithdraw {
            nullifier,
            recipient,
            amount,
            merkle_root,
            commitment,
            proof,
        } => {
            enc_u8(out, 20);
            proof {
                vec_len_bound(nullifier);
                vec_len_bound(recipient);
                vec_len_bound(merkle_root);
                vec_len_bound(commitment);
            }
            enc_bytes(out, nullifier);
            enc_bytes(out, recipient);
            enc_u128(out, *amount);
            enc_bytes(out, merkle_root);
            enc_bytes(out, commitment);
            enc_proof_artifact(out, proof);
        },
        TxPayload::SystemUpgrade { module, version } => {
            enc_u8(out, 21);
            proof {
                vec_len_bound(module);
                vec_len_bound(version);
            }
            enc_bytes(out, module);
            enc_bytes(out, version);
        },
    }
    proof {
        reveal(senc_payload);
        assert(out@ =~= old(out)@ + senc_payload(p@));
    }
}

/// The bytes a transaction's signature covers: everything but the signature.
pub fn tx_signing_bytes(tx: &Tx) -> (r: Vec<u8>)
    ensures
        r@ == senc_tx_core(tx@),
{
    let mut out: Vec<u8> = Vec::new();
    proof {
        vec_len_bound(&tx.chain_id);
        vec_len_bound(&tx.public_key);
    }
    enc_bytes(&mut out, &tx.chain_id);
    enc_u64(&mut out, tx.nonce);
    enc_u64(&mut out, tx.gas_limit);
    enc_opt_u128(&mut out, &tx.max_fee);
    enc_opt_u128(&mut out, &tx.max_priority_fee);
    enc_opt_u128(&mut out, &tx.gas_price);
    enc_payload(&mut out, &tx.payload);
    enc_bytes(&mut out, &tx.public_key);
    proof {
        assert(out@ =~= senc_tx_core(tx@));
    }
    out
}

/// The canonical wire bytes of a whole transaction.
pub fn canonical_encode(tx: &Tx) -> (r: Vec<u8>)
    ensures
        r@ == senc_tx(tx@),
{
    let mut out = tx_signing_bytes(tx);
    proof {
        vec_len_bound(&tx.signature);
    }
    enc_bytes(&mut out, &tx.signature);
    proof {
        assert(out@ =~= senc_tx(tx@));
    }
    out
}

// ---------------------------------------------------------------------------
// Identity, signatures, gas.
// ---------------------------------------------------------------------------

/// An address is the BLAKE3 digest of the public key.
pub open spec fn spec_address_of(pubkey: Seq<u8>) -> Seq<u8> {
    blake3_of(pubkey)
}

/// Derives the 32-byte address of a public key.
pub fn address_from_pubkey(pubkey: &Vec<u8>) -> (r: Vec<u8>)
    ensures
        r@ == spec_address_of(pubkey@),
        r@.len() == 32,
{
    blake3_hash(pubkey)
}

/// Signs a message with a 32-byte Ed25519 secret key.
pub fn sign_bytes(secret: &Vec<u8>, msg: &Vec<u8>) -> (r: Vec<u8>)
    requires
        secret@.len() == 32,
    ensures
        r@ == ed25519_sign_of(secret@, msg@),
        r@.len() == 64,
        ed25519_verifies(crate::crypto::ed25519_pubkey_of(secret@), r@, msg@),
{
    ed25519_sign(secret, msg)
}

/// Checks a detached signature: the key must be 32 bytes, the signature 64,
/// and the pair must verify over the message.
pub fn verify_signature_bytes(public_key: &Vec<u8>, signature: &Vec<u8>, msg: &Vec<u8>) -> (r:
    Result<(), ExecError>)
    ensures
        r is Ok <==> public_key@.len() == 32 && signature@.len() == 64 && ed25519_verifies(
            public_key@,
            signature@,
            msg@,
        ),
        r matches Err(e) ==> e == ExecError::InvalidSignature,
{
    if public_key.len() != 32 || signature.len() != 64 {
        return Err(ExecError::InvalidSignature);
    }
    if ed25519_verify(public_key, signature, msg) {
        Ok(())
    } else {
        Err(ExecError::InvalidSignature)
    }
}

/// Whether a transaction's signature verifies over its signing bytes.
pub open spec fn spec_tx_sig_ok(t: TxV) -> bool {
    &&& t.public_key.len() == 32
    &&& t.signature.len() == 64
    &&& ed25519_verifies(t.public_key, t.signature, senc_tx_core(t))
}

/// The sender a valid transaction acts for.
pub open spec fn spec_tx_sender(t: TxV) -> Seq<u8> {
    spec_address_of(t.public_key)
}

/// Verifies a transaction's signature and recovers the sender address.
pub fn verify_tx_signature(tx: &Tx) -> (r: Result<Vec<u8>, ExecError>)
    ensures
        match r {
            Ok(addr) => spec_tx_sig_ok(tx@) && addr@ == spec_tx_sender(tx@) && addr@.len() == 32,
            Err(e) => !spec_tx_sig_ok(tx@) && e == ExecError::InvalidSignature,
        },
{
    let msg = tx_signing_bytes(tx);
    match verify_signature_bytes(&tx.public_key, &tx.signature, &msg) {
        Ok(()) => Ok(address_from_pubkey(&tx.public_key)),
        Err(e) => Err(e),
    }
}

/// The hash identifying a transaction on the wire.
pub fn tx_hash(tx: &Tx) -> (r: Vec<u8>)
    ensures
        r@ == blake3_of(senc_tx(tx@)),
        r@.len() == 32,
{
    let encoded = canonical_encode(tx);
    blake3_hash(&encoded)
}

/// The fixed gas cost of a payload kind.
pub open spec fn spec_gas_cost(p: TxPayloadV) -> u64 {
    match p {
        TxPayloadV::Transfer { .. } => 21_000,
        TxPayloadV::Stake { .. } => 50_000,
        TxPayloadV::Unstake { .. } => 50_000,
        TxPayloadV::Delegate { .. } => 60_000,
        TxPayloadV::Undelegate { .. } => 60_000,
        TxPayloadV::Slash { .. } => 70_000,
        TxPayloadV::PrivacyDeposit { .. } => 80_000,
        TxPayloadV::PrivacyWithdraw { .. } => 120_000,
        TxPayloadV::GovernanceExecute { .. } => 80_000,
        TxPayloadV::DomainExecute(..) => 200_000,
        TxPayloadV::CrossDomainSend { .. } => 90_000,
        TxPayloadV::CrossDomainRelay { .. } => 50_000,
        TxPayloadV::FraudChallenge { .. } => 150_000,
        _ => 50_000,
    }
}

/// The fixed gas a payload kind consumes.
pub fn gas_cost(p: &TxPayload) -> (r: u64)
    ensures
        r == spec_gas_cost(p@),
{
    match p {
        TxPayload::Transfer { .. } => 21_000,
        TxPayload::Stake { .. } => 50_000,
        TxPayload::Unstake { .. } => 50_000,
        TxPayload::Delegate { .. } => 60_000,
        TxPayload::Undelegate { .. } => 60_000,
        TxPayload::Slash { .. } => 70_000,
        TxPayload::PrivacyDeposit { .. } => 80_000,
        TxPayload::PrivacyWithdraw { .. } => 120_000,
        TxPayload::GovernanceExecute { .. } => 80_000,
        TxPayload::DomainExecute(..) => 200_000,
        TxPayload::CrossDomainSend { .. } => 90_000,
        TxPayload::CrossDomainRelay { .. } => 50_000,
        TxPayload::FraudChallenge { .. } => 150_000,
        _ => 50_000,
    }
}

/// The price a transaction pays per unit of gas: under the fee-cap scheme the
/// lesser of the cap and base fee plus tip; else the legacy gas price; else
/// the base fee. Overflow of base fee plus tip yields nothing.
pub open spec fn spec_effective_gas_price(t: TxV, base_fee: u128) -> Option<u128> {
    match t.max_fee {
        Some(max_fee) => {
            let priority = match t.max_priority_fee {
                Some(p) => p,
                None => 0,
            };
            if base_fee + priority > u128::MAX {
                None
            } else if max_fee < base_fee + priority {
                Some(max_fee)
            } else {
                Some((base_fee + priority) as u128)
            }
        },
        None => match t.gas_price {
            Some(gp) => Some(gp),
            None => Some(base_fee),
        },
    }
}

/// Computes the effective gas price; fails with `Overflow` exactly when the
/// base fee plus the priority fee does not fit.
pub fn effective_gas_price(tx: &Tx, base_fee: u128) -> (r: Result<u128, ExecError>)
    ensures
        match r {
            Ok(p) => spec_effective_gas_price(tx@, base_fee) == Some(p),
            Err(e) => spec_effective_gas_price(tx@, base_fee) is None && e == ExecError::Overflow,
        },
{
    match tx.max_fee {
        Some(max_fee) => {
            let priority = match tx.max_priority_fee {
                Some(p) => p,
                None => 0,
            };
            if u128::MAX - priority < base_fee {
                return Err(ExecError::Overflow);
            }
            let total = base_fee + priority;
            if max_fee < total {
                Ok(max_fee)
            } else {
                Ok(total)
            }
        },
        None => match tx.gas_price {
            Some(gp) => Ok(gp),
            None => Ok(base_fee),
        },
    }
}

/// A transaction's place in the mempool order: the fee cap plus the tip,
/// saturating, or the legacy price, or the base fee.
pub open spec fn spec_tx_priority(t: TxV, base_fee: u128) -> u128 {
    match t.max_fee {
        Some(max_fee) => {
            let priority = match t.max_priority_fee {
                Some(p) => p,
                None => 0,
            };
            if max_fee + priority > u128::MAX {
                u128::MAX
            } else {
                (max_fee + priority) as u128
            }
        },
        None => match t.gas_price {
            Some(gp) => gp,
            None => base_fee,
        },
    }
}

/// Scores a transaction for mempool ordering.
pub fn tx_priority(tx: &Tx, base_fee: u128) -> (r: u128)
    ensures
        r == spec_tx_priority(tx@, base_fee),
{
    match tx.max_fee {
        Some(max_fee) => {
            let priority = match tx.max_priority_fee {
                Some(p) => p,
                None => 0,
            };
            if u128::MAX - priority < max_fee {
                u128::MAX
            } else {
                max_fee + priority
            }
        },
        None => match tx.gas_price {
            Some(gp) => gp,
            None => base_fee,
        },
    }
}

/// The short kind tag of a payload, as interfaces and indexes name it.
pub fn payload_kind(p: &TxPayload) -> (r: &'static str)
    ensures
        p@ is Transfer ==> r@ == "transfer"@,
        p@ is Stake ==> r@ == "stake"@,
        p@ is Unstake ==> r@ == "unstake"@,
        p@ is Delegate ==> r@ == "delegate"@,
        p@ is Undelegate ==> r@ == "undelegate"@,
        p@ is DomainExecute ==> r@ == "domain_execute"@,
        p@ is CrossDomainSend ==> r@ == "cross_domain_send"@,
        p@ is CrossDomainRelay ==> r@ == "cross_domain_relay"@,
        p@ is FraudChallenge ==> r@ == "fraud_challenge"@,
        p@ is DomainCreate ==> r@ == "domain_create"@,
        p@ is DomainConfigUpdate ==> r@ == "domain_config_update"@,
        p@ is RollupBatchCommit ==> r@ == "rollup_batch_commit"@,
        p@ is RollupBridgeDeposit ==> r@ == "rollup_bridge_deposit"@,
        p@ is RollupBridgeWithdraw ==> r@ == "rollup_bridge_withdraw"@,
        p@ is GovernanceProposal ==> r@ == "governance_proposal"@,
        p@ is GovernanceVote ==> r@ == "governance_vote"@,
        p@ is GovernanceBridgeApprove ==> r@ == "governance_bridge_approve"@,
        p@ is GovernanceExecute ==> r@ == "governance_execute"@,
        p@ is Slash ==> r@ == "slash"@,
        p@ is PrivacyDeposit ==> r@ == "privacy_deposit"@,
        p@ is PrivacyWithdraw ==> r@ == "privacy_withdraw"@,
        p@ is SystemUpgrade ==> r@ == "system_upgrade"@,
{
    match p {
        TxPayload::Transfer { .. } => "transfer",
        TxPayload::Stake { .. } => "stake",
        TxPayload::Unstake { .. } => "unstake",
        TxPayload::Delegate { .. } => "delegate",
        TxPayload::Undelegate { .. } => "undelegate",
        TxPayload::DomainExecute(..) => "domain_execute",
        TxPayload::CrossDomainSend { .. } => "cross_domain_send",
        TxPayload::CrossDomainRelay { .. } => "cross_domain_relay",
        TxPayload::FraudChallenge { .. } => "fraud_challenge",
        TxPayload::DomainCreate { .. } => "domain_create",
        TxPayload::DomainConfigUpdate { .. } => "domain_config_update",
        TxPayload::RollupBatchCommit { .. } => "rollup_batch_commit",
        TxPayload::RollupBridgeDeposit { .. } => "rollup_bridge_deposit",
        TxPayload::RollupBridgeWithdraw { .. } => "rollup_bridge_withdraw",
        TxPayload::GovernanceProposal { .. } => "governance_proposal",
        TxPayload::GovernanceVote { .. } => "governance_vote",
        TxPayload::GovernanceBridgeApprove { .. } => "governance_bridge_approve",
        TxPayload::GovernanceExecute { .. } => "governance_execute",
        TxPayload::Slash { .. } => "slash",
        TxPayload::PrivacyDeposit { .. } => "privacy_deposit",
        TxPayload::PrivacyWithdraw { .. } => "privacy_withdraw",
        TxPayload::SystemUpgrade { .. } => "system_upgrade",
    }
}

} // verus!
