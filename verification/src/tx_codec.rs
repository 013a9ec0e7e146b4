//! The inverse of the canonical transaction encoding: specification decoders,
//! their round-trip proofs against the encoders, and the executable decoder.
//! Decoding the canonical bytes of any transaction yields that transaction.

use vstd::prelude::*;

use crate::codec::{
    lemma_sdec_bool, lemma_sdec_bytes, lemma_sdec_opt_bytes, lemma_sdec_opt_u128,
    lemma_sdec_opt_u64, lemma_sdec_u128, lemma_sdec_u16, lemma_sdec_u64, lemma_sdec_u8,
    lemma_subrange_piece, sdec_bytes, sdec_opt_bytes, sdec_opt_u128, sdec_opt_u64, sdec_u128,
    sdec_u16, sdec_u64, sdec_u8, senc_bytes, senc_opt_bytes, senc_opt_u128, senc_opt_u64,
    senc_u128, senc_u16, senc_u64, senc_u8,
};
use crate::domains::{CrossDomainMessageV, DomainCallV, senc_message};
use crate::root::{senc_domain_params, senc_domain_type, senc_vote_choice};
use crate::state::{DomainParams, DomainType, VoteChoice};
use crate::tx::{
    TxPayloadV, TxV, senc_commitments, senc_domain_call, senc_opt_commitments,
    senc_payload, senc_proof_artifact, senc_tx, senc_tx_core,
};
use crate::zk::{CommitmentsV, ProgramIdV, ProofArtifactV, senc_program_id};

verus! {

// ---------------------------------------------------------------------------
// Size bounds under which the length prefixes are faithful.
// ---------------------------------------------------------------------------

pub open spec fn bytes_fit(b: Seq<u8>) -> bool {
    b.len() <= u64::MAX
}

pub open spec fn opt_bytes_fit(b: Option<Seq<u8>>) -> bool {
    match b {
        None => true,
        Some(x) => bytes_fit(x),
    }
}

pub open spec fn dcall_wf(c: DomainCallV) -> bool {
    bytes_fit(c.payload) && bytes_fit(c.raw)
}

pub open spec fn msg_wf(m: CrossDomainMessageV) -> bool {
    bytes_fit(m.payload)
}

pub open spec fn pid_wf(p: ProgramIdV) -> bool {
    match p {
        ProgramIdV::Custom(name) => bytes_fit(name),
        _ => true,
    }
}

pub open spec fn commitments_wf(c: CommitmentsV) -> bool {
    opt_bytes_fit(c.state_root) && opt_bytes_fit(c.da_root) && opt_bytes_fit(c.events_root)
        && opt_bytes_fit(c.domain_root)
}

pub open spec fn artifact_wf(a: ProofArtifactV) -> bool {
    &&& bytes_fit(a.backend)
    &&& pid_wf(a.program_id)
    &&& bytes_fit(a.proof)
    &&& bytes_fit(a.public_outputs)
    &&& (a.commitments matches Some(c) ==> commitments_wf(c))
    &&& opt_bytes_fit(a.verification_key)
}

#[verifier::opaque]
pub open spec fn payload_wf(p: TxPayloadV) -> bool {
    match p {
        TxPayloadV::Transfer { to, .. } => bytes_fit(to),
        TxPayloadV::Stake { .. } => true,
        TxPayloadV::Unstake { .. } => true,
        TxPayloadV::Delegate { validator, .. } => bytes_fit(validator),
        TxPayloadV::Undelegate { validator, .. } => bytes_fit(validator),
        TxPayloadV::DomainExecute(call) => dcall_wf(call),
        TxPayloadV::CrossDomainSend { payload, .. } => bytes_fit(payload),
        TxPayloadV::CrossDomainRelay { message } => msg_wf(message),
        TxPayloadV::FraudChallenge { claimed_root, witness, .. } => bytes_fit(claimed_root)
            && bytes_fit(witness),
        TxPayloadV::DomainCreate { .. } => true,
        TxPayloadV::DomainConfigUpdate { .. } => true,
        TxPayloadV::RollupBatchCommit { .. } => true,
        TxPayloadV::RollupBridgeDeposit { .. } => true,
        TxPayloadV::RollupBridgeWithdraw { .. } => true,
        TxPayloadV::GovernanceProposal { payload, kind } => bytes_fit(payload) && opt_bytes_fit(
            kind,
        ),
        TxPayloadV::GovernanceVote { .. } => true,
        TxPayloadV::GovernanceBridgeApprove { .. } => true,
        TxPayloadV::GovernanceExecute { .. } => true,
        TxPayloadV::Slash { validator, reason, .. } => bytes_fit(validator) && opt_bytes_fit(
            reason,
        ),
        TxPayloadV::PrivacyDeposit { commitment, .. } => bytes_fit(commitment),
        TxPayloadV::PrivacyWithdraw {
            nullifier,
            recipient,
            merkle_root,
            commitment,
            proof,
            ..
        } => bytes_fit(nullifier) && bytes_fit(recipient) && bytes_fit(merkle_root) && bytes_fit(
            commitment,
        ) && artifact_wf(proof),
        TxPayloadV::SystemUpgrade { module, version } => bytes_fit(module) && bytes_fit(version),
    }
}

/// The transaction's byte fields fit the 64-bit length prefixes; every
/// transaction that exists in memory satisfies this.
pub open spec fn tx_v_wf(t: TxV) -> bool {
    bytes_fit(t.chain_id) && payload_wf(t.payload) && bytes_fit(t.public_key) && bytes_fit(
        t.signature,
    )
}

// ---------------------------------------------------------------------------
// Specification decoders.
// ---------------------------------------------------------------------------

pub open spec fn sdec_domain_type(s: Seq<u8>, pos: int) -> Option<(DomainType, int)> {
    match sdec_u8(s, pos) {
        None => None,
        Some((t, p)) => if t == 0 {
            Some((DomainType::EvmSharedSecurity, p))
        } else if t == 1 {
            Some((DomainType::Wasm, p))
        } else if t == 2 {
            Some((DomainType::Privacy, p))
        } else if t == 3 {
            Some((DomainType::Payment, p))
        } else if t == 4 {
            Some((DomainType::Custom, p))
        } else {
            None
        },
    }
}

pub open spec fn sdec_vote_choice(s: Seq<u8>, pos: int) -> Option<(VoteChoice, int)> {
    match sdec_u8(s, pos) {
        None => None,
        Some((t, p)) => if t == 0 {
            Some((VoteChoice::For, p))
        } else if t == 1 {
            Some((VoteChoice::Against, p))
        } else if t == 2 {
            Some((VoteChoice::Abstain, p))
        } else {
            None
        },
    }
}

pub open spec fn sdec_domain_params(s: Seq<u8>, pos: int) -> Option<(DomainParams, int)> {
    match sdec_domain_type(s, pos) {
        None => None,
        Some((kind, p1)) => match sdec_opt_u64(s, p1) {
            None => None,
            Some((max_loss_bps, p2)) => match sdec_opt_u64(s, p2) {
                None => None,
                Some((risk_cap, p3)) => Some((DomainParams { kind, max_loss_bps, risk_cap }, p3)),
            },
        },
    }
}

#[verifier::opaque]
pub open spec fn sdec_domain_call(s: Seq<u8>, pos: int) -> Option<(DomainCallV, int)> {
    match sdec_u128(s, pos) {
        None => None,
        Some((domain_id, p1)) => match sdec_bytes(s, p1) {
            None => None,
            Some((payload, p2)) => match sdec_bytes(s, p2) {
                None => None,
                Some((raw, p3)) => match sdec_opt_u64(s, p3) {
                    None => None,
                    Some((max_gas, p4)) => Some(
                        (DomainCallV { domain_id, payload, raw, max_gas }, p4),
                    ),
                },
            },
        },
    }
}

#[verifier::opaque]
pub open spec fn sdec_message(s: Seq<u8>, pos: int) -> Option<(CrossDomainMessageV, int)> {
    match sdec_u128(s, pos) {
        None => None,
        Some((from, p1)) => match sdec_u128(s, p1) {
            None => None,
            Some((to, p2)) => match sdec_u64(s, p2) {
                None => None,
                Some((nonce, p3)) => match sdec_u128(s, p3) {
                    None => None,
                    Some((fee, p4)) => match sdec_bytes(s, p4) {
                        None => None,
                        Some((payload, p5)) => Some(
                            (CrossDomainMessageV { from, to, nonce, fee, payload }, p5),
                        ),
                    },
                },
            },
        },
    }
}

pub open spec fn sdec_program_id(s: Seq<u8>, pos: int) -> Option<(ProgramIdV, int)> {
    match sdec_u8(s, pos) {
        None => None,
        Some((t, p)) => if t == 0 {
            Some((ProgramIdV::Block, p))
        } else if t == 1 {
            Some((ProgramIdV::Rollup, p))
        } else if t == 2 {
            Some((ProgramIdV::PrivacyWithdraw, p))
        } else if t == 3 {
            match sdec_bytes(s, p) {
                None => None,
                Some((name, q)) => Some((ProgramIdV::Custom(name), q)),
            }
        } else {
            None
        },
    }
}

#[verifier::opaque]
pub open spec fn sdec_commitments(s: Seq<u8>, pos: int) -> Option<(CommitmentsV, int)> {
    match sdec_opt_bytes(s, pos) {
        None => None,
        Some((state_root, p1)) => match sdec_opt_bytes(s, p1) {
            None => None,
            Some((da_root, p2)) => match sdec_opt_bytes(s, p2) {
                None => None,
                Some((events_root, p3)) => match sdec_opt_bytes(s, p3) {
                    None => None,
                    Some((domain_root, p4)) => Some(
                        (CommitmentsV { state_root, da_root, events_root, domain_root }, p4),
                    ),
                },
            },
        },
    }
}

#[verifier::opaque]
pub open spec fn sdec_opt_commitments(s: Seq<u8>, pos: int) -> Option<
    (Option<CommitmentsV>, int),
> {
    match sdec_u8(s, pos) {
        None => None,
        Some((t, p)) => if t == 0 {
            Some((None, p))
        } else if t == 1 {
            match sdec_commitments(s, p) {
                None => None,
                Some((c, q)) => Some((Some(c), q)),
            }
        } else {
            None
        },
    }
}

#[verifier::opaque]
pub open spec fn sdec_proof_artifact(s: Seq<u8>, pos: int) -> Option<(ProofArtifactV, int)> {
    match sdec_bytes(s, pos) {
        None => None,
        Some((backend, p1)) => match sdec_program_id(s, p1) {
            None => None,
            Some((program_id, p2)) => match sdec_bytes(s, p2) {
                None => None,
                Some((proof, p3)) => match sdec_bytes(s, p3) {
                    None => None,
                    Some((public_outputs, p4)) => match sdec_opt_commitments(s, p4) {
                        None => None,
                        Some((commitments, p5)) => match sdec_opt_bytes(s, p5) {
                            None => None,
                            Some((verification_key, p6)) => Some(
                                (
                                    ProofArtifactV {
                                        backend,
                                        program_id,
                                        proof,
                                        public_outputs,
                                        commitments,
                                        verification_key,
                                    },
                                    p6,
                                ),
                            ),
                        },
                    },
                },
            },
        },
    }
}

#[verifier::opaque]
pub open spec fn sdec_payload(s: Seq<u8>, pos: int) -> Option<(TxPayloadV, int)> {
    match sdec_u8(s, pos) {
        None => None,
        Some((tag, p)) => if tag == 0 {
            match sdec_bytes(s, p) {
                None => None,
                Some((to, p1)) => match sdec_u128(s, p1) {
                    None => None,
                    Some((amount, p2)) => Some((TxPayloadV::Transfer { to, amount }, p2)),
                },
            }
        } else if tag == 1 {
            match sdec_u128(s, p) {
                None => None,
                Some((amount, p1)) => Some((TxPayloadV::Stake { amount }, p1)),
            }
        } else if tag == 2 {
            match sdec_u128(s, p) {
                None => None,
                Some((amount, p1)) => Some((TxPayloadV::Unstake { amount }, p1)),
            }
        } else if tag == 3 {
            match sdec_bytes(s, p) {
                None => None,
                Some((validator, p1)) => match sdec_u128(s, p1) {
                    None => None,
                    Some((amount, p2)) => Some((TxPayloadV::Delegate { validator, amount }, p2)),
                },
            }
        } else if tag == 4 {
            match sdec_bytes(s, p) {
                None => None,
                Some((validator, p1)) => match sdec_u128(s, p1) {
                    None => None,
                    Some((amount, p2)) => Some((TxPayloadV::Undelegate { validator, amount }, p2)),
                },
            }
        } else if tag == 5 {
            match sdec_domain_call(s, p) {
                None => None,
                Some((call, p1)) => Some((TxPayloadV::DomainExecute(call), p1)),
            }
        } else if tag == 6 {
            match sdec_u128(s, p) {
                None => None,
                Some((from_domain, p1)) => match sdec_u128(s, p1) {
                    None => None,
                    Some((to_domain, p2)) => match sdec_bytes(s, p2) {
                        None => None,
                        Some((payload, p3)) => match sdec_u128(s, p3) {
                            None => None,
                            Some((fee, p4)) => Some(
                                (
                                    TxPayloadV::CrossDomainSend {
                                        from_domain,
                                        to_domain,
                                        payload,
                                        fee,
                                    },
                                    p4,
                                ),
                            ),
                        },
                    },
                },
            }
        } else if tag == 7 {
            match sdec_message(s, p) {
                None => None,
                Some((message, p1)) => Some((TxPayloadV::CrossDomainRelay { message }, p1)),
            }
        } else if tag == 8 {
            match sdec_u128(s, p) {
                None => None,
                Some((domain_id, p1)) => match sdec_bytes(s, p1) {
                    None => None,
                    Some((claimed_root, p2)) => match sdec_bytes(s, p2) {
                        None => None,
                        Some((witness, p3)) => Some(
                            (TxPayloadV::FraudChallenge { domain_id, claimed_root, witness }, p3),
                        ),
                    },
                },
            }
        } else if tag == 9 {
            match sdec_u128(s, p) {
                None => None,
                Some((domain_id, p1)) => match sdec_domain_params(s, p1) {
                    None => None,
                    Some((params, p2)) => Some((TxPayloadV::DomainCreate { domain_id, params }, p2)),
                },
            }
        } else if tag == 10 {
            match sdec_u128(s, p) {
                None => None,
                Some((domain_id, p1)) => match sdec_domain_params(s, p1) {
                    None => None,
                    Some((params, p2)) => Some(
                        (TxPayloadV::DomainConfigUpdate { domain_id, params }, p2),
                    ),
                },
            }
        } else if tag == 11 {
            match sdec_u128(s, p) {
                None => None,
                Some((domain_id, p1)) => match sdec_u64(s, p1) {
                    None => None,
                    Some((blob_id, p2)) => Some(
                        (TxPayloadV::RollupBatchCommit { domain_id, blob_id }, p2),
                    ),
                },
            }
        } else if tag == 12 {
            match sdec_u128(s, p) {
                None => None,
                Some((domain_id, p1)) => match sdec_u128(s, p1) {
                    None => None,
                    Some((amount, p2)) => Some(
                        (TxPayloadV::RollupBridgeDeposit { domain_id, amount }, p2),
                    ),
                },
            }
        } else if tag == 13 {
            match sdec_u128(s, p) {
                None => None,
                Some((domain_id, p1)) => match sdec_u128(s, p1) {
                    None => None,
                    Some((amount, p2)) => Some(
                        (TxPayloadV::RollupBridgeWithdraw { domain_id, amount }, p2),
                    ),
                },
            }
        } else if tag == 14 {
            match sdec_bytes(s, p) {
                None => None,
                Some((payload, p1)) => match sdec_opt_bytes(s, p1) {
                    None => None,
                    Some((kind, p2)) => Some((TxPayloadV::GovernanceProposal { payload, kind }, p2)),
                },
            }
        } else if tag == 15 {
            match sdec_u128(s, p) {
                None => None,
                Some((proposal_id, p1)) => match sdec_vote_choice(s, p1) {
                    None => None,
                    Some((support, p2)) => Some(
                        (TxPayloadV::GovernanceVote { proposal_id, support }, p2),
                    ),
                },
            }
        } else if tag == 16 {
            match sdec_u128(s, p) {
                None => None,
                Some((proposal_id, p1)) => Some(
                    (TxPayloadV::GovernanceBridgeApprove { proposal_id }, p1),
                ),
            }
        } else if tag == 17 {
            match sdec_u128(s, p) {
                None => None,
                Some((proposal_id, p1)) => Some((TxPayloadV::GovernanceExecute { proposal_id }, p1)),
            }
        } else if tag == 18 {
            match sdec_bytes(s, p) {
                None => None,
                Some((validator, p1)) => match sdec_u16(s, p1) {
                    None => None,
                    Some((penalty_bps, p2)) => match sdec_opt_bytes(s, p2) {
                        None => None,
                        Some((reason, p3)) => Some(
                            (TxPayloadV::Slash { validator, penalty_bps, reason }, p3),
                        ),
                    },
                },
            }
        } else if tag == 19 {
            match sdec_bytes(s, p) {
                None => None,
                Some((commitment, p1)) => match sdec_u128(s, p1) {
                    None => None,
                    Some((amount, p2)) => Some(
                        (TxPayloadV::PrivacyDeposit { commitment, amount }, p2),
                    ),
                },
            }
        } else if tag == 20 {
            match sdec_bytes(s, p) {
                None => None,
                Some((nullifier, p1)) => match sdec_bytes(s, p1) {
                    None => None,
                    Some((recipient, p2)) => match sdec_u128(s, p2) {
                        None => None,
                        Some((amount, p3)) => match sdec_bytes(s, p3) {
                            None => None,
                            Some((merkle_root, p4)) => match sdec_bytes(s, p4) {
                                None => None,
                                Some((commitment, p5)) => match sdec_proof_artifact(s, p5) {
                                    None => None,
                                    Some((proof, p6)) => Some(
                                        (
                                            TxPayloadV::PrivacyWithdraw {
                                                nullifier,
                                                recipient,
                                                amount,
                                                merkle_root,
                                                commitment,
                                                proof,
                                            },
                                            p6,
                                        ),
                                    ),
                                },
                            },
                        },
                    },
                },
            }
        } else if tag == 21 {
            match sdec_bytes(s, p) {
                None => None,
                Some((module, p1)) => match sdec_bytes(s, p1) {
                    None => None,
                    Some((version, p2)) => Some((TxPayloadV::SystemUpgrade { module, version }, p2)),
                },
            }
        } else {
            None
        },
    }
}

/// Decodes the scalar head of a transaction: chain, nonce, gas limit and the
/// three fee fields.
#[verifier::opaque]
pub open spec fn sdec_tx_head(s: Seq<u8>) -> Option<
    ((Seq<u8>, u64, u64, Option<u128>, Option<u128>, Option<u128>), int),
> {
    match sdec_bytes(s, 0) {
        None => None,
        Some((chain_id, p1)) => match sdec_u64(s, p1) {
            None => None,
            Some((nonce, p2)) => match sdec_u64(s, p2) {
                None => None,
                Some((gas_limit, p3)) => match sdec_opt_u128(s, p3) {
                    None => None,
                    Some((max_fee, p4)) => match sdec_opt_u128(s, p4) {
                        None => None,
                        Some((max_priority_fee, p5)) => match sdec_opt_u128(s, p5) {
                            None => None,
                            Some((gas_price, p6)) => Some(
                                ((chain_id, nonce, gas_limit, max_fee, max_priority_fee, gas_price), p6),
                            ),
                        },
                    },
                },
            },
        },
    }
}

/// Decodes every field but the signature, yielding the fields and the
/// position after them.
#[verifier::opaque]
pub open spec fn sdec_tx_core(s: Seq<u8>) -> Option<
    ((Seq<u8>, u64, u64, Option<u128>, Option<u128>, Option<u128>, TxPayloadV, Seq<u8>), int),
> {
    match sdec_tx_head(s) {
        None => None,
        Some(((chain_id, nonce, gas_limit, max_fee, max_priority_fee, gas_price), p6)) => match
            sdec_payload(s, p6) {
            None => None,
            Some((payload, p7)) => match sdec_bytes(s, p7) {
                None => None,
                Some((public_key, p8)) => Some(
                    (
                        (
                            chain_id,
                            nonce,
                            gas_limit,
                            max_fee,
                            max_priority_fee,
                            gas_price,
                            payload,
                            public_key,
                        ),
                        p8,
                    ),
                ),
            },
        },
    }
}

/// Decodes a whole transaction; the buffer must hold exactly one.
#[verifier::opaque]
pub open spec fn sdec_tx(s: Seq<u8>) -> Option<TxV> {
    match sdec_tx_core(s) {
        None => None,
        Some(((chain_id, nonce, gas_limit, max_fee, max_priority_fee, gas_price, payload, public_key), p8)) =>
            match sdec_bytes(s, p8) {
            None => None,
            Some((signature, p9)) => if p9 == s.len() {
                Some(
                    TxV {
                        chain_id,
                        nonce,
                        gas_limit,
                        max_fee,
                        max_priority_fee,
                        gas_price,
                        payload,
                        public_key,
                        signature,
                    },
                )
            } else {
                None
            },
        },
    }
}


/// Every transaction that exists in memory is well formed: its byte fields
/// fit the machine word and so the 64-bit length prefixes.
pub proof fn lemma_tx_wf(tx: &crate::tx::Tx)
    ensures
        tx_v_wf(tx@),
{
    reveal(payload_wf);
    crate::codec::vec_len_bound(&tx.chain_id);
    crate::codec::vec_len_bound(&tx.public_key);
    crate::codec::vec_len_bound(&tx.signature);
    match &tx.payload {
        crate::tx::TxPayload::Transfer { to, .. } => {
            crate::codec::vec_len_bound(to);
        },
        crate::tx::TxPayload::Stake { .. } => {},
        crate::tx::TxPayload::Unstake { .. } => {},
        crate::tx::TxPayload::Delegate { validator, .. } => {
            crate::codec::vec_len_bound(validator);
        },
        crate::tx::TxPayload::Undelegate { validator, .. } => {
            crate::codec::vec_len_bound(validator);
        },
        crate::tx::TxPayload::DomainExecute(call) => {
            crate::codec::vec_len_bound(&call.payload);
            crate::codec::vec_len_bound(&call.raw);
        },
        crate::tx::TxPayload::CrossDomainSend { payload, .. } => {
            crate::codec::vec_len_bound(payload);
        },
        crate::tx::TxPayload::CrossDomainRelay { message } => {
            crate::codec::vec_len_bound(&message.payload);
        },
        crate::tx::TxPayload::FraudChallenge { claimed_root, witness, .. } => {
            crate::codec::vec_len_bound(claimed_root);
            crate::codec::vec_len_bound(witness);
        },
        crate::tx::TxPayload::DomainCreate { .. } => {},
        crate::tx::TxPayload::DomainConfigUpdate { .. } => {},
        crate::tx::TxPayload::RollupBatchCommit { .. } => {},
        crate::tx::TxPayload::RollupBridgeDeposit { .. } => {},
        crate::tx::TxPayload::RollupBridgeWithdraw { .. } => {},
        crate::tx::TxPayload::GovernanceProposal { payload, kind } => {
            crate::codec::vec_len_bound(payload);
            if let Some(k) = kind {
                crate::codec::vec_len_bound(k);
            }
        },
        crate::tx::TxPayload::GovernanceVote { .. } => {},
        crate::tx::TxPayload::GovernanceBridgeApprove { .. } => {},
        crate::tx::TxPayload::GovernanceExecute { .. } => {},
        crate::tx::TxPayload::Slash { validator, reason, .. } => {
            crate::codec::vec_len_bound(validator);
            if let Some(rr) = reason {
                crate::codec::vec_len_bound(rr);
            }
        },
        crate::tx::TxPayload::PrivacyDeposit { commitment, .. } => {
            crate::codec::vec_len_bound(commitment);
        },
        crate::tx::TxPayload::PrivacyWithdraw {
            nullifier,
            recipient,
            merkle_root,
            commitment,
            proof,
            ..
        } => {
            crate::codec::vec_len_bound(nullifier);
            crate::codec::vec_len_bound(recipient);
            crate::codec::vec_len_bound(merkle_root);
            crate::codec::vec_len_bound(commitment);
            crate::codec::vec_len_bound(&proof.backend);
            crate::codec::vec_len_bound(&proof.proof);
            crate::codec::vec_len_bound(&proof.public_outputs);
            match &proof.program_id {
                crate::zk::ProgramId::Custom(name) => {
                    crate::codec::vec_len_bound(name);
                },
                _ => {},
            }
            match &proof.commitments {
                Some(c) => {
                    if let Some(b) = &c.state_root {
                        crate::codec::vec_len_bound(b);
                    }
                    if let Some(b) = &c.da_root {
                        crate::codec::vec_len_bound(b);
                    }
                    if let Some(b) = &c.events_root {
                        crate::codec::vec_len_bound(b);
                    }
                    if let Some(b) = &c.domain_root {
                        crate::codec::vec_len_bound(b);
                    }
                },
                None => {},
            }
            if let Some(vk) = &proof.verification_key {
                crate::codec::vec_len_bound(vk);
            }
        },
        crate::tx::TxPayload::SystemUpgrade { module, version } => {
            crate::codec::vec_len_bound(module);
            crate::codec::vec_len_bound(version);
        },
    }
}

// ---------------------------------------------------------------------------
// Round-trip proofs: each decoder inverts its encoder.
// ---------------------------------------------------------------------------

pub proof fn lemma_sdec_domain_type(s: Seq<u8>, pos: int, v: DomainType)
    requires
        0 <= pos,
        pos + 1 <= s.len(),
        s.subrange(pos, pos + 1) == senc_domain_type(v),
    ensures
        sdec_domain_type(s, pos) == Some((v, pos + 1)),
{
    match v {
        DomainType::EvmSharedSecurity => lemma_sdec_u8(s, pos, 0),
        DomainType::Wasm => lemma_sdec_u8(s, pos, 1),
        DomainType::Privacy => lemma_sdec_u8(s, pos, 2),
        DomainType::Payment => lemma_sdec_u8(s, pos, 3),
        DomainType::Custom => lemma_sdec_u8(s, pos, 4),
    }
}

pub proof fn lemma_sdec_vote_choice(s: Seq<u8>, pos: int, v: VoteChoice)
    requires
        0 <= pos,
        pos + 1 <= s.len(),
        s.subrange(pos, pos + 1) == senc_vote_choice(v),
    ensures
        sdec_vote_choice(s, pos) == Some((v, pos + 1)),
{
    match v {
        VoteChoice::For => lemma_sdec_u8(s, pos, 0),
        VoteChoice::Against => lemma_sdec_u8(s, pos, 1),
        VoteChoice::Abstain => lemma_sdec_u8(s, pos, 2),
    }
}

pub proof fn lemma_sdec_domain_params(s: Seq<u8>, pos: int, v: DomainParams)
    requires
        0 <= pos,
        pos + senc_domain_params(v).len() <= s.len(),
        s.subrange(pos, pos + senc_domain_params(v).len()) == senc_domain_params(v),
    ensures
        sdec_domain_params(s, pos) == Some((v, pos + senc_domain_params(v).len())),
{
    let e = senc_domain_params(v);
    let e1 = senc_domain_type(v.kind);
    let e2 = senc_opt_u64(v.max_loss_bps);
    let e3 = senc_opt_u64(v.risk_cap);
    let o1 = e1.len() as int;
    let o2 = o1 + e2.len();
    let o3 = o2 + e3.len();
    assert(e =~= e1 + e2 + e3);
    lemma_subrange_piece(s, pos, e, 0, o1);
    assert(e.subrange(0, o1) =~= e1);
    lemma_sdec_domain_type(s, pos, v.kind);
    lemma_subrange_piece(s, pos, e, o1, o2);
    assert(e.subrange(o1, o2) =~= e2);
    lemma_sdec_opt_u64(s, pos + o1, v.max_loss_bps);
    lemma_subrange_piece(s, pos, e, o2, o3);
    assert(e.subrange(o2, o3) =~= e3);
    lemma_sdec_opt_u64(s, pos + o2, v.risk_cap);
    assert(DomainParams { kind: v.kind, max_loss_bps: v.max_loss_bps, risk_cap: v.risk_cap } == v);
}

pub proof fn lemma_sdec_domain_call(s: Seq<u8>, pos: int, v: DomainCallV)
    requires
        0 <= pos,
        dcall_wf(v),
        pos + senc_domain_call(v).len() <= s.len(),
        s.subrange(pos, pos + senc_domain_call(v).len()) == senc_domain_call(v),
    ensures
        sdec_domain_call(s, pos) == Some((v, pos + senc_domain_call(v).len())),
{
    reveal(sdec_domain_call);
    let e = senc_domain_call(v);
    let e1 = senc_u128(v.domain_id);
    let e2 = senc_bytes(v.payload);
    let e3 = senc_bytes(v.raw);
    let e4 = senc_opt_u64(v.max_gas);
    let o1 = e1.len() as int;
    let o2 = o1 + e2.len();
    let o3 = o2 + e3.len();
    let o4 = o3 + e4.len();
    assert(e =~= e1 + e2 + e3 + e4);
    lemma_subrange_piece(s, pos, e, 0, o1);
    assert(e.subrange(0, o1) =~= e1);
    lemma_sdec_u128(s, pos, v.domain_id);
    lemma_subrange_piece(s, pos, e, o1, o2);
    assert(e.subrange(o1, o2) =~= e2);
    lemma_sdec_bytes(s, pos + o1, v.payload);
    lemma_subrange_piece(s, pos, e, o2, o3);
    assert(e.subrange(o2, o3) =~= e3);
    lemma_sdec_bytes(s, pos + o2, v.raw);
    lemma_subrange_piece(s, pos, e, o3, o4);
    assert(e.subrange(o3, o4) =~= e4);
    lemma_sdec_opt_u64(s, pos + o3, v.max_gas);
    assert(DomainCallV {
        domain_id: v.domain_id,
        payload: v.payload,
        raw: v.raw,
        max_gas: v.max_gas,
    } == v);
}

pub proof fn lemma_sdec_message(s: Seq<u8>, pos: int, v: CrossDomainMessageV)
    requires
        0 <= pos,
        msg_wf(v),
        pos + senc_message(v).len() <= s.len(),
        s.subrange(pos, pos + senc_message(v).len()) == senc_message(v),
    ensures
        sdec_message(s, pos) == Some((v, pos + senc_message(v).len())),
{
    reveal(sdec_message);
    let e = senc_message(v);
    let e1 = senc_u128(v.from);
    let e2 = senc_u128(v.to);
    let e3 = senc_u64(v.nonce);
    let e4 = senc_u128(v.fee);
    let e5 = senc_bytes(v.payload);
    let o1 = e1.len() as int;
    let o2 = o1 + e2.len();
    let o3 = o2 + e3.len();
    let o4 = o3 + e4.len();
    let o5 = o4 + e5.len();
    assert(e =~= e1 + e2 + e3 + e4 + e5);
    lemma_subrange_piece(s, pos, e, 0, o1);
    assert(e.subrange(0, o1) =~= e1);
    lemma_sdec_u128(s, pos, v.from);
    lemma_subrange_piece(s, pos, e, o1, o2);
    assert(e.subrange(o1, o2) =~= e2);
    lemma_sdec_u128(s, pos + o1, v.to);
    lemma_subrange_piece(s, pos, e, o2, o3);
    assert(e.subrange(o2, o3) =~= e3);
    lemma_sdec_u64(s, pos + o2, v.nonce);
    lemma_subrange_piece(s, pos, e, o3, o4);
    assert(e.subrange(o3, o4) =~= e4);
    lemma_sdec_u128(s, pos + o3, v.fee);
    lemma_subrange_piece(s, pos, e, o4, o5);
    assert(e.subrange(o4, o5) =~= e5);
    lemma_sdec_bytes(s, pos + o4, v.payload);
    assert(CrossDomainMessageV {
        from: v.from,
        to: v.to,
        nonce: v.nonce,
        fee: v.fee,
        payload: v.payload,
    } == v);
}

pub proof fn lemma_sdec_program_id(s: Seq<u8>, pos: int, v: ProgramIdV)
    requires
        0 <= pos,
        pid_wf(v),
        pos + senc_program_id(v).len() <= s.len(),
        s.subrange(pos, pos + senc_program_id(v).len()) == senc_program_id(v),
    ensures
        sdec_program_id(s, pos) == Some((v, pos + senc_program_id(v).len())),
{
    let e = senc_program_id(v);
    match v {
        ProgramIdV::Block => {
            lemma_sdec_u8(s, pos, 0);
        },
        ProgramIdV::Rollup => {
            lemma_sdec_u8(s, pos, 1);
        },
        ProgramIdV::PrivacyWithdraw => {
            lemma_sdec_u8(s, pos, 2);
        },
        ProgramIdV::Custom(name) => {
            let e2 = senc_bytes(name);
            assert(e =~= senc_u8(3) + e2);
            lemma_subrange_piece(s, pos, e, 0, 1);
            assert(e.subrange(0, 1) =~= senc_u8(3));
            lemma_sdec_u8(s, pos, 3);
            lemma_subrange_piece(s, pos, e, 1, 1 + e2.len() as int);
            assert(e.subrange(1, 1 + e2.len() as int) =~= e2);
            lemma_sdec_bytes(s, pos + 1, name);
        },
    }
}

pub proof fn lemma_sdec_commitments(s: Seq<u8>, pos: int, v: CommitmentsV)
    requires
        0 <= pos,
        commitments_wf(v),
        pos + senc_commitments(v).len() <= s.len(),
        s.subrange(pos, pos + senc_commitments(v).len()) == senc_commitments(v),
    ensures
        sdec_commitments(s, pos) == Some((v, pos + senc_commitments(v).len())),
{
    reveal(sdec_commitments);
    let e = senc_commitments(v);
    let e1 = senc_opt_bytes(v.state_root);
    let e2 = senc_opt_bytes(v.da_root);
    let e3 = senc_opt_bytes(v.events_root);
    let e4 = senc_opt_bytes(v.domain_root);
    let o1 = e1.len() as int;
    let o2 = o1 + e2.len();
    let o3 = o2 + e3.len();
    let o4 = o3 + e4.len();
    assert(e =~= e1 + e2 + e3 + e4);
    lemma_subrange_piece(s, pos, e, 0, o1);
    assert(e.subrange(0, o1) =~= e1);
    lemma_sdec_opt_bytes(s, pos, v.state_root);
    lemma_subrange_piece(s, pos, e, o1, o2);
    assert(e.subrange(o1, o2) =~= e2);
    lemma_sdec_opt_bytes(s, pos + o1, v.da_root);
    lemma_subrange_piece(s, pos, e, o2, o3);
    assert(e.subrange(o2, o3) =~= e3);
    lemma_sdec_opt_bytes(s, pos + o2, v.events_root);
    lemma_subrange_piece(s, pos, e, o3, o4);
    assert(e.subrange(o3, o4) =~= e4);
    lemma_sdec_opt_bytes(s, pos + o3, v.domain_root);
    assert(CommitmentsV {
        state_root: v.state_root,
        da_root: v.da_root,
        events_root: v.events_root,
        domain_root: v.domain_root,
    } == v);
}

pub proof fn lemma_sdec_opt_commitments(s: Seq<u8>, pos: int, v: Option<CommitmentsV>)
    requires
        0 <= pos,
        (v matches Some(c) ==> commitments_wf(c)),
        pos + senc_opt_commitments(v).len() <= s.len(),
        s.subrange(pos, pos + senc_opt_commitments(v).len()) == senc_opt_commitments(v),
    ensures
        sdec_opt_commitments(s, pos) == Some((v, pos + senc_opt_commitments(v).len())),
{
    reveal(sdec_opt_commitments);
    let e = senc_opt_commitments(v);
    match v {
        None => {
            assert(e =~= senc_u8(0));
            lemma_sdec_u8(s, pos, 0);
        },
        Some(c) => {
            let e2 = senc_commitments(c);
            assert(e =~= senc_u8(1) + e2);
            lemma_subrange_piece(s, pos, e, 0, 1);
            assert(e.subrange(0, 1) =~= senc_u8(1));
            lemma_sdec_u8(s, pos, 1);
            lemma_subrange_piece(s, pos, e, 1, 1 + e2.len() as int);
            assert(e.subrange(1, 1 + e2.len() as int) =~= e2);
            lemma_sdec_commitments(s, pos + 1, c);
        },
    }
}

#[verifier::rlimit(100)]
pub proof fn lemma_sdec_proof_artifact(s: Seq<u8>, pos: int, v: ProofArtifactV)
    requires
        0 <= pos,
        artifact_wf(v),
        pos + senc_proof_artifact(v).len() <= s.len(),
        s.subrange(pos, pos + senc_proof_artifact(v).len()) == senc_proof_artifact(v),
    ensures
        sdec_proof_artifact(s, pos) == Some((v, pos + senc_proof_artifact(v).len())),
{
    reveal(sdec_proof_artifact);
    let e = senc_proof_artifact(v);
    let e1 = senc_bytes(v.backend);
    let e2 = senc_program_id(v.program_id);
    let e3 = senc_bytes(v.proof);
    let e4 = senc_bytes(v.public_outputs);
    let e5 = senc_opt_commitments(v.commitments);
    let e6 = senc_opt_bytes(v.verification_key);
    let o1 = e1.len() as int;
    let o2 = o1 + e2.len();
    let o3 = o2 + e3.len();
    let o4 = o3 + e4.len();
    let o5 = o4 + e5.len();
    let o6 = o5 + e6.len();
    assert(e =~= e1 + e2 + e3 + e4 + e5 + e6);
    lemma_subrange_piece(s, pos, e, 0, o1);
    assert(e.subrange(0, o1) =~= e1);
    lemma_sdec_bytes(s, pos, v.backend);
    lemma_subrange_piece(s, pos, e, o1, o2);
    assert(e.subrange(o1, o2) =~= e2);
    lemma_sdec_program_id(s, pos + o1, v.program_id);
    lemma_subrange_piece(s, pos, e, o2, o3);
    assert(e.subrange(o2, o3) =~= e3);
    lemma_sdec_bytes(s, pos + o2, v.proof);
    lemma_subrange_piece(s, pos, e, o3, o4);
    assert(e.subrange(o3, o4) =~= e4);
    lemma_sdec_bytes(s, pos + o3, v.public_outputs);
    lemma_subrange_piece(s, pos, e, o4, o5);
    assert(e.subrange(o4, o5) =~= e5);
    lemma_sdec_opt_commitments(s, pos + o4, v.commitments);
    lemma_subrange_piece(s, pos, e, o5, o6);
    assert(e.subrange(o5, o6) =~= e6);
    lemma_sdec_opt_bytes(s, pos + o5, v.verification_key);
    assert(ProofArtifactV {
        backend: v.backend,
        program_id: v.program_id,
        proof: v.proof,
        public_outputs: v.public_outputs,
        commitments: v.commitments,
        verification_key: v.verification_key,
    } == v);
}

/// Decoding the canonical bytes of any payload recovers it exactly.
pub proof fn lemma_sdec_payload(s: Seq<u8>, pos: int, p: TxPayloadV)
    requires
        0 <= pos,
        payload_wf(p),
        pos + senc_payload(p).len() <= s.len(),
        s.subrange(pos, pos + senc_payload(p).len()) == senc_payload(p),
    ensures
        sdec_payload(s, pos) == Some((p, pos + senc_payload(p).len())),
{
    match p {
        TxPayloadV::Transfer { to, amount } => lemma_sdec_payload_transfer(s, pos, p),
        TxPayloadV::Stake { amount } => lemma_sdec_payload_stake(s, pos, p),
        TxPayloadV::Unstake { amount } => lemma_sdec_payload_unstake(s, pos, p),
        TxPayloadV::Delegate { validator, amount } => lemma_sdec_payload_delegate(s, pos, p),
        TxPayloadV::Undelegate { validator, amount } => lemma_sdec_payload_undelegate(s, pos, p),
        TxPayloadV::DomainExecute (call) => lemma_sdec_payload_domainexecute(s, pos, p),
        TxPayloadV::CrossDomainSend { from_domain, to_domain, payload, fee } => lemma_sdec_payload_crossdomainsend(s, pos, p),
        TxPayloadV::CrossDomainRelay { message } => lemma_sdec_payload_crossdomainrelay(s, pos, p),
        TxPayloadV::FraudChallenge { domain_id, claimed_root, witness } => lemma_sdec_payload_fraudchallenge(s, pos, p),
        TxPayloadV::DomainCreate { domain_id, params } => lemma_sdec_payload_domaincreate(s, pos, p),
        TxPayloadV::DomainConfigUpdate { domain_id, params } => lemma_sdec_payload_domainconfigupdate(s, pos, p),
        TxPayloadV::RollupBatchCommit { domain_id, blob_id } => lemma_sdec_payload_rollupbatchcommit(s, pos, p),
        TxPayloadV::RollupBridgeDeposit { domain_id, amount } => lemma_sdec_payload_rollupbridgedeposit(s, pos, p),
        TxPayloadV::RollupBridgeWithdraw { domain_id, amount } => lemma_sdec_payload_rollupbridgewithdraw(s, pos, p),
        TxPayloadV::GovernanceProposal { payload, kind } => lemma_sdec_payload_governanceproposal(s, pos, p),
        TxPayloadV::GovernanceVote { proposal_id, support } => lemma_sdec_payload_governancevote(s, pos, p),
        TxPayloadV::GovernanceBridgeApprove { proposal_id } => lemma_sdec_payload_governancebridgeapprove(s, pos, p),
        TxPayloadV::GovernanceExecute { proposal_id } => lemma_sdec_payload_governanceexecute(s, pos, p),
        TxPayloadV::Slash { validator, penalty_bps, reason } => lemma_sdec_payload_slash(s, pos, p),
        TxPayloadV::PrivacyDeposit { commitment, amount } => lemma_sdec_payload_privacydeposit(s, pos, p),
        TxPayloadV::PrivacyWithdraw { nullifier, recipient, amount, merkle_root, commitment, proof } => lemma_sdec_payload_privacywithdraw(s, pos, p),
        TxPayloadV::SystemUpgrade { module, version } => lemma_sdec_payload_systemupgrade(s, pos, p),
    }
}

proof fn lemma_sdec_payload_transfer(s: Seq<u8>, pos: int, p: TxPayloadV)
    requires
        0 <= pos,
        payload_wf(p),
        p is Transfer,
        pos + senc_payload(p).len() <= s.len(),
        s.subrange(pos, pos + senc_payload(p).len()) == senc_payload(p),
    ensures
        sdec_payload(s, pos) == Some((p, pos + senc_payload(p).len())),
{
    reveal(sdec_payload);
    reveal(crate::tx::senc_payload);
    reveal(payload_wf);
    let e = senc_payload(p);
    match p {
TxPayloadV::Transfer { to, amount } => {
            let e1 = senc_bytes(to);
            let e2 = senc_u128(amount);
            let o0: int = 1;
            let o1 = o0 + e1.len();
            let o2 = o1 + e2.len();
            assert(e =~= senc_u8(0) + e1 + e2);
            lemma_subrange_piece(s, pos, e, 0, 1);
            assert(e.subrange(0, 1) =~= senc_u8(0));
            lemma_sdec_u8(s, pos, 0);
            lemma_subrange_piece(s, pos, e, o0, o1);
            assert(e.subrange(o0, o1) =~= e1);
            lemma_sdec_bytes(s, pos + o0, to);
            lemma_subrange_piece(s, pos, e, o1, o2);
            assert(e.subrange(o1, o2) =~= e2);
            lemma_sdec_u128(s, pos + o1, amount);
        },
        _ => {},
    }
}

proof fn lemma_sdec_payload_stake(s: Seq<u8>, pos: int, p: TxPayloadV)
    requires
        0 <= pos,
        payload_wf(p),
        p is Stake,
        pos + senc_payload(p).len() <= s.len(),
        s.subrange(pos, pos + senc_payload(p).len()) == senc_payload(p),
    ensures
        sdec_payload(s, pos) == Some((p, pos + senc_payload(p).len())),
{
    reveal(sdec_payload);
    reveal(crate::tx::senc_payload);
    reveal(payload_wf);
    let e = senc_payload(p);
    match p {
TxPayloadV::Stake { amount } => {
            let e1 = senc_u128(amount);
            let o0: int = 1;
            let o1 = o0 + e1.len();
            assert(e =~= senc_u8(1) + e1);
            lemma_subrange_piece(s, pos, e, 0, 1);
            assert(e.subrange(0, 1) =~= senc_u8(1));
            lemma_sdec_u8(s, pos, 1);
            lemma_subrange_piece(s, pos, e, o0, o1);
            assert(e.subrange(o0, o1) =~= e1);
            lemma_sdec_u128(s, pos + o0, amount);
        },
        _ => {},
    }
}

proof fn lemma_sdec_payload_unstake(s: Seq<u8>, pos: int, p: TxPayloadV)
    requires
        0 <= pos,
        payload_wf(p),
        p is Unstake,
        pos + senc_payload(p).len() <= s.len(),
        s.subrange(pos, pos + senc_payload(p).len()) == senc_payload(p),
    ensures
        sdec_payload(s, pos) == Some((p, pos + senc_payload(p).len())),
{
    reveal(sdec_payload);
    reveal(crate::tx::senc_payload);
    reveal(payload_wf);
    let e = senc_payload(p);
    match p {
TxPayloadV::Unstake { amount } => {
            let e1 = senc_u128(amount);
            let o0: int = 1;
            let o1 = o0 + e1.len();
            assert(e =~= senc_u8(2) + e1);
            lemma_subrange_piece(s, pos, e, 0, 1);
            assert(e.subrange(0, 1) =~= senc_u8(2));
            lemma_sdec_u8(s, pos, 2);
            lemma_subrange_piece(s, pos, e, o0, o1);
            assert(e.subrange(o0, o1) =~= e1);
            lemma_sdec_u128(s, pos + o0, amount);
        },
        _ => {},
    }
}

proof fn lemma_sdec_payload_delegate(s: Seq<u8>, pos: int, p: TxPayloadV)
    requires
        0 <= pos,
        payload_wf(p),
        p is Delegate,
        pos + senc_payload(p).len() <= s.len(),
        s.subrange(pos, pos + senc_payload(p).len()) == senc_payload(p),
    ensures
        sdec_payload(s, pos) == Some((p, pos + senc_payload(p).len())),
{
    reveal(sdec_payload);
    reveal(crate::tx::senc_payload);
    reveal(payload_wf);
    let e = senc_payload(p);
    match p {
TxPayloadV::Delegate { validator, amount } => {
            let e1 = senc_bytes(validator);
            let e2 = senc_u128(amount);
            let o0: int = 1;
            let o1 = o0 + e1.len();
            let o2 = o1 + e2.len();
            assert(e =~= senc_u8(3) + e1 + e2);
            lemma_subrange_piece(s, pos, e, 0, 1);
            assert(e.subrange(0, 1) =~= senc_u8(3));
            lemma_sdec_u8(s, pos, 3);
            lemma_subrange_piece(s, pos, e, o0, o1);
            assert(e.subrange(o0, o1) =~= e1);
            lemma_sdec_bytes(s, pos + o0, validator);
            lemma_subrange_piece(s, pos, e, o1, o2);
            assert(e.subrange(o1, o2) =~= e2);
            lemma_sdec_u128(s, pos + o1, amount);
        },
        _ => {},
    }
}

proof fn lemma_sdec_payload_undelegate(s: Seq<u8>, pos: int, p: TxPayloadV)
    requires
        0 <= pos,
        payload_wf(p),
        p is Undelegate,
        pos + senc_payload(p).len() <= s.len(),
        s.subrange(pos, pos + senc_payload(p).len()) == senc_payload(p),
    ensures
        sdec_payload(s, pos) == Some((p, pos + senc_payload(p).len())),
{
    reveal(sdec_payload);
    reveal(crate::tx::senc_payload);
    reveal(payload_wf);
    let e = senc_payload(p);
    match p {
TxPayloadV::Undelegate { validator, amount } => {
            let e1 = senc_bytes(validator);
            let e2 = senc_u128(amount);
            let o0: int = 1;
            let o1 = o0 + e1.len();
            let o2 = o1 + e2.len();
            assert(e =~= senc_u8(4) + e1 + e2);
            lemma_subrange_piece(s, pos, e, 0, 1);
            assert(e.subrange(0, 1) =~= senc_u8(4));
            lemma_sdec_u8(s, pos, 4);
            lemma_subrange_piece(s, pos, e, o0, o1);
            assert(e.subrange(o0, o1) =~= e1);
            lemma_sdec_bytes(s, pos + o0, validator);
            lemma_subrange_piece(s, pos, e, o1, o2);
            assert(e.subrange(o1, o2) =~= e2);
            lemma_sdec_u128(s, pos + o1, amount);
        },
        _ => {},
    }
}

proof fn lemma_sdec_payload_domainexecute(s: Seq<u8>, pos: int, p: TxPayloadV)
    requires
        0 <= pos,
        payload_wf(p),
        p is DomainExecute,
        pos + senc_payload(p).len() <= s.len(),
        s.subrange(pos, pos + senc_payload(p).len()) == senc_payload(p),
    ensures
        sdec_payload(s, pos) == Some((p, pos + senc_payload(p).len())),
{
    reveal(sdec_payload);
    reveal(crate::tx::senc_payload);
    reveal(payload_wf);
    let e = senc_payload(p);
    match p {
TxPayloadV::DomainExecute (call) => {
            let e1 = senc_domain_call(call);
            let o0: int = 1;
            let o1 = o0 + e1.len();
            assert(e =~= senc_u8(5) + e1);
            lemma_subrange_piece(s, pos, e, 0, 1);
            assert(e.subrange(0, 1) =~= senc_u8(5));
            lemma_sdec_u8(s, pos, 5);
            lemma_subrange_piece(s, pos, e, o0, o1);
            assert(e.subrange(o0, o1) =~= e1);
            lemma_sdec_domain_call(s, pos + o0, call);
        },
        _ => {},
    }
}

proof fn lemma_sdec_payload_crossdomainsend(s: Seq<u8>, pos: int, p: TxPayloadV)
    requires
        0 <= pos,
        payload_wf(p),
        p is CrossDomainSend,
        pos + senc_payload(p).len() <= s.len(),
        s.subrange(pos, pos + senc_payload(p).len()) == senc_payload(p),
    ensures
        sdec_payload(s, pos) == Some((p, pos + senc_payload(p).len())),
{
    reveal(sdec_payload);
    reveal(crate::tx::senc_payload);
    reveal(payload_wf);
    let e = senc_payload(p);
    match p {
TxPayloadV::CrossDomainSend { from_domain, to_domain, payload, fee } => {
            let e1 = senc_u128(from_domain);
            let e2 = senc_u128(to_domain);
            let e3 = senc_bytes(payload);
            let e4 = senc_u128(fee);
            let o0: int = 1;
            let o1 = o0 + e1.len();
            let o2 = o1 + e2.len();
            let o3 = o2 + e3.len();
            let o4 = o3 + e4.len();
            assert(e =~= senc_u8(6) + e1 + e2 + e3 + e4);
            lemma_subrange_piece(s, pos, e, 0, 1);
            assert(e.subrange(0, 1) =~= senc_u8(6));
            lemma_sdec_u8(s, pos, 6);
            lemma_subrange_piece(s, pos, e, o0, o1);
            assert(e.subrange(o0, o1) =~= e1);
            lemma_sdec_u128(s, pos + o0, from_domain);
            lemma_subrange_piece(s, pos, e, o1, o2);
            assert(e.subrange(o1, o2) =~= e2);
            lemma_sdec_u128(s, pos + o1, to_domain);
            lemma_subrange_piece(s, pos, e, o2, o3);
            assert(e.subrange(o2, o3) =~= e3);
            lemma_sdec_bytes(s, pos + o2, payload);
            lemma_subrange_piece(s, pos, e, o3, o4);
            assert(e.subrange(o3, o4) =~= e4);
            lemma_sdec_u128(s, pos + o3, fee);
        },
        _ => {},
    }
}

proof fn lemma_sdec_payload_crossdomainrelay(s: Seq<u8>, pos: int, p: TxPayloadV)
    requires
        0 <= pos,
        payload_wf(p),
        p is CrossDomainRelay,
        pos + senc_payload(p).len() <= s.len(),
        s.subrange(pos, pos + senc_payload(p).len()) == senc_payload(p),
    ensures
        sdec_payload(s, pos) == Some((p, pos + senc_payload(p).len())),
{
    reveal(sdec_payload);
    reveal(crate::tx::senc_payload);
    reveal(payload_wf);
    let e = senc_payload(p);
    match p {
TxPayloadV::CrossDomainRelay { message } => {
            let e1 = senc_message(message);
            let o0: int = 1;
            let o1 = o0 + e1.len();
            assert(e =~= senc_u8(7) + e1);
            lemma_subrange_piece(s, pos, e, 0, 1);
            assert(e.subrange(0, 1) =~= senc_u8(7));
            lemma_sdec_u8(s, pos, 7);
            lemma_subrange_piece(s, pos, e, o0, o1);
            assert(e.subrange(o0, o1) =~= e1);
            lemma_sdec_message(s, pos + o0, message);
        },
        _ => {},
    }
}

proof fn lemma_sdec_payload_fraudchallenge(s: Seq<u8>, pos: int, p: TxPayloadV)
    requires
        0 <= pos,
        payload_wf(p),
        p is FraudChallenge,
        pos + senc_payload(p).len() <= s.len(),
        s.subrange(pos, pos + senc_payload(p).len()) == senc_payload(p),
    ensures
        sdec_payload(s, pos) == Some((p, pos + senc_payload(p).len())),
{
    reveal(sdec_payload);
    reveal(crate::tx::senc_payload);
    reveal(payload_wf);
    let e = senc_payload(p);
    match p {
TxPayloadV::FraudChallenge { domain_id, claimed_root, witness } => {
            let e1 = senc_u128(domain_id);
            let e2 = senc_bytes(claimed_root);
            let e3 = senc_bytes(witness);
            let o0: int = 1;
            let o1 = o0 + e1.len();
            let o2 = o1 + e2.len();
            let o3 = o2 + e3.len();
            assert(e =~= senc_u8(8) + e1 + e2 + e3);
            lemma_subrange_piece(s, pos, e, 0, 1);
            assert(e.subrange(0, 1) =~= senc_u8(8));
            lemma_sdec_u8(s, pos, 8);
            lemma_subrange_piece(s, pos, e, o0, o1);
            assert(e.subrange(o0, o1) =~= e1);
            lemma_sdec_u128(s, pos + o0, domain_id);
            lemma_subrange_piece(s, pos, e, o1, o2);
            assert(e.subrange(o1, o2) =~= e2);
            lemma_sdec_bytes(s, pos + o1, claimed_root);
            lemma_subrange_piece(s, pos, e, o2, o3);
            assert(e.subrange(o2, o3) =~= e3);
            lemma_sdec_bytes(s, pos + o2, witness);
        },
        _ => {},
    }
}

proof fn lemma_sdec_payload_domaincreate(s: Seq<u8>, pos: int, p: TxPayloadV)
    requires
        0 <= pos,
        payload_wf(p),
        p is DomainCreate,
        pos + senc_payload(p).len() <= s.len(),
        s.subrange(pos, pos + senc_payload(p).len()) == senc_payload(p),
    ensures
        sdec_payload(s, pos) == Some((p, pos + senc_payload(p).len())),
{
    reveal(sdec_payload);
    reveal(crate::tx::senc_payload);
    reveal(payload_wf);
    let e = senc_payload(p);
    match p {
TxPayloadV::DomainCreate { domain_id, params } => {
            let e1 = senc_u128(domain_id);
            let e2 = senc_domain_params(params);
            let o0: int = 1;
            let o1 = o0 + e1.len();
            let o2 = o1 + e2.len();
            assert(e =~= senc_u8(9) + e1 + e2);
            lemma_subrange_piece(s, pos, e, 0, 1);
            assert(e.subrange(0, 1) =~= senc_u8(9));
            lemma_sdec_u8(s, pos, 9);
            lemma_subrange_piece(s, pos, e, o0, o1);
            assert(e.subrange(o0, o1) =~= e1);
            lemma_sdec_u128(s, pos + o0, domain_id);
            lemma_subrange_piece(s, pos, e, o1, o2);
            assert(e.subrange(o1, o2) =~= e2);
            lemma_sdec_domain_params(s, pos + o1, params);
        },
        _ => {},
    }
}

proof fn lemma_sdec_payload_domainconfigupdate(s: Seq<u8>, pos: int, p: TxPayloadV)
    requires
        0 <= pos,
        payload_wf(p),
        p is DomainConfigUpdate,
        pos + senc_payload(p).len() <= s.len(),
        s.subrange(pos, pos + senc_payload(p).len()) == senc_payload(p),
    ensures
        sdec_payload(s, pos) == Some((p, pos + senc_payload(p).len())),
{
    reveal(sdec_payload);
    reveal(crate::tx::senc_payload);
    reveal(payload_wf);
    let e = senc_payload(p);
    match p {
TxPayloadV::DomainConfigUpdate { domain_id, params } => {
            let e1 = senc_u128(domain_id);
            let e2 = senc_domain_params(params);
            let o0: int = 1;
            let o1 = o0 + e1.len();
            let o2 = o1 + e2.len();
            assert(e =~= senc_u8(10) + e1 + e2);
            lemma_subrange_piece(s, pos, e, 0, 1);
            assert(e.subrange(0, 1) =~= senc_u8(10));
            lemma_sdec_u8(s, pos, 10);
            lemma_subrange_piece(s, pos, e, o0, o1);
            assert(e.subrange(o0, o1) =~= e1);
            lemma_sdec_u128(s, pos + o0, domain_id);
            lemma_subrange_piece(s, pos, e, o1, o2);
            assert(e.subrange(o1, o2) =~= e2);
            lemma_sdec_domain_params(s, pos + o1, params);
        },
        _ => {},
    }
}

proof fn lemma_sdec_payload_rollupbatchcommit(s: Seq<u8>, pos: int, p: TxPayloadV)
    requires
        0 <= pos,
        payload_wf(p),
        p is RollupBatchCommit,
        pos + senc_payload(p).len() <= s.len(),
        s.subrange(pos, pos + senc_payload(p).len()) == senc_payload(p),
    ensures
        sdec_payload(s, pos) == Some((p, pos + senc_payload(p).len())),
{
    reveal(sdec_payload);
    reveal(crate::tx::senc_payload);
    reveal(payload_wf);
    let e = senc_payload(p);
    match p {
TxPayloadV::RollupBatchCommit { domain_id, blob_id } => {
            let e1 = senc_u128(domain_id);
            let e2 = senc_u64(blob_id);
            let o0: int = 1;
            let o1 = o0 + e1.len();
            let o2 = o1 + e2.len();
            assert(e =~= senc_u8(11) + e1 + e2);
            lemma_subrange_piece(s, pos, e, 0, 1);
            assert(e.subrange(0, 1) =~= senc_u8(11));
            lemma_sdec_u8(s, pos, 11);
            lemma_subrange_piece(s, pos, e, o0, o1);
            assert(e.subrange(o0, o1) =~= e1);
            lemma_sdec_u128(s, pos + o0, domain_id);
            lemma_subrange_piece(s, pos, e, o1, o2);
            assert(e.subrange(o1, o2) =~= e2);
            lemma_sdec_u64(s, pos + o1, blob_id);
        },
        _ => {},
    }
}

proof fn lemma_sdec_payload_rollupbridgedeposit(s: Seq<u8>, pos: int, p: TxPayloadV)
    requires
        0 <= pos,
        payload_wf(p),
        p is RollupBridgeDeposit,
        pos + senc_payload(p).len() <= s.len(),
        s.subrange(pos, pos + senc_payload(p).len()) == senc_payload(p),
    ensures
        sdec_payload(s, pos) == Some((p, pos + senc_payload(p).len())),
{
    reveal(sdec_payload);
    reveal(crate::tx::senc_payload);
    reveal(payload_wf);
    let e = senc_payload(p);
    match p {
TxPayloadV::RollupBridgeDeposit { domain_id, amount } => {
            let e1 = senc_u128(domain_id);
            let e2 = senc_u128(amount);
            let o0: int = 1;
            let o1 = o0 + e1.len();
            let o2 = o1 + e2.len();
            assert(e =~= senc_u8(12) + e1 + e2);
            lemma_subrange_piece(s, pos, e, 0, 1);
            assert(e.subrange(0, 1) =~= senc_u8(12));
            lemma_sdec_u8(s, pos, 12);
            lemma_subrange_piece(s, pos, e, o0, o1);
            assert(e.subrange(o0, o1) =~= e1);
            lemma_sdec_u128(s, pos + o0, domain_id);
            lemma_subrange_piece(s, pos, e, o1, o2);
            assert(e.subrange(o1, o2) =~= e2);
            lemma_sdec_u128(s, pos + o1, amount);
        },
        _ => {},
    }
}

proof fn lemma_sdec_payload_rollupbridgewithdraw(s: Seq<u8>, pos: int, p: TxPayloadV)
    requires
        0 <= pos,
        payload_wf(p),
        p is RollupBridgeWithdraw,
        pos + senc_payload(p).len() <= s.len(),
        s.subrange(pos, pos + senc_payload(p).len()) == senc_payload(p),
    ensures
        sdec_payload(s, pos) == Some((p, pos + senc_payload(p).len())),
{
    reveal(sdec_payload);
    reveal(crate::tx::senc_payload);
    reveal(payload_wf);
    let e = senc_payload(p);
    match p {
TxPayloadV::RollupBridgeWithdraw { domain_id, amount } => {
            let e1 = senc_u128(domain_id);
            let e2 = senc_u128(amount);
            let o0: int = 1;
            let o1 = o0 + e1.len();
            let o2 = o1 + e2.len();
            assert(e =~= senc_u8(13) + e1 + e2);
            lemma_subrange_piece(s, pos, e, 0, 1);
            assert(e.subrange(0, 1) =~= senc_u8(13));
            lemma_sdec_u8(s, pos, 13);
            lemma_subrange_piece(s, pos, e, o0, o1);
            assert(e.subrange(o0, o1) =~= e1);
            lemma_sdec_u128(s, pos + o0, domain_id);
            lemma_subrange_piece(s, pos, e, o1, o2);
            assert(e.subrange(o1, o2) =~= e2);
            lemma_sdec_u128(s, pos + o1, amount);
        },
        _ => {},
    }
}

proof fn lemma_sdec_payload_governanceproposal(s: Seq<u8>, pos: int, p: TxPayloadV)
    requires
        0 <= pos,
        payload_wf(p),
        p is GovernanceProposal,
        pos + senc_payload(p).len() <= s.len(),
        s.subrange(pos, pos + senc_payload(p).len()) == senc_payload(p),
    ensures
        sdec_payload(s, pos) == Some((p, pos + senc_payload(p).len())),
{
    reveal(sdec_payload);
    reveal(crate::tx::senc_payload);
    reveal(payload_wf);
    let e = senc_payload(p);
    match p {
TxPayloadV::GovernanceProposal { payload, kind } => {
            let e1 = senc_bytes(payload);
            let e2 = senc_opt_bytes(kind);
            let o0: int = 1;
            let o1 = o0 + e1.len();
            let o2 = o1 + e2.len();
            assert(e =~= senc_u8(14) + e1 + e2);
            lemma_subrange_piece(s, pos, e, 0, 1);
            assert(e.subrange(0, 1) =~= senc_u8(14));
            lemma_sdec_u8(s, pos, 14);
            lemma_subrange_piece(s, pos, e, o0, o1);
            assert(e.subrange(o0, o1) =~= e1);
            lemma_sdec_bytes(s, pos + o0, payload);
            lemma_subrange_piece(s, pos, e, o1, o2);
            assert(e.subrange(o1, o2) =~= e2);
            lemma_sdec_opt_bytes(s, pos + o1, kind);
        },
        _ => {},
    }
}

proof fn lemma_sdec_payload_governancevote(s: Seq<u8>, pos: int, p: TxPayloadV)
    requires
        0 <= pos,
        payload_wf(p),
        p is GovernanceVote,
        pos + senc_payload(p).len() <= s.len(),
        s.subrange(pos, pos + senc_payload(p).len()) == senc_payload(p),
    ensures
        sdec_payload(s, pos) == Some((p, pos + senc_payload(p).len())),
{
    reveal(sdec_payload);
    reveal(crate::tx::senc_payload);
    reveal(payload_wf);
    let e = senc_payload(p);
    match p {
TxPayloadV::GovernanceVote { proposal_id, support } => {
            let e1 = senc_u128(proposal_id);
            let e2 = senc_vote_choice(support);
            let o0: int = 1;
            let o1 = o0 + e1.len();
            let o2 = o1 + e2.len();
            assert(e =~= senc_u8(15) + e1 + e2);
            lemma_subrange_piece(s, pos, e, 0, 1);
            assert(e.subrange(0, 1) =~= senc_u8(15));
            lemma_sdec_u8(s, pos, 15);
            lemma_subrange_piece(s, pos, e, o0, o1);
            assert(e.subrange(o0, o1) =~= e1);
            lemma_sdec_u128(s, pos + o0, proposal_id);
            lemma_subrange_piece(s, pos, e, o1, o2);
            assert(e.subrange(o1, o2) =~= e2);
            lemma_sdec_vote_choice(s, pos + o1, support);
        },
        _ => {},
    }
}

proof fn lemma_sdec_payload_governancebridgeapprove(s: Seq<u8>, pos: int, p: TxPayloadV)
    requires
        0 <= pos,
        payload_wf(p),
        p is GovernanceBridgeApprove,
        pos + senc_payload(p).len() <= s.len(),
        s.subrange(pos, pos + senc_payload(p).len()) == senc_payload(p),
    ensures
        sdec_payload(s, pos) == Some((p, pos + senc_payload(p).len())),
{
    reveal(sdec_payload);
    reveal(crate::tx::senc_payload);
    reveal(payload_wf);
    let e = senc_payload(p);
    match p {
TxPayloadV::GovernanceBridgeApprove { proposal_id } => {
            let e1 = senc_u128(proposal_id);
            let o0: int = 1;
            let o1 = o0 + e1.len();
            assert(e =~= senc_u8(16) + e1);
            lemma_subrange_piece(s, pos, e, 0, 1);
            assert(e.subrange(0, 1) =~= senc_u8(16));
            lemma_sdec_u8(s, pos, 16);
            lemma_subrange_piece(s, pos, e, o0, o1);
            assert(e.subrange(o0, o1) =~= e1);
            lemma_sdec_u128(s, pos + o0, proposal_id);
        },
        _ => {},
    }
}

proof fn lemma_sdec_payload_governanceexecute(s: Seq<u8>, pos: int, p: TxPayloadV)
    requires
        0 <= pos,
        payload_wf(p),
        p is GovernanceExecute,
        pos + senc_payload(p).len() <= s.len(),
        s.subrange(pos, pos + senc_payload(p).len()) == senc_payload(p),
    ensures
        sdec_payload(s, pos) == Some((p, pos + senc_payload(p).len())),
{
    reveal(sdec_payload);
    reveal(crate::tx::senc_payload);
    reveal(payload_wf);
    let e = senc_payload(p);
    match p {
TxPayloadV::GovernanceExecute { proposal_id } => {
            let e1 = senc_u128(proposal_id);
            let o0: int = 1;
            let o1 = o0 + e1.len();
            assert(e =~= senc_u8(17) + e1);
            lemma_subrange_piece(s, pos, e, 0, 1);
            assert(e.subrange(0, 1) =~= senc_u8(17));
            lemma_sdec_u8(s, pos, 17);
            lemma_subrange_piece(s, pos, e, o0, o1);
            assert(e.subrange(o0, o1) =~= e1);
            lemma_sdec_u128(s, pos + o0, proposal_id);
        },
        _ => {},
    }
}

proof fn lemma_sdec_payload_slash(s: Seq<u8>, pos: int, p: TxPayloadV)
    requires
        0 <= pos,
        payload_wf(p),
        p is Slash,
        pos + senc_payload(p).len() <= s.len(),
        s.subrange(pos, pos + senc_payload(p).len()) == senc_payload(p),
    ensures
        sdec_payload(s, pos) == Some((p, pos + senc_payload(p).len())),
{
    reveal(sdec_payload);
    reveal(crate::tx::senc_payload);
    reveal(payload_wf);
    let e = senc_payload(p);
    match p {
TxPayloadV::Slash { validator, penalty_bps, reason } => {
            let e1 = senc_bytes(validator);
            let e2 = senc_u16(penalty_bps);
            let e3 = senc_opt_bytes(reason);
            let o0: int = 1;
            let o1 = o0 + e1.len();
            let o2 = o1 + e2.len();
            let o3 = o2 + e3.len();
            assert(e =~= senc_u8(18) + e1 + e2 + e3);
            lemma_subrange_piece(s, pos, e, 0, 1);
            assert(e.subrange(0, 1) =~= senc_u8(18));
            lemma_sdec_u8(s, pos, 18);
            lemma_subrange_piece(s, pos, e, o0, o1);
            assert(e.subrange(o0, o1) =~= e1);
            lemma_sdec_bytes(s, pos + o0, validator);
            lemma_subrange_piece(s, pos, e, o1, o2);
            assert(e.subrange(o1, o2) =~= e2);
            lemma_sdec_u16(s, pos + o1, penalty_bps);
            lemma_subrange_piece(s, pos, e, o2, o3);
            assert(e.subrange(o2, o3) =~= e3);
            lemma_sdec_opt_bytes(s, pos + o2, reason);
        },
        _ => {},
    }
}

proof fn lemma_sdec_payload_privacydeposit(s: Seq<u8>, pos: int, p: TxPayloadV)
    requires
        0 <= pos,
        payload_wf(p),
        p is PrivacyDeposit,
        pos + senc_payload(p).len() <= s.len(),
        s.subrange(pos, pos + senc_payload(p).len()) == senc_payload(p),
    ensures
        sdec_payload(s, pos) == Some((p, pos + senc_payload(p).len())),
{
    reveal(sdec_payload);
    reveal(crate::tx::senc_payload);
    reveal(payload_wf);
    let e = senc_payload(p);
    match p {
TxPayloadV::PrivacyDeposit { commitment, amount } => {
            let e1 = senc_bytes(commitment);
            let e2 = senc_u128(amount);
            let o0: int = 1;
            let o1 = o0 + e1.len();
            let o2 = o1 + e2.len();
            assert(e =~= senc_u8(19) + e1 + e2);
            lemma_subrange_piece(s, pos, e, 0, 1);
            assert(e.subrange(0, 1) =~= senc_u8(19));
            lemma_sdec_u8(s, pos, 19);
            lemma_subrange_piece(s, pos, e, o0, o1);
            assert(e.subrange(o0, o1) =~= e1);
            lemma_sdec_bytes(s, pos + o0, commitment);
            lemma_subrange_piece(s, pos, e, o1, o2);
            assert(e.subrange(o1, o2) =~= e2);
            lemma_sdec_u128(s, pos + o1, amount);
        },
        _ => {},
    }
}

#[verifier::rlimit(100)]
#[verifier::spinoff_prover]
proof fn lemma_sdec_payload_privacywithdraw(s: Seq<u8>, pos: int, p: TxPayloadV)
    requires
        0 <= pos,
        payload_wf(p),
        p is PrivacyWithdraw,
        pos + senc_payload(p).len() <= s.len(),
        s.subrange(pos, pos + senc_payload(p).len()) == senc_payload(p),
    ensures
        sdec_payload(s, pos) == Some((p, pos + senc_payload(p).len())),
{
    reveal(sdec_payload);
    reveal(crate::tx::senc_payload);
    reveal(payload_wf);
    let e = senc_payload(p);
    match p {
TxPayloadV::PrivacyWithdraw { nullifier, recipient, amount, merkle_root, commitment, proof } => {
            let e1 = senc_bytes(nullifier);
            let e2 = senc_bytes(recipient);
            let e3 = senc_u128(amount);
            let e4 = senc_bytes(merkle_root);
            let e5 = senc_bytes(commitment);
            let e6 = senc_proof_artifact(proof);
            let o0: int = 1;
            let o1 = o0 + e1.len();
            let o2 = o1 + e2.len();
            let o3 = o2 + e3.len();
            let o4 = o3 + e4.len();
            let o5 = o4 + e5.len();
            let o6 = o5 + e6.len();
            assert(e =~= senc_u8(20) + e1 + e2 + e3 + e4 + e5 + e6);
            lemma_subrange_piece(s, pos, e, 0, 1);
            assert(e.subrange(0, 1) =~= senc_u8(20));
            lemma_sdec_u8(s, pos, 20);
            lemma_subrange_piece(s, pos, e, o0, o1);
            assert(e.subrange(o0, o1) =~= e1);
            lemma_sdec_bytes(s, pos + o0, nullifier);
            lemma_subrange_piece(s, pos, e, o1, o2);
            assert(e.subrange(o1, o2) =~= e2);
            lemma_sdec_bytes(s, pos + o1, recipient);
            lemma_subrange_piece(s, pos, e, o2, o3);
            assert(e.subrange(o2, o3) =~= e3);
            lemma_sdec_u128(s, pos + o2, amount);
            lemma_subrange_piece(s, pos, e, o3, o4);
            assert(e.subrange(o3, o4) =~= e4);
            lemma_sdec_bytes(s, pos + o3, merkle_root);
            lemma_subrange_piece(s, pos, e, o4, o5);
            assert(e.subrange(o4, o5) =~= e5);
            lemma_sdec_bytes(s, pos + o4, commitment);
            lemma_subrange_piece(s, pos, e, o5, o6);
            assert(e.subrange(o5, o6) =~= e6);
            lemma_sdec_proof_artifact(s, pos + o5, proof);
        },
        _ => {},
    }
}

proof fn lemma_sdec_payload_systemupgrade(s: Seq<u8>, pos: int, p: TxPayloadV)
    requires
        0 <= pos,
        payload_wf(p),
        p is SystemUpgrade,
        pos + senc_payload(p).len() <= s.len(),
        s.subrange(pos, pos + senc_payload(p).len()) == senc_payload(p),
    ensures
        sdec_payload(s, pos) == Some((p, pos + senc_payload(p).len())),
{
    reveal(sdec_payload);
    reveal(crate::tx::senc_payload);
    reveal(payload_wf);
    let e = senc_payload(p);
    match p {
TxPayloadV::SystemUpgrade { module, version } => {
            let e1 = senc_bytes(module);
            let e2 = senc_bytes(version);
            let o0: int = 1;
            let o1 = o0 + e1.len();
            let o2 = o1 + e2.len();
            assert(e =~= senc_u8(21) + e1 + e2);
            lemma_subrange_piece(s, pos, e, 0, 1);
            assert(e.subrange(0, 1) =~= senc_u8(21));
            lemma_sdec_u8(s, pos, 21);
            lemma_subrange_piece(s, pos, e, o0, o1);
            assert(e.subrange(o0, o1) =~= e1);
            lemma_sdec_bytes(s, pos + o0, module);
            lemma_subrange_piece(s, pos, e, o1, o2);
            assert(e.subrange(o1, o2) =~= e2);
            lemma_sdec_bytes(s, pos + o1, version);
        },
        _ => {},
    }
}

} // verus!

// ---------------------------------------------------------------------------
// Executable decoders.
// ---------------------------------------------------------------------------

use crate::codec::{dec_bytes, dec_opt_bytes, dec_opt_u128, dec_opt_u64, dec_u128, dec_u16, dec_u64, dec_u8};
use crate::domains::{CrossDomainMessage, DomainCall};
use crate::tx::{Tx, TxPayload};
use crate::zk::{Commitments, ProgramId, ProofArtifact};

verus! {

/// Reads a domain kind tag.
pub fn dec_domain_type(data: &Vec<u8>, pos: usize) -> (r: Option<(DomainType, usize)>)
    ensures
        match r {
            Some((v, end)) => sdec_domain_type(data@, pos as int) == Some((v, end as int)) && end
                <= data@.len(),
            None => sdec_domain_type(data@, pos as int) is None,
        },
{
    let Some((t, p)) = dec_u8(data, pos) else {
        return None;
    };
    if t == 0 {
        Some((DomainType::EvmSharedSecurity, p))
    } else if t == 1 {
        Some((DomainType::Wasm, p))
    } else if t == 2 {
        Some((DomainType::Privacy, p))
    } else if t == 3 {
        Some((DomainType::Payment, p))
    } else if t == 4 {
        Some((DomainType::Custom, p))
    } else {
        None
    }
}

/// Reads a ballot option tag.
pub fn dec_vote_choice(data: &Vec<u8>, pos: usize) -> (r: Option<(VoteChoice, usize)>)
    ensures
        match r {
            Some((v, end)) => sdec_vote_choice(data@, pos as int) == Some((v, end as int)) && end
                <= data@.len(),
            None => sdec_vote_choice(data@, pos as int) is None,
        },
{
    let Some((t, p)) = dec_u8(data, pos) else {
        return None;
    };
    if t == 0 {
        Some((VoteChoice::For, p))
    } else if t == 1 {
        Some((VoteChoice::Against, p))
    } else if t == 2 {
        Some((VoteChoice::Abstain, p))
    } else {
        None
    }
}

/// Reads bounded domain risk parameters.
pub fn dec_domain_params(data: &Vec<u8>, pos: usize) -> (r: Option<(DomainParams, usize)>)
    ensures
        match r {
            Some((v, end)) => sdec_domain_params(data@, pos as int) == Some((v, end as int)) && end
                <= data@.len(),
            None => sdec_domain_params(data@, pos as int) is None,
        },
{
    let Some((kind, p1)) = dec_domain_type(data, pos) else {
        return None;
    };
    let Some((max_loss_bps, p2)) = dec_opt_u64(data, p1) else {
        return None;
    };
    let Some((risk_cap, p3)) = dec_opt_u64(data, p2) else {
        return None;
    };
    Some((DomainParams { kind, max_loss_bps, risk_cap }, p3))
}

/// Reads a domain call.
pub fn dec_domain_call(data: &Vec<u8>, pos: usize) -> (r: Option<(DomainCall, usize)>)
    ensures
        match r {
            Some((v, end)) => sdec_domain_call(data@, pos as int) == Some((v@, end as int)) && end
                <= data@.len(),
            None => sdec_domain_call(data@, pos as int) is None,
        },
{
    proof {
        reveal(sdec_domain_call);
    }
    let Some((domain_id, p1)) = dec_u128(data, pos) else {
        return None;
    };
    let Some((payload, p2)) = dec_bytes(data, p1) else {
        return None;
    };
    let Some((raw, p3)) = dec_bytes(data, p2) else {
        return None;
    };
    let Some((max_gas, p4)) = dec_opt_u64(data, p3) else {
        return None;
    };
    Some((DomainCall { domain_id, payload, raw, max_gas }, p4))
}

/// Reads a cross-domain message.
pub fn dec_message(data: &Vec<u8>, pos: usize) -> (r: Option<(CrossDomainMessage, usize)>)
    ensures
        match r {
            Some((v, end)) => sdec_message(data@, pos as int) == Some((v@, end as int)) && end
                <= data@.len(),
            None => sdec_message(data@, pos as int) is None,
        },
{
    proof {
        reveal(sdec_message);
    }
    let Some((from, p1)) = dec_u128(data, pos) else {
        return None;
    };
    let Some((to, p2)) = dec_u128(data, p1) else {
        return None;
    };
    let Some((nonce, p3)) = dec_u64(data, p2) else {
        return None;
    };
    let Some((fee, p4)) = dec_u128(data, p3) else {
        return None;
    };
    let Some((payload, p5)) = dec_bytes(data, p4) else {
        return None;
    };
    Some((CrossDomainMessage { from, to, nonce, fee, payload }, p5))
}

/// Reads a program identifier.
pub fn dec_program_id(data: &Vec<u8>, pos: usize) -> (r: Option<(ProgramId, usize)>)
    ensures
        match r {
            Some((v, end)) => sdec_program_id(data@, pos as int) == Some((v@, end as int)) && end
                <= data@.len(),
            None => sdec_program_id(data@, pos as int) is None,
        },
{
    let Some((t, p)) = dec_u8(data, pos) else {
        return None;
    };
    if t == 0 {
        Some((ProgramId::Block, p))
    } else if t == 1 {
        Some((ProgramId::Rollup, p))
    } else if t == 2 {
        Some((ProgramId::PrivacyWithdraw, p))
    } else if t == 3 {
        let Some((name, q)) = dec_bytes(data, p) else {
            return None;
        };
        Some((ProgramId::Custom(name), q))
    } else {
        None
    }
}

/// Reads a commitment set.
pub fn dec_commitments(data: &Vec<u8>, pos: usize) -> (r: Option<(Commitments, usize)>)
    ensures
        match r {
            Some((v, end)) => sdec_commitments(data@, pos as int) == Some((v@, end as int)) && end
                <= data@.len(),
            None => sdec_commitments(data@, pos as int) is None,
        },
{
    proof {
        reveal(sdec_commitments);
    }
    let Some((state_root, p1)) = dec_opt_bytes(data, pos) else {
        return None;
    };
    let Some((da_root, p2)) = dec_opt_bytes(data, p1) else {
        return None;
    };
    let Some((events_root, p3)) = dec_opt_bytes(data, p2) else {
        return None;
    };
    let Some((domain_root, p4)) = dec_opt_bytes(data, p3) else {
        return None;
    };
    Some((Commitments { state_root, da_root, events_root, domain_root }, p4))
}

/// Reads a proof artifact.
pub fn dec_proof_artifact(data: &Vec<u8>, pos: usize) -> (r: Option<(ProofArtifact, usize)>)
    ensures
        match r {
            Some((v, end)) => sdec_proof_artifact(data@, pos as int) == Some((v@, end as int))
                && end <= data@.len(),
            None => sdec_proof_artifact(data@, pos as int) is None,
        },
{
    proof {
        reveal(sdec_proof_artifact);
        reveal(sdec_opt_commitments);
    }
    let Some((backend, p1)) = dec_bytes(data, pos) else {
        return None;
    };
    let Some((program_id, p2)) = dec_program_id(data, p1) else {
        return None;
    };
    let Some((proof, p3)) = dec_bytes(data, p2) else {
        return None;
    };
    let Some((public_outputs, p4)) = dec_bytes(data, p3) else {
        return None;
    };
    let Some((t, p5a)) = dec_u8(data, p4) else {
        return None;
    };
    let (commitments, p5): (Option<Commitments>, usize) = if t == 0 {
        (None, p5a)
    } else if t == 1 {
        let Some((c, q)) = dec_commitments(data, p5a) else {
            return None;
        };
        (Some(c), q)
    } else {
        return None;
    };
    let Some((verification_key, p6)) = dec_opt_bytes(data, p5) else {
        return None;
    };
    Some(
        (
            ProofArtifact { backend, program_id, proof, public_outputs, commitments, verification_key },
            p6,
        ),
    )
}

/// Reads one payload.
#[verifier::rlimit(100)]
pub fn dec_payload(data: &Vec<u8>, pos: usize) -> (r: Option<(TxPayload, usize)>)
    ensures
        match r {
            Some((v, end)) => sdec_payload(data@, pos as int) == Some((v@, end as int)) && end
                <= data@.len(),
            None => sdec_payload(data@, pos as int) is None,
        },
{
    proof {
        reveal(sdec_payload);
    }
    let Some((tag, p)) = dec_u8(data, pos) else {
        return None;
    };
    match tag {
        0 => {
            let Some((to, p1)) = dec_bytes(data, p) else {
                return None;
            };
            let Some((amount, p2)) = dec_u128(data, p1) else {
                return None;
            };
            Some((TxPayload::Transfer { to, amount }, p2))
        },
        1 => {
            let Some((amount, p1)) = dec_u128(data, p) else {
                return None;
            };
            Some((TxPayload::Stake { amount }, p1))
        },
        2 => {
            let Some((amount, p1)) = dec_u128(data, p) else {
                return None;
            };
            Some((TxPayload::Unstake { amount }, p1))
        },
        3 => {
            let Some((validator, p1)) = dec_bytes(data, p) else {
                return None;
            };
            let Some((amount, p2)) = dec_u128(data, p1) else {
                return None;
            };
            Some((TxPayload::Delegate { validator, amount }, p2))
        },
        4 => {
            let Some((validator, p1)) = dec_bytes(data, p) else {
                return None;
            };
            let Some((amount, p2)) = dec_u128(data, p1) else {
                return None;
            };
            Some((TxPayload::Undelegate { validator, amount }, p2))
        },
        5 => {
            let Some((call, p1)) = dec_domain_call(data, p) else {
                return None;
            };
            Some((TxPayload::DomainExecute(call), p1))
        },
        6 => {
            let Some((from_domain, p1)) = dec_u128(data, p) else {
                return None;
            };
            let Some((to_domain, p2)) = dec_u128(data, p1) else {
                return None;
            };
            let Some((payload, p3)) = dec_bytes(data, p2) else {
                return None;
            };
            let Some((fee, p4)) = dec_u128(data, p3) else {
                return None;
            };
            Some((TxPayload::CrossDomainSend { from_domain, to_domain, payload, fee }, p4))
        },
        7 => {
            let Some((message, p1)) = dec_message(data, p) else {
                return None;
            };
            Some((TxPayload::CrossDomainRelay { message }, p1))
        },
        8 => {
            let Some((domain_id, p1)) = dec_u128(data, p) else {
                return None;
            };
            let Some((claimed_root, p2)) = dec_bytes(data, p1) else {
                return None;
            };
            let Some((witness, p3)) = dec_bytes(data, p2) else {
                return None;
            };
            Some((TxPayload::FraudChallenge { domain_id, claimed_root, witness }, p3))
        },
        9 => {
            let Some((domain_id, p1)) = dec_u128(data, p) else {
                return None;
            };
            let Some((params, p2)) = dec_domain_params(data, p1) else {
                return None;
            };
            Some((TxPayload::DomainCreate { domain_id, params }, p2))
        },
        10 => {
            let Some((domain_id, p1)) = dec_u128(data, p) else {
                return None;
            };
            let Some((params, p2)) = dec_domain_params(data, p1) else {
                return None;
            };
            Some((TxPayload::DomainConfigUpdate { domain_id, params }, p2))
        },
        11 => {
            let Some((domain_id, p1)) = dec_u128(data, p) else {
                return None;
            };
            let Some((blob_id, p2)) = dec_u64(data, p1) else {
                return None;
            };
            Some((TxPayload::RollupBatchCommit { domain_id, blob_id }, p2))
        },
        12 => {
            let Some((domain_id, p1)) = dec_u128(data, p) else {
                return None;
            };
            let Some((amount, p2)) = dec_u128(data, p1) else {
                return None;
            };
            Some((TxPayload::RollupBridgeDeposit { domain_id, amount }, p2))
        },
        13 => {
            let Some((domain_id, p1)) = dec_u128(data, p) else {
                return None;
            };
            let Some((amount, p2)) = dec_u128(data, p1) else {
                return None;
            };
            Some((TxPayload::RollupBridgeWithdraw { domain_id, amount }, p2))
        },
        14 => {
            let Some((payload, p1)) = dec_bytes(data, p) else {
                return None;
            };
            let Some((kind, p2)) = dec_opt_bytes(data, p1) else {
                return None;
            };
            Some((TxPayload::GovernanceProposal { payload, kind }, p2))
        },
        15 => {
            let Some((proposal_id, p1)) = dec_u128(data, p) else {
                return None;
            };
            let Some((support, p2)) = dec_vote_choice(data, p1) else {
                return None;
            };
            Some((TxPayload::GovernanceVote { proposal_id, support }, p2))
        },
        16 => {
            let Some((proposal_id, p1)) = dec_u128(data, p) else {
                return None;
            };
            Some((TxPayload::GovernanceBridgeApprove { proposal_id }, p1))
        },
        17 => {
            let Some((proposal_id, p1)) = dec_u128(data, p) else {
                return None;
            };
            Some((TxPayload::GovernanceExecute { proposal_id }, p1))
        },
        18 => {
            let Some((validator, p1)) = dec_bytes(data, p) else {
                return None;
            };
            let Some((penalty_bps, p2)) = dec_u16(data, p1) else {
                return None;
            };
            let Some((reason, p3)) = dec_opt_bytes(data, p2) else {
                return None;
            };
            Some((TxPayload::Slash { validator, penalty_bps, reason }, p3))
        },
        19 => {
            let Some((commitment, p1)) = dec_bytes(data, p) else {
                return None;
            };
            let Some((amount, p2)) = dec_u128(data, p1) else {
                return None;
            };
            Some((TxPayload::PrivacyDeposit { commitment, amount }, p2))
        },
        20 => {
            let Some((nullifier, p1)) = dec_bytes(data, p) else {
                return None;
            };
            let Some((recipient, p2)) = dec_bytes(data, p1) else {
                return None;
            };
            let Some((amount, p3)) = dec_u128(data, p2) else {
                return None;
            };
            let Some((merkle_root, p4)) = dec_bytes(data, p3) else {
                return None;
            };
            let Some((commitment, p5)) = dec_bytes(data, p4) else {
                return None;
            };
            let Some((proof, p6)) = dec_proof_artifact(data, p5) else {
                return None;
            };
            Some((TxPayload::PrivacyWithdraw { nullifier, recipient, amount, merkle_root, commitment, proof }, p6))
        },
        21 => {
            let Some((module, p1)) = dec_bytes(data, p) else {
                return None;
            };
            let Some((version, p2)) = dec_bytes(data, p1) else {
                return None;
            };
            Some((TxPayload::SystemUpgrade { module, version }, p2))
        },
        _ => None,
    }
}

/// Decodes one transaction from its exact canonical bytes.
pub fn canonical_decode(data: &Vec<u8>) -> (r: Option<Tx>)
    ensures
        match r {
            Some(t) => sdec_tx(data@) == Some(t@),
            None => sdec_tx(data@) is None,
        },
{
    proof {
        reveal(sdec_tx);
        reveal(sdec_tx_core);
        reveal(sdec_tx_head);
    }
    let Some((chain_id, p1)) = dec_bytes(data, 0) else {
        return None;
    };
    let Some((nonce, p2)) = dec_u64(data, p1) else {
        return None;
    };
    let Some((gas_limit, p3)) = dec_u64(data, p2) else {
        return None;
    };
    let Some((max_fee, p4)) = dec_opt_u128(data, p3) else {
        return None;
    };
    let Some((max_priority_fee, p5)) = dec_opt_u128(data, p4) else {
        return None;
    };
    let Some((gas_price, p6)) = dec_opt_u128(data, p5) else {
        return None;
    };
    let Some((payload, p7)) = dec_payload(data, p6) else {
        return None;
    };
    let Some((public_key, p8)) = dec_bytes(data, p7) else {
        return None;
    };
    let Some((signature, p9)) = dec_bytes(data, p8) else {
        return None;
    };
    if p9 != data.len() {
        return None;
    }
    Some(
        Tx {
            chain_id,
            nonce,
            gas_limit,
            max_fee,
            max_priority_fee,
            gas_price,
            payload,
            public_key,
            signature,
        },
    )
}

} // verus!
