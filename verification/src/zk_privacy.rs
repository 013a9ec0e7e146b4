//! The privacy-withdraw proving program's interface: note commitments, the
//! public inputs a withdraw binds to, and the deterministic stub artifact
//! that verifies withdrawals when no proving backend is configured.

use vstd::prelude::*;

use crate::bytes::bytes_eq;
use crate::codec::{copy_bytes, enc_bytes, enc_u128, senc_bytes, senc_u128, vec_len_bound};
use crate::crypto::{blake3_hash, blake3_of};
use crate::errors::ExecError;
use crate::zk::{
    Commitments, CommitmentsV, ProgramId, ProgramIdV, ProofArtifact, opt_commitments_eq,
    program_id_eq, stub_backend_name, stub_digest, stub_proof, view_opt_commitments,
};

verus! {

/// A shielded note's components.
#[derive(Debug)]
pub struct Note {
    pub commitment: Vec<u8>,
    pub nullifier: Vec<u8>,
    pub amount: u128,
    pub recipient: Vec<u8>,
    pub merkle_root: Vec<u8>,
}

/// The public inputs of one shielded withdrawal.
#[derive(Debug)]
pub struct PrivacyWithdrawInput {
    pub nullifier: Vec<u8>,
    pub merkle_root: Vec<u8>,
    pub recipient: Vec<u8>,
    pub amount: u128,
    pub commitment: Vec<u8>,
}

/// Ghost mirror of the withdraw inputs.
pub ghost struct PrivacyWithdrawInputV {
    pub nullifier: Seq<u8>,
    pub merkle_root: Seq<u8>,
    pub recipient: Seq<u8>,
    pub amount: u128,
    pub commitment: Seq<u8>,
}

impl View for PrivacyWithdrawInput {
    type V = PrivacyWithdrawInputV;

    open spec fn view(&self) -> PrivacyWithdrawInputV {
        PrivacyWithdrawInputV {
            nullifier: self.nullifier@,
            merkle_root: self.merkle_root@,
            recipient: self.recipient@,
            amount: self.amount,
            commitment: self.commitment@,
        }
    }
}

/// The public outputs a real prover would emit.
#[derive(Debug)]
pub struct PrivacyWithdrawOutput {
    pub nullifier: Vec<u8>,
    pub recipient: Vec<u8>,
    pub amount: u128,
    pub commitment: Vec<u8>,
}

/// The circuit's witness encoding: the canonical bytes of the inputs.
pub open spec fn senc_withdraw_input(w: PrivacyWithdrawInputV) -> Seq<u8> {
    senc_bytes(w.nullifier) + senc_bytes(w.merkle_root) + senc_bytes(w.recipient) + senc_u128(
        w.amount,
    ) + senc_bytes(w.commitment)
}

/// Encodes the witness of one withdrawal.
pub fn encode_input(input: &PrivacyWithdrawInput) -> (r: Vec<u8>)
    ensures
        r@ == senc_withdraw_input(input@),
{
    let mut out: Vec<u8> = Vec::new();
    proof {
        vec_len_bound(&input.nullifier);
        vec_len_bound(&input.merkle_root);
        vec_len_bound(&input.recipient);
        vec_len_bound(&input.commitment);
    }
    enc_bytes(&mut out, &input.nullifier);
    enc_bytes(&mut out, &input.merkle_root);
    enc_bytes(&mut out, &input.recipient);
    enc_u128(&mut out, input.amount);
    enc_bytes(&mut out, &input.commitment);
    proof {
        assert(out@ =~= senc_withdraw_input(input@));
    }
    out
}

/// Hashes bytes with BLAKE3.
pub fn hash_bytes(data: &Vec<u8>) -> (r: Vec<u8>)
    ensures
        r@ == blake3_of(data@),
        r@.len() == 32,
{
    blake3_hash(data)
}

/// The commitments a withdraw proof binds to: the pool root as the state
/// root, and digests of the nullifier and the note commitment.
pub open spec fn spec_withdraw_commitments(w: PrivacyWithdrawInputV) -> CommitmentsV {
    CommitmentsV {
        state_root: Some(w.merkle_root),
        da_root: None,
        events_root: Some(blake3_of(w.nullifier)),
        domain_root: Some(blake3_of(w.commitment)),
    }
}

/// Builds the commitments of one withdrawal.
pub fn commitments(input: &PrivacyWithdrawInput) -> (r: Commitments)
    ensures
        r@ == spec_withdraw_commitments(input@),
{
    let mut root: Vec<u8> = Vec::new();
    copy_bytes(&mut root, &input.merkle_root);
    proof {
        assert(root@ =~= input.merkle_root@);
    }
    let r = Commitments {
        state_root: Some(root),
        da_root: None,
        events_root: Some(hash_bytes(&input.nullifier)),
        domain_root: Some(hash_bytes(&input.commitment)),
    };
    proof {
        assert(r@ == spec_withdraw_commitments(input@));
    }
    r
}

/// A deterministic note commitment from the note's components and a salt.
pub fn note_commitment(nullifier: &Vec<u8>, recipient: &Vec<u8>, amount: u128, salt: &Vec<u8>) -> (
    r: Vec<u8>)
    ensures
        r@ == blake3_of(nullifier@ + recipient@ + crate::codec::senc_u128(amount) + salt@),
        r@.len() == 32,
{
    let mut buf: Vec<u8> = Vec::new();
    copy_bytes(&mut buf, nullifier);
    copy_bytes(&mut buf, recipient);
    enc_u128(&mut buf, amount);
    copy_bytes(&mut buf, salt);
    proof {
        assert(buf@ =~= nullifier@ + recipient@ + crate::codec::senc_u128(amount) + salt@);
    }
    blake3_hash(&buf)
}

/// The identifier of the withdraw circuit.
pub fn program_id() -> (r: ProgramId)
    ensures
        r@ == ProgramIdV::PrivacyWithdraw,
{
    ProgramId::PrivacyWithdraw
}

/// Builds the stub artifact that stands in for a real withdraw proof.
pub fn stub_withdraw_proof(input: &PrivacyWithdrawInput) -> (r: ProofArtifact)
    ensures
        r@.program_id == ProgramIdV::PrivacyWithdraw,
        r@.backend == stub_backend_name(),
        r@.proof == stub_digest(
            senc_withdraw_input(input@),
            Some(spec_withdraw_commitments(input@)),
        ),
        r@.public_outputs == r@.proof,
        r@.commitments == Some(spec_withdraw_commitments(input@)),
{
    let witness = encode_input(input);
    let c = commitments(input);
    stub_proof(ProgramId::PrivacyWithdraw, witness, Some(c))
}

/// Whether an artifact is exactly the stub artifact of these inputs.
pub open spec fn spec_stub_artifact_ok(
    a: crate::zk::ProofArtifactV,
    w: PrivacyWithdrawInputV,
) -> bool {
    &&& a.backend == stub_backend_name()
    &&& a.proof == stub_digest(senc_withdraw_input(w), Some(spec_withdraw_commitments(w)))
    &&& a.public_outputs == a.proof
    &&& a.commitments == Some(spec_withdraw_commitments(w))
}

/// Verifies a stub artifact against the public inputs: the backend label, the
/// digest and the commitments must all match what the stub would produce.
pub fn verify_stub_artifact(artifact: &ProofArtifact, input: &PrivacyWithdrawInput) -> (r: Result<
    (),
    ExecError,
>)
    ensures
        r is Ok <==> spec_stub_artifact_ok(artifact@, input@),
        r matches Err(e) ==> e == ExecError::ProofVerifyFailed,
{
    let expected = stub_withdraw_proof(input);
    if !bytes_eq(&artifact.backend, &expected.backend) {
        return Err(ExecError::ProofVerifyFailed);
    }
    if !bytes_eq(&artifact.proof, &expected.proof) {
        return Err(ExecError::ProofVerifyFailed);
    }
    if !bytes_eq(&artifact.public_outputs, &expected.public_outputs) {
        return Err(ExecError::ProofVerifyFailed);
    }
    if !opt_commitments_eq(&artifact.commitments, &expected.commitments) {
        return Err(ExecError::ProofVerifyFailed);
    }
    proof {
        assert(view_opt_commitments(artifact.commitments) == artifact@.commitments);
    }
    Ok(())
}

} // verus!
