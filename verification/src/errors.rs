//! Structured error kinds. Every failing operation reports one of these;
//! contracts state exactly which kind comes back on which input.

use vstd::prelude::*;

verus! {

/// Why a transaction, proof or consensus message was rejected.
#[derive(Debug, Clone, Copy, PartialEq, Eq, Structural)]
pub enum ExecError {
    InvalidSignature,
    WrongChainId,
    BadNonce,
    InsufficientFunds,
    InsufficientStake,
    UnknownValidator,
    UnknownDomain,
    RiskParamViolation,
    DoubleSpendNullifier,
    MerkleRootMismatch,
    CommitmentUnknown,
    DuplicateCommitment,
    ProofVerifyFailed,
    QuorumVoteRejected,
    BlockGasExceeded,
    DaNotAvailable,
    DaRootMismatch,
    GovernanceStageViolation,
    MultisigNotAuthorized,
    Overflow,
    DelegationNotFound,
    AlreadyVoted,
    NoVotingPower,
    VotingClosed,
    AlreadyApproved,
    TimelockNotSatisfied,
    AmountZero,
    PenaltyTooSmall,
    FraudProofRejected,
}

impl ExecError {
    /// A short name for logs and interfaces.
    pub fn name(&self) -> (r: &'static str)
        ensures
            self is InvalidSignature ==> r@ == "invalid-signature"@,
            self is InsufficientFunds ==> r@ == "insufficient-funds"@,
            self is DoubleSpendNullifier ==> r@ == "double-spend-nullifier"@,
            self is Overflow ==> r@ == "overflow"@,
    {
        match self {
            ExecError::InvalidSignature => "invalid-signature",
            ExecError::WrongChainId => "wrong-chain-id",
            ExecError::BadNonce => "bad-nonce",
            ExecError::InsufficientFunds => "insufficient-funds",
            ExecError::InsufficientStake => "insufficient-stake",
            ExecError::UnknownValidator => "unknown-validator",
            ExecError::UnknownDomain => "unknown-domain",
            ExecError::RiskParamViolation => "risk-param-violation",
            ExecError::DoubleSpendNullifier => "double-spend-nullifier",
            ExecError::MerkleRootMismatch => "merkle-root-mismatch",
            ExecError::CommitmentUnknown => "commitment-unknown",
            ExecError::DuplicateCommitment => "duplicate-commitment",
            ExecError::ProofVerifyFailed => "proof-verify-failed",
            ExecError::QuorumVoteRejected => "quorum-vote-rejected",
            ExecError::BlockGasExceeded => "block-gas-exceeded",
            ExecError::DaNotAvailable => "da-not-available",
            ExecError::DaRootMismatch => "da-root-mismatch",
            ExecError::GovernanceStageViolation => "governance-stage-violation",
            ExecError::MultisigNotAuthorized => "multisig-not-authorized",
            ExecError::Overflow => "overflow",
            ExecError::DelegationNotFound => "delegation-not-found",
            ExecError::AlreadyVoted => "already-voted",
            ExecError::NoVotingPower => "no-voting-power",
            ExecError::VotingClosed => "voting-closed",
            ExecError::AlreadyApproved => "already-approved",
            ExecError::TimelockNotSatisfied => "timelock-not-satisfied",
            ExecError::AmountZero => "amount-zero",
            ExecError::PenaltyTooSmall => "penalty-too-small",
            ExecError::FraudProofRejected => "fraud-proof-rejected",
        }
    }
}

} // verus!
