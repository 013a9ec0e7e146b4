//! The chain's data model: accounts, validators, delegations, unbondings,
//! domains, proposals, fee pools and the shielded pool, aggregated into
//! `ChainState`, with verified keyed access over plain vectors.

use vstd::prelude::*;

use crate::bytes::bytes_eq;
use vstd::pervasive::VecAdditionalExecFns;

verus! {

/// Whether a validator currently takes part in consensus.
#[derive(Debug, Clone, Copy, PartialEq, Eq, Structural)]
pub enum ValidatorStatus {
    Active,
    Jailed,
    Exited,
}

/// The kind of virtual machine a domain runs.
#[derive(Debug, Clone, Copy, PartialEq, Eq, Structural)]
pub enum DomainType {
    EvmSharedSecurity,
    Wasm,
    Privacy,
    Payment,
    Custom,
}

/// Who provides a domain's security.
#[derive(Debug, Clone, Copy, PartialEq, Eq, Structural)]
pub enum SecurityModel {
    SharedSecurity,
    OwnSecurity,
}

/// Lifecycle of a governance proposal.
#[derive(Debug, Clone, Copy, PartialEq, Eq, Structural)]
pub enum ProposalStatus {
    Pending,
    Active,
    Defeated,
    Succeeded,
    Queued,
    Executed,
    Cancelled,
    Expired,
}

/// A governance ballot option.
#[derive(Debug, Clone, Copy, PartialEq, Eq, Structural)]
pub enum VoteChoice {
    For,
    Against,
    Abstain,
}

/// Bounded risk parameters a domain registers with.
#[derive(Debug, Clone, Copy, PartialEq, Eq, Structural)]
pub struct DomainParams {
    pub kind: DomainType,
    pub max_loss_bps: Option<u64>,
    pub risk_cap: Option<u64>,
}

/// A user account: balance and replay-protection nonce.
#[derive(Debug)]
pub struct Account {
    pub address: Vec<u8>,
    pub nonce: u64,
    pub balance_x: u128,
    pub code_hash: Option<Vec<u8>>,
    pub storage_root: Option<Vec<u8>>,
}

/// A bonded validator; its identity is derived from its public key and is
/// stable across restarts.
#[derive(Debug)]
pub struct Validator {
    pub owner: Vec<u8>,
    pub id: u128,
    pub pubkey: Vec<u8>,
    pub stake: u128,
    pub status: ValidatorStatus,
    pub commission_rate: u8,
}

/// One delegator's stake contribution to a validator's bond.
#[derive(Debug)]
pub struct Delegation {
    pub delegator: Vec<u8>,
    pub validator_id: u128,
    pub stake: u128,
}

/// Stake on its way back to a balance, held until the release height.
#[derive(Debug)]
pub struct Unbonding {
    pub owner: Vec<u8>,
    pub validator_id: Option<u128>,
    pub amount: u128,
    pub release_height: u64,
}

/// A registered execution domain.
#[derive(Debug)]
pub struct DomainEntry {
    pub domain_id: u128,
    pub kind: DomainType,
    pub security_model: SecurityModel,
    pub sequencer_binding: Option<u128>,
    pub bridge_contracts: Vec<Vec<u8>>,
    pub risk_params: DomainParams,
}

/// A data-availability commitment recorded on chain.
#[derive(Debug)]
pub struct DACommitment {
    pub block_height: u64,
    pub da_root: Vec<u8>,
    pub blob_ids: Vec<u64>,
}

/// The last verified state root of a domain.
#[derive(Debug)]
pub struct DomainRoot {
    pub domain_id: u128,
    pub state_root: Vec<u8>,
    pub da_root: Vec<u8>,
    pub last_verified_epoch: u64,
    pub proof_meta: Vec<u8>,
}

/// One recorded governance vote.
#[derive(Debug)]
pub struct VoteRecord {
    pub voter: Vec<u8>,
    pub choice: VoteChoice,
    pub weight: u128,
}

/// A stake weight snapshotted for one voter at proposal creation.
#[derive(Debug)]
pub struct VoterWeight {
    pub voter: Vec<u8>,
    pub weight: u128,
}

/// A governance proposal with its tallies and multisig approvals.
#[derive(Debug)]
pub struct Proposal {
    pub id: u128,
    pub payload: Vec<u8>,
    pub kind: Vec<u8>,
    pub status: ProposalStatus,
    pub proposer: Vec<u8>,
    pub start: u64,
    pub end: u64,
    pub eta: Option<u64>,
    pub snapshot_total_stake: u128,
    pub for_votes: u128,
    pub against_votes: u128,
    pub abstain_votes: u128,
    pub votes: Vec<VoteRecord>,
    pub execution: Vec<u8>,
    pub voter_weights: Vec<VoterWeight>,
    pub approvals: Vec<Vec<u8>>,
}

/// Governance timing, quorum and multisig configuration.
#[derive(Debug)]
pub struct GovernanceParams {
    pub voting_period_ms: u64,
    pub timelock_ms: u64,
    pub quorum_bps: u16,
    pub approval_threshold_bps: u16,
    pub multisig_signers: Vec<Vec<u8>>,
    pub multisig_threshold: u8,
}

impl GovernanceParams {
    /// One-hour voting, half-hour timelock, 20% quorum, 50% approval.
    pub fn standard() -> (r: GovernanceParams)
        ensures
            r.voting_period_ms == 3_600_000,
            r.timelock_ms == 1_800_000,
            r.quorum_bps == 2000,
            r.approval_threshold_bps == 5000,
            r.multisig_signers@.len() == 0,
            r.multisig_threshold == 1,
    {
        GovernanceParams {
            voting_period_ms: 3_600_000,
            timelock_ms: 1_800_000,
            quorum_bps: 2000,
            approval_threshold_bps: 5000,
            multisig_signers: Vec::new(),
            multisig_threshold: 1,
        }
    }
}

/// Accumulators for routed fees.
#[derive(Debug)]
pub struct FeePools {
    pub l1_gas: u128,
    pub da: u128,
    pub sequencer: u128,
    pub treasury: u128,
}

impl FeePools {
    /// All pools empty.
    pub fn empty() -> (r: FeePools)
        ensures
            r.l1_gas == 0 && r.da == 0 && r.sequencer == 0 && r.treasury == 0,
    {
        FeePools { l1_gas: 0, da: 0, sequencer: 0, treasury: 0 }
    }
}

/// The shielded pool: note commitments, spent nullifiers, and the total value
/// currently shielded.
#[derive(Debug)]
pub struct PrivacyPool {
    pub merkle_root: Vec<u8>,
    pub nullifiers: Vec<Vec<u8>>,
    pub commitments: Vec<Vec<u8>>,
    pub total_shielded: u128,
}

/// A 32-byte string of zeros: the root of anything empty.
pub open spec fn zero32() -> Seq<u8> {
    Seq::new(32, |i: int| 0u8)
}

/// Builds the 32 zero bytes.
pub fn zero_hash() -> (r: Vec<u8>)
    ensures
        r@ == zero32(),
{
    let mut out: Vec<u8> = Vec::new();
    let mut i: usize = 0;
    while i < 32
        invariant
            i <= 32,
            out@ =~= zero32().take(i as int),
        decreases 32 - i,
    {
        out.push(0u8);
        proof {
            assert(out@ =~= zero32().take(i as int + 1));
        }
        i += 1;
    }
    proof {
        assert(zero32().take(32) =~= zero32());
    }
    out
}

impl PrivacyPool {
    /// An empty pool whose root is the zero hash.
    pub fn empty() -> (r: PrivacyPool)
        ensures
            r.merkle_root@ == zero32(),
            r.nullifiers@.len() == 0,
            r.commitments@.len() == 0,
            r.total_shielded == 0,
    {
        PrivacyPool {
            merkle_root: zero_hash(),
            nullifiers: Vec::new(),
            commitments: Vec::new(),
            total_shielded: 0,
        }
    }
}

/// Everything the chain owns, against which transactions are applied.
#[derive(Debug)]
pub struct ChainState {
    pub accounts: Vec<Account>,
    pub validators: Vec<Validator>,
    pub delegations: Vec<Delegation>,
    pub domains: Vec<DomainEntry>,
    pub da_commitments: Vec<DACommitment>,
    pub domain_roots: Vec<DomainRoot>,
    pub proposals: Vec<Proposal>,
    pub fee_pools: FeePools,
    pub privacy_pool: PrivacyPool,
    pub governance_params: GovernanceParams,
    pub total_supply: u128,
    pub last_reward_height: u64,
    pub pending_unbonds: Vec<Unbonding>,
}

impl ChainState {
    /// A fresh, empty state.
    pub fn empty() -> (r: ChainState)
        ensures
            r.accounts@.len() == 0,
            r.validators@.len() == 0,
            r.delegations@.len() == 0,
            r.domains@.len() == 0,
            r.da_commitments@.len() == 0,
            r.domain_roots@.len() == 0,
            r.proposals@.len() == 0,
            r.fee_pools.l1_gas == 0 && r.fee_pools.da == 0 && r.fee_pools.sequencer == 0
                && r.fee_pools.treasury == 0,
            r.privacy_pool.nullifiers@.len() == 0,
            r.privacy_pool.commitments@.len() == 0,
            r.privacy_pool.total_shielded == 0,
            r.privacy_pool.merkle_root@ == zero32(),
            r.total_supply == 0,
            r.last_reward_height == 0,
            r.pending_unbonds@.len() == 0,
    {
        ChainState {
            accounts: Vec::new(),
            validators: Vec::new(),
            delegations: Vec::new(),
            domains: Vec::new(),
            da_commitments: Vec::new(),
            domain_roots: Vec::new(),
            proposals: Vec::new(),
            fee_pools: FeePools::empty(),
            privacy_pool: PrivacyPool::empty(),
            governance_params: GovernanceParams::standard(),
            total_supply: 0,
            last_reward_height: 0,
            pending_unbonds: Vec::new(),
        }
    }
}

// ---------------------------------------------------------------------------
// Keyed access over the plain vectors.
// ---------------------------------------------------------------------------

/// Whether some account in `s` has the address.
pub open spec fn has_acct(s: Seq<Account>, addr: Seq<u8>) -> bool {
    exists|i: int| 0 <= i < s.len() && s[i].address@ == addr
}

/// The index of the account with the address (meaningful when unique).
pub open spec fn acct_ix(s: Seq<Account>, addr: Seq<u8>) -> int {
    choose|i: int| 0 <= i < s.len() && s[i].address@ == addr
}

/// The balance held under an address; zero when no account exists yet.
pub open spec fn balance_of(s: Seq<Account>, addr: Seq<u8>) -> u128 {
    if has_acct(s, addr) {
        s[acct_ix(s, addr)].balance_x
    } else {
        0
    }
}

/// The nonce of an address; zero when no account exists yet.
pub open spec fn nonce_of(s: Seq<Account>, addr: Seq<u8>) -> u64 {
    if has_acct(s, addr) {
        s[acct_ix(s, addr)].nonce
    } else {
        0
    }
}

/// Account addresses are pairwise distinct.
pub open spec fn accts_unique(s: Seq<Account>) -> bool {
    forall|i: int, j: int| #![trigger s[i].address, s[j].address]
        0 <= i < j < s.len() ==> s[i].address@ != s[j].address@
}

/// Finds the account with the given address.
pub fn find_account(accounts: &Vec<Account>, addr: &Vec<u8>) -> (r: Option<usize>)
    ensures
        match r {
            Some(i) => i < accounts@.len() && accounts@[i as int].address@ == addr@ && forall|
                j: int,
            | 0 <= j < i ==> accounts@[j].address@ != addr@,
            None => !has_acct(accounts@, addr@),
        },
{
    let n = accounts.len();
    let mut i: usize = 0;
    while i < n
        invariant
            i <= n,
            n == accounts@.len(),
            forall|j: int| 0 <= j < i ==> accounts@[j].address@ != addr@,
        decreases n - i,
    {
        if bytes_eq(&accounts[i].address, addr) {
            return Some(i);
        }
        i += 1;
    }
    None
}

/// Whether some validator in `s` carries the identifier.
pub open spec fn has_validator(s: Seq<Validator>, id: u128) -> bool {
    exists|i: int| 0 <= i < s.len() && s[i].id == id
}

/// The index of the validator with the identifier (meaningful when unique).
pub open spec fn validator_ix(s: Seq<Validator>, id: u128) -> int {
    choose|i: int| 0 <= i < s.len() && s[i].id == id
}

/// Whether some validator in `s` is owned by the address.
pub open spec fn has_validator_owned(s: Seq<Validator>, owner: Seq<u8>) -> bool {
    exists|i: int| 0 <= i < s.len() && s[i].owner@ == owner
}

/// The index of the validator owned by the address.
pub open spec fn validator_owned_ix(s: Seq<Validator>, owner: Seq<u8>) -> int {
    choose|i: int| 0 <= i < s.len() && s[i].owner@ == owner
}

/// Finds the validator with the given identifier.
pub fn find_validator(validators: &Vec<Validator>, id: u128) -> (r: Option<usize>)
    ensures
        match r {
            Some(i) => i < validators@.len() && validators@[i as int].id == id && forall|j: int|
                0 <= j < i ==> validators@[j].id != id,
            None => !has_validator(validators@, id),
        },
{
    let n = validators.len();
    let mut i: usize = 0;
    while i < n
        invariant
            i <= n,
            n == validators@.len(),
            forall|j: int| 0 <= j < i ==> validators@[j].id != id,
        decreases n - i,
    {
        if validators[i].id == id {
            return Some(i);
        }
        i += 1;
    }
    None
}

/// Finds the validator owned by the given address.
pub fn find_validator_by_owner(validators: &Vec<Validator>, owner: &Vec<u8>) -> (r: Option<usize>)
    ensures
        match r {
            Some(i) => i < validators@.len() && validators@[i as int].owner@ == owner@ && forall|
                j: int,
            | 0 <= j < i ==> validators@[j].owner@ != owner@,
            None => !has_validator_owned(validators@, owner@),
        },
{
    let n = validators.len();
    let mut i: usize = 0;
    while i < n
        invariant
            i <= n,
            n == validators@.len(),
            forall|j: int| 0 <= j < i ==> validators@[j].owner@ != owner@,
        decreases n - i,
    {
        if bytes_eq(&validators[i].owner, owner) {
            return Some(i);
        }
        i += 1;
    }
    None
}

/// Whether a byte string occurs in a list of byte strings.
pub open spec fn contains_bytes(s: Seq<Vec<u8>>, x: Seq<u8>) -> bool {
    exists|i: int| 0 <= i < s.len() && s[i]@ == x
}

/// Decides membership of a byte string in a list.
pub fn bytes_list_contains(list: &Vec<Vec<u8>>, x: &Vec<u8>) -> (r: bool)
    ensures
        r == contains_bytes(list@, x@),
{
    let n = list.len();
    let mut i: usize = 0;
    while i < n
        invariant
            i <= n,
            n == list@.len(),
            forall|j: int| 0 <= j < i ==> list@[j]@ != x@,
        decreases n - i,
    {
        if bytes_eq(&list[i], x) {
            proof {
                assert(list@[i as int]@ == x@);
            }
            return true;
        }
        i += 1;
    }
    false
}

/// Whether some domain in `s` carries the identifier.
pub open spec fn has_domain(s: Seq<DomainEntry>, id: u128) -> bool {
    exists|i: int| 0 <= i < s.len() && s[i].domain_id == id
}

/// The index of the domain with the identifier.
pub open spec fn domain_ix(s: Seq<DomainEntry>, id: u128) -> int {
    choose|i: int| 0 <= i < s.len() && s[i].domain_id == id
}

/// Finds the domain entry with the given identifier.
pub fn find_domain(domains: &Vec<DomainEntry>, id: u128) -> (r: Option<usize>)
    ensures
        match r {
            Some(i) => i < domains@.len() && domains@[i as int].domain_id == id && forall|j: int|
                0 <= j < i ==> domains@[j].domain_id != id,
            None => !has_domain(domains@, id),
        },
{
    let n = domains.len();
    let mut i: usize = 0;
    while i < n
        invariant
            i <= n,
            n == domains@.len(),
            forall|j: int| 0 <= j < i ==> domains@[j].domain_id != id,
        decreases n - i,
    {
        if domains[i].domain_id == id {
            return Some(i);
        }
        i += 1;
    }
    None
}

/// Whether some domain-root record in `s` carries the identifier.
pub open spec fn has_domain_root(s: Seq<DomainRoot>, id: u128) -> bool {
    exists|i: int| 0 <= i < s.len() && s[i].domain_id == id
}

/// Whether some proposal in `s` carries the identifier.
pub open spec fn has_proposal(s: Seq<Proposal>, id: u128) -> bool {
    exists|i: int| 0 <= i < s.len() && s[i].id == id
}

/// The index of the proposal with the identifier.
pub open spec fn proposal_ix(s: Seq<Proposal>, id: u128) -> int {
    choose|i: int| 0 <= i < s.len() && s[i].id == id
}

/// Finds the proposal with the given identifier.
pub fn find_proposal(proposals: &Vec<Proposal>, id: u128) -> (r: Option<usize>)
    ensures
        match r {
            Some(i) => i < proposals@.len() && proposals@[i as int].id == id && forall|j: int|
                0 <= j < i ==> proposals@[j].id != id,
            None => !has_proposal(proposals@, id),
        },
{
    let n = proposals.len();
    let mut i: usize = 0;
    while i < n
        invariant
            i <= n,
            n == proposals@.len(),
            forall|j: int| 0 <= j < i ==> proposals@[j].id != id,
        decreases n - i,
    {
        if proposals[i].id == id {
            return Some(i);
        }
        i += 1;
    }
    None
}

/// The snapshotted weight of a voter; zero when the voter was not snapshotted.
pub open spec fn weight_of(s: Seq<VoterWeight>, voter: Seq<u8>) -> u128 {
    if exists|i: int| 0 <= i < s.len() && s[i].voter@ == voter {
        s[choose|i: int| 0 <= i < s.len() && s[i].voter@ == voter].weight
    } else {
        0
    }
}

/// Looks a voter's snapshotted weight up; zero when absent.
pub fn lookup_weight(weights: &Vec<VoterWeight>, voter: &Vec<u8>) -> (r: u128)
    requires
        forall|i: int, j: int| #![trigger weights@[i].voter, weights@[j].voter]
            0 <= i < j < weights@.len() ==> weights@[i].voter@ != weights@[j].voter@,
    ensures
        r == weight_of(weights@, voter@),
{
    let n = weights.len();
    let mut i: usize = 0;
    while i < n
        invariant
            i <= n,
            n == weights@.len(),
            forall|j: int| 0 <= j < i ==> weights@[j].voter@ != voter@,
            forall|p: int, q: int| #![trigger weights@[p].voter, weights@[q].voter]
                0 <= p < q < weights@.len() ==> weights@[p].voter@ != weights@[q].voter@,
        decreases n - i,
    {
        if bytes_eq(&weights[i].voter, voter) {
            proof {
                assert(weights@[i as int].voter@ == voter@);
                let w = choose|k: int| 0 <= k < weights@.len() && weights@[k].voter@ == voter@;
                assert(weights@[w].voter@ == voter@);
                if w < i as int {
                    assert(weights@[w].voter@ != weights@[i as int].voter@);
                } else if w > i as int {
                    assert(weights@[i as int].voter@ != weights@[w].voter@);
                }
            }
            return weights[i].weight;
        }
        i += 1;
    }
    0
}

/// Whether some vote in `s` was cast by the voter.
pub open spec fn has_voted(s: Seq<VoteRecord>, voter: Seq<u8>) -> bool {
    exists|i: int| 0 <= i < s.len() && s[i].voter@ == voter
}

/// Decides whether the voter already voted.
pub fn votes_contain(votes: &Vec<VoteRecord>, voter: &Vec<u8>) -> (r: bool)
    ensures
        r == has_voted(votes@, voter@),
{
    let n = votes.len();
    let mut i: usize = 0;
    while i < n
        invariant
            i <= n,
            n == votes@.len(),
            forall|j: int| 0 <= j < i ==> votes@[j].voter@ != voter@,
        decreases n - i,
    {
        if bytes_eq(&votes[i].voter, voter) {
            proof {
                assert(votes@[i as int].voter@ == voter@);
            }
            return true;
        }
        i += 1;
    }
    false
}

} // verus!
