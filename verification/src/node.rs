//! The block production loop's decisions, separated from its timers and
//! sockets: mempool admission and priority ordering, candidate-block
//! assembly with the availability post, block sealing, the leader gate, and
//! the handling of inbound consensus messages. A host runs the tick and the
//! broadcast; everything it forwards or applies is decided here.

use vstd::prelude::*;

use crate::block::{Block, BlockDACommitment, BlockHeader, hash_block, spec_block_id, tx_root};
use crate::bytes::{bytes_eq, views_of};
use crate::consensus::{
    HotStuffEngine, SignedProposal, SignedVote, sat_add, sign_proposal, sign_vote,
    spec_proposal_ok, spec_vote_ok, spec_vote_msg, tally_has_voter, tally_sigs, tally_stake,
    tally_voters,
};
use crate::crypto::ed25519_sign_of;
use crate::crypto::{blake3_of, ed25519_pubkey_of};
use crate::da::InMemoryDA;
use crate::domains::{DomainRuntime, DomainVm};
use crate::errors::ExecError;
use crate::runtime::{BlockApplyResult, ExecutionConfig, config_wf};
use crate::state::{ChainState, Validator, accts_unique, contains_bytes};
use crate::sums::supply_ok;
use crate::tx::{Tx, spec_tx_priority, spec_tx_sig_ok, tx_hash, tx_priority, verify_tx_signature};
use crate::codec::copy_bytes;
use vstd::relations::sorted_by;

verus! {

/// The most transactions the mempool holds; overflow drops newcomers.
pub const MEMPOOL_LIMIT: usize = 10_000;

/// The pending transactions, deduplicated by wire hash and admitted only with
/// a valid signature.
pub struct Mempool {
    txs: Vec<Tx>,
    hashes: Vec<Vec<u8>>,
}

impl Mempool {
    /// The pending transactions, in arrival order.
    pub closed spec fn pending(&self) -> Seq<Tx> {
        self.txs@
    }

    /// The wire hashes of the pending transactions.
    pub closed spec fn pending_hashes(&self) -> Seq<Vec<u8>> {
        self.hashes@
    }

    /// One hash per transaction, each the transaction's wire hash.
    pub closed spec fn wf(&self) -> bool {
        &&& self.txs@.len() == self.hashes@.len()
        &&& forall|i: int|
            0 <= i < self.txs@.len() ==> (#[trigger] self.hashes@[i])@ == blake3_of(
                crate::tx::senc_tx(self.txs@[i]@),
            )
    }

    /// An empty pool.
    pub fn new() -> (r: Mempool)
        ensures
            r.wf(),
            r.pending().len() == 0,
    {
        Mempool { txs: Vec::new(), hashes: Vec::new() }
    }

    /// How many transactions wait.
    pub fn len(&self) -> (r: usize)
        ensures
            r == self.pending().len(),
    {
        self.txs.len()
    }

    /// Admits a transaction: the signature must verify, the wire hash must be
    /// new, and the pool must have room. Exactly then the transaction joins
    /// the pool; otherwise nothing changes.
    pub fn enqueue(&mut self, tx: Tx) -> (r: bool)
        requires
            old(self).wf(),
        ensures
            final(self).wf(),
            r <==> (spec_tx_sig_ok(tx@) && !contains_bytes(
                old(self).pending_hashes(),
                blake3_of(crate::tx::senc_tx(tx@)),
            ) && old(self).pending().len() < MEMPOOL_LIMIT),
            r ==> final(self).pending() == old(self).pending().push(tx),
            !r ==> *final(self) == *old(self),
    {
        if verify_tx_signature(&tx).is_err() {
            return false;
        }
        let h = tx_hash(&tx);
        if crate::state::bytes_list_contains(&self.hashes, &h) {
            return false;
        }
        if self.txs.len() >= MEMPOOL_LIMIT {
            return false;
        }
        self.txs.push(tx);
        self.hashes.push(h);
        true
    }

    /// Drains every pending transaction, ordered by priority, best first. The
    /// result holds exactly the transactions that were pending.
    pub fn drain_sorted(&mut self, base_fee: u128) -> (r: Vec<Tx>)
        requires
            old(self).wf(),
        ensures
            final(self).wf(),
            final(self).pending().len() == 0,
            r@.to_multiset() == old(self).pending().to_multiset(),
            sorted_by(r@, priority_order(base_fee)),
    {
        broadcast use vstd::multiset::group_multiset_axioms;

        self.hashes = Vec::new();
        let mut out: Vec<Tx> = Vec::new();
        proof {
            out@.to_multiset_ensures();
            assert(out@.to_multiset() =~= vstd::multiset::Multiset::<Tx>::empty());
            assert(out@.to_multiset().add(self.txs@.to_multiset()) =~= old(self).pending().to_multiset());
        }
        while self.txs.len() > 0
            invariant
                self.hashes@.len() == 0,
                sorted_by(out@, priority_order(base_fee)),
                out@.to_multiset().add(self.txs@.to_multiset()) == old(self).pending().to_multiset(),
            decreases self.txs@.len(),
        {
            let ghost out_pre = out@;
            let ghost txs_pre = self.txs@;
            let x = self.txs.pop().unwrap();
            proof {
                assert(txs_pre =~= self.txs@.push(x));
                vstd::seq_lib::to_multiset_build(self.txs@, x);
            }
            let j = find_priority_pos(&out, &x, base_fee);
            proof {
                assert forall|k: int| j <= k < out@.len() implies priority_order(base_fee)(
                    x,
                    #[trigger] out@[k],
                ) by {
                    if k > j {
                        assert(priority_order(base_fee)(out@[j as int], out@[k]));
                    }
                }
            }
            out.insert(j, x);
            proof {
                assert(out@ =~= out_pre.insert(j as int, x));
                vstd::seq_lib::to_multiset_insert(out_pre, j as int, x);
                assert forall|p: int, q: int| 0 <= p < q < out@.len() implies priority_order(
                    base_fee,
                )(out@[p], out@[q]) by {
                    let jj = j as int;
                    if q < jj {
                        assert(priority_order(base_fee)(out_pre[p], out_pre[q]));
                    } else if p < jj && q == jj {
                    } else if p < jj && q > jj {
                        assert(priority_order(base_fee)(out_pre[p], out_pre[q - 1]));
                    } else if p == jj {
                    } else {
                        assert(priority_order(base_fee)(out_pre[p - 1], out_pre[q - 1]));
                    }
                }
                assert(out@.to_multiset().add(self.txs@.to_multiset()) =~= old(self).pending().to_multiset());
            }
        }
        proof {
            assert(self.txs@.len() == 0);
            self.txs@.to_multiset_ensures();
            assert(self.txs@.to_multiset().len() == 0);
            assert(self.txs@.to_multiset() =~= vstd::multiset::Multiset::<Tx>::empty());
            assert(out@.to_multiset().add(vstd::multiset::Multiset::<Tx>::empty())
                =~= out@.to_multiset());
        }
        out
    }
}

/// Descending priority: an earlier transaction pays at least as much.
pub open spec fn priority_order(base_fee: u128) -> spec_fn(Tx, Tx) -> bool {
    |a: Tx, b: Tx| spec_tx_priority(a@, base_fee) >= spec_tx_priority(b@, base_fee)
}

/// The first position whose transaction pays no more than `x`.
fn find_priority_pos(out: &Vec<Tx>, x: &Tx, base_fee: u128) -> (j: usize)
    ensures
        j <= out@.len(),
        forall|k: int| 0 <= k < j ==> priority_order(base_fee)(#[trigger] out@[k], *x),
        j < out@.len() ==> priority_order(base_fee)(*x, out@[j as int]),
{
    let px = tx_priority(x, base_fee);
    let mut j: usize = 0;
    let n = out.len();
    while j < n
        invariant
            j <= n,
            n == out@.len(),
            px == spec_tx_priority(x@, base_fee),
            forall|k: int| 0 <= k < j ==> priority_order(base_fee)(#[trigger] out@[k], *x),
        decreases n - j,
    {
        if tx_priority(&out[j], base_fee) < px {
            proof {
                assert(priority_order(base_fee)(*x, out@[j as int]));
            }
            return j;
        }
        j += 1;
    }
    j
}

/// Assembles a candidate block: the transactions sorted by priority, their
/// canonical bytes posted to availability, the commitment sealed into the
/// header, and the transaction root computed. An empty drain yields nothing;
/// a payload too large for the shard arithmetic also yields nothing.
/// The machine-size guards an encoded block payload must meet before it can
/// be sharded and submitted to the availability store.
pub open spec fn payload_fits(len: int, c: crate::da::DAConfig) -> bool {
    &&& len + c.shard_size <= usize::MAX
    &&& crate::da::spec_data_count(len, c.shard_size as int, c.data_shards as int)
        + c.parity_shards <= usize::MAX
}

pub fn build_candidate_block(
    txs: Vec<Tx>,
    parent_hash: Vec<u8>,
    height: u64,
    timestamp: u64,
    proposer_id: Vec<u8>,
    cfg: &ExecutionConfig,
    da: &mut InMemoryDA,
) -> (r: Option<Block>)
    requires
        0 < old(da).config.shard_size,
        old(da).config.data_shards >= 1,
    ensures
        match r {
            Some(b) => {
                &&& b.transactions@.to_multiset() == txs@.to_multiset()
                &&& sorted_by(b.transactions@, priority_order(cfg.base_fee))
                &&& b.header.l1_tx_root@ == blake3_of(
                    crate::block::senc_tx_list(b.transactions@),
                )
                &&& b.header.height == height
                &&& b.header.timestamp == timestamp
                &&& b.header.parent_hash@ == parent_hash@
                &&& b.header.proposer_id@ == proposer_id@
                &&& b.header.gas_limit == cfg.max_gas_per_block
                &&& b.header.base_fee == cfg.base_fee
                &&& (b.header.da_commitment matches Some(c) ==> b.da_blobs@.len() == 1 && exists|
                    i: int,
                |
                    0 <= i < final(da).blobs@.len() && final(da).blobs@[i].id == b.da_blobs@[0]
                        && c.root@ == crate::da::spec_merkle_root(
                        views_of(final(da).blobs@[i].shard_hashes@),
                    ))
            },
            None => txs@.len() == 0 || exists|s: Seq<Tx>|
                #![trigger crate::block::senc_tx_list(s)]
                {
                    &&& s.to_multiset() == txs@.to_multiset()
                    &&& sorted_by(s, priority_order(cfg.base_fee))
                    &&& !payload_fits(
                        crate::block::senc_tx_list(s).len() as int,
                        old(da).config,
                    )
                },
        },
        txs@.len() == 0 ==> r is None,
        (txs@.len() > 0 && (forall|s: Seq<Tx>|
            #![trigger crate::block::senc_tx_list(s)]
            (s.to_multiset() == txs@.to_multiset() && sorted_by(s, priority_order(cfg.base_fee)))
                ==> payload_fits(crate::block::senc_tx_list(s).len() as int, old(da).config)))
            ==> r is Some,
{
    if txs.len() == 0 {
        return None;
    }
    let ghost txs0 = txs@;
    let ordered: Vec<Tx> = sort_by_priority(txs, cfg.base_fee);
    let mut payload: Vec<u8> = Vec::new();
    crate::block::enc_tx_list(&mut payload, &ordered);
    proof {
        assert(payload@ =~= crate::block::senc_tx_list(ordered@));
    }
    // the shard arithmetic must fit the machine word
    if payload.len() > usize::MAX - da.config.shard_size {
        proof {
            assert(!payload_fits(
                crate::block::senc_tx_list(ordered@).len() as int,
                da.config,
            ));
        }
        return None;
    }
    let chunks = (payload.len() + da.config.shard_size - 1) / da.config.shard_size;
    let data_count = if chunks < da.config.data_shards {
        da.config.data_shards
    } else {
        chunks
    };
    proof {
        assert(data_count as int == crate::da::spec_data_count(
            payload@.len() as int,
            da.config.shard_size as int,
            da.config.data_shards as int,
        ));
    }
    if data_count > usize::MAX - da.config.parity_shards {
        proof {
            assert(!payload_fits(
                crate::block::senc_tx_list(ordered@).len() as int,
                da.config,
            ));
        }
        return None;
    }
    let domain_tag: Vec<u8> = Vec::new();
    let blob = match da.submit_blob(&domain_tag, &payload) {
        Ok(b) => b,
        Err(_) => {
            proof {
                assert(false);
            }
            return None;
        },
    };
    let ghost blob_id = blob.id;
    let root_copy = {
        let mut c: Vec<u8> = Vec::new();
        copy_bytes(&mut c, &blob.commitment.root);
        proof {
            assert(c@ =~= blob.commitment.root@);
        }
        c
    };
    let l1_tx_root = tx_root(&ordered);
    let header = BlockHeader {
        parent_hash,
        height,
        timestamp,
        proposer_id,
        state_root: crate::state::zero_hash(),
        l1_tx_root,
        da_commitment: Some(
            BlockDACommitment {
                root: root_copy,
                total_shards: blob.commitment.total_shards as u32,
                data_shards: blob.commitment.data_shards as u32,
                parity_shards: blob.commitment.parity_shards as u32,
                shard_size: blob.commitment.shard_size as u32,
            },
        ),
        domain_roots: Vec::new(),
        gas_used: 0,
        gas_limit: cfg.max_gas_per_block,
        base_fee: cfg.base_fee,
        consensus_metadata: Vec::new(),
    };
    let mut da_blobs: Vec<u64> = Vec::new();
    da_blobs.push(blob.id);
    Some(Block { header, transactions: ordered, da_blobs })
}

/// Sorts transactions by priority, best first, keeping the multiset.
pub fn sort_by_priority(txs: Vec<Tx>, base_fee: u128) -> (r: Vec<Tx>)
    ensures
        r@.to_multiset() == txs@.to_multiset(),
        sorted_by(r@, priority_order(base_fee)),
{
    broadcast use vstd::multiset::group_multiset_axioms;

    let mut rest = txs;
    let mut out: Vec<Tx> = Vec::new();
    proof {
        out@.to_multiset_ensures();
        assert(out@.to_multiset() =~= vstd::multiset::Multiset::<Tx>::empty());
        assert(out@.to_multiset().add(rest@.to_multiset()) =~= rest@.to_multiset());
    }
    while rest.len() > 0
        invariant
            sorted_by(out@, priority_order(base_fee)),
            out@.to_multiset().add(rest@.to_multiset()) == txs@.to_multiset(),
        decreases rest@.len(),
    {
        let ghost out_pre = out@;
        let ghost rest_pre = rest@;
        let x = rest.pop().unwrap();
        proof {
            assert(rest_pre =~= rest@.push(x));
            vstd::seq_lib::to_multiset_build(rest@, x);
        }
        let j = find_priority_pos(&out, &x, base_fee);
        proof {
            assert forall|k: int| j <= k < out@.len() implies priority_order(base_fee)(
                x,
                #[trigger] out@[k],
            ) by {
                if k > j {
                    assert(priority_order(base_fee)(out@[j as int], out@[k]));
                }
            }
        }
        out.insert(j, x);
        proof {
            assert(out@ =~= out_pre.insert(j as int, x));
            vstd::seq_lib::to_multiset_insert(out_pre, j as int, x);
            assert forall|p: int, q: int| 0 <= p < q < out@.len() implies priority_order(base_fee)(
                out@[p],
                out@[q],
            ) by {
                let jj = j as int;
                if q < jj {
                    assert(priority_order(base_fee)(out_pre[p], out_pre[q]));
                } else if p < jj && q == jj {
                } else if p < jj && q > jj {
                    assert(priority_order(base_fee)(out_pre[p], out_pre[q - 1]));
                } else if p == jj {
                } else {
                    assert(priority_order(base_fee)(out_pre[p - 1], out_pre[q - 1]));
                }
            }
            assert(out@.to_multiset().add(rest@.to_multiset()) =~= txs@.to_multiset());
        }
    }
    proof {
        assert(rest@.len() == 0);
        rest@.to_multiset_ensures();
        assert(rest@.to_multiset().len() == 0);
        assert(rest@.to_multiset() =~= vstd::multiset::Multiset::<Tx>::empty());
        assert(out@.to_multiset().add(vstd::multiset::Multiset::<Tx>::empty())
            =~= out@.to_multiset());
    }
    out
}

/// Every availability blob a block references is held by the store, and
/// every held copy commits to the header's availability root.
pub open spec fn da_blobs_held(b: Block, store: Seq<crate::da::BlobRecord>) -> bool {
    forall|k: int|
        #![trigger b.da_blobs@[k]]
        0 <= k < b.da_blobs@.len() ==> {
            &&& crate::da::da_has_blob(store, b.da_blobs@[k])
            &&& (b.header.da_commitment matches Some(c) && (forall|i: int|
                0 <= i < store.len() && (#[trigger] store[i]).id == b.da_blobs@[k] ==> c.root@
                    == crate::da::spec_merkle_root(views_of(store[i].shard_hashes@))))
        }
}

/// Applies a candidate block and seals the results into its header: the
/// availability blobs must be held by the store under the header's
/// commitment root, and the sealed header carries the state root and the gas
/// the block used. Returns the sealed block and its identifier.
pub fn execute_and_seal<V: DomainVm>(
    cfg: &ExecutionConfig,
    state: &mut ChainState,
    domains: &mut DomainRuntime,
    vm: &V,
    da: &InMemoryDA,
    block: Block,
) -> (r: Result<(Block, Vec<u8>), ExecError>)
    requires
        accts_unique(old(state).accounts@),
        config_wf(*cfg),
    ensures
        accts_unique(final(state).accounts@),
        match r {
            Ok((b, id)) => {
                &&& b.header.state_root@ == crate::root::spec_state_root(*final(state))
                &&& id@ == spec_block_id(b)
                &&& b.transactions == block.transactions
                &&& b.da_blobs == block.da_blobs
                &&& b.header.gas_used <= cfg.max_gas_per_block
                &&& (supply_ok(*old(state)) ==> supply_ok(*final(state)))
                &&& (forall|k: int|
                    #![trigger block.da_blobs@[k]]
                    0 <= k < block.da_blobs@.len() ==> exists|i: int|
                        {
                            &&& 0 <= i < da.blobs@.len()
                            &&& (#[trigger] da.blobs@[i]).id == block.da_blobs@[k]
                            &&& b.header.da_commitment matches Some(c) && c.root@
                                == crate::da::spec_merkle_root(views_of(da.blobs@[i].shard_hashes@))
                        })
            },
            Err(_) => true,
        },
        (da_blobs_held(block, da.blobs@) && block.transactions@.len() == 0 && supply_ok(
            *old(state),
        ) && old(state).total_supply + crate::apply::spec_block_mint(*old(state), *cfg)
            <= u128::MAX) ==> r is Ok,
{
    let ghost held = da_blobs_held(block, da.blobs@);
    // every referenced blob must be held and match the header's commitment
    let n = block.da_blobs.len();
    let mut k: usize = 0;
    while k < n
        invariant
            accts_unique(state.accounts@),
            *state == *old(state),
            k <= n,
            n == block.da_blobs@.len(),
            held == da_blobs_held(block, da.blobs@),
            forall|m: int|
                #![trigger block.da_blobs@[m]]
                0 <= m < k ==> exists|i: int|
                    {
                        &&& 0 <= i < da.blobs@.len()
                        &&& (#[trigger] da.blobs@[i]).id == block.da_blobs@[m]
                        &&& block.header.da_commitment matches Some(c) && c.root@
                            == crate::da::spec_merkle_root(views_of(da.blobs@[i].shard_hashes@))
                    },
        decreases n - k,
    {
        let proof_result = match da.prove_blob_availability(block.da_blobs[k], 4) {
            Ok(p) => p,
            Err(_) => {
                proof {
                    if held {
                        assert(crate::da::da_has_blob(da.blobs@, block.da_blobs@[k as int]));
                        assert(false);
                    }
                }
                return Err(ExecError::DaNotAvailable);
            },
        };
        match &block.header.da_commitment {
            None => {
                proof {
                    if held {
                        assert(block.header.da_commitment matches Some(c));
                        assert(false);
                    }
                }
                return Err(ExecError::DaNotAvailable);
            },
            Some(c) => {
                if !bytes_eq(&proof_result.commitment.root, &c.root) {
                    proof {
                        if held {
                            let i = choose|i: int|
                                0 <= i < da.blobs@.len() && (#[trigger] da.blobs@[i]).id
                                    == block.da_blobs@[k as int] && proof_result.commitment.root@
                                    == crate::da::spec_merkle_root(
                                    views_of(da.blobs@[i].shard_hashes@),
                                );
                            assert(da.blobs@[i].id == block.da_blobs@[k as int]);
                            assert(false);
                        }
                    }
                    return Err(ExecError::DaRootMismatch);
                }
            },
        }
        k += 1;
    }
    let result = apply_block_ref(cfg, state, domains, vm, &block)?;
    let Block { header, transactions, da_blobs } = block;
    let sealed_header = BlockHeader {
        state_root: result.state_root,
        gas_used: result.gas_used,
        ..header
    };
    let sealed = Block { header: sealed_header, transactions, da_blobs };
    let id = hash_block(&sealed);
    Ok((sealed, id))
}

/// Applies a block given by reference (the sealing path keeps the block).
fn apply_block_ref<V: DomainVm>(
    cfg: &ExecutionConfig,
    state: &mut ChainState,
    domains: &mut DomainRuntime,
    vm: &V,
    block: &Block,
) -> (r: Result<BlockApplyResult, ExecError>)
    requires
        accts_unique(old(state).accounts@),
        config_wf(*cfg),
    ensures
        accts_unique(final(state).accounts@),
        match r {
            Ok(out) => {
                &&& out.gas_used <= cfg.max_gas_per_block
                &&& out.state_root@ == crate::root::spec_state_root(*final(state))
                &&& (supply_ok(*old(state)) ==> supply_ok(*final(state)))
            },
            Err(_) => true,
        },
        (block.transactions@.len() == 0 && supply_ok(*old(state)) && old(state).total_supply
            + crate::apply::spec_block_mint(*old(state), *cfg) <= u128::MAX) ==> r is Ok,
{
    crate::apply::apply_block(cfg, state, domains, vm, block)
}

/// Whether this node should propose for the engine's current view: true when
/// it runs the computed leader, and permissively true when it runs no
/// validator or the roster is empty.
pub fn is_local_leader(engine: &HotStuffEngine, local: &Option<Validator>) -> (r: bool)
    ensures
        local is None ==> r == true,
        engine.validators@.len() == 0 ==> r == true,
        local matches Some(me) ==> (engine.validators@.len() > 0 ==> r == (engine.validators@[
            crate::consensus::spec_leader_ix(
                engine.validators@,
                engine.total_stake,
                engine.state.view,
            )
        ].id == me.id)),
{
    let Some(me) = local else {
        return true;
    };
    match engine.leader_for_view(engine.current_view()) {
        Some(leader) => leader.id == me.id,
        None => true,
    }
}

/// A message of the consensus wire protocol.
pub enum ConsensusMessage {
    Propose(SignedProposal),
    Vote(SignedVote),
    Timeout { view: u64, from: Validator },
}

/// Handles one inbound consensus message against the engine: an invalid
/// proposal or vote leaves the engine exactly as it was; a valid proposal is
/// recorded and, when this node runs a validator, answered with a self-vote
/// signed over the proposed block for the view the proposal arrived in.
pub fn handle_consensus_message(
    engine: &mut HotStuffEngine,
    msg: ConsensusMessage,
    local: &Option<Validator>,
    secret: &Vec<u8>,
) -> (r: Option<SignedVote>)
    requires
        old(engine).wf(),
        secret@.len() == 32,
    ensures
        final(engine).wf(),
        final(engine).validators == old(engine).validators,
        match msg {
            ConsensusMessage::Propose(p) => {
                &&& (!spec_proposal_ok(p) ==> *final(engine) == *old(engine) && r is None)
                &&& (spec_proposal_ok(p) ==> {
                    &&& final(engine).state.view == (if old(engine).state.view < u64::MAX {
                        (old(engine).state.view + 1) as u64
                    } else {
                        old(engine).state.view
                    })
                    &&& final(engine).block_tree@.len() == old(engine).block_tree@.len() + 1
                    &&& final(engine).block_tree@.last().block == p.block
                    &&& final(engine).block_tree@.last().block_id@ == spec_block_id(p.block)
                    &&& final(engine).commit_queue == old(engine).commit_queue
                    &&& final(engine).votes == old(engine).votes
                    &&& (r is Some <==> local is Some)
                    &&& (r matches Some(vote) ==> vote.block_id@ == spec_block_id(p.block)
                        && vote.view == old(engine).state.view && vote.signature@
                        == ed25519_sign_of(
                        secret@,
                        spec_vote_msg(spec_block_id(p.block), old(engine).state.view),
                    ))
                })
            },
            ConsensusMessage::Vote(v) => {
                &&& r is None
                &&& final(engine).state.view == old(engine).state.view
                &&& final(engine).state.height == old(engine).state.height
                &&& final(engine).block_tree == old(engine).block_tree
                &&& (!spec_vote_ok(v, old(engine).validators@) ==> *final(engine) == *old(engine))
                &&& (spec_vote_ok(v, old(engine).validators@) ==> {
                    &&& (tally_has_voter(old(engine).votes@, v.block_id@, v.view, v.voter.id)
                        ==> *final(engine) == *old(engine))
                    &&& (!tally_has_voter(old(engine).votes@, v.block_id@, v.view, v.voter.id)
                        ==> {
                        let new_stake = sat_add(
                            tally_stake(old(engine).votes@, v.block_id@, v.view),
                            v.voter.stake,
                        );
                        &&& tally_stake(final(engine).votes@, v.block_id@, v.view) == new_stake
                        &&& tally_voters(final(engine).votes@, v.block_id@, v.view)
                            == tally_voters(old(engine).votes@, v.block_id@, v.view).push(
                            v.voter.id,
                        )
                        &&& tally_sigs(final(engine).votes@, v.block_id@, v.view) == tally_sigs(
                            old(engine).votes@,
                            v.block_id@,
                            v.view,
                        ).push(v.signature@)
                        &&& (new_stake >= old(engine).spec_quorum_threshold()
                            ==> crate::bytes::views_of(final(engine).commit_queue@)
                            == crate::bytes::views_of(old(engine).commit_queue@).push(v.block_id@)
                            && (final(engine).state.locked_qc matches Some(qc) && qc.block_id@
                            == v.block_id@ && qc.view == v.view) && (final(engine).state.pending_qc matches Some(qc2) && qc2.block_id@ == v.block_id@
                            && qc2.view == v.view))
                        &&& (new_stake < old(engine).spec_quorum_threshold() ==> final(engine).commit_queue == old(engine).commit_queue && final(engine).state == old(engine).state)
                    })
                })
            },
            ConsensusMessage::Timeout { view, from } => {
                &&& r is None
                &&& (old(engine).state.view == view && view < u64::MAX ==> final(engine).state.view == view + 1)
                &&& (!(old(engine).state.view == view && view < u64::MAX) ==> *final(engine)
                    == *old(engine))
                &&& final(engine).state.height == old(engine).state.height
                &&& final(engine).state.locked_qc == old(engine).state.locked_qc
                &&& final(engine).state.pending_qc == old(engine).state.pending_qc
                &&& final(engine).votes == old(engine).votes
                &&& final(engine).block_tree == old(engine).block_tree
                &&& final(engine).commit_queue == old(engine).commit_queue
            },
        },
        r matches Some(vote) ==> (local matches Some(me) && vote.voter.id == me.id
            && vote.signature@.len() == 64),
    {
    match msg {
        ConsensusMessage::Propose(p) => {
            let view = engine.current_view();
            let block_id = hash_block(&p.block);
            match engine.propose(p) {
                Ok(()) => {},
                Err(_) => {
                    return None;
                },
            }
            match local {
                Some(me) => {
                    let sig = sign_vote(&block_id, view, secret);
                    let mut voter_owner: Vec<u8> = Vec::new();
                    copy_bytes(&mut voter_owner, &me.owner);
                    let mut voter_pk: Vec<u8> = Vec::new();
                    copy_bytes(&mut voter_pk, &me.pubkey);
                    Some(
                        SignedVote {
                            block_id,
                            view,
                            voter: Validator {
                                owner: voter_owner,
                                id: me.id,
                                pubkey: voter_pk,
                                stake: me.stake,
                                status: me.status,
                                commission_rate: me.commission_rate,
                            },
                            signature: sig,
                        },
                    )
                },
                None => None,
            }
        },
        ConsensusMessage::Vote(v) => {
            let _ = engine.vote(v);
            None
        },
        ConsensusMessage::Timeout { view, from: _ } => {
            engine.on_timeout(view);
            None
        },
    }
}

/// One production tick's outgoing messages: the signed proposal for a sealed
/// block and, when this node runs a validator, a matching self-vote. Nothing
/// is produced when the sealed header's proposer is not this key's address.
pub fn plan_tick(
    sealed: &Block,
    block_id: &Vec<u8>,
    view: u64,
    local: &Option<Validator>,
    secret: &Vec<u8>,
) -> (r: Option<(SignedProposal, Option<SignedVote>)>)
    requires
        secret@.len() == 32,
        block_id@ == spec_block_id(*sealed),
    ensures
        match r {
            Some(pair) => {
                &&& spec_proposal_ok(pair.0)
                &&& spec_block_id(pair.0.block) == spec_block_id(*sealed)
                &&& (pair.1 matches Some(v) ==> v.block_id@ == spec_block_id(*sealed) && v.view
                    == view)
            },
            None => blake3_of(ed25519_pubkey_of(secret@)) != sealed.header.proposer_id@,
        },
{
    let public_key = crate::crypto::ed25519_public_key(secret);
    let derived = crate::tx::address_from_pubkey(&public_key);
    if !bytes_eq(&derived, &sealed.header.proposer_id) {
        return None;
    }
    let signature = sign_proposal(sealed, secret);
    let block_copy = copy_block(sealed);
    let proposal = SignedProposal { block: block_copy, public_key, signature };
    proof {
        assert(spec_block_id(proposal.block) == spec_block_id(*sealed));
    }
    let vote = match local {
        Some(me) => {
            let sig = sign_vote(block_id, view, secret);
            let mut bid: Vec<u8> = Vec::new();
            copy_bytes(&mut bid, block_id);
            proof {
                assert(bid@ =~= block_id@);
            }
            let mut owner: Vec<u8> = Vec::new();
            copy_bytes(&mut owner, &me.owner);
            let mut pk: Vec<u8> = Vec::new();
            copy_bytes(&mut pk, &me.pubkey);
            Some(
                SignedVote {
                    block_id: bid,
                    view,
                    voter: Validator {
                        owner,
                        id: me.id,
                        pubkey: pk,
                        stake: me.stake,
                        status: me.status,
                        commission_rate: me.commission_rate,
                    },
                    signature: sig,
                },
            )
        },
        None => None,
    };
    Some((proposal, vote))
}

/// Copies a block, datum for datum, so a proposal can carry it while the
/// producer keeps the sealed original.
pub fn copy_block(b: &Block) -> (r: Block)
    ensures
        spec_block_id(r) == spec_block_id(*b),
        r.header.proposer_id@ == b.header.proposer_id@,
{
    let mut parent_hash: Vec<u8> = Vec::new();
    copy_bytes(&mut parent_hash, &b.header.parent_hash);
    let mut proposer_id: Vec<u8> = Vec::new();
    copy_bytes(&mut proposer_id, &b.header.proposer_id);
    let mut state_root: Vec<u8> = Vec::new();
    copy_bytes(&mut state_root, &b.header.state_root);
    let mut l1_tx_root: Vec<u8> = Vec::new();
    copy_bytes(&mut l1_tx_root, &b.header.l1_tx_root);
    let mut consensus_metadata: Vec<u8> = Vec::new();
    copy_bytes(&mut consensus_metadata, &b.header.consensus_metadata);
    proof {
        assert(parent_hash@ =~= b.header.parent_hash@);
        assert(proposer_id@ =~= b.header.proposer_id@);
        assert(state_root@ =~= b.header.state_root@);
        assert(l1_tx_root@ =~= b.header.l1_tx_root@);
        assert(consensus_metadata@ =~= b.header.consensus_metadata@);
    }
    let da_commitment = match &b.header.da_commitment {
        None => None,
        Some(c) => {
            let mut root: Vec<u8> = Vec::new();
            copy_bytes(&mut root, &c.root);
            proof {
                assert(root@ =~= c.root@);
            }
            Some(
                BlockDACommitment {
                    root,
                    total_shards: c.total_shards,
                    data_shards: c.data_shards,
                    parity_shards: c.parity_shards,
                    shard_size: c.shard_size,
                },
            )
        },
    };
    let mut domain_roots: Vec<Vec<u8>> = Vec::new();
    let n = b.header.domain_roots.len();
    let mut i: usize = 0;
    proof {
        assert(views_of(domain_roots@) =~= views_of(b.header.domain_roots@).take(0));
    }
    while i < n
        invariant
            i <= n,
            n == b.header.domain_roots@.len(),
            views_of(domain_roots@) == views_of(b.header.domain_roots@).take(i as int),
        decreases n - i,
    {
        let ghost pre = domain_roots@;
        let mut d: Vec<u8> = Vec::new();
        copy_bytes(&mut d, &b.header.domain_roots[i]);
        let ghost dv = d@;
        domain_roots.push(d);
        proof {
            assert(dv == views_of(b.header.domain_roots@)[i as int]);
            assert(views_of(domain_roots@) =~= views_of(pre).push(dv));
            assert(views_of(b.header.domain_roots@).take(i as int + 1) =~= views_of(
                b.header.domain_roots@,
            ).take(i as int).push(dv));
        }
        i += 1;
    }
    proof {
        assert(views_of(b.header.domain_roots@).take(n as int) =~= views_of(
            b.header.domain_roots@,
        ));
    }
    let transactions = copy_txs(&b.transactions);
    let mut da_blobs: Vec<u64> = Vec::new();
    let bn = b.da_blobs.len();
    let mut i: usize = 0;
    proof {
        assert(da_blobs@ =~= b.da_blobs@.take(0));
    }
    while i < bn
        invariant
            i <= bn,
            bn == b.da_blobs@.len(),
            da_blobs@ == b.da_blobs@.take(i as int),
        decreases bn - i,
    {
        da_blobs.push(b.da_blobs[i]);
        proof {
            assert(da_blobs@ =~= b.da_blobs@.take(i as int + 1));
        }
        i += 1;
    }
    proof {
        assert(b.da_blobs@.take(bn as int) =~= b.da_blobs@);
    }
    let r = Block {
        header: BlockHeader {
            parent_hash,
            height: b.header.height,
            timestamp: b.header.timestamp,
            proposer_id,
            state_root,
            l1_tx_root,
            da_commitment,
            domain_roots,
            gas_used: b.header.gas_used,
            gas_limit: b.header.gas_limit,
            base_fee: b.header.base_fee,
            consensus_metadata,
        },
        transactions,
        da_blobs,
    };
    proof {
        assert(crate::block::senc_block(r) == crate::block::senc_block(*b)) by {
            assert(crate::block::senc_header(r.header) == crate::block::senc_header(b.header)) by {
                assert(crate::block::senc_opt_block_da(r.header.da_commitment)
                    =~= crate::block::senc_opt_block_da(b.header.da_commitment));
                assert(crate::root::senc_bytes_list(views_of(r.header.domain_roots@))
                    == crate::root::senc_bytes_list(views_of(b.header.domain_roots@)));
            }
            assert(crate::block::senc_tx_list(r.transactions@) == crate::block::senc_tx_list(
                b.transactions@,
            )) by {
                assert(r.transactions@.map_values(|t: Tx| crate::tx::senc_tx(t@))
                    =~= b.transactions@.map_values(|t: Tx| crate::tx::senc_tx(t@)));
            }
            assert(crate::root::senc_u64_list(r.da_blobs@) == crate::root::senc_u64_list(
                b.da_blobs@,
            ));
        }
    }
    r
}

/// Copies a transaction list; each copy decodes from the original's canonical
/// bytes, so the views agree.
fn copy_txs(txs: &Vec<Tx>) -> (r: Vec<Tx>)
    ensures
        r@.len() == txs@.len(),
        forall|i: int| 0 <= i < txs@.len() ==> (#[trigger] r@[i])@ == txs@[i]@,
{
    let mut out: Vec<Tx> = Vec::new();
    let n = txs.len();
    let mut i: usize = 0;
    while i < n
        invariant
            i <= n,
            n == txs@.len(),
            out@.len() == i,
            forall|k: int| 0 <= k < i ==> (#[trigger] out@[k])@ == txs@[k]@,
        decreases n - i,
    {
        let t = copy_tx(&txs[i]);
        out.push(t);
        i += 1;
    }
    out
}

/// Copies one transaction through its canonical bytes: the copy is the decode
/// of the encode, which the round trip pins to the original's view.
pub fn copy_tx(tx: &Tx) -> (r: Tx)
    ensures
        r@ == tx@,
{
    let encoded = crate::tx::canonical_encode(tx);
    let decoded = crate::tx_codec::canonical_decode(&encoded);
    proof {
        crate::tx_codec::lemma_tx_wf(tx);
        crate::tx_roundtrip::lemma_tx_roundtrip(tx@);
    }
    match decoded {
        Some(t) => t,
        None => {
            proof {
                assert(false);
            }
            Tx {
                chain_id: Vec::new(),
                nonce: 0,
                gas_limit: 0,
                max_fee: None,
                max_priority_fee: None,
                gas_price: None,
                payload: crate::tx::TxPayload::Stake { amount: 0 },
                public_key: Vec::new(),
                signature: Vec::new(),
            }
        },
    }
}

} // verus!
