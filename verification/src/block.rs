//! Blocks: the header carrying roots and gas accounting, the transaction
//! list, and the canonical block hash that identifies a block everywhere.

use vstd::prelude::*;

use crate::bytes::{concat_all, lemma_concat_all_take_step};
use crate::codec::{
    enc_bytes, enc_opt_bytes, enc_u128, enc_u32, enc_u64, enc_u8, senc_bytes, senc_u128, senc_u32,
    senc_u64, senc_u8, vec_len_bound,
};
use crate::crypto::{blake3_hash, blake3_of};
use crate::tx::{Tx, enc_payload, senc_tx, tx_signing_bytes};

verus! {

/// The availability commitment a header carries for its payload blob.
#[derive(Debug)]
pub struct BlockDACommitment {
    pub root: Vec<u8>,
    pub total_shards: u32,
    pub data_shards: u32,
    pub parity_shards: u32,
    pub shard_size: u32,
}

/// A block header: parentage, proposer, roots, and gas accounting.
#[derive(Debug)]
pub struct BlockHeader {
    pub parent_hash: Vec<u8>,
    pub height: u64,
    pub timestamp: u64,
    pub proposer_id: Vec<u8>,
    pub state_root: Vec<u8>,
    pub l1_tx_root: Vec<u8>,
    pub da_commitment: Option<BlockDACommitment>,
    pub domain_roots: Vec<Vec<u8>>,
    pub gas_used: u64,
    pub gas_limit: u64,
    pub base_fee: u128,
    pub consensus_metadata: Vec<u8>,
}

/// A block: its header, its transactions in application order, and the
/// identifiers of the availability blobs holding the payload.
#[derive(Debug)]
pub struct Block {
    pub header: BlockHeader,
    pub transactions: Vec<Tx>,
    pub da_blobs: Vec<u64>,
}

/// Assembles a block from its parts.
pub fn build_block(header: BlockHeader, txs: Vec<Tx>, da_blobs: Vec<u64>) -> (r: Block)
    ensures
        r.header == header,
        r.transactions == txs,
        r.da_blobs == da_blobs,
{
    Block { header, transactions: txs, da_blobs }
}

pub open spec fn senc_block_da_commitment(c: BlockDACommitment) -> Seq<u8> {
    senc_bytes(c.root@) + senc_u32(c.total_shards) + senc_u32(c.data_shards) + senc_u32(
        c.parity_shards,
    ) + senc_u32(c.shard_size)
}

pub open spec fn senc_opt_block_da(c: Option<BlockDACommitment>) -> Seq<u8> {
    match c {
        None => seq![0u8],
        Some(x) => seq![1u8] + senc_block_da_commitment(x),
    }
}

pub open spec fn senc_header(h: BlockHeader) -> Seq<u8> {
    senc_bytes(h.parent_hash@) + senc_u64(h.height) + senc_u64(h.timestamp) + senc_bytes(
        h.proposer_id@,
    ) + senc_bytes(h.state_root@) + senc_bytes(h.l1_tx_root@) + senc_opt_block_da(h.da_commitment)
        + crate::root::senc_bytes_list(crate::bytes::views_of(h.domain_roots@)) + senc_u64(
        h.gas_used,
    ) + senc_u64(h.gas_limit) + senc_u128(h.base_fee) + senc_bytes(h.consensus_metadata@)
}

/// The concatenated canonical bytes of a transaction list.
pub open spec fn senc_tx_list(s: Seq<Tx>) -> Seq<u8> {
    senc_u64(s.len() as u64) + concat_all(s.map_values(|t: Tx| senc_tx(t@)))
}

pub open spec fn senc_block(b: Block) -> Seq<u8> {
    senc_header(b.header) + senc_tx_list(b.transactions@) + crate::root::senc_u64_list(b.da_blobs@)
}

fn enc_block_da_commitment(out: &mut Vec<u8>, c: &BlockDACommitment)
    ensures
        final(out)@ == old(out)@ + senc_block_da_commitment(*c),
{
    proof {
        vec_len_bound(&c.root);
    }
    enc_bytes(out, &c.root);
    enc_u32(out, c.total_shards);
    enc_u32(out, c.data_shards);
    enc_u32(out, c.parity_shards);
    enc_u32(out, c.shard_size);
    proof {
        assert(out@ =~= old(out)@ + senc_block_da_commitment(*c));
    }
}

/// Appends the canonical bytes of a block header.
pub fn enc_header(out: &mut Vec<u8>, h: &BlockHeader)
    ensures
        final(out)@ == old(out)@ + senc_header(*h),
{
    proof {
        vec_len_bound(&h.parent_hash);
        vec_len_bound(&h.proposer_id);
        vec_len_bound(&h.state_root);
        vec_len_bound(&h.l1_tx_root);
        vec_len_bound(&h.consensus_metadata);
    }
    enc_bytes(out, &h.parent_hash);
    enc_u64(out, h.height);
    enc_u64(out, h.timestamp);
    enc_bytes(out, &h.proposer_id);
    enc_bytes(out, &h.state_root);
    enc_bytes(out, &h.l1_tx_root);
    match &h.da_commitment {
        None => {
            enc_u8(out, 0);
        },
        Some(c) => {
            enc_u8(out, 1);
            enc_block_da_commitment(out, c);
        },
    }
    enc_bytes_list_pub(out, &h.domain_roots);
    enc_u64(out, h.gas_used);
    enc_u64(out, h.gas_limit);
    enc_u128(out, h.base_fee);
    enc_bytes(out, &h.consensus_metadata);
    proof {
        assert(senc_opt_block_da(h.da_commitment) == match h.da_commitment {
            None => seq![0u8],
            Some(x) => seq![1u8] + senc_block_da_commitment(x),
        });
        assert(out@ =~= old(out)@ + senc_header(*h));
    }
}

fn enc_bytes_list_pub(out: &mut Vec<u8>, list: &Vec<Vec<u8>>)
    ensures
        final(out)@ == old(out)@ + crate::root::senc_bytes_list(crate::bytes::views_of(list@)),
{
    proof {
        vec_len_bound(list);
    }
    enc_u64(out, list.len() as u64);
    let ghost mid = out@;
    let ghost mapped = crate::bytes::views_of(list@).map_values(|x: Seq<u8>| senc_bytes(x));
    let n = list.len();
    let mut i: usize = 0;
    proof {
        assert(out@ =~= mid + concat_all(mapped.take(0)));
    }
    while i < n
        invariant
            i <= n,
            n == list@.len(),
            mapped == crate::bytes::views_of(list@).map_values(|x: Seq<u8>| senc_bytes(x)),
            out@ == mid + concat_all(mapped.take(i as int)),
        decreases n - i,
    {
        proof {
            vec_len_bound(&list@[i as int]);
        }
        enc_bytes(out, &list[i]);
        proof {
            lemma_concat_all_take_step(mapped, i as int);
        }
        i += 1;
    }
    proof {
        assert(mapped.take(n as int) =~= mapped);
        assert(out@ =~= old(out)@ + crate::root::senc_bytes_list(crate::bytes::views_of(list@)));
    }
}

fn enc_u64_list_pub(out: &mut Vec<u8>, list: &Vec<u64>)
    ensures
        final(out)@ == old(out)@ + crate::root::senc_u64_list(list@),
{
    proof {
        vec_len_bound(list);
    }
    enc_u64(out, list.len() as u64);
    let ghost mid = out@;
    let ghost mapped = list@.map_values(|x: u64| senc_u64(x));
    let n = list.len();
    let mut i: usize = 0;
    proof {
        assert(out@ =~= mid + concat_all(mapped.take(0)));
    }
    while i < n
        invariant
            i <= n,
            n == list@.len(),
            mapped == list@.map_values(|x: u64| senc_u64(x)),
            out@ == mid + concat_all(mapped.take(i as int)),
        decreases n - i,
    {
        enc_u64(out, list[i]);
        proof {
            lemma_concat_all_take_step(mapped, i as int);
        }
        i += 1;
    }
    proof {
        assert(mapped.take(n as int) =~= mapped);
        assert(out@ =~= old(out)@ + crate::root::senc_u64_list(list@));
    }
}

/// Appends the canonical bytes of a transaction list.
pub fn enc_tx_list(out: &mut Vec<u8>, txs: &Vec<Tx>)
    ensures
        final(out)@ == old(out)@ + senc_tx_list(txs@),
{
    proof {
        vec_len_bound(txs);
    }
    enc_u64(out, txs.len() as u64);
    let ghost mid = out@;
    let ghost mapped = txs@.map_values(|t: Tx| senc_tx(t@));
    let n = txs.len();
    let mut i: usize = 0;
    proof {
        assert(out@ =~= mid + concat_all(mapped.take(0)));
    }
    while i < n
        invariant
            i <= n,
            n == txs@.len(),
            mapped == txs@.map_values(|t: Tx| senc_tx(t@)),
            out@ == mid + concat_all(mapped.take(i as int)),
        decreases n - i,
    {
        let core = tx_signing_bytes(&txs[i]);
        crate::codec::copy_bytes(out, &core);
        proof {
            vec_len_bound(&txs@[i as int].signature);
        }
        enc_bytes(out, &txs[i].signature);
        proof {
            lemma_concat_all_take_step(mapped, i as int);
            assert(out@ =~= mid + concat_all(mapped.take(i as int + 1)));
        }
        i += 1;
    }
    proof {
        assert(mapped.take(n as int) =~= mapped);
        assert(out@ =~= old(out)@ + senc_tx_list(txs@));
    }
}

/// The canonical bytes of a whole block.
pub fn encode_block(b: &Block) -> (r: Vec<u8>)
    ensures
        r@ == senc_block(*b),
{
    let mut out: Vec<u8> = Vec::new();
    enc_header(&mut out, &b.header);
    enc_tx_list(&mut out, &b.transactions);
    enc_u64_list_pub(&mut out, &b.da_blobs);
    proof {
        assert(out@ =~= senc_block(*b));
    }
    out
}

/// The block identifier: the BLAKE3 digest of the canonical block bytes.
pub open spec fn spec_block_id(b: Block) -> Seq<u8> {
    blake3_of(senc_block(b))
}

/// Hashes a block into its identifier.
pub fn hash_block(b: &Block) -> (r: Vec<u8>)
    ensures
        r@ == spec_block_id(*b),
        r@.len() == 32,
{
    let encoded = encode_block(b);
    blake3_hash(&encoded)
}

/// The root of a transaction list, as sealed into the header.
pub fn tx_root(txs: &Vec<Tx>) -> (r: Vec<u8>)
    ensures
        r@ == blake3_of(senc_tx_list(txs@)),
        r@.len() == 32,
{
    let mut out: Vec<u8> = Vec::new();
    enc_tx_list(&mut out, txs);
    blake3_hash(&out)
}

} // verus!
