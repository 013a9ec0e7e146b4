//! The data-availability layer: blobs are split into fixed-size shards with
//! XOR parity, committed to by a pairwise Merkle root over shard hashes, and
//! served back as sampling proofs whose paths are proved to reconstruct the
//! root they were generated from.

use vstd::prelude::*;

use crate::bytes::{bytes_eq, views_of};
use crate::codec::copy_bytes;
use crate::crypto::{blake3_hash, blake3_of, rng_below, rng_from_seed};
use crate::errors::ExecError;
use crate::state::{zero32, zero_hash};

verus! {

/// Shard geometry for the availability encoding.
#[derive(Debug, Clone, Copy, PartialEq, Eq, Structural)]
pub struct DAConfig {
    pub shard_size: usize,
    pub data_shards: usize,
    pub parity_shards: usize,
}

impl DAConfig {
    /// 1 KiB shards, four data shards, two parity shards.
    pub fn standard() -> (r: DAConfig)
        ensures
            r.shard_size == 1024 && r.data_shards == 4 && r.parity_shards == 2,
    {
        DAConfig { shard_size: 1024, data_shards: 4, parity_shards: 2 }
    }
}

/// An availability commitment: the Merkle root over the shard hashes and the
/// shard geometry it was computed for.
#[derive(Debug)]
pub struct DACommitment {
    pub root: Vec<u8>,
    pub total_shards: usize,
    pub data_shards: usize,
    pub parity_shards: usize,
    pub shard_size: usize,
}

/// One sampled shard: its index, its hash and the sibling path to the root.
#[derive(Debug)]
pub struct SampleProof {
    pub shard_index: usize,
    pub shard_hash: Vec<u8>,
    pub merkle_path: Vec<Vec<u8>>,
}

/// An availability proof: a commitment and sampled shard paths.
#[derive(Debug)]
pub struct DAProof {
    pub blob_id: u64,
    pub commitment: DACommitment,
    pub samples: Vec<SampleProof>,
}

/// A stored blob with its shards and commitment.
pub struct BlobRecord {
    pub id: u64,
    pub domain_id: Vec<u8>,
    pub data: Vec<u8>,
    pub shard_hashes: Vec<Vec<u8>>,
    pub root: Vec<u8>,
    pub total_shards: usize,
}

/// A reference handed back on submission.
#[derive(Debug)]
pub struct BlobRef {
    pub id: u64,
    pub domain_id: Vec<u8>,
    pub size_bytes: usize,
    pub commitment: DACommitment,
}

// ---------------------------------------------------------------------------
// Merkle tree over shard hashes.
// ---------------------------------------------------------------------------

/// The parent-level entry above positions 2k and 2k+1; a lone last leaf is
/// paired with itself.
pub open spec fn combine_at(level: Seq<Seq<u8>>, j: int) -> Seq<u8> {
    if j + 1 < level.len() {
        level[j] + level[j + 1]
    } else {
        level[j] + level[j]
    }
}

/// One level up: pairwise BLAKE3 of adjacent entries.
pub open spec fn pair_up(level: Seq<Seq<u8>>) -> Seq<Seq<u8>> {
    Seq::new(((level.len() + 1) / 2) as nat, |k: int| blake3_of(combine_at(level, 2 * k)))
}

/// The Merkle root of a non-empty level of hashes.
pub open spec fn spec_merkle_root(level: Seq<Seq<u8>>) -> Seq<u8>
    decreases level.len(),
{
    if level.len() <= 1 {
        if level.len() == 0 {
            zero32()
        } else {
            level[0]
        }
    } else {
        spec_merkle_root(pair_up(level))
    }
}

/// The sibling path from a leaf position to the root.
pub open spec fn spec_merkle_path(level: Seq<Seq<u8>>, index: int) -> Seq<Seq<u8>>
    decreases level.len(),
{
    if level.len() <= 1 {
        Seq::empty()
    } else {
        let sibling = if index % 2 == 0 {
            if index + 1 < level.len() {
                level[index + 1]
            } else {
                level[index]
            }
        } else {
            level[index - 1]
        };
        seq![sibling] + spec_merkle_path(pair_up(level), index / 2)
    }
}

/// Recomputes the root from a leaf hash along a sibling path.
pub open spec fn spec_walk_path(leaf: Seq<u8>, path: Seq<Seq<u8>>, index: int) -> Seq<u8>
    decreases path.len(),
{
    if path.len() == 0 {
        leaf
    } else {
        let combined = if index % 2 == 0 {
            leaf + path[0]
        } else {
            path[0] + leaf
        };
        spec_walk_path(blake3_of(combined), path.drop_first(), index / 2)
    }
}

/// Soundness of path generation: walking the generated path from the leaf at
/// the given position recomputes exactly the Merkle root of the level.
pub proof fn lemma_merkle_path_verifies(level: Seq<Seq<u8>>, index: int)
    requires
        0 <= index < level.len(),
    ensures
        spec_walk_path(level[index], spec_merkle_path(level, index), index) == spec_merkle_root(
            level,
        ),
    decreases level.len(),
{
    if level.len() <= 1 {
    } else {
        let up = pair_up(level);
        let path = spec_merkle_path(level, index);
        let sibling = path[0];
        let combined = if index % 2 == 0 {
            level[index] + sibling
        } else {
            sibling + level[index]
        };
        assert(path.drop_first() =~= spec_merkle_path(up, index / 2));
        assert(up[index / 2] == blake3_of(combine_at(level, 2 * (index / 2))));
        if index % 2 == 0 {
            assert(2 * (index / 2) == index);
            assert(combine_at(level, index) == combined);
        } else {
            assert(2 * (index / 2) == index - 1);
            assert(combine_at(level, index - 1) == (level[index - 1] + level[index]));
            assert(combined == level[index - 1] + level[index]);
        }
        assert(blake3_of(combined) == up[index / 2]);
        assert(0 <= index / 2 < up.len());
        lemma_merkle_path_verifies(up, index / 2);
    }
}

/// Computes one level up from a level of hashes.
fn pair_up_exec(level: &Vec<Vec<u8>>) -> (r: Vec<Vec<u8>>)
    requires
        level@.len() >= 2,
    ensures
        views_of(r@) == pair_up(views_of(level@)),
        forall|i: int| 0 <= i < r@.len() ==> (#[trigger] r@[i])@.len() == 32,
{
    let n = level.len();
    let count = n / 2 + n % 2;
    proof {
        assert(count == (n + 1) / 2);
    }
    let mut next: Vec<Vec<u8>> = Vec::new();
    let mut k: usize = 0;
    proof {
        assert(views_of(next@) =~= pair_up(views_of(level@)).take(0));
    }
    while k < count
        invariant
            k <= count,
            count == (n + 1) / 2,
            n == level@.len(),
            n >= 2,
            views_of(next@) == pair_up(views_of(level@)).take(k as int),
            forall|i: int| 0 <= i < next@.len() ==> (#[trigger] next@[i])@.len() == 32,
        decreases count - k,
    {
        let ghost pre = next@;
        let j = 2 * k;
        let mut combined: Vec<u8> = Vec::new();
        copy_bytes(&mut combined, &level[j]);
        if j + 1 < n {
            copy_bytes(&mut combined, &level[j + 1]);
        } else {
            copy_bytes(&mut combined, &level[j]);
        }
        proof {
            assert(combined@ =~= combine_at(views_of(level@), 2 * (k as int)));
        }
        let hashed = blake3_hash(&combined);
        let ghost h = hashed@;
        next.push(hashed);
        proof {
            assert(h == pair_up(views_of(level@))[k as int]);
            assert(views_of(next@) =~= views_of(pre).push(h));
            assert(pair_up(views_of(level@)).take(k as int + 1) =~= pair_up(
                views_of(level@),
            ).take(k as int).push(h));
        }
        k += 1;
    }
    proof {
        assert(pair_up(views_of(level@)).take(count as int) =~= pair_up(views_of(level@)));
    }
    next
}

/// The Merkle root of a vector of leaf hashes.
pub fn merkle_root(leaves: Vec<Vec<u8>>) -> (r: Vec<u8>)
    ensures
        r@ == spec_merkle_root(views_of(leaves@)),
{
    if leaves.len() == 0 {
        return zero_hash();
    }
    let ghost orig = views_of(leaves@);
    let mut level = leaves;
    while level.len() > 1
        invariant
            level@.len() >= 1,
            spec_merkle_root(views_of(level@)) == spec_merkle_root(orig),
        decreases level@.len(),
    {
        let ghost lv = views_of(level@);
        level = pair_up_exec(&level);
        proof {
            assert(spec_merkle_root(lv) == spec_merkle_root(pair_up(lv)));
            assert(views_of(level@).len() == level@.len());
            assert(pair_up(lv).len() == (lv.len() + 1) / 2);
        }
    }
    let mut out: Vec<u8> = Vec::new();
    copy_bytes(&mut out, &level[0]);
    proof {
        assert(out@ =~= views_of(level@)[0]);
    }
    out
}

/// The sibling path from one leaf position to the root.
pub fn merkle_proof_path(leaves: &Vec<Vec<u8>>, index: usize) -> (r: Vec<Vec<u8>>)
    requires
        index < leaves@.len(),
    ensures
        views_of(r@) == spec_merkle_path(views_of(leaves@), index as int),
{
    let mut path: Vec<Vec<u8>> = Vec::new();
    let mut level_owned: Vec<Vec<u8>> = Vec::new();
    let n0 = leaves.len();
    let mut i: usize = 0;
    proof {
        assert(views_of(level_owned@) =~= views_of(leaves@).take(0));
    }
    while i < n0
        invariant
            i <= n0,
            n0 == leaves@.len(),
            views_of(level_owned@) == views_of(leaves@).take(i as int),
        decreases n0 - i,
    {
        let ghost pre = level_owned@;
        let mut c: Vec<u8> = Vec::new();
        copy_bytes(&mut c, &leaves[i]);
        let ghost cv = c@;
        level_owned.push(c);
        proof {
            assert(cv == views_of(leaves@)[i as int]);
            assert(views_of(level_owned@) =~= views_of(pre).push(cv));
            assert(views_of(leaves@).take(i as int + 1) =~= views_of(leaves@).take(i as int).push(
                cv,
            ));
        }
        i += 1;
    }
    proof {
        assert(views_of(leaves@).take(n0 as int) =~= views_of(leaves@));
    }
    let mut level = level_owned;
    let mut idx = index;
    proof {
        assert(views_of(path@) =~= Seq::<Seq<u8>>::empty());
        assert(Seq::<Seq<u8>>::empty() + spec_merkle_path(views_of(level@), idx as int)
            =~= spec_merkle_path(views_of(level@), idx as int));
    }
    while level.len() > 1
        invariant
            idx < level@.len(),
            views_of(path@) + spec_merkle_path(views_of(level@), idx as int) == spec_merkle_path(
                views_of(leaves@),
                index as int,
            ),
        decreases level@.len(),
    {
        let ghost path_pre = path@;
        let ghost lv = views_of(level@);
        let n = level.len();
        let mut sibling: Vec<u8> = Vec::new();
        if idx % 2 == 0 {
            if idx + 1 < n {
                copy_bytes(&mut sibling, &level[idx + 1]);
            } else {
                copy_bytes(&mut sibling, &level[idx]);
            }
        } else {
            copy_bytes(&mut sibling, &level[idx - 1]);
        }
        let ghost sv = sibling@;
        path.push(sibling);
        proof {
            assert(sv == spec_merkle_path(lv, idx as int)[0]);
            assert(views_of(path@) =~= views_of(path_pre).push(sv));
        }
        level = pair_up_exec(&level);
        idx = idx / 2;
        proof {
            assert(views_of(level@) == pair_up(lv));
            assert(idx < level@.len()) by {
                assert(pair_up(lv).len() == (lv.len() + 1) / 2);
            }
            assert(views_of(path_pre).push(sv) + spec_merkle_path(views_of(level@), idx as int)
                =~= views_of(path_pre) + (seq![sv] + spec_merkle_path(pair_up(lv), idx as int)));
        }
    }
    proof {
        assert(spec_merkle_path(views_of(level@), idx as int) =~= Seq::<Seq<u8>>::empty());
        assert(views_of(path@) + Seq::<Seq<u8>>::empty() =~= views_of(path@));
    }
    path
}

/// Walks a sampling path from a shard hash; true exactly when the path
/// reconstructs the given root.
pub fn verify_merkle_path(leaf: &Vec<u8>, path: &Vec<Vec<u8>>, root: &Vec<u8>, index: usize) -> (r:
    bool)
    ensures
        r == (spec_walk_path(leaf@, views_of(path@), index as int) == root@),
{
    let mut hash: Vec<u8> = Vec::new();
    copy_bytes(&mut hash, leaf);
    let mut idx = index;
    let n = path.len();
    let mut i: usize = 0;
    proof {
        assert(hash@ =~= leaf@);
        assert(views_of(path@).skip(0) =~= views_of(path@));
    }
    while i < n
        invariant
            i <= n,
            n == path@.len(),
            spec_walk_path(hash@, views_of(path@).skip(i as int), idx as int) == spec_walk_path(
                leaf@,
                views_of(path@),
                index as int,
            ),
        decreases n - i,
    {
        let ghost pre_hash = hash@;
        let ghost rest = views_of(path@).skip(i as int);
        let mut combined: Vec<u8> = Vec::new();
        if idx % 2 == 0 {
            copy_bytes(&mut combined, &hash);
            copy_bytes(&mut combined, &path[i]);
            proof {
                assert(combined@ =~= pre_hash + views_of(path@)[i as int]);
            }
        } else {
            copy_bytes(&mut combined, &path[i]);
            copy_bytes(&mut combined, &hash);
            proof {
                assert(combined@ =~= views_of(path@)[i as int] + pre_hash);
            }
        }
        hash = blake3_hash(&combined);
        idx = idx / 2;
        proof {
            assert(rest[0] == views_of(path@)[i as int]);
            assert(rest.drop_first() =~= views_of(path@).skip(i as int + 1));
        }
        i += 1;
    }
    proof {
        assert(views_of(path@).skip(n as int) =~= Seq::<Seq<u8>>::empty());
        assert(spec_walk_path(hash@, views_of(path@).skip(n as int), idx as int) == hash@);
    }
    bytes_eq(&hash, root)
}

/// Whether every sample of a proof reconstructs the commitment root.
pub open spec fn spec_da_proof_ok(p: DAProof) -> bool {
    forall|i: int|
        0 <= i < p.samples@.len() ==> spec_walk_path(
            (#[trigger] p.samples@[i]).shard_hash@,
            views_of(p.samples@[i].merkle_path@),
            p.samples@[i].shard_index as int,
        ) == p.commitment.root@
}

/// Verifies an availability proof: every sampled shard's path must
/// reconstruct the commitment root.
pub fn verify_da_proof(proof: &DAProof) -> (r: bool)
    ensures
        r == spec_da_proof_ok(*proof),
{
    let n = proof.samples.len();
    let mut i: usize = 0;
    while i < n
        invariant
            i <= n,
            n == proof.samples@.len(),
            forall|j: int|
                0 <= j < i ==> spec_walk_path(
                    (#[trigger] proof.samples@[j]).shard_hash@,
                    views_of(proof.samples@[j].merkle_path@),
                    proof.samples@[j].shard_index as int,
                ) == proof.commitment.root@,
        decreases n - i,
    {
        let sample = &proof.samples[i];
        if !verify_merkle_path(
            &sample.shard_hash,
            &sample.merkle_path,
            &proof.commitment.root,
            sample.shard_index,
        ) {
            return false;
        }
        i += 1;
    }
    true
}

// ---------------------------------------------------------------------------
// Shard encoding.
// ---------------------------------------------------------------------------

/// The bytes of data shard `i`: the blob's window, zero-padded at the tail.
pub open spec fn spec_data_shard(blob: Seq<u8>, size: int, i: int) -> Seq<u8> {
    Seq::new(size as nat, |j: int| if i * size + j < blob.len() {
        blob[i * size + j]
    } else {
        0u8
    })
}

/// Pointwise XOR of equal-length byte strings.
pub open spec fn xor_bytes(a: Seq<u8>, b: Seq<u8>) -> Seq<u8> {
    Seq::new(a.len(), |j: int| (a[j] ^ b[j]) as u8)
}

/// The XOR fold of a list of equal-length shards; the parity shard.
pub open spec fn xor_all(shards: Seq<Seq<u8>>, size: int) -> Seq<u8>
    decreases shards.len(),
{
    if shards.len() == 0 {
        Seq::new(size as nat, |j: int| 0u8)
    } else {
        xor_bytes(xor_all(shards.drop_last(), size), shards.last())
    }
}

/// How many data shards a blob of this length splits into: at least the
/// configured count, more when the blob is longer.
pub open spec fn spec_data_count(blob_len: int, size: int, data_shards: int) -> int {
    let chunks = (blob_len + size - 1) / size;
    if chunks < data_shards {
        data_shards
    } else {
        chunks
    }
}

/// Splits a blob into zero-padded data shards followed by XOR parity shards.
pub fn shard_blob(blob: &Vec<u8>, cfg: &DAConfig) -> (r: Vec<Vec<u8>>)
    requires
        0 < cfg.shard_size,
        cfg.data_shards >= 1,
        blob@.len() + cfg.shard_size <= usize::MAX,
        spec_data_count(blob@.len() as int, cfg.shard_size as int, cfg.data_shards as int)
            + cfg.parity_shards <= usize::MAX,
    ensures
        ({
            let data_count = spec_data_count(
                blob@.len() as int,
                cfg.shard_size as int,
                cfg.data_shards as int,
            );
            &&& r@.len() == data_count + cfg.parity_shards
            &&& forall|i: int| 0 <= i < r@.len() ==> (#[trigger] r@[i])@.len() == cfg.shard_size
            &&& forall|i: int|
                0 <= i < data_count ==> (#[trigger] r@[i])@ == spec_data_shard(
                    blob@,
                    cfg.shard_size as int,
                    i,
                )
            &&& forall|i: int|
                data_count <= i < r@.len() ==> (#[trigger] r@[i])@ == xor_all(
                    views_of(r@.take(data_count)),
                    cfg.shard_size as int,
                )
        }),
{
    let size = cfg.shard_size;
    let blob_len = blob.len();
    let chunks = (blob_len + size - 1) / size;
    let data_count = if chunks < cfg.data_shards {
        cfg.data_shards
    } else {
        chunks
    };
    let mut shards: Vec<Vec<u8>> = Vec::new();
    let mut i: usize = 0;
    while i < data_count
        invariant
            i <= data_count,
            size == cfg.shard_size,
            0 < size,
            blob_len == blob@.len(),
            data_count == spec_data_count(blob_len as int, size as int, cfg.data_shards as int),
            blob_len + size <= usize::MAX,
            shards@.len() == i,
            forall|k: int| 0 <= k < i ==> (#[trigger] shards@[k])@.len() == size,
            forall|k: int|
                0 <= k < i ==> (#[trigger] shards@[k])@ == spec_data_shard(blob@, size as int, k),
        decreases data_count - i,
    {
        let mut shard: Vec<u8> = Vec::new();
        let mut j: usize = 0;
        while j < size
            invariant
                j <= size,
                0 < size,
                blob_len == blob@.len(),
                blob_len + size <= usize::MAX,
                i < data_count,
                data_count + size <= usize::MAX || true,
                shard@.len() == j,
                i * size + size <= usize::MAX || true,
                forall|m: int|
                    0 <= m < j ==> shard@[m] == spec_data_shard(blob@, size as int, i as int)[m],
            decreases size - j,
        {
            let byte: u8 = if i <= blob_len / size {
                proof {
                    assert((i as int) * (size as int) <= blob_len as int) by (nonlinear_arith)
                        requires
                            i <= blob_len as int / size as int,
                            0 < size,
                            0 <= i,
                    ;
                }
                let off = i * size;
                if j < blob_len - off {
                    blob[off + j]
                } else {
                    0u8
                }
            } else {
                proof {
                    assert((i as int) * (size as int) > blob_len as int) by (nonlinear_arith)
                        requires
                            i > blob_len as int / size as int,
                            0 < size,
                            0 <= i,
                    ;
                }
                0u8
            };
            shard.push(byte);
            proof {
                assert(shard@[j as int] == spec_data_shard(blob@, size as int, i as int)[j as int]);
            }
            j += 1;
        }
        proof {
            assert(shard@ =~= spec_data_shard(blob@, size as int, i as int));
        }
        shards.push(shard);
        i += 1;
    }
    let ghost data_part = views_of(shards@);
    proof {
        assert(shards@.take(data_count as int) =~= shards@);
    }
    let mut p: usize = 0;
    while p < cfg.parity_shards
        invariant
            p <= cfg.parity_shards,
            size == cfg.shard_size,
            0 < size,
            data_count == spec_data_count(blob@.len() as int, size as int, cfg.data_shards as int),
            data_count + cfg.parity_shards <= usize::MAX,
            shards@.len() == data_count + p,
            data_part == views_of(shards@.take(data_count as int)),
            forall|k: int| 0 <= k < shards@.len() ==> (#[trigger] shards@[k])@.len() == size,
            forall|k: int|
                0 <= k < data_count ==> (#[trigger] shards@[k])@ == spec_data_shard(
                    blob@,
                    size as int,
                    k,
                ),
            forall|k: int|
                data_count <= k < shards@.len() ==> (#[trigger] shards@[k])@ == xor_all(
                    data_part,
                    size as int,
                ),
        decreases cfg.parity_shards - p,
    {
        let ghost pre = shards@;
        let mut parity: Vec<u8> = Vec::new();
        let mut j: usize = 0;
        while j < size
            invariant
                j <= size,
                parity@.len() == j,
                forall|m: int|
                    0 <= m < j ==> parity@[m] == xor_all(data_part.take(0), size as int)[m],
                size as int == xor_all(data_part.take(0), size as int).len(),
            decreases size - j,
        {
            parity.push(0u8);
            proof {
                assert(parity@[j as int] == xor_all(data_part.take(0), size as int)[j as int]);
            }
            j += 1;
        }
        proof {
            assert(parity@ =~= xor_all(data_part.take(0), size as int));
        }
        let mut d: usize = 0;
        while d < data_count
            invariant
                d <= data_count,
                size == cfg.shard_size,
                0 < size,
                shards@ == pre,
                data_count <= shards@.len(),
                data_part == views_of(shards@.take(data_count as int)),
                data_part.len() == data_count,
                forall|k: int| 0 <= k < shards@.len() ==> (#[trigger] shards@[k])@.len() == size,
                parity@ == xor_all(data_part.take(d as int), size as int),
                parity@.len() == size,
            decreases data_count - d,
        {
            let ghost acc = parity@;
            let mut j: usize = 0;
            while j < size
                invariant
                    j <= size,
                    0 <= d < data_count,
                    data_count <= shards@.len(),
                    size == cfg.shard_size,
                    shards@ == pre,
                    data_part == views_of(shards@.take(data_count as int)),
                    data_part.len() == data_count,
                    forall|k: int|
                        0 <= k < shards@.len() ==> (#[trigger] shards@[k])@.len() == size,
                    parity@.len() == size,
                    acc.len() == size,
                    forall|m: int|
                        0 <= m < j ==> parity@[m] == (acc[m] ^ shards@[d as int]@[m]) as u8,
                    forall|m: int| j <= m < size ==> parity@[m] == acc[m],
                decreases size - j,
            {
                let b = shards[d][j];
                let cur = parity[j];
                parity.set(j, cur ^ b);
                j += 1;
            }
            proof {
                assert(data_part[d as int] == shards@[d as int]@);
                assert(parity@ =~= xor_bytes(acc, data_part[d as int]));
                assert(data_part.take(d as int + 1).drop_last() =~= data_part.take(d as int));
                assert(data_part.take(d as int + 1).last() == data_part[d as int]);
                assert(parity@ =~= xor_all(data_part.take(d as int + 1), size as int));
            }
            d += 1;
        }
        proof {
            assert(data_part.take(data_count as int) =~= data_part);
            assert(parity@ == xor_all(data_part, size as int));
        }
        shards.push(parity);
        proof {
            assert(shards@.take(data_count as int) =~= pre.take(data_count as int));
        }
        p += 1;
    }
    proof {
        assert(views_of(shards@.take(data_count as int)) == data_part);
    }
    shards
}

// ---------------------------------------------------------------------------
// The in-memory availability store.
// ---------------------------------------------------------------------------

/// Holds submitted blobs, their shard hashes and commitments, and serves
/// sampling proofs.
pub struct InMemoryDA {
    pub config: DAConfig,
    pub blobs: Vec<BlobRecord>,
    pub next_id: u64,
}

/// Whether the store holds a blob under the identifier.
pub open spec fn da_has_blob(s: Seq<BlobRecord>, id: u64) -> bool {
    exists|i: int| 0 <= i < s.len() && s[i].id == id
}

impl InMemoryDA {
    /// A store with the standard shard geometry.
    pub fn new() -> (r: InMemoryDA)
        ensures
            r.config.shard_size == 1024,
            r.config.data_shards == 4,
            r.config.parity_shards == 2,
            r.blobs@.len() == 0,
            r.next_id == 0,
    {
        InMemoryDA { config: DAConfig::standard(), blobs: Vec::new(), next_id: 0 }
    }

    /// A store with the given shard geometry.
    pub fn with_config(config: DAConfig) -> (r: InMemoryDA)
        ensures
            r.config == config,
            r.blobs@.len() == 0,
    {
        InMemoryDA { config, blobs: Vec::new(), next_id: 0 }
    }

    fn find_blob(&self, id: u64) -> (r: Option<usize>)
        ensures
            match r {
                Some(i) => i < self.blobs@.len() && self.blobs@[i as int].id == id,
                None => !da_has_blob(self.blobs@, id),
            },
    {
        let n = self.blobs.len();
        let mut i: usize = 0;
        while i < n
            invariant
                i <= n,
                n == self.blobs@.len(),
                forall|j: int| 0 <= j < i ==> self.blobs@[j].id != id,
            decreases n - i,
        {
            if self.blobs[i].id == id {
                return Some(i);
            }
            i += 1;
        }
        None
    }

    /// Accepts a blob: shards it, hashes the shards, commits to their Merkle
    /// root, stores everything under a fresh identifier and returns the
    /// reference.
    pub fn submit_blob(&mut self, domain_id: &Vec<u8>, blob: &Vec<u8>) -> (r: Result<
        BlobRef,
        ExecError,
    >)
        requires
            0 < old(self).config.shard_size,
            old(self).config.data_shards >= 1,
            blob@.len() + old(self).config.shard_size <= usize::MAX,
            spec_data_count(
                blob@.len() as int,
                old(self).config.shard_size as int,
                old(self).config.data_shards as int,
            ) + old(self).config.parity_shards <= usize::MAX,
        ensures
            match r {
                Ok(b) => {
                    &&& b.id == old(self).next_id
                    &&& final(self).blobs@.len() == old(self).blobs@.len() + 1
                    &&& final(self).blobs@.last().id == b.id
                    &&& b.commitment.root@ == spec_merkle_root(
                        views_of(final(self).blobs@.last().shard_hashes@),
                    )
                    &&& final(self).blobs@.last().root@ == b.commitment.root@
                    &&& b.size_bytes == blob@.len()
                    &&& final(self).blobs@.last().data@ == blob@
                },
                Err(_) => false,
            },
    {
        let shards = shard_blob(blob, &self.config);
        let n = shards.len();
        let mut hashes: Vec<Vec<u8>> = Vec::new();
        let mut i: usize = 0;
        while i < n
            invariant
                i <= n,
                n == shards@.len(),
                hashes@.len() == i,
                forall|k: int| 0 <= k < i ==> (#[trigger] hashes@[k])@.len() == 32,
                forall|k: int|
                    0 <= k < i ==> (#[trigger] hashes@[k])@ == blake3_of(shards@[k]@),
            decreases n - i,
        {
            hashes.push(blake3_hash(&shards[i]));
            i += 1;
        }
        let mut hashes_copy: Vec<Vec<u8>> = Vec::new();
        let mut k: usize = 0;
        proof {
            assert(views_of(hashes_copy@) =~= views_of(hashes@).take(0));
        }
        while k < n
            invariant
                k <= n,
                n == hashes@.len(),
                views_of(hashes_copy@) == views_of(hashes@).take(k as int),
            decreases n - k,
        {
            let ghost pre = hashes_copy@;
            let mut h: Vec<u8> = Vec::new();
            copy_bytes(&mut h, &hashes[k]);
            let ghost hv = h@;
            hashes_copy.push(h);
            proof {
                assert(hv == views_of(hashes@)[k as int]);
                assert(views_of(hashes_copy@) =~= views_of(pre).push(hv));
                assert(views_of(hashes@).take(k as int + 1) =~= views_of(hashes@).take(
                    k as int,
                ).push(hv));
            }
            k += 1;
        }
        proof {
            assert(views_of(hashes@).take(n as int) =~= views_of(hashes@));
        }
        let root = merkle_root(hashes_copy);
        let mut root_copy: Vec<u8> = Vec::new();
        copy_bytes(&mut root_copy, &root);
        let mut domain_copy: Vec<u8> = Vec::new();
        copy_bytes(&mut domain_copy, domain_id);
        let mut data_copy: Vec<u8> = Vec::new();
        copy_bytes(&mut data_copy, blob);
        proof {
            assert(root_copy@ =~= root@);
            assert(data_copy@ =~= blob@);
        }
        let id = self.next_id;
        if self.next_id < u64::MAX {
            self.next_id = self.next_id + 1;
        }
        let commitment = DACommitment {
            root,
            total_shards: n,
            data_shards: self.config.data_shards,
            parity_shards: self.config.parity_shards,
            shard_size: self.config.shard_size,
        };
        self.blobs.push(
            BlobRecord {
                id,
                domain_id: domain_copy,
                data: data_copy,
                shard_hashes: hashes,
                root: root_copy,
                total_shards: n,
            },
        );
        Ok(
            BlobRef {
                id,
                domain_id: {
                    let mut d: Vec<u8> = Vec::new();
                    copy_bytes(&mut d, domain_id);
                    d
                },
                size_bytes: blob.len(),
                commitment,
            },
        )
    }

    /// The stored bytes of a blob.
    pub fn get_blob(&self, id: u64) -> (r: Result<&Vec<u8>, ExecError>)
        ensures
            match r {
                Ok(_) => da_has_blob(self.blobs@, id),
                Err(e) => e == ExecError::DaNotAvailable && !da_has_blob(self.blobs@, id),
            },
    {
        match self.find_blob(id) {
            Some(i) => {
                proof {
                    assert(self.blobs@[i as int].id == id);
                }
                Ok(&self.blobs[i].data)
            },
            None => Err(ExecError::DaNotAvailable),
        }
    }

    /// The stored commitment of a blob.
    pub fn get_commitment(&self, id: u64) -> (r: Result<DACommitment, ExecError>)
        ensures
            match r {
                Ok(c) => da_has_blob(self.blobs@, id) && exists|i: int|
                    0 <= i < self.blobs@.len() && self.blobs@[i].id == id && c.root@
                        == self.blobs@[i].root@,
                Err(e) => e == ExecError::DaNotAvailable && !da_has_blob(self.blobs@, id),
            },
    {
        match self.find_blob(id) {
            Some(i) => {
                proof {
                    assert(self.blobs@[i as int].id == id);
                }
                let mut root: Vec<u8> = Vec::new();
                copy_bytes(&mut root, &self.blobs[i].root);
                proof {
                    assert(root@ =~= self.blobs@[i as int].root@);
                }
                Ok(
                    DACommitment {
                        root,
                        total_shards: self.blobs[i].total_shards,
                        data_shards: self.config.data_shards,
                        parity_shards: self.config.parity_shards,
                        shard_size: self.config.shard_size,
                    },
                )
            },
            None => Err(ExecError::DaNotAvailable),
        }
    }

    /// Builds sampling proofs for randomly drawn shard positions of a stored
    /// blob. Every proof this returns verifies: walking each sampled path
    /// reconstructs the commitment root, which is the Merkle root of the
    /// stored shard hashes.
    pub fn prove_blob_availability(&self, id: u64, samples: usize) -> (r: Result<
        DAProof,
        ExecError,
    >)
        ensures
            match r {
                Ok(p) => {
                    &&& da_has_blob(self.blobs@, id)
                    &&& p.blob_id == id
                    &&& p.samples@.len() <= p.commitment.total_shards
                    &&& spec_da_proof_ok(p)
                    &&& exists|i: int|
                        0 <= i < self.blobs@.len() && self.blobs@[i].id == id && p.commitment.root@
                            == spec_merkle_root(views_of(self.blobs@[i].shard_hashes@))
                    &&& (p.samples@.len() == 0 ==> exists|i: int|
                        0 <= i < self.blobs@.len() && self.blobs@[i].id == id
                            && self.blobs@[i].shard_hashes@.len() == 0)
                },
                Err(e) => e == ExecError::DaNotAvailable && !da_has_blob(self.blobs@, id),
            },
    {
        let Some(bi) = self.find_blob(id) else {
            return Err(ExecError::DaNotAvailable);
        };
        proof {
            assert(self.blobs@[bi as int].id == id);
        }
        let record = &self.blobs[bi];
        let total = record.shard_hashes.len();
        let root = merkle_root_of_record(record);
        let ghost rootv = root@;
        let commitment = DACommitment {
            root,
            total_shards: total,
            data_shards: self.config.data_shards,
            parity_shards: self.config.parity_shards,
            shard_size: self.config.shard_size,
        };
        let mut out: Vec<SampleProof> = Vec::new();
        if total == 0 {
            let p = DAProof { blob_id: id, commitment, samples: out };
            proof {
                assert(p.commitment.root@ == spec_merkle_root(
                    views_of(self.blobs@[bi as int].shard_hashes@),
                ));
                assert(self.blobs@[bi as int].shard_hashes@.len() == 0);
            }
            return Ok(p);
        }
        let count = if samples == 0 {
            1
        } else {
            samples
        };
        let count = if count > total {
            total
        } else {
            count
        };
        proof {
            assert(count <= total);
        }
        let mut rng = rng_from_seed(42);
        let mut s: usize = 0;
        while s < count
            invariant
                s <= count,
                count >= 1,
                total == record.shard_hashes@.len(),
                total > 0,
                record == self.blobs@[bi as int],
                rootv == spec_merkle_root(views_of(record.shard_hashes@)),
                out@.len() == s,
                forall|j: int|
                    0 <= j < out@.len() ==> spec_walk_path(
                        (#[trigger] out@[j]).shard_hash@,
                        views_of(out@[j].merkle_path@),
                        out@[j].shard_index as int,
                    ) == rootv,
            decreases count - s,
        {
            let idx = rng_below(&mut rng, total);
            let mut shard_hash: Vec<u8> = Vec::new();
            copy_bytes(&mut shard_hash, &record.shard_hashes[idx]);
            proof {
                assert(shard_hash@ =~= record.shard_hashes@[idx as int]@);
                assert(shard_hash@ == views_of(record.shard_hashes@)[idx as int]);
            }
            let path = merkle_proof_path(&record.shard_hashes, idx);
            proof {
                lemma_merkle_path_verifies(views_of(record.shard_hashes@), idx as int);
            }
            out.push(SampleProof { shard_index: idx, shard_hash, merkle_path: path });
            s += 1;
        }
        let p = DAProof { blob_id: id, commitment, samples: out };
        proof {
            assert(p.commitment.root@ == rootv);
            assert(spec_da_proof_ok(p));
            assert(p.commitment.root@ == spec_merkle_root(
                views_of(self.blobs@[bi as int].shard_hashes@),
            ));
        }
        Ok(p)
    }

    /// Draws and verifies sampling proofs; a stored blob always passes, an
    /// unknown identifier is unavailable.
    pub fn sample(&self, id: u64, samples: usize) -> (r: Result<bool, ExecError>)
        ensures
            match r {
                Ok(b) => b == true && da_has_blob(self.blobs@, id),
                Err(e) => e == ExecError::DaNotAvailable && !da_has_blob(self.blobs@, id),
            },
    {
        let proof_result = self.prove_blob_availability(id, samples)?;
        let ok = verify_da_proof(&proof_result);
        proof {
            assert(ok);
        }
        Ok(true)
    }
}

/// Recomputes the Merkle root of a record's stored shard hashes.
fn merkle_root_of_record(record: &BlobRecord) -> (r: Vec<u8>)
    ensures
        r@ == spec_merkle_root(views_of(record.shard_hashes@)),
{
    let n = record.shard_hashes.len();
    let mut copy: Vec<Vec<u8>> = Vec::new();
    let mut i: usize = 0;
    proof {
        assert(views_of(copy@) =~= views_of(record.shard_hashes@).take(0));
    }
    while i < n
        invariant
            i <= n,
            n == record.shard_hashes@.len(),
            views_of(copy@) == views_of(record.shard_hashes@).take(i as int),
        decreases n - i,
    {
        let ghost pre = copy@;
        let mut h: Vec<u8> = Vec::new();
        copy_bytes(&mut h, &record.shard_hashes[i]);
        let ghost hv = h@;
        copy.push(h);
        proof {
            assert(hv == views_of(record.shard_hashes@)[i as int]);
            assert(views_of(copy@) =~= views_of(pre).push(hv));
            assert(views_of(record.shard_hashes@).take(i as int + 1) =~= views_of(
                record.shard_hashes@,
            ).take(i as int).push(hv));
        }
        i += 1;
    }
    proof {
        assert(views_of(record.shard_hashes@).take(n as int) =~= views_of(record.shard_hashes@));
    }
    merkle_root(copy)
}

} // verus!
