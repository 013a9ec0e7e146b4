//! Zero-knowledge backend interface types: program identifiers, commitments,
//! proof requests and artifacts, program registries, and the deterministic
//! stub artifact that stands in when no proving backend is configured.

use vstd::prelude::*;

use crate::bytes::bytes_eq;
use crate::codec::{enc_bytes, enc_u8, senc_bytes, senc_u8};
use crate::crypto::{blake3_hash, blake3_of};
use vstd::pervasive::VecAdditionalExecFns;

verus! {

/// Identifies a proving circuit.
#[derive(Debug, Clone)]
pub enum ProgramId {
    Block,
    Rollup,
    PrivacyWithdraw,
    Custom(Vec<u8>),
}

/// Ghost mirror of `ProgramId` over byte-string views.
pub ghost enum ProgramIdV {
    Block,
    Rollup,
    PrivacyWithdraw,
    Custom(Seq<u8>),
}

impl View for ProgramId {
    type V = ProgramIdV;

    open spec fn view(&self) -> ProgramIdV {
        match self {
            ProgramId::Block => ProgramIdV::Block,
            ProgramId::Rollup => ProgramIdV::Rollup,
            ProgramId::PrivacyWithdraw => ProgramIdV::PrivacyWithdraw,
            ProgramId::Custom(name) => ProgramIdV::Custom(name@),
        }
    }
}

/// Decides equality of two program identifiers by their views.
pub fn program_id_eq(a: &ProgramId, b: &ProgramId) -> (r: bool)
    ensures
        r == (a@ == b@),
{
    match (a, b) {
        (ProgramId::Block, ProgramId::Block) => true,
        (ProgramId::Rollup, ProgramId::Rollup) => true,
        (ProgramId::PrivacyWithdraw, ProgramId::PrivacyWithdraw) => true,
        (ProgramId::Custom(x), ProgramId::Custom(y)) => bytes_eq(x, y),
        _ => false,
    }
}

/// The canonical bytes of a program identifier.
pub open spec fn senc_program_id(p: ProgramIdV) -> Seq<u8> {
    match p {
        ProgramIdV::Block => senc_u8(0),
        ProgramIdV::Rollup => senc_u8(1),
        ProgramIdV::PrivacyWithdraw => senc_u8(2),
        ProgramIdV::Custom(name) => senc_u8(3) + senc_bytes(name),
    }
}

/// Appends the canonical bytes of a program identifier.
pub fn enc_program_id(out: &mut Vec<u8>, p: &ProgramId)
    ensures
        final(out)@ == old(out)@ + senc_program_id(p@),
{
    match p {
        ProgramId::Block => {
            enc_u8(out, 0);
        },
        ProgramId::Rollup => {
            enc_u8(out, 1);
        },
        ProgramId::PrivacyWithdraw => {
            enc_u8(out, 2);
        },
        ProgramId::Custom(name) => {
            enc_u8(out, 3);
            proof {
                crate::codec::vec_len_bound(name);
            }
            enc_bytes(out, name);
        },
    }
    proof {
        assert(out@ =~= old(out)@ + senc_program_id(p@));
    }
}

/// Commitments a proof binds to: roots of the state, the data-availability
/// layer, the event log, and a domain, each optional.
#[derive(Debug, Clone)]
pub struct Commitments {
    pub state_root: Option<Vec<u8>>,
    pub da_root: Option<Vec<u8>>,
    pub events_root: Option<Vec<u8>>,
    pub domain_root: Option<Vec<u8>>,
}

/// Ghost mirror of `Commitments`.
pub ghost struct CommitmentsV {
    pub state_root: Option<Seq<u8>>,
    pub da_root: Option<Seq<u8>>,
    pub events_root: Option<Seq<u8>>,
    pub domain_root: Option<Seq<u8>>,
}

impl View for Commitments {
    type V = CommitmentsV;

    open spec fn view(&self) -> CommitmentsV {
        CommitmentsV {
            state_root: crate::codec::view_opt_bytes(self.state_root),
            da_root: crate::codec::view_opt_bytes(self.da_root),
            events_root: crate::codec::view_opt_bytes(self.events_root),
            domain_root: crate::codec::view_opt_bytes(self.domain_root),
        }
    }
}

fn opt_bytes_eq(a: &Option<Vec<u8>>, b: &Option<Vec<u8>>) -> (r: bool)
    ensures
        r == (crate::codec::view_opt_bytes(*a) == crate::codec::view_opt_bytes(*b)),
{
    match (a, b) {
        (None, None) => true,
        (Some(x), Some(y)) => bytes_eq(x, y),
        _ => false,
    }
}

/// Decides equality of two commitment sets by their views.
pub fn commitments_eq(a: &Commitments, b: &Commitments) -> (r: bool)
    ensures
        r == (a@ == b@),
{
    let r = opt_bytes_eq(&a.state_root, &b.state_root) && opt_bytes_eq(&a.da_root, &b.da_root)
        && opt_bytes_eq(&a.events_root, &b.events_root) && opt_bytes_eq(
        &a.domain_root,
        &b.domain_root,
    );
    proof {
        if a@.state_root == b@.state_root && a@.da_root == b@.da_root && a@.events_root
            == b@.events_root && a@.domain_root == b@.domain_root {
            assert(a@ == b@);
        }
    }
    r
}

/// Decides equality of two optional commitment sets by their views.
pub fn opt_commitments_eq(a: &Option<Commitments>, b: &Option<Commitments>) -> (r: bool)
    ensures
        r == (view_opt_commitments(*a) == view_opt_commitments(*b)),
{
    match (a, b) {
        (None, None) => true,
        (Some(x), Some(y)) => commitments_eq(x, y),
        _ => false,
    }
}

pub open spec fn view_opt_commitments(c: Option<Commitments>) -> Option<CommitmentsV> {
    match c {
        None => None,
        Some(x) => Some(x@),
    }
}

/// A proof produced by a backend, or by the deterministic stub.
#[derive(Debug, Clone)]
pub struct ProofArtifact {
    pub backend: Vec<u8>,
    pub program_id: ProgramId,
    pub proof: Vec<u8>,
    pub public_outputs: Vec<u8>,
    pub commitments: Option<Commitments>,
    pub verification_key: Option<Vec<u8>>,
}

/// Ghost mirror of `ProofArtifact`.
pub ghost struct ProofArtifactV {
    pub backend: Seq<u8>,
    pub program_id: ProgramIdV,
    pub proof: Seq<u8>,
    pub public_outputs: Seq<u8>,
    pub commitments: Option<CommitmentsV>,
    pub verification_key: Option<Seq<u8>>,
}

impl View for ProofArtifact {
    type V = ProofArtifactV;

    open spec fn view(&self) -> ProofArtifactV {
        ProofArtifactV {
            backend: self.backend@,
            program_id: self.program_id@,
            proof: self.proof@,
            public_outputs: self.public_outputs@,
            commitments: view_opt_commitments(self.commitments),
            verification_key: crate::codec::view_opt_bytes(self.verification_key),
        }
    }
}

/// A request for a proof of one program run.
#[derive(Debug, Clone)]
pub struct ProofRequest {
    pub program_id: ProgramId,
    pub witness: Vec<u8>,
    pub commitments: Option<Commitments>,
}

/// Registry metadata for one proving program.
#[derive(Debug, Clone)]
pub struct ProgramDescriptor {
    pub id: ProgramId,
    pub name: Vec<u8>,
    pub description: Vec<u8>,
    pub version: Vec<u8>,
}

/// Error kinds of the proving interface.
#[derive(Debug, Clone, PartialEq, Eq, Structural)]
pub enum ZkError {
    BackendUnavailable,
    UnknownProgram,
    ProofRejected,
    InvalidCommitment,
}

/// Keeps one descriptor per program identifier; a later registration of the
/// same identifier replaces the earlier one.
pub struct ProgramRegistry {
    programs: Vec<ProgramDescriptor>,
}

/// The positions in `s` that hold a descriptor with the given identifier.
pub open spec fn registry_has(s: Seq<ProgramDescriptor>, id: ProgramIdV) -> bool {
    exists|i: int| 0 <= i < s.len() && s[i].id@ == id
}

impl ProgramRegistry {
    /// The registered descriptors, in order.
    pub closed spec fn entries(&self) -> Seq<ProgramDescriptor> {
        self.programs@
    }

    /// An empty registry.
    pub fn new() -> (r: ProgramRegistry)
        ensures
            r.entries().len() == 0,
    {
        ProgramRegistry { programs: Vec::new() }
    }

    /// Registers a descriptor, replacing any earlier one with the same id.
    pub fn register(&mut self, descriptor: ProgramDescriptor)
        ensures
            registry_has(final(self).entries(), descriptor.id@),
            forall|id: ProgramIdV|
                registry_has(final(self).entries(), id) <==> (registry_has(
                    old(self).entries(),
                    id,
                ) || id == descriptor.id@),
            !registry_has(old(self).entries(), descriptor.id@) ==> final(self).entries() == old(
                self,
            ).entries().push(descriptor),
            registry_has(old(self).entries(), descriptor.id@) ==> exists|k: int|
                #![trigger old(self).entries()[k]]
                {
                    &&& 0 <= k < old(self).entries().len()
                    &&& old(self).entries()[k].id@ == descriptor.id@
                    &&& (forall|j: int| 0 <= j < k ==> old(self).entries()[j].id@ != descriptor.id@)
                    &&& final(self).entries() == old(self).entries().update(k, descriptor)
                },
    {
        let ghost pre = self.programs@;
        let mut i: usize = 0;
        let n = self.programs.len();
        while i < n
            invariant
                i <= n,
                n == self.programs@.len(),
                self.programs@ == pre,
                pre == old(self).programs@,
                forall|j: int| 0 <= j < i ==> pre[j].id@ != descriptor.id@,
            decreases n - i,
        {
            if program_id_eq(&self.programs[i].id, &descriptor.id) {
                let ghost did = descriptor.id@;
                self.programs.set(i, descriptor);
                proof {
                    assert(pre[i as int].id@ == did);
                    assert(registry_has(pre, did));
                    assert(self.programs@ == pre.update(i as int, self.programs@[i as int]));
                    assert(self.programs@[i as int].id@ == did);
                    assert forall|id: ProgramIdV| registry_has(self.programs@, id) <==> (
                    registry_has(pre, id) || id == did) by {
                        if registry_has(pre, id) {
                            let k = choose|k: int| 0 <= k < pre.len() && pre[k].id@ == id;
                            if k == i {
                                assert(self.programs@[i as int].id@ == id);
                            } else {
                                assert(self.programs@[k].id@ == id);
                            }
                        }
                        if id == did {
                            assert(self.programs@[i as int].id@ == id);
                        }
                        if registry_has(self.programs@, id) {
                            let k = choose|k: int|
                                0 <= k < self.programs@.len() && self.programs@[k].id@ == id;
                            if k != i {
                                assert(pre[k].id@ == id);
                            }
                        }
                        assert(self.entries() == self.programs@);
                        assert(registry_has(self.entries(), id) == registry_has(
                            self.programs@,
                            id,
                        ));
                    }
                }
                return ;
            }
            i += 1;
        }
        self.programs.push(descriptor);
        proof {
            assert(self.programs@[pre.len() as int].id@ == descriptor.id@);
            assert forall|id: ProgramIdV| registry_has(self.programs@, id) <==> (registry_has(
                pre,
                id,
            ) || id == descriptor.id@) by {
                if registry_has(pre, id) {
                    let k = choose|k: int| 0 <= k < pre.len() && pre[k].id@ == id;
                    assert(self.programs@[k].id@ == id);
                }
                if registry_has(self.programs@, id) {
                    let k = choose|k: int|
                        0 <= k < self.programs@.len() && self.programs@[k].id@ == id;
                    if k < pre.len() {
                        assert(pre[k].id@ == id);
                    }
                }
            }
        }
    }

    /// Looks a descriptor up by its identifier.
    pub fn get(&self, id: &ProgramId) -> (r: Option<&ProgramDescriptor>)
        ensures
            match r {
                Some(d) => d.id@ == id@ && registry_has(self.entries(), id@) && exists|i: int|
                    #![trigger self.entries()[i]]
                    0 <= i < self.entries().len() && self.entries()[i] == *d && (forall|j: int|
                        0 <= j < i ==> self.entries()[j].id@ != id@),
                None => !registry_has(self.entries(), id@),
            },
    {
        let n = self.programs.len();
        let mut i: usize = 0;
        while i < n
            invariant
                i <= n,
                n == self.programs@.len(),
                forall|j: int| 0 <= j < i ==> self.programs@[j].id@ != id@,
            decreases n - i,
        {
            if program_id_eq(&self.programs[i].id, id) {
                return Some(&self.programs[i]);
            }
            i += 1;
        }
        None
    }

    /// All registered descriptors, in registration order.
    pub fn list(&self) -> (r: &Vec<ProgramDescriptor>)
        ensures
            r@ == self.entries(),
    {
        &self.programs
    }
}

/// Hashes bytes with BLAKE3; the deterministic commitment used by stubbed
/// proving backends.
pub fn blake3_commit(data: &Vec<u8>) -> (r: Vec<u8>)
    ensures
        r@ == blake3_of(data@),
        r@.len() == 32,
{
    blake3_hash(data)
}

/// The buffer a stub proof hashes: the witness followed by every commitment
/// root that is present.
pub open spec fn stub_buffer(witness: Seq<u8>, commitments: Option<CommitmentsV>) -> Seq<u8> {
    match commitments {
        None => witness,
        Some(c) => witness + opt_root_bytes(c.state_root) + opt_root_bytes(c.da_root)
            + opt_root_bytes(c.events_root) + opt_root_bytes(c.domain_root),
    }
}

pub open spec fn opt_root_bytes(r: Option<Seq<u8>>) -> Seq<u8> {
    match r {
        None => Seq::empty(),
        Some(b) => b,
    }
}

/// The digest a stub proof carries for a witness and commitments.
pub open spec fn stub_digest(witness: Seq<u8>, commitments: Option<CommitmentsV>) -> Seq<u8> {
    blake3_of(stub_buffer(witness, commitments))
}

fn extend_bytes(out: &mut Vec<u8>, b: &Vec<u8>)
    ensures
        final(out)@ == old(out)@ + b@,
{
    let n = b.len();
    let mut i: usize = 0;
    proof {
        assert(out@ =~= old(out)@ + b@.take(0));
    }
    while i < n
        invariant
            i <= n,
            n == b@.len(),
            out@ == old(out)@ + b@.take(i as int),
        decreases n - i,
    {
        out.push(b[i]);
        proof {
            assert(out@ =~= old(out)@ + b@.take(i as int + 1));
        }
        i += 1;
    }
    proof {
        assert(b@.take(n as int) =~= b@);
    }
}

fn extend_opt_root(out: &mut Vec<u8>, r: &Option<Vec<u8>>)
    ensures
        final(out)@ == old(out)@ + opt_root_bytes(crate::codec::view_opt_bytes(*r)),
{
    match r {
        None => {
            proof {
                assert(out@ =~= out@ + Seq::<u8>::empty());
            }
        },
        Some(b) => {
            extend_bytes(out, b);
        },
    }
}

/// Builds the deterministic stub artifact for a witness and commitments: the
/// proof and the public outputs are both the BLAKE3 digest of the stub
/// buffer, and the backend is marked as the stub.
pub fn stub_proof(program_id: ProgramId, witness: Vec<u8>, commitments: Option<Commitments>) -> (r:
    ProofArtifact)
    ensures
        r@.program_id == program_id@,
        r@.proof == stub_digest(witness@, view_opt_commitments(commitments)),
        r@.public_outputs == stub_digest(witness@, view_opt_commitments(commitments)),
        r@.commitments == view_opt_commitments(commitments),
        r@.backend == stub_backend_name(),
        r@.verification_key is None,
{
    let mut buf = witness;
    match &commitments {
        None => {},
        Some(c) => {
            extend_opt_root(&mut buf, &c.state_root);
            extend_opt_root(&mut buf, &c.da_root);
            extend_opt_root(&mut buf, &c.events_root);
            extend_opt_root(&mut buf, &c.domain_root);
        },
    }
    let digest = blake3_commit(&buf);
    let outputs = blake3_commit(&buf);
    let mut backend: Vec<u8> = Vec::new();
    backend.push(115u8);
    backend.push(116u8);
    backend.push(117u8);
    backend.push(98u8);
    proof {
        assert(backend@ =~= stub_backend_name());
    }
    ProofArtifact {
        backend,
        program_id,
        proof: digest,
        public_outputs: outputs,
        commitments,
        verification_key: None,
    }
}

/// The backend label of stub artifacts: the bytes of "stub".
pub open spec fn stub_backend_name() -> Seq<u8> {
    seq![115u8, 116u8, 117u8, 98u8]
}

} // verus!
