//! Execution domains: per-domain key-value state with inbox, outbox and
//! message nonces, a deterministic state root, and the runtime that registers
//! domains, relays cross-domain messages and applies virtual-machine receipts.

use vstd::prelude::*;

use crate::bytes::views_of;
use crate::codec::{
    copy_bytes, enc_bytes, enc_opt_u64, enc_u128, enc_u64, senc_bytes, senc_opt_u64, senc_u128,
    senc_u64, vec_len_bound,
};
use crate::crypto::{blake3_hash, blake3_of};
use crate::errors::ExecError;
use crate::root::{fold_leaves, spec_fold_leaves};
use crate::state::{DomainEntry, DomainType};
use vstd::pervasive::VecAdditionalExecFns;

verus! {

/// A call into one domain's virtual machine.
#[derive(Debug)]
pub struct DomainCall {
    pub domain_id: u128,
    pub payload: Vec<u8>,
    pub raw: Vec<u8>,
    pub max_gas: Option<u64>,
}

/// Ghost mirror of `DomainCall`.
pub ghost struct DomainCallV {
    pub domain_id: u128,
    pub payload: Seq<u8>,
    pub raw: Seq<u8>,
    pub max_gas: Option<u64>,
}

impl View for DomainCall {
    type V = DomainCallV;

    open spec fn view(&self) -> DomainCallV {
        DomainCallV {
            domain_id: self.domain_id,
            payload: self.payload@,
            raw: self.raw@,
            max_gas: self.max_gas,
        }
    }
}

/// A message on its way from one domain's outbox to another's inbox.
#[derive(Debug)]
pub struct CrossDomainMessage {
    pub from: u128,
    pub to: u128,
    pub nonce: u64,
    pub fee: u128,
    pub payload: Vec<u8>,
}

/// Ghost mirror of `CrossDomainMessage`.
pub ghost struct CrossDomainMessageV {
    pub from: u128,
    pub to: u128,
    pub nonce: u64,
    pub fee: u128,
    pub payload: Seq<u8>,
}

impl View for CrossDomainMessage {
    type V = CrossDomainMessageV;

    open spec fn view(&self) -> CrossDomainMessageV {
        CrossDomainMessageV {
            from: self.from,
            to: self.to,
            nonce: self.nonce,
            fee: self.fee,
            payload: self.payload@,
        }
    }
}

/// Copies a cross-domain message.
pub fn copy_message(m: &CrossDomainMessage) -> (r: CrossDomainMessage)
    ensures
        r@ == m@,
{
    let mut payload: Vec<u8> = Vec::new();
    copy_bytes(&mut payload, &m.payload);
    proof {
        assert(payload@ =~= m.payload@);
    }
    CrossDomainMessage { from: m.from, to: m.to, nonce: m.nonce, fee: m.fee, payload }
}

/// One key-value pair of a domain's store.
#[derive(Debug)]
pub struct KvEntry {
    pub key: Vec<u8>,
    pub value: Vec<u8>,
}

/// A domain's state: a keyed store, the message boxes, and the next nonces.
#[derive(Debug)]
pub struct DomainState {
    pub kv: Vec<KvEntry>,
    pub inbox: Vec<CrossDomainMessage>,
    pub outbox: Vec<CrossDomainMessage>,
    pub next_out_nonce: u64,
    pub next_in_nonce: u64,
}

/// The canonical bytes of one key-value leaf: the key followed by the value.
pub open spec fn senc_kv(e: KvEntry) -> Seq<u8> {
    senc_bytes(e.key@) + senc_bytes(e.value@)
}

/// The canonical bytes of one cross-domain message.
pub open spec fn senc_message(m: CrossDomainMessageV) -> Seq<u8> {
    senc_u128(m.from) + senc_u128(m.to) + senc_u64(m.nonce) + senc_u128(m.fee) + senc_bytes(
        m.payload,
    )
}

/// Appends the canonical bytes of one cross-domain message.
pub fn enc_message(out: &mut Vec<u8>, m: &CrossDomainMessage)
    ensures
        final(out)@ == old(out)@ + senc_message(m@),
{
    enc_u128(out, m.from);
    enc_u128(out, m.to);
    enc_u64(out, m.nonce);
    enc_u128(out, m.fee);
    proof {
        vec_len_bound(&m.payload);
    }
    enc_bytes(out, &m.payload);
    proof {
        assert(out@ =~= old(out)@ + senc_message(m@));
    }
}

pub open spec fn kv_leaf_of(e: KvEntry) -> Seq<u8> {
    blake3_of(senc_kv(e))
}

pub open spec fn message_leaf_of(m: CrossDomainMessage) -> Seq<u8> {
    blake3_of(senc_message(m@))
}

pub open spec fn kv_leaves(s: Seq<KvEntry>) -> Seq<Seq<u8>> {
    s.map_values(|e: KvEntry| kv_leaf_of(e))
}

pub open spec fn message_leaves(s: Seq<CrossDomainMessage>) -> Seq<Seq<u8>> {
    s.map_values(|m: CrossDomainMessage| message_leaf_of(m))
}

/// Every leaf of a domain state: key-value pairs, inbox and outbox messages,
/// and the two nonces.
pub open spec fn domain_state_leaves(s: DomainState) -> Seq<Seq<u8>> {
    kv_leaves(s.kv@) + message_leaves(s.inbox@) + message_leaves(s.outbox@) + seq![
        blake3_of(senc_u64(s.next_out_nonce)),
        blake3_of(senc_u64(s.next_in_nonce)),
    ]
}

/// The root committing to a domain state.
pub open spec fn spec_domain_root(s: DomainState) -> Seq<u8> {
    spec_fold_leaves(domain_state_leaves(s))
}

impl DomainState {
    /// A fresh domain state.
    pub fn empty() -> (r: DomainState)
        ensures
            r.kv@.len() == 0,
            r.inbox@.len() == 0,
            r.outbox@.len() == 0,
            r.next_out_nonce == 0,
            r.next_in_nonce == 0,
    {
        DomainState {
            kv: Vec::new(),
            inbox: Vec::new(),
            outbox: Vec::new(),
            next_out_nonce: 0,
            next_in_nonce: 0,
        }
    }

    /// Computes the root of this domain state.
    pub fn root(&self) -> (r: Vec<u8>)
        ensures
            r@ == spec_domain_root(*self),
            r@.len() == 32,
    {
        let mut leaves: Vec<Vec<u8>> = Vec::new();
        proof {
            assert(views_of(leaves@) =~= Seq::<Seq<u8>>::empty());
        }
        push_kv_leaves(&mut leaves, &self.kv);
        push_message_leaves(&mut leaves, &self.inbox);
        push_message_leaves(&mut leaves, &self.outbox);
        let mut out_nonce_bytes: Vec<u8> = Vec::new();
        enc_u64(&mut out_nonce_bytes, self.next_out_nonce);
        proof {
            assert(out_nonce_bytes@ =~= senc_u64(self.next_out_nonce));
        }
        leaves.push(blake3_hash(&out_nonce_bytes));
        let mut in_nonce_bytes: Vec<u8> = Vec::new();
        enc_u64(&mut in_nonce_bytes, self.next_in_nonce);
        proof {
            assert(in_nonce_bytes@ =~= senc_u64(self.next_in_nonce));
        }
        leaves.push(blake3_hash(&in_nonce_bytes));
        proof {
            assert(views_of(leaves@) =~= domain_state_leaves(*self));
        }
        fold_leaves(leaves)
    }
}

fn push_kv_leaves(leaves: &mut Vec<Vec<u8>>, items: &Vec<KvEntry>)
    ensures
        views_of(final(leaves)@) == views_of(old(leaves)@) + kv_leaves(items@),
{
    let n = items.len();
    let mut i: usize = 0;
    proof {
        assert(views_of(leaves@) =~= views_of(old(leaves)@) + kv_leaves(items@).take(0));
    }
    while i < n
        invariant
            i <= n,
            n == items@.len(),
            views_of(leaves@) == views_of(old(leaves)@) + kv_leaves(items@).take(i as int),
        decreases n - i,
    {
        let ghost pre_push = leaves@;
        let mut encoded: Vec<u8> = Vec::new();
        proof {
            vec_len_bound(&items@[i as int].key);
            vec_len_bound(&items@[i as int].value);
        }
        enc_bytes(&mut encoded, &items[i].key);
        enc_bytes(&mut encoded, &items[i].value);
        proof {
            assert(encoded@ =~= senc_kv(items@[i as int]));
        }
        let hashed = blake3_hash(&encoded);
        let ghost h = hashed@;
        leaves.push(hashed);
        proof {
            assert(h == kv_leaf_of(items@[i as int]));
            assert(views_of(leaves@) =~= views_of(pre_push).push(h));
            assert(kv_leaves(items@).take(i as int + 1) =~= kv_leaves(items@).take(i as int).push(
                kv_leaf_of(items@[i as int]),
            ));
            assert(views_of(pre_push).push(h) =~= views_of(old(leaves)@) + kv_leaves(items@).take(
                i as int + 1,
            ));
        }
        i += 1;
    }
    proof {
        assert(kv_leaves(items@).take(n as int) =~= kv_leaves(items@));
    }
}

fn push_message_leaves(leaves: &mut Vec<Vec<u8>>, items: &Vec<CrossDomainMessage>)
    ensures
        views_of(final(leaves)@) == views_of(old(leaves)@) + message_leaves(items@),
{
    let n = items.len();
    let mut i: usize = 0;
    proof {
        assert(views_of(leaves@) =~= views_of(old(leaves)@) + message_leaves(items@).take(0));
    }
    while i < n
        invariant
            i <= n,
            n == items@.len(),
            views_of(leaves@) == views_of(old(leaves)@) + message_leaves(items@).take(i as int),
        decreases n - i,
    {
        let ghost pre_push = leaves@;
        let mut encoded: Vec<u8> = Vec::new();
        enc_message(&mut encoded, &items[i]);
        proof {
            assert(encoded@ =~= senc_message(items@[i as int]@));
        }
        let hashed = blake3_hash(&encoded);
        let ghost h = hashed@;
        leaves.push(hashed);
        proof {
            assert(h == message_leaf_of(items@[i as int]));
            assert(views_of(leaves@) =~= views_of(pre_push).push(h));
            assert(message_leaves(items@).take(i as int + 1) =~= message_leaves(items@).take(
                i as int,
            ).push(message_leaf_of(items@[i as int])));
            assert(views_of(pre_push).push(h) =~= views_of(old(leaves)@) + message_leaves(
                items@,
            ).take(i as int + 1));
        }
        i += 1;
    }
    proof {
        assert(message_leaves(items@).take(n as int) =~= message_leaves(items@));
    }
}

/// The views of a key-value store.
pub open spec fn kv_views(s: Seq<KvEntry>) -> Seq<(Seq<u8>, Seq<u8>)> {
    s.map_values(|e: KvEntry| (e.key@, e.value@))
}

/// The views of a message list.
pub open spec fn msg_views(s: Seq<CrossDomainMessage>) -> Seq<CrossDomainMessageV> {
    s.map_values(|m: CrossDomainMessage| m@)
}

/// Two domain states hold the same data.
pub open spec fn domain_state_equiv(a: DomainState, b: DomainState) -> bool {
    &&& kv_views(a.kv@) == kv_views(b.kv@)
    &&& msg_views(a.inbox@) == msg_views(b.inbox@)
    &&& msg_views(a.outbox@) == msg_views(b.outbox@)
    &&& a.next_out_nonce == b.next_out_nonce
    &&& a.next_in_nonce == b.next_in_nonce
}

/// Equal data commits to equal roots.
pub proof fn lemma_equiv_states_same_root(a: DomainState, b: DomainState)
    requires
        domain_state_equiv(a, b),
    ensures
        spec_domain_root(a) == spec_domain_root(b),
{
    assert(a.kv@.len() == b.kv@.len()) by {
        assert(kv_views(a.kv@).len() == kv_views(b.kv@).len());
    }
    assert(a.inbox@.len() == b.inbox@.len()) by {
        assert(msg_views(a.inbox@).len() == msg_views(b.inbox@).len());
    }
    assert(a.outbox@.len() == b.outbox@.len()) by {
        assert(msg_views(a.outbox@).len() == msg_views(b.outbox@).len());
    }
    assert(kv_leaves(a.kv@) =~= kv_leaves(b.kv@)) by {
        assert forall|i: int| 0 <= i < a.kv@.len() implies #[trigger] kv_leaves(a.kv@)[i]
            == kv_leaves(b.kv@)[i] by {
            assert(kv_views(a.kv@)[i] == kv_views(b.kv@)[i]);
            assert(kv_views(a.kv@)[i] == (a.kv@[i].key@, a.kv@[i].value@));
            assert(kv_views(b.kv@)[i] == (b.kv@[i].key@, b.kv@[i].value@));
            assert(a.kv@[i].key@ == b.kv@[i].key@ && a.kv@[i].value@ == b.kv@[i].value@);
            assert(senc_kv(a.kv@[i]) == senc_kv(b.kv@[i]));
        }
    }
    assert(message_leaves(a.inbox@) =~= message_leaves(b.inbox@)) by {
        assert forall|i: int| 0 <= i < a.inbox@.len() implies #[trigger] message_leaves(
            a.inbox@,
        )[i] == message_leaves(b.inbox@)[i] by {
            assert(msg_views(a.inbox@)[i] == msg_views(b.inbox@)[i]);
            assert(a.inbox@[i]@ == b.inbox@[i]@);
            assert(senc_message(a.inbox@[i]@) == senc_message(b.inbox@[i]@));
        }
    }
    assert(message_leaves(a.outbox@) =~= message_leaves(b.outbox@)) by {
        assert forall|i: int| 0 <= i < a.outbox@.len() implies #[trigger] message_leaves(
            a.outbox@,
        )[i] == message_leaves(b.outbox@)[i] by {
            assert(msg_views(a.outbox@)[i] == msg_views(b.outbox@)[i]);
            assert(a.outbox@[i]@ == b.outbox@[i]@);
            assert(senc_message(a.outbox@[i]@) == senc_message(b.outbox@[i]@));
        }
    }
    assert(domain_state_leaves(a) =~= domain_state_leaves(b));
}

/// Copies a domain state, datum for datum.
pub fn copy_domain_state(s: &DomainState) -> (r: DomainState)
    ensures
        domain_state_equiv(*s, r),
{
    let mut kv: Vec<KvEntry> = Vec::new();
    let n = s.kv.len();
    let mut i: usize = 0;
    proof {
        assert(kv_views(kv@) =~= kv_views(s.kv@).take(0));
    }
    while i < n
        invariant
            i <= n,
            n == s.kv@.len(),
            kv_views(kv@) == kv_views(s.kv@).take(i as int),
        decreases n - i,
    {
        let ghost pre = kv@;
        let mut key: Vec<u8> = Vec::new();
        copy_bytes(&mut key, &s.kv[i].key);
        let mut value: Vec<u8> = Vec::new();
        copy_bytes(&mut value, &s.kv[i].value);
        let ghost kvv = (key@, value@);
        kv.push(KvEntry { key, value });
        proof {
            assert(kvv == kv_views(s.kv@)[i as int]);
            assert(kv_views(kv@) =~= kv_views(pre).push(kvv));
            assert(kv_views(s.kv@).take(i as int + 1) =~= kv_views(s.kv@).take(i as int).push(kvv));
        }
        i += 1;
    }
    proof {
        assert(kv_views(s.kv@).take(n as int) =~= kv_views(s.kv@));
    }
    let inbox = copy_messages(&s.inbox);
    let outbox = copy_messages(&s.outbox);
    DomainState {
        kv,
        inbox,
        outbox,
        next_out_nonce: s.next_out_nonce,
        next_in_nonce: s.next_in_nonce,
    }
}

/// Copies a message list.
pub fn copy_messages(s: &Vec<CrossDomainMessage>) -> (r: Vec<CrossDomainMessage>)
    ensures
        msg_views(r@) == msg_views(s@),
{
    let mut out: Vec<CrossDomainMessage> = Vec::new();
    let n = s.len();
    let mut i: usize = 0;
    proof {
        assert(msg_views(out@) =~= msg_views(s@).take(0));
    }
    while i < n
        invariant
            i <= n,
            n == s@.len(),
            msg_views(out@) == msg_views(s@).take(i as int),
        decreases n - i,
    {
        let ghost pre = out@;
        let m = copy_message(&s[i]);
        let ghost mv = m@;
        out.push(m);
        proof {
            assert(mv == msg_views(s@)[i as int]);
            assert(msg_views(out@) =~= msg_views(pre).push(mv));
            assert(msg_views(s@).take(i as int + 1) =~= msg_views(s@).take(i as int).push(mv));
        }
        i += 1;
    }
    proof {
        assert(msg_views(s@).take(n as int) =~= msg_views(s@));
    }
    out
}

/// What one domain execution produced: the receipt the runtime applies.
#[derive(Debug)]
pub struct DomainExecutionReceipt {
    pub domain_id: u128,
    pub gas_used: u64,
    pub events: Vec<Vec<u8>>,
    pub proof: Option<Vec<u8>>,
    pub state: DomainState,
}

/// A claim that a domain's canonical root is wrong, with a witness.
#[derive(Debug)]
pub struct FraudProof {
    pub domain_id: u128,
    pub claimed_root: Vec<u8>,
    pub witness: Vec<u8>,
}

/// A domain virtual machine: takes a call and the domain's current state and
/// produces a receipt carrying the next state. Implementations decide the
/// domain's semantics; the runtime only applies what they return.
pub trait DomainVm {
    /// The domain kind this machine runs.
    fn kind(&self) -> DomainType;

    /// Executes one call against the given state; the receipt carries the
    /// next state, and the runtime keeps the old state when execution fails.
    fn execute(
        &self,
        call: &DomainCall,
        chain_id: &Vec<u8>,
        block_height: u64,
        state: &DomainState,
    ) -> Result<DomainExecutionReceipt, ExecError>;
}

/// A built-in deterministic machine: each call stores its payload under the
/// payload's hash and charges the gas the call asked for.
pub struct StoreVm {}

impl DomainVm for StoreVm {
    fn kind(&self) -> DomainType {
        DomainType::Custom
    }

    fn execute(
        &self,
        call: &DomainCall,
        chain_id: &Vec<u8>,
        block_height: u64,
        state: &DomainState,
    ) -> Result<DomainExecutionReceipt, ExecError> {
        let mut next = copy_domain_state(state);
        let key = blake3_hash(&call.payload);
        let mut value: Vec<u8> = Vec::new();
        copy_bytes(&mut value, &call.payload);
        next.kv.push(KvEntry { key, value });
        let gas_used = match call.max_gas {
            Some(g) => g,
            None => 3_000_000,
        };
        let mut event: Vec<u8> = Vec::new();
        enc_u64(&mut event, block_height);
        Ok(
            DomainExecutionReceipt {
                domain_id: call.domain_id,
                gas_used,
                events: vec![event],
                proof: None,
                state: next,
            },
        )
    }
}

/// One domain's registration and live state inside the runtime.
pub struct DomainSlot {
    pub domain_id: u128,
    pub kind: DomainType,
    pub state: DomainState,
}

/// What the runtime reports back to the transaction path after an execution.
#[derive(Debug)]
pub struct DomainOutcome {
    pub domain_id: u128,
    pub state_root: Vec<u8>,
    pub gas_used: u64,
    pub events: Vec<Vec<u8>>,
}

/// Holds every registered domain's state; routes calls and messages.
pub struct DomainRuntime {
    pub slots: Vec<DomainSlot>,
}

/// Whether a slot for the domain exists.
pub open spec fn slot_has(s: Seq<DomainSlot>, id: u128) -> bool {
    exists|i: int| 0 <= i < s.len() && s[i].domain_id == id
}

/// The index of the domain's slot.
pub open spec fn slot_ix(s: Seq<DomainSlot>, id: u128) -> int {
    choose|i: int| 0 <= i < s.len() && s[i].domain_id == id
}

impl DomainRuntime {
    /// A runtime with no domains.
    pub fn new() -> (r: DomainRuntime)
        ensures
            r.slots@.len() == 0,
    {
        DomainRuntime { slots: Vec::new() }
    }

    /// Finds the slot of a domain.
    fn find_slot(&self, id: u128) -> (r: Option<usize>)
        ensures
            match r {
                Some(i) => i < self.slots@.len() && self.slots@[i as int].domain_id == id
                    && forall|j: int| 0 <= j < i ==> self.slots@[j].domain_id != id,
                None => !slot_has(self.slots@, id),
            },
    {
        let n = self.slots.len();
        let mut i: usize = 0;
        while i < n
            invariant
                i <= n,
                n == self.slots@.len(),
                forall|j: int| 0 <= j < i ==> self.slots@[j].domain_id != id,
            decreases n - i,
        {
            if self.slots[i].domain_id == id {
                return Some(i);
            }
            i += 1;
        }
        None
    }

    /// Whether the domain is registered here.
    pub fn has_domain(&self, id: u128) -> (r: bool)
        ensures
            r == slot_has(self.slots@, id),
    {
        match self.find_slot(id) {
            Some(i) => {
                proof {
                    assert(self.slots@[i as int].domain_id == id);
                }
                true
            },
            None => false,
        }
    }

    /// Registers a domain entry; a domain already registered keeps its state.
    pub fn register(&mut self, entry: &DomainEntry) -> (r: Result<(), ExecError>)
        ensures
            match r {
                Ok(()) => slot_has(final(self).slots@, entry.domain_id),
                Err(e) => e == ExecError::UnknownDomain && *final(self) == *old(self),
            },
    {
        match entry.kind {
            DomainType::EvmSharedSecurity | DomainType::Wasm | DomainType::Privacy
                | DomainType::Payment | DomainType::Custom => {},
        }
        if let Some(i) = self.find_slot(entry.domain_id) {
            proof {
                assert(self.slots@[i as int].domain_id == entry.domain_id);
            }
            return Ok(());
        }
        let ghost pre = self.slots@;
        self.slots.push(
            DomainSlot { domain_id: entry.domain_id, kind: entry.kind, state: DomainState::empty() },
        );
        proof {
            assert(self.slots@[pre.len() as int].domain_id == entry.domain_id);
        }
        Ok(())
    }

    /// The next outbox nonce a message from this domain will take.
    pub fn next_out_nonce(&self, id: u128) -> (r: u64)
        ensures
            slot_has(self.slots@, id) ==> exists|k: int|
                0 <= k < self.slots@.len() && self.slots@[k].domain_id == id && r
                    == self.slots@[k].state.next_out_nonce,
            !slot_has(self.slots@, id) ==> r == 0,
    {
        match self.find_slot(id) {
            Some(i) => {
                proof {
                    assert(self.slots@[i as int].domain_id == id);
                    lemma_slot_ix_unique_free(self.slots@, id, i as int);
                }
                self.slots[i].state.next_out_nonce
            },
            None => 0,
        }
    }

    /// The outbox of a domain, in send order.
    pub fn outbox(&self, id: u128) -> (r: Option<&Vec<CrossDomainMessage>>)
        ensures
            match r {
                Some(v) => slot_has(self.slots@, id),
                None => !slot_has(self.slots@, id),
            },
    {
        match self.find_slot(id) {
            Some(i) => {
                proof {
                    assert(self.slots@[i as int].domain_id == id);
                }
                Some(&self.slots[i].state.outbox)
            },
            None => None,
        }
    }

    /// Appends a message to its source domain's outbox and advances the
    /// outbox nonce, saturating; creates the slot when the domain has no
    /// state yet.
    pub fn push_outbox(&mut self, msg: CrossDomainMessage)
        ensures
            slot_has(final(self).slots@, msg.from),
            slot_has(old(self).slots@, msg.from) ==> exists|i: int|
                {
                    &&& 0 <= i < old(self).slots@.len()
                    &&& old(self).slots@[i].domain_id == msg.from
                    &&& (forall|j: int| 0 <= j < i ==> old(self).slots@[j].domain_id != msg.from)
                    &&& final(self).slots@ == old(self).slots@.update(
                        i,
                        final(self).slots@[i],
                    )
                    &&& final(self).slots@[i].domain_id == msg.from
                    &&& final(self).slots@[i].kind == old(self).slots@[i].kind
                    &&& final(self).slots@[i].state.outbox@ == old(self).slots@[i].state.outbox@.push(msg)
                    &&& final(self).slots@[i].state.inbox == old(self).slots@[i].state.inbox
                    &&& final(self).slots@[i].state.kv == old(self).slots@[i].state.kv
                    &&& final(self).slots@[i].state.next_in_nonce == old(self).slots@[i].state.next_in_nonce
                    &&& final(self).slots@[i].state.next_out_nonce == (if old(self).slots@[i].state.next_out_nonce < u64::MAX {
                        (old(self).slots@[i].state.next_out_nonce + 1) as u64
                    } else {
                        old(self).slots@[i].state.next_out_nonce
                    })
                },
            !slot_has(old(self).slots@, msg.from) ==> final(self).slots@ == old(self).slots@.push(
                final(self).slots@.last(),
            ) && final(self).slots@.last().domain_id == msg.from && final(self).slots@.last().state.outbox@.len() == 1 && final(self).slots@.last().state.outbox@[0] == msg && final(self).slots@.last().state.next_out_nonce == 1 && final(self).slots@.last().state.inbox@.len() == 0,
    {
        let from = msg.from;
        let i: usize = match self.find_slot(from) {
            Some(i) => i,
            None => {
                let n = self.slots.len();
                self.slots.push(
                    DomainSlot { domain_id: from, kind: DomainType::Custom, state: DomainState::empty() },
                );
                proof {
                    assert(self.slots@[n as int].domain_id == from);
                }
                n
            },
        };
        let ghost pre = self.slots@;
        let slot = &mut self.slots[i];
        slot.state.outbox.push(msg);
        if slot.state.next_out_nonce < u64::MAX {
            slot.state.next_out_nonce = slot.state.next_out_nonce + 1;
        }
        proof {
            assert(self.slots@ =~= pre.update(i as int, self.slots@[i as int]));
            assert(self.slots@[i as int].domain_id == from);
        }
    }

    /// Appends a message to its destination domain's inbox and advances the
    /// inbox nonce, saturating; creates the slot when the domain has no state
    /// yet.
    pub fn relay_message(&mut self, msg: CrossDomainMessage)
        ensures
            slot_has(final(self).slots@, msg.to),
            slot_has(old(self).slots@, msg.to) ==> exists|i: int|
                {
                    &&& 0 <= i < old(self).slots@.len()
                    &&& old(self).slots@[i].domain_id == msg.to
                    &&& (forall|j: int| 0 <= j < i ==> old(self).slots@[j].domain_id != msg.to)
                    &&& final(self).slots@ == old(self).slots@.update(
                        i,
                        final(self).slots@[i],
                    )
                    &&& final(self).slots@[i].domain_id == msg.to
                    &&& final(self).slots@[i].kind == old(self).slots@[i].kind
                    &&& final(self).slots@[i].state.inbox@ == old(self).slots@[i].state.inbox@.push(msg)
                    &&& final(self).slots@[i].state.outbox == old(self).slots@[i].state.outbox
                    &&& final(self).slots@[i].state.kv == old(self).slots@[i].state.kv
                    &&& final(self).slots@[i].state.next_out_nonce == old(self).slots@[i].state.next_out_nonce
                    &&& final(self).slots@[i].state.next_in_nonce == (if old(self).slots@[i].state.next_in_nonce < u64::MAX {
                        (old(self).slots@[i].state.next_in_nonce + 1) as u64
                    } else {
                        old(self).slots@[i].state.next_in_nonce
                    })
                },
            !slot_has(old(self).slots@, msg.to) ==> final(self).slots@ == old(self).slots@.push(
                final(self).slots@.last(),
            ) && final(self).slots@.last().domain_id == msg.to && final(self).slots@.last().state.inbox@.len() == 1 && final(self).slots@.last().state.inbox@[0]
                == msg && final(self).slots@.last().state.next_in_nonce == 1 && final(self).slots@.last().state.outbox@.len() == 0,
    {
        let to = msg.to;
        let i: usize = match self.find_slot(to) {
            Some(i) => i,
            None => {
                let n = self.slots.len();
                self.slots.push(
                    DomainSlot { domain_id: to, kind: DomainType::Custom, state: DomainState::empty() },
                );
                proof {
                    assert(self.slots@[n as int].domain_id == to);
                }
                n
            },
        };
        let ghost pre = self.slots@;
        let slot = &mut self.slots[i];
        slot.state.inbox.push(msg);
        if slot.state.next_in_nonce < u64::MAX {
            slot.state.next_in_nonce = slot.state.next_in_nonce + 1;
        }
        proof {
            assert(self.slots@ =~= pre.update(i as int, self.slots@[i as int]));
            assert(self.slots@[i as int].domain_id == to);
        }
    }

    /// The current root of a domain's state; the empty state's root when the
    /// domain holds none.
    pub fn latest_root(&self, id: u128) -> (r: Vec<u8>)
        ensures
            r@.len() == 32,
            slot_has(self.slots@, id) ==> exists|k: int|
                0 <= k < self.slots@.len() && self.slots@[k].domain_id == id && r@
                    == spec_domain_root(self.slots@[k].state),
    {
        match self.find_slot(id) {
            Some(i) => {
                proof {
                    assert(self.slots@[i as int].domain_id == id);
                    lemma_slot_ix_unique_free(self.slots@, id, i as int);
                }
                self.slots[i].state.root()
            },
            None => {
                let empty = DomainState::empty();
                empty.root()
            },
        }
    }

    /// Rejects a fraud claim whose root is already canonical; accepts any
    /// other well-formed claim for follow-up.
    pub fn submit_fraud_proof(&self, proof_claim: &FraudProof) -> (r: Result<(), ExecError>)
        ensures
            r matches Err(e) ==> e == ExecError::FraudProofRejected,
    {
        let current = self.latest_root(proof_claim.domain_id);
        if crate::bytes::bytes_eq(&current, &proof_claim.claimed_root) {
            Err(ExecError::FraudProofRejected)
        } else {
            Ok(())
        }
    }

    /// Runs one call on the domain's machine and applies the receipt: the
    /// machine sees the stored state by reference, the state it returns
    /// replaces the stored one, and the outcome reports the new root, the gas
    /// used and the machine's events. When the machine fails, an existing
    /// domain's state is left exactly as it was.
    pub fn execute<V: DomainVm>(
        &mut self,
        vm: &V,
        call: &DomainCall,
        chain_id: &Vec<u8>,
        block_height: u64,
    ) -> (r: Result<DomainOutcome, ExecError>)
        ensures
            slot_has(final(self).slots@, call.domain_id),
            match r {
                Ok(o) => o.domain_id == call.domain_id && o.state_root@.len() == 32 && exists|
                    i: int,
                |
                    {
                        &&& 0 <= i < final(self).slots@.len()
                        &&& final(self).slots@[i].domain_id == call.domain_id
                        &&& o.state_root@ == spec_domain_root(final(self).slots@[i].state)
                        &&& (slot_has(old(self).slots@, call.domain_id) ==> i < old(self).slots@.len() && final(self).slots@ == old(self).slots@.update(
                            i,
                            final(self).slots@[i],
                        ))
                        &&& (!slot_has(old(self).slots@, call.domain_id) ==> i == old(self).slots@.len() && final(self).slots@ == old(self).slots@.push(
                            final(self).slots@[i],
                        ))
                    },
                Err(_) => (slot_has(old(self).slots@, call.domain_id) ==> *final(self) == *old(self)) && (!slot_has(old(self).slots@, call.domain_id) ==> final(self).slots@ == old(self).slots@.push(final(self).slots@.last()) && final(self).slots@.last().domain_id
                    == call.domain_id),
            },
    {
        let id = call.domain_id;
        let i: usize = match self.find_slot(id) {
            Some(i) => i,
            None => {
                let n = self.slots.len();
                self.slots.push(
                    DomainSlot { domain_id: id, kind: DomainType::Custom, state: DomainState::empty() },
                );
                n
            },
        };
        proof {
            assert(self.slots@[i as int].domain_id == id);
        }
        let ghost created = self.slots@;
        let receipt = match vm.execute(call, chain_id, block_height, &self.slots[i].state) {
            Ok(receipt) => receipt,
            Err(e) => {
                return Err(e);
            },
        };
        let DomainExecutionReceipt { domain_id: _, gas_used, events, proof: _, state: new_state } =
            receipt;
        let root = new_state.root();
        let ghost root_v = root@;
        let ghost new_state_g = new_state;
        let slot = &mut self.slots[i];
        slot.state = new_state;
        proof {
            assert(self.slots@ =~= created.update(i as int, self.slots@[i as int]));
            assert(self.slots@[i as int].domain_id == id);
            assert(self.slots@[i as int].state == new_state_g);
        }
        Ok(DomainOutcome { domain_id: id, state_root: root, gas_used, events })
    }
}

/// When a slot with the id exists at `i`, the chosen index is some slot with
/// the same id; without uniqueness only existence is claimed.
proof fn lemma_slot_ix_unique_free(s: Seq<DomainSlot>, id: u128, i: int)
    requires
        0 <= i < s.len(),
        s[i].domain_id == id,
    ensures
        slot_has(s, id),
        0 <= slot_ix(s, id) < s.len(),
        s[slot_ix(s, id)].domain_id == id,
{
    assert(slot_has(s, id));
}

} // verus!
