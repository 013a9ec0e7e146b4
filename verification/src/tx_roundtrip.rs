//! The transaction round trip, proved end to end: decoding the canonical
//! bytes of any transaction yields exactly that transaction, and so a decoded
//! transaction verifies for the same sender the original signed for.

use vstd::prelude::*;

use crate::codec::{
    lemma_sdec_bytes, lemma_sdec_opt_u128, lemma_sdec_u64, lemma_subrange_piece, senc_bytes,
    senc_opt_u128, senc_u64,
};
use crate::tx::{TxV, senc_payload, senc_tx, senc_tx_core};
use crate::tx_codec::{
    lemma_sdec_payload, payload_wf, sdec_tx, sdec_tx_core, sdec_tx_head, tx_v_wf,
};

verus! {

/// The head of a transaction's encoding: the scalar fields come first.
pub open spec fn senc_tx_head(t: TxV) -> Seq<u8> {
    senc_bytes(t.chain_id) + senc_u64(t.nonce) + senc_u64(t.gas_limit) + senc_opt_u128(t.max_fee)
        + senc_opt_u128(t.max_priority_fee) + senc_opt_u128(t.gas_price)
}

#[verifier::rlimit(100)]
#[verifier::spinoff_prover]
proof fn lemma_sdec_tx_head(t: TxV)
    requires
        tx_v_wf(t),
    ensures
        sdec_tx_head(senc_tx(t)) == Some(
            (
                (t.chain_id, t.nonce, t.gas_limit, t.max_fee, t.max_priority_fee, t.gas_price),
                senc_tx_head(t).len() as int,
            ),
        ),
{
    reveal(crate::tx_codec::sdec_tx_head);
    let s = senc_tx(t);
    let core = senc_tx_core(t);
    let head = senc_tx_head(t);
    let e1 = senc_bytes(t.chain_id);
    let e2 = senc_u64(t.nonce);
    let e3 = senc_u64(t.gas_limit);
    let e4 = senc_opt_u128(t.max_fee);
    let e5 = senc_opt_u128(t.max_priority_fee);
    let e6 = senc_opt_u128(t.gas_price);
    let o1 = e1.len() as int;
    let o2 = o1 + e2.len();
    let o3 = o2 + e3.len();
    let o4 = o3 + e4.len();
    let o5 = o4 + e5.len();
    let o6 = o5 + e6.len();
    assert(head == e1 + e2 + e3 + e4 + e5 + e6);
    assert(core == head + senc_payload(t.payload) + senc_bytes(t.public_key));
    assert(s == core + senc_bytes(t.signature));
    assert(o6 == head.len());
    assert(s.subrange(0, s.len() as int) =~= s);
    lemma_subrange_piece(s, 0, s, 0, core.len() as int);
    assert(s.subrange(0, core.len() as int) =~= core);
    lemma_subrange_piece(s, 0, core, 0, o6);
    assert(core.subrange(0, o6) =~= head);
    lemma_subrange_piece(s, 0, head, 0, o1);
    assert(head.subrange(0, o1) =~= e1);
    lemma_sdec_bytes(s, 0, t.chain_id);
    lemma_subrange_piece(s, 0, head, o1, o2);
    assert(head.subrange(o1, o2) =~= e2);
    lemma_sdec_u64(s, o1, t.nonce);
    lemma_subrange_piece(s, 0, head, o2, o3);
    assert(head.subrange(o2, o3) =~= e3);
    lemma_sdec_u64(s, o2, t.gas_limit);
    lemma_subrange_piece(s, 0, head, o3, o4);
    assert(head.subrange(o3, o4) =~= e4);
    lemma_sdec_opt_u128(s, o3, t.max_fee);
    lemma_subrange_piece(s, 0, head, o4, o5);
    assert(head.subrange(o4, o5) =~= e5);
    lemma_sdec_opt_u128(s, o4, t.max_priority_fee);
    lemma_subrange_piece(s, 0, head, o5, o6);
    assert(head.subrange(o5, o6) =~= e6);
    lemma_sdec_opt_u128(s, o5, t.gas_price);
}

/// The core fields decode back from the signing prefix of the wire bytes.
#[verifier::rlimit(100)]
#[verifier::spinoff_prover]
proof fn lemma_sdec_tx_core(t: TxV)
    requires
        tx_v_wf(t),
    ensures
        sdec_tx_core(senc_tx(t)) == Some(
            (
                (
                    t.chain_id,
                    t.nonce,
                    t.gas_limit,
                    t.max_fee,
                    t.max_priority_fee,
                    t.gas_price,
                    t.payload,
                    t.public_key,
                ),
                senc_tx_core(t).len() as int,
            ),
        ),
{
    reveal(crate::tx_codec::sdec_tx_core);
    lemma_sdec_tx_head(t);
    let s = senc_tx(t);
    let core = senc_tx_core(t);
    let head = senc_tx_head(t);
    let e7 = senc_payload(t.payload);
    let e8 = senc_bytes(t.public_key);
    let o6 = head.len() as int;
    let o7 = o6 + e7.len();
    let o8 = o7 + e8.len();
    assert(core == head + e7 + e8);
    assert(o8 == core.len());
    assert(s.subrange(0, s.len() as int) =~= s);
    lemma_subrange_piece(s, 0, s, 0, core.len() as int);
    assert(s.subrange(0, core.len() as int) =~= core);
    lemma_subrange_piece(s, 0, core, o6, o7);
    assert(core.subrange(o6, o7) =~= e7);
    lemma_sdec_payload(s, o6, t.payload);
    lemma_subrange_piece(s, 0, core, o7, o8);
    assert(core.subrange(o7, o8) =~= e8);
    lemma_sdec_bytes(s, o7, t.public_key);
}

/// The transaction round trip: decoding the canonical bytes of a transaction
/// yields exactly that transaction, so the decoded transaction signs, hashes
/// and identifies its sender just as the original does.
#[verifier::rlimit(100)]
#[verifier::spinoff_prover]
pub proof fn lemma_tx_roundtrip(t: TxV)
    requires
        tx_v_wf(t),
    ensures
        sdec_tx(senc_tx(t)) == Some(t),
        crate::tx::spec_tx_sender(t) == spec_decoded_sender(senc_tx(t)),
{
    reveal(crate::tx_codec::sdec_tx);
    lemma_sdec_tx_core(t);
    let s = senc_tx(t);
    let core = senc_tx_core(t);
    let e9 = senc_bytes(t.signature);
    let o8 = core.len() as int;
    let o9 = o8 + e9.len();
    assert(s =~= core + e9);
    assert(s.subrange(0, s.len() as int) =~= s);
    lemma_subrange_piece(s, 0, s, o8, o9);
    assert(s.subrange(o8, o9) =~= e9);
    lemma_sdec_bytes(s, o8, t.signature);
    assert(o9 == s.len());
    assert(TxV {
        chain_id: t.chain_id,
        nonce: t.nonce,
        gas_limit: t.gas_limit,
        max_fee: t.max_fee,
        max_priority_fee: t.max_priority_fee,
        gas_price: t.gas_price,
        payload: t.payload,
        public_key: t.public_key,
        signature: t.signature,
    } == t);
}

/// The sender a decoded buffer acts for; meaningful when it decodes at all.
pub open spec fn spec_decoded_sender(s: Seq<u8>) -> Seq<u8> {
    match sdec_tx(s) {
        Some(t) => crate::tx::spec_tx_sender(t),
        None => Seq::empty(),
    }
}

} // verus!
