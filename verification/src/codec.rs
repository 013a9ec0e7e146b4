//! Canonical fixed encoding: little-endian integers, length-prefixed byte
//! strings, and tagged options. Every structure the chain signs, hashes or
//! ships on the wire is written through these primitives, and the decoders
//! are proved to be their exact inverses.

use vstd::prelude::*;

verus! {

/// What a `Vec` holds always fits the machine word, and so the 64-bit length
/// prefix of the canonical encoding.
pub proof fn vec_len_bound<T>(v: &Vec<T>)
    ensures
        v@.len() <= usize::MAX,
        v@.len() <= u64::MAX,
{
    broadcast use vstd::std_specs::vec::axiom_spec_len;

    assert(vstd::std_specs::vec::spec_vec_len(v) == v@.len());
}

// ---------------------------------------------------------------------------
// Specification-level encoders.
// ---------------------------------------------------------------------------

pub open spec fn senc_u8(v: u8) -> Seq<u8> {
    seq![v]
}

pub open spec fn senc_u16(v: u16) -> Seq<u8> {
    seq![v as u8, (v >> 8) as u8]
}

pub open spec fn senc_u32(v: u32) -> Seq<u8> {
    seq![v as u8, (v >> 8) as u8, (v >> 16) as u8, (v >> 24) as u8]
}

/// Byte `i` of a little-endian 64-bit value.
#[verifier::opaque]
pub open spec fn u64_byte(v: u64, i: int) -> u8 {
    (v >> (8 * i)) as u8
}

/// Byte `i` of a little-endian 128-bit value.
#[verifier::opaque]
pub open spec fn u128_byte(v: u128, i: int) -> u8 {
    (v >> (8 * i)) as u8
}

pub open spec fn senc_u64(v: u64) -> Seq<u8> {
    Seq::new(8, |i: int| u64_byte(v, i))
}

pub open spec fn senc_u128(v: u128) -> Seq<u8> {
    Seq::new(16, |i: int| u128_byte(v, i))
}

pub open spec fn senc_bool(v: bool) -> Seq<u8> {
    seq![if v { 1u8 } else { 0u8 }]
}

pub open spec fn senc_bytes(b: Seq<u8>) -> Seq<u8> {
    senc_u64(b.len() as u64) + b
}

pub open spec fn senc_opt_u64(v: Option<u64>) -> Seq<u8> {
    match v {
        None => seq![0u8],
        Some(x) => seq![1u8] + senc_u64(x),
    }
}

pub open spec fn senc_opt_u128(v: Option<u128>) -> Seq<u8> {
    match v {
        None => seq![0u8],
        Some(x) => seq![1u8] + senc_u128(x),
    }
}

pub open spec fn senc_opt_bytes(v: Option<Seq<u8>>) -> Seq<u8> {
    match v {
        None => seq![0u8],
        Some(b) => seq![1u8] + senc_bytes(b),
    }
}

// ---------------------------------------------------------------------------
// Specification-level decoders. Each reads at a position and yields the value
// together with the position after it, or nothing when the bytes do not fit.
// ---------------------------------------------------------------------------

pub open spec fn sdec_u8(s: Seq<u8>, pos: int) -> Option<(u8, int)> {
    if 0 <= pos && pos + 1 <= s.len() {
        Some((s[pos], pos + 1))
    } else {
        None
    }
}

pub open spec fn sdec_u16(s: Seq<u8>, pos: int) -> Option<(u16, int)> {
    if 0 <= pos && pos + 2 <= s.len() {
        Some(((s[pos] as u16) | (s[pos + 1] as u16) << 8, pos + 2))
    } else {
        None
    }
}

pub open spec fn sdec_u32(s: Seq<u8>, pos: int) -> Option<(u32, int)> {
    if 0 <= pos && pos + 4 <= s.len() {
        Some(
            (
                (s[pos] as u32) | (s[pos + 1] as u32) << 8 | (s[pos + 2] as u32) << 16 | (s[pos + 3]
                    as u32) << 24,
                pos + 4,
            ),
        )
    } else {
        None
    }
}

pub open spec fn sdec_u64(s: Seq<u8>, pos: int) -> Option<(u64, int)> {
    if 0 <= pos && pos + 8 <= s.len() {
        Some(
            (
                (s[pos] as u64) | (s[pos + 1] as u64) << 8 | (s[pos + 2] as u64) << 16 | (s[pos + 3]
                    as u64) << 24 | (s[pos + 4] as u64) << 32 | (s[pos + 5] as u64) << 40 | (s[pos
                    + 6] as u64) << 48 | (s[pos + 7] as u64) << 56,
                pos + 8,
            ),
        )
    } else {
        None
    }
}

pub open spec fn sdec_u128(s: Seq<u8>, pos: int) -> Option<(u128, int)> {
    if 0 <= pos && pos + 16 <= s.len() {
        Some(
            (
                (s[pos] as u128) | (s[pos + 1] as u128) << 8 | (s[pos + 2] as u128) << 16 | (s[pos
                    + 3] as u128) << 24 | (s[pos + 4] as u128) << 32 | (s[pos + 5] as u128) << 40 | (
                s[pos + 6] as u128) << 48 | (s[pos + 7] as u128) << 56 | (s[pos + 8] as u128) << 64
                    | (s[pos + 9] as u128) << 72 | (s[pos + 10] as u128) << 80 | (s[pos + 11]
                    as u128) << 88 | (s[pos + 12] as u128) << 96 | (s[pos + 13] as u128) << 104 | (
                s[pos + 14] as u128) << 112 | (s[pos + 15] as u128) << 120,
                pos + 16,
            ),
        )
    } else {
        None
    }
}

pub open spec fn sdec_bool(s: Seq<u8>, pos: int) -> Option<(bool, int)> {
    match sdec_u8(s, pos) {
        None => None,
        Some((t, p)) => if t == 0 {
            Some((false, p))
        } else if t == 1 {
            Some((true, p))
        } else {
            None
        },
    }
}

pub open spec fn sdec_bytes(s: Seq<u8>, pos: int) -> Option<(Seq<u8>, int)> {
    match sdec_u64(s, pos) {
        None => None,
        Some((n, p)) => if p + n <= s.len() {
            Some((s.subrange(p, p + n), p + n))
        } else {
            None
        },
    }
}

pub open spec fn sdec_opt_u64(s: Seq<u8>, pos: int) -> Option<(Option<u64>, int)> {
    match sdec_u8(s, pos) {
        None => None,
        Some((t, p)) => if t == 0 {
            Some((None, p))
        } else if t == 1 {
            match sdec_u64(s, p) {
                None => None,
                Some((v, q)) => Some((Some(v), q)),
            }
        } else {
            None
        },
    }
}

pub open spec fn sdec_opt_u128(s: Seq<u8>, pos: int) -> Option<(Option<u128>, int)> {
    match sdec_u8(s, pos) {
        None => None,
        Some((t, p)) => if t == 0 {
            Some((None, p))
        } else if t == 1 {
            match sdec_u128(s, p) {
                None => None,
                Some((v, q)) => Some((Some(v), q)),
            }
        } else {
            None
        },
    }
}

pub open spec fn sdec_opt_bytes(s: Seq<u8>, pos: int) -> Option<(Option<Seq<u8>>, int)> {
    match sdec_u8(s, pos) {
        None => None,
        Some((t, p)) => if t == 0 {
            Some((None, p))
        } else if t == 1 {
            match sdec_bytes(s, p) {
                None => None,
                Some((v, q)) => Some((Some(v), q)),
            }
        } else {
            None
        },
    }
}

/// When the bytes at `pos` hold the concatenation `e`, any slice of `e`
/// stands at the corresponding offset in `s`.
pub proof fn lemma_subrange_piece(s: Seq<u8>, pos: int, e: Seq<u8>, a: int, b: int)
    requires
        0 <= pos,
        pos + e.len() <= s.len(),
        s.subrange(pos, pos + e.len() as int) == e,
        0 <= a <= b <= e.len(),
    ensures
        s.subrange(pos + a, pos + b) == e.subrange(a, b),
{
    assert forall|j: int| 0 <= j < b - a implies s.subrange(pos + a, pos + b)[j] == e.subrange(
        a,
        b,
    )[j] by {
        assert(s[pos + a + j] == s.subrange(pos, pos + e.len() as int)[a + j]);
    }
    assert(s.subrange(pos + a, pos + b) =~= e.subrange(a, b));
}

// ---------------------------------------------------------------------------
// Round-trip lemmas: decoding at a position whose bytes hold an encoding
// recovers the encoded value and stops right after it.
// ---------------------------------------------------------------------------

pub proof fn lemma_sdec_u8(s: Seq<u8>, pos: int, v: u8)
    requires
        0 <= pos,
        pos + 1 <= s.len(),
        s.subrange(pos, pos + 1) == senc_u8(v),
    ensures
        sdec_u8(s, pos) == Some((v, pos + 1)),
{
    assert(s[pos] == s.subrange(pos, pos + 1)[0]);
}

pub proof fn lemma_sdec_u16(s: Seq<u8>, pos: int, v: u16)
    requires
        0 <= pos,
        pos + 2 <= s.len(),
        s.subrange(pos, pos + 2) == senc_u16(v),
    ensures
        sdec_u16(s, pos) == Some((v, pos + 2)),
{
    assert(s[pos] == senc_u16(v)[0] && s[pos + 1] == senc_u16(v)[1]) by {
        assert(s[pos] == s.subrange(pos, pos + 2)[0]);
        assert(s[pos + 1] == s.subrange(pos, pos + 2)[1]);
    }
    let b0 = v as u8;
    let b1 = (v >> 8) as u8;
    assert((b0 as u16) | (b1 as u16) << 8 == v) by (bit_vector)
        requires
            b0 == v as u8,
            b1 == (v >> 8) as u8,
    ;
}

pub proof fn lemma_sdec_u32(s: Seq<u8>, pos: int, v: u32)
    requires
        0 <= pos,
        pos + 4 <= s.len(),
        s.subrange(pos, pos + 4) == senc_u32(v),
    ensures
        sdec_u32(s, pos) == Some((v, pos + 4)),
{
    assert forall|k: int| 0 <= k < 4 implies s[pos + k] == senc_u32(v)[k] by {
        assert(s[pos + k] == s.subrange(pos, pos + 4)[k]);
    }
    let b0 = v as u8;
    let b1 = (v >> 8) as u8;
    let b2 = (v >> 16) as u8;
    let b3 = (v >> 24) as u8;
    assert((b0 as u32) | (b1 as u32) << 8 | (b2 as u32) << 16 | (b3 as u32) << 24 == v)
        by (bit_vector)
        requires
            b0 == v as u8,
            b1 == (v >> 8) as u8,
            b2 == (v >> 16) as u8,
            b3 == (v >> 24) as u8,
    ;
}

pub proof fn lemma_sdec_u64(s: Seq<u8>, pos: int, v: u64)
    requires
        0 <= pos,
        pos + 8 <= s.len(),
        s.subrange(pos, pos + 8) == senc_u64(v),
    ensures
        sdec_u64(s, pos) == Some((v, pos + 8)),
{
    reveal(u64_byte);
    assert(s[pos + 0] == s.subrange(pos, pos + 8)[0]);
    assert(s.subrange(pos, pos + 8)[0] == u64_byte(v, 0));
    assert(u64_byte(v, 0) == (v >> 0) as u8);
    assert(s[pos + 1] == s.subrange(pos, pos + 8)[1]);
    assert(s.subrange(pos, pos + 8)[1] == u64_byte(v, 1));
    assert(u64_byte(v, 1) == (v >> 8) as u8);
    assert(s[pos + 2] == s.subrange(pos, pos + 8)[2]);
    assert(s.subrange(pos, pos + 8)[2] == u64_byte(v, 2));
    assert(u64_byte(v, 2) == (v >> 16) as u8);
    assert(s[pos + 3] == s.subrange(pos, pos + 8)[3]);
    assert(s.subrange(pos, pos + 8)[3] == u64_byte(v, 3));
    assert(u64_byte(v, 3) == (v >> 24) as u8);
    assert(s[pos + 4] == s.subrange(pos, pos + 8)[4]);
    assert(s.subrange(pos, pos + 8)[4] == u64_byte(v, 4));
    assert(u64_byte(v, 4) == (v >> 32) as u8);
    assert(s[pos + 5] == s.subrange(pos, pos + 8)[5]);
    assert(s.subrange(pos, pos + 8)[5] == u64_byte(v, 5));
    assert(u64_byte(v, 5) == (v >> 40) as u8);
    assert(s[pos + 6] == s.subrange(pos, pos + 8)[6]);
    assert(s.subrange(pos, pos + 8)[6] == u64_byte(v, 6));
    assert(u64_byte(v, 6) == (v >> 48) as u8);
    assert(s[pos + 7] == s.subrange(pos, pos + 8)[7]);
    assert(s.subrange(pos, pos + 8)[7] == u64_byte(v, 7));
    assert(u64_byte(v, 7) == (v >> 56) as u8);
    let b0 = v as u8;
    let b1 = (v >> 8) as u8;
    let b2 = (v >> 16) as u8;
    let b3 = (v >> 24) as u8;
    let b4 = (v >> 32) as u8;
    let b5 = (v >> 40) as u8;
    let b6 = (v >> 48) as u8;
    let b7 = (v >> 56) as u8;
    assert(v as u8 == (v >> 0) as u8) by (bit_vector);
    assert((b0 as u64) | (b1 as u64) << 8 | (b2 as u64) << 16 | (b3 as u64) << 24 | (b4 as u64)
        << 32 | (b5 as u64) << 40 | (b6 as u64) << 48 | (b7 as u64) << 56 == v) by (bit_vector)
        requires
            b0 == v as u8,
            b1 == (v >> 8) as u8,
            b2 == (v >> 16) as u8,
            b3 == (v >> 24) as u8,
            b4 == (v >> 32) as u8,
            b5 == (v >> 40) as u8,
            b6 == (v >> 48) as u8,
            b7 == (v >> 56) as u8,
    ;
}

pub proof fn lemma_sdec_u128(s: Seq<u8>, pos: int, v: u128)
    requires
        0 <= pos,
        pos + 16 <= s.len(),
        s.subrange(pos, pos + 16) == senc_u128(v),
    ensures
        sdec_u128(s, pos) == Some((v, pos + 16)),
{
    reveal(u128_byte);
    assert(s[pos + 0] == s.subrange(pos, pos + 16)[0]);
    assert(s.subrange(pos, pos + 16)[0] == u128_byte(v, 0));
    assert(u128_byte(v, 0) == (v >> 0) as u8);
    assert(s[pos + 1] == s.subrange(pos, pos + 16)[1]);
    assert(s.subrange(pos, pos + 16)[1] == u128_byte(v, 1));
    assert(u128_byte(v, 1) == (v >> 8) as u8);
    assert(s[pos + 2] == s.subrange(pos, pos + 16)[2]);
    assert(s.subrange(pos, pos + 16)[2] == u128_byte(v, 2));
    assert(u128_byte(v, 2) == (v >> 16) as u8);
    assert(s[pos + 3] == s.subrange(pos, pos + 16)[3]);
    assert(s.subrange(pos, pos + 16)[3] == u128_byte(v, 3));
    assert(u128_byte(v, 3) == (v >> 24) as u8);
    assert(s[pos + 4] == s.subrange(pos, pos + 16)[4]);
    assert(s.subrange(pos, pos + 16)[4] == u128_byte(v, 4));
    assert(u128_byte(v, 4) == (v >> 32) as u8);
    assert(s[pos + 5] == s.subrange(pos, pos + 16)[5]);
    assert(s.subrange(pos, pos + 16)[5] == u128_byte(v, 5));
    assert(u128_byte(v, 5) == (v >> 40) as u8);
    assert(s[pos + 6] == s.subrange(pos, pos + 16)[6]);
    assert(s.subrange(pos, pos + 16)[6] == u128_byte(v, 6));
    assert(u128_byte(v, 6) == (v >> 48) as u8);
    assert(s[pos + 7] == s.subrange(pos, pos + 16)[7]);
    assert(s.subrange(pos, pos + 16)[7] == u128_byte(v, 7));
    assert(u128_byte(v, 7) == (v >> 56) as u8);
    assert(s[pos + 8] == s.subrange(pos, pos + 16)[8]);
    assert(s.subrange(pos, pos + 16)[8] == u128_byte(v, 8));
    assert(u128_byte(v, 8) == (v >> 64) as u8);
    assert(s[pos + 9] == s.subrange(pos, pos + 16)[9]);
    assert(s.subrange(pos, pos + 16)[9] == u128_byte(v, 9));
    assert(u128_byte(v, 9) == (v >> 72) as u8);
    assert(s[pos + 10] == s.subrange(pos, pos + 16)[10]);
    assert(s.subrange(pos, pos + 16)[10] == u128_byte(v, 10));
    assert(u128_byte(v, 10) == (v >> 80) as u8);
    assert(s[pos + 11] == s.subrange(pos, pos + 16)[11]);
    assert(s.subrange(pos, pos + 16)[11] == u128_byte(v, 11));
    assert(u128_byte(v, 11) == (v >> 88) as u8);
    assert(s[pos + 12] == s.subrange(pos, pos + 16)[12]);
    assert(s.subrange(pos, pos + 16)[12] == u128_byte(v, 12));
    assert(u128_byte(v, 12) == (v >> 96) as u8);
    assert(s[pos + 13] == s.subrange(pos, pos + 16)[13]);
    assert(s.subrange(pos, pos + 16)[13] == u128_byte(v, 13));
    assert(u128_byte(v, 13) == (v >> 104) as u8);
    assert(s[pos + 14] == s.subrange(pos, pos + 16)[14]);
    assert(s.subrange(pos, pos + 16)[14] == u128_byte(v, 14));
    assert(u128_byte(v, 14) == (v >> 112) as u8);
    assert(s[pos + 15] == s.subrange(pos, pos + 16)[15]);
    assert(s.subrange(pos, pos + 16)[15] == u128_byte(v, 15));
    assert(u128_byte(v, 15) == (v >> 120) as u8);
    let b0 = v as u8;
    let b1 = (v >> 8) as u8;
    let b2 = (v >> 16) as u8;
    let b3 = (v >> 24) as u8;
    let b4 = (v >> 32) as u8;
    let b5 = (v >> 40) as u8;
    let b6 = (v >> 48) as u8;
    let b7 = (v >> 56) as u8;
    let b8 = (v >> 64) as u8;
    let b9 = (v >> 72) as u8;
    let b10 = (v >> 80) as u8;
    let b11 = (v >> 88) as u8;
    let b12 = (v >> 96) as u8;
    let b13 = (v >> 104) as u8;
    let b14 = (v >> 112) as u8;
    let b15 = (v >> 120) as u8;
    assert(v as u8 == (v >> 0) as u8) by (bit_vector);
    assert((b0 as u128) | (b1 as u128) << 8 | (b2 as u128) << 16 | (b3 as u128) << 24 | (b4
        as u128) << 32 | (b5 as u128) << 40 | (b6 as u128) << 48 | (b7 as u128) << 56 | (b8
        as u128) << 64 | (b9 as u128) << 72 | (b10 as u128) << 80 | (b11 as u128) << 88 | (b12
        as u128) << 96 | (b13 as u128) << 104 | (b14 as u128) << 112 | (b15 as u128) << 120 == v)
        by (bit_vector)
        requires
            b0 == v as u8,
            b1 == (v >> 8) as u8,
            b2 == (v >> 16) as u8,
            b3 == (v >> 24) as u8,
            b4 == (v >> 32) as u8,
            b5 == (v >> 40) as u8,
            b6 == (v >> 48) as u8,
            b7 == (v >> 56) as u8,
            b8 == (v >> 64) as u8,
            b9 == (v >> 72) as u8,
            b10 == (v >> 80) as u8,
            b11 == (v >> 88) as u8,
            b12 == (v >> 96) as u8,
            b13 == (v >> 104) as u8,
            b14 == (v >> 112) as u8,
            b15 == (v >> 120) as u8,
    ;
}

pub proof fn lemma_sdec_bool(s: Seq<u8>, pos: int, v: bool)
    requires
        0 <= pos,
        pos + 1 <= s.len(),
        s.subrange(pos, pos + 1) == senc_bool(v),
    ensures
        sdec_bool(s, pos) == Some((v, pos + 1)),
{
    assert(s[pos] == s.subrange(pos, pos + 1)[0]);
}

pub proof fn lemma_sdec_bytes(s: Seq<u8>, pos: int, b: Seq<u8>)
    requires
        0 <= pos,
        b.len() <= u64::MAX,
        pos + senc_bytes(b).len() <= s.len(),
        s.subrange(pos, pos + senc_bytes(b).len()) == senc_bytes(b),
    ensures
        sdec_bytes(s, pos) == Some((b, pos + 8 + b.len())),
{
    let e = senc_bytes(b);
    let n = b.len() as u64;
    assert(e =~= senc_u64(n) + b);
    assert(s.subrange(pos, pos + 8) =~= e.subrange(0, 8));
    assert(e.subrange(0, 8) =~= senc_u64(n));
    lemma_sdec_u64(s, pos, n);
    assert(s.subrange(pos + 8, pos + 8 + b.len()) =~= e.subrange(8, e.len() as int));
    assert(e.subrange(8, e.len() as int) =~= b);
}

pub proof fn lemma_sdec_opt_u64(s: Seq<u8>, pos: int, v: Option<u64>)
    requires
        0 <= pos,
        pos + senc_opt_u64(v).len() <= s.len(),
        s.subrange(pos, pos + senc_opt_u64(v).len()) == senc_opt_u64(v),
    ensures
        sdec_opt_u64(s, pos) == Some((v, pos + senc_opt_u64(v).len())),
{
    let e = senc_opt_u64(v);
    assert(s[pos] == s.subrange(pos, pos + e.len() as int)[0]);
    match v {
        None => {},
        Some(x) => {
            assert(s.subrange(pos + 1, pos + 9) =~= e.subrange(1, 9));
            assert(e.subrange(1, 9) =~= senc_u64(x));
            lemma_sdec_u64(s, pos + 1, x);
        },
    }
}

pub proof fn lemma_sdec_opt_u128(s: Seq<u8>, pos: int, v: Option<u128>)
    requires
        0 <= pos,
        pos + senc_opt_u128(v).len() <= s.len(),
        s.subrange(pos, pos + senc_opt_u128(v).len()) == senc_opt_u128(v),
    ensures
        sdec_opt_u128(s, pos) == Some((v, pos + senc_opt_u128(v).len())),
{
    let e = senc_opt_u128(v);
    assert(s[pos] == s.subrange(pos, pos + e.len() as int)[0]);
    match v {
        None => {},
        Some(x) => {
            assert(s.subrange(pos + 1, pos + 17) =~= e.subrange(1, 17));
            assert(e.subrange(1, 17) =~= senc_u128(x));
            lemma_sdec_u128(s, pos + 1, x);
        },
    }
}

pub proof fn lemma_sdec_opt_bytes(s: Seq<u8>, pos: int, v: Option<Seq<u8>>)
    requires
        0 <= pos,
        (v matches Some(b) ==> b.len() <= u64::MAX),
        pos + senc_opt_bytes(v).len() <= s.len(),
        s.subrange(pos, pos + senc_opt_bytes(v).len()) == senc_opt_bytes(v),
    ensures
        sdec_opt_bytes(s, pos) == Some((v, pos + senc_opt_bytes(v).len())),
{
    let e = senc_opt_bytes(v);
    assert(s[pos] == s.subrange(pos, pos + e.len() as int)[0]);
    match v {
        None => {},
        Some(b) => {
            assert(s.subrange(pos + 1, pos + 1 + senc_bytes(b).len()) =~= e.subrange(
                1,
                e.len() as int,
            ));
            assert(e.subrange(1, e.len() as int) =~= senc_bytes(b));
            lemma_sdec_bytes(s, pos + 1, b);
        },
    }
}

// ---------------------------------------------------------------------------
// Executable encoders. Each appends the canonical bytes of one value.
// ---------------------------------------------------------------------------

pub fn enc_u8(out: &mut Vec<u8>, v: u8)
    ensures
        final(out)@ == old(out)@ + senc_u8(v),
{
    out.push(v);
    proof {
        assert(out@ =~= old(out)@ + senc_u8(v));
    }
}

pub fn enc_u16(out: &mut Vec<u8>, v: u16)
    ensures
        final(out)@ == old(out)@ + senc_u16(v),
{
    out.push(v as u8);
    out.push((v >> 8) as u8);
    proof {
        assert(out@ =~= old(out)@ + senc_u16(v));
    }
}

pub fn enc_u32(out: &mut Vec<u8>, v: u32)
    ensures
        final(out)@ == old(out)@ + senc_u32(v),
{
    out.push(v as u8);
    out.push((v >> 8) as u8);
    out.push((v >> 16) as u8);
    out.push((v >> 24) as u8);
    proof {
        assert(out@ =~= old(out)@ + senc_u32(v));
    }
}

pub fn enc_u64(out: &mut Vec<u8>, v: u64)
    ensures
        final(out)@ == old(out)@ + senc_u64(v),
{
    out.push(v as u8);
    out.push((v >> 8) as u8);
    out.push((v >> 16) as u8);
    out.push((v >> 24) as u8);
    out.push((v >> 32) as u8);
    out.push((v >> 40) as u8);
    out.push((v >> 48) as u8);
    out.push((v >> 56) as u8);
    proof {
        reveal(u64_byte);
        assert(v as u8 == (v >> 0) as u8) by (bit_vector);
        assert(out@ =~= old(out)@ + senc_u64(v));
    }
}

pub fn enc_u128(out: &mut Vec<u8>, v: u128)
    ensures
        final(out)@ == old(out)@ + senc_u128(v),
{
    out.push(v as u8);
    out.push((v >> 8) as u8);
    out.push((v >> 16) as u8);
    out.push((v >> 24) as u8);
    out.push((v >> 32) as u8);
    out.push((v >> 40) as u8);
    out.push((v >> 48) as u8);
    out.push((v >> 56) as u8);
    out.push((v >> 64) as u8);
    out.push((v >> 72) as u8);
    out.push((v >> 80) as u8);
    out.push((v >> 88) as u8);
    out.push((v >> 96) as u8);
    out.push((v >> 104) as u8);
    out.push((v >> 112) as u8);
    out.push((v >> 120) as u8);
    proof {
        reveal(u128_byte);
        assert(v as u8 == (v >> 0) as u8) by (bit_vector);
        assert(out@ =~= old(out)@ + senc_u128(v));
    }
}

pub fn enc_bool(out: &mut Vec<u8>, v: bool)
    ensures
        final(out)@ == old(out)@ + senc_bool(v),
{
    out.push(if v { 1u8 } else { 0u8 });
    proof {
        assert(out@ =~= old(out)@ + senc_bool(v));
    }
}

pub fn enc_bytes(out: &mut Vec<u8>, b: &Vec<u8>)
    requires
        b@.len() <= u64::MAX,
    ensures
        final(out)@ == old(out)@ + senc_bytes(b@),
{
    let ghost mid = old(out)@ + senc_u64(b@.len() as u64);
    enc_u64(out, b.len() as u64);
    let n = b.len();
    let mut i: usize = 0;
    proof {
        assert(out@ =~= mid + b@.take(0));
    }
    while i < n
        invariant
            i <= n,
            n == b@.len(),
            out@ == mid + b@.take(i as int),
        decreases n - i,
    {
        out.push(b[i]);
        proof {
            assert(out@ =~= mid + b@.take(i as int + 1));
        }
        i += 1;
    }
    proof {
        assert(b@.take(n as int) =~= b@);
        assert(out@ =~= old(out)@ + senc_bytes(b@));
    }
}

pub fn enc_opt_u64(out: &mut Vec<u8>, v: &Option<u64>)
    ensures
        final(out)@ == old(out)@ + senc_opt_u64(*v),
{
    match v {
        None => {
            out.push(0u8);
        },
        Some(x) => {
            out.push(1u8);
            enc_u64(out, *x);
        },
    }
    proof {
        assert(out@ =~= old(out)@ + senc_opt_u64(*v));
    }
}

pub fn enc_opt_u128(out: &mut Vec<u8>, v: &Option<u128>)
    ensures
        final(out)@ == old(out)@ + senc_opt_u128(*v),
{
    match v {
        None => {
            out.push(0u8);
        },
        Some(x) => {
            out.push(1u8);
            enc_u128(out, *x);
        },
    }
    proof {
        assert(out@ =~= old(out)@ + senc_opt_u128(*v));
    }
}

pub open spec fn view_opt_bytes(v: Option<Vec<u8>>) -> Option<Seq<u8>> {
    match v {
        None => None,
        Some(b) => Some(b@),
    }
}

pub fn enc_opt_bytes(out: &mut Vec<u8>, v: &Option<Vec<u8>>)
    requires
        (v matches Some(b) ==> b@.len() <= u64::MAX),
    ensures
        final(out)@ == old(out)@ + senc_opt_bytes(view_opt_bytes(*v)),
{
    match v {
        None => {
            out.push(0u8);
        },
        Some(b) => {
            out.push(1u8);
            enc_bytes(out, b);
        },
    }
    proof {
        assert(out@ =~= old(out)@ + senc_opt_bytes(view_opt_bytes(*v)));
    }
}

/// Appends a plain copy of the bytes, with no length prefix.
pub fn copy_bytes(out: &mut Vec<u8>, b: &Vec<u8>)
    ensures
        final(out)@ == old(out)@ + b@,
{
    let n = b.len();
    let mut i: usize = 0;
    proof {
        assert(out@ =~= old(out)@ + b@.take(0));
    }
    while i < n
        invariant
            i <= n,
            n == b@.len(),
            out@ == old(out)@ + b@.take(i as int),
        decreases n - i,
    {
        out.push(b[i]);
        proof {
            assert(out@ =~= old(out)@ + b@.take(i as int + 1));
        }
        i += 1;
    }
    proof {
        assert(b@.take(n as int) =~= b@);
    }
}

// ---------------------------------------------------------------------------
// Executable decoders. Each result equals the specification decoder's.
// ---------------------------------------------------------------------------

pub fn dec_u8(data: &Vec<u8>, pos: usize) -> (r: Option<(u8, usize)>)
    ensures
        match r {
            Some((v, end)) => sdec_u8(data@, pos as int) == Some((v, end as int)) && end
                <= data@.len(),
            None => sdec_u8(data@, pos as int) is None,
        },
{
    if pos < data.len() {
        Some((data[pos], pos + 1))
    } else {
        None
    }
}

pub fn dec_u16(data: &Vec<u8>, pos: usize) -> (r: Option<(u16, usize)>)
    ensures
        match r {
            Some((v, end)) => sdec_u16(data@, pos as int) == Some((v, end as int)) && end
                <= data@.len(),
            None => sdec_u16(data@, pos as int) is None,
        },
{
    if pos < data.len() && data.len() - pos >= 2 {
        let v = (data[pos] as u16) | (data[pos + 1] as u16) << 8;
        Some((v, pos + 2))
    } else {
        None
    }
}

pub fn dec_u32(data: &Vec<u8>, pos: usize) -> (r: Option<(u32, usize)>)
    ensures
        match r {
            Some((v, end)) => sdec_u32(data@, pos as int) == Some((v, end as int)) && end
                <= data@.len(),
            None => sdec_u32(data@, pos as int) is None,
        },
{
    if pos < data.len() && data.len() - pos >= 4 {
        let v = (data[pos] as u32) | (data[pos + 1] as u32) << 8 | (data[pos + 2] as u32) << 16 | (
        data[pos + 3] as u32) << 24;
        Some((v, pos + 4))
    } else {
        None
    }
}

pub fn dec_u64(data: &Vec<u8>, pos: usize) -> (r: Option<(u64, usize)>)
    ensures
        match r {
            Some((v, end)) => sdec_u64(data@, pos as int) == Some((v, end as int)) && end
                <= data@.len(),
            None => sdec_u64(data@, pos as int) is None,
        },
{
    if pos < data.len() && data.len() - pos >= 8 {
        let v = (data[pos] as u64) | (data[pos + 1] as u64) << 8 | (data[pos + 2] as u64) << 16 | (
        data[pos + 3] as u64) << 24 | (data[pos + 4] as u64) << 32 | (data[pos + 5] as u64) << 40
            | (data[pos + 6] as u64) << 48 | (data[pos + 7] as u64) << 56;
        Some((v, pos + 8))
    } else {
        None
    }
}

pub fn dec_u128(data: &Vec<u8>, pos: usize) -> (r: Option<(u128, usize)>)
    ensures
        match r {
            Some((v, end)) => sdec_u128(data@, pos as int) == Some((v, end as int)) && end
                <= data@.len(),
            None => sdec_u128(data@, pos as int) is None,
        },
{
    if pos < data.len() && data.len() - pos >= 16 {
        let v = (data[pos] as u128) | (data[pos + 1] as u128) << 8 | (data[pos + 2] as u128) << 16
            | (data[pos + 3] as u128) << 24 | (data[pos + 4] as u128) << 32 | (data[pos + 5]
            as u128) << 40 | (data[pos + 6] as u128) << 48 | (data[pos + 7] as u128) << 56 | (
        data[pos + 8] as u128) << 64 | (data[pos + 9] as u128) << 72 | (data[pos + 10] as u128)
            << 80 | (data[pos + 11] as u128) << 88 | (data[pos + 12] as u128) << 96 | (data[pos
            + 13] as u128) << 104 | (data[pos + 14] as u128) << 112 | (data[pos + 15] as u128)
            << 120;
        Some((v, pos + 16))
    } else {
        None
    }
}

pub fn dec_bool(data: &Vec<u8>, pos: usize) -> (r: Option<(bool, usize)>)
    ensures
        match r {
            Some((v, end)) => sdec_bool(data@, pos as int) == Some((v, end as int)) && end
                <= data@.len(),
            None => sdec_bool(data@, pos as int) is None,
        },
{
    match dec_u8(data, pos) {
        None => None,
        Some((t, p)) => {
            if t == 0 {
                Some((false, p))
            } else if t == 1 {
                Some((true, p))
            } else {
                None
            }
        },
    }
}

pub fn dec_bytes(data: &Vec<u8>, pos: usize) -> (r: Option<(Vec<u8>, usize)>)
    ensures
        match r {
            Some((v, end)) => sdec_bytes(data@, pos as int) == Some((v@, end as int)) && end
                <= data@.len(),
            None => sdec_bytes(data@, pos as int) is None,
        },
{
    let Some((n, p)) = dec_u64(data, pos) else {
        return None;
    };
    let rem = data.len() - p;
    if n > rem as u64 {
        return None;
    }
    let count = n as usize;
    let mut out: Vec<u8> = Vec::new();
    let mut i: usize = 0;
    while i < count
        invariant
            i <= count,
            p + count <= data@.len(),
            data@.len() <= usize::MAX,
            out@ == data@.subrange(p as int, p as int + i as int),
        decreases count - i,
    {
        out.push(data[p + i]);
        proof {
            assert(out@ =~= data@.subrange(p as int, p as int + i as int + 1));
        }
        i += 1;
    }
    Some((out, p + count))
}

pub fn dec_opt_u64(data: &Vec<u8>, pos: usize) -> (r: Option<(Option<u64>, usize)>)
    ensures
        match r {
            Some((v, end)) => sdec_opt_u64(data@, pos as int) == Some((v, end as int)) && end
                <= data@.len(),
            None => sdec_opt_u64(data@, pos as int) is None,
        },
{
    let Some((t, p)) = dec_u8(data, pos) else {
        return None;
    };
    if t == 0 {
        Some((None, p))
    } else if t == 1 {
        match dec_u64(data, p) {
            None => None,
            Some((v, q)) => Some((Some(v), q)),
        }
    } else {
        None
    }
}

pub fn dec_opt_u128(data: &Vec<u8>, pos: usize) -> (r: Option<(Option<u128>, usize)>)
    ensures
        match r {
            Some((v, end)) => sdec_opt_u128(data@, pos as int) == Some((v, end as int)) && end
                <= data@.len(),
            None => sdec_opt_u128(data@, pos as int) is None,
        },
{
    let Some((t, p)) = dec_u8(data, pos) else {
        return None;
    };
    if t == 0 {
        Some((None, p))
    } else if t == 1 {
        match dec_u128(data, p) {
            None => None,
            Some((v, q)) => Some((Some(v), q)),
        }
    } else {
        None
    }
}

pub fn dec_opt_bytes(data: &Vec<u8>, pos: usize) -> (r: Option<(Option<Vec<u8>>, usize)>)
    ensures
        match r {
            Some((v, end)) => sdec_opt_bytes(data@, pos as int) == Some(
                (view_opt_bytes(v), end as int),
            ) && end <= data@.len(),
            None => sdec_opt_bytes(data@, pos as int) is None,
        },
{
    let Some((t, p)) = dec_u8(data, pos) else {
        return None;
    };
    if t == 0 {
        Some((None, p))
    } else if t == 1 {
        match dec_bytes(data, p) {
            None => None,
            Some((v, q)) => Some((Some(v), q)),
        }
    } else {
        None
    }
}

} // verus!
