//! Cryptographic primitives behind trusted wrappers: BLAKE3 hashing, Ed25519
//! signatures, name-based UUID derivation, and a seeded pseudo-random index
//! source for data-availability sampling.
//!
//! Each wrapper's contract names the result of the outside call; the library's
//! own logic is proved against those names.

use vstd::prelude::*;

use ed25519_dalek::Signer;
use ed25519_dalek::Verifier;

verus! {

/// The 32-byte BLAKE3 digest of a byte string, as `blake3::hash` computes it.
pub uninterp spec fn blake3_of(data: Seq<u8>) -> Seq<u8>;

/// The signature that `ed25519_dalek::SigningKey::sign` produces for a 32-byte
/// secret key and a message; Ed25519 signing is deterministic (RFC 8032).
pub uninterp spec fn ed25519_sign_of(secret: Seq<u8>, msg: Seq<u8>) -> Seq<u8>;

/// The public verifying key that belongs to a 32-byte Ed25519 secret key.
pub uninterp spec fn ed25519_pubkey_of(secret: Seq<u8>) -> Seq<u8>;

/// Whether `ed25519_dalek::VerifyingKey::verify` accepts the signature over
/// the message under the given public key bytes.
pub uninterp spec fn ed25519_verifies(pubkey: Seq<u8>, sig: Seq<u8>, msg: Seq<u8>) -> bool;

/// The 128-bit value of the version-5 UUID derived from a name under the OID
/// namespace, as `uuid::Uuid::new_v5` computes it.
pub uninterp spec fn uuid_v5_of(name: Seq<u8>) -> u128;

/// Relies on blake3::hash: the digest depends on the input alone and is 32
/// bytes long.
#[verifier::external_body]
pub fn blake3_hash(data: &Vec<u8>) -> (r: Vec<u8>)
    ensures
        r@ == blake3_of(data@),
        r@.len() == 32,
{
    blake3::hash(data.as_slice()).as_bytes().to_vec()
}

/// Relies on ed25519_dalek::SigningKey::sign (via the Signer trait): signing
/// is deterministic, produces a 64-byte signature, and that signature
/// verifies under the key's public counterpart.
#[verifier::external_body]
pub fn ed25519_sign(secret: &Vec<u8>, msg: &Vec<u8>) -> (r: Vec<u8>)
    requires
        secret@.len() == 32,
    ensures
        r@ == ed25519_sign_of(secret@, msg@),
        r@.len() == 64,
        ed25519_verifies(ed25519_pubkey_of(secret@), r@, msg@),
{
    let mut key = [0u8; 32];
    key.copy_from_slice(secret.as_slice());
    let sk = ed25519_dalek::SigningKey::from_bytes(&key);
    sk.sign(msg.as_slice()).to_bytes().to_vec()
}

/// Relies on ed25519_dalek::SigningKey::verifying_key: the public key is a
/// function of the secret key and is 32 bytes long.
#[verifier::external_body]
pub fn ed25519_public_key(secret: &Vec<u8>) -> (r: Vec<u8>)
    requires
        secret@.len() == 32,
    ensures
        r@ == ed25519_pubkey_of(secret@),
        r@.len() == 32,
{
    let mut key = [0u8; 32];
    key.copy_from_slice(secret.as_slice());
    let sk = ed25519_dalek::SigningKey::from_bytes(&key);
    sk.verifying_key().to_bytes().to_vec()
}

/// Relies on ed25519_dalek::VerifyingKey::verify: acceptance depends on the
/// key, signature and message alone; a key that does not decode to a valid
/// curve point accepts nothing.
#[verifier::external_body]
pub fn ed25519_verify(pubkey: &Vec<u8>, sig: &Vec<u8>, msg: &Vec<u8>) -> (r: bool)
    requires
        pubkey@.len() == 32,
        sig@.len() == 64,
    ensures
        r == ed25519_verifies(pubkey@, sig@, msg@),
{
    let mut pk = [0u8; 32];
    pk.copy_from_slice(pubkey.as_slice());
    let mut sg = [0u8; 64];
    sg.copy_from_slice(sig.as_slice());
    let Ok(vk) = ed25519_dalek::VerifyingKey::from_bytes(&pk) else {
        return false;
    };
    let signature = ed25519_dalek::Signature::from_bytes(&sg);
    vk.verify(msg.as_slice(), &signature).is_ok()
}

/// Relies on uuid::Uuid::new_v5: a version-5 UUID is a pure function of the
/// namespace and the name.
#[verifier::external_body]
pub fn uuid_v5_from_name(name: &Vec<u8>) -> (r: u128)
    ensures
        r == uuid_v5_of(name@),
{
    uuid::Uuid::new_v5(&uuid::Uuid::NAMESPACE_OID, name.as_slice()).as_u128()
}

#[verifier::external_type_specification]
#[verifier::external_body]
pub struct ExStdRng(rand::rngs::StdRng);

/// Relies on rand::SeedableRng::seed_from_u64 for StdRng: constructing a
/// generator never fails; nothing is assumed of the stream it yields.
#[verifier::external_body]
pub fn rng_from_seed(seed: u64) -> rand::rngs::StdRng {
    <rand::rngs::StdRng as rand::SeedableRng>::seed_from_u64(seed)
}

/// Relies on rand::Rng::gen_range over `0..bound`: the drawn value lies below
/// the bound; which value comes out is left open.
#[verifier::external_body]
pub fn rng_below(rng: &mut rand::rngs::StdRng, bound: usize) -> (r: usize)
    requires
        bound > 0,
    ensures
        r < bound,
{
    rand::Rng::gen_range(rng, 0..bound)
}

} // verus!
