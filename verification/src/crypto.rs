//! Trusted boundary to the cryptographic primitives.
//!
//! The digest and the signature check are deterministic functions of their
//! byte-string arguments; each is given a name here, and the wrapper that
//! makes the outside call promises to return exactly that named value.

use vstd::prelude::*;
use blake2::Blake2b512;
use blake2::Digest;
use ed25519_dalek::PublicKey;
use ed25519_dalek::Signature;

verus! {

/// The canonical digest of a byte string: the first 32 bytes of its
/// Blake2b-512 digest. The value depends on the bytes alone.
pub uninterp spec fn digest_of(bytes: Seq<u8>) -> Seq<u8>;

/// Whether `sig` parses as an Ed25519 signature, `pubkey` parses as an
/// Ed25519 public key, and the signature verifies over `msg`. The value
/// depends on the three byte strings alone.
pub uninterp spec fn sig_valid(pubkey: Seq<u8>, msg: Seq<u8>, sig: Seq<u8>) -> bool;

/// Relies on blake2's `Blake2b512` through the `Digest` trait: `digest` is a
/// pure function of the input bytes and returns 64 bytes, of which the first
/// 32 are kept.
#[verifier::external_body]
pub(crate) fn digest32(bytes: &[u8]) -> (r: crate::Hash)
    ensures
        r@ == digest_of(bytes@),
{
    let d = Blake2b512::digest(bytes);
    let mut h = [0u8; 32];
    h.copy_from_slice(&d[..32]);
    h
}

/// Relies on ed25519_dalek's `PublicKey::from_bytes`,
/// `Signature::from_bytes` and `PublicKey::verify_strict`: each is a pure
/// function of its byte-string arguments, and the whole check returns true
/// exactly when both values parse and the signature verifies strictly.
#[verifier::external_body]
pub(crate) fn verify_signature(pubkey: &[u8], msg: &[u8], sig: &[u8]) -> (r: bool)
    ensures
        r == sig_valid(pubkey@, msg@, sig@),
{
    let pk = match PublicKey::from_bytes(pubkey) {
        Ok(pk) => pk,
        Err(_) => return false,
    };
    let s = match Signature::from_bytes(sig) {
        Ok(s) => s,
        Err(_) => return false,
    };
    pk.verify_strict(msg, &s).is_ok()
}

} // verus!
