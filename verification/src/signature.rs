//! Trusted wrappers over `starsig` Schnorr signatures.
//!
//! Blocks are authenticated by a single authority key. The crate holds
//! signatures as 64-byte strings and keys as 32-byte strings; these
//! wrappers convert to and from `starsig`'s types at the boundary.
//! Signing draws a random nonce, so nothing is promised about the
//! signature bytes themselves, only that they verify.

use vstd::prelude::*;
use curve25519_dalek::ristretto::CompressedRistretto;
use curve25519_dalek::scalar::Scalar;
use merlin::Transcript;
use starsig::{Signature, VerificationKey};

verus! {

/// Whether a 64-byte signature string verifies over a 32-byte block id
/// under a 32-byte verification key: the result of `starsig`'s
/// `Signature::verify` after decoding, a pure function of the three
/// byte strings.
pub uninterp spec fn sig_check(sig: Seq<u8>, block_id: Seq<u8>, pubkey: Seq<u8>) -> bool;

/// The 32-byte verification key derived from a 32-byte signing key:
/// `starsig`'s `VerificationKey::from_secret` after reducing the bytes
/// to a scalar, a pure function of the key bytes.
pub uninterp spec fn pubkey_digest(privkey: Seq<u8>) -> Seq<u8>;

/// Relies on `starsig::Signature::sign` and `Signature::verify`: a
/// signature made over a transcript verifies over an equally built
/// transcript under the key derived from the same secret.
#[verifier::external_body]
pub(crate) fn sign_block(block_id: &[u8; 32], privkey: &[u8; 32]) -> (r: [u8; 64])
    ensures
        sig_check(r@, block_id@, pubkey_digest(privkey@)),
{
    let mut t = Transcript::new(b"ZkVM.stubnet1");
    t.append_message(b"block_id", block_id);
    Signature::sign(&mut t, Scalar::from_bytes_mod_order(*privkey)).to_bytes()
}

/// Relies on `starsig::Signature::verify` (with `Signature::from_bytes`
/// and `VerificationKey::from_compressed`): the outcome is a pure
/// function of the signature bytes, the transcript bytes and the key.
#[verifier::external_body]
pub(crate) fn verify_block_sig(block_id: &[u8; 32], sig: &[u8; 64], pubkey: &[u8; 32]) -> (r: bool)
    ensures
        r == sig_check(sig@, block_id@, pubkey@),
{
    let signature = match Signature::from_bytes(&sig[..]) {
        Ok(s) => s,
        Err(_) => return false,
    };
    let key = match VerificationKey::from_compressed(CompressedRistretto(*pubkey)) {
        Some(k) => k,
        None => return false,
    };
    let mut t = Transcript::new(b"ZkVM.stubnet1");
    t.append_message(b"block_id", block_id);
    signature.verify(&mut t, key).is_ok()
}

} // verus!
