//! Trusted wrappers over `merlin` transcripts.
//!
//! All hashing in this crate is done by domain-separated `merlin`
//! transcripts. Each digest below depends on nothing but the bytes fed to
//! the transcript, so every wrapper names its result with an
//! uninterpreted spec function of those bytes and promises nothing else.

use vstd::prelude::*;
use merlin::Transcript;

verus! {

/// The 32-byte digest a `merlin` transcript labelled `label` squeezes for
/// an empty item list.
pub uninterp spec fn empty_digest(label: Seq<u8>) -> Seq<u8>;

/// The 32-byte digest of a single Merkle item under tree label `label`.
pub uninterp spec fn leaf_digest(label: Seq<u8>, item: Seq<u8>) -> Seq<u8>;

/// The 32-byte digest of a Merkle inner node over its two child digests.
pub uninterp spec fn node_digest(label: Seq<u8>, left: Seq<u8>, right: Seq<u8>) -> Seq<u8>;

/// The 6-byte short identifier squeezed for a transaction id under a
/// `(nonce, peer)` pair.
pub uninterp spec fn short_id_digest(nonce: u64, peer: Seq<u8>, txid: Seq<u8>) -> Seq<u8>;

/// The 32-byte identifier of a block header, a pure function of its fields.
pub uninterp spec fn header_digest(
    height: u64,
    prev: Seq<u8>,
    timestamp_ms: u64,
    txroot: Seq<u8>,
) -> Seq<u8>;

/// The 32-byte identifier of a transaction, a pure function of its
/// canonical encoding.
pub uninterp spec fn tx_digest(bytes: Seq<u8>) -> Seq<u8>;

/// The 32-byte identifier of an unspent output, a pure function of the
/// canonical encoding of the output that created it.
pub uninterp spec fn output_id_digest(bytes: Seq<u8>) -> Seq<u8>;

/// Relies on `merlin::Transcript`: the challenge depends only on the
/// appended tree label. `append_message` panics on a message of 2^32
/// bytes or more, so the label must stay below that.
#[verifier::external_body]
pub(crate) fn merkle_empty_hash(label: &[u8]) -> (r: [u8; 32])
    requires
        label@.len() < 0x1_0000_0000,
    ensures
        r@ == empty_digest(label@),
{
    let mut t = Transcript::new(b"ZkVM.merkle");
    t.append_message(b"label", label);
    let mut buf = [0u8; 32];
    t.challenge_bytes(b"merkle.empty", &mut buf);
    buf
}

/// Relies on `merlin::Transcript`: the challenge depends only on the
/// appended tree label and item bytes. `append_message` panics on a
/// message of 2^32 bytes or more, so both must stay below that.
#[verifier::external_body]
pub(crate) fn merkle_leaf_hash(label: &[u8], item: &[u8]) -> (r: [u8; 32])
    requires
        label@.len() < 0x1_0000_0000,
        item@.len() < 0x1_0000_0000,
    ensures
        r@ == leaf_digest(label@, item@),
{
    let mut t = Transcript::new(b"ZkVM.merkle");
    t.append_message(b"label", label);
    t.append_message(b"item", item);
    let mut buf = [0u8; 32];
    t.challenge_bytes(b"merkle.leaf", &mut buf);
    buf
}

/// Relies on `merlin::Transcript`: the challenge depends only on the
/// appended tree label and the two child digests. `append_message`
/// panics on a message of 2^32 bytes or more, so the label must stay
/// below that; the children are fixed at 32 bytes.
#[verifier::external_body]
pub(crate) fn merkle_node_hash(label: &[u8], left: &[u8; 32], right: &[u8; 32]) -> (r: [u8; 32])
    requires
        label@.len() < 0x1_0000_0000,
    ensures
        r@ == node_digest(label@, left@, right@),
{
    let mut t = Transcript::new(b"ZkVM.merkle");
    t.append_message(b"label", label);
    t.append_message(b"L", left);
    t.append_message(b"R", right);
    let mut buf = [0u8; 32];
    t.challenge_bytes(b"merkle.node", &mut buf);
    buf
}

/// Relies on `merlin::Transcript`: the challenge depends only on the
/// nonce, the peer identifier bytes and the transaction id.
/// `append_message` panics on a message of 2^32 bytes or more, so the
/// peer identifier must stay below that; the id is fixed at 32 bytes.
#[verifier::external_body]
pub(crate) fn short_id_bytes(nonce: u64, peer: &[u8], txid: &[u8; 32]) -> (r: [u8; 6])
    requires
        peer@.len() < 0x1_0000_0000,
    ensures
        r@ == short_id_digest(nonce, peer@, txid@),
{
    let mut t = Transcript::new(b"ZkVM.shortid");
    t.append_u64(b"nonce", nonce);
    t.append_message(b"peer", peer);
    t.append_message(b"txid", txid);
    let mut buf = [0u8; 6];
    t.challenge_bytes(b"id", &mut buf);
    buf
}

/// Relies on `merlin::Transcript`: the challenge depends only on the
/// appended header fields.
#[verifier::external_body]
pub(crate) fn header_hash(
    height: u64,
    prev: &[u8; 32],
    timestamp_ms: u64,
    txroot: &[u8; 32],
) -> (r: [u8; 32])
    ensures
        r@ == header_digest(height, prev@, timestamp_ms, txroot@),
{
    let mut t = Transcript::new(b"ZkVM.blockheader");
    t.append_u64(b"height", height);
    t.append_message(b"prev", prev);
    t.append_u64(b"timestamp_ms", timestamp_ms);
    t.append_message(b"txroot", txroot);
    let mut buf = [0u8; 32];
    t.challenge_bytes(b"id", &mut buf);
    buf
}

/// Relies on `merlin::Transcript`: the challenge depends only on the
/// appended transaction bytes. `append_message` panics on a message of
/// 2^32 bytes or more, so the encoding must stay below that.
#[verifier::external_body]
pub(crate) fn tx_hash(bytes: &[u8]) -> (r: [u8; 32])
    requires
        bytes@.len() < 0x1_0000_0000,
    ensures
        r@ == tx_digest(bytes@),
{
    let mut t = Transcript::new(b"ZkVM.txid");
    t.append_message(b"tx", bytes);
    let mut buf = [0u8; 32];
    t.challenge_bytes(b"id", &mut buf);
    buf
}

/// Relies on `merlin::Transcript`: the challenge depends only on the
/// appended output bytes. `append_message` panics on a message of 2^32
/// bytes or more, so the encoding must stay below that.
#[verifier::external_body]
pub(crate) fn output_id_hash(bytes: &[u8]) -> (r: [u8; 32])
    requires
        bytes@.len() < 0x1_0000_0000,
    ensures
        r@ == output_id_digest(bytes@),
{
    let mut t = Transcript::new(b"ZkVM.output");
    t.append_message(b"output", bytes);
    let mut buf = [0u8; 32];
    t.challenge_bytes(b"id", &mut buf);
    buf
}

} // verus!
