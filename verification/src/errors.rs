//! Error taxonomy of the crate.
//!
//! `VMError` covers byte-level reading and Merkle-proof checking;
//! `BlockchainError` classifies protocol failures so that a host can tell
//! byzantine peers (fatal errors) from stale ones (errors to absorb).

use vstd::prelude::*;

verus! {

/// Failures of byte-level decoding and of Merkle-proof verification.
#[derive(Clone, Copy, Debug, PartialEq, Eq, Structural)]
pub enum VMError {
    /// The bytes do not have the expected shape or length.
    FormatError,
    /// Reading finished but unread bytes remain.
    TrailingBytes,
    /// A Merkle proof does not match the root, or an index is out of range.
    InvalidMerkleProof,
}

/// How a transaction offered to the mempool was rejected.
#[derive(Clone, Copy, Debug, PartialEq, Eq, Structural)]
pub enum MempoolError {
    /// The transaction, or one of its inputs, is already accounted for:
    /// a duplicate transaction id, an input missing from the current
    /// unspent set, or an input also claimed by another mempool entry.
    /// Not punishable: peers legitimately race for the same outputs.
    Occupied,
    /// The transaction itself is malformed for the current clock
    /// (its time window excludes the mempool timestamp, or it repeats
    /// one of its own inputs). Punishable: an honest peer never relays it.
    InvalidTx,
}

/// Failures of the protocol engine, classified for the host.
///
/// Fatal-for-peer errors (`IncompatibleVersion`, `InvalidBlockSignature`,
/// `MempoolValidation(InvalidTx)`) are returned from message processing so
/// the host can disconnect the sender; the rest report conditions the
/// engine absorbs or the requester can act on.
#[derive(Clone, Copy, Debug, PartialEq, Eq)]
pub enum BlockchainError {
    /// The peer speaks an unknown protocol version. Fatal for that peer.
    IncompatibleVersion,
    /// A block or tip signature does not verify under the network key.
    /// Fatal for that peer.
    InvalidBlockSignature,
    /// A block at a height other than `tip.height + 1`; carried height is
    /// the block's. Silent, not punishable: it may simply be late.
    BlockNotRelevant(u64),
    /// We do not have a block at the requested height.
    BlockNotFound(u64),
    /// A mempool reply refers to a tip (by its 32-byte id) that we have
    /// moved past. Dropped silently.
    StaleMempoolState([u8; 32]),
    /// A relayed transaction was rejected by the mempool.
    MempoolValidation(MempoolError),
    /// A block body is inconsistent with the chain state it claims to
    /// extend, although its header was signed by the authority.
    InvalidBlock,
}

impl BlockchainError {
    /// True for errors the host should answer by disconnecting the sender.
    pub fn is_fatal_for_peer(&self) -> (r: bool)
        ensures
            r == (self is IncompatibleVersion || self is InvalidBlockSignature
                || (self matches BlockchainError::MempoolValidation(m) && m is InvalidTx)
                || self is InvalidBlock),
    {
        match self {
            BlockchainError::IncompatibleVersion => true,
            BlockchainError::InvalidBlockSignature => true,
            BlockchainError::MempoolValidation(m) => match m {
                MempoolError::InvalidTx => true,
                MempoolError::Occupied => false,
            },
            BlockchainError::InvalidBlock => true,
            _ => false,
        }
    }
}

} // verus!
