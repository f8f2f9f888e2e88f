//! Short transaction identifiers.
//!
//! A short id is the 6-byte string squeezed from a keyed transcript over
//! `(nonce, peer id, txid)`, held as a little-endian `u64` below `2^48`.
//! Distinct `(nonce, peer)` pairs give independent mappings; collisions
//! within one mapping are possible and tolerated by the protocol layer.

use vstd::prelude::*;

use crate::transcript::{short_id_digest, short_id_bytes};

verus! {

/// Length in bytes of a serialized short id.
pub const SHORTID_LEN: usize = 6;

/// The little-endian value of a 6-byte string.
pub open spec fn le48(chunk: Seq<u8>) -> int
    recommends
        chunk.len() == 6,
{
    chunk[0] + 0x100 * chunk[1] + 0x1_0000 * chunk[2] + 0x100_0000 * chunk[3] + 0x1_0000_0000
        * chunk[4] + 0x100_0000_0000 * chunk[5]
}

/// The value of the short id of `txid` under `(nonce, peer)`.
pub open spec fn spec_short_id(nonce: u64, peer: Seq<u8>, txid: Seq<u8>) -> int {
    le48(short_id_digest(nonce, peer, txid))
}

/// A short transaction id: a 48-bit value carried in a `u64`.
#[derive(Clone, Copy, Debug, PartialEq, Eq, Hash, Structural)]
pub struct ShortID(pub u64);

impl ShortID {
    /// The value fits in 48 bits.
    pub open spec fn wf(self) -> bool {
        self.0 < 0x1_0000_0000_0000
    }

    /// Reads the i-th short id out of a concatenated list, or nothing
    /// past the end; a trailing chunk shorter than `SHORTID_LEN` bytes
    /// is ignored.
    pub fn at_position(offset: usize, bytes: &[u8]) -> (r: Option<ShortID>)
        ensures
            offset < bytes@.len() / 6 ==> (r matches Some(id) && id.0 == le48(
                bytes@.subrange(6 * offset, 6 * offset + 6),
            ) && id.wf()),
            offset >= bytes@.len() / 6 ==> r is None,
    {
        if offset >= bytes.len() / 6 {
            return None;
        }
        proof {
            lemma_chunk_index(bytes@.len() as int, offset as int);
        }
        let base = 6 * offset;
        let b0 = bytes[base] as u64;
        let b1 = bytes[base + 1] as u64;
        let b2 = bytes[base + 2] as u64;
        let b3 = bytes[base + 3] as u64;
        let b4 = bytes[base + 4] as u64;
        let b5 = bytes[base + 5] as u64;
        let v = b0 + 0x100 * b1 + 0x1_0000 * b2 + 0x100_0000 * b3 + 0x1_0000_0000 * b4
            + 0x100_0000_0000 * b5;
        proof {
            assert(v == le48(bytes@.subrange(6 * offset, 6 * offset + 6)));
        }
        Some(ShortID(v))
    }

    /// Splits a concatenated list into its short ids, ignoring a trailing
    /// partial chunk: a list of `n` bytes yields exactly `n / 6` ids.
    pub fn scan(bytes: &[u8]) -> (r: Vec<ShortID>)
        ensures
            r@.len() == bytes@.len() / 6,
            forall|k: int|
                0 <= k < r@.len() ==> (#[trigger] r@[k]).0 == le48(
                    bytes@.subrange(6 * k, 6 * k + 6),
                ) && r@[k].wf(),
    {
        let mut r: Vec<ShortID> = Vec::new();
        let n = bytes.len() / 6;
        let mut i: usize = 0;
        while i < n
            invariant
                n == bytes@.len() / 6,
                i <= n,
                r@.len() == i,
                forall|k: int|
                    0 <= k < i ==> (#[trigger] r@[k]).0 == le48(bytes@.subrange(6 * k, 6 * k + 6))
                        && r@[k].wf(),
            decreases n - i,
        {
            let id = Self::at_position(i, bytes).unwrap();
            r.push(id);
            i = i + 1;
        }
        r
    }

    /// Serializes the id back into its 6 little-endian bytes.
    pub fn to_bytes(&self) -> (r: [u8; 6])
        requires
            self.wf(),
        ensures
            le48(r@) == self.0,
    {
        let x = self.0;
        let r = [
            (x % 0x100) as u8,
            ((x / 0x100) % 0x100) as u8,
            ((x / 0x1_0000) % 0x100) as u8,
            ((x / 0x100_0000) % 0x100) as u8,
            ((x / 0x1_0000_0000) % 0x100) as u8,
            (x / 0x100_0000_0000) as u8,
        ];
        proof {
            lemma_le48_bytes(x);
            assert(r@ =~= seq![
                (x % 0x100) as u8,
                ((x / 0x100) % 0x100) as u8,
                ((x / 0x1_0000) % 0x100) as u8,
                ((x / 0x100_0000) % 0x100) as u8,
                ((x / 0x1_0000_0000) % 0x100) as u8,
                (x / 0x100_0000_0000) as u8,
            ]);
        }
        r
    }
}

/// A 48-bit value is the little-endian combination of its six bytes.
proof fn lemma_le48_bytes(x: u64)
    requires
        x < 0x1_0000_0000_0000,
    ensures
        x == (x % 0x100) + 0x100 * ((x / 0x100) % 0x100) + 0x1_0000 * ((x / 0x1_0000) % 0x100)
            + 0x100_0000 * ((x / 0x100_0000) % 0x100) + 0x1_0000_0000 * ((x / 0x1_0000_0000)
            % 0x100) + 0x100_0000_0000 * (x / 0x100_0000_0000),
        x / 0x100_0000_0000 < 0x100,
{
    assert(x == (x % 0x100) + 0x100 * ((x / 0x100) % 0x100) + 0x1_0000 * ((x / 0x1_0000) % 0x100)
        + 0x100_0000 * ((x / 0x100_0000) % 0x100) + 0x1_0000_0000 * ((x / 0x1_0000_0000) % 0x100)
        + 0x100_0000_0000 * (x / 0x100_0000_0000) && x / 0x100_0000_0000 < 0x100) by (bit_vector)
        requires
            x < 0x1_0000_0000_0000,
    ;
}

/// If `offset < len / 6` then the whole 6-byte chunk at `offset` lies
/// within the list.
proof fn lemma_chunk_index(len: int, offset: int)
    requires
        0 <= offset,
        0 <= len,
        offset < len / 6,
    ensures
        6 * offset + 6 <= len,
{
    assert(6 * offset + 6 <= 6 * (len / 6)) by (nonlinear_arith)
        requires
            offset < len / 6,
    ;
    assert(6 * (len / 6) <= len) by (nonlinear_arith)
        requires
            len >= 0,
    ;
}

/// The keyed transform that shortens transaction ids for one
/// `(nonce, peer)` pair.
pub struct Transform {
    /// The nonce the ids are keyed with.
    pub nonce: u64,
    /// The peer identifier bytes the ids are keyed with.
    pub peer: Vec<u8>,
}

impl Transform {
    /// Creates a transform for the given nonce and peer identifier.
    pub fn new(nonce: u64, peer_id: &[u8]) -> (t: Transform)
        ensures
            t.nonce == nonce,
            t.peer@ == peer_id@,
    {
        let mut peer: Vec<u8> = Vec::new();
        let mut i: usize = 0;
        while i < peer_id.len()
            invariant
                i <= peer_id@.len(),
                peer@ == peer_id@.subrange(0, i as int),
            decreases peer_id@.len() - i,
        {
            proof {
                assert(peer_id@.subrange(0, i + 1 as int) =~= peer_id@.subrange(0, i as int).push(
                    peer_id@[i as int],
                ));
            }
            peer.push(peer_id[i]);
            i = i + 1;
        }
        proof {
            assert(peer_id@.subrange(0, peer_id@.len() as int) =~= peer_id@);
        }
        Transform { nonce, peer }
    }

    /// Shortens a 32-byte transaction id. The id is a transcript digest,
    /// so the peer identifier must stay below the hash input limit.
    pub fn apply(&self, txid: &[u8; 32]) -> (id: ShortID)
        requires
            self.peer@.len() < 0x1_0000_0000,
        ensures
            id.0 == spec_short_id(self.nonce, self.peer@, txid@),
            id.wf(),
    {
        let bytes = short_id_bytes(self.nonce, self.peer.as_slice(), txid);
        let b0 = bytes[0] as u64;
        let b1 = bytes[1] as u64;
        let b2 = bytes[2] as u64;
        let b3 = bytes[3] as u64;
        let b4 = bytes[4] as u64;
        let b5 = bytes[5] as u64;
        let v = b0 + 0x100 * b1 + 0x1_0000 * b2 + 0x100_0000 * b3 + 0x1_0000_0000 * b4
            + 0x100_0000_0000 * b5;
        ShortID(v)
    }
}

} // verus!
