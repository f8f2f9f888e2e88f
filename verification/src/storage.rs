//! In-memory block storage: the applied chain state, the signed tip, and
//! the blocks themselves by height. Hosts that persist blocks do so
//! outside the engine; the engine only needs this record.

use vstd::prelude::*;

use crate::block::{Block, BlockHeader, BlockID};
use crate::state::{BlockchainState, Catchup, VerifiedTx};

verus! {

/// The chain as the node has applied it: contiguous blocks ending at the
/// tip of the current state, and the authority's signature over the tip.
pub struct Storage {
    /// The applied blocks, oldest first; the chain may start from a
    /// state snapshot, so blocks below the first one are not held.
    pub blocks: Vec<Block>,
    /// The state after the last stored block.
    pub state: BlockchainState,
    /// The authority's signature over the tip header's id.
    pub tip_signature: [u8; 64],
}

impl Storage {
    /// Blocks are contiguous by height and end at the tip.
    pub open spec fn wf(&self) -> bool {
        &&& self.state.wf()
        &&& self.blocks@.len() <= self.state.tip.height + 1
        &&& forall|i: int|
            0 <= i < self.blocks@.len() ==> (#[trigger] self.blocks@[i]).header.height
                == self.state.tip.height - (self.blocks@.len() - 1 - i)
        &&& self.blocks@.len() > 0 ==> self.blocks@.last().header == self.state.tip
    }

    /// Creates storage from a state snapshot and the signature over its
    /// tip; no blocks are held yet.
    pub fn new(state: BlockchainState, tip_signature: [u8; 64]) -> (s: Storage)
        requires
            state.wf(),
        ensures
            s.wf(),
            s.state == state,
            s.tip_signature == tip_signature,
            s.blocks@.len() == 0,
    {
        Storage { blocks: Vec::new(), state, tip_signature }
    }

    /// Returns the signed tip of the blockchain.
    pub fn tip(&self) -> (r: (BlockHeader, [u8; 64]))
        ensures
            r.0 == self.state.tip,
            r.1 == self.tip_signature,
    {
        (self.state.tip, self.tip_signature)
    }

    /// Returns the current height of the chain.
    pub fn tip_height(&self) -> (h: u64)
        ensures
            h == self.state.tip.height,
    {
        self.state.tip.height
    }

    /// Returns the id of the current tip.
    pub fn tip_id(&self) -> (r: BlockID)
        ensures
            r.0@ == self.state.tip.id_spec(),
    {
        self.state.tip.id()
    }

    /// The blockchain state.
    pub fn blockchain_state(&self) -> (r: &BlockchainState)
        ensures
            *r == self.state,
    {
        &self.state
    }

    /// Returns the stored block at a given height, if it is held.
    pub fn block_at_height(&self, height: u64) -> (r: Option<&Block>)
        requires
            self.wf(),
        ensures
            match r {
                Some(b) => exists|i: int|
                    0 <= i < self.blocks@.len() && *b == self.blocks@[i] && b.header.height
                        == height,
                None => forall|i: int|
                    0 <= i < self.blocks@.len() ==> (#[trigger] self.blocks@[i]).header.height
                        != height,
            },
    {
        if self.blocks.len() == 0 {
            return None;
        }
        let last_height = self.blocks[self.blocks.len() - 1].header.height;
        let count = self.blocks.len() as u64;
        if height > last_height || last_height - height >= count {
            proof {
                assert forall|i: int|
                    0 <= i < self.blocks@.len() implies (#[trigger] self.blocks@[i]).header.height
                    != height by {
                    assert(self.blocks@[i].header.height == self.state.tip.height - (
                    self.blocks@.len() - 1 - i));
                }
            }
            return None;
        }
        let idx = (self.blocks.len() - 1) - ((last_height - height) as usize);
        let b = &self.blocks[idx];
        proof {
            assert(self.blocks@[idx as int].header.height == self.state.tip.height - (
            self.blocks@.len() - 1 - idx));
        }
        Some(b)
    }

    /// Stores a new block and the updated state; atomic with respect to
    /// tip advancement. The catchup artifact and validated transactions
    /// accompany the call for hosts that record them; this in-memory
    /// store keeps the block and the state.
    pub fn store_block(
        &mut self,
        block: Block,
        new_state: BlockchainState,
        catchup: Catchup,
        vtxs: Vec<VerifiedTx>,
    )
        requires
            old(self).wf(),
            new_state.wf(),
            block.header == new_state.tip,
            new_state.tip.height == old(self).state.tip.height + 1,
        ensures
            final(self).wf(),
            final(self).state == new_state,
            final(self).tip_signature == block.signature,
            final(self).blocks@.len() == old(self).blocks@.len() + 1,
            final(self).blocks@.last() == block,
            final(self).blocks@.subrange(0, old(self).blocks@.len() as int) == old(self).blocks@,
    {
        let _ = catchup;
        let _ = vtxs;
        self.tip_signature = block.signature;
        self.blocks.push(block);
        self.state = new_state;
        proof {
            assert(self.blocks@.subrange(0, old(self).blocks@.len() as int) =~= old(self).blocks@);
            assert forall|i: int|
                0 <= i < self.blocks@.len() implies (#[trigger] self.blocks@[i]).header.height
                == self.state.tip.height - (self.blocks@.len() - 1 - i) by {
                if i < old(self).blocks@.len() {
                    assert(self.blocks@[i] == old(self).blocks@[i]);
                }
            }
        }
    }
}

} // verus!
