//! The peer-to-peer synchronization engine.
//!
//! A node keeps its chain tip and mempool convergent with its peers. The
//! engine is pure: each public operation takes the event (a message, a
//! tick with the current time) and returns the messages to send, so a
//! host only delivers envelopes and feeds back what arrives. Fatal
//! errors returned from message processing tell the host to disconnect
//! the sender.

use vstd::prelude::*;

use crate::block::{Block, BlockHeader, BlockID, BlockTx, block_view_eq, clone_block, clone_tx, tx_view_eq, txs_view_eq};
use crate::encoding::bytes32_eq;
use crate::errors::BlockchainError;
use crate::mempool::{Mempool, MempoolTx, absorbs, block_txs, lemma_absorbs_abort,
    lemma_absorbs_snoc_accepted, lemma_absorbs_snoc_occupied, retain_state, retain_ts};
use crate::rng::next_u64;
use crate::shortid::{ShortID, Transform, le48, spec_short_id};
use crate::signature::{pubkey_digest, sig_check, sign_block, verify_block_sig};
use crate::state::{BlockchainState, block_valid, post_utxo_ids, uview};
use crate::storage::Storage;
use crate::transcript::{short_id_bytes, short_id_digest};
use crate::txlog::copy_utxos;

verus! {

/// The protocol version this node speaks.
pub const CURRENT_VERSION: u64 = 0;

/// Ticks between rotations of the local short-id nonce.
pub const SHORTID_NONCE_TTL: u64 = 50;

/// Silence, in milliseconds, after which a peer is asked for inventory
/// again.
pub const INVENTORY_REFRESH_MS: u64 = 60000;

/// Hard cap on short-id positions visited in one reconciliation pass.
pub const SYNC_OFFSET_CAP: usize = 1000000;

/// Asks a peer for its inventory.
#[derive(Clone, Copy, PartialEq, Eq, Structural, Debug)]
pub struct GetInventory {
    /// Protocol version of the sender.
    pub version: u64,
    /// The nonce the sender will use to shorten transaction ids.
    pub shortid_nonce: u64,
}

/// Announces a node's signed tip and its mempool as short ids.
#[derive(Clone, Debug)]
pub struct Inventory {
    /// Protocol version of the sender.
    pub version: u64,
    /// The sender's tip header.
    pub tip: BlockHeader,
    /// The authority's signature over the tip's id.
    pub tip_signature: [u8; 64],
    /// The nonce under which the short ids below were computed.
    pub shortid_nonce: u64,
    /// The sender's mempool as concatenated short ids.
    pub shortid_list: Vec<u8>,
}

/// Asks a peer for the block at a height.
#[derive(Clone, Copy, PartialEq, Eq, Structural, Debug)]
pub struct GetBlock {
    /// The requested height.
    pub height: u64,
}

/// Asks a peer for the mempool transactions behind a list of short ids.
#[derive(Clone, Debug)]
pub struct GetMempoolTxs {
    /// The nonce under which the short ids below were computed.
    pub shortid_nonce: u64,
    /// The requested short ids, concatenated.
    pub shortid_list: Vec<u8>,
}

/// Carries mempool transactions, pinned to the tip they were valid for.
#[derive(Clone, Debug)]
pub struct MempoolTxs {
    /// The id of the sender's tip when the reply was built.
    pub tip: BlockID,
    /// The transactions.
    pub txs: Vec<BlockTx>,
}

/// Enumeration of all protocol messages.
#[derive(Clone, Debug)]
pub enum Message {
    /// An inventory request.
    GetInventory(GetInventory),
    /// An inventory announcement.
    Inventory(Inventory),
    /// A block request.
    GetBlock(GetBlock),
    /// A block.
    Block(Block),
    /// A request for mempool transactions by short id.
    GetMempoolTxs(GetMempoolTxs),
    /// Mempool transactions.
    MempoolTxs(MempoolTxs),
}

/// A message addressed to a peer, for the host to deliver.
#[derive(Debug)]
pub struct Envelope {
    /// The peer the message goes to.
    pub pid: u64,
    /// The message.
    pub msg: Message,
}

/// Status of one peer.
pub struct PeerInfo {
    /// The tip the peer last advertised.
    pub tip: Option<BlockHeader>,
    /// Whether the peer asked for our inventory since the last tick.
    pub needs_our_inventory: bool,
    /// The nonce the peer asked us to shorten transaction ids with.
    pub their_short_id_nonce: u64,
    /// The nonce the peer said it shortens with.
    pub shortid_nonce: u64,
    /// The peer's last advertised short-id list.
    pub shortid_list: Vec<u8>,
    /// When the peer's last inventory arrived, in host milliseconds.
    pub last_inventory_received: u64,
}

/// A connected peer: its identifier and its status.
pub struct Peer {
    /// The peer's identifier.
    pub pid: u64,
    /// The peer's status.
    pub info: PeerInfo,
}

/// The byte form of a peer identifier, as fed to the short-id transform.
pub open spec fn peer_bytes(pid: u64) -> Seq<u8> {
    vstd::bytes::spec_u64_to_le_bytes(pid)
}

/// No two peers share an identifier.
pub open spec fn peers_distinct(peers: Seq<Peer>) -> bool {
    forall|i: int, j: int|
        0 <= i < j < peers.len() ==> (#[trigger] peers[i]).pid != (#[trigger] peers[j]).pid
}

/// Whether some peer has this identifier.
pub open spec fn has_peer(peers: Seq<Peer>, pid: u64) -> bool {
    exists|i: int| 0 <= i < peers.len() && (#[trigger] peers[i]).pid == pid
}

/// A freshly connected peer's status.
pub open spec fn fresh_peer_info(info: PeerInfo, now_ms: u64) -> bool {
    &&& info.tip is None
    &&& !info.needs_our_inventory
    &&& info.their_short_id_nonce == 0
    &&& info.shortid_list@ == Seq::<u8>::empty()
    &&& info.last_inventory_received == now_ms
}

/// A node of the network: the synchronization engine and all the state
/// it owns.
pub struct Node {
    /// The key that authenticates block and tip signatures.
    pub network_pubkey: [u8; 32],
    /// This node's own peer identifier.
    pub self_id: u64,
    /// The applied chain.
    pub storage: Storage,
    /// The highest authenticated header any peer advertised; the node
    /// pulls blocks until its tip reaches it. It never regresses.
    pub target_tip: BlockHeader,
    /// The connected peers, in connection order.
    pub peers: Vec<Peer>,
    /// The nonce under which this node currently shortens ids.
    pub shortid_nonce: u64,
    /// Ticks left until the nonce rotates.
    pub shortid_nonce_ttl: u64,
    /// The candidate transactions for the next block.
    pub mempool: Mempool,
    /// The injected random number generator.
    pub rng: rand::rngs::StdRng,
}

impl Node {
    /// The node invariant: the chain and mempool are sound and sealed
    /// together, the tip never passes the target, the nonce countdown is
    /// live, and peers are distinct.
    pub open spec fn wf(&self) -> bool {
        &&& self.storage.wf()
        &&& self.mempool.wf()
        &&& self.mempool.state.tip == self.storage.state.tip
        &&& uview(self.mempool.state.utxos@) == uview(self.storage.state.utxos@)
        &&& self.storage.state.tip.height <= self.target_tip.height
        &&& 1 <= self.shortid_nonce_ttl <= SHORTID_NONCE_TTL
        &&& peers_distinct(self.peers@)
    }

    /// Creates a new node over its storage: the target starts at the
    /// stored tip, the mempool is empty and sealed by the stored state,
    /// and the nonce countdown is full.
    pub fn new(network_pubkey: [u8; 32], self_id: u64, storage: Storage, rng: rand::rngs::StdRng) -> (n:
        Node)
        requires
            storage.wf(),
        ensures
            n.wf(),
            n.network_pubkey == network_pubkey,
            n.self_id == self_id,
            n.storage == storage,
            n.target_tip == storage.state.tip,
            n.peers@.len() == 0,
            n.shortid_nonce_ttl == SHORTID_NONCE_TTL,
            n.mempool.items@.len() == 0,
            n.mempool.timestamp_ms == storage.state.tip.timestamp_ms,
    {
        let state_copy = clone_state(&storage.state);
        let tip_ts = storage.state.tip.timestamp_ms;
        let target_tip = storage.state.tip;
        let mut rng = rng;
        let nonce = next_u64(&mut rng);
        Node {
            network_pubkey,
            self_id,
            mempool: Mempool::new(state_copy, tip_ts),
            target_tip,
            storage,
            peers: Vec::new(),
            shortid_nonce: nonce,
            shortid_nonce_ttl: SHORTID_NONCE_TTL,
            rng,
        }
    }

    /// Called when a peer connects: records it with a fresh status and
    /// asks it for inventory. A reconnecting peer's status is reset.
    pub fn peer_connected(&mut self, pid: u64, now_ms: u64) -> (r: Vec<Envelope>)
        requires
            old(self).wf(),
        ensures
            final(self).wf(),
            final(self).storage == old(self).storage,
            final(self).mempool == old(self).mempool,
            final(self).target_tip == old(self).target_tip,
            final(self).shortid_nonce == old(self).shortid_nonce,
            final(self).shortid_nonce_ttl == old(self).shortid_nonce_ttl,
            has_peer(final(self).peers@, pid),
            !has_peer(old(self).peers@, pid) ==> {
                &&& final(self).peers@.len() == old(self).peers@.len() + 1
                &&& final(self).peers@.subrange(0, old(self).peers@.len() as int) == old(
                    self,
                ).peers@
                &&& final(self).peers@.last().pid == pid
                &&& fresh_peer_info(final(self).peers@.last().info, now_ms)
            },
            has_peer(old(self).peers@, pid) ==> {
                &&& final(self).peers@.len() == old(self).peers@.len()
                &&& forall|i: int|
                    0 <= i < old(self).peers@.len() ==> {
                        &&& (#[trigger] final(self).peers@[i]).pid == old(self).peers@[i].pid
                        &&& old(self).peers@[i].pid != pid ==> final(self).peers@[i] == old(
                            self,
                        ).peers@[i]
                        &&& old(self).peers@[i].pid == pid ==> fresh_peer_info(
                            final(self).peers@[i].info,
                            now_ms,
                        )
                    }
            },
            r@.len() == 1,
            r@[0].pid == pid,
            r@[0].msg == Message::GetInventory(
                GetInventory { version: CURRENT_VERSION, shortid_nonce: old(self).shortid_nonce },
            ),
    {
        let found = find_peer_index(&self.peers, pid);
        let fresh = PeerInfo {
            tip: None,
            needs_our_inventory: false,
            their_short_id_nonce: 0,
            shortid_nonce: self.shortid_nonce,
            shortid_list: Vec::new(),
            last_inventory_received: now_ms,
        };
        if let Some(idx) = found {
            let ghost prev = self.peers@;
            self.peers.set(idx, Peer { pid, info: fresh });
            proof {
                assert(self.peers@[idx as int].pid == pid);
                assert(has_peer(self.peers@, pid));
                assert(peers_distinct(self.peers@)) by {
                    assert forall|a: int, b: int|
                        0 <= a < b < self.peers@.len() implies (#[trigger] self.peers@[a]).pid != (
                    #[trigger] self.peers@[b]).pid by {
                        assert(prev[a].pid == self.peers@[a].pid);
                        assert(prev[b].pid == self.peers@[b].pid);
                    }
                }
                assert(has_peer(old(self).peers@, pid));
            }
        } else {
            let ghost prev = self.peers@;
            self.peers.push(Peer { pid, info: fresh });
            proof {
                assert(self.peers@[self.peers@.len() - 1].pid == pid);
                assert(has_peer(self.peers@, pid));
                assert(self.peers@.subrange(0, prev.len() as int) =~= prev);
                assert(!has_peer(prev, pid));
                assert forall|a: int, b: int|
                    0 <= a < b < self.peers@.len() implies (#[trigger] self.peers@[a]).pid != (
                #[trigger] self.peers@[b]).pid by {
                    if b == self.peers@.len() - 1 {
                        assert(self.peers@[a] == prev[a]);
                        if self.peers@[a].pid == pid {
                            assert(has_peer(prev, pid));
                        }
                    } else {
                        assert(self.peers@[a] == prev[a] && self.peers@[b] == prev[b]);
                    }
                }
            }
        }
        let mut r: Vec<Envelope> = Vec::new();
        r.push(
            Envelope {
                pid,
                msg: Message::GetInventory(
                    GetInventory { version: CURRENT_VERSION, shortid_nonce: self.shortid_nonce },
                ),
            },
        );
        r
    }

    /// Called when a peer disconnects: forgets it.
    pub fn peer_diconnected(&mut self, pid: u64)
        requires
            old(self).wf(),
        ensures
            final(self).wf(),
            final(self).storage == old(self).storage,
            final(self).mempool == old(self).mempool,
            final(self).target_tip == old(self).target_tip,
            final(self).shortid_nonce == old(self).shortid_nonce,
            final(self).shortid_nonce_ttl == old(self).shortid_nonce_ttl,
            !has_peer(final(self).peers@, pid),
            !has_peer(old(self).peers@, pid) ==> final(self).peers@ == old(self).peers@,
            forall|i: int|
                0 <= i < old(self).peers@.len() && (#[trigger] old(self).peers@[i]).pid == pid
                    ==> final(self).peers@ == old(self).peers@.remove(i),
    {
        match find_peer_index(&self.peers, pid) {
            Some(i) => {
                let ghost prev = self.peers@;
                let _ = self.peers.remove(i);
                proof {
                    assert forall|a: int, b: int|
                        0 <= a < b < self.peers@.len() implies (#[trigger] self.peers@[a]).pid != (
                    #[trigger] self.peers@[b]).pid by {
                        let pa: int = if a < i { a } else { a + 1 };
                        let pb: int = if b < i { b } else { b + 1 };
                        assert(self.peers@[a] == prev[pa]);
                        assert(self.peers@[b] == prev[pb]);
                    }
                    assert forall|k: int|
                        0 <= k < self.peers@.len() implies (#[trigger] self.peers@[k]).pid
                        != pid by {
                        let pk: int = if k < i { k } else { k + 1 };
                        assert(self.peers@[k] == prev[pk]);
                        if pk != i {
                            assert(prev[pk].pid != prev[i as int].pid);
                        }
                    }
                    assert forall|k: int|
                        0 <= k < old(self).peers@.len() && (#[trigger] old(self).peers@[k]).pid
                            == pid implies self.peers@ == old(self).peers@.remove(k) by {
                        if k != i {
                            assert(prev[k].pid != prev[i as int].pid);
                        }
                    }
                }
            },
            None => {
                proof {
                    assert(!has_peer(self.peers@, pid));
                }
            },
        }
    }

    /// Handles an inventory request: notes that the peer wants our
    /// inventory at the next tick, under the nonce it asked for.
    fn process_inventory_request(&mut self, pid: u64, request: GetInventory) -> (r: Result<
        Vec<Envelope>,
        BlockchainError,
    >)
        requires
            old(self).wf(),
        ensures
            final(self).wf(),
            inventory_request_effect(*old(self), *final(self), pid, request, r),
    {
        if request.version != CURRENT_VERSION {
            return Err(BlockchainError::IncompatibleVersion);
        }
        match find_peer_index(&self.peers, pid) {
            Some(idx) => {
                let ghost prev = self.peers@;
                let mut p = self.peers.remove(idx);
                p.info.needs_our_inventory = true;
                p.info.their_short_id_nonce = request.shortid_nonce;
                self.peers.insert(idx, p);
                proof {
                    assert(self.peers@ =~= prev.update(
                        idx as int,
                        Peer {
                            pid: prev[idx as int].pid,
                            info: PeerInfo {
                                needs_our_inventory: true,
                                their_short_id_nonce: request.shortid_nonce,
                                ..prev[idx as int].info
                            },
                        },
                    ));
                    assert forall|a: int, b: int|
                        0 <= a < b < self.peers@.len() implies (#[trigger] self.peers@[a]).pid != (
                    #[trigger] self.peers@[b]).pid by {
                        assert(self.peers@[a].pid == prev[a].pid);
                        assert(self.peers@[b].pid == prev[b].pid);
                    }
                    assert forall|i: int|
                        0 <= i < prev.len() && prev[i].pid != pid implies #[trigger] self.peers@[i]
                        == prev[i] by {
                        if i == idx {
                            assert(prev[idx as int].pid == pid);
                        }
                    }
                }
            },
            None => {
            },
        }
        Ok(Vec::new())
    }

    /// Handles an inventory announcement: verifies and adopts a higher
    /// tip as the target and records the peer's advertised view.
    fn receive_inventory(&mut self, pid: u64, inventory: Inventory, now_ms: u64) -> (r: Result<
        Vec<Envelope>,
        BlockchainError,
    >)
        requires
            old(self).wf(),
        ensures
            final(self).wf(),
            inventory_effect(*old(self), *final(self), pid, inventory, now_ms, r),
    {
        let Inventory { version, tip, tip_signature, shortid_nonce, shortid_list } = inventory;
        if version != CURRENT_VERSION {
            return Err(BlockchainError::IncompatibleVersion);
        }
        if tip.height > self.target_tip.height {
            let tip_id = tip.id();
            if !verify_block_sig(&tip_id.0, &tip_signature, &self.network_pubkey) {
                return Err(BlockchainError::InvalidBlockSignature);
            }
            self.target_tip = tip;
        }
        match find_peer_index(&self.peers, pid) {
            Some(idx) => {
                let ghost prev = self.peers@;
                let mut p = self.peers.remove(idx);
                p.info.tip = Some(tip);
                p.info.shortid_nonce = shortid_nonce;
                p.info.shortid_list = shortid_list;
                p.info.last_inventory_received = now_ms;
                self.peers.insert(idx, p);
                proof {
                    assert(self.peers@ =~= prev.update(idx as int, self.peers@[idx as int]));
                    assert(self.peers@[idx as int].pid == prev[idx as int].pid);
                    assert forall|a: int, b: int|
                        0 <= a < b < self.peers@.len() implies (#[trigger] self.peers@[a]).pid != (
                    #[trigger] self.peers@[b]).pid by {
                        assert(self.peers@[a].pid == prev[a].pid);
                        assert(self.peers@[b].pid == prev[b].pid);
                    }
                    assert forall|i: int|
                        0 <= i < prev.len() && prev[i].pid != pid implies #[trigger] self.peers@[i]
                        == prev[i] by {
                        if i == idx {
                            assert(prev[idx as int].pid == pid);
                        }
                    }
                }
            },
            None => {
            },
        }
        Ok(Vec::new())
    }

    /// Handles a block request: sends the stored block back, or reports
    /// that we do not have it.
    fn send_block(&self, pid: u64, request: GetBlock) -> (r: Result<Vec<Envelope>, BlockchainError>)
        requires
            self.wf(),
        ensures
            match r {
                Ok(msgs) => {
                    &&& msgs@.len() == 1
                    &&& msgs@[0].pid == pid
                    &&& msgs@[0].msg matches Message::Block(b) && b.header.height
                        == request.height && exists|i: int|
                        0 <= i < self.storage.blocks@.len() && block_view_eq(
                            b,
                            #[trigger] self.storage.blocks@[i],
                        )
                },
                Err(e) => {
                    &&& e == BlockchainError::BlockNotFound(request.height)
                    &&& forall|i: int|
                        0 <= i < self.storage.blocks@.len() ==> (
                        #[trigger] self.storage.blocks@[i]).header.height != request.height
                },
            },
    {
        match self.storage.block_at_height(request.height) {
            Some(b) => {
                let cloned = clone_block(b);
                let mut msgs: Vec<Envelope> = Vec::new();
                msgs.push(Envelope { pid, msg: Message::Block(cloned) });
                Ok(msgs)
            },
            None => Err(BlockchainError::BlockNotFound(request.height)),
        }
    }

    /// Handles a received block: checks relevance and the authority's
    /// signature, applies it, re-bases the mempool and stores it.
    fn receive_block(&mut self, block_msg: Block) -> (r: Result<Vec<Envelope>, BlockchainError>)
        requires
            old(self).wf(),
        ensures
            final(self).wf(),
            block_effect(*old(self), *final(self), block_msg, r),
    {
        // Quick check: is this actually a block that we want?
        if !(block_msg.header.height >= 1 && block_msg.header.height - 1
            == self.storage.state.tip.height) {
            // Silently ignore the irrelevant block - maybe we received it too late.
            return Err(BlockchainError::BlockNotRelevant(block_msg.header.height));
        }
        // Check the block signature.
        let block_id = block_msg.header.id();
        if !verify_block_sig(&block_id.0, &block_msg.signature, &self.network_pubkey) {
            return Err(BlockchainError::InvalidBlockSignature);
        }
        // Now the block header is authenticated, so we can do the more
        // expensive validation.
        let applied = self.storage.blockchain_state().apply_block(
            block_msg.header,
            &block_msg.txs,
        );
        let (new_state, catchup, vtxs) = match applied {
            Ok(t) => t,
            Err(e) => {
                return Err(e);
            },
        };
        // Update the mempool.
        let mem_state = clone_state(&new_state);
        self.mempool.update_state(mem_state, &catchup);
        // Store the block.
        let new_tip = new_state.tip;
        self.storage.store_block(block_msg, new_state, catchup, vtxs);
        // Pull the target along if this block passed it.
        if new_tip.height > self.target_tip.height {
            self.target_tip = new_tip;
        }
        Ok(Vec::new())
    }

    /// Handles a request for mempool transactions: replies with the
    /// entries whose short id, under the requester's nonce and
    /// identifier, was asked for, pinned to our current tip.
    fn send_txs(&self, pid: u64, request: GetMempoolTxs) -> (r: Vec<Envelope>)
        requires
            self.wf(),
        ensures
            r@.len() == 1,
            r@[0].pid == pid,
            r@[0].msg matches Message::MempoolTxs(m) && m.tip.0@ == self.storage.state.tip.id_spec()
                && txs_view_eq(
                m.txs@,
                included_txs(
                    self.mempool.items@,
                    request.shortid_nonce,
                    peer_bytes(pid),
                    request.shortid_list@,
                ),
            ),
    {
        let requested = ShortID::scan(request.shortid_list.as_slice());
        let pid_bytes = vstd::bytes::u64_to_le_bytes(pid);
        let shortener = Transform::new(request.shortid_nonce, pid_bytes.as_slice());
        let ghost items = self.mempool.items@;
        let mut txs: Vec<BlockTx> = Vec::new();
        let mut i: usize = 0;
        while i < self.mempool.items.len()
            invariant
                self.wf(),
                items == self.mempool.items@,
                shortener.nonce == request.shortid_nonce,
                shortener.peer@ == peer_bytes(pid),
                shortener.peer@.len() == 8,
                requested@.len() == request.shortid_list@.len() / 6,
                forall|k: int|
                    0 <= k < requested@.len() ==> (#[trigger] requested@[k]).0 == le48(
                        request.shortid_list@.subrange(6 * k, 6 * k + 6),
                    ),
                i <= items.len(),
                txs_view_eq(
                    txs@,
                    included_txs(
                        items.subrange(0, i as int),
                        request.shortid_nonce,
                        peer_bytes(pid),
                        request.shortid_list@,
                    ),
                ),
            decreases items.len() - i,
        {
            let entry = &self.mempool.items[i];
            let txid = entry.txid();
            let id = shortener.apply(&txid.0);
            let wanted = shortid_vec_contains(&requested, id.0);
            proof {
                let v = spec_short_id(request.shortid_nonce, peer_bytes(pid), entry.tx.txid_spec());
                assert(id.0 == v);
                if wanted {
                    let k = choose|k: int| 0 <= k < requested@.len() && (#[trigger] requested@[k]).0
                        == id.0;
                    assert(le48(request.shortid_list@.subrange(6 * k, 6 * k + 6)) == v);
                    assert(id_in_list(v, request.shortid_list@));
                }
                if id_in_list(v, request.shortid_list@) {
                    let o = choose|o: int| 0 <= o < request.shortid_list@.len() / 6 && le48(
                        #[trigger] request.shortid_list@.subrange(6 * o, 6 * o + 6),
                    ) == v;
                    assert(requested@[o].0 == v);
                    assert(wanted);
                }
                assert(wanted == id_in_list(v, request.shortid_list@));
            }
            let ghost prevtxs = txs@;
            if wanted {
                txs.push(clone_tx(&entry.tx));
            }
            proof {
                assert(items.subrange(0, i + 1 as int).drop_last() =~= items.subrange(0, i as int));
                let inc = included_txs(
                    items.subrange(0, i + 1 as int),
                    request.shortid_nonce,
                    peer_bytes(pid),
                    request.shortid_list@,
                );
                assert(items.subrange(0, i + 1 as int).last() == items[i as int]);
                assert(txs_view_eq(txs@, inc));
            }
            i = i + 1;
        }
        proof {
            assert(items.subrange(0, items.len() as int) =~= items);
        }
        let tip_id = self.storage.tip_id();
        let mut r: Vec<Envelope> = Vec::new();
        r.push(Envelope { pid, msg: Message::MempoolTxs(MempoolTxs { tip: tip_id, txs }) });
        r
    }

    /// Handles relayed mempool transactions: checks the reply is for our
    /// current tip, then offers each transaction to the mempool in turn,
    /// ignoring occupied places and aborting on the first invalid one.
    #[verifier::loop_isolation(false)]
    fn receive_txs(&mut self, request: MempoolTxs) -> (r: Result<Vec<Envelope>, BlockchainError>)
        requires
            old(self).wf(),
        ensures
            final(self).wf(),
            mempool_txs_effect(*old(self), *final(self), request, r),
    {
        let tip_id = self.storage.tip_id();
        if !bytes32_eq(&request.tip.0, &tip_id.0) {
            return Err(BlockchainError::StaleMempoolState(request.tip.0));
        }
        let ghost st = self.mempool.state;
        let ghost ts = self.mempool.timestamp_ms;
        let ghost items0 = self.mempool.items@;
        let ghost txs0 = request.txs@;
        let mut txs = request.txs;
        let ghost n = txs0.len();
        while txs.len() > 0
            invariant
                self.wf(),
                self.storage == old(self).storage,
                self.target_tip == old(self).target_tip,
                self.shortid_nonce == old(self).shortid_nonce,
                self.shortid_nonce_ttl == old(self).shortid_nonce_ttl,
                self.peers@ == old(self).peers@,
                self.mempool.state == st,
                self.mempool.timestamp_ms == ts,
                st == old(self).mempool.state,
                ts == old(self).mempool.timestamp_ms,
                items0 == old(self).mempool.items@,
                request.tip.0@ == old(self).storage.state.tip.id_spec(),
                txs0.len() == n,
                txs@.len() <= n,
                txs@ =~= txs0.subrange(n - txs@.len(), n as int),
                absorbs(st, ts, items0, txs0.subrange(0, n - txs@.len()), self.mempool.items@, false),
            decreases txs@.len(),
        {
            let ghost j = n - txs@.len();
            let tx = txs.remove(0);
            proof {
                assert(tx == txs0[j]);
                assert(txs@ =~= txs0.subrange(j + 1, n as int));
            }
            let ghost mid = self.mempool.items@;
            let ghost a = txs0.subrange(0, j);
            let result = self.mempool.append(tx);
            match result {
                Ok(_) => {
                    proof {
                        let e = self.mempool.items@.last();
                        assert(self.mempool.items@ =~= mid.push(e));
                        lemma_absorbs_snoc_accepted(st, ts, items0, a, mid, txs0[j], e);
                        assert(a.push(txs0[j]) =~= txs0.subrange(0, j + 1));
                    }
                },
                Err(e) => {
                    match e {
                        crate::errors::MempoolError::Occupied => {
                            proof {
                                lemma_absorbs_snoc_occupied(st, ts, items0, a, mid, txs0[j]);
                                assert(a.push(txs0[j]) =~= txs0.subrange(0, j + 1));
                            }
                        },
                        crate::errors::MempoolError::InvalidTx => {
                            proof {
                                lemma_absorbs_abort(
                                    st,
                                    ts,
                                    items0,
                                    a,
                                    mid,
                                    txs0[j],
                                    txs0.subrange(j + 1, n as int),
                                );
                                assert(a + (seq![txs0[j]] + txs0.subrange(j + 1, n as int))
                                    =~= txs0);
                            }
                            return Err(
                                BlockchainError::MempoolValidation(
                                    crate::errors::MempoolError::InvalidTx,
                                ),
                            );
                        },
                    }
                },
            }
        }
        proof {
            assert(txs0.subrange(0, n as int) =~= txs0);
        }
        Ok(Vec::new())
    }

    /// Called when a node receives a message from the peer: dispatches
    /// it to the matching handler. A returned error that
    /// `is_fatal_for_peer` tells the host to disconnect the sender.
    pub fn process_message(&mut self, pid: u64, message: Message, now_ms: u64) -> (r: Result<
        Vec<Envelope>,
        BlockchainError,
    >)
        requires
            old(self).wf(),
        ensures
            final(self).wf(),
            match message {
                Message::GetInventory(request) => inventory_request_effect(
                    *old(self),
                    *final(self),
                    pid,
                    request,
                    r,
                ),
                Message::Inventory(inventory) => inventory_effect(
                    *old(self),
                    *final(self),
                    pid,
                    inventory,
                    now_ms,
                    r,
                ),
                Message::GetBlock(request) => *final(self) == *old(self) && match r {
                    Ok(msgs) => {
                        &&& msgs@.len() == 1
                        &&& msgs@[0].pid == pid
                        &&& msgs@[0].msg matches Message::Block(b) && b.header.height
                            == request.height && exists|i: int|
                            0 <= i < old(self).storage.blocks@.len() && block_view_eq(
                                b,
                                #[trigger] old(self).storage.blocks@[i],
                            )
                    },
                    Err(e) => {
                        &&& e == BlockchainError::BlockNotFound(request.height)
                        &&& forall|i: int|
                            0 <= i < old(self).storage.blocks@.len() ==> (#[trigger] old(
                                self,
                            ).storage.blocks@[i]).header.height != request.height
                    },
                },
                Message::Block(block_msg) => block_effect(*old(self), *final(self), block_msg, r),
                Message::GetMempoolTxs(request) => *final(self) == *old(self) && (r matches Ok(
                    msgs,
                ) && msgs@.len() == 1 && msgs@[0].pid == pid && (msgs@[0].msg matches
                Message::MempoolTxs(m) && m.tip.0@ == old(self).storage.state.tip.id_spec()
                    && txs_view_eq(
                    m.txs@,
                    included_txs(
                        old(self).mempool.items@,
                        request.shortid_nonce,
                        peer_bytes(pid),
                        request.shortid_list@,
                    ),
                ))),
                Message::MempoolTxs(request) => mempool_txs_effect(
                    *old(self),
                    *final(self),
                    request,
                    r,
                ),
            },
    {
        match message {
            Message::GetInventory(request) => self.process_inventory_request(pid, request),
            Message::Inventory(inventory) => self.receive_inventory(pid, inventory, now_ms),
            Message::GetBlock(request) => self.send_block(pid, request),
            Message::Block(block_msg) => self.receive_block(block_msg),
            Message::GetMempoolTxs(request) => Ok(self.send_txs(pid, request)),
            Message::MempoolTxs(request) => self.receive_txs(request),
        }
    }

    /// Creates and signs a block from the entire mempool and applies it
    /// in one step, so the authority cannot produce two conflicting
    /// signatures for one height: the clock is clamped to never regress
    /// below the tip, the mempool is sealed into a block signed over the
    /// new header's id, the mempool is re-based, and the block stored.
    pub fn create_block(&mut self, timestamp_ms: u64, signing_key: &[u8; 32])
        requires
            old(self).wf(),
            old(self).storage.state.tip.height < u64::MAX,
        ensures
            final(self).wf(),
            final(self).peers@ == old(self).peers@,
            final(self).shortid_nonce == old(self).shortid_nonce,
            final(self).shortid_nonce_ttl == old(self).shortid_nonce_ttl,
            final(self).storage.state.tip.height == old(self).storage.state.tip.height + 1,
            final(self).storage.state.tip.timestamp_ms == if timestamp_ms >= old(
                self,
            ).mempool.timestamp_ms {
                timestamp_ms
            } else {
                old(self).mempool.timestamp_ms
            },
            sig_check(
                final(self).storage.tip_signature@,
                final(self).storage.state.tip.id_spec(),
                pubkey_digest(signing_key@),
            ),
            final(self).storage.blocks@.len() == old(self).storage.blocks@.len() + 1,
            final(self).storage.blocks@.last().header == final(self).storage.state.tip,
            final(self).storage.blocks@.last().signature == final(self).storage.tip_signature,
            txs_view_eq(
                final(self).storage.blocks@.last().txs@,
                block_txs(
                    retain_ts(old(self).mempool.items@, final(self).storage.state.tip.timestamp_ms),
                ),
            ),
            block_valid(
                old(self).storage.state,
                final(self).storage.state.tip,
                block_txs(
                    retain_ts(old(self).mempool.items@, final(self).storage.state.tip.timestamp_ms),
                ),
            ),
            uview(final(self).storage.state.utxos@) == post_utxo_ids(
                old(self).storage.state,
                block_txs(
                    retain_ts(old(self).mempool.items@, final(self).storage.state.tip.timestamp_ms),
                ),
            ),
            final(self).mempool.state.tip == final(self).storage.state.tip,
            final(self).mempool.timestamp_ms == final(self).storage.state.tip.timestamp_ms,
            final(self).mempool.items@ == retain_state(
                retain_ts(old(self).mempool.items@, final(self).storage.state.tip.timestamp_ms),
                final(self).mempool.state,
                final(self).mempool.timestamp_ms,
            ),
            final(self).target_tip == if final(self).storage.state.tip.height > old(
                self,
            ).target_tip.height {
                final(self).storage.state.tip
            } else {
                old(self).target_tip
            },
    {
        // Clamp the timestamp so it never regresses below the tip.
        let (tip_header, _) = self.storage.tip();
        let ts = if timestamp_ms >= tip_header.timestamp_ms {
            timestamp_ms
        } else {
            tip_header.timestamp_ms
        };
        self.mempool.update_timestamp(ts);
        // Seal the entire mempool into a hypothetical block.
        let (new_state, catchup) = self.mempool.make_block();
        // Sign the new header's id.
        let new_tip_id = new_state.tip.id();
        let signature = sign_block(&new_tip_id.0, signing_key);
        // Snapshot the entries as block transactions.
        let ghost sealed = self.mempool.items@;
        let mut txs: Vec<BlockTx> = Vec::new();
        let mut vtxs: Vec<crate::state::VerifiedTx> = Vec::new();
        let mut i: usize = 0;
        while i < self.mempool.items.len()
            invariant
                self.wf(),
                sealed == self.mempool.items@,
                i <= sealed.len(),
                txs@.len() == i,
                forall|k: int| 0 <= k < i ==> tx_view_eq(#[trigger] txs@[k], sealed[k].tx),
                vtxs@.len() == i,
            decreases sealed.len() - i,
        {
            let entry = &self.mempool.items[i];
            txs.push(clone_tx(&entry.tx));
            vtxs.push(
                crate::state::VerifiedTx {
                    header: entry.verified_tx.header,
                    id: entry.verified_tx.id,
                    inputs: copy_utxos(&entry.verified_tx.inputs),
                    outputs: copy_utxos(&entry.verified_tx.outputs),
                },
            );
            i = i + 1;
        }
        proof {
            assert(txs_view_eq(txs@, block_txs(sealed))) by {
                assert(txs@.len() == block_txs(sealed).len());
                assert forall|k: int| 0 <= k < txs@.len() implies tx_view_eq(
                    txs@[k],
                    block_txs(sealed)[k],
                ) by {
                    assert(block_txs(sealed)[k] == sealed[k].tx);
                }
            }
        }
        let block = Block { header: new_state.tip, signature, txs };
        // Re-base the mempool onto the new state, then store the block.
        let mem_state = clone_state(&new_state);
        self.mempool.update_state(mem_state, &catchup);
        let new_tip = new_state.tip;
        self.storage.store_block(block, new_state, catchup, vtxs);
        if new_tip.height > self.target_tip.height {
            self.target_tip = new_tip;
        }
    }

    /// Counts down the nonce's ttl; at zero, draws a fresh nonce, resets
    /// the countdown, and forgets every peer's advertised short ids (the
    /// new nonce invalidates their view).
    fn rotate_shortid_nonce_if_needed(&mut self)
        requires
            old(self).wf(),
        ensures
            final(self).wf(),
            final(self).storage == old(self).storage,
            final(self).mempool == old(self).mempool,
            final(self).target_tip == old(self).target_tip,
            final(self).network_pubkey == old(self).network_pubkey,
            final(self).self_id == old(self).self_id,
            final(self).peers@.len() == old(self).peers@.len(),
            old(self).shortid_nonce_ttl > 1 ==> {
                &&& final(self).shortid_nonce_ttl == old(self).shortid_nonce_ttl - 1
                &&& final(self).shortid_nonce == old(self).shortid_nonce
                &&& final(self).peers@ == old(self).peers@
            },
            old(self).shortid_nonce_ttl == 1 ==> {
                &&& final(self).shortid_nonce_ttl == SHORTID_NONCE_TTL
                &&& forall|i: int|
                    0 <= i < old(self).peers@.len() ==> {
                        let pre = #[trigger] old(self).peers@[i];
                        let post = final(self).peers@[i];
                        &&& post.pid == pre.pid
                        &&& post.info.tip == pre.info.tip
                        &&& post.info.needs_our_inventory == pre.info.needs_our_inventory
                        &&& post.info.their_short_id_nonce == pre.info.their_short_id_nonce
                        &&& post.info.last_inventory_received == pre.info.last_inventory_received
                        &&& post.info.shortid_nonce == final(self).shortid_nonce
                        &&& post.info.shortid_list@ == Seq::<u8>::empty()
                    }
            },
    {
        self.shortid_nonce_ttl = self.shortid_nonce_ttl - 1;
        if self.shortid_nonce_ttl == 0 {
            self.shortid_nonce_ttl = SHORTID_NONCE_TTL;
            let new_nonce = next_u64(&mut self.rng);
            self.shortid_nonce = new_nonce;
            let ghost oldpeers = self.peers@;
            let mut result: Vec<Peer> = Vec::new();
            while self.peers.len() > 0
                invariant
                    self.storage == old(self).storage,
                    self.mempool == old(self).mempool,
                    self.target_tip == old(self).target_tip,
                    self.network_pubkey == old(self).network_pubkey,
                    self.self_id == old(self).self_id,
                    self.shortid_nonce == new_nonce,
                    self.shortid_nonce_ttl == SHORTID_NONCE_TTL,
                    oldpeers == old(self).peers@,
                    self.peers@.len() <= oldpeers.len(),
                    self.peers@ =~= oldpeers.subrange(
                        oldpeers.len() - self.peers@.len(),
                        oldpeers.len() as int,
                    ),
                    result@.len() == oldpeers.len() - self.peers@.len(),
                    forall|i: int|
                        0 <= i < result@.len() ==> {
                            let pre = #[trigger] oldpeers[i];
                            let post = result@[i];
                            &&& post.pid == pre.pid
                            &&& post.info.tip == pre.info.tip
                            &&& post.info.needs_our_inventory == pre.info.needs_our_inventory
                            &&& post.info.their_short_id_nonce == pre.info.their_short_id_nonce
                            &&& post.info.last_inventory_received
                                == pre.info.last_inventory_received
                            &&& post.info.shortid_nonce == new_nonce
                            &&& post.info.shortid_list@ == Seq::<u8>::empty()
                        },
                decreases self.peers@.len(),
            {
                let ghost i = oldpeers.len() - self.peers@.len();
                let mut p = self.peers.remove(0);
                proof {
                    assert(p == oldpeers[i]);
                    assert(self.peers@ =~= oldpeers.subrange(i + 1, oldpeers.len() as int));
                }
                p.info.shortid_nonce = new_nonce;
                p.info.shortid_list = Vec::new();
                result.push(p);
            }
            self.peers = result;
            proof {
                assert forall|a: int, b: int|
                    0 <= a < b < self.peers@.len() implies (#[trigger] self.peers@[a]).pid != (
                #[trigger] self.peers@[b]).pid by {
                    assert(self.peers@[a].pid == oldpeers[a].pid);
                    assert(self.peers@[b].pid == oldpeers[b].pid);
                }
            }
        }
    }

    /// Lowers the inventory-wanted flag on every peer, after the owed
    /// inventories went out.
    fn clear_inventory_flags(&mut self)
        requires
            old(self).wf(),
        ensures
            final(self).wf(),
            final(self).storage == old(self).storage,
            final(self).mempool == old(self).mempool,
            final(self).target_tip == old(self).target_tip,
            final(self).network_pubkey == old(self).network_pubkey,
            final(self).self_id == old(self).self_id,
            final(self).shortid_nonce == old(self).shortid_nonce,
            final(self).shortid_nonce_ttl == old(self).shortid_nonce_ttl,
            final(self).peers@.len() == old(self).peers@.len(),
            forall|i: int|
                0 <= i < old(self).peers@.len() ==> {
                    let pre = #[trigger] old(self).peers@[i];
                    let post = final(self).peers@[i];
                    &&& post.pid == pre.pid
                    &&& post.info.tip == pre.info.tip
                    &&& post.info.needs_our_inventory == false
                    &&& post.info.their_short_id_nonce == pre.info.their_short_id_nonce
                    &&& post.info.last_inventory_received == pre.info.last_inventory_received
                    &&& post.info.shortid_nonce == pre.info.shortid_nonce
                    &&& post.info.shortid_list@ == pre.info.shortid_list@
                },
    {
        let ghost oldpeers = self.peers@;
        let mut result: Vec<Peer> = Vec::new();
        while self.peers.len() > 0
            invariant
                self.storage == old(self).storage,
                self.mempool == old(self).mempool,
                self.target_tip == old(self).target_tip,
                self.network_pubkey == old(self).network_pubkey,
                self.self_id == old(self).self_id,
                self.shortid_nonce == old(self).shortid_nonce,
                self.shortid_nonce_ttl == old(self).shortid_nonce_ttl,
                oldpeers == old(self).peers@,
                self.peers@.len() <= oldpeers.len(),
                self.peers@ =~= oldpeers.subrange(
                    oldpeers.len() - self.peers@.len(),
                    oldpeers.len() as int,
                ),
                result@.len() == oldpeers.len() - self.peers@.len(),
                forall|i: int|
                    0 <= i < result@.len() ==> {
                        let pre = #[trigger] oldpeers[i];
                        let post = result@[i];
                        &&& post.pid == pre.pid
                        &&& post.info.tip == pre.info.tip
                        &&& post.info.needs_our_inventory == false
                        &&& post.info.their_short_id_nonce == pre.info.their_short_id_nonce
                        &&& post.info.last_inventory_received == pre.info.last_inventory_received
                        &&& post.info.shortid_nonce == pre.info.shortid_nonce
                        &&& post.info.shortid_list@ == pre.info.shortid_list@
                    },
            decreases self.peers@.len(),
        {
            let ghost i = oldpeers.len() - self.peers@.len();
            let mut p = self.peers.remove(0);
            proof {
                assert(p == oldpeers[i]);
                assert(self.peers@ =~= oldpeers.subrange(i + 1, oldpeers.len() as int));
            }
            p.info.needs_our_inventory = false;
            result.push(p);
        }
        self.peers = result;
        proof {
            assert forall|a: int, b: int|
                0 <= a < b < self.peers@.len() implies (#[trigger] self.peers@[a]).pid != (
            #[trigger] self.peers@[b]).pid by {
                assert(self.peers@[a].pid == oldpeers[a].pid);
                assert(self.peers@[b].pid == oldpeers[b].pid);
            }
        }
    }

    /// The node's mempool as a concatenated short-id list for one peer,
    /// under the nonce that peer asked for.
    fn mempool_inventory_for_peer(&self, pid: u64, nonce: u64) -> (list: Vec<u8>)
        requires
            self.wf(),
        ensures
            list@ == spec_inventory_list(self.mempool.items@, nonce, peer_bytes(pid)),
    {
        let pid_bytes = vstd::bytes::u64_to_le_bytes(pid);
        let ghost items = self.mempool.items@;
        let mut list: Vec<u8> = Vec::new();
        let mut i: usize = 0;
        while i < self.mempool.items.len()
            invariant
                self.wf(),
                items == self.mempool.items@,
                pid_bytes@ == peer_bytes(pid),
                pid_bytes@.len() == 8,
                i <= items.len(),
                list@ =~= spec_inventory_list(items.subrange(0, i as int), nonce, peer_bytes(pid)),
            decreases items.len() - i,
        {
            let txid = self.mempool.items[i].txid();
            let sid = short_id_bytes(nonce, pid_bytes.as_slice(), &txid.0);
            crate::encoding::write_bytes(&sid, &mut list);
            proof {
                assert(items.subrange(0, i + 1 as int).drop_last() =~= items.subrange(0, i as int));
                assert(items.subrange(0, i + 1 as int).last() == items[i as int]);
                assert(list@ =~= spec_inventory_list(
                    items.subrange(0, i + 1 as int),
                    nonce,
                    peer_bytes(pid),
                ));
            }
            i = i + 1;
        }
        proof {
            assert(items.subrange(0, items.len() as int) =~= items);
        }
        list
    }

    /// Called periodically (every second or two): rotates the short-id
    /// nonce when its countdown ends, sends the owed inventories, then
    /// either requests the next block (while the tip lags the target) or
    /// reconciles mempools, and finally re-asks silent peers for
    /// inventory. Never fails.
    pub fn synchronize(&mut self, now_ms: u64) -> (r: Vec<Envelope>)
        requires
            old(self).wf(),
        ensures
            final(self).wf(),
            final(self).storage == old(self).storage,
            final(self).mempool == old(self).mempool,
            final(self).target_tip == old(self).target_tip,
            final(self).network_pubkey == old(self).network_pubkey,
            final(self).self_id == old(self).self_id,
            old(self).shortid_nonce_ttl > 1 ==> final(self).shortid_nonce_ttl == old(
                self,
            ).shortid_nonce_ttl - 1 && final(self).shortid_nonce == old(self).shortid_nonce,
            old(self).shortid_nonce_ttl == 1 ==> final(self).shortid_nonce_ttl
                == SHORTID_NONCE_TTL,
            final(self).peers@.len() == old(self).peers@.len(),
            forall|i: int|
                0 <= i < old(self).peers@.len() ==> {
                    let pre = #[trigger] old(self).peers@[i];
                    let post = final(self).peers@[i];
                    &&& post.pid == pre.pid
                    &&& post.info.tip == pre.info.tip
                    &&& post.info.needs_our_inventory == false
                    &&& post.info.their_short_id_nonce == pre.info.their_short_id_nonce
                    &&& post.info.last_inventory_received == pre.info.last_inventory_received
                    &&& (old(self).shortid_nonce_ttl == 1 ==> post.info.shortid_list@
                        == Seq::<u8>::empty() && post.info.shortid_nonce == final(self).shortid_nonce)
                    &&& (old(self).shortid_nonce_ttl > 1 ==> post.info.shortid_list@
                        == pre.info.shortid_list@ && post.info.shortid_nonce
                        == pre.info.shortid_nonce)
                },
            exists|n1: int, n2: int|
                {
                    &&& 0 <= n1 <= n2 <= r@.len()
                    &&& inv_section(
                        #[trigger] r@.subrange(0, n1),
                        old(self).peers@,
                        old(self).storage.state.tip,
                        old(self).storage.tip_signature,
                        old(self).mempool.items@,
                    )
                    &&& (old(self).target_tip.id_spec() != old(self).storage.state.tip.id_spec()
                        ==> chain_section(
                        #[trigger] r@.subrange(n1, n2),
                        final(self).peers@,
                        old(self).storage.state.tip,
                    ))
                    &&& (old(self).target_tip.id_spec() == old(self).storage.state.tip.id_spec()
                        ==> mempool_section(
                        r@.subrange(n1, n2),
                        final(self).peers@,
                        final(self).shortid_nonce,
                        old(self).self_id,
                        old(self).mempool.items@,
                    ))
                    &&& refresh_section(
                        r@.subrange(n2, r@.len() as int),
                        final(self).peers@,
                        now_ms,
                        final(self).shortid_nonce,
                    )
                },
    {
        // Step 1: rotate the short-id nonce on its countdown.
        self.rotate_shortid_nonce_if_needed();
        // Step 2: publish inventory to the peers that asked for it.
        let (tip_header, tip_signature) = self.storage.tip();
        let ghost peers_at_2 = self.peers@;
        let mut r: Vec<Envelope> = Vec::new();
        let mut i: usize = 0;
        while i < self.peers.len()
            invariant
                self.wf(),
                self.peers@ == peers_at_2,
                self.storage == old(self).storage,
                self.mempool == old(self).mempool,
                tip_header == self.storage.state.tip,
                tip_signature == self.storage.tip_signature,
                i <= peers_at_2.len(),
                inv_section(
                    r@,
                    peers_at_2.subrange(0, i as int),
                    tip_header,
                    tip_signature,
                    self.mempool.items@,
                ),
            decreases peers_at_2.len() - i,
        {
            let flagged = self.peers[i].info.needs_our_inventory;
            let ghost prevr = r@;
            if flagged {
                let pid = self.peers[i].pid;
                let their_nonce = self.peers[i].info.their_short_id_nonce;
                let list = self.mempool_inventory_for_peer(pid, their_nonce);
                r.push(
                    Envelope {
                        pid,
                        msg: Message::Inventory(
                            Inventory {
                                version: CURRENT_VERSION,
                                tip: tip_header,
                                tip_signature,
                                shortid_nonce: their_nonce,
                                shortid_list: list,
                            },
                        ),
                    },
                );
                proof {
                    assert(r@.drop_last() =~= prevr);
                }
            }
            proof {
                assert(peers_at_2.subrange(0, i + 1 as int).drop_last() =~= peers_at_2.subrange(
                    0,
                    i as int,
                ));
                assert(peers_at_2.subrange(0, i + 1 as int).last() == peers_at_2[i as int]);
                assert(inv_section(
                    r@,
                    peers_at_2.subrange(0, i + 1 as int),
                    tip_header,
                    tip_signature,
                    self.mempool.items@,
                ));
            }
            i = i + 1;
        }
        proof {
            assert(peers_at_2.subrange(0, peers_at_2.len() as int) =~= peers_at_2);
        }
        // The flags are cleared only after the whole loop, so no request
        // is lost if a send suspends.
        self.clear_inventory_flags();
        let ghost inv_msgs = r@;
        proof {
            lemma_inv_section_flags(
                inv_msgs,
                old(self).peers@,
                peers_at_2,
                tip_header,
                tip_signature,
                self.mempool.items@,
            );
        }
        let ghost n1 = r@.len() as int;
        // Step 3 or 4: pull the next block while the tip lags the
        // target, else reconcile mempools.
        let tip_id = self.storage.tip_id();
        let target_id = self.target_tip.id();
        let chain_lags = !bytes32_eq(&target_id.0, &tip_id.0);
        if chain_lags {
            if self.peers.len() > 0 && tip_header.height < u64::MAX {
                let rnd = next_u64(&mut self.rng);
                let idx = (rnd % (self.peers.len() as u64)) as usize;
                let pid = self.peers[idx].pid;
                r.push(
                    Envelope {
                        pid,
                        msg: Message::GetBlock(GetBlock { height: tip_header.height + 1 }),
                    },
                );
                proof {
                    assert(has_peer(self.peers@, pid));
                    assert(r@.subrange(n1, r@.len() as int) =~= seq![r@.last()]);
                    assert(r@.subrange(n1, r@.len() as int)[0] == r@.last());
                }
            }
        } else {
            let reqs = self.synchronize_mempool();
            let ghost reqs_view = reqs@;
            let mut reqs = reqs;
            let ghost pre_mid = r@;
            while reqs.len() > 0
                invariant
                    reqs_view.len() >= reqs@.len(),
                    reqs@ =~= reqs_view.subrange(
                        reqs_view.len() - reqs@.len(),
                        reqs_view.len() as int,
                    ),
                    r@ =~= pre_mid + reqs_view.subrange(0, reqs_view.len() - reqs@.len()),
                decreases reqs@.len(),
            {
                let ghost k = reqs_view.len() - reqs@.len();
                let e = reqs.remove(0);
                proof {
                    assert(e == reqs_view[k]);
                    assert(reqs@ =~= reqs_view.subrange(k + 1, reqs_view.len() as int));
                }
                r.push(e);
                proof {
                    assert(r@ =~= pre_mid + reqs_view.subrange(0, k + 1));
                }
            }
            proof {
                assert(reqs_view.subrange(0, reqs_view.len() as int) =~= reqs_view);
                assert(r@.subrange(n1, r@.len() as int) =~= reqs_view);
            }
        }
        let ghost n2 = r@.len() as int;
        let ghost mid_msgs = r@.subrange(n1, n2);
        // Step 5: ask silent peers for inventory again.
        let ghost peers_final = self.peers@;
        let ghost pre_refresh = r@;
        let nonce = self.shortid_nonce;
        let mut i: usize = 0;
        while i < self.peers.len()
            invariant
                self.peers@ == peers_final,
                self.shortid_nonce == nonce,
                i <= peers_final.len(),
                r@.len() >= pre_refresh.len(),
                r@.subrange(0, pre_refresh.len() as int) =~= pre_refresh,
                refresh_section(
                    r@.subrange(pre_refresh.len() as int, r@.len() as int),
                    peers_final.subrange(0, i as int),
                    now_ms,
                    nonce,
                ),
            decreases peers_final.len() - i,
        {
            let last = self.peers[i].info.last_inventory_received;
            let stale = now_ms > last && now_ms - last > INVENTORY_REFRESH_MS;
            let ghost prevr = r@;
            if stale {
                r.push(
                    Envelope {
                        pid: self.peers[i].pid,
                        msg: Message::GetInventory(
                            GetInventory { version: CURRENT_VERSION, shortid_nonce: nonce },
                        ),
                    },
                );
                proof {
                    assert(r@.subrange(0, pre_refresh.len() as int) =~= pre_refresh);
                    assert(r@.subrange(pre_refresh.len() as int, r@.len() as int).drop_last()
                        =~= prevr.subrange(pre_refresh.len() as int, prevr.len() as int));
                }
            }
            proof {
                assert(peer_is_stale(peers_final[i as int], now_ms) == stale);
                assert(peers_final.subrange(0, i + 1 as int).drop_last() =~= peers_final.subrange(
                    0,
                    i as int,
                ));
                assert(peers_final.subrange(0, i + 1 as int).last() == peers_final[i as int]);
                assert(refresh_section(
                    r@.subrange(pre_refresh.len() as int, r@.len() as int),
                    peers_final.subrange(0, i + 1 as int),
                    now_ms,
                    nonce,
                ));
            }
            i = i + 1;
        }
        proof {
            assert(peers_final.subrange(0, peers_final.len() as int) =~= peers_final);
            assert(r@.subrange(0, n1) =~= pre_refresh.subrange(0, n1));
            assert(pre_refresh.subrange(0, n1) =~= inv_msgs);
            assert(r@.subrange(n1, n2) =~= pre_refresh.subrange(n1, n2));
            assert(pre_refresh.subrange(n1, n2) =~= mid_msgs);
            assert(inv_section(
                r@.subrange(0, n1),
                old(self).peers@,
                old(self).storage.state.tip,
                old(self).storage.tip_signature,
                old(self).mempool.items@,
            ));
            assert(old(self).target_tip.id_spec() != old(self).storage.state.tip.id_spec()
                ==> chain_section(r@.subrange(n1, n2), self.peers@, old(self).storage.state.tip));
            assert(old(self).target_tip.id_spec() == old(self).storage.state.tip.id_spec()
                ==> mempool_section(
                r@.subrange(n1, n2),
                self.peers@,
                self.shortid_nonce,
                old(self).self_id,
                old(self).mempool.items@,
            ));
            assert(refresh_section(
                r@.subrange(n2, r@.len() as int),
                self.peers@,
                now_ms,
                self.shortid_nonce,
            ));
            assert(0 <= n1 <= n2 <= r@.len());
        }
        r
    }

    /// Builds the round-robin mempool requests: claims each advertised
    /// short id for the first peer showing it, skipping ids already in
    /// our mempool and ids already claimed this tick.
    #[verifier::loop_isolation(false)]
    #[verifier::rlimit(60)]
    fn synchronize_mempool(&self) -> (r: Vec<Envelope>)
        requires
            self.wf(),
        ensures
            mempool_section(
                r@,
                self.peers@,
                self.shortid_nonce,
                self.self_id,
                self.mempool.items@,
            ),
    {
        let nonce = self.shortid_nonce;
        let self_bytes = vstd::bytes::u64_to_le_bytes(self.self_id);
        let shortener = Transform::new(nonce, self_bytes.as_slice());
        let ghost items = self.mempool.items@;
        let ghost peers = self.peers@;
        // Seed the claimed set with the short ids of our own entries.
        let mut assigned: Vec<u64> = Vec::new();
        let mut i: usize = 0;
        while i < self.mempool.items.len()
            invariant
                shortener.nonce == nonce,
                shortener.peer@ == peer_bytes(self.self_id),
                shortener.peer@.len() == 8,
                i <= items.len(),
                assigned@.len() == i,
                forall|k: int|
                    0 <= k < i ==> assigned@[k] == spec_short_id(
                        nonce,
                        peer_bytes(self.self_id),
                        (#[trigger] items[k]).tx.txid_spec(),
                    ),
            decreases items.len() - i,
        {
            let txid = self.mempool.items[i].txid();
            let id = shortener.apply(&txid.0);
            assigned.push(id.0);
            i = i + 1;
        }
        // One (possibly empty) claim list per peer.
        let mut lists: Vec<Vec<u8>> = Vec::new();
        let mut i: usize = 0;
        while i < self.peers.len()
            invariant
                i <= peers.len(),
                lists@.len() == i,
                forall|k: int| 0 <= k < i ==> (#[trigger] lists@[k])@.len() == 0,
            decreases peers.len() - i,
        {
            lists.push(Vec::new());
            i = i + 1;
        }
        proof {
            assert(claims_ok(assigned@, lists@, peers, items, nonce, self.self_id));
        }
        // Round-robin over positions: claim each advertised id for the
        // first peer that shows it and is not repeating a known one.
        let mut offset: usize = 0;
        let mut done = false;
        while offset < SYNC_OFFSET_CAP && !done
            invariant
                offset <= SYNC_OFFSET_CAP,
                claims_ok(assigned@, lists@, peers, items, nonce, self.self_id),
                forall|qi: int, o: int|
                    0 <= qi < peers.len() && 0 <= o < (
                    #[trigger] peers[qi]).info.shortid_list@.len() / 6 && o < offset
                        ==> in_assigned(
                        assigned@,
                        le48(#[trigger] peers[qi].info.shortid_list@.subrange(6 * o, 6 * o + 6)),
                    ),
                done ==> forall|qi: int|
                    0 <= qi < peers.len() ==> (#[trigger] peers[qi]).info.shortid_list@.len() / 6
                        <= offset - 1,
            decreases SYNC_OFFSET_CAP - offset,
        {
            done = true;
            let mut pi: usize = 0;
            while pi < self.peers.len()
                invariant
                    pi <= peers.len(),
                    offset < SYNC_OFFSET_CAP,
                    claims_ok(assigned@, lists@, peers, items, nonce, self.self_id),
                    forall|qi: int, o: int|
                        0 <= qi < peers.len() && 0 <= o < (
                        #[trigger] peers[qi]).info.shortid_list@.len() / 6 && (o < offset || (o
                            == offset && qi < pi)) ==> in_assigned(
                            assigned@,
                            le48(
                                #[trigger] peers[qi].info.shortid_list@.subrange(
                                    6 * o,
                                    6 * o + 6,
                                ),
                            ),
                        ),
                    done ==> forall|qi: int|
                        0 <= qi < pi ==> (#[trigger] peers[qi]).info.shortid_list@.len() / 6
                            <= offset,
                decreases peers.len() - pi,
            {
                match ShortID::at_position(offset, self.peers[pi].info.shortid_list.as_slice()) {
                    Some(id) => {
                        done = false;
                        if !contains_u64(&assigned, id.0) {
                            let ghost old_assigned = assigned@;
                            let ghost old_lists = lists@;
                            assigned.push(id.0);
                            let b = id.to_bytes();
                            let mut lp = lists.remove(pi);
                            let ghost old_lp = lp@;
                            crate::encoding::write_bytes(&b, &mut lp);
                            lists.insert(pi, lp);
                            proof {
                                lemma_claim_step(
                                    old_assigned,
                                    old_lists,
                                    assigned@,
                                    lists@,
                                    peers,
                                    items,
                                    nonce,
                                    self.self_id,
                                    pi as int,
                                    id.0,
                                    b@,
                                    offset as int,
                                );
                                assert(assigned@[assigned@.len() - 1] == id.0);
                                assert forall|qi: int, o: int|
                                    0 <= qi < peers.len() && 0 <= o < (
                                    #[trigger] peers[qi]).info.shortid_list@.len() / 6 && (o
                                        < offset || (o == offset && qi < pi + 1))
                                    implies in_assigned(
                                    assigned@,
                                    le48(
                                        #[trigger] peers[qi].info.shortid_list@.subrange(
                                            6 * o,
                                            6 * o + 6,
                                        ),
                                    ),
                                ) by {
                                    let v = le48(
                                        peers[qi].info.shortid_list@.subrange(6 * o, 6 * o + 6),
                                    );
                                    if qi == pi && o == offset {
                                        assert(in_assigned(assigned@, v));
                                    } else {
                                        assert(in_assigned(old_assigned, v));
                                        let w = choose|w: int|
                                            0 <= w < old_assigned.len() && old_assigned[w]
                                                == v;
                                        assert(assigned@[w] == v);
                                    }
                                }
                            }
                        } else {
                            proof {
                                assert(in_assigned(
                                    assigned@,
                                    le48(
                                        peers[pi as int].info.shortid_list@.subrange(
                                            6 * offset,
                                            6 * offset + 6,
                                        ),
                                    ),
                                ));
                            }
                        }
                    },
                    None => {},
                }
                pi = pi + 1;
            }
            offset = offset + 1;
        }
        proof {
            assert forall|qi: int, o: int|
                0 <= qi < peers.len() && 0 <= o < (
                #[trigger] peers[qi]).info.shortid_list@.len() / 6 && o < SYNC_OFFSET_CAP
                implies in_assigned(
                assigned@,
                le48(#[trigger] peers[qi].info.shortid_list@.subrange(6 * o, 6 * o + 6)),
            ) by {
                if done {
                    assert(peers[qi].info.shortid_list@.len() / 6 <= offset - 1);
                }
            }
        }
        // Emit one request per peer that has claims, in peer order.
        let ghost lists0 = lists@;
        proof {
            assert(claims_ok(assigned@, lists0, peers, items, nonce, self.self_id));
        }
        let mut r: Vec<Envelope> = Vec::new();
        let mut pi: usize = 0;
        while pi < self.peers.len()
            invariant
                pi <= peers.len(),
                lists@ =~= lists0.subrange(pi as int, lists0.len() as int),
                forall|k: int|
                    0 <= k < r@.len() ==> exists|pj: int|
                        0 <= pj < pi && (#[trigger] r@[k]).pid == peers[pj].pid && r@[k].msg
                            is GetMempoolTxs && r@[k].msg->GetMempoolTxs_0.shortid_nonce == nonce
                            && req_list(r@[k]) == lists0[pj]@ && lists0[pj]@.len() > 0,
                forall|pj: int|
                    0 <= pj < pi && (#[trigger] lists0[pj])@.len() > 0 ==> exists|k: int|
                        0 <= k < r@.len() && (#[trigger] r@[k]).pid == peers[pj].pid && req_list(
                            r@[k],
                        ) == lists0[pj]@,
                forall|k1: int, k2: int|
                    0 <= k1 < k2 < r@.len() ==> (#[trigger] r@[k1]).pid != (#[trigger] r@[k2]).pid,
            decreases peers.len() - pi,
        {
            let list = lists.remove(0);
            proof {
                assert(list == lists0[pi as int]);
                assert(lists@ =~= lists0.subrange(pi + 1 as int, lists0.len() as int));
            }
            if list.len() > 0 {
                let pid = self.peers[pi].pid;
                let ghost prevr = r@;
                r.push(
                    Envelope {
                        pid,
                        msg: Message::GetMempoolTxs(
                            GetMempoolTxs { shortid_nonce: nonce, shortid_list: list },
                        ),
                    },
                );
                proof {
                    assert(req_list(r@.last()) == lists0[pi as int]@);
                    assert forall|k1: int, k2: int|
                        0 <= k1 < k2 < r@.len() implies (#[trigger] r@[k1]).pid != (
                    #[trigger] r@[k2]).pid by {
                        if k2 == r@.len() - 1 {
                            let pj = choose|pj: int|
                                0 <= pj < pi && (#[trigger] prevr[k1]).pid == peers[pj].pid
                                    && prevr[k1].msg is GetMempoolTxs
                                    && prevr[k1].msg->GetMempoolTxs_0.shortid_nonce == nonce
                                    && req_list(prevr[k1]) == lists0[pj]@ && lists0[pj]@.len() > 0;
                            assert(peers[pj].pid != peers[pi as int].pid);
                        }
                    }
                    assert forall|k: int|
                        0 <= k < r@.len() implies exists|pj: int|
                        0 <= pj < pi + 1 && (#[trigger] r@[k]).pid == peers[pj].pid && r@[k].msg
                            is GetMempoolTxs && r@[k].msg->GetMempoolTxs_0.shortid_nonce == nonce
                            && req_list(r@[k]) == lists0[pj]@ && lists0[pj]@.len() > 0 by {
                        if k < r@.len() - 1 {
                            assert(r@[k] == prevr[k]);
                        } else {
                            assert(r@[k].pid == peers[pi as int].pid);
                        }
                    }
                    assert forall|pj: int|
                        0 <= pj < pi + 1 && (#[trigger] lists0[pj])@.len() > 0 implies exists|
                        k: int,
                    |
                        0 <= k < r@.len() && (#[trigger] r@[k]).pid == peers[pj].pid && req_list(
                            r@[k],
                        ) == lists0[pj]@ by {
                        if pj < pi {
                            let k = choose|k: int|
                                0 <= k < prevr.len() && (#[trigger] prevr[k]).pid
                                    == peers[pj].pid && req_list(prevr[k]) == lists0[pj]@;
                            assert(r@[k] == prevr[k]);
                        } else {
                            assert(r@[r@.len() - 1].pid == peers[pi as int].pid);
                        }
                    }
                }
            }
            pi = pi + 1;
        }
        proof {
            assert forall|k: int, o: int|
                0 <= k < r@.len() && 0 <= o < req_list(#[trigger] r@[k]).len() / 6 implies {
                &&& peer_advertises(
                    peers,
                    r@[k].pid,
                    le48(#[trigger] req_list(r@[k]).subrange(6 * o, 6 * o + 6)),
                )
                &&& !is_our_shortid(
                    items,
                    nonce,
                    self.self_id,
                    le48(req_list(r@[k]).subrange(6 * o, 6 * o + 6)),
                )
            } by {
                let pj = choose|pj: int|
                    0 <= pj < peers.len() && (#[trigger] r@[k]).pid == peers[pj].pid && r@[k].msg
                        is GetMempoolTxs && r@[k].msg->GetMempoolTxs_0.shortid_nonce == nonce
                        && req_list(r@[k]) == lists0[pj]@ && lists0[pj]@.len() > 0;
                assert(id_in_list(
                    le48(lists0[pj]@.subrange(6 * o, 6 * o + 6)),
                    peers[pj].info.shortid_list@,
                ));
                lemma_claims_not_ours(
                    assigned@,
                    lists0,
                    peers,
                    items,
                    nonce,
                    self.self_id,
                    pj,
                    o,
                );
            }
            assert forall|pi2: int, o: int|
                0 <= pi2 < peers.len() && 0 <= o < (
                #[trigger] peers[pi2]).info.shortid_list@.len() / 6 && o < SYNC_OFFSET_CAP
                implies is_our_shortid(
                items,
                nonce,
                self.self_id,
                le48(#[trigger] peers[pi2].info.shortid_list@.subrange(6 * o, 6 * o + 6)),
            ) || claimed_in(
                r@,
                le48(peers[pi2].info.shortid_list@.subrange(6 * o, 6 * o + 6)),
            ) by {
                let v = le48(peers[pi2].info.shortid_list@.subrange(6 * o, 6 * o + 6));
                assert(in_assigned(assigned@, v));
                let k = choose|k: int| 0 <= k < assigned@.len() && assigned@[k] == v;
                if k < items.len() {
                    assert(spec_short_id(nonce, peer_bytes(self.self_id), items[k].tx.txid_spec())
                        == v);
                    assert(is_our_shortid(items, nonce, self.self_id, v));
                } else {
                    let (q, o2) = choose|q: int, o2: int|
                        0 <= q < lists0.len() && 0 <= o2 < lists0[q]@.len() / 6 && le48(
                            #[trigger] lists0[q]@.subrange(6 * o2, 6 * o2 + 6),
                        ) == assigned@[k];
                    assert(lists0[q]@.len() > 0);
                    let m = choose|m: int|
                        0 <= m < r@.len() && (#[trigger] r@[m]).pid == peers[q].pid && req_list(
                            r@[m],
                        ) == lists0[q]@;
                    assert(le48(req_list(r@[m]).subrange(6 * o2, 6 * o2 + 6)) == v);
                    assert(claimed_in(r@, v));
                }
            }
            assert forall|k1: int, o1: int, k2: int, o2: int|
                0 <= k1 < r@.len() && 0 <= o1 < req_list(r@[k1]).len() / 6 && 0 <= k2 < r@.len()
                    && 0 <= o2 < req_list(r@[k2]).len() / 6 && (k1 != k2 || o1 != o2) implies le48(
                #[trigger] req_list(r@[k1]).subrange(6 * o1, 6 * o1 + 6),
            ) != le48(#[trigger] req_list(r@[k2]).subrange(6 * o2, 6 * o2 + 6)) by {
                let pj1 = choose|pj: int|
                    0 <= pj < peers.len() && (#[trigger] r@[k1]).pid == peers[pj].pid && r@[k1].msg
                        is GetMempoolTxs && r@[k1].msg->GetMempoolTxs_0.shortid_nonce == nonce
                        && req_list(r@[k1]) == lists0[pj]@ && lists0[pj]@.len() > 0;
                let pj2 = choose|pj: int|
                    0 <= pj < peers.len() && (#[trigger] r@[k2]).pid == peers[pj].pid && r@[k2].msg
                        is GetMempoolTxs && r@[k2].msg->GetMempoolTxs_0.shortid_nonce == nonce
                        && req_list(r@[k2]) == lists0[pj]@ && lists0[pj]@.len() > 0;
                if k1 != k2 {
                    assert(r@[k1].pid != r@[k2].pid);
                    assert(pj1 != pj2);
                }
            }
        }
        r
    }
}

/// The invariant of the round-robin claim pass: the first `seed` values
/// of `assigned` are the short ids of our own mempool entries; every
/// later value was claimed once, differs from everything before it, and
/// stands as a 6-byte chunk in the claiming peer's list; every chunk of
/// every list is advertised by its peer; and no two chunk positions
/// carry the same value.
spec fn claims_ok(
    assigned: Seq<u64>,
    lists: Seq<Vec<u8>>,
    peers: Seq<Peer>,
    items: Seq<MempoolTx>,
    nonce: u64,
    self_id: u64,
) -> bool {
    &&& lists.len() == peers.len()
    &&& assigned.len() >= items.len()
    &&& forall|k: int|
        0 <= k < items.len() ==> assigned[k] == spec_short_id(
            nonce,
            peer_bytes(self_id),
            (#[trigger] items[k]).tx.txid_spec(),
        )
    &&& forall|k: int, k2: int|
        items.len() <= k < assigned.len() && 0 <= k2 < k ==> #[trigger] assigned[k2] != (
        #[trigger] assigned[k])
    &&& forall|pi: int| 0 <= pi < lists.len() ==> (#[trigger] lists[pi])@.len() % 6 == 0
    &&& forall|pi: int, o: int|
        0 <= pi < lists.len() && 0 <= o < (#[trigger] lists[pi])@.len() / 6 ==> {
            &&& exists|k: int|
                items.len() <= k < assigned.len() && assigned[k] == le48(
                    #[trigger] lists[pi]@.subrange(6 * o, 6 * o + 6),
                )
            &&& id_in_list(
                le48(lists[pi]@.subrange(6 * o, 6 * o + 6)),
                peers[pi].info.shortid_list@,
            )
        }
    &&& forall|pi: int, o: int, pj: int, o2: int|
        0 <= pi < lists.len() && 0 <= o < lists[pi]@.len() / 6 && 0 <= pj < lists.len() && 0 <= o2
            < lists[pj]@.len() / 6 && (pi != pj || o != o2) ==> le48(
            #[trigger] lists[pi]@.subrange(6 * o, 6 * o + 6),
        ) != le48(#[trigger] lists[pj]@.subrange(6 * o2, 6 * o2 + 6))
    &&& forall|k: int|
        items.len() <= k < assigned.len() ==> exists|pi: int, o: int|
            0 <= pi < lists.len() && 0 <= o < lists[pi]@.len() / 6 && le48(
                #[trigger] lists[pi]@.subrange(6 * o, 6 * o + 6),
            ) == #[trigger] assigned[k]
}

/// One claim step preserves the claim-pass invariant: a fresh value,
/// advertised by peer `pi` at position `offset`, joins the claimed set
/// and that peer's list.
#[verifier::rlimit(60)]
proof fn lemma_claim_step(
    old_assigned: Seq<u64>,
    old_lists: Seq<Vec<u8>>,
    new_assigned: Seq<u64>,
    new_lists: Seq<Vec<u8>>,
    peers: Seq<Peer>,
    items: Seq<MempoolTx>,
    nonce: u64,
    self_id: u64,
    pi: int,
    v: u64,
    b: Seq<u8>,
    offset: int,
)
    requires
        claims_ok(old_assigned, old_lists, peers, items, nonce, self_id),
        0 <= pi < old_lists.len(),
        forall|k: int| 0 <= k < old_assigned.len() ==> old_assigned[k] != v,
        new_assigned == old_assigned.push(v),
        b.len() == 6,
        le48(b) == v,
        new_lists.len() == old_lists.len(),
        forall|q: int| 0 <= q < old_lists.len() && q != pi ==> new_lists[q] == old_lists[q],
        new_lists[pi]@ == old_lists[pi]@ + b,
        0 <= offset < peers[pi].info.shortid_list@.len() / 6,
        le48(peers[pi].info.shortid_list@.subrange(6 * offset, 6 * offset + 6)) == v,
    ensures
        claims_ok(new_assigned, new_lists, peers, items, nonce, self_id),
{
    let old_count: int = old_lists[pi]@.len() as int / 6;
    assert(new_lists[pi]@.len() == old_lists[pi]@.len() + 6);
    assert(new_lists[pi]@.len() / 6 == old_count + 1);
    assert forall|o: int| 0 <= o < old_count implies #[trigger] new_lists[pi]@.subrange(
        6 * o,
        6 * o + 6,
    ) == old_lists[pi]@.subrange(6 * o, 6 * o + 6) by {
        assert(new_lists[pi]@.subrange(6 * o, 6 * o + 6) =~= old_lists[pi]@.subrange(
            6 * o,
            6 * o + 6,
        ));
    }
    assert(new_lists[pi]@.subrange(6 * old_count, 6 * old_count + 6) =~= b);
    assert(id_in_list(v as int, peers[pi].info.shortid_list@));
    // every chunk is claimed and advertised
    assert forall|q: int, o: int|
        0 <= q < new_lists.len() && 0 <= o < (#[trigger] new_lists[q])@.len() / 6 implies {
        &&& exists|k: int|
            items.len() <= k < new_assigned.len() && new_assigned[k] == le48(
                #[trigger] new_lists[q]@.subrange(6 * o, 6 * o + 6),
            )
        &&& id_in_list(le48(new_lists[q]@.subrange(6 * o, 6 * o + 6)), peers[q].info.shortid_list@)
    } by {
        if q != pi || o < old_count {
            let w = le48(old_lists[q]@.subrange(6 * o, 6 * o + 6));
            assert(le48(new_lists[q]@.subrange(6 * o, 6 * o + 6)) == w);
            let k = choose|k: int|
                items.len() <= k < old_assigned.len() && old_assigned[k] == w;
            assert(new_assigned[k] == w);
        } else {
            assert(le48(new_lists[q]@.subrange(6 * o, 6 * o + 6)) == v);
            assert(new_assigned[old_assigned.len() as int] == v);
            assert(old_assigned.len() >= items.len());
        }
    }
    // every claimed value stands as a chunk in some list
    assert forall|k: int|
        items.len() <= k < new_assigned.len() implies exists|q: int, o: int|
        0 <= q < new_lists.len() && 0 <= o < new_lists[q]@.len() / 6 && le48(
            #[trigger] new_lists[q]@.subrange(6 * o, 6 * o + 6),
        ) == #[trigger] new_assigned[k] by {
        if k < old_assigned.len() {
            let (q, o) = choose|q: int, o: int|
                0 <= q < old_lists.len() && 0 <= o < old_lists[q]@.len() / 6 && le48(
                    #[trigger] old_lists[q]@.subrange(6 * o, 6 * o + 6),
                ) == old_assigned[k];
            assert(le48(new_lists[q]@.subrange(6 * o, 6 * o + 6)) == new_assigned[k]);
        } else {
            assert(le48(new_lists[pi]@.subrange(6 * old_count, 6 * old_count + 6))
                == new_assigned[k]);
        }
    }
    // no two chunk positions carry the same value
    assert forall|q1: int, o1: int, q2: int, o2: int|
        0 <= q1 < new_lists.len() && 0 <= o1 < new_lists[q1]@.len() / 6 && 0 <= q2
            < new_lists.len() && 0 <= o2 < new_lists[q2]@.len() / 6 && (q1 != q2 || o1 != o2)
        implies le48(#[trigger] new_lists[q1]@.subrange(6 * o1, 6 * o1 + 6)) != le48(
        #[trigger] new_lists[q2]@.subrange(6 * o2, 6 * o2 + 6),
    ) by {
        let new1 = q1 == pi && o1 == old_count;
        let new2 = q2 == pi && o2 == old_count;
        if new1 && new2 {
            assert(false);
        } else if new1 {
            let w = le48(old_lists[q2]@.subrange(6 * o2, 6 * o2 + 6));
            assert(le48(new_lists[q2]@.subrange(6 * o2, 6 * o2 + 6)) == w);
            let k = choose|k: int|
                items.len() <= k < old_assigned.len() && old_assigned[k] == w;
            assert(old_assigned[k] != v);
        } else if new2 {
            let w = le48(old_lists[q1]@.subrange(6 * o1, 6 * o1 + 6));
            assert(le48(new_lists[q1]@.subrange(6 * o1, 6 * o1 + 6)) == w);
            let k = choose|k: int|
                items.len() <= k < old_assigned.len() && old_assigned[k] == w;
            assert(old_assigned[k] != v);
        } else {
            assert(le48(new_lists[q1]@.subrange(6 * o1, 6 * o1 + 6)) == le48(
                old_lists[q1]@.subrange(6 * o1, 6 * o1 + 6),
            ));
            assert(le48(new_lists[q2]@.subrange(6 * o2, 6 * o2 + 6)) == le48(
                old_lists[q2]@.subrange(6 * o2, 6 * o2 + 6),
            ));
        }
    }
}

/// A claimed value is never one of our own mempool's short ids.
proof fn lemma_claims_not_ours(
    assigned: Seq<u64>,
    lists: Seq<Vec<u8>>,
    peers: Seq<Peer>,
    items: Seq<MempoolTx>,
    nonce: u64,
    self_id: u64,
    pi: int,
    o: int,
)
    requires
        claims_ok(assigned, lists, peers, items, nonce, self_id),
        0 <= pi < lists.len(),
        0 <= o < lists[pi]@.len() / 6,
    ensures
        !is_our_shortid(items, nonce, self_id, le48(lists[pi]@.subrange(6 * o, 6 * o + 6))),
{
    let v = le48(lists[pi]@.subrange(6 * o, 6 * o + 6));
    let k = choose|k: int| items.len() <= k < assigned.len() && assigned[k] == v;
    if is_our_shortid(items, nonce, self_id, v) {
        let i = choose|i: int|
            0 <= i < items.len() && spec_short_id(
                nonce,
                peer_bytes(self_id),
                (#[trigger] items[i]).tx.txid_spec(),
            ) == v;
        assert(assigned[i] == v);
        assert(assigned[i] != assigned[k]);
    }
}

/// Inventories owed do not depend on flags being cleared afterwards:
/// the section over the peers as they were when the messages were built
/// holds over any earlier view with the same flags and fields.
proof fn lemma_inv_section_flags(
    msgs: Seq<Envelope>,
    pre: Seq<Peer>,
    at2: Seq<Peer>,
    tip: BlockHeader,
    sig: [u8; 64],
    items: Seq<MempoolTx>,
)
    requires
        pre.len() == at2.len(),
        forall|i: int|
            0 <= i < pre.len() ==> (#[trigger] at2[i]).pid == pre[i].pid
                && at2[i].info.needs_our_inventory == pre[i].info.needs_our_inventory
                && at2[i].info.their_short_id_nonce == pre[i].info.their_short_id_nonce,
        inv_section(msgs, at2, tip, sig, items),
    ensures
        inv_section(msgs, pre, tip, sig, items),
    decreases pre.len(),
{
    if pre.len() > 0 {
        assert(forall|i: int|
            0 <= i < pre.drop_last().len() ==> (#[trigger] at2.drop_last()[i]) == at2[i]
                && pre.drop_last()[i] == pre[i]);
        if at2.last().info.needs_our_inventory {
            lemma_inv_section_flags(msgs.drop_last(), pre.drop_last(), at2.drop_last(), tip, sig, items);
            assert(is_inventory_for(msgs.last(), tip, sig, items, pre.last()));
        } else {
            lemma_inv_section_flags(msgs, pre.drop_last(), at2.drop_last(), tip, sig, items);
        }
    }
}

/// Whether a short-id value occurs in a scanned list.


fn shortid_vec_contains(v: &Vec<ShortID>, x: u64) -> (r: bool)
    ensures
        r == exists|k: int| 0 <= k < v@.len() && (#[trigger] v@[k]).0 == x,
{
    let mut i: usize = 0;
    while i < v.len()
        invariant
            i <= v@.len(),
            forall|k: int| 0 <= k < i ==> (#[trigger] v@[k]).0 != x,
        decreases v@.len() - i,
    {
        if v[i].0 == x {
            return true;
        }
        i = i + 1;
    }
    false
}

/// The effect of an inventory request: flag the peer for the next tick
/// and remember the nonce it asked for; a version mismatch changes
/// nothing and is fatal.
pub open spec fn inventory_request_effect(
    pre: Node,
    post: Node,
    pid: u64,
    request: GetInventory,
    r: Result<Vec<Envelope>, BlockchainError>,
) -> bool {
    &&& post.storage == pre.storage
    &&& post.mempool == pre.mempool
    &&& post.target_tip == pre.target_tip
    &&& post.shortid_nonce == pre.shortid_nonce
    &&& post.shortid_nonce_ttl == pre.shortid_nonce_ttl
    &&& request.version != CURRENT_VERSION ==> r == Result::<Vec<Envelope>, BlockchainError>::Err(
        BlockchainError::IncompatibleVersion,
    ) && post.peers@ == pre.peers@
    &&& request.version == CURRENT_VERSION ==> {
        &&& r matches Ok(msgs) && msgs@.len() == 0
        &&& post.peers@.len() == pre.peers@.len()
        &&& forall|i: int|
            0 <= i < pre.peers@.len() ==> {
                &&& (#[trigger] post.peers@[i]).pid == pre.peers@[i].pid
                &&& pre.peers@[i].pid != pid ==> post.peers@[i] == pre.peers@[i]
                &&& pre.peers@[i].pid == pid ==> post.peers@[i].info == (PeerInfo {
                    needs_our_inventory: true,
                    their_short_id_nonce: request.shortid_nonce,
                    ..pre.peers@[i].info
                })
            }
    }
}

/// The effect of an inventory announcement: adopt a strictly higher,
/// authenticated tip as the target and record the peer's view. A version
/// mismatch or a bad signature on a higher tip changes nothing and is
/// fatal. A tip at or below the target is accepted without a signature
/// check.
pub open spec fn inventory_effect(
    pre: Node,
    post: Node,
    pid: u64,
    inventory: Inventory,
    now_ms: u64,
    r: Result<Vec<Envelope>, BlockchainError>,
) -> bool {
    &&& post.storage == pre.storage
    &&& post.mempool == pre.mempool
    &&& post.shortid_nonce == pre.shortid_nonce
    &&& post.shortid_nonce_ttl == pre.shortid_nonce_ttl
    &&& inventory.version != CURRENT_VERSION ==> r == Result::<
        Vec<Envelope>,
        BlockchainError,
    >::Err(BlockchainError::IncompatibleVersion) && post.peers@ == pre.peers@ && post.target_tip
        == pre.target_tip
    &&& (inventory.version == CURRENT_VERSION && inventory.tip.height > pre.target_tip.height
        && !sig_check(inventory.tip_signature@, inventory.tip.id_spec(), pre.network_pubkey@))
        ==> r == Result::<Vec<Envelope>, BlockchainError>::Err(
        BlockchainError::InvalidBlockSignature,
    ) && post.peers@ == pre.peers@ && post.target_tip == pre.target_tip
    &&& (inventory.version == CURRENT_VERSION && (inventory.tip.height <= pre.target_tip.height
        || sig_check(inventory.tip_signature@, inventory.tip.id_spec(), pre.network_pubkey@)))
        ==> {
        &&& r matches Ok(msgs) && msgs@.len() == 0
        &&& post.target_tip == if inventory.tip.height > pre.target_tip.height {
            inventory.tip
        } else {
            pre.target_tip
        }
        &&& post.peers@.len() == pre.peers@.len()
        &&& forall|i: int|
            0 <= i < pre.peers@.len() ==> {
                &&& (#[trigger] post.peers@[i]).pid == pre.peers@[i].pid
                &&& pre.peers@[i].pid != pid ==> post.peers@[i] == pre.peers@[i]
                &&& pre.peers@[i].pid == pid ==> post.peers@[i].info == (PeerInfo {
                    tip: Some(inventory.tip),
                    shortid_nonce: inventory.shortid_nonce,
                    shortid_list: inventory.shortid_list,
                    last_inventory_received: now_ms,
                    ..pre.peers@[i].info
                })
            }
    }
}

/// The effect of receiving a block: a block that does not sit directly
/// on the tip is not relevant; one that does must carry the authority's
/// signature and a body the state accepts, and then advances the chain,
/// re-bases the mempool, and pulls the target along if it was passed.
pub open spec fn block_effect(
    pre: Node,
    post: Node,
    block_msg: Block,
    r: Result<Vec<Envelope>, BlockchainError>,
) -> bool {
    &&& post.shortid_nonce == pre.shortid_nonce
    &&& post.shortid_nonce_ttl == pre.shortid_nonce_ttl
    &&& post.peers@ == pre.peers@
    &&& block_msg.header.height != pre.storage.state.tip.height + 1 ==> r == Result::<
        Vec<Envelope>,
        BlockchainError,
    >::Err(BlockchainError::BlockNotRelevant(block_msg.header.height)) && post.storage
        == pre.storage && post.mempool == pre.mempool && post.target_tip == pre.target_tip
    &&& (block_msg.header.height == pre.storage.state.tip.height + 1 && !sig_check(
        block_msg.signature@,
        block_msg.header.id_spec(),
        pre.network_pubkey@,
    )) ==> r == Result::<Vec<Envelope>, BlockchainError>::Err(
        BlockchainError::InvalidBlockSignature,
    ) && post.storage == pre.storage && post.mempool == pre.mempool && post.target_tip
        == pre.target_tip
    &&& (block_msg.header.height == pre.storage.state.tip.height + 1 && sig_check(
        block_msg.signature@,
        block_msg.header.id_spec(),
        pre.network_pubkey@,
    ) && !block_valid(pre.storage.state, block_msg.header, block_msg.txs@)) ==> r == Result::<
        Vec<Envelope>,
        BlockchainError,
    >::Err(BlockchainError::InvalidBlock) && post.storage == pre.storage && post.mempool
        == pre.mempool && post.target_tip == pre.target_tip
    &&& (block_msg.header.height == pre.storage.state.tip.height + 1 && sig_check(
        block_msg.signature@,
        block_msg.header.id_spec(),
        pre.network_pubkey@,
    ) && block_valid(pre.storage.state, block_msg.header, block_msg.txs@)) ==> {
        &&& r matches Ok(msgs) && msgs@.len() == 0
        &&& post.storage.state.tip == block_msg.header
        &&& uview(post.storage.state.utxos@) == post_utxo_ids(pre.storage.state, block_msg.txs@)
        &&& post.storage.tip_signature == block_msg.signature
        &&& post.storage.blocks@.len() == pre.storage.blocks@.len() + 1
        &&& post.storage.blocks@.last() == block_msg
        &&& post.storage.blocks@.subrange(0, pre.storage.blocks@.len() as int)
            == pre.storage.blocks@
        &&& post.mempool.state.tip == block_msg.header
        &&& post.mempool.items@ == retain_state(
            pre.mempool.items@,
            post.mempool.state,
            post.mempool.timestamp_ms,
        )
        &&& post.target_tip == if block_msg.header.height > pre.target_tip.height {
            block_msg.header
        } else {
            pre.target_tip
        }
    }
}

/// Whether a 48-bit short-id value occurs in a concatenated list.
pub open spec fn id_in_list(v: int, list: Seq<u8>) -> bool {
    exists|o: int| 0 <= o < list.len() / 6 && le48(#[trigger] list.subrange(6 * o, 6 * o + 6)) == v
}

/// The transactions of the entries whose short id, under the peer's
/// nonce and identifier, was requested; in mempool order.
pub open spec fn included_txs(items: Seq<MempoolTx>, nonce: u64, peer: Seq<u8>, list: Seq<u8>) -> Seq<
    BlockTx,
>
    decreases items.len(),
{
    if items.len() == 0 {
        Seq::empty()
    } else {
        included_txs(items.drop_last(), nonce, peer, list) + if id_in_list(
            spec_short_id(nonce, peer, items.last().tx.txid_spec()),
            list,
        ) {
            seq![items.last().tx]
        } else {
            Seq::<BlockTx>::empty()
        }
    }
}

/// The effect of absorbing relayed mempool transactions: a reply built
/// for a tip we have moved past is dropped; otherwise the transactions
/// are offered to the mempool one by one, skipping occupied places and
/// aborting on the first invalid transaction, which is fatal.
pub open spec fn mempool_txs_effect(
    pre: Node,
    post: Node,
    request: MempoolTxs,
    r: Result<Vec<Envelope>, BlockchainError>,
) -> bool {
    &&& post.target_tip == pre.target_tip
    &&& post.shortid_nonce == pre.shortid_nonce
    &&& post.shortid_nonce_ttl == pre.shortid_nonce_ttl
    &&& post.peers@ == pre.peers@
    &&& post.storage == pre.storage
    &&& post.mempool.state == pre.mempool.state
    &&& post.mempool.timestamp_ms == pre.mempool.timestamp_ms
    &&& request.tip.0@ != pre.storage.state.tip.id_spec() ==> r == Result::<
        Vec<Envelope>,
        BlockchainError,
    >::Err(BlockchainError::StaleMempoolState(request.tip.0)) && post.mempool == pre.mempool
    &&& request.tip.0@ == pre.storage.state.tip.id_spec() ==> {
        &&& (r matches Ok(msgs) && msgs@.len() == 0) || r == Result::<
            Vec<Envelope>,
            BlockchainError,
        >::Err(BlockchainError::MempoolValidation(crate::errors::MempoolError::InvalidTx))
        &&& r is Ok ==> absorbs(
            pre.mempool.state,
            pre.mempool.timestamp_ms,
            pre.mempool.items@,
            request.txs@,
            post.mempool.items@,
            false,
        )
        &&& r is Err ==> absorbs(
            pre.mempool.state,
            pre.mempool.timestamp_ms,
            pre.mempool.items@,
            request.txs@,
            post.mempool.items@,
            true,
        )
    }
}

/// The concatenated short ids of the mempool entries, shortened for a
/// peer under the nonce it asked for.
pub open spec fn spec_inventory_list(items: Seq<MempoolTx>, nonce: u64, peer: Seq<u8>) -> Seq<u8>
    decreases items.len(),
{
    if items.len() == 0 {
        Seq::empty()
    } else {
        spec_inventory_list(items.drop_last(), nonce, peer) + short_id_digest(
            nonce,
            peer,
            items.last().tx.txid_spec(),
        )
    }
}

/// The envelope is the inventory owed to peer `p`.
pub open spec fn is_inventory_for(
    e: Envelope,
    tip: BlockHeader,
    sig: [u8; 64],
    items: Seq<MempoolTx>,
    p: Peer,
) -> bool {
    &&& e.pid == p.pid
    &&& e.msg matches Message::Inventory(inv) && {
        &&& inv.version == CURRENT_VERSION
        &&& inv.tip == tip
        &&& inv.tip_signature == sig
        &&& inv.shortid_nonce == p.info.their_short_id_nonce
        &&& inv.shortid_list@ == spec_inventory_list(
            items,
            p.info.their_short_id_nonce,
            peer_bytes(p.pid),
        )
    }
}

/// The messages are exactly the inventories owed to the peers that asked
/// for one, in peer order.
pub open spec fn inv_section(
    msgs: Seq<Envelope>,
    peers: Seq<Peer>,
    tip: BlockHeader,
    sig: [u8; 64],
    items: Seq<MempoolTx>,
) -> bool
    decreases peers.len(),
{
    if peers.len() == 0 {
        msgs.len() == 0
    } else if peers.last().info.needs_our_inventory {
        msgs.len() > 0 && is_inventory_for(msgs.last(), tip, sig, items, peers.last())
            && inv_section(msgs.drop_last(), peers.drop_last(), tip, sig, items)
    } else {
        inv_section(msgs, peers.drop_last(), tip, sig, items)
    }
}

/// A peer that has been silent past the refresh interval.
pub open spec fn peer_is_stale(p: Peer, now_ms: u64) -> bool {
    now_ms - p.info.last_inventory_received > INVENTORY_REFRESH_MS
}

/// The messages are exactly the inventory requests owed to silent peers,
/// in peer order.
pub open spec fn refresh_section(
    msgs: Seq<Envelope>,
    peers: Seq<Peer>,
    now_ms: u64,
    nonce: u64,
) -> bool
    decreases peers.len(),
{
    if peers.len() == 0 {
        msgs.len() == 0
    } else if peer_is_stale(peers.last(), now_ms) {
        msgs.len() > 0 && msgs.last() == (Envelope {
            pid: peers.last().pid,
            msg: Message::GetInventory(
                GetInventory { version: CURRENT_VERSION, shortid_nonce: nonce },
            ),
        }) && refresh_section(msgs.drop_last(), peers.drop_last(), now_ms, nonce)
    } else {
        refresh_section(msgs, peers.drop_last(), now_ms, nonce)
    }
}

/// The chain-catchup step: at most one block request, for the height
/// right above the tip, to some connected peer.
pub open spec fn chain_section(msgs: Seq<Envelope>, peers: Seq<Peer>, tip: BlockHeader) -> bool {
    if peers.len() == 0 || tip.height == u64::MAX {
        msgs.len() == 0
    } else {
        &&& msgs.len() == 1
        &&& has_peer(peers, msgs[0].pid)
        &&& msgs[0].msg == Message::GetBlock(GetBlock { height: (tip.height + 1) as u64 })
    }
}

/// The short-id list of a mempool request.
pub open spec fn req_list(e: Envelope) -> Seq<u8> {
    e.msg->GetMempoolTxs_0.shortid_list@
}

/// The value the mempool holds this short id for under our own nonce
/// and identifier.
pub open spec fn is_our_shortid(items: Seq<MempoolTx>, nonce: u64, self_id: u64, v: int) -> bool {
    exists|i: int|
        0 <= i < items.len() && spec_short_id(
            nonce,
            peer_bytes(self_id),
            (#[trigger] items[i]).tx.txid_spec(),
        ) == v
}

/// Some peer with this identifier advertises the short-id value.
pub open spec fn peer_advertises(peers: Seq<Peer>, pid: u64, v: int) -> bool {
    exists|i: int|
        0 <= i < peers.len() && (#[trigger] peers[i]).pid == pid && id_in_list(
            v,
            peers[i].info.shortid_list@,
        )
}

/// The mempool-reconciliation step: every message is a mempool request
/// under our current nonce, at most one per peer, claiming only ids the
/// addressed peer advertised, never one we already hold, and never the
/// same id twice across all requests of the tick.
pub open spec fn mempool_section(
    msgs: Seq<Envelope>,
    peers: Seq<Peer>,
    nonce: u64,
    self_id: u64,
    items: Seq<MempoolTx>,
) -> bool {
    &&& forall|k: int|
        0 <= k < msgs.len() ==> {
            &&& has_peer(peers, (#[trigger] msgs[k]).pid)
            &&& msgs[k].msg is GetMempoolTxs
            &&& msgs[k].msg->GetMempoolTxs_0.shortid_nonce == nonce
            &&& req_list(msgs[k]).len() % 6 == 0
            &&& req_list(msgs[k]).len() > 0
        }
    &&& forall|k1: int, k2: int|
        0 <= k1 < k2 < msgs.len() ==> (#[trigger] msgs[k1]).pid != (#[trigger] msgs[k2]).pid
    &&& forall|k: int, o: int|
        0 <= k < msgs.len() && 0 <= o < req_list(#[trigger] msgs[k]).len() / 6 ==> {
            &&& peer_advertises(
                peers,
                msgs[k].pid,
                le48(#[trigger] req_list(msgs[k]).subrange(6 * o, 6 * o + 6)),
            )
            &&& !is_our_shortid(
                items,
                nonce,
                self_id,
                le48(req_list(msgs[k]).subrange(6 * o, 6 * o + 6)),
            )
        }
    &&& forall|k1: int, o1: int, k2: int, o2: int|
        0 <= k1 < msgs.len() && 0 <= o1 < req_list(msgs[k1]).len() / 6 && 0 <= k2 < msgs.len() && 0
            <= o2 < req_list(msgs[k2]).len() / 6 && (k1 != k2 || o1 != o2) ==> le48(
            #[trigger] req_list(msgs[k1]).subrange(6 * o1, 6 * o1 + 6),
        ) != le48(#[trigger] req_list(msgs[k2]).subrange(6 * o2, 6 * o2 + 6))
    &&& forall|pi: int, o: int|
        0 <= pi < peers.len() && 0 <= o < (#[trigger] peers[pi]).info.shortid_list@.len() / 6 && o
            < SYNC_OFFSET_CAP ==> is_our_shortid(
            items,
            nonce,
            self_id,
            le48(#[trigger] peers[pi].info.shortid_list@.subrange(6 * o, 6 * o + 6)),
        ) || claimed_in(msgs, le48(peers[pi].info.shortid_list@.subrange(6 * o, 6 * o + 6)))
}

/// The short-id value stands in one of the requests.
pub open spec fn claimed_in(msgs: Seq<Envelope>, v: int) -> bool {
    exists|k: int, o: int|
        0 <= k < msgs.len() && 0 <= o < req_list(#[trigger] msgs[k]).len() / 6 && le48(
            #[trigger] req_list(msgs[k]).subrange(6 * o, 6 * o + 6),
        ) == v
}

/// Whether a value stands in the claimed set.
pub open spec fn in_assigned(assigned: Seq<u64>, v: int) -> bool {
    exists|k: int| 0 <= k < assigned.len() && assigned[k] == v
}

/// Whether a value occurs in a list of claimed short ids.
fn contains_u64(v: &Vec<u64>, x: u64) -> (r: bool)
    ensures
        r == exists|k: int| 0 <= k < v@.len() && v@[k] == x,
{
    let mut i: usize = 0;
    while i < v.len()
        invariant
            i <= v@.len(),
            forall|k: int| 0 <= k < i ==> v@[k] != x,
        decreases v@.len() - i,
    {
        if v[i] == x {
            return true;
        }
        i = i + 1;
    }
    false
}

/// Finds the position of a peer by identifier.
pub(crate) fn find_peer_index(peers: &Vec<Peer>, pid: u64) -> (r: Option<usize>)
    ensures
        match r {
            Some(i) => i < peers@.len() && peers@[i as int].pid == pid,
            None => forall|k: int| 0 <= k < peers@.len() ==> (#[trigger] peers@[k]).pid != pid,
        },
{
    let mut i: usize = 0;
    while i < peers.len()
        invariant
            i <= peers@.len(),
            forall|k: int| 0 <= k < i ==> (#[trigger] peers@[k]).pid != pid,
        decreases peers@.len() - i,
    {
        if peers[i].pid == pid {
            return Some(i);
        }
        i = i + 1;
    }
    None
}

/// Copies a chain state so the mempool and the storage can each seal
/// their own.
pub(crate) fn clone_state(s: &BlockchainState) -> (r: BlockchainState)
    ensures
        r.tip == s.tip,
        r.utxos@ == s.utxos@,
        s.wf() ==> r.wf(),
{
    BlockchainState { tip: s.tip, utxos: copy_utxos(&s.utxos) }
}

} // verus!
