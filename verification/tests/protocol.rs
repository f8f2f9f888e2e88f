use curve25519_dalek::ristretto::CompressedRistretto;
use merlin::Transcript;
use rand::SeedableRng;
use rand::rngs::StdRng;
use curve25519_dalek::scalar::Scalar;
use starsig::{Signature, VerificationKey};
use stubnet::block::{BlockTx, TxHeader};
use stubnet::errors::BlockchainError;
use stubnet::protocol::{CURRENT_VERSION, Envelope, GetInventory, Inventory, Message, Node,
    SHORTID_NONCE_TTL};
use stubnet::shortid::Transform;
use stubnet::state::BlockchainState;
use stubnet::storage::Storage;
use stubnet::txlog::{Output, UTXO};

const KEY: [u8; 32] = [42u8; 32];
const NOW: u64 = 100_000;

fn network_pubkey() -> [u8; 32] {
    VerificationKey::from_secret(&Scalar::from_bytes_mod_order(KEY)).to_bytes()
}

fn new_node(id: u64, tags: &[u8]) -> Node {
    let utxos: Vec<UTXO> = tags.iter().map(|t| UTXO([*t; 32])).collect();
    let state = BlockchainState::make_initial(0, 1_000, utxos);
    let storage = Storage::new(state, [0u8; 64]);
    Node::new(network_pubkey(), id, storage, StdRng::seed_from_u64(id))
}

fn tx(inputs: &[u8], out_data: &[u8]) -> BlockTx {
    BlockTx {
        header: TxHeader { version: 0, mintime_ms: 0, maxtime_ms: u64::MAX },
        inputs: inputs.iter().map(|t| UTXO([*t; 32])).collect(),
        outputs: vec![Output { data: out_data.to_vec() }],
    }
}

fn check_invariants(n: &Node) {
    // The tip never passes the target, and the nonce countdown is live.
    assert!(n.storage.tip_height() <= n.target_tip.height);
    assert!(1 <= n.shortid_nonce_ttl && n.shortid_nonce_ttl <= SHORTID_NONCE_TTL);
}

fn getblocks(msgs: &[Envelope]) -> Vec<u64> {
    msgs.iter()
        .filter_map(|e| match &e.msg {
            Message::GetBlock(g) => Some(g.height),
            _ => None,
        })
        .collect()
}

fn mempool_requests(msgs: Vec<Envelope>) -> Vec<(u64, u64, Vec<u8>)> {
    msgs.into_iter()
        .filter_map(|e| match e.msg {
            Message::GetMempoolTxs(g) => Some((e.pid, g.shortid_nonce, g.shortid_list)),
            _ => None,
        })
        .collect()
}

#[test]
fn fresh_sync() {
    let mut a = new_node(1, &[1, 2, 3]);
    let mut b = new_node(2, &[1, 2, 3]);
    // The authority advances three blocks on its own chain.
    b.create_block(2_000, &KEY);
    b.create_block(3_000, &KEY);
    b.create_block(4_000, &KEY);
    assert_eq!(b.storage.tip_height(), 3);
    // Connect both ways.
    let hello_a = a.peer_connected(2, NOW);
    let _hello_b = b.peer_connected(1, NOW);
    for e in hello_a {
        b.process_message(1, e.msg, NOW).unwrap();
    }
    // B's tick publishes its signed tip to A.
    let from_b = b.synchronize(NOW);
    for e in from_b {
        if e.pid == 1 {
            a.process_message(2, e.msg, NOW).unwrap();
        }
    }
    assert_eq!(a.target_tip.height, 3);
    check_invariants(&a);
    // Over three ticks A pulls blocks one, two and three.
    for expected in 1..=3u64 {
        let msgs = a.synchronize(NOW);
        let heights = getblocks(&msgs);
        assert_eq!(heights, vec![expected]);
        let mut replies = Vec::new();
        for e in msgs {
            if e.pid == 2 {
                if let Ok(r) = b.process_message(1, e.msg, NOW) {
                    replies.extend(r);
                }
            }
        }
        for e in replies {
            if e.pid == 1 {
                a.process_message(2, e.msg, NOW).unwrap();
            }
        }
        check_invariants(&a);
    }
    assert_eq!(a.storage.tip_height(), 3);
    assert_eq!(a.target_tip.id().0, b.storage.tip_id().0);
    assert_eq!(a.storage.tip_id().0, b.storage.tip_id().0);
}

#[test]
fn inventory_reconciliation() {
    let mut a = new_node(1, &[1, 2, 3]);
    let mut b = new_node(2, &[1, 2, 3]);
    let t1 = tx(&[1], b"one");
    let t2 = tx(&[2], b"two");
    let t3 = tx(&[3], b"three");
    let mut expected: Vec<[u8; 32]> = vec![t1.txid().0, t2.txid().0, t3.txid().0];
    expected.sort();
    b.mempool.append(t1).unwrap();
    b.mempool.append(t2).unwrap();
    b.mempool.append(t3).unwrap();
    let hello_a = a.peer_connected(2, NOW);
    let _hello_b = b.peer_connected(1, NOW);
    for e in hello_a {
        b.process_message(1, e.msg, NOW).unwrap();
    }
    for e in b.synchronize(NOW) {
        if e.pid == 1 {
            a.process_message(2, e.msg, NOW).unwrap();
        }
    }
    // A's tick claims all three short ids from B.
    let reqs = mempool_requests(a.synchronize(NOW));
    assert_eq!(reqs.len(), 1);
    assert_eq!(reqs[0].0, 2);
    assert_eq!(reqs[0].2.len(), 18);
    let reply = b
        .process_message(
            1,
            Message::GetMempoolTxs(stubnet::protocol::GetMempoolTxs {
                shortid_nonce: reqs[0].1,
                shortid_list: reqs[0].2.clone(),
            }),
            NOW,
        )
        .unwrap();
    assert_eq!(reply.len(), 1);
    match &reply[0].msg {
        Message::MempoolTxs(m) => assert_eq!(m.txs.len(), 3),
        _ => panic!("expected mempool transactions"),
    }
    for e in reply {
        a.process_message(2, e.msg, NOW).unwrap();
    }
    let mut got: Vec<[u8; 32]> = a.mempool.entries().iter().map(|e| e.txid().0).collect();
    got.sort();
    assert_eq!(got, expected);
}

#[test]
fn short_id_collision_dedup() {
    let mut a = new_node(1, &[1, 2]);
    let t = tx(&[1], b"mine");
    let txid = t.txid();
    a.mempool.append(t).unwrap();
    a.peer_connected(2, NOW);
    // The peer advertises exactly the short id A would assign to its own
    // transaction under A's nonce and identifier.
    let colliding = Transform::new(a.shortid_nonce, &a.self_id.to_le_bytes())
        .apply(&txid.0)
        .to_bytes();
    let inv = Inventory {
        version: CURRENT_VERSION,
        tip: a.storage.tip().0,
        tip_signature: [0u8; 64],
        shortid_nonce: 9,
        shortid_list: colliding.to_vec(),
    };
    a.process_message(2, Message::Inventory(inv), NOW).unwrap();
    // The id is already assigned, so no request goes out for it.
    let reqs = mempool_requests(a.synchronize(NOW));
    assert!(reqs.is_empty());
}

#[test]
fn stale_mempool_reply() {
    let mut a = new_node(1, &[1, 2, 3]);
    let mut b = new_node(2, &[1, 2, 3]);
    let old_tip = a.storage.tip_id();
    // A block arrives and advances A's tip before the reply lands.
    b.create_block(2_000, &KEY);
    let block = b.storage.blocks[0].clone();
    a.process_message(2, Message::Block(block), NOW).unwrap();
    assert_eq!(a.storage.tip_height(), 1);
    // The reply still refers to the old tip: dropped, nothing changes.
    let reply = stubnet::protocol::MempoolTxs { tip: old_tip, txs: vec![tx(&[1], b"late")] };
    let r = a.process_message(2, Message::MempoolTxs(reply), NOW);
    assert_eq!(r.err(), Some(BlockchainError::StaleMempoolState(old_tip.0)));
    assert_eq!(a.mempool.len(), 0);
}

#[test]
fn version_mismatch() {
    let mut a = new_node(1, &[1]);
    a.peer_connected(2, NOW);
    let r = a.process_message(
        2,
        Message::GetInventory(GetInventory { version: 1, shortid_nonce: 5 }),
        NOW,
    );
    assert_eq!(r.err(), Some(BlockchainError::IncompatibleVersion));
    // No peer-state mutation occurred.
    assert!(!a.peers[0].info.needs_our_inventory);
    assert_eq!(a.peers[0].info.their_short_id_nonce, 0);
}

#[test]
fn ttl_expiry() {
    let mut a = new_node(1, &[1]);
    a.peer_connected(2, NOW);
    let inv = Inventory {
        version: CURRENT_VERSION,
        tip: a.storage.tip().0,
        tip_signature: [0u8; 64],
        shortid_nonce: 9,
        shortid_list: vec![1, 2, 3, 4, 5, 6],
    };
    a.process_message(2, Message::Inventory(inv), NOW).unwrap();
    assert_eq!(a.peers[0].info.shortid_list.len(), 6);
    // One tick with TTL at one triggers the rotation.
    a.shortid_nonce_ttl = 1;
    let old_nonce = a.shortid_nonce;
    let msgs = a.synchronize(NOW);
    assert_ne!(a.shortid_nonce, old_nonce);
    assert_eq!(a.shortid_nonce_ttl, SHORTID_NONCE_TTL);
    assert!(a.peers[0].info.shortid_list.is_empty());
    // The cleared lists leave nothing to claim.
    assert!(mempool_requests(msgs).is_empty());
    check_invariants(&a);
}

#[test]
fn equal_tip_skips_signature_check() {
    let mut a = new_node(1, &[1, 2, 3]);
    a.peer_connected(2, NOW);
    // A tip at our own height carries a garbage signature: accepted.
    let inv = Inventory {
        version: CURRENT_VERSION,
        tip: a.storage.tip().0,
        tip_signature: [7u8; 64],
        shortid_nonce: 9,
        shortid_list: Vec::new(),
    };
    a.process_message(2, Message::Inventory(inv), NOW).unwrap();
    assert_eq!(a.target_tip.height, 0);
    assert!(a.peers[0].info.tip.is_some());
}

#[test]
fn higher_tip_requires_signature() {
    let mut a = new_node(1, &[1, 2, 3]);
    let mut b = new_node(2, &[1, 2, 3]);
    b.create_block(2_000, &KEY);
    b.create_block(3_000, &KEY);
    b.create_block(4_000, &KEY);
    let (b_tip, b_sig) = b.storage.tip();
    a.peer_connected(2, NOW);
    // A strictly higher tip with a garbage signature is fatal, and the
    // peer's record is not touched.
    let bad = Inventory {
        version: CURRENT_VERSION,
        tip: b_tip,
        tip_signature: [7u8; 64],
        shortid_nonce: 9,
        shortid_list: Vec::new(),
    };
    let r = a.process_message(2, Message::Inventory(bad), NOW);
    assert_eq!(r.err(), Some(BlockchainError::InvalidBlockSignature));
    assert_eq!(a.target_tip.height, 0);
    assert!(a.peers[0].info.tip.is_none());
    // The authority's real signature is accepted.
    let good = Inventory {
        version: CURRENT_VERSION,
        tip: b_tip,
        tip_signature: b_sig,
        shortid_nonce: 9,
        shortid_list: Vec::new(),
    };
    a.process_message(2, Message::Inventory(good), NOW).unwrap();
    assert_eq!(a.target_tip.height, 3);
}

#[test]
fn block_two_past_tip_is_not_relevant() {
    let mut a = new_node(1, &[1, 2, 3]);
    let mut b = new_node(2, &[1, 2, 3]);
    b.create_block(2_000, &KEY);
    b.create_block(3_000, &KEY);
    // The block at height two is signed, but A's tip is at zero.
    let second = b.storage.blocks[1].clone();
    let r = a.process_message(2, Message::Block(second), NOW);
    assert_eq!(r.err(), Some(BlockchainError::BlockNotRelevant(2)));
    assert_eq!(a.storage.tip_height(), 0);
}

#[test]
fn create_block_signs_the_new_tip() {
    let mut a = new_node(1, &[1, 2]);
    a.mempool.append(tx(&[1], b"payload")).unwrap();
    a.create_block(5_000, &KEY);
    assert_eq!(a.storage.tip_height(), 1);
    assert_eq!(a.mempool.len(), 0);
    assert_eq!(a.storage.blocks[0].txs.len(), 1);
    // The stored signature verifies under the network key over the new
    // tip's id, checked against the signature scheme itself.
    let sig = Signature::from_bytes(&a.storage.tip_signature[..]).unwrap();
    let key = VerificationKey::from_compressed(CompressedRistretto(a.network_pubkey)).unwrap();
    let mut t = Transcript::new(b"ZkVM.stubnet1");
    t.append_message(b"block_id", &a.storage.state.tip.id().0);
    sig.verify(&mut t, key).unwrap();
    // A wrong block id does not verify.
    let mut t2 = Transcript::new(b"ZkVM.stubnet1");
    t2.append_message(b"block_id", &[0u8; 32]);
    assert!(sig.verify(&mut t2, key).is_err());
}

#[test]
fn round_robin_claims_each_id_once() {
    let mut a = new_node(1, &[1]);
    a.peer_connected(2, NOW);
    a.peer_connected(3, NOW);
    let x = [10u8, 11, 12, 13, 14, 15];
    let y = [20u8, 21, 22, 23, 24, 25];
    let z = [30u8, 31, 32, 33, 34, 35];
    let mut list_two = x.to_vec();
    list_two.extend_from_slice(&y);
    let mut list_three = x.to_vec();
    list_three.extend_from_slice(&z);
    for (pid, list) in [(2u64, list_two), (3u64, list_three)] {
        let inv = Inventory {
            version: CURRENT_VERSION,
            tip: a.storage.tip().0,
            tip_signature: [0u8; 64],
            shortid_nonce: 9,
            shortid_list: list,
        };
        a.process_message(pid, Message::Inventory(inv), NOW).unwrap();
    }
    for _ in 0..2 {
        // Both ticks: the shared id goes to the first peer showing it,
        // never twice, and no block is requested.
        let msgs = a.synchronize(NOW);
        assert!(getblocks(&msgs).is_empty());
        let mut reqs = mempool_requests(msgs);
        reqs.sort_by_key(|r| r.0);
        assert_eq!(reqs.len(), 2);
        assert_eq!(reqs[0].0, 2);
        let mut expected_two = x.to_vec();
        expected_two.extend_from_slice(&y);
        assert_eq!(reqs[0].2, expected_two);
        assert_eq!(reqs[1].0, 3);
        assert_eq!(reqs[1].2, z.to_vec());
        check_invariants(&a);
    }
}

#[test]
fn silent_peers_are_asked_again() {
    let mut a = new_node(1, &[1]);
    a.peer_connected(2, 1_000);
    // Just over a minute of silence: the tick re-requests inventory.
    let msgs = a.synchronize(1_000 + 60_001);
    let refreshed: Vec<&Envelope> = msgs
        .iter()
        .filter(|e| matches!(e.msg, Message::GetInventory(_)))
        .collect();
    assert_eq!(refreshed.len(), 1);
    assert_eq!(refreshed[0].pid, 2);
    // Within the interval nothing is sent.
    let msgs = a.synchronize(1_000 + 30_000);
    assert!(msgs.iter().all(|e| !matches!(e.msg, Message::GetInventory(_))));
}

#[test]
fn unknown_block_request_is_reported() {
    let mut a = new_node(1, &[1]);
    a.peer_connected(2, NOW);
    let r = a.process_message(
        2,
        Message::GetBlock(stubnet::protocol::GetBlock { height: 7 }),
        NOW,
    );
    assert_eq!(r.err(), Some(BlockchainError::BlockNotFound(7)));
}

#[test]
fn disconnect_forgets_the_peer() {
    let mut a = new_node(1, &[1]);
    a.peer_connected(2, NOW);
    a.peer_connected(3, NOW);
    a.peer_diconnected(2);
    assert_eq!(a.peers.len(), 1);
    assert_eq!(a.peers[0].pid, 3);
}

#[test]
fn relayed_garbage_is_fatal() {
    let mut a = new_node(1, &[1, 2]);
    // A window closed before the mempool clock marks the sender.
    let bad = BlockTx {
        header: TxHeader { version: 0, mintime_ms: 0, maxtime_ms: 10 },
        inputs: vec![UTXO([1u8; 32])],
        outputs: vec![Output { data: b"x".to_vec() }],
    };
    let reply = stubnet::protocol::MempoolTxs { tip: a.storage.tip_id(), txs: vec![bad] };
    let r = a.process_message(2, Message::MempoolTxs(reply), NOW);
    let e = r.err().unwrap();
    assert_eq!(e, BlockchainError::MempoolValidation(stubnet::errors::MempoolError::InvalidTx));
    assert!(e.is_fatal_for_peer());
    // A duplicate is merely skipped.
    let t = tx(&[1], b"dup");
    a.mempool.append(tx(&[1], b"dup")).unwrap();
    let reply = stubnet::protocol::MempoolTxs { tip: a.storage.tip_id(), txs: vec![t] };
    a.process_message(2, Message::MempoolTxs(reply), NOW).unwrap();
    assert_eq!(a.mempool.len(), 1);
}
