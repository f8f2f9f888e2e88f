use stubnet::block::{BlockTx, TxHeader};
use stubnet::encoding::Encodable;
use stubnet::errors::{BlockchainError, MempoolError};
use stubnet::mempool::{Mempool, estimated_memory_cost};
use stubnet::state::BlockchainState;
use stubnet::storage::Storage;
use stubnet::txlog::{Output, UTXO};

fn utxo(tag: u8) -> UTXO {
    UTXO([tag; 32])
}

fn genesis(tags: &[u8]) -> BlockchainState {
    let utxos: Vec<UTXO> = tags.iter().map(|t| utxo(*t)).collect();
    BlockchainState::make_initial(0, 1_000, utxos)
}

fn tx(inputs: &[u8], out_data: &[u8], maxtime_ms: u64) -> BlockTx {
    BlockTx {
        header: TxHeader { version: 0, mintime_ms: 0, maxtime_ms },
        inputs: inputs.iter().map(|t| utxo(*t)).collect(),
        outputs: vec![Output { data: out_data.to_vec() }],
    }
}

fn sorted_ids(state: &BlockchainState) -> Vec<[u8; 32]> {
    let mut ids: Vec<[u8; 32]> = state.utxos.iter().map(|u| u.0).collect();
    ids.sort();
    ids
}

#[test]
fn make_block_and_apply_block_converge() {
    let mut mempool = Mempool::new(genesis(&[1, 2, 3]), 1_000);
    mempool.append(tx(&[1], b"a", u64::MAX)).unwrap();
    mempool.append(tx(&[2], b"b", u64::MAX)).unwrap();
    let (made, _catchup) = mempool.make_block();
    let txs: Vec<BlockTx> = mempool.entries().iter().map(|e| e.block_tx().clone()).collect();
    let (applied, _, vtxs) = mempool.state.apply_block(made.tip, &txs).unwrap();
    assert_eq!(applied.tip.id().0, made.tip.id().0);
    assert_eq!(sorted_ids(&applied), sorted_ids(&made));
    assert_eq!(vtxs.len(), 2);
    assert_eq!(vtxs[0].id.0, txs[0].txid().0);
}

#[test]
fn append_classifies_rejections() {
    let mut mempool = Mempool::new(genesis(&[1, 2]), 1_000);
    mempool.append(tx(&[1], b"a", u64::MAX)).unwrap();
    // The same transaction again: its id is taken.
    assert_eq!(mempool.append(tx(&[1], b"a", u64::MAX)), Err(MempoolError::Occupied));
    // An input nobody holds.
    assert_eq!(mempool.append(tx(&[9], b"b", u64::MAX)), Err(MempoolError::Occupied));
    // An input already claimed by the first entry.
    assert_eq!(mempool.append(tx(&[1], b"c", u64::MAX)), Err(MempoolError::Occupied));
    // An output the first entry already creates.
    assert_eq!(mempool.append(tx(&[2], b"a", u64::MAX)), Err(MempoolError::Occupied));
    // A window closed before the mempool clock.
    assert_eq!(mempool.append(tx(&[2], b"d", 10)), Err(MempoolError::InvalidTx));
    // A transaction repeating its own input.
    assert_eq!(mempool.append(tx(&[2, 2], b"e", u64::MAX)), Err(MempoolError::InvalidTx));
    assert_eq!(mempool.len(), 1);
}

#[test]
fn update_timestamp_clamps_and_evicts() {
    let mut mempool = Mempool::new(genesis(&[1, 2]), 1_000);
    mempool.append(tx(&[1], b"a", 2_000)).unwrap();
    mempool.append(tx(&[2], b"b", 9_000)).unwrap();
    // The clock never regresses.
    mempool.update_timestamp(500);
    assert_eq!(mempool.timestamp_ms, 1_000);
    assert_eq!(mempool.len(), 2);
    // Advancing past an entry's window evicts it.
    mempool.update_timestamp(5_000);
    assert_eq!(mempool.timestamp_ms, 5_000);
    assert_eq!(mempool.len(), 1);
    assert_eq!(mempool.entries()[0].tx.header.maxtime_ms, 9_000);
}

#[test]
fn update_state_drops_spent_entries() {
    let mut mempool = Mempool::new(genesis(&[1, 2, 3]), 1_000);
    mempool.append(tx(&[1], b"a", u64::MAX)).unwrap();
    mempool.append(tx(&[2], b"b", u64::MAX)).unwrap();
    let (new_state, catchup) = mempool.make_block();
    mempool.update_state(new_state.clone(), &catchup);
    // Every entry was sealed into the block, so every entry is gone.
    assert_eq!(mempool.len(), 0);
    assert_eq!(mempool.state.tip.id().0, new_state.tip.id().0);
    // Re-basing onto the same state again changes nothing.
    mempool.update_state(new_state.clone(), &catchup);
    assert_eq!(mempool.len(), 0);
    assert_eq!(mempool.state.tip.id().0, new_state.tip.id().0);
}

#[test]
fn apply_block_rejects_inconsistent_bodies() {
    let mut mempool = Mempool::new(genesis(&[1, 2]), 1_000);
    mempool.append(tx(&[1], b"a", u64::MAX)).unwrap();
    let (made, _) = mempool.make_block();
    let txs: Vec<BlockTx> = mempool.entries().iter().map(|e| e.block_tx().clone()).collect();
    // A header at the wrong height.
    let mut wrong_height = made.tip;
    wrong_height.height = 5;
    assert_eq!(
        mempool.state.apply_block(wrong_height, &txs).err(),
        Some(BlockchainError::InvalidBlock)
    );
    // A body that does not match the header's transaction root.
    let other_txs = vec![tx(&[2], b"z", u64::MAX)];
    assert_eq!(
        mempool.state.apply_block(made.tip, &other_txs).err(),
        Some(BlockchainError::InvalidBlock)
    );
    // The body it was made from applies.
    assert!(mempool.state.apply_block(made.tip, &txs).is_ok());
}

#[test]
fn memory_cost_counts_txs_and_witnesses() {
    let mut mempool = Mempool::new(genesis(&[1, 2]), 1_000);
    let t1 = tx(&[1], b"abc", u64::MAX);
    let t2 = tx(&[2], b"defg", u64::MAX);
    let expected = t1.encoded_length() + 32 + t2.encoded_length() + 32;
    mempool.append(t1).unwrap();
    mempool.append(t2).unwrap();
    assert_eq!(estimated_memory_cost(&mempool), expected);
}

#[test]
fn storage_serves_blocks_by_height() {
    let mut mempool = Mempool::new(genesis(&[1, 2]), 1_000);
    let mut storage = Storage::new(mempool.state.clone(), [0u8; 64]);
    for _ in 0..3 {
        let (new_state, catchup) = mempool.make_block();
        let block = stubnet::block::Block {
            header: new_state.tip,
            signature: [0u8; 64],
            txs: Vec::new(),
        };
        mempool.update_state(new_state.clone(), &catchup);
        storage.store_block(block, new_state, catchup, Vec::new());
    }
    assert_eq!(storage.tip_height(), 3);
    assert_eq!(storage.block_at_height(2).unwrap().header.height, 2);
    assert!(storage.block_at_height(0).is_none());
    assert!(storage.block_at_height(4).is_none());
    assert_eq!(storage.tip().0.height, 3);
    assert_eq!(storage.tip_id().0, storage.state.tip.id().0);
}

#[test]
fn output_ids_depend_on_late_bytes() {
    // Two outputs that agree on their first 32 bytes of payload still
    // get different identifiers.
    let mut long_a = vec![0u8; 40];
    let mut long_b = vec![0u8; 40];
    long_a[39] = 1;
    long_b[39] = 2;
    let a = stubnet::txlog::UTXO::from_output(&Output { data: long_a });
    let b = stubnet::txlog::UTXO::from_output(&Output { data: long_b });
    assert_ne!(a.0, b.0);
}

#[test]
fn txids_depend_on_the_whole_transaction() {
    // Two transactions agreeing on header and inputs, so on the first
    // bytes of their encoding, still get different identifiers.
    let a = tx(&[1], b"a", u64::MAX);
    let b = tx(&[1], b"b", u64::MAX);
    assert_ne!(a.txid().0, b.txid().0);
    assert_eq!(a.txid().0, tx(&[1], b"a", u64::MAX).txid().0);
}

#[test]
fn header_id_depends_on_every_field() {
    let g = genesis(&[1]);
    let mut other = g.tip;
    other.timestamp_ms = g.tip.timestamp_ms + 1;
    assert_ne!(g.tip.id().0, other.id().0);
}
