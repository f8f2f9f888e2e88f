use stubnet::merkle::MerkleTree;

fn test_items(num: usize) -> Vec<Vec<u8>> {
    let mut items = Vec::with_capacity(num);
    for i in 0..num {
        items.push((i as u64).to_le_bytes().to_vec());
    }
    items
}

fn assert_proof(num: usize, idx: usize) {
    let items = test_items(num);
    let tree = MerkleTree::new(b"test", &items).unwrap();
    let path = tree.create_path(idx).unwrap();
    let root = *tree.root();
    MerkleTree::verify_proof(b"test", &items[idx], path, &root).unwrap();
}

fn assert_proof_err(num: usize, idx: usize, wrong_idx: usize) {
    let items = test_items(num);
    let tree = MerkleTree::new(b"test", &items).unwrap();
    let path = tree.create_path(idx).unwrap();
    let root = *tree.root();
    assert!(MerkleTree::verify_proof(b"test", &items[wrong_idx], path, &root).is_err());
}

#[test]
fn empty() {
    assert!(MerkleTree::new(b"test", &[]).is_none());
}

#[test]
fn invalid_range() {
    let entries = test_items(5);
    let root = MerkleTree::new(b"test", &entries).unwrap();
    assert!(root.create_path(7).is_err())
}

#[test]
fn valid_proofs() {
    let tests = [(10, 7), (11, 3), (12, 0), (5, 3), (25, 9)];
    for (num, idx) in tests.iter() {
        assert_proof(*num, *idx);
    }
}

#[test]
fn invalid_proofs() {
    let tests = [(10, 7, 8), (11, 3, 5), (12, 0, 2), (5, 3, 1), (25, 9, 8)];
    for (num, idx, wrong_idx) in tests.iter() {
        assert_proof_err(*num, *idx, *wrong_idx);
    }
}

#[test]
fn root_depends_on_label() {
    let items = test_items(4);
    let a = *MerkleTree::new(b"test", &items).unwrap().root();
    let b = *MerkleTree::new(b"other", &items).unwrap().root();
    assert_ne!(a, b);
}

#[test]
fn root_depends_on_items() {
    let a = *MerkleTree::new(b"test", &test_items(4)).unwrap().root();
    let b = *MerkleTree::new(b"test", &test_items(5)).unwrap().root();
    assert_ne!(a, b);
}
