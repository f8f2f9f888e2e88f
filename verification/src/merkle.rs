//! Merkle trees over byte-string items.
//!
//! The tree stores the digests of a non-empty item list, splitting each
//! level at the greatest power of two below the list length. Proofs of
//! inclusion are paths of neighbor digests ordered leaf to root, and
//! `verify_proof` accepts a path exactly when folding it over the entry's
//! leaf digest reproduces the root.

use vstd::prelude::*;

use crate::encoding::bytes32_eq;
use crate::errors::VMError;
use crate::transcript::{empty_digest, leaf_digest, node_digest, merkle_empty_hash,
    merkle_leaf_hash, merkle_node_hash};

verus! {

/// One step in a Merkle proof of inclusion: the digest of the neighbor
/// subtree, on the side it stands.
#[derive(Copy, Clone, PartialEq, Debug)]
pub enum MerkleNeighbor {
    /// The neighbor to the left of the path.
    Left([u8; 32]),
    /// The neighbor to the right of the path.
    Right([u8; 32]),
}

/// A node of the digest tree.
pub enum MerkleNode {
    /// A single item's digest.
    Leaf([u8; 32]),
    /// An inner digest over the two children.
    Node([u8; 32], Box<MerkleNode>, Box<MerkleNode>),
}

/// A Merkle tree of digests over a given number of items.
pub struct MerkleTree {
    /// Number of items the tree was built from.
    pub size: usize,
    /// The transcript label that domain-separates this tree's hashes.
    pub label: Vec<u8>,
    /// The digest tree.
    pub root: MerkleNode,
    /// The items the tree was built from.
    pub items: Ghost<Seq<Seq<u8>>>,
}

/// Where a list of `n` items is split: the greatest power of two
/// strictly below `n`.
pub open spec fn split_point(n: int) -> int
    recommends
        n >= 2,
    decreases n,
{
    if n <= 2 {
        1
    } else {
        2 * split_point((n + 1) / 2)
    }
}

/// The root digest of the tree over an item list.
pub open spec fn root_spec(label: Seq<u8>, items: Seq<Seq<u8>>) -> Seq<u8>
    decreases items.len(),
{
    if items.len() == 0 {
        empty_digest(label)
    } else if items.len() == 1 {
        leaf_digest(label, items[0])
    } else {
        let k = split_point(items.len() as int);
        if 1 <= k < items.len() {
            node_digest(
                label,
                root_spec(label, items.subrange(0, k)),
                root_spec(label, items.subrange(k, items.len() as int)),
            )
        } else {
            // never reached: the split point of two or more items is proper
            empty_digest(label)
        }
    }
}

/// Folding a proof path over a starting digest, leaf to root.
pub open spec fn path_eval(label: Seq<u8>, start: Seq<u8>, path: Seq<MerkleNeighbor>) -> Seq<u8>
    decreases path.len(),
{
    if path.len() == 0 {
        start
    } else {
        let prev = path_eval(label, start, path.drop_last());
        match path.last() {
            MerkleNeighbor::Left(l) => node_digest(label, l@, prev),
            MerkleNeighbor::Right(r) => node_digest(label, prev, r@),
        }
    }
}

/// The split point of `n >= 2` items is a proper split with the left
/// part at least as large as the right.
proof fn lemma_split_point(n: int)
    requires
        n >= 2,
    ensures
        1 <= split_point(n) < n,
        n - split_point(n) <= split_point(n),
    decreases n,
{
    if n > 2 {
        lemma_split_point((n + 1) / 2);
    }
}

impl MerkleNode {
    /// The digest this node carries.
    pub open spec fn hash_spec(&self) -> Seq<u8> {
        match self {
            MerkleNode::Leaf(h) => h@,
            MerkleNode::Node(h, _, _) => h@,
        }
    }

    /// The node is the digest tree of `items` under `label`.
    pub open spec fn is_tree_for(&self, label: Seq<u8>, items: Seq<Seq<u8>>) -> bool
        decreases items.len(),
    {
        if items.len() <= 1 {
            self matches MerkleNode::Leaf(h) && h@ == root_spec(label, items)
        } else {
            let k = split_point(items.len() as int);
            1 <= k < items.len() && (self matches MerkleNode::Node(h, l, r) && {
                &&& h@ == root_spec(label, items)
                &&& l.is_tree_for(label, items.subrange(0, k))
                &&& r.is_tree_for(label, items.subrange(k, items.len() as int))
            })
        }
    }

    /// A digest tree carries the root digest of its items.
    proof fn lemma_tree_hash(&self, label: Seq<u8>, items: Seq<Seq<u8>>)
        requires
            self.is_tree_for(label, items),
        ensures
            self.hash_spec() == root_spec(label, items),
        decreases items.len(),
    {
    }

    /// Returns the hash of a Merkle tree node.
    pub fn hash(&self) -> (r: &[u8; 32])
        ensures
            r@ == self.hash_spec(),
    {
        match self {
            MerkleNode::Leaf(h) => h,
            MerkleNode::Node(h, _, _) => h,
        }
    }

    /// Builds the proof path for the item at `index`, ordered leaf to
    /// root.
    fn subproof(&self, index: usize, size: usize, Ghost(label): Ghost<Seq<u8>>, Ghost(items): Ghost<
        Seq<Seq<u8>>,
    >) -> (path: Vec<MerkleNeighbor>)
        requires
            self.is_tree_for(label, items),
            items.len() == size,
            index < size,
        ensures
            path_eval(label, leaf_digest(label, items[index as int]), path@) == root_spec(
                label,
                items,
            ),
        decreases size,
    {
        match self {
            MerkleNode::Leaf(_) => {
                let path: Vec<MerkleNeighbor> = Vec::new();
                proof {
                    assert(items.len() == 1);
                    assert(items[0] == items[index as int]);
                    assert(path@.len() == 0);
                    assert(path_eval(label, leaf_digest(label, items[index as int]), path@)
                        == leaf_digest(label, items[index as int]));
                }
                path
            },
            MerkleNode::Node(_, l, r) => {
                proof {
                    lemma_split_point(size as int);
                }
                let k = split_point_exec(size);
                if index >= k {
                    let ghost right_items = items.subrange(k as int, items.len() as int);
                    let mut path = r.subproof(
                        index - k,
                        size - k,
                        Ghost(label),
                        Ghost(right_items),
                    );
                    proof {
                        l.lemma_tree_hash(label, items.subrange(0, k as int));
                        assert(right_items[index - k as int] == items[index as int]);
                    }
                    let ghost sub = path@;
                    let left_hash = l.hash();
                    path.push(MerkleNeighbor::Left(*left_hash));
                    proof {
                        assert(path@.drop_last() =~= sub);
                        assert(path@.last() == MerkleNeighbor::Left(*left_hash));
                    }
                    path
                } else {
                    let ghost left_items = items.subrange(0, k as int);
                    let mut path = l.subproof(index, k, Ghost(label), Ghost(left_items));
                    proof {
                        r.lemma_tree_hash(label, items.subrange(k as int, items.len() as int));
                        assert(left_items[index as int] == items[index as int]);
                    }
                    let ghost sub = path@;
                    let right_hash = r.hash();
                    path.push(MerkleNeighbor::Right(*right_hash));
                    proof {
                        assert(path@.drop_last() =~= sub);
                        assert(path@.last() == MerkleNeighbor::Right(*right_hash));
                    }
                    path
                }
            },
        }
    }
}

/// Computes the split point of a list of `n >= 2` items.
fn split_point_exec(n: usize) -> (k: usize)
    requires
        n >= 2,
    ensures
        k == split_point(n as int),
    decreases n,
{
    if n <= 2 {
        1
    } else {
        let m = n / 2 + n % 2;
        proof {
            assert(m == (n + 1) / 2);
            lemma_split_point(m as int);
        }
        2 * split_point_exec(m)
    }
}

/// Builds the digest tree over a list of items.
fn build_tree(label: &[u8], list: &[Vec<u8>]) -> (n: MerkleNode)
    requires
        label@.len() < 0x1_0000_0000,
        forall|i: int| 0 <= i < list@.len() ==> (#[trigger] list@[i])@.len() < 0x1_0000_0000,
    ensures
        n.is_tree_for(label@, list@.map_values(|v: Vec<u8>| v@)),
    decreases list@.len(),
{
    let ghost items = list@.map_values(|v: Vec<u8>| v@);
    if list.len() == 0 {
        MerkleNode::Leaf(merkle_empty_hash(label))
    } else if list.len() == 1 {
        MerkleNode::Leaf(merkle_leaf_hash(label, list[0].as_slice()))
    } else {
        proof {
            lemma_split_point(list@.len() as int);
        }
        let k = split_point_exec(list.len());
        proof {
            assert(forall|i: int|
                0 <= i < k ==> (#[trigger] list@.subrange(0, k as int)[i]) == list@[i]);
            assert(forall|i: int|
                0 <= i < list@.len() - k ==> (#[trigger] list@.subrange(
                    k as int,
                    list@.len() as int,
                )[i]) == list@[i + k]);
        }
        let left = build_tree(label, &list[0..k]);
        let right = build_tree(label, &list[k..list.len()]);
        proof {
            assert(list@.subrange(0, k as int).map_values(|v: Vec<u8>| v@) =~= items.subrange(
                0,
                k as int,
            ));
            assert(list@.subrange(k as int, list@.len() as int).map_values(|v: Vec<u8>| v@)
                =~= items.subrange(k as int, items.len() as int));
            left.lemma_tree_hash(label@, items.subrange(0, k as int));
            right.lemma_tree_hash(label@, items.subrange(k as int, items.len() as int));
        }
        let hash = merkle_node_hash(label, left.hash(), right.hash());
        MerkleNode::Node(hash, Box::new(left), Box::new(right))
    }
}

impl MerkleTree {
    /// The tree's digest structure matches the items it was built from.
    pub open spec fn wf(&self) -> bool {
        &&& self.root.is_tree_for(self.label@, self.items@)
        &&& self.size == self.items@.len()
        &&& self.size >= 1
    }

    /// Constructs a new MerkleTree based on the input list of entries;
    /// an empty list has no tree. Hashes are transcript digests, so the
    /// label and every entry must stay below the hash input limit.
    pub fn new(label: &[u8], list: &[Vec<u8>]) -> (r: Option<MerkleTree>)
        requires
            label@.len() < 0x1_0000_0000,
            forall|i: int| 0 <= i < list@.len() ==> (#[trigger] list@[i])@.len() < 0x1_0000_0000,
        ensures
            list@.len() == 0 ==> r is None,
            list@.len() > 0 ==> (r matches Some(t) && t.wf() && t.label@ == label@ && t.size
                == list@.len() && t.items@ == list@.map_values(|v: Vec<u8>| v@)),
    {
        if list.len() == 0 {
            return None;
        }
        let root = build_tree(label, list);
        Some(
            MerkleTree {
                size: list.len(),
                label: crate::encoding::bytes_to_vec(label),
                root,
                items: Ghost(list@.map_values(|v: Vec<u8>| v@)),
            },
        )
    }

    /// Returns the root hash of the Merkle tree.
    pub fn root(&self) -> (r: &[u8; 32])
        requires
            self.wf(),
        ensures
            r@ == root_spec(self.label@, self.items@),
    {
        proof {
            self.root.lemma_tree_hash(self.label@, self.items@);
        }
        match &self.root {
            MerkleNode::Leaf(h) => h,
            MerkleNode::Node(h, _, _) => h,
        }
    }

    /// Builds a proof of inclusion for the entry at the given index:
    /// the path of neighbor digests from the entry's leaf to the root.
    pub fn create_path(&self, index: usize) -> (r: Result<Vec<MerkleNeighbor>, VMError>)
        requires
            self.wf(),
        ensures
            index >= self.size ==> r == Result::<Vec<MerkleNeighbor>, VMError>::Err(
                VMError::InvalidMerkleProof,
            ),
            index < self.size ==> (r matches Ok(path) && path_eval(
                self.label@,
                leaf_digest(self.label@, self.items@[index as int]),
                path@,
            ) == root_spec(self.label@, self.items@)),
    {
        if index >= self.size {
            return Err(VMError::InvalidMerkleProof);
        }
        Ok(self.root.subproof(index, self.size, Ghost(self.label@), Ghost(self.items@)))
    }

    /// Checks a proof of inclusion: accepts exactly when folding the
    /// path over the entry's leaf digest reproduces `root`. Hashes are
    /// transcript digests, so the label and the entry must stay below
    /// the hash input limit.
    pub fn verify_proof(
        label: &[u8],
        entry: &[u8],
        path: Vec<MerkleNeighbor>,
        root: &[u8; 32],
    ) -> (r: Result<(), VMError>)
        requires
            label@.len() < 0x1_0000_0000,
            entry@.len() < 0x1_0000_0000,
        ensures
            r is Ok <==> path_eval(label@, leaf_digest(label@, entry@), path@) == root@,
    {
        let mut result = merkle_leaf_hash(label, entry);
        let mut i: usize = 0;
        while i < path.len()
            invariant
                label@.len() < 0x1_0000_0000,
                i <= path@.len(),
                result@ == path_eval(label@, leaf_digest(label@, entry@), path@.subrange(
                    0,
                    i as int,
                )),
            decreases path@.len() - i,
        {
            proof {
                assert(path@.subrange(0, i + 1 as int).drop_last() =~= path@.subrange(
                    0,
                    i as int,
                ));
            }
            match path[i] {
                MerkleNeighbor::Left(l) => {
                    result = merkle_node_hash(label, &l, &result);
                },
                MerkleNeighbor::Right(rh) => {
                    result = merkle_node_hash(label, &result, &rh);
                },
            }
            i = i + 1;
        }
        proof {
            assert(path@.subrange(0, path@.len() as int) =~= path@);
        }
        if bytes32_eq(&result, root) {
            Ok(())
        } else {
            Err(VMError::InvalidMerkleProof)
        }
    }
}

} // verus!
