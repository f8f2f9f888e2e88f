//! The chain state and its block transition.
//!
//! The unspent set is transparent: the state holds the identifiers of all
//! unspent outputs, an input is its own membership witness, and a block's
//! catchup artifact is the list of identifiers the block consumed. A block
//! spends only outputs that were unspent before it: it does not chain its
//! own outputs.

use vstd::prelude::*;

use crate::block::{BlockHeader, BlockTx, TxHeader};
use crate::encoding::{Encodable, bytes32_eq};
use crate::errors::BlockchainError;
use crate::merkle::{MerkleTree, root_spec};
use crate::transcript::merkle_empty_hash;
use crate::txlog::{TxID, UTXO, Output, copy_utxos};

verus! {

/// The transcript label under which transaction roots are built:
/// the ASCII bytes of `ZkVM.txid`.
pub open spec fn spec_txid_label() -> Seq<u8> {
    seq![0x5au8, 0x6bu8, 0x56u8, 0x4du8, 0x2eu8, 0x74u8, 0x78u8, 0x69u8, 0x64u8]
}

/// The transcript label under which transaction roots are built.
pub fn txid_label() -> (r: Vec<u8>)
    ensures
        r@ == spec_txid_label(),
{
    let mut r: Vec<u8> = Vec::new();
    r.push(0x5au8);
    r.push(0x6bu8);
    r.push(0x56u8);
    r.push(0x4du8);
    r.push(0x2eu8);
    r.push(0x74u8);
    r.push(0x78u8);
    r.push(0x69u8);
    r.push(0x64u8);
    proof {
        assert(r@ =~= spec_txid_label());
    }
    r
}

/// The identifiers of a list of unspent outputs.
pub open spec fn uview(s: Seq<UTXO>) -> Seq<Seq<u8>> {
    s.map_values(|u: UTXO| u.0@)
}

/// Whether `id` occurs in a list of identifiers.
pub open spec fn ids_contain(ids: Seq<Seq<u8>>, id: Seq<u8>) -> bool {
    exists|i: int| 0 <= i < ids.len() && ids[i] == id
}

/// Whether all identifiers in a list are distinct.
pub open spec fn ids_distinct(ids: Seq<Seq<u8>>) -> bool {
    forall|i: int, j: int| 0 <= i < j < ids.len() ==> ids[i] != ids[j]
}

/// Every identifier of `a` occurs in `b`.
pub open spec fn ids_subset(a: Seq<Seq<u8>>, b: Seq<Seq<u8>>) -> bool {
    forall|x: Seq<u8>| ids_contain(a, x) ==> ids_contain(b, x)
}

/// No identifier occurs in both lists.
pub open spec fn ids_disjoint(a: Seq<Seq<u8>>, b: Seq<Seq<u8>>) -> bool {
    forall|x: Seq<u8>| ids_contain(a, x) ==> !ids_contain(b, x)
}

/// The identifiers of a list of output records.
pub open spec fn out_ids_of(outs: Seq<Output>) -> Seq<Seq<u8>> {
    outs.map_values(|o: Output| o.utxo_id())
}

/// The identifiers of the outputs one transaction creates.
pub open spec fn tx_out_ids(tx: BlockTx) -> Seq<Seq<u8>> {
    out_ids_of(tx.outputs@)
}

/// The identifiers of a pushed list are the pushed identifiers.
pub proof fn lemma_uview_push(s: Seq<UTXO>, u: UTXO)
    ensures
        uview(s.push(u)) =~= uview(s).push(u.0@),
{
}

/// The identifiers all transactions of a block consume, in order.
pub open spec fn block_spends(txs: Seq<BlockTx>) -> Seq<Seq<u8>>
    decreases txs.len(),
{
    if txs.len() == 0 {
        Seq::empty()
    } else {
        block_spends(txs.drop_last()) + uview(txs.last().inputs@)
    }
}

/// The identifiers all transactions of a block create, in order.
pub open spec fn block_out_ids(txs: Seq<BlockTx>) -> Seq<Seq<u8>>
    decreases txs.len(),
{
    if txs.len() == 0 {
        Seq::empty()
    } else {
        block_out_ids(txs.drop_last()) + tx_out_ids(txs.last())
    }
}

/// The transaction identifiers of a block, in order.
pub open spec fn txids_of(txs: Seq<BlockTx>) -> Seq<Seq<u8>> {
    txs.map_values(|t: BlockTx| t.txid_spec())
}

/// The byte strings of a list of byte vectors.
pub open spec fn bytes_seq_view(items: Seq<Vec<u8>>) -> Seq<Seq<u8>> {
    items.map_values(|v: Vec<u8>| v@)
}

/// The identifiers of `ids` that are not in `spent`, in order.
pub open spec fn keep_unspent(ids: Seq<Seq<u8>>, spent: Seq<Seq<u8>>) -> Seq<Seq<u8>>
    decreases ids.len(),
{
    if ids.len() == 0 {
        Seq::empty()
    } else {
        keep_unspent(ids.drop_last(), spent) + if ids_contain(spent, ids.last()) {
            Seq::<Seq<u8>>::empty()
        } else {
            seq![ids.last()]
        }
    }
}

/// A transaction is well formed for block or mempool time `t_ms`: its
/// encoding stays below the hash input limit, the time lies in the
/// transaction's window, and it does not repeat one of its own inputs
/// or outputs.
pub open spec fn tx_valid_at(tx: BlockTx, t_ms: u64) -> bool {
    &&& tx.enc().len() < 0x1_0000_0000
    &&& tx.header.mintime_ms <= t_ms <= tx.header.maxtime_ms
    &&& ids_distinct(uview(tx.inputs@))
    &&& ids_distinct(tx_out_ids(tx))
}

/// Whether a block with header `header` and body `txs` is a valid
/// transition out of `pre`.
pub open spec fn block_valid(pre: BlockchainState, header: BlockHeader, txs: Seq<BlockTx>) -> bool {
    &&& header.height == pre.tip.height + 1
    &&& header.prev.0@ == pre.tip.id_spec()
    &&& header.timestamp_ms >= pre.tip.timestamp_ms
    &&& forall|i: int| 0 <= i < txs.len() ==> tx_valid_at(#[trigger] txs[i], header.timestamp_ms)
    &&& ids_distinct(block_spends(txs))
    &&& ids_subset(block_spends(txs), uview(pre.utxos@))
    &&& ids_distinct(block_out_ids(txs))
    &&& ids_disjoint(block_out_ids(txs), uview(pre.utxos@))
    &&& header.txroot@ == root_spec(spec_txid_label(), txids_of(txs))
}

/// The unspent set after a valid block: what the block did not spend,
/// followed by what it created.
pub open spec fn post_utxo_ids(pre: BlockchainState, txs: Seq<BlockTx>) -> Seq<Seq<u8>> {
    keep_unspent(uview(pre.utxos@), block_spends(txs)) + block_out_ids(txs)
}

/// The batch-update artifact of a block: the identifiers it consumed,
/// kept alongside the stored block. The transparent unspent set needs no
/// proof re-basing, so this is a record, not a tool.
#[derive(Clone, Debug)]
pub struct Catchup {
    /// The identifiers the block spent, in order.
    pub spent: Vec<UTXO>,
}

/// The validated form of a transaction: its identifier, header, and the
/// resolved identifiers of what it consumes and creates.
#[derive(Clone, Debug)]
pub struct VerifiedTx {
    /// The transaction's time window and version.
    pub header: TxHeader,
    /// The transaction's identifier.
    pub id: TxID,
    /// The identifiers of the consumed outputs.
    pub inputs: Vec<UTXO>,
    /// The identifiers of the created outputs.
    pub outputs: Vec<UTXO>,
}

impl VerifiedTx {
    /// The validated form corresponds to the transaction.
    pub open spec fn matches(&self, tx: BlockTx) -> bool {
        &&& self.id.0@ == tx.txid_spec()
        &&& self.header == tx.header
        &&& self.inputs@ == tx.inputs@
        &&& uview(self.outputs@) == tx_out_ids(tx)
    }
}

/// The state of the chain: the applied tip header and the identifiers of
/// all unspent outputs.
#[derive(Clone, Debug)]
pub struct BlockchainState {
    /// The header of the last applied block.
    pub tip: BlockHeader,
    /// The identifiers of all unspent outputs.
    pub utxos: Vec<UTXO>,
}

/// Whether `id` occurs in a list of unspent outputs.
pub fn contains_id(v: &Vec<UTXO>, id: &[u8; 32]) -> (r: bool)
    ensures
        r == ids_contain(uview(v@), id@),
{
    let mut i: usize = 0;
    while i < v.len()
        invariant
            i <= v@.len(),
            forall|j: int| 0 <= j < i ==> uview(v@)[j] != id@,
        decreases v@.len() - i,
    {
        if bytes32_eq(&v[i].0, id) {
            proof {
                assert(uview(v@)[i as int] == id@);
            }
            return true;
        }
        i = i + 1;
    }
    false
}

/// Whether all identifiers in a list of unspent outputs are distinct.
pub fn all_distinct(v: &Vec<UTXO>) -> (r: bool)
    ensures
        r == ids_distinct(uview(v@)),
{
    let mut i: usize = 0;
    while i < v.len()
        invariant
            i <= v@.len(),
            forall|p: int, q: int| 0 <= p < q < v@.len() && q < i ==> uview(v@)[p] != uview(v@)[q],
        decreases v@.len() - i,
    {
        let mut j: usize = 0;
        while j < i
            invariant
                j <= i < v@.len(),
                forall|p: int| 0 <= p < j ==> uview(v@)[p] != uview(v@)[i as int],
            decreases i - j,
        {
            if bytes32_eq(&v[j].0, &v[i].0) {
                proof {
                    assert(uview(v@)[j as int] == uview(v@)[i as int]);
                }
                return false;
            }
            j = j + 1;
        }
        i = i + 1;
    }
    true
}

/// Whether every identifier of `a` is in `b`.
pub(crate) fn is_id_subset(a: &Vec<UTXO>, b: &Vec<UTXO>) -> (r: bool)
    ensures
        r == ids_subset(uview(a@), uview(b@)),
{
    let mut i: usize = 0;
    while i < a.len()
        invariant
            i <= a@.len(),
            forall|k: int| 0 <= k < i ==> ids_contain(uview(b@), uview(a@)[k]),
        decreases a@.len() - i,
    {
        if !contains_id(b, &a[i].0) {
            proof {
                assert(ids_contain(uview(a@), uview(a@)[i as int]));
            }
            return false;
        }
        i = i + 1;
    }
    proof {
        assert forall|x: Seq<u8>| ids_contain(uview(a@), x) implies ids_contain(
            uview(b@),
            x,
        ) by {
            let k = choose|k: int| 0 <= k < uview(a@).len() && uview(a@)[k] == x;
            assert(ids_contain(uview(b@), uview(a@)[k]));
        }
    }
    true
}

/// Whether no identifier of `a` is in `b`.
pub(crate) fn are_disjoint(a: &Vec<UTXO>, b: &Vec<UTXO>) -> (r: bool)
    ensures
        r == ids_disjoint(uview(a@), uview(b@)),
{
    let mut i: usize = 0;
    while i < a.len()
        invariant
            i <= a@.len(),
            forall|k: int| 0 <= k < i ==> !ids_contain(uview(b@), uview(a@)[k]),
        decreases a@.len() - i,
    {
        if contains_id(b, &a[i].0) {
            proof {
                assert(ids_contain(uview(a@), uview(a@)[i as int]));
            }
            return false;
        }
        i = i + 1;
    }
    proof {
        assert forall|x: Seq<u8>| ids_contain(uview(a@), x) implies !ids_contain(
            uview(b@),
            x,
        ) by {
            let k = choose|k: int| 0 <= k < uview(a@).len() && uview(a@)[k] == x;
            assert(!ids_contain(uview(b@), uview(a@)[k]));
        }
    }
    true
}

/// The resolved output identifiers of one transaction.
pub(crate) fn tx_output_utxos(tx: &BlockTx) -> (r: Vec<UTXO>)
    requires
        tx.enc().len() < 0x1_0000_0000,
    ensures
        uview(r@) == tx_out_ids(*tx),
{
    let mut r: Vec<UTXO> = Vec::new();
    let mut i: usize = 0;
    while i < tx.outputs.len()
        invariant
            tx.enc().len() < 0x1_0000_0000,
            i <= tx.outputs@.len(),
            uview(r@) =~= out_ids_of(tx.outputs@.subrange(0, i as int)),
        decreases tx.outputs@.len() - i,
    {
        proof {
            crate::block::lemma_tx_output_enc_bounded(*tx, i as int);
        }
        let ghost prev = r@;
        let u = UTXO::from_output(&tx.outputs[i]);
        r.push(u);
        proof {
            lemma_uview_push(prev, u);
            assert(uview(r@) =~= out_ids_of(tx.outputs@.subrange(0, i + 1 as int)));
        }
        i = i + 1;
    }
    proof {
        assert(tx.outputs@.subrange(0, tx.outputs@.len() as int) =~= tx.outputs@);
    }
    r
}

/// The identifiers consumed by a list of transactions, in order.
pub(crate) fn collect_spends(txs: &Vec<BlockTx>) -> (r: Vec<UTXO>)
    ensures
        uview(r@) == block_spends(txs@),
{
    let mut r: Vec<UTXO> = Vec::new();
    let mut i: usize = 0;
    while i < txs.len()
        invariant
            i <= txs@.len(),
            uview(r@) =~= block_spends(txs@.subrange(0, i as int)),
        decreases txs@.len() - i,
    {
        let tx = &txs[i];
        let ghost pre = r@;
        let mut k: usize = 0;
        while k < tx.inputs.len()
            invariant
                k <= tx.inputs@.len(),
                r@ == pre + tx.inputs@.subrange(0, k as int),
                *tx == txs@[i as int],
            decreases tx.inputs@.len() - k,
        {
            proof {
                assert(tx.inputs@.subrange(0, k + 1 as int) =~= tx.inputs@.subrange(0, k as int)
                    .push(tx.inputs@[k as int]));
            }
            r.push(tx.inputs[k]);
            k = k + 1;
        }
        proof {
            assert(tx.inputs@.subrange(0, tx.inputs@.len() as int) =~= tx.inputs@);
            assert(txs@.subrange(0, i + 1 as int).drop_last() =~= txs@.subrange(0, i as int));
            assert(uview(pre + tx.inputs@) =~= uview(pre) + uview(tx.inputs@));
            assert(uview(r@) =~= block_spends(txs@.subrange(0, i + 1 as int)));
        }
        i = i + 1;
    }
    proof {
        assert(txs@.subrange(0, txs@.len() as int) =~= txs@);
    }
    r
}

/// The identifiers created by a list of transactions, in order.
pub(crate) fn collect_out_ids(txs: &Vec<BlockTx>) -> (r: Vec<UTXO>)
    requires
        forall|k: int| 0 <= k < txs@.len() ==> (#[trigger] txs@[k]).enc().len() < 0x1_0000_0000,
    ensures
        uview(r@) == block_out_ids(txs@),
{
    let mut r: Vec<UTXO> = Vec::new();
    let mut i: usize = 0;
    while i < txs.len()
        invariant
            forall|k: int|
                0 <= k < txs@.len() ==> (#[trigger] txs@[k]).enc().len() < 0x1_0000_0000,
            i <= txs@.len(),
            uview(r@) =~= block_out_ids(txs@.subrange(0, i as int)),
        decreases txs@.len() - i,
    {
        let mut outs = tx_output_utxos(&txs[i]);
        let ghost pre = r@;
        let ghost outs_view = outs@;
        let mut k: usize = 0;
        while k < outs.len()
            invariant
                k <= outs@.len(),
                outs@ == outs_view,
                r@ == pre + outs@.subrange(0, k as int),
            decreases outs@.len() - k,
        {
            proof {
                assert(outs@.subrange(0, k + 1 as int) =~= outs@.subrange(0, k as int).push(
                    outs@[k as int],
                ));
            }
            r.push(outs[k]);
            k = k + 1;
        }
        proof {
            assert(outs@.subrange(0, outs@.len() as int) =~= outs@);
            assert(txs@.subrange(0, i + 1 as int).drop_last() =~= txs@.subrange(0, i as int));
            assert(uview(pre + outs@) =~= uview(pre) + uview(outs@));
            assert(uview(r@) =~= block_out_ids(txs@.subrange(0, i + 1 as int)));
        }
        i = i + 1;
    }
    proof {
        assert(txs@.subrange(0, txs@.len() as int) =~= txs@);
    }
    r
}

/// Checks `tx_valid_at`; the hash input limit is checked first, so
/// output identifiers are only computed for bounded encodings.
pub(crate) fn check_tx_valid(tx: &BlockTx, t_ms: u64) -> (r: bool)
    ensures
        r == tx_valid_at(*tx, t_ms),
{
    let len = tx.encoded_length();
    if !((len as u64) < 0x1_0000_0000u64) {
        return false;
    }
    if !(tx.header.mintime_ms <= t_ms && t_ms <= tx.header.maxtime_ms) {
        return false;
    }
    let inputs = copy_utxos(&tx.inputs);
    if !all_distinct(&inputs) {
        return false;
    }
    let outs = tx_output_utxos(tx);
    all_distinct(&outs)
}

/// Copies a 32-byte string into a vector.
pub(crate) fn bytes32_to_vec(a: &[u8; 32]) -> (r: Vec<u8>)
    ensures
        r@ == a@,
{
    let mut r: Vec<u8> = Vec::new();
    let mut i: usize = 0;
    while i < 32
        invariant
            i <= 32,
            r@ == a@.subrange(0, i as int),
        decreases 32 - i,
    {
        proof {
            assert(a@.subrange(0, i + 1 as int) =~= a@.subrange(0, i as int).push(a@[i as int]));
        }
        r.push(a[i]);
        i = i + 1;
    }
    proof {
        assert(a@.subrange(0, 32) =~= a@);
    }
    r
}

/// Computes the Merkle root of the transaction ids of a block; an empty
/// block gets the empty-list digest.
pub fn compute_txroot(txs: &Vec<BlockTx>) -> (r: [u8; 32])
    requires
        forall|k: int| 0 <= k < txs@.len() ==> (#[trigger] txs@[k]).enc().len() < 0x1_0000_0000,
    ensures
        r@ == root_spec(spec_txid_label(), txids_of(txs@)),
{
    let mut items: Vec<Vec<u8>> = Vec::new();
    let mut i: usize = 0;
    while i < txs.len()
        invariant
            forall|k: int|
                0 <= k < txs@.len() ==> (#[trigger] txs@[k]).enc().len() < 0x1_0000_0000,
            i <= txs@.len(),
            bytes_seq_view(items@) =~= txids_of(txs@.subrange(0, i as int)),
            forall|k: int| 0 <= k < items@.len() ==> (#[trigger] items@[k])@.len() == 32,
        decreases txs@.len() - i,
    {
        let id = txs[i].txid();
        let ghost prev = items@;
        items.push(bytes32_to_vec(&id.0));
        proof {
            let sub1 = txs@.subrange(0, i + 1 as int);
            assert(bytes_seq_view(prev).len() == txids_of(txs@.subrange(0, i as int)).len());
            assert(bytes_seq_view(items@).len() == i + 1);
            assert(txids_of(sub1).len() == i + 1);
            assert forall|k: int| 0 <= k < i + 1 implies bytes_seq_view(items@)[k] == txids_of(
                sub1,
            )[k] by {
                assert(bytes_seq_view(items@)[k] == items@[k]@);
                assert(txids_of(sub1)[k] == sub1[k].txid_spec());
                assert(sub1[k] == txs@[k]);
                if k < i {
                    assert(items@[k] == prev[k]);
                    assert(bytes_seq_view(prev)[k] == prev[k]@);
                    assert(bytes_seq_view(prev)[k] == txids_of(txs@.subrange(0, i as int))[k]);
                    assert(txids_of(txs@.subrange(0, i as int))[k] == txs@[k].txid_spec());
                } else {
                    assert(items@[k]@ == id.0@);
                }
            }
            assert(bytes_seq_view(items@) =~= txids_of(sub1));
        }
        i = i + 1;
    }
    proof {
        assert(txs@.subrange(0, txs@.len() as int) =~= txs@);
        assert(bytes_seq_view(items@) =~= txids_of(txs@));
    }
    root_from_items(&items)
}

/// Computes the Merkle root of a list of 32-byte identifiers under the
/// transaction-root label; an empty list gets the empty-list digest.
pub(crate) fn root_from_items(items: &Vec<Vec<u8>>) -> (r: [u8; 32])
    requires
        forall|k: int| 0 <= k < items@.len() ==> (#[trigger] items@[k])@.len() < 0x1_0000_0000,
    ensures
        r@ == root_spec(spec_txid_label(), bytes_seq_view(items@)),
{
    match MerkleTree::new(txid_label().as_slice(), items.as_slice()) {
        Some(tree) => {
            proof {
                assert(tree.items@ =~= bytes_seq_view(items@));
            }
            let root = tree.root();
            *root
        },
        None => merkle_empty_hash(txid_label().as_slice()),
    }
}

/// Identifiers kept by `keep_unspent` come from the original list.
pub proof fn lemma_keep_unspent_subset(ids: Seq<Seq<u8>>, spent: Seq<Seq<u8>>)
    ensures
        ids_subset(keep_unspent(ids, spent), ids),
        forall|x: Seq<u8>| ids_contain(keep_unspent(ids, spent), x) ==> !ids_contain(spent, x),
    decreases ids.len(),
{
    if ids.len() > 0 {
        lemma_keep_unspent_subset(ids.drop_last(), spent);
        assert forall|x: Seq<u8>| ids_contain(keep_unspent(ids, spent), x) implies ids_contain(
            ids,
            x,
        ) && !ids_contain(spent, x) by {
            let kept = keep_unspent(ids, spent);
            let i = choose|i: int| 0 <= i < kept.len() && kept[i] == x;
            if i < keep_unspent(ids.drop_last(), spent).len() {
                assert(ids_contain(keep_unspent(ids.drop_last(), spent), x));
                let j = choose|j: int|
                    0 <= j < ids.drop_last().len() && ids.drop_last()[j] == x;
                assert(ids[j] == x);
            } else {
                assert(x == ids.last());
                assert(ids[ids.len() - 1] == x);
            }
        }
    }
}

/// `keep_unspent` keeps distinct identifiers distinct.
pub proof fn lemma_keep_unspent_distinct(ids: Seq<Seq<u8>>, spent: Seq<Seq<u8>>)
    requires
        ids_distinct(ids),
    ensures
        ids_distinct(keep_unspent(ids, spent)),
    decreases ids.len(),
{
    if ids.len() > 0 {
        assert(ids_distinct(ids.drop_last()));
        lemma_keep_unspent_distinct(ids.drop_last(), spent);
        lemma_keep_unspent_subset(ids.drop_last(), spent);
        let kept = keep_unspent(ids, spent);
        let prev = keep_unspent(ids.drop_last(), spent);
        assert forall|i: int, j: int| 0 <= i < j < kept.len() implies kept[i] != kept[j] by {
            if j == prev.len() {
                // kept[j] is ids.last(); kept[i] comes from the front part
                assert(ids_contain(prev, kept[i]));
                let p = choose|p: int|
                    0 <= p < ids.drop_last().len() && ids.drop_last()[p] == kept[i];
                assert(ids[p] == kept[i]);
                assert(ids[ids.len() - 1] == ids.last());
            }
        }
    }
}

/// Two distinct lists with no identifier in common concatenate to a
/// distinct list.
pub proof fn lemma_concat_distinct(a: Seq<Seq<u8>>, b: Seq<Seq<u8>>)
    requires
        ids_distinct(a),
        ids_distinct(b),
        ids_disjoint(a, b),
    ensures
        ids_distinct(a + b),
{
    assert forall|i: int, j: int| 0 <= i < j < (a + b).len() implies (a + b)[i] != (a + b)[j] by {
        if i < a.len() && j >= a.len() {
            assert(ids_contain(a, (a + b)[i]));
            assert(ids_contain(b, (a + b)[j]));
        }
    }
}

/// An identifier is spent by a block exactly when some transaction of the
/// block consumes it.
pub proof fn lemma_spends_membership(txs: Seq<BlockTx>)
    ensures
        forall|x: Seq<u8>|
            #[trigger] ids_contain(block_spends(txs), x) <==> exists|i: int|
                0 <= i < txs.len() && ids_contain(uview(txs[i].inputs@), x),
    decreases txs.len(),
{
    if txs.len() > 0 {
        lemma_spends_membership(txs.drop_last());
        assert forall|x: Seq<u8>| #[trigger] ids_contain(block_spends(txs), x) implies exists|i: int|
            0 <= i < txs.len() && ids_contain(uview(txs[i].inputs@), x) by {
            let front = block_spends(txs.drop_last());
            let k = choose|k: int| 0 <= k < block_spends(txs).len() && block_spends(txs)[k] == x;
            if k < front.len() {
                assert(ids_contain(front, x));
                let i = choose|i: int|
                    0 <= i < txs.drop_last().len() && ids_contain(
                        uview(txs.drop_last()[i].inputs@),
                        x,
                    );
                assert(txs.drop_last()[i] == txs[i]);
                assert(ids_contain(uview(txs[i].inputs@), x));
            } else {
                assert(uview(txs.last().inputs@)[k - front.len()] == x);
                assert(ids_contain(uview(txs[txs.len() - 1].inputs@), x));
            }
        }
        assert forall|x: Seq<u8>|
            (exists|i: int| 0 <= i < txs.len() && ids_contain(uview(txs[i].inputs@), x)) implies
            #[trigger] ids_contain(block_spends(txs), x) by {
            let i = choose|i: int| 0 <= i < txs.len() && ids_contain(uview(txs[i].inputs@), x);
            let front = block_spends(txs.drop_last());
            if i < txs.len() - 1 {
                assert(txs.drop_last()[i] == txs[i]);
                assert(ids_contain(front, x));
                let k = choose|k: int| 0 <= k < front.len() && front[k] == x;
                assert(block_spends(txs)[k] == x);
            } else {
                let k = choose|k: int|
                    0 <= k < uview(txs[i].inputs@).len() && uview(txs[i].inputs@)[k] == x;
                assert(block_spends(txs)[front.len() + k] == x);
            }
        }
    }
}

/// An identifier is created by a block exactly when some transaction of
/// the block creates it.
pub proof fn lemma_out_ids_membership(txs: Seq<BlockTx>)
    ensures
        forall|x: Seq<u8>|
            #[trigger] ids_contain(block_out_ids(txs), x) <==> exists|i: int|
                0 <= i < txs.len() && ids_contain(tx_out_ids(txs[i]), x),
    decreases txs.len(),
{
    if txs.len() > 0 {
        lemma_out_ids_membership(txs.drop_last());
        assert forall|x: Seq<u8>| #[trigger] ids_contain(block_out_ids(txs), x) implies exists|
            i: int,
        |
            0 <= i < txs.len() && ids_contain(tx_out_ids(txs[i]), x) by {
            let front = block_out_ids(txs.drop_last());
            let k = choose|k: int|
                0 <= k < block_out_ids(txs).len() && block_out_ids(txs)[k] == x;
            if k < front.len() {
                assert(ids_contain(front, x));
                let i = choose|i: int|
                    0 <= i < txs.drop_last().len() && ids_contain(
                        tx_out_ids(txs.drop_last()[i]),
                        x,
                    );
                assert(txs.drop_last()[i] == txs[i]);
                assert(ids_contain(tx_out_ids(txs[i]), x));
            } else {
                assert(tx_out_ids(txs.last())[k - front.len()] == x);
                assert(ids_contain(tx_out_ids(txs[txs.len() - 1]), x));
            }
        }
        assert forall|x: Seq<u8>|
            (exists|i: int| 0 <= i < txs.len() && ids_contain(tx_out_ids(txs[i]), x)) implies
            #[trigger] ids_contain(block_out_ids(txs), x) by {
            let i = choose|i: int| 0 <= i < txs.len() && ids_contain(tx_out_ids(txs[i]), x);
            let front = block_out_ids(txs.drop_last());
            if i < txs.len() - 1 {
                assert(txs.drop_last()[i] == txs[i]);
                assert(ids_contain(front, x));
                let k = choose|k: int| 0 <= k < front.len() && front[k] == x;
                assert(block_out_ids(txs)[k] == x);
            } else {
                let k = choose|k: int|
                    0 <= k < tx_out_ids(txs[i]).len() && tx_out_ids(txs[i])[k] == x;
                assert(block_out_ids(txs)[front.len() + k] == x);
            }
        }
    }
}

/// A block whose transactions each consume distinct identifiers, no two
/// transactions sharing one, spends distinct identifiers overall.
pub proof fn lemma_spends_distinct(txs: Seq<BlockTx>)
    requires
        forall|i: int| 0 <= i < txs.len() ==> ids_distinct(uview((#[trigger] txs[i]).inputs@)),
        forall|i: int, j: int|
            0 <= i < txs.len() && 0 <= j < txs.len() && i != j ==> ids_disjoint(
                uview((#[trigger] txs[i]).inputs@),
                uview((#[trigger] txs[j]).inputs@),
            ),
    ensures
        ids_distinct(block_spends(txs)),
    decreases txs.len(),
{
    if txs.len() > 0 {
        assert(forall|i: int|
            0 <= i < txs.drop_last().len() ==> (#[trigger] txs.drop_last()[i]) == txs[i]);
        lemma_spends_distinct(txs.drop_last());
        lemma_spends_membership(txs.drop_last());
        let front = block_spends(txs.drop_last());
        let lastv = uview(txs.last().inputs@);
        assert(txs.last() == txs[txs.len() - 1]);
        assert forall|x: Seq<u8>| ids_contain(front, x) implies !ids_contain(lastv, x) by {
            let i = choose|i: int|
                0 <= i < txs.drop_last().len() && ids_contain(
                    uview(txs.drop_last()[i].inputs@),
                    x,
                );
            assert(ids_disjoint(uview(txs[i].inputs@), uview(txs[txs.len() - 1].inputs@)));
        }
        lemma_concat_distinct(front, lastv);
    }
}

/// A block whose transactions each create distinct identifiers, no two
/// transactions creating the same one, creates distinct identifiers
/// overall.
pub proof fn lemma_out_ids_distinct(txs: Seq<BlockTx>)
    requires
        forall|i: int| 0 <= i < txs.len() ==> ids_distinct(tx_out_ids(#[trigger] txs[i])),
        forall|i: int, j: int|
            0 <= i < txs.len() && 0 <= j < txs.len() && i != j ==> ids_disjoint(
                tx_out_ids(#[trigger] txs[i]),
                tx_out_ids(#[trigger] txs[j]),
            ),
    ensures
        ids_distinct(block_out_ids(txs)),
    decreases txs.len(),
{
    if txs.len() > 0 {
        assert(forall|i: int|
            0 <= i < txs.drop_last().len() ==> (#[trigger] txs.drop_last()[i]) == txs[i]);
        lemma_out_ids_distinct(txs.drop_last());
        lemma_out_ids_membership(txs.drop_last());
        let front = block_out_ids(txs.drop_last());
        let lastv = tx_out_ids(txs.last());
        assert(txs.last() == txs[txs.len() - 1]);
        assert forall|x: Seq<u8>| ids_contain(front, x) implies !ids_contain(lastv, x) by {
            let i = choose|i: int|
                0 <= i < txs.drop_last().len() && ids_contain(tx_out_ids(txs.drop_last()[i]), x);
            assert(ids_disjoint(tx_out_ids(txs[i]), tx_out_ids(txs[txs.len() - 1])));
        }
        lemma_concat_distinct(front, lastv);
    }
}

/// The unspent set after a block with distinct, fresh outputs over a
/// distinct unspent set is distinct again.
pub proof fn lemma_post_distinct(utxos: Seq<Seq<u8>>, spends: Seq<Seq<u8>>, outs: Seq<Seq<u8>>)
    requires
        ids_distinct(utxos),
        ids_distinct(outs),
        ids_disjoint(outs, utxos),
    ensures
        ids_distinct(keep_unspent(utxos, spends) + outs),
{
    lemma_keep_unspent_distinct(utxos, spends);
    lemma_keep_unspent_subset(utxos, spends);
    let kept = keep_unspent(utxos, spends);
    assert forall|x: Seq<u8>| ids_contain(kept, x) implies !ids_contain(outs, x) by {
        assert(ids_contain(utxos, x));
    }
    lemma_concat_distinct(kept, outs);
}

/// Computes the unspent set after a block: the identifiers of `utxos`
/// not in `spends`, followed by `outs`.
pub(crate) fn apply_utxo_sets(utxos: &Vec<UTXO>, spends: &Vec<UTXO>, outs: &Vec<UTXO>) -> (r: Vec<
    UTXO,
>)
    ensures
        uview(r@) == keep_unspent(uview(utxos@), uview(spends@)) + uview(outs@),
{
    let mut r: Vec<UTXO> = Vec::new();
    let mut i: usize = 0;
    while i < utxos.len()
        invariant
            i <= utxos@.len(),
            uview(r@) =~= keep_unspent(uview(utxos@).subrange(0, i as int), uview(spends@)),
        decreases utxos@.len() - i,
    {
        let ghost prev = r@;
        if !contains_id(spends, &utxos[i].0) {
            r.push(utxos[i]);
            proof {
                lemma_uview_push(prev, utxos@[i as int]);
            }
        }
        proof {
            assert(uview(utxos@).subrange(0, i + 1 as int).drop_last() =~= uview(
                utxos@,
            ).subrange(0, i as int));
            assert(uview(r@) =~= keep_unspent(
                uview(utxos@).subrange(0, i + 1 as int),
                uview(spends@),
            ));
        }
        i = i + 1;
    }
    proof {
        assert(uview(utxos@).subrange(0, utxos@.len() as int) =~= uview(utxos@));
    }
    let ghost kept = uview(r@);
    let mut k: usize = 0;
    while k < outs.len()
        invariant
            k <= outs@.len(),
            uview(r@) =~= kept + uview(outs@).subrange(0, k as int),
        decreases outs@.len() - k,
    {
        let ghost prev = r@;
        let u = outs[k];
        r.push(u);
        proof {
            lemma_uview_push(prev, u);
            assert(uview(outs@).subrange(0, k + 1 as int) =~= uview(outs@).subrange(0, k as int)
                .push(uview(outs@)[k as int]));
            assert(uview(r@) =~= kept + uview(outs@).subrange(0, k + 1 as int));
        }
        k = k + 1;
    }
    proof {
        assert(uview(outs@).subrange(0, outs@.len() as int) =~= uview(outs@));
    }
    r
}

impl BlockchainState {
    /// The unspent identifiers are distinct.
    pub open spec fn wf(&self) -> bool {
        ids_distinct(uview(self.utxos@))
    }

    /// Whether this state holds the unspent output `id`.
    pub open spec fn spec_contains_utxo(&self, id: Seq<u8>) -> bool {
        ids_contain(uview(self.utxos@), id)
    }

    /// Creates the state a chain starts from: a tip at the given height
    /// and time over a starting unspent set.
    pub fn make_initial(height: u64, timestamp_ms: u64, utxos: Vec<UTXO>) -> (s: BlockchainState)
        requires
            ids_distinct(uview(utxos@)),
        ensures
            s.wf(),
            s.tip.height == height,
            s.tip.timestamp_ms == timestamp_ms,
            s.utxos@ == utxos@,
    {
        let txroot = merkle_empty_hash(txid_label().as_slice());
        BlockchainState {
            tip: BlockHeader {
                height,
                prev: crate::block::BlockID([0u8; 32]),
                timestamp_ms,
                txroot,
            },
            utxos,
        }
    }

    /// Applies a block to the state: checks that the header extends the
    /// tip, that every transaction's window admits the block time, that
    /// the block spends distinct, unspent outputs and creates distinct,
    /// fresh ones, and that the header's transaction root matches the
    /// body. Returns the next state, the consumed identifiers and the
    /// validated transactions, or `InvalidBlock`.
    pub fn apply_block(&self, header: BlockHeader, txs: &Vec<BlockTx>) -> (r: Result<
        (BlockchainState, Catchup, Vec<VerifiedTx>),
        BlockchainError,
    >)
        requires
            self.wf(),
        ensures
            r is Ok <==> block_valid(*self, header, txs@),
            r matches Ok((ns, cat, vtxs)) ==> {
                &&& ns.tip == header
                &&& uview(ns.utxos@) == post_utxo_ids(*self, txs@)
                &&& ns.wf()
                &&& uview(cat.spent@) == block_spends(txs@)
                &&& vtxs@.len() == txs@.len()
                &&& forall|i: int|
                    0 <= i < txs@.len() ==> (#[trigger] vtxs@[i]).matches(txs@[i])
            },
            r is Err ==> r == Result::<(BlockchainState, Catchup, Vec<VerifiedTx>),
                BlockchainError,
            >::Err(BlockchainError::InvalidBlock),
    {
        // Header extends the tip by one.
        if !(header.height >= 1 && header.height - 1 == self.tip.height) {
            return Err(BlockchainError::InvalidBlock);
        }
        let tip_id = self.tip.id();
        if !bytes32_eq(&header.prev.0, &tip_id.0) {
            return Err(BlockchainError::InvalidBlock);
        }
        if header.timestamp_ms < self.tip.timestamp_ms {
            return Err(BlockchainError::InvalidBlock);
        }
        // Every transaction admits the block time and repeats nothing.
        let mut i: usize = 0;
        while i < txs.len()
            invariant
                i <= txs@.len(),
                forall|k: int| 0 <= k < i ==> tx_valid_at(#[trigger] txs@[k], header.timestamp_ms),
            decreases txs@.len() - i,
        {
            if !check_tx_valid(&txs[i], header.timestamp_ms) {
                return Err(BlockchainError::InvalidBlock);
            }
            i = i + 1;
        }
        // The block spends distinct identifiers, all unspent.
        let spends = collect_spends(txs);
        if !all_distinct(&spends) {
            return Err(BlockchainError::InvalidBlock);
        }
        let mut i: usize = 0;
        while i < spends.len()
            invariant
                i <= spends@.len(),
                uview(spends@) == block_spends(txs@),
                forall|k: int|
                    0 <= k < i ==> ids_contain(uview(self.utxos@), uview(spends@)[k]),
            decreases spends@.len() - i,
        {
            if !contains_id(&self.utxos, &spends[i].0) {
                proof {
                    assert(ids_contain(block_spends(txs@), uview(spends@)[i as int]));
                }
                return Err(BlockchainError::InvalidBlock);
            }
            i = i + 1;
        }
        // The block creates distinct identifiers, all fresh.
        let outs = collect_out_ids(txs);
        if !all_distinct(&outs) {
            return Err(BlockchainError::InvalidBlock);
        }
        let mut i: usize = 0;
        while i < outs.len()
            invariant
                i <= outs@.len(),
                uview(outs@) == block_out_ids(txs@),
                forall|k: int|
                    0 <= k < i ==> !ids_contain(uview(self.utxos@), uview(outs@)[k]),
            decreases outs@.len() - i,
        {
            if contains_id(&self.utxos, &outs[i].0) {
                proof {
                    assert(ids_contain(block_out_ids(txs@), uview(outs@)[i as int]));
                }
                return Err(BlockchainError::InvalidBlock);
            }
            i = i + 1;
        }
        // The header's transaction root matches the body.
        let txroot = compute_txroot(txs);
        if !bytes32_eq(&header.txroot, &txroot) {
            return Err(BlockchainError::InvalidBlock);
        }
        proof {
            assert forall|x: Seq<u8>|
                ids_contain(block_spends(txs@), x) implies ids_contain(
                uview(self.utxos@),
                x,
            ) by {
                let k = choose|k: int|
                    0 <= k < block_spends(txs@).len() && block_spends(txs@)[k] == x;
                assert(ids_contain(uview(self.utxos@), uview(spends@)[k]));
            }
            assert forall|x: Seq<u8>|
                ids_contain(block_out_ids(txs@), x) implies !ids_contain(
                uview(self.utxos@),
                x,
            ) by {
                let k = choose|k: int|
                    0 <= k < block_out_ids(txs@).len() && block_out_ids(txs@)[k] == x;
                assert(!ids_contain(uview(self.utxos@), uview(outs@)[k]));
            }
            assert(block_valid(*self, header, txs@));
        }
        // Build the next unspent set: survivors, then fresh outputs.
        let new_utxos = apply_utxo_sets(&self.utxos, &spends, &outs);
        proof {
            assert(uview(new_utxos@) == post_utxo_ids(*self, txs@));
            lemma_post_distinct(uview(self.utxos@), block_spends(txs@), block_out_ids(txs@));
        }
        // The validated transactions, in block order.
        let mut vtxs: Vec<VerifiedTx> = Vec::new();
        let mut i: usize = 0;
        while i < txs.len()
            invariant
                forall|k: int|
                    0 <= k < txs@.len() ==> (#[trigger] txs@[k]).enc().len() < 0x1_0000_0000,
                i <= txs@.len(),
                vtxs@.len() == i,
                forall|k: int| 0 <= k < i ==> (#[trigger] vtxs@[k]).matches(txs@[k]),
            decreases txs@.len() - i,
        {
            let tx = &txs[i];
            let vtx = VerifiedTx {
                header: tx.header,
                id: tx.txid(),
                inputs: copy_utxos(&tx.inputs),
                outputs: tx_output_utxos(tx),
            };
            vtxs.push(vtx);
            i = i + 1;
        }
        Ok((BlockchainState { tip: header, utxos: new_utxos }, Catchup { spent: spends }, vtxs))
    }
}

} // verus!
