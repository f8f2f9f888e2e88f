//! The mempool: verified candidate transactions sealed by a chain state.
//!
//! Every entry stays consistent with the sealing state: its inputs are
//! unspent, its outputs fresh, its time window open at the mempool clock,
//! and no two entries compete for an input, an output or a transaction
//! id. Under that invariant the whole mempool can always be turned into
//! a valid block.

use vstd::prelude::*;

use crate::block::{BlockHeader, BlockTx};
use crate::errors::MempoolError;
use crate::merkle::root_spec;
use crate::state::{BlockchainState, Catchup, VerifiedTx, apply_utxo_sets, are_disjoint,
    block_out_ids, block_spends, block_valid, bytes_seq_view, bytes32_to_vec, check_tx_valid,
    ids_contain, ids_disjoint, ids_distinct, ids_subset, is_id_subset, lemma_out_ids_distinct,
    lemma_out_ids_membership, lemma_post_distinct, lemma_spends_distinct,
    lemma_spends_membership, post_utxo_ids, root_from_items, spec_txid_label, tx_out_ids,
    tx_output_utxos, tx_valid_at, txids_of, uview};
use crate::txlog::{TxID, UTXO, copy_utxos};
use crate::encoding::{Encodable, bytes32_eq};

verus! {

/// A mempool entry: the transaction, its validated form, and the
/// membership witnesses of its inputs (in the transparent unspent set,
/// each input witnesses itself).
pub struct MempoolTx {
    /// The transaction as it would be carried in a block.
    pub tx: BlockTx,
    /// The validated form of the transaction.
    pub verified_tx: VerifiedTx,
    /// The membership witnesses of the inputs.
    pub proofs: Vec<UTXO>,
}

impl MempoolTx {
    /// The validated form and the witnesses belong to the transaction.
    pub open spec fn wf(&self) -> bool {
        &&& self.verified_tx.matches(self.tx)
        &&& self.proofs@ == self.tx.inputs@
    }

    /// The transaction in block form.
    pub fn block_tx(&self) -> (r: &BlockTx)
        ensures
            *r == self.tx,
    {
        &self.tx
    }

    /// The validated form of the transaction.
    pub fn verified_tx(&self) -> (r: &VerifiedTx)
        ensures
            *r == self.verified_tx,
    {
        &self.verified_tx
    }

    /// The membership witnesses of the inputs.
    pub fn utxo_proofs(&self) -> (r: &Vec<UTXO>)
        ensures
            r@ == self.proofs@,
    {
        &self.proofs
    }

    /// The transaction's identifier.
    pub fn txid(&self) -> (r: TxID)
        requires
            self.wf(),
        ensures
            r.0@ == self.tx.txid_spec(),
    {
        self.verified_tx.id
    }
}

/// The transactions of a list of entries, in order.
pub open spec fn block_txs(items: Seq<MempoolTx>) -> Seq<BlockTx> {
    items.map_values(|e: MempoolTx| e.tx)
}

/// No two entries share a transaction id, an input or an output.
pub open spec fn entries_pairwise_ok(items: Seq<MempoolTx>) -> bool {
    &&& forall|i: int, j: int|
        0 <= i < j < items.len() ==> (#[trigger] items[i]).tx.txid_spec() != (
        #[trigger] items[j]).tx.txid_spec()
    &&& forall|i: int, j: int|
        0 <= i < items.len() && 0 <= j < items.len() && i != j ==> ids_disjoint(
            uview((#[trigger] items[i]).tx.inputs@),
            uview((#[trigger] items[j]).tx.inputs@),
        )
    &&& forall|i: int, j: int|
        0 <= i < items.len() && 0 <= j < items.len() && i != j ==> ids_disjoint(
            tx_out_ids((#[trigger] items[i]).tx),
            tx_out_ids((#[trigger] items[j]).tx),
        )
}

/// One entry is consistent with the sealing state and clock: validated
/// form intact, window open, inputs unspent, outputs fresh.
pub open spec fn entry_ok(e: MempoolTx, state: BlockchainState, ts: u64) -> bool {
    &&& e.wf()
    &&& tx_valid_at(e.tx, ts)
    &&& ids_subset(uview(e.tx.inputs@), uview(state.utxos@))
    &&& ids_disjoint(tx_out_ids(e.tx), uview(state.utxos@))
}

/// The entries surviving a clock advance to `ts`.
pub open spec fn retain_ts(items: Seq<MempoolTx>, ts: u64) -> Seq<MempoolTx>
    decreases items.len(),
{
    if items.len() == 0 {
        Seq::empty()
    } else {
        retain_ts(items.drop_last(), ts) + if items.last().tx.header.maxtime_ms >= ts {
            seq![items.last()]
        } else {
            Seq::<MempoolTx>::empty()
        }
    }
}

/// The entries surviving a move onto state `st` with clock `ts`: inputs
/// still unspent, outputs still fresh, window still open.
pub open spec fn retain_state(items: Seq<MempoolTx>, st: BlockchainState, ts: u64) -> Seq<
    MempoolTx,
>
    decreases items.len(),
{
    if items.len() == 0 {
        Seq::empty()
    } else {
        retain_state(items.drop_last(), st, ts) + if ids_subset(
            uview(items.last().tx.inputs@),
            uview(st.utxos@),
        ) && ids_disjoint(tx_out_ids(items.last().tx), uview(st.utxos@))
            && items.last().tx.header.maxtime_ms >= ts {
            seq![items.last()]
        } else {
            Seq::<MempoolTx>::empty()
        }
    }
}

/// How `append` rejects a transaction against a mempool, or `None` if it
/// is accepted: a closed time window or an internal repetition is the
/// transaction's own fault; a duplicate id, a spent or contested input,
/// or a known output merely finds the place occupied.
pub open spec fn append_verdict(
    state: BlockchainState,
    ts: u64,
    items: Seq<MempoolTx>,
    tx: BlockTx,
) -> Option<MempoolError> {
    if !tx_valid_at(tx, ts) {
        Some(MempoolError::InvalidTx)
    } else if exists|i: int|
        0 <= i < items.len() && (#[trigger] items[i]).tx.txid_spec() == tx.txid_spec() {
        Some(MempoolError::Occupied)
    } else if !ids_subset(uview(tx.inputs@), uview(state.utxos@)) {
        Some(MempoolError::Occupied)
    } else if exists|i: int|
        0 <= i < items.len() && !ids_disjoint(
            uview(tx.inputs@),
            uview((#[trigger] items[i]).tx.inputs@),
        ) {
        Some(MempoolError::Occupied)
    } else if !ids_disjoint(tx_out_ids(tx), uview(state.utxos@)) {
        Some(MempoolError::Occupied)
    } else if exists|i: int|
        0 <= i < items.len() && !ids_disjoint(
            tx_out_ids(tx),
            tx_out_ids((#[trigger] items[i]).tx),
        ) {
        Some(MempoolError::Occupied)
    } else {
        None
    }
}

/// The outcome of offering a list of transactions to a mempool one by
/// one: occupied places are skipped, an invalid transaction aborts the
/// rest, and each accepted transaction joins the entries.
pub open spec fn absorbs(
    state: BlockchainState,
    ts: u64,
    items: Seq<MempoolTx>,
    txs: Seq<BlockTx>,
    fin: Seq<MempoolTx>,
    aborted: bool,
) -> bool
    decreases txs.len(),
{
    if txs.len() == 0 {
        fin == items && !aborted
    } else {
        match append_verdict(state, ts, items, txs[0]) {
            Some(MempoolError::InvalidTx) => fin == items && aborted,
            Some(MempoolError::Occupied) => absorbs(state, ts, items, txs.drop_first(), fin, aborted),
            None => exists|e: MempoolTx|
                (#[trigger] e.tx) == txs[0] && e.wf() && absorbs(
                    state,
                    ts,
                    items.push(e),
                    txs.drop_first(),
                    fin,
                    aborted,
                ),
        }
    }
}

/// Absorbing one more transaction that finds its place occupied.
pub proof fn lemma_absorbs_snoc_occupied(
    state: BlockchainState,
    ts: u64,
    items: Seq<MempoolTx>,
    a: Seq<BlockTx>,
    mid: Seq<MempoolTx>,
    x: BlockTx,
)
    requires
        absorbs(state, ts, items, a, mid, false),
        append_verdict(state, ts, mid, x) == Some(MempoolError::Occupied),
    ensures
        absorbs(state, ts, items, a.push(x), mid, false),
    decreases a.len(),
{
    assert(a.push(x)[0] == if a.len() == 0 { x } else { a[0] });
    if a.len() == 0 {
        assert(mid == items);
        assert(a.push(x).drop_first() =~= Seq::<BlockTx>::empty());
        assert(absorbs(state, ts, items, Seq::<BlockTx>::empty(), mid, false));
        assert(absorbs(state, ts, items, a.push(x).drop_first(), mid, false));
    } else {
        assert(a.push(x).drop_first() =~= a.drop_first().push(x));
        match append_verdict(state, ts, items, a[0]) {
            Some(MempoolError::InvalidTx) => {
                assert(false);
            },
            Some(MempoolError::Occupied) => {
                lemma_absorbs_snoc_occupied(state, ts, items, a.drop_first(), mid, x);
            },
            None => {
                let e = choose|e: MempoolTx|
                    (#[trigger] e.tx) == a[0] && e.wf() && absorbs(
                        state,
                        ts,
                        items.push(e),
                        a.drop_first(),
                        mid,
                        false,
                    );
                lemma_absorbs_snoc_occupied(state, ts, items.push(e), a.drop_first(), mid, x);
            },
        }
    }
}

/// Absorbing one more transaction that is accepted.
pub proof fn lemma_absorbs_snoc_accepted(
    state: BlockchainState,
    ts: u64,
    items: Seq<MempoolTx>,
    a: Seq<BlockTx>,
    mid: Seq<MempoolTx>,
    x: BlockTx,
    e: MempoolTx,
)
    requires
        absorbs(state, ts, items, a, mid, false),
        append_verdict(state, ts, mid, x) == Option::<MempoolError>::None,
        e.tx == x,
        e.wf(),
    ensures
        absorbs(state, ts, items, a.push(x), mid.push(e), false),
    decreases a.len(),
{
    assert(a.push(x)[0] == if a.len() == 0 { x } else { a[0] });
    if a.len() == 0 {
        assert(mid == items);
        assert(a.push(x).drop_first() =~= Seq::<BlockTx>::empty());
        assert(absorbs(state, ts, items.push(e), Seq::<BlockTx>::empty(), mid.push(e), false));
        assert(absorbs(state, ts, items.push(e), a.push(x).drop_first(), mid.push(e), false));
    } else {
        assert(a.push(x).drop_first() =~= a.drop_first().push(x));
        match append_verdict(state, ts, items, a[0]) {
            Some(MempoolError::InvalidTx) => {
                assert(false);
            },
            Some(MempoolError::Occupied) => {
                lemma_absorbs_snoc_accepted(state, ts, items, a.drop_first(), mid, x, e);
            },
            None => {
                let w = choose|w: MempoolTx|
                    (#[trigger] w.tx) == a[0] && w.wf() && absorbs(
                        state,
                        ts,
                        items.push(w),
                        a.drop_first(),
                        mid,
                        false,
                    );
                lemma_absorbs_snoc_accepted(state, ts, items.push(w), a.drop_first(), mid, x, e);
            },
        }
    }
}

/// Absorbing a transaction that is invalid aborts, whatever follows it.
pub proof fn lemma_absorbs_abort(
    state: BlockchainState,
    ts: u64,
    items: Seq<MempoolTx>,
    a: Seq<BlockTx>,
    mid: Seq<MempoolTx>,
    x: BlockTx,
    rest: Seq<BlockTx>,
)
    requires
        absorbs(state, ts, items, a, mid, false),
        append_verdict(state, ts, mid, x) == Some(MempoolError::InvalidTx),
    ensures
        absorbs(state, ts, items, a + (seq![x] + rest), mid, true),
    decreases a.len(),
{
    let whole = a + (seq![x] + rest);
    if a.len() == 0 {
        assert(mid == items);
        assert(whole[0] == x);
        assert(append_verdict(state, ts, items, whole[0]) == Some(MempoolError::InvalidTx));
    } else {
        assert(whole[0] == a[0]);
        assert(whole.drop_first() =~= a.drop_first() + (seq![x] + rest));
        match append_verdict(state, ts, items, a[0]) {
            Some(MempoolError::InvalidTx) => {
                assert(false);
            },
            Some(MempoolError::Occupied) => {
                lemma_absorbs_abort(state, ts, items, a.drop_first(), mid, x, rest);
            },
            None => {
                let w = choose|w: MempoolTx|
                    (#[trigger] w.tx) == a[0] && w.wf() && absorbs(
                        state,
                        ts,
                        items.push(w),
                        a.drop_first(),
                        mid,
                        false,
                    );
                lemma_absorbs_abort(state, ts, items.push(w), a.drop_first(), mid, x, rest);
            },
        }
    }
}

/// The mempool: candidate transactions sealed by a chain state and a
/// millisecond clock.
pub struct Mempool {
    /// The chain state the entries are validated against.
    pub state: BlockchainState,
    /// The clock used for time-window validation, in ms.
    pub timestamp_ms: u64,
    /// The entries, in insertion order.
    pub items: Vec<MempoolTx>,
}

impl Mempool {
    /// The mempool invariant: the sealing state is sound, the clock does
    /// not lag the tip, every entry is consistent with both, and no two
    /// entries compete.
    pub open spec fn wf(&self) -> bool {
        &&& self.state.wf()
        &&& self.timestamp_ms >= self.state.tip.timestamp_ms
        &&& forall|i: int|
            0 <= i < self.items@.len() ==> entry_ok(
                #[trigger] self.items@[i],
                self.state,
                self.timestamp_ms,
            )
        &&& entries_pairwise_ok(self.items@)
    }

    /// Creates an empty mempool over a state, with the clock clamped to
    /// the tip's timestamp.
    pub fn new(state: BlockchainState, timestamp_ms: u64) -> (m: Mempool)
        requires
            state.wf(),
        ensures
            m.wf(),
            m.state == state,
            m.items@.len() == 0,
            m.timestamp_ms == if timestamp_ms >= state.tip.timestamp_ms {
                timestamp_ms
            } else {
                state.tip.timestamp_ms
            },
    {
        let ts = if timestamp_ms >= state.tip.timestamp_ms {
            timestamp_ms
        } else {
            state.tip.timestamp_ms
        };
        Mempool { state, timestamp_ms: ts, items: Vec::new() }
    }

    /// Number of entries.
    pub fn len(&self) -> (n: usize)
        ensures
            n == self.items@.len(),
    {
        self.items.len()
    }

    /// The entries, in insertion order.
    pub fn entries(&self) -> (r: &Vec<MempoolTx>)
        ensures
            r@ == self.items@,
    {
        &self.items
    }

    /// Verifies a transaction against the sealing state and the other
    /// entries and inserts it, or classifies the rejection exactly as
    /// `append_verdict` does.
    #[verifier::loop_isolation(false)]
    pub fn append(&mut self, tx: BlockTx) -> (r: Result<(), MempoolError>)
        requires
            old(self).wf(),
        ensures
            final(self).wf(),
            final(self).state == old(self).state,
            final(self).timestamp_ms == old(self).timestamp_ms,
            match append_verdict(old(self).state, old(self).timestamp_ms, old(self).items@, tx) {
                Some(e) => r == Result::<(), MempoolError>::Err(e) && final(self).items@ == old(
                    self,
                ).items@,
                None => r is Ok && final(self).items@.len() == old(self).items@.len() + 1
                    && final(self).items@.subrange(0, old(self).items@.len() as int) == old(
                    self,
                ).items@ && final(self).items@.last().tx == tx,
            },
    {
        if !check_tx_valid(&tx, self.timestamp_ms) {
            return Err(MempoolError::InvalidTx);
        }
        let txid = tx.txid();
        let mut i: usize = 0;
        while i < self.items.len()
            invariant
                i <= self.items@.len(),
                txid.0@ == tx.txid_spec(),
                forall|k: int| 0 <= k < self.items@.len() ==> (#[trigger] self.items@[k]).wf(),
                forall|k: int|
                    0 <= k < i ==> (#[trigger] self.items@[k]).tx.txid_spec() != tx.txid_spec(),
            decreases self.items@.len() - i,
        {
            let other = self.items[i].txid();
            if bytes32_eq(&other.0, &txid.0) {
                return Err(MempoolError::Occupied);
            }
            i = i + 1;
        }
        if !is_id_subset(&tx.inputs, &self.state.utxos) {
            return Err(MempoolError::Occupied);
        }
        let mut i: usize = 0;
        while i < self.items.len()
            invariant
                i <= self.items@.len(),
                forall|k: int|
                    0 <= k < i ==> ids_disjoint(
                        uview(tx.inputs@),
                        uview((#[trigger] self.items@[k]).tx.inputs@),
                    ),
            decreases self.items@.len() - i,
        {
            if !are_disjoint(&tx.inputs, &self.items[i].tx.inputs) {
                return Err(MempoolError::Occupied);
            }
            i = i + 1;
        }
        let out_ids = tx_output_utxos(&tx);
        if !are_disjoint(&out_ids, &self.state.utxos) {
            return Err(MempoolError::Occupied);
        }
        let mut i: usize = 0;
        while i < self.items.len()
            invariant
                i <= self.items@.len(),
                uview(out_ids@) == tx_out_ids(tx),
                forall|k: int|
                    0 <= k < i ==> ids_disjoint(
                        tx_out_ids(tx),
                        tx_out_ids((#[trigger] self.items@[k]).tx),
                    ),
            decreases self.items@.len() - i,
        {
            let other_outs = tx_output_utxos(&self.items[i].tx);
            if !are_disjoint(&out_ids, &other_outs) {
                return Err(MempoolError::Occupied);
            }
            i = i + 1;
        }
        let vt = VerifiedTx {
            header: tx.header,
            id: txid,
            inputs: copy_utxos(&tx.inputs),
            outputs: out_ids,
        };
        let proofs = copy_utxos(&tx.inputs);
        let ghost prev = self.items@;
        self.items.push(MempoolTx { tx, verified_tx: vt, proofs });
        proof {
            assert(self.items@.subrange(0, prev.len() as int) =~= prev);
            let items = self.items@;
            assert forall|i: int, j: int| 0 <= i < j < items.len() implies (
            #[trigger] items[i]).tx.txid_spec() != (#[trigger] items[j]).tx.txid_spec() by {
                if j == items.len() - 1 {
                    assert(items[i] == prev[i]);
                }
            }
            assert forall|i: int, j: int|
                0 <= i < items.len() && 0 <= j < items.len() && i != j implies ids_disjoint(
                uview((#[trigger] items[i]).tx.inputs@),
                uview((#[trigger] items[j]).tx.inputs@),
            ) by {
                if i == items.len() - 1 {
                    assert(items[j] == prev[j]);
                    assert(ids_disjoint(uview(tx.inputs@), uview(prev[j].tx.inputs@)));
                    lemma_disjoint_sym(uview(tx.inputs@), uview(prev[j].tx.inputs@));
                } else if j == items.len() - 1 {
                    assert(items[i] == prev[i]);
                    assert(ids_disjoint(uview(tx.inputs@), uview(prev[i].tx.inputs@)));
                    lemma_disjoint_sym(uview(tx.inputs@), uview(prev[i].tx.inputs@));
                } else {
                    assert(items[i] == prev[i] && items[j] == prev[j]);
                }
            }
            assert forall|i: int, j: int|
                0 <= i < items.len() && 0 <= j < items.len() && i != j implies ids_disjoint(
                tx_out_ids((#[trigger] items[i]).tx),
                tx_out_ids((#[trigger] items[j]).tx),
            ) by {
                if i == items.len() - 1 {
                    assert(items[j] == prev[j]);
                    assert(ids_disjoint(tx_out_ids(tx), tx_out_ids(prev[j].tx)));
                    lemma_disjoint_sym(tx_out_ids(tx), tx_out_ids(prev[j].tx));
                } else if j == items.len() - 1 {
                    assert(items[i] == prev[i]);
                    assert(ids_disjoint(tx_out_ids(tx), tx_out_ids(prev[i].tx)));
                    lemma_disjoint_sym(tx_out_ids(tx), tx_out_ids(prev[i].tx));
                } else {
                    assert(items[i] == prev[i] && items[j] == prev[j]);
                }
            }
            assert forall|i: int|
                0 <= i < items.len() implies entry_ok(
                #[trigger] items[i],
                self.state,
                self.timestamp_ms,
            ) by {
                if i < items.len() - 1 {
                    assert(items[i] == prev[i]);
                }
            }
        }
        Ok(())
    }

    /// Advances the clock for time-lock validation, clamped so it never
    /// regresses, and evicts entries whose window closed.
    pub fn update_timestamp(&mut self, timestamp_ms: u64)
        requires
            old(self).wf(),
        ensures
            final(self).wf(),
            final(self).state == old(self).state,
            final(self).timestamp_ms == if timestamp_ms >= old(self).timestamp_ms {
                timestamp_ms
            } else {
                old(self).timestamp_ms
            },
            final(self).items@ == retain_ts(old(self).items@, final(self).timestamp_ms),
    {
        let ts = if timestamp_ms >= self.timestamp_ms {
            timestamp_ms
        } else {
            self.timestamp_ms
        };
        let ghost olditems = self.items@;
        let mut result: Vec<MempoolTx> = Vec::new();
        while self.items.len() > 0
            invariant
                self.state == old(self).state,
                self.timestamp_ms == old(self).timestamp_ms,
                self.state.wf(),
                ts >= self.timestamp_ms,
                forall|k: int|
                    0 <= k < olditems.len() ==> entry_ok(
                        #[trigger] olditems[k],
                        self.state,
                        self.timestamp_ms,
                    ),
                entries_pairwise_ok(olditems),
                self.items@.len() <= olditems.len(),
                self.items@ =~= olditems.subrange(
                    olditems.len() - self.items@.len(),
                    olditems.len() as int,
                ),
                result@ =~= retain_ts(
                    olditems.subrange(0, olditems.len() - self.items@.len()),
                    ts,
                ),
                forall|k: int|
                    0 <= k < result@.len() ==> entry_ok(#[trigger] result@[k], self.state, ts),
                entries_pairwise_ok(result@),
                forall|k: int|
                    0 <= k < result@.len() ==> exists|j: int|
                        0 <= j < olditems.len() - self.items@.len() && (#[trigger] result@[k])
                            == olditems[j],
            decreases self.items@.len(),
        {
            let ghost i = olditems.len() - self.items@.len();
            let e = self.items.remove(0);
            proof {
                assert(e == olditems[i]);
                assert(self.items@ =~= olditems.subrange(i + 1, olditems.len() as int));
            }
            let keep = e.tx.header.maxtime_ms >= ts;
            let ghost prevres = result@;
            if keep {
                result.push(e);
                proof {
                    lemma_push_keeps_pairwise(prevres, olditems, i, ts, self.state);
                    assert forall|k: int|
                        0 <= k < result@.len() implies entry_ok(
                        #[trigger] result@[k],
                        self.state,
                        ts,
                    ) by {
                        if k < prevres.len() {
                            assert(result@[k] == prevres[k]);
                        } else {
                            assert(result@[k] == olditems[i]);
                            assert(entry_ok(olditems[i], self.state, self.timestamp_ms));
                        }
                    }
                }
            }
            proof {
                assert(olditems.subrange(0, i + 1).drop_last() =~= olditems.subrange(0, i));
                assert(result@ =~= retain_ts(olditems.subrange(0, i + 1), ts));
            }
        }
        proof {
            assert(olditems.subrange(0, olditems.len() as int) =~= olditems);
        }
        self.items = result;
        self.timestamp_ms = ts;
    }

    /// Moves the mempool onto a new sealing state (with its catchup
    /// artifact), advancing the clock to the new tip if needed and
    /// dropping entries whose inputs were consumed, whose outputs are no
    /// longer fresh, or whose window closed.
    pub fn update_state(&mut self, new_state: BlockchainState, catchup: &Catchup)
        requires
            old(self).wf(),
            new_state.wf(),
        ensures
            final(self).wf(),
            final(self).state == new_state,
            final(self).timestamp_ms == if old(self).timestamp_ms >= new_state.tip.timestamp_ms {
                old(self).timestamp_ms
            } else {
                new_state.tip.timestamp_ms
            },
            final(self).items@ == retain_state(
                old(self).items@,
                new_state,
                final(self).timestamp_ms,
            ),
    {
        let ts = if self.timestamp_ms >= new_state.tip.timestamp_ms {
            self.timestamp_ms
        } else {
            new_state.tip.timestamp_ms
        };
        let ghost olditems = self.items@;
        let mut result: Vec<MempoolTx> = Vec::new();
        while self.items.len() > 0
            invariant
                self.state == old(self).state,
                self.timestamp_ms == old(self).timestamp_ms,
                self.state.wf(),
                new_state.wf(),
                ts >= self.timestamp_ms,
                ts >= new_state.tip.timestamp_ms,
                forall|k: int|
                    0 <= k < olditems.len() ==> entry_ok(
                        #[trigger] olditems[k],
                        self.state,
                        self.timestamp_ms,
                    ),
                entries_pairwise_ok(olditems),
                self.items@.len() <= olditems.len(),
                self.items@ =~= olditems.subrange(
                    olditems.len() - self.items@.len(),
                    olditems.len() as int,
                ),
                result@ =~= retain_state(
                    olditems.subrange(0, olditems.len() - self.items@.len()),
                    new_state,
                    ts,
                ),
                forall|k: int|
                    0 <= k < result@.len() ==> entry_ok(#[trigger] result@[k], new_state, ts),
                entries_pairwise_ok(result@),
                forall|k: int|
                    0 <= k < result@.len() ==> exists|j: int|
                        0 <= j < olditems.len() - self.items@.len() && (#[trigger] result@[k])
                            == olditems[j],
            decreases self.items@.len(),
        {
            let ghost i = olditems.len() - self.items@.len();
            let e = self.items.remove(0);
            proof {
                assert(e == olditems[i]);
                assert(self.items@ =~= olditems.subrange(i + 1, olditems.len() as int));
            }
            let keep = is_id_subset(&e.tx.inputs, &new_state.utxos) && {
                let outs = tx_output_utxos(&e.tx);
                are_disjoint(&outs, &new_state.utxos) && e.tx.header.maxtime_ms >= ts
            };
            let ghost prevres = result@;
            if keep {
                result.push(e);
                proof {
                    lemma_push_keeps_pairwise(prevres, olditems, i, ts, self.state);
                    assert forall|k: int|
                        0 <= k < result@.len() implies entry_ok(
                        #[trigger] result@[k],
                        new_state,
                        ts,
                    ) by {
                        if k < prevres.len() {
                            assert(result@[k] == prevres[k]);
                        } else {
                            assert(result@[k] == olditems[i]);
                            assert(entry_ok(olditems[i], self.state, self.timestamp_ms));
                        }
                    }
                }
            }
            proof {
                assert(olditems.subrange(0, i + 1).drop_last() =~= olditems.subrange(0, i));
                assert(result@ =~= retain_state(olditems.subrange(0, i + 1), new_state, ts));
            }
        }
        proof {
            assert(olditems.subrange(0, olditems.len() as int) =~= olditems);
        }
        let _ = catchup;
        self.items = result;
        self.state = new_state;
        self.timestamp_ms = ts;
    }

    /// Converts the entire current mempool into a hypothetical block:
    /// returns the state after that block and its catchup artifact,
    /// leaving the mempool unchanged. The block the entries form is
    /// always valid under the mempool invariant.
    pub fn make_block(&self) -> (r: (BlockchainState, Catchup))
        requires
            self.wf(),
            self.state.tip.height < u64::MAX,
        ensures
            ({
                let (ns, cat) = r;
                let txs = block_txs(self.items@);
                &&& ns.tip.height == self.state.tip.height + 1
                &&& ns.tip.prev.0@ == self.state.tip.id_spec()
                &&& ns.tip.timestamp_ms == self.timestamp_ms
                &&& ns.tip.txroot@ == root_spec(spec_txid_label(), txids_of(txs))
                &&& block_valid(self.state, ns.tip, txs)
                &&& uview(ns.utxos@) == post_utxo_ids(self.state, txs)
                &&& ns.wf()
                &&& uview(cat.spent@) == block_spends(txs)
            }),
    {
        let ghost txs = block_txs(self.items@);
        // Gather the body's identifiers from the entries.
        let mut txid_items: Vec<Vec<u8>> = Vec::new();
        let mut i: usize = 0;
        while i < self.items.len()
            invariant
                i <= self.items@.len(),
                txs == block_txs(self.items@),
                forall|k: int| 0 <= k < self.items@.len() ==> (#[trigger] self.items@[k]).wf(),
                txid_items@.len() == i,
                forall|k: int| 0 <= k < i ==> (#[trigger] txid_items@[k])@ == txs[k].txid_spec(),
                forall|k: int| 0 <= k < i ==> (#[trigger] txid_items@[k])@.len() == 32,
            decreases self.items@.len() - i,
        {
            let id = self.items[i].txid();
            txid_items.push(bytes32_to_vec(&id.0));
            proof {
                assert(txs[i as int] == self.items@[i as int].tx);
            }
            i = i + 1;
        }
        proof {
            assert forall|k: int|
                0 <= k < txid_items@.len() implies bytes_seq_view(txid_items@)[k] == txids_of(
                txs,
            )[k] by {
                assert(txid_items@[k]@ == txs[k].txid_spec());
            }
            assert(bytes_seq_view(txid_items@).len() == txids_of(txs).len());
            assert(bytes_seq_view(txid_items@) =~= txids_of(txs));
        }
        let txroot = root_from_items(&txid_items);
        // The spends and fresh outputs of the body.
        proof {
            assert forall|k: int|
                0 <= k < self.items@.len() implies (#[trigger] self.items@[k]).tx.enc().len()
                < 0x1_0000_0000 by {
                assert(entry_ok(self.items@[k], self.state, self.timestamp_ms));
            }
        }
        let spends = collect_entry_spends(&self.items);
        let outs = collect_entry_out_ids(&self.items);
        let header = BlockHeader {
            height: self.state.tip.height + 1,
            prev: self.state.tip.id(),
            timestamp_ms: self.timestamp_ms,
            txroot,
        };
        proof {
            lemma_mempool_block_valid(self, header);
        }
        let new_utxos = apply_utxo_sets(&self.state.utxos, &spends, &outs);
        proof {
            lemma_spends_distinct_for(self);
            lemma_out_ids_facts_for(self);
            lemma_post_distinct(uview(self.state.utxos@), block_spends(txs), block_out_ids(txs));
        }
        (BlockchainState { tip: header, utxos: new_utxos }, Catchup { spent: spends })
    }
}

/// Disjointness of identifier lists is symmetric.
pub proof fn lemma_disjoint_sym(a: Seq<Seq<u8>>, b: Seq<Seq<u8>>)
    requires
        ids_disjoint(a, b),
    ensures
        ids_disjoint(b, a),
{
    assert forall|x: Seq<u8>| ids_contain(b, x) implies !ids_contain(a, x) by {
        if ids_contain(a, x) {
            assert(!ids_contain(b, x));
        }
    }
}

/// Pushing an entry of a well-formed mempool onto a list of its earlier
/// entries keeps the list free of competition.
proof fn lemma_push_keeps_pairwise(
    res: Seq<MempoolTx>,
    olditems: Seq<MempoolTx>,
    i: int,
    ts: u64,
    state: BlockchainState,
)
    requires
        0 <= i < olditems.len(),
        entries_pairwise_ok(olditems),
        forall|k: int|
            0 <= k < res.len() ==> exists|j: int| 0 <= j < i && (#[trigger] res[k]) == olditems[j],
        entries_pairwise_ok(res),
    ensures
        entries_pairwise_ok(res.push(olditems[i])),
        forall|k: int|
            0 <= k < res.push(olditems[i]).len() ==> exists|j: int|
                0 <= j < i + 1 && (#[trigger] res.push(olditems[i])[k]) == olditems[j],
{
    let items = res.push(olditems[i]);
    assert forall|p: int, q: int| 0 <= p < q < items.len() implies (
    #[trigger] items[p]).tx.txid_spec() != (#[trigger] items[q]).tx.txid_spec() by {
        if q == items.len() - 1 {
            let j = choose|j: int| 0 <= j < i && res[p] == olditems[j];
            assert(items[p] == olditems[j]);
            assert(items[q] == olditems[i]);
        } else {
            assert(items[p] == res[p] && items[q] == res[q]);
        }
    }
    assert forall|p: int, q: int|
        0 <= p < items.len() && 0 <= q < items.len() && p != q implies ids_disjoint(
        uview((#[trigger] items[p]).tx.inputs@),
        uview((#[trigger] items[q]).tx.inputs@),
    ) by {
        if q == items.len() - 1 && p < items.len() - 1 {
            let j = choose|j: int| 0 <= j < i && res[p] == olditems[j];
            assert(items[p] == olditems[j]);
        } else if p == items.len() - 1 && q < items.len() - 1 {
            let j = choose|j: int| 0 <= j < i && res[q] == olditems[j];
            assert(items[q] == olditems[j]);
        } else if p < items.len() - 1 && q < items.len() - 1 {
            assert(items[p] == res[p] && items[q] == res[q]);
        }
    }
    assert forall|p: int, q: int|
        0 <= p < items.len() && 0 <= q < items.len() && p != q implies ids_disjoint(
        tx_out_ids((#[trigger] items[p]).tx),
        tx_out_ids((#[trigger] items[q]).tx),
    ) by {
        if q == items.len() - 1 && p < items.len() - 1 {
            let j = choose|j: int| 0 <= j < i && res[p] == olditems[j];
            assert(items[p] == olditems[j]);
        } else if p == items.len() - 1 && q < items.len() - 1 {
            let j = choose|j: int| 0 <= j < i && res[q] == olditems[j];
            assert(items[q] == olditems[j]);
        } else if p < items.len() - 1 && q < items.len() - 1 {
            assert(items[p] == res[p] && items[q] == res[q]);
        }
    }
    assert forall|k: int|
        0 <= k < items.len() implies exists|j: int|
        0 <= j < i + 1 && (#[trigger] items[k]) == olditems[j] by {
        if k < items.len() - 1 {
            let j = choose|j: int| 0 <= j < i && res[k] == olditems[j];
            assert(items[k] == olditems[j]);
        } else {
            assert(items[k] == olditems[i]);
        }
    }
}

/// The identifiers consumed by the entries, in order.
fn collect_entry_spends(items: &Vec<MempoolTx>) -> (r: Vec<UTXO>)
    ensures
        uview(r@) == block_spends(block_txs(items@)),
{
    let ghost txs = block_txs(items@);
    let mut r: Vec<UTXO> = Vec::new();
    let mut i: usize = 0;
    while i < items.len()
        invariant
            i <= items@.len(),
            txs == block_txs(items@),
            uview(r@) =~= block_spends(txs.subrange(0, i as int)),
        decreases items@.len() - i,
    {
        let entry = &items[i];
        let ghost pre = r@;
        let mut k: usize = 0;
        while k < entry.tx.inputs.len()
            invariant
                k <= entry.tx.inputs@.len(),
                r@ == pre + entry.tx.inputs@.subrange(0, k as int),
                *entry == items@[i as int],
            decreases entry.tx.inputs@.len() - k,
        {
            proof {
                assert(entry.tx.inputs@.subrange(0, k + 1 as int) =~= entry.tx.inputs@.subrange(
                    0,
                    k as int,
                ).push(entry.tx.inputs@[k as int]));
            }
            r.push(entry.tx.inputs[k]);
            k = k + 1;
        }
        proof {
            assert(entry.tx.inputs@.subrange(0, entry.tx.inputs@.len() as int)
                =~= entry.tx.inputs@);
            assert(txs.subrange(0, i + 1 as int).drop_last() =~= txs.subrange(0, i as int));
            assert(txs[i as int] == items@[i as int].tx);
            assert(uview(pre + entry.tx.inputs@) =~= uview(pre) + uview(entry.tx.inputs@));
            assert(uview(r@) =~= block_spends(txs.subrange(0, i + 1 as int)));
        }
        i = i + 1;
    }
    proof {
        assert(txs.subrange(0, txs.len() as int) =~= txs);
    }
    r
}

/// The identifiers created by the entries, in order.
fn collect_entry_out_ids(items: &Vec<MempoolTx>) -> (r: Vec<UTXO>)
    requires
        forall|k: int|
            0 <= k < items@.len() ==> (#[trigger] items@[k]).tx.enc().len() < 0x1_0000_0000,
    ensures
        uview(r@) == block_out_ids(block_txs(items@)),
{
    let ghost txs = block_txs(items@);
    let mut r: Vec<UTXO> = Vec::new();
    let mut i: usize = 0;
    while i < items.len()
        invariant
            forall|k: int|
                0 <= k < items@.len() ==> (#[trigger] items@[k]).tx.enc().len() < 0x1_0000_0000,
            i <= items@.len(),
            txs == block_txs(items@),
            uview(r@) =~= block_out_ids(txs.subrange(0, i as int)),
        decreases items@.len() - i,
    {
        let outs = tx_output_utxos(&items[i].tx);
        let ghost pre = r@;
        let ghost outs_view = outs@;
        let mut k: usize = 0;
        while k < outs.len()
            invariant
                k <= outs@.len(),
                outs@ == outs_view,
                r@ == pre + outs@.subrange(0, k as int),
            decreases outs@.len() - k,
        {
            proof {
                assert(outs@.subrange(0, k + 1 as int) =~= outs@.subrange(0, k as int).push(
                    outs@[k as int],
                ));
            }
            r.push(outs[k]);
            k = k + 1;
        }
        proof {
            assert(outs@.subrange(0, outs@.len() as int) =~= outs@);
            assert(txs.subrange(0, i + 1 as int).drop_last() =~= txs.subrange(0, i as int));
            assert(txs[i as int] == items@[i as int].tx);
            assert(uview(pre + outs@) =~= uview(pre) + uview(outs@));
            assert(uview(r@) =~= block_out_ids(txs.subrange(0, i + 1 as int)));
        }
        i = i + 1;
    }
    proof {
        assert(txs.subrange(0, txs.len() as int) =~= txs);
    }
    r
}

/// The transactions of a well-formed mempool spend distinct identifiers.
proof fn lemma_spends_distinct_for(m: &Mempool)
    requires
        m.wf(),
    ensures
        ids_distinct(block_spends(block_txs(m.items@))),
        ids_subset(block_spends(block_txs(m.items@)), uview(m.state.utxos@)),
{
    let txs = block_txs(m.items@);
    assert(forall|i: int| 0 <= i < txs.len() ==> (#[trigger] txs[i]) == m.items@[i].tx);
    lemma_spends_distinct(txs);
    lemma_spends_membership(txs);
    assert forall|x: Seq<u8>| ids_contain(block_spends(txs), x) implies ids_contain(
        uview(m.state.utxos@),
        x,
    ) by {
        let i = choose|i: int| 0 <= i < txs.len() && ids_contain(uview(txs[i].inputs@), x);
        assert(entry_ok(m.items@[i], m.state, m.timestamp_ms));
    }
}

/// The transactions of a well-formed mempool create distinct, fresh
/// identifiers.
proof fn lemma_out_ids_facts_for(m: &Mempool)
    requires
        m.wf(),
    ensures
        ids_distinct(block_out_ids(block_txs(m.items@))),
        ids_disjoint(block_out_ids(block_txs(m.items@)), uview(m.state.utxos@)),
{
    let txs = block_txs(m.items@);
    assert(forall|i: int| 0 <= i < txs.len() ==> (#[trigger] txs[i]) == m.items@[i].tx);
    lemma_out_ids_distinct(txs);
    lemma_out_ids_membership(txs);
    assert forall|x: Seq<u8>| ids_contain(block_out_ids(txs), x) implies !ids_contain(
        uview(m.state.utxos@),
        x,
    ) by {
        let i = choose|i: int| 0 <= i < txs.len() && ids_contain(tx_out_ids(txs[i]), x);
        assert(entry_ok(m.items@[i], m.state, m.timestamp_ms));
    }
}

/// A block formed from the whole of a well-formed mempool, under a
/// header that extends the sealing tip at the mempool clock with the
/// body's transaction root, is a valid transition: constructing a block
/// and applying it converge on the same state.
pub proof fn lemma_mempool_block_valid(m: &Mempool, header: BlockHeader)
    requires
        m.wf(),
        header.height == m.state.tip.height + 1,
        header.prev.0@ == m.state.tip.id_spec(),
        header.timestamp_ms == m.timestamp_ms,
        header.txroot@ == root_spec(spec_txid_label(), txids_of(block_txs(m.items@))),
    ensures
        block_valid(m.state, header, block_txs(m.items@)),
{
    let txs = block_txs(m.items@);
    assert(forall|i: int| 0 <= i < txs.len() ==> (#[trigger] txs[i]) == m.items@[i].tx);
    assert forall|i: int| 0 <= i < txs.len() implies tx_valid_at(
        #[trigger] txs[i],
        header.timestamp_ms,
    ) by {
        assert(entry_ok(m.items@[i], m.state, m.timestamp_ms));
    }
    lemma_spends_distinct_for(m);
    lemma_out_ids_facts_for(m);
}

/// Re-basing is idempotent: entries already consistent with the state
/// and clock all survive, so a second `update_state` onto the current
/// sealing state changes nothing.
pub proof fn lemma_retain_state_stable(items: Seq<MempoolTx>, st: BlockchainState, ts: u64)
    requires
        forall|i: int| 0 <= i < items.len() ==> entry_ok(#[trigger] items[i], st, ts),
    ensures
        retain_state(items, st, ts) == items,
    decreases items.len(),
{
    if items.len() > 0 {
        assert(forall|i: int|
            0 <= i < items.drop_last().len() ==> (#[trigger] items.drop_last()[i]) == items[i]);
        lemma_retain_state_stable(items.drop_last(), st, ts);
        assert(entry_ok(items[items.len() - 1], st, ts));
        assert(retain_state(items, st, ts) =~= items);
    }
}

/// Estimated memory cost of the transactions in the mempool: the
/// serialized length of each entry's transaction plus 32 bytes for each
/// of its input witnesses, saturating at the machine's limit.
pub open spec fn spec_memory_cost(items: Seq<MempoolTx>) -> int
    decreases items.len(),
{
    if items.len() == 0 {
        0
    } else {
        spec_memory_cost(items.drop_last()) + items.last().tx.enc().len() + 32 * items.last().proofs@.len()
    }
}

/// Estimated cost of the memory occupied by transactions in the mempool.
pub fn estimated_memory_cost(mempool: &Mempool) -> (r: usize)
    ensures
        r == if spec_memory_cost(mempool.items@) <= usize::MAX {
            spec_memory_cost(mempool.items@)
        } else {
            usize::MAX as int
        },
{
    let mut acc: usize = 0;
    let mut i: usize = 0;
    while i < mempool.items.len()
        invariant
            i <= mempool.items@.len(),
            acc == if spec_memory_cost(mempool.items@.subrange(0, i as int)) <= usize::MAX {
                spec_memory_cost(mempool.items@.subrange(0, i as int))
            } else {
                usize::MAX as int
            },
        decreases mempool.items@.len() - i,
    {
        proof {
            lemma_memory_cost_nonneg(mempool.items@.subrange(0, i as int));
            assert(mempool.items@.subrange(0, i + 1 as int).drop_last() =~= mempool.items@.subrange(
                0,
                i as int,
            ));
        }
        let txbytes = mempool.items[i].tx.encoded_length();
        let proofbytes = match mempool.items[i].proofs.len().checked_mul(32) {
            Some(p) => p,
            None => usize::MAX,
        };
        acc = acc.saturating_add(txbytes).saturating_add(proofbytes);
        i = i + 1;
    }
    proof {
        assert(mempool.items@.subrange(0, mempool.items@.len() as int) =~= mempool.items@);
    }
    acc
}

/// The memory cost of a list of entries is never negative.
proof fn lemma_memory_cost_nonneg(items: Seq<MempoolTx>)
    ensures
        spec_memory_cost(items) >= 0,
    decreases items.len(),
{
    if items.len() > 0 {
        lemma_memory_cost_nonneg(items.drop_last());
    }
}

} // verus!
