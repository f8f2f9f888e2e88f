//! Blocks, block headers and block transactions.

use vstd::prelude::*;
use vstd::bytes::{spec_u32_to_le_bytes, spec_u64_to_le_bytes};

use crate::encoding::{Encodable, write_u64, write_size, write_bytes};
use crate::transcript::{header_digest, header_hash, tx_digest, tx_hash};
use crate::txlog::{TxID, UTXO, Output, copy_utxos};

verus! {

/// A 32-byte block identifier, a pure function of the header contents.
#[derive(Copy, Clone, PartialEq, Eq, Debug)]
pub struct BlockID(pub [u8; 32]);

/// A block header.
#[derive(Copy, Clone, Debug)]
pub struct BlockHeader {
    /// Height of this block: the genesis state sits below the first one.
    pub height: u64,
    /// ID of the previous block header.
    pub prev: BlockID,
    /// Integer timestamp of the block in milliseconds since the epoch.
    pub timestamp_ms: u64,
    /// 32-byte Merkle root of the transaction ids in the block.
    pub txroot: [u8; 32],
}

impl BlockHeader {
    /// The header's identifier, a pure function of its fields.
    pub open spec fn id_spec(&self) -> Seq<u8> {
        header_digest(self.height, self.prev.0@, self.timestamp_ms, self.txroot@)
    }

    /// Computes the identifier of the header.
    pub fn id(&self) -> (r: BlockID)
        ensures
            r.0@ == self.id_spec(),
    {
        BlockID(header_hash(self.height, &self.prev.0, self.timestamp_ms, &self.txroot))
    }
}

/// The time-window header of one transaction.
#[derive(Copy, Clone, Debug)]
pub struct TxHeader {
    /// Version of the transaction.
    pub version: u64,
    /// Timestamp before which the transaction is invalid, in ms.
    pub mintime_ms: u64,
    /// Timestamp after which the transaction is invalid, in ms.
    pub maxtime_ms: u64,
}

/// A transaction as carried in blocks and mempool messages: its header,
/// the unspent outputs it consumes (each its own membership witness in
/// the transparent unspent set) and the outputs it creates.
#[derive(Clone, Debug)]
pub struct BlockTx {
    /// The time window and version of the transaction.
    pub header: TxHeader,
    /// The identifiers of the unspent outputs this transaction consumes.
    pub inputs: Vec<UTXO>,
    /// The output records this transaction creates.
    pub outputs: Vec<Output>,
}

/// The canonical bytes of a list of consumed output ids.
pub open spec fn inputs_enc(s: Seq<UTXO>) -> Seq<u8>
    decreases s.len(),
{
    if s.len() == 0 {
        Seq::empty()
    } else {
        inputs_enc(s.drop_last()) + s.last().0@
    }
}

/// The canonical bytes of a list of output records.
pub open spec fn outputs_enc(s: Seq<Output>) -> Seq<u8>
    decreases s.len(),
{
    if s.len() == 0 {
        Seq::empty()
    } else {
        outputs_enc(s.drop_last()) + s.last().enc()
    }
}

impl Encodable for BlockTx {
    open spec fn enc(&self) -> Seq<u8> {
        spec_u64_to_le_bytes(self.header.version) + spec_u64_to_le_bytes(self.header.mintime_ms)
            + spec_u64_to_le_bytes(self.header.maxtime_ms) + spec_u32_to_le_bytes(
            self.inputs@.len() as u32,
        ) + inputs_enc(self.inputs@) + spec_u32_to_le_bytes(self.outputs@.len() as u32)
            + outputs_enc(self.outputs@)
    }

    fn encode(&self, buf: &mut Vec<u8>) {
        write_u64(self.header.version, buf);
        write_u64(self.header.mintime_ms, buf);
        write_u64(self.header.maxtime_ms, buf);
        write_size(self.inputs.len(), buf);
        let ghost pre_inputs = buf@;
        let mut i: usize = 0;
        while i < self.inputs.len()
            invariant
                i <= self.inputs@.len(),
                buf@ == pre_inputs + inputs_enc(self.inputs@.subrange(0, i as int)),
            decreases self.inputs@.len() - i,
        {
            proof {
                assert(self.inputs@.subrange(0, i + 1 as int).drop_last() =~= self.inputs@.subrange(
                    0,
                    i as int,
                ));
            }
            write_bytes(&self.inputs[i].0, buf);
            i = i + 1;
        }
        proof {
            assert(self.inputs@.subrange(0, self.inputs@.len() as int) =~= self.inputs@);
        }
        write_size(self.outputs.len(), buf);
        let ghost pre_outputs = buf@;
        let mut j: usize = 0;
        while j < self.outputs.len()
            invariant
                j <= self.outputs@.len(),
                buf@ == pre_outputs + outputs_enc(self.outputs@.subrange(0, j as int)),
            decreases self.outputs@.len() - j,
        {
            proof {
                assert(self.outputs@.subrange(0, j + 1 as int).drop_last()
                    =~= self.outputs@.subrange(0, j as int));
            }
            self.outputs[j].encode(buf);
            j = j + 1;
        }
        proof {
            assert(self.outputs@.subrange(0, self.outputs@.len() as int) =~= self.outputs@);
            assert(buf@ =~= old(buf)@ + self.enc());
        }
    }

    fn encoded_length(&self) -> (n: usize) {
        self.encode_to_vec().len()
    }
}

impl BlockTx {
    /// The transaction's identifier, a pure function of its canonical
    /// bytes.
    pub open spec fn txid_spec(&self) -> Seq<u8> {
        tx_digest(self.enc())
    }

    /// Computes the identifier of the transaction. The identifier is a
    /// transcript digest, so the encoding must stay below the hash input
    /// limit.
    pub fn txid(&self) -> (r: TxID)
        requires
            self.enc().len() < 0x1_0000_0000,
        ensures
            r.0@ == self.txid_spec(),
    {
        let bytes = self.encode_to_vec();
        TxID(tx_hash(bytes.as_slice()))
    }
}

/// Every output record's bytes fit inside the list encoding.
pub proof fn lemma_outputs_enc_member(s: Seq<Output>, k: int)
    requires
        0 <= k < s.len(),
    ensures
        s[k].enc().len() <= outputs_enc(s).len(),
    decreases s.len(),
{
    if k < s.len() - 1 {
        assert(s.drop_last()[k] == s[k]);
        lemma_outputs_enc_member(s.drop_last(), k);
    }
}

/// Every output record's bytes fit inside the transaction encoding.
pub proof fn lemma_tx_output_enc_bounded(tx: BlockTx, k: int)
    requires
        0 <= k < tx.outputs@.len(),
    ensures
        tx.outputs@[k].enc().len() <= tx.enc().len(),
{
    lemma_outputs_enc_member(tx.outputs@, k);
}

/// Two output lists carry the same bytes.
pub open spec fn outputs_view_eq(a: Seq<Output>, b: Seq<Output>) -> bool {
    a.len() == b.len() && forall|k: int| 0 <= k < a.len() ==> a[k].data@ == b[k].data@
}

/// Two transactions carry the same header, inputs and output bytes, so
/// they encode identically and share every derived identifier.
pub open spec fn tx_view_eq(a: BlockTx, b: BlockTx) -> bool {
    &&& a.header == b.header
    &&& a.inputs@ == b.inputs@
    &&& outputs_view_eq(a.outputs@, b.outputs@)
}

/// Two transaction lists carry the same content pairwise.
pub open spec fn txs_view_eq(a: Seq<BlockTx>, b: Seq<BlockTx>) -> bool {
    a.len() == b.len() && forall|k: int| 0 <= k < a.len() ==> tx_view_eq(a[k], b[k])
}

/// Output lists with the same bytes encode identically.
pub proof fn lemma_outputs_enc_eq(a: Seq<Output>, b: Seq<Output>)
    requires
        outputs_view_eq(a, b),
    ensures
        outputs_enc(a) == outputs_enc(b),
    decreases a.len(),
{
    if a.len() > 0 {
        assert(outputs_view_eq(a.drop_last(), b.drop_last()));
        lemma_outputs_enc_eq(a.drop_last(), b.drop_last());
        assert(a[a.len() - 1].data@ == b[b.len() - 1].data@);
        assert(a.last().enc() == b.last().enc());
    }
}

/// Transactions with the same content encode identically, so they share
/// their identifier.
pub proof fn lemma_tx_view_eq_enc(a: BlockTx, b: BlockTx)
    requires
        tx_view_eq(a, b),
    ensures
        a.enc() == b.enc(),
        a.txid_spec() == b.txid_spec(),
{
    lemma_outputs_enc_eq(a.outputs@, b.outputs@);
}

/// Copies an output record.
pub fn clone_output(o: &Output) -> (r: Output)
    ensures
        r.data@ == o.data@,
{
    Output { data: crate::encoding::bytes_to_vec(o.data.as_slice()) }
}

/// Copies a transaction; the copy encodes identically, so it keeps the
/// original's identifier.
pub fn clone_tx(tx: &BlockTx) -> (r: BlockTx)
    ensures
        tx_view_eq(r, *tx),
        r.txid_spec() == tx.txid_spec(),
{
    let mut outputs: Vec<Output> = Vec::new();
    let mut i: usize = 0;
    while i < tx.outputs.len()
        invariant
            i <= tx.outputs@.len(),
            outputs@.len() == i,
            forall|k: int| 0 <= k < i ==> outputs@[k].data@ == tx.outputs@[k].data@,
        decreases tx.outputs@.len() - i,
    {
        outputs.push(clone_output(&tx.outputs[i]));
        i = i + 1;
    }
    let r = BlockTx { header: tx.header, inputs: copy_utxos(&tx.inputs), outputs };
    proof {
        lemma_tx_view_eq_enc(r, *tx);
    }
    r
}

/// A full block: a signed header and the transactions it applies.
#[derive(Clone, Debug)]
pub struct Block {
    /// The block header.
    pub header: BlockHeader,
    /// The authority's signature over the header's id.
    pub signature: [u8; 64],
    /// The transactions of the block, in application order.
    pub txs: Vec<BlockTx>,
}

/// Two blocks carry the same header, signature and transaction content.
pub open spec fn block_view_eq(a: Block, b: Block) -> bool {
    &&& a.header == b.header
    &&& a.signature == b.signature
    &&& txs_view_eq(a.txs@, b.txs@)
}

/// Copies a block.
pub fn clone_block(b: &Block) -> (r: Block)
    ensures
        block_view_eq(r, *b),
{
    let mut txs: Vec<BlockTx> = Vec::new();
    let mut i: usize = 0;
    while i < b.txs.len()
        invariant
            i <= b.txs@.len(),
            txs@.len() == i,
            forall|k: int| 0 <= k < i ==> tx_view_eq(#[trigger] txs@[k], b.txs@[k]),
        decreases b.txs@.len() - i,
    {
        txs.push(clone_tx(&b.txs[i]));
        i = i + 1;
    }
    Block { header: b.header, signature: b.signature, txs }
}

} // verus!
