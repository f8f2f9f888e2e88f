//! Transaction and output identifiers.

use vstd::prelude::*;

use crate::encoding::{Encodable, write_size, write_bytes};
use crate::transcript::{output_id_digest, output_id_hash};

verus! {

/// Transaction ID is a unique 32-byte identifier of a transaction.
#[derive(Copy, Clone, PartialEq, Debug)]
pub struct TxID(pub [u8; 32]);

/// UTXO is a unique 32-byte identifier of a transaction output.
#[derive(Copy, Clone, Eq, Hash, PartialEq, Debug)]
pub struct UTXO(pub [u8; 32]);

/// An output record created by a transaction, carried as its canonical
/// bytes; the output's unspent-set identifier derives from them.
#[derive(Clone, Debug)]
pub struct Output {
    /// The serialized output record.
    pub data: Vec<u8>,
}

impl Encodable for Output {
    open spec fn enc(&self) -> Seq<u8> {
        vstd::bytes::spec_u32_to_le_bytes(self.data@.len() as u32) + self.data@
    }

    fn encode(&self, buf: &mut Vec<u8>) {
        write_size(self.data.len(), buf);
        write_bytes(self.data.as_slice(), buf);
        proof {
            assert(buf@ =~= old(buf)@ + self.enc());
        }
    }

    fn encoded_length(&self) -> (n: usize) {
        self.encode_to_vec().len()
    }
}

impl Output {
    /// The identifier of the unspent output this record creates.
    pub open spec fn utxo_id(&self) -> Seq<u8> {
        output_id_digest(self.enc())
    }
}

impl UTXO {
    /// Computes the UTXO identifier of an output record. The identifier
    /// is a transcript digest, so the record must stay below the hash
    /// input limit.
    pub fn from_output(output: &Output) -> (u: Self)
        requires
            output.enc().len() < 0x1_0000_0000,
        ensures
            u.0@ == output.utxo_id(),
    {
        let bytes = output.encode_to_vec();
        UTXO(output_id_hash(bytes.as_slice()))
    }
}

/// Copies a list of unspent-output identifiers.
pub(crate) fn copy_utxos(v: &Vec<UTXO>) -> (r: Vec<UTXO>)
    ensures
        r@ == v@,
{
    let mut r: Vec<UTXO> = Vec::new();
    let mut i: usize = 0;
    while i < v.len()
        invariant
            i <= v@.len(),
            r@ == v@.subrange(0, i as int),
        decreases v@.len() - i,
    {
        proof {
            assert(v@.subrange(0, i + 1 as int) =~= v@.subrange(0, i as int).push(v@[i as int]));
        }
        r.push(v[i]);
        i = i + 1;
    }
    proof {
        assert(v@.subrange(0, v@.len() as int) =~= v@);
    }
    r
}

} // verus!
