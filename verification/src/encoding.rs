//! Reading and writing of the crate's canonical little-endian byte format.
//!
//! `SliceReader` walks a byte slice with an internal cursor and fails with
//! `VMError::FormatError` when bytes run out; the free `write_*` functions
//! append to a `Vec<u8>`. `Encodable` ties a type to its canonical encoding.

use vstd::prelude::*;
use vstd::bytes::{spec_u32_to_le_bytes, spec_u32_from_le_bytes, spec_u64_to_le_bytes,
    spec_u64_from_le_bytes, u32_from_le_bytes, u64_from_le_bytes, u32_to_le_bytes,
    u64_to_le_bytes, lemma_auto_spec_u32_to_from_le_bytes, lemma_auto_spec_u64_to_from_le_bytes};

use crate::errors::VMError;

verus! {

/// API for reading from a byte slice while advancing an internal cursor.
pub struct SliceReader<'a> {
    /// The whole slice being read.
    pub whole: &'a [u8],
    /// Offset of the first unread byte.
    pub start: usize,
    /// Offset one past the last readable byte.
    pub end: usize,
}

impl<'a> SliceReader<'a> {
    /// The cursor never leaves the slice.
    pub open spec fn wf(&self) -> bool {
        self.start <= self.end <= self.whole@.len()
    }

    /// The bytes not yet read.
    pub open spec fn remaining(&self) -> Seq<u8> {
        self.whole@.subrange(self.start as int, self.end as int)
    }

    /// The reader a parse starts from: all of `data` unread.
    pub open spec fn spec_new(data: &'a [u8]) -> SliceReader<'a> {
        SliceReader { whole: data, start: 0, end: data@.len() as usize }
    }

    fn new(data: &'a [u8]) -> (r: Self)
        ensures
            r == Self::spec_new(data),
    {
        SliceReader { start: 0, end: data.len(), whole: data }
    }

    /// Remaining number of the unread bytes.
    pub fn len(&self) -> (n: usize)
        requires
            self.wf(),
        ensures
            n == self.remaining().len(),
    {
        self.end - self.start
    }

    /// Wraps the reading logic in a block that checks that all bytes have
    /// been read. If some are left unread, returns `Err(VMError::TrailingBytes)`.
    /// Use `skip_trailing_bytes` inside the block to ignore trailing bytes.
    ///
    /// The block takes the fresh reader over `data` and hands back the
    /// reader it finished with.
    pub fn parse<T, F>(data: &'a [u8], parse_fn: F) -> (r: Result<T, VMError>) where
        F: FnOnce(SliceReader<'a>) -> Result<(T, SliceReader<'a>), VMError>,
        requires
            call_requires(parse_fn, (Self::spec_new(data),)),
        ensures
            r matches Ok(t) ==> exists|rest: SliceReader<'a>|
                call_ensures(parse_fn, (Self::spec_new(data),), Ok((t, rest)))
                    && rest.start == rest.end,
            r matches Err(e) ==> {
                ||| call_ensures(parse_fn, (Self::spec_new(data),), Err(e))
                ||| (e == VMError::TrailingBytes && exists|t: T, rest: SliceReader<'a>|
                        call_ensures(parse_fn, (Self::spec_new(data),), Ok((t, rest)))
                            && rest.start != rest.end)
            },
    {
        let reader = Self::new(data);
        match parse_fn(reader) {
            Ok((result, reader)) => {
                if reader.start != reader.end {
                    Err(VMError::TrailingBytes)
                } else {
                    Ok(result)
                }
            }
            Err(e) => Err(e),
        }
    }

    /// Marks remaining unread bytes as read so that `parse` does not fail.
    /// After calling this method, no more bytes can be read.
    pub fn skip_trailing_bytes(&mut self) -> (n: usize)
        requires
            old(self).wf(),
        ensures
            n == old(self).remaining().len(),
            final(self).wf(),
            final(self).remaining() == Seq::<u8>::empty(),
            final(self).whole == old(self).whole,
    {
        let trailing = self.end - self.start;
        self.start = self.end;
        proof {
            assert(self.remaining() =~= Seq::<u8>::empty());
        }
        trailing
    }

    /// Returns a slice of the first `prefix_size` bytes and advances
    /// the internal offset; fails if fewer bytes remain.
    pub fn read_bytes(&mut self, prefix_size: usize) -> (r: Result<&'a [u8], VMError>)
        requires
            old(self).wf(),
        ensures
            final(self).wf(),
            final(self).whole == old(self).whole,
            prefix_size > old(self).remaining().len() ==> {
                &&& r is Err
                &&& r == Result::<&'a [u8], VMError>::Err(VMError::FormatError)
                &&& *final(self) == *old(self)
            },
            prefix_size <= old(self).remaining().len() ==> {
                &&& r matches Ok(p) && p@ == old(self).remaining().subrange(
                    0,
                    prefix_size as int,
                )
                &&& final(self).remaining() == old(self).remaining().skip(prefix_size as int)
            },
    {
        if prefix_size > self.end - self.start {
            return Err(VMError::FormatError);
        }
        let prefix = &self.whole[self.start..(self.start + prefix_size)];
        self.start = self.start + prefix_size;
        proof {
            assert(prefix@ =~= old(self).remaining().subrange(0, prefix_size as int));
            assert(self.remaining() =~= old(self).remaining().skip(prefix_size as int));
        }
        Ok(prefix)
    }

    /// Reads a single byte.
    pub fn read_u8(&mut self) -> (r: Result<u8, VMError>)
        requires
            old(self).wf(),
        ensures
            final(self).wf(),
            final(self).whole == old(self).whole,
            old(self).remaining().len() == 0 ==> r == Result::<u8, VMError>::Err(
                VMError::FormatError,
            ) && *final(self) == *old(self),
            old(self).remaining().len() >= 1 ==> {
                &&& r matches Ok(b) && b == old(self).remaining()[0]
                &&& final(self).remaining() == old(self).remaining().skip(1)
            },
    {
        let bytes = self.read_bytes(1)?;
        Ok(bytes[0])
    }

    /// Reads a 4-byte LE32 integer.
    pub fn read_u32(&mut self) -> (r: Result<u32, VMError>)
        requires
            old(self).wf(),
        ensures
            final(self).wf(),
            final(self).whole == old(self).whole,
            old(self).remaining().len() < 4 ==> r == Result::<u32, VMError>::Err(
                VMError::FormatError,
            ) && *final(self) == *old(self),
            old(self).remaining().len() >= 4 ==> {
                &&& r matches Ok(x) && x == spec_u32_from_le_bytes(
                    old(self).remaining().subrange(0, 4),
                )
                &&& final(self).remaining() == old(self).remaining().skip(4)
            },
    {
        let bytes = self.read_bytes(4)?;
        Ok(u32_from_le_bytes(bytes))
    }

    /// Reads an 8-byte LE64 integer.
    pub fn read_u64(&mut self) -> (r: Result<u64, VMError>)
        requires
            old(self).wf(),
        ensures
            final(self).wf(),
            final(self).whole == old(self).whole,
            old(self).remaining().len() < 8 ==> r == Result::<u64, VMError>::Err(
                VMError::FormatError,
            ) && *final(self) == *old(self),
            old(self).remaining().len() >= 8 ==> {
                &&& r matches Ok(x) && x == spec_u64_from_le_bytes(
                    old(self).remaining().subrange(0, 8),
                )
                &&& final(self).remaining() == old(self).remaining().skip(8)
            },
    {
        let bytes = self.read_bytes(8)?;
        Ok(u64_from_le_bytes(bytes))
    }

    /// Reads a 4-byte LE32 integer that's typically used as a length prefix.
    pub fn read_size(&mut self) -> (r: Result<usize, VMError>)
        requires
            old(self).wf(),
        ensures
            final(self).wf(),
            final(self).whole == old(self).whole,
            old(self).remaining().len() < 4 ==> r == Result::<usize, VMError>::Err(
                VMError::FormatError,
            ) && *final(self) == *old(self),
            old(self).remaining().len() >= 4 ==> {
                &&& r matches Ok(n) && n == spec_u32_from_le_bytes(
                    old(self).remaining().subrange(0, 4),
                ) as usize
                &&& final(self).remaining() == old(self).remaining().skip(4)
            },
    {
        let n = self.read_u32()?;
        Ok(n as usize)
    }

    /// Reads a 32-byte string (typically a hash).
    pub fn read_u8x32(&mut self) -> (r: Result<[u8; 32], VMError>)
        requires
            old(self).wf(),
        ensures
            final(self).wf(),
            final(self).whole == old(self).whole,
            old(self).remaining().len() < 32 ==> r == Result::<[u8; 32], VMError>::Err(
                VMError::FormatError,
            ) && *final(self) == *old(self),
            old(self).remaining().len() >= 32 ==> {
                &&& r matches Ok(buf) && buf@ == old(self).remaining().subrange(0, 32)
                &&& final(self).remaining() == old(self).remaining().skip(32)
            },
    {
        let bytes = self.read_bytes(32)?;
        let mut buf = [0u8; 32];
        copy_into_32(bytes, &mut buf);
        Ok(buf)
    }

    /// Reads a 64-byte string (typically a signature).
    pub fn read_u8x64(&mut self) -> (r: Result<[u8; 64], VMError>)
        requires
            old(self).wf(),
        ensures
            final(self).wf(),
            final(self).whole == old(self).whole,
            old(self).remaining().len() < 64 ==> r == Result::<[u8; 64], VMError>::Err(
                VMError::FormatError,
            ) && *final(self) == *old(self),
            old(self).remaining().len() >= 64 ==> {
                &&& r matches Ok(buf) && buf@ == old(self).remaining().subrange(0, 64)
                &&& final(self).remaining() == old(self).remaining().skip(64)
            },
    {
        let bytes = self.read_bytes(64)?;
        let mut buf = [0u8; 64];
        copy_into_64(bytes, &mut buf);
        Ok(buf)
    }
}

/// Copies a 32-byte slice into a 32-byte buffer.
fn copy_into_32(src: &[u8], dst: &mut [u8; 32])
    requires
        src@.len() == 32,
    ensures
        final(dst)@ == src@,
{
    let mut i: usize = 0;
    while i < 32
        invariant
            src@.len() == 32,
            i <= 32,
            dst@.len() == 32,
            forall|j: int| 0 <= j < i ==> dst@[j] == src@[j],
        decreases 32 - i,
    {
        dst[i] = src[i];
        i = i + 1;
    }
    proof {
        assert(dst@ =~= src@);
    }
}

/// Copies a 64-byte slice into a 64-byte buffer.
fn copy_into_64(src: &[u8], dst: &mut [u8; 64])
    requires
        src@.len() == 64,
    ensures
        final(dst)@ == src@,
{
    let mut i: usize = 0;
    while i < 64
        invariant
            src@.len() == 64,
            i <= 64,
            dst@.len() == 64,
            forall|j: int| 0 <= j < i ==> dst@[j] == src@[j],
        decreases 64 - i,
    {
        dst[i] = src[i];
        i = i + 1;
    }
    proof {
        assert(dst@ =~= src@);
    }
}

/// Writes a single byte.
pub fn write_u8(x: u8, target: &mut Vec<u8>)
    ensures
        final(target)@ == old(target)@.push(x),
{
    target.push(x);
}

/// Writes a LE32-encoded integer.
pub fn write_u32(x: u32, target: &mut Vec<u8>)
    ensures
        final(target)@ == old(target)@ + spec_u32_to_le_bytes(x),
{
    let mut buf = u32_to_le_bytes(x);
    proof {
        lemma_auto_spec_u32_to_from_le_bytes();
    }
    target.append(&mut buf);
}

/// Writes a LE64-encoded integer.
pub fn write_u64(x: u64, target: &mut Vec<u8>)
    ensures
        final(target)@ == old(target)@ + spec_u64_to_le_bytes(x),
{
    let mut buf = u64_to_le_bytes(x);
    proof {
        lemma_auto_spec_u64_to_from_le_bytes();
    }
    target.append(&mut buf);
}

/// Writes a usize as a LE32-encoded integer, truncating to 32 bits.
pub fn write_size(x: usize, target: &mut Vec<u8>)
    ensures
        final(target)@ == old(target)@ + spec_u32_to_le_bytes(x as u32),
{
    #[verifier::truncate]
    let y = x as u32;
    write_u32(y, target);
}

/// Writes a byte string as-is.
pub fn write_bytes(x: &[u8], target: &mut Vec<u8>)
    ensures
        final(target)@ == old(target)@ + x@,
{
    let mut i: usize = 0;
    while i < x.len()
        invariant
            i <= x@.len(),
            target@ == old(target)@ + x@.subrange(0, i as int),
        decreases x@.len() - i,
    {
        proof {
            assert(old(target)@ + x@.subrange(0, i + 1 as int)
                =~= (old(target)@ + x@.subrange(0, i as int)).push(x@[i as int]));
        }
        target.push(x[i]);
        i = i + 1;
    }
    proof {
        assert(x@.subrange(0, x@.len() as int) =~= x@);
    }
}

/// Copies a byte slice into a fresh vector.
pub fn bytes_to_vec(a: &[u8]) -> (r: Vec<u8>)
    ensures
        r@ == a@,
{
    let mut r: Vec<u8> = Vec::new();
    let mut i: usize = 0;
    while i < a.len()
        invariant
            i <= a@.len(),
            r@ == a@.subrange(0, i as int),
        decreases a@.len() - i,
    {
        proof {
            assert(a@.subrange(0, i + 1 as int) =~= a@.subrange(0, i as int).push(a@[i as int]));
        }
        r.push(a[i]);
        i = i + 1;
    }
    proof {
        assert(a@.subrange(0, a@.len() as int) =~= a@);
    }
    r
}

/// Compares two 32-byte strings.
pub fn bytes32_eq(a: &[u8; 32], b: &[u8; 32]) -> (r: bool)
    ensures
        r == (a@ == b@),
{
    let mut i: usize = 0;
    while i < 32
        invariant
            i <= 32,
            forall|j: int| 0 <= j < i ==> a@[j] == b@[j],
        decreases 32 - i,
    {
        if a[i] != b[i] {
            return false;
        }
        i = i + 1;
    }
    proof {
        assert(a@ =~= b@);
    }
    true
}

/// A trait for the consensus-critical encoding format of the crate's data
/// structures.
pub trait Encodable {
    /// The canonical byte string of the receiver.
    spec fn enc(&self) -> Seq<u8>;

    /// Encodes receiver into bytes appending them to a provided buffer.
    fn encode(&self, buf: &mut Vec<u8>)
        ensures
            final(buf)@ == old(buf)@ + self.enc(),
    ;

    /// Returns precise length in bytes of the serialized representation.
    fn encoded_length(&self) -> (n: usize)
        ensures
            n == self.enc().len(),
    ;

    /// Encodes the receiver into a newly allocated vector of bytes.
    fn encode_to_vec(&self) -> (v: Vec<u8>)
        ensures
            v@ == self.enc(),
    {
        let mut buf = Vec::new();
        self.encode(&mut buf);
        proof {
            assert(buf@ =~= self.enc());
        }
        buf
    }
}

} // verus!
