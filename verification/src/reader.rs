//! A forward-only reader over a byte slice, with the little-endian reads
//! that the on-disk formats need.
use vstd::prelude::*;
use vstd::bytes::{spec_u16_from_le_bytes, spec_u32_from_le_bytes, spec_u64_from_le_bytes};
use byteorder::ByteOrder;

verus! {

/// Error of a read that ran past the end of the input.
#[derive(Debug, Clone, Copy, PartialEq, Eq)]
pub enum ReadError {
    UnexpectedEof,
}

/// A cursor over borrowed bytes: `data` is the whole input, `pos` the next byte to read.
pub struct ByteReader<'a> {
    pub data: &'a [u8],
    pub pos: usize,
}

impl<'a> ByteReader<'a> {
    /// The bytes that are still to be read.
    pub open spec fn rest(&self) -> Seq<u8> {
        if self.pos <= self.data@.len() {
            self.data@.skip(self.pos as int)
        } else {
            Seq::empty()
        }
    }

    /// A reader positioned at the start of `data`.
    pub fn new(data: &'a [u8]) -> (r: ByteReader<'a>)
        ensures
            r.data@ == data@,
            r.pos == 0,
            r.rest() == data@,
    {
        ByteReader { data, pos: 0 }
    }

    /// How many bytes are still to be read.
    pub fn rest_len(&self) -> (n: usize)
        ensures
            n == self.rest().len(),
    {
        if self.pos <= self.data.len() {
            self.data.len() - self.pos
        } else {
            0
        }
    }

    /// Reads one byte; fails when nothing is left, leaving the reader unchanged.
    pub fn read_u8(&mut self) -> (res: Result<u8, ReadError>)
        ensures
            final(self).data == old(self).data,
            old(self).rest().len() >= 1 ==> {
                &&& res == Ok::<u8, ReadError>(old(self).rest()[0])
                &&& final(self).pos == old(self).pos + 1
                &&& final(self).rest() == old(self).rest().drop_first()
            },
            old(self).rest().len() == 0 ==> res == Err::<u8, ReadError>(ReadError::UnexpectedEof)
                && final(self).pos == old(self).pos,
    {
        if self.pos < self.data.len() {
            let b = self.data[self.pos];
            self.pos = self.pos + 1;
            proof {
                assert(final(self).rest() =~= old(self).rest().drop_first());
            }
            Ok(b)
        } else {
            Err(ReadError::UnexpectedEof)
        }
    }

    /// Takes the next `n` bytes as a slice, or fails when fewer are left.
    pub fn read_slice(&mut self, n: usize) -> (res: Result<&'a [u8], ReadError>)
        ensures
            final(self).data == old(self).data,
            old(self).rest().len() >= n ==> {
                &&& res is Ok
                &&& res.unwrap()@ == old(self).rest().take(n as int)
                &&& final(self).rest() == old(self).rest().skip(n as int)
            },
            old(self).rest().len() < n ==> res == Err::<&'a [u8], ReadError>(ReadError::UnexpectedEof)
                && final(self).pos == old(self).pos,
    {
        let start = if self.pos <= self.data.len() { self.pos } else { self.data.len() };
        if n <= self.data.len() - start {
            let s = &self.data[start..start + n];
            self.pos = start + n;
            proof {
                assert(s@ =~= old(self).rest().take(n as int));
                assert(final(self).rest() =~= old(self).rest().skip(n as int));
            }
            Ok(s)
        } else {
            Err(ReadError::UnexpectedEof)
        }
    }

    /// Reads a little-endian `u16`.
    pub fn read_u16_le(&mut self) -> (res: Result<u16, ReadError>)
        ensures
            final(self).data == old(self).data,
            old(self).rest().len() >= 2 ==> {
                &&& res == Ok::<u16, ReadError>(spec_u16_from_le_bytes(old(self).rest().take(2)))
                &&& final(self).rest() == old(self).rest().skip(2)
            },
            old(self).rest().len() < 2 ==> res == Err::<u16, ReadError>(ReadError::UnexpectedEof)
                && final(self).pos == old(self).pos,
    {
        let s = self.read_slice(2)?;
        Ok(le_u16(s))
    }

    /// Reads a little-endian `u32`.
    pub fn read_u32_le(&mut self) -> (res: Result<u32, ReadError>)
        ensures
            final(self).data == old(self).data,
            old(self).rest().len() >= 4 ==> {
                &&& res == Ok::<u32, ReadError>(spec_u32_from_le_bytes(old(self).rest().take(4)))
                &&& final(self).rest() == old(self).rest().skip(4)
            },
            old(self).rest().len() < 4 ==> res == Err::<u32, ReadError>(ReadError::UnexpectedEof)
                && final(self).pos == old(self).pos,
    {
        let s = self.read_slice(4)?;
        Ok(le_u32(s))
    }

    /// Reads a little-endian `u64`.
    pub fn read_u64_le(&mut self) -> (res: Result<u64, ReadError>)
        ensures
            final(self).data == old(self).data,
            old(self).rest().len() >= 8 ==> {
                &&& res == Ok::<u64, ReadError>(spec_u64_from_le_bytes(old(self).rest().take(8)))
                &&& final(self).rest() == old(self).rest().skip(8)
            },
            old(self).rest().len() < 8 ==> res == Err::<u64, ReadError>(ReadError::UnexpectedEof)
                && final(self).pos == old(self).pos,
    {
        let s = self.read_slice(8)?;
        Ok(le_u64(s))
    }
}

/// `byteorder::LittleEndian::read_u16`: the two bytes taken as a little-endian number.
#[verifier::external_body]
fn le_u16(buf: &[u8]) -> (res: u16)
    requires
        buf@.len() == 2,
    ensures
        res == spec_u16_from_le_bytes(buf@),
{
    byteorder::LittleEndian::read_u16(buf)
}

/// `byteorder::LittleEndian::read_u32`: the four bytes taken as a little-endian number.
#[verifier::external_body]
fn le_u32(buf: &[u8]) -> (res: u32)
    requires
        buf@.len() == 4,
    ensures
        res == spec_u32_from_le_bytes(buf@),
{
    byteorder::LittleEndian::read_u32(buf)
}

/// `byteorder::LittleEndian::read_u64`: the eight bytes taken as a little-endian number.
#[verifier::external_body]
fn le_u64(buf: &[u8]) -> (res: u64)
    requires
        buf@.len() == 8,
    ensures
        res == spec_u64_from_le_bytes(buf@),
{
    byteorder::LittleEndian::read_u64(buf)
}

} // verus!
