//! Byte storage and the fixed-width big-endian integer codec.
//!
//! A [`StreamPeerBuffer`] owns a contiguous byte sequence and a single
//! read cursor. Writes always append to the end of the data; reads
//! consume bytes from the cursor onward and advance it. An instance is
//! therefore used in one of two roles at a time: building an outbound
//! message (write-only) or parsing an inbound one (read-only, after
//! [`StreamPeerBuffer::set_data_array`]).

use vstd::prelude::*;

use crate::errors::CodecError;

verus! {

/// The two big-endian bytes of a 16-bit value, most significant first.
pub open spec fn be16(v: u16) -> Seq<u8> {
    seq![(v >> 8) as u8, v as u8]
}

/// The four big-endian bytes of a 32-bit value, most significant first.
pub open spec fn be32(v: u32) -> Seq<u8> {
    seq![(v >> 24) as u8, (v >> 16) as u8, (v >> 8) as u8, v as u8]
}

/// The eight big-endian bytes of a 64-bit value, most significant first.
pub open spec fn be64(v: u64) -> Seq<u8> {
    seq![
        (v >> 56) as u8,
        (v >> 48) as u8,
        (v >> 40) as u8,
        (v >> 32) as u8,
        (v >> 24) as u8,
        (v >> 16) as u8,
        (v >> 8) as u8,
        v as u8,
    ]
}

/// The 16-bit value whose big-endian bytes open the sequence `b`.
pub open spec fn de16(b: Seq<u8>) -> u16
    recommends
        b.len() >= 2,
{
    ((b[0] as u16) << 8) | (b[1] as u16)
}

/// The 32-bit value whose big-endian bytes open the sequence `b`.
pub open spec fn de32(b: Seq<u8>) -> u32
    recommends
        b.len() >= 4,
{
    ((b[0] as u32) << 24) | ((b[1] as u32) << 16) | ((b[2] as u32) << 8) | (b[3] as u32)
}

/// The 64-bit value whose big-endian bytes open the sequence `b`.
pub open spec fn de64(b: Seq<u8>) -> u64
    recommends
        b.len() >= 8,
{
    ((b[0] as u64) << 56) | ((b[1] as u64) << 48) | ((b[2] as u64) << 40) | ((b[3] as u64)
        << 32) | ((b[4] as u64) << 24) | ((b[5] as u64) << 16) | ((b[6] as u64) << 8) | (
    b[7] as u64)
}

/// Decoding the big-endian bytes of a 16-bit value gives the value back.
pub proof fn lemma_u16_round_trip(v: u16)
    ensures
        de16(be16(v)) == v,
{
    let b = be16(v);
    assert(b[0] == (v >> 8) as u8 && b[1] == v as u8);
    assert((((v >> 8) as u8 as u16) << 8) | (v as u8 as u16) == v) by (bit_vector);
}

/// Decoding the big-endian bytes of a 32-bit value gives the value back.
pub proof fn lemma_u32_round_trip(v: u32)
    ensures
        de32(be32(v)) == v,
{
    let b = be32(v);
    assert(b[0] == (v >> 24) as u8 && b[1] == (v >> 16) as u8 && b[2] == (v >> 8) as u8 && b[3]
        == v as u8);
    assert((((v >> 24) as u8 as u32) << 24) | (((v >> 16) as u8 as u32) << 16) | (((v
        >> 8) as u8 as u32) << 8) | (v as u8 as u32) == v) by (bit_vector);
}

/// Decoding the big-endian bytes of a 64-bit value gives the value back.
pub proof fn lemma_u64_round_trip(v: u64)
    ensures
        de64(be64(v)) == v,
{
    let b = be64(v);
    assert(b[0] == (v >> 56) as u8 && b[1] == (v >> 48) as u8 && b[2] == (v >> 40) as u8 && b[3]
        == (v >> 32) as u8 && b[4] == (v >> 24) as u8 && b[5] == (v >> 16) as u8 && b[6] == (v
        >> 8) as u8 && b[7] == v as u8);
    assert((((v >> 56) as u8 as u64) << 56) | (((v >> 48) as u8 as u64) << 48) | (((v
        >> 40) as u8 as u64) << 40) | (((v >> 32) as u8 as u64) << 32) | (((v
        >> 24) as u8 as u64) << 24) | (((v >> 16) as u8 as u64) << 16) | (((v
        >> 8) as u8 as u64) << 8) | (v as u8 as u64) == v) by (bit_vector);
}

/// An 8-bit value survives the round trip through its unsigned byte.
pub proof fn lemma_i8_round_trip(v: i8)
    ensures
        (v as u8) as i8 == v,
{
    assert((v as u8) as i8 == v) by (bit_vector);
}

/// A signed 16-bit value survives the round trip through its bytes.
pub proof fn lemma_i16_round_trip(v: i16)
    ensures
        de16(be16(v as u16)) as i16 == v,
{
    lemma_u16_round_trip(v as u16);
    assert((v as u16) as i16 == v) by (bit_vector);
}

/// A signed 32-bit value survives the round trip through its bytes.
pub proof fn lemma_i32_round_trip(v: i32)
    ensures
        de32(be32(v as u32)) as i32 == v,
{
    lemma_u32_round_trip(v as u32);
    assert((v as u32) as i32 == v) by (bit_vector);
}

/// A signed 64-bit value survives the round trip through its bytes.
pub proof fn lemma_i64_round_trip(v: i64)
    ensures
        de64(be64(v as u64)) as i64 == v,
{
    lemma_u64_round_trip(v as u64);
    assert((v as u64) as i64 == v) by (bit_vector);
}

/// An append-only byte sink and sequential byte source with one read cursor.
pub struct StreamPeerBuffer {
    data: Vec<u8>,
    pos: usize,
}

impl StreamPeerBuffer {
    /// All bytes held by the buffer, written and read alike.
    pub closed spec fn bytes(&self) -> Seq<u8> {
        self.data@
    }

    /// The read cursor: how many bytes of [`Self::bytes`] reads consumed.
    pub closed spec fn cursor(&self) -> int {
        self.pos as int
    }

    /// The cursor never runs past the end of the data.
    pub open spec fn wf(&self) -> bool {
        0 <= self.cursor() <= self.bytes().len()
    }

    /// The bytes not yet consumed by reads.
    pub open spec fn rest(&self) -> Seq<u8> {
        self.bytes().subrange(self.cursor(), self.bytes().len() as int)
    }

    /// The cursor is a machine word: it never exceeds `usize::MAX`.
    pub proof fn lemma_cursor_fits(&self)
        ensures
            self.cursor() <= usize::MAX,
    {
    }

    /// An empty buffer with the cursor at the start.
    pub fn new() -> (r: StreamPeerBuffer)
        ensures
            r.bytes() == Seq::<u8>::empty(),
            r.cursor() == 0,
    {
        StreamPeerBuffer { data: Vec::new(), pos: 0 }
    }

    /// Replaces the held data and resets the cursor: the one sanctioned
    /// way to turn a buffer from a write role to a read role.
    pub fn set_data_array(&mut self, new_data: Vec<u8>)
        ensures
            final(self).bytes() == new_data@,
            final(self).cursor() == 0,
    {
        self.data = new_data;
        self.pos = 0;
    }

    /// Gives up the buffer and hands out the bytes it accumulated.
    pub fn into_data(self) -> (r: Vec<u8>)
        ensures
            r@ == self.bytes(),
    {
        self.data
    }

    /// The byte `off` places past the cursor, if that many remain.
    /// Looking ahead consumes nothing.
    pub fn peek(&self, off: usize) -> (r: Option<u8>)
        requires
            self.wf(),
        ensures
            self.cursor() + off < self.bytes().len() ==> r == Some(
                self.bytes()[self.cursor() + off],
            ),
            self.cursor() + off >= self.bytes().len() ==> r == None::<u8>,
    {
        if off < self.data.len() - self.pos {
            Some(self.data[self.pos + off])
        } else {
            None
        }
    }

    /// Moves the cursor forward over `n` already-inspected bytes.
    pub fn advance(&mut self, n: usize)
        requires
            old(self).wf(),
            old(self).cursor() + n <= old(self).bytes().len(),
        ensures
            final(self).bytes() == old(self).bytes(),
            final(self).cursor() == old(self).cursor() + n,
            final(self).wf(),
    {
        let len = self.data.len();
        self.pos = self.pos + n;
        proof {
            assert(self.pos <= len);
        }
    }

    /// Moves the cursor back over `n` bytes, un-consuming them.
    pub fn rewind(&mut self, n: usize)
        requires
            old(self).wf(),
            n <= old(self).cursor(),
        ensures
            final(self).bytes() == old(self).bytes(),
            final(self).cursor() == old(self).cursor() - n,
            final(self).wf(),
    {
        self.pos = self.pos - n;
    }

    /// How many bytes remain to be read.
    pub fn remaining(&self) -> (r: usize)
        requires
            self.wf(),
        ensures
            r == self.rest().len(),
    {
        self.data.len() - self.pos
    }

    /// Where the read cursor stands.
    pub fn position(&self) -> (r: usize)
        ensures
            r == self.cursor(),
    {
        self.pos
    }

    /// Reads the next `n` bytes as one block, or reports `Underflow`
    /// when fewer remain, leaving the cursor in place.
    pub fn get_bytes(&mut self, n: usize) -> (r: Result<Vec<u8>, CodecError>)
        requires
            old(self).wf(),
        ensures
            final(self).bytes() == old(self).bytes(),
            final(self).wf(),
            old(self).rest().len() >= n ==> (r matches Ok(v) && v@ == old(self).rest().subrange(
                0,
                n as int,
            ) && final(self).cursor() == old(self).cursor() + n),
            old(self).rest().len() < n ==> r == Err::<Vec<u8>, CodecError>(CodecError::Underflow)
                && final(self).cursor() == old(self).cursor(),
    {
        if n <= self.data.len() - self.pos {
            let mut buf: Vec<u8> = Vec::new();
            let mut i: usize = 0;
            while i < n
                invariant
                    i <= n,
                    *self == *old(self),
                    old(self).wf(),
                    old(self).data@.len() <= usize::MAX,
                    n <= old(self).data@.len() - old(self).pos,
                    buf@ == old(self).data@.subrange(
                        old(self).pos as int,
                        old(self).pos as int + i as int,
                    ),
                decreases n - i,
            {
                buf.push(self.data[self.pos + i]);
                proof {
                    assert(buf@ =~= old(self).data@.subrange(
                        old(self).pos as int,
                        old(self).pos as int + i as int + 1,
                    ));
                }
                i = i + 1;
            }
            self.advance(n);
            proof {
                assert(buf@ =~= old(self).rest().subrange(0, n as int));
            }
            Ok(buf)
        } else {
            Err(CodecError::Underflow)
        }
    }

    /// Appends a whole block of bytes.
    pub fn put_bytes(&mut self, src: &Vec<u8>)
        ensures
            final(self).bytes() == old(self).bytes() + src@,
            final(self).cursor() == old(self).cursor(),
    {
        let mut i: usize = 0;
        while i < src.len()
            invariant
                i <= src@.len(),
                self.pos == old(self).pos,
                self.data@ == old(self).data@ + src@.subrange(0, i as int),
            decreases src@.len() - i,
        {
            self.data.push(src[i]);
            proof {
                assert(self.data@ =~= old(self).data@ + src@.subrange(0, i as int + 1));
            }
            i = i + 1;
        }
        proof {
            assert(self.data@ =~= old(self).data@ + src@);
        }
    }

    /// Appends one byte.
    pub fn put_u8(&mut self, value: u8)
        ensures
            final(self).bytes() == old(self).bytes() + seq![value],
            final(self).cursor() == old(self).cursor(),
    {
        self.data.push(value);
        proof {
            assert(self.data@ =~= old(self).data@ + seq![value]);
        }
    }

    /// Appends a 16-bit value, big-endian.
    pub fn put_u16(&mut self, value: u16)
        ensures
            final(self).bytes() == old(self).bytes() + be16(value),
            final(self).cursor() == old(self).cursor(),
    {
        self.data.push((value >> 8) as u8);
        self.data.push(#[verifier::truncate] (value as u8));
        proof {
            assert(self.data@ =~= old(self).data@ + be16(value));
        }
    }

    /// Appends a 32-bit value, big-endian.
    pub fn put_u32(&mut self, value: u32)
        ensures
            final(self).bytes() == old(self).bytes() + be32(value),
            final(self).cursor() == old(self).cursor(),
    {
        self.data.push(#[verifier::truncate] ((value >> 24) as u8));
        self.data.push(#[verifier::truncate] ((value >> 16) as u8));
        self.data.push(#[verifier::truncate] ((value >> 8) as u8));
        self.data.push(#[verifier::truncate] (value as u8));
        proof {
            assert(self.data@ =~= old(self).data@ + be32(value));
        }
    }

    /// Appends a 64-bit value, big-endian.
    pub fn put_u64(&mut self, value: u64)
        ensures
            final(self).bytes() == old(self).bytes() + be64(value),
            final(self).cursor() == old(self).cursor(),
    {
        self.data.push(#[verifier::truncate] ((value >> 56) as u8));
        self.data.push(#[verifier::truncate] ((value >> 48) as u8));
        self.data.push(#[verifier::truncate] ((value >> 40) as u8));
        self.data.push(#[verifier::truncate] ((value >> 32) as u8));
        self.data.push(#[verifier::truncate] ((value >> 24) as u8));
        self.data.push(#[verifier::truncate] ((value >> 16) as u8));
        self.data.push(#[verifier::truncate] ((value >> 8) as u8));
        self.data.push(#[verifier::truncate] (value as u8));
        proof {
            assert(self.data@ =~= old(self).data@ + be64(value));
        }
    }

    /// Appends a signed 8-bit value as its two's-complement byte.
    pub fn put_8(&mut self, value: i8)
        ensures
            final(self).bytes() == old(self).bytes() + seq![(value as u8)],
            final(self).cursor() == old(self).cursor(),
    {
        self.put_u8(#[verifier::truncate] (value as u8));
    }

    /// Appends a signed 16-bit value, two's complement, big-endian.
    pub fn put_16(&mut self, value: i16)
        ensures
            final(self).bytes() == old(self).bytes() + be16(value as u16),
            final(self).cursor() == old(self).cursor(),
    {
        self.put_u16(#[verifier::truncate] (value as u16));
    }

    /// Appends a signed 32-bit value, two's complement, big-endian.
    pub fn put_32(&mut self, value: i32)
        ensures
            final(self).bytes() == old(self).bytes() + be32(value as u32),
            final(self).cursor() == old(self).cursor(),
    {
        self.put_u32(#[verifier::truncate] (value as u32));
    }

    /// Appends a signed 64-bit value, two's complement, big-endian.
    pub fn put_64(&mut self, value: i64)
        ensures
            final(self).bytes() == old(self).bytes() + be64(value as u64),
            final(self).cursor() == old(self).cursor(),
    {
        self.put_u64(#[verifier::truncate] (value as u64));
    }

    /// Reads one byte, or reports `Underflow` when none remains,
    /// leaving the cursor in place.
    pub fn get_u8(&mut self) -> (r: Result<u8, CodecError>)
        requires
            old(self).wf(),
        ensures
            final(self).bytes() == old(self).bytes(),
            final(self).wf(),
            old(self).rest().len() >= 1 ==> r == Ok::<u8, CodecError>(old(self).rest()[0])
                && final(self).cursor() == old(self).cursor() + 1,
            old(self).rest().len() < 1 ==> r == Err::<u8, CodecError>(CodecError::Underflow)
                && final(self).cursor() == old(self).cursor(),
    {
        if self.pos < self.data.len() {
            let b = self.data[self.pos];
            self.pos = self.pos + 1;
            Ok(b)
        } else {
            Err(CodecError::Underflow)
        }
    }

    /// Reads a big-endian 16-bit value, or reports `Underflow` when
    /// fewer than two bytes remain, leaving the cursor in place.
    pub fn get_u16(&mut self) -> (r: Result<u16, CodecError>)
        requires
            old(self).wf(),
        ensures
            final(self).bytes() == old(self).bytes(),
            final(self).wf(),
            old(self).rest().len() >= 2 ==> r == Ok::<u16, CodecError>(de16(old(self).rest()))
                && final(self).cursor() == old(self).cursor() + 2,
            old(self).rest().len() < 2 ==> r == Err::<u16, CodecError>(CodecError::Underflow)
                && final(self).cursor() == old(self).cursor(),
    {
        if self.data.len() - self.pos >= 2 {
            let b0 = self.data[self.pos];
            let b1 = self.data[self.pos + 1];
            self.pos = self.pos + 2;
            Ok(((b0 as u16) << 8) | (b1 as u16))
        } else {
            Err(CodecError::Underflow)
        }
    }

    /// Reads a big-endian 32-bit value, or reports `Underflow` when
    /// fewer than four bytes remain, leaving the cursor in place.
    pub fn get_u32(&mut self) -> (r: Result<u32, CodecError>)
        requires
            old(self).wf(),
        ensures
            final(self).bytes() == old(self).bytes(),
            final(self).wf(),
            old(self).rest().len() >= 4 ==> r == Ok::<u32, CodecError>(de32(old(self).rest()))
                && final(self).cursor() == old(self).cursor() + 4,
            old(self).rest().len() < 4 ==> r == Err::<u32, CodecError>(CodecError::Underflow)
                && final(self).cursor() == old(self).cursor(),
    {
        if self.data.len() - self.pos >= 4 {
            let b0 = self.data[self.pos];
            let b1 = self.data[self.pos + 1];
            let b2 = self.data[self.pos + 2];
            let b3 = self.data[self.pos + 3];
            self.pos = self.pos + 4;
            Ok(((b0 as u32) << 24) | ((b1 as u32) << 16) | ((b2 as u32) << 8) | (b3 as u32))
        } else {
            Err(CodecError::Underflow)
        }
    }

    /// Reads a big-endian 64-bit value, or reports `Underflow` when
    /// fewer than eight bytes remain, leaving the cursor in place.
    pub fn get_u64(&mut self) -> (r: Result<u64, CodecError>)
        requires
            old(self).wf(),
        ensures
            final(self).bytes() == old(self).bytes(),
            final(self).wf(),
            old(self).rest().len() >= 8 ==> r == Ok::<u64, CodecError>(de64(old(self).rest()))
                && final(self).cursor() == old(self).cursor() + 8,
            old(self).rest().len() < 8 ==> r == Err::<u64, CodecError>(CodecError::Underflow)
                && final(self).cursor() == old(self).cursor(),
    {
        if self.data.len() - self.pos >= 8 {
            let b0 = self.data[self.pos];
            let b1 = self.data[self.pos + 1];
            let b2 = self.data[self.pos + 2];
            let b3 = self.data[self.pos + 3];
            let b4 = self.data[self.pos + 4];
            let b5 = self.data[self.pos + 5];
            let b6 = self.data[self.pos + 6];
            let b7 = self.data[self.pos + 7];
            self.pos = self.pos + 8;
            Ok(
                ((b0 as u64) << 56) | ((b1 as u64) << 48) | ((b2 as u64) << 40) | ((b3 as u64)
                    << 32) | ((b4 as u64) << 24) | ((b5 as u64) << 16) | ((b6 as u64) << 8) | (
                b7 as u64),
            )
        } else {
            Err(CodecError::Underflow)
        }
    }

    /// Reads a signed 8-bit value, or reports `Underflow` when no byte
    /// remains, leaving the cursor in place.
    pub fn get_8(&mut self) -> (r: Result<i8, CodecError>)
        requires
            old(self).wf(),
        ensures
            final(self).bytes() == old(self).bytes(),
            final(self).wf(),
            old(self).rest().len() >= 1 ==> r == Ok::<i8, CodecError>(old(self).rest()[0] as i8)
                && final(self).cursor() == old(self).cursor() + 1,
            old(self).rest().len() < 1 ==> r == Err::<i8, CodecError>(CodecError::Underflow)
                && final(self).cursor() == old(self).cursor(),
    {
        match self.get_u8() {
            Ok(b) => Ok(#[verifier::truncate] (b as i8)),
            Err(e) => Err(e),
        }
    }

    /// Reads a signed big-endian 16-bit value, or reports `Underflow`
    /// when fewer than two bytes remain, leaving the cursor in place.
    pub fn get_16(&mut self) -> (r: Result<i16, CodecError>)
        requires
            old(self).wf(),
        ensures
            final(self).bytes() == old(self).bytes(),
            final(self).wf(),
            old(self).rest().len() >= 2 ==> r == Ok::<i16, CodecError>(
                de16(old(self).rest()) as i16,
            ) && final(self).cursor() == old(self).cursor() + 2,
            old(self).rest().len() < 2 ==> r == Err::<i16, CodecError>(CodecError::Underflow)
                && final(self).cursor() == old(self).cursor(),
    {
        match self.get_u16() {
            Ok(v) => Ok(#[verifier::truncate] (v as i16)),
            Err(e) => Err(e),
        }
    }

    /// Reads a signed big-endian 32-bit value, or reports `Underflow`
    /// when fewer than four bytes remain, leaving the cursor in place.
    pub fn get_32(&mut self) -> (r: Result<i32, CodecError>)
        requires
            old(self).wf(),
        ensures
            final(self).bytes() == old(self).bytes(),
            final(self).wf(),
            old(self).rest().len() >= 4 ==> r == Ok::<i32, CodecError>(
                de32(old(self).rest()) as i32,
            ) && final(self).cursor() == old(self).cursor() + 4,
            old(self).rest().len() < 4 ==> r == Err::<i32, CodecError>(CodecError::Underflow)
                && final(self).cursor() == old(self).cursor(),
    {
        match self.get_u32() {
            Ok(v) => Ok(#[verifier::truncate] (v as i32)),
            Err(e) => Err(e),
        }
    }

    /// Reads a signed big-endian 64-bit value, or reports `Underflow`
    /// when fewer than eight bytes remain, leaving the cursor in place.
    pub fn get_64(&mut self) -> (r: Result<i64, CodecError>)
        requires
            old(self).wf(),
        ensures
            final(self).bytes() == old(self).bytes(),
            final(self).wf(),
            old(self).rest().len() >= 8 ==> r == Ok::<i64, CodecError>(
                de64(old(self).rest()) as i64,
            ) && final(self).cursor() == old(self).cursor() + 8,
            old(self).rest().len() < 8 ==> r == Err::<i64, CodecError>(CodecError::Underflow)
                && final(self).cursor() == old(self).cursor(),
    {
        match self.get_u64() {
            Ok(v) => Ok(#[verifier::truncate] (v as i64)),
            Err(e) => Err(e),
        }
    }
}

} // verus!
