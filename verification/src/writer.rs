//! Writing integers to a byte stream.
//!
//! A stream is anything that can be handed bytes to write in full. Each write
//! method encodes its integer and hands the bytes over in one piece, so that
//! the stream has either taken all of them or reported its error.

use vstd::prelude::*;
use std::io::Error;
use crate::codec::{
    encode_i16,
    encode_i32,
    encode_i64,
    encode_i8,
    encode_u16,
    encode_u32,
    encode_u64,
    encode_u8,
};
use crate::model::encoding;
use crate::order::ByteOrder;

verus! {

/// A stream of bytes that can be written, with the integers that can be written
/// to it.
pub trait Writer {
    /// Whether writing all of `bytes` may take the stream from `pre` to `post`
    /// and end in `outcome`. This is what an implementation says of itself, and
    /// the write methods speak through it. One that says nothing allows
    /// everything.
    open spec fn write_step(
        pre: &Self,
        post: &Self,
        bytes: Seq<u8>,
        outcome: Result<(), Error>,
    ) -> bool {
        true
    }

    /// Writes all of `buf`: goes on after a partial write until every byte is
    /// written or the stream fails.
    fn write_all(&mut self, buf: &[u8]) -> (r: Result<(), Error>)
        ensures
            Self::write_step(old(self), final(self), buf@, r),
    ;

    /// Writes an unsigned byte: hands its one byte to the stream in one piece,
    /// and returns what the stream returns.
    fn write_u8(&mut self, value: u8) -> (r: Result<(), Error>)
        ensures
            Self::write_step(old(self), final(self), seq![value], r),
    {
        let bytes = encode_u8(value);
        self.write_all(bytes.as_slice())
    }

    /// Writes a signed byte, in two's complement: hands its one byte to the
    /// stream in one piece, and returns what the stream returns.
    fn write_i8(&mut self, value: i8) -> (r: Result<(), Error>)
        ensures
            Self::write_step(
                old(self),
                final(self),
                encoding(value as int, 1, ByteOrder::BigEndian),
                r,
            ),
    {
        let bytes = encode_i8(value);
        self.write_all(bytes.as_slice())
    }

    /// Writes an unsigned little-endian 16-bit integer: hands its two bytes to
    /// the stream in one piece, and returns what the stream returns.
    fn write_le_u16(&mut self, value: u16) -> (r: Result<(), Error>)
        ensures
            Self::write_step(
                old(self),
                final(self),
                encoding(value as int, 2, ByteOrder::LittleEndian),
                r,
            ),
    {
        let bytes = encode_u16(value, ByteOrder::LittleEndian);
        self.write_all(bytes.as_slice())
    }

    /// Writes an unsigned big-endian 16-bit integer: hands its two bytes to the
    /// stream in one piece, and returns what the stream returns.
    fn write_be_u16(&mut self, value: u16) -> (r: Result<(), Error>)
        ensures
            Self::write_step(
                old(self),
                final(self),
                encoding(value as int, 2, ByteOrder::BigEndian),
                r,
            ),
    {
        let bytes = encode_u16(value, ByteOrder::BigEndian);
        self.write_all(bytes.as_slice())
    }

    /// Writes a signed little-endian 16-bit integer: hands its two bytes to the
    /// stream in one piece, and returns what the stream returns.
    fn write_le_i16(&mut self, value: i16) -> (r: Result<(), Error>)
        ensures
            Self::write_step(
                old(self),
                final(self),
                encoding(value as int, 2, ByteOrder::LittleEndian),
                r,
            ),
    {
        let bytes = encode_i16(value, ByteOrder::LittleEndian);
        self.write_all(bytes.as_slice())
    }

    /// Writes a signed big-endian 16-bit integer: hands its two bytes to the
    /// stream in one piece, and returns what the stream returns.
    fn write_be_i16(&mut self, value: i16) -> (r: Result<(), Error>)
        ensures
            Self::write_step(
                old(self),
                final(self),
                encoding(value as int, 2, ByteOrder::BigEndian),
                r,
            ),
    {
        let bytes = encode_i16(value, ByteOrder::BigEndian);
        self.write_all(bytes.as_slice())
    }

    /// Writes an unsigned little-endian 32-bit integer: hands its four bytes to
    /// the stream in one piece, and returns what the stream returns.
    fn write_le_u32(&mut self, value: u32) -> (r: Result<(), Error>)
        ensures
            Self::write_step(
                old(self),
                final(self),
                encoding(value as int, 4, ByteOrder::LittleEndian),
                r,
            ),
    {
        let bytes = encode_u32(value, ByteOrder::LittleEndian);
        self.write_all(bytes.as_slice())
    }

    /// Writes an unsigned big-endian 32-bit integer: hands its four bytes to
    /// the stream in one piece, and returns what the stream returns.
    fn write_be_u32(&mut self, value: u32) -> (r: Result<(), Error>)
        ensures
            Self::write_step(
                old(self),
                final(self),
                encoding(value as int, 4, ByteOrder::BigEndian),
                r,
            ),
    {
        let bytes = encode_u32(value, ByteOrder::BigEndian);
        self.write_all(bytes.as_slice())
    }

    /// Writes a signed little-endian 32-bit integer: hands its four bytes to
    /// the stream in one piece, and returns what the stream returns.
    fn write_le_i32(&mut self, value: i32) -> (r: Result<(), Error>)
        ensures
            Self::write_step(
                old(self),
                final(self),
                encoding(value as int, 4, ByteOrder::LittleEndian),
                r,
            ),
    {
        let bytes = encode_i32(value, ByteOrder::LittleEndian);
        self.write_all(bytes.as_slice())
    }

    /// Writes a signed big-endian 32-bit integer: hands its four bytes to the
    /// stream in one piece, and returns what the stream returns.
    fn write_be_i32(&mut self, value: i32) -> (r: Result<(), Error>)
        ensures
            Self::write_step(
                old(self),
                final(self),
                encoding(value as int, 4, ByteOrder::BigEndian),
                r,
            ),
    {
        let bytes = encode_i32(value, ByteOrder::BigEndian);
        self.write_all(bytes.as_slice())
    }

    /// Writes an unsigned little-endian 64-bit integer: hands its eight bytes
    /// to the stream in one piece, and returns what the stream returns.
    fn write_le_u64(&mut self, value: u64) -> (r: Result<(), Error>)
        ensures
            Self::write_step(
                old(self),
                final(self),
                encoding(value as int, 8, ByteOrder::LittleEndian),
                r,
            ),
    {
        let bytes = encode_u64(value, ByteOrder::LittleEndian);
        self.write_all(bytes.as_slice())
    }

    /// Writes a signed little-endian 64-bit integer: hands its eight bytes to
    /// the stream in one piece, and returns what the stream returns.
    fn write_le_i64(&mut self, value: i64) -> (r: Result<(), Error>)
        ensures
            Self::write_step(
                old(self),
                final(self),
                encoding(value as int, 8, ByteOrder::LittleEndian),
                r,
            ),
    {
        let bytes = encode_i64(value, ByteOrder::LittleEndian);
        self.write_all(bytes.as_slice())
    }

    /// Writes an unsigned big-endian 64-bit integer: hands its eight bytes to
    /// the stream in one piece, and returns what the stream returns.
    fn write_be_u64(&mut self, value: u64) -> (r: Result<(), Error>)
        ensures
            Self::write_step(
                old(self),
                final(self),
                encoding(value as int, 8, ByteOrder::BigEndian),
                r,
            ),
    {
        let bytes = encode_u64(value, ByteOrder::BigEndian);
        self.write_all(bytes.as_slice())
    }

    /// Writes a signed big-endian 64-bit integer: hands its eight bytes to the
    /// stream in one piece, and returns what the stream returns.
    fn write_be_i64(&mut self, value: i64) -> (r: Result<(), Error>)
        ensures
            Self::write_step(
                old(self),
                final(self),
                encoding(value as int, 8, ByteOrder::BigEndian),
                r,
            ),
    {
        let bytes = encode_i64(value, ByteOrder::BigEndian);
        self.write_all(bytes.as_slice())
    }
}

impl Writer for Vec<u8> {
    /// A vector takes every write at its end, and never fails.
    open spec fn write_step(
        pre: &Self,
        post: &Self,
        bytes: Seq<u8>,
        outcome: Result<(), Error>,
    ) -> bool {
        &&& outcome == Ok::<(), Error>(())
        &&& post@ == pre@ + bytes
    }

    fn write_all(&mut self, buf: &[u8]) -> (r: Result<(), Error>) {
        let mut i: usize = 0;
        while i < buf.len()
            invariant
                i <= buf@.len(),
                self@ == old(self)@ + buf@.take(i as int),
            decreases buf@.len() - i,
        {
            self.push(buf[i]);
            i += 1;
            assert(buf@.take(i as int) =~= buf@.take(i - 1).push(buf@[i - 1]));
        }
        assert(buf@.take(i as int) =~= buf@);
        Ok(())
    }
}

} // verus!
