//! Reading integers from a byte stream.
//!
//! A stream is anything that can be asked for up to so many bytes. Each read
//! method asks once for the bytes of its integer and decodes what came. A
//! stream that gives fewer has failed the read: it is not asked again, and
//! the bytes it gave are gone from it.

use vstd::prelude::*;
use std::io::Error;
use crate::codec::{
    decode_i16,
    decode_i32,
    decode_i64,
    decode_i8,
    decode_u16,
    decode_u32,
    decode_u64,
    decode_u8,
};
use crate::error::{ReadError, complete};
use crate::model::{signed_value, unsigned_value};
use crate::order::ByteOrder;

verus! {

/// What one read delivered: the bytes at the front of the buffer that the count
/// covers, or the stream's error.
pub open spec fn delivered(count: Result<usize, Error>, buf: Seq<u8>) -> Result<Seq<u8>, Error> {
    match count {
        Ok(n) => Ok(buf.take(n as int)),
        Err(error) => Err(error),
    }
}

/// What a read method returns for the outcome of the stream's one read: the
/// stream's error handed on; `Incomplete` where other than `width` bytes came;
/// and else the value of the bytes.
pub open spec fn read_result<T>(
    outcome: Result<Seq<u8>, Error>,
    width: usize,
    value: spec_fn(Seq<u8>) -> T,
) -> Result<T, ReadError> {
    match outcome {
        Ok(bytes) => complete(bytes, width, value(bytes)),
        Err(error) => Err(ReadError::Stream(error)),
    }
}

/// A stream of bytes that can be read, with the integers that can be read from
/// it.
pub trait Reader {
    /// Whether one read that asks for up to `limit` bytes may take the stream
    /// from `pre` to `post` and deliver `outcome`. This is what an
    /// implementation says of itself, and the read methods speak through it.
    /// One that says nothing allows everything.
    open spec fn read_step(
        pre: &Self,
        post: &Self,
        limit: nat,
        outcome: Result<Seq<u8>, Error>,
    ) -> bool {
        true
    }

    /// Reads up to `buf.len()` bytes into the front of `buf` in one attempt and
    /// returns how many came: none, without an error, where the stream has
    /// ended.
    fn read(&mut self, buf: &mut [u8]) -> (count: Result<usize, Error>)
        ensures
            final(buf)@.len() == old(buf)@.len(),
            count matches Ok(n) ==> n <= old(buf)@.len(),
            Self::read_step(
                old(self),
                final(self),
                old(buf)@.len(),
                delivered(count, final(buf)@),
            ),
    ;

    /// Reads an unsigned byte. Asks the stream once for one byte: hands on the
    /// stream's error if that read fails, and fails with `Incomplete` if none
    /// came.
    fn read_unsigned_byte(&mut self) -> (r: Result<u8, ReadError>)
        ensures
            (exists|outcome: Result<Seq<u8>, Error>|
                #[trigger] Self::read_step(old(self), final(self), 1, outcome) && r == read_result(
                    outcome,
                    1,
                    |bytes: Seq<u8>| bytes[0],
                )),
    {
        let mut buf: Vec<u8> = vec![0u8; 1];
        match self.read(buf.as_mut_slice()) {
            Ok(count) if count == 1 => {
                assert(buf@.take(1) == buf@);
                decode_u8(buf.as_slice())
            },
            Ok(count) => Err(ReadError::Incomplete { wanted: 1, got: count }),
            Err(error) => Err(ReadError::Stream(error)),
        }
    }

    /// Reads a signed byte, in two's complement. Asks the stream once for one
    /// byte: hands on the stream's error if that read fails, and fails with
    /// `Incomplete` if none came.
    fn read_signed_byte(&mut self) -> (r: Result<i8, ReadError>)
        ensures
            (exists|outcome: Result<Seq<u8>, Error>|
                #[trigger] Self::read_step(old(self), final(self), 1, outcome) && r == read_result(
                    outcome,
                    1,
                    |bytes: Seq<u8>| signed_value(bytes, ByteOrder::BigEndian) as i8,
                )),
    {
        let mut buf: Vec<u8> = vec![0u8; 1];
        match self.read(buf.as_mut_slice()) {
            Ok(count) if count == 1 => {
                assert(buf@.take(1) == buf@);
                decode_i8(buf.as_slice())
            },
            Ok(count) => Err(ReadError::Incomplete { wanted: 1, got: count }),
            Err(error) => Err(ReadError::Stream(error)),
        }
    }

    /// Reads an unsigned big-endian 16-bit integer. Asks the stream once for
    /// two bytes: hands on the stream's error if that read fails, and fails
    /// with `Incomplete` if fewer came.
    fn read_unsigned_be_short(&mut self) -> (r: Result<u16, ReadError>)
        ensures
            (exists|outcome: Result<Seq<u8>, Error>|
                #[trigger] Self::read_step(old(self), final(self), 2, outcome) && r == read_result(
                    outcome,
                    2,
                    |bytes: Seq<u8>| unsigned_value(bytes, ByteOrder::BigEndian) as u16,
                )),
    {
        let mut buf: Vec<u8> = vec![0u8; 2];
        match self.read(buf.as_mut_slice()) {
            Ok(count) if count == 2 => {
                assert(buf@.take(2) == buf@);
                decode_u16(buf.as_slice(), ByteOrder::BigEndian)
            },
            Ok(count) => Err(ReadError::Incomplete { wanted: 2, got: count }),
            Err(error) => Err(ReadError::Stream(error)),
        }
    }

    /// Reads an unsigned little-endian 16-bit integer. Asks the stream once for
    /// two bytes: hands on the stream's error if that read fails, and fails
    /// with `Incomplete` if fewer came.
    fn read_unsigned_le_short(&mut self) -> (r: Result<u16, ReadError>)
        ensures
            (exists|outcome: Result<Seq<u8>, Error>|
                #[trigger] Self::read_step(old(self), final(self), 2, outcome) && r == read_result(
                    outcome,
                    2,
                    |bytes: Seq<u8>| unsigned_value(bytes, ByteOrder::LittleEndian) as u16,
                )),
    {
        let mut buf: Vec<u8> = vec![0u8; 2];
        match self.read(buf.as_mut_slice()) {
            Ok(count) if count == 2 => {
                assert(buf@.take(2) == buf@);
                decode_u16(buf.as_slice(), ByteOrder::LittleEndian)
            },
            Ok(count) => Err(ReadError::Incomplete { wanted: 2, got: count }),
            Err(error) => Err(ReadError::Stream(error)),
        }
    }

    /// Reads a signed big-endian 16-bit integer. Asks the stream once for two
    /// bytes: hands on the stream's error if that read fails, and fails with
    /// `Incomplete` if fewer came.
    fn read_signed_be_short(&mut self) -> (r: Result<i16, ReadError>)
        ensures
            (exists|outcome: Result<Seq<u8>, Error>|
                #[trigger] Self::read_step(old(self), final(self), 2, outcome) && r == read_result(
                    outcome,
                    2,
                    |bytes: Seq<u8>| signed_value(bytes, ByteOrder::BigEndian) as i16,
                )),
    {
        let mut buf: Vec<u8> = vec![0u8; 2];
        match self.read(buf.as_mut_slice()) {
            Ok(count) if count == 2 => {
                assert(buf@.take(2) == buf@);
                decode_i16(buf.as_slice(), ByteOrder::BigEndian)
            },
            Ok(count) => Err(ReadError::Incomplete { wanted: 2, got: count }),
            Err(error) => Err(ReadError::Stream(error)),
        }
    }

    /// Reads a signed little-endian 16-bit integer. Asks the stream once for
    /// two bytes: hands on the stream's error if that read fails, and fails
    /// with `Incomplete` if fewer came.
    fn read_signed_le_short(&mut self) -> (r: Result<i16, ReadError>)
        ensures
            (exists|outcome: Result<Seq<u8>, Error>|
                #[trigger] Self::read_step(old(self), final(self), 2, outcome) && r == read_result(
                    outcome,
                    2,
                    |bytes: Seq<u8>| signed_value(bytes, ByteOrder::LittleEndian) as i16,
                )),
    {
        let mut buf: Vec<u8> = vec![0u8; 2];
        match self.read(buf.as_mut_slice()) {
            Ok(count) if count == 2 => {
                assert(buf@.take(2) == buf@);
                decode_i16(buf.as_slice(), ByteOrder::LittleEndian)
            },
            Ok(count) => Err(ReadError::Incomplete { wanted: 2, got: count }),
            Err(error) => Err(ReadError::Stream(error)),
        }
    }

    /// Reads an unsigned big-endian 32-bit integer. Asks the stream once for
    /// four bytes: hands on the stream's error if that read fails, and fails
    /// with `Incomplete` if fewer came.
    fn read_unsigned_be_int(&mut self) -> (r: Result<u32, ReadError>)
        ensures
            (exists|outcome: Result<Seq<u8>, Error>|
                #[trigger] Self::read_step(old(self), final(self), 4, outcome) && r == read_result(
                    outcome,
                    4,
                    |bytes: Seq<u8>| unsigned_value(bytes, ByteOrder::BigEndian) as u32,
                )),
    {
        let mut buf: Vec<u8> = vec![0u8; 4];
        match self.read(buf.as_mut_slice()) {
            Ok(count) if count == 4 => {
                assert(buf@.take(4) == buf@);
                decode_u32(buf.as_slice(), ByteOrder::BigEndian)
            },
            Ok(count) => Err(ReadError::Incomplete { wanted: 4, got: count }),
            Err(error) => Err(ReadError::Stream(error)),
        }
    }

    /// Reads an unsigned little-endian 32-bit integer. Asks the stream once for
    /// four bytes: hands on the stream's error if that read fails, and fails
    /// with `Incomplete` if fewer came.
    fn read_unsigned_le_int(&mut self) -> (r: Result<u32, ReadError>)
        ensures
            (exists|outcome: Result<Seq<u8>, Error>|
                #[trigger] Self::read_step(old(self), final(self), 4, outcome) && r == read_result(
                    outcome,
                    4,
                    |bytes: Seq<u8>| unsigned_value(bytes, ByteOrder::LittleEndian) as u32,
                )),
    {
        let mut buf: Vec<u8> = vec![0u8; 4];
        match self.read(buf.as_mut_slice()) {
            Ok(count) if count == 4 => {
                assert(buf@.take(4) == buf@);
                decode_u32(buf.as_slice(), ByteOrder::LittleEndian)
            },
            Ok(count) => Err(ReadError::Incomplete { wanted: 4, got: count }),
            Err(error) => Err(ReadError::Stream(error)),
        }
    }

    /// Reads a signed big-endian 32-bit integer. Asks the stream once for four
    /// bytes: hands on the stream's error if that read fails, and fails with
    /// `Incomplete` if fewer came.
    fn read_signed_be_int(&mut self) -> (r: Result<i32, ReadError>)
        ensures
            (exists|outcome: Result<Seq<u8>, Error>|
                #[trigger] Self::read_step(old(self), final(self), 4, outcome) && r == read_result(
                    outcome,
                    4,
                    |bytes: Seq<u8>| signed_value(bytes, ByteOrder::BigEndian) as i32,
                )),
    {
        let mut buf: Vec<u8> = vec![0u8; 4];
        match self.read(buf.as_mut_slice()) {
            Ok(count) if count == 4 => {
                assert(buf@.take(4) == buf@);
                decode_i32(buf.as_slice(), ByteOrder::BigEndian)
            },
            Ok(count) => Err(ReadError::Incomplete { wanted: 4, got: count }),
            Err(error) => Err(ReadError::Stream(error)),
        }
    }

    /// Reads a signed little-endian 32-bit integer. Asks the stream once for
    /// four bytes: hands on the stream's error if that read fails, and fails
    /// with `Incomplete` if fewer came.
    fn read_signed_le_int(&mut self) -> (r: Result<i32, ReadError>)
        ensures
            (exists|outcome: Result<Seq<u8>, Error>|
                #[trigger] Self::read_step(old(self), final(self), 4, outcome) && r == read_result(
                    outcome,
                    4,
                    |bytes: Seq<u8>| signed_value(bytes, ByteOrder::LittleEndian) as i32,
                )),
    {
        let mut buf: Vec<u8> = vec![0u8; 4];
        match self.read(buf.as_mut_slice()) {
            Ok(count) if count == 4 => {
                assert(buf@.take(4) == buf@);
                decode_i32(buf.as_slice(), ByteOrder::LittleEndian)
            },
            Ok(count) => Err(ReadError::Incomplete { wanted: 4, got: count }),
            Err(error) => Err(ReadError::Stream(error)),
        }
    }

    /// Reads an unsigned big-endian 64-bit integer. Asks the stream once for
    /// eight bytes: hands on the stream's error if that read fails, and fails
    /// with `Incomplete` if fewer came.
    fn read_unsigned_be_long(&mut self) -> (r: Result<u64, ReadError>)
        ensures
            (exists|outcome: Result<Seq<u8>, Error>|
                #[trigger] Self::read_step(old(self), final(self), 8, outcome) && r == read_result(
                    outcome,
                    8,
                    |bytes: Seq<u8>| unsigned_value(bytes, ByteOrder::BigEndian) as u64,
                )),
    {
        let mut buf: Vec<u8> = vec![0u8; 8];
        match self.read(buf.as_mut_slice()) {
            Ok(count) if count == 8 => {
                assert(buf@.take(8) == buf@);
                decode_u64(buf.as_slice(), ByteOrder::BigEndian)
            },
            Ok(count) => Err(ReadError::Incomplete { wanted: 8, got: count }),
            Err(error) => Err(ReadError::Stream(error)),
        }
    }

    /// Reads a signed big-endian 64-bit integer. Asks the stream once for eight
    /// bytes: hands on the stream's error if that read fails, and fails with
    /// `Incomplete` if fewer came.
    fn read_signed_be_long(&mut self) -> (r: Result<i64, ReadError>)
        ensures
            (exists|outcome: Result<Seq<u8>, Error>|
                #[trigger] Self::read_step(old(self), final(self), 8, outcome) && r == read_result(
                    outcome,
                    8,
                    |bytes: Seq<u8>| signed_value(bytes, ByteOrder::BigEndian) as i64,
                )),
    {
        let mut buf: Vec<u8> = vec![0u8; 8];
        match self.read(buf.as_mut_slice()) {
            Ok(count) if count == 8 => {
                assert(buf@.take(8) == buf@);
                decode_i64(buf.as_slice(), ByteOrder::BigEndian)
            },
            Ok(count) => Err(ReadError::Incomplete { wanted: 8, got: count }),
            Err(error) => Err(ReadError::Stream(error)),
        }
    }

    /// Reads an unsigned little-endian 64-bit integer. Asks the stream once for
    /// eight bytes: hands on the stream's error if that read fails, and fails
    /// with `Incomplete` if fewer came.
    fn read_unsigned_le_long(&mut self) -> (r: Result<u64, ReadError>)
        ensures
            (exists|outcome: Result<Seq<u8>, Error>|
                #[trigger] Self::read_step(old(self), final(self), 8, outcome) && r == read_result(
                    outcome,
                    8,
                    |bytes: Seq<u8>| unsigned_value(bytes, ByteOrder::LittleEndian) as u64,
                )),
    {
        let mut buf: Vec<u8> = vec![0u8; 8];
        match self.read(buf.as_mut_slice()) {
            Ok(count) if count == 8 => {
                assert(buf@.take(8) == buf@);
                decode_u64(buf.as_slice(), ByteOrder::LittleEndian)
            },
            Ok(count) => Err(ReadError::Incomplete { wanted: 8, got: count }),
            Err(error) => Err(ReadError::Stream(error)),
        }
    }

    /// Reads a signed little-endian 64-bit integer. Asks the stream once for
    /// eight bytes: hands on the stream's error if that read fails, and fails
    /// with `Incomplete` if fewer came.
    fn read_signed_le_long(&mut self) -> (r: Result<i64, ReadError>)
        ensures
            (exists|outcome: Result<Seq<u8>, Error>|
                #[trigger] Self::read_step(old(self), final(self), 8, outcome) && r == read_result(
                    outcome,
                    8,
                    |bytes: Seq<u8>| signed_value(bytes, ByteOrder::LittleEndian) as i64,
                )),
    {
        let mut buf: Vec<u8> = vec![0u8; 8];
        match self.read(buf.as_mut_slice()) {
            Ok(count) if count == 8 => {
                assert(buf@.take(8) == buf@);
                decode_i64(buf.as_slice(), ByteOrder::LittleEndian)
            },
            Ok(count) => Err(ReadError::Incomplete { wanted: 8, got: count }),
            Err(error) => Err(ReadError::Stream(error)),
        }
    }
}

/// What every read method promises, as a predicate: the stream has made one
/// read that asked for `width` bytes, which took it from `pre` to `post`, and
/// `r` is what the outcome of that read comes to.
pub open spec fn reads<R: Reader + ?Sized, T>(
    pre: &R,
    post: &R,
    width: usize,
    value: spec_fn(Seq<u8>) -> T,
    r: Result<T, ReadError>,
) -> bool {
    exists|outcome: Result<Seq<u8>, Error>|
        #[trigger] R::read_step(pre, post, width as nat, outcome) && r == read_result(
            outcome,
            width,
            value,
        )
}

} // verus!
