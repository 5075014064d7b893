//! Integers to bytes and bytes to integers, for every width and order.
//!
//! `encode` and `decode` hold the one rule; the functions named after a type
//! apply it to that type's width and, for a signed type, to the unsigned
//! integer with the same bit pattern.

use vstd::prelude::*;
use vstd::bits::{lemma_u64_shr_is_div, lemma_u64_shl_is_mul};
use crate::error::{ReadError, complete};
use crate::model::{
    byte_at,
    encoding,
    lemma_encoding_periodic,
    lemma_high_bytes_zero,
    lemma_partial_value_bound,
    lemma_single_byte,
    lemma_weight_grows,
    lemma_weights,
    partial_value,
    signed_value,
    unsigned_value,
    weight,
};
use crate::order::{ByteOrder, shift_index, significance};

verus! {

/// The byte of a 64-bit pattern at significance `k` is the pattern shifted
/// right by `8k` bits and masked to its low eight bits.
pub proof fn lemma_byte_by_shift(bits: u64, k: u64)
    requires
        k < 8,
    ensures
        ((bits >> (8 * k)) & 0xff) == byte_at(bits as int, k as nat),
{
    let shift: u64 = (8 * k) as u64;
    let shifted: u64 = bits >> shift;
    lemma_u64_shr_is_div(bits, shift);
    assert(shifted & 0xff == shifted % 256) by (bit_vector);
}

/// The `width` bytes that stand for `bits` in the given order. Past the
/// eighth byte a 64-bit value has only zero bytes.
pub fn encode(bits: u64, width: usize, order: ByteOrder) -> (bytes: Vec<u8>)
    ensures
        bytes@ == encoding(bits as int, width as nat, order),
{
    let mut bytes: Vec<u8> = Vec::new();
    let mut i: usize = 0;
    while i < width
        invariant
            i <= width,
            bytes@.len() == i,
            forall|j: int|
                0 <= j < i ==> bytes@[j] == byte_at(
                    bits as int,
                    shift_index(j, order, width as int) as nat,
                ),
        decreases width - i,
    {
        let k: usize = significance(i, order, width);
        let byte: u64 = if k < 8 {
            proof {
                lemma_byte_by_shift(bits, k as u64);
            }
            (bits >> (8 * k as u64)) & 0xff
        } else {
            proof {
                lemma_weights();
                lemma_high_bytes_zero(bits as int, 8, k as nat);
            }
            0
        };
        bytes.push(byte as u8);
        i += 1;
    }
    bytes
}

/// The unsigned number that `bytes` stand for in the given order.
pub fn decode(bytes: &[u8], order: ByteOrder) -> (bits: u64)
    requires
        bytes@.len() <= 8,
    ensures
        bits == unsigned_value(bytes@, order),
{
    let n: usize = bytes.len();
    let mut bits: u64 = 0;
    let mut i: usize = 0;
    while i < n
        invariant
            i <= n <= 8,
            n == bytes@.len(),
            bits == partial_value(bytes@, order, i as nat),
        decreases n - i,
    {
        let k: u64 = significance(i, order, n) as u64;
        let byte: u64 = bytes[i] as u64;
        proof {
            lemma_partial_value_bound(bytes@, order, (i + 1) as nat);
            lemma_weight_grows(n as nat, 8);
            lemma_weight_grows(k as nat, 7);
            lemma_weights();
            assert(byte * weight(k as nat) <= 255 * weight(7)) by (nonlinear_arith)
                requires
                    byte <= 255,
                    0 < weight(k as nat) <= weight(7),
            ;
            lemma_u64_shl_is_mul(byte, (8 * k) as u64);
        }
        bits = bits + (byte << (8 * k));
        i += 1;
    }
    bits
}

/// The byte that stands for `value`.
pub fn encode_u8(value: u8) -> (bytes: Vec<u8>)
    ensures
        bytes@ == seq![value],
        bytes@ == encoding(value as int, 1, ByteOrder::BigEndian),
        bytes@ == encoding(value as int, 1, ByteOrder::LittleEndian),
{
    let bytes = encode(value as u64, 1, ByteOrder::BigEndian);
    proof {
        lemma_weights();
        assert(bytes@ =~= seq![value]);
        assert(bytes@ =~= encoding(value as int, 1, ByteOrder::LittleEndian));
    }
    bytes
}

/// The byte that stands for `value` in two's complement.
pub fn encode_i8(value: i8) -> (bytes: Vec<u8>)
    ensures
        bytes@ == encoding(value as int, 1, ByteOrder::BigEndian),
        bytes@ == encoding(value as int, 1, ByteOrder::LittleEndian),
{
    let pattern: u8 = value as u8;
    proof {
        assert(pattern == (if value < 0 {
            value + 0x100
        } else {
            value as int
        })) by (bit_vector)
            requires
                pattern == value as u8,
        ;
        lemma_weights();
        if value < 0 {
            lemma_encoding_periodic(value as int, 1, ByteOrder::BigEndian);
        }
        assert(encoding(value as int, 1, ByteOrder::BigEndian) =~= encoding(
            value as int,
            1,
            ByteOrder::LittleEndian,
        ));
    }
    encode(pattern as u64, 1, ByteOrder::BigEndian)
}

/// The two bytes that stand for `value` in the given order.
pub fn encode_u16(value: u16, order: ByteOrder) -> (bytes: Vec<u8>)
    ensures
        bytes@ == encoding(value as int, 2, order),
{
    encode(value as u64, 2, order)
}

/// The four bytes that stand for `value` in the given order.
pub fn encode_u32(value: u32, order: ByteOrder) -> (bytes: Vec<u8>)
    ensures
        bytes@ == encoding(value as int, 4, order),
{
    encode(value as u64, 4, order)
}

/// The eight bytes that stand for `value` in the given order.
pub fn encode_u64(value: u64, order: ByteOrder) -> (bytes: Vec<u8>)
    ensures
        bytes@ == encoding(value as int, 8, order),
{
    encode(value as u64, 8, order)
}

/// The two bytes that stand for `value` in two's complement, in the given
/// order.
pub fn encode_i16(value: i16, order: ByteOrder) -> (bytes: Vec<u8>)
    ensures
        bytes@ == encoding(value as int, 2, order),
{
    let pattern: u16 = value as u16;
    proof {
        assert(pattern == (if value < 0 {
            value + 0x1_0000
        } else {
            value as int
        })) by (bit_vector)
            requires
                pattern == value as u16,
        ;
        lemma_weights();
        if value < 0 {
            lemma_encoding_periodic(value as int, 2, order);
        }
    }
    encode(pattern as u64, 2, order)
}

/// The four bytes that stand for `value` in two's complement, in the given
/// order.
pub fn encode_i32(value: i32, order: ByteOrder) -> (bytes: Vec<u8>)
    ensures
        bytes@ == encoding(value as int, 4, order),
{
    let pattern: u32 = value as u32;
    proof {
        assert(pattern == (if value < 0 {
            value + 0x1_0000_0000
        } else {
            value as int
        })) by (bit_vector)
            requires
                pattern == value as u32,
        ;
        lemma_weights();
        if value < 0 {
            lemma_encoding_periodic(value as int, 4, order);
        }
    }
    encode(pattern as u64, 4, order)
}

/// The eight bytes that stand for `value` in two's complement, in the given
/// order.
pub fn encode_i64(value: i64, order: ByteOrder) -> (bytes: Vec<u8>)
    ensures
        bytes@ == encoding(value as int, 8, order),
{
    let pattern: u64 = value as u64;
    proof {
        assert(pattern == (if value < 0 {
            value + 0x1_0000_0000_0000_0000
        } else {
            value as int
        })) by (bit_vector)
            requires
                pattern == value as u64,
        ;
        lemma_weights();
        if value < 0 {
            lemma_encoding_periodic(value as int, 8, order);
        }
    }
    encode(pattern as u64, 8, order)
}

/// The unsigned byte that `bytes` hold, if they are one byte.
pub fn decode_u8(bytes: &[u8]) -> (r: Result<u8, ReadError>)
    ensures
        r == complete(bytes@, 1, bytes@[0]),
{
    if bytes.len() != 1 {
        return Err(ReadError::Incomplete { wanted: 1, got: bytes.len() });
    }
    Ok(bytes[0])
}

/// The signed byte that `bytes` hold, if they are one byte.
pub fn decode_i8(bytes: &[u8]) -> (r: Result<i8, ReadError>)
    ensures
        r == complete(bytes@, 1, signed_value(bytes@, ByteOrder::BigEndian) as i8),
        r matches Ok(value) ==> value == signed_value(bytes@, ByteOrder::BigEndian) && value
            == signed_value(bytes@, ByteOrder::LittleEndian),
{
    if bytes.len() != 1 {
        return Err(ReadError::Incomplete { wanted: 1, got: bytes.len() });
    }
    let pattern: u8 = bytes[0];
    let value: i8 = pattern as i8;
    proof {
        lemma_single_byte(bytes@, ByteOrder::BigEndian);
        lemma_single_byte(bytes@, ByteOrder::LittleEndian);
        lemma_weights();
        assert(value == (if pattern < 0x80 {
            pattern as int
        } else {
            pattern - 0x100
        })) by (bit_vector)
            requires
                value == pattern as i8,
        ;
    }
    Ok(value)
}

/// The unsigned number that `bytes` stand for in the given order, if they
/// are two bytes.
pub fn decode_u16(bytes: &[u8], order: ByteOrder) -> (r: Result<u16, ReadError>)
    ensures
        r == complete(bytes@, 2, unsigned_value(bytes@, order) as u16),
        r matches Ok(value) ==> value == unsigned_value(bytes@, order),
{
    if bytes.len() != 2 {
        return Err(ReadError::Incomplete { wanted: 2, got: bytes.len() });
    }
    let bits: u64 = decode(bytes, order);
    proof {
        lemma_partial_value_bound(bytes@, order, 2);
        lemma_weights();
    }
    Ok(bits as u16)
}

/// The unsigned number that `bytes` stand for in the given order, if they
/// are four bytes.
pub fn decode_u32(bytes: &[u8], order: ByteOrder) -> (r: Result<u32, ReadError>)
    ensures
        r == complete(bytes@, 4, unsigned_value(bytes@, order) as u32),
        r matches Ok(value) ==> value == unsigned_value(bytes@, order),
{
    if bytes.len() != 4 {
        return Err(ReadError::Incomplete { wanted: 4, got: bytes.len() });
    }
    let bits: u64 = decode(bytes, order);
    proof {
        lemma_partial_value_bound(bytes@, order, 4);
        lemma_weights();
    }
    Ok(bits as u32)
}

/// The unsigned number that `bytes` stand for in the given order, if they
/// are eight bytes.
pub fn decode_u64(bytes: &[u8], order: ByteOrder) -> (r: Result<u64, ReadError>)
    ensures
        r == complete(bytes@, 8, unsigned_value(bytes@, order) as u64),
        r matches Ok(value) ==> value == unsigned_value(bytes@, order),
{
    if bytes.len() != 8 {
        return Err(ReadError::Incomplete { wanted: 8, got: bytes.len() });
    }
    let bits: u64 = decode(bytes, order);
    proof {
        lemma_partial_value_bound(bytes@, order, 8);
        lemma_weights();
    }
    Ok(bits)
}

/// The two's-complement number that `bytes` stand for in the given order, if
/// they are two bytes.
pub fn decode_i16(bytes: &[u8], order: ByteOrder) -> (r: Result<i16, ReadError>)
    ensures
        r == complete(bytes@, 2, signed_value(bytes@, order) as i16),
        r matches Ok(value) ==> value == signed_value(bytes@, order),
{
    if bytes.len() != 2 {
        return Err(ReadError::Incomplete { wanted: 2, got: bytes.len() });
    }
    let bits: u64 = decode(bytes, order);
    proof {
        lemma_partial_value_bound(bytes@, order, 2);
        lemma_weights();
    }
    let pattern: u16 = bits as u16;
    let value: i16 = pattern as i16;
    proof {
        assert(value == (if pattern < 0x8000 {
            pattern as int
        } else {
            pattern - 0x1_0000
        })) by (bit_vector)
            requires
                value == pattern as i16,
        ;
    }
    Ok(value)
}

/// The two's-complement number that `bytes` stand for in the given order, if
/// they are four bytes.
pub fn decode_i32(bytes: &[u8], order: ByteOrder) -> (r: Result<i32, ReadError>)
    ensures
        r == complete(bytes@, 4, signed_value(bytes@, order) as i32),
        r matches Ok(value) ==> value == signed_value(bytes@, order),
{
    if bytes.len() != 4 {
        return Err(ReadError::Incomplete { wanted: 4, got: bytes.len() });
    }
    let bits: u64 = decode(bytes, order);
    proof {
        lemma_partial_value_bound(bytes@, order, 4);
        lemma_weights();
    }
    let pattern: u32 = bits as u32;
    let value: i32 = pattern as i32;
    proof {
        assert(value == (if pattern < 0x8000_0000 {
            pattern as int
        } else {
            pattern - 0x1_0000_0000
        })) by (bit_vector)
            requires
                value == pattern as i32,
        ;
    }
    Ok(value)
}

/// The two's-complement number that `bytes` stand for in the given order, if
/// they are eight bytes.
pub fn decode_i64(bytes: &[u8], order: ByteOrder) -> (r: Result<i64, ReadError>)
    ensures
        r == complete(bytes@, 8, signed_value(bytes@, order) as i64),
        r matches Ok(value) ==> value == signed_value(bytes@, order),
{
    if bytes.len() != 8 {
        return Err(ReadError::Incomplete { wanted: 8, got: bytes.len() });
    }
    let bits: u64 = decode(bytes, order);
    proof {
        lemma_partial_value_bound(bytes@, order, 8);
        lemma_weights();
    }
    let pattern: u64 = bits;
    let value: i64 = pattern as i64;
    proof {
        assert(value == (if pattern < 0x8000_0000_0000_0000 {
            pattern as int
        } else {
            pattern - 0x1_0000_0000_0000_0000
        })) by (bit_vector)
            requires
                value == pattern as i64,
        ;
    }
    Ok(value)
}

} // verus!
