//! What holds of the codec as a whole.
//!
//! Each function here is a theorem over the functions that the contracts of
//! the library speak of: stated in its `ensures`, for all the values of its
//! parameters that its `requires` admits, and proved.

use vstd::prelude::*;
use vstd::arithmetic::div_mod::{lemma_fundamental_div_mod, lemma_mod_add_multiples_vanish};
use crate::codec::lemma_byte_by_shift;
use crate::cursor::{Cursor, CursorView};
use crate::error::ReadError;
use crate::model::{
    encoding,
    lemma_byte_of_value,
    lemma_encoding_periodic,
    lemma_fitting_value,
    lemma_partial_value_bound,
    lemma_single_byte,
    lemma_value_of_encoding,
    lemma_weight_step,
    lemma_weights,
    most_significant,
    signed_value,
    unsigned_value,
    weight,
};
use crate::order::{ByteOrder, shift_index};
use crate::reader::{read_result, reads};
use crate::writer::Writer;

verus! {

/// Round trip, unsigned: a value that fits in `n` bytes is the unsigned value
/// of its encoding in `n` bytes, in either order.
pub proof fn law_round_trip_unsigned(value: int, n: nat, order: ByteOrder)
    requires
        0 <= value < weight(n),
    ensures
        encoding(value, n, order).len() == n,
        unsigned_value(encoding(value, n, order), order) == value,
{
    lemma_value_of_encoding(value, n, order);
    lemma_fitting_value(value, n);
}

/// Round trip, signed: a value that fits in `n` bytes in two's complement,
/// which is one from `-2^(8n) / 2` up to but not `2^(8n) / 2`, is the signed
/// value of its encoding in `n` bytes, in either order.
pub proof fn law_round_trip_signed(value: int, n: nat, order: ByteOrder)
    requires
        -weight(n) <= 2 * value < weight(n),
    ensures
        encoding(value, n, order).len() == n,
        signed_value(encoding(value, n, order), order) == value,
{
    lemma_value_of_encoding(value, n, order);
    lemma_weight_step(n);
    if value >= 0 {
        lemma_fitting_value(value, n);
    } else {
        lemma_fitting_value(value + weight(n), n);
        lemma_mod_add_multiples_vanish(value, weight(n));
    }
}

/// Round trip from the bytes, unsigned: a byte sequence is the encoding of
/// its unsigned value, in as many bytes and the same order. So no two
/// sequences of one length have the same value.
pub proof fn law_bytes_round_trip_unsigned(bytes: Seq<u8>, order: ByteOrder)
    ensures
        0 <= unsigned_value(bytes, order) < weight(bytes.len()),
        encoding(unsigned_value(bytes, order) as int, bytes.len(), order) == bytes,
{
    lemma_partial_value_bound(bytes, order, bytes.len());
    let encoded = encoding(unsigned_value(bytes, order) as int, bytes.len(), order);
    assert forall|i: int| 0 <= i < bytes.len() implies #[trigger] encoded[i] == bytes[i] by {
        lemma_byte_of_value(bytes, order, i);
    }
    assert(encoded =~= bytes);
}

/// Round trip from the bytes, signed: a byte sequence is the encoding of its
/// signed value, in as many bytes and the same order.
pub proof fn law_bytes_round_trip_signed(bytes: Seq<u8>, order: ByteOrder)
    ensures
        -weight(bytes.len()) <= 2 * signed_value(bytes, order) < weight(bytes.len()),
        encoding(signed_value(bytes, order), bytes.len(), order) == bytes,
{
    law_bytes_round_trip_unsigned(bytes, order);
    lemma_encoding_periodic(signed_value(bytes, order), bytes.len(), order);
}

/// The rule in shifts and masks: byte `i` of the encoding of a 64-bit pattern
/// is the pattern shifted right by eight bits for each step of the byte's
/// significance, and masked to its low eight bits.
pub proof fn law_byte_by_shift_and_mask(bits: u64, n: nat, order: ByteOrder, i: int)
    requires
        0 <= i < n <= 8,
    ensures
        encoding(bits as int, n, order)[i] == (bits >> (8 * shift_index(
            i,
            order,
            n as int,
        )) as u64) & 0xff,
{
    lemma_byte_by_shift(bits, shift_index(i, order, n as int) as u64);
}

/// Two's complement: in `n` bytes a negative value has the encoding of the
/// unsigned value `2^(8n)` above it, the one with the same bit pattern.
pub proof fn law_twos_complement(value: int, n: nat, order: ByteOrder)
    ensures
        encoding(value, n, order) == encoding(value + weight(n), n, order),
{
    lemma_encoding_periodic(value, n, order);
}

/// The sign bit: read as a signed integer, a byte sequence is negative
/// exactly when the top bit of its most significant byte is set.
pub proof fn law_sign_bit(bytes: Seq<u8>, order: ByteOrder)
    requires
        bytes.len() > 0,
    ensures
        signed_value(bytes, order) < 0 <==> most_significant(bytes, order) >= 0x80,
{
    let top = (bytes.len() - 1) as nat;
    let i: int = match order {
        ByteOrder::BigEndian => 0,
        ByteOrder::LittleEndian => bytes.len() - 1,
    };
    let value = unsigned_value(bytes, order) as int;
    let w = weight(top);
    lemma_weight_step(top);
    lemma_partial_value_bound(bytes, order, bytes.len());
    lemma_byte_of_value(bytes, order, i);
    lemma_fundamental_div_mod(value, w);
    assert(0 <= value / w < 256) by (nonlinear_arith)
        requires
            0 <= value < 256 * w,
            w > 0,
            value == w * (value / w) + value % w,
            0 <= value % w < w,
    ;
    assert(2 * value < 256 * w <==> value / w < 128) by (nonlinear_arith)
        requires
            w > 0,
            value == w * (value / w) + value % w,
            0 <= value % w < w,
    ;
}

/// The two orders are each other's reverse: the big-endian encoding of a
/// value is its little-endian encoding read backwards, for every width.
pub proof fn law_orders_are_reverses(value: int, n: nat)
    ensures
        encoding(value, n, ByteOrder::BigEndian) == encoding(
            value,
            n,
            ByteOrder::LittleEndian,
        ).reverse(),
{
    assert(encoding(value, n, ByteOrder::BigEndian) =~= encoding(
        value,
        n,
        ByteOrder::LittleEndian,
    ).reverse());
}

/// A single byte has no order: the two encodings of a value in one byte are
/// the same, and one byte has the same value in both orders.
pub proof fn law_single_byte_has_no_order(value: int, byte: u8)
    ensures
        encoding(value, 1, ByteOrder::BigEndian) == encoding(value, 1, ByteOrder::LittleEndian),
        unsigned_value(seq![byte], ByteOrder::BigEndian) == byte,
        unsigned_value(seq![byte], ByteOrder::LittleEndian) == byte,
        signed_value(seq![byte], ByteOrder::BigEndian) == signed_value(
            seq![byte],
            ByteOrder::LittleEndian,
        ),
{
    assert(encoding(value, 1, ByteOrder::BigEndian) =~= encoding(
        value,
        1,
        ByteOrder::LittleEndian,
    ));
    lemma_single_byte(seq![byte], ByteOrder::BigEndian);
    lemma_single_byte(seq![byte], ByteOrder::LittleEndian);
}

/// A read that brings fewer bytes than the width is incomplete, whatever the
/// bytes: it is never taken for a value.
pub proof fn law_short_read_is_incomplete<T>(
    bytes: Seq<u8>,
    width: usize,
    value: spec_fn(Seq<u8>) -> T,
)
    requires
        bytes.len() < width,
    ensures
        read_result(Ok(bytes), width, value) == Err::<T, ReadError>(
            ReadError::Incomplete { wanted: width, got: bytes.len() as usize },
        ),
{
}

/// A read that brings nothing is incomplete, for every width that an integer
/// has.
pub proof fn law_empty_read_is_incomplete<T>(width: usize, value: spec_fn(Seq<u8>) -> T)
    requires
        width > 0,
    ensures
        read_result(Ok(Seq::<u8>::empty()), width, value) == Err::<T, ReadError>(
            ReadError::Incomplete { wanted: width, got: 0 },
        ),
{
}

/// A cursor with fewer bytes left than the width fails every read with
/// `Incomplete`, and is left at its end: so one at its end, and one with a
/// byte less than the width.
pub proof fn law_cursor_short_of_bytes<T>(
    pre: Cursor,
    post: Cursor,
    width: usize,
    value: spec_fn(Seq<u8>) -> T,
    r: Result<T, ReadError>,
)
    requires
        reads(&pre, &post, width, value, r),
        pre@.remaining().len() < width,
    ensures
        r == Err::<T, ReadError>(
            ReadError::Incomplete { wanted: width, got: pre@.remaining().len() as usize },
        ),
        post@.bytes == pre@.bytes,
        post@.position == pre@.position + pre@.remaining().len(),
        post@.remaining().len() == 0,
{
}

/// A cursor with the bytes of the width left gives the value of those bytes
/// and moves past them.
pub proof fn law_cursor_has_the_bytes<T>(
    pre: Cursor,
    post: Cursor,
    width: usize,
    value: spec_fn(Seq<u8>) -> T,
    r: Result<T, ReadError>,
)
    requires
        reads(&pre, &post, width, value, r),
        pre@.remaining().len() >= width,
    ensures
        r == Ok::<T, ReadError>(value(pre@.remaining().take(width as int))),
        post@.bytes == pre@.bytes,
        post@.position == pre@.position + width,
{
}

/// What is written to a cursor is what it reads when moved back: after a
/// write of `data` and a return to where the write began, a read of the
/// width of `data` gives the value of `data` and leaves the cursor where the
/// write left it.
pub proof fn law_cursor_reads_back<T>(
    start: Cursor,
    written: Cursor,
    rewound: Cursor,
    end: Cursor,
    data: Seq<u8>,
    value: spec_fn(Seq<u8>) -> T,
    r: Result<T, ReadError>,
)
    requires
        data.len() <= usize::MAX,
        Cursor::write_step(&start, &written, data, Ok(())),
        rewound@ == (CursorView { bytes: written@.bytes, position: start@.position }),
        reads(&rewound, &end, data.len() as usize, value, r),
    ensures
        r == Ok::<T, ReadError>(value(data)),
        end@ == written@,
{
    assert(rewound@.next(data.len()) =~= data);
}

/// Two writes in a row are one write of both: what comes first stands first.
pub proof fn law_cursor_writes_in_order(cursor: CursorView, first: Seq<u8>, second: Seq<u8>)
    ensures
        cursor.after_write(first).after_write(second) == cursor.after_write(first + second),
{
    let both = cursor.after_write(first + second);
    let one_by_one = cursor.after_write(first).after_write(second);
    assert(one_by_one.bytes =~= both.bytes);
}

/// Two reads in a row are one read of both lengths, cut in two.
pub proof fn law_cursor_reads_in_order(cursor: CursorView, first: nat, second: nat)
    ensures
        cursor.next(first) + cursor.after_read(first).next(second) == cursor.next(first + second),
        cursor.after_read(first).after_read(second) == cursor.after_read(first + second),
{
    assert(cursor.next(first) + cursor.after_read(first).next(second) =~= cursor.next(
        first + second,
    ));
}

/// Round trip of an unsigned byte: the byte written is the byte read.
pub proof fn law_round_trip_u8(value: u8)
    ensures
        read_result(Ok(seq![value]), 1, |bytes: Seq<u8>| bytes[0]) == Ok::<u8, ReadError>(value),
{
}

/// Round trip of a signed byte: the byte written for a value reads as that
/// value.
pub proof fn law_round_trip_i8(value: i8)
    ensures
        read_result(
            Ok(encoding(value as int, 1, ByteOrder::BigEndian)),
            1,
            |bytes: Seq<u8>| signed_value(bytes, ByteOrder::BigEndian) as i8,
        ) == Ok::<i8, ReadError>(value),
{
    lemma_weights();
    law_round_trip_signed(value as int, 1, ByteOrder::BigEndian);
}

/// Round trip of an unsigned 16-bit integer: the two bytes written for a
/// value in an order read as that value in the same order.
pub proof fn law_round_trip_u16(value: u16, order: ByteOrder)
    ensures
        read_result(
            Ok(encoding(value as int, 2, order)),
            2,
            |bytes: Seq<u8>| unsigned_value(bytes, order) as u16,
        ) == Ok::<u16, ReadError>(value),
{
    lemma_weights();
    law_round_trip_unsigned(value as int, 2, order);
}

/// Round trip of a signed 16-bit integer: the two bytes written for a
/// value in an order read as that value in the same order.
pub proof fn law_round_trip_i16(value: i16, order: ByteOrder)
    ensures
        read_result(
            Ok(encoding(value as int, 2, order)),
            2,
            |bytes: Seq<u8>| signed_value(bytes, order) as i16,
        ) == Ok::<i16, ReadError>(value),
{
    lemma_weights();
    law_round_trip_signed(value as int, 2, order);
}

/// Round trip of an unsigned 32-bit integer: the four bytes written for a
/// value in an order read as that value in the same order.
pub proof fn law_round_trip_u32(value: u32, order: ByteOrder)
    ensures
        read_result(
            Ok(encoding(value as int, 4, order)),
            4,
            |bytes: Seq<u8>| unsigned_value(bytes, order) as u32,
        ) == Ok::<u32, ReadError>(value),
{
    lemma_weights();
    law_round_trip_unsigned(value as int, 4, order);
}

/// Round trip of a signed 32-bit integer: the four bytes written for a
/// value in an order read as that value in the same order.
pub proof fn law_round_trip_i32(value: i32, order: ByteOrder)
    ensures
        read_result(
            Ok(encoding(value as int, 4, order)),
            4,
            |bytes: Seq<u8>| signed_value(bytes, order) as i32,
        ) == Ok::<i32, ReadError>(value),
{
    lemma_weights();
    law_round_trip_signed(value as int, 4, order);
}

/// Round trip of an unsigned 64-bit integer: the eight bytes written for a
/// value in an order read as that value in the same order.
pub proof fn law_round_trip_u64(value: u64, order: ByteOrder)
    ensures
        read_result(
            Ok(encoding(value as int, 8, order)),
            8,
            |bytes: Seq<u8>| unsigned_value(bytes, order) as u64,
        ) == Ok::<u64, ReadError>(value),
{
    lemma_weights();
    law_round_trip_unsigned(value as int, 8, order);
}

/// Round trip of a signed 64-bit integer: the eight bytes written for a
/// value in an order read as that value in the same order.
pub proof fn law_round_trip_i64(value: i64, order: ByteOrder)
    ensures
        read_result(
            Ok(encoding(value as int, 8, order)),
            8,
            |bytes: Seq<u8>| signed_value(bytes, order) as i64,
        ) == Ok::<i64, ReadError>(value),
{
    lemma_weights();
    law_round_trip_signed(value as int, 8, order);
}

} // verus!
