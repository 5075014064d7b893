//! Integers as byte sequences: the mathematical model.
//!
//! A value is taken as a mathematical integer. Its byte at significance `k` is
//! `(value / 2^(8k)) mod 256`, with the quotient rounded down, which for a
//! negative value is the byte of its two's-complement pattern. An encoding of
//! `n` bytes lists those bytes in the order that `shift_index` gives, and the
//! value of a byte sequence is the sum of its bytes, each times the weight of
//! its significance.

use vstd::prelude::*;
use vstd::arithmetic::div_mod::{
    lemma_basic_div,
    lemma_fundamental_div_mod,
    lemma_fundamental_div_mod_converse,
    lemma_hoist_over_denominator,
    lemma_mod_multiples_vanish,
    lemma_small_mod,
};
use vstd::arithmetic::power2::{pow2, lemma_pow2_pos, lemma_pow2_adds, lemma2_to64};
use crate::order::{ByteOrder, shift_index};

verus! {

/// The weight of the byte at significance `k`: `2^(8k)`.
pub open spec fn weight(k: nat) -> int {
    pow2(8 * k) as int
}

/// The byte of `value` at significance `k`.
pub open spec fn byte_at(value: int, k: nat) -> u8 {
    ((value / weight(k)) % 256) as u8
}

/// The `n` bytes that stand for `value` in the given order: byte `i` is
/// the byte of `value` at significance `shift_index(i, order, n)`.
pub open spec fn encoding(value: int, n: nat, order: ByteOrder) -> Seq<u8> {
    Seq::new(n, |i: int| byte_at(value, shift_index(i, order, n as int) as nat))
}

/// The sum of the first `count` bytes of `bytes`, each times the weight of
/// its significance.
pub open spec fn partial_value(bytes: Seq<u8>, order: ByteOrder, count: nat) -> nat
    decreases count,
{
    if count == 0 {
        0
    } else {
        let i = count - 1;
        let k = shift_index(i, order, bytes.len() as int) as nat;
        (partial_value(bytes, order, i as nat) + bytes[i] * weight(k)) as nat
    }
}

/// The number that `bytes` stand for when read as an unsigned integer.
pub open spec fn unsigned_value(bytes: Seq<u8>, order: ByteOrder) -> nat {
    partial_value(bytes, order, bytes.len())
}

/// The number that `bytes` stand for when read as a two's-complement integer:
/// the unsigned value, less `2^(8n)` where the top bit is set.
pub open spec fn signed_value(bytes: Seq<u8>, order: ByteOrder) -> int {
    let unsigned = unsigned_value(bytes, order) as int;
    if 2 * unsigned < weight(bytes.len()) {
        unsigned
    } else {
        unsigned - weight(bytes.len())
    }
}

/// The byte of the highest significance: the first in big-endian order, the
/// last in little-endian order.
pub open spec fn most_significant(bytes: Seq<u8>, order: ByteOrder) -> u8 {
    match order {
        ByteOrder::BigEndian => bytes.first(),
        ByteOrder::LittleEndian => bytes.last(),
    }
}

/// Weights are positive, and each is 256 times the one before.
pub proof fn lemma_weight_step(k: nat)
    ensures
        weight(0) == 1,
        weight(k) > 0,
        weight(k + 1) == 256 * weight(k),
{
    lemma2_to64();
    lemma_pow2_pos(8 * k);
    lemma_pow2_adds(8 * k, 8);
    assert(8 * (k + 1) == 8 * k + 8);
}

/// A higher significance has no lower weight.
pub proof fn lemma_weight_grows(low: nat, high: nat)
    requires
        low <= high,
    ensures
        0 < weight(low) <= weight(high),
    decreases high - low,
{
    lemma_weight_step(low);
    if low < high {
        lemma_weight_grows(low + 1, high);
    }
}

/// The weight of a sum of significances is the product of their weights.
pub proof fn lemma_weight_adds(a: nat, b: nat)
    ensures
        weight(a + b) == weight(a) * weight(b),
{
    let upper: nat = 8 * a;
    let lower: nat = 8 * b;
    lemma_pow2_adds(upper, lower);
    assert(upper + lower == 8 * (a + b));
}

/// The weights of the widths that the machine's integers have.
pub proof fn lemma_weights()
    ensures
        weight(0) == 1,
        weight(1) == 0x100,
        weight(2) == 0x1_0000,
        weight(3) == 0x100_0000,
        weight(4) == 0x1_0000_0000,
        weight(5) == 0x100_0000_0000,
        weight(6) == 0x1_0000_0000_0000,
        weight(7) == 0x100_0000_0000_0000,
        weight(8) == 0x1_0000_0000_0000_0000,
{
    lemma_weight_step(0);
    lemma_weight_step(1);
    lemma_weight_step(2);
    lemma_weight_step(3);
    lemma_weight_step(4);
    lemma_weight_step(5);
    lemma_weight_step(6);
    lemma_weight_step(7);
}

/// The low `k + 1` bytes of a value are its low `k` bytes with its byte at
/// significance `k` above them.
pub proof fn lemma_low_bytes_step(value: int, k: nat)
    ensures
        value % weight(k + 1) == value % weight(k) + byte_at(value, k) * weight(k),
{
    let w = weight(k);
    lemma_weight_step(k);
    let high = value / w;
    let low = value % w;
    let byte = high % 256;
    let rest = high / 256;
    lemma_fundamental_div_mod(value, w);
    assert(value == rest * (256 * w) + (byte * w + low)) by (nonlinear_arith)
        requires
            value == w * high + low,
            high == 256 * rest + byte,
    ;
    assert(0 <= byte * w + low < 256 * w) by (nonlinear_arith)
        requires
            0 <= byte < 256,
            0 <= low < w,
    ;
    lemma_fundamental_div_mod_converse(value, 256 * w, rest, byte * w + low);
}

/// A value under `2^(8k)` and not negative has only zero bytes from
/// significance `k` on.
pub proof fn lemma_high_bytes_zero(value: int, k: nat, at: nat)
    requires
        0 <= value < weight(k),
        k <= at,
    ensures
        byte_at(value, at) == 0,
{
    lemma_weight_grows(k, at);
    lemma_basic_div(value, weight(at));
}

/// Adding `2^(8n)` to a value changes none of its low `n` bytes.
pub proof fn lemma_byte_at_periodic(value: int, n: nat, k: nat)
    requires
        k < n,
    ensures
        byte_at(value + weight(n), k) == byte_at(value, k),
{
    let above = (n - k - 1) as nat;
    lemma_weight_step(k);
    lemma_weight_step(above);
    lemma_weight_adds(above + 1, k);
    lemma_hoist_over_denominator(value, weight(above + 1), weight(k) as nat);
    lemma_mod_multiples_vanish(weight(above), value / weight(k), 256);
}

/// Adding `2^(8n)` to a value leaves its encoding in `n` bytes as it was.
pub proof fn lemma_encoding_periodic(value: int, n: nat, order: ByteOrder)
    ensures
        encoding(value + weight(n), n, order) == encoding(value, n, order),
{
    assert forall|i: int| 0 <= i < n implies #[trigger] encoding(value + weight(n), n, order)[i]
        == encoding(value, n, order)[i] by {
        lemma_byte_at_periodic(value, n, shift_index(i, order, n as int) as nat);
    }
    assert(encoding(value + weight(n), n, order) =~= encoding(value, n, order));
}

/// What the first `count` bytes of an encoding add up to: in little-endian
/// order the low `count` bytes of the value, in big-endian order its low `n`
/// bytes without the low `n - count` of them.
pub proof fn lemma_partial_value_of_encoding(value: int, n: nat, order: ByteOrder, count: nat)
    requires
        count <= n,
    ensures
        partial_value(encoding(value, n, order), order, count) == match order {
            ByteOrder::LittleEndian => value % weight(count),
            ByteOrder::BigEndian => value % weight(n) - value % weight((n - count) as nat),
        },
    decreases count,
{
    if count == 0 {
        lemma_weight_step(0);
    } else {
        let i = (count - 1) as nat;
        lemma_partial_value_of_encoding(value, n, order, i);
        let k = shift_index(i as int, order, n as int) as nat;
        assert(encoding(value, n, order)[i as int] == byte_at(value, k));
        lemma_low_bytes_step(value, k);
        lemma_weight_step(k);
    }
}

/// The value of an encoding is the encoded value modulo `2^(8n)`, in either
/// order.
pub proof fn lemma_value_of_encoding(value: int, n: nat, order: ByteOrder)
    ensures
        unsigned_value(encoding(value, n, order), order) == value % weight(n),
{
    lemma_partial_value_of_encoding(value, n, order, n);
    lemma_weight_step(0);
}

/// The first `count` bytes leave room for the rest: their sum is under
/// `2^(8n)` for a sequence of `n` bytes.
pub proof fn lemma_partial_value_bound(bytes: Seq<u8>, order: ByteOrder, count: nat)
    requires
        count <= bytes.len(),
    ensures
        match order {
            ByteOrder::LittleEndian => partial_value(bytes, order, count) < weight(count),
            ByteOrder::BigEndian => partial_value(bytes, order, count) + weight(
                (bytes.len() - count) as nat,
            ) <= weight(bytes.len()),
        },
        partial_value(bytes, order, count) < weight(bytes.len()),
    decreases count,
{
    lemma_weight_grows(count, bytes.len());
    lemma_weight_step((bytes.len() - count) as nat);
    if count == 0 {
        lemma_weight_step(0);
    } else {
        let i = (count - 1) as nat;
        lemma_partial_value_bound(bytes, order, i);
        let k = shift_index(i as int, order, bytes.len() as int) as nat;
        lemma_weight_step(k);
        assert(bytes[i as int] * weight(k) <= 255 * weight(k)) by (nonlinear_arith)
            requires
                bytes[i as int] <= 255,
                weight(k) > 0,
        ;
    }
}

/// A value that fits in `n` bytes as an unsigned integer is its own
/// remainder modulo `2^(8n)`.
pub proof fn lemma_fitting_value(value: int, n: nat)
    requires
        0 <= value < weight(n),
    ensures
        value % weight(n) == value,
{
    lemma_small_mod(value as nat, weight(n) as nat);
}

/// A single byte stands for itself, whichever the order.
pub proof fn lemma_single_byte(bytes: Seq<u8>, order: ByteOrder)
    requires
        bytes.len() == 1,
    ensures
        unsigned_value(bytes, order) == bytes[0],
{
    lemma_weights();
    reveal_with_fuel(partial_value, 2);
}

/// In little-endian order, bytes that follow do not reach into the low
/// part: the sum of the first `count` bytes, modulo `2^(8 low)`, is the sum of
/// the first `low` of them.
pub proof fn lemma_low_part_little_endian(bytes: Seq<u8>, low: nat, count: nat)
    requires
        low <= count <= bytes.len(),
    ensures
        partial_value(bytes, ByteOrder::LittleEndian, count) as int % weight(low)
            == partial_value(bytes, ByteOrder::LittleEndian, low),
    decreases count - low,
{
    let order = ByteOrder::LittleEndian;
    if count == low {
        lemma_partial_value_bound(bytes, order, low);
        lemma_fitting_value(partial_value(bytes, order, low) as int, low);
    } else {
        let i = (count - 1) as nat;
        let above = (i - low) as nat;
        lemma_low_part_little_endian(bytes, low, i);
        lemma_weight_adds(low, above);
        lemma_weight_step(low);
        let multiple = weight(above) * bytes[i as int];
        assert(bytes[i as int] * weight(i) == weight(low) * multiple) by (nonlinear_arith)
            requires
                weight(i) == weight(low) * weight(above),
                multiple == weight(above) * bytes[i as int],
        ;
        lemma_mod_multiples_vanish(multiple, partial_value(bytes, order, i) as int, weight(low));
    }
}

/// In big-endian order, the first bytes are whole multiples of the weights
/// below them: the sum of the first `count` bytes is a multiple of `2^(8 low)`
/// where `low` bytes or more follow them.
pub proof fn lemma_high_part_big_endian(bytes: Seq<u8>, low: nat, count: nat)
    requires
        count + low <= bytes.len(),
    ensures
        partial_value(bytes, ByteOrder::BigEndian, count) as int % weight(low) == 0,
    decreases count,
{
    let order = ByteOrder::BigEndian;
    lemma_weight_step(low);
    if count == 0 {
        lemma_small_mod(0, weight(low) as nat);
    } else {
        let i = (count - 1) as nat;
        let k = (bytes.len() - 1 - i) as nat;
        let above = (k - low) as nat;
        lemma_high_part_big_endian(bytes, low, i);
        lemma_weight_adds(low, above);
        let multiple = weight(above) * bytes[i as int];
        assert(bytes[i as int] * weight(k) == weight(low) * multiple) by (nonlinear_arith)
            requires
                weight(k) == weight(low) * weight(above),
                multiple == weight(above) * bytes[i as int],
        ;
        lemma_mod_multiples_vanish(multiple, partial_value(bytes, order, i) as int, weight(low));
    }
}

/// In big-endian order, the bytes from index `from` up to `count` add less
/// than the weight above the first of them, and leave room for the rest.
pub proof fn lemma_low_part_big_endian(bytes: Seq<u8>, from: nat, count: nat)
    requires
        from <= count <= bytes.len(),
    ensures
        partial_value(bytes, ByteOrder::BigEndian, from) <= partial_value(
            bytes,
            ByteOrder::BigEndian,
            count,
        ),
        partial_value(bytes, ByteOrder::BigEndian, count) - partial_value(
            bytes,
            ByteOrder::BigEndian,
            from,
        ) + weight((bytes.len() - count) as nat) <= weight((bytes.len() - from) as nat),
    decreases count - from,
{
    if from < count {
        let i = (count - 1) as nat;
        let k = (bytes.len() - 1 - i) as nat;
        lemma_low_part_big_endian(bytes, from, i);
        lemma_weight_step(k);
        assert(0 <= bytes[i as int] * weight(k) <= 255 * weight(k)) by (nonlinear_arith)
            requires
                0 <= bytes[i as int] <= 255,
                weight(k) > 0,
        ;
    }
}

/// The value of a byte sequence, modulo `2^(8 low)`, is the sum of its `low`
/// bytes of least significance: in little-endian order its first `low` bytes,
/// in big-endian order all but its first `n - low`.
pub proof fn lemma_low_part(bytes: Seq<u8>, order: ByteOrder, low: nat)
    requires
        low <= bytes.len(),
    ensures
        unsigned_value(bytes, order) as int % weight(low) == match order {
            ByteOrder::LittleEndian => partial_value(bytes, order, low) as int,
            ByteOrder::BigEndian => unsigned_value(bytes, order) - partial_value(
                bytes,
                order,
                (bytes.len() - low) as nat,
            ),
        },
{
    match order {
        ByteOrder::LittleEndian => {
            lemma_low_part_little_endian(bytes, low, bytes.len());
        },
        ByteOrder::BigEndian => {
            let n = bytes.len();
            let high = partial_value(bytes, order, (n - low) as nat) as int;
            let rest = unsigned_value(bytes, order) - high;
            lemma_weight_step(low);
            lemma_high_part_big_endian(bytes, low, (n - low) as nat);
            lemma_low_part_big_endian(bytes, (n - low) as nat, n);
            lemma_fundamental_div_mod(high, weight(low));
            assert(unsigned_value(bytes, order) == (high / weight(low)) * weight(low) + rest)
                by (nonlinear_arith)
                requires
                    high == weight(low) * (high / weight(low)),
                    rest == unsigned_value(bytes, order) - high,
            ;
            lemma_fundamental_div_mod_converse(
                unsigned_value(bytes, order) as int,
                weight(low),
                high / weight(low),
                rest,
            );
        },
    }
}

/// Each byte of a sequence is the byte of the sequence's value at the
/// significance that the order gives it.
pub proof fn lemma_byte_of_value(bytes: Seq<u8>, order: ByteOrder, i: int)
    requires
        0 <= i < bytes.len(),
    ensures
        byte_at(
            unsigned_value(bytes, order) as int,
            shift_index(i, order, bytes.len() as int) as nat,
        ) == bytes[i],
{
    let value = unsigned_value(bytes, order) as int;
    let k = shift_index(i, order, bytes.len() as int) as nat;
    lemma_low_bytes_step(value, k);
    lemma_low_part(bytes, order, k);
    lemma_low_part(bytes, order, k + 1);
    lemma_weight_step(k);
    assert(byte_at(value, k) * weight(k) == bytes[i] * weight(k));
    assert(byte_at(value, k) == bytes[i]) by (nonlinear_arith)
        requires
            byte_at(value, k) * weight(k) == bytes[i] * weight(k),
            weight(k) > 0,
    ;
}

} // verus!
