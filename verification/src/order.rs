//! The byte-order rule: which byte of an encoding holds which part of a value.

use vstd::prelude::*;

verus! {

/// How the bytes of a multi-byte value follow each other.
#[derive(Clone, Copy, Debug, PartialEq, Eq, Structural)]
pub enum ByteOrder {
    /// The most significant byte comes first.
    BigEndian,
    /// The least significant byte comes first.
    LittleEndian,
}

/// The significance of byte `i` in an encoding of `n` bytes: 0 for the least
/// significant byte, `n - 1` for the most significant one.
pub open spec fn shift_index(i: int, order: ByteOrder, n: int) -> int {
    match order {
        ByteOrder::BigEndian => n - 1 - i,
        ByteOrder::LittleEndian => i,
    }
}

/// Computes `shift_index` for a byte inside an encoding.
pub fn significance(i: usize, order: ByteOrder, n: usize) -> (k: usize)
    requires
        i < n,
    ensures
        k == shift_index(i as int, order, n as int),
        k < n,
{
    match order {
        ByteOrder::BigEndian => n - 1 - i,
        ByteOrder::LittleEndian => i,
    }
}

} // verus!
