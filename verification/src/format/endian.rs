//! Little-endian decoding of the 32-bit length field.

use byteorder::{ByteOrder, LittleEndian};
use vstd::prelude::*;

verus! {

/// The value of four bytes read as an unsigned little-endian integer:
/// the first byte is the least significant.
pub open spec fn le_u32(b0: u8, b1: u8, b2: u8, b3: u8) -> int {
    b0 as int + 0x100 * (b1 as int) + 0x1_0000 * (b2 as int) + 0x100_0000 * (b3 as int)
}

/// The little-endian value of the four bytes of `data` that start at `at`.
pub open spec fn le_u32_at(data: Seq<u8>, at: int) -> int {
    le_u32(data[at], data[at + 1], data[at + 2], data[at + 3])
}

/// The four bytes that spell `value` in little-endian order.
pub open spec fn le_bytes(value: nat) -> Seq<u8> {
    seq![
        (value % 0x100) as u8,
        (value / 0x100 % 0x100) as u8,
        (value / 0x1_0000 % 0x100) as u8,
        (value / 0x100_0000 % 0x100) as u8,
    ]
}

/// Writing a 32-bit value and reading the four bytes back gives the value.
pub proof fn lemma_le_bytes_read_back(value: nat)
    requires
        value <= u32::MAX,
    ensures
        le_bytes(value).len() == 4,
        le_u32_at(le_bytes(value), 0) == value,
{
}

/// Four bytes never decode to a value outside the range of `u32`.
pub proof fn lemma_le_u32_range(b0: u8, b1: u8, b2: u8, b3: u8)
    ensures
        0 <= le_u32(b0, b1, b2, b3) <= u32::MAX,
{
}

/// Decodes the first four bytes of `buf` with byteorder's
/// `<LittleEndian as ByteOrder>::read_u32`.
///
/// Trusted: the call is taken to return the little-endian value of
/// `buf[0..4]`, as byteorder documents, and to panic only when `buf` holds
/// fewer than four bytes, which the precondition rules out.
#[verifier::external_body]
pub(crate) fn read_u32_le(buf: &[u8]) -> (value: u32)
    requires
        buf@.len() >= 4,
    ensures
        value as int == le_u32_at(buf@, 0),
{
    LittleEndian::read_u32(buf)
}

} // verus!
