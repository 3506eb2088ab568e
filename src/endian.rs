//! Little-endian integer serialization into byte buffers.
use vstd::prelude::*;

verus! {

/// The low byte of a 16-bit value.
pub open spec fn low_byte(value: u16) -> u8 {
    (value % 256) as u8
}

/// The high byte of a 16-bit value.
pub open spec fn high_byte(value: u16) -> u8 {
    (value / 256) as u8
}

/// The two bytes of a 16-bit value, least significant first.
pub open spec fn u16_le_bytes(value: u16) -> Seq<u8> {
    seq![low_byte(value), high_byte(value)]
}

/// The 16-bit value whose little-endian encoding is `low`, `high`.
pub open spec fn u16_from_le(low: u8, high: u8) -> u16 {
    (low + 256 * high) as u16
}

/// Writes one byte at `offset`.
pub fn write_u8(buffer: &mut [u8], offset: usize, value: u8)
    requires
        offset < old(buffer)@.len(),
    ensures
        final(buffer)@ == old(buffer)@.update(offset as int, value),
{
    buffer[offset] = value;
}

/// Writes a 16-bit value at `offset`, least significant byte first.
pub fn write_u16_le(buffer: &mut [u8], offset: usize, value: u16)
    requires
        offset + 2 <= old(buffer)@.len(),
    ensures
        final(buffer)@ == old(buffer)@.update(offset as int, low_byte(value)).update(
            offset + 1,
            high_byte(value),
        ),
{
    buffer[offset] = (value % 256) as u8;
    buffer[offset + 1] = (value / 256) as u8;
}

/// Decoding the two bytes of a 16-bit value gives the value back.
pub proof fn lemma_u16_le_round_trip(value: u16)
    ensures
        u16_from_le(low_byte(value), high_byte(value)) == value,
{
}

} // verus!
