//! Little-endian views of byte buffers: spec-level formulas for the 16- and
//! 32-bit fields of the bitmap container, and the executable readers and
//! writers for them.

use vstd::prelude::*;

verus! {

/// The unsigned value of the two bytes at `i`, least significant first.
pub open spec fn le16_at(b: Seq<u8>, i: int) -> int {
    b[i] + 0x100 * b[i + 1]
}

/// The unsigned value of the four bytes at `i`, least significant first.
pub open spec fn le32_at(b: Seq<u8>, i: int) -> int {
    b[i] + 0x100 * b[i + 1] + 0x1_0000 * b[i + 2] + 0x100_0000 * b[i + 3]
}

/// The two-byte little-endian encoding of `v`.
pub open spec fn le16_bytes(v: u16) -> Seq<u8> {
    seq![(v % 0x100) as u8, (v / 0x100) as u8]
}

/// The four-byte little-endian encoding of `v`.
pub open spec fn le32_bytes(v: u32) -> Seq<u8> {
    seq![
        (v % 0x100) as u8,
        ((v / 0x100) % 0x100) as u8,
        ((v / 0x1_0000) % 0x100) as u8,
        ((v / 0x100_0000) % 0x100) as u8,
    ]
}

/// Relies on byteorder's `LittleEndian::read_u16`: the two bytes are read
/// least significant first.
#[verifier::external_body]
pub fn le_read_u16(data: &Vec<u8>, pos: usize) -> (r: u16)
    requires
        pos + 2 <= data@.len(),
    ensures
        r == le16_at(data@, pos as int),
{
    <byteorder::LittleEndian as byteorder::ByteOrder>::read_u16(&data[pos..pos + 2])
}

/// Relies on byteorder's `LittleEndian::read_u32`: the four bytes are read
/// least significant first.
#[verifier::external_body]
pub fn le_read_u32(data: &Vec<u8>, pos: usize) -> (r: u32)
    requires
        pos + 4 <= data@.len(),
    ensures
        r == le32_at(data@, pos as int),
{
    <byteorder::LittleEndian as byteorder::ByteOrder>::read_u32(&data[pos..pos + 4])
}

/// Relies on byteorder's `LittleEndian::write_u16`: the value is written
/// least significant byte first.
#[verifier::external_body]
pub fn le_u16_vec(v: u16) -> (r: Vec<u8>)
    ensures
        r@ == le16_bytes(v),
{
    let mut buf = [0u8; 2];
    <byteorder::LittleEndian as byteorder::ByteOrder>::write_u16(&mut buf, v);
    buf.to_vec()
}

/// Relies on byteorder's `LittleEndian::write_u32`: the value is written
/// least significant byte first.
#[verifier::external_body]
pub fn le_u32_vec(v: u32) -> (r: Vec<u8>)
    ensures
        r@ == le32_bytes(v),
{
    let mut buf = [0u8; 4];
    <byteorder::LittleEndian as byteorder::ByteOrder>::write_u32(&mut buf, v);
    buf.to_vec()
}

/// Reading the two-byte encoding of a value gives the value back.
pub proof fn lemma_le16_round_trip(v: u16)
    ensures
        le16_at(le16_bytes(v), 0) == v,
{
}

/// Reading the four-byte encoding of a value gives the value back.
pub proof fn lemma_le32_round_trip(v: u32)
    ensures
        le32_at(le32_bytes(v), 0) == v,
{
}

} // verus!
