//! Little-endian integer fields read out of byte buffers.
use vstd::prelude::*;
use byteorder::ByteOrder;
use vstd::slice::slice_subrange;

verus! {

/// The `u16` stored little-endian in the first two bytes of `b`.
pub open spec fn le_u16(b: Seq<u8>) -> u16 {
    (b[0] as int + b[1] as int * 256) as u16
}

/// The `u32` stored little-endian in the first four bytes of `b`.
pub open spec fn le_u32(b: Seq<u8>) -> u32 {
    (b[0] as int + b[1] as int * 256 + b[2] as int * 65536 + b[3] as int * 16777216) as u32
}

/// The `u32` stored little-endian at offset `pos` of `b`.
pub open spec fn u32_at(b: Seq<u8>, pos: int) -> u32 {
    le_u32(b.subrange(pos, pos + 4))
}

/// The four little-endian bytes of `x`.
pub open spec fn le_bytes_u32(x: u32) -> Seq<u8> {
    seq![
        (x % 256) as u8,
        ((x / 256) % 256) as u8,
        ((x / 65536) % 256) as u8,
        ((x / 16777216) % 256) as u8,
    ]
}

/// Reading back the bytes of `x` gives `x`.
pub proof fn lemma_le_u32_round_trip(x: u32)
    ensures
        le_u32(le_bytes_u32(x)) == x,
{
    let b = le_bytes_u32(x);
    let xi = x as int;
    assert(xi == xi % 256 + (xi / 256) % 256 * 256 + (xi / 65536) % 256 * 65536 + (xi / 16777216)
        % 256 * 16777216) by (nonlinear_arith)
        requires
            0 <= xi < 0x1_0000_0000,
    ;
}

/// Relies on byteorder's `LittleEndian::read_u16`, which decodes `buf[..2]`
/// with `u16::from_le_bytes` and panics on a shorter buffer.
#[verifier::external_body]
fn read_u16_le(buf: &[u8]) -> (r: u16)
    requires
        buf@.len() >= 2,
    ensures
        r == le_u16(buf@),
{
    byteorder::LittleEndian::read_u16(buf)
}

/// Relies on byteorder's `LittleEndian::read_u32`, which decodes `buf[..4]`
/// with `u32::from_le_bytes` and panics on a shorter buffer.
#[verifier::external_body]
fn read_u32_le(buf: &[u8]) -> (r: u32)
    requires
        buf@.len() >= 4,
    ensures
        r == le_u32(buf@),
{
    byteorder::LittleEndian::read_u32(buf)
}

/// The `u16` stored little-endian at offset `pos` of `data`.
pub fn u16_at_pos(data: &[u8], pos: usize) -> (r: u16)
    requires
        pos + 2 <= data@.len(),
    ensures
        r == le_u16(data@.subrange(pos as int, pos + 2)),
{
    // `data.len()` is a `usize`, so `pos + k` below cannot overflow.
    let _len = data.len();
    let s = slice_subrange(data, pos, pos + 2);
    read_u16_le(s)
}

/// The `u32` stored little-endian at offset `pos` of `data`.
pub fn u32_at_pos(data: &[u8], pos: usize) -> (r: u32)
    requires
        pos + 4 <= data@.len(),
    ensures
        r == u32_at(data@, pos as int),
{
    // `data.len()` is a `usize`, so `pos + k` below cannot overflow.
    let _len = data.len();
    let s = slice_subrange(data, pos, pos + 4);
    read_u32_le(s)
}

} // verus!
