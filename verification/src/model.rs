use vstd::prelude::*;

verus! {

/// The ways a parse can fail. Every failure aborts the whole decode: no
/// partial result is ever handed back.
#[derive(Clone, Copy, Debug, PartialEq, Eq, Structural)]
pub enum Fail {
    /// Fewer bytes remain than a fixed-size read, or a declared region, requires.
    Truncated,
    /// Bytes are present but differ from the expected sentinel sequence.
    MarkerMismatch,
    /// The metadata decoder rejects the metadata bytes.
    MalformedMetadata,
    /// The top-level parse succeeded but did not consume the entire input.
    TrailingBytes,
}

/// The 4-byte sentinel that must prefix every framed message.
pub open spec fn continuation_marker() -> Seq<u8> {
    seq![255u8, 255u8, 255u8, 255u8]
}

/// The optional 8-byte sentinel that may close the stream.
pub open spec fn end_of_stream_marker() -> Seq<u8> {
    seq![255u8, 255u8, 255u8, 255u8, 0u8, 0u8, 0u8, 0u8]
}

/// The unsigned 16-bit value stored little-endian in two bytes.
pub open spec fn u16_from_le(s: Seq<u8>) -> u16
    recommends
        s.len() == 2,
{
    (s[0] + s[1] * 0x100) as u16
}

/// The unsigned 32-bit value stored little-endian in four bytes.
pub open spec fn u32_from_le(s: Seq<u8>) -> u32
    recommends
        s.len() == 4,
{
    (s[0] + s[1] * 0x100 + s[2] * 0x10000 + s[3] * 0x1000000) as u32
}

/// The signed 32-bit value stored little-endian in four bytes.
pub open spec fn i32_from_le(s: Seq<u8>) -> i32
    recommends
        s.len() == 4,
{
    u32_from_le(s) as i32
}

/// The unsigned 64-bit value stored little-endian in eight bytes.
pub open spec fn u64_from_le(s: Seq<u8>) -> u64
    recommends
        s.len() == 8,
{
    (s[0] + s[1] * 0x100 + s[2] * 0x10000 + s[3] * 0x1000000 + s[4] * 0x100000000 + s[5]
        * 0x10000000000 + s[6] * 0x1000000000000 + s[7] * 0x100000000000000) as u64
}

/// The signed 64-bit value stored little-endian in eight bytes.
pub open spec fn i64_from_le(s: Seq<u8>) -> i64
    recommends
        s.len() == 8,
{
    u64_from_le(s) as i64
}

/// The four little-endian bytes of an unsigned 32-bit value.
pub open spec fn u32_to_le(n: u32) -> Seq<u8> {
    seq![
        (n % 0x100) as u8,
        ((n / 0x100) % 0x100) as u8,
        ((n / 0x10000) % 0x100) as u8,
        ((n / 0x1000000) % 0x100) as u8,
    ]
}

/// Reading back the four little-endian bytes of a 32-bit value gives the
/// value itself.
pub proof fn lemma_u32_le_round_trip(n: u32)
    ensures
        u32_to_le(n).len() == 4,
        u32_from_le(u32_to_le(n)) == n,
{
    assert(n % 0x100 + ((n / 0x100) % 0x100) * 0x100 + ((n / 0x10000) % 0x100) * 0x10000 + ((n
        / 0x1000000) % 0x100) * 0x1000000 == n) by (nonlinear_arith);
}

} // verus!
