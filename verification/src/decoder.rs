//! The boundary to the external metadata decoder.
//!
//! A framed message's metadata block is a FlatBuffers buffer whose root table
//! carries, among other fields, the declared length of the message body. The
//! `fbs` runtime does the actual decoding; this module wraps the two calls the
//! framing parser depends on and states their outcome over the raw bytes, so
//! that everything built on top of them is verified.

use crate::model::{i32_from_le, i64_from_le, u16_from_le, u32_from_le};
use vstd::prelude::*;
use vstd::slice::slice_index_get;

verus! {

/// Byte offset of the body-length slot in the root table's vtable: the
/// fourth field of the message header, behind the two vtable size entries.
pub const BODY_LENGTH_SLOT: u16 = 10;

/// Where the root table of a metadata buffer sits: the 32-bit little-endian
/// offset stored in its first four bytes.
pub open spec fn meta_root_loc(meta: Seq<u8>) -> usize
    recommends
        meta.len() >= 4,
{
    u32_from_le(meta.subrange(0, 4)) as usize
}

/// The value `fbs::Table::get::<i64>` reads for the field at vtable byte
/// offset `slot` of the table at `loc`, restated byte for byte: the table
/// starts with a 32-bit offset pointing back to its vtable; the vtable's
/// first 16-bit entry is its own size; an absent or zero slot yields the
/// default; otherwise the slot holds the field's offset from the table start,
/// where the 64-bit little-endian value lies. `None` is an access that falls
/// outside the buffer, which the decoder reports as an error.
#[verifier::opaque]
pub open spec fn spec_i64_field(bytes: Seq<u8>, loc: int, slot: int, default: i64) -> Option<
    i64,
> {
    let len = bytes.len() as int;
    if loc + 4 > len {
        None
    } else {
        let v = loc - i32_from_le(bytes.subrange(loc, loc + 4));
        if v + 2 > len {
            None
        } else {
            let vtable_bytes = u16_from_le(bytes.subrange(v, v + 2)) as int;
            if slot >= vtable_bytes {
                Some(default)
            } else if v + slot + 2 > len {
                None
            } else {
                let field_off = u16_from_le(bytes.subrange(v + slot, v + slot + 2)) as int;
                if field_off == 0 {
                    Some(default)
                } else if loc + field_off + 8 > len {
                    None
                } else {
                    Some(i64_from_le(bytes.subrange(loc + field_off, loc + field_off + 8)))
                }
            }
        }
    }
}

/// The region the vtable walk touches stays within machine bounds: the
/// back-offset read is inside the buffer, the table position is moderate
/// enough that no address computation wraps, and the vtable position it
/// yields is non-negative and moderate as well. Outside these bounds the
/// decoder is not consulted and the metadata is treated as rejected.
#[verifier::opaque]
pub open spec fn i64_read_safe(bytes: Seq<u8>, loc: int) -> bool {
    &&& 0 <= loc <= 0x7FFF0000
    &&& loc + 4 <= bytes.len()
    &&& {
        let v = loc - i32_from_le(bytes.subrange(loc, loc + 4));
        0 <= v <= 0x7FFFFFFF
    }
}

/// Relies on `fbs::Table::get_root`: it reads the 32-bit little-endian root
/// offset stored in the first four bytes of the buffer and places the root
/// table there, rejecting only a buffer shorter than four bytes. Like the
/// field reads, the offset read is a raw pointer load that expects its
/// natural alignment.
#[verifier::external_body]
fn table_root(bytes: &[u8]) -> (r: Option<usize>)
    ensures
        r is Some <==> bytes@.len() >= 4,
        r matches Some(loc) ==> loc == meta_root_loc(bytes@),
{
    match fbs::Table::<&[u8]>::get_root(bytes) {
        Ok(t) => Some(t.loc),
        Err(_) => None,
    }
}

/// Relies on `fbs::Table::get::<i64>`: it resolves the field at vtable byte
/// offset `slot` of the table at `loc` and reads its 64-bit little-endian
/// value, falling back to the default where the slot is absent or zero and
/// reporting an error where an access would fall outside the buffer;
/// `spec_i64_field` restates that walk. The bounds asked for up front keep
/// the walk's address arithmetic from wrapping. The runtime reads scalars
/// through raw pointer loads, so it expects the buffer to place them at
/// their natural alignment, as the stream layout's eight-byte padding
/// provides.
#[verifier::external_body]
fn table_i64(bytes: &[u8], loc: usize, slot: u16, default: i64) -> (r: Option<i64>)
    requires
        i64_read_safe(bytes@, loc as int),
    ensures
        r == spec_i64_field(bytes@, loc as int, slot as int, default),
{
    let table = fbs::Table::new(bytes, loc);
    match table.get::<i64>(slot, Some(default)) {
        Ok(Some(v)) => Some(v),
        _ => None,
    }
}

/// Whether the external decoder accepts the metadata bytes: the root offset
/// is readable, the vtable walk stays within bounds, and the body-length
/// field itself is readable.
pub open spec fn meta_decodes(meta: Seq<u8>) -> bool {
    &&& meta.len() >= 4
    &&& i64_read_safe(meta, meta_root_loc(meta) as int)
    &&& spec_i64_field(meta, meta_root_loc(meta) as int, BODY_LENGTH_SLOT as int, 0) is Some
}

/// The body length the decoded header declares.
pub open spec fn meta_body_len(meta: Seq<u8>) -> i64
    recommends
        meta_decodes(meta),
{
    spec_i64_field(meta, meta_root_loc(meta) as int, BODY_LENGTH_SLOT as int, 0).unwrap()
}

/// The signed 32-bit little-endian value at `loc`.
fn read_i32_le_at(s: &[u8], loc: usize) -> (r: i32)
    requires
        loc + 4 <= s@.len(),
    ensures
        r == i32_from_le(s@.subrange(loc as int, loc as int + 4)),
{
    let n: usize = s.len();
    proof {
        assert(loc + 4 <= n);
    }
    let b0: u32 = *slice_index_get(s, loc) as u32;
    let b1: u32 = *slice_index_get(s, loc + 1) as u32;
    let b2: u32 = *slice_index_get(s, loc + 2) as u32;
    let b3: u32 = *slice_index_get(s, loc + 3) as u32;
    let v: u32 = b0 + b1 * 0x100 + b2 * 0x10000 + b3 * 0x1000000;
    proof {
        let sub = s@.subrange(loc as int, loc as int + 4);
        assert(sub[0] == s@[loc as int]);
        assert(sub[1] == s@[loc as int + 1]);
        assert(sub[2] == s@[loc as int + 2]);
        assert(sub[3] == s@[loc as int + 3]);
    }
    v as i32
}

/// Hand the metadata bytes to the external decoder: locate the root header
/// table and read the body length it declares. `None` is the decoder
/// rejecting the bytes.
pub fn decode_metadata(meta: &[u8]) -> (r: Option<(usize, i64)>)
    ensures
        r is Some <==> meta_decodes(meta@),
        r matches Some((loc, body_len)) ==> loc == meta_root_loc(meta@) && body_len
            == meta_body_len(meta@),
{
    proof {
        reveal(spec_i64_field);
        reveal(i64_read_safe);
    }
    let loc: usize = match table_root(meta) {
        Some(l) => l,
        None => {
            return None;
        },
    };
    if loc > 0x7FFF0000 {
        return None;
    }
    if loc > meta.len() - 4 {
        return None;
    }
    let off: i32 = read_i32_le_at(meta, loc);
    let v: i64 = loc as i64 - off as i64;
    if v < 0 || v > 0x7FFFFFFF {
        return None;
    }
    match table_i64(meta, loc, BODY_LENGTH_SLOT, 0) {
        Some(b) => Some((loc, b)),
        None => None,
    }
}

} // verus!
