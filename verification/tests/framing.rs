//! End-to-end framing scenarios over real FlatBuffers metadata, built and
//! read back with the same `fbs` runtime the library decodes through.

use arrow_stream_framing::model::Fail;
use arrow_stream_framing::parser::{message_parser, parse_single_batch_stream};

/// Vtable byte offsets of the message header table.
const HEADER_TYPE_SLOT: u16 = 6;
const HEADER_SLOT: u16 = 8;
const BODY_LENGTH_SLOT: u16 = 10;

/// Header-type discriminants of the two supported message kinds.
const HEADER_SCHEMA: u8 = 1;
const HEADER_RECORD_BATCH: u8 = 3;

/// Vtable byte offset of the field list inside a schema header.
const SCHEMA_FIELDS_SLOT: u16 = 6;

/// Vtable byte offset of the row count inside a record-batch header.
const BATCH_LENGTH_SLOT: u16 = 4;

/// A bare table position, enough to follow offsets with the `fbs` runtime.
#[derive(Clone, Copy)]
struct RawTable {
    loc: usize,
}

impl<'a> fbs::Follow<'a> for RawTable {
    type Inner = RawTable;
    fn follow(_buf: &'a [u8], loc: usize) -> Result<Self::Inner, fbs::Error> {
        Ok(RawTable { loc })
    }
}

/// Pad a metadata block with trailing zeros to a multiple of eight bytes,
/// as the stream layout does, so that the runtime's scalar reads stay
/// eight-byte aligned wherever the next frame lands.
fn pad8(meta: &[u8]) -> Vec<u8> {
    let mut v = meta.to_vec();
    while v.len() % 8 != 0 {
        v.push(0);
    }
    v
}

/// Metadata of a schema message declaring `n_fields` columns.
fn build_schema_meta(n_fields: usize, body_len: i64) -> Vec<u8> {
    let mut b = fbs::FlatBufferBuilder::new();
    let mut field_offsets = Vec::new();
    for _ in 0..n_fields {
        let start = b.start_table();
        field_offsets.push(b.end_table(start));
    }
    let fields = b.create_vector(&field_offsets);
    let start = b.start_table();
    b.push_slot_always(SCHEMA_FIELDS_SLOT, fields);
    let schema = b.end_table(start);
    let start = b.start_table();
    b.push_slot::<u8>(HEADER_TYPE_SLOT, HEADER_SCHEMA, 0);
    b.push_slot_always(HEADER_SLOT, schema);
    b.push_slot::<i64>(BODY_LENGTH_SLOT, body_len, 0);
    let message = b.end_table(start);
    b.finish_minimal(message);
    pad8(b.finished_data())
}

/// Metadata of a record-batch message declaring `n_rows` rows.
fn build_batch_meta(n_rows: i64, body_len: i64) -> Vec<u8> {
    let mut b = fbs::FlatBufferBuilder::new();
    let start = b.start_table();
    b.push_slot::<i64>(BATCH_LENGTH_SLOT, n_rows, 0);
    let batch = b.end_table(start);
    let start = b.start_table();
    b.push_slot::<u8>(HEADER_TYPE_SLOT, HEADER_RECORD_BATCH, 0);
    b.push_slot_always(HEADER_SLOT, batch);
    b.push_slot::<i64>(BODY_LENGTH_SLOT, body_len, 0);
    let message = b.end_table(start);
    b.finish_minimal(message);
    pad8(b.finished_data())
}

/// One frame: continuation marker, metadata length, metadata, body.
fn frame(meta: &[u8], body: &[u8]) -> Vec<u8> {
    let mut v = vec![255u8, 255, 255, 255];
    v.extend_from_slice(&(meta.len() as u32).to_le_bytes());
    v.extend_from_slice(meta);
    v.extend_from_slice(body);
    v
}

/// A valid two-message stream: a 3-column schema, then a 7-row batch with a
/// 16-byte body.
fn build_stream() -> Vec<u8> {
    let schema_meta = build_schema_meta(3, 0);
    let batch_meta = build_batch_meta(7, 16);
    let mut v = frame(&schema_meta, &[]);
    v.extend_from_slice(&frame(&batch_meta, &[0xABu8; 16]));
    v
}

fn header_type(meta: &[u8], loc: usize) -> u8 {
    let table = fbs::Table::new(meta, loc);
    table.get::<u8>(HEADER_TYPE_SLOT, Some(0)).unwrap().unwrap()
}

fn header_table_loc(meta: &[u8], loc: usize) -> usize {
    let table = fbs::Table::new(meta, loc);
    let raw = table
        .get::<fbs::ForwardsUOffset<RawTable>>(HEADER_SLOT, None)
        .unwrap()
        .unwrap();
    raw.loc
}

fn schema_field_count(meta: &[u8], loc: usize) -> usize {
    let header_loc = header_table_loc(meta, loc);
    let table = fbs::Table::new(meta, header_loc);
    let fields = table
        .get::<fbs::ForwardsUOffset<fbs::Vector<fbs::ForwardsUOffset<RawTable>>>>(
            SCHEMA_FIELDS_SLOT,
            None,
        )
        .unwrap()
        .unwrap();
    fields.len().unwrap()
}

fn batch_row_count(meta: &[u8], loc: usize) -> i64 {
    let header_loc = header_table_loc(meta, loc);
    let table = fbs::Table::new(meta, header_loc);
    table.get::<i64>(BATCH_LENGTH_SLOT, Some(0)).unwrap().unwrap()
}

#[test]
fn valid_stream_yields_schema_then_batch() {
    let buf = build_stream();
    let stream = parse_single_batch_stream(&buf).unwrap();
    let schema = stream.schema_message;
    let batch = stream.batch_message;
    assert_eq!(header_type(schema.meta, schema.loc), HEADER_SCHEMA);
    assert_eq!(header_type(batch.meta, batch.loc), HEADER_RECORD_BATCH);
    assert_eq!(schema_field_count(schema.meta, schema.loc), 3);
    assert_eq!(batch_row_count(batch.meta, batch.loc), 7);
}

#[test]
fn message_parser_skips_declared_body() {
    let batch_meta = build_batch_meta(7, 16);
    let mut buf = frame(&batch_meta, &[0xCDu8; 16]);
    buf.push(0x55);
    let (rest, message) = message_parser(&buf).unwrap();
    assert_eq!(rest, &[0x55]);
    assert_eq!(message.meta, &batch_meta[..]);
}

#[test]
fn terminator_is_optional() {
    let bare = build_stream();
    let mut terminated = bare.clone();
    terminated.extend_from_slice(&[255, 255, 255, 255, 0, 0, 0, 0]);
    let from_bare = parse_single_batch_stream(&bare).unwrap();
    let from_terminated = parse_single_batch_stream(&terminated).unwrap();
    assert_eq!(from_bare.schema_message.meta, from_terminated.schema_message.meta);
    assert_eq!(from_bare.batch_message.meta, from_terminated.batch_message.meta);
}

#[test]
fn trailing_byte_is_rejected() {
    let mut buf = build_stream();
    buf.push(0x00);
    assert_eq!(parse_single_batch_stream(&buf).unwrap_err(), Fail::TrailingBytes);
}

#[test]
fn trailing_bytes_after_terminator_are_rejected() {
    let mut buf = build_stream();
    buf.extend_from_slice(&[255, 255, 255, 255, 0, 0, 0, 0, 1]);
    assert_eq!(parse_single_batch_stream(&buf).unwrap_err(), Fail::TrailingBytes);
}

#[test]
fn corrupted_batch_marker_fails() {
    let schema_meta = build_schema_meta(3, 0);
    let first = frame(&schema_meta, &[]);
    let mut buf = build_stream();
    for i in 0..4 {
        buf[first.len() + i] = 0x00;
    }
    assert_eq!(parse_single_batch_stream(&buf).unwrap_err(), Fail::MarkerMismatch);
}

#[test]
fn any_first_marker_byte_flip_fails() {
    let buf = build_stream();
    for i in 0..4 {
        let mut corrupted = buf.clone();
        corrupted[i] = 0x00;
        assert_eq!(
            parse_single_batch_stream(&corrupted).unwrap_err(),
            Fail::MarkerMismatch
        );
    }
}

#[test]
fn every_truncation_fails_with_truncated() {
    let buf = build_stream();
    for k in 0..buf.len() {
        assert_eq!(
            parse_single_batch_stream(&buf[..k]).unwrap_err(),
            Fail::Truncated
        );
    }
}

#[test]
fn parsing_twice_gives_identical_results() {
    let buf = build_stream();
    let first = parse_single_batch_stream(&buf).unwrap();
    let second = parse_single_batch_stream(&buf).unwrap();
    assert_eq!(first.schema_message.meta, second.schema_message.meta);
    assert_eq!(first.schema_message.loc, second.schema_message.loc);
    assert_eq!(first.batch_message.meta, second.batch_message.meta);
    assert_eq!(first.batch_message.loc, second.batch_message.loc);
}

#[test]
fn undersized_metadata_is_malformed() {
    let buf = frame(&[0u8, 0, 0], &[]);
    assert_eq!(message_parser(&buf).unwrap_err(), Fail::MalformedMetadata);
}

#[test]
fn root_offset_outside_metadata_is_malformed() {
    let buf = frame(&[16u8, 0, 0, 0], &[]);
    assert_eq!(message_parser(&buf).unwrap_err(), Fail::MalformedMetadata);
}

#[test]
fn short_body_is_truncated() {
    let batch_meta = build_batch_meta(7, 16);
    let buf = frame(&batch_meta, &[0u8; 15]);
    assert_eq!(message_parser(&buf).unwrap_err(), Fail::Truncated);
}
