//! The marker, length and combinator primitives on hand-written byte
//! sequences.

use arrow_stream_framing::model::Fail;
use arrow_stream_framing::parser::{
    continuation_parser, end_of_stream_parser, finish, maybe_parser, u32_parser,
};

#[test]
fn u32_parser_decodes_little_endian() {
    let buf = [0x78u8, 0x56, 0x34, 0x12, 0xAA];
    let (rest, v) = u32_parser(&buf).unwrap();
    assert_eq!(v, 0x12345678);
    assert_eq!(rest, &[0xAA]);
}

#[test]
fn u32_parser_reports_truncation() {
    let buf = [1u8, 2, 3];
    assert_eq!(u32_parser(&buf).unwrap_err(), Fail::Truncated);
}

#[test]
fn continuation_parser_consumes_marker() {
    let buf = [255u8, 255, 255, 255, 9];
    let (rest, _) = continuation_parser(&buf).unwrap();
    assert_eq!(rest, &[9]);
}

#[test]
fn continuation_parser_reports_mismatch() {
    let buf = [255u8, 255, 0, 255];
    assert_eq!(continuation_parser(&buf).unwrap_err(), Fail::MarkerMismatch);
}

#[test]
fn continuation_parser_reports_truncation() {
    let buf = [255u8, 255, 255];
    assert_eq!(continuation_parser(&buf).unwrap_err(), Fail::Truncated);
}

#[test]
fn end_of_stream_parser_consumes_terminator() {
    let buf = [255u8, 255, 255, 255, 0, 0, 0, 0, 7];
    let (rest, _) = end_of_stream_parser(&buf).unwrap();
    assert_eq!(rest, &[7]);
}

#[test]
fn end_of_stream_parser_reports_mismatch() {
    let buf = [255u8, 255, 255, 255, 0, 0, 0, 1];
    assert_eq!(end_of_stream_parser(&buf).unwrap_err(), Fail::MarkerMismatch);
}

#[test]
fn end_of_stream_parser_reports_truncation() {
    let buf = [255u8, 255, 255, 255, 0, 0, 0];
    assert_eq!(end_of_stream_parser(&buf).unwrap_err(), Fail::Truncated);
}

#[test]
fn maybe_parser_consumes_on_success() {
    let buf = [255u8, 255, 255, 255, 0, 0, 0, 0, 7];
    let (rest, found) = maybe_parser(end_of_stream_parser, &buf);
    assert!(found.is_some());
    assert_eq!(rest, &[7]);
}

#[test]
fn maybe_parser_backtracks_on_failure() {
    let buf = [1u8, 2, 3];
    let (rest, found) = maybe_parser(end_of_stream_parser, &buf);
    assert!(found.is_none());
    assert_eq!(rest, &[1, 2, 3]);
}

#[test]
fn finish_accepts_full_consumption() {
    let buf = [255u8, 255, 255, 255];
    assert!(finish(continuation_parser, &buf).is_ok());
}

#[test]
fn finish_rejects_leftover_bytes() {
    let buf = [255u8, 255, 255, 255, 0];
    assert_eq!(finish(continuation_parser, &buf).unwrap_err(), Fail::TrailingBytes);
}

#[test]
fn finish_surfaces_inner_failure() {
    let buf = [0u8, 255, 255, 255];
    assert_eq!(finish(continuation_parser, &buf).unwrap_err(), Fail::MarkerMismatch);
}
