//! The framing parser: small byte-consuming functions and their composition
//! into a parser for exactly one schema-then-batch pair.
//!
//! Every function is a pure transformation from an input slice to a result;
//! on success a parser hands back the unconsumed remainder of the input
//! alongside the parsed value, and the composition short-circuits on the
//! first failure. Nothing is copied: every parsed value borrows from the
//! original input.

use crate::decoder::{decode_metadata, meta_body_len, meta_decodes, meta_root_loc};
use crate::model::{continuation_marker, end_of_stream_marker, u32_from_le, Fail};
use vstd::prelude::*;
use vstd::slice::{slice_index_get, slice_subrange};

verus! {

/// Witness that a continuation marker was consumed.
#[derive(Clone, Copy, Debug)]
pub struct Continuation;

/// Witness that the end-of-stream terminator was consumed.
#[derive(Clone, Copy, Debug)]
pub struct EndOfStream;

/// One framed message: the metadata block, borrowed from the input buffer,
/// and the position of the decoded root header table inside it. The body
/// region was accounted for by the parser but never inspected.
#[derive(Clone, Copy, Debug)]
pub struct Message<'a> {
    /// The metadata bytes of the message.
    pub meta: &'a [u8],
    /// Where the root header table sits inside `meta`.
    pub loc: usize,
}

impl<'a> Message<'a> {
    /// The metadata decodes, and `loc` is where its root table sits.
    pub open spec fn wf(self) -> bool {
        &&& meta_decodes(self.meta@)
        &&& self.loc == meta_root_loc(self.meta@)
    }
}

/// The successful outcome of the top-level parse: exactly two framed
/// messages, designated schema and batch, in that order.
#[derive(Clone, Copy, Debug)]
pub struct SingleBatchStream<'a> {
    /// The first framed message, expected to describe the schema.
    pub schema_message: Message<'a>,
    /// The second framed message, expected to describe the record batch.
    pub batch_message: Message<'a>,
}

/// What parsing one framed message at the head of `s` yields: on success,
/// the unconsumed remainder and the metadata bytes of the message.
pub open spec fn spec_parse_message(s: Seq<u8>) -> Result<(Seq<u8>, Seq<u8>), Fail> {
    if s.len() < 4 {
        Err(Fail::Truncated)
    } else if s.subrange(0, 4) != continuation_marker() {
        Err(Fail::MarkerMismatch)
    } else if s.len() < 8 {
        Err(Fail::Truncated)
    } else {
        let metadata_len = u32_from_le(s.subrange(4, 8)) as int;
        let rest = s.skip(8);
        if rest.len() < metadata_len {
            Err(Fail::Truncated)
        } else {
            let meta = rest.subrange(0, metadata_len);
            if !meta_decodes(meta) {
                Err(Fail::MalformedMetadata)
            } else {
                let body_len = meta_body_len(meta) as int;
                if body_len < 0 || rest.len() < metadata_len + body_len {
                    Err(Fail::Truncated)
                } else {
                    Ok((rest.skip(metadata_len + body_len), meta))
                }
            }
        }
    }
}

/// What parsing the whole stream yields: both messages' metadata, in order,
/// with the optional terminator consumed and discarded.
pub open spec fn spec_parse_stream(s: Seq<u8>) -> Result<(Seq<u8>, (Seq<u8>, Seq<u8>)), Fail> {
    match spec_parse_message(s) {
        Err(e) => Err(e),
        Ok((rest1, schema_meta)) => match spec_parse_message(rest1) {
            Err(e) => Err(e),
            Ok((rest2, batch_meta)) => {
                let rest3 = if rest2.len() >= 8 && rest2.subrange(0, 8) == end_of_stream_marker() {
                    rest2.skip(8)
                } else {
                    rest2
                };
                Ok((rest3, (schema_meta, batch_meta)))
            },
        },
    }
}

/// What the full-consumption wrapper around the stream parse yields.
pub open spec fn spec_parse_finished(s: Seq<u8>) -> Result<(Seq<u8>, Seq<u8>), Fail> {
    match spec_parse_stream(s) {
        Err(e) => Err(e),
        Ok((rest, pair)) => if rest.len() == 0 {
            Ok(pair)
        } else {
            Err(Fail::TrailingBytes)
        },
    }
}

/// Consume the 4-byte continuation marker, or fail without consuming:
/// `Truncated` where fewer than four bytes remain, `MarkerMismatch` where
/// the four bytes differ from the marker.
pub fn continuation_parser<'a>(input: &'a [u8]) -> (r: Result<(&'a [u8], Continuation), Fail>)
    ensures
        r matches Ok((rest, _c)) ==> input@.len() >= 4 && input@.subrange(0, 4)
            == continuation_marker() && rest@ == input@.skip(4),
        r matches Err(e) ==> (e == Fail::Truncated && input@.len() < 4) || (e
            == Fail::MarkerMismatch && input@.len() >= 4 && input@.subrange(0, 4)
            != continuation_marker()),
{
    if input.len() < 4 {
        return Err(Fail::Truncated);
    }
    let ok: bool = *slice_index_get(input, 0) == 255 && *slice_index_get(input, 1) == 255
        && *slice_index_get(input, 2) == 255 && *slice_index_get(input, 3) == 255;
    if ok {
        proof {
            assert(input@.subrange(0, 4) =~= continuation_marker());
        }
        Ok((slice_subrange(input, 4, input.len()), Continuation))
    } else {
        proof {
            assert(input@.subrange(0, 4) != continuation_marker()) by {
                if input@.subrange(0, 4) == continuation_marker() {
                    assert(input@[0] == continuation_marker()[0]);
                    assert(input@[1] == continuation_marker()[1]);
                    assert(input@[2] == continuation_marker()[2]);
                    assert(input@[3] == continuation_marker()[3]);
                }
            }
        }
        Err(Fail::MarkerMismatch)
    }
}

/// Consume four bytes and decode them as an unsigned 32-bit little-endian
/// integer; fail with `Truncated` where fewer than four bytes remain.
pub fn u32_parser<'a>(input: &'a [u8]) -> (r: Result<(&'a [u8], u32), Fail>)
    ensures
        r matches Ok((rest, v)) ==> input@.len() >= 4 && rest@ == input@.skip(4) && v
            == u32_from_le(input@.subrange(0, 4)),
        r matches Err(e) ==> e == Fail::Truncated && input@.len() < 4,
{
    if input.len() < 4 {
        return Err(Fail::Truncated);
    }
    let b0: u32 = *slice_index_get(input, 0) as u32;
    let b1: u32 = *slice_index_get(input, 1) as u32;
    let b2: u32 = *slice_index_get(input, 2) as u32;
    let b3: u32 = *slice_index_get(input, 3) as u32;
    let v: u32 = b0 + b1 * 0x100 + b2 * 0x10000 + b3 * 0x1000000;
    proof {
        let sub = input@.subrange(0, 4);
        assert(sub[0] == input@[0]);
        assert(sub[1] == input@[1]);
        assert(sub[2] == input@[2]);
        assert(sub[3] == input@[3]);
    }
    Ok((slice_subrange(input, 4, input.len()), v))
}

/// Consume the 8-byte end-of-stream terminator, or fail without consuming:
/// `Truncated` where fewer than eight bytes remain, `MarkerMismatch` where
/// the eight bytes differ from the terminator.
pub fn end_of_stream_parser<'a>(input: &'a [u8]) -> (r: Result<(&'a [u8], EndOfStream), Fail>)
    ensures
        r matches Ok((rest, _t)) ==> input@.len() >= 8 && input@.subrange(0, 8)
            == end_of_stream_marker() && rest@ == input@.skip(8),
        r matches Err(e) ==> (e == Fail::Truncated && input@.len() < 8) || (e
            == Fail::MarkerMismatch && input@.len() >= 8 && input@.subrange(0, 8)
            != end_of_stream_marker()),
{
    if input.len() < 8 {
        return Err(Fail::Truncated);
    }
    let ok: bool = *slice_index_get(input, 0) == 255 && *slice_index_get(input, 1) == 255
        && *slice_index_get(input, 2) == 255 && *slice_index_get(input, 3) == 255
        && *slice_index_get(input, 4) == 0 && *slice_index_get(input, 5) == 0
        && *slice_index_get(input, 6) == 0 && *slice_index_get(input, 7) == 0;
    if ok {
        proof {
            assert(input@.subrange(0, 8) =~= end_of_stream_marker());
        }
        Ok((slice_subrange(input, 8, input.len()), EndOfStream))
    } else {
        proof {
            assert(input@.subrange(0, 8) != end_of_stream_marker()) by {
                if input@.subrange(0, 8) == end_of_stream_marker() {
                    assert(forall|i: int|
                        0 <= i < 8 ==> input@[i] == end_of_stream_marker()[i]) by {
                        assert(forall|i: int|
                            0 <= i < 8 ==> input@.subrange(0, 8)[i] == end_of_stream_marker()[i]);
                    }
                }
            }
        }
        Err(Fail::MarkerMismatch)
    }
}

/// Parse one framed message: continuation marker, 4-byte metadata length,
/// metadata block handed to the external decoder, and a body region of the
/// header-declared length that is skipped, never inspected.
pub fn message_parser<'a>(input: &'a [u8]) -> (r: Result<(&'a [u8], Message<'a>), Fail>)
    ensures
        r matches Ok((rest, m)) ==> spec_parse_message(input@) == Ok::<_, Fail>((rest@, m.meta@))
            && m.wf(),
        r matches Err(e) ==> spec_parse_message(input@) == Err::<(Seq<u8>, Seq<u8>), Fail>(e),
{
    let (after_marker, _c) = match continuation_parser(input) {
        Ok(p) => p,
        Err(e) => {
            return Err(e);
        },
    };
    let (rest, metadata_len) = match u32_parser(after_marker) {
        Ok(p) => p,
        Err(e) => {
            proof {
                assert(after_marker@.len() < 4 ==> input@.len() < 8);
            }
            return Err(e);
        },
    };
    proof {
        assert(after_marker@.subrange(0, 4) =~= input@.subrange(4, 8));
        assert(rest@ =~= input@.skip(8));
    }
    let metadata_len_usize: usize = metadata_len as usize;
    if metadata_len_usize > rest.len() {
        return Err(Fail::Truncated);
    }
    let meta: &[u8] = slice_subrange(rest, 0, metadata_len_usize);
    let (loc, body_len) = match decode_metadata(meta) {
        Some(p) => p,
        None => {
            return Err(Fail::MalformedMetadata);
        },
    };
    if body_len < 0 {
        return Err(Fail::Truncated);
    }
    let after_meta: usize = rest.len() - metadata_len_usize;
    if body_len as u64 > after_meta as u64 {
        return Err(Fail::Truncated);
    }
    let advance: usize = metadata_len_usize + body_len as usize;
    let remainder: &[u8] = slice_subrange(rest, advance, rest.len());
    proof {
        assert(remainder@ =~= rest@.skip(metadata_len as int + meta_body_len(meta@) as int));
    }
    Ok((remainder, Message { meta, loc }))
}

/// Try a parser; on success hand back its remainder and value, on any
/// failure hand back the input unchanged and no value. This is the one
/// point of the design where a failed sub-parse does not propagate.
pub fn maybe_parser<'a, T>(
    f: impl Fn(&'a [u8]) -> Result<(&'a [u8], T), Fail>,
    input: &'a [u8],
) -> (r: (&'a [u8], Option<T>))
    requires
        call_requires(f, (input,)),
    ensures
        r.1 matches Some(t) ==> call_ensures(f, (input,), Ok((r.0, t))),
        r.1 is None ==> r.0@ == input@ && exists|e: Fail|
            call_ensures(f, (input,), Err::<(&'a [u8], T), Fail>(e)),
{
    match f(input) {
        Ok((rest, t)) => (rest, Some(t)),
        Err(e) => {
            proof {
                assert(call_ensures(f, (input,), Err::<(&'a [u8], T), Fail>(e)));
            }
            (input, None)
        },
    }
}

/// Parse the stream: a schema message, a batch message, then optionally the
/// end-of-stream terminator, whose presence is discarded.
pub fn single_batch_stream_parser<'a>(input: &'a [u8]) -> (r: Result<
    (&'a [u8], SingleBatchStream<'a>),
    Fail,
>)
    ensures
        r matches Ok((rest, sb)) ==> spec_parse_stream(input@) == Ok::<_, Fail>(
            (rest@, (sb.schema_message.meta@, sb.batch_message.meta@)),
        ) && sb.schema_message.wf() && sb.batch_message.wf(),
        r matches Err(e) ==> spec_parse_stream(input@) == Err::<
            (Seq<u8>, (Seq<u8>, Seq<u8>)),
            Fail,
        >(e),
{
    let (rest1, schema_message) = match message_parser(input) {
        Ok(p) => p,
        Err(e) => {
            return Err(e);
        },
    };
    let (rest2, batch_message) = match message_parser(rest1) {
        Ok(p) => p,
        Err(e) => {
            return Err(e);
        },
    };
    let (rest3, _terminator) = maybe_parser(end_of_stream_parser, rest2);
    proof {
        assert(rest3@ =~= if rest2@.len() >= 8 && rest2@.subrange(0, 8) == end_of_stream_marker() {
            rest2@.skip(8)
        } else {
            rest2@
        });
    }
    Ok((rest3, SingleBatchStream { schema_message, batch_message }))
}

/// Run a parser and demand that it consumed the entire input: a non-empty
/// remainder after success turns into `TrailingBytes`; a failure is
/// surfaced unchanged.
pub fn finish<'a, T>(
    f: impl Fn(&'a [u8]) -> Result<(&'a [u8], T), Fail>,
    input: &'a [u8],
) -> (r: Result<T, Fail>)
    requires
        call_requires(f, (input,)),
    ensures
        ({
            match r {
                Ok(t) => exists|rest: &'a [u8]|
                    #[trigger] call_ensures(f, (input,), Ok((rest, t))) && rest@.len() == 0,
                Err(e) => call_ensures(f, (input,), Err::<(&'a [u8], T), Fail>(e)) || (e
                    == Fail::TrailingBytes && exists|rest: &'a [u8], t: T|
                    #[trigger] call_ensures(f, (input,), Ok((rest, t))) && rest@.len() > 0),
            }
        }),
{
    match f(input) {
        Ok((rest, t)) => {
            proof {
                assert(call_ensures(f, (input,), Ok::<(&'a [u8], T), Fail>((rest, t))));
            }
            if rest.len() == 0 {
                let r: Result<T, Fail> = Ok(t);
                proof {
                    assert(call_ensures(f, (input,), Ok::<(&'a [u8], T), Fail>((rest, r->Ok_0))));
                    assert(exists|rr: &'a [u8]|
                        #[trigger] call_ensures(f, (input,), Ok((rr, r->Ok_0))) && rr@.len() == 0);
                }
                r
            } else {
                Err(Fail::TrailingBytes)
            }
        },
        Err(e) => Err(e),
    }
}

/// Parse a complete single-batch stream buffer: both framed messages, the
/// optional terminator, and nothing left over.
pub fn parse_single_batch_stream<'a>(input: &'a [u8]) -> (r: Result<SingleBatchStream<'a>, Fail>)
    ensures
        r matches Ok(sb) ==> spec_parse_finished(input@) == Ok::<_, Fail>(
            (sb.schema_message.meta@, sb.batch_message.meta@),
        ) && sb.schema_message.wf() && sb.batch_message.wf(),
        r matches Err(e) ==> spec_parse_finished(input@) == Err::<(Seq<u8>, Seq<u8>), Fail>(e),
{
    let r = finish(single_batch_stream_parser, input);
    proof {
        if r is Ok {
            let sb = r->Ok_0;
            let rest = choose|rest: &'a [u8]|
                #[trigger] call_ensures(single_batch_stream_parser, (input,), Ok((rest, sb)))
                    && rest@.len() == 0;
        }
    }
    r
}

} // verus!
