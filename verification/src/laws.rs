//! What holds of every well-formed stream: laws of the framing parser,
//! stated over the same spec functions that the parsers' contracts use.

use crate::decoder::{meta_body_len, meta_decodes};
use crate::model::{
    continuation_marker, end_of_stream_marker, lemma_u32_le_round_trip, u32_to_le, Fail,
};
use crate::parser::{
    parse_single_batch_stream, spec_parse_finished, spec_parse_message, spec_parse_stream,
    SingleBatchStream,
};
use vstd::prelude::*;

verus! {

/// One well-formed framed message: continuation marker, little-endian
/// metadata length, the metadata itself, then the body.
pub open spec fn frame(meta: Seq<u8>, body: Seq<u8>) -> Seq<u8> {
    continuation_marker() + u32_to_le(meta.len() as u32) + meta + body
}

/// The frame is honestly constructed: the metadata length fits its 4-byte
/// field, the decoder accepts the metadata, and the body is exactly as long
/// as the metadata declares.
pub open spec fn valid_frame(meta: Seq<u8>, body: Seq<u8>) -> bool {
    &&& meta.len() <= 0xFFFFFFFF
    &&& meta_decodes(meta)
    &&& meta_body_len(meta) as int == body.len() as int
}

/// The stream made of two well-formed frames, optionally closed by the
/// end-of-stream terminator.
pub open spec fn stream_bytes(
    schema_meta: Seq<u8>,
    schema_body: Seq<u8>,
    batch_meta: Seq<u8>,
    batch_body: Seq<u8>,
    terminated: bool,
) -> Seq<u8> {
    frame(schema_meta, schema_body) + (frame(batch_meta, batch_body) + (if terminated {
        end_of_stream_marker()
    } else {
        Seq::<u8>::empty()
    }))
}

/// A well-formed frame at the head of the input parses: it consumes exactly
/// itself, hands back whatever follows, and yields its metadata.
pub proof fn lemma_parse_frame(meta: Seq<u8>, body: Seq<u8>, tail: Seq<u8>)
    requires
        valid_frame(meta, body),
    ensures
        spec_parse_message(frame(meta, body) + tail) == Ok::<(Seq<u8>, Seq<u8>), Fail>(
            (tail, meta),
        ),
{
    let s = frame(meta, body) + tail;
    let m = meta.len() as int;
    let b = meta_body_len(meta) as int;
    lemma_u32_le_round_trip(meta.len() as u32);
    assert(s.len() == 8 + m + b + tail.len());
    assert(s.subrange(0, 4) =~= continuation_marker());
    assert(s.subrange(4, 8) =~= u32_to_le(meta.len() as u32));
    let rest = s.skip(8);
    assert(rest.len() == m + b + tail.len());
    assert(rest.subrange(0, m) =~= meta);
    assert(rest.skip(m + b) =~= tail);
}

/// Cutting a well-formed frame anywhere before its last byte leaves a
/// buffer whose parse fails with `Truncated` — never a partial success and
/// never another error.
pub proof fn lemma_frame_truncated(meta: Seq<u8>, body: Seq<u8>, k: int)
    requires
        valid_frame(meta, body),
        0 <= k < frame(meta, body).len(),
    ensures
        spec_parse_message(frame(meta, body).take(k)) == Err::<(Seq<u8>, Seq<u8>), Fail>(
            Fail::Truncated,
        ),
{
    let fr = frame(meta, body);
    let t = fr.take(k);
    let m = meta.len() as int;
    let b = meta_body_len(meta) as int;
    lemma_u32_le_round_trip(meta.len() as u32);
    assert(fr.len() == 8 + m + b);
    assert(t.len() == k);
    if k >= 4 {
        assert(t.subrange(0, 4) =~= continuation_marker());
        if k >= 8 {
            assert(t.subrange(4, 8) =~= u32_to_le(meta.len() as u32));
            let rest = t.skip(8);
            assert(rest.len() == k - 8);
            if k - 8 >= m {
                assert(rest.subrange(0, m) =~= meta);
                assert(k - 8 < m + b);
            }
        }
    }
}

/// Every valid constructed stream parses to completion: the composed parse
/// with the full-consumption check succeeds and yields exactly the two
/// metadata views, schema first, batch second — with the terminator present
/// or absent alike.
pub proof fn lemma_valid_stream_parses(
    schema_meta: Seq<u8>,
    schema_body: Seq<u8>,
    batch_meta: Seq<u8>,
    batch_body: Seq<u8>,
    terminated: bool,
)
    requires
        valid_frame(schema_meta, schema_body),
        valid_frame(batch_meta, batch_body),
    ensures
        spec_parse_finished(
            stream_bytes(schema_meta, schema_body, batch_meta, batch_body, terminated),
        ) == Ok::<(Seq<u8>, Seq<u8>), Fail>((schema_meta, batch_meta)),
{
    let term = if terminated {
        end_of_stream_marker()
    } else {
        Seq::<u8>::empty()
    };
    let s = stream_bytes(schema_meta, schema_body, batch_meta, batch_body, terminated);
    let tail1 = frame(batch_meta, batch_body) + term;
    assert(s == frame(schema_meta, schema_body) + tail1);
    lemma_parse_frame(schema_meta, schema_body, tail1);
    assert(spec_parse_message(s) == Ok::<(Seq<u8>, Seq<u8>), Fail>((tail1, schema_meta)));
    lemma_parse_frame(batch_meta, batch_body, term);
    assert(spec_parse_message(tail1) == Ok::<(Seq<u8>, Seq<u8>), Fail>((term, batch_meta)));
    let rest3 = if term.len() >= 8 && term.subrange(0, 8) == end_of_stream_marker() {
        term.skip(8)
    } else {
        term
    };
    if terminated {
        assert(term.subrange(0, 8) =~= end_of_stream_marker());
        assert(term.skip(8).len() == 0);
    } else {
        assert(term.len() == 0);
    }
    assert(rest3.len() == 0);
    assert(spec_parse_stream(s) == Ok::<(Seq<u8>, (Seq<u8>, Seq<u8>)), Fail>(
        (rest3, (schema_meta, batch_meta)),
    ));
}

/// The terminator is the only sequence allowed to follow the two frames:
/// appending anything else, of any non-zero length, makes the composed
/// parse fail with `TrailingBytes`.
pub proof fn lemma_trailing_bytes(
    schema_meta: Seq<u8>,
    schema_body: Seq<u8>,
    batch_meta: Seq<u8>,
    batch_body: Seq<u8>,
    extra: Seq<u8>,
)
    requires
        valid_frame(schema_meta, schema_body),
        valid_frame(batch_meta, batch_body),
        extra.len() > 0,
        extra != end_of_stream_marker(),
    ensures
        spec_parse_finished(frame(schema_meta, schema_body) + frame(batch_meta, batch_body) + extra)
            == Err::<(Seq<u8>, Seq<u8>), Fail>(Fail::TrailingBytes),
{
    let s = frame(schema_meta, schema_body) + frame(batch_meta, batch_body) + extra;
    let tail1 = frame(batch_meta, batch_body) + extra;
    assert(s =~= frame(schema_meta, schema_body) + tail1);
    lemma_parse_frame(schema_meta, schema_body, tail1);
    lemma_parse_frame(batch_meta, batch_body, extra);
    if extra.len() >= 8 && extra.subrange(0, 8) == end_of_stream_marker() {
        if extra.len() == 8 {
            assert(extra =~= extra.subrange(0, 8));
            assert(false);
        }
        assert(extra.skip(8).len() > 0);
    }
}

/// Corrupting any single byte of either continuation marker — replacing it
/// with anything but the marker byte `255` — makes the parse fail with
/// `MarkerMismatch`, never succeed.
pub proof fn lemma_marker_corrupted(
    schema_meta: Seq<u8>,
    schema_body: Seq<u8>,
    batch_meta: Seq<u8>,
    batch_body: Seq<u8>,
    terminated: bool,
    i: int,
    x: u8,
)
    requires
        valid_frame(schema_meta, schema_body),
        valid_frame(batch_meta, batch_body),
        0 <= i < 4 || frame(schema_meta, schema_body).len() <= i < frame(
            schema_meta,
            schema_body,
        ).len() + 4,
        x != 255,
    ensures
        spec_parse_finished(
            stream_bytes(schema_meta, schema_body, batch_meta, batch_body, terminated).update(i, x),
        ) == Err::<(Seq<u8>, Seq<u8>), Fail>(Fail::MarkerMismatch),
{
    let term = if terminated {
        end_of_stream_marker()
    } else {
        Seq::<u8>::empty()
    };
    let s = stream_bytes(schema_meta, schema_body, batch_meta, batch_body, terminated);
    let corrupted = s.update(i, x);
    let f1 = frame(schema_meta, schema_body);
    let f2 = frame(batch_meta, batch_body);
    assert(s.len() == f1.len() + (f2.len() + term.len()));
    assert(f1.len() >= 8 && f2.len() >= 8);
    if i < 4 {
        assert(corrupted.len() >= 4);
        assert(corrupted.subrange(0, 4) != continuation_marker()) by {
            assert(corrupted[i] == x);
            if corrupted.subrange(0, 4) == continuation_marker() {
                assert(corrupted.subrange(0, 4)[i] == continuation_marker()[i]);
            }
        }
        assert(spec_parse_message(corrupted) == Err::<(Seq<u8>, Seq<u8>), Fail>(
            Fail::MarkerMismatch,
        ));
    } else {
        let j = i - f1.len();
        let tail1 = (f2 + term).update(j, x);
        assert(corrupted =~= f1 + tail1) by {
            assert(corrupted.len() == f1.len() + tail1.len());
            assert forall|idx: int| 0 <= idx < corrupted.len() implies corrupted[idx] == (f1
                + tail1)[idx] by {
                if idx < f1.len() {
                    assert(corrupted[idx] == s[idx]);
                    assert((f1 + tail1)[idx] == f1[idx]);
                } else if idx == i {
                    assert(corrupted[idx] == x);
                    assert((f1 + tail1)[idx] == tail1[j]);
                } else {
                    assert(corrupted[idx] == s[idx]);
                    assert((f1 + tail1)[idx] == tail1[idx - f1.len()]);
                    assert(s[idx] == (f2 + term)[idx - f1.len()]);
                }
            }
        }
        lemma_parse_frame(schema_meta, schema_body, tail1);
        assert(spec_parse_message(corrupted) == Ok::<(Seq<u8>, Seq<u8>), Fail>(
            (tail1, schema_meta),
        ));
        assert(tail1.len() >= 8);
        assert(tail1.subrange(0, 4) != continuation_marker()) by {
            assert(f2[j] == continuation_marker()[j]);
            assert(tail1[j] == x);
            if tail1.subrange(0, 4) == continuation_marker() {
                assert(tail1.subrange(0, 4)[j] == continuation_marker()[j]);
            }
        }
        assert(spec_parse_message(tail1) == Err::<(Seq<u8>, Seq<u8>), Fail>(
            Fail::MarkerMismatch,
        ));
    }
}

/// Cutting the two-frame stream anywhere before its last required byte
/// leaves a buffer whose composed parse fails with `Truncated` — partial
/// data never parses successfully.
pub proof fn lemma_stream_truncated(
    schema_meta: Seq<u8>,
    schema_body: Seq<u8>,
    batch_meta: Seq<u8>,
    batch_body: Seq<u8>,
    k: int,
)
    requires
        valid_frame(schema_meta, schema_body),
        valid_frame(batch_meta, batch_body),
        0 <= k < frame(schema_meta, schema_body).len() + frame(batch_meta, batch_body).len(),
    ensures
        spec_parse_finished(
            (frame(schema_meta, schema_body) + frame(batch_meta, batch_body)).take(k),
        ) == Err::<(Seq<u8>, Seq<u8>), Fail>(Fail::Truncated),
{
    let f1 = frame(schema_meta, schema_body);
    let f2 = frame(batch_meta, batch_body);
    let t = (f1 + f2).take(k);
    if k < f1.len() {
        assert(t =~= f1.take(k));
        lemma_frame_truncated(schema_meta, schema_body, k);
    } else {
        let k2 = k - f1.len();
        assert(t =~= f1 + f2.take(k2));
        lemma_parse_frame(schema_meta, schema_body, f2.take(k2));
        lemma_frame_truncated(batch_meta, batch_body, k2);
    }
}

/// Parsing is a pure function of the input bytes: any two outcomes the
/// top-level parser may return for the same input agree — the same success
/// or failure, the same error, and the same metadata views.
pub proof fn lemma_parse_deterministic<'a>(
    input: &'a [u8],
    r1: Result<SingleBatchStream<'a>, Fail>,
    r2: Result<SingleBatchStream<'a>, Fail>,
)
    requires
        call_ensures(parse_single_batch_stream, (input,), r1),
        call_ensures(parse_single_batch_stream, (input,), r2),
    ensures
        r1 is Ok <==> r2 is Ok,
        r1 matches Ok(a) ==> r2 matches Ok(c) && a.schema_message.meta@ == c.schema_message.meta@
            && a.batch_message.meta@ == c.batch_message.meta@,
        r1 matches Err(e1) ==> r2 matches Err(e2) && e1 == e2,
{
    assert(spec_parse_finished(input@) is Ok ==> r1 is Ok && r2 is Ok);
    assert(spec_parse_finished(input@) is Err ==> r1 is Err && r2 is Err);
}

} // verus!
