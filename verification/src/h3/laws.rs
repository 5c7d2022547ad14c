//! What holds of HTTP/3 connections as a whole.
use crate::h3::conn::{
    arrived, awaits_response, encoded, frames_in, is_ready, message_in, overgrown, read_back,
    request_in, responded, taken, wanted, H3Model, ReqModel,
};
use crate::h3::frame::{frame3, law_varint_round_trip, varint, FRAME_DATA, FRAME_HEADERS};
use crate::h3::qpack::{qpack_decoding, qpack_encoding};
use crate::proto::conn::FileStream;
use crate::proto::fields::{request_head_of, response_fields_of, RequestHeadModel};
use crate::proto::request::RequestModel;
use crate::proto::response::{outgoing, BodyModel, ResponseModel, STREAM_CHUNK};
use crate::proto::version::Version;
use vstd::prelude::*;

verus! {

broadcast use vstd::seq::group_seq_axioms;

/// Reading goes on behind a whole frame, with what the frame brought.
pub proof fn lemma_frames_step(
    before: Seq<u8>,
    ty: int,
    payload: Seq<u8>,
    rest: Seq<u8>,
    block: Option<Seq<u8>>,
    body: Seq<u8>,
)
    requires
        0 <= ty < 0x4000_0000_0000_0000,
        payload.len() < 0x4000_0000_0000_0000,
    ensures
        ({
            let b = before + frame3(ty, payload) + rest;
            let next = (before.len() + frame3(ty, payload).len()) as int;
            frames_in(b, before.len() as int, block, body) == (if ty == FRAME_HEADERS {
                frames_in(
                    b,
                    next,
                    match block {
                        Some(x) => Some(x),
                        None => Some(payload),
                    },
                    body,
                )
            } else if ty == FRAME_DATA {
                frames_in(b, next, block, body + payload)
            } else {
                frames_in(b, next, block, body)
            })
        }),
{
    let n = payload.len() as int;
    let f = frame3(ty, payload);
    let b = before + f + rest;
    let p1 = before.len() + varint(ty).len();
    let p2 = p1 + varint(n).len();
    assert(b =~= before + varint(ty) + (varint(n) + payload + rest));
    law_varint_round_trip(before, ty, varint(n) + payload + rest);
    assert(b =~= (before + varint(ty)) + varint(n) + (payload + rest));
    law_varint_round_trip(before + varint(ty), n, payload + rest);
    assert(b.subrange(p2 as int, p2 + n) =~= payload);
    assert(varint(ty).len() >= 1);
}

/// A HEADERS frame and a DATA frame are read back as they were written.
pub proof fn law_message_round_trip(block: Seq<u8>, body: Seq<u8>)
    requires
        block.len() < 0x4000_0000_0000_0000,
        body.len() < 0x4000_0000_0000_0000,
    ensures
        message_in(frame3(FRAME_HEADERS as int, block) + frame3(FRAME_DATA as int, body)) == Some(
            (block, body),
        ),
{
    let h = frame3(FRAME_HEADERS as int, block);
    let d = frame3(FRAME_DATA as int, body);
    let none: Option<Seq<u8>> = None;
    let e = Seq::<u8>::empty();
    assert(h + d =~= e + h + d);
    lemma_frames_step(e, FRAME_HEADERS as int, block, d, none, e);
    assert(h + d =~= h + d + e);
    lemma_frames_step(h, FRAME_DATA as int, body, e, Some(block), e);
    assert(e + body =~= body);
}

/// A frame of a type that carries no part of a message does not matter,
/// wherever it stands between whole frames.
pub proof fn law_unknown_frames_are_ignored(
    before: Seq<u8>,
    ty: int,
    payload: Seq<u8>,
    rest: Seq<u8>,
    block: Option<Seq<u8>>,
    body: Seq<u8>,
)
    requires
        0 <= ty < 0x4000_0000_0000_0000,
        payload.len() < 0x4000_0000_0000_0000,
        ty != FRAME_HEADERS,
        ty != FRAME_DATA,
    ensures
        ({
            let f = frame3(ty, payload);
            frames_in(before + f + rest, before.len() as int, block, body) == frames_in(
                before + f + rest,
                (before.len() + f.len()) as int,
                block,
                body,
            )
        }),
{
    lemma_frames_step(before, ty, payload, rest, block, body);
}

/// Only the first HEADERS frame counts: a later one (trailers) changes nothing.
pub proof fn law_first_headers_count(
    before: Seq<u8>,
    payload: Seq<u8>,
    rest: Seq<u8>,
    block: Seq<u8>,
    body: Seq<u8>,
)
    requires
        payload.len() < 0x4000_0000_0000_0000,
    ensures
        ({
            let f = frame3(FRAME_HEADERS as int, payload);
            frames_in(before + f + rest, before.len() as int, Some(block), body) == frames_in(
                before + f + rest,
                (before.len() + f.len()) as int,
                Some(block),
                body,
            )
        }),
{
    lemma_frames_step(before, FRAME_HEADERS as int, payload, rest, Some(block), body);
}

/// How the bytes of a request are cut up on arrival does not matter.
pub proof fn law_pieces_are_as_good_as_the_whole(m: H3Model, id: u64, a: Seq<u8>, b: Seq<u8>, fin: bool)
    requires
        !overgrown(m, ReqModel { input: m.stream(id).input + a, ..m.stream(id) }),
    ensures
        arrived(arrived(m, id, a, false), id, b, fin) == arrived(m, id, a + b, fin),
{
    let s = m.stream(id);
    let m1 = arrived(m, id, a, false);
    if a.len() == 0 {
        assert(a + b =~= b);
    } else {
        assert(m1.stream(id).input =~= s.input + a);
        assert(s.input + a + b =~= s.input + (a + b));
        if b.len() == 0 && !fin {
            assert(a + b =~= a);
        }
        assert(arrived(m1, id, b, fin) =~= arrived(m, id, a + b, fin));
    }
}

/// A request stream never holds more than the limits allow.
pub proof fn law_input_is_bounded(m: H3Model, id: u64, data: Seq<u8>, fin: bool)
    requires
        forall|i: u64| #[trigger] m.reqs.contains_key(i) ==> !overgrown(m, m.reqs[i]),
    ensures
        ({
            let m1 = arrived(m, id, data, fin);
            forall|i: u64| #[trigger] m1.reqs.contains_key(i) ==> !overgrown(m1, m1.reqs[i])
        }),
{
}

/// What happens on one stream leaves every other stream as it was.
pub proof fn law_streams_are_apart(m: H3Model, id: u64, other: u64, data: Seq<u8>, fin: bool, resp: ResponseModel)
    requires
        id != other,
    ensures
        arrived(m, id, data, fin).stream(other) == m.stream(other),
        taken(m, id).stream(other) == m.stream(other),
        responded(m, id, resp).stream(other) == m.stream(other),
        read_back(m, id, Some(data)).stream(other) == m.stream(other),
        read_back(m, id, None).stream(other) == m.stream(other),
{
}

/// A request is delivered once, and answered once: taking it again gives
/// nothing, and a second response is ignored.
pub proof fn law_one_request_one_response(m: H3Model, id: u64, r1: ResponseModel, r2: ResponseModel)
    ensures
        !is_ready(taken(m, id), id),
        taken(taken(m, id), id) == taken(m, id),
        responded(responded(m, id, r1), id, r2) == responded(m, id, r1),
{
}

/// A malformed request is dropped, never delivered.
pub proof fn law_malformed_request_is_dropped(m: H3Model, id: u64)
    requires
        is_ready(m, id),
        request_in(m.reqs[id].input) is None,
    ensures
        !taken(m, id).reqs.contains_key(id),
{
}

/// The answer to a `HEAD` request has no body, whatever the handler returned.
pub proof fn law_head_reply_has_no_body(m: H3Model, id: u64, resp: ResponseModel)
    requires
        awaits_response(m, id),
        m.reqs[id].is_head,
    ensures
        ({
            let r = responded(m, id, resp).reqs[id];
            &&& r.file is None
            &&& r.pending == encoded(outgoing(true, resp), m.server_name)
            &&& outgoing(true, resp).body == BodyModel::Bytes(Seq::<u8>::empty())
        }),
{
}

/// The bytes of a file body that are still to be written on a stream: those
/// read but not written, and those not read.
pub open spec fn left_to_write(r: ReqModel) -> int {
    r.pending.len() + (match r.file {
        Some(f) => f.remaining as int,
        None => 0,
    })
}

/// Every byte read for a file body is a byte of the promised length: a read
/// moves bytes from the file to the stream and neither adds nor drops any.
pub proof fn law_streaming_sends_the_promised_length(m: H3Model, id: u64, data: Seq<u8>)
    requires
        m.reqs.contains_key(id),
        wanted(m.reqs[id]) matches Some(w) && 0 < data.len() <= w.len,
    ensures
        ({
            let r = read_back(m, id, Some(data)).reqs[id];
            &&& read_back(m, id, Some(data)).reqs.contains_key(id)
            &&& r.pending == data
            &&& left_to_write(r) == left_to_write(m.reqs[id])
        }),
{
}

// ---------------------------------------------------------------------------
// What is sent is what is read
// ---------------------------------------------------------------------------

/// A frame on a request stream.
pub struct StreamFrame {
    pub ty: int,
    pub payload: Seq<u8>,
}

/// Frames as they are sent.
pub open spec fn frames_wire(frames: Seq<StreamFrame>) -> Seq<u8>
    decreases frames.len(),
{
    if frames.len() == 0 {
        Seq::empty()
    } else {
        frame3(frames[0].ty, frames[0].payload) + frames_wire(frames.skip(1))
    }
}

/// All that the DATA frames among some frames carry, in order.
pub open spec fn data_in(frames: Seq<StreamFrame>) -> Seq<u8>
    decreases frames.len(),
{
    if frames.len() == 0 {
        Seq::empty()
    } else if frames.last().ty == 0 {
        data_in(frames.drop_last()) + frames.last().payload
    } else {
        data_in(frames.drop_last())
    }
}

/// Whether frames fit the wire.
pub open spec fn frames_fit(frames: Seq<StreamFrame>) -> bool {
    forall|i: int|
        0 <= i < frames.len() ==> 0 <= (#[trigger] frames[i]).ty < 0x4000_0000_0000_0000
            && frames[i].payload.len() < 0x4000_0000_0000_0000
}

proof fn lemma_data_first(frames: Seq<StreamFrame>)
    requires
        frames.len() > 0,
    ensures
        data_in(frames) == (if frames[0].ty == 0 {
            frames[0].payload
        } else {
            Seq::empty()
        }) + data_in(frames.skip(1)),
    decreases frames.len(),
{
    let rest = frames.skip(1);
    let first = if frames[0].ty == 0 {
        frames[0].payload
    } else {
        Seq::empty()
    };
    if frames.len() == 1 {
        assert(frames.drop_last() =~= Seq::empty());
        assert(rest =~= Seq::empty());
    } else {
        lemma_data_first(frames.drop_last());
        assert(frames.drop_last().skip(1) =~= rest.drop_last());
    }
    assert(data_in(frames) =~= first + data_in(rest));
}

proof fn lemma_frames_read(before: Seq<u8>, frames: Seq<StreamFrame>, block: Seq<u8>, body: Seq<u8>)
    requires
        frames_fit(frames),
    ensures
        frames_in(before + frames_wire(frames), before.len() as int, Some(block), body) == Some(
            (Some(block), body + data_in(frames)),
        ),
    decreases frames.len(),
{
    let b = before + frames_wire(frames);
    if frames.len() == 0 {
        assert(b =~= before);
        assert(body + data_in(frames) =~= body);
    } else {
        let f = frames[0];
        let rest = frames.skip(1);
        assert(0 <= f.ty);
        assert forall|i: int| 0 <= i < rest.len() implies 0 <= (#[trigger] rest[i]).ty
            < 0x4000_0000_0000_0000 && rest[i].payload.len() < 0x4000_0000_0000_0000 by {
            assert(rest[i] == frames[i + 1]);
        }
        let w = frame3(f.ty, f.payload);
        assert(b =~= before + w + frames_wire(rest));
        assert(b =~= (before + w) + frames_wire(rest));
        lemma_frames_step(before, f.ty, f.payload, frames_wire(rest), Some(block), body);
        lemma_data_first(frames);
        if f.ty == 0 {
            lemma_frames_read(before + w, rest, block, body + f.payload);
            assert(body + f.payload + data_in(rest) =~= body + data_in(frames));
        } else {
            lemma_frames_read(before + w, rest, block, body);
            assert(body + data_in(rest) =~= body + data_in(frames));
        }
    }
}

/// The body of a request is all that the DATA frames behind its HEADERS frame
/// carry, in order; frames of other kinds among them add nothing.
pub proof fn law_body_is_all_the_data(block: Seq<u8>, frames: Seq<StreamFrame>)
    requires
        block.len() < 0x4000_0000_0000_0000,
        frames_fit(frames),
    ensures
        message_in(frame3(1, block) + frames_wire(frames)) == Some((block, data_in(frames))),
{
    let h = frame3(1, block);
    let none: Option<Seq<u8>> = None;
    let e = Seq::<u8>::empty();
    let b = h + frames_wire(frames);
    assert(b =~= e + h + frames_wire(frames));
    lemma_frames_step(e, 1, block, frames_wire(frames), none, e);
    lemma_frames_read(h, frames, block, e);
    assert(e + data_in(frames) =~= data_in(frames));
}

/// A stream whose first frames carry no header block is no request, whatever they
/// carry.
pub proof fn law_no_request_without_headers(frames: Seq<StreamFrame>)
    requires
        frames_fit(frames),
        forall|i: int| 0 <= i < frames.len() ==> (#[trigger] frames[i]).ty != 1,
    ensures
        message_in(frames_wire(frames)) is None,
{
    let e = Seq::<u8>::empty();
    lemma_headless(e, frames, e);
    assert(e + frames_wire(frames) =~= frames_wire(frames));
}

proof fn lemma_headless(before: Seq<u8>, frames: Seq<StreamFrame>, body: Seq<u8>)
    requires
        frames_fit(frames),
        forall|i: int| 0 <= i < frames.len() ==> (#[trigger] frames[i]).ty != 1,
    ensures
        frames_in(before + frames_wire(frames), before.len() as int, None, body) matches Some(
            (None, _),
        ),
    decreases frames.len(),
{
    let b = before + frames_wire(frames);
    if frames.len() == 0 {
        assert(b =~= before);
    } else {
        let f = frames[0];
        let rest = frames.skip(1);
        assert(0 <= f.ty && f.ty != 1);
        assert forall|i: int| 0 <= i < rest.len() implies 0 <= (#[trigger] rest[i]).ty
            < 0x4000_0000_0000_0000 && rest[i].payload.len() < 0x4000_0000_0000_0000 && rest[i].ty
            != 1 by {
            assert(rest[i] == frames[i + 1]);
        }
        let w = frame3(f.ty, f.payload);
        assert(b =~= before + w + frames_wire(rest));
        assert(b =~= (before + w) + frames_wire(rest));
        lemma_frames_step(before, f.ty, f.payload, frames_wire(rest), None, body);
        lemma_headless(before + w, rest, body);
        lemma_headless(before + w, rest, body + f.payload);
    }
}

/// A frame that is cut short makes the whole stream malformed.
pub proof fn law_cut_frame_is_malformed(block: Seq<u8>, ty: int, n: int, payload: Seq<u8>)
    requires
        block.len() < 0x4000_0000_0000_0000,
        0 <= ty < 0x4000_0000_0000_0000,
        payload.len() < n < 0x4000_0000_0000_0000,
    ensures
        message_in(frame3(1, block) + varint(ty) + varint(n) + payload) is None,
{
    let h = frame3(1, block);
    let e = Seq::<u8>::empty();
    let none: Option<Seq<u8>> = None;
    let tail = varint(ty) + varint(n) + payload;
    let b = h + varint(ty) + varint(n) + payload;
    assert(b =~= e + h + tail);
    lemma_frames_step(e, 1, block, tail, none, e);
    assert(b =~= h + varint(ty) + (varint(n) + payload));
    law_varint_round_trip(h, ty, varint(n) + payload);
    assert(b =~= (h + varint(ty)) + varint(n) + payload);
    law_varint_round_trip(h + varint(ty), n, payload);
    assert(varint(ty).len() >= 1);
}

/// A request stream that spells a request is read as that request: the head that
/// its header block decodes to, and the body of its DATA frames.
pub proof fn law_request_is_what_its_stream_says(
    block: Seq<u8>,
    frames: Seq<StreamFrame>,
    head: RequestHeadModel,
)
    requires
        block.len() < 0x4000_0000_0000_0000,
        frames_fit(frames),
        qpack_decoding(block) is Some,
        request_head_of(qpack_decoding(block)->0) == Some(head),
    ensures
        request_in(frame3(1, block) + frames_wire(frames)) == Some(
            RequestModel {
                method: head.method,
                target: head.target,
                version: Version::Http3,
                headers: head.headers,
                body: data_in(frames),
                params: Seq::empty(),
            },
        ),
{
    law_body_is_all_the_data(block, frames);
}

/// A request is ready once its stream has ended, not before, and is all that came
/// on the stream.
pub proof fn law_request_is_ready_when_its_stream_ends(
    m: H3Model,
    id: u64,
    a: Seq<u8>,
    b: Seq<u8>,
)
    requires
        !m.reqs.contains_key(id),
        a.len() + b.len() <= m.limits.max_body_bytes + m.limits.max_header_bytes,
    ensures
        !is_ready(arrived(m, id, a, false), id),
        is_ready(arrived(arrived(m, id, a, false), id, b, true), id),
        arrived(arrived(m, id, a, false), id, b, true).reqs[id].input == a + b,
{
    let m1 = arrived(m, id, a, false);
    assert(m1.stream(id).input =~= a);
}

/// A stream that outgrows the limits is dropped.
pub proof fn law_oversized_request_is_dropped(m: H3Model, id: u64, data: Seq<u8>, fin: bool)
    requires
        data.len() > m.limits.max_body_bytes + m.limits.max_header_bytes,
    ensures
        !arrived(m, id, data, fin).reqs.contains_key(id),
{
}

/// A response is sent as a header block and a body that read back as what they are:
/// the encoded fields of the response, and its body in full.
pub proof fn law_response_is_what_it_says(
    resp: ResponseModel,
    server: Option<Seq<char>>,
    content: Seq<u8>,
)
    requires
        qpack_encoding(response_fields_of(resp.status, resp.headers, server)).len()
            < 0x4000_0000_0000_0000,
        content.len() == resp.body.size(),
        content.len() < 0x4000_0000_0000_0000,
        resp.body matches BodyModel::Bytes(b) ==> content == b,
    ensures
        ({
            let section = qpack_encoding(response_fields_of(resp.status, resp.headers, server));
            let sent = if resp.body is File {
                encoded(resp, server) + content
            } else {
                encoded(resp, server)
            };
            message_in(sent) == Some((section, content))
        }),
{
    let section = qpack_encoding(response_fields_of(resp.status, resp.headers, server));
    let frames = if content.len() == 0 {
        Seq::<StreamFrame>::empty()
    } else {
        seq![StreamFrame { ty: 0, payload: content }]
    };
    law_body_is_all_the_data(section, frames);
    reveal_with_fuel(frames_wire, 2);
    reveal_with_fuel(data_in, 2);
    let sent = if resp.body is File {
        encoded(resp, server) + content
    } else {
        encoded(resp, server)
    };
    if content.len() == 0 {
        assert(sent =~= frame3(1, section) + frames_wire(frames));
        assert(data_in(frames) =~= content);
    } else {
        assert(frames.skip(1) =~= Seq::empty());
        assert(frames.drop_last() =~= Seq::empty());
        assert(frames_wire(frames) =~= frame3(0, content));
        assert(data_in(frames) =~= content);
        assert(sent =~= frame3(1, section) + frames_wire(frames));
    }
}

/// A file body is read from its offset on, without gaps: what is asked for next
/// begins where what was read ends, until all of it has been read.
pub proof fn law_file_is_read_without_gaps(m: H3Model, id: u64, f: FileStream, data: Seq<u8>)
    requires
        m.reqs.contains_key(id),
        m.reqs[id].file == Some(f),
        m.reqs[id].pending.len() == 0,
        f.offset + f.remaining <= u64::MAX,
        0 < data.len() <= f.remaining,
        data.len() <= STREAM_CHUNK,
    ensures
        ({
            let w = wanted(m.reqs[id]);
            let r = read_back(m, id, Some(data)).reqs[id];
            &&& w matches Some(w) && w.file == f.file && w.offset == f.offset && 0 < w.len
                <= f.remaining
            &&& r.pending == data
            &&& data.len() == f.remaining ==> r.file is None
            &&& data.len() < f.remaining ==> r.file == Some(
                FileStream {
                    file: f.file,
                    offset: (f.offset + data.len()) as u64,
                    remaining: (f.remaining - data.len()) as u64,
                },
            )
        }),
{
}

} // verus!
