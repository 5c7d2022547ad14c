//! Laws of the HTTP/2 engine: what holds across several events.
use crate::bytes::be32;
use crate::h2::errcode;
use crate::h2::flag;
use crate::h2::frame::{flag_set, frame_of, header_of, settings_in, FrameHeader};
use crate::h2::ftype;
use crate::h2::hpack::hpack_encoding;
use crate::h2::model::{
    can_send, chunk_len, conn_failed, data_sent, delivered, failure_resets, finished, frames_parsed,
    header_flags, header_frames, headers_begun, headers_done, lemma_frame_keeps_input,
    lemma_next_sender, next_sender, on_continuation, on_data, on_frame, on_headers, on_rst_stream,
    on_settings, on_window_update, pos_of, pumped, read_done, received, responded, settings_applied,
    unfailed, unfinished, wanted, H2Model, StreamModel, DEFAULT_MAX_FRAME, MAX_CONCURRENT_STREAMS,
    MAX_HPACK_TABLE_SIZE, OUR_MAX_FRAME,
};
use crate::h2::settings;
use crate::proto::fields::response_fields_of;
use crate::proto::headers::{lemma_lookup_push, lookup};
use crate::proto::response::{outgoing, BodyModel, ResponseModel};
use crate::text::decimal;
use vstd::prelude::*;

verus! {

broadcast use vstd::seq::group_seq_axioms;

/// The connection with other unread input.
pub open spec fn with_input(m: H2Model, input: Seq<u8>) -> H2Model {
    H2Model { input, ..m }
}

proof fn lemma_settings_ignore_input(m: H2Model, params: Seq<(u16, u32)>, i: int, x: Seq<u8>)
    ensures
        settings_applied(with_input(m, x), params, i) == with_input(
            settings_applied(m, params, i),
            x,
        ),
    decreases params.len() - i,
{
    if 0 <= i < params.len() {
        let (id, value) = params[i];
        let n = with_input(m, x);
        if id == settings::INITIAL_WINDOW_SIZE {
            let delta = value - m.initial_window;
            let a = H2Model {
                initial_window: value as int,
                streams: m.streams.map_values(
                    |s: StreamModel| StreamModel { window: s.window + delta, ..s },
                ),
                ..m
            };
            lemma_settings_ignore_input(a, params, i + 1, x);
        } else if id == settings::MAX_FRAME_SIZE {
            let a = H2Model {
                max_frame: if value < DEFAULT_MAX_FRAME {
                    DEFAULT_MAX_FRAME as int
                } else if value > OUR_MAX_FRAME {
                    OUR_MAX_FRAME as int
                } else {
                    value as int
                },
                ..m
            };
            lemma_settings_ignore_input(a, params, i + 1, x);
        } else if id == settings::HEADER_TABLE_SIZE {
            let want = if value < MAX_HPACK_TABLE_SIZE {
                value as int
            } else {
                MAX_HPACK_TABLE_SIZE as int
            };
            let a = if want != m.table_size {
                H2Model {
                    table_size: want,
                    enc_size: Some(want as nat),
                    enc_lists: Seq::empty(),
                    ..m
                }
            } else {
                m
            };
            lemma_settings_ignore_input(a, params, i + 1, x);
        } else {
            lemma_settings_ignore_input(m, params, i + 1, x);
        }
    }
}

/// What a frame does does not depend on what follows it.
pub proof fn law_frame_ignores_what_follows(
    m: H2Model,
    h: FrameHeader,
    payload: Seq<u8>,
    x: Seq<u8>,
)
    ensures
        on_frame(with_input(m, x), h, payload) == with_input(on_frame(m, h, payload), x),
{
    reveal(on_frame);
    let id = h.stream_id;
    let fl = h.flags;
    assert(on_settings(with_input(m, x), fl, payload) == with_input(
        on_settings(m, fl, payload),
        x,
    )) by {
        lemma_settings_ignore_input(m, settings_in(payload), 0, x);
    }
    lemma_headers_ignore_input(m, id, fl, payload, x);
    lemma_continuation_ignores_input(m, id, fl, payload, x);
    lemma_data_ignores_input(m, id, fl, payload, x);
    lemma_window_update_ignores_input(m, id, payload, x);
    assert(on_rst_stream(with_input(m, x), id) == with_input(on_rst_stream(m, id), x));
}

proof fn lemma_begun_ignores_input(m: H2Model, i: int, flags: u8, content: Seq<u8>, x: Seq<u8>)
    ensures
        headers_begun(with_input(m, x), i, flags, content) == with_input(
            headers_begun(m, i, flags, content),
            x,
        ),
{
}

proof fn lemma_headers_ignore_input(m: H2Model, id: u32, flags: u8, payload: Seq<u8>, x: Seq<u8>)
    ensures
        on_headers(with_input(m, x), id, flags, payload) == with_input(
            on_headers(m, id, flags, payload),
            x,
        ),
{
    if let Some(content) = crate::h2::model::headers_content(flags, payload) {
        if let Some(i) = crate::h2::model::pos_of(m.streams, id) {
            lemma_begun_ignores_input(m, i, flags, content, x);
        } else {
            let refused = m.streams.len() >= MAX_CONCURRENT_STREAMS;
            let n = H2Model {
                last_stream: id,
                streams: m.streams.push(
                    crate::h2::model::new_stream(id, m.initial_window, refused),
                ),
                ..m
            };
            lemma_begun_ignores_input(n, m.streams.len() as int, flags, content, x);
        }
    }
}

proof fn lemma_continuation_ignores_input(
    m: H2Model,
    id: u32,
    flags: u8,
    payload: Seq<u8>,
    x: Seq<u8>,
)
    ensures
        on_continuation(with_input(m, x), id, flags, payload) == with_input(
            on_continuation(m, id, flags, payload),
            x,
        ),
{
}

proof fn lemma_data_ignores_input(m: H2Model, id: u32, flags: u8, payload: Seq<u8>, x: Seq<u8>)
    ensures
        on_data(with_input(m, x), id, flags, payload) == with_input(
            on_data(m, id, flags, payload),
            x,
        ),
{
}

proof fn lemma_window_update_ignores_input(m: H2Model, id: u32, payload: Seq<u8>, x: Seq<u8>)
    ensures
        on_window_update(with_input(m, x), id, payload) == with_input(
            on_window_update(m, id, payload),
            x,
        ),
{
}

/// Frames may arrive in any pieces: parsing what is there and going on when
/// more arrives is the same as parsing all of it.
pub proof fn law_frames_in_pieces(m: H2Model, more: Seq<u8>)
    ensures
        ({
            let first = frames_parsed(m);
            frames_parsed(with_input(m, m.input + more)) == if first.closed {
                with_input(first, first.input + more)
            } else {
                frames_parsed(with_input(first, first.input + more))
            }
        }),
    decreases m.input.len(),
{
    let all = with_input(m, m.input + more);
    if m.closed {
    } else if m.input.len() < 9 {
    } else {
        let h = header_of(m.input);
        assert(all.input.subrange(0, 3) =~= m.input.subrange(0, 3));
        assert(all.input.subrange(5, 9) =~= m.input.subrange(5, 9));
        assert(header_of(all.input) == h);
        if h.length > OUR_MAX_FRAME {
        } else if m.input.len() < 9 + h.length {
        } else {
            let payload = m.input.subrange(9, 9 + h.length);
            let rest = m.input.skip(9 + h.length);
            assert(all.input.subrange(9, 9 + h.length) =~= payload);
            assert(all.input.skip(9 + h.length) =~= rest + more);
            let next = on_frame(with_input(m, rest), h, payload);
            lemma_frame_keeps_input(with_input(m, rest), h, payload);
            law_frame_ignores_what_follows(with_input(m, rest), h, payload, rest + more);
            assert(with_input(with_input(m, rest), rest + more) == with_input(m, rest + more));
            law_frames_in_pieces(next, more);
        }
    }
}

/// A connection that is to be closed takes no more input.
pub proof fn law_closed_ignores_input(m: H2Model, data: Seq<u8>)
    requires
        m.closed,
    ensures
        received(m, data) == m,
{
}

/// A connection error is reported once and ends the connection.
pub proof fn law_goaway_once(m: H2Model, a: u32, b: u32)
    ensures
        conn_failed(m, a).closed,
        conn_failed(conn_failed(m, a), b) == conn_failed(m, a),
{
}

/// A stream over the concurrency limit is never delivered, and its header
/// block is decoded all the same.
pub proof fn law_refused_stream_is_not_delivered(m: H2Model, i: int)
    requires
        0 <= i < m.streams.len(),
        m.streams[i].refused,
    ensures
        headers_done(m, i).ready == m.ready,
        headers_done(m, i).dec_blocks == m.dec_blocks.push(m.streams[i].block),
{
}

/// The queue of complete requests never outgrows the concurrency limit on a
/// connection that stays open.
pub proof fn law_ready_queue_is_bounded(m: H2Model, i: int, head: crate::proto::fields::RequestHeadModel, body: Seq<u8>)
    requires
        m.ready.len() <= MAX_CONCURRENT_STREAMS,
    ensures
        delivered(m, i, head, body).closed || delivered(m, i, head, body).ready.len()
            <= MAX_CONCURRENT_STREAMS,
{
}

/// A response to `HEAD` has no body to send, and tells the length of the body
/// it stands for unless the handler told one or no body is allowed.
pub proof fn law_head_reply_has_no_body(resp: ResponseModel)
    ensures
        outgoing(true, resp).body == BodyModel::Bytes(Seq::empty()),
        !resp.status.bodyless() && lookup(resp.headers, "content-length"@) is None ==> lookup(
            outgoing(true, resp).headers,
            "content-length"@,
        ) == Some(decimal(resp.body.size())),
{
    lemma_lookup_push(
        resp.headers,
        ("content-length"@, decimal(resp.body.size())),
        "content-length"@,
    );
}

/// Sending stays within both windows: neither the connection's nor a stream's
/// window is ever overdrawn, and a frame is never larger than the peer takes.
pub proof fn law_sending_respects_windows(m: H2Model, i: int, payload: Seq<u8>)
    requires
        m.wf(),
        next_sender(m, 0) == Some(i),
        payload.len() == chunk_len(m, m.streams[i]),
    ensures
        0 < payload.len() <= m.max_frame,
        0 <= data_sent(m, i, payload).window == m.window - payload.len(),
        0 <= data_sent(m, i, payload).streams[i].window == m.streams[i].window - payload.len(),
{
    lemma_next_sender(m, 0);
}

/// The first stream of `s` that can send, under the windows of `m`.
spec fn first_sending(m: H2Model, s: Seq<StreamModel>) -> Option<StreamModel>
    decreases s.len(),
{
    if s.len() == 0 {
        None
    } else if first_sending(m, s.drop_last()) is Some {
        first_sending(m, s.drop_last())
    } else if can_send(m, s.last()) {
        Some(s.last())
    } else {
        None
    }
}

proof fn lemma_first_sending(m: H2Model, s: Seq<StreamModel>)
    ensures
        match first_sending(m, s) {
            Some(t) => can_send(m, t) && exists|k: int|
                0 <= k < s.len() && #[trigger] s[k] == t && forall|j: int|
                    0 <= j < k ==> !can_send(m, #[trigger] s[j]),
            None => forall|j: int| 0 <= j < s.len() ==> !can_send(m, #[trigger] s[j]),
        },
    decreases s.len(),
{
    if s.len() > 0 {
        let d = s.drop_last();
        lemma_first_sending(m, d);
        if let Some(t) = first_sending(m, d) {
            let k = choose|k: int|
                0 <= k < d.len() && #[trigger] d[k] == t && forall|j: int|
                    0 <= j < k ==> !can_send(m, #[trigger] d[j]);
            assert(s[k] == t);
            assert forall|j: int| 0 <= j < k implies !can_send(m, #[trigger] s[j]) by {
                assert(d[j] == s[j]);
            }
        } else {
            assert forall|j: int| 0 <= j < s.len() - 1 implies !can_send(m, #[trigger] s[j]) by {
                assert(d[j] == s[j]);
            }
            if can_send(m, s.last()) {
                assert(s[s.len() - 1] == s.last());
            }
        }
    }
}

proof fn lemma_sender_is_first(m: H2Model)
    ensures
        match next_sender(m, 0) {
            Some(i) => first_sending(m, m.streams) == Some(m.streams[i]),
            None => first_sending(m, m.streams) is None,
        },
{
    lemma_next_sender(m, 0);
    lemma_first_sending(m, m.streams);
    if let Some(t) = first_sending(m, m.streams) {
        let k = choose|k: int|
            0 <= k < m.streams.len() && #[trigger] m.streams[k] == t && forall|j: int|
                0 <= j < k ==> !can_send(m, #[trigger] m.streams[j]);
        assert(can_send(m, m.streams[k]));
        if let Some(i) = next_sender(m, 0) {
            assert(can_send(m, m.streams[i]));
            assert(i == k);
        }
    }
}

proof fn lemma_dropping_keeps_sender(m: H2Model, s: Seq<StreamModel>)
    ensures
        first_sending(m, unfinished(s)) == first_sending(m, s),
        first_sending(m, unfailed(s)) == first_sending(m, s),
    decreases s.len(),
{
    if s.len() > 0 {
        let d = s.drop_last();
        lemma_dropping_keeps_sender(m, d);
        assert(unfinished(d).push(s.last()).drop_last() =~= unfinished(d));
        assert(unfailed(d).push(s.last()).drop_last() =~= unfailed(d));
    }
}

proof fn lemma_sender_depends_on_windows(m: H2Model, n: H2Model, s: Seq<StreamModel>)
    requires
        m.window == n.window,
        m.max_frame == n.max_frame,
    ensures
        first_sending(m, s) == first_sending(n, s),
    decreases s.len(),
{
    if s.len() > 0 {
        lemma_sender_depends_on_windows(m, n, s.drop_last());
    }
}

/// After pumping, no stream can send more unless a file read comes first, and
/// nothing but the output, the streams and their windows has changed.
pub proof fn law_pump_sends_all_it_can(m: H2Model)
    requires
        m.wf(),
    ensures
        next_sender(pumped(m), 0) is None || wanted(pumped(m)) is Some,
        0 <= pumped(m).window <= m.window,
        pumped(m).input == m.input,
        pumped(m).ready == m.ready,
        pumped(m).closed == m.closed,
    decreases m.window,
{
    lemma_next_sender(m, 0);
    let p = pumped(m);
    match next_sender(m, 0) {
        None => {
            lemma_sender_is_first(m);
            lemma_dropping_keeps_sender(m, m.streams);
            lemma_dropping_keeps_sender(m, unfinished(m.streams));
            lemma_sender_depends_on_windows(m, p, p.streams);
            lemma_sender_is_first(p);
        },
        Some(i) => {
            if let BodyModel::Bytes(d) = m.streams[i].out->0 {
                let b = d.take(chunk_len(m, m.streams[i]) as int);
                lemma_data_sent_wf(m, i, b);
                law_pump_sends_all_it_can(data_sent(m, i, b));
            } else {
                lemma_sender_is_first(m);
                lemma_dropping_keeps_sender(m, m.streams);
                lemma_sender_depends_on_windows(m, p, p.streams);
                lemma_sender_is_first(p);
            }
        },
    }
}

/// Sending data keeps a connection well-formed.
pub proof fn lemma_data_sent_wf(m: H2Model, i: int, payload: Seq<u8>)
    requires
        m.wf(),
        0 <= i < m.streams.len(),
        can_send(m, m.streams[i]),
        payload.len() == chunk_len(m, m.streams[i]),
    ensures
        data_sent(m, i, payload).wf(),
{
    let d = data_sent(m, i, payload);
    assert forall|k: int| 0 <= k < d.streams.len() implies 0 < (#[trigger] d.streams[k]).id
        <= d.last_stream by {
        assert(0 < m.streams[k].id <= m.last_stream);
    }
    assert forall|j: int, k: int| 0 <= j < k < d.streams.len() implies (#[trigger] d.streams[j]).id
        < (#[trigger] d.streams[k]).id by {
        assert(m.streams[j].id < m.streams[k].id);
    }
}

/// A body that cannot be read in full never ends its stream as if it were
/// complete: nothing of it is sent and the stream is left to be reset.
pub proof fn law_short_read_gives_up(m: H2Model, data: Option<Seq<u8>>)
    requires
        wanted(m) is Some,
        data matches Some(d) ==> d.len() != wanted(m)->0.read.len,
        m.wf(),
    ensures
        ({
            let i = next_sender(m, 0)->0;
            &&& read_done(m, data).output == m.output
            &&& read_done(m, data).streams[i].failed
            &&& !can_send(read_done(m, data), read_done(m, data).streams[i])
        }),
{
    lemma_next_sender(m, 0);
}

// ---------------------------------------------------------------------------
// How a response is framed
// ---------------------------------------------------------------------------

/// A frame that is sent.
pub struct SentFrame {
    pub ftype: u8,
    pub flags: u8,
    pub id: u32,
    pub payload: Seq<u8>,
}

/// Frames as they are sent.
pub open spec fn wire(frames: Seq<SentFrame>) -> Seq<u8>
    decreases frames.len(),
{
    if frames.len() == 0 {
        Seq::empty()
    } else {
        let f = frames.last();
        wire(frames.drop_last()) + frame_of(f.ftype, f.flags, f.id, f.payload)
    }
}

/// All that frames carry.
pub open spec fn carried(frames: Seq<SentFrame>) -> Seq<u8>
    decreases frames.len(),
{
    if frames.len() == 0 {
        Seq::empty()
    } else {
        carried(frames.drop_last()) + frames.last().payload
    }
}

/// The frames of a header block, one by one.
pub open spec fn header_list(
    id: u32,
    block: Seq<u8>,
    max: int,
    end_stream: bool,
    first: bool,
) -> Seq<SentFrame>
    decreases block.len(),
{
    let ty = if first {
        ftype::HEADERS
    } else {
        ftype::CONTINUATION
    };
    if max <= 0 || block.len() <= max {
        seq![
            SentFrame {
                ftype: ty,
                flags: header_flags(first, true, end_stream),
                id,
                payload: block,
            },
        ]
    } else {
        seq![
            SentFrame {
                ftype: ty,
                flags: header_flags(first, false, end_stream),
                id,
                payload: block.take(max),
            },
        ] + header_list(id, block.skip(max), max, end_stream, false)
    }
}

/// Frames one after the other are sent one after the other.
pub proof fn lemma_wire_concat(a: Seq<SentFrame>, b: Seq<SentFrame>)
    ensures
        wire(a + b) == wire(a) + wire(b),
        carried(a + b) == carried(a) + carried(b),
    decreases b.len(),
{
    if b.len() == 0 {
        assert(a + b =~= a);
        assert(wire(a) + wire(b) =~= wire(a));
        assert(carried(a) + carried(b) =~= carried(a));
    } else {
        lemma_wire_concat(a, b.drop_last());
        assert((a + b).drop_last() =~= a + b.drop_last());
        assert(wire(a + b) =~= wire(a) + wire(b));
        assert(carried(a + b) =~= carried(a) + carried(b));
    }
}

/// What one frame is on the wire.
pub proof fn lemma_wire_one(f: SentFrame)
    ensures
        wire(seq![f]) == frame_of(f.ftype, f.flags, f.id, f.payload),
        carried(seq![f]) == f.payload,
{
    reveal_with_fuel(wire, 2);
    reveal_with_fuel(carried, 2);
    assert(seq![f].drop_last() =~= Seq::empty());
    assert(wire(seq![f]) =~= frame_of(f.ftype, f.flags, f.id, f.payload));
    assert(carried(seq![f]) =~= f.payload);
}

proof fn lemma_header_flags(first: bool, last: bool, end_stream: bool)
    ensures
        flag_set(header_flags(first, last, end_stream), flag::END_STREAM) == (first && end_stream),
        flag_set(header_flags(first, last, end_stream), flag::END_HEADERS) == last,
{
    assert((4u8 | 1u8) & 1u8 != 0 && (4u8 | 1u8) & 4u8 != 0 && 4u8 & 1u8 == 0 && 4u8 & 4u8 != 0
        && 1u8 & 1u8 != 0 && 1u8 & 4u8 == 0 && 0u8 & 1u8 == 0 && 0u8 & 4u8 == 0) by (bit_vector);
}

proof fn lemma_header_list(id: u32, block: Seq<u8>, max: int, end_stream: bool, first: bool)
    requires
        max > 0,
    ensures
        ({
            let l = header_list(id, block, max, end_stream, first);
            &&& l.len() > 0
            &&& header_frames(id, block, max, end_stream, first) == wire(l)
            &&& carried(l) == block
            &&& forall|k: int|
                0 <= k < l.len() ==> {
                    &&& (#[trigger] l[k]).id == id
                    &&& l[k].payload.len() <= max
                    &&& l[k].ftype == (if k == 0 && first {
                        ftype::HEADERS
                    } else {
                        ftype::CONTINUATION
                    })
                    &&& flag_set(l[k].flags, flag::END_STREAM) == (k == 0 && first && end_stream)
                    &&& flag_set(l[k].flags, flag::END_HEADERS) == (k == l.len() - 1)
                }
        }),
    decreases block.len(),
{
    let l = header_list(id, block, max, end_stream, first);
    lemma_header_flags(first, true, end_stream);
    lemma_header_flags(first, false, end_stream);
    lemma_wire_one(l[0]);
    if block.len() > max {
        let t = header_list(id, block.skip(max), max, end_stream, false);
        lemma_header_list(id, block.skip(max), max, end_stream, false);
        lemma_wire_concat(seq![l[0]], t);
        assert(l =~= seq![l[0]] + t);
        assert(block.take(max) + block.skip(max) =~= block);
        assert forall|k: int| 0 <= k < l.len() implies {
            &&& (#[trigger] l[k]).id == id
            &&& l[k].payload.len() <= max
            &&& l[k].ftype == (if k == 0 && first {
                ftype::HEADERS
            } else {
                ftype::CONTINUATION
            })
            &&& flag_set(l[k].flags, flag::END_STREAM) == (k == 0 && first && end_stream)
            &&& flag_set(l[k].flags, flag::END_HEADERS) == (k == l.len() - 1)
        } by {
            if k > 0 {
                assert(l[k] == t[k - 1]);
            }
        }
    }
}

/// A header block goes out in one HEADERS frame and as many CONTINUATION frames as
/// it needs, none larger than the peer takes. Together they carry the block. The
/// first of them, and no other, ends the stream where no body follows; the last,
/// and no other, ends the block.
pub proof fn law_header_block_is_framed(id: u32, block: Seq<u8>, max: int, end_stream: bool)
    requires
        max > 0,
    ensures
        ({
            let l = header_list(id, block, max, end_stream, true);
            &&& l.len() > 0
            &&& header_frames(id, block, max, end_stream, true) == wire(l)
            &&& carried(l) == block
            &&& forall|k: int|
                0 <= k < l.len() ==> {
                    &&& (#[trigger] l[k]).id == id
                    &&& l[k].payload.len() <= max
                    &&& l[k].ftype == (if k == 0 {
                        ftype::HEADERS
                    } else {
                        ftype::CONTINUATION
                    })
                    &&& flag_set(l[k].flags, flag::END_STREAM) == (k == 0 && end_stream)
                    &&& flag_set(l[k].flags, flag::END_HEADERS) == (k == l.len() - 1)
                }
        }),
{
    lemma_header_list(id, block, max, end_stream, true);
}

/// Resets go to failed streams only.
pub proof fn lemma_resets_spare(streams: Seq<StreamModel>, id: u32) -> (rest: Seq<SentFrame>)
    requires
        forall|k: int| 0 <= k < streams.len() && (#[trigger] streams[k]).failed ==> streams[k].id != id,
    ensures
        failure_resets(streams) == wire(rest),
        forall|k: int| 0 <= k < rest.len() ==> (#[trigger] rest[k]).id != id,
    decreases streams.len(),
{
    if streams.len() == 0 {
        Seq::empty()
    } else {
        let s = streams.drop_last();
        assert forall|k: int| 0 <= k < s.len() && (#[trigger] s[k]).failed implies s[k].id != id by {
            assert(s[k] == streams[k]);
        }
        let r = lemma_resets_spare(s, id);
        if streams.last().failed {
            assert(streams[streams.len() - 1].failed);
            let f = SentFrame {
                ftype: ftype::RST_STREAM,
                flags: 0,
                id: streams.last().id,
                payload: be32(errcode::INTERNAL_ERROR as int),
            };
            assert(r.push(f).drop_last() =~= r);
            r.push(f)
        } else {
            r
        }
    }
}

/// No stream is made up.
pub proof fn lemma_unfinished_from(streams: Seq<StreamModel>)
    ensures
        forall|k: int|
            0 <= k < unfinished(streams).len() ==> streams.contains(#[trigger] unfinished(streams)[k]),
    decreases streams.len(),
{
    if streams.len() > 0 {
        let s = streams.drop_last();
        lemma_unfinished_from(s);
        let u = unfinished(streams);
        assert forall|k: int| 0 <= k < u.len() implies streams.contains(#[trigger] u[k]) by {
            if k < unfinished(s).len() {
                assert(u[k] == unfinished(s)[k]);
                let i = choose|i: int| 0 <= i < s.len() && s[i] == u[k];
                assert(streams[i] == u[k]);
            } else {
                assert(u[k] == streams[streams.len() - 1]);
            }
        }
    }
}

/// Pumping sends nothing on a stream with an empty body.
proof fn lemma_pump_spares(m: H2Model, j: int) -> (rest: Seq<SentFrame>)
    requires
        m.wf(),
        0 <= j < m.streams.len(),
        finished(m.streams[j]),
    ensures
        pumped(m).output == m.output + wire(rest),
        forall|k: int| 0 <= k < rest.len() ==> (#[trigger] rest[k]).id != m.streams[j].id,
    decreases m.window,
{
    let id = m.streams[j].id;
    lemma_next_sender(m, 0);
    match next_sender(m, 0) {
        None => {
            let u = unfinished(m.streams);
            lemma_unfinished_from(m.streams);
            assert forall|k: int| 0 <= k < u.len() && (#[trigger] u[k]).failed implies u[k].id != id by {
                let i = choose|i: int| 0 <= i < m.streams.len() && m.streams[i] == u[k];
                assert(i != j);
                assert(m.streams[i].id != m.streams[j].id);
            }
            lemma_resets_spare(u, id)
        },
        Some(i) => {
            assert(i != j);
            assert(m.streams[i].id != id);
            if let BodyModel::Bytes(d) = m.streams[i].out->0 {
                let b = d.take(chunk_len(m, m.streams[i]) as int);
                assert(b.len() == chunk_len(m, m.streams[i]));
                let n = data_sent(m, i, b);
                lemma_data_sent_wf(m, i, b);
                assert(n.streams[j] == m.streams[j]);
                let r = lemma_pump_spares(n, j);
                let flags: u8 = if b.len() == m.streams[i].out->0.size() {
                    flag::END_STREAM
                } else {
                    0
                };
                let f = SentFrame { ftype: ftype::DATA, flags, id: m.streams[i].id, payload: b };
                lemma_wire_one(f);
                lemma_wire_concat(seq![f], r);
                assert(m.output + wire(seq![f]) + wire(r) =~= m.output + wire(seq![f] + r));
                seq![f] + r
            } else {
                assert(m.output + wire(Seq::empty()) =~= m.output);
                Seq::empty()
            }
        },
    }
}

/// A response without a body ends its stream, once: what goes out for it is the
/// header block, whose first frame alone ends the stream, and nothing else that
/// goes out then is for this stream.
pub proof fn law_bodyless_response_ends_the_stream(m: H2Model, i: int, resp: ResponseModel)
    requires
        m.wf(),
        pos_of(m.streams, m.streams[i].id) == Some(i),
        0 <= i < m.streams.len(),
        m.streams[i].out is None,
        !m.streams[i].failed,
        outgoing(m.streams[i].is_head, resp).body.size() == 0,
    ensures
        ({
            let id = m.streams[i].id;
            let r = outgoing(m.streams[i].is_head, resp);
            let fields = response_fields_of(r.status, r.headers, m.server_name);
            let block = hpack_encoding(m.enc_size, m.enc_lists, fields);
            let l = header_list(id, block, m.max_frame, true, true);
            exists|rest: Seq<SentFrame>|
                {
                    &&& responded(m, id, resp).output == m.output + #[trigger] wire(l + rest)
                    &&& forall|k: int|
                        0 <= k < l.len() ==> flag_set((#[trigger] l[k]).flags, flag::END_STREAM) == (k
                            == 0)
                    &&& forall|k: int| 0 <= k < rest.len() ==> (#[trigger] rest[k]).id != id
                }
        }),
{
    let s = m.streams[i];
    let id = s.id;
    let r = outgoing(s.is_head, resp);
    let fields = response_fields_of(r.status, r.headers, m.server_name);
    let block = hpack_encoding(m.enc_size, m.enc_lists, fields);
    let l = header_list(id, block, m.max_frame, true, true);
    law_header_block_is_framed(id, block, m.max_frame, true);
    let m1 = H2Model {
        enc_lists: m.enc_lists.push(fields),
        output: m.output + header_frames(s.id, block, m.max_frame, true, true),
        ..m.set_stream(i, StreamModel { out: Some(r.body), ..s })
    };
    assert(m1.wf()) by {
        assert forall|k: int| 0 <= k < m1.streams.len() implies 0 < (#[trigger] m1.streams[k]).id
            <= m1.last_stream by {
            assert(0 < m.streams[k].id <= m.last_stream);
        }
        assert forall|a: int, b: int| 0 <= a < b < m1.streams.len() implies (
        #[trigger] m1.streams[a]).id < (#[trigger] m1.streams[b]).id by {
            assert(m.streams[a].id < m.streams[b].id);
        }
    }
    let rest = lemma_pump_spares(m1, i);
    lemma_wire_concat(l, rest);
    assert(m.output + wire(l) + wire(rest) =~= m.output + wire(l + rest));
}

} // verus!
