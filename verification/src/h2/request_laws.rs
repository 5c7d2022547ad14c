//! Laws of request assembly: what request comes of the frames of a stream.
use crate::h2::flag;
use crate::h2::frame::{
    flag_set, frame_of, header_of, law_frame_round_trip, unpadded, window_update_frame, FrameHeader,
};
use crate::h2::ftype;
use crate::h2::hpack::hpack_decoding;
use crate::h2::model::{
    frames_parsed, headers_begun, headers_done, new_stream, on_continuation, on_data, on_frame,
    on_headers, pos_of, H2Model, StreamModel, MAX_CONCURRENT_STREAMS, MAX_CONTINUATION_FRAMES,
    OUR_MAX_FRAME,
};
use crate::h2::laws::with_input;
use crate::proto::fields::{request_head_of, RequestHeadModel};
use crate::proto::method::MethodModel;
use crate::proto::request::RequestModel;
use crate::proto::version::Version;
use vstd::prelude::*;

verus! {

broadcast use vstd::seq::group_seq_axioms;

/// What a DATA frame carries, and the padding behind it where it is padded.
pub struct DataPart {
    pub content: Seq<u8>,
    pub padding: Option<Seq<u8>>,
}

impl DataPart {
    /// Whether the frame can be: padding is counted in one byte, and frames have a
    /// largest size.
    pub open spec fn wf(self) -> bool {
        &&& self.padding matches Some(p) ==> p.len() < 256
        &&& self.payload().len() <= OUR_MAX_FRAME
    }

    /// The payload: the content alone, or the length of the padding, the content
    /// and the padding.
    pub open spec fn payload(self) -> Seq<u8> {
        match self.padding {
            None => self.content,
            Some(p) => seq![p.len() as u8] + self.content + p,
        }
    }

    /// The frame on the wire; the last one of a stream says so.
    pub open spec fn frame(self, id: u32, last: bool) -> Seq<u8> {
        frame_of(ftype::DATA, data_flags(last, self.padding is Some), id, self.payload())
    }
}

/// The flags of a DATA frame.
pub open spec fn data_flags(last: bool, padded: bool) -> u8 {
    if last && padded {
        0x9
    } else if last {
        0x1
    } else if padded {
        0x8
    } else {
        0
    }
}

/// The DATA frames of a body on the wire, the last of which ends the stream.
pub open spec fn data_wire(id: u32, parts: Seq<DataPart>) -> Seq<u8>
    decreases parts.len(),
{
    if parts.len() == 0 {
        Seq::empty()
    } else {
        parts[0].frame(id, parts.len() == 1) + data_wire(id, parts.skip(1))
    }
}

/// All that DATA frames carry, in order.
pub open spec fn contents(parts: Seq<DataPart>) -> Seq<u8>
    decreases parts.len(),
{
    if parts.len() == 0 {
        Seq::empty()
    } else {
        contents(parts.drop_last()) + parts.last().content
    }
}

/// The credit for DATA frames: what each took of the windows, padding included, is
/// given back to the connection and to the stream.
pub open spec fn credits(id: u32, parts: Seq<DataPart>) -> Seq<u8>
    decreases parts.len(),
{
    if parts.len() == 0 {
        Seq::empty()
    } else {
        let n = parts.last().payload().len();
        credits(id, parts.drop_last()) + if n > 0 {
            window_update_frame(0, n as u32) + window_update_frame(id, n as u32)
        } else {
            Seq::empty()
        }
    }
}

proof fn lemma_contents_first(parts: Seq<DataPart>)
    requires
        parts.len() > 0,
    ensures
        contents(parts) == parts[0].content + contents(parts.skip(1)),
    decreases parts.len(),
{
    let rest = parts.skip(1);
    if parts.len() == 1 {
        assert(parts.drop_last() =~= Seq::empty());
        assert(rest =~= Seq::empty());
        assert(contents(parts) =~= parts[0].content + contents(rest));
    } else {
        lemma_contents_first(parts.drop_last());
        assert(parts.drop_last().skip(1) =~= rest.drop_last());
        assert(contents(parts) =~= parts[0].content + contents(rest));
    }
}

proof fn lemma_credits_first(id: u32, parts: Seq<DataPart>)
    requires
        parts.len() > 0,
    ensures
        credits(id, parts) == credits(id, seq![parts[0]]) + credits(id, parts.skip(1)),
    decreases parts.len(),
{
    let rest = parts.skip(1);
    if parts.len() == 1 {
        assert(parts =~= seq![parts[0]]);
        assert(rest =~= Seq::empty());
        assert(credits(id, parts) =~= credits(id, seq![parts[0]]) + credits(id, rest));
    } else {
        lemma_credits_first(id, parts.drop_last());
        assert(parts.drop_last().skip(1) =~= rest.drop_last());
        assert(credits(id, parts) =~= credits(id, seq![parts[0]]) + credits(id, rest));
    }
}

proof fn lemma_data_flags(last: bool, padded: bool)
    ensures
        flag_set(data_flags(last, padded), flag::END_STREAM) == last,
        flag_set(data_flags(last, padded), flag::PADDED) == padded,
{
    assert(9u8 & 1u8 != 0 && 9u8 & 8u8 != 0 && 1u8 & 1u8 != 0 && 1u8 & 8u8 == 0 && 8u8 & 1u8 == 0
        && 8u8 & 8u8 != 0 && 0u8 & 1u8 == 0 && 0u8 & 8u8 == 0) by (bit_vector);
}

proof fn lemma_unpadded(part: DataPart)
    requires
        part.wf(),
    ensures
        unpadded(part.payload(), part.padding is Some) == Some(part.content),
{
    if let Some(p) = part.padding {
        let w = part.payload();
        assert(w[0] == p.len());
        assert(w.subrange(1, w.len() - w[0]) =~= part.content);
    }
}

/// The stream with an id is found at its place.
proof fn lemma_pos(streams: Seq<StreamModel>, i: int)
    requires
        0 <= i < streams.len(),
        forall|a: int, b: int|
            0 <= a < b < streams.len() ==> (#[trigger] streams[a]).id < (#[trigger] streams[b]).id,
    ensures
        pos_of(streams, streams[i].id) == Some(i),
    decreases streams.len(),
{
    if i < streams.len() - 1 {
        let s = streams.drop_last();
        assert(streams[i].id < streams[streams.len() - 1].id);
        assert forall|a: int, b: int| 0 <= a < b < s.len() implies (#[trigger] s[a]).id < (
        #[trigger] s[b]).id by {
            assert(s[a] == streams[a] && s[b] == streams[b]);
        }
        assert(s[i] == streams[i]);
        lemma_pos(s, i);
    }
}

/// One frame at the front of the input is taken off it and handled.
proof fn lemma_one_frame(m: H2Model, ft: u8, flags: u8, id: u32, payload: Seq<u8>, rest: Seq<u8>)
    requires
        !m.closed,
        payload.len() <= OUR_MAX_FRAME,
        id < 0x8000_0000,
    ensures
        frames_parsed(with_input(m, frame_of(ft, flags, id, payload) + rest)) == frames_parsed(
            on_frame(
                with_input(m, rest),
                FrameHeader { length: payload.len() as usize, ftype: ft, flags, stream_id: id },
                payload,
            ),
        ),
{
    let f = frame_of(ft, flags, id, payload);
    let all = f + rest;
    law_frame_round_trip(ft, flags, id, payload);
    assert(all.subrange(0, 3) =~= f.subrange(0, 3));
    assert(all.subrange(5, 9) =~= f.subrange(5, 9));
    assert(all[3] == f[3] && all[4] == f[4]);
    assert(header_of(all) == header_of(f));
    assert(all.subrange(9, 9 + payload.len() as int) =~= f.skip(9));
    assert(all.skip(9 + payload.len() as int) =~= rest);
    let n = with_input(m, all);
    assert(with_input(m, rest) == H2Model { input: all.skip(9 + payload.len() as int), ..n });
}

/// Whether a stream is open with this head and its body still arriving.
pub open spec fn awaits_body(m: H2Model, i: int, head: RequestHeadModel) -> bool {
    &&& m.wf()
    &&& !m.closed
    &&& m.continuation is None
    &&& 0 <= i < m.streams.len()
    &&& m.streams[i].id < 0x8000_0000
    &&& m.streams[i].head == Some(head)
}

/// One DATA frame that does not end the stream.
proof fn lemma_data_kept(m: H2Model, i: int, head: RequestHeadModel, part: DataPart)
    requires
        awaits_body(m, i, head),
        part.wf(),
        m.streams[i].body.len() + part.content.len() <= m.limits.max_body_bytes,
    ensures
        ({
            let id = m.streams[i].id;
            let n = on_data(m, id, data_flags(false, part.padding is Some), part.payload());
            &&& n == (H2Model { output: n.output, streams: n.streams, ..m })
            &&& n.output == m.output + credits(id, seq![part])
            &&& n.streams == m.streams.update(
                i,
                StreamModel { body: m.streams[i].body + part.content, ..m.streams[i] },
            )
            &&& awaits_body(n, i, head)
        }),
{
    let id = m.streams[i].id;
    let s = m.streams[i];
    lemma_pos(m.streams, i);
    lemma_data_flags(false, part.padding is Some);
    lemma_unpadded(part);
    lemma_one_credit(id, part);
    let n = on_data(m, id, data_flags(false, part.padding is Some), part.payload());
    assert(n.output =~= m.output + credits(id, seq![part]));
    assert(n.streams =~= m.streams.update(i, StreamModel { body: s.body + part.content, ..s }));
    assert forall|k: int| 0 <= k < n.streams.len() implies 0 < (#[trigger] n.streams[k]).id
        <= n.last_stream by {
        assert(0 < m.streams[k].id <= m.last_stream);
    }
    assert forall|a: int, b: int| 0 <= a < b < n.streams.len() implies (#[trigger] n.streams[a]).id
        < (#[trigger] n.streams[b]).id by {
        assert(m.streams[a].id < m.streams[b].id);
    }
    assert forall|k: int| 0 <= k < n.streams.len() implies -crate::h2::model::MAX_WINDOW <= (
    #[trigger] n.streams[k]).window - n.initial_window <= crate::h2::model::MAX_WINDOW by {
        assert(-crate::h2::model::MAX_WINDOW <= m.streams[k].window - m.initial_window);
    }
}

proof fn lemma_one_credit(id: u32, part: DataPart)
    ensures
        ({
            let n = part.payload().len();
            credits(id, seq![part]) == if n > 0 {
                window_update_frame(0, n as u32) + window_update_frame(id, n as u32)
            } else {
                Seq::empty()
            }
        }),
{
    reveal_with_fuel(credits, 2);
    assert(seq![part].drop_last() =~= Seq::empty());
    let n = part.payload().len();
    let c = if n > 0 {
        window_update_frame(0, n as u32) + window_update_frame(id, n as u32)
    } else {
        Seq::empty()
    };
    assert(credits(id, seq![part]) =~= c);
}

/// The DATA frame that ends the stream.
proof fn lemma_data_ends(m: H2Model, i: int, head: RequestHeadModel, part: DataPart)
    requires
        awaits_body(m, i, head),
        part.wf(),
        m.streams[i].body.len() + part.content.len() <= m.limits.max_body_bytes,
        m.ready.len() < MAX_CONCURRENT_STREAMS,
    ensures
        ({
            let id = m.streams[i].id;
            let n = on_data(m, id, data_flags(true, part.padding is Some), part.payload());
            &&& !n.closed
            &&& n.input == m.input
            &&& n.output == m.output + credits(id, seq![part])
            &&& n.ready == m.ready.push(
                (
                    id,
                    RequestModel {
                        method: head.method,
                        target: head.target,
                        version: Version::Http2,
                        headers: head.headers,
                        body: m.streams[i].body + part.content,
                        params: Seq::empty(),
                    },
                ),
            )
            &&& n.streams.len() == m.streams.len()
            &&& n.streams[i].is_head == (head.method == MethodModel::Head)
        }),
{
    let id = m.streams[i].id;
    lemma_pos(m.streams, i);
    lemma_data_flags(true, part.padding is Some);
    lemma_unpadded(part);
    lemma_one_credit(id, part);
    let n = on_data(m, id, data_flags(true, part.padding is Some), part.payload());
    assert(n.output =~= m.output + credits(id, seq![part]));
}

/// The body of a request is all that its DATA frames carry, in order, without
/// their padding: when the last of them has arrived the request is delivered with
/// just that body, the head that it had, and the id of its stream, behind the
/// requests that were there. Every frame is credited back as it comes.
pub proof fn law_body_is_what_its_frames_carry(
    m: H2Model,
    i: int,
    head: RequestHeadModel,
    parts: Seq<DataPart>,
)
    requires
        awaits_body(m, i, head),
        m.ready.len() < MAX_CONCURRENT_STREAMS,
        parts.len() > 0,
        forall|k: int| 0 <= k < parts.len() ==> (#[trigger] parts[k]).wf(),
        m.streams[i].body.len() + contents(parts).len() <= m.limits.max_body_bytes,
    ensures
        ({
            let id = m.streams[i].id;
            let n = frames_parsed(with_input(m, data_wire(id, parts)));
            &&& n.ready == m.ready.push(
                (
                    id,
                    RequestModel {
                        method: head.method,
                        target: head.target,
                        version: Version::Http2,
                        headers: head.headers,
                        body: m.streams[i].body + contents(parts),
                        params: Seq::empty(),
                    },
                ),
            )
            &&& n.output == m.output + credits(id, parts)
            &&& !n.closed
        }),
    decreases parts.len(),
{
    let id = m.streams[i].id;
    let s = m.streams[i];
    let part = parts[0];
    let rest = parts.skip(1);
    let last = parts.len() == 1;
    let wire = data_wire(id, rest);
    let flags = data_flags(last, part.padding is Some);
    lemma_contents_first(parts);
    lemma_credits_first(id, parts);
    lemma_one_frame(m, ftype::DATA, flags, id, part.payload(), wire);
    reveal(on_frame);
    let mr = with_input(m, wire);
    if last {
        assert(rest =~= Seq::empty());
        assert(contents(parts) =~= part.content);
        assert(credits(id, parts) =~= credits(id, seq![part]));
        lemma_data_ends(mr, i, head, part);
        let n = on_data(mr, id, flags, part.payload());
        assert(n.input.len() == 0);
        assert(frames_parsed(n) == n);
    } else {
        lemma_data_kept(mr, i, head, part);
        let n = on_data(mr, id, flags, part.payload());
        assert forall|k: int| 0 <= k < rest.len() implies (#[trigger] rest[k]).wf() by {
            assert(rest[k] == parts[k + 1]);
        }
        assert(n.streams[i].body == s.body + part.content);
        assert(n.streams[i].body + contents(rest) =~= s.body + contents(parts));
        law_body_is_what_its_frames_carry(n, i, head, rest);
        assert(with_input(n, wire) == n);
        assert(m.output + credits(id, seq![part]) + credits(id, rest) =~= m.output + credits(
            id,
            parts,
        ));
    }
}

/// A body that grows beyond the limit resets its stream, and no request comes of
/// it.
pub proof fn law_body_over_the_limit_is_refused(m: H2Model, i: int, part: DataPart, last: bool)
    requires
        m.wf(),
        0 <= i < m.streams.len(),
        part.wf(),
        m.streams[i].body.len() + part.content.len() > m.limits.max_body_bytes,
    ensures
        ({
            let id = m.streams[i].id;
            let n = on_data(m, id, data_flags(last, part.padding is Some), part.payload());
            &&& n.ready == m.ready
            &&& n.streams == m.streams.remove(i)
            &&& n.closed == m.closed
        }),
{
    lemma_pos(m.streams, i);
    lemma_data_flags(last, part.padding is Some);
    lemma_unpadded(part);
}

// ---------------------------------------------------------------------------
// Heads
// ---------------------------------------------------------------------------

/// The CONTINUATION frames that carry the pieces of a header block, the last of
/// which ends it.
pub open spec fn continuation_wire(id: u32, pieces: Seq<Seq<u8>>) -> Seq<u8>
    decreases pieces.len(),
{
    if pieces.len() == 0 {
        Seq::empty()
    } else {
        let flags: u8 = if pieces.len() == 1 {
            0x4
        } else {
            0
        };
        frame_of(ftype::CONTINUATION, flags, id, pieces[0]) + continuation_wire(id, pieces.skip(1))
    }
}

/// Pieces put together.
pub open spec fn whole(pieces: Seq<Seq<u8>>) -> Seq<u8>
    decreases pieces.len(),
{
    if pieces.len() == 0 {
        Seq::empty()
    } else {
        whole(pieces.drop_last()) + pieces.last()
    }
}

proof fn lemma_whole_first(pieces: Seq<Seq<u8>>)
    requires
        pieces.len() > 0,
    ensures
        whole(pieces) == pieces[0] + whole(pieces.skip(1)),
    decreases pieces.len(),
{
    let rest = pieces.skip(1);
    if pieces.len() == 1 {
        assert(pieces.drop_last() =~= Seq::empty());
        assert(rest =~= Seq::empty());
        assert(whole(pieces) =~= pieces[0] + whole(rest));
    } else {
        lemma_whole_first(pieces.drop_last());
        assert(pieces.drop_last().skip(1) =~= rest.drop_last());
        assert(whole(pieces) =~= pieces[0] + whole(rest));
    }
}

/// The flags of a HEADERS frame without padding and priority.
pub open spec fn head_flags(ends_stream: bool, ends_block: bool) -> u8 {
    if ends_stream && ends_block {
        0x5
    } else if ends_stream {
        0x1
    } else if ends_block {
        0x4
    } else {
        0
    }
}

proof fn lemma_head_flags(ends_stream: bool, ends_block: bool)
    ensures
        flag_set(head_flags(ends_stream, ends_block), flag::END_STREAM) == ends_stream,
        flag_set(head_flags(ends_stream, ends_block), flag::END_HEADERS) == ends_block,
        !flag_set(head_flags(ends_stream, ends_block), flag::PADDED),
        !flag_set(head_flags(ends_stream, ends_block), flag::PRIORITY),
{
    assert(5u8 & 1u8 != 0 && 5u8 & 4u8 != 0 && 5u8 & 8u8 == 0 && 5u8 & 0x20u8 == 0 && 1u8 & 1u8 != 0
        && 1u8 & 4u8 == 0 && 1u8 & 8u8 == 0 && 1u8 & 0x20u8 == 0 && 4u8 & 1u8 == 0 && 4u8 & 4u8 != 0
        && 4u8 & 8u8 == 0 && 4u8 & 0x20u8 == 0 && 0u8 & 1u8 == 0 && 0u8 & 4u8 == 0 && 0u8 & 8u8 == 0
        && 0u8 & 0x20u8 == 0) by (bit_vector);
}

/// What a connection does with a header block that is complete.
pub open spec fn head_arrived(m: H2Model, i: int, block: Seq<u8>) -> H2Model {
    headers_done(
        H2Model {
            streams: m.streams.update(i, StreamModel { block, ..m.streams[i] }),
            continuation: None,
            ..m
        },
        i,
    )
}

proof fn lemma_continued(m: H2Model, i: int, pieces: Seq<Seq<u8>>)
    requires
        m.wf(),
        !m.closed,
        0 <= i < m.streams.len(),
        m.streams[i].assembling,
        m.streams[i].id < 0x8000_0000,
        m.continuation == Some(m.streams[i].id),
        m.input.len() == 0,
        0 < pieces.len() <= MAX_CONTINUATION_FRAMES - m.continuation_frames,
        forall|k: int| 0 <= k < pieces.len() ==> (#[trigger] pieces[k]).len() <= OUR_MAX_FRAME,
        m.streams[i].block.len() + whole(pieces).len() <= m.limits.max_header_bytes,
    ensures
        frames_parsed(with_input(m, continuation_wire(m.streams[i].id, pieces))) == frames_parsed(
            head_arrived(
                H2Model { continuation_frames: m.continuation_frames + pieces.len(), ..m },
                i,
                m.streams[i].block + whole(pieces),
            ),
        ),
    decreases pieces.len(),
{
    let s = m.streams[i];
    let id = s.id;
    let rest = pieces.skip(1);
    let wire = continuation_wire(id, rest);
    let last = pieces.len() == 1;
    let flags: u8 = if last {
        0x4
    } else {
        0
    };
    lemma_head_flags(false, last);
    lemma_whole_first(pieces);
    lemma_one_frame(m, ftype::CONTINUATION, flags, id, pieces[0], wire);
    reveal(on_frame);
    lemma_pos(m.streams, i);
    let mr = with_input(m, wire);
    let n = on_continuation(mr, id, flags, pieces[0]);
    if last {
        assert(rest =~= Seq::empty());
        assert(whole(pieces) =~= pieces[0]);
        assert(wire =~= m.input);
        assert(mr == m);
        let block = s.block + pieces[0];
        let k = H2Model { continuation_frames: m.continuation_frames + 1, ..m };
        assert(k.set_stream(i, StreamModel { block, ..s }).streams == m.streams.update(
            i,
            StreamModel { block, ..s },
        ));
    } else {
        assert(n == (H2Model {
            continuation_frames: m.continuation_frames + 1,
            ..mr.set_stream(i, StreamModel { block: s.block + pieces[0], ..s })
        }));
        assert forall|k: int| 0 <= k < rest.len() implies (#[trigger] rest[k]).len()
            <= OUR_MAX_FRAME by {
            assert(rest[k] == pieces[k + 1]);
        }
        let q = with_input(n, m.input);
        assert(s.block + pieces[0] + whole(rest) =~= s.block + whole(pieces));
        assert(q.wf()) by {
            assert forall|k: int| 0 <= k < q.streams.len() implies 0 < (#[trigger] q.streams[k]).id
                <= q.last_stream by {
                assert(0 < m.streams[k].id <= m.last_stream);
            }
            assert forall|a: int, b: int| 0 <= a < b < q.streams.len() implies (
            #[trigger] q.streams[a]).id < (#[trigger] q.streams[b]).id by {
                assert(m.streams[a].id < m.streams[b].id);
            }
            assert forall|k: int| 0 <= k < q.streams.len() implies -crate::h2::model::MAX_WINDOW <= (
            #[trigger] q.streams[k]).window - q.initial_window <= crate::h2::model::MAX_WINDOW by {
                assert(-crate::h2::model::MAX_WINDOW <= m.streams[k].window - m.initial_window);
            }
        }
        lemma_continued(q, i, rest);
        assert(with_input(q, wire) == n);
        let block = s.block + whole(pieces);
        assert(q.streams.update(i, StreamModel { block, ..q.streams[i] }) =~= m.streams.update(
            i,
            StreamModel { block, ..s },
        ));
        let a = H2Model { continuation_frames: q.continuation_frames + rest.len(), ..q };
        let b = H2Model { continuation_frames: m.continuation_frames + pieces.len(), ..m };
        assert(H2Model {
            streams: a.streams.update(i, StreamModel { block, ..a.streams[i] }),
            continuation: None,
            ..a
        } == H2Model {
            streams: b.streams.update(i, StreamModel { block, ..b.streams[i] }),
            continuation: None,
            ..b
        });
    }
}

/// The head of a new stream is what the header decoder makes of all the pieces of
/// its header block together: one in a HEADERS frame, the others in CONTINUATION
/// frames. Where the block spells a request, the stream waits for its body, or the
/// request is delivered without one if the HEADERS frame ended the stream.
pub proof fn law_head_is_what_its_frames_carry(
    m: H2Model,
    id: u32,
    ends_stream: bool,
    first: Seq<u8>,
    pieces: Seq<Seq<u8>>,
    head: RequestHeadModel,
)
    requires
        m.wf(),
        !m.closed,
        m.continuation is None,
        m.input.len() == 0,
        m.last_stream < id < 0x8000_0000,
        id % 2 == 1,
        m.streams.len() < MAX_CONCURRENT_STREAMS,
        m.ready.len() < MAX_CONCURRENT_STREAMS,
        first.len() <= OUR_MAX_FRAME,
        pieces.len() <= MAX_CONTINUATION_FRAMES,
        forall|k: int| 0 <= k < pieces.len() ==> (#[trigger] pieces[k]).len() <= OUR_MAX_FRAME,
        first.len() + whole(pieces).len() <= m.limits.max_header_bytes,
        hpack_decoding(m.dec_limits, m.dec_blocks, first + whole(pieces)) is Some,
        request_head_of(
            hpack_decoding(m.dec_limits, m.dec_blocks, first + whole(pieces))->0,
        ) == Some(head),
    ensures
        ({
            let wire = frame_of(
                ftype::HEADERS,
                head_flags(ends_stream, pieces.len() == 0),
                id,
                first,
            ) + continuation_wire(id, pieces);
            let n = frames_parsed(with_input(m, wire));
            let i = m.streams.len() as int;
            &&& !n.closed
            &&& n.continuation is None
            &&& n.output == m.output
            &&& n.dec_blocks == m.dec_blocks.push(first + whole(pieces))
            &&& n.last_stream == id
            &&& n.streams.len() == i + 1
            &&& n.streams.take(i) == m.streams
            &&& n.streams[i].id == id
            &&& n.streams[i].window == m.initial_window
            &&& !ends_stream ==> n.ready == m.ready && n.streams[i].head == Some(head)
                && n.streams[i].body.len() == 0
            &&& ends_stream ==> n.ready == m.ready.push(
                (
                    id,
                    RequestModel {
                        method: head.method,
                        target: head.target,
                        version: Version::Http2,
                        headers: head.headers,
                        body: Seq::empty(),
                        params: Seq::empty(),
                    },
                ),
            )
        }),
{
    let cont = continuation_wire(id, pieces);
    let flags = head_flags(ends_stream, pieces.len() == 0);
    let i = m.streams.len() as int;
    lemma_head_flags(ends_stream, pieces.len() == 0);
    lemma_one_frame(m, ftype::HEADERS, flags, id, first, cont);
    reveal(on_frame);
    let mr = with_input(m, cont);
    lemma_not_there(m.streams, id);
    let opened = H2Model {
        last_stream: id,
        streams: m.streams.push(new_stream(id, m.initial_window, false)),
        ..mr
    };
    assert(on_headers(mr, id, flags, first) == headers_begun(opened, i, flags, first));
    let n = headers_begun(opened, i, flags, first);
    let s = StreamModel {
        block: first,
        assembling: true,
        ended: ends_stream,
        ..new_stream(id, m.initial_window, false)
    };
    assert(opened.streams[i].block + first =~= first);
    let begun = H2Model { continuation_frames: 0, ..opened.set_stream(i, s) };
    let block = first + whole(pieces);
    let done = H2Model {
        continuation_frames: pieces.len() as int,
        input: m.input,
        streams: m.streams.push(StreamModel { block, ..s }),
        ..begun
    };
    lemma_done(m, i, id, ends_stream, block, head, done);
    if pieces.len() == 0 {
        assert(block =~= first);
        assert(cont =~= m.input);
        assert(begun.streams =~= done.streams);
        assert(begun == done);
        assert(n == headers_done(begun, i));
    } else {
        assert(n == (H2Model { continuation: Some(id), ..begun }));
        let q = with_input(n, m.input);
        assert(q.wf()) by {
            assert forall|k: int| 0 <= k < q.streams.len() implies 0 < (#[trigger] q.streams[k]).id
                <= q.last_stream by {
                if k < i {
                    assert(q.streams[k] == m.streams[k]);
                }
            }
            assert forall|a: int, b: int| 0 <= a < b < q.streams.len() implies (
            #[trigger] q.streams[a]).id < (#[trigger] q.streams[b]).id by {
                assert(q.streams[a] == m.streams[a]);
                if b < i {
                    assert(q.streams[b] == m.streams[b]);
                }
            }
            assert forall|k: int| 0 <= k < q.streams.len() implies -crate::h2::model::MAX_WINDOW <= (
            #[trigger] q.streams[k]).window - q.initial_window <= crate::h2::model::MAX_WINDOW by {
                if k < i {
                    assert(q.streams[k] == m.streams[k]);
                }
            }
        }
        lemma_continued(q, i, pieces);
        assert(with_input(q, cont) == n);
        let a = H2Model { continuation_frames: q.continuation_frames + pieces.len(), ..q };
        assert(a.streams.update(i, StreamModel { block, ..a.streams[i] }) =~= done.streams);
        assert(head_arrived(a, i, block) == headers_done(done, i));
    }
    let end = headers_done(done, i);
    assert(end.input == m.input);
    assert(frames_parsed(end) == end);
}

proof fn lemma_not_there(streams: Seq<StreamModel>, id: u32)
    requires
        forall|i: int| 0 <= i < streams.len() ==> (#[trigger] streams[i]).id < id,
    ensures
        pos_of(streams, id) is None,
    decreases streams.len(),
{
    if streams.len() > 0 {
        assert(streams[streams.len() - 1].id < id);
        assert forall|i: int| 0 <= i < streams.drop_last().len() implies (
        #[trigger] streams.drop_last()[i]).id < id by {
            assert(streams.drop_last()[i] == streams[i]);
        }
        lemma_not_there(streams.drop_last(), id);
    }
}

proof fn lemma_done(
    m: H2Model,
    i: int,
    id: u32,
    ends_stream: bool,
    block: Seq<u8>,
    head: RequestHeadModel,
    done: H2Model,
)
    requires
        i == m.streams.len(),
        !m.closed,
        m.continuation is None,
        m.ready.len() < MAX_CONCURRENT_STREAMS,
        hpack_decoding(m.dec_limits, m.dec_blocks, block) is Some,
        request_head_of(hpack_decoding(m.dec_limits, m.dec_blocks, block)->0) == Some(head),
        done == (H2Model {
            continuation_frames: done.continuation_frames,
            last_stream: id,
            streams: m.streams.push(
                StreamModel {
                    block,
                    assembling: true,
                    ended: ends_stream,
                    ..new_stream(id, m.initial_window, false)
                },
            ),
            ..m
        }),
    ensures
        ({
            let n = headers_done(done, i);
            &&& !n.closed
            &&& n.input == m.input
            &&& n.continuation is None
            &&& n.output == m.output
            &&& n.dec_blocks == m.dec_blocks.push(block)
            &&& n.last_stream == id
            &&& n.streams.len() == i + 1
            &&& n.streams.take(i) == m.streams
            &&& n.streams[i].id == id
            &&& n.streams[i].window == m.initial_window
            &&& !ends_stream ==> n.ready == m.ready && n.streams[i].head == Some(head)
                && n.streams[i].body.len() == 0
            &&& ends_stream ==> n.ready == m.ready.push(
                (
                    id,
                    RequestModel {
                        method: head.method,
                        target: head.target,
                        version: Version::Http2,
                        headers: head.headers,
                        body: Seq::empty(),
                        params: Seq::empty(),
                    },
                ),
            )
        }),
{
    let n = headers_done(done, i);
    assert(n.streams.take(i) =~= m.streams);
}

/// Each header block is decoded once and in order, so that the decoder stays in
/// step with the peer, whatever comes of the stream.
pub proof fn law_every_block_is_decoded(m: H2Model, i: int)
    requires
        0 <= i < m.streams.len(),
    ensures
        headers_done(m, i).dec_blocks == m.dec_blocks.push(m.streams[i].block),
{
}

} // verus!
