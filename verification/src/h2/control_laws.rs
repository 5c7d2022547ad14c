//! Laws of connection control: windows, settings, pings, resets, and the preface.
use crate::bytes::{be32, lemma_be32_value};
use crate::h2::frame::{frame_of, law_settings_round_trip, settings_payload, FrameHeader};
use crate::h2::ftype;
use crate::h2::model::{
    greeting, on_frame, pos_of, received, settings_applied, H2Model, StreamModel,
};
use vstd::prelude::*;
use vstd::utf8::encode_utf8;

verus! {

broadcast use vstd::seq::group_seq_axioms;

/// The header of a frame.
pub open spec fn header(ft: u8, flags: u8, id: u32, payload: Seq<u8>) -> FrameHeader {
    FrameHeader { length: payload.len() as usize, ftype: ft, flags, stream_id: id }
}

/// A ping is answered with the same eight bytes, marked as the answer; an answer is
/// not answered.
pub proof fn law_ping_is_echoed(m: H2Model, data: Seq<u8>)
    requires
        m.continuation is None,
        data.len() == 8,
    ensures
        on_frame(m, header(6, 0, 0, data), data) == (H2Model {
            output: m.output + frame_of(6, 1, 0, data),
            ..m
        }),
        on_frame(m, header(6, 1, 0, data), data) == m,
{
    reveal(on_frame);
    assert(1u8 & 1u8 != 0 && 0u8 & 1u8 == 0) by (bit_vector);
}

/// A window update adds to the window it is for, and to no other: the
/// connection's, or one stream's. What would overflow is refused, and so is an
/// update by nothing.
pub proof fn law_window_update_adds(m: H2Model, i: int, n: u32)
    requires
        m.wf(),
        m.continuation is None,
        0 <= i < m.streams.len(),
        pos_of(m.streams, m.streams[i].id) == Some(i),
        0 < n < 0x8000_0000,
    ensures
        ({
            let payload = be32(n as int);
            let id = m.streams[i].id;
            let whole = on_frame(m, header(8, 0, 0, payload), payload);
            let one = on_frame(m, header(8, 0, id, payload), payload);
            &&& m.window + n <= 0x7fff_ffff ==> whole == (H2Model { window: m.window + n, ..m })
            &&& m.window + n > 0x7fff_ffff ==> whole.closed
            &&& m.streams[i].window + n <= 0x7fff_ffff ==> one == (H2Model {
                streams: m.streams.update(
                    i,
                    StreamModel { window: m.streams[i].window + n, ..m.streams[i] },
                ),
                ..m
            })
            &&& m.streams[i].window + n > 0x7fff_ffff ==> one.streams == m.streams.remove(i)
                && one.window == m.window
        }),
{
    reveal(on_frame);
    lemma_be32_value(n as int);
}

/// An update by nothing is a connection error.
pub proof fn law_empty_window_update_is_an_error(m: H2Model, id: u32)
    requires
        m.continuation is None,
    ensures
        on_frame(m, header(8, 0, id, be32(0)), be32(0)).closed,
{
    reveal(on_frame);
    lemma_be32_value(0);
}

/// The initial window of a peer's settings is what new streams get, and moves the
/// windows of the streams that are there by as much as it changes; the settings are
/// acknowledged.
pub proof fn law_initial_window(m: H2Model, v: u32)
    requires
        m.continuation is None,
        v <= 0x7fff_ffff,
    ensures
        ({
            let payload = settings_payload(seq![(4u16, v)]);
            let n = on_frame(m, header(4, 0, 0, payload), payload);
            &&& n.initial_window == v
            &&& n.streams.len() == m.streams.len()
            &&& forall|k: int|
                0 <= k < m.streams.len() ==> (#[trigger] n.streams[k]) == (StreamModel {
                    window: m.streams[k].window + v - m.initial_window,
                    ..m.streams[k]
                })
            &&& n.window == m.window
            &&& n.output == m.output + frame_of(4, 1, 0, Seq::empty())
        }),
{
    reveal(on_frame);
    let params = seq![(4u16, v)];
    law_settings_round_trip(params);
    assert(0u8 & 1u8 == 0) by (bit_vector);
    reveal_with_fuel(settings_applied, 3);
}

/// The largest frame that a peer accepts is what frames are cut to, within the
/// bounds that the protocol and we set.
pub proof fn law_max_frame_size(m: H2Model, v: u32)
    requires
        m.continuation is None,
    ensures
        ({
            let payload = settings_payload(seq![(5u16, v)]);
            let n = on_frame(m, header(4, 0, 0, payload), payload);
            &&& 16384 <= v <= 1048576 ==> n.max_frame == v
            &&& v < 16384 ==> n.max_frame == 16384
            &&& v > 1048576 ==> n.max_frame == 1048576
            &&& n.streams == m.streams
        }),
{
    reveal(on_frame);
    let params = seq![(5u16, v)];
    law_settings_round_trip(params);
    assert(0u8 & 1u8 == 0) by (bit_vector);
    reveal_with_fuel(settings_applied, 3);
}

/// A reset takes its stream away and leaves the others, the windows and what was
/// delivered alone.
pub proof fn law_reset_drops_its_stream(m: H2Model, i: int, payload: Seq<u8>)
    requires
        m.wf(),
        m.continuation is None,
        0 <= i < m.streams.len(),
        pos_of(m.streams, m.streams[i].id) == Some(i),
    ensures
        ({
            let n = on_frame(m, header(3, 0, m.streams[i].id, payload), payload);
            &&& n.streams == m.streams.remove(i)
            &&& n.window == m.window
            &&& n.ready == m.ready
            &&& m.resets < 100 ==> n.closed == m.closed
        }),
{
    reveal(on_frame);
}

/// Between the frames of a header block nothing else may come.
pub proof fn law_header_blocks_are_not_interrupted(m: H2Model, h: FrameHeader, payload: Seq<u8>)
    requires
        m.continuation matches Some(id) && (h.ftype != 9 || h.stream_id != id),
    ensures
        on_frame(m, h, payload).closed,
        on_frame(m, h, payload).streams == m.streams,
        on_frame(m, h, payload).ready == m.ready,
{
    reveal(on_frame);
}

/// Clients open streams with odd ids, each larger than the last.
pub proof fn law_stream_ids_are_odd_and_rise(m: H2Model, id: u32, flags: u8, payload: Seq<u8>)
    requires
        m.continuation is None,
        id % 2 == 0 || (id <= m.last_stream && pos_of(m.streams, id) is None),
    ensures
        on_frame(m, header(1, flags, id, payload), payload).closed,
        on_frame(m, header(1, flags, id, payload), payload).streams == m.streams,
{
    reveal(on_frame);
}

/// A client begins with the preface; anything else ends the connection. What
/// follows the preface is read as frames, and our settings go out before any
/// answer.
pub proof fn law_preface_comes_first(m: H2Model, data: Seq<u8>)
    requires
        !m.closed,
        !m.preface_seen,
        m.input.len() == 0,
    ensures
        ({
            let preface = encode_utf8("PRI * HTTP/2.0\r\n\r\nSM\r\n\r\n"@);
            &&& data.len() >= preface.len() && data.take(preface.len() as int) != preface
                ==> received(m, data).closed
            &&& data.len() < preface.len() ==> received(m, data) == (H2Model { input: data, ..m })
            &&& data == preface && m.wf() && m.streams.len() == 0 ==> received(m, data).preface_seen
                && received(m, data).output == m.output + greeting() && received(m, data).input.len()
                == 0
        }),
{
    let preface = encode_utf8("PRI * HTTP/2.0\r\n\r\nSM\r\n\r\n"@);
    assert(m.input + data =~= data);
    if data == preface {
        assert(data.skip(preface.len() as int) =~= Seq::<u8>::empty());
        assert(data.take(preface.len() as int) =~= preface);
        if m.streams.len() == 0 {
            let q = H2Model { input: Seq::empty(), preface_seen: true, ..m }.send(greeting());
            assert(crate::h2::model::frames_parsed(q) == q);
            assert(crate::h2::model::next_sender(q, 0) is None);
            assert(crate::h2::model::unfinished(q.streams) =~= Seq::empty());
            assert(crate::h2::model::failure_resets(Seq::empty()) =~= Seq::empty());
            assert(q.output + Seq::<u8>::empty() =~= q.output);
        }
    }
}

} // verus!
