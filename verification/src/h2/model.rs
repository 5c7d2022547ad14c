//! What an HTTP/2 server connection is, and what each event does to it.
use crate::h2::frame::{
    flag_set, frame_of, goaway_frame, header_of, rst_stream_frame, settings_ack_frame,
    settings_frame, settings_in, unpadded, window_update_frame, FrameHeader, CLIENT_PREFACE,
};
use crate::h2::hpack::{hpack_decoding, hpack_encoding};
use crate::h2::{errcode, flag, ftype, settings};
use crate::bytes::be_value;
use crate::proto::conn::{FileRead, Limits};
use crate::proto::fields::{request_head_of, response_fields_of, RawFields, RequestHeadModel};
use crate::proto::method::MethodModel;
use crate::proto::request::RequestModel;
use crate::proto::response::{body_after, outgoing, BodyModel, ResponseModel};
use crate::proto::version::Version;
use vstd::prelude::*;
use vstd::utf8::encode_utf8;

verus! {

broadcast use vstd::seq::group_seq_axioms;

/// The flow-control window every connection and stream starts with.
pub const DEFAULT_WINDOW: i64 = 65535;

/// The frame size every peer accepts.
pub const DEFAULT_MAX_FRAME: usize = 16384;

/// The receive window we advertise per stream and bump the connection to.
pub const OUR_WINDOW: u32 = 1048576;

/// The largest frame we are willing to accept (also advertised).
pub const OUR_MAX_FRAME: usize = 1048576;

/// The number of concurrent peer-initiated streams we advertise and enforce.
pub const MAX_CONCURRENT_STREAMS: u32 = 128;

/// Hard cap on CONTINUATION frames per header block.
pub const MAX_CONTINUATION_FRAMES: u32 = 16;

/// Largest HPACK dynamic table size the peer can make us keep.
pub const MAX_HPACK_TABLE_SIZE: usize = 65536;

/// Resets below this number are never held against the peer.
pub const RST_FLOOD_MIN: u64 = 100;

/// The largest flow-control window permitted.
pub const MAX_WINDOW: i64 = 0x7fff_ffff;

/// One stream: request assembly on the receive side, response framing on the
/// send side.
#[verifier::ext_equal]
pub struct StreamModel {
    pub id: u32,
    /// The header block gathered so far.
    pub block: Seq<u8>,
    /// Whether a header block is being gathered.
    pub assembling: bool,
    /// Accepted only to keep the header decoder in step; reset, never delivered.
    pub refused: bool,
    pub body: Seq<u8>,
    /// Whether the peer has ended its side.
    pub ended: bool,
    /// Whether the delivered request used `HEAD`.
    pub is_head: bool,
    /// The decoded head, while the body is still arriving.
    pub head: Option<RequestHeadModel>,
    /// What the peer lets us send on this stream.
    pub window: int,
    /// What is left of the response body, once there is a response.
    pub out: Option<BodyModel>,
    /// Whether the response body could not be read.
    pub failed: bool,
}

/// One HTTP/2 server connection.
#[verifier::ext_equal]
pub struct H2Model {
    pub input: Seq<u8>,
    pub output: Seq<u8>,
    pub limits: Limits,
    pub server_name: Option<Seq<char>>,
    /// The limits of the header decoder and the blocks it has seen.
    pub dec_limits: (nat, nat),
    pub dec_blocks: Seq<Seq<u8>>,
    /// The bound of the header encoder and the lists it has seen.
    pub enc_size: Option<nat>,
    pub enc_lists: Seq<RawFields>,
    pub table_size: int,
    pub preface_seen: bool,
    /// The window that the peer gives new streams.
    pub initial_window: int,
    /// The largest frame that the peer accepts.
    pub max_frame: int,
    /// What the peer lets us send on the connection.
    pub window: int,
    /// The stream whose header block must go on next.
    pub continuation: Option<u32>,
    pub continuation_frames: int,
    pub resets: int,
    pub completed: int,
    /// The open streams, by ascending id.
    pub streams: Seq<StreamModel>,
    pub last_stream: u32,
    /// Complete requests not yet taken.
    pub ready: Seq<(u32, RequestModel)>,
    pub goaway_sent: bool,
    pub closed: bool,
}

/// A counter that stops at the largest `u64`.
pub open spec fn count_up(n: int) -> int {
    if n < u64::MAX {
        n + 1
    } else {
        n
    }
}

/// The index of the stream with this id.
pub open spec fn pos_of(streams: Seq<StreamModel>, id: u32) -> Option<int>
    decreases streams.len(),
{
    if streams.len() == 0 {
        None
    } else if streams.last().id == id {
        Some(streams.len() - 1)
    } else {
        pos_of(streams.drop_last(), id)
    }
}

impl H2Model {
    /// What holds between any two events.
    pub open spec fn wf(self) -> bool {
        &&& 0 <= self.initial_window <= MAX_WINDOW
        &&& DEFAULT_MAX_FRAME <= self.max_frame <= OUR_MAX_FRAME
        &&& 0 <= self.window <= 2 * MAX_WINDOW
        &&& !self.closed ==> self.window <= MAX_WINDOW
        &&& 0 <= self.continuation_frames
        &&& !self.closed ==> self.continuation_frames <= MAX_CONTINUATION_FRAMES
        &&& self.continuation_frames <= MAX_CONTINUATION_FRAMES + 1
        &&& 0 <= self.table_size <= MAX_HPACK_TABLE_SIZE
        &&& 0 <= self.resets <= u64::MAX
        &&& 0 <= self.completed <= u64::MAX
        &&& forall|i: int|
            0 <= i < self.streams.len() ==> -MAX_WINDOW <= (#[trigger] self.streams[i]).window
                - self.initial_window <= MAX_WINDOW
        &&& forall|i: int|
            0 <= i < self.streams.len() ==> 0 < (#[trigger] self.streams[i]).id <= self.last_stream
        &&& forall|i: int, j: int|
            0 <= i < j < self.streams.len() ==> (#[trigger] self.streams[i]).id < (
            #[trigger] self.streams[j]).id
    }

    pub open spec fn set_stream(self, i: int, s: StreamModel) -> H2Model {
        H2Model { streams: self.streams.update(i, s), ..self }
    }

    pub open spec fn drop_stream(self, i: int) -> H2Model {
        H2Model { streams: self.streams.remove(i), ..self }
    }

    pub open spec fn send(self, bytes: Seq<u8>) -> H2Model {
        H2Model { output: self.output + bytes, ..self }
    }
}

/// The connection after a connection error: GOAWAY once, then close.
pub open spec fn conn_failed(m: H2Model, code: u32) -> H2Model {
    H2Model {
        output: if m.goaway_sent {
            m.output
        } else {
            m.output + goaway_frame(m.last_stream, code)
        },
        goaway_sent: true,
        closed: true,
        ..m
    }
}

/// A connection on which nothing has happened.
pub open spec fn fresh(limits: Limits, server_name: Option<Seq<char>>) -> H2Model {
    H2Model {
        input: Seq::empty(),
        output: Seq::empty(),
        limits,
        server_name,
        dec_limits: (4096, 65536),
        dec_blocks: Seq::empty(),
        enc_size: None,
        enc_lists: Seq::empty(),
        table_size: 4096,
        preface_seen: false,
        initial_window: DEFAULT_WINDOW as int,
        max_frame: DEFAULT_MAX_FRAME as int,
        window: DEFAULT_WINDOW as int,
        continuation: None,
        continuation_frames: 0,
        resets: 0,
        completed: 0,
        streams: Seq::empty(),
        last_stream: 0,
        ready: Seq::empty(),
        goaway_sent: false,
        closed: false,
    }
}

/// A stream on which nothing has happened.
pub open spec fn new_stream(id: u32, window: int, refused: bool) -> StreamModel {
    StreamModel {
        id,
        block: Seq::empty(),
        assembling: false,
        refused,
        body: Seq::empty(),
        ended: false,
        is_head: false,
        head: None,
        window,
        out: None,
        failed: false,
    }
}

// ---------------------------------------------------------------------------
// Frames
// ---------------------------------------------------------------------------

/// SETTINGS parameters from index `i` on, one after the other; acknowledged
/// once all are applied.
pub open spec fn settings_applied(m: H2Model, params: Seq<(u16, u32)>, i: int) -> H2Model
    decreases params.len() - i,
{
    if i < 0 || i >= params.len() {
        m.send(settings_ack_frame())
    } else {
        let (id, value) = params[i];
        if id == settings::INITIAL_WINDOW_SIZE {
            if value > 0x7fff_ffff {
                conn_failed(m, errcode::FLOW_CONTROL_ERROR)
            } else {
                let delta = value - m.initial_window;
                settings_applied(
                    H2Model {
                        initial_window: value as int,
                        streams: m.streams.map_values(
                            |s: StreamModel| StreamModel { window: s.window + delta, ..s },
                        ),
                        ..m
                    },
                    params,
                    i + 1,
                )
            }
        } else if id == settings::MAX_FRAME_SIZE {
            settings_applied(
                H2Model {
                    max_frame: if value < DEFAULT_MAX_FRAME {
                        DEFAULT_MAX_FRAME as int
                    } else if value > OUR_MAX_FRAME {
                        OUR_MAX_FRAME as int
                    } else {
                        value as int
                    },
                    ..m
                },
                params,
                i + 1,
            )
        } else if id == settings::HEADER_TABLE_SIZE {
            let want = if value < MAX_HPACK_TABLE_SIZE {
                value as int
            } else {
                MAX_HPACK_TABLE_SIZE as int
            };
            settings_applied(
                if want != m.table_size {
                    H2Model {
                        table_size: want,
                        enc_size: Some(want as nat),
                        enc_lists: Seq::empty(),
                        ..m
                    }
                } else {
                    m
                },
                params,
                i + 1,
            )
        } else {
            settings_applied(m, params, i + 1)
        }
    }
}

pub open spec fn on_settings(m: H2Model, flags: u8, payload: Seq<u8>) -> H2Model {
    if flag_set(flags, flag::ACK) {
        m
    } else if payload.len() % 6 != 0 {
        conn_failed(m, errcode::FRAME_SIZE_ERROR)
    } else {
        settings_applied(m, settings_in(payload), 0)
    }
}

pub open spec fn on_window_update(m: H2Model, id: u32, payload: Seq<u8>) -> H2Model {
    if payload.len() != 4 {
        conn_failed(m, errcode::FRAME_SIZE_ERROR)
    } else {
        let inc = be_value(payload) % 0x8000_0000;
        if inc == 0 {
            conn_failed(m, errcode::PROTOCOL_ERROR)
        } else if id == 0 {
            let m = H2Model { window: m.window + inc, ..m };
            if m.window > MAX_WINDOW {
                conn_failed(m, errcode::FLOW_CONTROL_ERROR)
            } else {
                m
            }
        } else {
            match pos_of(m.streams, id) {
                None => m,
                Some(i) => {
                    let s = m.streams[i];
                    if s.window + inc > MAX_WINDOW {
                        m.drop_stream(i).send(rst_stream_frame(id, errcode::FLOW_CONTROL_ERROR))
                    } else {
                        m.set_stream(i, StreamModel { window: s.window + inc, ..s })
                    }
                },
            }
        }
    }
}

pub open spec fn on_ping(m: H2Model, flags: u8, payload: Seq<u8>) -> H2Model {
    if flag_set(flags, flag::ACK) || payload.len() != 8 {
        m
    } else {
        m.send(frame_of(ftype::PING, flag::ACK, 0, payload))
    }
}

/// A complete request of stream `i` joins the ready queue, which must not
/// outgrow the number of concurrent streams.
pub open spec fn delivered(m: H2Model, i: int, head: RequestHeadModel, body: Seq<u8>) -> H2Model {
    let s = m.streams[i];
    let m = H2Model {
        completed: count_up(m.completed),
        ready: m.ready.push(
            (
                s.id,
                RequestModel {
                    method: head.method,
                    target: head.target,
                    version: Version::Http2,
                    headers: head.headers,
                    body,
                    params: Seq::empty(),
                },
            ),
        ),
        ..m.set_stream(i, StreamModel { is_head: head.method == MethodModel::Head, ..s })
    };
    if m.ready.len() > MAX_CONCURRENT_STREAMS {
        conn_failed(m, errcode::ENHANCE_YOUR_CALM)
    } else {
        m
    }
}

/// The header block of stream `i` is complete. It is decoded in any case, so
/// that the decoder stays in step; what it says decides the stream's fate.
pub open spec fn headers_done(m: H2Model, i: int) -> H2Model {
    let block = m.streams[i].block;
    let s = StreamModel { assembling: false, block: Seq::empty(), ..m.streams[i] };
    let decoded = hpack_decoding(m.dec_limits, m.dec_blocks, block);
    let m = H2Model { dec_blocks: m.dec_blocks.push(block), ..m.set_stream(i, s) };
    match decoded {
        None => conn_failed(m, errcode::COMPRESSION_ERROR),
        Some(fields) => if s.refused {
            m.drop_stream(i).send(rst_stream_frame(s.id, errcode::REFUSED_STREAM))
        } else {
            match request_head_of(fields) {
                None => m.drop_stream(i).send(rst_stream_frame(s.id, errcode::PROTOCOL_ERROR)),
                Some(head) => if s.ended {
                    delivered(m, i, head, Seq::empty())
                } else {
                    m.set_stream(i, StreamModel { head: Some(head), ..s })
                },
            }
        },
    }
}

/// The content of a HEADERS frame without padding and priority.
pub open spec fn headers_content(flags: u8, payload: Seq<u8>) -> Option<Seq<u8>> {
    match unpadded(payload, flag_set(flags, flag::PADDED)) {
        None => None,
        Some(c) => if !flag_set(flags, flag::PRIORITY) {
            Some(c)
        } else if c.len() < 5 {
            None
        } else {
            Some(c.skip(5))
        },
    }
}

/// A header block begins (or trailers do) on stream `i`.
pub open spec fn headers_begun(m: H2Model, i: int, flags: u8, content: Seq<u8>) -> H2Model {
    let s0 = m.streams[i];
    let s = StreamModel {
        block: s0.block + content,
        assembling: true,
        ended: s0.ended || flag_set(flags, flag::END_STREAM),
        ..s0
    };
    let m = H2Model { continuation_frames: 0, ..m.set_stream(i, s) };
    if s.block.len() > m.limits.max_header_bytes {
        conn_failed(m, errcode::ENHANCE_YOUR_CALM)
    } else if flag_set(flags, flag::END_HEADERS) {
        headers_done(m, i)
    } else {
        H2Model { continuation: Some(s.id), ..m }
    }
}

pub open spec fn on_headers(m: H2Model, id: u32, flags: u8, payload: Seq<u8>) -> H2Model {
    if id == 0 || id % 2 == 0 {
        conn_failed(m, errcode::PROTOCOL_ERROR)
    } else {
        match headers_content(flags, payload) {
            None => conn_failed(m, errcode::PROTOCOL_ERROR),
            Some(content) => match pos_of(m.streams, id) {
                Some(i) => headers_begun(m, i, flags, content),
                None => if id <= m.last_stream {
                    conn_failed(m, errcode::PROTOCOL_ERROR)
                } else {
                    let refused = m.streams.len() >= MAX_CONCURRENT_STREAMS;
                    headers_begun(
                        H2Model {
                            last_stream: id,
                            streams: m.streams.push(new_stream(id, m.initial_window, refused)),
                            ..m
                        },
                        m.streams.len() as int,
                        flags,
                        content,
                    )
                },
            },
        }
    }
}

pub open spec fn on_continuation(m: H2Model, id: u32, flags: u8, payload: Seq<u8>) -> H2Model {
    let m = H2Model { continuation_frames: m.continuation_frames + 1, ..m };
    if m.continuation_frames > MAX_CONTINUATION_FRAMES {
        conn_failed(m, errcode::ENHANCE_YOUR_CALM)
    } else {
        match pos_of(m.streams, id) {
            None => conn_failed(m, errcode::PROTOCOL_ERROR),
            Some(i) => {
                let s = m.streams[i];
                if !s.assembling {
                    conn_failed(m, errcode::PROTOCOL_ERROR)
                } else {
                    let m = m.set_stream(i, StreamModel { block: s.block + payload, ..s });
                    if s.block.len() + payload.len() > m.limits.max_header_bytes {
                        conn_failed(m, errcode::ENHANCE_YOUR_CALM)
                    } else if flag_set(flags, flag::END_HEADERS) {
                        headers_done(H2Model { continuation: None, ..m }, i)
                    } else {
                        m
                    }
                }
            },
        }
    }
}

/// The body of stream `i` is complete: a request whose head is waiting for it
/// is delivered.
pub open spec fn body_ended(m: H2Model, i: int) -> H2Model {
    let s = m.streams[i];
    match s.head {
        None => m,
        Some(head) => delivered(
            m.set_stream(i, StreamModel { body: Seq::empty(), head: None, ..s }),
            i,
            head,
            s.body,
        ),
    }
}

/// DATA: the whole frame counts against flow control and is credited back as
/// it is buffered; data on no stream is ignored.
pub open spec fn on_data(m: H2Model, id: u32, flags: u8, payload: Seq<u8>) -> H2Model {
    match unpadded(payload, flag_set(flags, flag::PADDED)) {
        None => conn_failed(m, errcode::PROTOCOL_ERROR),
        Some(content) => match pos_of(m.streams, id) {
            None => m,
            Some(i) => {
                let s0 = m.streams[i];
                let ends = flag_set(flags, flag::END_STREAM);
                let s = StreamModel { body: s0.body + content, ended: s0.ended || ends, ..s0 };
                let n = payload.len() as u32;
                if s.body.len() > m.limits.max_body_bytes {
                    let m = m.drop_stream(i).send(rst_stream_frame(id, errcode::ENHANCE_YOUR_CALM));
                    if payload.len() > 0 {
                        m.send(window_update_frame(0, n))
                    } else {
                        m
                    }
                } else {
                    let m = if payload.len() > 0 {
                        m.set_stream(i, s).send(window_update_frame(0, n)).send(
                            window_update_frame(id, n),
                        )
                    } else {
                        m.set_stream(i, s)
                    };
                    if ends {
                        body_ended(m, i)
                    } else {
                        m
                    }
                }
            },
        },
    }
}

/// RST_STREAM: the stream goes; a peer whose resets dominate its completed
/// requests loses the connection.
pub open spec fn on_rst_stream(m: H2Model, id: u32) -> H2Model {
    match pos_of(m.streams, id) {
        None => m,
        Some(i) => {
            let m = H2Model { resets: count_up(m.resets), ..m.drop_stream(i) };
            if m.resets > RST_FLOOD_MIN && m.resets > 2 * m.completed {
                conn_failed(m, errcode::ENHANCE_YOUR_CALM)
            } else {
                m
            }
        },
    }
}

/// One frame. Between a header block's frames nothing else may come.
#[verifier::opaque]
pub open spec fn on_frame(m: H2Model, h: FrameHeader, payload: Seq<u8>) -> H2Model {
    if m.continuation is Some && (h.ftype != ftype::CONTINUATION || h.stream_id
        != m.continuation->0) {
        conn_failed(m, errcode::PROTOCOL_ERROR)
    } else if h.ftype == ftype::SETTINGS {
        on_settings(m, h.flags, payload)
    } else if h.ftype == ftype::WINDOW_UPDATE {
        on_window_update(m, h.stream_id, payload)
    } else if h.ftype == ftype::PING {
        on_ping(m, h.flags, payload)
    } else if h.ftype == ftype::HEADERS {
        on_headers(m, h.stream_id, h.flags, payload)
    } else if h.ftype == ftype::CONTINUATION {
        on_continuation(m, h.stream_id, h.flags, payload)
    } else if h.ftype == ftype::DATA {
        on_data(m, h.stream_id, h.flags, payload)
    } else if h.ftype == ftype::RST_STREAM {
        on_rst_stream(m, h.stream_id)
    } else if h.ftype == ftype::GOAWAY {
        H2Model { closed: true, ..m }
    } else {
        m
    }
}

/// The complete frames at the front of the input, one after the other.
pub open spec fn frames_parsed(m: H2Model) -> H2Model
    decreases m.input.len(),
    when m.input.len() >= 0
    via frames_parsed_ends
{
    if m.closed || m.input.len() < 9 {
        m
    } else {
        let h = header_of(m.input);
        if h.length > OUR_MAX_FRAME {
            conn_failed(m, errcode::FRAME_SIZE_ERROR)
        } else if m.input.len() < 9 + h.length {
            m
        } else {
            let payload = m.input.subrange(9, 9 + h.length);
            frames_parsed(
                on_frame(
                    H2Model { input: m.input.skip(9 + h.length), ..m },
                    h,
                    payload,
                ),
            )
        }
    }
}

#[via_fn]
proof fn frames_parsed_ends(m: H2Model) {
    if !(m.closed || m.input.len() < 9) {
        let h = header_of(m.input);
        if h.length <= OUR_MAX_FRAME && m.input.len() >= 9 + h.length {
            lemma_frame_keeps_input(
                H2Model { input: m.input.skip(9 + h.length), ..m },
                h,
                m.input.subrange(9, 9 + h.length),
            );
        }
    }
}

proof fn lemma_settings_keep_input(m: H2Model, params: Seq<(u16, u32)>, i: int)
    ensures
        settings_applied(m, params, i).input == m.input,
    decreases params.len() - i,
{
    if 0 <= i < params.len() {
        let (id, value) = params[i];
        let delta = value - m.initial_window;
        lemma_settings_keep_input(m, params, i + 1);
        lemma_settings_keep_input(
            H2Model {
                initial_window: value as int,
                streams: m.streams.map_values(
                    |s: StreamModel| StreamModel { window: s.window + delta, ..s },
                ),
                ..m
            },
            params,
            i + 1,
        );
        lemma_settings_keep_input(
            H2Model {
                max_frame: if value < DEFAULT_MAX_FRAME {
                    DEFAULT_MAX_FRAME as int
                } else if value > OUR_MAX_FRAME {
                    OUR_MAX_FRAME as int
                } else {
                    value as int
                },
                ..m
            },
            params,
            i + 1,
        );
        let want = if value < MAX_HPACK_TABLE_SIZE {
            value as int
        } else {
            MAX_HPACK_TABLE_SIZE as int
        };
        lemma_settings_keep_input(
            H2Model {
                table_size: want,
                enc_size: Some(want as nat),
                enc_lists: Seq::empty(),
                ..m
            },
            params,
            i + 1,
        );
    }
}

/// Handling a frame leaves the unread input alone.
pub proof fn lemma_frame_keeps_input(m: H2Model, h: FrameHeader, payload: Seq<u8>)
    ensures
        on_frame(m, h, payload).input == m.input,
{
    reveal(on_frame);
    lemma_settings_keep_input(m, settings_in(payload), 0);
}

// ---------------------------------------------------------------------------
// Sending
// ---------------------------------------------------------------------------

/// How much one frame on a stream may carry.
pub open spec fn budget(m: H2Model, s: StreamModel) -> int {
    let b = if m.window < s.window {
        m.window
    } else {
        s.window
    };
    if b < m.max_frame {
        b
    } else {
        m.max_frame
    }
}

/// Whether a stream has response body left and the windows let some of it go.
pub open spec fn can_send(m: H2Model, s: StreamModel) -> bool {
    s.out is Some && !s.failed && s.out->0.size() > 0 && budget(m, s) > 0
}

/// How much of a stream's body goes into its next frame.
pub open spec fn chunk_len(m: H2Model, s: StreamModel) -> nat {
    if s.out->0.size() < budget(m, s) {
        s.out->0.size()
    } else {
        budget(m, s) as nat
    }
}

/// The first stream from index `i` on that can send.
pub open spec fn next_sender(m: H2Model, i: int) -> Option<int>
    decreases m.streams.len() - i,
{
    if i < 0 || i >= m.streams.len() {
        None
    } else if can_send(m, m.streams[i]) {
        Some(i)
    } else {
        next_sender(m, i + 1)
    }
}

/// The connection after stream `i` sent `payload` as its next DATA frame; the
/// frame that empties the body ends the stream.
pub open spec fn data_sent(m: H2Model, i: int, payload: Seq<u8>) -> H2Model {
    let s = m.streams[i];
    let n = payload.len();
    let flags: u8 = if n == s.out->0.size() {
        flag::END_STREAM
    } else {
        0
    };
    H2Model {
        output: m.output + frame_of(ftype::DATA, flags, s.id, payload),
        window: m.window - n,
        ..m.set_stream(
            i,
            StreamModel { window: s.window - n, out: Some(body_after(s.out->0, n)), ..s },
        )
    }
}

/// Whether a stream's response is fully written.
pub open spec fn finished(s: StreamModel) -> bool {
    s.out is Some && s.out->0.size() == 0 && !s.failed
}

/// The streams whose response is not fully written.
pub open spec fn unfinished(streams: Seq<StreamModel>) -> Seq<StreamModel>
    decreases streams.len(),
{
    if streams.len() == 0 {
        Seq::empty()
    } else if finished(streams.last()) {
        unfinished(streams.drop_last())
    } else {
        unfinished(streams.drop_last()).push(streams.last())
    }
}

/// The streams whose body could be read.
pub open spec fn unfailed(streams: Seq<StreamModel>) -> Seq<StreamModel>
    decreases streams.len(),
{
    if streams.len() == 0 {
        Seq::empty()
    } else if streams.last().failed {
        unfailed(streams.drop_last())
    } else {
        unfailed(streams.drop_last()).push(streams.last())
    }
}

/// The resets of the streams whose body could not be read.
pub open spec fn failure_resets(streams: Seq<StreamModel>) -> Seq<u8>
    decreases streams.len(),
{
    if streams.len() == 0 {
        Seq::empty()
    } else if streams.last().failed {
        failure_resets(streams.drop_last()) + rst_stream_frame(
            streams.last().id,
            errcode::INTERNAL_ERROR,
        )
    } else {
        failure_resets(streams.drop_last())
    }
}

/// As much response body as the windows allow: the lowest stream that can send
/// does, until none can or the next one needs a file read. Finished streams
/// are dropped; streams with an unreadable body are reset once all is sent.
pub open spec fn pumped(m: H2Model) -> H2Model
    decreases m.window,
    when m.window >= 0
    via pumped_ends
{
    match next_sender(m, 0) {
        None => H2Model {
            output: m.output + failure_resets(unfinished(m.streams)),
            streams: unfailed(unfinished(m.streams)),
            ..m
        },
        Some(i) => match m.streams[i].out->0 {
            BodyModel::Bytes(d) => pumped(
                data_sent(m, i, d.take(chunk_len(m, m.streams[i]) as int)),
            ),
            BodyModel::File { .. } => H2Model { streams: unfinished(m.streams), ..m },
        },
    }
}

#[via_fn]
proof fn pumped_ends(m: H2Model) {
    lemma_next_sender(m, 0);
    if let Some(i) = next_sender(m, 0) {
        if let BodyModel::Bytes(d) = m.streams[i].out->0 {
            assert(d.take(chunk_len(m, m.streams[i]) as int).len() == chunk_len(m, m.streams[i]));
        }
    }
}

/// `next_sender` yields the least index that can send.
pub proof fn lemma_next_sender(m: H2Model, i: int)
    requires
        0 <= i,
    ensures
        match next_sender(m, i) {
            Some(k) => i <= k < m.streams.len() && can_send(m, m.streams[k]) && forall|j: int|
                i <= j < k ==> !can_send(m, #[trigger] m.streams[j]),
            None => forall|j: int| i <= j < m.streams.len() ==> !can_send(m, #[trigger] m.streams[j]),
        },
    decreases m.streams.len() - i,
{
    if i < m.streams.len() && !can_send(m, m.streams[i]) {
        lemma_next_sender(m, i + 1);
    }
}

/// A file read that a stream's response waits for.
#[derive(Debug, Clone, Copy, PartialEq, Eq, Structural)]
pub struct StreamRead {
    pub stream_id: u32,
    pub read: FileRead,
}

/// The read that sending goes on with.
pub open spec fn wanted(m: H2Model) -> Option<StreamRead> {
    match next_sender(m, 0) {
        None => None,
        Some(i) => match m.streams[i].out->0 {
            BodyModel::Bytes(_) => None,
            BodyModel::File { file, offset, len } => Some(
                StreamRead {
                    stream_id: m.streams[i].id,
                    read: FileRead {
                        file,
                        offset,
                        len: chunk_len(m, m.streams[i]) as usize,
                    },
                },
            ),
        },
    }
}

/// The connection after the wanted read: its bytes go out if they are all
/// there, else the stream is given up.
pub open spec fn read_done(m: H2Model, data: Option<Seq<u8>>) -> H2Model {
    let i = next_sender(m, 0)->0;
    let s = m.streams[i];
    match data {
        Some(d) => if d.len() == chunk_len(m, s) {
            data_sent(m, i, d)
        } else {
            m.set_stream(i, StreamModel { failed: true, ..s })
        },
        None => m.set_stream(i, StreamModel { failed: true, ..s }),
    }
}

/// The flags of a frame of a header block: the first one ends the stream where no
/// body follows, the last one ends the block.
pub open spec fn header_flags(first: bool, last: bool, end_stream: bool) -> u8 {
    if first && end_stream {
        if last {
            flag::END_HEADERS | flag::END_STREAM
        } else {
            flag::END_STREAM
        }
    } else if last {
        flag::END_HEADERS
    } else {
        0
    }
}

/// The frames of a header block: HEADERS, then CONTINUATION as needed.
pub open spec fn header_frames(
    id: u32,
    block: Seq<u8>,
    max: int,
    end_stream: bool,
    first: bool,
) -> Seq<u8>
    decreases block.len(),
{
    let ty = if first {
        ftype::HEADERS
    } else {
        ftype::CONTINUATION
    };
    if max <= 0 || block.len() <= max {
        frame_of(ty, header_flags(first, true, end_stream), id, block)
    } else {
        frame_of(ty, header_flags(first, false, end_stream), id, block.take(max)) + header_frames(
            id,
            block.skip(max),
            max,
            end_stream,
            false,
        )
    }
}

/// The connection after a response was handed in for a stream.
pub open spec fn responded(m: H2Model, id: u32, resp: ResponseModel) -> H2Model {
    match pos_of(m.streams, id) {
        None => m,
        Some(i) => {
            let s = m.streams[i];
            let r = outgoing(s.is_head, resp);
            let fields = response_fields_of(r.status, r.headers, m.server_name);
            let block = hpack_encoding(m.enc_size, m.enc_lists, fields);
            let m1 = H2Model {
                enc_lists: m.enc_lists.push(fields),
                output: if s.out is Some {
                    m.output
                } else {
                    m.output + header_frames(s.id, block, m.max_frame, r.body.size() == 0, true)
                },
                ..m.set_stream(i, StreamModel { out: Some(r.body), ..s })
            };
            pumped(m1)
        },
    }
}

/// Our SETTINGS and the larger connection window, sent first.
pub open spec fn greeting() -> Seq<u8> {
    settings_frame(
        seq![
            (settings::ENABLE_PUSH, 0u32),
            (settings::MAX_CONCURRENT_STREAMS, MAX_CONCURRENT_STREAMS),
            (settings::INITIAL_WINDOW_SIZE, OUR_WINDOW),
            (settings::MAX_FRAME_SIZE, 1048576u32),
        ],
    ) + window_update_frame(0, (OUR_WINDOW - DEFAULT_WINDOW) as u32)
}

/// The connection after bytes arrived: the client preface first, then frames.
pub open spec fn received(m: H2Model, data: Seq<u8>) -> H2Model {
    let preface = encode_utf8(CLIENT_PREFACE@);
    let m1 = H2Model { input: m.input + data, ..m };
    if m.closed {
        m
    } else if m.preface_seen {
        pumped(frames_parsed(m1))
    } else if m1.input.len() < preface.len() {
        m1
    } else if m1.input.take(preface.len() as int) != preface {
        conn_failed(m1, errcode::PROTOCOL_ERROR)
    } else {
        pumped(
            frames_parsed(
                H2Model {
                    input: m1.input.skip(preface.len() as int),
                    preface_seen: true,
                    ..m1
                }.send(greeting()),
            ),
        )
    }
}

} // verus!
