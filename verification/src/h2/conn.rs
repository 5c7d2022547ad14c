//! The sans-I/O HTTP/2 connection engine (server side, RFC 9113).
//!
//! Feed it the plaintext bytes that arrive on the (ALPN-negotiated `h2`)
//! connection, drain requests as their streams complete, hand back responses,
//! and write out the serialized frames. Many requests are multiplexed over one
//! connection, so requests and responses carry a stream id. File bodies are
//! streamed by answering [`H2Conn::wanted_read`].
use crate::bytes::{bytes_are, copy_of, drop_front, head, push_all, read_be32, tail};
use crate::h2::frame::{
    frame_of, parse_settings, strip_padding, write_frame, write_goaway, write_rst_stream,
    write_settings, write_settings_ack, write_window_update, FrameHeader, CLIENT_PREFACE,
};
use crate::h2::hpack::{
    decode_block, encode_fields, hpack_decoder_blocks, hpack_decoder_limits, hpack_encoder_lists,
    hpack_encoder_size, new_decoder, new_encoder, sized_encoder,
};
use crate::h2::model::{
    body_ended, budget, can_send, chunk_len, conn_failed, data_sent, delivered, failure_resets,
    fresh, frames_parsed, greeting, header_frames, headers_begun, headers_done,
    lemma_frame_keeps_input, lemma_next_sender, new_stream, next_sender, on_continuation, on_data,
    on_frame, on_headers, on_ping, on_rst_stream, on_settings, on_window_update, pos_of, pumped,
    read_done, received, responded, settings_applied, unfailed, unfinished, wanted, H2Model,
    StreamModel, StreamRead, DEFAULT_MAX_FRAME, DEFAULT_WINDOW, MAX_CONCURRENT_STREAMS,
    MAX_CONTINUATION_FRAMES, MAX_HPACK_TABLE_SIZE, MAX_WINDOW, OUR_MAX_FRAME, OUR_WINDOW,
    RST_FLOOD_MIN,
};
use crate::h2::{errcode, flag, ftype, settings};
use crate::proto::conn::{FileRead, Limits};
use crate::proto::fields::{request_head, response_fields, RequestHead};
use crate::proto::request::{Request, RequestModel};
use crate::proto::response::{outgoing, BodyModel, OutBody, Response};
use crate::proto::version::Version;
use compcol::hpack::{HpackDecoder, HpackEncoder};
use std::collections::VecDeque;
use vstd::prelude::*;

verus! {

broadcast use vstd::seq::group_seq_axioms;

/// Per-stream state: request assembly on the receive side, response framing on
/// the send side.
struct Stream {
    id: u32,
    header_block: Vec<u8>,
    assembling: bool,
    refused: bool,
    body: Vec<u8>,
    ended: bool,
    is_head: bool,
    head: Option<RequestHead>,
    send_window: i64,
    out_body: Option<OutBody>,
    failed: bool,
}

impl View for Stream {
    type V = StreamModel;

    closed spec fn view(&self) -> StreamModel {
        StreamModel {
            id: self.id,
            block: self.header_block@,
            assembling: self.assembling,
            refused: self.refused,
            body: self.body@,
            ended: self.ended,
            is_head: self.is_head,
            head: match self.head {
                Some(h) => Some(h@),
                None => None,
            },
            window: self.send_window as int,
            out: match self.out_body {
                Some(b) => Some(b.left()),
                None => None,
            },
            failed: self.failed,
        }
    }
}

impl Stream {
    spec fn wf(&self) -> bool {
        self.out_body matches Some(b) ==> b.wf()
    }

    fn new(id: u32, send_window: i64, refused: bool) -> (r: Stream)
        ensures
            r.wf(),
            r@ == new_stream(id, send_window as int, refused),
    {
        let r = Stream {
            id,
            header_block: Vec::new(),
            assembling: false,
            refused,
            body: Vec::new(),
            ended: false,
            is_head: false,
            head: None,
            send_window,
            out_body: None,
            failed: false,
        };
        proof {
            assert(r@ =~= new_stream(id, send_window as int, refused));
        }
        r
    }

    fn out_body_remaining(&self) -> (r: u64)
        requires
            self.wf(),
        ensures
            r == match self@.out {
                Some(b) => b.size(),
                None => 0,
            },
    {
        match &self.out_body {
            Some(b) => b.remaining(),
            None => 0,
        }
    }
}

/// A sans-I/O HTTP/2 server connection.
pub struct H2Conn {
    inbuf: Vec<u8>,
    outbuf: Vec<u8>,
    limits: Limits,
    server_name: Option<String>,
    hpack_dec: HpackDecoder,
    hpack_enc: HpackEncoder,
    preface_seen: bool,
    peer_initial_window: i64,
    peer_max_frame: usize,
    conn_send_window: i64,
    continuation_stream: Option<u32>,
    continuation_frames: u32,
    enc_table_size: usize,
    peer_resets: u64,
    completed: u64,
    streams: Vec<Stream>,
    last_peer_stream: u32,
    ready: VecDeque<(u32, Request)>,
    goaway_sent: bool,
    closed: bool,
}

spec fn stream_models(v: Seq<Stream>) -> Seq<StreamModel> {
    v.map_values(|s: Stream| s@)
}

spec fn ready_models(v: Seq<(u32, Request)>) -> Seq<(u32, RequestModel)> {
    v.map_values(|p: (u32, Request)| (p.0, p.1@))
}

impl View for H2Conn {
    type V = H2Model;

    closed spec fn view(&self) -> H2Model {
        H2Model {
            input: self.inbuf@,
            output: self.outbuf@,
            limits: self.limits,
            server_name: match self.server_name {
                Some(s) => Some(s@),
                None => None,
            },
            dec_limits: hpack_decoder_limits(self.hpack_dec),
            dec_blocks: hpack_decoder_blocks(self.hpack_dec),
            enc_size: hpack_encoder_size(self.hpack_enc),
            enc_lists: hpack_encoder_lists(self.hpack_enc),
            table_size: self.enc_table_size as int,
            preface_seen: self.preface_seen,
            initial_window: self.peer_initial_window as int,
            max_frame: self.peer_max_frame as int,
            window: self.conn_send_window as int,
            continuation: self.continuation_stream,
            continuation_frames: self.continuation_frames as int,
            resets: self.peer_resets as int,
            completed: self.completed as int,
            streams: stream_models(self.streams@),
            last_stream: self.last_peer_stream,
            ready: ready_models(self.ready@),
            goaway_sent: self.goaway_sent,
            closed: self.closed,
        }
    }
}

impl H2Conn {
    /// The connection is in order.
    pub closed spec fn wf(&self) -> bool {
        &&& self@.wf()
        &&& forall|i: int| 0 <= i < self.streams@.len() ==> (#[trigger] self.streams@[i]).wf()
    }

    /// A connection in order has no negative window.
    pub proof fn lemma_window(&self)
        requires
            self.wf(),
        ensures
            self@.window >= 0,
    {
    }

    /// Create a new HTTP/2 server engine.
    pub fn new(limits: Limits, server_name: Option<String>) -> (r: H2Conn)
        ensures
            r.wf(),
            r@ == fresh(
                limits,
                match server_name {
                    Some(s) => Some(s@),
                    None => None,
                },
            ),
    {
        let r = H2Conn {
            inbuf: Vec::new(),
            outbuf: Vec::new(),
            limits,
            server_name,
            hpack_dec: new_decoder(),
            hpack_enc: new_encoder(),
            preface_seen: false,
            peer_initial_window: DEFAULT_WINDOW,
            peer_max_frame: DEFAULT_MAX_FRAME,
            conn_send_window: DEFAULT_WINDOW,
            continuation_stream: None,
            continuation_frames: 0,
            enc_table_size: 4096,
            peer_resets: 0,
            completed: 0,
            streams: Vec::new(),
            last_peer_stream: 0,
            ready: VecDeque::new(),
            goaway_sent: false,
            closed: false,
        };
        proof {
            assert(r@ =~= fresh(limits, r@.server_name));
        }
        r
    }

    /// Drain and return all serialized frames queued so far.
    pub fn take_out(&mut self) -> (r: Vec<u8>)
        requires
            old(self).wf(),
        ensures
            final(self).wf(),
            r@ == old(self)@.output,
            final(self)@ == (H2Model { output: Seq::empty(), ..old(self)@ }),
    {
        let mut out: Vec<u8> = Vec::new();
        out.append(&mut self.outbuf);
        proof {
            assert(out@ =~= old(self)@.output);
            assert(self@ =~= (H2Model { output: Seq::empty(), ..old(self)@ }));
        }
        out
    }

    /// Whether there are serialized frames waiting to be written. Body that is
    /// blocked on a closed flow-control window is not output yet.
    pub fn has_output(&self) -> (r: bool)
        ensures
            r == (self@.output.len() > 0),
    {
        self.outbuf.len() > 0
    }

    /// Whether the connection should close once output is flushed.
    pub fn wants_close(&self) -> (r: bool)
        ensures
            r == self@.closed,
    {
        self.closed
    }

    /// Pop the next fully-received request, with its stream id.
    pub fn poll_request(&mut self) -> (r: Option<(u32, Request)>)
        requires
            old(self).wf(),
        ensures
            final(self).wf(),
            match r {
                Some((id, q)) => old(self)@.ready.len() > 0 && old(self)@.ready[0] == (id, q@)
                    && final(self)@ == (H2Model { ready: old(self)@.ready.skip(1), ..old(self)@ }),
                None => old(self)@.ready.len() == 0 && final(self)@ == old(self)@,
            },
    {
        let ghost before = self.ready@;
        let r = self.ready.pop_front();
        proof {
            if r is Some {
                assert(ready_models(self.ready@) =~= ready_models(before).skip(1));
            }
        }
        r
    }

    fn conn_error(&mut self, code: u32)
        ensures
            final(self)@ == conn_failed(old(self)@, code),
            final(self).streams == old(self).streams,
            old(self)@.wf() ==> final(self)@.wf(),
    {
        if !self.goaway_sent {
            write_goaway(&mut self.outbuf, self.last_peer_stream, code);
            self.goaway_sent = true;
        }
        self.closed = true;
    }

    fn find_stream(&self, id: u32) -> (r: Option<usize>)
        ensures
            match (r, pos_of(self@.streams, id)) {
                (Some(a), Some(b)) => a == b && a < self.streams@.len() && self@.streams[a as int].id
                    == id,
                (None, None) => true,
                _ => false,
            },
    {
        let ghost all = self@.streams;
        let mut n: usize = self.streams.len();
        proof {
            assert(all.take(n as int) =~= all);
        }
        while n > 0
            invariant
                n <= self.streams@.len(),
                all == self@.streams,
                pos_of(all.take(n as int), id) == pos_of(all, id),
            decreases n,
        {
            proof {
                assert(all.take(n as int).last() == all[n - 1]);
                assert(all.take(n as int).drop_last() =~= all.take(n - 1));
                assert(all[n - 1] == self.streams@[n - 1]@);
            }
            if self.streams[n - 1].id == id {
                return Some(n - 1);
            }
            n -= 1;
        }
        None
    }

    fn drop_stream(&mut self, i: usize)
        requires
            i < old(self).streams@.len(),
            old(self).wf(),
        ensures
            final(self)@ == old(self)@.drop_stream(i as int),
            final(self).wf(),
    {
        let ghost before = self.streams@;
        self.streams.remove(i);
        proof {
            assert(stream_models(self.streams@) =~= stream_models(before).remove(i as int));
            assert(self@ =~= old(self)@.drop_stream(i as int));
            let a = old(self)@.streams;
            let b = self@.streams;
            assert(forall|k: int|
                0 <= k < b.len() ==> #[trigger] b[k] == if k < i {
                    a[k]
                } else {
                    a[k + 1]
                });
            assert(forall|k: int|
                0 <= k < self.streams@.len() ==> #[trigger] self.streams@[k] == if k < i {
                    before[k]
                } else {
                    before[k + 1]
                });
        }
    }

    fn on_ping(&mut self, flags: u8, payload: &[u8])
        requires
            old(self).wf(),
        ensures
            final(self).wf(),
            final(self)@ == on_ping(old(self)@, flags, payload@),
    {
        if flags & flag::ACK != 0 || payload.len() != 8 {
            return;
        }
        write_frame(&mut self.outbuf, ftype::PING, flag::ACK, 0, payload);
    }

    fn on_window_update(&mut self, id: u32, payload: &[u8])
        requires
            old(self).wf(),
            !old(self)@.closed,
        ensures
            final(self).wf(),
            final(self)@ == on_window_update(old(self)@, id, payload@),
    {
        if payload.len() != 4 {
            self.conn_error(errcode::FRAME_SIZE_ERROR);
            return;
        }
        proof {
            assert(payload@.subrange(0, 4) =~= payload@);
        }
        let inc: i64 = (read_be32(payload, 0) % 0x8000_0000) as i64;
        if inc == 0 {
            self.conn_error(errcode::PROTOCOL_ERROR);
            return;
        }
        if id == 0 {
            self.conn_send_window = self.conn_send_window + inc;
            if self.conn_send_window > MAX_WINDOW {
                self.conn_error(errcode::FLOW_CONTROL_ERROR);
            }
        } else if let Some(i) = self.find_stream(id) {
            let ghost before = self.streams@;
            let ghost m = self@;
            proof {
                assert(m.streams[i as int] == before[i as int]@);
            }
            let w: i64 = self.streams[i].send_window + inc;
            if w > MAX_WINDOW {
                self.drop_stream(i);
                write_rst_stream(&mut self.outbuf, id, errcode::FLOW_CONTROL_ERROR);
            } else {
                self.streams[i].send_window = w;
                proof {
                    assert(stream_models(self.streams@) =~= m.streams.update(
                        i as int,
                        self.streams@[i as int]@,
                    ));
                }
            }
        }
    }

    fn on_settings(&mut self, flags: u8, payload: &[u8])
        requires
            old(self).wf(),
            !old(self)@.closed,
        ensures
            final(self).wf(),
            final(self)@ == on_settings(old(self)@, flags, payload@),
    {
        if flags & flag::ACK != 0 {
            return;
        }
        let params: Vec<(u16, u32)> = match parse_settings(payload) {
            Some(p) => p,
            None => {
                self.conn_error(errcode::FRAME_SIZE_ERROR);
                return;
            },
        };
        let mut i: usize = 0;
        while i < params.len()
            invariant
                self.wf(),
                !self@.closed,
                i <= params@.len(),
                settings_applied(self@, params@, i as int) == settings_applied(
                    old(self)@,
                    params@,
                    0,
                ),
                settings_applied(old(self)@, params@, 0) == on_settings(
                    old(self)@,
                    flags,
                    payload@,
                ),
            decreases params@.len() - i,
        {
            let (id, value): (u16, u32) = params[i];
            if id == settings::INITIAL_WINDOW_SIZE {
                if value > 0x7fff_ffff {
                    self.conn_error(errcode::FLOW_CONTROL_ERROR);
                    return;
                }
                let delta: i64 = value as i64 - self.peer_initial_window;
                self.peer_initial_window = value as i64;
                self.shift_windows(delta);
            } else if id == settings::MAX_FRAME_SIZE {
                let want: usize = value as usize;
                self.peer_max_frame = if want < DEFAULT_MAX_FRAME {
                    DEFAULT_MAX_FRAME
                } else if want > OUR_MAX_FRAME {
                    OUR_MAX_FRAME
                } else {
                    want
                };
            } else if id == settings::HEADER_TABLE_SIZE {
                let want: usize = if (value as usize) < MAX_HPACK_TABLE_SIZE {
                    value as usize
                } else {
                    MAX_HPACK_TABLE_SIZE
                };
                if want != self.enc_table_size {
                    self.enc_table_size = want;
                    self.hpack_enc = sized_encoder(want);
                }
            }
            i += 1;
        }
        write_settings_ack(&mut self.outbuf);
    }

    /// Add `delta` to the send window of every stream.
    fn shift_windows(&mut self, delta: i64)
        requires
            forall|i: int|
                0 <= i < old(self).streams@.len() ==> (#[trigger] old(self).streams@[i]).wf(),
            (H2Model { initial_window: old(self)@.initial_window - delta, ..old(self)@ }).wf(),
            0 <= old(self)@.initial_window <= MAX_WINDOW,
            -MAX_WINDOW <= delta <= MAX_WINDOW,
        ensures
            final(self).wf(),
            final(self)@ == (H2Model {
                streams: old(self)@.streams.map_values(
                    (|s: StreamModel| (StreamModel { window: s.window + delta, ..s })),
                ),
                ..old(self)@
            }),
    {
        let ghost m = self@;
        let ghost orig = self.streams@;
        let ghost g = |s: StreamModel| StreamModel { window: s.window + delta, ..s };
        let mut i: usize = 0;
        while i < self.streams.len()
            invariant
                i <= self.streams@.len(),
                self.streams@.len() == orig.len(),
                m.streams == stream_models(orig),
                g == (|s: StreamModel| (StreamModel { window: s.window + delta, ..s })),
                -MAX_WINDOW <= delta <= MAX_WINDOW,
                0 <= m.initial_window <= MAX_WINDOW,
                (H2Model { initial_window: m.initial_window - delta, ..m }).wf(),
                forall|k: int| 0 <= k < self.streams@.len() ==> (#[trigger] self.streams@[k]).wf(),
                forall|k: int|
                    0 <= k < i ==> (#[trigger] self.streams@[k])@ == g(m.streams[k]),
                forall|k: int|
                    i <= k < orig.len() ==> #[trigger] self.streams@[k] == orig[k],
                self@ == (H2Model { streams: self@.streams, ..m }),
            decreases self.streams@.len() - i,
        {
            proof {
                assert(m.streams[i as int] == orig[i as int]@);
                assert(self.streams@[i as int] == orig[i as int]);
            }
            let w: i64 = self.streams[i].send_window + delta;
            self.streams[i].send_window = w;
            i += 1;
        }
        proof {
            assert(self@.streams =~= m.streams.map_values(g));
            let b = self@.streams;
            assert forall|k: int| 0 <= k < b.len() implies -MAX_WINDOW <= (#[trigger] b[k]).window
                - m.initial_window <= MAX_WINDOW by {
                assert(b[k] == g(m.streams[k]));
            }
            assert forall|k: int| 0 <= k < b.len() implies 0 < (#[trigger] b[k]).id
                <= m.last_stream by {
                assert(b[k] == g(m.streams[k]));
            }
            assert forall|j: int, k: int| 0 <= j < k < b.len() implies (#[trigger] b[j]).id < (
            #[trigger] b[k]).id by {
                assert(b[j] == g(m.streams[j]));
                assert(b[k] == g(m.streams[k]));
            }
        }
    }

    /// Queue the complete request of stream `i`.
    #[verifier::rlimit(60)]
    fn deliver(&mut self, i: usize, head: RequestHead, body: Vec<u8>)
        requires
            old(self).wf(),
            i < old(self)@.streams.len(),
        ensures
            final(self).wf(),
            final(self)@ == delivered(old(self)@, i as int, head@, body@),
    {
        let ghost m = self@;
        let ghost before = self.streams@;
        let ghost hm = head@;
        let is_head = head.method.is_head();
        self.streams[i].is_head = is_head;
        proof {
            lemma_one_stream(m, before, self.streams@, i as int);
        }
        let id: u32 = self.streams[i].id;
        self.completed = if self.completed < u64::MAX {
            self.completed + 1
        } else {
            self.completed
        };
        let req = Request::new(head.method, head.target, Version::Http2, head.headers, body);
        let ghost rb = self.ready@;
        self.ready.push_back((id, req));
        proof {
            assert(ready_models(self.ready@) =~= ready_models(rb).push((id, req@)));
            assert(m.streams[i as int] == before[i as int]@);
        }
        if self.ready.len() > MAX_CONCURRENT_STREAMS as usize {
            self.conn_error(errcode::ENHANCE_YOUR_CALM);
        }
    }

    /// Decode the assembled header block of stream `i` (the header decoder must
    /// stay in sync, so this runs for every completed block) and either deliver
    /// the request or, if it carries a body, leave the stream open for DATA.
    #[verifier::rlimit(60)]
    fn finish_headers(&mut self, i: usize)
        requires
            old(self).wf(),
            i < old(self)@.streams.len(),
        ensures
            final(self).wf(),
            final(self)@ == headers_done(old(self)@, i as int),
    {
        let ghost m = self@;
        let ghost before = self.streams@;
        proof {
            assert(m.streams[i as int] == before[i as int]@);
        }
        let mut block: Vec<u8> = Vec::new();
        self.streams[i].assembling = false;
        block.append(&mut self.streams[i].header_block);
        proof {
            lemma_one_stream(m, before, self.streams@, i as int);
            assert(block@ =~= m.streams[i as int].block);
        }
        let id: u32 = self.streams[i].id;
        let refused: bool = self.streams[i].refused;
        let ended: bool = self.streams[i].ended;
        let fields = match decode_block(&mut self.hpack_dec, block.as_slice()) {
            Some(f) => f,
            None => {
                self.conn_error(errcode::COMPRESSION_ERROR);
                return;
            },
        };
        // Over the concurrency cap: the block has been decoded, so refuse the
        // stream without delivering it.
        if refused {
            self.drop_stream(i);
            write_rst_stream(&mut self.outbuf, id, errcode::REFUSED_STREAM);
            return;
        }
        match request_head(&fields) {
            Ok(head) => {
                if ended {
                    self.deliver(i, head, Vec::new());
                } else {
                    let ghost now = self.streams@;
                    let ghost m1 = self@;
                    self.streams[i].head = Some(head);
                    proof {
                        lemma_one_stream(m1, now, self.streams@, i as int);
                    }
                }
            },
            Err(_) => {
                self.drop_stream(i);
                write_rst_stream(&mut self.outbuf, id, errcode::PROTOCOL_ERROR);
            },
        }
    }

    fn begin_headers(&mut self, i: usize, flags: u8, content: &[u8])
        requires
            old(self).wf(),
            !old(self)@.closed,
            i < old(self)@.streams.len(),
        ensures
            final(self).wf(),
            final(self)@ == headers_begun(old(self)@, i as int, flags, content@),
    {
        let ghost m = self@;
        let ghost before = self.streams@;
        proof {
            assert(m.streams[i as int] == before[i as int]@);
        }
        self.continuation_frames = 0;
        push_all(&mut self.streams[i].header_block, content);
        self.streams[i].assembling = true;
        if flags & flag::END_STREAM != 0 {
            self.streams[i].ended = true;
        }
        proof {
            lemma_one_stream(m, before, self.streams@, i as int);
        }
        let id: u32 = self.streams[i].id;
        // Bound the accumulated block before it is ever decoded.
        if self.streams[i].header_block.len() > self.limits.max_header_bytes {
            self.conn_error(errcode::ENHANCE_YOUR_CALM);
            return;
        }
        if flags & flag::END_HEADERS != 0 {
            self.finish_headers(i);
        } else {
            self.continuation_stream = Some(id);
        }
    }

    fn on_headers(&mut self, id: u32, flags: u8, payload: &[u8])
        requires
            old(self).wf(),
            !old(self)@.closed,
        ensures
            final(self).wf(),
            final(self)@ == on_headers(old(self)@, id, flags, payload@),
    {
        if id == 0 || id % 2 == 0 {
            self.conn_error(errcode::PROTOCOL_ERROR);
            return;
        }
        // Strip optional padding, then an optional 5-byte priority prefix.
        let mut content: &[u8] = match strip_padding(payload, flags & flag::PADDED != 0) {
            Some(c) => c,
            None => {
                self.conn_error(errcode::PROTOCOL_ERROR);
                return;
            },
        };
        if flags & flag::PRIORITY != 0 {
            if content.len() < 5 {
                self.conn_error(errcode::PROTOCOL_ERROR);
                return;
            }
            content = tail(content, 5);
        }
        match self.find_stream(id) {
            Some(i) => {
                self.begin_headers(i, flags, content);
            },
            None => {
                if id <= self.last_peer_stream {
                    self.conn_error(errcode::PROTOCOL_ERROR);
                    return;
                }
                let ghost m = self@;
                let ghost before = self.streams@;
                self.last_peer_stream = id;
                let n: usize = self.streams.len();
                let refused = n >= MAX_CONCURRENT_STREAMS as usize;
                self.streams.push(Stream::new(id, self.peer_initial_window, refused));
                proof {
                    assert(stream_models(self.streams@) =~= m.streams.push(
                        new_stream(id, m.initial_window, refused),
                    ));
                    let b = self@.streams;
                    assert forall|k: int| 0 <= k < b.len() implies -MAX_WINDOW <= (
                    #[trigger] b[k]).window - m.initial_window <= MAX_WINDOW by {
                        if k < n {
                            assert(b[k] == m.streams[k]);
                        }
                    }
                    assert forall|k: int| 0 <= k < b.len() implies 0 < (#[trigger] b[k]).id
                        <= id by {
                        if k < n {
                            assert(b[k] == m.streams[k]);
                        }
                    }
                    assert forall|j: int, k: int| 0 <= j < k < b.len() implies (#[trigger] b[j]).id
                        < (#[trigger] b[k]).id by {
                        assert(b[j] == m.streams[j]);
                        if k < n {
                            assert(b[k] == m.streams[k]);
                        }
                    }
                }
                self.begin_headers(n, flags, content);
            },
        }
    }

    #[verifier::rlimit(40)]
    fn on_continuation(&mut self, id: u32, flags: u8, payload: &[u8])
        requires
            old(self).wf(),
            !old(self)@.closed,
        ensures
            final(self).wf(),
            final(self)@ == on_continuation(old(self)@, id, flags, payload@),
    {
        self.continuation_frames = self.continuation_frames + 1;
        if self.continuation_frames > MAX_CONTINUATION_FRAMES {
            self.conn_error(errcode::ENHANCE_YOUR_CALM);
            return;
        }
        let i: usize = match self.find_stream(id) {
            Some(i) => i,
            None => {
                self.conn_error(errcode::PROTOCOL_ERROR);
                return;
            },
        };
        let ghost m = self@;
        let ghost before = self.streams@;
        proof {
            assert(m.streams[i as int] == before[i as int]@);
        }
        if !self.streams[i].assembling {
            self.conn_error(errcode::PROTOCOL_ERROR);
            return;
        }
        push_all(&mut self.streams[i].header_block, payload);
        proof {
            lemma_one_stream(m, before, self.streams@, i as int);
        }
        if self.streams[i].header_block.len() > self.limits.max_header_bytes {
            self.conn_error(errcode::ENHANCE_YOUR_CALM);
            return;
        }
        if flags & flag::END_HEADERS != 0 {
            self.continuation_stream = None;
            self.finish_headers(i);
        }
    }

    #[verifier::rlimit(60)]
    fn on_data(&mut self, id: u32, flags: u8, payload: &[u8])
        requires
            old(self).wf(),
            !old(self)@.closed,
            payload@.len() <= OUR_MAX_FRAME,
        ensures
            final(self).wf(),
            final(self)@ == on_data(old(self)@, id, flags, payload@),
    {
        let content: &[u8] = match strip_padding(payload, flags & flag::PADDED != 0) {
            Some(c) => c,
            None => {
                self.conn_error(errcode::PROTOCOL_ERROR);
                return;
            },
        };
        // The whole frame (including padding) counts against flow control.
        let counted: u32 = payload.len() as u32;
        let i: usize = match self.find_stream(id) {
            Some(i) => i,
            None => {
                return;
            },
        };
        let ghost m = self@;
        let ghost before = self.streams@;
        proof {
            assert(m.streams[i as int] == before[i as int]@);
        }
        let ends = flags & flag::END_STREAM != 0;
        self.absorb(i, content, ends);
        proof {
            assert(self@.streams[i as int] == self.streams@[i as int]@);
        }
        if self.streams[i].body.len() > self.limits.max_body_bytes {
            self.drop_stream(i);
            proof {
                assert(self@.streams =~= m.streams.remove(i as int));
            }
            write_rst_stream(&mut self.outbuf, id, errcode::ENHANCE_YOUR_CALM);
            if counted > 0 {
                write_window_update(&mut self.outbuf, 0, counted);
            }
            return;
        }
        if counted > 0 {
            write_window_update(&mut self.outbuf, 0, counted);
            write_window_update(&mut self.outbuf, id, counted);
        }
        if ends {
            self.end_of_body(i);
        }
    }

    /// Add body bytes to stream `i`.
    #[verifier::rlimit(60)]
    fn absorb(&mut self, i: usize, content: &[u8], ends: bool)
        requires
            old(self).wf(),
            i < old(self)@.streams.len(),
        ensures
            final(self).wf(),
            final(self)@ == old(self)@.set_stream(
                i as int,
                (StreamModel {
                    body: old(self)@.streams[i as int].body + content@,
                    ended: old(self)@.streams[i as int].ended || ends,
                    ..old(self)@.streams[i as int]
                }),
            ),
    {
        let ghost m = self@;
        let ghost before = self.streams@;
        proof {
            assert(m.streams[i as int] == before[i as int]@);
        }
        push_all(&mut self.streams[i].body, content);
        if ends {
            self.streams[i].ended = true;
        }
        proof {
            lemma_one_stream(m, before, self.streams@, i as int);
        }
    }

    /// The body of stream `i` is complete: deliver the request whose head was
    /// waiting for it.
    #[verifier::rlimit(60)]
    fn end_of_body(&mut self, i: usize)
        requires
            old(self).wf(),
            i < old(self)@.streams.len(),
        ensures
            final(self).wf(),
            final(self)@ == body_ended(old(self)@, i as int),
    {
        let ghost m = self@;
        let ghost before = self.streams@;
        proof {
            assert(m.streams[i as int] == before[i as int]@);
        }
        if let Some(head) = self.streams[i].head.take() {
            let mut body: Vec<u8> = Vec::new();
            body.append(&mut self.streams[i].body);
            proof {
                lemma_one_stream(m, before, self.streams@, i as int);
                assert(body@ =~= m.streams[i as int].body);
            }
            self.deliver(i, head, body);
        } else {
            proof {
                lemma_one_stream(m, before, self.streams@, i as int);
                assert(self@.streams =~= m.streams);
            }
        }
    }

    fn on_rst_stream(&mut self, id: u32)
        requires
            old(self).wf(),
            !old(self)@.closed,
        ensures
            final(self).wf(),
            final(self)@ == on_rst_stream(old(self)@, id),
    {
        if let Some(i) = self.find_stream(id) {
            self.drop_stream(i);
            self.peer_resets = if self.peer_resets < u64::MAX {
                self.peer_resets + 1
            } else {
                self.peer_resets
            };
            // A peer that opens streams and immediately resets them makes us do
            // work for nothing; once resets dominate, tear the connection down.
            if self.peer_resets > RST_FLOOD_MIN && self.peer_resets / 2 + self.peer_resets % 2
                > self.completed {
                self.conn_error(errcode::ENHANCE_YOUR_CALM);
            }
        }
    }

    fn on_frame(&mut self, h: FrameHeader, payload: &[u8])
        requires
            old(self).wf(),
            !old(self)@.closed,
            payload@.len() <= OUR_MAX_FRAME,
        ensures
            final(self).wf(),
            final(self)@ == on_frame(old(self)@, h, payload@),
    {
        proof {
            reveal(on_frame);
        }
        // A CONTINUATION must immediately follow its HEADERS on the same stream.
        if let Some(cs) = self.continuation_stream {
            if h.ftype != ftype::CONTINUATION || h.stream_id != cs {
                self.conn_error(errcode::PROTOCOL_ERROR);
                return;
            }
        }
        if h.ftype == ftype::SETTINGS {
            self.on_settings(h.flags, payload);
        } else if h.ftype == ftype::WINDOW_UPDATE {
            self.on_window_update(h.stream_id, payload);
        } else if h.ftype == ftype::PING {
            self.on_ping(h.flags, payload);
        } else if h.ftype == ftype::HEADERS {
            self.on_headers(h.stream_id, h.flags, payload);
        } else if h.ftype == ftype::CONTINUATION {
            self.on_continuation(h.stream_id, h.flags, payload);
        } else if h.ftype == ftype::DATA {
            self.on_data(h.stream_id, h.flags, payload);
        } else if h.ftype == ftype::RST_STREAM {
            self.on_rst_stream(h.stream_id);
        } else if h.ftype == ftype::GOAWAY {
            // Peer is shutting down; finish in-flight work, then close.
            self.closed = true;
        }
    }

    fn parse_frames(&mut self)
        requires
            old(self).wf(),
        ensures
            final(self).wf(),
            final(self)@ == frames_parsed(old(self)@),
    {
        while !self.closed && self.inbuf.len() >= 9
            invariant
                self.wf(),
                frames_parsed(self@) == frames_parsed(old(self)@),
            decreases self@.input.len(),
        {
            let ghost m = self@;
            let h = FrameHeader::parse(self.inbuf.as_slice());
            if h.length > OUR_MAX_FRAME {
                self.conn_error(errcode::FRAME_SIZE_ERROR);
                return;
            }
            if self.inbuf.len() < 9 + h.length {
                return;
            }
            let payload = copy_of(head(tail(self.inbuf.as_slice(), 9), h.length));
            drop_front(&mut self.inbuf, 9 + h.length);
            proof {
                assert(payload@ =~= m.input.subrange(9, 9 + h.length));
                assert(self@ =~= (H2Model { input: m.input.skip(9 + h.length), ..m }));
                lemma_frame_keeps_input(self@, h, payload@);
            }
            self.on_frame(h, payload.as_slice());
        }
    }

    /// The lowest stream that can send part of its response body now.
    fn find_sender(&self) -> (r: Option<usize>)
        requires
            self.wf(),
        ensures
            match (r, next_sender(self@, 0)) {
                (Some(a), Some(b)) => a == b && a < self.streams@.len(),
                (None, None) => true,
                _ => false,
            },
    {
        let mut i: usize = 0;
        while i < self.streams.len()
            invariant
                self.wf(),
                i <= self.streams@.len(),
                next_sender(self@, i as int) == next_sender(self@, 0),
            decreases self.streams@.len() - i,
        {
            proof {
                assert(self@.streams[i as int] == self.streams@[i as int]@);
                assert(self.streams@[i as int].wf());
            }
            let s = &self.streams[i];
            if s.out_body.is_some() && !s.failed && s.out_body_remaining() > 0 && self.budget_of(i)
                > 0 {
                return Some(i);
            }
            i += 1;
        }
        None
    }

    fn budget_of(&self, i: usize) -> (r: i64)
        requires
            self.wf(),
            i < self@.streams.len(),
        ensures
            r == budget(self@, self@.streams[i as int]),
    {
        let w: i64 = self.streams[i].send_window;
        let b: i64 = if self.conn_send_window < w {
            self.conn_send_window
        } else {
            w
        };
        if b < self.peer_max_frame as i64 {
            b
        } else {
            self.peer_max_frame as i64
        }
    }

    fn chunk_of(&self, i: usize) -> (r: usize)
        requires
            self.wf(),
            i < self@.streams.len(),
            can_send(self@, self@.streams[i as int]),
        ensures
            r == chunk_len(self@, self@.streams[i as int]),
            0 < r <= OUR_MAX_FRAME,
    {
        proof {
            assert(self@.streams[i as int] == self.streams@[i as int]@);
            assert(self.streams@[i as int].wf());
        }
        let remaining: u64 = self.streams[i].out_body_remaining();
        let b: i64 = self.budget_of(i);
        if remaining < b as u64 {
            remaining as usize
        } else {
            b as usize
        }
    }

    /// Send `payload` as the next DATA frame of stream `i`.
    fn send_data(&mut self, i: usize, payload: &[u8])
        requires
            old(self).wf(),
            i < old(self)@.streams.len(),
            can_send(old(self)@, old(self)@.streams[i as int]),
            payload@.len() == chunk_len(old(self)@, old(self)@.streams[i as int]),
        ensures
            final(self).wf(),
            final(self)@ == data_sent(old(self)@, i as int, payload@),
    {
        let ghost m = self@;
        let ghost before = self.streams@;
        proof {
            assert(m.streams[i as int] == before[i as int]@);
            assert(before[i as int].wf());
        }
        let n: usize = self.chunk_of(i);
        let id: u32 = self.streams[i].id;
        let last = self.streams[i].out_body_remaining() == n as u64;
        let flags: u8 = if last {
            flag::END_STREAM
        } else {
            0
        };
        self.conn_send_window = self.conn_send_window - n as i64;
        self.streams[i].send_window = self.streams[i].send_window - n as i64;
        if let Some(b) = self.streams[i].out_body.take() {
            let next = match b {
                OutBody::Bytes { data, pos } => {
                    let total: usize = data.len();
                    proof {
                        assert(m.streams[i as int].out->0 == BodyModel::Bytes(
                            data@.skip(pos as int),
                        ));
                        assert(n <= total - pos);
                        assert(data@.skip(pos as int).skip(n as int) =~= data@.skip(pos + n));
                    }
                    OutBody::Bytes { data, pos: pos + n }
                },
                OutBody::File { file, offset, remaining } => OutBody::File {
                    file,
                    offset: offset.wrapping_add(n as u64),
                    remaining: remaining - n as u64,
                },
            };
            self.streams[i].out_body = Some(next);
        }
        write_frame(&mut self.outbuf, ftype::DATA, flags, id, payload);
        proof {
            lemma_one_stream(m, before, self.streams@, i as int);
            assert(self@ =~= data_sent(m, i as int, payload@));
            lemma_sent_wf(m, i as int, payload@);
        }
    }

    /// Drop the streams whose response is fully written.
    fn drop_finished(&mut self)
        requires
            old(self).wf(),
        ensures
            final(self).wf(),
            final(self)@ == (H2Model { streams: unfinished(old(self)@.streams), ..old(self)@ }),
    {
        let ghost m = self@;
        let ghost all = m.streams;
        let ghost mut k: int = 0;
        let mut i: usize = 0;
        proof {
            assert(all.take(0) =~= Seq::empty());
            assert(self@.streams =~= unfinished(all.take(0)) + all.skip(0));
        }
        while i < self.streams.len()
            invariant
                self.wf(),
                0 <= k <= all.len(),
                all == m.streams,
                i == unfinished(all.take(k)).len(),
                self@ == (H2Model { streams: unfinished(all.take(k)) + all.skip(k), ..m }),
            decreases all.len() - k,
        {
            proof {
                assert(self@.streams.len() == self.streams@.len());
                assert(k < all.len());
                assert(self@.streams[i as int] == all[k]);
                assert(self@.streams[i as int] == self.streams@[i as int]@);
                assert(self.streams@[i as int].wf());
                assert(all.take(k + 1).drop_last() =~= all.take(k));
                assert(all.take(k + 1).last() == all[k]);
            }
            let s = &self.streams[i];
            let done = s.out_body.is_some() && !s.failed && s.out_body_remaining() == 0;
            if done {
                let ghost cur = self@.streams;
                self.drop_stream(i);
                proof {
                    assert(cur.remove(i as int) =~= unfinished(all.take(k + 1)) + all.skip(k + 1));
                }
            } else {
                proof {
                    assert(self@.streams =~= unfinished(all.take(k + 1)) + all.skip(k + 1));
                }
                i += 1;
            }
            proof {
                k = k + 1;
            }
        }
        proof {
            assert(self@.streams.len() == self.streams@.len());
            assert(all.skip(k).len() == 0);
            assert(all.take(k) =~= all);
            assert(self@.streams =~= unfinished(all));
        }
    }

    /// Reset the streams whose body could not be read.
    fn reset_failed(&mut self)
        requires
            old(self).wf(),
        ensures
            final(self).wf(),
            final(self)@ == (H2Model {
                output: old(self)@.output + failure_resets(old(self)@.streams),
                streams: unfailed(old(self)@.streams),
                ..old(self)@
            }),
    {
        let ghost m = self@;
        let ghost all = m.streams;
        let ghost mut k: int = 0;
        let mut i: usize = 0;
        proof {
            assert(all.take(0) =~= Seq::empty());
            assert(self@.streams =~= unfailed(all.take(0)) + all.skip(0));
            assert(self@.output =~= m.output + failure_resets(all.take(0)));
        }
        while i < self.streams.len()
            invariant
                self.wf(),
                0 <= k <= all.len(),
                all == m.streams,
                i == unfailed(all.take(k)).len(),
                self@ == (H2Model {
                    output: m.output + failure_resets(all.take(k)),
                    streams: unfailed(all.take(k)) + all.skip(k),
                    ..m
                }),
            decreases all.len() - k,
        {
            proof {
                assert(self@.streams.len() == self.streams@.len());
                assert(k < all.len());
                assert(self@.streams[i as int] == all[k]);
                assert(self@.streams[i as int] == self.streams@[i as int]@);
                assert(all.take(k + 1).drop_last() =~= all.take(k));
                assert(all.take(k + 1).last() == all[k]);
            }
            if self.streams[i].failed {
                let ghost cur = self@.streams;
                let id: u32 = self.streams[i].id;
                self.drop_stream(i);
                write_rst_stream(&mut self.outbuf, id, errcode::INTERNAL_ERROR);
                proof {
                    assert(cur.remove(i as int) =~= unfailed(all.take(k + 1)) + all.skip(k + 1));
                    assert(self@.output =~= m.output + failure_resets(all.take(k + 1)));
                }
            } else {
                proof {
                    assert(self@.streams =~= unfailed(all.take(k + 1)) + all.skip(k + 1));
                }
                i += 1;
            }
            proof {
                k = k + 1;
            }
        }
        proof {
            assert(self@.streams.len() == self.streams@.len());
            assert(all.skip(k).len() == 0);
            assert(all.take(k) =~= all);
            assert(self@.streams =~= unfailed(all));
        }
    }

    /// Emit as much pending response body as the connection and per-stream
    /// send windows allow. Stops where a file read is needed
    /// ([`wanted_read`](Self::wanted_read)).
    pub fn pump_out(&mut self)
        requires
            old(self).wf(),
        ensures
            final(self).wf(),
            final(self)@ == pumped(old(self)@),
    {
        loop
            invariant
                self.wf(),
                pumped(self@) == pumped(old(self)@),
            decreases self@.window,
        {
            let ghost m = self@;
            let i: usize = match self.find_sender() {
                Some(i) => i,
                None => {
                    self.drop_finished();
                    self.reset_failed();
                    return;
                },
            };
            proof {
                lemma_next_sender(m, 0);
                assert(m.streams[i as int] == self.streams@[i as int]@);
                assert(self.streams@[i as int].wf());
            }
            let n: usize = self.chunk_of(i);
            let payload: Vec<u8> = match &self.streams[i].out_body {
                Some(OutBody::Bytes { data, pos }) => copy_of(
                    head(tail(data.as_slice(), *pos), n),
                ),
                _ => {
                    self.drop_finished();
                    return;
                },
            };
            self.send_data(i, payload.as_slice());
        }
    }

    /// The file read that sending goes on with, if any.
    pub fn wanted_read(&self) -> (r: Option<StreamRead>)
        requires
            self.wf(),
        ensures
            r == wanted(self@),
    {
        match self.find_sender() {
            None => None,
            Some(i) => {
                proof {
                    lemma_next_sender(self@, 0);
                    assert(self@.streams[i as int] == self.streams@[i as int]@);
                    assert(self.streams@[i as int].wf());
                }
                let len: usize = self.chunk_of(i);
                match &self.streams[i].out_body {
                    Some(OutBody::File { file, offset, .. }) => Some(
                        StreamRead {
                            stream_id: self.streams[i].id,
                            read: FileRead { file: *file, offset: *offset, len },
                        },
                    ),
                    _ => None,
                }
            },
        }
    }

    /// Hand in what the wanted read yielded (`None` when it failed). A body
    /// that cannot be read in full is given up rather than sent truncated. Call
    /// [`pump_out`](Self::pump_out) to go on sending.
    pub fn read_done(&mut self, data: Option<Vec<u8>>)
        requires
            old(self).wf(),
            wanted(old(self)@) is Some,
        ensures
            final(self).wf(),
            final(self)@ == read_done(
                old(self)@,
                match data {
                    Some(d) => Some(d@),
                    None => None,
                },
            ),
    {
        let ghost m = self@;
        let ghost before = self.streams@;
        if let Some(i) = self.find_sender() {
            proof {
                lemma_next_sender(m, 0);
            }
            let n: usize = self.chunk_of(i);
            if let Some(d) = data {
                if d.len() == n {
                    self.send_data(i, d.as_slice());
                    return;
                }
            }
            self.streams[i].failed = true;
            proof {
                assert(m.streams[i as int] == before[i as int]@);
                lemma_one_stream(m, before, self.streams@, i as int);
            }
        }
    }

    fn write_header_frames(&mut self, id: u32, block: &[u8], end_stream: bool)
        requires
            old(self).wf(),
        ensures
            final(self).wf(),
            final(self).streams == old(self).streams,
            final(self)@ == old(self)@.send(
                header_frames(id, block@, old(self)@.max_frame, end_stream, true),
            ),
    {
        let max: usize = self.peer_max_frame;
        let mut rest: &[u8] = block;
        let mut first: bool = true;
        let ghost all = header_frames(id, block@, max as int, end_stream, true);
        let ghost out0 = self.outbuf@;
        proof {
            assert(out0 + all =~= self.outbuf@ + header_frames(
                id,
                rest@,
                max as int,
                end_stream,
                first,
            ));
        }
        while rest.len() > max
            invariant
                max == self.peer_max_frame,
                max > 0,
                self@ == (H2Model { output: self.outbuf@, ..old(self)@ }),
                self.streams == old(self).streams,
                out0 + all == self.outbuf@ + header_frames(
                    id,
                    rest@,
                    max as int,
                    end_stream,
                    first,
                ),
            decreases rest@.len(),
        {
            let ty: u8 = if first {
                ftype::HEADERS
            } else {
                ftype::CONTINUATION
            };
            let ghost o = self.outbuf@;
            let ghost r0 = rest@;
            let flags: u8 = if first && end_stream {
                flag::END_STREAM
            } else {
                0
            };
            write_frame(&mut self.outbuf, ty, flags, id, head(rest, max));
            rest = tail(rest, max);
            proof {
                let f = frame_of(ty, flags, id, r0.take(max as int));
                let t = header_frames(id, r0.skip(max as int), max as int, end_stream, false);
                assert(header_frames(id, r0, max as int, end_stream, first) == f + t);
                assert(o + (f + t) =~= o + f + t);
            }
            first = false;
        }
        let ty: u8 = if first {
            ftype::HEADERS
        } else {
            ftype::CONTINUATION
        };
        let flags: u8 = if first && end_stream {
            flag::END_HEADERS | flag::END_STREAM
        } else {
            flag::END_HEADERS
        };
        write_frame(&mut self.outbuf, ty, flags, id, rest);
        proof {
            assert(self@ =~= old(self)@.send(all));
        }
    }

    /// Serialize a response for stream `id`: HEADERS, then flow-control limited
    /// DATA frames. Ignored when the stream is gone.
    pub fn respond(&mut self, id: u32, resp: Response)
        requires
            old(self).wf(),
        ensures
            final(self).wf(),
            final(self)@ == responded(old(self)@, id, resp@),
    {
        let i: usize = match self.find_stream(id) {
            Some(i) => i,
            None => {
                return;
            },
        };
        let ghost m = self@;
        let ghost before = self.streams@;
        let ghost rm = resp@;
        proof {
            assert(m.streams[i as int] == before[i as int]@);
        }
        let is_head: bool = self.streams[i].is_head;
        let (status, headers, body) = resp.in_answer(is_head).into_parts();
        let ghost out = outgoing(is_head, rm);
        let server: Option<&str> = match &self.server_name {
            Some(s) => Some(s.as_str()),
            None => None,
        };
        let fields = response_fields(status, &headers, server);
        let block = encode_fields(&mut self.hpack_enc, &fields);
        let sent_before: bool = self.streams[i].out_body.is_some();
        let has_body: bool = body.len() > 0;
        self.streams[i].out_body = Some(OutBody::from_body(body));
        proof {
            lemma_one_stream(m, before, self.streams@, i as int);
        }
        if !sent_before {
            self.write_header_frames(id, block.as_slice(), !has_body);
        }
        self.pump_out();
    }

    fn send_greeting(&mut self)
        requires
            old(self).wf(),
        ensures
            final(self).wf(),
            final(self)@ == old(self)@.send(greeting()),
    {
        let params: [(u16, u32); 4] = [
            (settings::ENABLE_PUSH, 0),
            (settings::MAX_CONCURRENT_STREAMS, MAX_CONCURRENT_STREAMS),
            (settings::INITIAL_WINDOW_SIZE, OUR_WINDOW),
            (settings::MAX_FRAME_SIZE, OUR_MAX_FRAME as u32),
        ];
        proof {
            assert(params@ =~= seq![
                (settings::ENABLE_PUSH, 0u32),
                (settings::MAX_CONCURRENT_STREAMS, MAX_CONCURRENT_STREAMS),
                (settings::INITIAL_WINDOW_SIZE, OUR_WINDOW),
                (settings::MAX_FRAME_SIZE, 1048576u32),
            ]);
        }
        write_settings(&mut self.outbuf, &params);
        // Raise the connection-level receive window from its default.
        write_window_update(&mut self.outbuf, 0, OUR_WINDOW - DEFAULT_WINDOW as u32);
        proof {
            assert(self@ =~= old(self)@.send(greeting()));
        }
    }

    /// Feed plaintext bytes, parsing frames and assembling requests.
    pub fn received(&mut self, data: &[u8])
        requires
            old(self).wf(),
        ensures
            final(self).wf(),
            final(self)@ == received(old(self)@, data@),
    {
        if self.closed {
            return;
        }
        push_all(&mut self.inbuf, data);
        if !self.preface_seen {
            let n: usize = CLIENT_PREFACE.as_bytes().len();
            if self.inbuf.len() < n {
                return;
            }
            if !bytes_are(head(self.inbuf.as_slice(), n), CLIENT_PREFACE) {
                self.conn_error(errcode::PROTOCOL_ERROR);
                return;
            }
            drop_front(&mut self.inbuf, n);
            self.preface_seen = true;
            self.send_greeting();
        }
        self.parse_frames();
        self.pump_out();
    }
}

/// Changing one stream changes one stream of the model; as long as its id and
/// its window stay, the model stays in order.
proof fn lemma_one_stream(m: H2Model, before: Seq<Stream>, after: Seq<Stream>, i: int)
    requires
        m.streams == stream_models(before),
        0 <= i < before.len(),
        after.len() == before.len(),
        forall|k: int| 0 <= k < before.len() && k != i ==> #[trigger] after[k] == before[k],
    ensures
        stream_models(after) == m.streams.update(i, after[i]@),
        m.wf() && after[i]@.id == before[i]@.id && after[i]@.window == before[i]@.window ==> (
        H2Model { streams: stream_models(after), ..m }).wf(),
{
    let a = stream_models(after);
    assert(a =~= m.streams.update(i, after[i]@));
    if m.wf() && after[i]@.id == before[i]@.id && after[i]@.window == before[i]@.window {
        lemma_same_ids(m, a);
    }
}

/// Sending within the budget keeps the windows in order.
proof fn lemma_sent_wf(m: H2Model, i: int, payload: Seq<u8>)
    requires
        m.wf(),
        0 <= i < m.streams.len(),
        can_send(m, m.streams[i]),
        payload.len() == chunk_len(m, m.streams[i]),
    ensures
        data_sent(m, i, payload).wf(),
{
    let d = data_sent(m, i, payload);
    assert forall|k: int| 0 <= k < d.streams.len() implies -MAX_WINDOW <= (
    #[trigger] d.streams[k]).window - d.initial_window <= MAX_WINDOW by {
        assert(-MAX_WINDOW <= m.streams[k].window - m.initial_window <= MAX_WINDOW);
    }
    assert forall|k: int| 0 <= k < d.streams.len() implies 0 < (#[trigger] d.streams[k]).id
        <= d.last_stream by {
        assert(0 < m.streams[k].id <= m.last_stream);
    }
    assert forall|j: int, k: int| 0 <= j < k < d.streams.len() implies (#[trigger] d.streams[j]).id
        < (#[trigger] d.streams[k]).id by {
        assert(m.streams[j].id < m.streams[k].id);
    }
}

proof fn lemma_same_ids(m: H2Model, a: Seq<StreamModel>)
    requires
        m.wf(),
        a.len() == m.streams.len(),
        forall|k: int|
            0 <= k < a.len() ==> (#[trigger] a[k]).id == m.streams[k].id && a[k].window
                == m.streams[k].window,
    ensures
        (H2Model { streams: a, ..m }).wf(),
{
    assert forall|j: int, k: int| 0 <= j < k < a.len() implies (#[trigger] a[j]).id < (
    #[trigger] a[k]).id by {
        assert(m.streams[j].id < m.streams[k].id);
    }
}

} // verus!
