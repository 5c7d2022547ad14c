//! The HTTP/3 application layer (RFC 9114) of one connection.
//!
//! [`H3Conn`] holds the request streams in progress. It is handed what was read
//! from each stream, gives out the requests that are complete, takes the
//! responses, and holds what is to be written. [`drive`](crate::h3::drive) does
//! all of that over a QUIC connection.
use crate::bytes::{copy_of, push_all, tail};
use crate::h3::frame::{
    frame3, read_varint, varint, varint_at, write_frame, write_varint, FRAME_DATA, FRAME_HEADERS,
    FRAME_SETTINGS, SETTINGS_MAX_FIELD_SECTION_SIZE, SETTINGS_QPACK_BLOCKED_STREAMS,
    SETTINGS_QPACK_MAX_TABLE_CAPACITY, STREAM_CONTROL, STREAM_QPACK_DECODER, STREAM_QPACK_ENCODER,
};
use crate::h3::qpack::{decode_section, encode_section, qpack_decoding, qpack_encoding};
use crate::proto::conn::{FileRead, FileStream, Limits};
use crate::proto::fields::{
    raw_model, request_head, request_head_of, response_fields, response_fields_of, RawFields,
};
use crate::proto::method::{Method, MethodModel};
use crate::proto::request::{Request, RequestModel};
use crate::proto::response::{outgoing, Body, BodyModel, Response, ResponseModel, STREAM_CHUNK};
use crate::proto::version::Version;
use std::collections::BTreeMap;
use vstd::prelude::*;
use vstd::std_specs::cmp::OrdSpec;
use vstd::std_specs::iter::IteratorSpec;

verus! {

broadcast use vstd::seq::group_seq_axioms;

/// The request stream was cut short: it grew past what is accepted.
pub const H3_REQUEST_INCOMPLETE: u64 = 0x010d;

/// The request was malformed.
pub const H3_MESSAGE_ERROR: u64 = 0x010e;

/// The response could not be produced.
pub const H3_INTERNAL_ERROR: u64 = 0x0102;

// ---------------------------------------------------------------------------
// What a connection is
// ---------------------------------------------------------------------------

/// One request stream.
#[verifier::ext_equal]
pub struct ReqModel {
    /// What the client has sent.
    pub input: Seq<u8>,
    /// Whether the client has ended its side.
    pub fin: bool,
    /// Whether the request has been taken.
    pub delivered: bool,
    /// Whether the taken request used `HEAD`.
    pub is_head: bool,
    /// Whether there is a response.
    pub answered: bool,
    /// Response bytes not yet written.
    pub pending: Seq<u8>,
    /// The part of a file body not yet read.
    pub file: Option<FileStream>,
}

/// The HTTP/3 state of one connection.
#[verifier::ext_equal]
pub struct H3Model {
    pub limits: Limits,
    pub server_name: Option<Seq<char>>,
    /// Whether our own streams are open, and which one is the control stream.
    pub control_stream: Option<u64>,
    /// The request streams in progress, by stream id.
    pub reqs: Map<u64, ReqModel>,
}

/// A stream of which nothing is known yet.
pub open spec fn blank() -> ReqModel {
    ReqModel {
        input: Seq::empty(),
        fin: false,
        delivered: false,
        is_head: false,
        answered: false,
        pending: Seq::empty(),
        file: None,
    }
}

impl H3Model {
    pub open spec fn set(self, id: u64, r: ReqModel) -> H3Model {
        H3Model { reqs: self.reqs.insert(id, r), ..self }
    }

    pub open spec fn without(self, id: u64) -> H3Model {
        H3Model { reqs: self.reqs.remove(id), ..self }
    }

    /// The stream with this id, or a blank one.
    pub open spec fn stream(self, id: u64) -> ReqModel {
        if self.reqs.contains_key(id) {
            self.reqs[id]
        } else {
            blank()
        }
    }
}

/// Which side opened a stream, and how it is read.
#[derive(Debug, Clone, Copy, PartialEq, Eq, Structural)]
pub enum StreamKind {
    /// Client-initiated bidirectional: carries a request.
    Request,
    /// Client-initiated unidirectional: control or QPACK, read and discarded.
    Drain,
    /// Ours.
    Own,
}

/// The role of a stream, by the two low bits of its id.
pub fn stream_kind(id: u64) -> (r: StreamKind)
    ensures
        r == (if id % 4 == 0 {
            StreamKind::Request
        } else if id % 4 == 2 {
            StreamKind::Drain
        } else {
            StreamKind::Own
        }),
{
    match id % 4 {
        0 => StreamKind::Request,
        2 => StreamKind::Drain,
        _ => StreamKind::Own,
    }
}

// ---------------------------------------------------------------------------
// Our own streams
// ---------------------------------------------------------------------------

/// The SETTINGS payload: no dynamic table, no blocked streams, and the largest
/// field section accepted.
pub open spec fn settings_payload(limits: Limits) -> Seq<u8> {
    varint(SETTINGS_QPACK_MAX_TABLE_CAPACITY as int) + varint(0) + varint(
        SETTINGS_QPACK_BLOCKED_STREAMS as int,
    ) + varint(0) + varint(SETTINGS_MAX_FIELD_SECTION_SIZE as int) + varint(
        limits.max_header_bytes as int,
    )
}

/// What the control stream starts with.
pub open spec fn control_bytes(limits: Limits) -> Seq<u8> {
    varint(STREAM_CONTROL as int) + frame3(FRAME_SETTINGS as int, settings_payload(limits))
}

/// What goes out first, one unidirectional stream each.
pub struct Opening {
    pub control: Vec<u8>,
    pub qpack_encoder: Vec<u8>,
    pub qpack_decoder: Vec<u8>,
}

// ---------------------------------------------------------------------------
// Messages
// ---------------------------------------------------------------------------

/// The header block (the first HEADERS frame) and the body (every DATA frame) of
/// a finished request stream from `pos` on; nothing where a frame is cut short.
/// Frames of other types are skipped.
pub open spec fn frames_in(b: Seq<u8>, pos: int, block: Option<Seq<u8>>, body: Seq<u8>) -> Option<
    (Option<Seq<u8>>, Seq<u8>),
>
    decreases b.len() - pos,
{
    if pos >= b.len() {
        Some((block, body))
    } else {
        match varint_at(b, pos) {
            None => None,
            Some((ty, p1)) => match varint_at(b, p1) {
                None => None,
                Some((len, p2)) => if p2 + len > b.len() || p2 + len <= pos {
                    None
                } else {
                    let payload = b.subrange(p2, p2 + len);
                    if ty == FRAME_HEADERS {
                        frames_in(
                            b,
                            p2 + len,
                            match block {
                                Some(x) => Some(x),
                                None => Some(payload),
                            },
                            body,
                        )
                    } else if ty == FRAME_DATA {
                        frames_in(b, p2 + len, block, body + payload)
                    } else {
                        frames_in(b, p2 + len, block, body)
                    }
                },
            },
        }
    }
}

/// The header block and body of a finished request stream.
pub open spec fn message_in(b: Seq<u8>) -> Option<(Seq<u8>, Seq<u8>)> {
    match frames_in(b, 0, None, Seq::empty()) {
        Some((Some(block), body)) => Some((block, body)),
        _ => None,
    }
}

/// The request that decoded header fields and a body make.
pub open spec fn request_of(fields: RawFields, body: Seq<u8>) -> Option<RequestModel> {
    match request_head_of(fields) {
        None => None,
        Some(h) => Some(
            RequestModel {
                method: h.method,
                target: h.target,
                version: Version::Http3,
                headers: h.headers,
                body,
                params: Seq::empty(),
            },
        ),
    }
}

/// The request on a finished request stream.
pub open spec fn request_in(b: Seq<u8>) -> Option<RequestModel> {
    match message_in(b) {
        None => None,
        Some((block, body)) => match qpack_decoding(block) {
            None => None,
            Some(fields) => request_of(fields, body),
        },
    }
}

/// Split a finished request stream into its header block and body.
pub fn split_message(buf: &[u8]) -> (r: Option<(Vec<u8>, Vec<u8>)>)
    ensures
        match r {
            Some((block, body)) => message_in(buf@) == Some((block@, body@)),
            None => message_in(buf@) is None,
        },
{
    let n: usize = buf.len();
    let mut pos: usize = 0;
    let mut block: Option<Vec<u8>> = None;
    let mut body: Vec<u8> = Vec::new();
    let ghost bm: Option<Seq<u8>> = None;
    let ghost mut bm = bm;
    while pos < n
        invariant
            pos <= n == buf@.len(),
            bm == (match block {
                Some(b) => Some(b@),
                None => None,
            }),
            frames_in(buf@, 0, None, Seq::empty()) == frames_in(buf@, pos as int, bm, body@),
        decreases n - pos,
    {
        let (ty, p1) = match read_varint(buf, pos) {
            Some(x) => x,
            None => {
                return None;
            },
        };
        let (len, p2) = match read_varint(buf, p1) {
            Some(x) => x,
            None => {
                return None;
            },
        };
        if len > (n - p2) as u64 {
            return None;
        }
        let end: usize = p2 + len as usize;
        let payload = vstd::slice::slice_subrange(buf, p2, end);
        if ty == FRAME_HEADERS {
            if block.is_none() {
                block = Some(copy_of(payload));
                proof {
                    bm = Some(payload@);
                }
            }
        } else if ty == FRAME_DATA {
            push_all(&mut body, payload);
        }
        pos = end;
    }
    match block {
        Some(b) => Some((b, body)),
        None => None,
    }
}

/// Build the request from decoded header fields and the body.
pub fn assemble_request(fields: &Vec<(Vec<u8>, Vec<u8>)>, body: Vec<u8>) -> (r: Option<Request>)
    ensures
        match r {
            Some(q) => request_of(raw_model(fields@), body@) == Some(q@),
            None => request_of(raw_model(fields@), body@) is None,
        },
{
    match request_head(fields) {
        Err(_) => None,
        Ok(h) => Some(Request::new(h.method, h.target, Version::Http3, h.headers, body)),
    }
}

/// Parse the frames of a complete request stream into a [`Request`].
pub fn parse_request(buf: &[u8]) -> (r: Option<Request>)
    ensures
        match r {
            Some(q) => request_in(buf@) == Some(q@),
            None => request_in(buf@) is None,
        },
{
    match split_message(buf) {
        None => None,
        Some((block, body)) => match decode_section(block.as_slice()) {
            None => None,
            Some(fields) => assemble_request(&fields, body),
        },
    }
}

/// The HEADERS frame of a response and its DATA frame, if there is a body; of a
/// file body only the frame header, the content following as it is read.
pub open spec fn response_frames_of(section: Seq<u8>, body: BodyModel) -> Seq<u8> {
    frame3(FRAME_HEADERS as int, section) + (if body.size() == 0 {
        Seq::empty()
    } else {
        match body {
            BodyModel::Bytes(b) => frame3(FRAME_DATA as int, b),
            BodyModel::File { len, .. } => varint(FRAME_DATA as int) + varint(len as int),
        }
    })
}

/// The file region that follows the response frames.
pub open spec fn following(body: BodyModel) -> Option<FileStream> {
    match body {
        BodyModel::Bytes(_) => None,
        BodyModel::File { file, offset, len } => if len == 0 {
            None
        } else {
            Some(FileStream { file, offset, remaining: len })
        },
    }
}

/// Frame a response whose header section is encoded.
pub fn response_frames(section: &[u8], body: &Body) -> (r: (Vec<u8>, Option<FileStream>))
    ensures
        r.0@ == response_frames_of(section@, body@),
        r.1 == following(body@),
{
    let mut out: Vec<u8> = Vec::new();
    write_frame(&mut out, FRAME_HEADERS, section);
    let ghost h = out@;
    proof {
        assert(h =~= frame3(FRAME_HEADERS as int, section@));
    }
    if body.is_empty() {
        proof {
            assert(out@ =~= response_frames_of(section@, body@));
        }
        return (out, None);
    }
    match body {
        Body::Bytes(b) => {
            write_frame(&mut out, FRAME_DATA, b.as_slice());
            (out, None)
        },
        Body::File { file, offset, len } => {
            write_varint(&mut out, FRAME_DATA);
            write_varint(&mut out, *len);
            proof {
                assert(out@ =~= response_frames_of(section@, body@));
            }
            (out, Some(FileStream { file: *file, offset: *offset, remaining: *len }))
        },
    }
}

/// The bytes of a response, up to the content of a file body.
pub open spec fn encoded(resp: ResponseModel, server: Option<Seq<char>>) -> Seq<u8> {
    response_frames_of(
        qpack_encoding(response_fields_of(resp.status, resp.headers, server)),
        resp.body,
    )
}

/// Encode a response: the bytes to send, and the file region to send after them.
pub fn encode_response(resp: Response, server: Option<&str>) -> (r: (Vec<u8>, Option<FileStream>))
    ensures
        r.0@ == encoded(
            resp@,
            match server {
                Some(s) => Some(s@),
                None => None,
            },
        ),
        r.1 == following(resp@.body),
{
    let (status, headers, body) = resp.into_parts();
    let fields = response_fields(status, &headers, server);
    let section = encode_section(&fields);
    response_frames(section.as_slice(), &body)
}

// ---------------------------------------------------------------------------
// Events
// ---------------------------------------------------------------------------

/// Bytes arrived on a request stream; `fin` when the client ended its side. A
/// stream that grows past the limits is dropped.
pub open spec fn arrived(m: H3Model, id: u64, data: Seq<u8>, fin: bool) -> H3Model {
    let s = m.stream(id);
    let r = ReqModel { input: s.input + data, fin: s.fin || fin, ..s };
    if data.len() == 0 && !fin {
        m
    } else if overgrown(m, r) {
        m.without(id)
    } else {
        m.set(id, r)
    }
}

/// Whether a request stream holds more than is accepted.
pub open spec fn overgrown(m: H3Model, r: ReqModel) -> bool {
    r.input.len() > m.limits.max_body_bytes + m.limits.max_header_bytes
}

/// Whether the request of a stream is complete and not yet taken.
pub open spec fn is_ready(m: H3Model, id: u64) -> bool {
    m.reqs.contains_key(id) && m.reqs[id].fin && !m.reqs[id].delivered
}

/// A complete request was taken; one that cannot be parsed drops its stream.
pub open spec fn taken(m: H3Model, id: u64) -> H3Model {
    if !is_ready(m, id) {
        m
    } else {
        match request_in(m.reqs[id].input) {
            None => m.without(id),
            Some(q) => m.set(
                id,
                ReqModel {
                    input: Seq::empty(),
                    delivered: true,
                    is_head: q.method == MethodModel::Head,
                    ..m.reqs[id]
                },
            ),
        }
    }
}

/// Whether a stream waits for the response to its request.
pub open spec fn awaits_response(m: H3Model, id: u64) -> bool {
    m.reqs.contains_key(id) && m.reqs[id].delivered && !m.reqs[id].answered
}

/// A response was handed in.
pub open spec fn responded(m: H3Model, id: u64, resp: ResponseModel) -> H3Model {
    if !awaits_response(m, id) {
        m
    } else {
        let out = outgoing(m.reqs[id].is_head, resp);
        m.set(
            id,
            ReqModel {
                answered: true,
                pending: encoded(out, m.server_name),
                file: following(out.body),
                ..m.reqs[id]
            },
        )
    }
}

/// The next file read that a stream needs: only once all it has is written.
pub open spec fn wanted(r: ReqModel) -> Option<FileRead> {
    match r.file {
        Some(f) => if r.pending.len() > 0 {
            None
        } else {
            Some(
                FileRead {
                    file: f.file,
                    offset: f.offset,
                    len: if f.remaining < STREAM_CHUNK {
                        f.remaining as usize
                    } else {
                        STREAM_CHUNK
                    },
                },
            )
        },
        None => None,
    }
}

/// What is left of a file region after `n` more bytes of it were read.
pub open spec fn region_after(f: FileStream, n: nat) -> Option<FileStream> {
    if f.remaining == n {
        None
    } else {
        Some(
            FileStream {
                file: f.file,
                offset: f.offset.wrapping_add(n as u64),
                remaining: (f.remaining - n) as u64,
            },
        )
    }
}

/// The bytes that a read yielded, if it did not fail.
pub open spec fn bytes_of(data: Option<Vec<u8>>) -> Option<Seq<u8>> {
    match data {
        Some(v) => Some(v@),
        None => None,
    }
}

/// The wanted read came back; nothing, or more than was asked for, drops the
/// stream: the promised length cannot be kept.
pub open spec fn read_back(m: H3Model, id: u64, data: Option<Seq<u8>>) -> H3Model {
    if !m.reqs.contains_key(id) {
        m
    } else {
        let r = m.reqs[id];
        match wanted(r) {
            None => m,
            Some(w) => match data {
                Some(d) => if 0 < d.len() <= w.len {
                    m.set(id, ReqModel { pending: d, file: region_after(r.file->0, d.len()), ..r })
                } else {
                    m.without(id)
                },
                None => m.without(id),
            },
        }
    }
}

/// Whether all of a response has been written.
pub open spec fn all_written(r: ReqModel) -> bool {
    r.answered && r.pending.len() == 0 && r.file is None
}

// ---------------------------------------------------------------------------
// The connection
// ---------------------------------------------------------------------------

/// In-progress state of one client-initiated bidirectional (request) stream.
#[derive(Debug)]
pub struct ReqStream {
    inbuf: Vec<u8>,
    fin: bool,
    delivered: bool,
    is_head: bool,
    answered: bool,
    out: Vec<u8>,
    out_pos: usize,
    file: Option<FileStream>,
}

impl View for ReqStream {
    type V = ReqModel;

    closed spec fn view(&self) -> ReqModel {
        ReqModel {
            input: self.inbuf@,
            fin: self.fin,
            delivered: self.delivered,
            is_head: self.is_head,
            answered: self.answered,
            pending: self.out@.skip(self.out_pos as int),
            file: self.file,
        }
    }
}

impl ReqStream {
    pub closed spec fn wf(self) -> bool {
        self.out_pos <= self.out@.len()
    }

    fn blank() -> (r: ReqStream)
        ensures
            r@ == blank(),
            r.wf(),
    {
        let r = ReqStream {
            inbuf: Vec::new(),
            fin: false,
            delivered: false,
            is_head: false,
            answered: false,
            out: Vec::new(),
            out_pos: 0,
            file: None,
        };
        proof {
            assert(r@ =~= blank());
        }
        r
    }
}

/// The HTTP/3 state of one connection.
#[derive(Debug)]
pub struct H3Conn {
    limits: Limits,
    server_name: Option<String>,
    control_stream: Option<u64>,
    reqs: BTreeMap<u64, ReqStream>,
}

impl View for H3Conn {
    type V = H3Model;

    closed spec fn view(&self) -> H3Model {
        H3Model {
            limits: self.limits,
            server_name: match self.server_name {
                Some(s) => Some(s@),
                None => None,
            },
            control_stream: self.control_stream,
            reqs: self.reqs@.map_values(|r: ReqStream| r@),
        }
    }
}

impl H3Conn {
    /// Every stream is well-formed.
    pub closed spec fn wf(self) -> bool {
        forall|id: u64| #[trigger] self.reqs@.contains_key(id) ==> self.reqs@[id].wf()
    }

    /// The HTTP/3 state of a freshly accepted QUIC connection.
    pub fn new(limits: Limits, server_name: Option<String>) -> (r: H3Conn)
        ensures
            r.wf(),
            r@ == (H3Model {
                limits,
                server_name: match server_name {
                    Some(s) => Some(s@),
                    None => None,
                },
                control_stream: None,
                reqs: Map::empty(),
            }),
    {
        let r = H3Conn { limits, server_name, control_stream: None, reqs: BTreeMap::new() };
        proof {
            assert(r@.reqs =~= Map::empty());
        }
        r
    }

    /// What to open our control and QPACK streams with, unless that was done:
    /// SETTINGS advertising a stateless QPACK, and a bare type byte each for the
    /// encoder and decoder streams.
    pub fn start(&self) -> (r: Option<Opening>)
        requires
            self.wf(),
        ensures
            r is None <==> self@.control_stream is Some,
            r matches Some(o) ==> {
                &&& o.control@ == control_bytes(self@.limits)
                &&& o.qpack_encoder@ == varint(STREAM_QPACK_ENCODER as int)
                &&& o.qpack_decoder@ == varint(STREAM_QPACK_DECODER as int)
            },
    {
        if self.control_stream.is_some() {
            return None;
        }
        let mut payload: Vec<u8> = Vec::new();
        write_varint(&mut payload, SETTINGS_QPACK_MAX_TABLE_CAPACITY);
        write_varint(&mut payload, 0);
        write_varint(&mut payload, SETTINGS_QPACK_BLOCKED_STREAMS);
        write_varint(&mut payload, 0);
        write_varint(&mut payload, SETTINGS_MAX_FIELD_SECTION_SIZE);
        write_varint(&mut payload, self.limits.max_header_bytes as u64);
        proof {
            assert(payload@ =~= settings_payload(self.limits));
        }
        let mut control: Vec<u8> = Vec::new();
        write_varint(&mut control, STREAM_CONTROL);
        write_frame(&mut control, FRAME_SETTINGS, payload.as_slice());
        let mut qpack_encoder: Vec<u8> = Vec::new();
        write_varint(&mut qpack_encoder, STREAM_QPACK_ENCODER);
        let mut qpack_decoder: Vec<u8> = Vec::new();
        write_varint(&mut qpack_decoder, STREAM_QPACK_DECODER);
        proof {
            assert(control@ =~= control_bytes(self.limits));
            assert(qpack_encoder@ =~= varint(STREAM_QPACK_ENCODER as int));
            assert(qpack_decoder@ =~= varint(STREAM_QPACK_DECODER as int));
        }
        Some(Opening { control, qpack_encoder, qpack_decoder })
    }

    /// Our streams are open; `control` is the control stream.
    pub fn started(&mut self, control: u64)
        requires
            old(self).wf(),
        ensures
            final(self).wf(),
            final(self)@ == (H3Model { control_stream: Some(control), ..old(self)@ }),
    {
        self.control_stream = Some(control);
    }

    /// The stream, out of the map.
    fn take_stream(&mut self, id: u64) -> (r: Option<ReqStream>)
        requires
            old(self).wf(),
        ensures
            final(self).wf(),
            final(self)@ == old(self)@.without(id),
            match r {
                Some(s) => s.wf() && old(self)@.reqs.contains_key(id) && old(self)@.reqs[id] == s@,
                None => !old(self)@.reqs.contains_key(id),
            },
    {
        let r = self.reqs.remove(&id);
        proof {
            assert(self@.reqs =~= old(self)@.reqs.remove(id));
        }
        r
    }

    fn put_stream(&mut self, id: u64, s: ReqStream)
        requires
            old(self).wf(),
            s.wf(),
        ensures
            final(self).wf(),
            final(self)@ == old(self)@.set(id, s@),
    {
        self.reqs.insert(id, s);
        proof {
            assert(self@.reqs =~= old(self)@.reqs.insert(id, s@));
        }
    }

    /// Bytes read from request stream `id`, and whether its end was seen. A
    /// returned code says to reset the stream.
    pub fn read_request(&mut self, id: u64, data: &[u8], fin: bool) -> (r: Option<u64>)
        requires
            old(self).wf(),
        ensures
            final(self).wf(),
            final(self)@ == arrived(old(self)@, id, data@, fin),
            ({
                let s = old(self)@.stream(id);
                r == (if (data@.len() > 0 || fin) && overgrown(
                    old(self)@,
                    (ReqModel { input: s.input + data@, ..s }),
                ) {
                    Some(H3_REQUEST_INCOMPLETE)
                } else {
                    None
                })
            }),
    {
        if data.len() == 0 && !fin {
            return None;
        }
        let ghost m = self@;
        let mut s = match self.take_stream(id) {
            Some(s) => s,
            None => ReqStream::blank(),
        };
        let ghost s0 = s@;
        push_all(&mut s.inbuf, data);
        if fin {
            s.fin = true;
        }
        proof {
            assert(s@ =~= ReqModel { input: s0.input + data@, fin: s0.fin || fin, ..s0 });
        }
        let n: usize = s.inbuf.len();
        if n > self.limits.max_body_bytes && n - self.limits.max_body_bytes
            > self.limits.max_header_bytes {
            return Some(H3_REQUEST_INCOMPLETE);
        }
        self.put_stream(id, s);
        proof {
            assert(self@ =~= arrived(m, id, data@, fin));
        }
        None
    }

    /// The streams with a complete request that has not been taken, by
    /// ascending id.
    pub fn ready(&self) -> (r: Vec<u64>)
        requires
            self.wf(),
        ensures
            forall|i: int, j: int| 0 <= i < j < r@.len() ==> r@[i] < r@[j],
            forall|id: u64| #[trigger] r@.contains(id) <==> is_ready(self@, id),
    {
        let all = self.streams();
        let mut out: Vec<u64> = Vec::new();
        let mut i: usize = 0;
        let ghost m = self@;
        while i < all.len()
            invariant
                self.wf(),
                m == self@,
                i <= all@.len(),
                forall|x: int, y: int| 0 <= x < y < all@.len() ==> all@[x] < all@[y],
                forall|id: u64| #[trigger] all@.contains(id) <==> m.reqs.contains_key(id),
                forall|x: int, y: int| 0 <= x < y < out@.len() ==> out@[x] < out@[y],
                forall|x: int, k: int|
                    0 <= x < out@.len() && i <= k < all@.len() ==> #[trigger] out@[x]
                        < #[trigger] all@[k],
                forall|x: int| 0 <= x < out@.len() ==> #[trigger] is_ready(m, out@[x]),
                forall|k: int|
                    0 <= k < i && is_ready(m, #[trigger] all@[k]) ==> out@.contains(all@[k]),
            decreases all.len() - i,
        {
            let id: u64 = all[i];
            let ghost before = out@;
            let hit: bool = match self.reqs.get(&id) {
                Some(s) => s.fin && !s.delivered,
                None => false,
            };
            proof {
                assert(all@.contains(id));
                assert(hit == is_ready(m, id));
            }
            if hit {
                out.push(id);
                proof {
                    assert(out@[before.len() as int] == id);
                    assert forall|k: int| 0 <= k < i + 1 && is_ready(m, #[trigger] all@[k]) implies out@.contains(
                        all@[k],
                    ) by {
                        if k < i {
                            let x = choose|x: int| 0 <= x < before.len() && before[x] == all@[k];
                            assert(out@[x] == all@[k]);
                        }
                    }
                }
            }
            i += 1;
        }
        proof {
            assert forall|id: u64| is_ready(m, id) implies #[trigger] out@.contains(id) by {
                assert(all@.contains(id));
                let k = choose|k: int| 0 <= k < all@.len() && all@[k] == id;
                assert(is_ready(m, all@[k]));
            }
        }
        out
    }

    /// The request streams in progress, by ascending id.
    pub fn streams(&self) -> (r: Vec<u64>)
        requires
            self.wf(),
        ensures
            forall|i: int, j: int| 0 <= i < j < r@.len() ==> r@[i] < r@[j],
            forall|id: u64| #[trigger] r@.contains(id) <==> self@.reqs.contains_key(id),
    {
        let mut out: Vec<u64> = Vec::new();
        let ghost all = self.reqs.iter().remaining();
        let ghost keys = all.map_values(|kv: (&u64, &ReqStream)| *kv.0);
        for kv in it: self.reqs.iter()
            invariant
                it.seq() == all,
                keys == all.map_values(|kv: (&u64, &ReqStream)| *kv.0),
                out@ == keys.take(it.index()),
        {
            out.push(*kv.0);
            proof {
                assert(keys.take(it.index() + 1) =~= keys.take(it.index()).push(*kv.0));
            }
        }
        proof {
            assert(out@ =~= keys);
            assert(vstd::std_specs::btree::increasing_seq(keys));
            assert(vstd::laws_cmp::obeys_cmp::<u64>());
            assert forall|i: int, j: int| 0 <= i < j < keys.len() implies keys[i] < keys[j] by {
                assert(keys[i].cmp_spec(&keys[j]) is Less);
            }
            assert forall|id: u64| #[trigger] out@.contains(id) <==> self@.reqs.contains_key(id) by {
                if self@.reqs.contains_key(id) {
                    assert(self.reqs@.contains_key(id));
                    let i = all.index_of((&id, &self.reqs@[id]));
                    assert(keys[i] == id);
                }
                if out@.contains(id) {
                    let i = out@.index_of(id);
                    assert(self.reqs@.contains_key(*all[i].0));
                }
            }
        }
        out
    }

    /// Take the request of a stream that [`ready`](H3Conn::ready) named. `Err`
    /// carries the code to reset a stream with whose request is malformed.
    pub fn take_request(&mut self, id: u64) -> (r: core::result::Result<Option<Request>, u64>)
        requires
            old(self).wf(),
        ensures
            final(self).wf(),
            final(self)@ == taken(old(self)@, id),
            match r {
                Ok(None) => !is_ready(old(self)@, id),
                Ok(Some(q)) => is_ready(old(self)@, id) && request_in(old(self)@.reqs[id].input)
                    == Some(q@),
                Err(code) => is_ready(old(self)@, id) && request_in(old(self)@.reqs[id].input)
                    is None && code == H3_MESSAGE_ERROR,
            },
    {
        let ghost m = self@;
        let mut s = match self.take_stream(id) {
            Some(s) => s,
            None => {
                proof {
                    assert(self@ =~= m);
                }
                return Ok(None);
            },
        };
        let ghost s0 = s@;
        if !s.fin || s.delivered {
            self.put_stream(id, s);
            proof {
                assert(self@ =~= m);
            }
            return Ok(None);
        }
        match parse_request(s.inbuf.as_slice()) {
            None => Err(H3_MESSAGE_ERROR),
            Some(q) => {
                s.inbuf = Vec::new();
                s.delivered = true;
                s.is_head = match q.method() {
                    Method::Head => true,
                    _ => false,
                };
                self.put_stream(id, s);
                proof {
                    assert(self@ =~= taken(m, id));
                }
                Ok(Some(q))
            },
        }
    }

    /// Hand in the response to the request taken from stream `id`.
    pub fn respond(&mut self, id: u64, resp: Response)
        requires
            old(self).wf(),
        ensures
            final(self).wf(),
            final(self)@ == responded(old(self)@, id, resp@),
    {
        let ghost m = self@;
        let mut s = match self.take_stream(id) {
            Some(s) => s,
            None => {
                proof {
                    assert(self@ =~= m);
                }
                return;
            },
        };
        if s.delivered && !s.answered {
            let server: Option<&str> = match &self.server_name {
                Some(n) => Some(n.as_str()),
                None => None,
            };
            let (out, file) = encode_response(resp.in_answer(s.is_head), server);
            s.out = out;
            s.out_pos = 0;
            s.file = file;
            s.answered = true;
            proof {
                assert(s.out@.skip(0) =~= s.out@);
            }
        }
        self.put_stream(id, s);
        proof {
            assert(self@ =~= responded(m, id, resp@));
        }
    }

    /// The response bytes of a stream that wait to be written.
    pub fn pending(&self, id: u64) -> (r: &[u8])
        requires
            self.wf(),
        ensures
            r@ == self@.stream(id).pending,
    {
        match self.reqs.get(&id) {
            Some(s) => tail(s.out.as_slice(), s.out_pos),
            None => &[],
        }
    }

    /// So many of the pending bytes were written.
    pub fn wrote(&mut self, id: u64, n: usize)
        requires
            old(self).wf(),
            n <= old(self)@.stream(id).pending.len(),
        ensures
            final(self).wf(),
            final(self)@ == (if old(self)@.reqs.contains_key(id) {
                let r = old(self)@.reqs[id];
                old(self)@.set(id, ReqModel { pending: r.pending.skip(n as int), ..r })
            } else {
                old(self)@
            }),
    {
        let ghost m = self@;
        match self.take_stream(id) {
            None => {
                proof {
                    assert(self@ =~= m);
                }
            },
            Some(s0) => {
                let mut s = s0;
                let ghost p = s@.pending;
                let len: usize = s.out.len();
                proof {
                    assert(p.len() == len - s.out_pos);
                    assert(m.stream(id) == s@);
                }
                s.out_pos = s.out_pos + n;
                proof {
                    assert(s.out@.skip(s.out_pos as int) =~= p.skip(n as int));
                }
                self.put_stream(id, s);
                proof {
                    let r = m.reqs[id];
                    assert(self@ =~= m.set(id, ReqModel { pending: r.pending.skip(n as int), ..r }));
                }
            },
        }
    }

    /// The file read a stream needs next: once its pending bytes are written and
    /// there is more of a file body to send.
    pub fn wanted_read(&self, id: u64) -> (r: Option<FileRead>)
        requires
            self.wf(),
        ensures
            r == (if self@.reqs.contains_key(id) {
                wanted(self@.reqs[id])
            } else {
                None
            }),
    {
        match self.reqs.get(&id) {
            Some(s) => wanted_of(s),
            None => None,
        }
    }

    /// What the wanted read yielded: between one byte and all it asked for, or
    /// `None` when it failed. A returned code says to reset the stream.
    pub fn read_done(&mut self, id: u64, data: Option<Vec<u8>>) -> (r: Option<u64>)
        requires
            old(self).wf(),
        ensures
            final(self).wf(),
            final(self)@ == read_back(old(self)@, id, bytes_of(data)),
            r == (if old(self)@.reqs.contains_key(id) && !final(self)@.reqs.contains_key(id) {
                Some(H3_INTERNAL_ERROR)
            } else {
                None
            }),
    {
        let ghost m = self@;
        let ghost d = bytes_of(data);
        let mut s = match self.take_stream(id) {
            Some(s) => s,
            None => {
                proof {
                    assert(self@ =~= m);
                }
                return None;
            },
        };
        let w = match wanted_of(&s) {
            Some(w) => w,
            None => {
                self.put_stream(id, s);
                proof {
                    assert(self@ =~= m);
                }
                return None;
            },
        };
        let f = match s.file {
            Some(f) => f,
            None => {
                return Some(H3_INTERNAL_ERROR);
            },
        };
        let v = match data {
            Some(v) => v,
            None => {
                return Some(H3_INTERNAL_ERROR);
            },
        };
        let n: usize = v.len();
        if n == 0 || n > w.len {
            return Some(H3_INTERNAL_ERROR);
        }
        s.file = if f.remaining == n as u64 {
            None
        } else {
            Some(
                FileStream {
                    file: f.file,
                    offset: f.offset.wrapping_add(n as u64),
                    remaining: f.remaining - n as u64,
                },
            )
        };
        s.out = v;
        s.out_pos = 0;
        proof {
            assert(s.out@.skip(0) =~= v@);
        }
        self.put_stream(id, s);
        proof {
            assert(self@ =~= read_back(m, id, d));
        }
        None
    }

    /// Whether all of a stream's response has been written, so that our side of
    /// it can be ended.
    pub fn wants_finish(&self, id: u64) -> (r: bool)
        requires
            self.wf(),
        ensures
            r == all_written(self@.stream(id)),
    {
        match self.reqs.get(&id) {
            Some(s) => s.answered && s.out_pos >= s.out.len() && s.file.is_none(),
            None => false,
        }
    }

    /// Our side of the stream was ended: forget it.
    pub fn finished(&mut self, id: u64)
        requires
            old(self).wf(),
        ensures
            final(self).wf(),
            final(self)@ == old(self)@.without(id),
    {
        let _ = self.take_stream(id);
    }
}

fn wanted_of(s: &ReqStream) -> (r: Option<FileRead>)
    requires
        s.wf(),
    ensures
        r == wanted(s@),
{
    if s.out_pos < s.out.len() {
        return None;
    }
    match s.file {
        None => None,
        Some(f) => Some(
            FileRead {
                file: f.file,
                offset: f.offset,
                len: if f.remaining < STREAM_CHUNK as u64 {
                    f.remaining as usize
                } else {
                    STREAM_CHUNK
                },
            },
        ),
    }
}

} // verus!
