//! The sans-I/O HTTP/1.x connection engine.
//!
//! [`H1Conn`] owns no socket, no file and no clock. You [`feed`](H1Conn::feed)
//! it the plaintext bytes that arrived on the connection,
//! [`poll_request`](H1Conn::poll_request) until it yields a complete request,
//! hand it back a response with [`respond`](H1Conn::respond), and drain the
//! serialized reply with [`take_out`](H1Conn::take_out). A file body is streamed
//! by answering [`wanted_read`](H1Conn::wanted_read).
use crate::bytes::{
    copy_of, drop_front, find, find_subslice, head, lemma_find, lemma_find_from, lemma_find_prefix,
    occurs_at, push_all, push_text, tail,
};
use crate::error::{Error, ErrorModel, Result};
use crate::proto::chunk::{decode_chunked, ChunkDecoder, ChunkOutcome};
use crate::proto::date::{date_of, http_date};
use crate::proto::head::{
    body_framing, framing_of, head_of, is_token, keeps_alive, negotiate_keep_alive, parse_head,
    token, BodyFraming, Head, HeadModel,
};
use crate::proto::headers::{has_token, with_default, with_field, without, Fields, Headers};
use crate::proto::method::MethodModel;
use crate::proto::request::{Request, RequestModel};
use crate::proto::response::{
    status_response, Body, BodyModel, FileId, Response, ResponseModel, STREAM_CHUNK,
};
use crate::proto::status::StatusCode;
use crate::proto::version::Version;
use crate::text::{chars_of, decimal, decimal_string, push_numeral};
use vstd::prelude::*;
use vstd::utf8::encode_utf8;

verus! {

broadcast use vstd::seq::group_seq_axioms;

/// The `Server` header value advertised unless another is set.
pub const DEFAULT_SERVER_NAME: &'static str = "httpsd/0.1.1";

/// Tunable limits applied while parsing requests, to bound memory use.
#[derive(Debug, Clone, Copy, PartialEq, Eq, Structural)]
pub struct Limits {
    /// Maximum size of the request line + header block, in bytes.
    pub max_header_bytes: usize,
    /// Maximum size of a (buffered) request body, in bytes.
    pub max_body_bytes: usize,
}

impl Default for Limits {
    fn default() -> (r: Limits)
        ensures
            r == (Limits { max_header_bytes: 65536, max_body_bytes: 16777216 }),
    {
        Limits { max_header_bytes: 65536, max_body_bytes: 16777216 }
    }
}

/// Per-request facts the engine must remember between
/// [`H1Conn::poll_request`] and [`H1Conn::respond`].
#[derive(Debug, Clone, Copy, PartialEq, Eq, Structural)]
pub struct Pending {
    pub version: Version,
    pub keep_alive: bool,
    pub is_head: bool,
}

/// A file region that is being streamed out.
#[derive(Debug, Clone, Copy, PartialEq, Eq, Structural)]
pub struct FileStream {
    pub file: FileId,
    /// Absolute offset of the next byte to read.
    pub offset: u64,
    /// Bytes still to send.
    pub remaining: u64,
}

/// A read the engine asks its driver for: `len` bytes of `file` at `offset`.
#[derive(Debug, Clone, Copy, PartialEq, Eq, Structural)]
pub struct FileRead {
    pub file: FileId,
    pub offset: u64,
    pub len: usize,
}

// ---------------------------------------------------------------------------
// What a connection is
// ---------------------------------------------------------------------------

/// The model of a connection.
#[verifier::ext_equal]
pub struct ConnModel {
    /// Received bytes not yet consumed by a request.
    pub input: Seq<u8>,
    /// Serialized bytes not yet taken.
    pub output: Seq<u8>,
    /// The file body still being streamed out.
    pub stream: Option<FileStream>,
    pub limits: Limits,
    /// The request awaiting its response.
    pub pending: Option<Pending>,
    /// Whether the connection is to be closed after its output.
    pub closed: bool,
    /// Whether the current request was answered `100 Continue`.
    pub interim_sent: bool,
    pub server_name: Option<Seq<char>>,
}

/// The end of a header block.
pub open spec fn head_end() -> Seq<u8> {
    seq![13u8, 10u8, 13u8, 10u8]
}

/// What the buffered input amounts to.
pub enum InputOutcome {
    /// More bytes are needed; whether the client waits for `100 Continue`.
    Need { expects_continue: bool },
    /// The input is refused with this status, about this.
    Fail { status: StatusCode, what: Seq<char> },
    /// The first `used` bytes are a complete request.
    Ready { used: nat, request: RequestModel },
}

/// A request with the given head and body.
pub open spec fn request_with(h: HeadModel, version: Version, body: Seq<u8>) -> RequestModel {
    RequestModel {
        method: h.method,
        target: h.target,
        version,
        headers: h.headers,
        body,
        params: Seq::empty(),
    }
}

/// Whether the client asked for `100 Continue`.
pub open spec fn expects_continue(f: Fields) -> bool {
    has_token(f, "expect"@, "100-continue"@)
}

/// What follows a head of `end` bytes and its terminator.
pub open spec fn body_in(
    input: Seq<u8>,
    end: int,
    h: HeadModel,
    version: Version,
    limits: Limits,
) -> InputOutcome {
    let start = end + 4;
    match framing_of(h.headers) {
        None => InputOutcome::Fail {
            status: StatusCode { code: 400, reason: "Bad Request" },
            what: "body framing"@,
        },
        Some(BodyFraming::Empty) => InputOutcome::Ready {
            used: start as nat,
            request: request_with(h, version, Seq::empty()),
        },
        Some(BodyFraming::Length(n)) => if n > limits.max_body_bytes {
            InputOutcome::Fail {
                status: StatusCode { code: 413, reason: "Content Too Large" },
                what: "body"@,
            }
        } else if input.len() < start + n {
            InputOutcome::Need { expects_continue: expects_continue(h.headers) }
        } else {
            InputOutcome::Ready {
                used: (start + n) as nat,
                request: request_with(h, version, input.subrange(start, start + n)),
            }
        },
        Some(BodyFraming::Chunked) => match decode_chunked(
            input.skip(start),
            limits.max_body_bytes as nat,
        ) {
            ChunkOutcome::Need => InputOutcome::Need {
                expects_continue: expects_continue(h.headers),
            },
            ChunkOutcome::Bad(status) => InputOutcome::Fail { status, what: "chunked body"@ },
            ChunkOutcome::Done { used, body } => InputOutcome::Ready {
                used: (start + used) as nat,
                request: request_with(h, version, body),
            },
        },
    }
}

/// What the buffered input amounts to: the head up to the first empty line,
/// then the body that the head calls for.
pub open spec fn request_in(input: Seq<u8>, limits: Limits) -> InputOutcome {
    let too_large = InputOutcome::Fail {
        status: StatusCode { code: 431, reason: "Request Header Fields Too Large" },
        what: "headers"@,
    };
    match find(input, head_end()) {
        None => if input.len() > limits.max_header_bytes {
            too_large
        } else {
            InputOutcome::Need { expects_continue: false }
        },
        Some(end) => if end > limits.max_header_bytes {
            too_large
        } else {
            match head_of(input.take(end)) {
                Err(_) => InputOutcome::Fail {
                    status: StatusCode { code: 400, reason: "Bad Request" },
                    what: "request line/headers"@,
                },
                Ok(h) => match h.version {
                    None => InputOutcome::Fail {
                        status: StatusCode { code: 505, reason: "HTTP Version Not Supported" },
                        what: "version"@,
                    },
                    Some(version) => body_in(input, end, h, version, limits),
                },
            }
        },
    }
}

// ---------------------------------------------------------------------------
// Replies
// ---------------------------------------------------------------------------

/// The fields without those that only the engine may send.
pub open spec fn without_hop_by_hop(f: Fields) -> Fields {
    let f = without(f, "transfer-encoding"@);
    let f = without(f, "connection"@);
    let f = without(f, "keep-alive"@);
    let f = without(f, "upgrade"@);
    let f = without(f, "te"@);
    let f = without(f, "trailer"@);
    without(f, "proxy-connection"@)
}

/// The fields that go out with a response: the handler's without hop-by-hop
/// ones, an authoritative length, the connection's fate, and defaults for
/// `Server` and `Date`.
pub open spec fn reply_fields(
    resp: ResponseModel,
    keep_alive: bool,
    server_name: Option<Seq<char>>,
    now: int,
) -> Fields {
    let f = without_hop_by_hop(resp.headers);
    let f = if resp.status.bodyless() {
        without(f, "Content-Length"@)
    } else {
        with_field(f, "Content-Length"@, decimal(resp.body.size()))
    };
    let f = with_field(
        f,
        "Connection"@,
        if keep_alive {
            "keep-alive"@
        } else {
            "close"@
        },
    );
    let f = match server_name {
        Some(name) => with_default(f, "Server"@, name),
        None => f,
    };
    with_default(f, "Date"@, date_of(now))
}

/// Whether a field may be put on the wire: its name is a token and its value
/// holds no CR, LF or NUL.
pub open spec fn sendable(f: (Seq<char>, Seq<char>)) -> bool {
    &&& token(f.0)
    &&& forall|i: int|
        0 <= i < f.1.len() ==> #[trigger] f.1[i] != '\r' && f.1[i] != '\n' && f.1[i] != '\0'
}

/// The header lines of the sendable fields, in order.
pub open spec fn field_lines(f: Fields) -> Seq<char>
    decreases f.len(),
{
    if f.len() == 0 {
        Seq::empty()
    } else if sendable(f.last()) {
        field_lines(f.drop_last()) + f.last().0 + ": "@ + f.last().1 + "\r\n"@
    } else {
        field_lines(f.drop_last())
    }
}

/// A status line and header block, up to and including the empty line.
pub open spec fn reply_head(version: Version, status: StatusCode, f: Fields) -> Seq<char> {
    version.token() + " "@ + decimal(status.code as nat) + " "@ + status.reason@ + "\r\n"@
        + field_lines(f) + "\r\n"@
}

/// The connection after a response has been serialized onto it.
pub open spec fn replied(c: ConnModel, meta: Pending, resp: ResponseModel, now: int) -> ConnModel {
    let keep_alive = meta.keep_alive && !c.closed;
    let omit_body = resp.status.bodyless() || meta.is_head;
    let head = encode_utf8(
        reply_head(
            meta.version,
            resp.status,
            reply_fields(resp, keep_alive, c.server_name, now),
        ),
    );
    let body = match resp.body {
        BodyModel::Bytes(b) => if omit_body {
            Seq::empty()
        } else {
            b
        },
        BodyModel::File { .. } => Seq::empty(),
    };
    ConnModel {
        output: c.output + head + body,
        stream: match resp.body {
            BodyModel::File { file, offset, len } => if !omit_body && len > 0 {
                Some(FileStream { file, offset, remaining: len })
            } else {
                c.stream
            },
            _ => c.stream,
        },
        closed: c.closed || !keep_alive,
        ..c
    }
}

/// The connection after refusing its input: an error page, then close.
pub open spec fn refused(c: ConnModel, status: StatusCode, now: int) -> ConnModel {
    let meta = Pending { version: Version::Http11, keep_alive: false, is_head: false };
    replied(ConnModel { pending: None, ..c }, meta, status_response(status), now)
}

/// The error that a refusal reports.
pub open spec fn refusal(status: StatusCode, what: Seq<char>) -> ErrorModel {
    if status.code == 413 || status.code == 431 {
        ErrorModel::TooLarge(what)
    } else {
        ErrorModel::BadRequest(what)
    }
}

/// The connection and the result once it is known what its input amounts to.
pub open spec fn settled(c: ConnModel, outcome: InputOutcome, now: int) -> (
    ConnModel,
    core::result::Result<Option<RequestModel>, ErrorModel>,
) {
    match outcome {
        InputOutcome::Need { expects_continue } => (
            if expects_continue && !c.interim_sent {
                ConnModel {
                    output: c.output + encode_utf8("HTTP/1.1 100 Continue\r\n\r\n"@),
                    interim_sent: true,
                    ..c
                }
            } else {
                c
            },
            Ok(None),
        ),
        InputOutcome::Fail { status, what } => (
            refused(c, status, now),
            Err(refusal(status, what)),
        ),
        InputOutcome::Ready { used, request } => (
            ConnModel {
                input: c.input.skip(used as int),
                interim_sent: false,
                pending: Some(
                    Pending {
                        version: request.version,
                        keep_alive: keeps_alive(request.version, request.headers),
                        is_head: request.method == MethodModel::Head,
                    },
                ),
                ..c
            },
            Ok(Some(request)),
        ),
    }
}

/// The connection and the result after polling it for a request.
pub open spec fn polled(c: ConnModel, now: int) -> (
    ConnModel,
    core::result::Result<Option<RequestModel>, ErrorModel>,
) {
    if c.closed || c.pending is Some {
        (c, Ok(None))
    } else {
        settled(c, request_in(c.input, c.limits), now)
    }
}

/// What a poll result says, as a model.
pub open spec fn poll_result(r: Result<Option<Request>>) -> core::result::Result<
    Option<RequestModel>,
    ErrorModel,
> {
    match r {
        Ok(Some(q)) => Ok(Some(q@)),
        Ok(None) => Ok(None),
        Err(e) => Err(e@),
    }
}

// ---------------------------------------------------------------------------
// The engine
// ---------------------------------------------------------------------------

/// A sans-I/O HTTP/1.x server connection.
#[derive(Debug)]
pub struct H1Conn {
    inbuf: Vec<u8>,
    outbuf: Vec<u8>,
    body_stream: Option<FileStream>,
    limits: Limits,
    pending: Option<Pending>,
    /// How far into `inbuf` the search for the end of the header block has come.
    head_scanned: usize,
    /// In-progress chunked-body decode state, kept across polls.
    chunk: Option<ChunkDecoder>,
    closed: bool,
    interim_sent: bool,
    server_name: Option<String>,
}

impl View for H1Conn {
    type V = ConnModel;

    closed spec fn view(&self) -> ConnModel {
        ConnModel {
            input: self.inbuf@,
            output: self.outbuf@,
            stream: self.body_stream,
            limits: self.limits,
            pending: self.pending,
            closed: self.closed,
            interim_sent: self.interim_sent,
            server_name: match self.server_name {
                Some(s) => Some(s@),
                None => None,
            },
        }
    }
}

impl Default for H1Conn {
    fn default() -> (r: H1Conn)
        ensures
            r.wf(),
            r@ == fresh(Limits { max_header_bytes: 65536, max_body_bytes: 16777216 }),
    {
        H1Conn::new(Limits::default())
    }
}

/// A connection on which nothing has happened.
pub open spec fn fresh(limits: Limits) -> ConnModel {
    ConnModel {
        input: Seq::empty(),
        output: Seq::empty(),
        stream: None,
        limits,
        pending: None,
        closed: false,
        interim_sent: false,
        server_name: Some(DEFAULT_SERVER_NAME@),
    }
}

impl H1Conn {
    /// What the engine remembers of its progress agrees with its input.
    pub closed spec fn wf(&self) -> bool {
        &&& self.head_scanned <= self.inbuf@.len()
        &&& forall|j: int|
            #[trigger] occurs_at(self.inbuf@, head_end(), j) ==> j + 3 >= self.head_scanned
        &&& self.chunk matches Some(dec) ==> (find(self.inbuf@, head_end()) matches Some(end)
            && dec.follows(self.inbuf@.skip(end + 4), self.limits.max_body_bytes as nat))
        &&& self.body_stream matches Some(fs) ==> fs.remaining > 0
    }

    /// Whether the engine remembers nothing of a request that is not complete.
    pub closed spec fn between_requests(&self) -> bool {
        self.head_scanned == 0 && self.chunk is None
    }

    /// Whether the engine remembers nothing of a request that is not complete.
    pub fn is_between_requests(&self) -> (r: bool)
        ensures
            r == self.between_requests(),
    {
        self.head_scanned == 0 && self.chunk.is_none()
    }

    /// Create a new connection engine with the given limits.
    pub fn new(limits: Limits) -> (r: H1Conn)
        ensures
            r.wf(),
            r@ == fresh(limits),
    {
        let r = H1Conn {
            inbuf: Vec::new(),
            outbuf: Vec::new(),
            body_stream: None,
            limits,
            pending: None,
            head_scanned: 0,
            chunk: None,
            closed: false,
            interim_sent: false,
            server_name: Some(DEFAULT_SERVER_NAME.to_owned()),
        };
        proof {
            assert(r@ =~= fresh(limits));
        }
        r
    }

    /// Set the `Server` header value (or `None` to omit it).
    pub fn set_server_name(&mut self, name: Option<String>)
        requires
            old(self).wf(),
        ensures
            final(self).wf(),
            final(self)@ == (ConnModel {
                server_name: match name {
                    Some(s) => Some(s@),
                    None => None,
                },
                ..old(self)@
            }),
    {
        self.server_name = name;
    }

    /// Push freshly received plaintext bytes into the engine.
    pub fn feed(&mut self, data: &[u8])
        requires
            old(self).wf(),
        ensures
            final(self).wf(),
            final(self)@ == (ConnModel { input: old(self)@.input + data@, ..old(self)@ }),
    {
        push_all(&mut self.inbuf, data);
        proof {
            let before = old(self).inbuf@;
            let now = self.inbuf@;
            assert forall|j: int| #[trigger] occurs_at(now, head_end(), j) implies j + 3
                >= self.head_scanned by {
                if j + 3 < self.head_scanned {
                    assert(before.subrange(j, j + 4) =~= now.subrange(j, j + 4));
                    assert(occurs_at(before, head_end(), j));
                }
            }
            if self.chunk is Some {
                let dec = self.chunk->0;
                let end = find(before, head_end())->0;
                lemma_find(before, head_end());
                lemma_find_prefix(before, data@, head_end());
                assert(now.skip(end + 4) =~= before.skip(end + 4) + data@);
                dec.lemma_follows_more(
                    before.skip(end + 4),
                    data@,
                    self.limits.max_body_bytes as nat,
                );
            }
        }
    }

    /// Drain and return the queued response bytes.
    ///
    /// While this comes back empty and [`wanted_read`](Self::wanted_read) asks
    /// for a read, a file body is still being streamed out.
    pub fn take_out(&mut self) -> (r: Vec<u8>)
        requires
            old(self).wf(),
        ensures
            final(self).wf(),
            r@ == old(self)@.output,
            final(self)@ == (ConnModel { output: Seq::empty(), ..old(self)@ }),
    {
        let mut out: Vec<u8> = Vec::new();
        out.append(&mut self.outbuf);
        proof {
            assert(out@ =~= old(self)@.output);
        }
        out
    }

    /// The read that streaming goes on with: the next piece of the file body,
    /// once everything queued has been taken.
    pub fn wanted_read(&self) -> (r: Option<FileRead>)
        requires
            self.wf(),
        ensures
            r == wanted(self@),
            r matches Some(q) ==> 0 < q.len <= STREAM_CHUNK,
    {
        if self.outbuf.len() > 0 {
            return None;
        }
        match self.body_stream {
            None => None,
            Some(fs) => {
                let len: usize = if fs.remaining < 65536 {
                    fs.remaining as usize
                } else {
                    STREAM_CHUNK
                };
                Some(FileRead { file: fs.file, offset: fs.offset, len })
            },
        }
    }

    /// Hand in what the wanted read yielded (`None` when it failed) and get the
    /// bytes to send. A read that fails or comes up short leaves the response
    /// incomplete, so it ends the stream and closes the connection.
    pub fn read_done(&mut self, data: Option<Vec<u8>>) -> (r: Vec<u8>)
        requires
            old(self).wf(),
            wanted(old(self)@) is Some,
            data matches Some(d) ==> d@.len() <= wanted(old(self)@)->0.len,
        ensures
            final(self).wf(),
            r@ == match data {
                Some(d) => d@,
                None => Seq::empty(),
            },
            final(self)@ == after_read(
                old(self)@,
                match data {
                    Some(d) => Some(d@.len()),
                    None => None,
                },
            ),
    {
        let want: usize = match self.wanted_read() {
            Some(q) => q.len,
            None => 0,
        };
        match (self.body_stream, data) {
            (Some(fs), Some(d)) => {
                let n: usize = d.len();
                if n < want {
                    self.body_stream = None;
                    self.closed = true;
                } else if fs.remaining == n as u64 {
                    self.body_stream = None;
                } else {
                    self.body_stream = Some(
                        FileStream {
                            file: fs.file,
                            offset: fs.offset.wrapping_add(n as u64),
                            remaining: fs.remaining - n as u64,
                        },
                    );
                }
                d
            },
            _ => {
                self.body_stream = None;
                self.closed = true;
                Vec::new()
            },
        }
    }

    /// Whether there is output still to be written: queued bytes or an
    /// in-progress file body that has not reached its end.
    pub fn has_output(&self) -> (r: bool)
        ensures
            r == (self@.output.len() > 0 || self@.stream is Some),
    {
        self.outbuf.len() > 0 || self.body_stream.is_some()
    }

    /// Whether the connection should be closed once its output has been written.
    pub fn wants_close(&self) -> (r: bool)
        ensures
            r == self@.closed,
    {
        self.closed
    }

    /// Whether a request has been delivered and is awaiting its response.
    pub fn awaiting_response(&self) -> (r: bool)
        ensures
            r == self@.pending is Some,
    {
        self.pending.is_some()
    }

    /// How many received bytes are buffered and not yet consumed.
    pub fn buffered(&self) -> (r: usize)
        ensures
            r == self@.input.len(),
    {
        self.inbuf.len()
    }

    /// Try to parse the next complete request from the buffered input.
    ///
    /// Returns `Ok(Some(req))` when a full request (headers + body) is
    /// available, `Ok(None)` when more bytes are needed, and `Err(..)` on a
    /// protocol violation, in which case an error response has already been
    /// queued and the connection is marked for close. `now` is the Unix time
    /// for the `Date` of such a response.
    pub fn poll_request(&mut self, now: u64) -> (r: Result<Option<Request>>)
        requires
            old(self).wf(),
        ensures
            final(self).wf(),
            (final(self)@, poll_result(r)) == polled(old(self)@, now as int),
    {
        if self.closed || self.pending.is_some() {
            return Ok(None);
        }
        let end: usize = match self.locate_head() {
            Some(end) => end,
            None => {
                if self.inbuf.len() > self.limits.max_header_bytes {
                    return Err(
                        self.fail(StatusCode::request_header_fields_too_large(), "headers", now),
                    );
                }
                return Ok(None);
            },
        };
        if end > self.limits.max_header_bytes {
            return Err(self.fail(StatusCode::request_header_fields_too_large(), "headers", now));
        }
        let h = match parse_head(head(self.inbuf.as_slice(), end)) {
            Ok(h) => h,
            Err(_) => {
                return Err(self.fail(StatusCode::bad_request(), "request line/headers", now));
            },
        };
        let version: Version = match h.version {
            None => {
                return Err(self.fail(StatusCode::http_version_not_supported(), "version", now));
            },
            Some(v) => v,
        };
        self.take_body(end, h, version, now)
    }

    /// Find the end of the header block, resuming the search where the previous
    /// poll left off so that input fed in small pieces is not searched again
    /// from the start.
    fn locate_head(&mut self) -> (r: Option<usize>)
        requires
            old(self).wf(),
        ensures
            final(self).wf(),
            final(self)@ == old(self)@,
            match (r, find(old(self)@.input, head_end())) {
                (Some(a), Some(b)) => a == b && a + 4 <= old(self)@.input.len(),
                (None, None) => true,
                _ => false,
            },
    {
        let ghost input = self.inbuf@;
        let crlf2: [u8; 4] = [13, 10, 13, 10];
        // Back up three bytes so that a terminator straddling the boundary is
        // still found.
        let search_from: usize = if self.head_scanned >= 3 {
            self.head_scanned - 3
        } else {
            0
        };
        proof {
            assert(crlf2@ =~= head_end());
            lemma_find(input, head_end());
            assert forall|j: int| 0 <= j < search_from implies !#[trigger] occurs_at(
                input,
                head_end(),
                j,
            ) by {}
            lemma_find_from(input, head_end(), search_from as int);
        }
        let n: usize = self.inbuf.len();
        match find_subslice(tail(self.inbuf.as_slice(), search_from), &crlf2) {
            Some(rel) => {
                self.head_scanned = search_from + rel + 3;
                Some(search_from + rel)
            },
            None => {
                self.head_scanned = n;
                None
            },
        }
    }

    /// Resolve the body that a head calls for and, once it is complete, consume
    /// the request.
    fn take_body(&mut self, end: usize, h: Head, version: Version, now: u64) -> (r: Result<
        Option<Request>,
    >)
        requires
            old(self).wf(),
            find(old(self)@.input, head_end()) == Some(end as int),
            end + 4 <= old(self)@.input.len(),
        ensures
            final(self).wf(),
            (final(self)@, poll_result(r)) == settled(
                old(self)@,
                body_in(old(self)@.input, end as int, h@, version, old(self)@.limits),
                now as int,
            ),
    {
        let ghost input = self.inbuf@;
        let ghost hm = h@;
        let n: usize = self.inbuf.len();
        let start: usize = end + 4;
        let framing: BodyFraming = match body_framing(&h.headers) {
            Ok(f) => f,
            Err(_) => {
                return Err(self.fail(StatusCode::bad_request(), "body framing", now));
            },
        };
        let body: Vec<u8>;
        let used: usize;
        match framing {
            BodyFraming::Empty => {
                body = Vec::new();
                used = start;
                proof {
                    assert(body@ =~= Seq::empty());
                }
            },
            BodyFraming::Length(len) => {
                if len > self.limits.max_body_bytes {
                    return Err(self.fail(StatusCode::payload_too_large(), "body", now));
                }
                if n - start < len {
                    self.maybe_send_continue(&h.headers);
                    return Ok(None);
                }
                body = copy_of(head(tail(self.inbuf.as_slice(), start), len));
                used = start + len;
                proof {
                    assert(input.skip(start as int).take(len as int) =~= input.subrange(
                        start as int,
                        start + len,
                    ));
                }
            },
            BodyFraming::Chunked => {
                let mut dec: ChunkDecoder = match self.chunk.take() {
                    Some(d) => d,
                    None => ChunkDecoder::new(),
                };
                match dec.advance(
                    tail(self.inbuf.as_slice(), start),
                    self.limits.max_body_bytes,
                ) {
                    Ok(Some(k)) => {
                        body = dec.out;
                        used = start + k;
                    },
                    Ok(None) => {
                        self.chunk = Some(dec);
                        self.maybe_send_continue(&h.headers);
                        return Ok(None);
                    },
                    Err(status) => {
                        return Err(self.fail(status, "chunked body", now));
                    },
                }
            },
        }
        drop_front(&mut self.inbuf, used);
        self.head_scanned = 0;
        self.chunk = None;
        self.interim_sent = false;
        let keep_alive = negotiate_keep_alive(version, &h.headers);
        let is_head = h.method.is_head();
        self.pending = Some(Pending { version, keep_alive, is_head });
        Ok(Some(Request::new(h.method, h.target, version, h.headers, body)))
    }

    /// Serialize `resp` for the request most recently returned by
    /// [`poll_request`](Self::poll_request), dated `now`.
    pub fn respond(&mut self, resp: Response, now: u64)
        requires
            old(self).wf(),
            old(self)@.pending is Some,
        ensures
            final(self).wf(),
            final(self)@ == replied(
                ConnModel { pending: None, ..old(self)@ },
                old(self)@.pending->0,
                resp@,
                now as int,
            ),
    {
        if let Some(meta) = self.pending.take() {
            self.serialize(meta, resp, now);
        }
    }

    /// Queue a self-contained error response and mark the connection closed.
    fn fail(&mut self, status: StatusCode, what: &'static str, now: u64) -> (r: Error)
        requires
            old(self).body_stream matches Some(fs) ==> fs.remaining > 0,
        ensures
            final(self).wf(),
            final(self)@ == refused(old(self)@, status, now as int),
            r@ == refusal(status, what@),
    {
        let meta = Pending { version: Version::Http11, keep_alive: false, is_head: false };
        self.pending = None;
        self.head_scanned = 0;
        self.chunk = None;
        self.serialize(meta, Response::status(status), now);
        let code: u16 = status.code();
        if code == 413 || code == 431 {
            Error::TooLarge(what)
        } else {
            Error::BadRequest(what)
        }
    }

    fn maybe_send_continue(&mut self, headers: &Headers)
        ensures
            final(self).inbuf == old(self).inbuf,
            final(self).head_scanned == old(self).head_scanned,
            final(self).chunk == old(self).chunk,
            final(self)@ == if expects_continue(headers@) && !old(self)@.interim_sent {
                ConnModel {
                    output: old(self)@.output + encode_utf8("HTTP/1.1 100 Continue\r\n\r\n"@),
                    interim_sent: true,
                    ..old(self)@
                }
            } else {
                old(self)@
            },
    {
        if !self.interim_sent && headers.contains_token("expect", "100-continue") {
            push_text(&mut self.outbuf, "HTTP/1.1 100 Continue\r\n\r\n");
            self.interim_sent = true;
        }
    }

    fn serialize(&mut self, meta: Pending, resp: Response, now: u64)
        requires
            old(self).body_stream matches Some(fs) ==> fs.remaining > 0,
        ensures
            final(self)@ == replied(old(self)@, meta, resp@, now as int),
            final(self).inbuf == old(self).inbuf,
            final(self).head_scanned == old(self).head_scanned,
            final(self).chunk == old(self).chunk,
            final(self).body_stream matches Some(fs) ==> fs.remaining > 0,
    {
        let ghost rm = resp@;
        let (status, mut headers, body) = resp.into_parts();
        let bodyless = status.is_bodyless();
        let omit_body = bodyless || meta.is_head;
        // The engine's own framing stays authoritative.
        headers.remove("transfer-encoding");
        headers.remove("connection");
        headers.remove("keep-alive");
        headers.remove("upgrade");
        headers.remove("te");
        headers.remove("trailer");
        headers.remove("proxy-connection");
        if !bodyless {
            headers.set("Content-Length", decimal_string(body.len()));
        } else {
            headers.remove("Content-Length");
        }
        let keep_alive = meta.keep_alive && !self.closed;
        headers.set(
            "Connection",
            if keep_alive {
                "keep-alive"
            } else {
                "close"
            },
        );
        if let Some(server) = &self.server_name {
            headers.set_if_absent("Server", server.as_str());
        }
        headers.set_if_absent("Date", http_date(now));
        let ghost hf = reply_fields(rm, keep_alive, self@.server_name, now as int);
        proof {
            assert(headers@ == hf);
        }
        let text = head_text(meta.version, status, &headers);
        push_text(&mut self.outbuf, text.as_str());
        if !omit_body {
            match body {
                Body::Bytes(bytes) => {
                    push_all(&mut self.outbuf, bytes.as_slice());
                },
                Body::File { file, offset, len } => {
                    if len > 0 {
                        self.body_stream = Some(FileStream { file, offset, remaining: len });
                    }
                },
            }
        }
        if !keep_alive {
            self.closed = true;
        }
        proof {
            assert(self@ =~= replied(old(self)@, meta, rm, now as int));
        }
    }
}

/// The read that streaming a connection's file body goes on with.
pub open spec fn wanted(c: ConnModel) -> Option<FileRead> {
    if c.output.len() > 0 {
        None
    } else {
        match c.stream {
            None => None,
            Some(fs) => Some(
                FileRead {
                    file: fs.file,
                    offset: fs.offset,
                    len: if fs.remaining < STREAM_CHUNK {
                        fs.remaining as usize
                    } else {
                        STREAM_CHUNK
                    },
                },
            ),
        }
    }
}

/// The connection after the wanted read yielded so many bytes, or failed.
pub open spec fn after_read(c: ConnModel, got: Option<nat>) -> ConnModel {
    let fs = c.stream->0;
    match got {
        None => ConnModel { stream: None, closed: true, ..c },
        Some(n) => if n < wanted(c)->0.len {
            ConnModel { stream: None, closed: true, ..c }
        } else if n == fs.remaining {
            ConnModel { stream: None, ..c }
        } else {
            ConnModel {
                stream: Some(
                    FileStream {
                        file: fs.file,
                        offset: fs.offset.wrapping_add(n as u64),
                        remaining: (fs.remaining - n) as u64,
                    },
                ),
                ..c
            }
        },
    }
}

/// Whether a field may be put on the wire.
fn can_send(name: &str, value: &str) -> (r: bool)
    ensures
        r == sendable((name@, value@)),
{
    let nc = chars_of(name);
    if !is_token(&nc) {
        return false;
    }
    let vc = chars_of(value);
    let mut i: usize = 0;
    while i < vc.len()
        invariant
            i <= vc@.len(),
            vc@ == value@,
            forall|j: int|
                0 <= j < i ==> #[trigger] value@[j] != '\r' && value@[j] != '\n' && value@[j]
                    != '\0',
        decreases vc@.len() - i,
    {
        if vc[i] == '\r' || vc[i] == '\n' || vc[i] == '\0' {
            proof {
                assert(!sendable((name@, value@))) by {
                    let f = (name@, value@);
                    assert(f.1[i as int] == value@[i as int]);
                }
            }
            return false;
        }
        i += 1;
    }
    true
}

/// The status line and header block of a response.
fn head_text(version: Version, status: StatusCode, headers: &Headers) -> (r: String)
    ensures
        r@ == reply_head(version, status, headers@),
{
    let mut out: String = String::new();
    out.push_str(version.as_str());
    out.push_str(" ");
    push_numeral(&mut out, status.code() as u64, 10);
    out.push_str(" ");
    out.push_str(status.reason());
    out.push_str("\r\n");
    let ghost line = out@;
    let ghost f = headers@;
    let mut i: usize = 0;
    proof {
        assert(f.take(0) =~= Seq::empty());
        assert(line =~= version.token() + " "@ + decimal(status.code as nat) + " "@ + status.reason@
            + "\r\n"@);
        assert(out@ =~= line + field_lines(f.take(0)));
    }
    while i < headers.len()
        invariant
            i <= f.len(),
            f == headers@,
            out@ == line + field_lines(f.take(i as int)),
        decreases f.len() - i,
    {
        let (name, value) = headers.at(i);
        proof {
            assert(f.take(i as int + 1).drop_last() =~= f.take(i as int));
            assert(f.take(i as int + 1).last() == f[i as int]);
        }
        if can_send(name, value) {
            out.push_str(name);
            out.push_str(": ");
            out.push_str(value);
            out.push_str("\r\n");
            proof {
                assert(out@ =~= line + field_lines(f.take(i as int + 1)));
            }
        }
        i += 1;
    }
    proof {
        assert(f.take(f.len() as int) =~= f);
    }
    out.push_str("\r\n");
    out
}

} // verus!
