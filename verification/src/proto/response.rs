//! HTTP responses produced by handlers.
use crate::bytes::copy_of;
use crate::proto::headers::{law_default_keeps_value, lookup, with_default, Fields, Headers};
use crate::proto::status::StatusCode;
use crate::text::{decimal, decimal_string, eq_nocase, lower, push_numeral, IntoText};
use vstd::prelude::*;
use vstd::utf8::encode_utf8;

verus! {

broadcast use vstd::seq::group_seq_axioms;

/// Bytes asked for per drain when streaming a [`Body::File`]. Bounds the
/// working set so that serving a large file never buffers more than this.
pub const STREAM_CHUNK: usize = 65536;

/// Names an open file that the runtime holds. The engines never look inside:
/// they only ask for regions of it.
#[derive(Debug, Clone, Copy, PartialEq, Eq, Structural)]
pub struct FileId {
    pub id: u64,
}

/// The body of a response.
///
/// A body is either a buffered byte vector or a region of an open file that the
/// engines stream in bounded chunks instead of reading into memory.
#[derive(Debug)]
pub enum Body {
    /// A fully-buffered byte body.
    Bytes(Vec<u8>),
    /// A `len`-byte region of `file` starting at `offset`.
    File {
        /// The open file.
        file: FileId,
        /// Absolute byte offset of the region's start within the file.
        offset: u64,
        /// Number of bytes to serve from `offset`.
        len: u64,
    },
}

/// The model of a body.
#[verifier::ext_equal]
pub enum BodyModel {
    Bytes(Seq<u8>),
    File { file: FileId, offset: u64, len: u64 },
}

impl View for Body {
    type V = BodyModel;

    open spec fn view(&self) -> BodyModel {
        match self {
            Body::Bytes(b) => BodyModel::Bytes(b@),
            Body::File { file, offset, len } => BodyModel::File {
                file: *file,
                offset: *offset,
                len: *len,
            },
        }
    }
}

impl BodyModel {
    /// The length of the body in bytes.
    pub open spec fn size(self) -> nat {
        match self {
            BodyModel::Bytes(b) => b.len(),
            BodyModel::File { len, .. } => len as nat,
        }
    }
}

impl Default for Body {
    fn default() -> (r: Body)
        ensures
            r@ == BodyModel::Bytes(Seq::empty()),
    {
        Body::empty()
    }
}

impl Clone for Body {
    fn clone(&self) -> (r: Body)
        ensures
            r@ == self@,
    {
        match self {
            Body::Bytes(b) => Body::Bytes(copy_of(b.as_slice())),
            Body::File { file, offset, len } => Body::File {
                file: *file,
                offset: *offset,
                len: *len,
            },
        }
    }
}

impl Body {
    /// An empty body.
    pub fn empty() -> (r: Body)
        ensures
            r@ == BodyModel::Bytes(Seq::empty()),
    {
        Body::Bytes(Vec::new())
    }

    /// A body streamed from `len` bytes of `file` starting at `offset`.
    pub fn file(file: FileId, offset: u64, len: u64) -> (r: Body)
        ensures
            r@ == (BodyModel::File { file, offset, len }),
    {
        Body::File { file, offset, len }
    }

    /// The body bytes, for a buffered body. A [`Body::File`] yields an empty
    /// slice (its bytes live on disk).
    pub fn as_bytes(&self) -> (r: &[u8])
        ensures
            r@ == match self@ {
                BodyModel::Bytes(b) => b,
                BodyModel::File { .. } => Seq::empty(),
            },
    {
        match self {
            Body::Bytes(b) => b.as_slice(),
            Body::File { .. } => {
                let none: &[u8] = &[];
                proof {
                    assert(none@ =~= Seq::empty());
                }
                none
            },
        }
    }

    /// The body length in bytes.
    pub fn len(&self) -> (r: u64)
        ensures
            r == self@.size(),
    {
        match self {
            Body::Bytes(b) => b.len() as u64,
            Body::File { len, .. } => *len,
        }
    }

    /// Whether the body is empty.
    pub fn is_empty(&self) -> (r: bool)
        ensures
            r == (self@.size() == 0),
    {
        self.len() == 0
    }

    /// Materialize the body into a byte vector.
    ///
    /// `region` is what a read of a file body's region yielded (`None` when the
    /// read failed); a buffered body does not look at it. A failed read yields
    /// an empty vector.
    pub fn into_bytes(self, region: Option<Vec<u8>>) -> (r: Vec<u8>)
        ensures
            r@ == match self@ {
                BodyModel::Bytes(b) => b,
                BodyModel::File { .. } => match region {
                    Some(data) => data@,
                    None => Seq::empty(),
                },
            },
    {
        match self {
            Body::Bytes(b) => b,
            Body::File { .. } => match region {
                Some(data) => data,
                None => Vec::new(),
            },
        }
    }
}

/// Values that can serve as a response body.
pub trait IntoBody: Sized {
    /// The body that the value stands for.
    spec fn body_model(&self) -> BodyModel;

    /// Hand over the body.
    fn into_body(self) -> (r: Body)
        ensures
            r@ == self.body_model(),
    ;
}

impl IntoBody for Body {
    open spec fn body_model(&self) -> BodyModel {
        self@
    }

    fn into_body(self) -> (r: Body) {
        self
    }
}

impl IntoBody for Vec<u8> {
    open spec fn body_model(&self) -> BodyModel {
        BodyModel::Bytes(self@)
    }

    fn into_body(self) -> (r: Body) {
        Body::Bytes(self)
    }
}

impl IntoBody for &[u8] {
    open spec fn body_model(&self) -> BodyModel {
        BodyModel::Bytes(self@)
    }

    fn into_body(self) -> (r: Body) {
        Body::Bytes(copy_of(self))
    }
}

impl IntoBody for String {
    open spec fn body_model(&self) -> BodyModel {
        BodyModel::Bytes(encode_utf8(self@))
    }

    fn into_body(self) -> (r: Body) {
        Body::Bytes(self.into_bytes())
    }
}

impl IntoBody for &str {
    open spec fn body_model(&self) -> BodyModel {
        BodyModel::Bytes(encode_utf8(self@))
    }

    fn into_body(self) -> (r: Body) {
        Body::Bytes(copy_of(self.as_bytes()))
    }
}

// ---------------------------------------------------------------------------
// Positioned reads
// ---------------------------------------------------------------------------

/// What one positioned read attempt came back with.
#[derive(Debug, Clone, Copy, PartialEq, Eq, Structural)]
pub enum ReadEvent {
    /// So many bytes were read; zero means end of file.
    Got(usize),
    /// The call was interrupted before reading anything.
    Interrupted,
    /// The call failed.
    Failed,
}

/// What to do after a read attempt.
#[derive(Debug, Clone, Copy, PartialEq, Eq, Structural)]
pub enum ReadStep {
    /// Read again at `offset`, for at most `want` bytes.
    Again { offset: u64, want: usize },
    /// Done: this many bytes are in the buffer.
    Done(usize),
    /// The read failed.
    Failed,
}

/// Progress of filling a buffer of `want` bytes from `offset`, with `total`
/// bytes in it so far: short and interrupted reads are retried, end of file
/// ends it early.
pub fn read_step(offset: u64, want: usize, total: usize, event: ReadEvent) -> (r: ReadStep)
    requires
        total < want,
        offset + want <= u64::MAX,
        event matches ReadEvent::Got(n) ==> total + n <= want,
    ensures
        r == match event {
            ReadEvent::Got(n) => if n == 0 || total + n == want {
                ReadStep::Done((total + n) as usize)
            } else {
                ReadStep::Again {
                    offset: (offset + total + n) as u64,
                    want: (want - total - n) as usize,
                }
            },
            ReadEvent::Interrupted => ReadStep::Again {
                offset: (offset + total) as u64,
                want: (want - total) as usize,
            },
            ReadEvent::Failed => ReadStep::Failed,
        },
{
    match event {
        ReadEvent::Got(n) => {
            if n == 0 || total + n == want {
                ReadStep::Done(total + n)
            } else {
                ReadStep::Again { offset: offset + (total + n) as u64, want: want - (total + n) }
            }
        },
        ReadEvent::Interrupted => ReadStep::Again {
            offset: offset + total as u64,
            want: want - total,
        },
        ReadEvent::Failed => ReadStep::Failed,
    }
}

// ---------------------------------------------------------------------------
// Send-side bodies
// ---------------------------------------------------------------------------

/// Send-side view of a response body the multiplexed engines stream out
/// incrementally as flow control allows.
#[derive(Debug)]
pub enum OutBody {
    /// Buffered bytes, with the offset already written.
    Bytes { data: Vec<u8>, pos: usize },
    /// A file region: `offset` is the next byte to read, `remaining` what is left.
    File { file: FileId, offset: u64, remaining: u64 },
}

impl OutBody {
    /// What is left to send.
    pub open spec fn left(self) -> BodyModel {
        match self {
            OutBody::Bytes { data, pos } => BodyModel::Bytes(data@.skip(pos as int)),
            OutBody::File { file, offset, remaining } => BodyModel::File {
                file,
                offset,
                len: remaining,
            },
        }
    }

    /// The read position stays inside the data.
    pub open spec fn wf(self) -> bool {
        self matches OutBody::Bytes { data, pos } ==> pos <= data@.len()
    }

    /// Build a send-side body from a response [`Body`].
    pub fn from_body(body: Body) -> (r: OutBody)
        ensures
            r.wf(),
            r.left() == body@,
    {
        match body {
            Body::Bytes(data) => {
                proof {
                    assert(data@.skip(0) =~= data@);
                }
                OutBody::Bytes { data, pos: 0 }
            },
            Body::File { file, offset, len } => OutBody::File { file, offset, remaining: len },
        }
    }

    /// Bytes still to send.
    pub fn remaining(&self) -> (r: u64)
        requires
            self.wf(),
        ensures
            r == self.left().size(),
    {
        match self {
            OutBody::Bytes { data, pos } => (data.len() - *pos) as u64,
            OutBody::File { remaining, .. } => *remaining,
        }
    }
}

/// The body left over after its first `n` bytes have been sent.
pub open spec fn body_after(b: BodyModel, n: nat) -> BodyModel {
    match b {
        BodyModel::Bytes(d) => BodyModel::Bytes(d.skip(n as int)),
        BodyModel::File { file, offset, len } => BodyModel::File {
            file,
            offset: offset.wrapping_add(n as u64),
            len: (len - n) as u64,
        },
    }
}

// ---------------------------------------------------------------------------
// Responses
// ---------------------------------------------------------------------------

/// A response to be serialized onto the connection.
///
/// Build one with [`Response::new`] or the status helpers, then chain
/// [`Response::header`] / [`Response::body`]. The engine fills in framing
/// headers (`Content-Length`, `Connection`, `Date`) at serialization time.
#[derive(Debug)]
pub struct Response {
    status: StatusCode,
    headers: Headers,
    body: Body,
}

/// The model of a response.
#[verifier::ext_equal]
pub struct ResponseModel {
    pub status: StatusCode,
    pub headers: Fields,
    pub body: BodyModel,
}

impl View for Response {
    type V = ResponseModel;

    closed spec fn view(&self) -> ResponseModel {
        ResponseModel { status: self.status, headers: self.headers@, body: self.body@ }
    }
}

/// A response with a status and nothing else.
pub open spec fn bare(status: StatusCode) -> ResponseModel {
    ResponseModel { status, headers: Seq::empty(), body: BodyModel::Bytes(Seq::empty()) }
}

/// The one-line page that explains a status: code, space, phrase, newline.
pub open spec fn status_page(status: StatusCode) -> Seq<char> {
    (decimal(status.code as nat).push(' ') + status.reason@).push('\n')
}

/// A response with a status and its one-line page, where a body is allowed.
pub open spec fn status_response(status: StatusCode) -> ResponseModel {
    if status.bodyless() {
        bare(status)
    } else {
        ResponseModel {
            status,
            headers: seq![("Content-Type"@, "text/plain; charset=utf-8"@)],
            body: BodyModel::Bytes(encode_utf8(status_page(status))),
        }
    }
}

impl Clone for Response {
    fn clone(&self) -> (r: Response)
        ensures
            r@ == self@,
    {
        Response { status: self.status, headers: self.headers.clone(), body: self.body.clone() }
    }
}

/// What goes out in answer to a request: to `HEAD`, the length of the body
/// instead of the body.
pub open spec fn outgoing(is_head: bool, resp: ResponseModel) -> ResponseModel {
    if !is_head {
        resp
    } else {
        ResponseModel {
            status: resp.status,
            headers: if resp.status.bodyless() {
                resp.headers
            } else {
                with_default(resp.headers, "content-length"@, decimal(resp.body.size()))
            },
            body: BodyModel::Bytes(Seq::empty()),
        }
    }
}

impl Response {
    /// A response with the given status, no headers, and an empty body.
    pub fn new(status: StatusCode) -> (r: Response)
        ensures
            r@ == bare(status),
    {
        Response { status, headers: Headers::new(), body: Body::empty() }
    }

    /// `200 OK` with the given body and a `Content-Type` of `text/plain`.
    pub fn text<T: IntoText>(body: T) -> (r: Response)
        ensures
            r@ == (ResponseModel {
                status: StatusCode { code: 200, reason: "OK" },
                headers: seq![("Content-Type"@, "text/plain; charset=utf-8"@)],
                body: BodyModel::Bytes(encode_utf8(body.text())),
            }),
    {
        let r = Response::new(StatusCode::ok()).header(
            "Content-Type",
            "text/plain; charset=utf-8",
        ).body(body.into_text());
        proof {
            assert(r@.headers =~= seq![("Content-Type"@, "text/plain; charset=utf-8"@)]);
        }
        r
    }

    /// `200 OK` with the given HTML body.
    pub fn html<T: IntoText>(body: T) -> (r: Response)
        ensures
            r@ == (ResponseModel {
                status: StatusCode { code: 200, reason: "OK" },
                headers: seq![("Content-Type"@, "text/html; charset=utf-8"@)],
                body: BodyModel::Bytes(encode_utf8(body.text())),
            }),
    {
        let r = Response::new(StatusCode::ok()).header(
            "Content-Type",
            "text/html; charset=utf-8",
        ).body(body.into_text());
        proof {
            assert(r@.headers =~= seq![("Content-Type"@, "text/html; charset=utf-8"@)]);
        }
        r
    }

    /// A response carrying just a status, with a short `text/plain` explanation
    /// as the body where the status allows one.
    pub fn status(status: StatusCode) -> (r: Response)
        ensures
            r@ == status_response(status),
    {
        if status.is_bodyless() {
            Response::new(status)
        } else {
            let mut page: String = String::new();
            push_numeral(&mut page, status.code() as u64, 10);
            page.push(' ');
            page.push_str(status.reason());
            page.push('\n');
            proof {
                assert(page@ =~= status_page(status));
            }
            let r = Response::new(status).header(
                "Content-Type",
                "text/plain; charset=utf-8",
            ).body(page);
            proof {
                assert(r@.headers =~= seq![("Content-Type"@, "text/plain; charset=utf-8"@)]);
            }
            r
        }
    }

    /// A redirect to `location` with the given 3xx status.
    pub fn redirect<T: IntoText>(status: StatusCode, location: T) -> (r: Response)
        ensures
            r@ == (ResponseModel {
                headers: seq![("Location"@, location.text())],
                ..bare(status)
            }),
    {
        let r = Response::new(status).header("Location", location);
        proof {
            assert(r@.headers =~= seq![("Location"@, location.text())]);
        }
        r
    }

    /// Add a header field (builder style), keeping any existing same-named field.
    pub fn header<N: IntoText, V: IntoText>(self, name: N, value: V) -> (r: Response)
        ensures
            r@ == (ResponseModel {
                headers: self@.headers.push((name.text(), value.text())),
                ..self@
            }),
    {
        let mut out = self;
        out.headers.append(name, value);
        out
    }

    /// Set the body (builder style).
    pub fn body<B: IntoBody>(self, body: B) -> (r: Response)
        ensures
            r@ == (ResponseModel { body: body.body_model(), ..self@ }),
    {
        Response { status: self.status, headers: self.headers, body: body.into_body() }
    }

    /// Override the status code (builder style), keeping headers and body.
    pub fn with_status(self, status: StatusCode) -> (r: Response)
        ensures
            r@ == (ResponseModel { status, ..self@ }),
    {
        Response { status, headers: self.headers, body: self.body }
    }

    /// The status code.
    pub fn status_code(&self) -> (r: StatusCode)
        ensures
            r == self@.status,
    {
        self.status
    }

    /// Mutable access to the response headers.
    pub fn headers_mut(&mut self) -> (r: &mut Headers)
        ensures
            r@ == old(self)@.headers,
            final(self)@ == (ResponseModel { headers: final(r)@, ..old(self)@ }),
    {
        &mut self.headers
    }

    /// The response headers.
    pub fn headers(&self) -> (r: &Headers)
        ensures
            r@ == self@.headers,
    {
        &self.headers
    }

    /// The response body.
    pub fn body_ref(&self) -> (r: &Body)
        ensures
            r@ == self@.body,
    {
        &self.body
    }

    /// The response as it goes out in answer to a request: to `HEAD`, the
    /// headers a `GET` would bring, including the entity length, but no body.
    pub fn in_answer(self, is_head: bool) -> (r: Response)
        ensures
            r@ == outgoing(is_head, self@),
    {
        if !is_head {
            return self;
        }
        let mut headers = self.headers;
        if !self.status.is_bodyless() {
            headers.set_if_absent("content-length", decimal_string(self.body.len()));
        }
        Response { status: self.status, headers, body: Body::empty() }
    }

    /// Take the response apart.
    pub fn into_parts(self) -> (r: (StatusCode, Headers, Body))
        ensures
            r.0 == self@.status,
            r.1@ == self@.headers,
            r.2@ == self@.body,
    {
        (self.status, self.headers, self.body)
    }

    /// Put a response together.
    pub fn from_parts(status: StatusCode, headers: Headers, body: Body) -> (r: Response)
        ensures
            r@ == (ResponseModel { status, headers: headers@, body: body@ }),
    {
        Response { status, headers, body }
    }
}

// ---------------------------------------------------------------------------
// Laws
// ---------------------------------------------------------------------------

/// A status explains itself in one line of plain text, unless it allows no body.
pub proof fn law_status_pages(status: StatusCode)
    ensures
        status_response(status).status == status,
        200 <= status.code && status.code != 204 && status.code != 304 ==> {
            &&& lookup(status_response(status).headers, "content-type"@) == Some(
                "text/plain; charset=utf-8"@,
            )
            &&& status_response(status).body == BodyModel::Bytes(
                encode_utf8(decimal(status.code as nat) + " "@ + status.reason@ + "\n"@),
            )
        },
        status.code == 204 || status.code == 304 || 100 <= status.code < 200 ==> status_response(
            status,
        ).body.size() == 0,
{
    let f = status_response(status).headers;
    reveal_strlit(" ");
    reveal_strlit("\n");
    assert(status_page(status) =~= decimal(status.code as nat) + " "@ + status.reason@ + "\n"@);
    reveal_strlit("Content-Type");
    reveal_strlit("content-type");
    assert(lower("Content-Type"@) =~= lower("content-type"@));
    if f.len() > 0 {
        assert(eq_nocase(f[0].0, "content-type"@));
        assert(lookup(f, "content-type"@) == Some(f[0].1));
    }
}

/// `HEAD` is answered without a body but with its length; other methods are answered
/// with what there is.
pub proof fn law_head_answers(resp: ResponseModel)
    ensures
        outgoing(false, resp) == resp,
        outgoing(true, resp).body.size() == 0,
        outgoing(true, resp).status == resp.status,
        200 <= resp.status.code && resp.status.code != 204 && resp.status.code != 304 && lookup(
            resp.headers,
            "content-length"@,
        ) is None ==> lookup(outgoing(true, resp).headers, "content-length"@) == Some(
            decimal(resp.body.size()),
        ),
        lookup(resp.headers, "content-length"@) is Some ==> lookup(
            outgoing(true, resp).headers,
            "content-length"@,
        ) == lookup(resp.headers, "content-length"@),
{
    law_default_keeps_value(resp.headers, "content-length"@, decimal(resp.body.size()));
}

/// What is left of a body after some of it has been sent is the rest of it.
pub proof fn law_what_is_left(b: BodyModel, n: nat, m: nat)
    requires
        n + m <= b.size(),
        b matches BodyModel::File { file, offset, len } ==> offset + len <= u64::MAX,
    ensures
        body_after(b, n).size() == b.size() - n,
        body_after(body_after(b, n), m) == body_after(b, n + m),
        b matches BodyModel::Bytes(d) ==> (body_after(b, n) matches BodyModel::Bytes(e) && d
            == d.take(n as int) + e),
        b matches BodyModel::File { file, offset, len } ==> (body_after(b, n)
            matches BodyModel::File { file: f2, offset: o2, len: l2 } && f2 == file && o2 == offset
            + n && l2 == len - n),
{
    match b {
        BodyModel::Bytes(d) => {
            assert(d.skip(n as int).skip(m as int) =~= d.skip((n + m) as int));
            assert(d =~= d.take(n as int) + d.skip(n as int));
        },
        _ => {},
    }
}

} // verus!
