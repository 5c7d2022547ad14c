//! HTTP/3 over one QUIC connection.
//!
//! The QUIC runtime calls [`H3Conn::drive`] after every datagram exchange. Unlike
//! the HTTP/1 and HTTP/2 engines (which only shuffle bytes), it also invokes the
//! handler, because HTTP/3 requests and responses are scoped to QUIC streams.
use crate::bytes::{head, push_all, tail};
use crate::error::{Error, ErrorModel, Result};
use crate::h3::conn::{
    all_written, arrived, bytes_of, control_bytes, is_ready, overgrown, read_back, request_in,
    responded, stream_kind, taken, H3Conn, H3Model, ReqModel, StreamKind, H3_INTERNAL_ERROR,
    H3_MESSAGE_ERROR, H3_REQUEST_INCOMPLETE,
};
use crate::h3::frame::{varint, STREAM_QPACK_DECODER, STREAM_QPACK_ENCODER};
use crate::h3::transport::{
    accepted, finished_on, quic_complete, quic_finish, quic_open_uni, quic_read, quic_readable,
    quic_reset, quic_state, quic_write, read_on, reset_on, retired, uni_opened, wrote_on, QuicModel,
};
use crate::handler::Handler;
use crate::proto::request::RequestModel;
use crate::proto::response::ResponseModel;
use crate::session::{answer, outgoing_answers, SessionConfig};
use purecrypto::quic::QuicConnection;
use vstd::prelude::*;

verus! {

broadcast use vstd::seq::group_seq_axioms;

/// How much is read from a stream at a time.
pub const READ_CHUNK: usize = 8192;

/// The HTTP/3 state of a connection and the QUIC connection beneath it.
#[verifier::ext_equal]
pub struct Link {
    pub h3: H3Model,
    pub quic: QuicModel,
}

/// The two as they are.
pub open spec fn link(h3: H3Conn, quic: QuicConnection) -> Link {
    Link { h3: h3@, quic: quic_state(quic) }
}

// ---------------------------------------------------------------------------
// Going through streams
// ---------------------------------------------------------------------------

/// Whether each id is greater than those before it.
pub open spec fn increasing(ids: Seq<u64>) -> bool {
    forall|i: int, j: int| 0 <= i < j < ids.len() ==> ids[i] < ids[j]
}

/// Whether these are the ids of a set, by ascending id.
pub open spec fn lists(ids: Seq<u64>, s: Set<u64>) -> bool {
    increasing(ids) && forall|id: u64| #[trigger] ids.contains(id) <==> s.contains(id)
}

/// The ids of a set, by ascending id.
pub open spec fn in_order(s: Set<u64>) -> Seq<u64> {
    choose|ids: Seq<u64>| lists(ids, s)
}

/// There is one way to list a set.
proof fn lemma_one_order(a: Seq<u64>, b: Seq<u64>, s: Set<u64>)
    requires
        lists(a, s),
        lists(b, s),
    ensures
        a == b,
    decreases a.len(),
{
    if a.len() == 0 {
        if b.len() > 0 {
            assert(b.contains(b[0]));
            assert(a.contains(b[0]));
        }
        assert(a =~= b);
    } else {
        assert(a.contains(a.last()));
        assert(b.contains(a.last()));
        let last = a.last();
        assert(b.contains(b.last()));
        assert(a.contains(b.last()));
        let i = choose|i: int| 0 <= i < a.len() && a[i] == b.last();
        let j = choose|j: int| 0 <= j < b.len() && b[j] == last;
        assert(b.last() <= last);
        assert(last <= b.last());
        let rest = s.remove(last);
        lemma_shorter_order(a, s);
        lemma_shorter_order(b, s);
        lemma_one_order(a.drop_last(), b.drop_last(), rest);
        assert(a =~= a.drop_last().push(last));
        assert(b =~= b.drop_last().push(last));
    }
}

proof fn lemma_shorter_order(a: Seq<u64>, s: Set<u64>)
    requires
        lists(a, s),
        a.len() > 0,
    ensures
        lists(a.drop_last(), s.remove(a.last())),
{
    let d = a.drop_last();
    let t = s.remove(a.last());
    assert forall|id: u64| #[trigger] d.contains(id) <==> t.contains(id) by {
        if d.contains(id) {
            let i = choose|i: int| 0 <= i < d.len() && d[i] == id;
            assert(a[i] == id);
            assert(a.contains(id));
        }
        if t.contains(id) {
            assert(a.contains(id));
            let i = choose|i: int| 0 <= i < a.len() && a[i] == id;
            assert(d[i] == id);
        }
    }
}

/// A listing is the order of the set.
proof fn lemma_in_order(ids: Seq<u64>, s: Set<u64>)
    requires
        lists(ids, s),
    ensures
        in_order(s) == ids,
{
    lemma_one_order(in_order(s), ids, s);
}

// ---------------------------------------------------------------------------
// Opening our streams
// ---------------------------------------------------------------------------

/// A one-way stream was opened with these bytes, as far as it takes them.
pub open spec fn opened_with(q: QuicModel, bytes: Seq<u8>) -> QuicModel {
    let id = q.next_uni as u64;
    let o = uni_opened(q);
    wrote_on(o, id, bytes.take(accepted(o, id, bytes.len()) as int))
}

/// Our control and QPACK streams were opened, unless they had been, and whether
/// that went well: it does unless the peer lets us open too few.
pub open spec fn begun(l: Link) -> (Link, bool) {
    if l.h3.control_stream is Some {
        (l, true)
    } else if l.quic.uni_left == 0 {
        (l, false)
    } else {
        let q1 = opened_with(l.quic, control_bytes(l.h3.limits));
        if q1.uni_left == 0 {
            (Link { quic: q1, ..l }, false)
        } else {
            let q2 = opened_with(q1, varint(STREAM_QPACK_ENCODER as int));
            if q2.uni_left == 0 {
                (Link { quic: q2, ..l }, false)
            } else {
                let q3 = opened_with(q2, varint(STREAM_QPACK_DECODER as int));
                (
                    Link {
                        h3: H3Model { control_stream: Some(l.quic.next_uni as u64), ..l.h3 },
                        quic: q3,
                    },
                    true,
                )
            }
        }
    }
}

/// The error of a QUIC connection that lets no more streams be opened.
pub open spec fn no_streams() -> ErrorModel {
    ErrorModel::Tls("quic: InappropriateState"@)
}

pub(crate) fn quic_error(e: String) -> (r: Error)
    ensures
        r@ == ErrorModel::Tls("quic: "@ + e@),
{
    let mut s: String = String::new();
    s.push_str("quic: ");
    s.push_str(e.as_str());
    proof {
        assert(s@ =~= "quic: "@ + e@);
    }
    Error::Tls(s)
}

/// Write to a stream until all is taken or no more is.
fn write_all(quic: &mut QuicConnection, id: u64, data: &[u8])
    requires
        quic_state(*old(quic)).credit.contains_key(id),
        data@.len() > 0,
    ensures
        ({
            let q = quic_state(*old(quic));
            quic_state(*final(quic)) == wrote_on(
                q,
                id,
                data@.take(accepted(q, id, data@.len()) as int),
            )
        }),
{
    let ghost q = quic_state(*quic);
    let ghost all = accepted(q, id, data@.len());
    let mut pos: usize = 0;
    while pos < data.len()
        invariant_except_break
            pos == 0 ==> quic_state(*quic) == q,
            pos > 0 ==> pos == all && quic_state(*quic) == wrote_on(q, id, data@.take(all as int)),
        invariant
            q.credit.contains_key(id),
            all == accepted(q, id, data@.len()),
            pos <= data@.len(),
            data@.len() > 0,
        ensures
            quic_state(*quic) == wrote_on(q, id, data@.take(all as int)),
        decreases data.len() - pos,
    {
        let ghost before = quic_state(*quic);
        let rest = tail(data, pos);
        match quic_write(quic, id, rest) {
            Ok(n) => {
                proof {
                    if pos == 0 {
                        assert(rest@ =~= data@);
                    } else {
                        assert(n == 0);
                        assert(rest@.take(0) =~= Seq::empty());
                        assert(wrote_on(before, id, Seq::empty()) =~= before);
                    }
                }
                if n == 0 {
                    break;
                }
                pos = pos + n;
            },
            Err(_) => {
                break;
            },
        }
    }
}

/// Open a one-way stream with these bytes.
fn open_with(quic: &mut QuicConnection, bytes: &[u8]) -> (r: Result<u64>)
    requires
        bytes@.len() > 0,
    ensures
        r is Ok <==> quic_state(*old(quic)).uni_left > 0,
        r matches Ok(id) ==> id == quic_state(*old(quic)).next_uni,
        r is Ok ==> quic_state(*final(quic)) == opened_with(quic_state(*old(quic)), bytes@),
        r is Err ==> quic_state(*final(quic)) == quic_state(*old(quic)),
        r matches Err(e) ==> e@ == no_streams(),
{
    match quic_open_uni(quic) {
        Ok(id) => {
            write_all(quic, id, bytes);
            Ok(id)
        },
        Err(e) => {
            proof {
                reveal_strlit("quic: ");
                reveal_strlit("InappropriateState");
                reveal_strlit("quic: InappropriateState");
                assert("quic: "@ + "InappropriateState"@ =~= "quic: InappropriateState"@);
            }
            Err(quic_error(e))
        },
    }
}

impl H3Conn {
    /// Open our control and QPACK streams and send SETTINGS, once.
    fn begin(&mut self, quic: &mut QuicConnection) -> (r: Result<()>)
        requires
            old(self).wf(),
        ensures
            final(self).wf(),
            (link(*final(self), *final(quic)), r is Ok) == begun(link(*old(self), *old(quic))),
            r matches Err(e) ==> e@ == no_streams(),
    {
        let ghost l = link(*self, *quic);
        if let Some(opening) = self.start() {
            proof {
                lemma_openings(self@.limits);
            }
            let control: u64 = match open_with(quic, opening.control.as_slice()) {
                Ok(id) => id,
                Err(e) => {
                    return Err(e);
                },
            };
            match open_with(quic, opening.qpack_encoder.as_slice()) {
                Ok(_) => {},
                Err(e) => {
                    return Err(e);
                },
            }
            match open_with(quic, opening.qpack_decoder.as_slice()) {
                Ok(_) => {},
                Err(e) => {
                    return Err(e);
                },
            }
            self.started(control);
        }
        Ok(())
    }
}

/// What our streams are opened with is not nothing.
proof fn lemma_openings(limits: crate::proto::conn::Limits)
    ensures
        control_bytes(limits).len() > 0,
        varint(STREAM_QPACK_ENCODER as int).len() > 0,
        varint(STREAM_QPACK_DECODER as int).len() > 0,
{
}

// ---------------------------------------------------------------------------
// Reading
// ---------------------------------------------------------------------------

/// All the unread bytes of a stream were read; `gone` says whether the stream was
/// forgotten with that, as only one may be that takes no more bytes from us.
pub open spec fn emptied(q: QuicModel, id: u64, gone: bool) -> QuicModel {
    if !q.unread.contains_key(id) {
        q
    } else {
        let r = read_on(q, id, q.unread[id].len());
        if gone && !q.credit.contains_key(id) {
            retired(r, id)
        } else {
            r
        }
    }
}

/// Whether the end of a stream comes with the bytes that are unread.
pub open spec fn ends(q: QuicModel, id: u64) -> bool {
    q.unread.contains_key(id) && q.ending.contains(id)
}

/// A readable stream was read. Requests are collected, and reset when they grow
/// past the limits; the client's control and QPACK streams are discarded.
pub open spec fn stream_read(l: Link, id: u64, gone: bool) -> Link {
    if id % 4 == 0 {
        let q = emptied(l.quic, id, gone);
        let data = l.quic.unread_of(id);
        let fin = ends(l.quic, id);
        let s = l.h3.stream(id);
        Link {
            h3: arrived(l.h3, id, data, fin),
            quic: if (data.len() > 0 || fin) && overgrown(
                l.h3,
                ReqModel { input: s.input + data, ..s },
            ) {
                reset_on(q, id, H3_REQUEST_INCOMPLETE)
            } else {
                q
            },
        }
    } else if id % 4 == 2 {
        Link { quic: emptied(l.quic, id, gone), ..l }
    } else {
        l
    }
}

/// These streams were read, one after the other.
pub open spec fn streams_read(l: Link, ids: Seq<u64>, gone: Seq<bool>) -> Link
    decreases ids.len(),
{
    if ids.len() == 0 {
        l
    } else {
        stream_read(streams_read(l, ids.drop_last(), gone.drop_last()), ids.last(), gone.last())
    }
}

/// Whether a connection came of emptying a stream.
spec fn comes_of_emptying(q: QuicModel, id: u64, r: QuicModel) -> bool {
    r == emptied(q, id, true) || r == emptied(q, id, false)
}

/// Reading on after a part was read is reading all of it.
proof fn lemma_read_on(q: QuicModel, id: u64, a: nat, b: nat)
    requires
        q.unread.contains_key(id),
        a + b <= q.unread[id].len(),
        a < q.unread[id].len() || b == 0,
    ensures
        read_on(read_on(q, id, a), id, b) == read_on(q, id, a + b),
        retired(read_on(read_on(q, id, a), id, b), id) == retired(read_on(q, id, a + b), id),
{
    let u = q.unread[id];
    assert(u.skip(a as int).skip(b as int) =~= u.skip((a + b) as int));
    assert(read_on(read_on(q, id, a), id, b) =~= read_on(q, id, a + b));
}

/// Read all that is there of a stream, and say whether its end was seen.
fn read_stream(quic: &mut QuicConnection, id: u64) -> (r: (Vec<u8>, bool))
    ensures
        r.0@ == quic_state(*old(quic)).unread_of(id),
        r.1 == ends(quic_state(*old(quic)), id),
        exists|gone: bool|
            quic_state(*final(quic)) == #[trigger] emptied(quic_state(*old(quic)), id, gone),
{
    let ghost q = quic_state(*quic);
    let ghost u = q.unread_of(id);
    let mut data: Vec<u8> = Vec::new();
    let mut buf: Vec<u8> = vec![0u8; READ_CHUNK];
    let mut fin: bool = false;
    proof {
        assert(u.take(0) =~= data@);
    }
    loop
        invariant_except_break
            !fin,
            data@.len() < u.len() || data@.len() == 0 ==> quic_state(*quic) == q || (
            q.unread.contains_key(id) && quic_state(*quic) == read_on(q, id, data@.len())),
            data@.len() == 0 ==> quic_state(*quic) == q,
            data@.len() == u.len() && u.len() > 0 ==> q.unread.contains_key(id) && !ends(q, id)
                && comes_of_emptying(q, id, quic_state(*quic)),
            0 < data@.len() < u.len() ==> quic_state(*quic) == read_on(q, id, data@.len()),
        invariant
            buf@.len() == READ_CHUNK,
            u == q.unread_of(id),
            data@.len() <= u.len(),
            data@ == u.take(data@.len() as int),
        ensures
            data@ == u,
            fin == ends(q, id),
            comes_of_emptying(q, id, quic_state(*quic)),
        decreases u.len() - data@.len(),
    {
        let ghost now = quic_state(*quic);
        let ghost k = data@.len();
        match quic_read(quic, id, &mut buf) {
            Ok((n, f)) => {
                proof {
                    assert(n <= READ_CHUNK);
                    if k == 0 || k < u.len() {
                        assert(now.unread_of(id) =~= u.skip(k as int));
                        if k > 0 {
                            lemma_read_on(q, id, k, n as nat);
                        }
                        assert(u.take(k as int) + u.skip(k as int).take(n as int) =~= u.take(
                            (k + n) as int,
                        ));
                        assert(buf@.take(n as int) =~= u.skip(k as int).take(n as int));
                    } else {
                        assert(now == emptied(q, id, false));
                        assert(now.unread_of(id) =~= u.skip(k as int));
                        assert(n == 0);
                        lemma_read_on(q, id, k, 0);
                        assert(u.take(k as int) =~= u);
                    }
                }
                push_all(&mut data, head(buf.as_slice(), n));
                proof {
                    assert(data@ =~= u.take((k + n) as int));
                    if k + n == u.len() {
                        assert(data@ =~= u);
                    }
                }
                if f {
                    fin = true;
                    break;
                }
                if n == 0 {
                    break;
                }
            },
            Err(_) => {
                proof {
                    assert(u.take(k as int) =~= u);
                }
                break;
            },
        }
    }
    let ghost end = quic_state(*quic);
    assert(exists|gone: bool| end == #[trigger] emptied(q, id, gone));
    (data, fin)
}

impl H3Conn {
    /// Read one readable stream.
    fn read_from(&mut self, quic: &mut QuicConnection, id: u64)
        requires
            old(self).wf(),
        ensures
            final(self).wf(),
            exists|gone: bool|
                link(*final(self), *final(quic)) == #[trigger] stream_read(
                    link(*old(self), *old(quic)),
                    id,
                    gone,
                ),
    {
        let ghost l = link(*self, *quic);
        match stream_kind(id) {
            StreamKind::Request => {
                let (data, fin) = read_stream(quic, id);
                let ghost gone = choose|gone: bool|
                    quic_state(*quic) == #[trigger] emptied(l.quic, id, gone);
                if let Some(code) = self.read_request(id, data.as_slice(), fin) {
                    let _ = quic_reset(quic, id, code);
                }
                assert(link(*self, *quic) == stream_read(l, id, gone));
            },
            StreamKind::Drain => {
                let _ = read_stream(quic, id);
                let ghost gone = choose|gone: bool|
                    quic_state(*quic) == #[trigger] emptied(l.quic, id, gone);
                assert(link(*self, *quic) == stream_read(l, id, gone));
            },
            StreamKind::Own => {
                assert(link(*self, *quic) == stream_read(l, id, false));
            },
        }
    }

    /// Read every readable stream.
    fn read_streams(&mut self, quic: &mut QuicConnection)
        requires
            old(self).wf(),
        ensures
            final(self).wf(),
            exists|gone: Seq<bool>|
                link(*final(self), *final(quic)) == #[trigger] streams_read(
                    link(*old(self), *old(quic)),
                    in_order(quic_state(*old(quic)).readable),
                    gone,
                ),
    {
        let ghost l = link(*self, *quic);
        let ids = quic_readable(quic);
        proof {
            lemma_in_order(ids@, l.quic.readable);
        }
        let ghost mut gone: Seq<bool> = Seq::empty();
        let mut i: usize = 0;
        proof {
            assert(ids@.take(0) =~= Seq::empty());
        }
        while i < ids.len()
            invariant
                self.wf(),
                i <= ids@.len(),
                gone.len() == i,
                link(*self, *quic) == streams_read(l, ids@.take(i as int), gone),
            decreases ids.len() - i,
        {
            let ghost here = link(*self, *quic);
            self.read_from(quic, ids[i]);
            proof {
                let g = choose|g: bool|
                    link(*self, *quic) == #[trigger] stream_read(here, ids@[i as int], g);
                assert(ids@.take(i + 1).drop_last() =~= ids@.take(i as int));
                assert(gone.push(g).drop_last() =~= gone);
                gone = gone.push(g);
            }
            i += 1;
        }
        proof {
            assert(ids@.take(i as int) =~= ids@);
        }
    }
}

// ---------------------------------------------------------------------------
// Answering
// ---------------------------------------------------------------------------

/// A complete request was answered with this response; the stream of a malformed
/// one is reset. Nothing if the request may not be answered so.
pub open spec fn request_answered(
    l: Link,
    id: u64,
    reply: ResponseModel,
    may: spec_fn(RequestModel, ResponseModel) -> bool,
) -> Option<Link> {
    match request_in(l.h3.reqs[id].input) {
        None => Some(
            Link { h3: taken(l.h3, id), quic: reset_on(l.quic, id, H3_MESSAGE_ERROR) },
        ),
        Some(req) => if may(req, reply) {
            Some(Link { h3: responded(taken(l.h3, id), id, reply), ..l })
        } else {
            None
        },
    }
}

/// The complete requests of these streams were answered with these responses.
pub open spec fn requests_answered(
    l: Link,
    ids: Seq<u64>,
    replies: Seq<ResponseModel>,
    may: spec_fn(RequestModel, ResponseModel) -> bool,
) -> Option<Link>
    decreases ids.len(),
{
    if ids.len() == 0 {
        Some(l)
    } else {
        match requests_answered(l, ids.drop_last(), replies.drop_last(), may) {
            Some(n) => request_answered(n, ids.last(), replies.last(), may),
            None => None,
        }
    }
}

/// The streams with a complete request that has not been taken.
pub open spec fn ready_set(m: H3Model) -> Set<u64> {
    m.reqs.dom().filter(|id: u64| is_ready(m, id))
}

impl H3Conn {
    /// Run the handler for a complete request.
    fn handle_request<H: Handler>(
        &mut self,
        quic: &mut QuicConnection,
        id: u64,
        cfg: &SessionConfig<H>,
    ) -> (r: Ghost<ResponseModel>)
        requires
            old(self).wf(),
            is_ready(old(self)@, id),
        ensures
            final(self).wf(),
            request_answered(
                link(*old(self), *old(quic)),
                id,
                r@,
                outgoing_answers(cfg@, true),
            ) == Some(link(*final(self), *final(quic))),
            forall|other: u64|
                other != id && is_ready(old(self)@, other) ==> #[trigger] is_ready(
                    final(self)@,
                    other,
                ),
    {
        match self.take_request(id) {
            Ok(Some(req)) => {
                // HTTP/3 is always over QUIC's TLS 1.3, secure by definition.
                let resp = answer(cfg, &req, true);
                let ghost reply = resp@;
                self.respond(id, resp);
                Ghost(reply)
            },
            Ok(None) => Ghost(arbitrary()),
            Err(code) => {
                let _ = quic_reset(quic, id, code);
                Ghost(arbitrary())
            },
        }
    }

    /// Run the handler for each fully received request.
    fn handle_requests<H: Handler>(&mut self, quic: &mut QuicConnection, cfg: &SessionConfig<H>)
        requires
            old(self).wf(),
        ensures
            final(self).wf(),
            exists|replies: Seq<ResponseModel>|
                #[trigger] requests_answered(
                    link(*old(self), *old(quic)),
                    in_order(ready_set(old(self)@)),
                    replies,
                    outgoing_answers(cfg@, true),
                ) == Some(link(*final(self), *final(quic))),
    {
        let ghost l = link(*self, *quic);
        let ghost may = outgoing_answers(cfg@, true);
        let ids = self.ready();
        proof {
            assert forall|id: u64| #[trigger] ids@.contains(id) <==> ready_set(l.h3).contains(id) by {
                assert(ids@.contains(id) <==> is_ready(l.h3, id));
            }
            lemma_in_order(ids@, ready_set(l.h3));
            assert(ids@.take(0) =~= Seq::empty());
            assert forall|k: int| 0 <= k < ids@.len() implies is_ready(l.h3, #[trigger] ids@[k]) by {
                assert(ids@.contains(ids@[k]));
            }
        }
        let ghost mut replies: Seq<ResponseModel> = Seq::empty();
        let mut i: usize = 0;
        while i < ids.len()
            invariant
                self.wf(),
                i <= ids@.len(),
                increasing(ids@),
                replies.len() == i,
                may == outgoing_answers(cfg@, true),
                forall|k: int| i <= k < ids@.len() ==> is_ready(self@, #[trigger] ids@[k]),
                requests_answered(l, ids@.take(i as int), replies, may) == Some(link(*self, *quic)),
            decreases ids.len() - i,
        {
            let ghost m = self@;
            let Ghost(reply) = self.handle_request(quic, ids[i], cfg);
            proof {
                assert(ids@.take(i + 1).drop_last() =~= ids@.take(i as int));
                assert(replies.push(reply).drop_last() =~= replies);
                replies = replies.push(reply);
                assert forall|k: int| i + 1 <= k < ids@.len() implies is_ready(self@, #[trigger] ids@[k]) by {
                    assert(is_ready(m, ids@[k]));
                    assert(ids@[k] != ids@[i as int]);
                }
            }
            i += 1;
        }
        proof {
            assert(ids@.take(i as int) =~= ids@);
        }
    }
}

// ---------------------------------------------------------------------------
// Writing
// ---------------------------------------------------------------------------

/// So many of a stream's pending bytes were written.
pub open spec fn written_off(m: H3Model, id: u64, n: nat) -> H3Model {
    if m.reqs.contains_key(id) {
        let r = m.reqs[id];
        m.set(id, ReqModel { pending: r.pending.skip(n as int), ..r })
    } else {
        m
    }
}

/// A stream's pending bytes were written as far as flow control lets them, and
/// the stream was ended once its response is fully sent.
pub open spec fn stream_flushed(l: Link, id: u64) -> Link {
    let p = l.h3.stream(id).pending;
    let w = if p.len() > 0 && l.quic.credit.contains_key(id) {
        let n = accepted(l.quic, id, p.len());
        Link { h3: written_off(l.h3, id, n), quic: wrote_on(l.quic, id, p.take(n as int)) }
    } else {
        l
    };
    if all_written(w.h3.stream(id)) && w.quic.live.contains(id) {
        Link { h3: w.h3.without(id), quic: finished_on(w.quic, id) }
    } else {
        w
    }
}

/// These streams were flushed, one after the other.
pub open spec fn streams_flushed(l: Link, ids: Seq<u64>) -> Link
    decreases ids.len(),
{
    if ids.len() == 0 {
        l
    } else {
        stream_flushed(streams_flushed(l, ids.drop_last()), ids.last())
    }
}

/// All that can be written of all streams was.
pub open spec fn flushed(l: Link) -> Link {
    streams_flushed(l, in_order(l.h3.reqs.dom()))
}

/// What the wanted read of a stream yielded was taken in, and the stream flushed;
/// a stream whose response cannot be completed is reset.
pub open spec fn supplied(l: Link, id: u64, data: Option<Seq<u8>>) -> Link {
    let h3 = read_back(l.h3, id, data);
    let dropped = l.h3.reqs.contains_key(id) && !h3.reqs.contains_key(id);
    stream_flushed(
        Link {
            h3,
            quic: if dropped {
                reset_on(l.quic, id, H3_INTERNAL_ERROR)
            } else {
                l.quic
            },
        },
        id,
    )
}

impl H3Conn {
    /// Write what a stream has pending, and end it when all is sent.
    fn flush_stream(&mut self, quic: &mut QuicConnection, id: u64)
        requires
            old(self).wf(),
        ensures
            final(self).wf(),
            link(*final(self), *final(quic)) == stream_flushed(link(*old(self), *old(quic)), id),
    {
        let ghost l = link(*self, *quic);
        let ghost p = l.h3.stream(id).pending;
        let pending = self.pending(id);
        if pending.len() > 0 {
            // A short write just means flow control is closed; there is a next time.
            if let Ok(n) = quic_write(quic, id, pending) {
                self.wrote(id, n);
            }
        }
        if self.wants_finish(id) {
            if quic_finish(quic, id).is_ok() {
                self.finished(id);
            }
        }
    }

    /// Write pending response bytes for every stream, honoring flow control, and
    /// end the streams whose response is fully sent.
    pub fn flush(&mut self, quic: &mut QuicConnection)
        requires
            old(self).wf(),
        ensures
            final(self).wf(),
            link(*final(self), *final(quic)) == flushed(link(*old(self), *old(quic))),
    {
        let ghost l = link(*self, *quic);
        let ids = self.streams();
        proof {
            lemma_in_order(ids@, l.h3.reqs.dom());
            assert(ids@.take(0) =~= Seq::empty());
        }
        let mut i: usize = 0;
        while i < ids.len()
            invariant
                self.wf(),
                i <= ids@.len(),
                link(*self, *quic) == streams_flushed(l, ids@.take(i as int)),
            decreases ids.len() - i,
        {
            self.flush_stream(quic, ids[i]);
            proof {
                assert(ids@.take(i + 1).drop_last() =~= ids@.take(i as int));
            }
            i += 1;
        }
        proof {
            assert(ids@.take(i as int) =~= ids@);
        }
    }

    /// Hand in what the [wanted read](H3Conn::wanted_read) of a stream yielded
    /// (`None` when it failed), and send it.
    pub fn supply(&mut self, quic: &mut QuicConnection, id: u64, data: Option<Vec<u8>>)
        requires
            old(self).wf(),
        ensures
            final(self).wf(),
            link(*final(self), *final(quic)) == supplied(
                link(*old(self), *old(quic)),
                id,
                bytes_of(data),
            ),
    {
        if let Some(code) = self.read_done(id, data) {
            let _ = quic_reset(quic, id, code);
        }
        self.flush_stream(quic, id);
    }
}

// ---------------------------------------------------------------------------
// Driving
// ---------------------------------------------------------------------------

/// The connection was serviced, and whether that went well: nothing is done
/// before the handshake is complete; then our streams are open, the readable
/// streams read, the complete requests answered with these responses, and what
/// is pending is written. Nothing if a request may not be answered so.
pub open spec fn driven(
    l: Link,
    gone: Seq<bool>,
    replies: Seq<ResponseModel>,
    may: spec_fn(RequestModel, ResponseModel) -> bool,
) -> Option<(Link, bool)> {
    let (open, ok) = begun(l);
    let read = streams_read(open, in_order(open.quic.readable), gone);
    if !l.quic.complete {
        Some((l, true))
    } else if !ok {
        Some((open, false))
    } else {
        match requests_answered(read, in_order(ready_set(read.h3)), replies, may) {
            Some(n) => Some((flushed(n), true)),
            None => None,
        }
    }
}

impl H3Conn {
    /// Service the connection: open our streams once the handshake completes,
    /// read newly readable streams, run the handler for any completed request,
    /// and write out responses (subject to QUIC flow control). Bodies that are
    /// read from files go on with [`supply`](H3Conn::supply).
    pub fn drive<H: Handler>(&mut self, quic: &mut QuicConnection, cfg: &SessionConfig<H>) -> (r:
        Result<()>)
        requires
            old(self).wf(),
        ensures
            final(self).wf(),
            exists|gone: Seq<bool>, replies: Seq<ResponseModel>|
                #[trigger] driven(
                    link(*old(self), *old(quic)),
                    gone,
                    replies,
                    outgoing_answers(cfg@, true),
                ) == Some((link(*final(self), *final(quic)), r is Ok)),
            r matches Err(e) ==> e@ == no_streams(),
    {
        let ghost l = link(*self, *quic);
        let ghost may = outgoing_answers(cfg@, true);
        if !quic_complete(quic) {
            assert(driven(l, Seq::empty(), Seq::empty(), may) == Some((l, true)));
            return Ok(());
        }
        match self.begin(quic) {
            Ok(_) => {},
            Err(e) => {
                assert(driven(l, Seq::empty(), Seq::empty(), may) == Some(
                    (link(*self, *quic), false),
                ));
                return Err(e);
            },
        }
        let ghost open = link(*self, *quic);
        self.read_streams(quic);
        let ghost read = link(*self, *quic);
        let ghost gone = choose|gone: Seq<bool>|
            read == #[trigger] streams_read(open, in_order(open.quic.readable), gone);
        self.handle_requests(quic, cfg);
        let ghost done = link(*self, *quic);
        let ghost replies = choose|replies: Seq<ResponseModel>|
            #[trigger] requests_answered(read, in_order(ready_set(read.h3)), replies, may) == Some(
                done,
            );
        self.flush(quic);
        assert(driven(l, gone, replies, may) == Some((link(*self, *quic), true)));
        Ok(())
    }
}

// ---------------------------------------------------------------------------
// Laws
// ---------------------------------------------------------------------------

/// Nothing is sent, read or answered before the handshake is complete.
pub proof fn law_handshake_comes_first(
    l: Link,
    gone: Seq<bool>,
    replies: Seq<ResponseModel>,
    may: spec_fn(RequestModel, ResponseModel) -> bool,
)
    requires
        !l.quic.complete,
    ensures
        driven(l, gone, replies, may) == Some((l, true)),
{
}

/// Our own streams are opened once: a connection on which they are open is left
/// as it is.
pub proof fn law_streams_open_once(l: Link)
    requires
        begun(l).1,
    ensures
        begun(begun(l).0) == (begun(l).0, true),
{
}

/// Flushing a stream loses and repeats nothing: what it was given to send,
/// followed by what is still pending, stays the same. Nothing is pending any more
/// on a stream that was ended.
pub proof fn law_flushing_loses_nothing(l: Link, id: u64)
    ensures
        ({
            let f = stream_flushed(l, id);
            f.quic.written_of(id) + f.h3.stream(id).pending == l.quic.written_of(id) + l.h3.stream(
                id,
            ).pending
        }),
{
    let p = l.h3.stream(id).pending;
    let w = l.quic.written_of(id);
    let f = stream_flushed(l, id);
    if p.len() > 0 && l.quic.credit.contains_key(id) {
        let n = accepted(l.quic, id, p.len()) as int;
        assert(p =~= p.take(n) + p.skip(n));
        assert((w + p.take(n)) + p.skip(n) =~= w + p);
        if !f.h3.reqs.contains_key(id) {
            assert(p.skip(n) =~= Seq::empty());
        }
    } else if !f.h3.reqs.contains_key(id) {
        assert(p =~= Seq::empty());
    }
}

/// Flushing a stream sends no more than the credit of the stream and that of the
/// connection, and takes what it sends off both.
pub proof fn law_flow_control_is_respected(l: Link, id: u64)
    ensures
        ({
            let f = stream_flushed(l, id);
            let sent = f.quic.written_of(id).len() - l.quic.written_of(id).len();
            &&& sent >= 0
            &&& sent > 0 ==> l.quic.credit.contains_key(id) && sent <= l.quic.credit[id]
            &&& f.quic.room == l.quic.room - sent
            &&& f.quic.credit.contains_key(id) ==> f.quic.credit[id] == l.quic.credit[id] - sent
        }),
{
}

/// Flushing a stream leaves the others alone.
pub proof fn law_flushing_keeps_others(l: Link, id: u64, other: u64)
    requires
        other != id,
    ensures
        ({
            let f = stream_flushed(l, id);
            &&& f.h3.stream(other) == l.h3.stream(other)
            &&& f.quic.written_of(other) == l.quic.written_of(other)
            &&& f.quic.finished.contains(other) == l.quic.finished.contains(other)
        }),
{
}

} // verus!
