//! Answering the requests that a connection engine holds.
use crate::bytes::lemma_find;
use crate::h2::conn::H2Conn;
use crate::h2::hpack::hpack_encoding;
use crate::h2::model::{self, pumped, responded, H2Model};
use crate::proto::conn::{
    head_end, polled, replied, reply_fields, reply_head, request_in, ConnModel, H1Conn,
    InputOutcome, Limits, Pending,
};
use crate::proto::fields::response_fields_of;
use crate::proto::laws::law_complete_request_is_final;
use crate::proto::request::{Request, RequestModel};
use crate::proto::response::{outgoing, BodyModel, Response, ResponseModel};
use vstd::prelude::*;
use vstd::utf8::{decode_utf8, encode_utf8, encode_utf8_decode_utf8};

verus! {

broadcast use vstd::seq::group_seq_axioms;

/// Turns requests into the responses that go out.
pub trait Responder {
    /// Which responses may go out in answer to a request.
    spec fn may(&self) -> spec_fn(RequestModel, ResponseModel) -> bool;

    /// Whether it is in order.
    spec fn ready(&self) -> bool;

    /// The response to a request.
    fn respond(&self, req: &Request) -> (r: Response)
        requires
            self.ready(),
        ensures
            (self.may())(req@, r@),
    ;
}

/// An HTTP/1 connection after its next request was answered with this handler
/// response; nothing if no request is complete or it may not be answered so.
#[verifier::opaque]
pub open spec fn h1_answered(
    c: ConnModel,
    reply: ResponseModel,
    may: spec_fn(RequestModel, ResponseModel) -> bool,
    now: int,
) -> Option<ConnModel> {
    let (c1, r) = polled(c, now);
    match r {
        Ok(Some(req)) => if may(req, reply) {
            Some(
                replied(
                    ConnModel { pending: None, ..c1 },
                    c1.pending->0,
                    reply,
                    now,
                ),
            )
        } else {
            None
        },
        _ => None,
    }
}

/// An HTTP/1 connection that was found to hold no complete request.
#[verifier::opaque]
pub open spec fn h1_idle(c: ConnModel, now: int) -> Option<ConnModel> {
    let (c1, r) = polled(c, now);
    match r {
        Ok(Some(_)) => None,
        _ => Some(c1),
    }
}

/// An HTTP/1 connection once the requests in its input were answered with just
/// these responses, in order; nothing if they do not match in number.
pub open spec fn h1_served(
    c: ConnModel,
    replies: Seq<ResponseModel>,
    may: spec_fn(RequestModel, ResponseModel) -> bool,
    now: int,
) -> Option<ConnModel>
    decreases replies.len(),
{
    if replies.len() == 0 {
        h1_idle(c, now)
    } else {
        match h1_answered(c, replies[0], may, now) {
            Some(n) => h1_served(n, replies.skip(1), may, now),
            None => None,
        }
    }
}

/// An HTTP/2 connection after its next request was answered with this handler
/// response; nothing if no request is complete or it may not be answered so.
#[verifier::opaque]
pub open spec fn h2_answered(
    m: H2Model,
    reply: ResponseModel,
    may: spec_fn(RequestModel, ResponseModel) -> bool,
) -> Option<H2Model> {
    if m.ready.len() == 0 {
        None
    } else {
        let (id, req) = m.ready[0];
        if may(req, reply) {
            Some(
                responded(
                    H2Model { ready: m.ready.skip(1), ..m },
                    id,
                    reply,
                ),
            )
        } else {
            None
        }
    }
}

/// An HTTP/2 connection once its complete requests were answered with just these
/// responses, in order; nothing if they do not match in number.
pub open spec fn h2_served(
    m: H2Model,
    replies: Seq<ResponseModel>,
    may: spec_fn(RequestModel, ResponseModel) -> bool,
) -> Option<H2Model>
    decreases replies.len(),
{
    if replies.len() == 0 {
        if m.ready.len() == 0 {
            Some(m)
        } else {
            None
        }
    } else {
        match h2_answered(m, replies[0], may) {
            Some(n) => h2_served(n, replies.skip(1), may),
            None => None,
        }
    }
}

/// A request takes something off the input.
proof fn lemma_request_used(input: Seq<u8>, limits: Limits)
    ensures
        request_in(input, limits) matches InputOutcome::Ready { used, .. } ==> 0 < used
            <= input.len(),
{
    if request_in(input, limits) is Ready {
        law_complete_request_is_final(input, Seq::empty(), limits);
        lemma_find(input, head_end());
    }
}

/// Sending leaves the queue of requests alone.
proof fn lemma_pump_keeps_ready(m: H2Model)
    requires
        m.window >= 0,
    ensures
        pumped(m).ready == m.ready,
    decreases m.window,
{
    model::lemma_next_sender(m, 0);
    if let Some(i) = model::next_sender(m, 0) {
        if let BodyModel::Bytes(d) = m.streams[i].out->0 {
            let part = d.take(model::chunk_len(m, m.streams[i]) as int);
            assert(part.len() == model::chunk_len(m, m.streams[i]));
            lemma_pump_keeps_ready(model::data_sent(m, i, part));
        }
    }
}

/// Answering a request leaves the others in the queue.
proof fn lemma_answer_keeps_ready(m: H2Model, id: u32, resp: ResponseModel)
    requires
        m.window >= 0,
    ensures
        responded(m, id, resp).ready == m.ready,
{
    if let Some(i) = model::pos_of(m.streams, id) {
        let s = m.streams[i];
        let r = outgoing(s.is_head, resp);
        let fields = response_fields_of(r.status, r.headers, m.server_name);
        let block = hpack_encoding(m.enc_size, m.enc_lists, fields);
        let m1 = H2Model {
            enc_lists: m.enc_lists.push(fields),
            output: if s.out is Some {
                m.output
            } else {
                m.output + model::header_frames(s.id, block, m.max_frame, r.body.size() == 0, true)
            },
            ..m.set_stream(i, model::StreamModel { out: Some(r.body), ..s })
        };
        lemma_pump_keeps_ready(m1);
    }
}

/// Answer the next request, if one is complete; says whether one was.
fn serve_one_h1<R: Responder>(c: &mut H1Conn, responder: &R, now: u64) -> (r: bool)
    requires
        old(c).wf(),
        responder.ready(),
    ensures
        final(c).wf(),
        r ==> final(c)@.input.len() < old(c)@.input.len(),
        r ==> exists|a: ResponseModel|
            #[trigger] h1_answered(old(c)@, a, responder.may(), now as int) == Some(final(c)@),
        !r ==> h1_idle(old(c)@, now as int) == Some(final(c)@),
{
    proof {
        reveal(h1_answered);
        reveal(h1_idle);
        lemma_request_used(c@.input, c@.limits);
    }
    match c.poll_request(now) {
        Ok(Some(req)) => {
            let resp = responder.respond(&req);
            let ghost a = resp@;
            c.respond(resp, now);
            proof {
                assert(h1_answered(old(c)@, a, responder.may(), now as int) == Some(c@));
            }
            true
        },
        _ => false,
    }
}

/// Run the responder for each request that is complete and queue the responses.
pub fn serve_h1<R: Responder>(c: &mut H1Conn, responder: &R, now: u64)
    requires
        old(c).wf(),
        responder.ready(),
    ensures
        final(c).wf(),
        exists|replies: Seq<ResponseModel>|
            #[trigger] h1_served(old(c)@, replies, responder.may(), now as int) == Some(final(c)@),
{
    let ghost start = c@;
    let ghost may = responder.may();
    let ghost t = now as int;
    let ghost mut past: Seq<ResponseModel> = Seq::empty();
    proof {
        assert forall|more: Seq<ResponseModel>| #[trigger]
            h1_served(start, past + more, may, t) == h1_served(start, more, may, t) by {
            assert(past + more =~= more);
        }
    }
    loop
        invariant_except_break
            forall|more: Seq<ResponseModel>| #[trigger]
                h1_served(start, past + more, may, t) == h1_served(c@, more, may, t),
        invariant
            c.wf(),
            may == responder.may(),
            responder.ready(),
            t == now as int,
        ensures
            exists|replies: Seq<ResponseModel>|
                #[trigger] h1_served(start, replies, may, t) == Some(c@),
        decreases c@.input.len(),
    {
        let ghost before = c@;
        if !serve_one_h1(c, responder, now) {
            proof {
                assert(h1_served(start, past + Seq::<ResponseModel>::empty(), may, t)
                    == h1_served(before, Seq::empty(), may, t));
            }
            break;
        }
        proof {
            let a = choose|a: ResponseModel|
                #[trigger] h1_answered(before, a, may, t) == Some(c@);
            assert forall|more: Seq<ResponseModel>| #[trigger]
                h1_served(start, past.push(a) + more, may, t) == h1_served(
                    c@,
                    more,
                    may,
                    t,
                ) by {
                let one = seq![a] + more;
                assert(past.push(a) + more =~= past + one);
                assert(one.skip(1) =~= more);
                assert(h1_served(start, past + one, may, t) == h1_served(
                    before,
                    one,
                    may,
                    t,
                ));
            }
            past = past.push(a);
        }
    }
}

/// Answer the next request, if one is complete; says whether one was.
fn serve_one_h2<R: Responder>(c: &mut H2Conn, responder: &R) -> (r: bool)
    requires
        old(c).wf(),
        responder.ready(),
    ensures
        final(c).wf(),
        r ==> final(c)@.ready.len() < old(c)@.ready.len(),
        r ==> exists|a: ResponseModel|
            #[trigger] h2_answered(old(c)@, a, responder.may()) == Some(final(c)@),
        !r ==> old(c)@.ready.len() == 0 && final(c)@ == old(c)@,
{
    proof {
        reveal(h2_answered);
        c.lemma_window();
    }
    match c.poll_request() {
        Some((id, req)) => {
            let resp = responder.respond(&req);
            let ghost a = resp@;
            proof {
                lemma_answer_keeps_ready(c@, id, resp@);
            }
            c.respond(id, resp);
            proof {
                assert(h2_answered(old(c)@, a, responder.may()) == Some(c@));
            }
            true
        },
        None => false,
    }
}

/// Run the responder for each request that is complete and queue the responses.
pub fn serve_h2<R: Responder>(c: &mut H2Conn, responder: &R)
    requires
        old(c).wf(),
        responder.ready(),
    ensures
        final(c).wf(),
        exists|replies: Seq<ResponseModel>|
            #[trigger] h2_served(old(c)@, replies, responder.may()) == Some(final(c)@),
{
    let ghost start = c@;
    let ghost may = responder.may();
    let ghost mut past: Seq<ResponseModel> = Seq::empty();
    proof {
        assert forall|more: Seq<ResponseModel>| #[trigger]
            h2_served(start, past + more, may) == h2_served(start, more, may) by {
            assert(past + more =~= more);
        }
    }
    loop
        invariant_except_break
            forall|more: Seq<ResponseModel>| #[trigger]
                h2_served(start, past + more, may) == h2_served(c@, more, may),
        invariant
            c.wf(),
            may == responder.may(),
            responder.ready(),
        ensures
            exists|replies: Seq<ResponseModel>|
                #[trigger] h2_served(start, replies, may) == Some(c@),
        decreases c@.ready.len(),
    {
        let ghost before = c@;
        if !serve_one_h2(c, responder) {
            proof {
                assert(h2_served(start, past + Seq::<ResponseModel>::empty(), may)
                    == h2_served(before, Seq::empty(), may));
            }
            break;
        }
        proof {
            let a = choose|a: ResponseModel|
                #[trigger] h2_answered(before, a, may) == Some(c@);
            assert forall|more: Seq<ResponseModel>| #[trigger]
                h2_served(start, past.push(a) + more, may) == h2_served(c@, more, may) by {
                let one = seq![a] + more;
                assert(past.push(a) + more =~= past + one);
                assert(one.skip(1) =~= more);
                assert(h2_served(start, past + one, may) == h2_served(before, one, may));
            }
            past = past.push(a);
        }
    }
}

// ---------------------------------------------------------------------------
// Laws
// ---------------------------------------------------------------------------

/// A complete request is taken off the input and answered behind what was answered
/// before; the answer is one that the handler may give to just that request.
pub proof fn law_request_is_answered(
    c: ConnModel,
    used: nat,
    request: RequestModel,
    reply: ResponseModel,
    may: spec_fn(RequestModel, ResponseModel) -> bool,
    now: int,
)
    requires
        !c.closed,
        c.pending is None,
        request_in(c.input, c.limits) == (InputOutcome::Ready { used, request }),
    ensures
        may(request, reply) ==> (h1_answered(c, reply, may, now) matches Some(n) && n.input
            == c.input.skip(used as int) && n.pending is None && c.output.is_prefix_of(n.output)
            && n.output.len() > c.output.len()),
        !may(request, reply) ==> h1_answered(c, reply, may, now) is None,
        h1_idle(c, now) is None,
{
    reveal(h1_answered);
    reveal(h1_idle);
    if may(request, reply) {
        let c1 = polled(c, now).0;
        let n = h1_answered(c, reply, may, now)->0;
        let meta = c1.pending->0;
        lemma_reply_is_sent(ConnModel { pending: None, ..c1 }, meta, reply, now);
    }
}

/// A reply goes out behind the output that is there.
proof fn lemma_reply_is_sent(c: ConnModel, meta: Pending, reply: ResponseModel, now: int)
    ensures
        c.output.is_prefix_of(replied(c, meta, reply, now).output),
        replied(c, meta, reply, now).output.len() > c.output.len(),
{
    let text = reply_head(
        meta.version,
        reply.status,
        reply_fields(reply, meta.keep_alive && !c.closed, c.server_name, now),
    );
    let head = encode_utf8(text);
    reveal_strlit("\r\n");
    assert(text.len() > 0);
    assert(head.len() > 0) by {
        encode_utf8_decode_utf8(text);
        if head.len() == 0 {
            assert(head =~= Seq::<u8>::empty());
            assert(decode_utf8(head) =~= Seq::<char>::empty());
        }
    }
    let out = replied(c, meta, reply, now).output;
    assert(out.take(c.output.len() as int) =~= c.output);
}

/// The oldest complete request of an HTTP/2 connection is answered first, on its own
/// stream, and where there is none nothing is.
pub proof fn law_oldest_request_is_answered(
    m: H2Model,
    reply: ResponseModel,
    may: spec_fn(RequestModel, ResponseModel) -> bool,
)
    ensures
        m.ready.len() == 0 ==> h2_answered(m, reply, may) is None,
        m.ready.len() > 0 && may(m.ready[0].1, reply) ==> h2_answered(m, reply, may) == Some(
            responded(H2Model { ready: m.ready.skip(1), ..m }, m.ready[0].0, reply),
        ),
        m.ready.len() > 0 && !may(m.ready[0].1, reply) ==> h2_answered(m, reply, may) is None,
{
    reveal(h2_answered);
}

} // verus!
