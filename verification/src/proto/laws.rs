//! Laws of the HTTP/1.x engine: what holds across several calls.
use crate::bytes::{find, lemma_find, lemma_find_prefix, lemma_find_take};
use crate::error::ErrorModel;
use crate::proto::chunk::{law_complete_body_is_final, law_partial_body_asks_for_more, roomy};
use crate::proto::conn::{
    field_lines, head_end, polled, refusal, refused, replied, reply_fields, reply_head, request_in,
    sendable, wanted, without_hop_by_hop, after_read, ConnModel, InputOutcome, Limits, Pending,
};
use crate::proto::head::{find_break, framing_of, head_of, lines, tchar, BodyFraming};
use crate::proto::headers::{
    law_get_after_set, law_remove_keeps_others, law_removed_is_absent, law_set_keeps_others,
    lemma_absent_after_remove, lemma_lookup_push, lemma_no_values_after_remove,
    lemma_remove_keeps_values, lemma_values_push, lookup, values, with_default, with_field, without,
    Fields,
};
use crate::proto::request::RequestModel;
use crate::proto::response::{ResponseModel, STREAM_CHUNK};
use crate::text::{decimal, eq_nocase, lower};
use vstd::prelude::*;
use vstd::utf8::encode_utf8;

verus! {

broadcast use vstd::seq::group_seq_axioms;

// ---------------------------------------------------------------------------
// Requests
// ---------------------------------------------------------------------------

/// A request that is complete is final: whatever bytes follow it on the
/// connection, it stays the same request and ends at the same place.
pub proof fn law_complete_request_is_final(input: Seq<u8>, more: Seq<u8>, limits: Limits)
    requires
        request_in(input, limits) is Ready,
    ensures
        request_in(input + more, limits) == request_in(input, limits),
        request_in(input, limits)->used <= input.len(),
        request_in(input, limits)->request.body.len() <= limits.max_body_bytes,
{
    let all = input + more;
    lemma_find(input, head_end());
    lemma_find_prefix(input, more, head_end());
    let end = find(input, head_end())->0;
    assert(all.take(end) =~= input.take(end));
    let h = head_of(input.take(end))->Ok_0;
    let start = end + 4;
    match framing_of(h.headers)->0 {
        BodyFraming::Empty => {},
        BodyFraming::Length(n) => {
            assert(all.subrange(start, start + n) =~= input.subrange(start, start + n));
        },
        BodyFraming::Chunked => {
            assert(all.skip(start) =~= input.skip(start) + more);
            law_complete_body_is_final(input.skip(start), more, limits.max_body_bytes as nat);
        },
    }
}

/// The connection after bytes have been fed to it.
pub open spec fn fed(c: ConnModel, data: Seq<u8>) -> ConnModel {
    ConnModel { input: c.input + data, ..c }
}

/// Input may arrive in any pieces: polling between two of them (and finding
/// nothing yet) does not change what comes of them together.
pub proof fn law_pieces_are_as_good_as_the_whole(
    c: ConnModel,
    a: Seq<u8>,
    b: Seq<u8>,
    now: int,
    later: int,
)
    requires
        polled(fed(c, a), now).1 == Ok::<Option<RequestModel>, ErrorModel>(None),
    ensures
        ({
            let pieces = polled(fed(polled(fed(c, a), now).0, b), later);
            let whole = polled(fed(c, a + b), later);
            &&& pieces.1 == whole.1
            &&& pieces.0.input == whole.0.input
            &&& pieces.0.pending == whole.0.pending
            &&& pieces.0.closed == whole.0.closed
        }),
{
    assert(c.input + (a + b) =~= c.input + a + b);
}

/// Whether a request at the front of the input can arrive byte by byte: its head
/// is short enough that it is within the limit with all but the last byte of the
/// empty line behind it, and no line of a chunked body just meets its limit.
pub open spec fn arrives_in_pieces(input: Seq<u8>, limits: Limits) -> bool {
    let end = find(input, head_end())->0;
    &&& end + 3 <= limits.max_header_bytes
    &&& framing_of(head_of(input.take(end))->Ok_0.headers) == Some(BodyFraming::Chunked) ==> roomy(
        input.skip(end + 4),
    )
}

/// No part of an acceptable request is refused while the rest of it is on its way:
/// every proper prefix of it asks for more.
pub proof fn law_partial_request_is_not_refused(input: Seq<u8>, k: int, limits: Limits)
    requires
        request_in(input, limits) is Ready,
        arrives_in_pieces(input, limits),
        0 <= k < request_in(input, limits)->used,
    ensures
        request_in(input.take(k), limits) is Need,
{
    law_complete_request_is_final(input, Seq::empty(), limits);
    lemma_find(input, head_end());
    let end = find(input, head_end())->0;
    let p = input.take(k);
    lemma_find_take(input, k, head_end());
    if end + 4 <= k {
        let start = end + 4;
        assert(p.take(end) =~= input.take(end));
        let h = head_of(input.take(end))->Ok_0;
        if framing_of(h.headers)->0 == BodyFraming::Chunked {
            assert(p.skip(start) =~= input.skip(start).take(k - start));
            law_partial_body_asks_for_more(
                input.skip(start),
                k - start,
                limits.max_body_bytes as nat,
            );
        }
    }
}

/// Pieces one after the other.
pub open spec fn all_of(pieces: Seq<Seq<u8>>) -> Seq<u8>
    decreases pieces.len(),
{
    if pieces.len() == 0 {
        Seq::empty()
    } else {
        all_of(pieces.drop_last()) + pieces.last()
    }
}

/// The connection after these pieces were fed to it, with a poll after each at
/// these times.
pub open spec fn after_pieces(c: ConnModel, pieces: Seq<Seq<u8>>, times: Seq<int>) -> ConnModel
    decreases pieces.len(),
{
    if pieces.len() == 0 {
        c
    } else {
        polled(
            fed(after_pieces(c, pieces.drop_last(), times.drop_last()), pieces.last()),
            times.last(),
        ).0
    }
}

/// What the poll after the last of these pieces yielded.
pub open spec fn last_poll(c: ConnModel, pieces: Seq<Seq<u8>>, times: Seq<int>) -> core::result::Result<
    Option<RequestModel>,
    ErrorModel,
> {
    polled(
        fed(after_pieces(c, pieces.drop_last(), times.drop_last()), pieces.last()),
        times.last(),
    ).1
}

proof fn lemma_pieces_prefix(pieces: Seq<Seq<u8>>, n: int)
    requires
        0 <= n <= pieces.len(),
    ensures
        all_of(pieces.take(n)).len() <= all_of(pieces).len(),
        all_of(pieces.take(n)) == all_of(pieces).take(all_of(pieces.take(n)).len() as int),
    decreases pieces.len() - n,
{
    if n == pieces.len() {
        assert(pieces.take(n) =~= pieces);
        assert(all_of(pieces).take(all_of(pieces).len() as int) =~= all_of(pieces));
    } else {
        lemma_pieces_prefix(pieces, n + 1);
        assert(pieces.take(n + 1).drop_last() =~= pieces.take(n));
        let a = all_of(pieces.take(n));
        let b = all_of(pieces.take(n + 1));
        assert(b == a + pieces[n]);
        assert(a =~= b.take(a.len() as int));
        assert(all_of(pieces).take(b.len() as int).take(a.len() as int) =~= all_of(pieces).take(
            a.len() as int,
        ));
    }
}

/// Where the connection stands after some of the pieces.
proof fn lemma_pieces_so_far(c: ConnModel, pieces: Seq<Seq<u8>>, times: Seq<int>, n: int)
    requires
        c.input.len() == 0,
        c.pending is None,
        !c.closed,
        times.len() == pieces.len(),
        request_in(all_of(pieces), c.limits) is Ready,
        request_in(all_of(pieces), c.limits)->used == all_of(pieces).len(),
        arrives_in_pieces(all_of(pieces), c.limits),
        0 <= n <= pieces.len(),
    ensures
        ({
            let d = after_pieces(c, pieces.take(n), times.take(n));
            let some = all_of(pieces.take(n));
            &&& d.limits == c.limits
            &&& !d.closed
            &&& some.len() < all_of(pieces).len() ==> d.pending is None && d.input == some
            &&& some.len() == all_of(pieces).len() ==> d.pending is Some && d.input.len() == 0
        }),
        n > 0 ==> last_poll(c, pieces.take(n), times.take(n)) == Ok::<
            Option<RequestModel>,
            ErrorModel,
        >(
            if all_of(pieces.take(n - 1)).len() < all_of(pieces).len() && all_of(
                pieces.take(n),
            ).len() == all_of(pieces).len() {
                Some(request_in(all_of(pieces), c.limits)->request)
            } else {
                None
            },
        ),
    decreases n,
{
    let s = all_of(pieces);
    law_complete_request_is_final(s, Seq::empty(), c.limits);
    if n == 0 {
        assert(pieces.take(0) =~= Seq::empty());
        assert(c.input =~= all_of(pieces.take(0)));
        assert(s.len() > 0) by {
            lemma_find(s, head_end());
        }
    } else {
        lemma_pieces_so_far(c, pieces, times, n - 1);
        lemma_pieces_prefix(pieces, n);
        lemma_pieces_prefix(pieces, n - 1);
        assert(pieces.take(n).drop_last() =~= pieces.take(n - 1));
        assert(times.take(n).drop_last() =~= times.take(n - 1));
        let d = after_pieces(c, pieces.take(n - 1), times.take(n - 1));
        let before = all_of(pieces.take(n - 1));
        let some = all_of(pieces.take(n));
        assert(some == before + pieces[n - 1]);
        if before.len() < s.len() {
            assert(fed(d, pieces[n - 1]).input == some);
            if some.len() < s.len() {
                law_partial_request_is_not_refused(s, some.len() as int, c.limits);
            } else {
                assert(some =~= s);
                assert(some.skip(s.len() as int) =~= Seq::empty());
            }
        } else {
            assert(pieces[n - 1].len() == 0);
            assert(d.input + pieces[n - 1] =~= d.input);
        }
    }
}

/// A request may arrive in any pieces. Fed to a fresh connection with a poll after
/// each piece, it comes out of the poll after the piece that completes it, and is
/// what it is as a whole. Every other poll yields nothing, none refuses it, and no
/// input is left over.
pub proof fn law_requests_arrive_in_any_pieces(
    c: ConnModel,
    pieces: Seq<Seq<u8>>,
    times: Seq<int>,
    n: int,
)
    requires
        c.input.len() == 0,
        c.pending is None,
        !c.closed,
        times.len() == pieces.len(),
        request_in(all_of(pieces), c.limits) is Ready,
        request_in(all_of(pieces), c.limits)->used == all_of(pieces).len(),
        arrives_in_pieces(all_of(pieces), c.limits),
        0 < n <= pieces.len(),
    ensures
        last_poll(c, pieces.take(n), times.take(n)) == Ok::<Option<RequestModel>, ErrorModel>(
            if all_of(pieces.take(n - 1)).len() < all_of(pieces).len() && all_of(
                pieces.take(n),
            ).len() == all_of(pieces).len() {
                Some(request_in(all_of(pieces), c.limits)->request)
            } else {
                None
            },
        ),
        after_pieces(c, pieces, times).input.len() == 0,
        after_pieces(c, pieces, times).pending is Some,
{
    lemma_pieces_so_far(c, pieces, times, n);
    lemma_pieces_so_far(c, pieces, times, pieces.len() as int);
    assert(pieces.take(pieces.len() as int) =~= pieces);
    assert(times.take(times.len() as int) =~= times);
}

/// While a request awaits its response, or once the connection is to be
/// closed, polling yields nothing and changes nothing.
pub proof fn law_one_request_at_a_time(c: ConnModel, now: int)
    requires
        c.pending is Some || c.closed,
    ensures
        polled(c, now) == (c, Ok::<Option<RequestModel>, ErrorModel>(None)),
{
}

/// Input that is refused is answered with an error page that says so, keeps
/// everything queued before it, and closes the connection.
pub proof fn law_refusal_answers_and_closes(c: ConnModel, now: int)
    requires
        polled(c, now).1 is Err,
    ensures
        ({
            let after = polled(c, now).0;
            &&& after.closed
            &&& after.pending is None
            &&& request_in(c.input, c.limits) matches InputOutcome::Fail { status, what } && {
                &&& polled(c, now).1->Err_0 == refusal(status, what)
                &&& after == refused(c, status, now)
                &&& status.code == 400 || status.code == 413 || status.code == 431 || status.code
                    == 505
            }
        }),
{
    let input = c.input;
    if find(input, head_end()) is Some {
        let end = find(input, head_end())->0;
        if end <= c.limits.max_header_bytes && head_of(input.take(end)) is Ok {
            let h = head_of(input.take(end))->Ok_0;
            if h.version is Some && framing_of(h.headers) == Some(BodyFraming::Chunked) {
                lemma_chunk_status(input.skip(end + 4), 0, c.limits.max_body_bytes as nat);
            }
        }
    }
}

proof fn lemma_chunk_status(rest: Seq<u8>, have: nat, max: nat)
    ensures
        crate::proto::chunk::at_size(rest, have, max) matches crate::proto::chunk::ChunkOutcome::Bad(
            s,
        ) ==> s.code == 400 || s.code == 413,
    decreases rest.len(), 0nat,
{
    lemma_find(rest, crate::proto::chunk::crlf());
    if let Some(eol) = find(rest, crate::proto::chunk::crlf()) {
        if let Some(size) = crate::proto::chunk::line_size(rest.take(eol)) {
            lemma_chunk_data_status(rest.skip(eol + 2), size, have, max);
            lemma_trailer_status(rest.skip(eol + 2), 0);
        }
    }
}

proof fn lemma_chunk_data_status(rest: Seq<u8>, remaining: nat, have: nat, max: nat)
    ensures
        crate::proto::chunk::at_data(
            rest,
            remaining,
            have,
            max,
        ) matches crate::proto::chunk::ChunkOutcome::Bad(s) ==> s.code == 400 || s.code == 413,
    decreases rest.len(), 1nat,
{
    if rest.len() >= remaining && rest.len() - remaining >= 2 {
        lemma_chunk_status(rest.skip(remaining as int).skip(2), have + remaining, max);
    }
}

proof fn lemma_trailer_status(rest: Seq<u8>, seen: nat)
    ensures
        crate::proto::chunk::at_trailer(rest, seen) matches crate::proto::chunk::ChunkOutcome::Bad(
            s,
        ) ==> s.code == 400,
    decreases rest.len(),
{
    lemma_find(rest, crate::proto::chunk::crlf());
    if let Some(eol) = find(rest, crate::proto::chunk::crlf()) {
        if eol > 0 {
            lemma_trailer_status(rest.skip(eol + 2), (seen + eol + 2) as nat);
        }
    }
}

// ---------------------------------------------------------------------------
// Responses
// ---------------------------------------------------------------------------

/// The lines that a list of fields puts on the wire.
pub open spec fn sent_lines(f: Fields) -> Seq<Seq<char>>
    decreases f.len(),
{
    if f.len() == 0 {
        Seq::empty()
    } else if sendable(f.last()) {
        sent_lines(f.drop_last()).push(f.last().0 + ": "@ + f.last().1)
    } else {
        sent_lines(f.drop_last())
    }
}

proof fn lemma_break_after(x: Seq<char>, t: Seq<char>)
    requires
        forall|i: int| 0 <= i < x.len() ==> #[trigger] x[i] != '\r',
    ensures
        find_break(x + "\r\n"@ + t) == Some(x.len() as int),
    decreases x.len(),
{
    reveal_strlit("\r\n");
    let s = x + "\r\n"@ + t;
    if x.len() == 0 {
        assert(s[0] == '\r' && s[1] == '\n');
    } else {
        assert(s[0] == x[0]);
        assert(s.skip(1) =~= x.skip(1) + "\r\n"@ + t);
        assert forall|i: int| 0 <= i < x.skip(1).len() implies #[trigger] x.skip(1)[i] != '\r' by {
            assert(x.skip(1)[i] == x[i + 1]);
        }
        lemma_break_after(x.skip(1), t);
    }
}

/// A line that a break follows is a line, and what follows is read on.
pub proof fn lemma_line_then(x: Seq<char>, t: Seq<char>)
    requires
        forall|i: int| 0 <= i < x.len() ==> #[trigger] x[i] != '\r',
    ensures
        lines(x + "\r\n"@ + t) == seq![x] + lines(t),
{
    reveal_strlit("\r\n");
    lemma_break_after(x, t);
    let s = x + "\r\n"@ + t;
    assert(s.take(x.len() as int) =~= x);
    assert(s.skip(x.len() as int + 2) =~= t);
}

/// The header lines on the wire are exactly one per sendable field: no field,
/// whatever a handler put into it, can add a line of its own or swallow what
/// follows.
pub proof fn law_one_line_per_field(f: Fields, t: Seq<char>)
    ensures
        lines(field_lines(f) + t) == sent_lines(f) + lines(t),
    decreases f.len(),
{
    if f.len() == 0 {
        assert(field_lines(f) + t =~= t);
        assert(sent_lines(f) + lines(t) =~= lines(t));
    } else {
        let g = f.drop_last();
        if sendable(f.last()) {
            reveal_strlit(": ");
            let x = f.last().0 + ": "@ + f.last().1;
            assert forall|i: int| 0 <= i < x.len() implies #[trigger] x[i] != '\r' by {
                let n = f.last().0.len();
                if i < n {
                    assert(tchar(f.last().0[i]));
                } else if i >= n + 2 {
                    assert(x[i] == f.last().1[i - n - 2]);
                }
            }
            let u = x + "\r\n"@ + t;
            assert(field_lines(f) + t =~= field_lines(g) + u);
            law_one_line_per_field(g, u);
            lemma_line_then(x, t);
            assert(sent_lines(g) + (seq![x] + lines(t)) =~= sent_lines(f) + lines(t));
        } else {
            law_one_line_per_field(g, t);
        }
    }
}

proof fn lemma_case_lens()
    ensures
        lower("transfer-encoding"@).len() == 17,
        lower("connection"@).len() == 10,
        lower("keep-alive"@).len() == 10,
        lower("upgrade"@).len() == 7,
        lower("te"@).len() == 2,
        lower("trailer"@).len() == 7,
        lower("proxy-connection"@).len() == 16,
        lower("Content-Length"@).len() == 14,
        lower("Connection"@).len() == 10,
        lower("Server"@).len() == 6,
        lower("Date"@).len() == 4,
{
    reveal_strlit("transfer-encoding");
    reveal_strlit("connection");
    reveal_strlit("keep-alive");
    reveal_strlit("upgrade");
    reveal_strlit("te");
    reveal_strlit("trailer");
    reveal_strlit("proxy-connection");
    reveal_strlit("Content-Length");
    reveal_strlit("Connection");
    reveal_strlit("Server");
    reveal_strlit("Date");
}

/// A field that only the engine may send is not among what it adds.
proof fn lemma_not_added(
    f: Fields,
    resp: ResponseModel,
    keep_alive: bool,
    server_name: Option<Seq<char>>,
    now: int,
    name: Seq<char>,
)
    requires
        f == without_hop_by_hop(resp.headers),
        lookup(f, name) is None,
        !eq_nocase("Content-Length"@, name),
        !eq_nocase("Connection"@, name),
        !eq_nocase("Server"@, name),
        !eq_nocase("Date"@, name),
    ensures
        lookup(reply_fields(resp, keep_alive, server_name, now), name) is None,
{
    let cl = "Content-Length"@;
    let cn = "Connection"@;
    let len = decimal(resp.body.size());
    lemma_absent_after_remove(f, cl, name);
    lemma_lookup_push(without(f, cl), (cl, len), name);
    let f1 = if resp.status.bodyless() {
        without(f, cl)
    } else {
        with_field(f, cl, len)
    };
    let v = if keep_alive {
        "keep-alive"@
    } else {
        "close"@
    };
    lemma_absent_after_remove(f1, cn, name);
    lemma_lookup_push(without(f1, cn), (cn, v), name);
    let f2 = with_field(f1, cn, v);
    let f3 = match server_name {
        Some(s) => with_default(f2, "Server"@, s),
        None => f2,
    };
    if let Some(s) = server_name {
        lemma_lookup_push(f2, ("Server"@, s), name);
    }
    lemma_lookup_push(f3, ("Date"@, crate::proto::date::date_of(now)), name);
}

/// The fields that hold for one connection only never go out as a handler set
/// them, nor does the length: `Keep-Alive`, `Upgrade`, `TE`, `Trailer` and
/// `Proxy-Connection` are not sent, `Connection` is sent once, and
/// `Content-Length` once, or not at all where no body is allowed.
pub proof fn law_hop_by_hop_fields_are_ours(
    resp: ResponseModel,
    keep_alive: bool,
    server_name: Option<Seq<char>>,
    now: int,
)
    ensures
        ({
            let f = reply_fields(resp, keep_alive, server_name, now);
            &&& lookup(f, "keep-alive"@) is None
            &&& lookup(f, "upgrade"@) is None
            &&& lookup(f, "te"@) is None
            &&& lookup(f, "trailer"@) is None
            &&& lookup(f, "proxy-connection"@) is None
            &&& values(f, "Connection"@) == seq![
                if keep_alive {
                    "keep-alive"@
                } else {
                    "close"@
                },
            ]
            &&& values(f, "Content-Length"@) == if resp.status.bodyless() {
                Seq::empty()
            } else {
                seq![decimal(resp.body.size())]
            }
        }),
{
    lemma_case_lens();
    let ka = "keep-alive"@;
    let up = "upgrade"@;
    let te = "te"@;
    let tr = "trailer"@;
    let pc = "proxy-connection"@;
    let cl = "Content-Length"@;
    let cn = "Connection"@;
    assert(!eq_nocase(cn, ka)) by {
        reveal_strlit("Connection");
        reveal_strlit("keep-alive");
        assert(lower(cn)[0] == 'c');
        assert(lower(ka)[0] == 'k');
    }
    let h1 = without(without(resp.headers, "transfer-encoding"@), "connection"@);
    let h2 = without(h1, ka);
    law_removed_is_absent(h1, ka);
    let h3 = without(h2, up);
    law_removed_is_absent(h2, up);
    lemma_absent_after_remove(h2, up, ka);
    let h4 = without(h3, te);
    law_removed_is_absent(h3, te);
    lemma_absent_after_remove(h3, te, ka);
    lemma_absent_after_remove(h3, te, up);
    let h5 = without(h4, tr);
    law_removed_is_absent(h4, tr);
    lemma_absent_after_remove(h4, tr, ka);
    lemma_absent_after_remove(h4, tr, up);
    lemma_absent_after_remove(h4, tr, te);
    let h6 = without(h5, pc);
    law_removed_is_absent(h5, pc);
    lemma_absent_after_remove(h5, pc, ka);
    lemma_absent_after_remove(h5, pc, up);
    lemma_absent_after_remove(h5, pc, te);
    lemma_absent_after_remove(h5, pc, tr);
    assert(h6 == without_hop_by_hop(resp.headers));
    lemma_not_added(h6, resp, keep_alive, server_name, now, ka);
    lemma_not_added(h6, resp, keep_alive, server_name, now, up);
    lemma_not_added(h6, resp, keep_alive, server_name, now, te);
    lemma_not_added(h6, resp, keep_alive, server_name, now, tr);
    lemma_not_added(h6, resp, keep_alive, server_name, now, pc);
    let len = decimal(resp.body.size());
    lemma_no_values_after_remove(h6, cl);
    lemma_values_push(without(h6, cl), (cl, len), cl);
    let f1 = if resp.status.bodyless() {
        without(h6, cl)
    } else {
        with_field(h6, cl, len)
    };
    let v = if keep_alive {
        "keep-alive"@
    } else {
        "close"@
    };
    lemma_no_values_after_remove(f1, cn);
    lemma_remove_keeps_values(f1, cn, cl);
    lemma_values_push(without(f1, cn), (cn, v), cn);
    lemma_values_push(without(f1, cn), (cn, v), cl);
    let f2 = with_field(f1, cn, v);
    assert(values(f2, cn) =~= seq![v]);
    assert(!resp.status.bodyless() ==> values(f2, cl) =~= seq![len]);
    let f3 = match server_name {
        Some(s) => with_default(f2, "Server"@, s),
        None => f2,
    };
    if let Some(s) = server_name {
        lemma_values_push(f2, ("Server"@, s), cn);
        lemma_values_push(f2, ("Server"@, s), cl);
    }
    let d = crate::proto::date::date_of(now);
    lemma_values_push(f3, ("Date"@, d), cn);
    lemma_values_push(f3, ("Date"@, d), cl);
}

/// Whatever a handler sets, the engine's framing is authoritative: no transfer
/// coding goes out, the length is that of the body (absent where no body is
/// allowed), and `Connection` tells the connection's fate.
pub proof fn law_framing_is_authoritative(
    resp: ResponseModel,
    keep_alive: bool,
    server_name: Option<Seq<char>>,
    now: int,
)
    ensures
        ({
            let f = reply_fields(resp, keep_alive, server_name, now);
            &&& lookup(f, "transfer-encoding"@) is None
            &&& lookup(f, "Content-Length"@) == if resp.status.bodyless() {
                None
            } else {
                Some(decimal(resp.body.size()))
            }
            &&& lookup(f, "Connection"@) == Some(
                if keep_alive {
                    "keep-alive"@
                } else {
                    "close"@
                },
            )
        }),
{
    lemma_case_lens();
    let te = "transfer-encoding"@;
    let cl = "Content-Length"@;
    let cn = "Connection"@;
    let f0 = without(resp.headers, te);
    law_removed_is_absent(resp.headers, te);
    let f1 = without(f0, "connection"@);
    law_remove_keeps_others(f0, "connection"@, te);
    let f2 = without(f1, "keep-alive"@);
    law_remove_keeps_others(f1, "keep-alive"@, te);
    let f3 = without(f2, "upgrade"@);
    law_remove_keeps_others(f2, "upgrade"@, te);
    let f4 = without(f3, "te"@);
    law_remove_keeps_others(f3, "te"@, te);
    let f5 = without(f4, "trailer"@);
    law_remove_keeps_others(f4, "trailer"@, te);
    let f6 = without(f5, "proxy-connection"@);
    law_remove_keeps_others(f5, "proxy-connection"@, te);
    assert(f6 == without_hop_by_hop(resp.headers));
    let f7 = if resp.status.bodyless() {
        without(f6, cl)
    } else {
        with_field(f6, cl, decimal(resp.body.size()))
    };
    law_remove_keeps_others(f6, cl, te);
    law_set_keeps_others(f6, cl, decimal(resp.body.size()), te);
    law_removed_is_absent(f6, cl);
    law_get_after_set(f6, cl, decimal(resp.body.size()));
    let v = if keep_alive {
        "keep-alive"@
    } else {
        "close"@
    };
    let f8 = with_field(f7, cn, v);
    law_set_keeps_others(f7, cn, v, te);
    law_set_keeps_others(f7, cn, v, cl);
    law_get_after_set(f7, cn, v);
    let f9 = match server_name {
        Some(name) => with_default(f8, "Server"@, name),
        None => f8,
    };
    if let Some(name) = server_name {
        lemma_lookup_push(f8, ("Server"@, name), te);
        lemma_lookup_push(f8, ("Server"@, name), cl);
        lemma_lookup_push(f8, ("Server"@, name), cn);
    }
    let d = crate::proto::date::date_of(now);
    lemma_lookup_push(f9, ("Date"@, d), te);
    lemma_lookup_push(f9, ("Date"@, d), cl);
    lemma_lookup_push(f9, ("Date"@, d), cn);
}

/// A response to `HEAD` carries the head that the same response to `GET` would
/// carry, and no body: nothing more is queued and no file is streamed.
pub proof fn law_head_reply_has_no_body(c: ConnModel, meta: Pending, resp: ResponseModel, now: int)
    requires
        meta.is_head,
    ensures
        ({
            let keep = meta.keep_alive && !c.closed;
            let head = encode_utf8(
                reply_head(
                    meta.version,
                    resp.status,
                    reply_fields(resp, keep, c.server_name, now),
                ),
            );
            &&& replied(c, meta, resp, now).output == c.output + head
            &&& replied(c, meta, resp, now).stream == c.stream
            &&& replied(c, Pending { is_head: false, ..meta }, resp, now).output.take(
                (c.output + head).len() as int,
            ) == c.output + head
        }),
{
    let keep = meta.keep_alive && !c.closed;
    let head = encode_utf8(
        reply_head(meta.version, resp.status, reply_fields(resp, keep, c.server_name, now)),
    );
    assert(c.output + head + Seq::<u8>::empty() =~= c.output + head);
    let other = replied(c, Pending { is_head: false, ..meta }, resp, now).output;
    assert(other.take((c.output + head).len() as int) =~= c.output + head);
}

/// Streaming makes progress by exactly what was read, a bounded piece at a
/// time, and ends when the promised length has been sent.
pub proof fn law_streaming_sends_the_promised_length(c: ConnModel)
    requires
        wanted(c) is Some,
        c.stream->0.remaining > 0,
    ensures
        ({
            let n = wanted(c)->0.len;
            let next = after_read(c, Some(n as nat));
            &&& 0 < n <= STREAM_CHUNK
            &&& n <= c.stream->0.remaining
            &&& next.closed == c.closed
            &&& match next.stream {
                None => n == c.stream->0.remaining,
                Some(fs) => fs.remaining + n == c.stream->0.remaining && fs.file
                    == c.stream->0.file,
            }
        }),
{
}

} // verus!
