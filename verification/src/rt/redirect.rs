//! The plain-HTTP listener: serves ACME HTTP-01 challenges and, by default,
//! redirects everything else to HTTPS. With `allow_http` it serves content over
//! HTTP instead of redirecting.
use crate::acme::manager::{AcmeManager, ManagerModel};
use crate::bytes::opt_bytes;
use crate::compress::{self, compress_response, compressed};
use crate::handler::{answers, Handler};
use crate::net::gdns::{location_of, redirect_location};
use crate::net::ip::IpAddr;
use crate::proto::conn::{after_read, fresh, wanted, ConnModel, FileRead, H1Conn, Limits};
use crate::proto::headers::lookup;
use crate::proto::request::{path_of, Request, RequestModel};
use crate::proto::response::{bare, status_response, BodyModel, Response, ResponseModel};
use crate::proto::status::{standard, StatusCode};
use crate::rt::progress::{delivered, trickles, Window, MIN_PROGRESS};
use crate::serve::{h1_served, serve_h1, Responder};
use crate::text::{chars_of, chars_strip_prefix, opt_owned, opt_text, strip_prefix, text_of};
use std::sync::Arc;
use vstd::prelude::*;
use vstd::utf8::encode_utf8;

verus! {

broadcast use vstd::seq::group_seq_axioms;

/// Settings for the HTTP listener.
pub struct HttpCtx<H: Handler> {
    /// Serve content over HTTP instead of redirecting to HTTPS.
    pub allow_http: bool,
    pub server_name: Option<String>,
    pub limits: Limits,
    /// Handler used when `allow_http` is set.
    pub content: Option<Arc<H>>,
    pub compression: compress::Options,
}

/// The state of a manager, where there is one.
pub open spec fn state_of(acme: Option<&AcmeManager>) -> Option<ManagerModel> {
    match acme {
        Some(m) => Some(m@),
        None => None,
    }
}

/// Where HTTP-01 challenges are asked for.
pub const CHALLENGE_PREFIX: &'static str = "/.well-known/acme-challenge/";

/// The answer to a challenge: the key authorization of a token that is known.
pub open spec fn challenge_answer(key_auth: Option<Seq<char>>) -> ResponseModel {
    match key_auth {
        Some(k) => ResponseModel {
            status: standard(200),
            headers: seq![("Content-Type"@, "application/octet-stream"@)],
            body: BodyModel::Bytes(encode_utf8(k)),
        },
        None => status_response(standard(404)),
    }
}

/// The upgrade to HTTPS; 308 keeps the method and the body.
pub open spec fn upgrade(req: RequestModel, local: IpAddr) -> ResponseModel {
    ResponseModel {
        headers: seq![
            ("Location"@, location_of(lookup(req.headers, "host"@), local, req.target)),
        ],
        ..bare(standard(308))
    }
}

/// Whether the HTTP listener may answer a request so.
pub open spec fn http_answer<H: Handler>(
    ctx: HttpCtx<H>,
    acme: Option<ManagerModel>,
    local: IpAddr,
    req: RequestModel,
    resp: ResponseModel,
) -> bool {
    let token = strip_prefix(path_of(req.target), CHALLENGE_PREFIX@);
    if acme is Some && token is Some {
        resp == challenge_answer(acme->0.http.get(token->0))
    } else if ctx.allow_http && ctx.content is Some {
        exists|a: ResponseModel|
            #[trigger] answers(*ctx.content->0, req, a) && resp == compressed(req, a, ctx.compression)
    } else {
        resp == upgrade(req, local)
    }
}

/// Answer one plain-HTTP request.
pub fn respond<H: Handler>(
    req: &Request,
    local_ip: IpAddr,
    ctx: &HttpCtx<H>,
    acme: Option<&AcmeManager>,
) -> (r: Response)
    requires
        acme matches Some(m) ==> m.wf(),
    ensures
        http_answer(
            *ctx,
            state_of(acme),
            local_ip,
            req@,
            r@,
        ),
{
    // ACME HTTP-01: serve the key authorization for a known token.
    if let Some(mgr) = acme {
        let c = chars_of(req.path());
        if let Some(token) = chars_strip_prefix(c.as_slice(), CHALLENGE_PREFIX) {
            let t = text_of(token);
            return match mgr.http_challenge(t.as_str()) {
                Some(key_auth) => {
                    let ghost k = key_auth@;
                    let resp = Response::new(StatusCode::ok()).header(
                        "Content-Type",
                        "application/octet-stream",
                    ).body(key_auth);
                    proof {
                        assert(resp@.headers =~= challenge_answer(Some(k)).headers);
                    }
                    resp
                },
                None => Response::status(StatusCode::not_found()),
            };
        }
    }
    // Serve content over HTTP only when explicitly allowed.
    if ctx.allow_http {
        if let Some(handler) = &ctx.content {
            let resp = handler.handle(req);
            proof {
                assert(answers(*ctx.content->0, req@, resp@));
            }
            return compress_response(req, resp, &ctx.compression);
        }
    }
    // Otherwise upgrade to HTTPS (308 keeps the method/body).
    let location = redirect_location(req.host(), local_ip, req.target());
    Response::redirect(StatusCode::permanent_redirect(), location)
}

struct HttpAnswering<'a, H: Handler> {
    ctx: &'a HttpCtx<H>,
    acme: Option<&'a AcmeManager>,
    local_ip: IpAddr,
}

/// Which responses the HTTP listener may give to a request.
pub open spec fn http_answers<H: Handler>(
    ctx: HttpCtx<H>,
    acme: Option<ManagerModel>,
    local: IpAddr,
) -> spec_fn(RequestModel, ResponseModel) -> bool {
    |req: RequestModel, resp: ResponseModel| http_answer(ctx, acme, local, req, resp)
}

impl<'a, H: Handler> Responder for HttpAnswering<'a, H> {
    closed spec fn may(&self) -> spec_fn(RequestModel, ResponseModel) -> bool {
        http_answers(
            *self.ctx,
            state_of(self.acme),
            self.local_ip,
        )
    }

    closed spec fn ready(&self) -> bool {
        self.acme matches Some(m) ==> m.wf()
    }

    fn respond(&self, req: &Request) -> (r: Response) {
        respond(req, self.local_ip, self.ctx, self.acme)
    }
}

/// What to do with a plain-HTTP connection after a read.
#[derive(Debug)]
pub enum HttpStep {
    /// Drop it: the peer trickles.
    Drop,
    /// Write these bytes (if any), then close or read on.
    Write { out: Vec<u8>, close: bool },
}

/// One plain-HTTP connection.
#[derive(Debug)]
pub struct HttpConn {
    conn: H1Conn,
    window: Window,
}

/// The model of a plain-HTTP connection.
pub struct HttpConnModel {
    pub conn: ConnModel,
    pub window: Window,
}

impl View for HttpConn {
    type V = HttpConnModel;

    closed spec fn view(&self) -> HttpConnModel {
        HttpConnModel { conn: self.conn@, window: self.window }
    }
}

impl HttpConn {
    /// The engine is in order.
    pub closed spec fn wf(&self) -> bool {
        self.conn.wf()
    }

    /// A connection on which nothing has arrived.
    pub fn new<H: Handler>(ctx: &HttpCtx<H>, now: u64) -> (r: HttpConn)
        ensures
            r.wf(),
            r@.window == (Window { since: now, bytes: 0 }),
            r@.conn == (ConnModel {
                server_name: opt_text(ctx.server_name),
                ..fresh(ctx.limits)
            }),
    {
        let mut conn = H1Conn::new(ctx.limits);
        conn.set_server_name(opt_owned(&ctx.server_name));
        HttpConn { conn, window: Window::new(now) }
    }

    /// Take in what a read brought. `unix_now` is the Unix time that responses
    /// are dated.
    pub fn received<H: Handler>(
        &mut self,
        data: &[u8],
        ctx: &HttpCtx<H>,
        acme: Option<&AcmeManager>,
        local_ip: IpAddr,
        now: u64,
        unix_now: u64,
    ) -> (r: HttpStep)
        requires
            old(self).wf(),
            acme matches Some(m) ==> m.wf(),
        ensures
            final(self).wf(),
            final(self)@.window == delivered(old(self)@.window, data@.len() as usize, now),
            r is Drop <==> old(self)@.window.bytes + data@.len() < MIN_PROGRESS && trickles(
                final(self)@.window,
                now,
            ),
            r is Drop ==> final(self)@.conn == old(self)@.conn,
            r matches HttpStep::Write { out, close } ==> close == final(self)@.conn.closed
                && exists|replies: Seq<ResponseModel>|
                    sent(
                        #[trigger] h1_served(
                            fed(old(self)@.conn, data@),
                            replies,
                            http_answers(*ctx, state_of(acme), local_ip),
                            unix_now as int,
                        ),
                        out@,
                        final(self)@.conn,
                    ),
    {
        if self.window.note_and_check(data.len(), now) {
            return HttpStep::Drop;
        }
        self.conn.feed(data);
        let answering = HttpAnswering { ctx, acme, local_ip };
        serve_h1(&mut self.conn, &answering, unix_now);
        let ghost served = self.conn@;
        let out = self.conn.take_out();
        proof {
            let replies = choose|replies: Seq<ResponseModel>|
                #[trigger] h1_served(
                    fed(old(self)@.conn, data@),
                    replies,
                    answering.may(),
                    unix_now as int,
                ) == Some(served);
            assert(h1_served(
                fed(old(self)@.conn, data@),
                replies,
                answering.may(),
                unix_now as int,
            ) == Some(served));
        }
        HttpStep::Write { out, close: self.conn.wants_close() }
    }

    /// The file read that the response goes on with, once everything given out
    /// was written.
    pub fn wanted_read(&self) -> (r: Option<FileRead>)
        requires
            self.wf(),
        ensures
            r == wanted(self@.conn),
    {
        self.conn.wanted_read()
    }

    /// Hand in what the wanted read yielded (`None` when it failed) and get the
    /// bytes to write.
    pub fn read_done(&mut self, data: Option<Vec<u8>>) -> (r: Vec<u8>)
        requires
            old(self).wf(),
            wanted(old(self)@.conn) is Some,
            data matches Some(d) ==> d@.len() <= wanted(old(self)@.conn)->0.len,
        ensures
            final(self).wf(),
            final(self)@.window == old(self)@.window,
            r@ == match opt_bytes(data) {
                Some(d) => d,
                None => Seq::empty(),
            },
            final(self)@.conn == after_read(
                old(self)@.conn,
                match opt_bytes(data) {
                    Some(d) => Some(d.len()),
                    None => None,
                },
            ),
    {
        self.conn.read_done(data)
    }

    /// Whether the connection should be closed once everything was written.
    pub fn wants_close(&self) -> (r: bool)
        ensures
            r == self@.conn.closed,
    {
        self.conn.wants_close()
    }
}

/// A connection after bytes have been fed to it.
pub open spec fn fed(c: ConnModel, data: Seq<u8>) -> ConnModel {
    ConnModel { input: c.input + data, ..c }
}

/// Whether a connection that was served gave out these bytes and became this.
pub open spec fn sent(served: Option<ConnModel>, out: Seq<u8>, after: ConnModel) -> bool {
    served matches Some(c) && out == c.output && after == (ConnModel { output: Seq::empty(), ..c })
}

// ---------------------------------------------------------------------------
// Laws
// ---------------------------------------------------------------------------

/// Unless content is allowed over HTTP, everything but a challenge is sent on to
/// HTTPS.
pub proof fn law_http_is_upgraded<H: Handler>(
    ctx: HttpCtx<H>,
    acme: Option<ManagerModel>,
    local: IpAddr,
    req: RequestModel,
    resp: ResponseModel,
)
    requires
        http_answer(ctx, acme, local, req, resp),
        !ctx.allow_http,
        acme is None || strip_prefix(path_of(req.target), CHALLENGE_PREFIX@) is None,
    ensures
        resp == upgrade(req, local),
{
}

/// A challenge that is known is answered with its key authorization, and one that is
/// not known with `404`, whatever else the listener serves.
pub proof fn law_challenges_are_answered<H: Handler>(
    ctx: HttpCtx<H>,
    m: ManagerModel,
    local: IpAddr,
    req: RequestModel,
    resp: ResponseModel,
    token: Seq<char>,
)
    requires
        http_answer(ctx, Some(m), local, req, resp),
        path_of(req.target) == "/.well-known/acme-challenge/"@ + token,
    ensures
        m.http.contains_key(token) ==> resp.status.code == 200 && resp.body == BodyModel::Bytes(
            encode_utf8(m.http[token]),
        ),
        !m.http.contains_key(token) ==> resp.status.code == 404,
{
    crate::text::law_strip_prefix("/.well-known/acme-challenge/"@, token);
}

/// What is sent on to HTTPS is sent on for good and with its method: `308`, to the
/// place that its host and target name.
pub proof fn law_upgrade_says_where(req: RequestModel, local: IpAddr)
    ensures
        upgrade(req, local).status.code == 308,
        lookup(upgrade(req, local).headers, "location"@) == Some(
            location_of(lookup(req.headers, "host"@), local, req.target),
        ),
{
    reveal_strlit("Location");
    reveal_strlit("location");
    assert(crate::text::lower("Location"@) =~= crate::text::lower("location"@));
}

} // verus!
