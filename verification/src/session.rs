//! [`Session`] — the sans-I/O glue between a socket's byte stream and a response.
//!
//! A `Session` owns an HTTP protocol engine (HTTP/1.x, or HTTP/2 when the TLS
//! client negotiates `h2` via ALPN), an optional TLS transport, and the shared
//! [`Handler`]. Runtimes feed it the bytes that arrive on a socket and write
//! back the bytes it produces; the session decrypts, parses, invokes the
//! handler (with optional compression), serializes, and re-encrypts. It
//! performs no I/O itself.
use crate::bytes::{bytes_are, copy_of, opt_bytes};
use crate::compress::{self, compress_response, compressed};
use crate::error::Result;
use crate::h2::conn::H2Conn;
use crate::h2::model::{self, pumped, H2Model};
use crate::handler::{answers, Handler};
use crate::proto::conn::{
    self, after_read, fresh, ConnModel, FileRead, H1Conn, Limits, DEFAULT_SERVER_NAME,
};
use crate::proto::headers::{law_default_keeps_value, lookup, with_default, Fields};
use crate::proto::request::{Request, RequestModel};
use crate::proto::response::{Response, ResponseModel};
use crate::serve::{h1_served, h2_served, serve_h1, serve_h2, Responder};
use crate::text::{opt_owned, opt_text, owned};
use crate::tls::{StreamModel, TlsStream};
use std::sync::Arc;
use vstd::prelude::*;
use vstd::utf8::encode_utf8;

verus! {

broadcast use vstd::seq::group_seq_axioms;

/// Shared, per-server settings a [`Session`] needs. Cheap to clone.
pub struct SessionConfig<H: Handler> {
    /// The request handler, shared across all connections.
    pub handler: Arc<H>,
    /// HTTP parsing limits.
    pub limits: Limits,
    /// `Server` header value (or `None` to omit).
    pub server_name: Option<String>,
    /// `Strict-Transport-Security` header value to send on **secure**
    /// connections (e.g. `"max-age=31536000"`), or `None` to omit it. Never
    /// sent over plain HTTP, where HSTS is meaningless.
    pub hsts: Option<String>,
    /// Response compression options.
    pub compression: compress::Options,
}

/// What of the settings shapes the bytes on the wire.
#[verifier::ext_equal]
pub struct ConfigModel {
    /// Which responses the handler may give to a request.
    pub may_answer: spec_fn(RequestModel, ResponseModel) -> bool,
    pub limits: Limits,
    pub server_name: Option<Seq<char>>,
    pub hsts: Option<Seq<char>>,
    pub compression: compress::Options,
}

impl<H: Handler> View for SessionConfig<H> {
    type V = ConfigModel;

    open spec fn view(&self) -> ConfigModel {
        ConfigModel {
            may_answer: |req: RequestModel, resp: ResponseModel| answers(*self.handler, req, resp),
            limits: self.limits,
            server_name: opt_text(self.server_name),
            hsts: opt_text(self.hsts),
            compression: self.compression,
        }
    }
}

impl<H: Handler> Clone for SessionConfig<H> {
    fn clone(&self) -> (r: SessionConfig<H>)
        ensures
            r@ == self@,
            r.handler == self.handler,
    {
        SessionConfig {
            handler: self.handler.clone(),
            limits: self.limits,
            server_name: opt_owned(&self.server_name),
            hsts: opt_owned(&self.hsts),
            compression: self.compression,
        }
    }
}

impl<H: Handler> SessionConfig<H> {
    /// Build a config around a handler, with default limits and compression.
    pub fn new(handler: Arc<H>) -> (r: SessionConfig<H>)
        ensures
            r.handler == handler,
            r@ == (ConfigModel {
                may_answer: r@.may_answer,
                limits: Limits { max_header_bytes: 65536, max_body_bytes: 16777216 },
                server_name: Some(DEFAULT_SERVER_NAME@),
                hsts: None,
                compression: compress::Options { enabled: true, min_size: 256 },
            }),
    {
        SessionConfig {
            handler,
            limits: Limits::default(),
            server_name: Some(owned(DEFAULT_SERVER_NAME)),
            hsts: None,
            compression: compress::Options::default(),
        }
    }
}

// ---------------------------------------------------------------------------
// Finishing responses
// ---------------------------------------------------------------------------

/// Headers with `Strict-Transport-Security`, where the connection is secure and
/// a value is configured; one that is there already stays.
pub open spec fn with_hsts(f: Fields, hsts: Option<Seq<char>>, secure: bool) -> Fields {
    match hsts {
        Some(v) => if secure {
            with_default(f, "Strict-Transport-Security"@, v)
        } else {
            f
        },
        None => f,
    }
}

/// A handler's response as it goes out: compressed, then with the security
/// header.
pub open spec fn dressed(
    req: RequestModel,
    resp: ResponseModel,
    cfg: ConfigModel,
    secure: bool,
) -> ResponseModel {
    let r = compressed(req, resp, cfg.compression);
    ResponseModel { headers: with_hsts(r.headers, cfg.hsts, secure), ..r }
}

/// Add the configured `Strict-Transport-Security` header when the connection is
/// secure. HSTS sent over plain HTTP is ignored by clients, so it is never added
/// there.
pub fn apply_hsts<H: Handler>(cfg: &SessionConfig<H>, resp: Response, secure: bool) -> (r: Response)
    ensures
        r@ == (ResponseModel { headers: with_hsts(resp@.headers, cfg@.hsts, secure), ..resp@ }),
{
    if secure {
        if let Some(value) = &cfg.hsts {
            let (status, mut headers, body) = resp.into_parts();
            headers.set_if_absent("Strict-Transport-Security", owned(value.as_str()));
            return Response::from_parts(status, headers, body);
        }
    }
    resp
}

/// Apply response compression and (on secure transports) the HSTS header to what
/// the handler answered.
pub fn finish<H: Handler>(cfg: &SessionConfig<H>, req: &Request, resp: Response, secure: bool) -> (r: Response)
    ensures
        r@ == dressed(req@, resp@, cfg@, secure),
{
    let resp = compress_response(req, resp, &cfg.compression);
    apply_hsts(cfg, resp, secure)
}

// ---------------------------------------------------------------------------
// Answering
// ---------------------------------------------------------------------------

/// Whether a response may go out in answer to a request: it is what the handler
/// may answer, dressed.
pub open spec fn outgoing_answer(
    req: RequestModel,
    resp: ResponseModel,
    cfg: ConfigModel,
    secure: bool,
) -> bool {
    exists|a: ResponseModel|
        #[trigger] (cfg.may_answer)(req, a) && resp == dressed(req, a, cfg, secure)
}

/// Run the handler on a request, and finish what it answers.
pub fn answer<H: Handler>(cfg: &SessionConfig<H>, req: &Request, secure: bool) -> (r: Response)
    ensures
        outgoing_answer(req@, r@, cfg@, secure),
{
    let resp = cfg.handler.handle(req);
    let ghost a = resp@;
    proof {
        assert((cfg@.may_answer)(req@, a));
    }
    finish(cfg, req, resp, secure)
}

/// Answers requests with the handler.
struct Answering<'a, H: Handler> {
    cfg: &'a SessionConfig<H>,
    secure: bool,
}

/// Which responses may go out in answer to a request.
pub open spec fn outgoing_answers(cfg: ConfigModel, secure: bool) -> spec_fn(
    RequestModel,
    ResponseModel,
) -> bool {
    |req: RequestModel, resp: ResponseModel| outgoing_answer(req, resp, cfg, secure)
}

impl<'a, H: Handler> Responder for Answering<'a, H> {
    closed spec fn may(&self) -> spec_fn(RequestModel, ResponseModel) -> bool {
        outgoing_answers(self.cfg@, self.secure)
    }

    closed spec fn ready(&self) -> bool {
        true
    }

    fn respond(&self, req: &Request) -> (r: Response) {
        answer(self.cfg, req, self.secure)
    }
}

// ---------------------------------------------------------------------------
// Sessions
// ---------------------------------------------------------------------------

/// The transport beneath the HTTP engine: either a plain byte passthrough or a
/// TLS layer.
enum Transport {
    Plain,
    Tls(Box<TlsStream>),
}

/// The chosen application protocol engine for a connection.
enum Engine {
    H1(H1Conn),
    H2(Box<H2Conn>),
}

/// The model of an engine.
pub enum EngineModel {
    H1(ConnModel),
    H2(H2Model),
}

/// The model of a session.
pub struct SessionModel {
    /// Nothing until the protocol is known (after the TLS handshake).
    pub engine: Option<EngineModel>,
    /// Nothing on a plain transport.
    pub tls: Option<StreamModel>,
    pub cfg: ConfigModel,
}

impl SessionModel {
    /// Whether the transport is encrypted.
    pub open spec fn secure(self) -> bool {
        self.tls is Some
    }

    /// Whether the TLS handshake is not yet complete.
    pub open spec fn in_handshake(self) -> bool {
        self.tls matches Some(t) && !t.complete
    }
}

/// An HTTP/1 engine as the settings have it.
pub open spec fn h1_fresh(cfg: ConfigModel) -> ConnModel {
    ConnModel { server_name: cfg.server_name, ..fresh(cfg.limits) }
}

/// The engine for a connection whose handshake, if any, is complete: HTTP/2 just
/// when the client negotiated `h2`.
pub open spec fn engine_for(cfg: ConfigModel, tls: Option<StreamModel>) -> EngineModel {
    match tls {
        Some(t) => if t.alpn == Some(encode_utf8("h2"@)) {
            EngineModel::H2(model::fresh(cfg.limits, cfg.server_name))
        } else {
            EngineModel::H1(h1_fresh(cfg))
        },
        None => EngineModel::H1(h1_fresh(cfg)),
    }
}

/// A session with its engine chosen, once that can be.
pub open spec fn selected(s: SessionModel) -> SessionModel {
    if s.engine is None && !s.in_handshake() {
        SessionModel { engine: Some(engine_for(s.cfg, s.tls)), ..s }
    } else {
        s
    }
}

/// An engine once it took in plaintext and its requests were answered with just
/// these responses, in order.
pub open spec fn engine_served(
    e: EngineModel,
    plaintext: Seq<u8>,
    replies: Seq<ResponseModel>,
    cfg: ConfigModel,
    secure: bool,
    now: int,
) -> Option<EngineModel> {
    match e {
        EngineModel::H1(c) => match h1_served(
            ConnModel { input: c.input + plaintext, ..c },
            replies,
            outgoing_answers(cfg, secure),
            now,
        ) {
            Some(n) => Some(EngineModel::H1(n)),
            None => None,
        },
        EngineModel::H2(m) => match h2_served(
            model::received(m, plaintext),
            replies,
            outgoing_answers(cfg, secure),
        ) {
            Some(n) => Some(EngineModel::H2(n)),
            None => None,
        },
    }
}

/// Whether a session became another by taking in plaintext, with some responses
/// of the handler.
pub open spec fn took_in(s: SessionModel, plaintext: Seq<u8>, now: int, t: SessionModel) -> bool {
    let s1 = selected(s);
    if plaintext.len() == 0 || s1.engine is None {
        t == s1
    } else {
        t.engine is Some && t == (SessionModel { engine: t.engine, ..s1 }) && exists|
            replies: Seq<ResponseModel>,
        |
            #[trigger] engine_served(s1.engine->0, plaintext, replies, s.cfg, s.secure(), now)
                == t.engine
    }
}

/// A TLS stream whose decrypted bytes were taken.
pub open spec fn emptied(stream: StreamModel) -> StreamModel {
    StreamModel {
        received: Seq::empty(),
        taken: stream.taken + stream.received,
        ..stream
    }
}

/// Whether a session became another with a TLS stream that holds what it
/// decrypted: all of that is taken, and taken in.
pub open spec fn decrypted_in(s: SessionModel, stream: StreamModel, now: int, t: SessionModel) -> bool {
    took_in(
        SessionModel { tls: Some(emptied(stream)), ..s },
        stream.received,
        now,
        t,
    )
}

/// Whether a TLS stream became another by being fed these bytes, and in no other
/// way: nothing was sent over it or taken from it, and it is served with what it
/// was.
pub open spec fn only_fed(tls: StreamModel, wire: Seq<u8>, stream: StreamModel) -> bool {
    &&& stream.fed == tls.fed + wire
    &&& only_touched(tls, stream)
    &&& wire.len() == 0 ==> stream == tls
}

/// Whether nothing was sent over a TLS stream or taken from it, and it is served
/// with what it was.
pub open spec fn only_touched(tls: StreamModel, stream: StreamModel) -> bool {
    &&& stream.sent == tls.sent
    &&& stream.taken == tls.taken
    &&& stream.popped == tls.popped
    &&& stream.identity == tls.identity
}

/// Whether a session became another by taking in bytes off the wire. A plain
/// transport takes them as they are; under TLS all of them go to the TLS engine,
/// what they decrypt to is the engine's, and all of that is taken in.
pub open spec fn wire_in(s: SessionModel, wire: Seq<u8>, now: int, ok: bool, t: SessionModel) -> bool {
    match s.tls {
        None => ok && took_in(s, wire, now, t),
        Some(tls) => if ok {
            exists|stream: StreamModel|
                only_fed(tls, wire, stream) && #[trigger] decrypted_in(s, stream, now, t)
        } else {
            &&& wire.len() > 0
            &&& t.tls is Some
            &&& only_touched(tls, t.tls->0)
            &&& t == (SessionModel { tls: t.tls, ..s })
        },
    }
}

/// Whether a session became another by giving application bytes to its
/// transport, with these bytes for the wire (`None` if the transport refused). A
/// plain transport gives them as they are; under TLS all of them go to the TLS
/// engine, and everything that it has ready comes out, in order.
pub open spec fn wire_out(s: SessionModel, app: Seq<u8>, wire: Option<Seq<u8>>, t: SessionModel) -> bool {
    match s.tls {
        None => wire == Some(app) && t == s,
        Some(tls) => {
            &&& t.tls is Some
            &&& t == (SessionModel { tls: t.tls, ..s })
            &&& match wire {
                Some(w) => t.tls->0 == (StreamModel {
                    sent: tls.sent + app,
                    outgoing: Seq::empty(),
                    popped: tls.popped + w,
                    ..tls
                }) && tls.outgoing.is_prefix_of(w) && (app.len() == 0 ==> w == tls.outgoing),
                None => app.len() > 0 && t.tls->0 == (StreamModel {
                    sent: t.tls->0.sent,
                    outgoing: t.tls->0.outgoing,
                    ..tls
                }) && tls.outgoing.is_prefix_of(t.tls->0.outgoing),
            }
        },
    }
}

/// The bytes of a result.
pub open spec fn result_bytes(r: Result<Vec<u8>>) -> Option<Seq<u8>> {
    match r {
        Ok(v) => Some(v@),
        Err(_) => None,
    }
}

/// A session whose engine's output was taken.
pub open spec fn drained(s: SessionModel) -> SessionModel {
    SessionModel { engine: engine_drained(s.engine), ..s }
}

/// A session that was handed what the wanted read yielded.
pub open spec fn read_in(s: SessionModel, data: Option<Seq<u8>>) -> SessionModel {
    SessionModel { engine: Some(engine_read(s.engine->0, data).0), ..s }
}

/// The bytes that an engine has ready.
pub open spec fn engine_output(e: Option<EngineModel>) -> Seq<u8> {
    match e {
        Some(EngineModel::H1(c)) => c.output,
        Some(EngineModel::H2(m)) => m.output,
        None => Seq::empty(),
    }
}

/// An engine whose output was taken.
pub open spec fn engine_drained(e: Option<EngineModel>) -> Option<EngineModel> {
    match e {
        Some(EngineModel::H1(c)) => Some(
            EngineModel::H1(ConnModel { output: Seq::empty(), ..c }),
        ),
        Some(EngineModel::H2(m)) => Some(EngineModel::H2(H2Model { output: Seq::empty(), ..m })),
        None => None,
    }
}

/// Whether an engine has output still to be taken: queued bytes, or a file body
/// that has not reached its end.
pub open spec fn outputs(e: Option<EngineModel>) -> bool {
    match e {
        Some(EngineModel::H1(c)) => c.output.len() > 0 || c.stream is Some,
        Some(EngineModel::H2(m)) => m.output.len() > 0 || model::wanted(m) is Some,
        None => false,
    }
}

/// The file read that an engine's output waits for.
pub open spec fn engine_wanted(e: Option<EngineModel>) -> Option<FileRead> {
    match e {
        Some(EngineModel::H1(c)) => conn::wanted(c),
        Some(EngineModel::H2(m)) => match model::wanted(m) {
            Some(q) => Some(q.read),
            None => None,
        },
        None => None,
    }
}

/// An engine that was handed what the wanted read yielded, and the bytes to
/// send.
pub open spec fn engine_read(e: EngineModel, data: Option<Seq<u8>>) -> (EngineModel, Seq<u8>) {
    match e {
        EngineModel::H1(c) => (
            EngineModel::H1(
                after_read(
                    c,
                    match data {
                        Some(d) => Some(d.len()),
                        None => None,
                    },
                ),
            ),
            match data {
                Some(d) => d,
                None => Seq::empty(),
            },
        ),
        EngineModel::H2(m) => {
            let n = pumped(model::read_done(m, data));
            (EngineModel::H2(H2Model { output: Seq::empty(), ..n }), n.output)
        },
    }
}

impl Transport {
    spec fn model(self) -> Option<StreamModel> {
        match self {
            Transport::Plain => None,
            Transport::Tls(s) => Some(s@),
        }
    }

    /// Turn received wire bytes into plaintext (decrypting under TLS).
    fn decrypt(&mut self, wire_in: &[u8]) -> (r: Result<Vec<u8>>)
        ensures
            old(self).model() is None ==> (r matches Ok(v) && v@ == wire_in@ && final(self).model()
                is None),
            old(self).model() matches Some(tls) ==> {
                &&& final(self).model() is Some
                &&& r is Err ==> wire_in@.len() > 0 && only_touched(tls, final(self).model()->0)
                &&& r matches Ok(v) ==> exists|stream: StreamModel|
                    only_fed(tls, wire_in@, stream) && v@ == stream.received && final(self).model()
                        == Some(#[trigger] emptied(stream))
            },
            r matches Err(e) ==> e@ is Tls,
    {
        match self {
            Transport::Plain => Ok(copy_of(wire_in)),
            Transport::Tls(stream) => {
                match stream.feed(wire_in) {
                    Ok(_) => {
                        let ghost fed = stream@;
                        let r = stream.recv_all();
                        proof {
                            assert(stream@ == emptied(fed));
                            if wire_in@.len() == 0 {
                                assert(fed.fed + wire_in@ =~= fed.fed);
                            }
                        }
                        r
                    },
                    Err(e) => Err(e),
                }
            },
        }
    }

    /// Turn application bytes into wire bytes (encrypting under TLS, and
    /// flushing any pending handshake records).
    fn encrypt(&mut self, app: &[u8]) -> (r: Result<Vec<u8>>)
        ensures
            old(self).model() is None ==> (r matches Ok(v) && v@ == app@ && final(self).model()
                is None),
            old(self).model() matches Some(tls) ==> {
                &&& final(self).model() is Some
                &&& r is Err ==> {
                    let now = final(self).model()->0;
                    &&& app@.len() > 0
                    &&& now == (StreamModel { sent: now.sent, outgoing: now.outgoing, ..tls })
                    &&& tls.outgoing.is_prefix_of(now.outgoing)
                }
                &&& r matches Ok(v) ==> final(self).model() == Some(
                    StreamModel {
                        sent: tls.sent + app@,
                        outgoing: Seq::empty(),
                        popped: tls.popped + v@,
                        ..tls
                    },
                ) && tls.outgoing.is_prefix_of(v@) && (app@.len() == 0 ==> v@ == tls.outgoing)
            },
            r matches Err(e) ==> e@ is Tls,
    {
        match self {
            Transport::Plain => Ok(copy_of(app)),
            Transport::Tls(stream) => {
                match stream.send(app) {
                    Ok(_) => stream.pop_all(),
                    Err(e) => Err(e),
                }
            },
        }
    }

    fn handshaking(&self) -> (r: bool)
        ensures
            r == (self.model() matches Some(t) && !t.complete),
    {
        match self {
            Transport::Plain => false,
            Transport::Tls(stream) => !stream.is_handshake_complete(),
        }
    }

    /// Whether the client negotiated HTTP/2.
    fn speaks_h2(&self) -> (r: bool)
        ensures
            r == (self.model() matches Some(t) && t.alpn == Some(encode_utf8("h2"@))),
    {
        match self {
            Transport::Plain => false,
            Transport::Tls(stream) => match stream.alpn_protocol() {
                Some(p) => bytes_are(p.as_slice(), "h2"),
                None => false,
            },
        }
    }
}

impl Engine {
    spec fn model(self) -> EngineModel {
        match self {
            Engine::H1(c) => EngineModel::H1(c@),
            Engine::H2(c) => EngineModel::H2(c@),
        }
    }

    spec fn wf(self) -> bool {
        match self {
            Engine::H1(c) => c.wf(),
            Engine::H2(c) => c.wf(),
        }
    }
}

/// A single HTTP(S) connection in progress.
pub struct Session<H: Handler> {
    engine: Option<Engine>,
    transport: Transport,
    cfg: SessionConfig<H>,
}

impl<H: Handler> View for Session<H> {
    type V = SessionModel;

    closed spec fn view(&self) -> SessionModel {
        SessionModel {
            engine: match self.engine {
                Some(e) => Some(e.model()),
                None => None,
            },
            tls: self.transport.model(),
            cfg: self.cfg@,
        }
    }
}

fn new_h1<H: Handler>(cfg: &SessionConfig<H>) -> (r: H1Conn)
    ensures
        r.wf(),
        r@ == h1_fresh(cfg@),
{
    let mut c = H1Conn::new(cfg.limits);
    c.set_server_name(opt_owned(&cfg.server_name));
    c
}

impl<H: Handler> Session<H> {
    /// The engine, if chosen, is in order.
    pub closed spec fn wf(&self) -> bool {
        self.engine matches Some(e) ==> e.wf()
    }

    /// Create a plaintext (HTTP/1.x) session.
    pub fn plain(cfg: SessionConfig<H>) -> (r: Session<H>)
        ensures
            r.wf(),
            r@ == (SessionModel {
                engine: Some(EngineModel::H1(h1_fresh(cfg@))),
                tls: None,
                cfg: cfg@,
            }),
    {
        let engine = Engine::H1(new_h1(&cfg));
        Session { engine: Some(engine), transport: Transport::Plain, cfg }
    }

    /// Create a TLS (HTTPS) session wrapping an accepted [`TlsStream`]. The
    /// protocol (HTTP/1.1 or HTTP/2) is chosen once ALPN is known.
    pub fn tls(cfg: SessionConfig<H>, stream: TlsStream) -> (r: Session<H>)
        ensures
            r.wf(),
            r@ == (SessionModel { engine: None, tls: Some(stream@), cfg: cfg@ }),
    {
        Session { engine: None, transport: Transport::Tls(Box::new(stream)), cfg }
    }

    /// Choose the engine once the handshake exposes the ALPN protocol.
    fn select_engine(&mut self)
        requires
            old(self).wf(),
        ensures
            final(self).wf(),
            final(self)@ == selected(old(self)@),
    {
        if self.engine.is_some() || self.transport.handshaking() {
            return;
        }
        if self.transport.speaks_h2() {
            let c = H2Conn::new(self.cfg.limits, opt_owned(&self.cfg.server_name));
            self.engine = Some(Engine::H2(Box::new(c)));
        } else {
            self.engine = Some(Engine::H1(new_h1(&self.cfg)));
        }
    }

    /// Take in decrypted bytes: select the protocol if that is still to be done,
    /// parse requests, run the handler, and queue responses. `now` is the Unix
    /// time that responses are dated.
    pub fn received_plaintext(&mut self, plaintext: &[u8], now: u64)
        requires
            old(self).wf(),
        ensures
            final(self).wf(),
            took_in(old(self)@, plaintext@, now as int, final(self)@),
    {
        self.select_engine();
        if plaintext.len() == 0 {
            return;
        }
        let ghost s1 = self@;
        let secure: bool = match &self.transport {
            Transport::Plain => false,
            Transport::Tls(_) => true,
        };
        match self.engine.take() {
            None => {},
            Some(Engine::H1(mut c)) => {
                c.feed(plaintext);
                let ghost fed = c@;
                let answering = Answering { cfg: &self.cfg, secure };
                let ghost may = answering.may();
                serve_h1(&mut c, &answering, now);
                proof {
                    let replies = choose|replies: Seq<ResponseModel>|
                        #[trigger] h1_served(fed, replies, may, now as int) == Some(c@);
                    assert(engine_served(
                        s1.engine->0,
                        plaintext@,
                        replies,
                        self.cfg@,
                        secure,
                        now as int,
                    ) == Some(EngineModel::H1(c@)));
                }
                self.engine = Some(Engine::H1(c));
            },
            Some(Engine::H2(mut c)) => {
                c.received(plaintext);
                let ghost fed = c@;
                let answering = Answering { cfg: &self.cfg, secure };
                let ghost may = answering.may();
                serve_h2(&mut *c, &answering);
                proof {
                    let replies = choose|replies: Seq<ResponseModel>|
                        #[trigger] h2_served(fed, replies, may) == Some(c@);
                    assert(engine_served(
                        s1.engine->0,
                        plaintext@,
                        replies,
                        self.cfg@,
                        secure,
                        now as int,
                    ) == Some(EngineModel::H2(c@)));
                }
                self.engine = Some(Engine::H2(c));
            },
        }
    }

    /// Feed bytes received from the socket: decrypt, (lazily) select the
    /// protocol, parse requests, run the handler, and queue responses. What
    /// plaintext comes of them under TLS is the TLS engine's.
    pub fn received(&mut self, wire_in: &[u8], now: u64) -> (r: Result<()>)
        requires
            old(self).wf(),
        ensures
            final(self).wf(),
            self::wire_in(old(self)@, wire_in@, now as int, r is Ok, final(self)@),
            final(self)@.secure() == old(self)@.secure(),
            r matches Err(e) ==> e@ is Tls,
    {
        let plaintext = match self.transport.decrypt(wire_in) {
            Ok(p) => p,
            Err(e) => {
                return Err(e);
            },
        };
        let ghost mid = self@;
        self.received_plaintext(plaintext.as_slice(), now);
        proof {
            match old(self)@.tls {
                None => {
                    assert(mid == old(self)@);
                },
                Some(tls) => {
                    let stream = choose|stream: StreamModel|
                        only_fed(tls, wire_in@, stream) && plaintext@ == stream.received && mid.tls
                            == Some(#[trigger] emptied(stream));
                    assert(decrypted_in(old(self)@, stream, now as int, self@));
                },
            }
        }
        Ok(())
    }

    /// Produce the bytes to write to the socket: TLS handshake records and/or
    /// (encrypted) response data. May be empty.
    pub fn to_send(&mut self) -> (r: Result<Vec<u8>>)
        requires
            old(self).wf(),
        ensures
            final(self).wf(),
            wire_out(
                drained(old(self)@),
                engine_output(old(self)@.engine),
                result_bytes(r),
                final(self)@,
            ),
            r matches Err(e) ==> e@ is Tls,
    {
        let app: Vec<u8> = match self.engine.take() {
            Some(Engine::H1(mut c)) => {
                let out = c.take_out();
                self.engine = Some(Engine::H1(c));
                out
            },
            Some(Engine::H2(mut c)) => {
                let out = c.take_out();
                self.engine = Some(Engine::H2(c));
                out
            },
            None => Vec::new(),
        };
        self.transport.encrypt(app.as_slice())
    }

    /// The file read that sending goes on with, once everything ready was sent.
    pub fn wanted_read(&self) -> (r: Option<FileRead>)
        requires
            self.wf(),
        ensures
            r == engine_wanted(self@.engine),
    {
        match &self.engine {
            Some(Engine::H1(c)) => c.wanted_read(),
            Some(Engine::H2(c)) => match c.wanted_read() {
                Some(q) => Some(q.read),
                None => None,
            },
            None => None,
        }
    }

    /// Hand in what the wanted read yielded (`None` when it failed) and get the
    /// bytes to write to the socket.
    pub fn read_done(&mut self, data: Option<Vec<u8>>) -> (r: Result<Vec<u8>>)
        requires
            old(self).wf(),
            engine_wanted(old(self)@.engine) is Some,
            data matches Some(d) ==> d@.len() <= engine_wanted(old(self)@.engine)->0.len,
        ensures
            final(self).wf(),
            wire_out(
                read_in(old(self)@, opt_bytes(data)),
                engine_read(old(self)@.engine->0, opt_bytes(data)).1,
                result_bytes(r),
                final(self)@,
            ),
            r matches Err(e) ==> e@ is Tls,
    {
        let app: Vec<u8> = match self.engine.take() {
            Some(Engine::H1(mut c)) => {
                let out = c.read_done(data);
                self.engine = Some(Engine::H1(c));
                out
            },
            Some(Engine::H2(mut c)) => {
                c.read_done(data);
                c.pump_out();
                let out = c.take_out();
                self.engine = Some(Engine::H2(c));
                out
            },
            None => Vec::new(),
        };
        self.transport.encrypt(app.as_slice())
    }

    /// Whether the engine has output still to be taken: queued bytes, or a file
    /// body that has not reached its end.
    pub fn has_output(&self) -> (r: bool)
        requires
            self.wf(),
        ensures
            r == outputs(self@.engine),
    {
        match &self.engine {
            Some(Engine::H1(c)) => c.has_output(),
            Some(Engine::H2(c)) => c.has_output() || c.wanted_read().is_some(),
            None => false,
        }
    }

    /// Whether the connection should be closed once pending output is written.
    pub fn wants_close(&self) -> (r: bool)
        ensures
            r == match self@.engine {
                Some(EngineModel::H1(c)) => c.closed,
                Some(EngineModel::H2(m)) => m.closed,
                None => false,
            },
    {
        match &self.engine {
            Some(Engine::H1(c)) => c.wants_close(),
            Some(Engine::H2(c)) => c.wants_close(),
            None => false,
        }
    }

    /// Whether the session is still completing the TLS handshake.
    pub fn handshaking(&self) -> (r: bool)
        ensures
            r == self@.in_handshake(),
    {
        self.transport.handshaking()
    }
}

// ---------------------------------------------------------------------------
// Laws
// ---------------------------------------------------------------------------

/// The security header is never sent over plain HTTP, nor when it is not
/// configured.
pub proof fn law_hsts_only_when_secure(
    req: RequestModel,
    resp: ResponseModel,
    cfg: ConfigModel,
    secure: bool,
)
    ensures
        !secure || cfg.hsts is None ==> dressed(req, resp, cfg, secure).headers == compressed(
            req,
            resp,
            cfg.compression,
        ).headers,
{
}

/// HTTP/2 is spoken only where the client negotiated it, and a plain connection
/// speaks HTTP/1.
pub proof fn law_h2_is_negotiated(cfg: ConfigModel, tls: Option<StreamModel>)
    ensures
        engine_for(cfg, tls) is H2 <==> (tls matches Some(t) && t.alpn == Some(encode_utf8("h2"@))),
        tls is None ==> engine_for(cfg, tls) is H1,
{
}

/// A session's protocol, once chosen, never changes.
pub proof fn law_protocol_is_chosen_once(s: SessionModel, plaintext: Seq<u8>, now: int, t: SessionModel)
    requires
        took_in(s, plaintext, now, t),
        s.engine is Some,
    ensures
        t.engine is Some,
        s.engine->0 is H1 <==> t.engine->0 is H1,
{
}

/// Nothing is parsed before the handshake is complete.
pub proof fn law_handshake_comes_first(s: SessionModel, plaintext: Seq<u8>, now: int, t: SessionModel)
    requires
        took_in(s, plaintext, now, t),
        s.engine is None,
        s.in_handshake(),
    ensures
        t == s,
{
}

/// Under TLS, everything that the connection decrypts is taken in, once and in
/// order: what was taken grows by just the plaintext that the session takes in, and
/// nothing is left waiting.
pub proof fn law_everything_decrypted_is_taken_in(
    s: SessionModel,
    wire: Seq<u8>,
    now: int,
    t: SessionModel,
)
    requires
        s.tls is Some,
        wire_in(s, wire, now, true, t),
    ensures
        exists|plaintext: Seq<u8>, tls: StreamModel|
            {
                &&& #[trigger] took_in(SessionModel { tls: Some(tls), ..s }, plaintext, now, t)
                &&& tls.taken == s.tls->0.taken + plaintext
                &&& tls.received.len() == 0
                &&& t.tls == Some(tls)
                &&& tls.fed == s.tls->0.fed + wire
            },
{
    let stream = choose|stream: StreamModel|
        only_fed(s.tls->0, wire, stream) && #[trigger] decrypted_in(s, stream, now, t);
    assert(took_in(
        SessionModel { tls: Some(emptied(stream)), ..s },
        stream.received,
        now,
        t,
    ));
}

/// Under TLS, all that the connection encrypts goes to the wire, once and in order:
/// what was taken of its ciphertext grows by just the bytes for the wire, and
/// nothing is left waiting.
pub proof fn law_everything_encrypted_goes_out(
    s: SessionModel,
    app: Seq<u8>,
    wire: Seq<u8>,
    t: SessionModel,
)
    requires
        s.tls is Some,
        wire_out(s, app, Some(wire), t),
    ensures
        t.tls is Some,
        t.tls->0.sent == s.tls->0.sent + app,
        t.tls->0.popped == s.tls->0.popped + wire,
        t.tls->0.outgoing.len() == 0,
{
}

/// A connection is served with the same certificate, key and protocols to its end.
pub proof fn law_identity_is_kept(
    s: SessionModel,
    wire: Seq<u8>,
    now: int,
    ok: bool,
    app: Seq<u8>,
    out: Option<Seq<u8>>,
    t: SessionModel,
)
    requires
        s.tls is Some,
        wire_in(s, wire, now, ok, t) || wire_out(s, app, out, t),
    ensures
        t.tls is Some,
        t.tls->0.identity == s.tls->0.identity,
{
}

/// Over a secure connection the configured security header goes out, unless the
/// handler set one; status and body are those of the compressed response.
pub proof fn law_hsts_goes_out(
    req: RequestModel,
    resp: ResponseModel,
    cfg: ConfigModel,
    value: Seq<char>,
)
    requires
        cfg.hsts == Some(value),
    ensures
        ({
            let r = compressed(req, resp, cfg.compression);
            let d = dressed(req, resp, cfg, true);
            &&& lookup(d.headers, "Strict-Transport-Security"@) == if lookup(
                r.headers,
                "Strict-Transport-Security"@,
            ) is Some {
                lookup(r.headers, "Strict-Transport-Security"@)
            } else {
                Some(value)
            }
            &&& d.status == r.status
            &&& d.body == r.body
        }),
{
    law_default_keeps_value(
        compressed(req, resp, cfg.compression).headers,
        "Strict-Transport-Security"@,
        value,
    );
}

} // verus!
