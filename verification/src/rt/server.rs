//! The server builder that all runtimes share.
use crate::compress;
use crate::error::{Error, ErrorModel, Result};
use crate::handler::Handler;
use crate::proto::conn::{Limits, DEFAULT_SERVER_NAME};
use crate::proto::request::Request;
use crate::proto::response::{status_response, Response};
use crate::proto::status::{standard, StatusCode};
use crate::rt::redirect::HttpCtx;
use crate::session::SessionConfig;
use crate::text::{opt_owned, opt_text, owned, texts};
use crate::tls::{AcceptorModel, TlsAcceptor};
use std::sync::Arc;
use vstd::prelude::*;

verus! {

broadcast use vstd::seq::group_seq_axioms;

/// The handler used when none is configured: replies `404` to everything.
#[derive(Debug)]
pub struct NotFound;

impl Handler for NotFound {
    fn handle(&self, _req: &Request) -> (r: Response)
        ensures
            r@ == status_response(standard(404)),
    {
        Response::status(StatusCode::not_found())
    }
}

/// How the main listener terminates TLS.
pub enum TlsMode {
    /// Plain HTTP, no TLS.
    Plain,
    /// A single static certificate.
    Static(TlsAcceptor),
    /// Per-connection certificates via ACME (SNI-routed).
    Acme,
}

/// The number of workers when none was asked for: as many as can run at once,
/// where that is known.
pub fn default_workers(available: Option<usize>) -> (r: usize)
    ensures
        r == match available {
            Some(n) => n,
            None => 4,
        },
{
    match available {
        Some(n) => n,
        None => 4,
    }
}

/// A configured HTTP(S) server, ready to run.
///
/// Build it with [`Server::bind`], attach a [`Handler`], optionally enable TLS,
/// then take its [`plan`](Server::plan).
pub struct Server<H: Handler> {
    addrs: Vec<String>,
    handler: Arc<H>,
    server_name: Option<String>,
    workers: usize,
    tls: Option<TlsAcceptor>,
    compression: compress::Options,
    allow_http: bool,
    http_addrs: Vec<String>,
    acme: bool,
    hsts: Option<String>,
    max_conns_per_ip: u32,
}

/// The model of a server.
#[verifier::ext_equal]
pub struct ServerModel {
    /// Resolved listen addresses.
    pub addrs: Seq<Seq<char>>,
    pub server_name: Option<Seq<char>>,
    pub workers: usize,
    pub tls: Option<AcceptorModel>,
    pub compression: compress::Options,
    /// Serve content over plain HTTP instead of redirecting to HTTPS.
    pub allow_http: bool,
    /// Plain-HTTP listener addresses for redirects and ACME HTTP-01.
    pub http_addrs: Seq<Seq<char>>,
    /// Certificates come from ACME.
    pub acme: bool,
    pub hsts: Option<Seq<char>>,
    /// Concurrent connections per client address; 0 for no limit.
    pub max_conns_per_ip: u32,
}

impl<H: Handler> View for Server<H> {
    type V = ServerModel;

    closed spec fn view(&self) -> ServerModel {
        ServerModel {
            addrs: texts(self.addrs@),
            server_name: opt_text(self.server_name),
            workers: self.workers,
            tls: match self.tls {
                Some(a) => Some(a@),
                None => None,
            },
            compression: self.compression,
            allow_http: self.allow_http,
            http_addrs: texts(self.http_addrs@),
            acme: self.acme,
            hsts: opt_text(self.hsts),
            max_conns_per_ip: self.max_conns_per_ip,
        }
    }
}

/// A server as [`Server::bind`] leaves it.
pub open spec fn bound_server(addrs: Seq<Seq<char>>, available: Option<usize>) -> ServerModel {
    ServerModel {
        addrs,
        server_name: Some(DEFAULT_SERVER_NAME@),
        workers: match available {
            Some(n) => n,
            None => 4,
        },
        tls: None,
        compression: compress::Options { enabled: true, min_size: 256 },
        allow_http: false,
        http_addrs: Seq::empty(),
        acme: false,
        hsts: None,
        max_conns_per_ip: 0,
    }
}

/// What the main listener of a server needs.
pub struct ServerPlan<H: Handler> {
    /// Addresses to bind, the first that works.
    pub addrs: Vec<String>,
    pub cfg: SessionConfig<H>,
    pub tls: TlsMode,
    pub workers: usize,
    pub max_conns_per_ip: u32,
    /// The plain-HTTP listener, if there is to be one.
    pub http: Option<(Vec<String>, HttpCtx<H>)>,
}

/// The limits of every server.
pub open spec fn default_limits() -> Limits {
    Limits { max_header_bytes: 65536, max_body_bytes: 16777216 }
}

/// Whether a TLS mode is the one for a server: ACME takes precedence over a
/// static certificate.
pub open spec fn mode_for(m: ServerModel, mode: TlsMode) -> bool {
    if m.acme {
        mode is Acme
    } else {
        match m.tls {
            Some(a) => mode matches TlsMode::Static(x) && x@ == a,
            None => mode is Plain,
        }
    }
}

impl Server<NotFound> {
    /// Remember the listen addresses, as they were resolved. Does not bind yet.
    /// `available` is how many threads can run at once, where that is known.
    pub fn bind(addrs: Vec<String>, available: Option<usize>) -> (r: Result<Server<NotFound>>)
        ensures
            match r {
                Ok(s) => addrs@.len() > 0 && s@ == bound_server(texts(addrs@), available),
                Err(e) => addrs@.len() == 0 && e@ == ErrorModel::Config(
                    "no socket address resolved"@,
                ),
            },
    {
        if addrs.len() == 0 {
            return Err(Error::Config(owned("no socket address resolved")));
        }
        let s = Server {
            addrs,
            handler: Arc::new(NotFound),
            server_name: Some(owned(DEFAULT_SERVER_NAME)),
            workers: default_workers(available),
            tls: None,
            compression: compress::Options::default(),
            allow_http: false,
            http_addrs: Vec::new(),
            acme: false,
            hsts: None,
            max_conns_per_ip: 0,
        };
        proof {
            assert(s@.http_addrs =~= Seq::empty());
        }
        Ok(s)
    }
}

impl<H: Handler> Server<H> {
    /// The handler of the server.
    pub closed spec fn serves_with(self) -> H {
        *self.handler
    }

    /// Set the request handler.
    pub fn handler<G: Handler>(self, handler: G) -> (r: Server<G>)
        ensures
            r@ == self@,
            r.serves_with() == handler,
    {
        self.handler_arc(Arc::new(handler))
    }

    /// Set the request handler from an existing `Arc`.
    pub fn handler_arc<G: Handler>(self, handler: Arc<G>) -> (r: Server<G>)
        ensures
            r@ == self@,
            r.serves_with() == *handler,
    {
        Server {
            addrs: self.addrs,
            handler,
            server_name: self.server_name,
            workers: self.workers,
            tls: self.tls,
            compression: self.compression,
            allow_http: self.allow_http,
            http_addrs: self.http_addrs,
            acme: self.acme,
            hsts: self.hsts,
            max_conns_per_ip: self.max_conns_per_ip,
        }
    }

    /// Set the number of worker threads for the thread-pool runtime; at least one.
    pub fn workers(self, workers: usize) -> (r: Server<H>)
        ensures
            r@ == (ServerModel { workers: if workers < 1 {
                1
            } else {
                workers
            }, ..self@ }),
            r.serves_with() == self.serves_with(),
    {
        Server {
            addrs: self.addrs,
            handler: self.handler,
            server_name: self.server_name,
            workers: if workers < 1 {
                1
            } else {
                workers
            },
            tls: self.tls,
            compression: self.compression,
            allow_http: self.allow_http,
            http_addrs: self.http_addrs,
            acme: self.acme,
            hsts: self.hsts,
            max_conns_per_ip: self.max_conns_per_ip,
        }
    }

    /// Set the `Server` response header value (`None` to omit it).
    pub fn server_name(self, name: Option<String>) -> (r: Server<H>)
        ensures
            r@ == (ServerModel { server_name: opt_text(name), ..self@ }),
            r.serves_with() == self.serves_with(),
    {
        Server {
            addrs: self.addrs,
            handler: self.handler,
            server_name: name,
            workers: self.workers,
            tls: self.tls,
            compression: self.compression,
            allow_http: self.allow_http,
            http_addrs: self.http_addrs,
            acme: self.acme,
            hsts: self.hsts,
            max_conns_per_ip: self.max_conns_per_ip,
        }
    }

    /// Enable TLS with the given acceptor (turns the server into HTTPS).
    pub fn tls(self, acceptor: TlsAcceptor) -> (r: Server<H>)
        ensures
            r@ == (ServerModel { tls: Some(acceptor@), ..self@ }),
            r.serves_with() == self.serves_with(),
    {
        Server {
            addrs: self.addrs,
            handler: self.handler,
            server_name: self.server_name,
            workers: self.workers,
            tls: Some(acceptor),
            compression: self.compression,
            allow_http: self.allow_http,
            http_addrs: self.http_addrs,
            acme: self.acme,
            hsts: self.hsts,
            max_conns_per_ip: self.max_conns_per_ip,
        }
    }

    /// Configure response compression.
    pub fn compression(self, options: compress::Options) -> (r: Server<H>)
        ensures
            r@ == (ServerModel { compression: options, ..self@ }),
            r.serves_with() == self.serves_with(),
    {
        Server {
            addrs: self.addrs,
            handler: self.handler,
            server_name: self.server_name,
            workers: self.workers,
            tls: self.tls,
            compression: options,
            allow_http: self.allow_http,
            http_addrs: self.http_addrs,
            acme: self.acme,
            hsts: self.hsts,
            max_conns_per_ip: self.max_conns_per_ip,
        }
    }

    /// Serve content over plain HTTP instead of redirecting to HTTPS. Off by
    /// default — this server upgrades HTTP requests to HTTPS.
    pub fn allow_http(self, allow: bool) -> (r: Server<H>)
        ensures
            r@ == (ServerModel { allow_http: allow, ..self@ }),
            r.serves_with() == self.serves_with(),
    {
        Server {
            addrs: self.addrs,
            handler: self.handler,
            server_name: self.server_name,
            workers: self.workers,
            tls: self.tls,
            compression: self.compression,
            allow_http: allow,
            http_addrs: self.http_addrs,
            acme: self.acme,
            hsts: self.hsts,
            max_conns_per_ip: self.max_conns_per_ip,
        }
    }

    /// Also bind a plain-HTTP listener (e.g. port 80) on these resolved addresses,
    /// that redirects to HTTPS and serves ACME HTTP-01 challenges.
    pub fn http_redirect(self, addrs: Vec<String>) -> (r: Server<H>)
        ensures
            r@ == (ServerModel { http_addrs: texts(addrs@), ..self@ }),
            r.serves_with() == self.serves_with(),
    {
        Server {
            addrs: self.addrs,
            handler: self.handler,
            server_name: self.server_name,
            workers: self.workers,
            tls: self.tls,
            compression: self.compression,
            allow_http: self.allow_http,
            http_addrs: addrs,
            acme: self.acme,
            hsts: self.hsts,
            max_conns_per_ip: self.max_conns_per_ip,
        }
    }

    /// Enable automatic certificates via ACME, routed per-connection by SNI.
    /// Takes precedence over a static [`tls`](Server::tls) acceptor.
    pub fn acme(self) -> (r: Server<H>)
        ensures
            r@ == (ServerModel { acme: true, ..self@ }),
            r.serves_with() == self.serves_with(),
    {
        Server {
            addrs: self.addrs,
            handler: self.handler,
            server_name: self.server_name,
            workers: self.workers,
            tls: self.tls,
            compression: self.compression,
            allow_http: self.allow_http,
            http_addrs: self.http_addrs,
            acme: true,
            hsts: self.hsts,
            max_conns_per_ip: self.max_conns_per_ip,
        }
    }

    /// Set the `Strict-Transport-Security` header value for secure connections.
    pub fn hsts(self, value: Option<String>) -> (r: Server<H>)
        ensures
            r@ == (ServerModel { hsts: opt_text(value), ..self@ }),
            r.serves_with() == self.serves_with(),
    {
        Server {
            addrs: self.addrs,
            handler: self.handler,
            server_name: self.server_name,
            workers: self.workers,
            tls: self.tls,
            compression: self.compression,
            allow_http: self.allow_http,
            http_addrs: self.http_addrs,
            acme: self.acme,
            hsts: value,
            max_conns_per_ip: self.max_conns_per_ip,
        }
    }

    /// Cap concurrent connections per client address; 0 for no limit.
    pub fn max_conns_per_ip(self, max: u32) -> (r: Server<H>)
        ensures
            r@ == (ServerModel { max_conns_per_ip: max, ..self@ }),
            r.serves_with() == self.serves_with(),
    {
        Server {
            addrs: self.addrs,
            handler: self.handler,
            server_name: self.server_name,
            workers: self.workers,
            tls: self.tls,
            compression: self.compression,
            allow_http: self.allow_http,
            http_addrs: self.http_addrs,
            acme: self.acme,
            hsts: self.hsts,
            max_conns_per_ip: max,
        }
    }

    /// Build the shared session configuration.
    pub fn session_config(&self) -> (r: SessionConfig<H>)
        ensures
            *r.handler == self.serves_with(),
            r.limits == default_limits(),
            r@.server_name == self@.server_name,
            r@.hsts == self@.hsts,
            r.compression == self@.compression,
    {
        SessionConfig {
            handler: self.handler.clone(),
            limits: Limits::default(),
            server_name: opt_owned(&self.server_name),
            hsts: opt_owned(&self.hsts),
            compression: self.compression,
        }
    }

    /// Build the context for the plain-HTTP listener.
    pub fn http_ctx(&self) -> (r: HttpCtx<H>)
        ensures
            r.allow_http == self@.allow_http,
            opt_text(r.server_name) == self@.server_name,
            r.limits == default_limits(),
            r.compression == self@.compression,
            match r.content {
                Some(h) => self@.allow_http && *h == self.serves_with(),
                None => !self@.allow_http,
            },
    {
        HttpCtx {
            allow_http: self.allow_http,
            server_name: opt_owned(&self.server_name),
            limits: Limits::default(),
            content: if self.allow_http {
                Some(self.handler.clone())
            } else {
                None
            },
            compression: self.compression,
        }
    }

    /// Say what to run: the main listener, and the plain-HTTP one if its
    /// addresses are set.
    pub fn plan(self) -> (r: ServerPlan<H>)
        ensures
            texts(r.addrs@) == self@.addrs,
            *r.cfg.handler == self.serves_with(),
            r.cfg.limits == default_limits(),
            r.cfg@.server_name == self@.server_name,
            r.cfg@.hsts == self@.hsts,
            r.cfg.compression == self@.compression,
            mode_for(self@, r.tls),
            r.workers == self@.workers,
            r.max_conns_per_ip == self@.max_conns_per_ip,
            match r.http {
                Some((addrs, ctx)) => texts(addrs@) == self@.http_addrs && addrs@.len() > 0
                    && ctx.allow_http == self@.allow_http && opt_text(ctx.server_name)
                    == self@.server_name && ctx.compression == self@.compression && ctx.limits
                    == default_limits() && (ctx.content matches Some(h) ==> *h
                    == self.serves_with()) && (ctx.content is Some <==> self@.allow_http),
                None => self@.http_addrs.len() == 0,
            },
    {
        let cfg = self.session_config();
        let ctx = self.http_ctx();
        let Server { addrs, workers, tls, http_addrs, acme, max_conns_per_ip, .. } = self;
        let mode = if acme {
            TlsMode::Acme
        } else {
            match tls {
                Some(a) => TlsMode::Static(a),
                None => TlsMode::Plain,
            }
        };
        let http = if http_addrs.len() > 0 {
            Some((http_addrs, ctx))
        } else {
            None
        };
        ServerPlan { addrs, cfg, tls: mode, workers, max_conns_per_ip, http }
    }

    /// Say what to run over QUIC, on the same addresses. HTTP/3 is always
    /// encrypted.
    pub fn h3_plan(self) -> (r: Result<ServerPlan<H>>)
        ensures
            match r {
                Ok(p) => (self@.acme || self@.tls is Some) && mode_for(self@, p.tls) && texts(
                    p.addrs@,
                ) == self@.addrs && *p.cfg.handler == self.serves_with() && p.cfg@.server_name
                    == self@.server_name && p.cfg@.hsts == self@.hsts && p.cfg.compression
                    == self@.compression && p.cfg.limits == default_limits(),
                Err(e) => !self@.acme && self@.tls is None && e@ == ErrorModel::Config(
                    "HTTP/3 requires TLS (set an acceptor via .tls())"@,
                ),
            },
    {
        if !self.acme && self.tls.is_none() {
            return Err(Error::Config(owned("HTTP/3 requires TLS (set an acceptor via .tls())")));
        }
        Ok(self.plan())
    }
}

// ---------------------------------------------------------------------------
// Laws
// ---------------------------------------------------------------------------

/// A server for which certificates are configured in any way never serves its
/// main listener in the clear.
pub proof fn law_certificates_mean_tls(m: ServerModel, mode: TlsMode)
    requires
        mode_for(m, mode),
        m.acme || m.tls is Some,
    ensures
        mode !is Plain,
{
}

} // verus!
