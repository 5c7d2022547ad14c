//! Putting a server together from the command line, and starting it.
use crate::cli::{Options, OptionsModel};
use crate::compress;
use crate::config::{
    setup_result, NameSetting, NameSettingModel, Setup, SetupModel, TlsSource, TlsSourceModel,
};
use crate::error::{Error, ErrorModel, Result};
use crate::handler::Handler;
use crate::rt::server::{Server, ServerModel};
use crate::text::{opt_owned, owned, texts};
use crate::tls::TlsAcceptor;
use vstd::prelude::*;

verus! {

broadcast use vstd::seq::group_seq_axioms;

/// The certificate source that the options name: files, or else a self-signed
/// certificate.
pub open spec fn chosen_source(o: OptionsModel) -> core::result::Result<
    Option<TlsSourceModel>,
    ErrorModel,
> {
    match (o.tls_cert, o.tls_key) {
        (Some(cert), Some(key)) => Ok(Some(TlsSourceModel::Files { cert, key })),
        (None, None) => Ok(
            match o.self_signed {
                Some(host) => Some(TlsSourceModel::SelfSigned(seq![host])),
                None => None,
            },
        ),
        _ => Err(ErrorModel::Config("--tls-cert requires --tls-key"@)),
    }
}

/// The setup that the options describe.
pub open spec fn options_setup(o: OptionsModel) -> core::result::Result<SetupModel, ErrorModel> {
    match chosen_source(o) {
        Err(e) => Err(e),
        Ok(tls) => Ok(
            SetupModel {
                listen: o.listen,
                root: Some(o.dir),
                workers: o.workers,
                server_name: if o.no_server_header {
                    NameSettingModel::Named(None)
                } else {
                    match o.server_name {
                        Some(n) => NameSettingModel::Named(Some(n)),
                        None => NameSettingModel::Default,
                    }
                },
                tls,
                compression: compress::Options { enabled: !o.no_compress, min_size: 256 },
                max_conns_per_ip: o.max_conns_per_ip,
                hsts: o.hsts_value(),
                allow_http: o.allow_http,
                http_listen: o.http_listen,
                alt_svc: o.alt_svc(),
            },
        ),
    }
}

impl Options {
    /// How to set up the server that these options describe.
    pub fn build_server(&self) -> (r: Result<Setup>)
        ensures
            setup_result(r) == options_setup(self@),
    {
        let tls = match self.tls_files() {
            Ok(Some((cert, key))) => Some(TlsSource::Files { cert: owned(cert), key: owned(key) }),
            Ok(None) => match &self.self_signed {
                Some(host) => {
                    let mut names: Vec<String> = Vec::new();
                    names.push(owned(host.as_str()));
                    proof {
                        assert(texts(names@) =~= seq![host@]);
                    }
                    Some(TlsSource::SelfSigned(names))
                },
                None => None,
            },
            Err(e) => {
                return Err(e);
            },
        };
        let server_name = if self.no_server_header {
            NameSetting::Named(None)
        } else {
            match &self.server_name {
                Some(n) => NameSetting::Named(Some(owned(n.as_str()))),
                None => NameSetting::Default,
            }
        };
        Ok(
            Setup {
                listen: owned(self.listen.as_str()),
                root: Some(owned(self.dir.as_str())),
                workers: self.workers,
                server_name,
                tls,
                compression: compress::Options { enabled: !self.no_compress, min_size: 256 },
                max_conns_per_ip: self.max_conns_per_ip,
                hsts: self.hsts_value(),
                allow_http: self.allow_http,
                http_listen: opt_owned(&self.http_listen),
                alt_svc: self.alt_svc(),
            },
        )
    }
}

/// A server with the settings of a setup.
pub open spec fn configured(
    m: ServerModel,
    s: SetupModel,
    acceptor: Option<crate::tls::AcceptorModel>,
    http_addrs: Option<Seq<Seq<char>>>,
    acme: bool,
) -> ServerModel {
    ServerModel {
        workers: match s.workers {
            Some(w) => if w < 1 {
                1
            } else {
                w
            },
            None => m.workers,
        },
        max_conns_per_ip: match s.max_conns_per_ip {
            Some(n) => n,
            None => m.max_conns_per_ip,
        },
        server_name: match s.server_name {
            NameSettingModel::Named(n) => n,
            NameSettingModel::Default => m.server_name,
        },
        tls: match acceptor {
            Some(a) => Some(a),
            None => m.tls,
        },
        compression: s.compression,
        hsts: match s.hsts {
            Some(v) => Some(v),
            None => m.hsts,
        },
        allow_http: s.allow_http || m.allow_http,
        http_addrs: match http_addrs {
            Some(a) => a,
            None => m.http_addrs,
        },
        acme: acme || m.acme,
        ..m
    }
}

/// Apply a setup to a server, with what was built and resolved for it.
pub fn configure<H: Handler>(
    server: Server<H>,
    setup: &Setup,
    acceptor: Option<TlsAcceptor>,
    http_addrs: Option<Vec<String>>,
    acme: bool,
) -> (r: Server<H>)
    ensures
        r.serves_with() == server.serves_with(),
        r@ == configured(
            server@,
            setup@,
            match acceptor {
                Some(a) => Some(a@),
                None => None,
            },
            match http_addrs {
                Some(a) => Some(texts(a@)),
                None => None,
            },
            acme,
        ),
{
    let mut s = server.compression(setup.compression);
    if let Some(w) = setup.workers {
        s = s.workers(w);
    }
    if let Some(n) = setup.max_conns_per_ip {
        s = s.max_conns_per_ip(n);
    }
    if let NameSetting::Named(n) = &setup.server_name {
        s = s.server_name(opt_owned(n));
    }
    if let Some(a) = acceptor {
        s = s.tls(a);
    }
    if let Some(v) = &setup.hsts {
        s = s.hsts(Some(owned(v.as_str())));
    }
    if setup.allow_http {
        s = s.allow_http(true);
    }
    if let Some(a) = http_addrs {
        s = s.http_redirect(a);
    }
    if acme {
        s = s.acme();
    }
    s
}

// ---------------------------------------------------------------------------
// Waiting for listeners
// ---------------------------------------------------------------------------

/// What a wait for listeners came to.
#[derive(Debug, Clone, Copy, PartialEq, Eq, Structural)]
pub enum BindEvent {
    /// A listener reported that it is bound.
    Bound,
    /// Nothing happened for a while.
    Timeout,
    /// Nobody is left to report.
    Disconnected,
}

/// What to do next.
#[derive(Debug, Clone, Copy, PartialEq, Eq, Structural)]
pub enum BindWait {
    Wait,
    /// Every listener is bound: privileges may be dropped.
    Ready,
    /// A listener exited before binding: privileges must not be dropped.
    GiveUp,
}

/// The wait until every listener has reported that it is bound. A healthy server
/// thread serves forever once bound, so a thread that *finishes* early must have
/// failed before binding.
#[derive(Debug, Clone, Copy, PartialEq, Eq, Structural)]
pub struct Readiness {
    pub expected: usize,
    pub bound: usize,
}

/// The wait after an event.
pub open spec fn awaited(w: Readiness, event: BindEvent, any_finished: bool) -> (Readiness, BindWait) {
    let bound = if event is Bound && w.bound < w.expected {
        (w.bound + 1) as usize
    } else {
        w.bound
    };
    (
        Readiness { bound, ..w },
        if bound >= w.expected {
            BindWait::Ready
        } else if event is Disconnected || any_finished {
            BindWait::GiveUp
        } else {
            BindWait::Wait
        },
    )
}

impl Readiness {
    /// Wait for so many listeners.
    pub fn new(expected: usize) -> (r: Readiness)
        ensures
            r == (Readiness { expected, bound: 0 }),
    {
        Readiness { expected, bound: 0 }
    }

    /// Take note of an event; `any_finished` says whether any server thread has
    /// ended.
    pub fn on(&mut self, event: BindEvent, any_finished: bool) -> (r: BindWait)
        ensures
            (*final(self), r) == awaited(*old(self), event, any_finished),
    {
        if event == BindEvent::Bound && self.bound < self.expected {
            self.bound = self.bound + 1;
        }
        if self.bound >= self.expected {
            BindWait::Ready
        } else if event == BindEvent::Disconnected || any_finished {
            BindWait::GiveUp
        } else {
            BindWait::Wait
        }
    }
}

/// How many listeners report: the TCP one, and the UDP one where HTTP/3 is
/// served.
pub fn expected_listeners(http3: bool) -> (r: usize)
    ensures
        r == if http3 {
            2usize
        } else {
            1usize
        },
{
    if http3 {
        2
    } else {
        1
    }
}

/// How a server thread ended.
#[derive(Debug)]
pub enum ThreadEnd {
    Finished,
    Failed(Error),
    Panicked,
}

/// The error of a server thread.
pub open spec fn end_error(e: ThreadEnd) -> Option<ErrorModel> {
    match e {
        ThreadEnd::Finished => None,
        ThreadEnd::Failed(e) => Some(e@),
        ThreadEnd::Panicked => Some(ErrorModel::Config("a server thread panicked"@)),
    }
}

/// The first error among the ends of server threads.
pub open spec fn first_error(ends: Seq<ThreadEnd>) -> Option<ErrorModel>
    decreases ends.len(),
{
    if ends.len() == 0 {
        None
    } else {
        match end_error(ends[0]) {
            Some(e) => Some(e),
            None => first_error(ends.skip(1)),
        }
    }
}

/// What all server threads together came to: the first error encountered.
pub fn join_all(ends: Vec<ThreadEnd>) -> (r: Result<()>)
    ensures
        match r {
            Ok(_) => first_error(ends@) is None,
            Err(e) => first_error(ends@) == Some(e@),
        },
{
    let ghost all = ends@;
    let mut ends = ends;
    let mut first: Option<Error> = None;
    proof {
        assert(all.skip(all.len() as int) =~= Seq::empty());
        assert(all.take(all.len() as int) =~= all);
    }
    while ends.len() > 0
        invariant
            ends@.len() <= all.len(),
            ends@ == all.take(ends@.len() as int),
            match first {
                Some(e) => first_error(all.skip(ends@.len() as int)) == Some(e@),
                None => first_error(all.skip(ends@.len() as int)) is None,
            },
        decreases ends.len(),
    {
        let ghost n = ends@.len() as int;
        proof {
            assert(all.skip(n - 1)[0] == all[n - 1]);
            assert(all.skip(n - 1).skip(1) =~= all.skip(n));
        }
        match ends.pop() {
            Some(ThreadEnd::Failed(e)) => {
                first = Some(e);
            },
            Some(ThreadEnd::Panicked) => {
                first = Some(Error::Config(owned("a server thread panicked")));
            },
            _ => {},
        }
        proof {
            assert(ends@ =~= all.take(n - 1));
        }
    }
    proof {
        assert(all.skip(0) =~= all);
    }
    match first {
        Some(e) => Err(e),
        None => Ok(()),
    }
}

/// The error that a failed start reports, given the ends of the threads that
/// have ended: the last error among them.
pub open spec fn last_error(ends: Seq<ThreadEnd>) -> ErrorModel
    decreases ends.len(),
{
    if ends.len() == 0 {
        ErrorModel::Config("a listener exited before binding; refusing to drop privileges"@)
    } else {
        match ends.last() {
            ThreadEnd::Failed(e) => e@,
            _ => last_error(ends.drop_last()),
        }
    }
}

/// The error that a failed start reports.
pub fn start_error(ends: Vec<ThreadEnd>) -> (r: Error)
    ensures
        r@ == last_error(ends@),
{
    let ghost all = ends@;
    let mut ends = ends;
    let mut found: Option<Error> = None;
    while ends.len() > 0 && found.is_none()
        invariant
            match found {
                Some(e) => e@ == last_error(all),
                None => last_error(ends@) == last_error(all),
            },
        decreases ends.len(),
    {
        let ghost before = ends@;
        if let Some(ThreadEnd::Failed(e)) = ends.pop() {
            found = Some(e);
        }
        proof {
            assert(ends@ =~= before.drop_last());
        }
    }
    match found {
        Some(e) => e,
        None => Error::Config(
            owned("a listener exited before binding; refusing to drop privileges"),
        ),
    }
}

// ---------------------------------------------------------------------------
// Laws
// ---------------------------------------------------------------------------

/// Privileges are dropped only once every listener is bound.
pub proof fn law_drop_waits_for_every_listener(w: Readiness, event: BindEvent, any_finished: bool)
    requires
        w.bound <= w.expected,
    ensures
        awaited(w, event, any_finished).1 is Ready <==> awaited(w, event, any_finished).0.bound
            == w.expected,
        awaited(w, event, any_finished).0.bound <= w.expected,
{
}

/// Certificate and key files come together and win over a self-signed certificate;
/// one without the other is refused.
pub proof fn law_certificate_source(o: OptionsModel, cert: Seq<char>, key: Seq<char>, host: Seq<char>)
    ensures
        o.tls_cert == Some(cert) && o.tls_key == Some(key) ==> chosen_source(o) == Ok::<
            Option<TlsSourceModel>,
            ErrorModel,
        >(Some(TlsSourceModel::Files { cert, key })),
        o.tls_cert is None && o.tls_key is None && o.self_signed == Some(host) ==> chosen_source(o)
            == Ok::<Option<TlsSourceModel>, ErrorModel>(
            Some(TlsSourceModel::SelfSigned(seq![host])),
        ),
        o.tls_cert is None && o.tls_key is None && o.self_signed is None ==> chosen_source(o)
            == Ok::<Option<TlsSourceModel>, ErrorModel>(None),
        (o.tls_cert is Some) != (o.tls_key is Some) ==> chosen_source(o) is Err && options_setup(
            o,
        ) is Err,
{
}

/// A server is set up as its options say.
pub proof fn law_options_take_effect(o: OptionsModel, name: Seq<char>)
    requires
        chosen_source(o) is Ok,
    ensures
        options_setup(o) matches Ok(s) && {
            &&& s.listen == o.listen
            &&& s.root == Some(o.dir)
            &&& s.workers == o.workers
            &&& s.max_conns_per_ip == o.max_conns_per_ip
            &&& s.compression.enabled != o.no_compress
            &&& s.compression.min_size == 256
            &&& s.allow_http == o.allow_http
            &&& s.http_listen == o.http_listen
            &&& o.no_server_header ==> s.server_name == NameSettingModel::Named(None)
            &&& !o.no_server_header && o.server_name == Some(name) ==> s.server_name
                == NameSettingModel::Named(Some(name))
            &&& !o.no_server_header && o.server_name is None ==> s.server_name
                == NameSettingModel::Default
            &&& s.hsts == o.hsts_value()
            &&& s.alt_svc == o.alt_svc()
        },
{
}

/// The first thread that did not end well says what went wrong with the server, and a
/// failed start is explained by the last error.
pub proof fn law_thread_errors(a: Seq<ThreadEnd>, e: ThreadEnd, b: Seq<ThreadEnd>, err: Error)
    requires
        forall|i: int| 0 <= i < a.len() ==> #[trigger] a[i] == ThreadEnd::Finished,
        e == ThreadEnd::Failed(err),
        forall|i: int| 0 <= i < b.len() ==> !(#[trigger] b[i] is Failed),
    ensures
        first_error(a) is None,
        first_error(a + seq![e] + b) == Some(err@),
        last_error(b + seq![e] + a) == err@,
        last_error(a + seq![e] + b) == err@,
    decreases a.len() + b.len(),
{
    lemma_first_error(a, e, b);
    lemma_last_error(a, e, b);
    assert forall|i: int| 0 <= i < a.len() implies !(#[trigger] a[i] is Failed) by {}
    lemma_last_error(b, e, a);
}

proof fn lemma_first_error(a: Seq<ThreadEnd>, e: ThreadEnd, b: Seq<ThreadEnd>)
    requires
        forall|i: int| 0 <= i < a.len() ==> #[trigger] a[i] == ThreadEnd::Finished,
        e is Failed,
    ensures
        first_error(a) is None,
        first_error(a + seq![e] + b) == end_error(e),
    decreases a.len(),
{
    let all = a + seq![e] + b;
    if a.len() > 0 {
        let rest = a.skip(1);
        assert forall|i: int| 0 <= i < rest.len() implies #[trigger] rest[i]
            == ThreadEnd::Finished by {
            assert(rest[i] == a[i + 1]);
        }
        lemma_first_error(rest, e, b);
        assert(all[0] == a[0]);
        assert(all.skip(1) =~= rest + seq![e] + b);
    } else {
        assert(all[0] == e);
    }
}

proof fn lemma_last_error(a: Seq<ThreadEnd>, e: ThreadEnd, b: Seq<ThreadEnd>)
    requires
        forall|i: int| 0 <= i < b.len() ==> !(#[trigger] b[i] is Failed),
        e is Failed,
    ensures
        last_error(a + seq![e] + b) == end_error(e)->0,
    decreases b.len(),
{
    let all = a + seq![e] + b;
    if b.len() > 0 {
        let rest = b.drop_last();
        assert forall|i: int| 0 <= i < rest.len() implies !(#[trigger] rest[i] is Failed) by {
            assert(rest[i] == b[i]);
        }
        lemma_last_error(a, e, rest);
        assert(all.last() == b[b.len() - 1]);
        assert(all.drop_last() =~= a + seq![e] + rest);
    } else {
        assert(all.last() == e);
    }
}

} // verus!
