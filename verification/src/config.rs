//! Server configuration.
//!
//! A [`ServerConfig`] mirrors the configuration file that the command line
//! accepts:
//!
//! ```toml
//! listen = "0.0.0.0:8080"      # or ["127.0.0.1:8080", "[::1]:8080"]
//! root = "/var/www"            # document root for static file serving
//! server_name = "httpsd"
//! workers = 8
//!
//! [tls]
//! cert = "cert.pem"            # PEM chain (leaf first)
//! key = "key.pem"              # PEM private key
//! # self_signed = ["localhost"]  # alternatively, generate an ephemeral cert
//!
//! [compress]
//! enabled = true
//! min_size = 256
//! ```
use crate::compress;
use crate::error::{Error, ErrorModel, Result};
use crate::text::{opt_text, owned, texts};
use vstd::prelude::*;

verus! {

broadcast use vstd::seq::group_seq_axioms;

/// Either a single value or a list of them (used for `listen`).
#[derive(Debug)]
pub enum OneOrMany {
    One(String),
    Many(Vec<String>),
}

impl OneOrMany {
    /// The values as a list.
    pub open spec fn list(self) -> Seq<Seq<char>> {
        match self {
            OneOrMany::One(s) => seq![s@],
            OneOrMany::Many(v) => texts(v@),
        }
    }

    /// The values as a list.
    pub fn into_vec(self) -> (r: Vec<String>)
        ensures
            texts(r@) == self.list(),
    {
        let ghost l = self.list();
        match self {
            OneOrMany::One(s) => {
                let mut v: Vec<String> = Vec::new();
                v.push(s);
                proof {
                    assert(texts(v@) =~= l);
                }
                v
            },
            OneOrMany::Many(v) => v,
        }
    }
}

/// TLS settings.
#[derive(Debug)]
pub struct TlsConfig {
    /// Path to the PEM certificate chain (leaf first).
    pub cert: Option<String>,
    /// Path to the PEM private key.
    pub key: Option<String>,
    /// Generate an ephemeral self-signed certificate for these host names
    /// instead of loading `cert`/`key`.
    pub self_signed: Option<Vec<String>>,
}

/// Compression settings.
#[derive(Debug, Clone, Copy, PartialEq, Eq, Structural)]
pub struct CompressConfig {
    /// Master switch (default `true`).
    pub enabled: bool,
    /// Minimum body size to compress (default `256`).
    pub min_size: usize,
}

impl Default for CompressConfig {
    fn default() -> (r: CompressConfig)
        ensures
            r == (CompressConfig { enabled: true, min_size: 256 }),
    {
        CompressConfig { enabled: true, min_size: 256 }
    }
}

/// The parsed server configuration.
#[derive(Debug)]
pub struct ServerConfig {
    /// Listen address(es).
    pub listen: OneOrMany,
    /// Document root for static file serving.
    pub root: Option<String>,
    /// `Server` header value.
    pub server_name: Option<String>,
    /// Worker thread count (thread-pool runtime).
    pub workers: Option<usize>,
    /// TLS settings.
    pub tls: Option<TlsConfig>,
    /// Compression settings.
    pub compress: Option<CompressConfig>,
}

// ---------------------------------------------------------------------------
// Setups
// ---------------------------------------------------------------------------

/// Where the certificate of a server comes from.
#[derive(Debug)]
pub enum TlsSource {
    /// PEM files.
    Files { cert: String, key: String },
    /// An ephemeral self-signed certificate for these host names.
    SelfSigned(Vec<String>),
}

/// The model of a certificate source.
pub enum TlsSourceModel {
    Files { cert: Seq<char>, key: Seq<char> },
    SelfSigned(Seq<Seq<char>>),
}

impl View for TlsSource {
    type V = TlsSourceModel;

    open spec fn view(&self) -> TlsSourceModel {
        match self {
            TlsSource::Files { cert, key } => TlsSourceModel::Files { cert: cert@, key: key@ },
            TlsSource::SelfSigned(names) => TlsSourceModel::SelfSigned(texts(names@)),
        }
    }
}

/// What to make of the `Server` header.
#[derive(Debug)]
pub enum NameSetting {
    /// Leave the default.
    Default,
    /// Set it, or omit it.
    Named(Option<String>),
}

/// The model of a name setting.
pub enum NameSettingModel {
    Default,
    Named(Option<Seq<char>>),
}

impl View for NameSetting {
    type V = NameSettingModel;

    open spec fn view(&self) -> NameSettingModel {
        match self {
            NameSetting::Default => NameSettingModel::Default,
            NameSetting::Named(n) => NameSettingModel::Named(opt_text(*n)),
        }
    }
}

/// How to set up a server: what is to be resolved, read and built first.
#[derive(Debug)]
pub struct Setup {
    /// The address to listen on.
    pub listen: String,
    /// Document root for static file serving.
    pub root: Option<String>,
    pub workers: Option<usize>,
    pub server_name: NameSetting,
    pub tls: Option<TlsSource>,
    pub compression: compress::Options,
    pub max_conns_per_ip: Option<u32>,
    pub hsts: Option<String>,
    pub allow_http: bool,
    /// The address of the plain-HTTP listener.
    pub http_listen: Option<String>,
    /// The `Alt-Svc` header value that advertises HTTP/3.
    pub alt_svc: Option<String>,
}

/// The model of a setup.
#[verifier::ext_equal]
pub struct SetupModel {
    pub listen: Seq<char>,
    pub root: Option<Seq<char>>,
    pub workers: Option<usize>,
    pub server_name: NameSettingModel,
    pub tls: Option<TlsSourceModel>,
    pub compression: compress::Options,
    pub max_conns_per_ip: Option<u32>,
    pub hsts: Option<Seq<char>>,
    pub allow_http: bool,
    pub http_listen: Option<Seq<char>>,
    pub alt_svc: Option<Seq<char>>,
}

impl View for Setup {
    type V = SetupModel;

    open spec fn view(&self) -> SetupModel {
        SetupModel {
            listen: self.listen@,
            root: opt_text(self.root),
            workers: self.workers,
            server_name: self.server_name@,
            tls: match self.tls {
                Some(t) => Some(t@),
                None => None,
            },
            compression: self.compression,
            max_conns_per_ip: self.max_conns_per_ip,
            hsts: opt_text(self.hsts),
            allow_http: self.allow_http,
            http_listen: opt_text(self.http_listen),
            alt_svc: opt_text(self.alt_svc),
        }
    }
}

/// What a setup attempt came to.
pub open spec fn setup_result(r: Result<Setup>) -> core::result::Result<SetupModel, ErrorModel> {
    match r {
        Ok(s) => Ok(s@),
        Err(e) => Err(e@),
    }
}

/// The certificate source that TLS settings name: files win over a self-signed
/// certificate.
pub open spec fn source_of(tls: TlsConfig) -> Option<TlsSourceModel> {
    match (tls.cert, tls.key, tls.self_signed) {
        (Some(cert), Some(key), _) => Some(TlsSourceModel::Files { cert: cert@, key: key@ }),
        (_, _, Some(names)) => Some(TlsSourceModel::SelfSigned(texts(names@))),
        _ => None,
    }
}

/// The setup that a configuration describes.
pub open spec fn setup_of(c: ServerConfig) -> core::result::Result<SetupModel, ErrorModel> {
    if c.listen.list().len() == 0 {
        Err(ErrorModel::Config("no listen address"@))
    } else if c.tls is Some && source_of(c.tls->0) is None {
        Err(ErrorModel::Config("[tls] requires either cert+key or self_signed"@))
    } else {
        let z = match c.compress {
            Some(z) => z,
            None => CompressConfig { enabled: true, min_size: 256 },
        };
        Ok(
            SetupModel {
                listen: c.listen.list()[0],
                root: opt_text(c.root),
                workers: c.workers,
                server_name: match c.server_name {
                    Some(n) => NameSettingModel::Named(Some(n@)),
                    None => NameSettingModel::Default,
                },
                tls: match c.tls {
                    Some(t) => source_of(t),
                    None => None,
                },
                compression: compress::Options { enabled: z.enabled, min_size: z.min_size },
                max_conns_per_ip: None,
                hsts: None,
                allow_http: false,
                http_listen: None,
                alt_svc: None,
            },
        )
    }
}

fn copy_texts(v: &Vec<String>) -> (r: Vec<String>)
    ensures
        texts(r@) == texts(v@),
{
    let mut out: Vec<String> = Vec::new();
    let ghost all = texts(v@);
    let mut i: usize = 0;
    proof {
        assert(texts(out@) =~= all.take(0));
    }
    while i < v.len()
        invariant
            i <= v@.len(),
            all == texts(v@),
            texts(out@) == all.take(i as int),
        decreases v.len() - i,
    {
        let ghost before = out@;
        let t = owned(v[i].as_str());
        out.push(t);
        proof {
            assert(texts(out@) =~= texts(before).push(t@));
            assert(all.take(i + 1) =~= all.take(i as int).push(t@));
        }
        i += 1;
    }
    proof {
        assert(all.take(all.len() as int) =~= all);
    }
    out
}

/// The certificate source that TLS settings name.
fn source(tls: TlsConfig) -> (r: Option<TlsSource>)
    ensures
        match (r, source_of(tls)) {
            (Some(a), Some(b)) => a@ == b,
            (None, None) => true,
            _ => false,
        },
{
    match (tls.cert, tls.key, tls.self_signed) {
        (Some(cert), Some(key), _) => Some(TlsSource::Files { cert, key }),
        (_, _, Some(names)) => Some(TlsSource::SelfSigned(names)),
        _ => None,
    }
}

impl ServerConfig {
    /// The configured listen addresses, as strings.
    pub fn listen_addrs(&self) -> (r: Vec<String>)
        ensures
            texts(r@) == self.listen.list(),
    {
        match &self.listen {
            OneOrMany::One(s) => {
                let mut v: Vec<String> = Vec::new();
                v.push(owned(s.as_str()));
                proof {
                    assert(texts(v@) =~= self.listen.list());
                }
                v
            },
            OneOrMany::Many(v) => copy_texts(v),
        }
    }

    /// How to set up the server that this configuration describes.
    pub fn into_server(self) -> (r: Result<Setup>)
        ensures
            setup_result(r) == setup_of(self),
    {
        let addrs = self.listen_addrs();
        proof {
            assert(texts(addrs@).len() == addrs@.len());
        }
        if addrs.len() == 0 {
            return Err(Error::Config(owned("no listen address")));
        }
        let listen = owned(addrs[0].as_str());
        let ServerConfig { root, server_name, workers, tls, compress, .. } = self;
        let tls = match tls {
            Some(t) => match source(t) {
                Some(s) => Some(s),
                None => {
                    return Err(
                        Error::Config(owned("[tls] requires either cert+key or self_signed")),
                    );
                },
            },
            None => None,
        };
        let c = match compress {
            Some(c) => c,
            None => CompressConfig::default(),
        };
        Ok(
            Setup {
                listen,
                root,
                workers,
                server_name: match server_name {
                    Some(n) => NameSetting::Named(Some(n)),
                    None => NameSetting::Default,
                },
                tls,
                compression: compress::Options { enabled: c.enabled, min_size: c.min_size },
                max_conns_per_ip: None,
                hsts: None,
                allow_http: false,
                http_listen: None,
                alt_svc: None,
            },
        )
    }
}

// ---------------------------------------------------------------------------
// Laws
// ---------------------------------------------------------------------------

/// A server is set up as its configuration says: on its first address, with the
/// certificate files before a self-signed certificate, and with compression unless it
/// is switched off.
pub proof fn law_configuration_takes_effect(c: ServerConfig, t: TlsConfig)
    requires
        c.listen.list().len() > 0,
        c.tls == Some(t),
    ensures
        t.cert is Some && t.key is Some ==> (setup_of(c) matches Ok(s) && s.tls == Some(
            TlsSourceModel::Files { cert: t.cert->0@, key: t.key->0@ },
        )),
        (t.cert is None || t.key is None) && t.self_signed is Some ==> (setup_of(c) matches Ok(s)
            && s.tls == Some(TlsSourceModel::SelfSigned(texts(t.self_signed->0@)))),
        (t.cert is None || t.key is None) && t.self_signed is None ==> setup_of(c) is Err,
        setup_of(c) matches Ok(s) ==> {
            &&& s.listen == c.listen.list()[0]
            &&& s.workers == c.workers
            &&& c.root is None ==> s.root is None
            &&& c.root is Some ==> s.root == Some(c.root->0@)
            &&& c.compress is None ==> s.compression.enabled && s.compression.min_size == 256
            &&& c.compress is Some ==> s.compression.enabled == c.compress->0.enabled
                && s.compression.min_size == c.compress->0.min_size
            &&& c.server_name is Some ==> s.server_name == NameSettingModel::Named(
                Some(c.server_name->0@),
            )
            &&& c.server_name is None ==> s.server_name == NameSettingModel::Default
        },
{
}

/// Without an address there is no server, and without certificates there is no TLS.
pub proof fn law_what_a_configuration_needs(c: ServerConfig)
    ensures
        c.listen.list().len() == 0 ==> setup_of(c) is Err,
        c.listen.list().len() > 0 && c.tls is None ==> (setup_of(c) matches Ok(s) && s.tls is None),
{
}

} // verus!
