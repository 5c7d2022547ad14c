//! The command line: options, their defaults, and what they ask for.
use crate::acme::client::{LETSENCRYPT_PRODUCTION, LETSENCRYPT_STAGING};
use crate::acme::manager::{norm, normalize, AcmeConfig, AcmeConfigModel};
use crate::error::{Error, ErrorModel, Result};
use crate::text::{
    chars_of, chars_split, chars_strip_prefix, chars_trim, chars_uint, concat, decimal, digit_val,
    is_empty, law_split_undoes_joining, law_strip_prefix, lemma_numeral, lemma_split_around,
    lemma_unsplit, opt_list, opt_owned, opt_text, owned, parse_signed_digits, push_numeral, split,
    str_eq, strip_prefix, text_of, texts, trim, views,
};
use vstd::prelude::*;

verus! {

broadcast use vstd::seq::group_seq_axioms;

/// Options that take no value.
#[derive(Debug, Clone, Copy, PartialEq, Eq, Structural)]
pub enum Switch {
    SelfSigned,
    NoHttp3,
    NoCompress,
    AllowHttp,
    AcmeAcceptTos,
    AcmeStaging,
    Hsts,
    HstsIncludeSubdomains,
    HstsPreload,
    NoServerHeader,
}

/// Options that take a value.
#[derive(Debug, Clone, Copy, PartialEq, Eq, Structural)]
pub enum Valued {
    Config,
    Listen,
    TlsCert,
    TlsKey,
    Workers,
    MaxConnsPerIp,
    Http,
    AcmeEmail,
    AcmeDirectory,
    CertDir,
    DefaultHost,
    HstsMaxAge,
    ServerName,
    User,
    Chroot,
    HostWhitelist,
}

/// The option without a value that this text is.
#[verifier::opaque]
pub open spec fn switch_of(a: Seq<char>) -> Option<Switch> {
    if a == "--self-signed"@ {
        Some(Switch::SelfSigned)
    } else if a == "--no-http3"@ {
        Some(Switch::NoHttp3)
    } else if a == "--no-compress"@ {
        Some(Switch::NoCompress)
    } else if a == "--allow-http"@ {
        Some(Switch::AllowHttp)
    } else if a == "--acme-accept-tos"@ {
        Some(Switch::AcmeAcceptTos)
    } else if a == "--acme-staging"@ {
        Some(Switch::AcmeStaging)
    } else if a == "--hsts"@ {
        Some(Switch::Hsts)
    } else if a == "--hsts-include-subdomains"@ {
        Some(Switch::HstsIncludeSubdomains)
    } else if a == "--hsts-preload"@ {
        Some(Switch::HstsPreload)
    } else if a == "--no-server-header"@ {
        Some(Switch::NoServerHeader)
    } else {
        None
    }
}

/// The option with a value that this text is.
#[verifier::opaque]
pub open spec fn valued_of(a: Seq<char>) -> Option<Valued> {
    if a == "-c"@ || a == "--config"@ {
        Some(Valued::Config)
    } else if a == "-l"@ || a == "--listen"@ {
        Some(Valued::Listen)
    } else if a == "--tls-cert"@ {
        Some(Valued::TlsCert)
    } else if a == "--tls-key"@ {
        Some(Valued::TlsKey)
    } else if a == "--workers"@ {
        Some(Valued::Workers)
    } else if a == "--max-conns-per-ip"@ {
        Some(Valued::MaxConnsPerIp)
    } else if a == "--http"@ {
        Some(Valued::Http)
    } else if a == "--acme-email"@ {
        Some(Valued::AcmeEmail)
    } else if a == "--acme-directory"@ {
        Some(Valued::AcmeDirectory)
    } else if a == "--cert-dir"@ {
        Some(Valued::CertDir)
    } else if a == "--default-host"@ {
        Some(Valued::DefaultHost)
    } else if a == "--hsts-max-age"@ {
        Some(Valued::HstsMaxAge)
    } else if a == "--server-name"@ {
        Some(Valued::ServerName)
    } else if a == "--user"@ {
        Some(Valued::User)
    } else if a == "--chroot"@ {
        Some(Valued::Chroot)
    } else if a == "--host-whitelist"@ {
        Some(Valued::HostWhitelist)
    } else {
        None
    }
}

fn as_switch(a: &str) -> (r: Option<Switch>)
    ensures
        r == switch_of(a@),
{
    reveal(switch_of);
    if str_eq(a, "--self-signed") {
        Some(Switch::SelfSigned)
    } else if str_eq(a, "--no-http3") {
        Some(Switch::NoHttp3)
    } else if str_eq(a, "--no-compress") {
        Some(Switch::NoCompress)
    } else if str_eq(a, "--allow-http") {
        Some(Switch::AllowHttp)
    } else if str_eq(a, "--acme-accept-tos") {
        Some(Switch::AcmeAcceptTos)
    } else if str_eq(a, "--acme-staging") {
        Some(Switch::AcmeStaging)
    } else if str_eq(a, "--hsts") {
        Some(Switch::Hsts)
    } else if str_eq(a, "--hsts-include-subdomains") {
        Some(Switch::HstsIncludeSubdomains)
    } else if str_eq(a, "--hsts-preload") {
        Some(Switch::HstsPreload)
    } else if str_eq(a, "--no-server-header") {
        Some(Switch::NoServerHeader)
    } else {
        None
    }
}

fn as_valued(a: &str) -> (r: Option<Valued>)
    ensures
        r == valued_of(a@),
{
    reveal(valued_of);
    if str_eq(a, "-c") || str_eq(a, "--config") {
        Some(Valued::Config)
    } else if str_eq(a, "-l") || str_eq(a, "--listen") {
        Some(Valued::Listen)
    } else if str_eq(a, "--tls-cert") {
        Some(Valued::TlsCert)
    } else if str_eq(a, "--tls-key") {
        Some(Valued::TlsKey)
    } else if str_eq(a, "--workers") {
        Some(Valued::Workers)
    } else if str_eq(a, "--max-conns-per-ip") {
        Some(Valued::MaxConnsPerIp)
    } else if str_eq(a, "--http") {
        Some(Valued::Http)
    } else if str_eq(a, "--acme-email") {
        Some(Valued::AcmeEmail)
    } else if str_eq(a, "--acme-directory") {
        Some(Valued::AcmeDirectory)
    } else if str_eq(a, "--cert-dir") {
        Some(Valued::CertDir)
    } else if str_eq(a, "--default-host") {
        Some(Valued::DefaultHost)
    } else if str_eq(a, "--hsts-max-age") {
        Some(Valued::HstsMaxAge)
    } else if str_eq(a, "--server-name") {
        Some(Valued::ServerName)
    } else if str_eq(a, "--user") {
        Some(Valued::User)
    } else if str_eq(a, "--chroot") {
        Some(Valued::Chroot)
    } else if str_eq(a, "--host-whitelist") {
        Some(Valued::HostWhitelist)
    } else {
        None
    }
}

/// What the command line asks for.
#[derive(Debug)]
pub struct Options {
    /// Load configuration from this file; the other settings are ignored.
    pub config: Option<String>,
    /// The directory to serve.
    pub dir: String,
    /// The address to listen on.
    pub listen: String,
    /// PEM certificate chain.
    pub tls_cert: Option<String>,
    /// PEM private key.
    pub tls_key: Option<String>,
    /// Host to generate a self-signed certificate for.
    pub self_signed: Option<String>,
    /// Worker thread count.
    pub workers: Option<usize>,
    /// Concurrent connections allowed per client address.
    pub max_conns_per_ip: Option<u32>,
    pub no_http3: bool,
    pub no_compress: bool,
    pub allow_http: bool,
    /// Plain-HTTP listener for redirects.
    pub http_listen: Option<String>,
    pub acme_accept_tos: bool,
    pub acme_email: Option<String>,
    pub acme_directory: Option<String>,
    pub acme_staging: bool,
    pub host_whitelist: Option<Vec<String>>,
    pub default_host: Option<String>,
    pub cert_dir: Option<String>,
    pub hsts: bool,
    pub hsts_max_age: Option<u64>,
    pub hsts_include_subdomains: bool,
    pub hsts_preload: bool,
    pub server_name: Option<String>,
    pub no_server_header: bool,
    pub user: Option<String>,
    pub chroot: Option<String>,
}

/// The model of the options.
#[verifier::ext_equal]
pub struct OptionsModel {
    pub config: Option<Seq<char>>,
    pub dir: Seq<char>,
    pub listen: Seq<char>,
    pub tls_cert: Option<Seq<char>>,
    pub tls_key: Option<Seq<char>>,
    pub self_signed: Option<Seq<char>>,
    pub workers: Option<usize>,
    pub max_conns_per_ip: Option<u32>,
    pub no_http3: bool,
    pub no_compress: bool,
    pub allow_http: bool,
    pub http_listen: Option<Seq<char>>,
    pub acme_accept_tos: bool,
    pub acme_email: Option<Seq<char>>,
    pub acme_directory: Option<Seq<char>>,
    pub acme_staging: bool,
    pub host_whitelist: Option<Seq<Seq<char>>>,
    pub default_host: Option<Seq<char>>,
    pub cert_dir: Option<Seq<char>>,
    pub hsts: bool,
    pub hsts_max_age: Option<u64>,
    pub hsts_include_subdomains: bool,
    pub hsts_preload: bool,
    pub server_name: Option<Seq<char>>,
    pub no_server_header: bool,
    pub user: Option<Seq<char>>,
    pub chroot: Option<Seq<char>>,
}

impl View for Options {
    type V = OptionsModel;

    open spec fn view(&self) -> OptionsModel {
        OptionsModel {
            config: opt_text(self.config),
            dir: self.dir@,
            listen: self.listen@,
            tls_cert: opt_text(self.tls_cert),
            tls_key: opt_text(self.tls_key),
            self_signed: opt_text(self.self_signed),
            workers: self.workers,
            max_conns_per_ip: self.max_conns_per_ip,
            no_http3: self.no_http3,
            no_compress: self.no_compress,
            allow_http: self.allow_http,
            http_listen: opt_text(self.http_listen),
            acme_accept_tos: self.acme_accept_tos,
            acme_email: opt_text(self.acme_email),
            acme_directory: opt_text(self.acme_directory),
            acme_staging: self.acme_staging,
            host_whitelist: opt_list(self.host_whitelist),
            default_host: opt_text(self.default_host),
            cert_dir: opt_text(self.cert_dir),
            hsts: self.hsts,
            hsts_max_age: self.hsts_max_age,
            hsts_include_subdomains: self.hsts_include_subdomains,
            hsts_preload: self.hsts_preload,
            server_name: opt_text(self.server_name),
            no_server_header: self.no_server_header,
            user: opt_text(self.user),
            chroot: opt_text(self.chroot),
        }
    }
}

/// The options where nothing is given.
pub open spec fn default_options() -> OptionsModel {
    OptionsModel {
        config: None,
        dir: "."@,
        listen: "127.0.0.1:8080"@,
        tls_cert: None,
        tls_key: None,
        self_signed: None,
        workers: None,
        max_conns_per_ip: None,
        no_http3: false,
        no_compress: false,
        allow_http: false,
        http_listen: None,
        acme_accept_tos: false,
        acme_email: None,
        acme_directory: None,
        acme_staging: false,
        host_whitelist: None,
        default_host: None,
        cert_dir: None,
        hsts: false,
        hsts_max_age: None,
        hsts_include_subdomains: false,
        hsts_preload: false,
        server_name: None,
        no_server_header: false,
        user: None,
        chroot: None,
    }
}

/// The options with a switch set.
#[verifier::opaque]
pub open spec fn switched(o: OptionsModel, s: Switch) -> OptionsModel {
    match s {
        Switch::SelfSigned => OptionsModel { self_signed: Some("localhost"@), ..o },
        Switch::NoHttp3 => OptionsModel { no_http3: true, ..o },
        Switch::NoCompress => OptionsModel { no_compress: true, ..o },
        Switch::AllowHttp => OptionsModel { allow_http: true, ..o },
        Switch::AcmeAcceptTos => OptionsModel { acme_accept_tos: true, ..o },
        Switch::AcmeStaging => OptionsModel { acme_staging: true, ..o },
        Switch::Hsts => OptionsModel { hsts: true, ..o },
        Switch::HstsIncludeSubdomains => OptionsModel { hsts_include_subdomains: true, ..o },
        Switch::HstsPreload => OptionsModel { hsts_preload: true, ..o },
        Switch::NoServerHeader => OptionsModel { no_server_header: true, ..o },
    }
}

/// The non-empty entries of a comma-separated list, without white space around
/// them.
pub open spec fn listed(v: Seq<char>) -> Seq<Seq<char>> {
    trimmed_parts(split(v, ','))
}

/// The parts that are not blank, trimmed.
pub open spec fn trimmed_parts(parts: Seq<Seq<char>>) -> Seq<Seq<char>>
    decreases parts.len(),
{
    if parts.len() == 0 {
        Seq::empty()
    } else {
        let rest = trimmed_parts(parts.drop_last());
        let t = trim(parts.last());
        if t.len() == 0 {
            rest
        } else {
            rest.push(t)
        }
    }
}

/// The options with a value set, or what is wrong with the value.
#[verifier::opaque]
pub open spec fn assigned(o: OptionsModel, f: Valued, v: Seq<char>) -> core::result::Result<
    OptionsModel,
    Seq<char>,
> {
    match f {
        Valued::Config => Ok(OptionsModel { config: Some(v), ..o }),
        Valued::Listen => Ok(OptionsModel { listen: v, ..o }),
        Valued::TlsCert => Ok(OptionsModel { tls_cert: Some(v), ..o }),
        Valued::TlsKey => Ok(OptionsModel { tls_key: Some(v), ..o }),
        Valued::Workers => match parse_signed_digits(v, usize::MAX as nat) {
            Some(n) => Ok(OptionsModel { workers: Some(n as usize), ..o }),
            None => Err("invalid --workers: "@ + v),
        },
        Valued::MaxConnsPerIp => match parse_signed_digits(v, u32::MAX as nat) {
            Some(n) => Ok(OptionsModel { max_conns_per_ip: Some(n as u32), ..o }),
            None => Err("invalid --max-conns-per-ip: "@ + v),
        },
        Valued::Http => Ok(OptionsModel { http_listen: Some(v), ..o }),
        Valued::AcmeEmail => Ok(OptionsModel { acme_email: Some(v), ..o }),
        Valued::AcmeDirectory => Ok(OptionsModel { acme_directory: Some(v), ..o }),
        Valued::CertDir => Ok(OptionsModel { cert_dir: Some(v), ..o }),
        Valued::DefaultHost => Ok(OptionsModel { default_host: Some(v), ..o }),
        Valued::HstsMaxAge => match parse_signed_digits(v, u64::MAX as nat) {
            Some(n) => Ok(OptionsModel { hsts_max_age: Some(n as u64), ..o }),
            None => Err("invalid --hsts-max-age: "@ + v),
        },
        Valued::ServerName => Ok(OptionsModel { server_name: Some(v), ..o }),
        Valued::User => Ok(OptionsModel { user: Some(v), ..o }),
        Valued::Chroot => Ok(OptionsModel { chroot: Some(v), ..o }),
        Valued::HostWhitelist => Ok(OptionsModel { host_whitelist: Some(listed(v)), ..o }),
    }
}

/// What reading the arguments from `i` on makes of the options so far: the final
/// options, nothing when help is asked for, or what is wrong.
pub open spec fn options_from(args: Seq<Seq<char>>, i: int, o: OptionsModel, saw_dir: bool) -> core::result::Result<
    Option<OptionsModel>,
    Seq<char>,
>
    decreases args.len() - i,
{
    if i < 0 || i >= args.len() {
        Ok(Some(o))
    } else {
        let a = args[i];
        if a == "-h"@ || a == "--help"@ {
            Ok(None)
        } else if switch_of(a) is Some {
            options_from(args, i + 1, switched(o, switch_of(a)->0), saw_dir)
        } else if valued_of(a) is Some {
            if i + 1 >= args.len() {
                Err("missing value for "@ + a)
            } else {
                match assigned(o, valued_of(a)->0, args[i + 1]) {
                    Ok(p) => options_from(args, i + 2, p, saw_dir),
                    Err(m) => Err(m),
                }
            }
        } else {
            match (strip_prefix(a, "--self-signed="@), strip_prefix(a, "--listen="@)) {
                (Some(host), _) => options_from(
                    args,
                    i + 1,
                    OptionsModel { self_signed: Some(host), ..o },
                    saw_dir,
                ),
                (None, Some(addr)) => options_from(
                    args,
                    i + 1,
                    OptionsModel { listen: addr, ..o },
                    saw_dir,
                ),
                (None, None) => if a.len() > 1 && a[0] == '-' {
                    Err("unknown option: "@ + a)
                } else if saw_dir {
                    Err("unexpected argument: "@ + a)
                } else {
                    options_from(args, i + 1, OptionsModel { dir: a, ..o }, true)
                },
            }
        }
    }
}

/// The options that the arguments ask for.
pub open spec fn options_in(args: Seq<Seq<char>>) -> core::result::Result<
    Option<OptionsModel>,
    Seq<char>,
> {
    options_from(args, 0, default_options(), false)
}

fn complaint(what: &str, arg: &str) -> (r: String)
    ensures
        r@ == what@ + arg@,
{
    let mut s: String = String::new();
    s.push_str(what);
    s.push_str(arg);
    proof {
        assert(s@ =~= what@ + arg@);
    }
    s
}

/// The entries of a comma-separated list.
fn list_of(v: &str) -> (r: Vec<String>)
    ensures
        texts(r@) == listed(v@),
{
    let c = chars_of(v);
    let parts = chars_split(c.as_slice(), ',');
    let ghost p = views(parts@);
    let mut out: Vec<String> = Vec::new();
    let mut i: usize = 0;
    proof {
        assert(p.take(0) =~= Seq::empty());
        assert(texts(out@) =~= Seq::empty());
    }
    while i < parts.len()
        invariant
            i <= parts@.len(),
            p == views(parts@),
            texts(out@) == trimmed_parts(p.take(i as int)),
        decreases parts.len() - i,
    {
        let t = chars_trim(parts[i]);
        let ghost before = out@;
        if t.len() > 0 {
            let s = text_of(t);
            out.push(s);
            proof {
                assert(texts(out@) =~= texts(before).push(s@));
            }
        }
        proof {
            assert(p.take(i + 1).drop_last() =~= p.take(i as int));
            assert(p.take(i + 1).last() == parts@[i as int]@);
        }
        i += 1;
    }
    proof {
        assert(p.take(p.len() as int) =~= p);
    }
    out
}

fn number(v: &str, max: u64) -> (r: Option<u64>)
    ensures
        match (r, parse_signed_digits(v@, max as nat)) {
            (Some(a), Some(b)) => a == b && a <= max,
            (None, None) => true,
            _ => false,
        },
{
    let c = chars_of(v);
    chars_uint(c.as_slice(), max)
}

impl Options {
    fn defaults() -> (r: Options)
        ensures
            r@ == default_options(),
    {
        let r = Options {
            config: None,
            dir: owned("."),
            listen: owned("127.0.0.1:8080"),
            tls_cert: None,
            tls_key: None,
            self_signed: None,
            workers: None,
            max_conns_per_ip: None,
            no_http3: false,
            no_compress: false,
            allow_http: false,
            http_listen: None,
            acme_accept_tos: false,
            acme_email: None,
            acme_directory: None,
            acme_staging: false,
            host_whitelist: None,
            default_host: None,
            cert_dir: None,
            hsts: false,
            hsts_max_age: None,
            hsts_include_subdomains: false,
            hsts_preload: false,
            server_name: None,
            no_server_header: false,
            user: None,
            chroot: None,
        };
        proof {
            assert(r@ =~= default_options());
        }
        r
    }

    fn switch(&mut self, s: Switch)
        ensures
            final(self)@ == switched(old(self)@, s),
    {
        reveal(switched);
        match s {
            Switch::SelfSigned => {
                self.self_signed = Some(owned("localhost"));
            },
            Switch::NoHttp3 => {
                self.no_http3 = true;
            },
            Switch::NoCompress => {
                self.no_compress = true;
            },
            Switch::AllowHttp => {
                self.allow_http = true;
            },
            Switch::AcmeAcceptTos => {
                self.acme_accept_tos = true;
            },
            Switch::AcmeStaging => {
                self.acme_staging = true;
            },
            Switch::Hsts => {
                self.hsts = true;
            },
            Switch::HstsIncludeSubdomains => {
                self.hsts_include_subdomains = true;
            },
            Switch::HstsPreload => {
                self.hsts_preload = true;
            },
            Switch::NoServerHeader => {
                self.no_server_header = true;
            },
        }
    }

    fn assign(&mut self, f: Valued, v: &str) -> (r: core::result::Result<(), String>)
        ensures
            match (r, assigned(old(self)@, f, v@)) {
                (Ok(_), Ok(o)) => final(self)@ == o,
                (Err(e), Err(m)) => e@ == m,
                _ => false,
            },
    {
        reveal(assigned);
        match f {
            Valued::Config => {
                self.config = Some(owned(v));
            },
            Valued::Listen => {
                self.listen = owned(v);
            },
            Valued::TlsCert => {
                self.tls_cert = Some(owned(v));
            },
            Valued::TlsKey => {
                self.tls_key = Some(owned(v));
            },
            Valued::Workers => match number(v, usize::MAX as u64) {
                Some(n) => {
                    self.workers = Some(n as usize);
                },
                None => {
                    return Err(complaint("invalid --workers: ", v));
                },
            },
            Valued::MaxConnsPerIp => match number(v, u32::MAX as u64) {
                Some(n) => {
                    self.max_conns_per_ip = Some(n as u32);
                },
                None => {
                    return Err(complaint("invalid --max-conns-per-ip: ", v));
                },
            },
            Valued::Http => {
                self.http_listen = Some(owned(v));
            },
            Valued::AcmeEmail => {
                self.acme_email = Some(owned(v));
            },
            Valued::AcmeDirectory => {
                self.acme_directory = Some(owned(v));
            },
            Valued::CertDir => {
                self.cert_dir = Some(owned(v));
            },
            Valued::DefaultHost => {
                self.default_host = Some(owned(v));
            },
            Valued::HstsMaxAge => match number(v, u64::MAX as u64) {
                Some(n) => {
                    self.hsts_max_age = Some(n as u64);
                },
                None => {
                    return Err(complaint("invalid --hsts-max-age: ", v));
                },
            },
            Valued::ServerName => {
                self.server_name = Some(owned(v));
            },
            Valued::User => {
                self.user = Some(owned(v));
            },
            Valued::Chroot => {
                self.chroot = Some(owned(v));
            },
            Valued::HostWhitelist => {
                self.host_whitelist = Some(list_of(v));
            },
        }
        Ok(())
    }

    /// Read the arguments (without the program's name). `Ok(None)` asks for
    /// help.
    pub fn parse(args: &[String]) -> (r: core::result::Result<Option<Options>, String>)
        ensures
            match (r, options_in(texts(args@))) {
                (Ok(Some(o)), Ok(Some(m))) => o@ == m,
                (Ok(None), Ok(None)) => true,
                (Err(e), Err(m)) => e@ == m,
                _ => false,
            },
    {
        let ghost t = texts(args@);
        let n: usize = args.len();
        let mut opts = Options::defaults();
        let mut saw_dir: bool = false;
        let mut i: usize = 0;
        while i < n
            invariant
                i <= n == args@.len(),
                t == texts(args@),
                options_in(t) == options_from(t, i as int, opts@, saw_dir),
            decreases n - i,
        {
            let arg = args[i].as_str();
            proof {
                assert(t[i as int] == arg@);
            }
            if str_eq(arg, "-h") || str_eq(arg, "--help") {
                return Ok(None);
            }
            if let Some(s) = as_switch(arg) {
                opts.switch(s);
                i += 1;
                continue;
            }
            if let Some(f) = as_valued(arg) {
                if n - i < 2 {
                    return Err(complaint("missing value for ", arg));
                }
                match opts.assign(f, args[i + 1].as_str()) {
                    Ok(_) => {},
                    Err(m) => {
                        return Err(m);
                    },
                }
                i += 2;
                continue;
            }
            let c = chars_of(arg);
            let (host, addr) = (
                chars_strip_prefix(c.as_slice(), "--self-signed="),
                chars_strip_prefix(c.as_slice(), "--listen="),
            );
            if let Some(h) = host {
                opts.self_signed = Some(text_of(h));
            } else if let Some(a) = addr {
                opts.listen = text_of(a);
            } else if c.len() > 1 && c[0] == '-' {
                return Err(complaint("unknown option: ", arg));
            } else if saw_dir {
                return Err(complaint("unexpected argument: ", arg));
            } else {
                opts.dir = owned(arg);
                saw_dir = true;
            }
            i += 1;
        }
        Ok(Some(opts))
    }

    /// Whether a certificate was given or is to be generated.
    pub fn is_tls(&self) -> (r: bool)
        ensures
            r == self@.is_tls(),
    {
        self.tls_cert.is_some() || self.self_signed.is_some()
    }

    /// Whether HTTP/3 should run: on by default whenever HTTPS is served (a
    /// static certificate or ACME), off via `--no-http3`.
    pub fn http3_enabled(&self) -> (r: bool)
        ensures
            r == self@.http3_enabled(),
    {
        !self.no_http3 && (self.is_tls() || self.acme_accept_tos)
    }

    /// The port from the listen address (443 if there is none).
    pub fn listen_port(&self) -> (r: u16)
        ensures
            r == port_of(self@.listen),
    {
        let c = chars_of(self.listen.as_str());
        let parts = chars_split(c.as_slice(), ':');
        proof {
            lemma_split_nonempty(self.listen@, ':');
            assert(views(parts@).last() == parts@.last()@);
        }
        match chars_uint(parts[parts.len() - 1], 65535) {
            Some(p) => p as u16,
            None => 443,
        }
    }

    /// The HSTS header value if any `--hsts*` flag was given.
    pub fn hsts_value(&self) -> (r: Option<String>)
        ensures
            opt_text(r) == self@.hsts_value(),
    {
        let on: bool = self.hsts || self.hsts_max_age.is_some() || self.hsts_include_subdomains
            || self.hsts_preload;
        if !on {
            return None;
        }
        let age: u64 = match self.hsts_max_age {
            Some(n) => n,
            None => 31536000,
        };
        let mut v: String = owned("max-age=");
        push_numeral(&mut v, age, 10);
        if self.hsts_include_subdomains {
            v.push_str("; includeSubDomains");
        }
        if self.hsts_preload {
            v.push_str("; preload");
        }
        proof {
            assert(v@ =~= self@.hsts_value()->0);
        }
        Some(v)
    }

    /// The `Alt-Svc` value that advertises HTTP/3, when it is served.
    pub fn alt_svc(&self) -> (r: Option<String>)
        ensures
            opt_text(r) == self@.alt_svc(),
    {
        if !self.http3_enabled() {
            return None;
        }
        let mut v: String = owned("h3=\":");
        push_numeral(&mut v, self.listen_port() as u64, 10);
        v.push_str("\"; ma=86400");
        proof {
            assert(v@ =~= self@.alt_svc()->0);
        }
        Some(v)
    }

    /// The scheme under which content is served.
    pub fn scheme(&self) -> (r: &'static str)
        ensures
            r@ == (if self@.is_tls() || self@.acme_accept_tos {
                "https"@
            } else {
                "http"@
            }),
    {
        if self.is_tls() || self.acme_accept_tos {
            "https"
        } else {
            "http"
        }
    }

    /// The certificate and key files, which only come together.
    pub fn tls_files(&self) -> (r: Result<Option<(&str, &str)>>)
        ensures
            match r {
                Ok(Some((c, k))) => self@.tls_cert == Some(c@) && self@.tls_key == Some(k@),
                Ok(None) => self@.tls_cert is None && self@.tls_key is None,
                Err(e) => self@.tls_cert is Some != self@.tls_key is Some && e@ == ErrorModel::Config(
                    "--tls-cert requires --tls-key"@,
                ),
            },
    {
        match (&self.tls_cert, &self.tls_key) {
            (Some(c), Some(k)) => Ok(Some((c.as_str(), k.as_str()))),
            (None, None) => Ok(None),
            _ => Err(Error::Config(owned("--tls-cert requires --tls-key"))),
        }
    }

    /// Whether any ACME flag was given.
    pub fn acme_requested(&self) -> (r: bool)
        ensures
            r == self@.acme_requested(),
    {
        self.acme_accept_tos || self.acme_email.is_some() || self.acme_directory.is_some()
            || self.acme_staging || self.host_whitelist.is_some() || self.default_host.is_some()
            || self.cert_dir.is_some()
    }

    /// The configuration of automatic certificates, if they were asked for. They
    /// need the terms of service accepted.
    pub fn acme_config(&self) -> (r: Result<Option<AcmeConfig>>)
        ensures
            match (r, self@.acme_config()) {
                (Ok(Some(c)), Ok(Some(m))) => c@ == m,
                (Ok(None), Ok(None)) => true,
                (Err(e), Err(m)) => e@ == m,
                _ => false,
            },
    {
        if !self.acme_requested() {
            return Ok(None);
        }
        if !self.acme_accept_tos {
            return Err(
                Error::Config(
                    owned(
                        "automatic certificates require --acme-accept-tos (you accept the CA terms of service)",
                    ),
                ),
            );
        }
        let directory_url = if self.acme_staging {
            owned(LETSENCRYPT_STAGING)
        } else {
            match &self.acme_directory {
                Some(d) => owned(d.as_str()),
                None => owned(LETSENCRYPT_PRODUCTION),
            }
        };
        let default_host = match &self.default_host {
            Some(h) => {
                let n = normalize(h.as_str());
                if is_empty(n.as_str()) {
                    None
                } else {
                    Some(n)
                }
            },
            None => None,
        };
        let host_whitelist = match &self.host_whitelist {
            Some(hosts) => Some(whitelist(hosts, &default_host)),
            None => None,
        };
        Ok(
            Some(
                AcmeConfig {
                    directory_url,
                    accept_tos: true,
                    email: opt_owned(&self.acme_email),
                    host_whitelist,
                    default_host,
                    cert_dir: opt_owned(&self.cert_dir),
                },
            ),
        )
    }
}

/// The canonical form of a default host, unless nothing is left of it.
pub open spec fn usable_host(h: Option<Seq<char>>) -> Option<Seq<char>> {
    if h is Some && norm(h->0).len() > 0 {
        Some(norm(h->0))
    } else {
        None
    }
}

/// The hosts in their canonical form, and the default host: it must be issuable.
pub open spec fn whitelist_of(hosts: Seq<Seq<char>>, default_host: Option<Seq<char>>) -> Seq<Seq<char>> {
    let all = hosts.map_values(|h: Seq<char>| norm(h));
    match default_host {
        Some(d) => all.push(d),
        None => all,
    }
}

fn whitelist(hosts: &Vec<String>, default_host: &Option<String>) -> (r: Vec<String>)
    ensures
        texts(r@) == whitelist_of(texts(hosts@), opt_text(*default_host)),
{
    let mut out: Vec<String> = Vec::new();
    let ghost all = texts(hosts@).map_values(|h: Seq<char>| norm(h));
    let mut i: usize = 0;
    proof {
        assert(texts(out@) =~= all.take(0));
    }
    while i < hosts.len()
        invariant
            i <= hosts@.len(),
            all == texts(hosts@).map_values(|h: Seq<char>| norm(h)),
            texts(out@) == all.take(i as int),
        decreases hosts.len() - i,
    {
        let ghost before = out@;
        let h = normalize(hosts[i].as_str());
        out.push(h);
        proof {
            assert(texts(out@) =~= texts(before).push(h@));
            assert(all.take(i + 1) =~= all.take(i as int).push(h@));
        }
        i += 1;
    }
    proof {
        assert(all.take(all.len() as int) =~= all);
    }
    if let Some(d) = default_host {
        let ghost before = out@;
        let h = owned(d.as_str());
        out.push(h);
        proof {
            assert(texts(out@) =~= texts(before).push(h@));
        }
    }
    out
}

/// The port behind the last colon of an address; 443 if there is none.
pub open spec fn port_of(listen: Seq<char>) -> u16 {
    match parse_signed_digits(split(listen, ':').last(), 65535) {
        Some(p) => p as u16,
        None => 443,
    }
}

proof fn lemma_split_nonempty(s: Seq<char>, sep: char)
    ensures
        split(s, sep).len() > 0,
{
}

impl OptionsModel {
    pub open spec fn is_tls(self) -> bool {
        self.tls_cert is Some || self.self_signed is Some
    }

    pub open spec fn http3_enabled(self) -> bool {
        !self.no_http3 && (self.is_tls() || self.acme_accept_tos)
    }

    pub open spec fn hsts_value(self) -> Option<Seq<char>> {
        if self.hsts || self.hsts_max_age is Some || self.hsts_include_subdomains || self.hsts_preload {
            let age = match self.hsts_max_age {
                Some(n) => n,
                None => 31536000,
            };
            Some(
                "max-age="@ + decimal(age as nat) + (if self.hsts_include_subdomains {
                    "; includeSubDomains"@
                } else {
                    Seq::empty()
                }) + (if self.hsts_preload {
                    "; preload"@
                } else {
                    Seq::empty()
                }),
            )
        } else {
            None
        }
    }

    pub open spec fn alt_svc(self) -> Option<Seq<char>> {
        if self.http3_enabled() {
            Some("h3=\":"@ + decimal(port_of(self.listen) as nat) + "\"; ma=86400"@)
        } else {
            None
        }
    }

    pub open spec fn acme_requested(self) -> bool {
        self.acme_accept_tos || self.acme_email is Some || self.acme_directory is Some
            || self.acme_staging || self.host_whitelist is Some || self.default_host is Some
            || self.cert_dir is Some
    }

    pub open spec fn acme_config(self) -> core::result::Result<Option<AcmeConfigModel>, ErrorModel> {
        if !self.acme_requested() {
            Ok(None)
        } else if !self.acme_accept_tos {
            Err(
                ErrorModel::Config(
                    "automatic certificates require --acme-accept-tos (you accept the CA terms of service)"@,
                ),
            )
        } else {
            let default_host = usable_host(self.default_host);
            Ok(
                Some(
                    AcmeConfigModel {
                        directory_url: if self.acme_staging {
                            LETSENCRYPT_STAGING@
                        } else {
                            match self.acme_directory {
                                Some(d) => d,
                                None => LETSENCRYPT_PRODUCTION@,
                            }
                        },
                        accept_tos: true,
                        email: self.acme_email,
                        host_whitelist: match self.host_whitelist {
                            Some(hosts) => Some(whitelist_of(hosts, default_host)),
                            None => None,
                        },
                        default_host,
                        cert_dir: self.cert_dir,
                    },
                ),
            )
        }
    }
}

// ---------------------------------------------------------------------------
// Laws
// ---------------------------------------------------------------------------

/// The names of the options, told apart.
#[verifier::rlimit(100)]
#[verifier::spinoff_prover]
proof fn lemma_names()
    ensures
        "--self-signed"@.len() == 13 && "--self-signed"@[2] == 's' && "--self-signed"@[4] == 'l',
        "--no-http3"@.len() == 10 && "--no-http3"@[2] == 'n',
        "--no-compress"@.len() == 13 && "--no-compress"@[2] == 'n',
        "--allow-http"@.len() == 12 && "--allow-http"@[3] == 'l',
        "--acme-accept-tos"@.len() == 17,
        "--acme-staging"@.len() == 14 && "--acme-staging"@[2] == 'a',
        "--hsts"@.len() == 6 && "--hsts"@[2] == 'h' && "--hsts"@[3] == 's',
        "--hsts-include-subdomains"@.len() == 25,
        "--hsts-preload"@.len() == 14 && "--hsts-preload"@[2] == 'h' && "--hsts-preload"@[7] == 'p',
        "--no-server-header"@.len() == 18 && "--no-server-header"@[2] == 'n',
        "-c"@.len() == 2 && "-c"@[1] == 'c',
        "--config"@.len() == 8 && "--config"@[2] == 'c' && "--config"@[3] == 'o',
        "-l"@.len() == 2 && "-l"@[1] == 'l',
        "--listen"@.len() == 8 && "--listen"@[2] == 'l',
        "--tls-cert"@.len() == 10 && "--tls-cert"@[2] == 't',
        "--tls-key"@.len() == 9 && "--tls-key"@[2] == 't',
        "--http"@.len() == 6 && "--http"@[2] == 'h' && "--http"@[3] == 't',
        "--acme-email"@.len() == 12 && "--acme-email"@[3] == 'c',
        "--acme-directory"@.len() == 16 && "--acme-directory"@[2] == 'a',
        "--cert-dir"@.len() == 10 && "--cert-dir"@[2] == 'c',
        "--default-host"@.len() == 14 && "--default-host"@[2] == 'd',
        "--server-name"@.len() == 13 && "--server-name"@[2] == 's' && "--server-name"@[4] == 'r',
        "--user"@.len() == 6 && "--user"@[2] == 'u',
        "--chroot"@.len() == 8 && "--chroot"@[2] == 'c' && "--chroot"@[3] == 'h',
        "--workers"@.len() == 9 && "--workers"@[2] == 'w',
        "--max-conns-per-ip"@.len() == 18 && "--max-conns-per-ip"@[2] == 'm',
        "--hsts-max-age"@.len() == 14 && "--hsts-max-age"@[2] == 'h' && "--hsts-max-age"@[7] == 'm',
        "--host-whitelist"@.len() == 16 && "--host-whitelist"@[2] == 'h',
        "-h"@.len() == 2 && "-h"@[1] == 'h',
        "--help"@.len() == 6 && "--help"@[2] == 'h' && "--help"@[3] == 'e',
{
    reveal_strlit("--self-signed");
    reveal_strlit("--no-http3");
    reveal_strlit("--no-compress");
    reveal_strlit("--allow-http");
    reveal_strlit("--acme-accept-tos");
    reveal_strlit("--acme-staging");
    reveal_strlit("--hsts");
    reveal_strlit("--hsts-include-subdomains");
    reveal_strlit("--hsts-preload");
    reveal_strlit("--no-server-header");
    reveal_strlit("-c");
    reveal_strlit("--config");
    reveal_strlit("-l");
    reveal_strlit("--listen");
    reveal_strlit("--tls-cert");
    reveal_strlit("--tls-key");
    reveal_strlit("--http");
    reveal_strlit("--acme-email");
    reveal_strlit("--acme-directory");
    reveal_strlit("--cert-dir");
    reveal_strlit("--default-host");
    reveal_strlit("--server-name");
    reveal_strlit("--user");
    reveal_strlit("--chroot");
    reveal_strlit("--workers");
    reveal_strlit("--max-conns-per-ip");
    reveal_strlit("--hsts-max-age");
    reveal_strlit("--host-whitelist");
    reveal_strlit("-h");
    reveal_strlit("--help");
}

/// Every option begins with a dash, the long ones with two.
#[verifier::spinoff_prover]
proof fn lemma_dashes()
    ensures
        "--self-signed"@[0] == '-' && "--self-signed"@[1] == '-',
        "--no-http3"@[0] == '-' && "--no-http3"@[1] == '-',
        "--no-compress"@[0] == '-' && "--no-compress"@[1] == '-',
        "--allow-http"@[0] == '-' && "--allow-http"@[1] == '-',
        "--acme-accept-tos"@[0] == '-' && "--acme-accept-tos"@[1] == '-',
        "--acme-staging"@[0] == '-' && "--acme-staging"@[1] == '-',
        "--hsts"@[0] == '-' && "--hsts"@[1] == '-',
        "--hsts-include-subdomains"@[0] == '-' && "--hsts-include-subdomains"@[1] == '-',
        "--hsts-preload"@[0] == '-' && "--hsts-preload"@[1] == '-',
        "--no-server-header"@[0] == '-' && "--no-server-header"@[1] == '-',
        "-c"@[0] == '-',
        "--config"@[0] == '-' && "--config"@[1] == '-',
        "-l"@[0] == '-',
        "--listen"@[0] == '-' && "--listen"@[1] == '-',
        "--tls-cert"@[0] == '-' && "--tls-cert"@[1] == '-',
        "--tls-key"@[0] == '-' && "--tls-key"@[1] == '-',
        "--http"@[0] == '-' && "--http"@[1] == '-',
        "--acme-email"@[0] == '-' && "--acme-email"@[1] == '-',
        "--acme-directory"@[0] == '-' && "--acme-directory"@[1] == '-',
        "--cert-dir"@[0] == '-' && "--cert-dir"@[1] == '-',
        "--default-host"@[0] == '-' && "--default-host"@[1] == '-',
        "--server-name"@[0] == '-' && "--server-name"@[1] == '-',
        "--user"@[0] == '-' && "--user"@[1] == '-',
        "--chroot"@[0] == '-' && "--chroot"@[1] == '-',
        "--workers"@[0] == '-' && "--workers"@[1] == '-',
        "--max-conns-per-ip"@[0] == '-' && "--max-conns-per-ip"@[1] == '-',
        "--hsts-max-age"@[0] == '-' && "--hsts-max-age"@[1] == '-',
        "--host-whitelist"@[0] == '-' && "--host-whitelist"@[1] == '-',
        "-h"@[0] == '-',
        "--help"@[0] == '-' && "--help"@[1] == '-',
{
    reveal_strlit("--self-signed");
    reveal_strlit("--no-http3");
    reveal_strlit("--no-compress");
    reveal_strlit("--allow-http");
    reveal_strlit("--acme-accept-tos");
    reveal_strlit("--acme-staging");
    reveal_strlit("--hsts");
    reveal_strlit("--hsts-include-subdomains");
    reveal_strlit("--hsts-preload");
    reveal_strlit("--no-server-header");
    reveal_strlit("-c");
    reveal_strlit("--config");
    reveal_strlit("-l");
    reveal_strlit("--listen");
    reveal_strlit("--tls-cert");
    reveal_strlit("--tls-key");
    reveal_strlit("--http");
    reveal_strlit("--acme-email");
    reveal_strlit("--acme-directory");
    reveal_strlit("--cert-dir");
    reveal_strlit("--default-host");
    reveal_strlit("--server-name");
    reveal_strlit("--user");
    reveal_strlit("--chroot");
    reveal_strlit("--workers");
    reveal_strlit("--max-conns-per-ip");
    reveal_strlit("--hsts-max-age");
    reveal_strlit("--host-whitelist");
    reveal_strlit("-h");
    reveal_strlit("--help");
}

/// No option holds an equals sign where the joined forms have theirs.
#[verifier::spinoff_prover]
proof fn lemma_equals_signs()
    ensures
        "--self-signed"@.len() == 13 && "--self-signed"@[8] == 'i',
        "--no-http3"@.len() == 10 && "--no-http3"@[8] == 'p',
        "--no-compress"@.len() == 13 && "--no-compress"@[8] == 'p',
        "--allow-http"@.len() == 12 && "--allow-http"@[8] == 'h',
        "--acme-accept-tos"@.len() == 17 && "--acme-accept-tos"@[8] == 'c' && "--acme-accept-tos"@[13] == '-',
        "--acme-staging"@.len() == 14 && "--acme-staging"@[8] == 't' && "--acme-staging"@[13] == 'g',
        "--hsts"@.len() == 6,
        "--hsts-include-subdomains"@.len() == 25 && "--hsts-include-subdomains"@[8] == 'n' && "--hsts-include-subdomains"@[13] == 'e',
        "--hsts-preload"@.len() == 14 && "--hsts-preload"@[8] == 'r' && "--hsts-preload"@[13] == 'd',
        "--no-server-header"@.len() == 18 && "--no-server-header"@[8] == 'v' && "--no-server-header"@[13] == 'e',
        "-c"@.len() == 2,
        "--config"@.len() == 8,
        "-l"@.len() == 2,
        "--listen"@.len() == 8,
        "--tls-cert"@.len() == 10 && "--tls-cert"@[8] == 'r',
        "--tls-key"@.len() == 9 && "--tls-key"@[8] == 'y',
        "--http"@.len() == 6,
        "--acme-email"@.len() == 12 && "--acme-email"@[8] == 'm',
        "--acme-directory"@.len() == 16 && "--acme-directory"@[8] == 'i' && "--acme-directory"@[13] == 'o',
        "--cert-dir"@.len() == 10 && "--cert-dir"@[8] == 'i',
        "--default-host"@.len() == 14 && "--default-host"@[8] == 't' && "--default-host"@[13] == 't',
        "--server-name"@.len() == 13 && "--server-name"@[8] == '-',
        "--user"@.len() == 6,
        "--chroot"@.len() == 8,
        "--workers"@.len() == 9 && "--workers"@[8] == 's',
        "--max-conns-per-ip"@.len() == 18 && "--max-conns-per-ip"@[8] == 'n' && "--max-conns-per-ip"@[13] == 'e',
        "--hsts-max-age"@.len() == 14 && "--hsts-max-age"@[8] == 'a' && "--hsts-max-age"@[13] == 'e',
        "--host-whitelist"@.len() == 16 && "--host-whitelist"@[8] == 'h' && "--host-whitelist"@[13] == 'i',
        "-h"@.len() == 2,
        "--help"@.len() == 6,
{
    reveal_strlit("--self-signed");
    reveal_strlit("--no-http3");
    reveal_strlit("--no-compress");
    reveal_strlit("--allow-http");
    reveal_strlit("--acme-accept-tos");
    reveal_strlit("--acme-staging");
    reveal_strlit("--hsts");
    reveal_strlit("--hsts-include-subdomains");
    reveal_strlit("--hsts-preload");
    reveal_strlit("--no-server-header");
    reveal_strlit("-c");
    reveal_strlit("--config");
    reveal_strlit("-l");
    reveal_strlit("--listen");
    reveal_strlit("--tls-cert");
    reveal_strlit("--tls-key");
    reveal_strlit("--http");
    reveal_strlit("--acme-email");
    reveal_strlit("--acme-directory");
    reveal_strlit("--cert-dir");
    reveal_strlit("--default-host");
    reveal_strlit("--server-name");
    reveal_strlit("--user");
    reveal_strlit("--chroot");
    reveal_strlit("--workers");
    reveal_strlit("--max-conns-per-ip");
    reveal_strlit("--hsts-max-age");
    reveal_strlit("--host-whitelist");
    reveal_strlit("-h");
    reveal_strlit("--help");
}

/// A switch sets its own option and no other, wherever it stands.
pub proof fn law_switches(rest: Seq<Seq<char>>, o: OptionsModel, saw_dir: bool)
    ensures
        options_from(seq!["--self-signed"@] + rest, 0, o, saw_dir) == options_from(rest, 0, OptionsModel { self_signed: Some("localhost"@), ..o }, saw_dir),
        options_from(seq!["--no-http3"@] + rest, 0, o, saw_dir) == options_from(rest, 0, OptionsModel { no_http3: true, ..o }, saw_dir),
        options_from(seq!["--no-compress"@] + rest, 0, o, saw_dir) == options_from(rest, 0, OptionsModel { no_compress: true, ..o }, saw_dir),
        options_from(seq!["--allow-http"@] + rest, 0, o, saw_dir) == options_from(rest, 0, OptionsModel { allow_http: true, ..o }, saw_dir),
        options_from(seq!["--acme-accept-tos"@] + rest, 0, o, saw_dir) == options_from(rest, 0, OptionsModel { acme_accept_tos: true, ..o }, saw_dir),
        options_from(seq!["--acme-staging"@] + rest, 0, o, saw_dir) == options_from(rest, 0, OptionsModel { acme_staging: true, ..o }, saw_dir),
        options_from(seq!["--hsts"@] + rest, 0, o, saw_dir) == options_from(rest, 0, OptionsModel { hsts: true, ..o }, saw_dir),
        options_from(seq!["--hsts-include-subdomains"@] + rest, 0, o, saw_dir) == options_from(rest, 0, OptionsModel { hsts_include_subdomains: true, ..o }, saw_dir),
        options_from(seq!["--hsts-preload"@] + rest, 0, o, saw_dir) == options_from(rest, 0, OptionsModel { hsts_preload: true, ..o }, saw_dir),
        options_from(seq!["--no-server-header"@] + rest, 0, o, saw_dir) == options_from(rest, 0, OptionsModel { no_server_header: true, ..o }, saw_dir),
{
    reveal(switch_of);
    reveal(switched);
    lemma_names();
    lemma_options_behind(seq!["--self-signed"@], rest, 0, switched(o, switch_of("--self-signed"@)->0), saw_dir);
    lemma_options_behind(seq!["--no-http3"@], rest, 0, switched(o, switch_of("--no-http3"@)->0), saw_dir);
    lemma_options_behind(seq!["--no-compress"@], rest, 0, switched(o, switch_of("--no-compress"@)->0), saw_dir);
    lemma_options_behind(seq!["--allow-http"@], rest, 0, switched(o, switch_of("--allow-http"@)->0), saw_dir);
    lemma_options_behind(seq!["--acme-accept-tos"@], rest, 0, switched(o, switch_of("--acme-accept-tos"@)->0), saw_dir);
    lemma_options_behind(seq!["--acme-staging"@], rest, 0, switched(o, switch_of("--acme-staging"@)->0), saw_dir);
    lemma_options_behind(seq!["--hsts"@], rest, 0, switched(o, switch_of("--hsts"@)->0), saw_dir);
    lemma_options_behind(seq!["--hsts-include-subdomains"@], rest, 0, switched(o, switch_of("--hsts-include-subdomains"@)->0), saw_dir);
    lemma_options_behind(seq!["--hsts-preload"@], rest, 0, switched(o, switch_of("--hsts-preload"@)->0), saw_dir);
    lemma_options_behind(seq!["--no-server-header"@], rest, 0, switched(o, switch_of("--no-server-header"@)->0), saw_dir);
}

/// Which options take a value.
#[verifier::spinoff_prover]
proof fn lemma_valued_names()
    ensures
        valued_of("-c"@) == Some(Valued::Config) && switch_of("-c"@) is None,
        "-c"@ != "-h"@ && "-c"@ != "--help"@,
        valued_of("--config"@) == Some(Valued::Config) && switch_of("--config"@) is None,
        "--config"@ != "-h"@ && "--config"@ != "--help"@,
        valued_of("-l"@) == Some(Valued::Listen) && switch_of("-l"@) is None,
        "-l"@ != "-h"@ && "-l"@ != "--help"@,
        valued_of("--listen"@) == Some(Valued::Listen) && switch_of("--listen"@) is None,
        "--listen"@ != "-h"@ && "--listen"@ != "--help"@,
        valued_of("--tls-cert"@) == Some(Valued::TlsCert) && switch_of("--tls-cert"@) is None,
        "--tls-cert"@ != "-h"@ && "--tls-cert"@ != "--help"@,
        valued_of("--tls-key"@) == Some(Valued::TlsKey) && switch_of("--tls-key"@) is None,
        "--tls-key"@ != "-h"@ && "--tls-key"@ != "--help"@,
        valued_of("--http"@) == Some(Valued::Http) && switch_of("--http"@) is None,
        "--http"@ != "-h"@ && "--http"@ != "--help"@,
        valued_of("--acme-email"@) == Some(Valued::AcmeEmail) && switch_of("--acme-email"@) is None,
        "--acme-email"@ != "-h"@ && "--acme-email"@ != "--help"@,
        valued_of("--acme-directory"@) == Some(Valued::AcmeDirectory) && switch_of("--acme-directory"@) is None,
        "--acme-directory"@ != "-h"@ && "--acme-directory"@ != "--help"@,
        valued_of("--cert-dir"@) == Some(Valued::CertDir) && switch_of("--cert-dir"@) is None,
        "--cert-dir"@ != "-h"@ && "--cert-dir"@ != "--help"@,
        valued_of("--default-host"@) == Some(Valued::DefaultHost) && switch_of("--default-host"@) is None,
        "--default-host"@ != "-h"@ && "--default-host"@ != "--help"@,
        valued_of("--server-name"@) == Some(Valued::ServerName) && switch_of("--server-name"@) is None,
        "--server-name"@ != "-h"@ && "--server-name"@ != "--help"@,
        valued_of("--user"@) == Some(Valued::User) && switch_of("--user"@) is None,
        "--user"@ != "-h"@ && "--user"@ != "--help"@,
        valued_of("--chroot"@) == Some(Valued::Chroot) && switch_of("--chroot"@) is None,
        "--chroot"@ != "-h"@ && "--chroot"@ != "--help"@,
        valued_of("--workers"@) == Some(Valued::Workers) && switch_of("--workers"@) is None,
        "--workers"@ != "-h"@ && "--workers"@ != "--help"@,
        valued_of("--max-conns-per-ip"@) == Some(Valued::MaxConnsPerIp) && switch_of("--max-conns-per-ip"@) is None,
        "--max-conns-per-ip"@ != "-h"@ && "--max-conns-per-ip"@ != "--help"@,
        valued_of("--hsts-max-age"@) == Some(Valued::HstsMaxAge) && switch_of("--hsts-max-age"@) is None,
        "--hsts-max-age"@ != "-h"@ && "--hsts-max-age"@ != "--help"@,
        valued_of("--host-whitelist"@) == Some(Valued::HostWhitelist) && switch_of("--host-whitelist"@) is None,
        "--host-whitelist"@ != "-h"@ && "--host-whitelist"@ != "--help"@,
{
    reveal(valued_of);
    reveal(switch_of);
    lemma_names();
}

/// An option and its value are read together.
proof fn lemma_valued(
    name: Seq<char>,
    v: Seq<char>,
    rest: Seq<Seq<char>>,
    o: OptionsModel,
    saw_dir: bool,
)
    requires
        switch_of(name) is None,
        valued_of(name) is Some,
        name != "-h"@,
        name != "--help"@,
    ensures
        match assigned(o, valued_of(name)->0, v) {
            Ok(p) => options_from(seq![name, v] + rest, 0, o, saw_dir) == options_from(
                rest,
                0,
                p,
                saw_dir,
            ),
            Err(e) => options_from(seq![name, v] + rest, 0, o, saw_dir) is Err,
        },
{
    let all = seq![name, v] + rest;
    assert(all[0] == name && all[1] == v);
    if let Ok(p) = assigned(o, valued_of(name)->0, v) {
        lemma_options_behind(seq![name, v], rest, 0, p, saw_dir);
    }
}

/// An option with a text takes the argument behind it, as it stands.
pub proof fn law_text_options(v: Seq<char>, rest: Seq<Seq<char>>, o: OptionsModel, saw_dir: bool)
    ensures
        options_from(seq!["-c"@, v] + rest, 0, o, saw_dir) == options_from(rest, 0, OptionsModel { config: Some(v), ..o }, saw_dir),
        options_from(seq!["--config"@, v] + rest, 0, o, saw_dir) == options_from(rest, 0, OptionsModel { config: Some(v), ..o }, saw_dir),
        options_from(seq!["-l"@, v] + rest, 0, o, saw_dir) == options_from(rest, 0, OptionsModel { listen: v, ..o }, saw_dir),
        options_from(seq!["--listen"@, v] + rest, 0, o, saw_dir) == options_from(rest, 0, OptionsModel { listen: v, ..o }, saw_dir),
        options_from(seq!["--tls-cert"@, v] + rest, 0, o, saw_dir) == options_from(rest, 0, OptionsModel { tls_cert: Some(v), ..o }, saw_dir),
        options_from(seq!["--tls-key"@, v] + rest, 0, o, saw_dir) == options_from(rest, 0, OptionsModel { tls_key: Some(v), ..o }, saw_dir),
        options_from(seq!["--http"@, v] + rest, 0, o, saw_dir) == options_from(rest, 0, OptionsModel { http_listen: Some(v), ..o }, saw_dir),
        options_from(seq!["--acme-email"@, v] + rest, 0, o, saw_dir) == options_from(rest, 0, OptionsModel { acme_email: Some(v), ..o }, saw_dir),
        options_from(seq!["--acme-directory"@, v] + rest, 0, o, saw_dir) == options_from(rest, 0, OptionsModel { acme_directory: Some(v), ..o }, saw_dir),
        options_from(seq!["--cert-dir"@, v] + rest, 0, o, saw_dir) == options_from(rest, 0, OptionsModel { cert_dir: Some(v), ..o }, saw_dir),
        options_from(seq!["--default-host"@, v] + rest, 0, o, saw_dir) == options_from(rest, 0, OptionsModel { default_host: Some(v), ..o }, saw_dir),
        options_from(seq!["--server-name"@, v] + rest, 0, o, saw_dir) == options_from(rest, 0, OptionsModel { server_name: Some(v), ..o }, saw_dir),
        options_from(seq!["--user"@, v] + rest, 0, o, saw_dir) == options_from(rest, 0, OptionsModel { user: Some(v), ..o }, saw_dir),
        options_from(seq!["--chroot"@, v] + rest, 0, o, saw_dir) == options_from(rest, 0, OptionsModel { chroot: Some(v), ..o }, saw_dir),
        options_from(seq!["--host-whitelist"@, v] + rest, 0, o, saw_dir) == options_from(rest, 0, OptionsModel { host_whitelist: Some(listed(v)), ..o }, saw_dir),
{
    reveal(assigned);
    lemma_valued_names();
    lemma_valued("-c"@, v, rest, o, saw_dir);
    lemma_valued("--config"@, v, rest, o, saw_dir);
    lemma_valued("-l"@, v, rest, o, saw_dir);
    lemma_valued("--listen"@, v, rest, o, saw_dir);
    lemma_valued("--tls-cert"@, v, rest, o, saw_dir);
    lemma_valued("--tls-key"@, v, rest, o, saw_dir);
    lemma_valued("--http"@, v, rest, o, saw_dir);
    lemma_valued("--acme-email"@, v, rest, o, saw_dir);
    lemma_valued("--acme-directory"@, v, rest, o, saw_dir);
    lemma_valued("--cert-dir"@, v, rest, o, saw_dir);
    lemma_valued("--default-host"@, v, rest, o, saw_dir);
    lemma_valued("--server-name"@, v, rest, o, saw_dir);
    lemma_valued("--user"@, v, rest, o, saw_dir);
    lemma_valued("--chroot"@, v, rest, o, saw_dir);
    lemma_valued("--host-whitelist"@, v, rest, o, saw_dir);
}

/// An option with a number takes the decimal number behind it; what is no number is
/// refused.
pub proof fn law_number_options(n: nat, rest: Seq<Seq<char>>, o: OptionsModel, saw_dir: bool)
    ensures
        n <= usize::MAX ==> options_from(seq!["--workers"@, decimal(n)] + rest, 0, o, saw_dir) == options_from(rest, 0, OptionsModel { workers: Some(n as usize), ..o }, saw_dir),
        n > usize::MAX ==> options_from(seq!["--workers"@, decimal(n)] + rest, 0, o, saw_dir) is Err,
        n <= u32::MAX ==> options_from(seq!["--max-conns-per-ip"@, decimal(n)] + rest, 0, o, saw_dir) == options_from(rest, 0, OptionsModel { max_conns_per_ip: Some(n as u32), ..o }, saw_dir),
        n > u32::MAX ==> options_from(seq!["--max-conns-per-ip"@, decimal(n)] + rest, 0, o, saw_dir) is Err,
        n <= u64::MAX ==> options_from(seq!["--hsts-max-age"@, decimal(n)] + rest, 0, o, saw_dir) == options_from(rest, 0, OptionsModel { hsts_max_age: Some(n as u64), ..o }, saw_dir),
        n > u64::MAX ==> options_from(seq!["--hsts-max-age"@, decimal(n)] + rest, 0, o, saw_dir) is Err,
{
    reveal(assigned);
    lemma_valued_names();
    lemma_numeral(n, 10);
    assert(digit_val(decimal(n)[0], 10) is Some);
    lemma_valued("--workers"@, decimal(n), rest, o, saw_dir);
    lemma_valued("--max-conns-per-ip"@, decimal(n), rest, o, saw_dir);
    lemma_valued("--hsts-max-age"@, decimal(n), rest, o, saw_dir);
}

/// Reading goes on behind what has been read.
proof fn lemma_options_behind(
    a: Seq<Seq<char>>,
    b: Seq<Seq<char>>,
    i: int,
    o: OptionsModel,
    saw_dir: bool,
)
    requires
        0 <= i,
    ensures
        options_from(a + b, a.len() + i, o, saw_dir) == options_from(b, i, o, saw_dir),
    decreases b.len() - i,
{
    let all = a + b;
    if i < b.len() {
        let x = b[i];
        assert(all[a.len() + i] == x);
        if i + 1 < b.len() {
            assert(all[a.len() + i + 1] == b[i + 1]);
        }
        if switch_of(x) is Some {
            lemma_options_behind(a, b, i + 1, switched(o, switch_of(x)->0), saw_dir);
        } else if valued_of(x) is Some {
            if i + 1 < b.len() {
                if let Ok(p) = assigned(o, valued_of(x)->0, b[i + 1]) {
                    lemma_options_behind(a, b, i + 2, p, saw_dir);
                }
            }
        } else {
            if let Some(host) = strip_prefix(x, "--self-signed="@) {
                lemma_options_behind(
                    a,
                    b,
                    i + 1,
                    OptionsModel { self_signed: Some(host), ..o },
                    saw_dir,
                );
            } else if let Some(addr) = strip_prefix(x, "--listen="@) {
                lemma_options_behind(a, b, i + 1, OptionsModel { listen: addr, ..o }, saw_dir);
            } else {
                lemma_options_behind(a, b, i + 1, OptionsModel { dir: x, ..o }, true);
            }
        }
    }
}

/// An option whose value is missing is refused, and asking for help ends the reading.
pub proof fn law_missing_values_and_help(
    name: Seq<char>,
    rest: Seq<Seq<char>>,
    o: OptionsModel,
    saw_dir: bool,
)
    ensures
        name == "--listen"@ || name == "--workers"@ || name == "--tls-cert"@ || name
            == "--http"@ || name == "--user"@ || name == "--host-whitelist"@ ==> options_from(
            seq![name],
            0,
            o,
            saw_dir,
        ) is Err,
        name == "-h"@ || name == "--help"@ ==> options_from(seq![name] + rest, 0, o, saw_dir)
            == Ok::<Option<OptionsModel>, Seq<char>>(None),
{
    reveal(valued_of);
    reveal(switch_of);
    lemma_names();
    assert((seq![name] + rest)[0] == name);
}

/// What does not begin with a dash is the directory to serve; there is only one.
/// What begins with a dash and is no option is refused.
pub proof fn law_directory(dir: Seq<char>, rest: Seq<Seq<char>>, o: OptionsModel)
    requires
        dir.len() > 0,
    ensures
        dir[0] != '-' ==> options_from(seq![dir] + rest, 0, o, false) == options_from(
            rest,
            0,
            OptionsModel { dir, ..o },
            true,
        ),
        dir[0] != '-' ==> options_from(seq![dir] + rest, 0, o, true) is Err,
        dir.len() > 1 && dir[0] == '-' && dir[1] != '-' && dir != "-c"@ && dir != "-l"@ && dir
            != "-h"@ ==> options_from(seq![dir] + rest, 0, o, false) is Err,
{
    reveal(valued_of);
    reveal(switch_of);
    reveal_strlit("--self-signed=");
    reveal_strlit("--listen=");
    lemma_names();
    lemma_dashes();
    assert((seq![dir] + rest)[0] == dir);
    lemma_options_behind(seq![dir], rest, 0, OptionsModel { dir, ..o }, true);
    if let Some(h) = strip_prefix(dir, "--self-signed="@) {
        assert(dir.take("--self-signed="@.len() as int)[0] == dir[0]);
        assert(dir.take("--self-signed="@.len() as int)[1] == dir[1]);
    }
    if let Some(h) = strip_prefix(dir, "--listen="@) {
        assert(dir.take("--listen="@.len() as int)[0] == dir[0]);
        assert(dir.take("--listen="@.len() as int)[1] == dir[1]);
    }
}

/// A value may stand in the same argument, behind an equals sign.
pub proof fn law_joined_values(v: Seq<char>, rest: Seq<Seq<char>>, o: OptionsModel, saw_dir: bool)
    ensures
        options_from(seq!["--self-signed="@ + v] + rest, 0, o, saw_dir) == options_from(
            rest,
            0,
            OptionsModel { self_signed: Some(v), ..o },
            saw_dir,
        ),
        options_from(seq!["--listen="@ + v] + rest, 0, o, saw_dir) == options_from(
            rest,
            0,
            OptionsModel { listen: v, ..o },
            saw_dir,
        ),
{
    reveal(valued_of);
    reveal(switch_of);
    reveal_strlit("--self-signed=");
    reveal_strlit("--listen=");
    lemma_equals_signs();
    let a = "--self-signed="@ + v;
    let b = "--listen="@ + v;
    assert(a[13] == '=' && b[8] == '=');
    assert(a[2] == 's' && b[2] == 'l');
    law_strip_prefix("--self-signed="@, v);
    law_strip_prefix("--listen="@, v);
    if strip_prefix(b, "--self-signed="@) is Some {
        assert(b.take("--self-signed="@.len() as int)[2] == b[2]);
    }
    assert((seq![a] + rest)[0] == a);
    assert((seq![b] + rest)[0] == b);
    lemma_options_behind(seq![a], rest, 0, OptionsModel { self_signed: Some(v), ..o }, saw_dir);
    lemma_options_behind(seq![b], rest, 0, OptionsModel { listen: v, ..o }, saw_dir);
}

/// The entries of a list are what stands between its commas, without blanks around
/// them; blank ones are passed over.
pub proof fn law_listed_entries(parts: Seq<Seq<char>>, last: Seq<char>)
    requires
        forall|i: int| 0 <= i < parts.len() ==> !(#[trigger] parts[i]).contains(','),
        parts.len() > 0,
        !last.contains(','),
    ensures
        listed(concat(parts.push(last), seq![','])) == if trim(last).len() == 0 {
            listed(concat(parts, seq![',']))
        } else {
            listed(concat(parts, seq![','])).push(trim(last))
        },
{
    let all = parts.push(last);
    law_split_undoes_joining(parts, ',');
    assert forall|i: int| 0 <= i < all.len() implies !(#[trigger] all[i]).contains(',') by {
        if i < parts.len() {
            assert(all[i] == parts[i]);
        }
    }
    law_split_undoes_joining(all, ',');
    assert(all.drop_last() =~= parts);
}

/// The port of an address is the number behind its last colon, or 443 where there is
/// none.
pub proof fn law_port(host: Seq<char>, port: u16)
    ensures
        port_of(host + seq![':'] + decimal(port as nat)) == port,
        !host.contains(':') && host.len() > 0 && digit_val(host[0], 10) is None && host[0] != '+'
            ==> port_of(host) == 443,
{
    let d = decimal(port as nat);
    lemma_numeral(port as nat, 10);
    assert(!d.contains(':')) by {
        assert(digit_val(':', 10) is None);
    }
    lemma_unsplit(d, ':');
    lemma_split_around(host, d, ':');
    assert(split(host + seq![':'] + d, ':').last() == d);
    assert(digit_val(d[0], 10) is Some);
    if !host.contains(':') {
        lemma_unsplit(host, ':');
    }
}

/// The security header says how long it holds, a year unless told otherwise, and
/// what was asked for besides; nothing is sent where nothing was asked for.
pub proof fn law_hsts_value(o: OptionsModel)
    ensures
        !o.hsts && o.hsts_max_age is None && !o.hsts_include_subdomains && !o.hsts_preload
            ==> o.hsts_value() is None,
        o.hsts && o.hsts_max_age is None && !o.hsts_include_subdomains && !o.hsts_preload
            ==> o.hsts_value() == Some("max-age="@ + decimal(31536000)),
        o.hsts_max_age matches Some(n) && !o.hsts_include_subdomains && !o.hsts_preload
            ==> o.hsts_value() == Some("max-age="@ + decimal(o.hsts_max_age->0 as nat)),
        o.hsts_max_age is Some && o.hsts_include_subdomains && !o.hsts_preload ==> o.hsts_value()
            == Some("max-age="@ + decimal(o.hsts_max_age->0 as nat) + "; includeSubDomains"@),
        o.hsts_max_age is Some && o.hsts_include_subdomains && o.hsts_preload ==> o.hsts_value()
            == Some(
            "max-age="@ + decimal(o.hsts_max_age->0 as nat) + "; includeSubDomains"@ + "; preload"@,
        ),
{
    let e = Seq::<char>::empty();
    let age = match o.hsts_max_age {
        Some(n) => n,
        None => 31536000,
    };
    let a = "max-age="@ + decimal(age as nat);
    assert(a + e + e =~= a);
    assert(a + "; includeSubDomains"@ + e =~= a + "; includeSubDomains"@);
}

/// HTTP/3 is offered where there is TLS to serve it with, on the port that is
/// listened on, unless it is switched off.
pub proof fn law_http3_is_advertised(o: OptionsModel, host: Seq<char>, port: u16)
    requires
        o.listen == host + seq![':'] + decimal(port as nat),
    ensures
        !o.no_http3 && (o.tls_cert is Some || o.self_signed is Some || o.acme_accept_tos)
            ==> o.alt_svc() == Some("h3=\":"@ + decimal(port as nat) + "\"; ma=86400"@),
        o.no_http3 || (o.tls_cert is None && o.self_signed is None && !o.acme_accept_tos)
            ==> o.alt_svc() is None,
{
    law_port(host, port);
}

/// Automatic certificates need the terms to be accepted, and nothing less turns them
/// on.
pub proof fn law_terms_must_be_accepted(o: OptionsModel)
    ensures
        !o.acme_accept_tos ==> !(o.acme_config() matches Ok(Some(_))),
        o.acme_accept_tos ==> o.acme_config() matches Ok(Some(_)),
        o.acme_accept_tos && o.acme_directory is Some && !o.acme_staging ==> (
        o.acme_config() matches Ok(Some(c)) && c.directory_url == o.acme_directory->0),
{
}

/// Certificates come from the staging directory where that is asked for, else from the
/// directory that is named, else from the production one; the hosts that may have them
/// are those that are listed and the default one, by their canonical names.
pub proof fn law_automatic_certificates(o: OptionsModel, c: AcmeConfigModel, i: int)
    requires
        o.acme_config() == Ok::<Option<AcmeConfigModel>, ErrorModel>(Some(c)),
    ensures
        o.acme_staging ==> c.directory_url
            == "https://acme-staging-v02.api.letsencrypt.org/directory"@,
        !o.acme_staging && o.acme_directory is None ==> c.directory_url
            == "https://acme-v02.api.letsencrypt.org/directory"@,
        c.accept_tos,
        c.email == o.acme_email,
        c.cert_dir == o.cert_dir,
        o.host_whitelist is None ==> c.host_whitelist is None,
        o.host_whitelist is Some && 0 <= i < o.host_whitelist->0.len() ==> c.host_whitelist is Some
            && c.host_whitelist->0.contains(norm(o.host_whitelist->0[i])),
        o.host_whitelist is Some && o.default_host is Some && norm(o.default_host->0).len() > 0
            ==> c.host_whitelist is Some && c.host_whitelist->0.contains(norm(o.default_host->0)),
        o.default_host is Some && norm(o.default_host->0).len() > 0 ==> c.default_host == Some(
            norm(o.default_host->0),
        ),
        o.default_host is None ==> c.default_host is None,
{
    if o.host_whitelist is Some {
        let hosts = o.host_whitelist->0;
        let all = whitelist_of(hosts, usable_host(o.default_host));
        if 0 <= i < hosts.len() {
            assert(all[i] == norm(hosts[i]));
        }
        if usable_host(o.default_host) is Some {
            assert(all[hosts.len() as int] == norm(o.default_host->0));
        }
    }
}

} // verus!
