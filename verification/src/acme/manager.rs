//! What certificate to serve for a connection: the certificate cache, the
//! issuance back-off, the issuance permits and the challenge responses that the
//! TLS router and the HTTP listener read.
//!
//! The runtime holds the TLS acceptors; here they are known by number. Reading
//! the store, talking to the authority and building acceptors is the runtime's
//! work, at the points that [`CertChoice`], [`Recheck`] and [`Plan`] name.
use crate::acme::client::{acme, acme_error};
use crate::acme::jose::{sha256, sha256_of};
use crate::acme::client::LETSENCRYPT_PRODUCTION;
use crate::error::{Error, Result};
use crate::table::{above, is_least, Table};
use crate::text::{
    all_white, chars_find_text, chars_of, chars_trim, chars_trim_end_char, find_text, is_empty,
    law_trim, law_trim_end_char, law_white_space, list_contains, lower, opt_list, opt_text, owned,
    str_eq, text_of, texts, tight, to_lower, trim, trim_end_char,
};
use purecrypto::x509::Certificate;
use vstd::prelude::*;
use vstd::slice::slice_subrange;
use vstd::utf8::encode_utf8;

verus! {

broadcast use vstd::seq::group_seq_axioms;

/// Re-issue a certificate once it is within this window of expiry.
pub const RENEW_BEFORE_SECS: u64 = 2592000;

/// Maximum number of successfully issued certificates kept in memory. The
/// on-disk store is the source of truth; evicted entries are reloaded cheaply on
/// next use. Bounding this stops the success cache growing without limit under
/// many distinct names.
pub const CACHE_MAX: usize = 1024;

/// After an issuance failure for a host, refuse to re-attempt for this long.
/// This stops a non-issuable name from re-running the full blocking order/poll
/// flow on every connection.
pub const NEG_CACHE_COOLDOWN_SECS: u64 = 300;

/// Maximum number of remembered issuance failures.
pub const NEG_CACHE_MAX: usize = 4096;

/// Maximum number of certificate issuances allowed to run concurrently. Each can
/// block for tens of seconds; this caps the number of threads parked in the flow
/// regardless of how many distinct names arrive.
pub const MAX_INFLIGHT: usize = 16;

// ---------------------------------------------------------------------------
// Hosts and expiry
// ---------------------------------------------------------------------------

/// A host name in its canonical form: no white space around it, no trailing
/// dots, lower case.
pub open spec fn norm(host: Seq<char>) -> Seq<char> {
    lower(trim_end_char(trim(host), '.'))
}

/// Bring a host name into its canonical form.
pub fn normalize(host: &str) -> (r: String)
    ensures
        r@ == norm(host@),
{
    let c = chars_of(host);
    to_lower(text_of(chars_trim_end_char(chars_trim(c.as_slice()), '.')).as_str())
}

/// Whether a certificate with this expiry should be renewed: within the window,
/// or when its expiry is not known.
pub open spec fn expiring(not_after: Option<u64>, now: u64) -> bool {
    match not_after {
        Some(t) => now + RENEW_BEFORE_SECS >= t,
        None => true,
    }
}

/// Whether a certificate with this `not_after` should be renewed now. One whose
/// expiry is unknown is, so that it is not served forever.
pub fn near_expiry(not_after: Option<u64>, now: u64) -> (r: bool)
    ensures
        r == expiring(not_after, now),
{
    match not_after {
        Some(t) => t <= now || t - now <= RENEW_BEFORE_SECS,
        None => true,
    }
}

pub const BEGIN: &'static str = "-----BEGIN CERTIFICATE-----";

pub const END: &'static str = "-----END CERTIFICATE-----";

/// The first certificate block (the leaf) of a chain, markers included.
pub open spec fn leaf_of(pem: Seq<char>) -> Option<Seq<char>> {
    match find_text(pem, BEGIN@, 0) {
        None => None,
        Some(start) => match find_text(pem, END@, start) {
            None => None,
            Some(end) => Some(pem.subrange(start, (end + END@.len()) as int)),
        },
    }
}

/// Extract the first PEM `CERTIFICATE` block (the leaf) from a chain.
pub fn first_pem_cert(pem: &str) -> (r: Option<String>)
    ensures
        opt_text(r) == leaf_of(pem@),
{
    let c = chars_of(pem);
    let b = chars_of(BEGIN);
    let e = chars_of(END);
    let n: usize = c.len();
    match chars_find_text(c.as_slice(), b.as_slice(), 0) {
        None => None,
        Some(start) => match chars_find_text(c.as_slice(), e.as_slice(), start) {
            None => None,
            Some(end) => Some(text_of(slice_subrange(c.as_slice(), start, end + e.len()))),
        },
    }
}

/// When the certificate in a PEM document expires, in Unix seconds.
pub uninterp spec fn pem_not_after(pem: Seq<char>) -> Option<u64>;

/// `Certificate::from_pem`, and the `not_after` of its `validity` in Unix
/// seconds.
#[verifier::external_body]
pub(crate) fn not_after(pem: &str) -> (r: Option<u64>)
    ensures
        r == pem_not_after(pem@),
{
    let cert = Certificate::from_pem(pem).ok()?;
    Some(cert.validity().ok()?.not_after.to_unix())
}

/// When the leaf certificate of a chain expires.
pub open spec fn chain_not_after(pem: Seq<char>) -> Option<u64> {
    match leaf_of(pem) {
        Some(leaf) => pem_not_after(leaf),
        None => None,
    }
}

/// Parse the leaf certificate's expiry (Unix seconds) from a chain PEM. Only the
/// first block is parsed: it is the certificate whose expiry matters.
pub fn cert_not_after(chain_pem: &str) -> (r: Option<u64>)
    ensures
        r == chain_not_after(chain_pem@),
{
    match first_pem_cert(chain_pem) {
        Some(leaf) => not_after(leaf.as_str()),
        None => None,
    }
}

// ---------------------------------------------------------------------------
// Configuration
// ---------------------------------------------------------------------------

/// Configuration for automatic certificate management.
#[derive(Debug)]
pub struct AcmeConfig {
    /// ACME directory URL (defaults to Let's Encrypt production).
    pub directory_url: String,
    /// Whether the operator has accepted the authority's terms of service.
    /// Issuance is refused unless this is `true`.
    pub accept_tos: bool,
    /// Optional account contact email.
    pub email: Option<String>,
    /// If set, only these host names may be issued for; others are rejected.
    pub host_whitelist: Option<Vec<String>>,
    /// Host to route by when a connection sends no SNI. It is still subject to
    /// `host_whitelist`.
    pub default_host: Option<String>,
    /// Override the on-disk storage directory.
    pub cert_dir: Option<String>,
}

/// The model of the configuration.
#[verifier::ext_equal]
pub struct AcmeConfigModel {
    pub directory_url: Seq<char>,
    pub accept_tos: bool,
    pub email: Option<Seq<char>>,
    pub host_whitelist: Option<Seq<Seq<char>>>,
    pub default_host: Option<Seq<char>>,
    pub cert_dir: Option<Seq<char>>,
}

impl View for AcmeConfig {
    type V = AcmeConfigModel;

    open spec fn view(&self) -> AcmeConfigModel {
        AcmeConfigModel {
            directory_url: self.directory_url@,
            accept_tos: self.accept_tos,
            email: opt_text(self.email),
            host_whitelist: opt_list(self.host_whitelist),
            default_host: opt_text(self.default_host),
            cert_dir: opt_text(self.cert_dir),
        }
    }
}

impl Default for AcmeConfig {
    fn default() -> (r: AcmeConfig)
        ensures
            r@ == (AcmeConfigModel {
                directory_url: LETSENCRYPT_PRODUCTION@,
                accept_tos: false,
                email: None,
                host_whitelist: None,
                default_host: None,
                cert_dir: None,
            }),
    {
        AcmeConfig {
            directory_url: owned(LETSENCRYPT_PRODUCTION),
            accept_tos: false,
            email: None,
            host_whitelist: None,
            default_host: None,
            cert_dir: None,
        }
    }
}

/// The host to route a connection by: its SNI when there is one, otherwise the
/// configured default.
pub open spec fn routed_host(sni: Option<Seq<char>>, default_host: Option<Seq<char>>) -> Option<
    Seq<char>,
> {
    if sni is Some && norm(sni->0).len() > 0 {
        Some(norm(sni->0))
    } else if default_host is Some && norm(default_host->0).len() > 0 {
        Some(norm(default_host->0))
    } else {
        None
    }
}

/// Whether a host may be served.
pub open spec fn admitted(c: AcmeConfigModel, host: Seq<char>) -> bool {
    c.host_whitelist matches Some(list) ==> list.contains(host)
}

// ---------------------------------------------------------------------------
// The certificate cache
// ---------------------------------------------------------------------------

/// A certificate that is ready to be served: the runtime's acceptor and when it
/// expires.
#[derive(Debug, Clone, Copy, PartialEq, Eq, Structural)]
pub struct Cached {
    pub acceptor: u64,
    pub not_after: Option<u64>,
}

/// What the cache holds, and when each entry was last used.
#[verifier::ext_equal]
pub struct CacheModel {
    pub certs: Map<Seq<char>, Cached>,
    pub used: Map<Seq<char>, u64>,
    pub tick: u64,
}

/// The next reading of the use counter, which stops at its largest value.
pub open spec fn ticked(t: u64) -> u64 {
    if t < u64::MAX {
        (t + 1) as u64
    } else {
        t
    }
}

impl CacheModel {
    /// A host was looked up.
    pub open spec fn looked_up(self, host: Seq<char>) -> CacheModel {
        let tick = ticked(self.tick);
        CacheModel {
            tick,
            used: if self.certs.contains_key(host) {
                self.used.insert(host, tick)
            } else {
                self.used
            },
            ..self
        }
    }

    /// The entry of a host.
    pub open spec fn entry(self, host: Seq<char>) -> Option<Cached> {
        if self.certs.contains_key(host) {
            Some(self.certs[host])
        } else {
            None
        }
    }

    /// A certificate was put in, with room for it.
    pub open spec fn stored(self, host: Seq<char>, c: Cached) -> CacheModel {
        let tick = ticked(self.tick);
        CacheModel {
            tick,
            used: self.used.insert(host, tick),
            certs: self.certs.insert(host, c),
        }
    }

    /// Without the entry of a host.
    pub open spec fn without(self, host: Seq<char>) -> CacheModel {
        CacheModel { certs: self.certs.remove(host), used: self.used.remove(host), ..self }
    }

    /// Whether an entry has to make room for a host.
    pub open spec fn full_for(self, host: Seq<char>) -> bool {
        !self.certs.contains_key(host) && self.certs.len() >= CACHE_MAX
    }

    /// Every entry has a time of use, and there are not too many.
    pub open spec fn wf(self) -> bool {
        &&& self.certs.dom() == self.used.dom()
        &&& self.certs.dom().finite()
        &&& self.certs.len() <= CACHE_MAX
    }
}

/// A size-bounded, least-recently-used cache of issued certificates. Reads count
/// as use; when full, the least recently used entry is evicted.
#[derive(Debug)]
pub struct CertCache {
    certs: Table<Cached>,
    used: Table<u64>,
    tick: u64,
}

impl View for CertCache {
    type V = CacheModel;

    closed spec fn view(&self) -> CacheModel {
        CacheModel { certs: self.certs@, used: self.used@, tick: self.tick }
    }
}

impl CertCache {
    pub closed spec fn wf(self) -> bool {
        self.certs.wf() && self.used.wf() && self@.wf()
    }

    pub fn new() -> (r: CertCache)
        ensures
            r.wf(),
            r@ == (CacheModel { certs: Map::empty(), used: Map::empty(), tick: 0 }),
    {
        let r = CertCache { certs: Table::new(), used: Table::new(), tick: 0 };
        proof {
            assert(r@.certs.dom() =~= r@.used.dom());
        }
        r
    }

    fn advance(&mut self) -> (r: u64)
        requires
            old(self).wf(),
        ensures
            final(self).wf(),
            r == ticked(old(self)@.tick),
            final(self)@ == (CacheModel { tick: r, ..old(self)@ }),
    {
        if self.tick < u64::MAX {
            self.tick = self.tick + 1;
        }
        self.tick
    }

    /// Look up a host, which counts as use.
    pub fn get(&mut self, host: &str) -> (r: Option<Cached>)
        requires
            old(self).wf(),
        ensures
            final(self).wf(),
            final(self)@ == old(self)@.looked_up(host@),
            r == old(self)@.entry(host@),
    {
        let tick: u64 = self.advance();
        let found = match self.certs.get(host) {
            Some(c) => *c,
            None => {
                return None;
            },
        };
        self.used.insert(owned(host), tick);
        proof {
            assert(self@.certs.dom() =~= self@.used.dom());
        }
        Some(found)
    }

    /// Put a certificate in. Where there is no room, one that was used least
    /// recently makes way.
    pub fn put(&mut self, host: &str, c: Cached)
        requires
            old(self).wf(),
        ensures
            final(self).wf(),
            !old(self)@.full_for(host@) ==> final(self)@ == old(self)@.stored(host@, c),
            old(self)@.full_for(host@) ==> exists|lru: Seq<char>|
                is_least(old(self)@.used, lru) && final(self)@ == #[trigger] old(self)@.without(
                    lru,
                ).stored(host@, c),
    {
        let ghost m = self@;
        let tick: u64 = self.advance();
        let ghost mut lru: Seq<char> = Seq::empty();
        if self.certs.get(host).is_none() && self.certs.len() >= CACHE_MAX {
            match self.used.min_key() {
                Some(k) => {
                    self.certs.remove(k.as_str());
                    self.used.remove(k.as_str());
                    proof {
                        lru = k@;
                        assert(self@.certs.dom() =~= self@.used.dom());
                    }
                },
                None => {
                    proof {
                        assert(m.used.dom() =~= Set::empty());
                        assert(m.certs.dom() =~= Set::empty());
                    }
                },
            }
        }
        self.certs.insert(owned(host), c);
        self.used.insert(owned(host), tick);
        proof {
            assert(self@.certs.dom() =~= self@.used.dom());
            if m.full_for(host@) {
                assert(is_least(m.used, lru));
                assert(self@ =~= m.without(lru).stored(host@, c));
            } else {
                assert(self@ =~= m.stored(host@, c));
            }
        }
    }
}

// ---------------------------------------------------------------------------
// The manager
// ---------------------------------------------------------------------------

/// What the TLS router should do for a connection.
#[derive(Debug)]
pub enum CertChoice {
    /// Complete the handshake with the self-signed fallback.
    SelfSigned,
    /// Refuse the connection.
    Reject,
    /// Complete the handshake with this acceptor.
    Serve(u64),
    /// There is nothing ready for this host: take its lock and go on with
    /// [`AcmeManager::recheck`], or (without blocking) look into the store.
    Lookup(String),
}

/// The model of a choice.
pub enum CertChoiceModel {
    SelfSigned,
    Reject,
    Serve(u64),
    Lookup(Seq<char>),
}

impl View for CertChoice {
    type V = CertChoiceModel;

    open spec fn view(&self) -> CertChoiceModel {
        match self {
            CertChoice::SelfSigned => CertChoiceModel::SelfSigned,
            CertChoice::Reject => CertChoiceModel::Reject,
            CertChoice::Serve(a) => CertChoiceModel::Serve(*a),
            CertChoice::Lookup(h) => CertChoiceModel::Lookup(h@),
        }
    }
}

/// What to do with the lock of a host held.
#[derive(Debug, Clone, Copy, PartialEq, Eq, Structural)]
pub enum Recheck {
    /// Another connection has brought a certificate meanwhile.
    Serve(u64),
    /// A recent failure: do not try.
    BackOff,
    /// Look into the store.
    Load,
}

/// What to do once the store has been looked into.
#[derive(Debug, Clone, Copy, PartialEq, Eq, Structural)]
pub enum Plan {
    /// The stored certificate is good.
    UseStored,
    /// Ask the authority. A permit was taken; give it back with
    /// [`AcmeManager::settle`].
    Issue,
    /// Too many issuances are under way: shed load, without backing off.
    Busy,
}

/// What to do once the authority was asked.
#[derive(Debug, Clone, Copy, PartialEq, Eq, Structural)]
pub enum Settled {
    /// Serve the new certificate.
    Issued,
    /// Renewal failed, but the stored certificate is still valid: serve it.
    UseStored,
    /// There is nothing to serve.
    Failed,
}

/// The state of the manager.
#[verifier::ext_equal]
pub struct ManagerModel {
    pub cfg: AcmeConfigModel,
    pub cache: CacheModel,
    /// For each host that failed recently, when it may be tried again.
    pub failures: Map<Seq<char>, u64>,
    /// Issuances under way.
    pub in_flight: int,
    /// For each host under TLS-ALPN-01 validation, its acceptor.
    pub alpn: Map<Seq<char>, u64>,
    /// For each HTTP-01 token, its key authorization.
    pub http: Map<Seq<char>, Seq<char>>,
}

/// When a host that fails now may be tried again.
pub open spec fn retry_at(now: u64) -> u64 {
    if now <= u64::MAX - NEG_CACHE_COOLDOWN_SECS {
        (now + NEG_CACHE_COOLDOWN_SECS) as u64
    } else {
        u64::MAX
    }
}

/// Whether a host failed too recently to be tried.
pub open spec fn backing_off(m: ManagerModel, host: Seq<char>, now: u64) -> bool {
    m.failures.contains_key(host) && m.failures[host] > now
}

/// Whether the cache has a certificate for a host that is not about to expire.
pub open spec fn fresh(m: ManagerModel, host: Seq<char>, now: u64) -> bool {
    m.cache.entry(host) matches Some(c) && !expiring(c.not_after, now)
}

/// A host was looked up; a failure that lies back far enough is forgotten, unless
/// there was no need to look.
pub open spec fn checked(m: ManagerModel, host: Seq<char>, now: u64) -> (ManagerModel, Recheck) {
    let m1 = ManagerModel { cache: m.cache.looked_up(host), ..m };
    if fresh(m, host, now) {
        (m1, Recheck::Serve(m.cache.certs[host].acceptor))
    } else if backing_off(m, host, now) {
        (m1, Recheck::BackOff)
    } else {
        (ManagerModel { failures: m.failures.remove(host), ..m1 }, Recheck::Load)
    }
}

/// Which certificate to present for a connection.
pub open spec fn chosen(m: ManagerModel, sni: Option<Seq<char>>, loopback: bool, now: u64) -> (
    ManagerModel,
    CertChoiceModel,
) {
    match routed_host(sni, m.cfg.default_host) {
        None => (m, CertChoiceModel::SelfSigned),
        Some(host) => if loopback {
            (m, CertChoiceModel::SelfSigned)
        } else if !admitted(m.cfg, host) {
            (m, CertChoiceModel::Reject)
        } else {
            let (m1, r) = checked(m, host, now);
            (
                m1,
                match r {
                    Recheck::Serve(a) => CertChoiceModel::Serve(a),
                    Recheck::BackOff => CertChoiceModel::Reject,
                    Recheck::Load => CertChoiceModel::Lookup(host),
                },
            )
        },
    }
}

/// Which certificate to present without waiting for an issuance: one that is
/// cached, however old, or one from the store.
pub open spec fn chosen_cached(m: ManagerModel, sni: Option<Seq<char>>, loopback: bool) -> (
    ManagerModel,
    CertChoiceModel,
) {
    match routed_host(sni, m.cfg.default_host) {
        None => (m, CertChoiceModel::SelfSigned),
        Some(host) => if loopback {
            (m, CertChoiceModel::SelfSigned)
        } else if !admitted(m.cfg, host) {
            (m, CertChoiceModel::Reject)
        } else {
            (
                ManagerModel { cache: m.cache.looked_up(host), ..m },
                match m.cache.entry(host) {
                    Some(c) => CertChoiceModel::Serve(c.acceptor),
                    None => CertChoiceModel::Lookup(host),
                },
            )
        },
    }
}

/// Whether failures `f` become `g` when room is made for a host: expired entries
/// go first, and if that is not enough the soonest to expire.
pub open spec fn room_made(f: Map<Seq<char>, u64>, g: Map<Seq<char>, u64>, host: Seq<char>, now: u64) -> bool {
    if f.contains_key(host) || f.len() < NEG_CACHE_MAX {
        g == f
    } else if above(f, now).len() < NEG_CACHE_MAX {
        g == above(f, now)
    } else {
        exists|k: Seq<char>| is_least(above(f, now), k) && g == #[trigger] above(f, now).remove(k)
    }
}

/// Shared state of automatic certificates.
#[derive(Debug)]
pub struct AcmeManager {
    cfg: AcmeConfig,
    cache: CertCache,
    failures: Table<u64>,
    in_flight: usize,
    alpn: Table<u64>,
    http: Table<String>,
}

impl View for AcmeManager {
    type V = ManagerModel;

    closed spec fn view(&self) -> ManagerModel {
        ManagerModel {
            cfg: self.cfg@,
            cache: self.cache@,
            failures: self.failures@,
            in_flight: self.in_flight as int,
            alpn: self.alpn@,
            http: self.http@.map_values(|s: String| s@),
        }
    }
}

/// What a challenge asks of the runtime.
#[derive(Debug)]
pub enum Presented {
    /// The response is in place.
    InPlace,
    /// Build an acceptor for `host` with this digest and hand it to
    /// [`AcmeManager::present_acceptor`].
    BuildAcceptor { host: String, digest: Vec<u8> },
}

impl AcmeManager {
    /// What holds between any two calls: the caches and the permits stay within
    /// their bounds.
    pub closed spec fn wf(self) -> bool {
        &&& self.cache.wf()
        &&& self.failures.wf()
        &&& self.alpn.wf()
        &&& self.http.wf()
        &&& self.failures@.dom().finite()
        &&& self.failures@.len() <= NEG_CACHE_MAX
        &&& self.in_flight <= MAX_INFLIGHT
    }

    /// A manager with nothing cached.
    pub fn new(cfg: AcmeConfig) -> (r: AcmeManager)
        ensures
            r.wf(),
            r@ == (ManagerModel {
                cfg: cfg@,
                cache: CacheModel { certs: Map::empty(), used: Map::empty(), tick: 0 },
                failures: Map::empty(),
                in_flight: 0,
                alpn: Map::empty(),
                http: Map::empty(),
            }),
    {
        let r = AcmeManager {
            cfg,
            cache: CertCache::new(),
            failures: Table::new(),
            in_flight: 0,
            alpn: Table::new(),
            http: Table::new(),
        };
        proof {
            assert(r@.http =~= Map::empty());
        }
        r
    }

    /// The host to route a connection by: its SNI when present, otherwise the
    /// configured default. `None` means there is no usable host, so that the
    /// self-signed fallback is to be served.
    pub fn effective_host(&self, sni: Option<&str>) -> (r: Option<String>)
        ensures
            opt_text(r) == routed_host(
                match sni {
                    Some(s) => Some(s@),
                    None => None,
                },
                self@.cfg.default_host,
            ),
    {
        if let Some(s) = sni {
            let h = normalize(s);
            if !is_empty(h.as_str()) {
                return Some(h);
            }
        }
        match &self.cfg.default_host {
            Some(d) => {
                let h = normalize(d.as_str());
                if is_empty(h.as_str()) {
                    None
                } else {
                    Some(h)
                }
            },
            None => None,
        }
    }

    fn admits(&self, host: &str) -> (r: bool)
        ensures
            r == admitted(self@.cfg, host@),
    {
        match &self.cfg.host_whitelist {
            Some(list) => list_contains(list, host),
            None => true,
        }
    }

    /// Decide which certificate to present for a connection.
    pub fn choose_cert(&mut self, sni: Option<&str>, peer_is_loopback: bool, now: u64) -> (r: CertChoice)
        requires
            old(self).wf(),
        ensures
            final(self).wf(),
            (final(self)@, r@) == chosen(
                old(self)@,
                match sni {
                    Some(s) => Some(s@),
                    None => None,
                },
                peer_is_loopback,
                now,
            ),
    {
        // Loopback never gets a public certificate: there is nothing an
        // authority could verify.
        if peer_is_loopback {
            return CertChoice::SelfSigned;
        }
        let host = match self.effective_host(sni) {
            Some(h) => h,
            None => {
                return CertChoice::SelfSigned;
            },
        };
        if !self.admits(host.as_str()) {
            return CertChoice::Reject;
        }
        match self.recheck(host.as_str(), now) {
            Recheck::Serve(a) => CertChoice::Serve(a),
            Recheck::BackOff => CertChoice::Reject,
            Recheck::Load => CertChoice::Lookup(host),
        }
    }

    /// Like [`choose_cert`](AcmeManager::choose_cert), but never to be followed by an
    /// issuance: it serves a certificate that is cached or in the store. For an
    /// event loop that must not stall.
    pub fn choose_cached(&mut self, sni: Option<&str>, peer_is_loopback: bool) -> (r: CertChoice)
        requires
            old(self).wf(),
        ensures
            final(self).wf(),
            (final(self)@, r@) == chosen_cached(
                old(self)@,
                match sni {
                    Some(s) => Some(s@),
                    None => None,
                },
                peer_is_loopback,
            ),
    {
        if peer_is_loopback {
            return CertChoice::SelfSigned;
        }
        let host = match self.effective_host(sni) {
            Some(h) => h,
            None => {
                return CertChoice::SelfSigned;
            },
        };
        if !self.admits(host.as_str()) {
            return CertChoice::Reject;
        }
        match self.cache.get(host.as_str()) {
            Some(c) => CertChoice::Serve(c.acceptor),
            None => CertChoice::Lookup(host),
        }
    }

    /// Whether there is a certificate for `host` by now, or a recent failure.
    pub fn recheck(&mut self, host: &str, now: u64) -> (r: Recheck)
        requires
            old(self).wf(),
        ensures
            final(self).wf(),
            (final(self)@, r) == checked(old(self)@, host@, now),
    {
        let ghost m = self@;
        if let Some(c) = self.cache.get(host) {
            if !near_expiry(c.not_after, now) {
                return Recheck::Serve(c.acceptor);
            }
        }
        if self.in_backoff(host, now) {
            proof {
                assert(m.failures.contains_key(host@));
            }
            return Recheck::BackOff;
        }
        Recheck::Load
    }

    /// Whether `host` is within an issuance-failure cooldown. A cooldown that is
    /// over is forgotten.
    fn in_backoff(&mut self, host: &str, now: u64) -> (r: bool)
        requires
            old(self).wf(),
        ensures
            final(self).wf(),
            r == backing_off(old(self)@, host@, now),
            r ==> final(self)@ == old(self)@,
            !r ==> final(self)@ == (ManagerModel {
                failures: old(self)@.failures.remove(host@),
                ..old(self)@
            }),
    {
        let ghost f = self.failures@;
        let retry: Option<u64> = match self.failures.get(host) {
            Some(t) => Some(*t),
            None => None,
        };
        match retry {
            Some(t) => {
                if t > now {
                    return true;
                }
                self.failures.remove(host);
                false
            },
            None => {
                proof {
                    assert(f.remove(host@) =~= f);
                }
                false
            },
        }
    }

    /// The store has (or has not) a certificate for a host, with this expiry:
    /// use it unless it is about to expire, else take a permit to ask the
    /// authority.
    pub fn plan(&mut self, stored: Option<Option<u64>>, now: u64) -> (r: Plan)
        requires
            old(self).wf(),
        ensures
            final(self).wf(),
            ({
                let good = stored matches Some(t) && !expiring(t, now);
                &&& r == (if good {
                    Plan::UseStored
                } else if old(self)@.in_flight >= MAX_INFLIGHT {
                    Plan::Busy
                } else {
                    Plan::Issue
                })
                &&& final(self)@ == (ManagerModel {
                    in_flight: old(self)@.in_flight + (if r == Plan::Issue {
                        1int
                    } else {
                        0
                    }),
                    ..old(self)@
                })
            }),
    {
        if let Some(t) = stored {
            if !near_expiry(t, now) {
                return Plan::UseStored;
            }
        }
        if self.in_flight >= MAX_INFLIGHT {
            return Plan::Busy;
        }
        self.in_flight = self.in_flight + 1;
        Plan::Issue
    }

    /// Whether issuance is allowed at all.
    pub fn may_issue(&self) -> (r: Result<()>)
        ensures
            match r {
                Ok(_) => self@.cfg.accept_tos,
                Err(e) => !self@.cfg.accept_tos && e@ == acme_error(
                    "automatic issuance disabled: the CA terms of service have not been accepted"@,
                ),
            },
    {
        if self.cfg.accept_tos {
            Ok(())
        } else {
            Err(
                acme(
                    "automatic issuance disabled: the CA terms of service have not been accepted",
                ),
            )
        }
    }

    /// The authority was asked: give the permit back. A failure is remembered,
    /// unless the stored certificate is still valid.
    pub fn settle(&mut self, host: &str, issued: bool, stored: Option<Option<u64>>, now: u64) -> (r:
        Settled)
        requires
            old(self).wf(),
            old(self)@.in_flight > 0,
        ensures
            final(self).wf(),
            ({
                let valid = stored matches Some(Some(t)) && t > now;
                &&& r == (if issued {
                    Settled::Issued
                } else if valid {
                    Settled::UseStored
                } else {
                    Settled::Failed
                })
                &&& final(self)@ == (ManagerModel {
                    in_flight: old(self)@.in_flight - 1,
                    failures: final(self)@.failures,
                    ..old(self)@
                })
                &&& match r {
                    Settled::Issued => final(self)@.failures == old(self)@.failures.remove(host@),
                    Settled::UseStored => final(self)@.failures == old(self)@.failures,
                    Settled::Failed => failure_recorded(
                        old(self)@.failures,
                        final(self)@.failures,
                        host@,
                        now,
                    ),
                }
            }),
    {
        self.in_flight = self.in_flight - 1;
        if issued {
            self.failures.remove(host);
            return Settled::Issued;
        }
        if let Some(Some(t)) = stored {
            if t > now {
                return Settled::UseStored;
            }
        }
        self.record_failure(host, now);
        Settled::Failed
    }

    /// Remember an issuance failure for `host`, bounding the number remembered.
    fn record_failure(&mut self, host: &str, now: u64)
        requires
            old(self).wf(),
        ensures
            final(self).wf(),
            failure_recorded(old(self)@.failures, final(self)@.failures, host@, now),
            final(self)@ == (ManagerModel { failures: final(self)@.failures, ..old(self)@ }),
    {
        let ghost f = self.failures@;
        let retry: u64 = if now <= u64::MAX - NEG_CACHE_COOLDOWN_SECS {
            now + NEG_CACHE_COOLDOWN_SECS
        } else {
            u64::MAX
        };
        if self.failures.get(host).is_none() && self.failures.len() >= NEG_CACHE_MAX {
            self.failures.retain_above(now);
            if self.failures.len() >= NEG_CACHE_MAX {
                if let Some(k) = self.failures.min_key() {
                    self.failures.remove(k.as_str());
                    proof {
                        assert(is_least(above(f, now), k@));
                        assert(self.failures@ == above(f, now).remove(k@));
                    }
                }
            }
        }
        let ghost g = self.failures@;
        proof {
            lemma_above_is_smaller(f, now);
            assert(room_made(f, g, host@, now));
        }
        self.failures.insert(owned(host), retry);
        proof {
            assert(retry == retry_at(now));
            assert(self.failures@ == g.insert(host@, retry_at(now)));
        }
    }

    /// A certificate for `host` is ready: remember its acceptor.
    pub fn cache_put(&mut self, host: &str, acceptor: u64, not_after: Option<u64>)
        requires
            old(self).wf(),
        ensures
            final(self).wf(),
            final(self)@ == (ManagerModel { cache: final(self)@.cache, ..old(self)@ }),
            put_in(old(self)@.cache, final(self)@.cache, host@, (Cached { acceptor, not_after })),
    {
        self.cache.put(host, Cached { acceptor, not_after });
    }

    /// Forget every certificate in memory, so that the store is looked at again.
    pub fn clear_cache(&mut self)
        requires
            old(self).wf(),
        ensures
            final(self).wf(),
            final(self)@ == (ManagerModel {
                cache: CacheModel { certs: Map::empty(), used: Map::empty(), tick: 0 },
                ..old(self)@
            }),
    {
        self.cache = CertCache::new();
    }

    /// Forget any failure of `host` (its certificate was found in the store).
    pub fn clear_failure(&mut self, host: &str)
        requires
            old(self).wf(),
        ensures
            final(self).wf(),
            final(self)@ == (ManagerModel {
                failures: old(self)@.failures.remove(host@),
                ..old(self)@
            }),
    {
        self.failures.remove(host);
    }

    // ---- challenges ----

    /// The challenge types that can be fulfilled, most preferred first.
    pub fn preferred() -> (r: Vec<String>)
        ensures
            texts(r@) == seq!["tls-alpn-01"@, "http-01"@],
    {
        let mut v: Vec<String> = Vec::new();
        v.push(owned("tls-alpn-01"));
        v.push(owned("http-01"));
        proof {
            assert(texts(v@) =~= seq!["tls-alpn-01"@, "http-01"@]);
        }
        v
    }

    /// Put a challenge response in place.
    pub fn present(&mut self, typ: &str, host: &str, token: &str, key_auth: &str) -> (r: Result<
        Presented,
    >)
        requires
            old(self).wf(),
        ensures
            final(self).wf(),
            final(self)@ == (if typ@ == "http-01"@ {
                ManagerModel { http: old(self)@.http.insert(token@, key_auth@), ..old(self)@ }
            } else {
                old(self)@
            }),
            match r {
                Ok(Presented::InPlace) => typ@ == "http-01"@,
                Ok(Presented::BuildAcceptor { host: h, digest }) => typ@ == "tls-alpn-01"@ && h@
                    == host@ && digest@ == sha256_of(encode_utf8(key_auth@)),
                Err(e) => typ@ != "http-01"@ && typ@ != "tls-alpn-01"@ && e@ == acme_error(
                    "unsupported challenge: "@ + typ@,
                ),
            },
    {
        proof {
            reveal_strlit("tls-alpn-01");
            reveal_strlit("http-01");
        }
        if str_eq(typ, "tls-alpn-01") {
            Ok(
                Presented::BuildAcceptor {
                    host: owned(host),
                    digest: sha256(key_auth.as_bytes()),
                },
            )
        } else if str_eq(typ, "http-01") {
            let ghost m = self@;
            self.http.insert(owned(token), owned(key_auth));
            proof {
                assert(self@.http =~= m.http.insert(token@, key_auth@));
            }
            Ok(Presented::InPlace)
        } else {
            let mut s = owned("unsupported challenge: ");
            s.push_str(typ);
            Err(Error::Acme(s))
        }
    }

    /// The acceptor of a TLS-ALPN-01 challenge is ready.
    pub fn present_acceptor(&mut self, host: &str, acceptor: u64)
        requires
            old(self).wf(),
        ensures
            final(self).wf(),
            final(self)@ == (ManagerModel {
                alpn: old(self)@.alpn.insert(norm(host@), acceptor),
                ..old(self)@
            }),
    {
        self.alpn.insert(normalize(host), acceptor);
    }

    /// Tear a challenge response down.
    pub fn cleanup(&mut self, typ: &str, host: &str, token: &str)
        requires
            old(self).wf(),
        ensures
            final(self).wf(),
            final(self)@ == (if typ@ == "tls-alpn-01"@ {
                ManagerModel { alpn: old(self)@.alpn.remove(norm(host@)), ..old(self)@ }
            } else if typ@ == "http-01"@ {
                ManagerModel { http: old(self)@.http.remove(token@), ..old(self)@ }
            } else {
                old(self)@
            }),
    {
        let ghost m = self@;
        if str_eq(typ, "tls-alpn-01") {
            self.alpn.remove(normalize(host).as_str());
        } else if str_eq(typ, "http-01") {
            self.http.remove(token);
            proof {
                assert(self@.http =~= m.http.remove(token@));
            }
        }
    }

    /// The TLS-ALPN-01 challenge acceptor for `host`, if a validation is in
    /// progress. The TLS router uses this when the client offers `acme-tls/1`.
    pub fn challenge_acceptor(&self, host: &str) -> (r: Option<u64>)
        requires
            self.wf(),
        ensures
            r == (if self@.alpn.contains_key(norm(host@)) {
                Some(self@.alpn[norm(host@)])
            } else {
                None
            }),
    {
        match self.alpn.get(normalize(host).as_str()) {
            Some(a) => Some(*a),
            None => None,
        }
    }

    /// The HTTP-01 key authorization for `token`, if any (served by the HTTP
    /// listener at `/.well-known/acme-challenge/<token>`).
    pub fn http_challenge(&self, token: &str) -> (r: Option<String>)
        requires
            self.wf(),
        ensures
            opt_text(r) == (if self@.http.contains_key(token@) {
                Some(self@.http[token@])
            } else {
                None
            }),
    {
        match self.http.get(token) {
            Some(s) => Some(owned(s.as_str())),
            None => None,
        }
    }
}

/// Whether a failure was remembered.
pub open spec fn failure_recorded(
    f: Map<Seq<char>, u64>,
    g: Map<Seq<char>, u64>,
    host: Seq<char>,
    now: u64,
) -> bool {
    exists|room: Map<Seq<char>, u64>|
        room_made(f, room, host, now) && g == #[trigger] room.insert(host, retry_at(now))
}

/// Whether a certificate was put into the cache.
pub open spec fn put_in(a: CacheModel, b: CacheModel, host: Seq<char>, c: Cached) -> bool {
    if a.full_for(host) {
        exists|lru: Seq<char>| is_least(a.used, lru) && b == #[trigger] a.without(lru).stored(host, c)
    } else {
        b == a.stored(host, c)
    }
}

proof fn lemma_above_is_smaller(f: Map<Seq<char>, u64>, floor: u64)
    requires
        f.dom().finite(),
    ensures
        above(f, floor).dom().finite(),
        above(f, floor).len() <= f.len(),
{
    let a = above(f, floor);
    assert(a.dom() =~= f.dom().intersect(Set::new(|k: Seq<char>| f.contains_key(k) && f[k] > floor)));
    vstd::set_lib::lemma_len_subset(a.dom(), f.dom());
}

// ---------------------------------------------------------------------------
// Laws
// ---------------------------------------------------------------------------

/// A loopback peer and a connection without a usable host get the self-signed
/// fallback, and change nothing.
pub proof fn law_local_connections_get_the_fallback(m: ManagerModel, sni: Option<Seq<char>>, now: u64)
    ensures
        chosen(m, sni, true, now) == (m, CertChoiceModel::SelfSigned),
        chosen_cached(m, sni, true) == (m, CertChoiceModel::SelfSigned),
        routed_host(sni, m.cfg.default_host) is None ==> chosen(m, sni, false, now) == (
            m,
            CertChoiceModel::SelfSigned,
        ),
{
}

/// A host that is not on the list is rejected, and never looked up.
pub proof fn law_unlisted_hosts_are_rejected(m: ManagerModel, sni: Option<Seq<char>>, now: u64)
    requires
        routed_host(sni, m.cfg.default_host) matches Some(h) && !admitted(m.cfg, h),
    ensures
        chosen(m, sni, false, now) == (m, CertChoiceModel::Reject),
        chosen_cached(m, sni, false) == (m, CertChoiceModel::Reject),
{
}

/// A host that failed is not tried again until the cooldown is over, and then it
/// is.
pub proof fn law_failure_backs_off(
    m: ManagerModel,
    n: ManagerModel,
    host: Seq<char>,
    now: u64,
    later: u64,
)
    requires
        failure_recorded(m.failures, n.failures, host, now),
        !fresh(n, host, later),
    ensures
        later < retry_at(now) ==> checked(n, host, later).1 == Recheck::BackOff,
        later >= retry_at(now) ==> checked(n, host, later).1 == Recheck::Load,
{
}

/// A fresh certificate is served whatever happened before.
pub proof fn law_fresh_certificate_is_served(m: ManagerModel, n: CacheModel, host: Seq<char>, c: Cached, now: u64)
    requires
        put_in(m.cache, n, host, c),
        !expiring(c.not_after, now),
    ensures
        checked(ManagerModel { cache: n, ..m }, host, now).1 == Recheck::Serve(c.acceptor),
{
}

/// A host is known by its name, whatever its case, the blanks around it and a dot at
/// its end.
pub proof fn law_canonical_hosts(host: Seq<char>, a: Seq<char>, b: Seq<char>, k: nat)
    requires
        host.len() > 0,
        tight(host),
        host.last() != '.',
        all_white(a),
        all_white(b),
    ensures
        norm(host) == lower(host),
        norm(a + host + b) == lower(host),
        norm(host + Seq::new(k, |i: int| '.')) == lower(host),
{
    let e = Seq::<char>::empty();
    law_trim(e, host, e);
    assert(e + host + e =~= host);
    law_trim(a, host, b);
    law_trim_end_char(host, '.', 0);
    assert(host + Seq::new(0, |i: int| '.') =~= host);
    let dots = host + Seq::new(k, |i: int| '.');
    law_trim_end_char(host, '.', k);
    assert(tight(dots)) by {
        law_white_space('.');
        assert(dots[0] == host[0]);
        assert(dots.last() == if k == 0 {
            host.last()
        } else {
            '.'
        });
    }
    law_trim(e, dots, e);
    assert(e + dots + e =~= dots);
}

/// A connection goes to the host that it asks for, by its canonical name, and to the
/// configured one where it asks for none.
pub proof fn law_routing(m: ManagerModel, asked: Seq<char>, default_host: Seq<char>)
    ensures
        norm(asked).len() > 0 ==> routed_host(Some(asked), m.cfg.default_host) == Some(norm(asked)),
        norm(default_host).len() > 0 ==> routed_host(None, Some(default_host)) == Some(
            norm(default_host),
        ),
        norm(asked).len() == 0 ==> routed_host(Some(asked), m.cfg.default_host) == routed_host(
            None,
            m.cfg.default_host,
        ),
        routed_host(None, None) is None,
{
}

/// A certificate is renewed in its last thirty days, and where its end is unknown.
pub proof fn law_renewal(not_after: u64, now: u64)
    ensures
        expiring(Some(not_after), now) <==> not_after - now <= 30 * 24 * 60 * 60,
        expiring(None, now),
{
}

/// The leaf of a chain is its first certificate, markers and all, whatever stands
/// before and behind it.
pub proof fn law_leaf(a: Seq<char>, body: Seq<char>, b: Seq<char>)
    requires
        find_text(a + BEGIN@ + body + END@ + b, BEGIN@, 0) == Some(a.len() as int),
        find_text(a + BEGIN@ + body + END@ + b, END@, a.len() as int) == Some(
            (a + BEGIN@ + body).len() as int,
        ),
    ensures
        leaf_of(a + BEGIN@ + body + END@ + b) == Some(
            "-----BEGIN CERTIFICATE-----"@ + body + "-----END CERTIFICATE-----"@,
        ),
{
    let pem = a + BEGIN@ + body + END@ + b;
    let start = a.len() as int;
    let end = (a + BEGIN@ + body).len() + END@.len();
    assert(pem.subrange(start, end as int) =~= BEGIN@ + body + END@);
}

/// Any host is served where there is no list, and only the listed ones where there
/// is one.
pub proof fn law_admission(c: AcmeConfigModel, host: Seq<char>, i: int)
    ensures
        c.host_whitelist is None ==> admitted(c, host),
        c.host_whitelist matches Some(list) ==> 0 <= i < list.len() && list[i] == host ==> admitted(
            c,
            host,
        ),
        c.host_whitelist matches Some(list) ==> (forall|j: int|
            0 <= j < list.len() ==> #[trigger] list[j] != host) ==> !admitted(c, host),
{
}

/// A host that failed waits for five minutes.
pub proof fn law_cooldown(now: u64)
    requires
        now + 300 <= u64::MAX,
    ensures
        retry_at(now) == now + 300,
{
}

/// A full cache makes room by giving up one entry, and none that was used after
/// another; every other entry stays.
pub proof fn law_cache_eviction(
    a: CacheModel,
    b: CacheModel,
    host: Seq<char>,
    c: Cached,
    kept: Seq<char>,
    other: Seq<char>,
)
    requires
        a.wf(),
        put_in(a, b, host, c),
        a.certs.contains_key(kept),
        kept != host,
    ensures
        b.entry(host) == Some(c),
        a.certs.contains_key(host) || a.certs.len() < CACHE_MAX ==> b.entry(kept) == a.entry(kept),
        b.entry(kept) is None && a.certs.contains_key(other) ==> a.used[kept] <= a.used[other],
        b.entry(kept) is Some ==> b.entry(kept) == a.entry(kept),
        b.entry(kept) is None && a.certs.contains_key(other) && other != kept && other != host
            ==> b.entry(other) == a.entry(other),
{
    assert(a.used.contains_key(kept));
    if a.certs.contains_key(other) {
        assert(a.certs.dom().contains(other));
        assert(a.used.contains_key(other));
    }
}

/// Looking a host up makes it the one used last.
pub proof fn law_lookup_counts_as_use(a: CacheModel, host: Seq<char>, other: Seq<char>)
    requires
        a.certs.contains_key(host),
        other != host,
        a.tick < u64::MAX,
    ensures
        a.looked_up(host).certs == a.certs,
        a.looked_up(host).used[host] > a.tick,
        a.looked_up(host).used[other] == a.used[other],
{
}

/// A host that may be served gets its certificate from the cache while that is fresh;
/// otherwise it is looked for, unless the host failed a moment ago.
pub proof fn law_choice(m: ManagerModel, asked: Seq<char>, c: Cached, now: u64)
    requires
        norm(asked).len() > 0,
        admitted(m.cfg, norm(asked)),
    ensures
        ({
            let host = norm(asked);
            let choice = chosen(m, Some(asked), false, now).1;
            let failing = m.failures.contains_key(host) && m.failures[host] > now;
            let good = m.cache.certs.contains_key(host) && m.cache.certs[host] == c
                && c.not_after is Some && c.not_after->0 > now + 30 * 24 * 60 * 60;
            let none = !m.cache.certs.contains_key(host);
            &&& good ==> choice == CertChoiceModel::Serve(c.acceptor)
            &&& none && failing ==> choice == CertChoiceModel::Reject
            &&& none && !failing ==> choice == CertChoiceModel::Lookup(host)
            &&& none ==> chosen_cached(m, Some(asked), false).1 == CertChoiceModel::Lookup(host)
            &&& m.cache.certs.contains_key(host) && m.cache.certs[host] == c ==> chosen_cached(
                m,
                Some(asked),
                false,
            ).1 == CertChoiceModel::Serve(c.acceptor)
        }),
{
}

} // verus!
