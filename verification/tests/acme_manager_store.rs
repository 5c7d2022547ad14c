use httpsd::acme::manager::{
    cert_not_after, first_pem_cert, near_expiry, normalize, AcmeConfig, AcmeManager, CertChoice,
    Plan, Recheck, Settled, CACHE_MAX, MAX_INFLIGHT,
};
use httpsd::acme::store::{FileText, Store};
use httpsd::tls::TlsAcceptor;

#[test]
fn expiry_window() {
    let now = 1_000_000_000;
    assert!(near_expiry(Some(now + 10 * 86_400), now)); // 10 days left → renew
    assert!(!near_expiry(Some(now + 60 * 86_400), now)); // 60 days left → keep
    assert!(near_expiry(None, now)); // unknown expiry → renew, don't serve forever
}

#[test]
fn effective_host_falls_back_to_default_host() {
    let mgr = AcmeManager::new(AcmeConfig {
        default_host: Some("Example.COM.".into()), // mixed case + trailing dot
        ..Default::default()
    });

    // SNI present → route by it.
    assert_eq!(
        mgr.effective_host(Some("foo.test")).as_deref(),
        Some("foo.test")
    );
    // No SNI (or empty) → the normalized default host.
    assert_eq!(mgr.effective_host(None).as_deref(), Some("example.com"));
    assert_eq!(mgr.effective_host(Some("")).as_deref(), Some("example.com"));

    // Without a default host, no SNI → None (caller serves self-signed).
    let mgr2 = AcmeManager::new(AcmeConfig::default());
    assert_eq!(mgr2.effective_host(None), None);
}

#[test]
fn first_pem_cert_takes_the_leaf_from_a_chain() {
    // A fullchain has several blocks; the leaf is the first.
    let chain = "junk before\n\
        -----BEGIN CERTIFICATE-----\nLEAF\n-----END CERTIFICATE-----\n\
        -----BEGIN CERTIFICATE-----\nINTERMEDIATE\n-----END CERTIFICATE-----\n";
    let leaf = first_pem_cert(chain).expect("a leaf block");
    assert!(leaf.contains("LEAF"));
    assert!(!leaf.contains("INTERMEDIATE"));
    assert!(leaf.starts_with("-----BEGIN CERTIFICATE-----"));
    assert!(leaf.trim_end().ends_with("-----END CERTIFICATE-----"));
    assert!(first_pem_cert("no pem here").is_none());
}

#[test]
fn normalize_host() {
    assert_eq!(normalize(" Example.COM. "), "example.com");
}

fn b64(data: &[u8]) -> String {
    let table = b"ABCDEFGHIJKLMNOPQRSTUVWXYZabcdefghijklmnopqrstuvwxyz0123456789+/";
    let mut out = String::new();
    for c in data.chunks(3) {
        let b = [c[0], *c.get(1).unwrap_or(&0), *c.get(2).unwrap_or(&0)];
        let n = (b[0] as u32) << 16 | (b[1] as u32) << 8 | b[2] as u32;
        for i in 0..4 {
            if i <= c.len() {
                out.push(table[(n >> (18 - 6 * i) & 63) as usize] as char);
            } else {
                out.push('=');
            }
        }
    }
    out
}

#[test]
fn certificate_expiry_is_read() {
    let a = TlsAcceptor::self_signed(&vec!["localhost".to_owned()]).unwrap();
    let pem = format!(
        "-----BEGIN CERTIFICATE-----\n{}\n-----END CERTIFICATE-----\n",
        b64(&a.chain()[0])
    );
    // 2040-01-01T00:00:00Z
    assert_eq!(cert_not_after(&pem), Some(2_208_988_800));
    assert_eq!(cert_not_after("nothing"), None);
}

fn manager() -> AcmeManager {
    AcmeManager::new(AcmeConfig {
        accept_tos: true,
        host_whitelist: Some(vec!["a.test".to_owned()]),
        ..Default::default()
    })
}

#[test]
fn choosing_a_certificate() {
    let mut m = manager();
    let now = 1_000_000;
    assert!(matches!(m.choose_cert(None, false, now), CertChoice::SelfSigned));
    assert!(matches!(m.choose_cert(Some("a.test"), true, now), CertChoice::SelfSigned));
    assert!(matches!(m.choose_cert(Some("b.test"), false, now), CertChoice::Reject));
    match m.choose_cert(Some("A.test."), false, now) {
        CertChoice::Lookup(h) => assert_eq!(h, "a.test"),
        other => panic!("{other:?}"),
    }
    m.cache_put("a.test", 7, Some(now + 90 * 86_400));
    assert!(matches!(m.choose_cert(Some("a.test"), false, now), CertChoice::Serve(7)));
    assert!(matches!(m.choose_cached(Some("a.test"), false), CertChoice::Serve(7)));
}

#[test]
fn failures_back_off() {
    let mut m = manager();
    let now = 1_000_000;
    assert_eq!(m.recheck("a.test", now), Recheck::Load);
    assert_eq!(m.plan(None, now), Plan::Issue);
    assert_eq!(m.settle("a.test", false, None, now), Settled::Failed);
    assert_eq!(m.recheck("a.test", now + 299), Recheck::BackOff);
    assert_eq!(m.recheck("a.test", now + 301), Recheck::Load);
    m.clear_failure("a.test");
    assert_eq!(m.recheck("a.test", now), Recheck::Load);
}

#[test]
fn stored_certificates_are_used() {
    let mut m = manager();
    let now = 1_000_000;
    assert_eq!(m.plan(Some(Some(now + 90 * 86_400)), now), Plan::UseStored);
    // Near expiry: renew, but keep serving it if that fails.
    assert_eq!(m.plan(Some(Some(now + 86_400)), now), Plan::Issue);
    assert_eq!(m.settle("a.test", false, Some(Some(now + 86_400)), now), Settled::UseStored);
}

#[test]
fn issuance_permits_run_out() {
    let mut m = manager();
    for _ in 0..MAX_INFLIGHT {
        assert_eq!(m.plan(None, 5), Plan::Issue);
    }
    assert_eq!(m.plan(None, 5), Plan::Busy);
    assert_eq!(m.settle("a.test", true, None, 5), Settled::Issued);
    assert_eq!(m.plan(None, 5), Plan::Issue);
}

#[test]
fn terms_must_be_accepted() {
    let m = AcmeManager::new(AcmeConfig::default());
    assert!(m.may_issue().unwrap_err().message().contains("terms of service"));
    assert!(manager().may_issue().is_ok());
}

#[test]
fn cache_is_bounded() {
    let mut m = AcmeManager::new(AcmeConfig { accept_tos: true, ..Default::default() });
    for i in 0..(CACHE_MAX as u64 + 1) {
        m.cache_put(&format!("h{i}.test"), i, Some(u64::MAX));
    }
    // The least recently used one is gone, the latest is there.
    assert!(matches!(m.choose_cached(Some("h0.test"), false), CertChoice::Lookup(_)));
    assert!(matches!(m.choose_cached(Some("h1024.test"), false), CertChoice::Serve(1024)));
}

#[test]
fn challenges_come_and_go() {
    let mut m = manager();
    let _ = m.present("http-01", "a.test", "tok", "tok.auth").unwrap();
    assert_eq!(m.http_challenge("tok").as_deref(), Some("tok.auth"));
    m.cleanup("http-01", "a.test", "tok");
    assert_eq!(m.http_challenge("tok"), None);

    let _ = m.present("tls-alpn-01", "a.test", "tok", "tok.auth").unwrap();
    m.present_acceptor("a.test", 3);
    assert_eq!(m.challenge_acceptor("A.TEST"), Some(3));
    m.cleanup("tls-alpn-01", "a.test", "tok");
    assert_eq!(m.challenge_acceptor("a.test"), None);
    assert!(m.present("dns-01", "a.test", "tok", "x").is_err());
}

fn store() -> Store {
    Store::open(Some("/tmp/store".to_owned()), false, None, None).unwrap()
}

#[test]
fn account_round_trip() {
    let s = store();
    assert!(s.load_account_key(FileText::Missing).unwrap().is_none());
    let w = s.save_account_key("KEYPEM");
    assert_eq!(w.path, s.account_path());
    assert_eq!(
        s.load_account_key(FileText::Content(w.content)).unwrap().as_deref(),
        Some("KEYPEM")
    );
    assert!(s.load_account_key(FileText::Failed("denied".to_owned())).is_err());
}

#[test]
fn cert_round_trip() {
    let s = store();
    assert!(s
        .load_cert("example.com", FileText::Missing, FileText::Missing)
        .unwrap()
        .is_none());
    let (chain, key) = s.save_cert("Example.COM.", "CHAIN", "KEY").unwrap();
    assert_eq!(chain.path, "/tmp/store/certs/example.com/fullchain.pem");
    let c = s
        .load_cert(
            "example.com",
            FileText::Content(chain.content),
            FileText::Content(key.content),
        )
        .unwrap()
        .unwrap();
    assert_eq!(c.chain_pem, "CHAIN");
    assert_eq!(c.key_pem, "KEY");
}

#[test]
fn rejects_path_traversal_hosts() {
    let s = store();
    assert!(s.host_dir("../etc").is_err());
    assert!(s.host_dir("a/b").is_err());
    assert!(s.host_dir("").is_err());
    assert!(s.host_dir("ok.example.com").is_ok());
    // wildcard maps to underscore
    assert!(s.host_dir("*.example.com").unwrap().ends_with("_.example.com"));
}

#[test]
fn key_files_are_0600() {
    let s = store();
    assert_eq!(s.save_account_key("K").mode, 0o600);
    assert_eq!(s.save_cert("a.test", "C", "K").unwrap().1.mode, 0o600);
}

#[test]
fn store_locations() {
    let at = |s: Store| s.base().to_owned();
    assert_eq!(at(Store::open(None, true, None, None).unwrap()), "/var/lib/httpsd");
    assert_eq!(
        at(Store::open(None, false, Some("/x".to_owned()), Some("/h".to_owned())).unwrap()),
        "/x/httpsd"
    );
    assert_eq!(
        at(Store::open(None, false, Some(String::new()), Some("/h".to_owned())).unwrap()),
        "/h/.local/share/httpsd"
    );
    assert!(Store::open(None, false, None, None).is_err());
}

#[test]
fn loads_read_what_saves_wrote() {
    let s = store();
    let (chain, key) = s.save_cert(" *.Example.COM. ", "C", "K").unwrap();
    assert_eq!(s.cert_files("*.example.com").unwrap(), (chain.path, key.path));
    assert_eq!(
        s.cert_files("a.test").unwrap(),
        (
            "/tmp/store/certs/a.test/fullchain.pem".to_owned(),
            "/tmp/store/certs/a.test/key.pem".to_owned()
        )
    );
    assert!(s.cert_files("../etc").is_err());
}
