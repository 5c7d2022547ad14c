use httpsd::cli::Options;
use httpsd::config::{CompressConfig, NameSetting, OneOrMany, TlsConfig, TlsSource};
use httpsd::privdrop::{parts, verify, Call, GroupEntry, Id, PrivDrop, UserEntry};
use httpsd::rt::server::TlsMode;
use httpsd::startup::{
    configure, expected_listeners, join_all, start_error, BindEvent, BindWait, Readiness,
    ThreadEnd,
};
use httpsd::{Error, Server, ServerConfig};

fn parse(user: Option<&str>, chroot: Option<&str>) -> httpsd::Result<PrivDrop> {
    PrivDrop::parse(user, chroot, UserEntry::Unknown, GroupEntry::Unknown)
}

#[test]
fn parse_numeric_uid_only() {
    let pd = parse(Some("1000"), None).unwrap();
    assert_eq!(pd.uid, Some(1000));
    assert_eq!(pd.gid, None);
    assert_eq!(pd.chroot, None);
}

#[test]
fn parse_numeric_uid_gid() {
    let pd = parse(Some("1000:2000"), None).unwrap();
    assert_eq!(pd.uid, Some(1000));
    assert_eq!(pd.gid, Some(2000));
}

#[test]
fn parse_with_chroot() {
    let pd = parse(Some("1000:2000"), Some("/var/empty")).unwrap();
    assert_eq!(pd.uid, Some(1000));
    assert_eq!(pd.gid, Some(2000));
    assert_eq!(pd.chroot.as_deref(), Some("/var/empty"));
}

#[test]
fn parse_chroot_only() {
    let pd = parse(None, Some("/var/empty")).unwrap();
    assert_eq!(pd.uid, None);
    assert_eq!(pd.gid, None);
    assert_eq!(pd.chroot.as_deref(), Some("/var/empty"));
}

#[test]
fn parse_empty_user_rejected() {
    assert!(parse(Some("  "), None).is_err());
}

// `root` exists with uid 0 on every unix.
#[test]
fn parse_user_name_root() {
    let pd = PrivDrop::parse(
        Some("root"),
        None,
        UserEntry::Found { uid: 0, gid: 0 },
        GroupEntry::Unknown,
    )
    .unwrap();
    assert_eq!(pd.uid, Some(0));
    // root's primary group should resolve too (commonly gid 0).
    assert!(pd.gid.is_some());
}

#[test]
fn parse_unknown_user_name_errors() {
    let r = parse(Some("definitely-not-a-real-user-xyz"), None);
    assert!(r.is_err());
}

#[test]
fn names_to_look_up() {
    assert!(matches!(parts("7:8"), Ok((Id::Number(7), Some(Id::Number(8))))));
    match parts("www:web") {
        Ok((Id::Name(u), Some(Id::Name(g)))) => assert_eq!((u, g), ("www".into(), "web".into())),
        _ => panic!(),
    }
    assert!(matches!(parts("www"), Ok((Id::Name(_), None))));
}

#[test]
fn failed_lookups_are_reported() {
    let r = PrivDrop::parse(
        Some("www"),
        None,
        UserEntry::Failed("io".to_owned()),
        GroupEntry::Unknown,
    );
    assert!(r.is_err());
    let r = PrivDrop::parse(
        Some("1:web"),
        None,
        UserEntry::Unknown,
        GroupEntry::Failed("io".to_owned()),
    );
    assert!(r.is_err());
    let pd = PrivDrop::parse(Some("1:web"), None, UserEntry::Unknown, GroupEntry::Found(5)).unwrap();
    assert_eq!((pd.uid, pd.gid), (Some(1), Some(5)));
}

#[test]
fn privileges_are_dropped_in_order() {
    let calls = parse(Some("1000:2000"), Some("/var/empty")).unwrap().apply().unwrap();
    let names: Vec<String> = calls
        .iter()
        .map(|c| match c {
            Call::Chroot(p) => format!("chroot {p}"),
            Call::ChdirRoot => "chdir".to_owned(),
            Call::SetGroups(g) => format!("groups {g}"),
            Call::SetGid(g) => format!("gid {g}"),
            Call::SetUid(u) => format!("uid {u}"),
            Call::Verify(u) => format!("verify {u}"),
        })
        .collect();
    assert_eq!(
        names,
        ["chroot /var/empty", "chdir", "groups 2000", "gid 2000", "uid 1000", "verify 1000"]
    );
}

#[test]
fn drops_are_verified() {
    assert!(verify(1000, 1000, 1000, false).is_ok());
    assert!(verify(1000, 1000, 0, false).is_err());
    assert!(verify(1000, 0, 1000, false).is_err());
    assert!(verify(1000, 1000, 1000, true).is_err());
}

fn options(args: &[&str]) -> Options {
    let args: Vec<String> = args.iter().map(|s| s.to_string()).collect();
    Options::parse(&args).unwrap().unwrap()
}

#[test]
fn options_have_defaults() {
    let o = options(&[]);
    assert_eq!(o.dir, ".");
    assert!(!o.is_tls());
    assert_eq!(o.scheme(), "http");
    assert_eq!(o.hsts_value(), None);
    let s = o.build_server().unwrap();
    assert!(s.tls.is_none());
    assert!(matches!(s.server_name, NameSetting::Default));
    assert!(s.compression.enabled);
}

#[test]
fn help_stops_parsing() {
    assert!(Options::parse(&["--help".to_owned()]).unwrap().is_none());
    assert!(Options::parse(&["--nope".to_owned()]).is_err());
    assert!(Options::parse(&["--listen".to_owned()]).is_err());
    assert!(Options::parse(&["--workers".to_owned(), "x".to_owned()]).is_err());
}

#[test]
fn options_make_a_tls_setup() {
    let o = options(&["--self-signed", "--listen", "0.0.0.0:8443", "--no-compress", "/srv"]);
    assert!(o.is_tls());
    assert_eq!(o.scheme(), "https");
    assert_eq!(o.listen_port(), 8443);
    let s = o.build_server().unwrap();
    assert_eq!(s.listen, "0.0.0.0:8443");
    assert_eq!(s.root.as_deref(), Some("/srv"));
    assert!(matches!(s.tls, Some(TlsSource::SelfSigned(_))));
    assert!(!s.compression.enabled);
    assert_eq!(s.alt_svc.as_deref(), Some("h3=\":8443\"; ma=86400"));
}

#[test]
fn certificates_come_in_pairs() {
    let o = options(&["--tls-cert", "c.pem"]);
    assert!(o.build_server().err().unwrap().message().contains("--tls-cert requires --tls-key"));
    let o = options(&["--tls-cert", "c.pem", "--tls-key", "k.pem"]);
    assert!(matches!(o.build_server().unwrap().tls, Some(TlsSource::Files { .. })));
}

#[test]
fn hsts_values() {
    assert_eq!(options(&["--hsts"]).hsts_value().as_deref(), Some("max-age=31536000"));
    assert_eq!(
        options(&["--hsts-max-age", "60", "--hsts-include-subdomains", "--hsts-preload"])
            .hsts_value()
            .as_deref(),
        Some("max-age=60; includeSubDomains; preload")
    );
}

#[test]
fn acme_options() {
    let o = options(&["--acme-accept-tos", "--acme-email", "a@b.test"]);
    assert!(o.acme_requested());
    let c = o.acme_config().unwrap().unwrap();
    assert!(c.accept_tos);
    assert_eq!(c.email.as_deref(), Some("a@b.test"));
    assert!(options(&[]).acme_config().unwrap().is_none());
}

fn config() -> ServerConfig {
    ServerConfig {
        listen: OneOrMany::Many(vec!["127.0.0.1:1".to_owned(), "[::1]:1".to_owned()]),
        root: Some("/var/www".to_owned()),
        server_name: Some("srv".to_owned()),
        workers: Some(16),
        tls: Some(TlsConfig {
            cert: None,
            key: None,
            self_signed: Some(vec!["localhost".to_owned()]),
        }),
        compress: Some(CompressConfig { enabled: false, min_size: 1024 }),
    }
}

#[test]
fn configurations_become_setups() {
    assert_eq!(config().listen_addrs(), vec!["127.0.0.1:1", "[::1]:1"]);
    let s = config().into_server().unwrap();
    assert_eq!(s.listen, "127.0.0.1:1");
    assert_eq!(s.workers, Some(16));
    assert!(!s.compression.enabled);
    assert_eq!(s.compression.min_size, 1024);
    assert!(matches!(s.server_name, NameSetting::Named(Some(n)) if n == "srv"));
    assert!(matches!(s.tls, Some(TlsSource::SelfSigned(names)) if names == ["localhost"]));
}

#[test]
fn configurations_can_be_wrong() {
    let mut c = config();
    c.tls = Some(TlsConfig { cert: Some("c".to_owned()), key: None, self_signed: None });
    assert!(c.into_server().is_err());
    let mut c = config();
    c.listen = OneOrMany::Many(Vec::new());
    assert!(c.into_server().is_err());
}

#[test]
fn setups_configure_servers() {
    let addrs = vec!["127.0.0.1:1".to_owned()];
    let mut s = config().into_server().unwrap();
    s.max_conns_per_ip = Some(3);
    s.hsts = Some("max-age=1".to_owned());
    let plan = configure(Server::bind(addrs, None).unwrap(), &s, None, None, true).plan();
    assert_eq!(plan.workers, 16);
    assert_eq!(plan.max_conns_per_ip, 3);
    assert_eq!(plan.cfg.hsts.as_deref(), Some("max-age=1"));
    assert!(matches!(plan.tls, TlsMode::Acme));
}

#[test]
fn privileges_wait_for_every_listener() {
    assert_eq!(expected_listeners(false), 1);
    assert_eq!(expected_listeners(true), 2);
    let mut w = Readiness::new(2);
    assert_eq!(w.on(BindEvent::Bound, false), BindWait::Wait);
    assert_eq!(w.on(BindEvent::Timeout, false), BindWait::Wait);
    assert_eq!(w.on(BindEvent::Bound, false), BindWait::Ready);
    let mut w = Readiness::new(2);
    assert_eq!(w.on(BindEvent::Timeout, true), BindWait::GiveUp);
    let mut w = Readiness::new(2);
    assert_eq!(w.on(BindEvent::Disconnected, false), BindWait::GiveUp);
}

#[test]
fn thread_failures_surface() {
    assert!(join_all(vec![ThreadEnd::Finished, ThreadEnd::Finished]).is_ok());
    let e = join_all(vec![ThreadEnd::Finished, ThreadEnd::Panicked]).unwrap_err();
    assert!(e.message().contains("a server thread panicked"));
    let e = join_all(vec![ThreadEnd::Failed(Error::Config("x".to_owned())), ThreadEnd::Panicked]);
    assert!(e.unwrap_err().message().contains('x'));
    assert!(!start_error(vec![ThreadEnd::Finished]).message().is_empty());
}
