use httpsd::acme::manager::{AcmeConfig, AcmeManager, CertChoice};
use httpsd::compress;
use httpsd::net::clienthello::ClientHelloInfo;
use httpsd::net::gdns::gdns_host;
use httpsd::net::ip::IpAddr;
use httpsd::rt::accept::{
    backlog, exhausted, has_room, next_bind, AcceptLog, BindStep, ACCEPT_LOG_EVERY, MAX_INFLIGHT,
};
use httpsd::rt::blocking::{BlockingConn, Next};
use httpsd::rt::event::{sheds, sweep, EventConn, Outbox, ReadEvent, SendStep, WriteEvent};
use httpsd::rt::peers::PeerLimiter;
use httpsd::rt::progress::{min_progress_exceeded, Window, IO_TIMEOUT, MIN_PROGRESS};
use httpsd::rt::quic::{acceptor_for, choose_initial, is_due, keeps, make_room, wait, Peer, Room};
use httpsd::rt::redirect::{respond, HttpConn, HttpCtx, HttpStep};
use httpsd::rt::route::{pick, HelloRead, HelloReader, HelloStep, HELLO_DEADLINE, MAX_HELLO};
use httpsd::rt::server::{default_workers, TlsMode};
use httpsd::session::SessionConfig;
use httpsd::tls::TlsAcceptor;
use httpsd::{
    Handler, Headers, Limits, Method, Request, Response, Server, Session, Shutdown, StatusCode,
    Version,
};
use std::sync::Arc;

fn ip(n: u8) -> Option<IpAddr> {
    Some(IpAddr::v4(10, 0, 0, n))
}

#[test]
fn caps_per_ip_and_releases_on_drop() {
    let mut limiter = PeerLimiter::new(2);

    // A cap of 2 admits two connections from the same IP...
    assert!(limiter.try_admit(ip(1)), "first admits");
    assert!(limiter.try_admit(ip(1)), "second admits");
    // ...then rejects the third.
    assert!(!limiter.try_admit(ip(1)), "third is over the cap");

    // A different IP is unaffected by the first IP's usage.
    assert!(limiter.try_admit(ip(2)), "distinct IP admits");

    // Releasing one frees a slot for that IP.
    limiter.release(ip(1));
    assert!(limiter.try_admit(ip(1)), "freed slot re-admits");

    limiter.release(ip(1));
    limiter.release(ip(1));
    limiter.release(ip(2));

    // No zero-count entries are retained: once every connection of an IP is
    // gone, admitting again starts from a fresh count.
    assert!(
        limiter.is_empty(),
        "no zero-count entries retained after all guards drop"
    );
}

#[test]
fn cap_zero_always_admits() {
    let mut limiter = PeerLimiter::new(0);
    // Unlimited: many connections from one IP all admit, and no entries are
    // tracked at all.
    let admitted = (0..100).filter(|_| limiter.try_admit(ip(1))).count();
    assert_eq!(admitted, 100);
    assert!(limiter.is_empty());
}

#[test]
fn none_ip_always_admits() {
    let mut limiter = PeerLimiter::new(1);
    // An unattributable peer (no address) always admits, even past the cap,
    // and is not recorded in the map.
    assert!(limiter.try_admit(None), "None admits");
    assert!(limiter.try_admit(None), "None admits again");
    assert!(limiter.is_empty());
}

#[test]
fn families_are_apart() {
    let mut limiter = PeerLimiter::new(1);
    assert!(limiter.try_admit(Some(IpAddr::V4(7))));
    assert!(limiter.try_admit(Some(IpAddr::V6(7))));
    assert!(!limiter.try_admit(Some(IpAddr::V6(7))));
}

#[test]
fn min_progress_ok_when_floor_met() {
    // Enough bytes: never a trickle regardless of elapsed time.
    assert!(!min_progress_exceeded(MIN_PROGRESS, IO_TIMEOUT));
    assert!(!min_progress_exceeded(MIN_PROGRESS + 1, IO_TIMEOUT * 2));
}

#[test]
fn min_progress_ok_when_window_not_elapsed() {
    // Below the floor but the window has not expired yet: still allowed.
    assert!(!min_progress_exceeded(0, 0));
    assert!(!min_progress_exceeded(MIN_PROGRESS - 1, IO_TIMEOUT - 1_000_000));
}

#[test]
fn min_progress_trips_on_slow_trickle() {
    // Below the floor and the window has expired: shed the connection.
    assert!(min_progress_exceeded(0, IO_TIMEOUT));
    assert!(min_progress_exceeded(MIN_PROGRESS - 1, IO_TIMEOUT * 2));
}

#[test]
fn windows_restart_on_progress() {
    let mut w = Window::new(0);
    assert!(!w.note_and_check(1, 10));
    assert!(w.note_and_check(1, IO_TIMEOUT));
    let mut w = Window::new(0);
    w.note_progress(MIN_PROGRESS, IO_TIMEOUT);
    assert!(!w.is_idle(IO_TIMEOUT + 1));
    assert!(!w.is_idle(IO_TIMEOUT * 2));
    assert!(w.is_idle(IO_TIMEOUT * 2 + 1));
}

#[test]
fn starts_untriggered_and_triggers() {
    let s = Shutdown::new();
    assert!(!s.is_triggered());
    s.trigger();
    assert!(s.is_triggered());
    // Idempotent.
    s.trigger();
    assert!(s.is_triggered());
}

#[test]
fn clones_share_one_flag() {
    let a = Shutdown::new();
    let b = a.clone();
    assert!(!b.is_triggered());
    // Triggering one clone is observed by the other.
    a.trigger();
    assert!(b.is_triggered());
    assert!(a.is_triggered());
}

#[test]
fn accept_failures_are_told_apart() {
    for e in [23, 24] {
        assert!(exhausted(Some(e)), "{e}");
    }
    assert!(!exhausted(Some(103)));
    assert!(!exhausted(None));
}

#[test]
fn accept_failures_are_logged_sparingly() {
    let mut log = AcceptLog::new();
    assert_eq!(log.note(0), Some(0));
    assert_eq!(log.note(1), None);
    assert_eq!(log.note(2), None);
    assert_eq!(log.note(ACCEPT_LOG_EVERY), Some(2));
    assert_eq!(log.note(ACCEPT_LOG_EVERY + 1), None);
}

#[test]
fn accept_limits() {
    assert_eq!(backlog(1), 256);
    assert_eq!(backlog(16), 1024);
    assert_eq!(backlog(usize::MAX), 4096);
    assert!(has_room(MAX_INFLIGHT - 1));
    assert!(!has_room(MAX_INFLIGHT));
    assert_eq!(next_bind(0, 0), BindStep::NoAddress);
    assert_eq!(next_bind(2, 1), BindStep::Try(1));
    assert_eq!(next_bind(2, 2), BindStep::Failed);
    assert!(!sheds(8191));
    assert!(sheds(8192));
    assert_eq!(sweep(5, 4), (false, 5));
    assert_eq!(sweep(5, 5), (true, 1_000_000_005));
}

struct Hello;

impl Handler for Hello {
    fn handle(&self, _req: &Request) -> Response {
        Response::text("hello")
    }
}

const GET: &[u8] = b"GET / HTTP/1.1\r\nHost: x\r\nConnection: close\r\n\r\n";

#[test]
fn blocking_connections_serve_then_close() {
    let session = Session::plain(SessionConfig::new(Arc::new(Hello)));
    let mut c = BlockingConn::new(session, 0);
    assert!(matches!(c.next(), Next::Read));
    assert!(!c.received(GET, 1, 0));
    match c.next() {
        Next::Write(b) => assert!(String::from_utf8(b).unwrap().ends_with("hello")),
        _ => panic!(),
    }
    assert!(matches!(c.next(), Next::Close));
}

#[test]
fn blocking_connections_drop_tricklers() {
    let session = Session::plain(SessionConfig::new(Arc::new(Hello)));
    let mut c = BlockingConn::new(session, 0);
    assert!(c.received(b"G", IO_TIMEOUT, 0));
}

#[test]
fn blocking_connections_report_tls_errors() {
    let a = TlsAcceptor::self_signed(&vec!["localhost".to_owned()]).unwrap();
    let session = Session::tls(SessionConfig::new(Arc::new(Hello)), a.accept().unwrap());
    let mut c = BlockingConn::new(session, 0);
    // A record of no known type.
    let _ = c.received(&[0x47, 3, 1, 0, 2, 1, 2], 1, 0);
    let mut last = c.next();
    for _ in 0..4 {
        if matches!(last, Next::Fail(_)) {
            return;
        }
        last = c.next();
    }
    panic!("no failure");
}

#[test]
fn outboxes_keep_order() {
    let mut o = Outbox::new();
    assert!(!o.pending_out());
    o.enqueue(vec![1, 2]);
    o.enqueue(vec![3]);
    o.wrote(1);
    assert_eq!(o.pending(), &[2, 3]);
    o.wrote(2);
    assert!(!o.pending_out());
    o.enqueue(vec![4]);
    assert_eq!(o.pending(), &[4]);
}

#[test]
fn event_connections_serve_then_finish() {
    let session = Session::plain(SessionConfig::new(Arc::new(Hello)));
    let mut c = EventConn::new(session, 0);
    assert!(c.reads());
    assert!(c.on_read(ReadEvent::Data(GET.to_vec()), 1, 0).unwrap());
    assert!(!c.on_read(ReadEvent::WouldBlock, 1, 0).unwrap());
    c.after_reads().unwrap();
    assert!(matches!(c.send_step().unwrap(), SendStep::Write));
    let n = c.pending().len();
    assert!(n > 5);
    assert!(c.on_write(WriteEvent::Wrote(5)));
    assert!(c.wants_write());
    assert!(!c.on_write(WriteEvent::WouldBlock));
    assert!(c.on_write(WriteEvent::Wrote(n - 5)));
    assert!(matches!(c.send_step().unwrap(), SendStep::Rest));
    assert!(c.is_done());
    assert!(!c.is_idle(2));
    assert!(c.is_idle(IO_TIMEOUT + 1));
}

#[test]
fn event_connections_end_with_the_peer() {
    let session = Session::plain(SessionConfig::new(Arc::new(Hello)));
    let mut c = EventConn::new(session, 0);
    assert!(!c.on_read(ReadEvent::Closed, 1, 0).unwrap());
    assert!(!c.reads());
    assert!(c.is_done());
}

fn peer(closed: bool, established: bool, last_seen: u64) -> Peer {
    Peer { closed, established, last_seen, deadline: None }
}

#[test]
fn quic_waits_for_the_soonest_timer() {
    assert_eq!(wait(&vec![peer(false, true, 0)], 0), 200_000_000);
    let mut a = peer(false, true, 0);
    a.deadline = Some(5_000_000);
    let mut b = peer(false, true, 0);
    b.deadline = Some(9_000_000);
    assert_eq!(wait(&vec![b, a], 1_000_000), 4_000_000);
    assert_eq!(wait(&vec![b, a], 5_000_000), 1_000_000);
    assert!(is_due(&a, 5_000_000));
    assert!(!is_due(&a, 4_999_999));
}

#[test]
fn quic_connections_are_reaped() {
    assert!(keeps(&peer(false, true, 0), 1));
    assert!(!keeps(&peer(true, true, 0), 1));
    assert!(!keeps(&peer(false, true, 0), 60_000_000_000));
}

#[test]
fn quic_room_is_made() {
    let few = vec![peer(false, true, 0)];
    assert!(matches!(make_room(&few), Room::Accept));
    let mut full: Vec<Peer> = (0..4096).map(|i| peer(false, true, i + 10)).collect();
    // Every one in use: the newcomer is dropped or the stalest goes.
    let _ = make_room(&full);
    full[7] = peer(false, false, 1);
    assert!(matches!(make_room(&full), Room::Evict(7)));
    full[9] = peer(true, true, 5_000);
    assert!(matches!(make_room(&full), Room::Evict(9)));
}

fn manager() -> AcmeManager {
    AcmeManager::new(AcmeConfig {
        accept_tos: true,
        host_whitelist: Some(vec!["a.test".to_owned()]),
        ..Default::default()
    })
}

fn hello(name: Option<&str>, alpn: &[&[u8]]) -> ClientHelloInfo {
    ClientHelloInfo {
        server_name: name.map(|s| s.to_owned()),
        alpn_protocols: alpn.iter().map(|p| p.to_vec()).collect(),
    }
}

#[test]
fn quic_certificates_are_chosen() {
    let mut m = manager();
    // Not a QUIC datagram.
    assert!(acceptor_for(&mut m, b"nonsense", false).is_none());
    assert!(choose_initial(&mut m, Ok(None), false).is_none());
    assert!(choose_initial(&mut m, Err("bad".to_owned()), false).is_none());
    assert!(choose_initial(&mut m, Ok(Some(hello(Some("b.test"), &[]))), false).is_none());
    assert!(matches!(
        choose_initial(&mut m, Ok(Some(hello(Some("a.test"), &[]))), false),
        Some(CertChoice::Lookup(_))
    ));
    assert!(matches!(
        choose_initial(&mut m, Ok(Some(hello(None, &[]))), false),
        Some(CertChoice::SelfSigned)
    ));
}

#[test]
fn hellos_are_read_before_the_deadline() {
    let mut r = HelloReader::new(0);
    assert!(matches!(r.step(0), Ok(HelloStep::Read(t)) if t == HELLO_DEADLINE));
    assert!(r.on_read(HelloRead::Data(vec![22, 3, 1])));
    assert_eq!(r.bytes(), &[22, 3, 1]);
    assert!(matches!(r.step(HELLO_DEADLINE), Ok(HelloStep::GiveUp)));
    assert!(!r.on_read(HelloRead::Ended));
    assert!(r.on_read(HelloRead::Data(vec![0; MAX_HELLO])));
    assert!(matches!(r.decide(Ok(None), 1), Ok(HelloStep::GiveUp)));
    assert!(matches!(
        r.decide(Ok(Some(hello(Some("a.test"), &[]))), 1),
        Ok(HelloStep::Done(_))
    ));
}

#[test]
fn handshakes_are_routed() {
    let mut m = manager();
    m.present_acceptor("a.test", 9);
    let c = pick(&mut m, &hello(Some("a.test"), &[b"acme-tls/1"]), false, 0);
    assert!(matches!(c, CertChoice::Serve(9)));
    let c = pick(&mut m, &hello(Some("b.test"), &[b"acme-tls/1"]), false, 0);
    assert!(matches!(c, CertChoice::Reject));
    let c = pick(&mut m, &hello(Some("a.test"), &[b"h2"]), false, 0);
    assert!(matches!(c, CertChoice::Lookup(_)));
}

fn ctx(allow_http: bool) -> HttpCtx<Hello> {
    HttpCtx {
        allow_http,
        server_name: None,
        limits: Limits::default(),
        content: Some(Arc::new(Hello)),
        compression: compress::Options { enabled: false, min_size: 256 },
    }
}

fn request(target: &str, host: &str) -> Request {
    let mut h = Headers::new();
    h.append("Host", host);
    Request::new(Method::Get, target.to_owned(), Version::Http11, h, Vec::new())
}

#[test]
fn http_is_upgraded() {
    let local = IpAddr::v4(203, 0, 113, 7);
    let r = respond(&request("/a?b", "example.com"), local, &ctx(false), None);
    assert_eq!(r.status_code().code(), 308);
    assert_eq!(r.headers().get("location"), Some("https://example.com/a?b"));
    let r = respond(&request("/a", "203.0.113.7"), local, &ctx(false), None);
    assert_eq!(
        r.headers().get("location").map(|s| s.to_owned()),
        Some(format!("https://{}/a", gdns_host(local)))
    );
    let r = respond(&request("/a", "example.com"), local, &ctx(true), None);
    assert_eq!(r.body_ref().as_bytes(), b"hello");
}

#[test]
fn challenges_are_answered_over_http() {
    let local = IpAddr::v4(203, 0, 113, 7);
    let mut m = manager();
    let _ = m.present("http-01", "a.test", "tok", "tok.auth").unwrap();
    let path = "/.well-known/acme-challenge/tok";
    let r = respond(&request(path, "a.test"), local, &ctx(false), Some(&m));
    assert_eq!(r.status_code(), StatusCode::ok());
    assert_eq!(r.body_ref().as_bytes(), b"tok.auth");
    let path = "/.well-known/acme-challenge/other";
    let r = respond(&request(path, "a.test"), local, &ctx(false), Some(&m));
    assert_eq!(r.status_code(), StatusCode::not_found());
}

#[test]
fn http_connections_answer() {
    let local = IpAddr::v4(203, 0, 113, 7);
    let cx = ctx(false);
    let mut c = HttpConn::new(&cx, 0);
    match c.received(GET, &cx, None, local, 1, 0) {
        HttpStep::Write { out, close } => {
            assert!(close);
            assert!(String::from_utf8(out).unwrap().contains("Location: https://x/\r\n"));
        }
        HttpStep::Drop => panic!(),
    }
    assert!(c.wants_close());
    let mut c = HttpConn::new(&cx, 0);
    assert!(matches!(c.received(b"G", &cx, None, local, IO_TIMEOUT, 0), HttpStep::Drop));
}

#[test]
fn servers_are_built() {
    assert_eq!(default_workers(None), 4);
    assert_eq!(default_workers(Some(8)), 8);
    assert!(Server::bind(Vec::new(), None).is_err());
    let s = Server::bind(vec!["127.0.0.1:0".to_owned()], Some(2))
        .unwrap()
        .handler(Hello)
        .workers(0)
        .server_name(None)
        .hsts(Some("max-age=1".to_owned()))
        .max_conns_per_ip(5)
        .allow_http(true)
        .http_redirect(vec!["127.0.0.1:1".to_owned()])
        .compression(compress::Options { enabled: false, min_size: 1 });
    let plan = s.plan();
    assert_eq!(plan.workers, 1);
    assert_eq!(plan.max_conns_per_ip, 5);
    assert!(matches!(plan.tls, TlsMode::Plain));
    assert_eq!(plan.cfg.hsts.as_deref(), Some("max-age=1"));
    let (addrs, http) = plan.http.unwrap();
    assert_eq!(addrs, vec!["127.0.0.1:1".to_owned()]);
    assert!(http.allow_http);
}

#[test]
fn certificates_mean_tls() {
    let addrs = || vec!["127.0.0.1:0".to_owned()];
    let a = TlsAcceptor::self_signed(&vec!["localhost".to_owned()]).unwrap();
    let plan = Server::bind(addrs(), None).unwrap().tls(a).plan();
    assert!(matches!(plan.tls, TlsMode::Static(_)));
    assert!(matches!(Server::bind(addrs(), None).unwrap().acme().plan().tls, TlsMode::Acme));
    assert!(Server::bind(addrs(), None).unwrap().h3_plan().is_err());
}
