use compcol::hpack::HeaderField;
use compcol::qpack::QpackEncoder;
use httpsd::acme::client::{select_challenge, Reply};
use httpsd::acme::flow::{AcmeClient, Action, Event, POLL_SECONDS};
use httpsd::acme::jose::{authorization, b64url, flattened, protected_header, AccountKey, KeyId};
use httpsd::acme::json;
use httpsd::acme::manager::{AcmeConfig, AcmeManager, CertChoice};
use httpsd::acme::store::sanitize_host;
use httpsd::compress::{compress_response, Options};
use httpsd::h2::frame::{parse_settings, write_frame, write_settings, FrameHeader};
use httpsd::h3::conn::{split_message, H3Conn};
use httpsd::h3::frame::{write_frame as write_h3, FRAME_DATA, FRAME_HEADERS};
use httpsd::mime::{from_path, is_precompressed};
use httpsd::net::gdns::{base32_nopad, redirect_location};
use httpsd::net::ip::IpAddr;
use httpsd::path::{is_under, join};
use httpsd::proto::chunk::ChunkDecoder;
use httpsd::proto::date::http_date;
use httpsd::proto::head::{body_framing, negotiate_keep_alive, parse_head};
use httpsd::table::Table;
use httpsd::{H1Conn, Headers, Limits, Method, Request, Response, StaticFiles, Version};

#[test]
fn header_fields_are_set_and_removed() {
    let mut h = Headers::new();
    h.append("A", "1");
    h.append("B", "2");
    h.append("a", "3");
    assert_eq!(h.get_all("A"), vec!["1", "3"]);
    h.set("A", "4");
    assert_eq!(h.get("a"), Some("4"));
    assert_eq!(h.get_all("a"), vec!["4"]);
    assert_eq!(h.get("b"), Some("2"));
    h.set_if_absent("a", "5");
    assert_eq!(h.get("a"), Some("4"));
    h.set_if_absent("c", "6");
    assert_eq!(h.get("c"), Some("6"));
    h.remove("A");
    assert!(!h.contains("a"));
    assert_eq!(h.get("B"), Some("2"));
    assert_eq!(h.len(), 2);
}

#[test]
fn framing_is_never_ambiguous() {
    let of = |fields: &[(&str, &str)]| {
        let mut h = Headers::new();
        for (n, v) in fields {
            h.append(*n, *v);
        }
        body_framing(&h)
    };
    assert!(of(&[("Content-Length", "5"), ("Transfer-Encoding", "chunked")]).is_err());
    assert!(of(&[("Content-Length", "5"), ("Content-Length", "6")]).is_err());
    assert!(of(&[("Content-Length", "5")]).is_ok());
    assert!(of(&[("Transfer-Encoding", "chunked")]).is_ok());
}

#[test]
fn accepted_fields_are_clean() {
    let h = parse_head(b"GET / HTTP/1.1\r\nHost: x\r\nX-A:  b \r\n\r\n").unwrap();
    assert_eq!(h.headers.get("x-a"), Some("b"));
    assert!(parse_head(b"GET / HTTP/1.1\r\nX\x01: b\r\n\r\n").is_err());
    assert!(parse_head(b"GET / HTTP/1.1\r\nX: b\x00\r\n\r\n").is_err());
    assert!(negotiate_keep_alive(Version::Http11, &h.headers));
    assert!(!negotiate_keep_alive(Version::Http10, &h.headers));
}

#[test]
fn a_complete_chunked_body_is_final() {
    let mut d = ChunkDecoder::new();
    let data = b"3\r\nabc\r\n0\r\n\r\n";
    let whole = d.advance(data, 100).unwrap();
    let mut d = ChunkDecoder::new();
    let with_more = d.advance(b"3\r\nabc\r\n0\r\n\r\nGET /", 100).unwrap();
    assert!(whole == with_more);
}

#[test]
fn dates_tell_seconds_apart() {
    assert_eq!(http_date(0), "Thu, 01 Jan 1970 00:00:00 GMT");
    assert_eq!(http_date(951_782_400), "Tue, 29 Feb 2000 00:00:00 GMT");
    assert!(http_date(1) != http_date(0));
    assert!(http_date(31_536_000) != http_date(0));
}

#[test]
fn targets_are_paths_and_queries() {
    let q = |t: &str| {
        Request::new(Method::Get, t.to_owned(), Version::Http11, Headers::new(), Vec::new())
    };
    assert_eq!((q("/a?b?c").path(), q("/a?b?c").query()), ("/a", Some("b?c")));
    assert_eq!((q("/a?").path(), q("/a?").query()), ("/a", Some("")));
    assert_eq!((q("/a").path(), q("/a").query()), ("/a", None));
    assert_eq!(q("/x").body_str(), "");
}

#[test]
fn frames_and_settings_read_back() {
    let mut out = Vec::new();
    write_frame(&mut out, 0xfe, 0x55, 0x7fff_ffff, &[1; 300]);
    let h = FrameHeader::parse(&out);
    assert_eq!((h.length, h.ftype, h.flags, h.stream_id), (300, 0xfe, 0x55, 0x7fff_ffff));
    let mut out = Vec::new();
    write_settings(&mut out, &[(1, 2), (0xffff, u32::MAX)]);
    assert_eq!(parse_settings(&out[9..]), Some(vec![(1, 2), (0xffff, u32::MAX)]));
    assert_eq!(parse_settings(&[0; 5]), None);
}

fn block(path: &str) -> Vec<u8> {
    let fields = [
        HeaderField::new(b":method", b"GET"),
        HeaderField::new(b":scheme", b"https"),
        HeaderField::new(b":path", path.as_bytes()),
        HeaderField::new(b":authority", b"h"),
    ];
    QpackEncoder::new().encode_field_section(&fields)
}

#[test]
fn only_the_first_header_section_counts() {
    let mut m = Vec::new();
    // A frame of an unknown type, the section, a body, trailers.
    write_h3(&mut m, 0x21, b"grease");
    write_h3(&mut m, FRAME_HEADERS, &block("/a"));
    write_h3(&mut m, FRAME_DATA, b"x");
    write_h3(&mut m, FRAME_HEADERS, &block("/b"));
    write_h3(&mut m, 0x40, b"");
    write_h3(&mut m, FRAME_DATA, b"y");
    assert_eq!(split_message(&m), Some((block("/a"), b"xy".to_vec())));
}

#[test]
fn streams_do_not_touch_each_other() {
    let mut c = H3Conn::new(Limits::default(), None);
    let mut m = Vec::new();
    write_h3(&mut m, FRAME_HEADERS, &block("/a"));
    let _ = c.read_request(0, &m[..3], false);
    let _ = c.read_request(4, &m, true);
    assert_eq!(c.ready(), vec![4]);
    let _ = c.take_request(4).unwrap().unwrap();
    c.respond(4, Response::text("one"));
    let first = c.pending(4).to_vec();
    c.respond(4, Response::text("two"));
    assert_eq!(c.pending(4), first);
    let _ = c.read_request(0, &m[3..], true);
    assert_eq!(c.ready(), vec![0]);
    assert_eq!(c.streams(), vec![0, 4]);
}

#[test]
fn encodings_are_clean_and_tell_apart() {
    let all: Vec<u8> = (0..=255).collect();
    let s = b64url(&all);
    assert_eq!(s.len(), 342);
    assert!(s.chars().all(|c| c.is_ascii_alphanumeric() || c == '-' || c == '_'));
    assert!(b64url(&[0]) != b64url(&[0, 0]));
    assert!(base32_nopad(&[0]) != base32_nopad(&[0, 0]));
    assert_eq!(base32_nopad(&[0; 10]).len(), 16);
}

#[test]
fn signed_messages_read_back() {
    let header = protected_header("{}", "https://ca/\"x\"", "n", &KeyId::Kid("k\\1".to_owned()));
    let v = json::parse(&header).unwrap();
    assert_eq!(v.str_at("url"), Some("https://ca/\"x\""));
    assert_eq!(v.str_at("kid"), Some("k\\1"));
    let doc = json::parse(&flattened("p", "q", &[0xff])).unwrap();
    assert_eq!(doc.str_at("protected"), Some("cA"));
    assert_eq!(doc.str_at("payload"), Some("cQ"));
    assert_eq!(doc.str_at("signature"), Some("_w"));
    assert_eq!(authorization("t", &[0, 0, 0]), "t.AAAA");
}

#[test]
fn challenges_are_chosen_by_preference() {
    let doc = json::parse(
        r#"[{"type":"http-01","url":"u","token":"t"},{"type":"dns-01","url":"v","token":"w"}]"#,
    )
    .unwrap();
    let list = doc.as_array().unwrap();
    let prefer = |names: &[&str]| {
        let names: Vec<String> = names.iter().map(|s| s.to_string()).collect();
        select_challenge(list, &names).map(|c| c.typ)
    };
    assert_eq!(prefer(&["dns-01", "http-01"]).as_deref(), Some("dns-01"));
    assert_eq!(prefer(&["tls-alpn-01", "http-01"]).as_deref(), Some("http-01"));
    assert_eq!(prefer(&["tls-alpn-01"]), None);
}

fn reply(status: u16, location: Option<&str>, body: &str) -> Event {
    Event::Reply(Reply {
        status,
        location: location.map(|s| s.to_owned()),
        nonce: Some("n".to_owned()),
        body: body.as_bytes().to_vec(),
    })
}

#[test]
fn polling_ends_and_cleans_up() {
    let dir = br#"{"newNonce":"https://ca/n","newAccount":"https://ca/a","newOrder":"https://ca/o"}"#;
    let mut c = AcmeClient::new(dir, AccountKey::generate(), None).unwrap();
    let key = AccountKey::generate().private_key().to_vec();
    let _ = c.issue(vec!["a.test".to_owned()], vec!["http-01".to_owned()], key);
    let _ = c.step(reply(200, None, ""), 0);
    let _ = c.step(reply(201, Some("https://ca/a/1"), "{}"), 0);
    let order = r#"{"authorizations":["https://ca/z"],"finalize":"https://ca/f"}"#;
    let _ = c.step(reply(201, Some("https://ca/o/1"), order), 0);
    let authz = r#"{"status":"pending","identifier":{"value":"a.test"},"challenges":[{"type":"http-01","url":"https://ca/c","token":"t"}]}"#;
    let _ = c.step(reply(200, None, authz), 0);
    let _ = c.step(Event::Presented(None), 0);
    let _ = c.step(reply(200, None, "{}"), 0);
    let a = c.step(reply(200, None, r#"{"status":"pending"}"#), 1);
    assert!(matches!(a, Action::Wait));
    let _ = c.step(Event::Woken, POLL_SECONDS + 1);
    let a = c.step(reply(200, None, r#"{"status":"pending"}"#), POLL_SECONDS + 1);
    assert!(matches!(a, Action::Cleanup { .. }));
    let a = c.step(Event::Cleaned, POLL_SECONDS + 1);
    assert!(matches!(a, Action::Failed(_)));
}

#[test]
fn local_connections_get_the_fallback() {
    let mut m = AcmeManager::new(AcmeConfig::default());
    assert!(matches!(m.choose_cert(Some("a.test"), true, 0), CertChoice::SelfSigned));
    m.cache_put("a.test", 1, Some(u64::MAX));
    m.clear_cache();
    assert!(matches!(m.choose_cert(Some("a.test"), false, 0), CertChoice::Lookup(_)));
}

#[test]
fn stored_hosts_stay_inside() {
    for bad in ["..", ".", "a/b", "a\\b", "a b", ""] {
        assert!(sanitize_host(bad).is_err(), "{bad}");
    }
    assert_eq!(sanitize_host("A.Test.").unwrap(), "a.test");
}

#[test]
fn requests_stay_inside_the_root() {
    let sf = StaticFiles::new("/srv");
    for path in ["/a/b", "//a", "/./a", "/a%2fb"] {
        if let Some(p) = sf.resolve(path) {
            assert!(is_under(&p, "/srv"), "{path} -> {p}");
        }
    }
    assert_eq!(join("/srv", "a"), "/srv/a");
    assert!(!is_under("/srvx", "/srv"));
}

#[test]
fn locations_have_no_control_characters() {
    let ip = IpAddr::v4(1, 2, 3, 4);
    for host in ["a\r\nb", "a.test", "\u{7f}"] {
        for target in ["/\r\nX: y", "/ok", "/\u{0}"] {
            let l = redirect_location(Some(host), ip, target);
            assert!(!l.chars().any(|c| c.is_ascii_control()), "{l:?}");
        }
    }
}

#[test]
fn compression_never_grows() {
    let mut h = Headers::new();
    h.append("Accept-Encoding", "gzip");
    let req = Request::new(Method::Get, "/".to_owned(), Version::Http11, h, Vec::new());
    // Every byte value once: nothing to gain.
    let noise: Vec<u8> = (0..=255).collect();
    let opts = Options { enabled: true, min_size: 0 };
    let resp = Response::text("").body(noise.clone());
    let out = compress_response(&req, resp, &opts);
    assert!(out.body_ref().len() <= noise.len() as u64);
    assert!(out.headers().get("content-encoding").is_none());
}

#[test]
fn media_types() {
    assert!(from_path("/a/b.html").starts_with("text/html"));
    assert_eq!(from_path("x.PNG"), "image/png");
    assert_eq!(from_path("noext"), "application/octet-stream");
    assert!(is_precompressed("image/png"));
    assert!(!is_precompressed("text/css"));
}

#[test]
fn tables_hold_one_value_per_key() {
    let mut t: Table<u64> = Table::new();
    t.insert("b".to_owned(), 5);
    t.insert("a".to_owned(), 7);
    t.insert("b".to_owned(), 9);
    assert_eq!(t.len(), 2);
    assert_eq!(t.get("b"), Some(&9));
    assert_eq!(t.min_key().as_deref(), Some("a"));
    t.retain_above(8);
    assert_eq!(t.get("a"), None);
    t.remove("b");
    assert_eq!(t.len(), 0);
}

#[test]
fn chunks_come_out_again() {
    let chunks: [&[u8]; 3] = [b"0123456789abcdefg", b"\r\n0\r\n\r\n", &[0xff; 300]];
    let mut wire = Vec::new();
    for c in chunks {
        wire.extend_from_slice(format!("{:x}\r\n", c.len()).as_bytes());
        wire.extend_from_slice(c);
        wire.extend_from_slice(b"\r\n");
    }
    wire.extend_from_slice(b"0\r\n\r\n");
    let whole = chunks.concat();
    let mut d = ChunkDecoder::new();
    for k in 0..wire.len() {
        assert!(d.advance(&wire[..k], whole.len()).unwrap().is_none());
    }
    let mut all = wire.clone();
    all.extend_from_slice(b"GET / HTTP/1.1");
    assert_eq!(d.advance(&all, whole.len()).unwrap(), Some(wire.len()));
    assert_eq!(d.out, whole);
}

#[test]
fn requests_arrive_in_any_pieces() {
    let wire: &[u8] = b"POST /a HTTP/1.1\r\nHost: h\r\nTransfer-Encoding: chunked\r\n\r\n\
        5;x\r\nhello\r\n0\r\nT: u\r\n\r\n";
    for step in 1..=wire.len() {
        let mut c = H1Conn::new(Limits::default());
        let mut got = Vec::new();
        for piece in wire.chunks(step) {
            c.feed(piece);
            got.extend(c.poll_request(0).unwrap());
        }
        assert_eq!(got.len(), 1, "pieces of {step}");
        assert_eq!(got[0].body(), b"hello");
        assert_eq!(got[0].path(), "/a");
    }
}
