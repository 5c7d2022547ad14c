use httpsd::net::clienthello::peek;
use httpsd::net::gdns::{base32_nopad, gdns_host, host_only, redirect_location};
use httpsd::net::ip::{ip_literal, IpAddr};

/// Build a minimal TLS record-framed ClientHello with the given SNI + ALPN.
fn client_hello(sni: Option<&str>, alpn: &[&[u8]]) -> Vec<u8> {
    let mut ext = Vec::new();
    if let Some(host) = sni {
        let mut sn = Vec::new();
        sn.extend_from_slice(&((host.len() + 3) as u16).to_be_bytes()); // list len
        sn.push(0); // host_name
        sn.extend_from_slice(&(host.len() as u16).to_be_bytes());
        sn.extend_from_slice(host.as_bytes());
        ext.extend_from_slice(&0x0000u16.to_be_bytes());
        ext.extend_from_slice(&(sn.len() as u16).to_be_bytes());
        ext.extend_from_slice(&sn);
    }
    if !alpn.is_empty() {
        let mut list = Vec::new();
        for p in alpn {
            list.push(p.len() as u8);
            list.extend_from_slice(p);
        }
        let mut a = Vec::new();
        a.extend_from_slice(&(list.len() as u16).to_be_bytes());
        a.extend_from_slice(&list);
        ext.extend_from_slice(&0x0010u16.to_be_bytes());
        ext.extend_from_slice(&(a.len() as u16).to_be_bytes());
        ext.extend_from_slice(&a);
    }

    let mut body = Vec::new();
    body.extend_from_slice(&0x0303u16.to_be_bytes()); // legacy_version
    body.extend_from_slice(&[0u8; 32]); // random
    body.push(0); // session id len
    body.extend_from_slice(&2u16.to_be_bytes()); // cipher suites len
    body.extend_from_slice(&0x1301u16.to_be_bytes()); // one suite
    body.push(1); // compression len
    body.push(0); // null compression
    body.extend_from_slice(&(ext.len() as u16).to_be_bytes());
    body.extend_from_slice(&ext);

    let mut hs = Vec::new();
    hs.push(1); // ClientHello
    let bl = body.len();
    hs.extend_from_slice(&[(bl >> 16) as u8, (bl >> 8) as u8, bl as u8]);
    hs.extend_from_slice(&body);

    let mut rec = Vec::new();
    rec.push(22); // handshake
    rec.extend_from_slice(&0x0301u16.to_be_bytes());
    rec.extend_from_slice(&(hs.len() as u16).to_be_bytes());
    rec.extend_from_slice(&hs);
    rec
}

#[test]
fn extracts_sni_and_alpn() {
    let rec = client_hello(Some("example.test"), &[b"h2", b"http/1.1"]);
    let info = peek(&rec).unwrap().unwrap();
    assert_eq!(info.server_name.as_deref(), Some("example.test"));
    assert_eq!(info.alpn_protocols, vec![b"h2".to_vec(), b"http/1.1".to_vec()]);
    assert!(!info.wants_acme_tls());
}

#[test]
fn detects_acme_tls() {
    let rec = client_hello(Some("a.test"), &[b"acme-tls/1"]);
    assert!(peek(&rec).unwrap().unwrap().wants_acme_tls());
}

#[test]
fn no_sni_is_ok() {
    let rec = client_hello(None, &[]);
    let info = peek(&rec).unwrap().unwrap();
    assert!(info.server_name.is_none());
    assert!(info.alpn_protocols.is_empty());
}

#[test]
fn partial_returns_none() {
    let rec = client_hello(Some("example.test"), &[b"h2"]);
    assert!(peek(&rec[..8]).unwrap().is_none());
    assert!(peek(&rec[..rec.len() - 5]).unwrap().is_none());
}

#[test]
fn non_tls_never_yields_client_hello() {
    // Non-handshake bytes must never be mistaken for a ClientHello (the
    // engine returns Err or Ok(None), never Ok(Some)).
    assert!(!matches!(peek(b"GET / HTTP/1.1\r\n\r\n"), Ok(Some(_))));
}

#[test]
fn bad_records_are_reported() {
    // An alert record where a handshake record is due.
    let r = peek(&[21, 3, 1, 0, 2, 1, 0]);
    assert!(r.unwrap_err().message().starts_with("tls error: client hello: "));
}

#[test]
fn base32_known_vectors() {
    assert_eq!(base32_nopad(&[0, 0, 0, 0]), "aaaaaaa");
    assert_eq!(base32_nopad(&[255, 255, 255, 255]), "777777y");
    // 5 bytes encode to exactly 8 chars (no padding char emitted).
    assert_eq!(base32_nopad(&[0xff; 5]).len(), 8);
    // IPv4 -> 7 chars, IPv6 -> 26 chars.
    assert_eq!(base32_nopad(&[1, 2, 3, 4]).len(), 7);
    assert_eq!(base32_nopad(&[0u8; 16]).len(), 26);
}

#[test]
fn base32_of_text() {
    assert_eq!(base32_nopad(b""), "");
    assert_eq!(base32_nopad(b"f"), "my");
    assert_eq!(base32_nopad(b"fo"), "mzxq");
    assert_eq!(base32_nopad(b"foo"), "mzxw6");
    assert_eq!(base32_nopad(b"foob"), "mzxw6yq");
    assert_eq!(base32_nopad(b"fooba"), "mzxw6ytb");
    assert_eq!(base32_nopad(b"foobar"), "mzxw6ytboi");
}

#[test]
fn gdns_host_suffix() {
    let h = gdns_host(IpAddr::v4(0, 0, 0, 0));
    assert_eq!(h, "aaaaaaa.g-dns.net");
    assert!(gdns_host(IpAddr::V6(1)).ends_with(".g-dns.net"));
}

#[test]
fn host_only_strips_port() {
    assert_eq!(host_only("example.com:8080"), "example.com");
    assert_eq!(host_only("example.com"), "example.com");
    assert_eq!(host_only("[::1]:443"), "::1");
    assert_eq!(host_only("1.2.3.4:80"), "1.2.3.4");
}

#[test]
fn redirect_preserves_real_host() {
    let ip = IpAddr::v4(203, 0, 113, 7);
    assert_eq!(
        redirect_location(Some("example.com"), ip, "/a?b=1"),
        "https://example.com/a?b=1"
    );
    assert_eq!(
        redirect_location(Some("example.com:8080"), ip, "/"),
        "https://example.com/"
    );
}

#[test]
fn redirect_strips_control_chars() {
    let ip = IpAddr::v4(203, 0, 113, 7);
    // A CR/LF (or other control) in the host falls back to the g-dns host.
    let host_fallback = format!("https://{}/p", gdns_host(ip));
    assert_eq!(
        redirect_location(Some("evil.com\r\nX-Injected: 1"), ip, "/p"),
        host_fallback
    );
    // A control char in the target falls back to "/".
    assert_eq!(
        redirect_location(Some("example.com"), ip, "/a\r\nSet-Cookie: x"),
        "https://example.com/"
    );
    // A bare DEL byte is rejected too.
    assert_eq!(
        redirect_location(Some("example.com"), ip, "/a\x7fb"),
        "https://example.com/"
    );
}

#[test]
fn redirect_ip_or_missing_goes_to_gdns() {
    let ip = IpAddr::v4(203, 0, 113, 7);
    let expect = format!("https://{}/p", gdns_host(ip));
    assert_eq!(redirect_location(Some("203.0.113.7"), ip, "/p"), expect);
    assert_eq!(redirect_location(None, ip, "/p"), expect);
}

fn literal(s: &str) -> bool {
    let c: Vec<char> = s.chars().collect();
    ip_literal(&c)
}

#[test]
fn ip_literals() {
    for s in [
        "1.2.3.4",
        "0.0.0.0",
        "255.255.255.255",
        "::",
        "::1",
        "1::",
        "2001:db8::1",
        "1:2:3:4:5:6:7:8",
        "::ffff:1.2.3.4",
        "1:2:3:4:5:6:1.2.3.4",
        "A::b",
    ] {
        assert!(literal(s), "{s}");
    }
    for s in [
        "",
        "1.2.3",
        "1.2.3.256",
        "01.2.3.4",
        "1.2.3.4.5",
        "example.com",
        ":",
        ":::",
        "1:2:3:4:5:6:7",
        "1:2:3:4:5:6:7:8:9",
        "1:2:3:4:5:6:7::8",
        "1::2::3",
        "12345::",
        "1.2.3.4::",
        "g::",
    ] {
        assert!(!literal(s), "{s}");
    }
}

#[test]
fn octets_are_big_endian() {
    assert_eq!(IpAddr::v4(10, 0, 0, 1).octets(), vec![10, 0, 0, 1]);
    assert_eq!(IpAddr::V6(1).octets()[15], 1);
    assert_eq!(IpAddr::V6(1 << 127).octets()[0], 128);
    assert!(IpAddr::v4(127, 0, 0, 1).is_loopback());
    assert!(IpAddr::V6(1).is_loopback());
    assert!(!IpAddr::v4(10, 0, 0, 1).is_loopback());
}
