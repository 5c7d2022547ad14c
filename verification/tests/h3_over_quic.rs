use std::sync::Arc;

use compcol::hpack::HeaderField;
use compcol::qpack::{QpackDecoder, QpackEncoder};
use httpsd::h3::conn::{split_message, H3Conn, H3_MESSAGE_ERROR};
use httpsd::h3::frame::{write_frame, FRAME_DATA, FRAME_HEADERS};
use httpsd::proto::response::FileId;
use httpsd::rt::quic::accept;
use httpsd::session::SessionConfig;
use httpsd::tls::TlsAcceptor;
use httpsd::{Body, Handler, Limits, Request, Response, StatusCode};
use purecrypto::quic::{QuicConfig, QuicConnection, StreamId};
use purecrypto::rng::OsRng;
use purecrypto::tls::Config;

struct Site;

impl Handler for Site {
    fn handle(&self, req: &Request) -> Response {
        match req.path() {
            "/file" => Response::new(StatusCode::ok()).body(Body::file(FileId { id: 7 }, 0, 5)),
            "/big" => Response::text("x".repeat(100_000)),
            path => Response::text(format!("at {path}")),
        }
    }
}

fn settings() -> SessionConfig<Site> {
    let mut cfg = SessionConfig::new(Arc::new(Site));
    cfg.hsts = Some("max-age=60".to_owned());
    cfg.compression.enabled = false;
    cfg
}

/// What the client lets the server do.
struct Terms {
    streams_uni: u64,
    stream_data: u64,
}

fn pair(terms: Terms) -> (QuicConnection, QuicConnection) {
    let acceptor = TlsAcceptor::self_signed(&vec!["localhost".to_owned()]).unwrap();
    let tls = Config::builder()
        .rng(Arc::new(OsRng))
        .tls_only()
        .verify_certificates(false)
        .server_name("localhost")
        .alpn(vec![b"h3".to_vec()])
        .build();
    let mut cfg = QuicConfig::default();
    cfg.tls = tls;
    cfg.transport_params.initial_max_data = Some(1 << 20);
    cfg.transport_params.initial_max_stream_data_bidi_local = Some(terms.stream_data);
    cfg.transport_params.initial_max_stream_data_bidi_remote = Some(1 << 16);
    cfg.transport_params.initial_max_stream_data_uni = Some(1 << 16);
    cfg.transport_params.initial_max_streams_bidi = Some(8);
    cfg.transport_params.initial_max_streams_uni = Some(terms.streams_uni);
    let client = QuicConnection::client(cfg, "localhost").unwrap();
    (client, accept(&acceptor).unwrap())
}

fn ordinary() -> Terms {
    Terms { streams_uni: 8, stream_data: 1 << 18 }
}

/// Carry datagrams both ways until none is left.
fn pump(client: &mut QuicConnection, server: &mut QuicConnection) {
    for _ in 0..64 {
        let mut moved = false;
        loop {
            let d = client.pop_datagram();
            if d.is_empty() {
                break;
            }
            moved = true;
            server.feed_datagram(&d).unwrap();
        }
        loop {
            let d = server.pop_datagram();
            if d.is_empty() {
                break;
            }
            moved = true;
            client.feed_datagram(&d).unwrap();
        }
        if !moved {
            break;
        }
    }
}

fn connected(terms: Terms) -> (QuicConnection, QuicConnection) {
    let (mut client, mut server) = pair(terms);
    pump(&mut client, &mut server);
    assert!(client.is_handshake_complete() && server.is_handshake_complete());
    (client, server)
}

fn request(path: &str) -> Vec<u8> {
    let fields = [
        HeaderField::new(b":method", b"GET"),
        HeaderField::new(b":scheme", b"https"),
        HeaderField::new(b":path", path.as_bytes()),
        HeaderField::new(b":authority", b"localhost"),
    ];
    let block = QpackEncoder::new().encode_field_section(&fields);
    let mut out = Vec::new();
    write_frame(&mut out, FRAME_HEADERS, &block);
    out
}

fn send(client: &mut QuicConnection, message: &[u8]) -> StreamId {
    let id = client.open_bidi().unwrap();
    assert_eq!(client.write(id, message).unwrap(), message.len());
    client.finish(id).unwrap();
    id
}

fn read(client: &mut QuicConnection, id: StreamId) -> (Vec<u8>, bool) {
    let mut all = Vec::new();
    let mut buf = [0u8; 4096];
    loop {
        match client.read(id, &mut buf) {
            Ok((n, fin)) => {
                all.extend_from_slice(&buf[..n]);
                if fin {
                    return (all, true);
                }
                if n == 0 {
                    return (all, false);
                }
            }
            Err(_) => return (all, false),
        }
    }
}

fn field(block: &[u8], name: &str) -> Option<String> {
    let fields = QpackDecoder::new().decode_field_section(block).unwrap();
    let hit = fields.iter().find(|f| f.name == name.as_bytes())?;
    Some(String::from_utf8(hit.value.clone()).unwrap())
}

fn engine() -> H3Conn {
    H3Conn::new(Limits::default(), Some("s".to_owned()))
}

#[test]
fn nothing_happens_before_the_handshake() {
    let (_, mut server) = pair(ordinary());
    let mut h3 = engine();
    h3.drive(&mut server, &settings()).unwrap();
    assert!(h3.start().is_some());
}

#[test]
fn requests_are_answered_over_quic() {
    let (mut client, mut server) = connected(ordinary());
    let cfg = settings();
    let mut h3 = engine();
    let a = send(&mut client, &request("/a"));
    let b = send(&mut client, &request("/b"));
    pump(&mut client, &mut server);
    h3.drive(&mut server, &cfg).unwrap();
    assert!(h3.start().is_none());
    assert!(h3.streams().is_empty());
    pump(&mut client, &mut server);
    for (id, text) in [(a, "at /a"), (b, "at /b")] {
        let (bytes, fin) = read(&mut client, id);
        assert!(fin);
        let (block, body) = split_message(&bytes).unwrap();
        assert_eq!(body, text.as_bytes());
        assert_eq!(field(&block, ":status").as_deref(), Some("200"));
        assert_eq!(field(&block, "server").as_deref(), Some("s"));
        assert_eq!(field(&block, "strict-transport-security").as_deref(), Some("max-age=60"));
    }
    // Our control stream opens with its type and SETTINGS; the others with
    // their type alone.
    let (control, _) = read(&mut client, StreamId(3));
    assert_eq!(&control[..2], &[0x00, 0x04]);
    assert_eq!(read(&mut client, StreamId(7)).0, vec![0x02]);
    assert_eq!(read(&mut client, StreamId(11)).0, vec![0x03]);
    // They are opened once.
    h3.drive(&mut server, &cfg).unwrap();
    pump(&mut client, &mut server);
    assert!(client.read(StreamId(15), &mut [0u8; 8]).is_err());
}

#[test]
fn a_request_may_come_in_pieces() {
    let (mut client, mut server) = connected(ordinary());
    let cfg = settings();
    let mut h3 = engine();
    let message = request("/slow");
    let id = client.open_bidi().unwrap();
    client.write(id, &message[..5]).unwrap();
    pump(&mut client, &mut server);
    h3.drive(&mut server, &cfg).unwrap();
    assert_eq!(h3.streams(), vec![id.value()]);
    assert!(h3.ready().is_empty());
    client.write(id, &message[5..]).unwrap();
    client.finish(id).unwrap();
    pump(&mut client, &mut server);
    h3.drive(&mut server, &cfg).unwrap();
    pump(&mut client, &mut server);
    let (bytes, fin) = read(&mut client, id);
    assert!(fin);
    assert_eq!(split_message(&bytes).unwrap().1, b"at /slow");
}

#[test]
fn malformed_requests_are_reset() {
    let (mut client, mut server) = connected(ordinary());
    let mut h3 = engine();
    let mut message = Vec::new();
    write_frame(&mut message, FRAME_DATA, b"no headers");
    let id = send(&mut client, &message);
    pump(&mut client, &mut server);
    h3.drive(&mut server, &settings()).unwrap();
    assert!(h3.streams().is_empty());
    // Our side cannot be ended any more.
    assert!(server.finish(id).is_err());
    assert_eq!(H3_MESSAGE_ERROR, 0x10e);
}

#[test]
fn overgrown_requests_are_reset() {
    let (mut client, mut server) = connected(ordinary());
    let limits = Limits { max_header_bytes: 8, max_body_bytes: 8 };
    let mut h3 = H3Conn::new(limits, None);
    let id = client.open_bidi().unwrap();
    client.write(id, &[0u8; 17]).unwrap();
    pump(&mut client, &mut server);
    h3.drive(&mut server, &settings()).unwrap();
    assert!(h3.streams().is_empty());
    assert!(server.write(id, b"x").is_err());
}

#[test]
fn flow_control_is_honored() {
    let (mut client, mut server) = connected(Terms { streams_uni: 8, stream_data: 1000 });
    let cfg = settings();
    let mut h3 = engine();
    let id = send(&mut client, &request("/big"));
    pump(&mut client, &mut server);
    h3.drive(&mut server, &cfg).unwrap();
    let left = h3.pending(id.value()).len();
    assert!(left > 99_000);
    // No credit came back: nothing more goes out.
    h3.flush(&mut server);
    assert_eq!(h3.pending(id.value()).len(), left);
    let mut all = Vec::new();
    for _ in 0..1000 {
        pump(&mut client, &mut server);
        let (bytes, fin) = read(&mut client, id);
        all.extend(bytes);
        if fin {
            break;
        }
        pump(&mut client, &mut server);
        h3.drive(&mut server, &cfg).unwrap();
    }
    assert!(h3.streams().is_empty());
    let (_, body) = split_message(&all).unwrap();
    assert_eq!(body, vec![b'x'; 100_000]);
}

#[test]
fn file_bodies_are_supplied() {
    let (mut client, mut server) = connected(ordinary());
    let mut h3 = engine();
    let id = send(&mut client, &request("/file"));
    pump(&mut client, &mut server);
    h3.drive(&mut server, &settings()).unwrap();
    let wanted = h3.wanted_read(id.value()).unwrap();
    assert_eq!((wanted.file.id, wanted.offset, wanted.len), (7, 0, 5));
    h3.supply(&mut server, id.value(), Some(b"hello".to_vec()));
    assert!(h3.streams().is_empty());
    pump(&mut client, &mut server);
    let (bytes, fin) = read(&mut client, id);
    assert!(fin);
    assert_eq!(split_message(&bytes).unwrap().1, b"hello");
}

#[test]
fn a_failed_read_resets_the_stream() {
    let (mut client, mut server) = connected(ordinary());
    let mut h3 = engine();
    let id = send(&mut client, &request("/file"));
    pump(&mut client, &mut server);
    h3.drive(&mut server, &settings()).unwrap();
    h3.supply(&mut server, id.value(), None);
    assert!(h3.streams().is_empty());
    assert!(server.finish(id).is_err());
}

#[test]
fn too_few_streams_is_an_error() {
    let (_, mut server) = connected(Terms { streams_uni: 2, stream_data: 1000 });
    let mut h3 = engine();
    let e = h3.drive(&mut server, &settings()).unwrap_err();
    assert_eq!(e.message(), "tls error: quic: InappropriateState");
    assert!(h3.start().is_some());
}

#[test]
fn quic_is_served_with_the_acceptors_certificate() {
    let acceptor = TlsAcceptor::self_signed(&vec!["one.test".to_owned()]).unwrap();
    let mut server = accept(&acceptor).unwrap();
    let (mut client, _) = pair(ordinary());
    pump(&mut client, &mut server);
    assert!(client.is_handshake_complete());
    assert_eq!(client.peer_certificates(), acceptor.chain().as_slice());
}
