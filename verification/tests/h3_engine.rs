use compcol::hpack::HeaderField;
use compcol::qpack::QpackEncoder;
use httpsd::h3::conn::{
    encode_response, parse_request, split_message, stream_kind, H3Conn, StreamKind,
    H3_INTERNAL_ERROR, H3_MESSAGE_ERROR,
};
use httpsd::h3::frame::{read_varint, write_frame, write_varint, FRAME_DATA, FRAME_HEADERS};
use httpsd::proto::response::FileId;
use httpsd::{Body, Limits, Method, Response, StatusCode, Version};

#[test]
fn varint_round_trip() {
    // QUIC varints encode values in [0, 2^62 - 1].
    for v in [0u64, 1, 63, 64, 16383, 16384, 1 << 29, 1 << 30, (1 << 62) - 1] {
        let mut out = Vec::new();
        write_varint(&mut out, v);
        let (got, n) = read_varint(&out, 0).unwrap();
        assert_eq!(got, v);
        assert_eq!(n, out.len());
    }
}

#[test]
fn frame_round_trip() {
    let mut out = Vec::new();
    write_frame(&mut out, FRAME_HEADERS, b"abc");
    let (ty, p1) = read_varint(&out, 0).unwrap();
    let (len, p2) = read_varint(&out, p1).unwrap();
    assert_eq!(ty, FRAME_HEADERS);
    assert_eq!(len, 3);
    assert_eq!(&out[p2..], b"abc");
}

#[test]
fn varint_lengths() {
    for (v, n) in [(63u64, 1), (64, 2), (16383, 2), (16384, 4), (1 << 30, 8)] {
        let mut out = Vec::new();
        write_varint(&mut out, v);
        assert_eq!(out.len(), n);
    }
    assert_eq!(read_varint(&[0x40], 0), None);
    assert_eq!(read_varint(&[], 0), None);
}

fn message(fields: &[(&str, &str)], body: &[u8]) -> Vec<u8> {
    let list: Vec<HeaderField> = fields
        .iter()
        .map(|(n, v)| HeaderField::new(n.as_bytes(), v.as_bytes()))
        .collect();
    let block = QpackEncoder::new().encode_field_section(&list);
    let mut out = Vec::new();
    write_frame(&mut out, FRAME_HEADERS, &block);
    if !body.is_empty() {
        write_frame(&mut out, FRAME_DATA, body);
    }
    out
}

fn get(path: &str) -> Vec<u8> {
    message(
        &[
            (":method", "GET"),
            (":scheme", "https"),
            (":authority", "example.com"),
            (":path", path),
            ("x-a", "b"),
        ],
        b"",
    )
}

#[test]
fn requests_are_read() {
    let q = parse_request(&get("/p?q=1")).unwrap();
    assert_eq!(q.method(), &Method::Get);
    assert_eq!(q.target(), "/p?q=1");
    assert_eq!(q.version(), Version::Http3);
    assert_eq!(q.host(), Some("example.com"));
    assert_eq!(q.headers().get("x-a"), Some("b"));
    assert!(parse_request(b"").is_none());
    assert!(parse_request(&message(&[("x-a", "b")], b"")).is_none());
    let (block, body) = split_message(&message(&[(":method", "GET")], b"xyz")).unwrap();
    assert!(!block.is_empty());
    assert_eq!(body, b"xyz");
}

#[test]
fn streams_have_kinds() {
    assert_eq!(stream_kind(0), StreamKind::Request);
    assert_eq!(stream_kind(2), StreamKind::Drain);
    assert_eq!(stream_kind(3), StreamKind::Own);
    assert_eq!(stream_kind(4), StreamKind::Request);
}

#[test]
fn a_request_is_answered() {
    let mut c = H3Conn::new(Limits::default(), Some("srv".to_owned()));
    assert_eq!(c.start().unwrap().control[0], 0);
    c.started(3);
    assert!(c.start().is_none());
    let m = get("/");
    assert_eq!(c.read_request(0, &m[..5], false), None);
    assert!(c.ready().is_empty());
    assert_eq!(c.read_request(0, &m[5..], true), None);
    assert_eq!(c.ready(), vec![0]);
    let q = c.take_request(0).unwrap().unwrap();
    assert_eq!(q.path(), "/");
    assert!(c.take_request(0).unwrap().is_none());
    c.respond(0, Response::text("hi"));
    let out = c.pending(0).to_vec();
    assert_eq!(out, encode_response(Response::text("hi"), Some("srv")).0);
    assert!(out.ends_with(b"hi"));
    c.wrote(0, out.len());
    assert!(c.wants_finish(0));
    c.finished(0);
    assert!(c.streams().is_empty());
}

#[test]
fn bad_requests_are_reset() {
    let mut c = H3Conn::new(Limits::default(), None);
    let _ = c.read_request(4, b"", true);
    assert_eq!(c.take_request(4).unwrap_err(), H3_MESSAGE_ERROR);
}

#[test]
fn too_much_input_is_reset() {
    let limits = Limits { max_header_bytes: 8, max_body_bytes: 8 };
    let mut c = H3Conn::new(limits, None);
    assert!(c.read_request(0, &[0; 4096], false).is_some());
}

#[test]
fn file_bodies_are_streamed() {
    let mut c = H3Conn::new(Limits::default(), None);
    let _ = c.read_request(0, &get("/"), true);
    let _ = c.take_request(0).unwrap().unwrap();
    c.respond(0, Response::new(StatusCode::ok()).body(Body::file(FileId { id: 1 }, 2, 3)));
    let n = c.pending(0).len();
    c.wrote(0, n);
    assert!(!c.wants_finish(0));
    let r = c.wanted_read(0).unwrap();
    assert_eq!((r.file.id, r.offset, r.len), (1, 2, 3));
    assert_eq!(c.read_done(0, Some(b"xyz".to_vec())), None);
    assert!(c.pending(0).ends_with(b"xyz"));
    let n = c.pending(0).len();
    c.wrote(0, n);
    assert!(c.wants_finish(0));
}

#[test]
fn failed_file_reads_reset_the_stream() {
    let mut c = H3Conn::new(Limits::default(), None);
    let _ = c.read_request(0, &get("/"), true);
    let _ = c.take_request(0).unwrap().unwrap();
    c.respond(0, Response::new(StatusCode::ok()).body(Body::file(FileId { id: 1 }, 2, 3)));
    let n = c.pending(0).len();
    c.wrote(0, n);
    assert_eq!(c.read_done(0, None), Some(H3_INTERNAL_ERROR));
    assert!(c.streams().is_empty());
}
