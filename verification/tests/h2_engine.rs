use compcol::hpack::{HeaderField, HpackDecoder, HpackEncoder};
use httpsd::h2::conn::H2Conn;
use httpsd::h2::frame::{
    parse_settings, strip_padding, write_frame, write_settings, write_window_update, FrameHeader,
    CLIENT_PREFACE,
};
use httpsd::h2::model::{MAX_CONCURRENT_STREAMS, MAX_CONTINUATION_FRAMES};
use httpsd::h2::{errcode, flag, ftype, settings};
use httpsd::proto::response::FileId;
use httpsd::{Body, Limits, Method, Response, StatusCode, Version};

#[test]
fn header_round_trip() {
    let mut out = Vec::new();
    write_frame(&mut out, ftype::HEADERS, flag::END_HEADERS, 5, b"abc");
    let h = FrameHeader::parse(&out[..9]);
    assert_eq!(h.length, 3);
    assert_eq!(h.ftype, ftype::HEADERS);
    assert!(h.has(flag::END_HEADERS));
    assert_eq!(h.stream_id, 5);
    assert_eq!(&out[9..], b"abc");
}

#[test]
fn settings_round_trip() {
    let mut out = Vec::new();
    write_settings(&mut out, &[(settings::INITIAL_WINDOW_SIZE, 1 << 20)]);
    let h = FrameHeader::parse(&out[..9]);
    let params = parse_settings(&out[9..9 + h.length]).unwrap();
    assert_eq!(params, vec![(settings::INITIAL_WINDOW_SIZE, 1 << 20)]);
}

#[test]
fn padding_stripped() {
    // pad_len=2, content="hi", padding=2 bytes
    let payload = [2u8, b'h', b'i', 0, 0];
    assert_eq!(strip_padding(&payload, true), Some(&b"hi"[..]));
    assert_eq!(strip_padding(&payload, false), Some(&payload[..]));
    assert_eq!(strip_padding(&[5u8, 1, 2], true), None);
}

/// Walk a buffer of frames, returning the concatenated HEADERS blocks and
/// DATA payloads for `want_stream`.
fn collect(out: &[u8], want_stream: u32) -> (Vec<u8>, Vec<u8>) {
    let mut pos = 0;
    let (mut headers, mut data) = (Vec::new(), Vec::new());
    while pos + 9 <= out.len() {
        let h = FrameHeader::parse(&out[pos..pos + 9]);
        let body = &out[pos + 9..pos + 9 + h.length];
        if h.stream_id == want_stream {
            match h.ftype {
                ftype::HEADERS | ftype::CONTINUATION => headers.extend_from_slice(body),
                ftype::DATA => data.extend_from_slice(body),
                _ => {}
            }
        }
        pos += 9 + h.length;
    }
    (headers, data)
}

fn client_request(
    enc: &mut HpackEncoder,
    sid: u32,
    fields: &[HeaderField],
    body: Option<&[u8]>,
) -> Vec<u8> {
    let mut buf = Vec::new();
    let block = enc.encode(fields);
    let end_stream = body.is_none();
    let flags = flag::END_HEADERS | if end_stream { flag::END_STREAM } else { 0 };
    write_frame(&mut buf, ftype::HEADERS, flags, sid, &block);
    if let Some(b) = body {
        write_frame(&mut buf, ftype::DATA, flag::END_STREAM, sid, b);
    }
    buf
}

fn start() -> Vec<u8> {
    let mut wire = Vec::new();
    wire.extend_from_slice(CLIENT_PREFACE.as_bytes());
    write_settings(&mut wire, &[]);
    wire
}

fn fields(method: &[u8], authority: &[u8], path: &[u8]) -> Vec<HeaderField> {
    vec![
        HeaderField::new(b":method", method),
        HeaderField::new(b":scheme", b"https"),
        HeaderField::new(b":authority", authority),
        HeaderField::new(b":path", path),
    ]
}

#[test]
fn get_request_and_response() {
    let mut c = H2Conn::new(Limits::default(), Some("httpsd".into()));
    let mut enc = HpackEncoder::new();

    let mut wire = start();
    wire.extend_from_slice(&client_request(
        &mut enc,
        1,
        &fields(b"GET", b"example.test", b"/hi?x=1"),
        None,
    ));

    c.received(&wire);
    let (sid, req) = c.poll_request().expect("request delivered");
    assert_eq!(sid, 1);
    assert_eq!(req.method(), &Method::Get);
    assert_eq!(req.path(), "/hi");
    assert_eq!(req.query(), Some("x=1"));
    assert_eq!(req.host(), Some("example.test"));
    assert_eq!(req.version(), Version::Http2);

    c.respond(1, Response::text("hello h2"));
    let out = c.take_out();
    let (hblock, data) = collect(&out, 1);
    let fields = HpackDecoder::new()
        .decode(&hblock)
        .expect("decode resp headers");
    let status = fields
        .iter()
        .find(|f| f.name == b":status")
        .expect("status");
    assert_eq!(status.value, b"200");
    assert_eq!(data, b"hello h2");
}

#[test]
fn head_response_has_length_but_no_body() {
    let mut c = H2Conn::new(Limits::default(), Some("httpsd".into()));
    let mut enc = HpackEncoder::new();
    let mut wire = start();
    wire.extend_from_slice(&client_request(&mut enc, 1, &fields(b"HEAD", b"a", b"/file"), None));
    c.received(&wire);
    let (sid, req) = c.poll_request().expect("request");
    assert_eq!(req.method(), &Method::Head);

    // Respond as a handler would for the matching GET: a non-empty body.
    c.respond(sid, Response::text("the full body bytes"));
    let out = c.take_out();
    let (hblock, data) = collect(&out, 1);
    // No DATA frames at all for a HEAD response...
    assert!(data.is_empty(), "HEAD must not send a body");
    // ...but the entity Content-Length is still advertised.
    let fields = HpackDecoder::new().decode(&hblock).expect("decode");
    let clen = fields
        .iter()
        .find(|f| f.name == b"content-length")
        .expect("content-length present on HEAD");
    assert_eq!(clen.value, b"19"); // len("the full body bytes")
}

#[test]
fn post_with_body_is_buffered() {
    let mut c = H2Conn::new(Limits::default(), None);
    let mut enc = HpackEncoder::new();
    let mut wire = start();
    wire.extend_from_slice(&client_request(
        &mut enc,
        1,
        &fields(b"POST", b"a", b"/upload"),
        Some(b"payload-bytes"),
    ));
    c.received(&wire);
    let (_sid, req) = c.poll_request().expect("request");
    assert_eq!(req.method(), &Method::Post);
    assert_eq!(req.body(), b"payload-bytes");
}

#[test]
fn bad_preface_closes() {
    let mut c = H2Conn::new(Limits::default(), None);
    c.received(b"NOT-A-PREFACE-AT-ALL-XXXX");
    assert!(c.wants_close());
}

/// Return the error code of the first frame of `ty` for `sid` (last 4 bytes
/// of its payload), if any. Works for GOAWAY (sid 0) and RST_STREAM.
fn frame_code(out: &[u8], ty: u8, sid: u32) -> Option<u32> {
    let mut pos = 0;
    while pos + 9 <= out.len() {
        let h = FrameHeader::parse(&out[pos..pos + 9]);
        let body = &out[pos + 9..pos + 9 + h.length];
        if h.ftype == ty && h.stream_id == sid && body.len() >= 4 {
            let n = body.len();
            return Some(u32::from_be_bytes([
                body[n - 4],
                body[n - 3],
                body[n - 2],
                body[n - 1],
            ]));
        }
        pos += 9 + h.length;
    }
    None
}

#[test]
fn oversized_header_block_is_rejected() {
    let limits = Limits {
        max_header_bytes: 1024,
        max_body_bytes: 1 << 20,
    };
    let mut c = H2Conn::new(limits, None);
    let mut wire = start();
    // A HEADERS frame without END_HEADERS whose block already exceeds the
    // limit: the cap must fire before HPACK ever runs.
    let big = vec![0u8; 2048];
    write_frame(&mut wire, ftype::HEADERS, 0, 1, &big);
    c.received(&wire);
    assert!(c.wants_close());
    assert_eq!(
        frame_code(&c.take_out(), ftype::GOAWAY, 0),
        Some(errcode::ENHANCE_YOUR_CALM)
    );
}

#[test]
fn continuation_flood_is_rejected() {
    let mut c = H2Conn::new(Limits::default(), None);
    let mut wire = start();
    // Open a header block and never end it, flooding CONTINUATIONs.
    write_frame(&mut wire, ftype::HEADERS, 0, 1, &[]);
    for _ in 0..(MAX_CONTINUATION_FRAMES + 1) {
        write_frame(&mut wire, ftype::CONTINUATION, 0, 1, &[]);
    }
    c.received(&wire);
    assert!(c.wants_close());
    assert_eq!(
        frame_code(&c.take_out(), ftype::GOAWAY, 0),
        Some(errcode::ENHANCE_YOUR_CALM)
    );
}

#[test]
fn concurrent_stream_cap_refuses_excess() {
    let mut c = H2Conn::new(Limits::default(), None);
    let mut enc = HpackEncoder::new();
    let mut wire = start();
    // Open exactly MAX_CONCURRENT_STREAMS streams; they stay open awaiting a
    // response, so they all count against the cap.
    for i in 0..MAX_CONCURRENT_STREAMS {
        let sid = 1 + 2 * i;
        wire.extend_from_slice(&client_request(&mut enc, sid, &fields(b"GET", b"a", b"/"), None));
    }
    // One more must be refused without closing the connection.
    let extra = 1 + 2 * MAX_CONCURRENT_STREAMS;
    wire.extend_from_slice(&client_request(&mut enc, extra, &fields(b"GET", b"a", b"/x"), None));
    c.received(&wire);

    assert!(!c.wants_close(), "stream cap must not kill the connection");
    let mut delivered = 0;
    while c.poll_request().is_some() {
        delivered += 1;
    }
    assert_eq!(delivered, MAX_CONCURRENT_STREAMS as usize);
    assert_eq!(
        frame_code(&c.take_out(), ftype::RST_STREAM, extra),
        Some(errcode::REFUSED_STREAM)
    );
}

/// Take what the engine has ready, reading the file body as it asks for it.
fn pump(c: &mut H2Conn, data: &[u8]) -> Vec<u8> {
    let mut out = c.take_out();
    while let Some(q) = c.wanted_read() {
        let from = q.read.offset as usize;
        c.read_done(Some(data[from..from + q.read.len].to_vec()));
        c.pump_out();
        out.extend_from_slice(&c.take_out());
    }
    out
}

#[test]
fn file_body_streams_under_flow_control() {
    // A file body larger than the initial 65535-byte send window, so it can
    // only finish once the peer opens the window with WINDOW_UPDATEs — proof
    // that it streams incrementally rather than dumping the whole file.
    let total = 200_000usize;
    let data: Vec<u8> = (0..total).map(|i| (i % 251) as u8).collect();
    let file = FileId { id: 7 };

    let mut c = H2Conn::new(Limits::default(), None);
    let mut enc = HpackEncoder::new();
    let mut wire = start();
    wire.extend_from_slice(&client_request(&mut enc, 1, &fields(b"GET", b"a", b"/big"), None));
    c.received(&wire);
    let (sid, _req) = c.poll_request().expect("request");
    c.respond(
        sid,
        Response::new(StatusCode::ok()).body(Body::file(file, 0, total as u64)),
    );

    // First burst is bounded by the initial connection/stream window.
    let mut body = Vec::new();
    let (_h, d) = collect(&pump(&mut c, &data), 1);
    body.extend_from_slice(&d);
    assert!(
        body.len() < total,
        "initial window must NOT let the whole file out: got {}",
        body.len()
    );

    // Open both windows generously and keep pumping until the body is done.
    for _ in 0..64 {
        if body.len() >= total {
            break;
        }
        let mut wu = Vec::new();
        write_window_update(&mut wu, 0, 1 << 20);
        write_window_update(&mut wu, 1, 1 << 20);
        c.received(&wu);
        let (_h, d) = collect(&pump(&mut c, &data), 1);
        body.extend_from_slice(&d);
    }
    assert_eq!(body.len(), total, "whole file must eventually stream out");
    assert_eq!(body, data, "streamed body must be byte-exact");
}

#[test]
fn window_update_overflow_is_flow_control_error() {
    let mut c = H2Conn::new(Limits::default(), None);
    let mut wire = start();
    // A connection-level WINDOW_UPDATE that pushes the window past 2^31-1.
    write_window_update(&mut wire, 0, 0x7fff_ffff);
    c.received(&wire);
    assert!(c.wants_close());
    assert_eq!(
        frame_code(&c.take_out(), ftype::GOAWAY, 0),
        Some(errcode::FLOW_CONTROL_ERROR)
    );
}

#[test]
fn input_may_come_in_any_pieces() {
    let mut enc = HpackEncoder::new();
    let mut wire = start();
    wire.extend_from_slice(&client_request(
        &mut enc,
        1,
        &fields(b"POST", b"a", b"/p"),
        Some(b"body"),
    ));
    let mut whole = H2Conn::new(Limits::default(), None);
    whole.received(&wire);
    let mut pieces = H2Conn::new(Limits::default(), None);
    for b in &wire {
        pieces.received(&[*b]);
    }
    let (a, x) = whole.poll_request().unwrap();
    let (b, y) = pieces.poll_request().unwrap();
    assert_eq!(a, b);
    assert_eq!(x.body(), y.body());
    assert_eq!(whole.take_out(), pieces.take_out());
}

#[test]
fn short_read_resets_the_stream() {
    let mut c = H2Conn::new(Limits::default(), None);
    let mut enc = HpackEncoder::new();
    let mut wire = start();
    wire.extend_from_slice(&client_request(&mut enc, 1, &fields(b"GET", b"a", b"/f"), None));
    c.received(&wire);
    let (sid, _) = c.poll_request().unwrap();
    c.respond(sid, Response::new(StatusCode::ok()).body(Body::file(FileId { id: 1 }, 0, 50)));
    let _ = c.take_out();
    assert_eq!(c.wanted_read().unwrap().read.len, 50);
    c.read_done(Some(vec![0; 10]));
    c.pump_out();
    let out = c.take_out();
    assert!(frame_code(&out, ftype::RST_STREAM, 1).is_some());
    assert!(!c.wants_close());
}

#[test]
fn goaway_is_sent_once_and_input_ignored_after() {
    let mut c = H2Conn::new(Limits::default(), None);
    c.received(b"NOT-A-PREFACE-AT-ALL-XXXX");
    let first = c.take_out();
    assert_eq!(frame_code(&first, ftype::GOAWAY, 0), Some(errcode::PROTOCOL_ERROR));
    c.received(b"more garbage");
    assert!(c.take_out().is_empty());
}

#[test]
fn ping_is_answered() {
    let mut c = H2Conn::new(Limits::default(), None);
    let mut wire = start();
    write_frame(&mut wire, ftype::PING, 0, 0, b"12345678");
    c.received(&wire);
    let out = c.take_out();
    let mut pos = 0;
    let mut seen = false;
    while pos + 9 <= out.len() {
        let h = FrameHeader::parse(&out[pos..pos + 9]);
        if h.ftype == ftype::PING {
            assert!(h.has(flag::ACK));
            assert_eq!(&out[pos + 9..pos + 17], b"12345678");
            seen = true;
        }
        pos += 9 + h.length;
    }
    assert!(seen);
}

#[test]
fn a_split_header_block_ends_the_stream_once() {
    // (body, whether END_STREAM belongs on the HEADERS frame)
    for (body, on_headers) in [("", true), ("x", false)] {
        let mut c = H2Conn::new(Limits::default(), None);
        let mut enc = HpackEncoder::new();
        let mut wire = start();
        wire.extend_from_slice(&client_request(&mut enc, 1, &fields(b"GET", b"a", b"/"), None));
        c.received(&wire);
        c.poll_request().unwrap();
        let _ = c.take_out();
        let resp = Response::new(StatusCode::ok())
            .header("X-Long", "\u{7f}~".repeat(30_000))
            .body(body.to_owned());
        c.respond(1, resp);
        let out = c.take_out();
        let mut seen = Vec::new();
        let mut pos = 0;
        while pos + 9 <= out.len() {
            let h = FrameHeader::parse(&out[pos..pos + 9]);
            if h.stream_id == 1 {
                seen.push((h.ftype, h.has(flag::END_STREAM), h.has(flag::END_HEADERS), h.length));
            }
            pos += 9 + h.length;
        }
        let headers: Vec<_> = seen.iter().filter(|f| f.0 != ftype::DATA).collect();
        assert!(headers.len() > 2);
        for (i, f) in headers.iter().enumerate() {
            assert_eq!(f.0, if i == 0 { ftype::HEADERS } else { ftype::CONTINUATION });
            assert_eq!(f.1, i == 0 && on_headers);
            assert_eq!(f.2, i == headers.len() - 1);
            assert!(f.3 <= 16384);
        }
        assert_eq!(seen.iter().filter(|f| f.1).count(), 1);
        assert!(seen.last().unwrap().1 || on_headers);
    }
}
