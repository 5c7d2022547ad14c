use httpsd::bytes::find_subslice;
use httpsd::proto::chunk::MAX_CHUNK_LINE_BYTES;
use httpsd::proto::date::http_date;
use httpsd::proto::head::{negotiate_keep_alive, MAX_HEADER_FIELDS};
use httpsd::proto::response::{FileId, STREAM_CHUNK};
use httpsd::{Body, Error, H1Conn, Limits, Method, Request, Response, StatusCode, Version};

fn drive(conn: &mut H1Conn, input: &[u8]) -> Option<Request> {
    conn.feed(input);
    conn.poll_request(0).unwrap()
}

/// Drain a connection's output fully: queued bytes, then every streamed piece of
/// a file body that holds `data`.
fn drain_all(conn: &mut H1Conn, data: &[u8]) -> Vec<u8> {
    let mut out = Vec::new();
    while conn.has_output() {
        let chunk = conn.take_out();
        out.extend_from_slice(&chunk);
        if let Some(q) = conn.wanted_read() {
            let from = q.offset as usize;
            let piece = data[from..from + q.len].to_vec();
            out.extend_from_slice(&conn.read_done(Some(piece)));
        }
    }
    out
}

#[test]
fn streams_multichunk_file_with_correct_length() {
    // Larger than STREAM_CHUNK so it must be served across several drains.
    let n = 5 * STREAM_CHUNK + 123;
    let data: Vec<u8> = (0..n).map(|i| (i % 251) as u8).collect();
    let file = FileId { id: 1 };

    let mut c = H1Conn::default();
    let _ = drive(&mut c, b"GET / HTTP/1.1\r\nConnection: close\r\n\r\n").unwrap();
    c.respond(Response::new(StatusCode::ok()).body(Body::file(file, 0, n as u64)), 0);

    let out = drain_all(&mut c, &data);
    let split = find_subslice(&out, b"\r\n\r\n").unwrap() + 4;
    let head = String::from_utf8(out[..split].to_vec()).unwrap();
    assert!(head.contains(&format!("Content-Length: {n}\r\n")), "head: {head}");
    assert_eq!(&out[split..], &data[..], "streamed body must be byte-exact");
}

#[test]
fn streams_file_range_span_only() {
    let data: Vec<u8> = (0..(2 * STREAM_CHUNK)).map(|i| (i % 256) as u8).collect();
    let file = FileId { id: 1 };
    let (start, len) = (1000u64, (STREAM_CHUNK + 7) as u64);

    let mut c = H1Conn::default();
    let _ = drive(&mut c, b"GET / HTTP/1.1\r\nConnection: close\r\n\r\n").unwrap();
    c.respond(
        Response::new(StatusCode::partial_content()).body(Body::file(file, start, len)),
        0,
    );

    let out = drain_all(&mut c, &data);
    let split = find_subslice(&out, b"\r\n\r\n").unwrap() + 4;
    assert_eq!(
        &out[split..],
        &data[start as usize..(start + len) as usize],
        "range body must be exactly the requested span"
    );
}

#[test]
fn head_file_sends_length_but_no_body() {
    let data = vec![7u8; 3 * STREAM_CHUNK];
    let file = FileId { id: 1 };

    let mut c = H1Conn::default();
    let _ = drive(&mut c, b"HEAD / HTTP/1.1\r\nConnection: close\r\n\r\n").unwrap();
    c.respond(
        Response::new(StatusCode::ok()).body(Body::file(file, 0, data.len() as u64)),
        0,
    );

    let out = drain_all(&mut c, &data);
    let text = String::from_utf8(out).unwrap();
    assert!(
        text.contains(&format!("Content-Length: {}\r\n", data.len())),
        "head: {text}"
    );
    assert!(text.ends_with("\r\n\r\n"), "HEAD must send no body: {text}");
}

#[test]
fn short_file_read_closes() {
    let mut c = H1Conn::default();
    let _ = drive(&mut c, b"GET / HTTP/1.1\r\n\r\n").unwrap();
    c.respond(Response::new(StatusCode::ok()).body(Body::file(FileId { id: 9 }, 0, 10)), 0);
    let _ = c.take_out();
    let q = c.wanted_read().unwrap();
    assert_eq!((q.file.id, q.offset, q.len), (9, 0, 10));
    assert_eq!(c.read_done(Some(vec![1, 2, 3])), vec![1, 2, 3]);
    assert!(c.wants_close());
    assert!(!c.has_output());
}

#[test]
fn parses_simple_get() {
    let mut c = H1Conn::default();
    let req = drive(&mut c, b"GET /hello?x=1 HTTP/1.1\r\nHost: a\r\n\r\n").unwrap();
    assert_eq!(req.method(), &Method::Get);
    assert_eq!(req.path(), "/hello");
    assert_eq!(req.query(), Some("x=1"));
    assert_eq!(req.host(), Some("a"));
    assert!(req.body().is_empty());
}

#[test]
fn waits_for_full_body() {
    let mut c = H1Conn::default();
    c.feed(b"POST / HTTP/1.1\r\nContent-Length: 5\r\n\r\nab");
    assert!(c.poll_request(0).unwrap().is_none());
    c.feed(b"cde");
    let req = c.poll_request(0).unwrap().unwrap();
    assert_eq!(req.body(), b"abcde");
}

#[test]
fn decodes_chunked() {
    let mut c = H1Conn::default();
    let req = drive(
        &mut c,
        b"POST / HTTP/1.1\r\nTransfer-Encoding: chunked\r\n\r\n5\r\nhello\r\n0\r\n\r\n",
    )
    .unwrap();
    assert_eq!(req.body(), b"hello");
}

#[test]
fn keep_alive_default_by_version() {
    let mut c = H1Conn::default();
    let req = drive(&mut c, b"GET / HTTP/1.1\r\n\r\n").unwrap();
    assert!(negotiate_keep_alive(req.version(), req.headers()));
    let mut c = H1Conn::default();
    let req = drive(&mut c, b"GET / HTTP/1.0\r\n\r\n").unwrap();
    assert!(!negotiate_keep_alive(req.version(), req.headers()));
}

#[test]
fn serializes_response_with_framing() {
    let mut c = H1Conn::default();
    let _ = drive(&mut c, b"GET / HTTP/1.1\r\nConnection: close\r\n\r\n").unwrap();
    c.respond(Response::text("hi"), 784_111_777);
    let out = String::from_utf8(c.take_out()).unwrap();
    assert!(out.starts_with("HTTP/1.1 200 OK\r\n"));
    assert!(out.contains("Content-Length: 2\r\n"));
    assert!(out.contains("Connection: close\r\n"));
    assert!(out.contains("Date: Sun, 06 Nov 1994 08:49:37 GMT\r\n"));
    assert!(out.contains("Server: httpsd/0.1.1\r\n"));
    assert!(out.ends_with("\r\n\r\nhi"));
    assert!(c.wants_close());
}

#[test]
fn head_omits_body_keeps_length() {
    let mut c = H1Conn::default();
    let _ = drive(&mut c, b"HEAD / HTTP/1.1\r\n\r\n").unwrap();
    c.respond(Response::text("hello"), 0);
    let out = String::from_utf8(c.take_out()).unwrap();
    assert!(out.contains("Content-Length: 5\r\n"));
    assert!(out.ends_with("\r\n\r\n")); // no body
}

#[test]
fn rejects_te_and_cl_together() {
    let mut c = H1Conn::default();
    c.feed(b"POST / HTTP/1.1\r\nContent-Length: 1\r\nTransfer-Encoding: chunked\r\n\r\n");
    assert!(c.poll_request(0).is_err());
    assert!(c.wants_close());
    let out = String::from_utf8(c.take_out()).unwrap();
    assert!(out.starts_with("HTTP/1.1 400"));
}

#[test]
fn chunked_with_real_trailer_parses_and_drains() {
    let mut c = H1Conn::default();
    let req = drive(
        &mut c,
        b"POST / HTTP/1.1\r\nTransfer-Encoding: chunked\r\n\r\n5\r\nhello\r\n0\r\nA: 1\r\n\r\n",
    )
    .unwrap();
    assert_eq!(req.body(), b"hello");
    // The trailer must be fully consumed: nothing left to misparse.
    assert_eq!(c.buffered(), 0);
}

#[test]
fn chunked_partial_trailer_waits() {
    let mut c = H1Conn::default();
    // Final empty line (CRLF terminating the trailer section) not yet sent.
    c.feed(b"POST / HTTP/1.1\r\nTransfer-Encoding: chunked\r\n\r\n5\r\nhello\r\n0\r\nA: 1\r\n");
    assert!(c.poll_request(0).unwrap().is_none());
    c.feed(b"\r\n");
    let req = c.poll_request(0).unwrap().unwrap();
    assert_eq!(req.body(), b"hello");
    assert_eq!(c.buffered(), 0);
}

#[test]
fn chunked_trailer_bytes_not_smuggled_as_next_request() {
    let mut c = H1Conn::default();
    // Without proper trailer consumption the `GET /evil` line would be left
    // in the buffer and parsed as a second request.
    c.feed(
        b"POST / HTTP/1.1\r\nTransfer-Encoding: chunked\r\n\r\n\
          0\r\nX: y\r\n\r\nGET /evil HTTP/1.1\r\nHost: a\r\n\r\n",
    );
    let _ = c.poll_request(0).unwrap().unwrap();
    c.respond(Response::text("ok"), 0);
    let next = c.poll_request(0).unwrap().unwrap();
    // The smuggled request is parsed only because the client legitimately
    // pipelined it after a *complete* trailer section.
    assert_eq!(next.path(), "/evil");
}

#[test]
fn chunked_huge_size_is_rejected_not_panicking() {
    let mut c = H1Conn::default();
    c.feed(b"POST / HTTP/1.1\r\nTransfer-Encoding: chunked\r\n\r\nfffffffffffffff0\r\n");
    let err = c.poll_request(0);
    assert!(err.is_err());
    let out = String::from_utf8(c.take_out()).unwrap();
    assert!(out.starts_with("HTTP/1.1 413"));
}

#[test]
fn chunked_non_hex_size_is_rejected() {
    let mut c = H1Conn::default();
    c.feed(b"POST / HTTP/1.1\r\nTransfer-Encoding: chunked\r\n\r\n+5\r\nhello\r\n0\r\n\r\n");
    assert!(c.poll_request(0).is_err());
}

#[test]
fn chunked_oversized_size_line_is_rejected() {
    let mut c = H1Conn::default();
    c.feed(b"POST / HTTP/1.1\r\nTransfer-Encoding: chunked\r\n\r\n");
    // A chunk-size line with a never-ending extension and no CRLF.
    let mut huge = b"1;".to_vec();
    huge.extend(vec![b'a'; MAX_CHUNK_LINE_BYTES + 16]);
    c.feed(&huge);
    assert!(c.poll_request(0).is_err());
}

#[test]
fn rejects_bare_lf_in_headers() {
    let mut c = H1Conn::default();
    // Bare LF after the Host value, then the proper terminator.
    c.feed(b"GET / HTTP/1.1\r\nHost: a\nX: y\r\n\r\n");
    assert!(c.poll_request(0).is_err());
}

#[test]
fn rejects_control_char_in_header_value() {
    let mut c = H1Conn::default();
    c.feed(b"GET / HTTP/1.1\r\nX: a\x01b\r\n\r\n");
    assert!(c.poll_request(0).is_err());
}

#[test]
fn rejects_non_token_header_name() {
    let mut c = H1Conn::default();
    c.feed(b"GET / HTTP/1.1\r\nBad Name: x\r\n\r\n");
    assert!(c.poll_request(0).is_err());
}

#[test]
fn rejects_too_many_header_fields() {
    let mut c = H1Conn::default();
    let mut req = b"GET / HTTP/1.1\r\n".to_vec();
    for i in 0..(MAX_HEADER_FIELDS + 5) {
        req.extend_from_slice(format!("X-{i}: v\r\n").as_bytes());
    }
    req.extend_from_slice(b"\r\n");
    c.feed(&req);
    assert!(c.poll_request(0).is_err());
}

#[test]
fn rejects_non_digit_content_length() {
    let mut c = H1Conn::default();
    c.feed(b"POST / HTTP/1.1\r\nContent-Length: +5\r\n\r\nhello");
    assert!(c.poll_request(0).is_err());
}

#[test]
fn serialize_strips_handler_transfer_encoding_and_injection() {
    let mut c = H1Conn::default();
    let _ = drive(&mut c, b"GET / HTTP/1.1\r\nConnection: close\r\n\r\n").unwrap();
    let mut resp = Response::text("hi");
    resp.headers_mut().set("Transfer-Encoding", "chunked");
    resp.headers_mut().set("X-Evil", "a\r\nInjected: 1");
    c.respond(resp, 0);
    let out = String::from_utf8(c.take_out()).unwrap();
    assert!(!out.to_ascii_lowercase().contains("transfer-encoding"));
    assert!(!out.contains("Injected: 1"));
    assert!(out.contains("Content-Length: 2\r\n"));
}

#[test]
fn chunked_byte_by_byte_matches_all_at_once() {
    // A body with multiple chunks, a chunk extension, and a real trailer.
    let req_bytes: &[u8] = b"POST / HTTP/1.1\r\nTransfer-Encoding: chunked\r\n\r\n\
        5;ext=1\r\nhello\r\n6\r\n world\r\n0\r\nX: y\r\n\r\n";

    // All at once.
    let mut c_all = H1Conn::default();
    c_all.feed(req_bytes);
    let req_all = c_all.poll_request(0).unwrap().unwrap();
    assert_eq!(req_all.body(), b"hello world");
    assert_eq!(c_all.buffered(), 0);

    // One byte at a time: must yield the identical parse and leave nothing.
    let mut c_inc = H1Conn::default();
    let mut got = None;
    for &b in req_bytes {
        c_inc.feed(&[b]);
        if let Some(r) = c_inc.poll_request(0).unwrap() {
            got = Some(r);
        }
    }
    let req_inc = got.expect("incremental feed never completed the request");
    assert_eq!(req_inc.body(), req_all.body());
    assert_eq!(req_inc.method(), req_all.method());
    assert_eq!(req_inc.path(), req_all.path());
    assert_eq!(
        c_inc.buffered(),
        0,
        "the input must be drained clean after incremental parse"
    );
    // The decode state must have been cleared once the request completed.
    assert!(c_inc.is_between_requests());
}

#[test]
fn large_header_block_byte_by_byte_parses() {
    let mut req = b"GET / HTTP/1.1\r\n".to_vec();
    // ~40 KiB of header fields, under both the 64 KiB byte cap and the
    // MAX_HEADER_FIELDS count cap.
    for i in 0..50 {
        req.extend_from_slice(format!("X-Pad-{i}: {}\r\n", "v".repeat(800)).as_bytes());
    }
    req.extend_from_slice(b"Host: a\r\n\r\n");

    let mut c = H1Conn::default();
    let mut got = None;
    for &b in &req {
        c.feed(&[b]);
        if let Some(r) = c.poll_request(0).unwrap() {
            got = Some(r);
        }
    }
    let req = got.expect("terminator never found under byte-by-byte feed");
    assert_eq!(req.method(), &Method::Get);
    assert_eq!(req.host(), Some("a"));
    assert_eq!(c.buffered(), 0);
}

#[test]
fn chunked_huge_size_rejected_under_incremental_feed() {
    let bytes: &[u8] =
        b"POST / HTTP/1.1\r\nTransfer-Encoding: chunked\r\n\r\nfffffffffffffff0\r\n";
    let mut c = H1Conn::default();
    let mut err = false;
    for &b in bytes {
        c.feed(&[b]);
        match c.poll_request(0) {
            Ok(_) => {}
            Err(_) => {
                err = true;
                break;
            }
        }
    }
    assert!(err, "malicious chunk size must be rejected (no panic)");
    let out = String::from_utf8(c.take_out()).unwrap();
    assert!(out.starts_with("HTTP/1.1 413"));
}

#[test]
fn chunked_large_body_byte_by_byte_completes() {
    // The incremental decoder copies each body byte exactly once, so this
    // finishes promptly.
    const N: usize = 200 * 1024;
    let mut body = Vec::with_capacity(N);
    for i in 0..N {
        body.push(b'a' + (i % 26) as u8);
    }
    let mut req = b"POST / HTTP/1.1\r\nTransfer-Encoding: chunked\r\n\r\n".to_vec();
    req.extend_from_slice(format!("{:x}\r\n", N).as_bytes());
    req.extend_from_slice(&body);
    req.extend_from_slice(b"\r\n0\r\n\r\n");

    let mut c = H1Conn::default();
    let mut got = None;
    for &b in &req {
        c.feed(&[b]);
        if let Some(r) = c.poll_request(0).unwrap() {
            got = Some(r);
        }
    }
    let req = got.expect("large chunked body never completed");
    assert_eq!(req.body().len(), N);
    assert_eq!(req.body(), &body[..]);
    assert_eq!(c.buffered(), 0);
}

#[test]
fn find_subslice_linear_correctness() {
    assert_eq!(find_subslice(b"", b"\r\n"), None);
    assert_eq!(find_subslice(b"\r\n", b"\r\n"), Some(0));
    assert_eq!(find_subslice(b"ab\r\ncd", b"\r\n"), Some(2));
    assert_eq!(find_subslice(b"a\rb\r\nc", b"\r\n"), Some(3));
    assert_eq!(find_subslice(b"x\r\n\r\ny", b"\r\n\r\n"), Some(1));
    assert_eq!(find_subslice(b"\r\n\r", b"\r\n\r\n"), None);
    assert_eq!(find_subslice(b"abc", b"abc"), Some(0));
    assert_eq!(find_subslice(b"aabc", b"abc"), Some(1));
    assert_eq!(find_subslice(b"ab", b"abc"), None);
    assert_eq!(find_subslice(b"hello", b"l"), Some(2));
    assert_eq!(find_subslice(b"hello", b""), None);
}

#[test]
fn http_date_known_value() {
    // 784111777 = Sun, 06 Nov 1994 08:49:37 GMT
    assert_eq!(http_date(784_111_777), "Sun, 06 Nov 1994 08:49:37 GMT");
}

#[test]
fn http_date_edges() {
    assert_eq!(http_date(0), "Thu, 01 Jan 1970 00:00:00 GMT");
    // A leap day.
    assert_eq!(http_date(951_782_400), "Tue, 29 Feb 2000 00:00:00 GMT");
    assert_eq!(http_date(4_102_444_800), "Fri, 01 Jan 2100 00:00:00 GMT");
}

#[test]
fn expect_continue_is_answered_once() {
    let mut c = H1Conn::default();
    c.feed(b"POST / HTTP/1.1\r\nExpect: 100-continue\r\nContent-Length: 2\r\n\r\n");
    assert!(c.poll_request(0).unwrap().is_none());
    assert_eq!(c.take_out(), b"HTTP/1.1 100 Continue\r\n\r\n");
    assert!(c.poll_request(0).unwrap().is_none());
    assert!(c.take_out().is_empty());
    c.feed(b"ok");
    assert_eq!(c.poll_request(0).unwrap().unwrap().body(), b"ok");
}

#[test]
fn unsupported_version_is_505() {
    let mut c = H1Conn::default();
    c.feed(b"GET / HTTP/3.7\r\n\r\n");
    assert!(matches!(c.poll_request(0), Err(Error::BadRequest(_))));
    let out = String::from_utf8(c.take_out()).unwrap();
    assert!(out.starts_with("HTTP/1.1 505"), "{out}");
}

#[test]
fn limits_give_431_and_413() {
    let limits = Limits { max_header_bytes: 32, max_body_bytes: 4 };
    let mut c = H1Conn::new(limits);
    c.feed(&vec![b'a'; 64]);
    assert!(matches!(c.poll_request(0), Err(Error::TooLarge(_))));
    assert!(String::from_utf8(c.take_out()).unwrap().starts_with("HTTP/1.1 431"));

    let mut c = H1Conn::new(Limits { max_header_bytes: 1000, max_body_bytes: 4 });
    c.feed(b"POST / HTTP/1.1\r\nContent-Length: 5\r\n\r\n");
    assert!(matches!(c.poll_request(0), Err(Error::TooLarge(_))));
    assert!(String::from_utf8(c.take_out()).unwrap().starts_with("HTTP/1.1 413"));
}

#[test]
fn one_request_at_a_time() {
    let mut c = H1Conn::default();
    c.feed(b"GET /a HTTP/1.1\r\n\r\nGET /b HTTP/1.1\r\n\r\n");
    assert_eq!(c.poll_request(0).unwrap().unwrap().path(), "/a");
    assert!(c.awaiting_response());
    assert!(c.poll_request(0).unwrap().is_none());
    c.respond(Response::text("x"), 0);
    assert_eq!(c.poll_request(0).unwrap().unwrap().path(), "/b");
}

#[test]
fn server_name_can_be_omitted() {
    let mut c = H1Conn::default();
    c.set_server_name(None);
    let _ = drive(&mut c, b"GET / HTTP/1.1\r\n\r\n").unwrap();
    c.respond(Response::text("x"), 0);
    assert!(!String::from_utf8(c.take_out()).unwrap().contains("Server:"));
}

#[test]
fn version_tokens() {
    assert_eq!(Version::parse("HTTP/1.0"), Some(Version::Http10));
    assert_eq!(Version::parse("HTTP/1.1"), Some(Version::Http11));
    assert_eq!(Version::parse("http/1.1"), None);
    assert_eq!(Version::Http11.as_str(), "HTTP/1.1");
}

#[test]
fn methods_keep_their_token() {
    assert_eq!(Method::parse("GET"), Method::Get);
    assert_eq!(Method::parse("PURGE").as_str(), "PURGE");
    assert!(Method::parse("get") != Method::Get);
}

#[test]
fn header_lists() {
    let mut h = httpsd::Headers::new();
    h.append("Accept", "a");
    h.append("accept", "b");
    assert_eq!(h.get("ACCEPT"), Some("a"));
    assert_eq!(h.get_all("accept"), vec!["a", "b"]);
    h.set("Accept", "c");
    assert_eq!(h.get_all("accept"), vec!["c"]);
    h.set_if_absent("Accept", "d");
    assert_eq!(h.get("accept"), Some("c"));
    h.append("Connection", "keep-alive, Upgrade");
    assert!(h.contains_token("connection", "upgrade"));
    h.remove("accept");
    assert!(!h.contains("Accept"));
    assert_eq!(h.len(), 1);
}

#[test]
fn error_messages() {
    assert_eq!(Error::BadRequest("x").message(), "bad request: x");
    assert_eq!(Error::TooLarge("x").message(), "request too large: x");
    assert_eq!(Error::Io("x".to_owned()).message(), "io error: x");
    assert_eq!(Error::Compress("x".to_owned()).message(), "compression error: x");
}

#[test]
fn connection_fields_of_handlers_never_go_out() {
    let mut c = H1Conn::default();
    c.feed(b"GET / HTTP/1.1\r\nHost: a\r\n\r\n");
    c.poll_request(0).unwrap().unwrap();
    let mut resp = Response::text("hi");
    for name in ["Keep-Alive", "Upgrade", "TE", "Trailer", "Proxy-Connection", "Connection"] {
        resp = resp.header(name, "x-handler");
    }
    resp = resp.header("Content-Length", "99");
    c.respond(resp, 0);
    let out = String::from_utf8(c.take_out()).unwrap();
    assert!(!out.contains("x-handler"), "{out}");
    assert_eq!(out.matches("Connection: ").count(), 1);
    assert_eq!(out.matches("Content-Length: ").count(), 1);
    assert!(out.contains("Content-Length: 2\r\n"));
}
