use httpsd::interop::{to_http, HttpConvertError};
use httpsd::proto::response::FileId;
use httpsd::router::IntoResponse;
use httpsd::{Body, Headers, Method, Request, Response, StatusCode, Version};

#[test]
fn method_roundtrip() {
    let h: http::Method = (&Method::Post).try_into().unwrap();
    assert_eq!(h, http::Method::POST);
    assert_eq!(Method::from(&http::Method::DELETE), Method::Delete);
}

#[test]
fn status_roundtrip() {
    let h: http::StatusCode = StatusCode::not_found().try_into().unwrap();
    assert_eq!(h, http::StatusCode::NOT_FOUND);
    assert_eq!(StatusCode::from(http::StatusCode::CREATED).code(), 201);
}

#[test]
fn response_from_http_keeps_status_headers_body() {
    let h = http::Response::builder()
        .status(http::StatusCode::ACCEPTED)
        .header("x-test", "1")
        .header("x-test", "2")
        .body(b"body".to_vec())
        .unwrap();
    let resp: Response = h.into();
    assert_eq!(resp.status_code().code(), 202);
    assert_eq!(resp.body_ref().as_bytes(), b"body");
    let vals: Vec<_> = resp.headers().get_all("x-test");
    assert_eq!(vals, ["1", "2"]);
}

#[test]
fn request_to_http_carries_target_and_headers() {
    let mut headers = Headers::new();
    headers.append("Host", "example.com");
    let req = Request::new(
        Method::Get,
        "/path?q=1".to_owned(),
        Version::Http11,
        headers,
        Vec::new(),
    );
    let out: http::Request<Vec<u8>> = (&req).try_into().unwrap();
    assert_eq!(out.method(), http::Method::GET);
    assert_eq!(out.uri().path(), "/path");
    assert_eq!(out.uri().query(), Some("q=1"));
    assert_eq!(out.headers().get("host").unwrap(), "example.com");
}

#[test]
fn response_to_http_and_back() {
    let resp = Response::text("hello").with_status(StatusCode::ok());
    let h: http::Response<Vec<u8>> = resp.try_into().unwrap();
    assert_eq!(h.status(), http::StatusCode::OK);
    let back: Response = h.into();
    assert_eq!(back.body_ref().as_bytes(), b"hello");
}

#[test]
fn tokens_and_codes_are_checked() {
    let bad = Method::Other("a b".to_owned());
    assert!(http::Method::try_from(&bad).is_err());
    assert!(http::Method::try_from(&Method::Other(String::new())).is_err());
    let odd = Method::Other("!#$%&'*+-.^_`|~09azAZ".to_owned());
    let h = http::Method::try_from(&odd).unwrap();
    assert_eq!(Method::from(&h), odd);
    assert!(http::StatusCode::try_from(StatusCode::new(99, "x")).is_err());
    assert!(http::StatusCode::try_from(StatusCode::new(1000, "x")).is_err());
    assert!(http::StatusCode::try_from(StatusCode::new(999, "x")).is_ok());
    let unknown = http::StatusCode::from_u16(999).unwrap();
    assert_eq!(StatusCode::from(unknown).reason(), "");
    assert_eq!(StatusCode::from(http::StatusCode::CREATED).reason(), "Created");
}

#[test]
fn versions_convert() {
    for v in [Version::Http10, Version::Http11, Version::Http2, Version::Http3] {
        assert_eq!(Version::from(http::Version::from(v)), v);
    }
    assert_eq!(Version::from(http::Version::HTTP_09), Version::Http11);
}

#[test]
fn fields_are_grouped_and_checked() {
    let mut h = Headers::new();
    h.append("X-A", "1");
    h.append("X-B", "2");
    h.append("x-a", "3\té");
    let map = http::HeaderMap::try_from(&h).unwrap();
    let back = Headers::from(&map);
    assert_eq!(back.iter(), vec![("x-a", "1"), ("x-a", "3\té"), ("x-b", "2")]);
    let mut h = Headers::new();
    h.append("X A", "1");
    assert!(matches!(http::HeaderMap::try_from(&h), Err(HttpConvertError::HeaderName(_))));
    let mut h = Headers::new();
    h.append("X", "a\nb");
    let e = http::HeaderMap::try_from(&h).unwrap_err();
    assert_eq!(e.message(), "invalid header value: failed to parse header value");
    let mut h = Headers::new();
    h.append("n".repeat(65536), "1");
    let e = http::HeaderMap::try_from(&h).unwrap_err();
    assert_eq!(e.message(), "invalid header name: invalid HTTP header name");
}

#[test]
fn maps_can_be_full() {
    let mut h = Headers::new();
    for i in 0..6554 {
        h.append(format!("n{i}"), "v");
    }
    assert_eq!(http::HeaderMap::try_from(&h).unwrap().len(), 6554);
    for i in 6554..40000 {
        h.append(format!("n{i}"), "v");
    }
    let e = http::HeaderMap::try_from(&h).unwrap_err();
    assert_eq!(e.message(), "too many header fields");
}

#[test]
fn refusals_are_told() {
    let request = |m: Method, t: &str| {
        let q = Request::new(m, t.to_owned(), Version::Http11, Headers::new(), Vec::new());
        http::Request::<Vec<u8>>::try_from(&q)
    };
    let e = request(Method::Other("a b".to_owned()), "/").unwrap_err();
    assert_eq!(e.message(), "invalid method: invalid HTTP method");
    let e = request(Method::Get, "/a b").unwrap_err();
    assert_eq!(e.message(), "invalid uri: invalid uri character");
    let q = Response::new(StatusCode::new(5, "x"));
    let e = http::Response::<Vec<u8>>::try_from(q).unwrap_err();
    assert_eq!(e.message(), "invalid status code: invalid status code");
}

#[test]
fn requests_come_back() {
    let mut q = http::Request::new(b"b".to_vec());
    *q.method_mut() = http::Method::PUT;
    *q.uri_mut() = "https://h/p?q".parse().unwrap();
    *q.version_mut() = http::Version::HTTP_2;
    let r: Request = q.into();
    assert_eq!(r.method(), &Method::Put);
    assert_eq!(r.target(), "/p?q");
    assert_eq!(r.version(), Version::Http2);
    assert_eq!(r.body(), b"b");
    let mut q = http::Request::new(Vec::new());
    *q.method_mut() = http::Method::CONNECT;
    *q.uri_mut() = "h:1".parse().unwrap();
    assert_eq!(Request::from(q).target(), "/");
}

#[test]
fn file_bodies_take_their_region() {
    let resp = || Response::new(StatusCode::ok()).body(Body::file(FileId { id: 1 }, 0, 3));
    let h = to_http(resp(), Some(b"abc".to_vec())).unwrap();
    assert_eq!(h.body(), b"abc");
    let h: http::Response<Vec<u8>> = resp().try_into().unwrap();
    assert!(h.body().is_empty());
}

#[test]
fn handlers_return_http_responses() {
    let h = http::Response::builder()
        .status(http::StatusCode::CREATED)
        .header("x-made-by", "http-crate")
        .body(b"hi".to_vec())
        .unwrap();
    let resp = h.into_response();
    assert_eq!(resp.status_code().code(), 201);
    assert_eq!(resp.headers().get("x-made-by"), Some("http-crate"));
}
