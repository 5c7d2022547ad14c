use httpsd::router::{IntoResponse, RouteHandler};
use httpsd::{Handler, Headers, Method, Request, Response, Router, StatusCode, Version};

struct Fun(Box<dyn Fn(&Request) -> Response + Send + Sync>);

impl RouteHandler for Fun {
    fn call(&self, req: &Request) -> Response {
        (self.0)(req)
    }
}

fn fun<F, R>(f: F) -> Fun
where
    F: Fn(&Request) -> R + Send + Sync + 'static,
    R: IntoResponse,
{
    Fun(Box::new(move |req| f(req).into_response()))
}

fn req(method: Method, target: &str) -> Request {
    Request::new(
        method,
        target.to_owned(),
        Version::Http11,
        Headers::new(),
        Vec::new(),
    )
}

fn body(resp: &Response) -> String {
    String::from_utf8_lossy(resp.body_ref().as_bytes()).into_owned()
}

#[test]
fn static_route_and_404() {
    let app = Router::new().get("/", fun(|_: &Request| "root"));
    assert_eq!(body(&app.handle(&req(Method::Get, "/"))), "root");
    assert_eq!(
        app.handle(&req(Method::Get, "/missing")).status_code(),
        StatusCode::not_found()
    );
}

#[test]
fn path_params_captured() {
    let app = Router::new().get(
        "/users/:id",
        fun(|r: &Request| format!("id={}", r.param("id").unwrap_or("?"))),
    );
    assert_eq!(body(&app.handle(&req(Method::Get, "/users/42"))), "id=42");
    // Trailing slash and extra leading slash both normalize.
    assert_eq!(body(&app.handle(&req(Method::Get, "/users/42/"))), "id=42");
    // Too many segments must not match a fixed pattern.
    assert_eq!(
        app.handle(&req(Method::Get, "/users/42/x")).status_code(),
        StatusCode::not_found()
    );
}

#[test]
fn wildcard_captures_remainder() {
    let app = Router::new().get(
        "/static/*path",
        fun(|r: &Request| r.param("path").unwrap_or("").to_owned()),
    );
    assert_eq!(
        body(&app.handle(&req(Method::Get, "/static/css/app.css"))),
        "css/app.css"
    );
    assert_eq!(body(&app.handle(&req(Method::Get, "/static/"))), "");
}

#[test]
fn method_mismatch_is_405_with_allow() {
    let app = Router::new()
        .get("/x", fun(|_: &Request| "g"))
        .post("/x", fun(|_: &Request| "p"));
    let resp = app.handle(&req(Method::Delete, "/x"));
    assert_eq!(resp.status_code(), StatusCode::method_not_allowed());
    let allow = resp.headers().get("allow").unwrap();
    assert!(allow.contains("GET") && allow.contains("POST"));
}

#[test]
fn query_string_ignored_in_match() {
    let app = Router::new().get(
        "/search",
        fun(|r: &Request| r.query().unwrap_or("").to_owned()),
    );
    assert_eq!(body(&app.handle(&req(Method::Get, "/search?q=hi"))), "q=hi");
}

#[test]
fn fallback_used() {
    let app = Router::new()
        .get("/", fun(|_: &Request| "root"))
        .fallback(fun(|_: &Request| (StatusCode::forbidden(), "fb")));
    let resp = app.handle(&req(Method::Get, "/nope"));
    assert_eq!(body(&resp), "fb");
    assert_eq!(resp.status_code(), StatusCode::forbidden());
}

#[test]
fn first_route_wins_and_allow_lists_once() {
    let app = Router::new()
        .get("/:a", fun(|_: &Request| "param"))
        .get("/b", fun(|_: &Request| "literal"))
        .put("b", fun(|_: &Request| "put"));
    assert_eq!(body(&app.handle(&req(Method::Get, "/b"))), "param");
    assert_eq!(body(&app.handle(&req(Method::Put, "//b//"))), "put");
    let resp = app.handle(&req(Method::Post, "/b"));
    assert_eq!(resp.headers().get("allow"), Some("GET, PUT"));
}

#[test]
fn every_method_has_a_builder() {
    let app = Router::default()
        .delete("/d", fun(|_: &Request| "d"))
        .patch("/p", fun(|_: &Request| "p"))
        .head("/h", fun(|_: &Request| "h"))
        .options("/o", fun(|_: &Request| "o"))
        .route(Method::Other("PURGE".to_owned()), "/x", fun(|_: &Request| "x"));
    assert_eq!(body(&app.handle(&req(Method::Delete, "/d"))), "d");
    assert_eq!(body(&app.handle(&req(Method::Patch, "/p"))), "p");
    assert_eq!(body(&app.handle(&req(Method::Head, "/h"))), "h");
    assert_eq!(body(&app.handle(&req(Method::Options, "/o"))), "o");
    assert_eq!(body(&app.handle(&req(Method::Other("PURGE".to_owned()), "/x"))), "x");
}

#[test]
fn str_is_text_plain_200() {
    let resp = "hi".into_response();
    assert_eq!(resp.status_code(), StatusCode::ok());
    assert_eq!(
        resp.headers().get("content-type"),
        Some("text/plain; charset=utf-8")
    );
    assert_eq!(resp.body_ref().as_bytes(), b"hi");
}

#[test]
fn status_tuple_overrides_status_keeps_body() {
    let resp = (StatusCode::created(), "made").into_response();
    assert_eq!(resp.status_code(), StatusCode::created());
    assert_eq!(resp.body_ref().as_bytes(), b"made");
}

#[test]
fn result_coerces_both_arms() {
    let ok: Result<&str, StatusCode> = Ok("good");
    assert_eq!(ok.into_response().status_code(), StatusCode::ok());
    let err: Result<&str, StatusCode> = Err(StatusCode::bad_request());
    assert_eq!(err.into_response().status_code(), StatusCode::bad_request());
}

#[test]
fn option_none_is_404() {
    let none: Option<&str> = None;
    assert_eq!(none.into_response().status_code(), StatusCode::not_found());
}

#[test]
fn bytes_are_octet_stream() {
    let resp = vec![1u8, 2, 3].into_response();
    assert_eq!(
        resp.headers().get("content-type"),
        Some("application/octet-stream")
    );
}
