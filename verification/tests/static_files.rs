use httpsd::proto::response::FileId;
use httpsd::static_files::{
    parse_single_range, percent_decode, respond_file, Fallback, FileInfo, Opened, Stat, Step,
};
use httpsd::{Body, Headers, Method, Request, Response, StaticFiles, Version};

#[test]
fn range_parsing() {
    assert_eq!(parse_single_range("bytes=0-4", 10), Some((0, 4)));
    assert_eq!(parse_single_range("bytes=5-", 10), Some((5, 9)));
    assert_eq!(parse_single_range("bytes=-3", 10), Some((7, 9)));
    assert_eq!(parse_single_range("bytes=8-100", 10), Some((8, 9)));
    assert_eq!(parse_single_range("bytes=0-4,6-7", 10), None);
    assert_eq!(parse_single_range("bytes=20-30", 10), None);
}

#[test]
fn range_edges() {
    assert_eq!(parse_single_range("bytes=0-0", 1), Some((0, 0)));
    assert_eq!(parse_single_range("bytes=-0", 10), None);
    assert_eq!(parse_single_range("bytes=-30", 10), Some((0, 9)));
    assert_eq!(parse_single_range("bytes=-", 10), None);
    assert_eq!(parse_single_range("bytes=4-2", 10), None);
    assert_eq!(parse_single_range("bytes=0-", 0), None);
    assert_eq!(parse_single_range("lines=0-4", 10), None);
}

#[test]
fn percent_decoding() {
    assert_eq!(percent_decode("/a%20b"), "/a b");
    assert_eq!(percent_decode("/%2e%2e"), "/..");
    assert_eq!(percent_decode("/bad%2"), "/bad%2");
}

#[test]
fn percent_decoding_trailing_triplet() {
    // A complete `%XX` triplet at the very end of the string must decode.
    assert_eq!(percent_decode("/foo%2e"), "/foo.");
    assert_eq!(percent_decode("/foo%2f"), "/foo/");
    assert_eq!(percent_decode("%2e"), ".");
    assert_eq!(percent_decode("/a%2e%2e"), "/a..");
    // An incomplete trailing escape is still passed through verbatim.
    assert_eq!(percent_decode("/foo%2"), "/foo%2");
    assert_eq!(percent_decode("/foo%"), "/foo%");
}

#[test]
fn percent_decoding_is_lossy() {
    assert_eq!(percent_decode("%c3%a9"), "é");
    assert_eq!(percent_decode("a%ffb"), "a\u{fffd}b");
    assert_eq!(percent_decode("a+b"), "a+b");
}

#[test]
fn traversal_rejected() {
    let sf = StaticFiles::new("/srv/www");
    assert!(sf.resolve("/../etc/passwd").is_none());
    assert!(sf.resolve("/a/%2e%2e/b").is_none());
    assert_eq!(
        sf.resolve("/sub/file.txt"),
        Some("/srv/www/sub/file.txt".to_owned())
    );
}

#[test]
fn dotfiles_rejected() {
    let sf = StaticFiles::new("/srv/www");
    // Top-level and nested dotfiles/dotdirs are refused.
    assert!(sf.resolve("/.env").is_none());
    assert!(sf.resolve("/.git/config").is_none());
    assert!(sf.resolve("/sub/.htpasswd").is_none());
    assert!(sf.resolve("/%2egit/config").is_none());
    // Ordinary files with dots elsewhere are still fine.
    assert_eq!(sf.resolve("/a.b.txt"), Some("/srv/www/a.b.txt".to_owned()));
}

#[test]
fn backslash_and_nul_rejected() {
    let sf = StaticFiles::new("/srv/www");
    assert!(sf.resolve("/a%5cb").is_none());
    assert!(sf.resolve("/a%00b").is_none());
    assert_eq!(sf.resolve("/./a//b/"), Some("/srv/www/a/b".to_owned()));
}

fn request(method: Method, target: &str, fields: &[(&str, &str)]) -> Request {
    let mut h = Headers::new();
    for (n, v) in fields {
        h.append(*n, *v);
    }
    Request::new(method, target.to_owned(), Version::Http11, h, Vec::new())
}

fn answered(step: Step) -> Response {
    match step {
        Step::Respond(r) => r,
        other => panic!("{other:?}"),
    }
}

#[test]
fn dotfile_request_is_404() {
    let sf = StaticFiles::new("/srv/www");
    let req = request(Method::Get, "/.git/config", &[]);
    // Rejected paths report 404 (not 403) so existence is not confirmed.
    assert_eq!(answered(sf.serve(&req)).status_code().code(), 404);
}

const INFO: FileInfo = FileInfo {
    file: FileId { id: 5 },
    len: 10,
    mtime: Some(784_111_777),
};

#[test]
fn a_file_is_served_in_steps() {
    let sf = StaticFiles::new("/srv/www");
    let req = request(Method::Get, "/a.txt", &[]);
    let path = match sf.serve(&req) {
        Step::Look(p) => p,
        other => panic!("{other:?}"),
    };
    assert_eq!(path, "/srv/www/a.txt");
    let path = match sf.after_look(&req, &path, Stat::Other) {
        Step::Open(p) => p,
        other => panic!("{other:?}"),
    };
    let resp = answered(sf.after_open(&req, &path, Opened::File(INFO)));
    assert_eq!(resp.status_code().code(), 200);
    assert_eq!(resp.headers().get("etag"), Some("\"a-2ebc98a1\""));
    assert_eq!(
        resp.headers().get("last-modified"),
        Some("Sun, 06 Nov 1994 08:49:37 GMT")
    );
    assert_eq!(resp.headers().get("x-content-type-options"), Some("nosniff"));
    assert_eq!(resp.headers().get("accept-ranges"), Some("bytes"));
    assert!(resp.headers().get("content-type").unwrap().starts_with("text/plain"));
    assert!(matches!(resp.body_ref(), Body::File { offset: 0, len: 10, .. }));
}

#[test]
fn only_get_and_head() {
    let sf = StaticFiles::new("/srv/www");
    let resp = answered(sf.serve(&request(Method::Post, "/a", &[])));
    assert_eq!(resp.status_code().code(), 405);
    assert_eq!(resp.headers().get("allow"), Some("GET, HEAD"));
    assert!(matches!(sf.serve(&request(Method::Head, "/a", &[])), Step::Look(_)));
}

#[test]
fn directories_redirect_or_serve_their_index() {
    let sf = StaticFiles::new("/srv/www");
    let req = request(Method::Get, "/dir?x=1", &[]);
    let resp = answered(sf.after_look(&req, "/srv/www/dir", Stat::Directory));
    assert_eq!(resp.status_code().code(), 301);
    assert_eq!(resp.headers().get("location"), Some("/dir/?x=1"));
    let req = request(Method::Get, "/dir/", &[]);
    match sf.after_look(&req, "/srv/www/dir", Stat::Directory) {
        Step::Open(p) => assert_eq!(p, "/srv/www/dir/index.html"),
        other => panic!("{other:?}"),
    }
    let sf = sf.index("home.htm");
    match sf.after_look(&req, "/srv/www/dir", Stat::Directory) {
        Step::Open(p) => assert_eq!(p, "/srv/www/dir/home.htm"),
        other => panic!("{other:?}"),
    }
}

#[test]
fn missing_refused_and_outside_look_the_same() {
    let sf = StaticFiles::new("/srv/www");
    let req = request(Method::Get, "/a", &[]);
    let page = |r: Response| (r.status_code().code(), r.body_ref().as_bytes().to_vec());
    let missing = page(answered(sf.after_look(&req, "/srv/www/a", Stat::Missing)));
    assert_eq!(missing.0, 404);
    assert_eq!(page(answered(sf.after_open(&req, "/srv/www/a", Opened::Refused))), missing);
    assert_eq!(page(answered(sf.after_open(&req, "/srv/www/a", Opened::NotAFile))), missing);
    for o in [Fallback::Outside, Fallback::NotAFile, Fallback::Vanished] {
        assert_eq!(page(sf.after_fallback(&req, "/srv/www/a", o)), missing);
    }
    assert_eq!(
        sf.after_fallback(&req, "/srv/www/a", Fallback::Failed).status_code().code(),
        500
    );
    assert!(matches!(
        sf.after_open(&req, "/srv/www/a", Opened::Unsupported),
        Step::OpenUnconfined(_)
    ));
}

#[test]
fn within_root_needs_both() {
    let sf = StaticFiles::new("/srv/www");
    assert!(sf.within_root(Some("/srv/www"), Some("/srv/www/a")));
    assert!(sf.within_root(Some("/srv/www"), Some("/srv/www")));
    assert!(!sf.within_root(Some("/srv/www"), Some("/srv/wwwx")));
    assert!(!sf.within_root(Some("/srv/www"), Some("/etc/passwd")));
    assert!(!sf.within_root(None, Some("/srv/www/a")));
    assert!(!sf.within_root(Some("/srv/www"), None));
}

#[test]
fn conditional_requests() {
    let hit = |n: &str, v: &str| {
        respond_file(&request(Method::Get, "/a", &[(n, v)]), "/a", &INFO).status_code().code()
    };
    assert_eq!(hit("If-None-Match", "\"a-2ebc98a1\""), 304);
    assert_eq!(hit("If-None-Match", "\"x\", \"a-2ebc98a1\""), 304);
    assert_eq!(hit("If-None-Match", "*"), 304);
    assert_eq!(hit("If-None-Match", "\"x\""), 200);
    assert_eq!(hit("If-Modified-Since", "Sun, 06 Nov 1994 08:49:37 GMT"), 304);
    assert_eq!(hit("If-Modified-Since", "Mon, 07 Nov 1994 08:49:37 GMT"), 200);
}

#[test]
fn range_requests() {
    let ask = |v: &str| respond_file(&request(Method::Get, "/a", &[("Range", v)]), "/a", &INFO);
    let part = ask("bytes=2-5");
    assert_eq!(part.status_code().code(), 206);
    assert_eq!(part.headers().get("content-range"), Some("bytes 2-5/10"));
    assert!(matches!(part.body_ref(), Body::File { offset: 2, len: 4, .. }));
    let bad = ask("bytes=20-");
    assert_eq!(bad.status_code().code(), 416);
    assert_eq!(bad.headers().get("content-range"), Some("bytes */10"));
    assert_eq!(ask("pages=1-2").status_code().code(), 200);
}

#[test]
fn percent_decoding_reads_utf8() {
    assert_eq!(percent_decode("/caf%C3%A9/%e2%82%ac"), "/caf\u{e9}/\u{20ac}");
    assert_eq!(percent_decode("/\u{e9}%41"), "/\u{e9}A");
    assert_eq!(percent_decode("/%ff"), "/\u{fffd}");
}
