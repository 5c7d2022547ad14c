//! Serving files from a directory on disk: which file a request names, and what
//! to answer.
//!
//! [`StaticFiles`] never touches the disk. Each call answers with the [`Step`]
//! to take next; the runtime looks at the disk and reports what it found.
use crate::mime::{extension_of, from_path, type_of};
use crate::path::{is_under, join, joined, lies_under};
use crate::proto::date::{date_of, http_date};
use crate::proto::headers::{lookup, Fields};
use crate::proto::method::{Method, MethodModel};
use crate::proto::request::{path_of, query_of, Request, RequestModel};
use crate::proto::response::{
    bare, status_response, Body, BodyModel, FileId, Response, ResponseModel,
};
use crate::proto::status::{standard, StatusCode};
use crate::text::{
    chars_are, chars_find, chars_of, chars_split, chars_split_once, chars_strip_prefix, chars_trim,
    chars_trim_start, chars_uint, decimal, digit_val, find_char, hexadecimal, lemma_find_char,
    lemma_split_parts, lossy, opt_text, owned, parse_signed_digits, push_numeral, split, split_once,
    starts_with, str_eq, string_from_utf8_lossy, strip_prefix, text_of, trim, trim_start, views,
    IntoText,
};
use vstd::prelude::*;
use vstd::utf8::encode_utf8;

verus! {

broadcast use vstd::seq::group_seq_axioms;

// ---------------------------------------------------------------------------
// Paths
// ---------------------------------------------------------------------------

/// The byte that two hexadecimal digits denote.
pub open spec fn hex_byte(hi: u8, lo: u8) -> Option<u8> {
    match (digit_val(hi as char, 16), digit_val(lo as char, 16)) {
        (Some(h), Some(l)) => Some((h * 16 + l) as u8),
        _ => None,
    }
}

/// The bytes from `i` on with `%XX` escapes decoded; what is not a whole escape
/// stands for itself.
pub open spec fn unescaped(b: Seq<u8>, i: int) -> Seq<u8>
    decreases b.len() - i,
{
    if i < 0 || i >= b.len() {
        Seq::empty()
    } else if b[i] == 0x25 && i + 3 <= b.len() && hex_byte(b[i + 1], b[i + 2]) is Some {
        seq![hex_byte(b[i + 1], b[i + 2])->0] + unescaped(b, i + 3)
    } else {
        seq![b[i]] + unescaped(b, i + 1)
    }
}

/// A path with its escapes decoded.
pub open spec fn decoded(path: Seq<char>) -> Seq<char> {
    lossy(unescaped(encode_utf8(path), 0))
}

fn hex_digit(b: u8) -> (r: Option<u8>)
    ensures
        match (r, digit_val(b as char, 16)) {
            (Some(v), Some(w)) => v == w && v < 16,
            (None, None) => true,
            _ => false,
        },
{
    if 48 <= b && b <= 57 {
        Some(b - 48)
    } else if 97 <= b && b <= 102 {
        Some(b - 97 + 10)
    } else if 65 <= b && b <= 70 {
        Some(b - 65 + 10)
    } else {
        None
    }
}

/// Decode `%XX` escapes. `+` is left as it is: it is a space only in query
/// strings. Invalid escapes are passed through verbatim.
pub fn percent_bytes(b: &[u8]) -> (r: Vec<u8>)
    ensures
        r@ == unescaped(b@, 0),
{
    let n: usize = b.len();
    let mut out: Vec<u8> = Vec::new();
    let mut i: usize = 0;
    proof {
        assert(out@ + unescaped(b@, 0) =~= unescaped(b@, 0));
    }
    while i < n
        invariant
            i <= n == b@.len(),
            out@ + unescaped(b@, i as int) == unescaped(b@, 0),
        decreases n - i,
    {
        let ghost o = out@;
        if b[i] == 0x25 && n - i >= 3 {
            if let (Some(h), Some(l)) = (hex_digit(b[i + 1]), hex_digit(b[i + 2])) {
                out.push(h * 16 + l);
                proof {
                    assert(out@ + unescaped(b@, i + 3) =~= o + unescaped(b@, i as int));
                }
                i += 3;
                continue;
            }
        }
        out.push(b[i]);
        proof {
            assert(out@ + unescaped(b@, i + 1) =~= o + unescaped(b@, i as int));
        }
        i += 1;
    }
    proof {
        assert(out@ + Seq::<u8>::empty() =~= out@);
    }
    out
}

/// Decode the `%XX` escapes of a path.
pub fn percent_decode(s: &str) -> (r: String)
    ensures
        r@ == decoded(s@),
{
    string_from_utf8_lossy(percent_bytes(s.as_bytes()).as_slice())
}

/// Segments that are passed over.
pub open spec fn idle_segment(seg: Seq<char>) -> bool {
    seg.len() == 0 || seg == "."@
}

/// Segments that no request may name: `..`, dotfiles, and any with a NUL or a
/// backslash in it.
pub open spec fn unsafe_segment(seg: Seq<char>) -> bool {
    !idle_segment(seg) && (seg[0] == '.' || find_char(seg, '\0') is Some || find_char(seg, '\\') is Some)
}

/// The segments that count, under a directory.
pub open spec fn descended(dir: Seq<char>, segs: Seq<Seq<char>>) -> Seq<char>
    decreases segs.len(),
{
    if segs.len() == 0 {
        dir
    } else {
        let up = descended(dir, segs.drop_last());
        if idle_segment(segs.last()) {
            up
        } else {
            joined(up, segs.last())
        }
    }
}

/// The file that a decoded path names under a root; nothing if any segment is
/// unsafe.
pub open spec fn located(root: Seq<char>, path: Seq<char>) -> Option<Seq<char>> {
    let segs = split(path, '/');
    if exists|i: int| 0 <= i < segs.len() && unsafe_segment(#[trigger] segs[i]) {
        None
    } else {
        Some(descended(root, segs))
    }
}

/// The file that a decoded path names under `root`.
pub fn locate(root: &str, path: &str) -> (r: Option<String>)
    ensures
        opt_text(r) == located(root@, path@),
{
    let c = chars_of(path);
    let segs = chars_split(c.as_slice(), '/');
    let ghost p = split(path@, '/');
    let mut out = owned(root);
    let mut i: usize = 0;
    proof {
        assert(p.take(0) =~= Seq::empty());
    }
    while i < segs.len()
        invariant
            i <= segs@.len(),
            p == views(segs@),
            p == split(path@, '/'),
            forall|k: int| 0 <= k < i ==> !unsafe_segment(#[trigger] p[k]),
            out@ == descended(root@, p.take(i as int)),
        decreases segs.len() - i,
    {
        let seg = segs[i];
        proof {
            assert(p[i as int] == seg@);
            assert(p.take(i + 1).drop_last() =~= p.take(i as int));
            assert(p.take(i + 1).last() == seg@);
            reveal_strlit(".");
        }
        if seg.len() == 0 || chars_are(seg, ".") {
            i += 1;
            continue;
        }
        if seg[0] == '.' || chars_find(seg, '\0').is_some() || chars_find(seg, '\\').is_some() {
            proof {
                assert(unsafe_segment(p[i as int]));
            }
            return None;
        }
        out = join(out.as_str(), text_of(seg).as_str());
        i += 1;
    }
    proof {
        assert(p.take(p.len() as int) =~= p);
    }
    Some(out)
}

// ---------------------------------------------------------------------------
// Ranges and conditions
// ---------------------------------------------------------------------------

/// The inclusive range that a `Range` value asks for of `total` bytes; nothing
/// for several ranges, for what is malformed, and for what cannot be satisfied.
pub open spec fn range_of(value: Seq<char>, total: u64) -> Option<(u64, u64)> {
    match strip_prefix(trim(value), "bytes="@) {
        None => None,
        Some(spec) => if find_char(spec, ',') is Some || total == 0 {
            None
        } else {
            match split_once(spec, '-') {
                None => None,
                Some((a, b)) => span_of(trim(a), trim(b), total),
            }
        },
    }
}

/// The range between two bounds, either of which may be left out: without the
/// first, the second counts from the end.
pub open spec fn span_of(a: Seq<char>, b: Seq<char>, total: u64) -> Option<(u64, u64)>
    recommends
        total > 0,
{
    let last = (total - 1) as u64;
    if a.len() == 0 && b.len() == 0 {
        None
    } else if a.len() == 0 {
        match parse_signed_digits(b, u64::MAX as nat) {
            None => None,
            Some(n) => if n == 0 {
                None
            } else if n >= total {
                Some((0, last))
            } else {
                Some(((total - n) as u64, last))
            },
        }
    } else {
        match parse_signed_digits(a, u64::MAX as nat) {
            None => None,
            Some(start) => if b.len() == 0 {
                if start < total {
                    Some((start as u64, last))
                } else {
                    None
                }
            } else {
                match parse_signed_digits(b, u64::MAX as nat) {
                    None => None,
                    Some(end) => {
                        let e = if end < last {
                            end as u64
                        } else {
                            last
                        };
                        if start <= e {
                            Some((start as u64, e))
                        } else {
                            None
                        }
                    },
                }
            },
        }
    }
}

fn span(a: &[char], b: &[char], total: u64) -> (r: Option<(u64, u64)>)
    requires
        total > 0,
    ensures
        r == span_of(a@, b@, total),
        r matches Some((s, e)) ==> s <= e < total,
{
    let last: u64 = total - 1;
    if a.len() == 0 && b.len() == 0 {
        return None;
    }
    if a.len() == 0 {
        // "-N": last N bytes.
        return match chars_uint(b, u64::MAX) {
            None => None,
            Some(n) => if n == 0 {
                None
            } else if n >= total {
                Some((0, last))
            } else {
                Some((total - n, last))
            },
        };
    }
    let start: u64 = match chars_uint(a, u64::MAX) {
        Some(s) => s,
        None => {
            return None;
        },
    };
    if b.len() == 0 {
        // "M-": from M to the end.
        return if start < total {
            Some((start, last))
        } else {
            None
        };
    }
    let end: u64 = match chars_uint(b, u64::MAX) {
        Some(e) => e,
        None => {
            return None;
        },
    };
    let e: u64 = if end < last {
        end
    } else {
        last
    };
    if start <= e {
        Some((start, e))
    } else {
        None
    }
}

/// Parse a single `Range: bytes=...` value into an inclusive `(start, end)`,
/// clamped to `total`. Returns `None` for multi-range, syntactically invalid, or
/// unsatisfiable ranges.
pub fn parse_single_range(value: &str, total: u64) -> (r: Option<(u64, u64)>)
    ensures
        r == range_of(value@, total),
        r matches Some((s, e)) ==> s <= e < total,
{
    let c = chars_of(value);
    let spec = match chars_strip_prefix(chars_trim(c.as_slice()), "bytes=") {
        Some(s) => s,
        None => {
            return None;
        },
    };
    if chars_find(spec, ',').is_some() || total == 0 {
        return None;
    }
    match chars_split_once(spec, '-') {
        None => None,
        Some((a, b)) => span(chars_trim(a), chars_trim(b), total),
    }
}

/// Whether any of the entity tags is this one.
pub open spec fn lists_tag(list: Seq<Seq<char>>, etag: Seq<char>) -> bool {
    exists|i: int| 0 <= i < list.len() && trim(#[trigger] list[i]) == etag
}

/// Whether a conditional request's preconditions say "not modified": entity tags
/// decide where they are given, else the date.
pub open spec fn unmodified(f: Fields, etag: Seq<char>, last_modified: Option<Seq<char>>) -> bool {
    match lookup(f, "if-none-match"@) {
        Some(inm) => inm == "*"@ || lists_tag(split(inm, ','), etag),
        None => lookup(f, "if-modified-since"@) is Some && lookup(f, "if-modified-since"@)
            == last_modified,
    }
}

/// Whether a conditional request's preconditions say "not modified".
pub fn conditional_hit(req: &Request, etag: &str, last_modified: Option<&str>) -> (r: bool)
    ensures
        r == unmodified(
            req@.headers,
            etag@,
            match last_modified {
                Some(s) => Some(s@),
                None => None,
            },
        ),
{
    if let Some(inm) = req.headers().get("if-none-match") {
        if str_eq(inm, "*") {
            return true;
        }
        let c = chars_of(inm);
        let tags = chars_split(c.as_slice(), ',');
        let ghost p = split(inm@, ',');
        let mut i: usize = 0;
        while i < tags.len()
            invariant
                i <= tags@.len(),
                p == views(tags@),
                p == split(inm@, ','),
                lookup(req@.headers, "if-none-match"@) == Some(inm@),
                forall|k: int| 0 <= k < i ==> trim(#[trigger] p[k]) != etag@,
            decreases tags.len() - i,
        {
            proof {
                assert(p[i as int] == tags@[i as int]@);
            }
            if chars_are(chars_trim(tags[i]), etag) {
                proof {
                    assert(lists_tag(p, etag@));
                }
                return true;
            }
            i += 1;
        }
        return false;
    }
    match (req.headers().get("if-modified-since"), last_modified) {
        (Some(ims), Some(lm)) => str_eq(ims, lm),
        _ => false,
    }
}

// ---------------------------------------------------------------------------
// Responses
// ---------------------------------------------------------------------------

/// An open file: its handle, its size and when it was last modified (Unix
/// seconds, where known).
#[derive(Debug, Clone, Copy, PartialEq, Eq, Structural)]
pub struct FileInfo {
    pub file: FileId,
    pub len: u64,
    pub mtime: Option<u64>,
}

/// A file's entity tag: size and modification time.
pub open spec fn etag_of(info: FileInfo) -> Seq<char> {
    let mtime = match info.mtime {
        Some(t) => t,
        None => 0,
    };
    "\""@ + hexadecimal(info.len as nat) + "-"@ + hexadecimal(mtime as nat) + "\""@
}

/// When a file was last modified, as a header value.
pub open spec fn modified_of(info: FileInfo) -> Option<Seq<char>> {
    match info.mtime {
        Some(t) => Some(date_of(t as int)),
        None => None,
    }
}

/// Headers with `Last-Modified`, where it is known.
pub open spec fn with_modified(f: Fields, info: FileInfo) -> Fields {
    match modified_of(info) {
        Some(lm) => f.push(("Last-Modified"@, lm)),
        None => f,
    }
}

/// The headers that content comes with.
pub open spec fn content_fields(path: Seq<char>) -> Fields {
    seq![
        ("Content-Type"@, type_of(extension_of(path))),
        ("Accept-Ranges"@, "bytes"@),
        ("X-Content-Type-Options"@, "nosniff"@),
    ]
}

/// The answer to a request for a file that is there.
pub open spec fn file_response(f: Fields, path: Seq<char>, info: FileInfo) -> ResponseModel {
    let etag = etag_of(info);
    let tag = ("ETag"@, etag);
    let total = decimal(info.len as nat);
    if unmodified(f, etag, modified_of(info)) {
        ResponseModel { headers: with_modified(seq![tag], info), ..bare(standard(304)) }
    } else {
        match lookup(f, "range"@) {
            Some(range) => match range_of(range, info.len) {
                Some((start, end)) => ResponseModel {
                    status: standard(206),
                    headers: with_modified(
                        content_fields(path).push(
                            (
                                "Content-Range"@,
                                "bytes "@ + decimal(start as nat) + "-"@ + decimal(end as nat) + "/"@
                                    + total,
                            ),
                        ).push(tag),
                        info,
                    ),
                    body: BodyModel::File {
                        file: info.file,
                        offset: start,
                        len: (end - start + 1) as u64,
                    },
                },
                None => if starts_with(trim_start(range), "bytes="@) {
                    ResponseModel {
                        headers: seq![("Content-Range"@, "bytes */"@ + total)],
                        ..bare(standard(416))
                    }
                } else {
                    whole_file(path, info)
                },
            },
            None => whole_file(path, info),
        }
    }
}

/// The whole file.
pub open spec fn whole_file(path: Seq<char>, info: FileInfo) -> ResponseModel {
    ResponseModel {
        status: standard(200),
        headers: with_modified(content_fields(path).push(("ETag"@, etag_of(info))), info),
        body: BodyModel::File { file: info.file, offset: 0, len: info.len },
    }
}

fn etag(info: &FileInfo) -> (r: String)
    ensures
        r@ == etag_of(*info),
{
    let mtime: u64 = match info.mtime {
        Some(t) => t,
        None => 0,
    };
    let mut s = owned("\"");
    push_numeral(&mut s, info.len, 16);
    s.push_str("-");
    push_numeral(&mut s, mtime, 16);
    s.push_str("\"");
    proof {
        assert(s@ =~= etag_of(*info));
    }
    s
}

fn last_modified(info: &FileInfo) -> (r: Option<String>)
    ensures
        opt_text(r) == modified_of(*info),
{
    match info.mtime {
        Some(t) => Some(http_date(t)),
        None => None,
    }
}

fn add_modified(resp: Response, info: &FileInfo) -> (r: Response)
    ensures
        r@ == (ResponseModel { headers: with_modified(resp@.headers, *info), ..resp@ }),
{
    match last_modified(info) {
        Some(lm) => resp.header("Last-Modified", lm),
        None => resp,
    }
}

fn content(status: StatusCode, path: &str) -> (r: Response)
    ensures
        r@ == (ResponseModel { headers: content_fields(path@), ..bare(status) }),
{
    let r = Response::new(status).header("Content-Type", from_path(path)).header(
        "Accept-Ranges",
        "bytes",
    ).header("X-Content-Type-Options", "nosniff");
    proof {
        assert(r@.headers =~= content_fields(path@));
    }
    r
}

/// The answer to `req` for the open file `info` at `path`.
pub fn respond_file(req: &Request, path: &str, info: &FileInfo) -> (r: Response)
    ensures
        r@ == file_response(req@.headers, path@, *info),
{
    let tag = etag(info);
    let lm = last_modified(info);
    let hit = match &lm {
        Some(s) => conditional_hit(req, tag.as_str(), Some(s.as_str())),
        None => conditional_hit(req, tag.as_str(), None),
    };
    if hit {
        let resp = Response::new(StatusCode::not_modified()).header("ETag", tag);
        proof {
            assert(resp@.headers =~= seq![("ETag"@, etag_of(*info))]);
        }
        return add_modified(resp, info);
    }
    if let Some(range) = req.headers().get("range") {
        if let Some((start, end)) = parse_single_range(range, info.len) {
            let mut cr = owned("bytes ");
            push_numeral(&mut cr, start, 10);
            cr.push_str("-");
            push_numeral(&mut cr, end, 10);
            cr.push_str("/");
            push_numeral(&mut cr, info.len, 10);
            proof {
                assert(cr@ =~= "bytes "@ + decimal(start as nat) + "-"@ + decimal(end as nat) + "/"@
                    + decimal(info.len as nat));
            }
            let resp = content(StatusCode::partial_content(), path).header("Content-Range", cr).header(
                "ETag",
                tag,
            );
            return add_modified(resp, info).body(Body::file(info.file, start, end - start + 1));
        }
        let c = chars_of(range);
        if chars_strip_prefix(chars_trim_start(c.as_slice()), "bytes=").is_some() {
            // A syntactically present but unsatisfiable range.
            let mut cr = owned("bytes */");
            push_numeral(&mut cr, info.len, 10);
            let resp = Response::new(StatusCode::range_not_satisfiable()).header("Content-Range", cr);
            proof {
                assert(cr@ =~= "bytes */"@ + decimal(info.len as nat));
                assert(resp@.headers =~= seq![("Content-Range"@, cr@)]);
            }
            return resp;
        }
    }
    let resp = content(StatusCode::ok(), path).header("ETag", tag);
    add_modified(resp, info).body(Body::file(info.file, 0, info.len))
}

// ---------------------------------------------------------------------------
// Serving
// ---------------------------------------------------------------------------

/// What stands at a path.
#[derive(Debug, Clone, Copy, PartialEq, Eq, Structural)]
pub enum Stat {
    /// Nothing, or nothing that can be looked at.
    Missing,
    Directory,
    Other,
}

/// What came of opening a path confined to the root.
#[derive(Debug, Clone, Copy, PartialEq, Eq, Structural)]
pub enum Opened {
    File(FileInfo),
    /// It opened, but is not a file.
    NotAFile,
    /// It is missing, may not be read, or leads out of the root.
    Refused,
    /// The system cannot confine: look and open in separate steps.
    Unsupported,
}

/// What came of opening a path in separate steps.
#[derive(Debug, Clone, Copy, PartialEq, Eq, Structural)]
pub enum Fallback {
    File(FileInfo),
    NotAFile,
    /// Its canonical form is not below the canonical root.
    Outside,
    /// It vanished before it could be opened.
    Vanished,
    /// It could not be opened.
    Failed,
}

/// What to do next.
#[derive(Debug)]
pub enum Step {
    /// Send this.
    Respond(Response),
    /// Look what stands at this path.
    Look(String),
    /// Open this path, confined to the root.
    Open(String),
    /// Open this path in separate steps.
    OpenUnconfined(String),
}

/// The model of a step.
pub enum StepModel {
    Respond(ResponseModel),
    Look(Seq<char>),
    Open(Seq<char>),
    OpenUnconfined(Seq<char>),
}

impl View for Step {
    type V = StepModel;

    open spec fn view(&self) -> StepModel {
        match self {
            Step::Respond(r) => StepModel::Respond(r@),
            Step::Look(p) => StepModel::Look(p@),
            Step::Open(p) => StepModel::Open(p@),
            Step::OpenUnconfined(p) => StepModel::OpenUnconfined(p@),
        }
    }
}

/// The first step: only `GET` and `HEAD` are served, and unsafe paths are
/// answered as if nothing were there.
pub open spec fn first_step(req: RequestModel, root: Seq<char>) -> StepModel {
    if req.method != MethodModel::Get && req.method != MethodModel::Head {
        let r = status_response(standard(405));
        StepModel::Respond(ResponseModel { headers: r.headers.push(("Allow"@, "GET, HEAD"@)), ..r })
    } else {
        match located(root, decoded(path_of(req.target))) {
            None => StepModel::Respond(status_response(standard(404))),
            Some(p) => StepModel::Look(p),
        }
    }
}

/// Where a request for a directory without a trailing slash is sent.
pub open spec fn slash_added(target: Seq<char>) -> Seq<char> {
    let p = path_of(target).push('/');
    match query_of(target) {
        Some(q) => p.push('?') + q,
        None => p,
    }
}

/// The step after looking: a directory is served by its index, under a path that
/// ends in a slash.
pub open spec fn looked(req: RequestModel, index: Seq<char>, path: Seq<char>, stat: Stat) -> StepModel {
    match stat {
        Stat::Missing => StepModel::Respond(status_response(standard(404))),
        Stat::Directory => {
            let p = path_of(req.target);
            if p.len() > 0 && p.last() == '/' {
                StepModel::Open(joined(path, index))
            } else {
                StepModel::Respond(
                    ResponseModel {
                        headers: seq![("Location"@, slash_added(req.target))],
                        ..bare(standard(301))
                    },
                )
            }
        },
        Stat::Other => StepModel::Open(path),
    }
}

/// The step after a confined open.
pub open spec fn opened(req: RequestModel, path: Seq<char>, o: Opened) -> StepModel {
    match o {
        Opened::File(info) => StepModel::Respond(file_response(req.headers, path, info)),
        Opened::NotAFile => StepModel::Respond(status_response(standard(404))),
        Opened::Refused => StepModel::Respond(status_response(standard(404))),
        Opened::Unsupported => StepModel::OpenUnconfined(path),
    }
}

/// The answer after an open in separate steps.
pub open spec fn opened_unconfined(req: RequestModel, path: Seq<char>, o: Fallback) -> ResponseModel {
    match o {
        Fallback::File(info) => file_response(req.headers, path, info),
        Fallback::Failed => status_response(standard(500)),
        _ => status_response(standard(404)),
    }
}

/// Serves static files rooted at a directory.
///
/// Request paths are percent-decoded, and any `..` component or dotfile is
/// rejected, so that a request can never escape the configured root. Targets
/// that lead outside the root are rejected when they are opened.
///
/// - `GET` and `HEAD` are supported; other methods get `405`.
/// - A request for a directory serves its index if present, else `404`
///   (directory listings are intentionally not generated).
/// - `Last-Modified` and an `ETag` are emitted; `If-None-Match` and
///   `If-Modified-Since` produce `304` when they match.
/// - A single `Range` request is honored with a `206` response; multi-range
///   requests cannot be satisfied.
#[derive(Debug)]
pub struct StaticFiles {
    root: String,
    index: String,
}

impl StaticFiles {
    /// The directory that is served.
    pub closed spec fn root_path(self) -> Seq<char> {
        self.root@
    }

    /// The name of the directory index.
    pub closed spec fn index_name(self) -> Seq<char> {
        self.index@
    }

    /// Serve files from `root`, using `index.html` as the directory index.
    pub fn new<T: IntoText>(root: T) -> (r: StaticFiles)
        ensures
            r.root_path() == root.text(),
            r.index_name() == "index.html"@,
    {
        StaticFiles { root: root.into_text(), index: owned("index.html") }
    }

    /// Override the directory index file name (default `index.html`).
    pub fn index<T: IntoText>(self, name: T) -> (r: StaticFiles)
        ensures
            r.root_path() == self.root_path(),
            r.index_name() == name.text(),
    {
        StaticFiles { root: self.root, index: name.into_text() }
    }

    /// The directory that is served.
    pub fn root(&self) -> (r: &str)
        ensures
            r@ == self.root_path(),
    {
        self.root.as_str()
    }

    /// Resolve a request path to a file path inside the root, or `None` if the
    /// path is unsafe.
    pub fn resolve(&self, req_path: &str) -> (r: Option<String>)
        ensures
            opt_text(r) == located(self.root_path(), decoded(req_path@)),
    {
        let d = percent_decode(req_path);
        locate(self.root.as_str(), d.as_str())
    }

    /// Whether the canonical target stays within the canonical root; not where
    /// either is not known.
    pub fn within_root(&self, canonical_root: Option<&str>, target: Option<&str>) -> (r: bool)
        ensures
            r == (canonical_root matches Some(d) && target matches Some(t) && lies_under(t@, d@)),
    {
        match (canonical_root, target) {
            (Some(d), Some(t)) => is_under(t, d),
            _ => false,
        }
    }

    /// Begin to serve a request.
    pub fn serve(&self, req: &Request) -> (r: Step)
        ensures
            r@ == first_step(req@, self.root_path()),
    {
        let served: bool = match req.method() {
            Method::Get => true,
            Method::Head => true,
            _ => false,
        };
        if !served {
            return Step::Respond(
                Response::status(StatusCode::method_not_allowed()).header("Allow", "GET, HEAD"),
            );
        }
        match self.resolve(req.path()) {
            None => Step::Respond(Response::status(StatusCode::not_found())),
            Some(p) => Step::Look(p),
        }
    }

    /// Go on with what stands at the path.
    pub fn after_look(&self, req: &Request, path: &str, stat: Stat) -> (r: Step)
        ensures
            r@ == looked(req@, self.index_name(), path@, stat),
    {
        match stat {
            Stat::Missing => Step::Respond(Response::status(StatusCode::not_found())),
            Stat::Other => Step::Open(owned(path)),
            Stat::Directory => {
                let p = chars_of(req.path());
                if p.len() > 0 && p[p.len() - 1] == '/' {
                    return Step::Open(join(path, self.index.as_str()));
                }
                // Redirect "/dir" to "/dir/" so that relative links resolve.
                let mut loc = owned(req.path());
                loc.push('/');
                if let Some(q) = req.query() {
                    loc.push('?');
                    loc.push_str(q);
                }
                proof {
                    assert(loc@ =~= slash_added(req@.target));
                }
                Step::Respond(Response::redirect(StatusCode::moved_permanently(), loc))
            },
        }
    }

    /// Go on with what a confined open came to.
    pub fn after_open(&self, req: &Request, path: &str, o: Opened) -> (r: Step)
        ensures
            r@ == opened(req@, path@, o),
    {
        match o {
            Opened::File(info) => Step::Respond(respond_file(req, path, &info)),
            Opened::NotAFile => Step::Respond(Response::status(StatusCode::not_found())),
            Opened::Refused => Step::Respond(Response::status(StatusCode::not_found())),
            Opened::Unsupported => Step::OpenUnconfined(owned(path)),
        }
    }

    /// Finish with what an open in separate steps came to. A target outside the
    /// root is reported as a missing one, so that it cannot be told apart.
    pub fn after_fallback(&self, req: &Request, path: &str, o: Fallback) -> (r: Response)
        ensures
            r@ == opened_unconfined(req@, path@, o),
    {
        match o {
            Fallback::File(info) => respond_file(req, path, &info),
            Fallback::Failed => Response::status(StatusCode::internal_server_error()),
            _ => Response::status(StatusCode::not_found()),
        }
    }
}

// ---------------------------------------------------------------------------
// Laws
// ---------------------------------------------------------------------------

/// What a request may name below the root: no component that begins with a dot,
/// and neither NUL nor backslash.
pub open spec fn plain_below(s: Seq<char>) -> bool {
    forall|i: int|
        0 <= i < s.len() ==> (#[trigger] s[i] == '.' ==> i > 0 && s[i - 1] != '/') && s[i] != '\0'
            && s[i] != '\\'
}

/// No request can escape the root: what a path names is the root followed by
/// components none of which is `..` or hidden.
pub proof fn law_requests_stay_inside(root: Seq<char>, path: Seq<char>)
    requires
        located(root, path) is Some,
    ensures
        exists|below: Seq<char>|
            located(root, path)->0 == root + below && #[trigger] plain_below(below),
{
    let segs = split(path, '/');
    assert forall|i: int| 0 <= i < segs.len() implies !(#[trigger] segs[i]).contains('/') by {
        lemma_split_parts(path, '/', i);
    }
    lemma_descent(root, segs);
}

proof fn lemma_descent(root: Seq<char>, segs: Seq<Seq<char>>)
    requires
        forall|i: int| 0 <= i < segs.len() ==> !unsafe_segment(#[trigger] segs[i]),
        forall|i: int| 0 <= i < segs.len() ==> !(#[trigger] segs[i]).contains('/'),
    ensures
        exists|below: Seq<char>|
            descended(root, segs) == root + below && #[trigger] plain_below(below),
    decreases segs.len(),
{
    if segs.len() == 0 {
        assert(root + Seq::<char>::empty() =~= root);
        assert(plain_below(Seq::empty()));
    } else {
        let seg = segs.last();
        let up = descended(root, segs.drop_last());
        assert forall|i: int| 0 <= i < segs.drop_last().len() implies !unsafe_segment(
            #[trigger] segs.drop_last()[i],
        ) && !segs.drop_last()[i].contains('/') by {
            assert(segs.drop_last()[i] == segs[i]);
        }
        lemma_descent(root, segs.drop_last());
        let b = choose|b: Seq<char>| up == root + b && #[trigger] plain_below(b);
        if !idle_segment(seg) {
            lemma_find_char(seg, '\0');
            lemma_find_char(seg, '\\');
            let more = if up.len() == 0 || up.last() == '/' {
                b + seg
            } else {
                b + seq!['/'] + seg
            };
            assert(joined(up, seg) =~= root + more);
            assert(plain_below(more)) by {
                assert forall|i: int| 0 <= i < more.len() implies (#[trigger] more[i] == '.' ==> i > 0
                    && more[i - 1] != '/') && more[i] != '\0' && more[i] != '\\' by {
                    let k = more.len() - seg.len();
                    if i < b.len() {
                        assert(more[i] == b[i]);
                        if i > 0 {
                            assert(more[i - 1] == b[i - 1]);
                        }
                    } else if i >= k {
                        assert(more[i] == seg[i - k]);
                        if i > k {
                            assert(more[i - 1] == seg[i - k - 1]);
                            assert(seg.contains(seg[i - k - 1]));
                        } else {
                            assert(seg[0] != '.');
                        }
                    }
                }
            }
        }
    }
}

} // verus!
