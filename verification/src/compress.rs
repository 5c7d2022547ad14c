//! Response body compression, negotiated from the request's `Accept-Encoding`.
//!
//! Built on `compcol`. Buffered response bodies are compressed in one shot,
//! which lets us skip compression when it would not actually shrink the body.
//! Files are streamed, and stay as they are.
use crate::mime::{compressed_type, essence, is_precompressed};
use crate::proto::headers::{
    has_token, law_get_after_set, law_lookup_ignores_case, law_set_keeps_others, list_has, lookup,
    values, with_field, without, Fields, Headers,
};
use crate::proto::request::{Request, RequestModel};
use crate::proto::response::{Body, BodyModel, Response, ResponseModel};
use crate::text::{
    all_digits, all_white, chars_are, chars_eq_nocase, chars_of, chars_split, chars_split_once,
    chars_strip_prefix, chars_trim, concat, digit_val, digits_value, eq_nocase, find_char,
    is_number, law_split_once, law_split_undoes_joining, law_strip_prefix, law_trim,
    lemma_find_char, lemma_split_around, lemma_unsplit, lower, number_text, split, split_once,
    strip_prefix, strip_sign, tight, trim, unsigned, views,
};
use compcol::gzip::Gzip;
use compcol::zlib::Zlib;
use vstd::prelude::*;

verus! {

broadcast use vstd::seq::group_seq_axioms;

/// Knobs controlling response compression.
#[derive(Debug, Clone, Copy, PartialEq, Eq, Structural)]
pub struct Options {
    /// Master switch.
    pub enabled: bool,
    /// Bodies smaller than this are never compressed (the framing overhead and
    /// CPU rarely pay off for tiny payloads).
    pub min_size: usize,
}

impl Default for Options {
    fn default() -> (r: Options)
        ensures
            r == (Options { enabled: true, min_size: 256 }),
    {
        Options { enabled: true, min_size: 256 }
    }
}

/// A content-coding this server can produce.
#[derive(Debug, Clone, Copy, PartialEq, Eq, Structural)]
pub enum Coding {
    Gzip,
    /// HTTP `deflate` is the zlib format (RFC 1950).
    Deflate,
}

impl Coding {
    /// The coding's name in headers.
    pub open spec fn name(self) -> Seq<char> {
        match self {
            Coding::Gzip => "gzip"@,
            Coding::Deflate => "deflate"@,
        }
    }

    /// The coding's name in headers.
    pub fn token(self) -> (r: &'static str)
        ensures
            r@ == self.name(),
    {
        match self {
            Coding::Gzip => "gzip",
            Coding::Deflate => "deflate",
        }
    }
}

// ---------------------------------------------------------------------------
// Negotiation
// ---------------------------------------------------------------------------

/// Whether a text is one of the words for an infinite number.
pub open spec fn is_infinity(s: Seq<char>) -> bool {
    eq_nocase(s, "inf"@) || eq_nocase(s, "infinity"@)
}

/// Whether a number, as written, has a digit other than zero ahead of any
/// exponent.
pub open spec fn nonzero(s: Seq<char>) -> bool {
    exists|i: int| 0 <= i < s.len() && is_mantissa_digit(s, i)
}

/// Whether a digit from one to nine stands at `i`, and no exponent up to it.
pub open spec fn is_mantissa_digit(s: Seq<char>, i: int) -> bool {
    &&& '1' <= s[i] && s[i] <= '9'
    &&& forall|j: int| 0 <= j < i ==> s[j] != 'e' && s[j] != 'E'
}

/// Whether a weight, as written, is above zero. What is not a number counts as
/// one. Numbers are taken as they are written, however small.
pub open spec fn positive(weight: Seq<char>) -> bool {
    let w = trim(weight);
    let u = unsigned(w);
    let negative = w.len() > 0 && w[0] == '-';
    if is_number(w) {
        !negative && nonzero(u)
    } else if is_infinity(u) {
        !negative
    } else {
        !eq_nocase(u, "nan"@)
    }
}

/// Whether the parameters of an entry leave it usable: the first weight given
/// decides, and without one it is.
pub open spec fn usable(params: Seq<Seq<char>>) -> bool
    decreases params.len(),
{
    if params.len() == 0 {
        true
    } else {
        let p = trim(params[0]);
        match (strip_prefix(p, "q="@), strip_prefix(p, "Q="@)) {
            (Some(v), _) => positive(v),
            (None, Some(v)) => positive(v),
            (None, None) => usable(params.skip(1)),
        }
    }
}

/// An entry of the header: its token, and whether its weight is above zero.
pub open spec fn entry_of(part: Seq<char>) -> (Seq<char>, bool) {
    match split_once(part, ';') {
        Some((t, params)) => (trim(t), usable(split(params, ';'))),
        None => (part, true),
    }
}

/// Whether the entries from `i` on accept a coding, given what `*` said so far:
/// the first entry that names it decides, else the last `*`.
pub open spec fn accepted(parts: Seq<Seq<char>>, i: int, star: bool, name: Seq<char>) -> bool
    decreases parts.len() - i,
{
    if i < 0 || i >= parts.len() {
        star
    } else {
        let part = trim(parts[i]);
        let (token, ok) = entry_of(part);
        if part.len() == 0 {
            accepted(parts, i + 1, star, name)
        } else if eq_nocase(token, name) {
            ok
        } else if token == "*"@ {
            accepted(parts, i + 1, ok, name)
        } else {
            accepted(parts, i + 1, star, name)
        }
    }
}

/// Whether an `Accept-Encoding` value accepts a coding.
pub open spec fn accepted_by(header: Seq<char>, name: Seq<char>) -> bool {
    accepted(split(header, ','), 0, false, name)
}

/// The coding to use: gzip, else deflate.
pub open spec fn coding_for(accept: Seq<char>) -> Option<Coding> {
    if accepted_by(accept, "gzip"@) {
        Some(Coding::Gzip)
    } else if accepted_by(accept, "deflate"@) {
        Some(Coding::Deflate)
    } else {
        None
    }
}

fn has_nonzero(c: &[char]) -> (r: bool)
    ensures
        r == nonzero(c@),
{
    let mut i: usize = 0;
    while i < c.len()
        invariant
            i <= c@.len(),
            forall|j: int| 0 <= j < i ==> !('1' <= #[trigger] c@[j] && c@[j] <= '9'),
            forall|j: int| 0 <= j < i ==> #[trigger] c@[j] != 'e' && c@[j] != 'E',
        decreases c.len() - i,
    {
        if '1' <= c[i] && c[i] <= '9' {
            proof {
                assert(is_mantissa_digit(c@, i as int));
            }
            return true;
        }
        if c[i] == 'e' || c[i] == 'E' {
            proof {
                assert forall|k: int| 0 <= k < c@.len() implies !is_mantissa_digit(c@, k) by {
                    if k > i {
                        assert(c@[i as int] == 'e' || c@[i as int] == 'E');
                    } else if k < i {
                        assert(!('1' <= c@[k] && c@[k] <= '9'));
                    }
                }
            }
            return false;
        }
        i += 1;
    }
    proof {
        assert forall|k: int| 0 <= k < c@.len() implies !is_mantissa_digit(c@, k) by {
            assert(!('1' <= c@[k] && c@[k] <= '9'));
        }
    }
    false
}

fn is_word(c: &[char], word: &str) -> (r: bool)
    ensures
        r == eq_nocase(c@, word@),
{
    let w = chars_of(word);
    chars_eq_nocase(c, w.as_slice())
}

fn is_positive(weight: &[char]) -> (r: bool)
    ensures
        r == positive(weight@),
{
    let w = chars_trim(weight);
    let u = strip_sign(w);
    let negative: bool = w.len() > 0 && w[0] == '-';
    if number_text(w) {
        !negative && has_nonzero(u)
    } else if is_word(u, "inf") || is_word(u, "infinity") {
        !negative
    } else {
        !is_word(u, "nan")
    }
}

fn is_usable(params: &[char]) -> (r: bool)
    ensures
        r == usable(split(params@, ';')),
{
    let parts = chars_split(params, ';');
    let ghost p = views(parts@);
    let mut i: usize = 0;
    proof {
        assert(p.skip(0) =~= p);
    }
    while i < parts.len()
        invariant
            i <= parts@.len(),
            p == views(parts@),
            p == split(params@, ';'),
            usable(p) == usable(p.skip(i as int)),
        decreases parts.len() - i,
    {
        proof {
            assert(p.skip(i as int)[0] == parts@[i as int]@);
            assert(p.skip(i as int).skip(1) =~= p.skip(i + 1));
        }
        let t = chars_trim(parts[i]);
        if let Some(v) = chars_strip_prefix(t, "q=") {
            return is_positive(v);
        }
        if let Some(v) = chars_strip_prefix(t, "Q=") {
            return is_positive(v);
        }
        i += 1;
    }
    true
}

/// Whether `name` (or `*`) is acceptable per an `Accept-Encoding` header,
/// treating an explicit `q=0` as a refusal.
pub fn accepts(header: &str, name: &str) -> (r: bool)
    ensures
        r == accepted_by(header@, name@),
{
    let c = chars_of(header);
    let want = chars_of(name);
    let parts = chars_split(c.as_slice(), ',');
    let ghost p = views(parts@);
    let mut star: bool = false;
    let mut i: usize = 0;
    while i < parts.len()
        invariant
            i <= parts@.len(),
            p == views(parts@),
            p == split(header@, ','),
            want@ == name@,
            accepted(p, 0, false, name@) == accepted(p, i as int, star, name@),
        decreases parts.len() - i,
    {
        proof {
            assert(p[i as int] == parts@[i as int]@);
        }
        let part = chars_trim(parts[i]);
        if part.len() == 0 {
            i += 1;
            continue;
        }
        let (token, ok): (&[char], bool) = match chars_split_once(part, ';') {
            Some((t, params)) => (chars_trim(t), is_usable(params)),
            None => (part, true),
        };
        if chars_eq_nocase(token, want.as_slice()) {
            return ok;
        }
        if chars_are(token, "*") {
            star = ok;
        }
        i += 1;
    }
    star
}

/// Pick the best coding the client will accept, honoring `q=0` opt-outs.
/// Preference order: gzip, then deflate.
pub fn choose_coding(accept_encoding: &str) -> (r: Option<Coding>)
    ensures
        r == coding_for(accept_encoding@),
{
    if accepts(accept_encoding, "gzip") {
        Some(Coding::Gzip)
    } else if accepts(accept_encoding, "deflate") {
        Some(Coding::Deflate)
    } else {
        None
    }
}

// ---------------------------------------------------------------------------
// Compression
// ---------------------------------------------------------------------------

/// The gzip form of a byte string.
pub uninterp spec fn gzip_of(data: Seq<u8>) -> Option<Seq<u8>>;

/// The zlib form of a byte string.
pub uninterp spec fn zlib_of(data: Seq<u8>) -> Option<Seq<u8>>;

/// `compcol::vec::compress_to_vec` with the gzip codec's defaults.
#[verifier::external_body]
pub(crate) fn gzip(data: &[u8]) -> (r: Option<Vec<u8>>)
    ensures
        match r {
            Some(v) => gzip_of(data@) == Some(v@),
            None => gzip_of(data@) is None,
        },
{
    compcol::vec::compress_to_vec::<Gzip>(data).ok()
}

/// `compcol::vec::compress_to_vec` with the zlib codec's defaults.
#[verifier::external_body]
pub(crate) fn zlib(data: &[u8]) -> (r: Option<Vec<u8>>)
    ensures
        match r {
            Some(v) => zlib_of(data@) == Some(v@),
            None => zlib_of(data@) is None,
        },
{
    compcol::vec::compress_to_vec::<Zlib>(data).ok()
}

/// A byte string in a coding.
pub open spec fn coded(coding: Coding, data: Seq<u8>) -> Option<Seq<u8>> {
    match coding {
        Coding::Gzip => gzip_of(data),
        Coding::Deflate => zlib_of(data),
    }
}

/// Several values of a list field as one value.
pub open spec fn listed(vals: Seq<Seq<char>>) -> Seq<char>
    decreases vals.len(),
{
    if vals.len() == 0 {
        Seq::empty()
    } else if vals.len() == 1 {
        vals[0]
    } else {
        listed(vals.drop_last()) + ", "@ + vals.last()
    }
}

/// The headers with a token added to what `Vary` lists, in one field, unless it is
/// there or everything varies.
pub open spec fn varying(f: Fields, value: Seq<char>) -> Fields {
    if has_token(f, "vary"@, value) || has_token(f, "vary"@, "*"@) {
        f
    } else {
        with_field(f, "Vary"@, listed(values(f, "vary"@).push(value)))
    }
}

/// Add `value` to the `Vary` header without duplicating it.
pub fn append_vary(headers: &mut Headers, value: &str)
    ensures
        final(headers)@ == varying(old(headers)@, value@),
{
    if headers.contains_token("vary", value) || headers.contains_token("vary", "*") {
        return;
    }
    let mut all: String = String::new();
    {
        let existing = headers.get_all("vary");
        let ghost vals = values(headers@, "vary"@);
        let mut i: usize = 0;
        proof {
            assert(vals.take(0) =~= Seq::empty());
            assert(all@ =~= Seq::empty());
        }
        while i < existing.len()
            invariant
                i <= existing@.len(),
                existing@.map_values(|s: &str| s@) == vals,
                all@ == listed(vals.take(i as int)),
            decreases existing.len() - i,
        {
            let ghost before = all@;
            if i > 0 {
                all.push_str(", ");
            }
            all.push_str(existing[i]);
            proof {
                let now = vals.take(i + 1);
                assert(now.drop_last() =~= vals.take(i as int));
                assert(vals[i as int] == existing@[i as int]@);
                if i == 0 {
                    assert(all@ =~= now[0]);
                } else {
                    assert(all@ =~= before + ", "@ + now.last());
                }
            }
            i += 1;
        }
        if existing.len() > 0 {
            all.push_str(", ");
        }
        proof {
            assert(vals.len() == existing@.len());
            assert(vals.take(vals.len() as int) =~= vals);
            assert(vals.push(value@).drop_last() =~= vals);
        }
    }
    all.push_str(value);
    proof {
        assert(all@ =~= listed(values(headers@, "vary"@).push(value@)));
    }
    headers.set("Vary", all);
}

/// Whether a response is worth compressing: buffered, whole, not encoded yet,
/// large enough, and not of a type that is compressed already.
pub open spec fn worthwhile(resp: ResponseModel, opts: Options) -> bool {
    &&& opts.enabled
    &&& resp.status.code != 206
    &&& lookup(resp.headers, "content-encoding"@) is None
    &&& resp.body is Bytes
    &&& resp.body.size() >= opts.min_size
    &&& match lookup(resp.headers, "content-type"@) {
        Some(ct) => !compressed_type(essence(ct)),
        None => true,
    }
}

/// The response with its body in a coding, if that is smaller. Either way it
/// varies with what the client accepts.
pub open spec fn encoded(resp: ResponseModel, coding: Coding, out: Option<Seq<u8>>) -> ResponseModel {
    if out is Some && out->0.len() < resp.body.size() {
        ResponseModel {
            status: resp.status,
            headers: varying(
                with_field(resp.headers, "Content-Encoding"@, coding.name()),
                "Accept-Encoding"@,
            ),
            body: BodyModel::Bytes(out->0),
        }
    } else {
        ResponseModel { headers: varying(resp.headers, "Accept-Encoding"@), ..resp }
    }
}

/// What goes out instead of a response.
pub open spec fn compressed(req: RequestModel, resp: ResponseModel, opts: Options) -> ResponseModel {
    let accept = match lookup(req.headers, "accept-encoding"@) {
        Some(a) => a,
        None => ""@,
    };
    if !worthwhile(resp, opts) {
        resp
    } else {
        match coding_for(accept) {
            None => resp,
            Some(coding) => encoded(resp, coding, coded(coding, resp.body->Bytes_0)),
        }
    }
}

fn is_worthwhile(resp: &Response, opts: &Options) -> (r: bool)
    ensures
        r == worthwhile(resp@, *opts),
{
    if !opts.enabled || resp.status_code().code() == 206 {
        return false;
    }
    // Never double-encode a body.
    if resp.headers().contains("content-encoding") {
        return false;
    }
    match resp.body_ref() {
        Body::Bytes(b) => {
            if b.len() < opts.min_size {
                return false;
            }
        },
        Body::File { .. } => {
            return false;
        },
    }
    match resp.headers().get("content-type") {
        Some(ct) => !is_precompressed(ct),
        None => true,
    }
}

/// Adopt the compressed form of a body, if it is smaller.
pub fn adopt(resp: Response, coding: Coding, out: Option<Vec<u8>>) -> (r: Response)
    ensures
        r@ == encoded(
            resp@,
            coding,
            match out {
                Some(v) => Some(v@),
                None => None,
            },
        ),
{
    let (status, mut headers, body) = resp.into_parts();
    let size: u64 = body.len();
    match out {
        Some(v) => {
            if (v.len() as u64) < size {
                headers.set("Content-Encoding", coding.token());
                append_vary(&mut headers, "Accept-Encoding");
                return Response::from_parts(status, headers, Body::Bytes(v));
            }
        },
        None => {},
    }
    append_vary(&mut headers, "Accept-Encoding");
    Response::from_parts(status, headers, body)
}

/// Compress `resp`'s body if the client accepts a coding we support and the body
/// is a worthwhile candidate. Returns the (possibly unchanged) response.
pub fn compress_response(req: &Request, resp: Response, opts: &Options) -> (r: Response)
    ensures
        r@ == compressed(req@, resp@, *opts),
{
    if !is_worthwhile(&resp, opts) {
        return resp;
    }
    let accept = match req.headers().get("accept-encoding") {
        Some(a) => a,
        None => "",
    };
    let coding = match choose_coding(accept) {
        Some(c) => c,
        None => {
            return resp;
        },
    };
    let out = match coding {
        Coding::Gzip => gzip(resp.body_ref().as_bytes()),
        Coding::Deflate => zlib(resp.body_ref().as_bytes()),
    };
    adopt(resp, coding, out)
}

// ---------------------------------------------------------------------------
// Laws
// ---------------------------------------------------------------------------

/// A body never grows, and the status never changes.
pub proof fn law_compression_never_grows(req: RequestModel, resp: ResponseModel, opts: Options)
    ensures
        compressed(req, resp, opts).body.size() <= resp.body.size(),
        compressed(req, resp, opts).status == resp.status,
{
}

/// What a client does not accept is not used, and files and parts of files stay
/// as they are.
pub proof fn law_compression_is_asked_for(req: RequestModel, resp: ResponseModel, opts: Options)
    ensures
        lookup(req.headers, "accept-encoding"@) is None ==> compressed(req, resp, opts) == resp,
        resp.body is File ==> compressed(req, resp, opts) == resp,
        resp.status.code == 206 ==> compressed(req, resp, opts) == resp,
        !opts.enabled ==> compressed(req, resp, opts) == resp,
{
    if lookup(req.headers, "accept-encoding"@) is None {
        reveal_strlit("");
        reveal_strlit("gzip");
        reveal_strlit("deflate");
        let none = split(""@, ',');
        assert(none =~= seq![""@]);
        assert(trim(none[0]).len() == 0);
        assert(!accepted(none, 1, false, "gzip"@));
        assert(!accepted(none, 1, false, "deflate"@));
        assert(!accepted_by(""@, "gzip"@));
        assert(!accepted_by(""@, "deflate"@));
    }
}

/// Blanks before a list change none of its elements.
proof fn lemma_blank_first(b: Seq<char>, token: Seq<char>)
    ensures
        list_has(seq![' '] + b, token) == list_has(b, token),
{
    let s = seq![' '] + b;
    let p = split(s, ',');
    let q = split(b, ',');
    lemma_find_char(b, ',');
    lemma_find_char(s, ',');
    match find_char(b, ',') {
        Some(i) => {
            assert(s[i + 1] == b[i]);
            let k = find_char(s, ',')->0;
            assert(find_char(s, ',') is Some);
            assert(k == i + 1) by {
                if k < i + 1 {
                    assert(k > 0);
                    assert(s[k] == b[k - 1]);
                }
            }
            assert(s.skip(k + 1) =~= b.skip(i + 1));
            assert(s.take(k) =~= seq![' '] + b.take(i));
            assert(p =~= seq![seq![' '] + q[0]] + q.skip(1));
        },
        None => {
            if find_char(s, ',') is Some {
                let k = find_char(s, ',')->0;
                assert(k > 0);
                assert(s[k] == b[k - 1]);
            }
            assert(p =~= seq![seq![' '] + q[0]] + q.skip(1));
        },
    }
    assert((seq![' '] + q[0]).skip(1) =~= q[0]);
    assert(trim(p[0]) == trim(q[0]));
    assert forall|i: int| 0 <= i < q.len() implies trim(#[trigger] p[i]) == trim(q[i]) by {
        if i > 0 {
            assert(p[i] == q[i]);
        }
    }
    if list_has(s, token) {
        let i = choose|i: int| 0 <= i < p.len() && eq_nocase(trim(#[trigger] p[i]), token);
        assert(eq_nocase(trim(q[i]), token));
    }
    if list_has(b, token) {
        let i = choose|i: int| 0 <= i < q.len() && eq_nocase(trim(#[trigger] q[i]), token);
        assert(eq_nocase(trim(p[i]), token));
    }
}

/// Splitting two texts with a separator between them is splitting each.
proof fn lemma_split_concat(a: Seq<char>, b: Seq<char>, sep: char)
    ensures
        split(a + seq![sep] + b, sep) == split(a, sep) + split(b, sep),
{
    lemma_split_around(a, b, sep);
}

/// Two lists as one have the elements of both.
proof fn lemma_list_concat(a: Seq<char>, b: Seq<char>, token: Seq<char>)
    ensures
        list_has(a + ", "@ + b, token) == (list_has(a, token) || list_has(b, token)),
{
    reveal_strlit(", ");
    let c = seq![' '] + b;
    assert(a + ", "@ + b =~= a + seq![','] + c);
    lemma_split_concat(a, c, ',');
    lemma_blank_first(b, token);
    let s = split(a + seq![','] + c, ',');
    let p = split(a, ',');
    let q = split(c, ',');
    if list_has(a + seq![','] + c, token) {
        let i = choose|i: int| 0 <= i < s.len() && eq_nocase(trim(#[trigger] s[i]), token);
        if i < p.len() {
            assert(eq_nocase(trim(p[i]), token));
        } else {
            assert(eq_nocase(trim(q[i - p.len()]), token));
        }
    }
    if list_has(a, token) {
        let i = choose|i: int| 0 <= i < p.len() && eq_nocase(trim(#[trigger] p[i]), token);
        assert(eq_nocase(trim(s[i]), token));
    }
    if list_has(c, token) {
        let i = choose|i: int| 0 <= i < q.len() && eq_nocase(trim(#[trigger] q[i]), token);
        assert(eq_nocase(trim(s[p.len() + i]), token));
    }
}

/// Values as one value have the elements of all.
proof fn lemma_listed(vals: Seq<Seq<char>>, token: Seq<char>)
    requires
        vals.len() > 0,
    ensures
        list_has(listed(vals), token) == exists|i: int|
            0 <= i < vals.len() && list_has(#[trigger] vals[i], token),
    decreases vals.len(),
{
    if vals.len() == 1 {
        if list_has(listed(vals), token) {
            assert(list_has(vals[0], token));
        }
    } else {
        let rest = vals.drop_last();
        lemma_listed(rest, token);
        lemma_list_concat(listed(rest), vals.last(), token);
        if list_has(listed(rest), token) {
            let i = choose|i: int| 0 <= i < rest.len() && list_has(#[trigger] rest[i], token);
            assert(list_has(vals[i], token));
        }
        if list_has(vals.last(), token) {
            assert(list_has(vals[vals.len() - 1], token));
        }
        if exists|i: int| 0 <= i < vals.len() && list_has(#[trigger] vals[i], token) {
            let i = choose|i: int| 0 <= i < vals.len() && list_has(#[trigger] vals[i], token);
            if i < rest.len() {
                assert(list_has(rest[i], token));
            }
        }
    }
}

/// Setting a field leaves one value of its name.
proof fn lemma_values_after_set(f: Fields, value: Seq<char>)
    ensures
        values(with_field(f, "Vary"@, value), "vary"@) == seq![value],
{
    reveal_strlit("Vary");
    reveal_strlit("vary");
    assert(lower("Vary"@) =~= lower("vary"@));
    lemma_no_values(f);
    let w = with_field(f, "Vary"@, value);
    assert(w.drop_last() =~= without(f, "Vary"@));
    assert(values(w, "vary"@) =~= seq![value]);
}

proof fn lemma_no_values(f: Fields)
    requires
        lower("Vary"@) == lower("vary"@),
    ensures
        values(without(f, "Vary"@), "vary"@) == Seq::<Seq<char>>::empty(),
    decreases f.len(),
{
    if f.len() > 0 {
        lemma_no_values(f.drop_last());
        if !eq_nocase(f.last().0, "Vary"@) {
            let w = without(f, "Vary"@);
            assert(w.drop_last() =~= without(f.drop_last(), "Vary"@));
        }
    }
}

/// Adding to `Vary` keeps every token that it lists, in all of its fields.
pub proof fn law_vary_keeps_tokens(f: Fields, value: Seq<char>, token: Seq<char>)
    requires
        has_token(f, "vary"@, token),
    ensures
        has_token(varying(f, value), "vary"@, token),
{
    if !has_token(f, "vary"@, value) && !has_token(f, "vary"@, "*"@) {
        let vals = values(f, "vary"@);
        let all = vals.push(value);
        let i = choose|i: int| 0 <= i < vals.len() && list_has(#[trigger] vals[i], token);
        assert(list_has(all[i], token));
        lemma_listed(all, token);
        lemma_values_after_set(f, listed(all));
        let now = values(varying(f, value), "vary"@);
        assert(list_has(now[0], token));
    }
}

/// What was added to `Vary` is listed there, or everything varies.
pub proof fn law_vary_lists_what_was_added(f: Fields, value: Seq<char>)
    requires
        !value.contains(','),
        trim(value) == value,
    ensures
        has_token(varying(f, value), "vary"@, value) || has_token(varying(f, value), "vary"@, "*"@),
{
    if !has_token(f, "vary"@, value) && !has_token(f, "vary"@, "*"@) {
        let all = values(f, "vary"@).push(value);
        lemma_find_char(value, ',');
        if find_char(value, ',') is Some {
            assert(value.contains(value[find_char(value, ',')->0]));
        }
        assert(split(value, ',')[0] == value);
        assert(eq_nocase(trim(split(value, ',')[0]), value));
        assert(list_has(all[all.len() - 1], value));
        lemma_listed(all, value);
        lemma_values_after_set(f, listed(all));
        let now = values(varying(f, value), "vary"@);
        assert(list_has(now[0], value));
    }
}

/// A decimal number as it is written: its whole part, and its fraction where it has
/// one.
pub struct Weight {
    pub whole: Seq<char>,
    pub fraction: Option<Seq<char>>,
}

impl Weight {
    /// Whether both parts are digits.
    pub open spec fn wf(self) -> bool {
        &&& all_digits(self.whole, 10)
        &&& self.fraction matches Some(f) ==> all_digits(f, 10)
    }

    /// The number as it is written.
    pub open spec fn text(self) -> Seq<char> {
        match self.fraction {
            Some(f) => self.whole + seq!['.'] + f,
            None => self.whole,
        }
    }

    /// Whether the number is above zero.
    pub open spec fn above_zero(self) -> bool {
        digits_value(self.whole, 10) > 0 || (self.fraction matches Some(f) && digits_value(f, 10) > 0)
    }
}

/// Digits are worth something exactly if one of them is not zero.
proof fn lemma_worth(s: Seq<char>)
    requires
        forall|i: int| 0 <= i < s.len() ==> digit_val(#[trigger] s[i], 10) is Some,
    ensures
        digits_value(s, 10) > 0 <==> exists|i: int|
            0 <= i < s.len() && '1' <= #[trigger] s[i] && s[i] <= '9',
    decreases s.len(),
{
    if s.len() > 0 {
        let t = s.drop_last();
        assert forall|i: int| 0 <= i < t.len() implies digit_val(#[trigger] t[i], 10) is Some by {
            assert(t[i] == s[i]);
        }
        lemma_worth(t);
        assert(digit_val(s[s.len() - 1], 10) is Some);
        if exists|i: int| 0 <= i < s.len() && '1' <= #[trigger] s[i] && s[i] <= '9' {
            let i = choose|i: int| 0 <= i < s.len() && '1' <= #[trigger] s[i] && s[i] <= '9';
            if i < t.len() {
                assert(t[i] == s[i]);
            }
        }
        if digits_value(s, 10) > 0 {
            if digits_value(t, 10) > 0 {
                let i = choose|i: int| 0 <= i < t.len() && '1' <= #[trigger] t[i] && t[i] <= '9';
                assert(s[i] == t[i]);
            } else {
                assert('1' <= s[s.len() - 1] && s[s.len() - 1] <= '9');
            }
        }
    }
}

/// The characters of a weight are digits, but for the point.
proof fn lemma_weight_chars(w: Weight)
    requires
        w.wf(),
    ensures
        ({
            let t = w.text();
            &&& t.len() > 0
            &&& digit_val(t[0], 10) is Some
            &&& digit_val(t.last(), 10) is Some
            &&& forall|i: int|
                0 <= i < t.len() ==> (digit_val(#[trigger] t[i], 10) is Some || (t[i] == '.' && i
                    == w.whole.len() && w.fraction is Some))
        }),
{
    let t = w.text();
    let n = w.whole.len();
    assert(digit_val(w.whole[0], 10) is Some);
    assert(digit_val(w.whole[n - 1], 10) is Some);
    if let Some(f) = w.fraction {
        assert(digit_val(f[f.len() - 1], 10) is Some);
        assert(t.last() == f[f.len() - 1]);
    }
    assert forall|i: int| 0 <= i < t.len() implies (digit_val(#[trigger] t[i], 10) is Some || (t[i]
        == '.' && i == n && w.fraction is Some)) by {
        if i < n {
            assert(t[i] == w.whole[i]);
        } else if i > n {
            assert(t[i] == w.fraction->0[i - n - 1]);
        }
    }
}

proof fn lemma_weight_has_no(w: Weight, c: char)
    requires
        w.wf(),
        digit_val(c, 10) is None,
        c != '.',
    ensures
        !w.text().contains(c),
        find_char(w.text(), c) is None,
{
    lemma_weight_chars(w);
    lemma_find_char(w.text(), c);
    let t = w.text();
    if find_char(t, c) is Some {
        assert(t[find_char(t, c)->0] == c);
    }
}

/// A weight counts as what it is worth: above zero exactly where its digits are.
pub proof fn law_weight_is_its_value(w: Weight)
    requires
        w.wf(),
    ensures
        positive(w.text()) == w.above_zero(),
{
    let t = w.text();
    let n = w.whole.len();
    lemma_weight_chars(w);
    let e = Seq::<char>::empty();
    law_trim(e, t, e);
    assert(e + t + e =~= t);
    assert(unsigned(t) == t);
    lemma_weight_has_no(w, 'e');
    lemma_weight_has_no(w, 'E');
    lemma_find_char(t, '.');
    match w.fraction {
        None => {
            if find_char(t, '.') is Some {
                assert(t[find_char(t, '.')->0] == '.');
            }
        },
        Some(f) => {
            assert(t[n as int] == '.');
            let k = find_char(t, '.')->0;
            assert(k == n) by {
                if k < n {
                    assert(t[k] == w.whole[k]);
                }
            }
            assert(t.take(k) =~= w.whole);
            assert(t.skip(k + 1) =~= f);
            lemma_worth(f);
        },
    }
    assert(is_number(t));
    lemma_worth(w.whole);
    if w.above_zero() {
        if digits_value(w.whole, 10) > 0 {
            let i = choose|i: int|
                0 <= i < w.whole.len() && '1' <= #[trigger] w.whole[i] && w.whole[i] <= '9';
            assert(t[i] == w.whole[i]);
            assert(is_mantissa_digit(t, i)) by {
                assert forall|j: int| 0 <= j < i implies t[j] != 'e' && t[j] != 'E' by {
                    assert(digit_val(t[j], 10) is Some || t[j] == '.');
                }
            }
        } else {
            let f = w.fraction->0;
            let i = choose|i: int| 0 <= i < f.len() && '1' <= #[trigger] f[i] && f[i] <= '9';
            assert(t[n + 1 + i] == f[i]);
            assert(is_mantissa_digit(t, n + 1 + i)) by {
                assert forall|j: int| 0 <= j < n + 1 + i implies t[j] != 'e' && t[j] != 'E' by {
                    assert(digit_val(t[j], 10) is Some || t[j] == '.');
                }
            }
        }
    }
    if nonzero(t) {
        let i = choose|i: int| 0 <= i < t.len() && is_mantissa_digit(t, i);
        if i < n {
            assert(t[i] == w.whole[i]);
        } else if i > n {
            assert(t[i] == w.fraction->0[i - n - 1]);
        }
    }
}

/// A weight below zero, or of minus zero, is a refusal.
pub proof fn law_negative_weight_refuses(w: Weight)
    requires
        w.wf(),
    ensures
        !positive("-"@ + w.text()),
{
    reveal_strlit("-");
    let t = w.text();
    let s = "-"@ + t;
    lemma_weight_chars(w);
    let e = Seq::<char>::empty();
    assert(s[0] == '-');
    assert(s.last() == t.last());
    law_trim(e, s, e);
    assert(e + s + e =~= s);
    assert(s.skip(1) =~= t);
    assert(unsigned(s) == t);
    law_weight_is_its_value(w);
    law_trim(e, t, e);
    assert(e + t + e =~= t);
    lemma_weight_has_no(w, 'e');
    lemma_weight_has_no(w, 'E');
    assert(t[0] != '-' && t[0] != '+');
    assert(unsigned(t) == t);
    lemma_is_number(w);
}

proof fn lemma_is_number(w: Weight)
    requires
        w.wf(),
    ensures
        is_number("-"@ + w.text()),
{
    reveal_strlit("-");
    let t = w.text();
    let n = w.whole.len();
    lemma_weight_chars(w);
    let s = "-"@ + t;
    assert(s.skip(1) =~= t);
    assert(unsigned(s) == t);
    lemma_weight_has_no(w, 'e');
    lemma_weight_has_no(w, 'E');
    lemma_find_char(t, '.');
    match w.fraction {
        None => {
            if find_char(t, '.') is Some {
                assert(t[find_char(t, '.')->0] == '.');
            }
        },
        Some(f) => {
            assert(t[n as int] == '.');
            let k = find_char(t, '.')->0;
            assert(k == n) by {
                if k < n {
                    assert(t[k] == w.whole[k]);
                }
            }
            assert(t.take(k) =~= w.whole);
            assert(t.skip(k + 1) =~= f);
        },
    }
}

/// An entry of `Accept-Encoding`: what it names, with what weight, and the blanks
/// before it.
pub struct Offer {
    pub blanks: Seq<char>,
    pub token: Seq<char>,
    pub weight: Option<Weight>,
}

impl Offer {
    /// Whether the token can stand in the header.
    pub open spec fn wf(self) -> bool {
        &&& all_white(self.blanks)
        &&& !self.blanks.contains(',')
        &&& self.token.len() > 0
        &&& tight(self.token)
        &&& !self.token.contains(',')
        &&& !self.token.contains(';')
        &&& self.weight matches Some(w) ==> w.wf()
    }

    /// The entry as it is written.
    pub open spec fn text(self) -> Seq<char> {
        self.blanks + match self.weight {
            Some(w) => self.token + ";q="@ + w.text(),
            None => self.token,
        }
    }

    /// Whether the entry accepts what it names: it gives no weight, or one above
    /// zero.
    pub open spec fn accepts(self) -> bool {
        self.weight matches Some(w) ==> w.above_zero()
    }
}

/// The entries as they are written.
pub open spec fn offer_texts(offers: Seq<Offer>) -> Seq<Seq<char>> {
    offers.map_values(|o: Offer| o.text())
}

proof fn lemma_no_comma(o: Offer)
    requires
        o.wf(),
    ensures
        !o.text().contains(','),
{
    reveal_strlit(";q=");
    let b = o.blanks.len();
    let k = b + o.token.len();
    if let Some(w) = o.weight {
        lemma_weight_has_no(w, ',');
    }
    assert forall|i: int| 0 <= i < o.text().len() implies o.text()[i] != ',' by {
        if i < b {
            assert(o.text()[i] == o.blanks[i]);
            assert(o.blanks.contains(o.blanks[i]));
        } else if i < k {
            assert(o.text()[i] == o.token[i - b]);
            assert(o.token.contains(o.token[i - b]));
        } else if i < k + 3 {
            assert(o.text()[i] == ";q="@[i - k]);
        } else {
            let t = o.weight->0.text();
            assert(o.text()[i] == t[i - k - 3]);
            assert(t.contains(t[i - k - 3]));
        }
    }
}

/// A weight alone is what decides.
proof fn lemma_weighed(w: Weight)
    requires
        w.wf(),
    ensures
        usable(split("q="@ + w.text(), ';')) == w.above_zero(),
        tight("q="@ + w.text()),
{
    reveal_strlit("q=");
    let t = w.text();
    let p = "q="@ + t;
    let e = Seq::<char>::empty();
    lemma_weight_chars(w);
    lemma_weight_has_no(w, ';');
    assert forall|i: int| 0 <= i < p.len() implies p[i] != ';' by {
        if i >= 2 {
            assert(p[i] == t[i - 2]);
            assert(t.contains(t[i - 2]));
        }
    }
    lemma_unsplit(p, ';');
    assert(split(p, ';')[0] == p);
    assert(p[0] == 'q');
    assert(p.last() == t.last());
    law_trim(e, p, e);
    assert(e + p + e =~= p);
    law_strip_prefix("q="@, t);
    law_weight_is_its_value(w);
}

proof fn lemma_entry(o: Offer)
    requires
        o.wf(),
    ensures
        trim(o.text()).len() > 0,
        entry_of(trim(o.text())) == (o.token, o.accepts()),
{
    let e = Seq::<char>::empty();
    match o.weight {
        None => {
            assert(o.text() =~= o.blanks + o.token + e);
            law_trim(o.blanks, o.token, e);
            law_split_once(o.token, e, ';');
        },
        Some(w) => {
            reveal_strlit(";q=");
            reveal_strlit("q=");
            let t = w.text();
            let s = o.token + ";q="@ + t;
            let p = "q="@ + t;
            lemma_weight_chars(w);
            lemma_weighed(w);
            assert(s.last() == t.last());
            assert(s[0] == o.token[0]);
            assert(o.text() =~= o.blanks + s + e);
            law_trim(o.blanks, s, e);
            assert(s =~= o.token + seq![';'] + p);
            law_split_once(o.token, p, ';');
            law_trim(e, o.token, e);
            assert(e + o.token + e =~= o.token);
        },
    }
}

/// The first entry that names a coding decides on it: it is accepted unless its
/// weight is zero.
pub proof fn law_first_naming_entry_decides(offers: Seq<Offer>, k: int, name: Seq<char>)
    requires
        0 <= k < offers.len(),
        forall|i: int| 0 <= i < offers.len() ==> (#[trigger] offers[i]).wf(),
        eq_nocase(offers[k].token, name),
        forall|i: int| 0 <= i < k ==> !eq_nocase((#[trigger] offers[i]).token, name),
    ensures
        accepted_by(concat(offer_texts(offers), seq![',']), name) == offers[k].accepts(),
{
    lemma_offers(offers);
    lemma_named_at(offers, 0, false, k, name);
}

/// A coding that no entry names is accepted if the last `*` is, and not at all
/// without one.
pub proof fn law_star_stands_for_the_rest(offers: Seq<Offer>, name: Seq<char>)
    requires
        offers.len() > 0,
        forall|i: int| 0 <= i < offers.len() ==> (#[trigger] offers[i]).wf(),
        forall|i: int| 0 <= i < offers.len() ==> !eq_nocase((#[trigger] offers[i]).token, name),
    ensures
        ({
            let header = concat(offer_texts(offers), seq![',']);
            &&& (forall|i: int| 0 <= i < offers.len() ==> (#[trigger] offers[i]).token != "*"@)
                ==> !accepted_by(header, name)
            &&& forall|k: int|
                0 <= k < offers.len() && (#[trigger] offers[k]).token == "*"@ && (forall|i: int|
                    k < i < offers.len() ==> (#[trigger] offers[i]).token != "*"@) ==> accepted_by(
                    header,
                    name,
                ) == offers[k].accepts()
        }),
{
    lemma_offers(offers);
    lemma_unnamed_from(offers, 0, false, name);
}

proof fn lemma_offers(offers: Seq<Offer>)
    requires
        offers.len() > 0,
        forall|i: int| 0 <= i < offers.len() ==> (#[trigger] offers[i]).wf(),
    ensures
        split(concat(offer_texts(offers), seq![',']), ',') == offer_texts(offers),
{
    let t = offer_texts(offers);
    assert forall|i: int| 0 <= i < t.len() implies !(#[trigger] t[i]).contains(',') by {
        lemma_no_comma(offers[i]);
    }
    law_split_undoes_joining(t, ',');
}

proof fn lemma_named_at(offers: Seq<Offer>, i: int, star: bool, k: int, name: Seq<char>)
    requires
        0 <= i <= k < offers.len(),
        forall|j: int| 0 <= j < offers.len() ==> (#[trigger] offers[j]).wf(),
        eq_nocase(offers[k].token, name),
        forall|j: int| 0 <= j < k ==> !eq_nocase((#[trigger] offers[j]).token, name),
    ensures
        accepted(offer_texts(offers), i, star, name) == offers[k].accepts(),
    decreases k - i,
{
    lemma_entry(offers[i]);
    assert(offer_texts(offers)[i] == offers[i].text());
    if i < k {
        lemma_named_at(offers, i + 1, star, k, name);
        lemma_named_at(offers, i + 1, offers[i].accepts(), k, name);
    }
}

proof fn lemma_unnamed_from(offers: Seq<Offer>, i: int, star: bool, name: Seq<char>)
    requires
        0 <= i <= offers.len(),
        forall|j: int| 0 <= j < offers.len() ==> (#[trigger] offers[j]).wf(),
        forall|j: int| 0 <= j < offers.len() ==> !eq_nocase((#[trigger] offers[j]).token, name),
    ensures
        (forall|j: int| i <= j < offers.len() ==> (#[trigger] offers[j]).token != "*"@) ==> accepted(
            offer_texts(offers),
            i,
            star,
            name,
        ) == star,
        forall|k: int|
            i <= k < offers.len() && (#[trigger] offers[k]).token == "*"@ && (forall|j: int|
                k < j < offers.len() ==> (#[trigger] offers[j]).token != "*"@) ==> accepted(
                offer_texts(offers),
                i,
                star,
                name,
            ) == offers[k].accepts(),
    decreases offers.len() - i,
{
    if i < offers.len() {
        lemma_entry(offers[i]);
        assert(offer_texts(offers)[i] == offers[i].text());
        lemma_unnamed_from(offers, i + 1, star, name);
        lemma_unnamed_from(offers, i + 1, offers[i].accepts(), name);
        if forall|j: int| i <= j < offers.len() ==> (#[trigger] offers[j]).token != "*"@ {
            assert(offers[i].token != "*"@);
        }
    }
}

/// Of the codings that a client accepts gzip is taken before deflate, and none that
/// it does not accept.
pub proof fn law_gzip_is_preferred(accept: Seq<char>)
    ensures
        accepted_by(accept, "gzip"@) ==> coding_for(accept) == Some(Coding::Gzip),
        !accepted_by(accept, "gzip"@) && accepted_by(accept, "deflate"@) ==> coding_for(accept)
            == Some(Coding::Deflate),
        !accepted_by(accept, "gzip"@) && !accepted_by(accept, "deflate"@) ==> coding_for(accept) is None,
{
}

/// A response that is large enough, whole, not encoded and of no compressed type is
/// compressed with what the client accepts, if that makes it smaller: the body is
/// the compressed one, and `Content-Encoding` names how. All other fields but
/// `Vary` are as they were.
pub proof fn law_accepted_coding_is_used(
    req: RequestModel,
    resp: ResponseModel,
    opts: Options,
    data: Seq<u8>,
    out: Seq<u8>,
    other: Seq<char>,
)
    requires
        opts.enabled,
        resp.status.code != 206,
        lookup(resp.headers, "content-encoding"@) is None,
        resp.body == BodyModel::Bytes(data),
        data.len() >= opts.min_size,
        lookup(resp.headers, "content-type"@) matches Some(ct) ==> !compressed_type(essence(ct)),
        lookup(req.headers, "accept-encoding"@) is Some,
        out.len() < data.len(),
    ensures
        ({
            let accept = lookup(req.headers, "accept-encoding"@)->0;
            let sent = compressed(req, resp, opts);
            &&& accepted_by(accept, "gzip"@) && gzip_of(data) == Some(out) ==> sent.body
                == BodyModel::Bytes(out) && lookup(sent.headers, "content-encoding"@) == Some("gzip"@)
            &&& !accepted_by(accept, "gzip"@) && accepted_by(accept, "deflate"@) && zlib_of(data)
                == Some(out) ==> sent.body == BodyModel::Bytes(out) && lookup(
                sent.headers,
                "content-encoding"@,
            ) == Some("deflate"@)
            &&& !eq_nocase("Vary"@, other) && !eq_nocase("Content-Encoding"@, other) ==> lookup(
                sent.headers,
                other,
            ) == lookup(resp.headers, other)
        }),
{
    reveal_strlit("Vary");
    reveal_strlit("Content-Encoding");
    reveal_strlit("content-encoding");
    let ce = "content-encoding"@;
    assert(lower("Content-Encoding"@) =~= lower(ce));
    assert(lower("Vary"@).len() != lower(ce).len());
    lemma_coding_set(resp.headers, "gzip"@);
    lemma_coding_set(resp.headers, "deflate"@);
    lemma_vary_keeps(resp.headers, other);
    lemma_vary_keeps(with_field(resp.headers, "Content-Encoding"@, "gzip"@), other);
    lemma_vary_keeps(with_field(resp.headers, "Content-Encoding"@, "deflate"@), other);
    lemma_vary_keeps(with_field(resp.headers, "Content-Encoding"@, "gzip"@), ce);
    lemma_vary_keeps(with_field(resp.headers, "Content-Encoding"@, "deflate"@), ce);
    if !eq_nocase("Content-Encoding"@, other) {
        law_set_keeps_others(resp.headers, "Content-Encoding"@, "gzip"@, other);
        law_set_keeps_others(resp.headers, "Content-Encoding"@, "deflate"@, other);
    }
}

proof fn lemma_coding_set(f: Fields, coding: Seq<char>)
    requires
        eq_nocase("Content-Encoding"@, "content-encoding"@),
    ensures
        lookup(with_field(f, "Content-Encoding"@, coding), "content-encoding"@) == Some(coding),
{
    let g = with_field(f, "Content-Encoding"@, coding);
    law_get_after_set(f, "Content-Encoding"@, coding);
    law_lookup_ignores_case(g, "Content-Encoding"@, "content-encoding"@);
}

proof fn lemma_vary_keeps(f: Fields, other: Seq<char>)
    ensures
        !eq_nocase("Vary"@, other) ==> lookup(varying(f, "Accept-Encoding"@), other) == lookup(f, other),
{
    if !eq_nocase("Vary"@, other) {
        law_set_keeps_others(
            f,
            "Vary"@,
            listed(values(f, "vary"@).push("Accept-Encoding"@)),
            other,
        );
    }
}

/// What is not compressed is sent as it is, but for `Vary`.
pub proof fn law_otherwise_the_body_stays(req: RequestModel, resp: ResponseModel, opts: Options)
    ensures
        compressed(req, resp, opts).body == resp.body || (resp.body matches BodyModel::Bytes(data)
            && compressed(req, resp, opts).body matches BodyModel::Bytes(out) && out.len()
            < data.len() && (gzip_of(data) == Some(out) || zlib_of(data) == Some(out))),
        lookup(resp.headers, "content-encoding"@) is Some ==> compressed(req, resp, opts) == resp,
        resp.body matches BodyModel::Bytes(data) && data.len() < opts.min_size ==> compressed(
            req,
            resp,
            opts,
        ) == resp,
{
}

} // verus!
