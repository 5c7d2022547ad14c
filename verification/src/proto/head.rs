//! The head of an HTTP/1.x request: request line, header fields, and what they
//! say about the body and the connection.
use crate::bytes::copy_of;
use crate::error::{Error, ErrorModel, Result};
use crate::proto::headers::{
    has_token, law_list_elements, law_lookup_is_the_first_value, list_has, lookup, values, Fields,
    Headers,
};
use crate::proto::method::{Method, MethodModel};
use crate::proto::version::Version;
use crate::text::{
    all_white, chars_digits, chars_of, chars_split, chars_split_once, chars_trim, concat, decimal,
    digit_val, eq_nocase, law_digits, law_trim, lemma_numeral, parse_digits, split, split_once,
    string_from_utf8, text_of, tight, trim, views,
};
use vstd::prelude::*;
use vstd::slice::slice_subrange;
use vstd::utf8::{decode_utf8, valid_utf8};

verus! {

broadcast use vstd::seq::group_seq_axioms;

/// Maximum number of header fields accepted in a single request.
pub const MAX_HEADER_FIELDS: usize = 100;

// ---------------------------------------------------------------------------
// Tokens and field values
// ---------------------------------------------------------------------------

/// Whether `c` may stand in a token.
pub open spec fn tchar(c: char) -> bool {
    ||| '0' <= c && c <= '9'
    ||| 'a' <= c && c <= 'z'
    ||| 'A' <= c && c <= 'Z'
    ||| c == '!' || c == '#' || c == '$' || c == '%' || c == '&' || c == '\'' || c == '*'
    ||| c == '+' || c == '-' || c == '.' || c == '^' || c == '_' || c == '`' || c == '|' || c == '~'
}

/// Whether `s` is a non-empty run of token characters.
pub open spec fn token(s: Seq<char>) -> bool {
    s.len() > 0 && forall|i: int| 0 <= i < s.len() ==> tchar(#[trigger] s[i])
}

/// Whether `c` may stand in a field value: no control characters other than
/// the horizontal tab.
pub open spec fn value_char(c: char) -> bool {
    (c as u32 >= 0x20 && c as u32 != 0x7f) || c as u32 == 9
}

/// Whether `s` is a valid field value.
pub open spec fn field_value(s: Seq<char>) -> bool {
    forall|i: int| 0 <= i < s.len() ==> value_char(#[trigger] s[i])
}

/// Whether `c` is a valid character in a `token`.
pub fn is_tchar(c: char) -> (r: bool)
    ensures
        r == tchar(c),
{
    ('0' <= c && c <= '9') || ('a' <= c && c <= 'z') || ('A' <= c && c <= 'Z') || c == '!' || c
        == '#' || c == '$' || c == '%' || c == '&' || c == '\'' || c == '*' || c == '+' || c == '-'
        || c == '.' || c == '^' || c == '_' || c == '`' || c == '|' || c == '~'
}

/// Whether `s` is a non-empty token (used for field names).
pub fn is_token(s: &[char]) -> (r: bool)
    ensures
        r == token(s@),
{
    if s.len() == 0 {
        return false;
    }
    let mut i: usize = 0;
    while i < s.len()
        invariant
            i <= s@.len(),
            forall|j: int| 0 <= j < i ==> tchar(#[trigger] s@[j]),
        decreases s@.len() - i,
    {
        if !is_tchar(s[i]) {
            return false;
        }
        i += 1;
    }
    true
}

/// Whether `s` is a valid field value.
pub fn is_valid_field_value(s: &[char]) -> (r: bool)
    ensures
        r == field_value(s@),
{
    let mut i: usize = 0;
    while i < s.len()
        invariant
            i <= s@.len(),
            forall|j: int| 0 <= j < i ==> value_char(#[trigger] s@[j]),
        decreases s@.len() - i,
    {
        let u: u32 = s[i] as u32;
        if !((u >= 0x20 && u != 0x7f) || u == 9) {
            return false;
        }
        i += 1;
    }
    true
}

// ---------------------------------------------------------------------------
// Lines
// ---------------------------------------------------------------------------

/// The first complaint about a CR without LF or an LF without CR, from `i` on.
pub open spec fn stray_break(head: Seq<u8>, i: int) -> Option<Seq<char>>
    decreases head.len() - i,
{
    if i < 0 || i >= head.len() {
        None
    } else if head[i] == 13 && (i + 1 >= head.len() || head[i + 1] != 10) {
        Some("bare CR in header block"@)
    } else if head[i] == 10 && (i == 0 || head[i - 1] != 13) {
        Some("bare LF in header block"@)
    } else {
        stray_break(head, i + 1)
    }
}

/// Index of the first CRLF in a text.
pub open spec fn find_break(s: Seq<char>) -> Option<int>
    decreases s.len(),
{
    if s.len() < 2 {
        None
    } else if s[0] == '\r' && s[1] == '\n' {
        Some(0)
    } else {
        match find_break(s.skip(1)) {
            Some(i) => Some(i + 1),
            None => None,
        }
    }
}

/// A CRLF that is found lies inside the text.
pub proof fn lemma_find_break(s: Seq<char>)
    ensures
        find_break(s) matches Some(i) ==> 0 <= i && i + 2 <= s.len(),
    decreases s.len(),
{
    if s.len() >= 2 {
        lemma_find_break(s.skip(1));
    }
}

/// The lines of a text, separated by CRLF.
pub open spec fn lines(s: Seq<char>) -> Seq<Seq<char>>
    decreases s.len(),
{
    proof {
        lemma_find_break(s);
    }
    match find_break(s) {
        Some(i) => seq![s.take(i)] + lines(s.skip(i + 2)),
        None => seq![s],
    }
}

fn next_break(s: &[char]) -> (r: Option<usize>)
    ensures
        match (r, find_break(s@)) {
            (Some(a), Some(b)) => a == b && a + 2 <= s@.len(),
            (None, None) => true,
            _ => false,
        },
{
    let n: usize = s.len();
    let mut i: usize = 0;
    proof {
        assert(s@.skip(0) =~= s@);
    }
    while n - i >= 2
        invariant
            i <= n,
            n == s@.len(),
            find_break(s@) == match find_break(s@.skip(i as int)) {
                Some(j) => Some(j + i),
                None => None,
            },
        decreases n - i,
    {
        if s[i] == '\r' && s[i + 1] == '\n' {
            return Some(i);
        }
        proof {
            assert(s@.skip(i as int).skip(1) =~= s@.skip(i as int + 1));
        }
        i += 1;
    }
    None
}

fn split_lines<'a>(s: &'a [char]) -> (r: Vec<&'a [char]>)
    ensures
        views(r@) == lines(s@),
        r@.len() >= 1,
{
    let mut out: Vec<&'a [char]> = Vec::new();
    let mut rest: &'a [char] = s;
    proof {
        assert(views(out@) + lines(rest@) =~= lines(s@));
    }
    loop
        invariant
            views(out@) + lines(rest@) == lines(s@),
        decreases rest@.len(),
    {
        let ghost before = out@;
        let n: usize = rest.len();
        match next_break(rest) {
            Some(i) => {
                let line = slice_subrange(rest, 0, i);
                let next = slice_subrange(rest, i + 2, n);
                out.push(line);
                proof {
                    assert(line@ =~= rest@.take(i as int));
                    assert(next@ =~= rest@.skip(i as int + 2));
                    assert(views(out@) =~= views(before).push(line@));
                    assert(views(before) + (seq![line@] + lines(next@)) =~= views(out@) + lines(
                        next@,
                    ));
                }
                rest = next;
            },
            None => {
                out.push(rest);
                proof {
                    assert(views(out@) =~= views(before) + seq![rest@]);
                }
                return out;
            },
        }
    }
}

// ---------------------------------------------------------------------------
// The request head
// ---------------------------------------------------------------------------

/// The head of a request. The version is absent where the token is not one of
/// the HTTP/1.x versions.
pub struct Head {
    pub method: Method,
    pub target: String,
    pub version: Option<Version>,
    pub headers: Headers,
}

/// The model of a request head.
#[verifier::ext_equal]
pub struct HeadModel {
    pub method: MethodModel,
    pub target: Seq<char>,
    pub version: Option<Version>,
    pub headers: Fields,
}

impl View for Head {
    type V = HeadModel;

    open spec fn view(&self) -> HeadModel {
        HeadModel {
            method: self.method@,
            target: self.target@,
            version: self.version,
            headers: self.headers@,
        }
    }
}

/// The field that a header line holds, or what is wrong with it.
pub open spec fn line_field(line: Seq<char>) -> core::result::Result<
    (Seq<char>, Seq<char>),
    Seq<char>,
> {
    match split_once(line, ':') {
        None => Err("header without colon"@),
        Some((name, value)) => if !token(name) {
            Err("invalid header name"@)
        } else if !field_value(trim(value)) {
            Err("invalid header value"@)
        } else {
            Ok((name, trim(value)))
        },
    }
}

/// The fields `acc` followed by those of the header lines, or what is wrong.
pub open spec fn fields_of(ls: Seq<Seq<char>>, acc: Fields) -> core::result::Result<
    Fields,
    Seq<char>,
>
    decreases ls.len(),
{
    if ls.len() == 0 {
        Ok(acc)
    } else {
        let line = ls[0];
        if line.len() == 0 {
            fields_of(ls.skip(1), acc)
        } else if line[0] == ' ' || line[0] == '\t' {
            Err("obsolete header folding"@)
        } else if acc.len() >= MAX_HEADER_FIELDS {
            Err("too many header fields"@)
        } else {
            match line_field(line) {
                Err(e) => Err(e),
                Ok(f) => fields_of(ls.skip(1), acc.push(f)),
            }
        }
    }
}

/// The head that a header block spells (the bytes before the terminating
/// CRLFCRLF), or what is wrong with it.
pub open spec fn head_of(head: Seq<u8>) -> core::result::Result<HeadModel, Seq<char>> {
    match stray_break(head, 0) {
        Some(e) => Err(e),
        None => if !valid_utf8(head) {
            Err("non-UTF-8 header"@)
        } else {
            let ls = lines(decode_utf8(head));
            let parts = split(ls[0], ' ');
            if parts.len() < 2 {
                Err("no target"@)
            } else if parts.len() < 3 {
                Err("no version"@)
            } else if parts.len() > 3 {
                Err("trailing request-line tokens"@)
            } else if parts[0].len() == 0 || parts[1].len() == 0 {
                Err("empty request-line token"@)
            } else {
                match fields_of(ls.skip(1), Seq::empty()) {
                    Err(e) => Err(e),
                    Ok(headers) => Ok(
                        HeadModel {
                            method: MethodModel::of_token(parts[0]),
                            target: parts[1],
                            version: Version::of_token(parts[2]),
                            headers,
                        },
                    ),
                }
            }
        },
    }
}

/// What a parse result says, as a model.
pub open spec fn head_result(r: Result<Head>) -> core::result::Result<HeadModel, ErrorModel> {
    match r {
        Ok(h) => Ok(h@),
        Err(e) => Err(e@),
    }
}

fn check_breaks(head: &[u8]) -> (r: Option<&'static str>)
    ensures
        match (r, stray_break(head@, 0)) {
            (Some(a), Some(b)) => a@ == b,
            (None, None) => true,
            _ => false,
        },
{
    let n: usize = head.len();
    let mut i: usize = 0;
    while i < n
        invariant
            i <= n,
            n == head@.len(),
            stray_break(head@, i as int) == stray_break(head@, 0),
        decreases n - i,
    {
        let b: u8 = head[i];
        if b == 13 && (n - i <= 1 || head[i + 1] != 10) {
            return Some("bare CR in header block");
        }
        if b == 10 && (i == 0 || head[i - 1] != 13) {
            return Some("bare LF in header block");
        }
        i += 1;
    }
    None
}

fn parse_line_field(line: &[char]) -> (r: core::result::Result<(String, String), &'static str>)
    ensures
        match (r, line_field(line@)) {
            (Ok((n, v)), Ok((a, b))) => n@ == a && v@ == b,
            (Err(e), Err(x)) => e@ == x,
            _ => false,
        },
{
    match chars_split_once(line, ':') {
        None => Err("header without colon"),
        Some((name, value)) => {
            // Validated on the untrimmed name: whitespace between the name and
            // the colon is illegal.
            if !is_token(name) {
                return Err("invalid header name");
            }
            let value = chars_trim(value);
            if !is_valid_field_value(value) {
                return Err("invalid header value");
            }
            Ok((text_of(name), text_of(value)))
        },
    }
}

/// Parse the request line and header fields from the header block (the bytes
/// before the terminating CRLFCRLF).
pub fn parse_head(head: &[u8]) -> (r: Result<Head>)
    ensures
        head_result(r) == match head_of(head@) {
            Ok(h) => Ok(h),
            Err(e) => Err(ErrorModel::BadRequest(e)),
        },
{
    if let Some(e) = check_breaks(head) {
        return Err(Error::BadRequest(e));
    }
    let text: String = match string_from_utf8(copy_of(head)) {
        None => {
            return Err(Error::BadRequest("non-UTF-8 header"));
        },
        Some(t) => t,
    };
    let chars = chars_of(text.as_str());
    let ls = split_lines(&chars);
    let ghost gl = lines(decode_utf8(head@));
    proof {
        assert(gl[0] == ls@[0]@);
    }
    let parts = chars_split(ls[0], ' ');
    let ghost gp = split(gl[0], ' ');
    proof {
        assert(gp.len() == parts@.len());
        assert(forall|i: int| 0 <= i < gp.len() ==> gp[i] == (#[trigger] parts@[i])@);
    }
    if parts.len() < 2 {
        return Err(Error::BadRequest("no target"));
    }
    if parts.len() < 3 {
        return Err(Error::BadRequest("no version"));
    }
    if parts.len() > 3 {
        return Err(Error::BadRequest("trailing request-line tokens"));
    }
    if parts[0].len() == 0 || parts[1].len() == 0 {
        return Err(Error::BadRequest("empty request-line token"));
    }
    let method = Method::parse(text_of(parts[0]).as_str());
    let version = Version::parse(text_of(parts[2]).as_str());
    let mut headers = Headers::new();
    let mut i: usize = 1;
    while i < ls.len()
        invariant
            1 <= i <= ls@.len(),
            views(ls@) == gl,
            fields_of(gl.skip(i as int), headers@) == fields_of(gl.skip(1), Seq::empty()),
            gl == lines(decode_utf8(head@)),
            gp == split(gl[0], ' '),
            stray_break(head@, 0) is None,
            valid_utf8(head@),
            gp.len() == 3,
            gp[0].len() != 0,
            gp[1].len() != 0,
        decreases ls@.len() - i,
    {
        let line = ls[i];
        let ghost rest = gl.skip(i as int);
        proof {
            assert(rest[0] == gl[i as int]);
            assert(gl[i as int] == line@);
            assert(rest.skip(1) =~= gl.skip(i as int + 1));
        }
        if line.len() > 0 {
            if line[0] == ' ' || line[0] == '\t' {
                return Err(Error::BadRequest("obsolete header folding"));
            }
            if headers.len() >= MAX_HEADER_FIELDS {
                return Err(Error::BadRequest("too many header fields"));
            }
            match parse_line_field(line) {
                Err(e) => {
                    return Err(Error::BadRequest(e));
                },
                Ok((name, value)) => {
                    headers.append(name, value);
                },
            }
        }
        i += 1;
    }
    proof {
        assert(gl.skip(gl.len() as int) =~= Seq::empty());
    }
    Ok(Head { method, target: text_of(parts[1]), version, headers })
}

// ---------------------------------------------------------------------------
// Body framing
// ---------------------------------------------------------------------------

/// How a request body is delimited.
#[derive(Debug, Clone, Copy, PartialEq, Eq, Structural)]
pub enum BodyFraming {
    /// There is no body.
    Empty,
    /// The body is this many bytes long (never zero).
    Length(usize),
    /// The body is in the chunked coding.
    Chunked,
}

/// The length that all `Content-Length` values agree on: `None` where a value
/// is no number or two differ, `Some(None)` where there is no value.
pub open spec fn agreed_length(vals: Seq<Seq<char>>) -> Option<Option<nat>>
    decreases vals.len(),
{
    if vals.len() == 0 {
        Some(None)
    } else {
        match (agreed_length(vals.drop_last()), parse_digits(trim(vals.last()), 10, usize::MAX as nat)) {
            (Some(None), Some(n)) => Some(Some(n)),
            (Some(Some(p)), Some(n)) => if p == n {
                Some(Some(n))
            } else {
                None
            },
            _ => None,
        }
    }
}

/// The body framing that header fields call for, if it is an acceptable one:
/// both a transfer coding and a length is not, nor is a transfer coding other
/// than chunked.
pub open spec fn framing_of(f: Fields) -> Option<BodyFraming> {
    let has_te = lookup(f, "transfer-encoding"@) is Some;
    let has_cl = lookup(f, "content-length"@) is Some;
    if has_te && has_cl {
        None
    } else if has_token(f, "transfer-encoding"@, "chunked"@) {
        Some(BodyFraming::Chunked)
    } else if has_te {
        None
    } else {
        match agreed_length(values(f, "content-length"@)) {
            None => None,
            Some(None) => Some(BodyFraming::Empty),
            Some(Some(n)) => if n == 0 {
                Some(BodyFraming::Empty)
            } else {
                Some(BodyFraming::Length(n as usize))
            },
        }
    }
}

/// Decide body framing from headers, rejecting the ambiguous combination of
/// both `Transfer-Encoding` and `Content-Length`.
pub fn body_framing(headers: &Headers) -> (r: core::result::Result<BodyFraming, ()>)
    ensures
        r == match framing_of(headers@) {
            Some(f) => Ok::<BodyFraming, ()>(f),
            None => Err(()),
        },
{
    let chunked = headers.contains_token("transfer-encoding", "chunked");
    let has_te = headers.contains("transfer-encoding");
    let has_cl = headers.contains("content-length");
    if has_te && has_cl {
        return Err(());
    }
    if chunked {
        return Ok(BodyFraming::Chunked);
    }
    if has_te {
        return Err(());
    }
    let vals = headers.get_all("content-length");
    let ghost gv = values(headers@, "content-length"@);
    let mut len: Option<usize> = None;
    let mut i: usize = 0;
    proof {
        assert(gv.take(0) =~= Seq::empty());
    }
    while i < vals.len()
        invariant
            i <= vals@.len(),
            vals@.map_values(|s: &str| s@) == gv,
            agreed_length(gv.take(i as int)) == Some(
                match len {
                    Some(n) => Some(n as nat),
                    None => None,
                },
            ),
            gv == values(headers@, "content-length"@),
            lookup(headers@, "transfer-encoding"@) is None,
            !has_token(headers@, "transfer-encoding"@, "chunked"@),
        decreases vals@.len() - i,
    {
        proof {
            assert(gv[i as int] == vals@[i as int]@);
            assert(gv.take(i as int + 1).drop_last() =~= gv.take(i as int));
            assert(gv.take(i as int + 1).last() == gv[i as int]);
        }
        let c = chars_of(vals[i]);
        match chars_digits(chars_trim(&c), 10, usize::MAX as u64) {
            None => {
                proof {
                    lemma_disagreement_stays(gv, i as int + 1);
                }
                return Err(());
            },
            Some(n) => {
                match len {
                    Some(prev) => {
                        if prev as u64 != n {
                            proof {
                                lemma_disagreement_stays(gv, i as int + 1);
                            }
                            return Err(());
                        }
                    },
                    None => {
                        len = Some(n as usize);
                    },
                }
            },
        }
        i += 1;
    }
    proof {
        assert(gv.take(gv.len() as int) =~= gv);
    }
    match len {
        None => Ok(BodyFraming::Empty),
        Some(n) => if n == 0 {
            Ok(BodyFraming::Empty)
        } else {
            Ok(BodyFraming::Length(n))
        },
    }
}

proof fn lemma_disagreement_stays(vals: Seq<Seq<char>>, i: int)
    requires
        0 <= i <= vals.len(),
        agreed_length(vals.take(i)) is None,
    ensures
        agreed_length(vals) is None,
    decreases vals.len() - i,
{
    if i == vals.len() {
        assert(vals.take(i) =~= vals);
    } else {
        assert(vals.take(i + 1).drop_last() =~= vals.take(i));
        lemma_disagreement_stays(vals, i + 1);
    }
}

/// Whether the connection persists after the exchange.
pub open spec fn keeps_alive(version: Version, f: Fields) -> bool {
    if has_token(f, "connection"@, "close"@) {
        false
    } else if has_token(f, "connection"@, "keep-alive"@) {
        true
    } else {
        version == Version::Http11
    }
}

/// Negotiate connection persistence.
pub fn negotiate_keep_alive(version: Version, headers: &Headers) -> (r: bool)
    ensures
        r == keeps_alive(version, headers@),
{
    if headers.contains_token("connection", "close") {
        return false;
    }
    if headers.contains_token("connection", "keep-alive") {
        return true;
    }
    version.default_keep_alive()
}

// ---------------------------------------------------------------------------
// Laws
// ---------------------------------------------------------------------------

/// No accepted request carries both a transfer coding and a length, so its end
/// is never ambiguous.
pub proof fn law_framing_is_unambiguous(f: Fields)
    requires
        framing_of(f) is Some,
    ensures
        !(lookup(f, "transfer-encoding"@) is Some && lookup(f, "content-length"@) is Some),
{
}

/// Every field of an accepted head has a token for a name and a value without
/// control characters, and there are at most the permitted number of fields.
pub proof fn law_accepted_fields_are_clean(head: Seq<u8>)
    requires
        head_of(head) is Ok,
    ensures
        ({
            let f = head_of(head)->Ok_0.headers;
            &&& f.len() <= MAX_HEADER_FIELDS
            &&& forall|i: int|
                0 <= i < f.len() ==> token((#[trigger] f[i]).0) && field_value(f[i].1)
        }),
{
    lemma_fields_clean(lines(decode_utf8(head)).skip(1), Seq::empty());
}

proof fn lemma_fields_clean(ls: Seq<Seq<char>>, acc: Fields)
    requires
        fields_of(ls, acc) is Ok,
        acc.len() <= MAX_HEADER_FIELDS,
        forall|i: int| 0 <= i < acc.len() ==> token((#[trigger] acc[i]).0) && field_value(acc[i].1),
    ensures
        ({
            let f = fields_of(ls, acc)->Ok_0;
            &&& f.len() <= MAX_HEADER_FIELDS
            &&& forall|i: int|
                0 <= i < f.len() ==> token((#[trigger] f[i]).0) && field_value(f[i].1)
        }),
    decreases ls.len(),
{
    if ls.len() > 0 {
        if ls[0].len() == 0 {
            lemma_fields_clean(ls.skip(1), acc);
        } else {
            let f = line_field(ls[0])->Ok_0;
            lemma_fields_clean(ls.skip(1), acc.push(f));
        }
    }
}

/// A length is a decimal number: a request whose one length is the numeral of `n`,
/// blanks around it or not, has a body of `n` bytes, or none if `n` is zero.
pub proof fn law_length_is_decimal(f: Fields, n: nat, a: Seq<char>, b: Seq<char>)
    requires
        all_white(a),
        all_white(b),
        values(f, "content-length"@) == seq![a + decimal(n) + b],
        lookup(f, "transfer-encoding"@) is None,
    ensures
        0 < n <= usize::MAX ==> framing_of(f) == Some(BodyFraming::Length(n as usize)),
        n == 0 ==> framing_of(f) == Some(BodyFraming::Empty),
        n > usize::MAX ==> framing_of(f) is None,
{
    let v = a + decimal(n) + b;
    lemma_numeral(n, 10);
    let d = decimal(n);
    assert(tight(d)) by {
        assert(digit_val(d[0], 10) is Some);
        assert(digit_val(d[d.len() - 1], 10) is Some);
    }
    law_trim(a, d, b);
    lemma_no_coding(f);
    reveal_with_fuel(agreed_length, 2);
    assert(seq![v].drop_last() =~= Seq::empty());
}

proof fn lemma_no_coding(f: Fields)
    requires
        lookup(f, "transfer-encoding"@) is None,
    ensures
        !has_token(f, "transfer-encoding"@, "chunked"@),
{
    law_lookup_is_the_first_value(f, "transfer-encoding"@);
}

/// A length that has anything but decimal digits in it is refused, and so is an
/// empty one.
pub proof fn law_bad_length_is_refused(f: Fields, i: int)
    requires
        0 <= i < values(f, "content-length"@).len(),
        ({
            let v = trim(values(f, "content-length"@)[i]);
            v.len() == 0 || exists|k: int| 0 <= k < v.len() && !"0123456789"@.contains(#[trigger] v[k])
        }),
    ensures
        framing_of(f) is None,
{
    let vals = values(f, "content-length"@);
    let v = trim(vals[i]);
    law_lookup_is_the_first_value(f, "content-length"@);
    if v.len() > 0 {
        let k = choose|k: int| 0 <= k < v.len() && !"0123456789"@.contains(#[trigger] v[k]);
        law_digits(v[k], 0);
        assert(digit_val(v[k], 10) is None);
    }
    assert(parse_digits(v, 10, usize::MAX as nat) is None);
    assert(vals.take(i + 1).last() == vals[i]);
    assert(agreed_length(vals.take(i + 1)) is None);
    lemma_disagreement_stays(vals, i + 1);
    if lookup(f, "transfer-encoding"@) is None {
        lemma_no_coding(f);
    }
}

/// Two lengths that differ are refused.
pub proof fn law_different_lengths_are_refused(f: Fields, i: int, j: int, m: nat, n: nat)
    requires
        0 <= i < j < values(f, "content-length"@).len(),
        values(f, "content-length"@)[i] == decimal(m),
        values(f, "content-length"@)[j] == decimal(n),
        m != n,
    ensures
        framing_of(f) is None,
{
    let vals = values(f, "content-length"@);
    law_lookup_is_the_first_value(f, "content-length"@);
    lemma_numeral(m, 10);
    lemma_numeral(n, 10);
    lemma_numeral_is_trimmed(m);
    lemma_numeral_is_trimmed(n);
    assert(vals.take(i + 1).last() == decimal(m));
    assert(vals.take(j + 1).last() == decimal(n));
    if agreed_length(vals) is Some {
        lemma_agreement(vals, i);
        lemma_agreement(vals, j);
    }
    if lookup(f, "transfer-encoding"@) is None {
        lemma_no_coding(f);
    }
}

proof fn lemma_numeral_is_trimmed(n: nat)
    ensures
        trim(decimal(n)) == decimal(n),
{
    lemma_numeral(n, 10);
    let d = decimal(n);
    assert(digit_val(d[0], 10) is Some);
    assert(digit_val(d[d.len() - 1], 10) is Some);
    let e = Seq::<char>::empty();
    law_trim(e, d, e);
    assert(e + d + e =~= d);
}

/// Lengths that agree are all the agreed one.
proof fn lemma_agreement(vals: Seq<Seq<char>>, i: int)
    requires
        0 <= i < vals.len(),
        agreed_length(vals) is Some,
    ensures
        agreed_length(vals)->0 is Some,
        parse_digits(trim(vals[i]), 10, usize::MAX as nat) == agreed_length(vals)->0,
    decreases vals.len(),
{
    if i < vals.len() - 1 {
        assert(vals.drop_last()[i] == vals[i]);
        lemma_agreement(vals.drop_last(), i);
    }
}

/// A request that says nothing of a body has none.
pub proof fn law_no_framing_no_body(f: Fields)
    requires
        lookup(f, "transfer-encoding"@) is None,
        lookup(f, "content-length"@) is None,
    ensures
        framing_of(f) == Some(BodyFraming::Empty),
{
    lemma_no_coding(f);
    law_lookup_is_the_first_value(f, "content-length"@);
    assert(values(f, "content-length"@) =~= Seq::empty());
}

/// A transfer coding other than `chunked` is refused; with `chunked` among the
/// codings, in whatever case, the body comes in chunks.
pub proof fn law_transfer_coding(f: Fields, codings: Seq<Seq<char>>)
    requires
        codings.len() > 0,
        forall|i: int| 0 <= i < codings.len() ==> !(#[trigger] codings[i]).contains(','),
        values(f, "transfer-encoding"@) == seq![concat(codings, seq![','])],
        lookup(f, "content-length"@) is None,
    ensures
        ({
            let chunked = exists|i: int|
                0 <= i < codings.len() && eq_nocase(trim(#[trigger] codings[i]), "chunked"@);
            framing_of(f) == if chunked {
                Some(BodyFraming::Chunked)
            } else {
                None
            }
        }),
{
    lemma_one_list(f, "transfer-encoding"@, codings, "chunked"@);
    law_lookup_is_the_first_value(f, "transfer-encoding"@);
}

/// A field whose one value is a list has the elements of that list.
pub proof fn lemma_one_list(f: Fields, name: Seq<char>, parts: Seq<Seq<char>>, token: Seq<char>)
    requires
        parts.len() > 0,
        forall|i: int| 0 <= i < parts.len() ==> !(#[trigger] parts[i]).contains(','),
        values(f, name) == seq![concat(parts, seq![','])],
    ensures
        has_token(f, name, token) <==> exists|i: int|
            0 <= i < parts.len() && eq_nocase(trim(#[trigger] parts[i]), token),
{
    law_list_elements(parts, token);
    let v = values(f, name);
    if list_has(v[0], token) {
        assert(has_token(f, name, token));
    }
}

/// `Connection: close` closes the connection in any version, `keep-alive` keeps it
/// unless `close` is there too, and otherwise HTTP/1.1 keeps it and HTTP/1.0 does
/// not.
pub proof fn law_keep_alive(version: Version, f: Fields, options: Seq<Seq<char>>)
    requires
        options.len() > 0,
        forall|i: int| 0 <= i < options.len() ==> !(#[trigger] options[i]).contains(','),
        values(f, "connection"@) == seq![concat(options, seq![','])],
    ensures
        ({
            let close = exists|i: int|
                0 <= i < options.len() && eq_nocase(trim(#[trigger] options[i]), "close"@);
            let keep = exists|i: int|
                0 <= i < options.len() && eq_nocase(trim(#[trigger] options[i]), "keep-alive"@);
            &&& close ==> !keeps_alive(version, f)
            &&& !close && keep ==> keeps_alive(version, f)
            &&& !close && !keep ==> (keeps_alive(version, f) <==> version == Version::Http11)
        }),
{
    lemma_one_list(f, "connection"@, options, "close"@);
    lemma_one_list(f, "connection"@, options, "keep-alive"@);
}

/// Without a `Connection` field HTTP/1.1 keeps the connection and HTTP/1.0 does
/// not.
pub proof fn law_keep_alive_by_default(f: Fields)
    requires
        lookup(f, "connection"@) is None,
    ensures
        keeps_alive(Version::Http11, f),
        !keeps_alive(Version::Http10, f),
{
    law_lookup_is_the_first_value(f, "connection"@);
}

/// Field names are letters, digits and the marks that a token may have; blanks,
/// separators and control characters may not stand in one.
pub proof fn law_token_chars(c: char)
    ensures
        tchar(c) <==> "!#$%&'*+-.^_`|~0123456789abcdefghijklmnopqrstuvwxyzABCDEFGHIJKLMNOPQRSTUVWXYZ"@.contains(
            c,
        ),
{
    reveal_strlit(
        "!#$%&'*+-.^_`|~0123456789abcdefghijklmnopqrstuvwxyzABCDEFGHIJKLMNOPQRSTUVWXYZ",
    );
    let s = "!#$%&'*+-.^_`|~0123456789abcdefghijklmnopqrstuvwxyzABCDEFGHIJKLMNOPQRSTUVWXYZ"@;
    if '0' <= c && c <= '9' {
        assert(s[c as int - '0' as int + 15] == c);
    } else if 'a' <= c && c <= 'z' {
        assert(s[c as int - 'a' as int + 25] == c);
    } else if 'A' <= c && c <= 'Z' {
        assert(s[c as int - 'A' as int + 51] == c);
    } else if tchar(c) {
        assert(s[0] == c || s[1] == c || s[2] == c || s[3] == c || s[4] == c || s[5] == c || s[6]
            == c || s[7] == c || s[8] == c || s[9] == c || s[10] == c || s[11] == c || s[12] == c
            || s[13] == c || s[14] == c);
    }
}

/// What a request line or a header must not carry is refused in a value: line
/// breaks and NUL; what can be seen, blanks and tabs are let through.
pub proof fn law_value_chars(c: char)
    ensures
        c == '\r' || c == '\n' || c == '\0' ==> !value_char(c),
        ' ' <= c && c <= '~' ==> value_char(c),
        c == '\t' ==> value_char(c),
        c as u32 >= 0x80 ==> value_char(c),
{
}

} // verus!
