//! Interop with the [`http`](https://docs.rs/http) crate.
//!
//! The library has its own `Request` / `Response` / `Method` / `StatusCode` /
//! `Headers`. To bridge to the wider ecosystem (tower/hyper-style middleware,
//! libraries that speak `http` types), use the conversions here.
//!
//! Infallible directions are [`From`], fallible ones are [`TryFrom`] with
//! [`HttpConvertError`]. The fallible direction is towards `http` (a
//! [`Method::Other`] token, header name, or target might not be valid `http`
//! data); the reverse is infallible (header values that are not UTF-8 are decoded
//! lossily).
use crate::bytes::{copy_of, opt_bytes};
use crate::proto::head::{token, value_char};
use crate::proto::headers::{values, Fields, Headers};
use crate::proto::method::{Method, MethodModel};
use crate::proto::request::{Request, RequestModel};
use crate::proto::response::{Body, BodyModel, Response, ResponseModel};
use crate::proto::status::StatusCode;
use crate::proto::version::Version;
use crate::router::IntoResponse;
use crate::text::{lossy, lower, owned, string_from_utf8_lossy};
use http::header::{HeaderMap, HeaderName, HeaderValue, InvalidHeaderName, InvalidHeaderValue};
use http::method::{InvalidMethod, Method as HttpMethod};
use http::request::Request as HttpRequest;
use http::response::Response as HttpResponse;
use http::status::{InvalidStatusCode, StatusCode as HttpStatus};
use http::uri::{InvalidUri, Uri};
use http::version::Version as HttpVersion;
use vstd::prelude::*;
use vstd::std_specs::convert::{FromSpecImpl, TryFromSpecImpl};
use vstd::utf8::encode_utf8;

verus! {

broadcast use vstd::seq::group_seq_axioms;

// ---------------------------------------------------------------------------
// Errors
// ---------------------------------------------------------------------------

/// A method token that `http` refuses.
#[verifier::external_type_specification]
#[verifier::external_body]
pub struct ExInvalidMethod(http::method::InvalidMethod);

/// A status code that `http` refuses.
#[verifier::external_type_specification]
#[verifier::external_body]
pub struct ExInvalidStatusCode(http::status::InvalidStatusCode);

/// A header name that `http` refuses.
#[verifier::external_type_specification]
#[verifier::external_body]
pub struct ExInvalidHeaderName(http::header::InvalidHeaderName);

/// A header value that `http` refuses.
#[verifier::external_type_specification]
#[verifier::external_body]
pub struct ExInvalidHeaderValue(http::header::InvalidHeaderValue);

/// A target that `http` refuses.
#[verifier::external_type_specification]
#[verifier::external_body]
pub struct ExInvalidUri(http::uri::InvalidUri);

/// Error converting a value into the corresponding [`http`] type.
///
/// Only produced towards `http`, where a method token, target, or header field
/// that is accepted here may not be valid per the stricter `http` types.
#[derive(Debug)]
pub enum HttpConvertError {
    /// The method token is not a valid `http::Method`.
    Method(InvalidMethod),
    /// The status code is outside the valid range for `http::StatusCode`.
    Status(InvalidStatusCode),
    /// A header name is not a valid `http::HeaderName`.
    HeaderName(InvalidHeaderName),
    /// A header value is not a valid `http::HeaderValue`.
    HeaderValue(InvalidHeaderValue),
    /// The request target is not a valid `http::Uri`.
    Uri(InvalidUri),
    /// There are more header fields than an `http::HeaderMap` holds.
    Size,
}

impl From<InvalidMethod> for HttpConvertError {
    fn from(e: InvalidMethod) -> (r: HttpConvertError) {
        HttpConvertError::Method(e)
    }
}

impl FromSpecImpl<InvalidMethod> for HttpConvertError {
    open spec fn obeys_from_spec() -> bool {
        true
    }

    open spec fn from_spec(e: InvalidMethod) -> HttpConvertError {
        HttpConvertError::Method(e)
    }
}

impl From<InvalidStatusCode> for HttpConvertError {
    fn from(e: InvalidStatusCode) -> (r: HttpConvertError) {
        HttpConvertError::Status(e)
    }
}

impl FromSpecImpl<InvalidStatusCode> for HttpConvertError {
    open spec fn obeys_from_spec() -> bool {
        true
    }

    open spec fn from_spec(e: InvalidStatusCode) -> HttpConvertError {
        HttpConvertError::Status(e)
    }
}

impl From<InvalidHeaderName> for HttpConvertError {
    fn from(e: InvalidHeaderName) -> (r: HttpConvertError) {
        HttpConvertError::HeaderName(e)
    }
}

impl FromSpecImpl<InvalidHeaderName> for HttpConvertError {
    open spec fn obeys_from_spec() -> bool {
        true
    }

    open spec fn from_spec(e: InvalidHeaderName) -> HttpConvertError {
        HttpConvertError::HeaderName(e)
    }
}

impl From<InvalidHeaderValue> for HttpConvertError {
    fn from(e: InvalidHeaderValue) -> (r: HttpConvertError) {
        HttpConvertError::HeaderValue(e)
    }
}

impl FromSpecImpl<InvalidHeaderValue> for HttpConvertError {
    open spec fn obeys_from_spec() -> bool {
        true
    }

    open spec fn from_spec(e: InvalidHeaderValue) -> HttpConvertError {
        HttpConvertError::HeaderValue(e)
    }
}

impl From<InvalidUri> for HttpConvertError {
    fn from(e: InvalidUri) -> (r: HttpConvertError) {
        HttpConvertError::Uri(e)
    }
}

impl FromSpecImpl<InvalidUri> for HttpConvertError {
    open spec fn obeys_from_spec() -> bool {
        true
    }

    open spec fn from_spec(e: InvalidUri) -> HttpConvertError {
        HttpConvertError::Uri(e)
    }
}

/// What is wrong with a value that cannot be converted.
pub enum Fault {
    Method,
    Status,
    HeaderName,
    HeaderValue,
    Uri,
    Size,
}

impl HttpConvertError {
    /// What was wrong.
    pub open spec fn fault(self) -> Fault {
        match self {
            HttpConvertError::Method(_) => Fault::Method,
            HttpConvertError::Status(_) => Fault::Status,
            HttpConvertError::HeaderName(_) => Fault::HeaderName,
            HttpConvertError::HeaderValue(_) => Fault::HeaderValue,
            HttpConvertError::Uri(_) => Fault::Uri,
            HttpConvertError::Size => Fault::Size,
        }
    }

    /// The error in words.
    pub fn message(&self) -> (r: String)
        ensures
            r@ == match *self {
                HttpConvertError::Method(_) => "invalid method: invalid HTTP method"@,
                HttpConvertError::Status(_) => "invalid status code: invalid status code"@,
                HttpConvertError::HeaderName(_) => "invalid header name: invalid HTTP header name"@,
                HttpConvertError::HeaderValue(_) =>
                    "invalid header value: failed to parse header value"@,
                HttpConvertError::Uri(e) => "invalid uri: "@ + uri_error(e),
                HttpConvertError::Size => "too many header fields"@,
            },
    {
        match self {
            HttpConvertError::Method(_) => owned("invalid method: invalid HTTP method"),
            HttpConvertError::Status(_) => owned("invalid status code: invalid status code"),
            HttpConvertError::HeaderName(_) => owned("invalid header name: invalid HTTP header name"),
            HttpConvertError::HeaderValue(_) => owned(
                "invalid header value: failed to parse header value",
            ),
            HttpConvertError::Uri(e) => {
                let mut out = owned("invalid uri: ");
                let text = uri_error_text(e);
                out.push_str(text.as_str());
                out
            },
            HttpConvertError::Size => owned("too many header fields"),
        }
    }
}

/// What a refused target's error says.
pub uninterp spec fn uri_error(e: InvalidUri) -> Seq<char>;

/// The display form of `http::uri::InvalidUri`.
#[verifier::external_body]
pub(crate) fn uri_error_text(e: &InvalidUri) -> (r: String)
    ensures
        r@ == uri_error(*e),
{
    format!("{e}")
}

// ---------------------------------------------------------------------------
// Methods
// ---------------------------------------------------------------------------

/// The method of the `http` crate.
#[verifier::external_type_specification]
#[verifier::external_body]
pub struct ExHttpMethod(HttpMethod);

/// The token of a method.
pub uninterp spec fn http_token(m: HttpMethod) -> Seq<char>;

/// `http::Method::from_bytes`: the method of any token.
#[verifier::external_body]
pub(crate) fn http_method(t: &str) -> (r: core::result::Result<HttpMethod, InvalidMethod>)
    ensures
        r is Ok <==> token(t@),
        r matches Ok(m) ==> http_token(m) == t@,
{
    HttpMethod::from_bytes(t.as_bytes())
}

/// `http::Method::as_str`.
#[verifier::external_body]
pub(crate) fn method_token(m: &HttpMethod) -> (r: String)
    ensures
        r@ == http_token(*m),
{
    m.as_str().to_owned()
}

impl TryFrom<&Method> for HttpMethod {
    type Error = InvalidMethod;

    fn try_from(m: &Method) -> (r: core::result::Result<HttpMethod, InvalidMethod>)
        ensures
            r is Ok <==> token(m@.token()),
            r matches Ok(h) ==> http_token(h) == m@.token(),
    {
        http_method(m.as_str())
    }
}

impl TryFromSpecImpl<&Method> for HttpMethod {
    open spec fn obeys_try_from_spec() -> bool {
        false
    }

    open spec fn try_from_spec(m: &Method) -> core::result::Result<HttpMethod, InvalidMethod> {
        arbitrary()
    }
}

impl From<&HttpMethod> for Method {
    fn from(m: &HttpMethod) -> (r: Method)
        ensures
            r@ == MethodModel::of_token(http_token(*m)),
    {
        let t = method_token(m);
        Method::parse(t.as_str())
    }
}

impl FromSpecImpl<&HttpMethod> for Method {
    open spec fn obeys_from_spec() -> bool {
        false
    }

    open spec fn from_spec(m: &HttpMethod) -> Method {
        arbitrary()
    }
}

// ---------------------------------------------------------------------------
// Versions
// ---------------------------------------------------------------------------

/// The protocol version of the `http` crate.
#[verifier::external_type_specification]
#[verifier::external_body]
pub struct ExHttpVersion(HttpVersion);

/// The version that an `http` version is, if it is one that is spoken here.
pub uninterp spec fn http_version(v: HttpVersion) -> Option<Version>;

/// The constants of `http::Version`.
#[verifier::external_body]
pub(crate) fn version_out(v: Version) -> (r: HttpVersion)
    ensures
        http_version(r) == Some(v),
{
    match v {
        Version::Http10 => HttpVersion::HTTP_10,
        Version::Http11 => HttpVersion::HTTP_11,
        Version::Http2 => HttpVersion::HTTP_2,
        Version::Http3 => HttpVersion::HTTP_3,
    }
}

/// The constants of `http::Version`, told apart.
#[verifier::external_body]
pub(crate) fn version_in(v: HttpVersion) -> (r: Option<Version>)
    ensures
        r == http_version(v),
{
    match v {
        HttpVersion::HTTP_10 => Some(Version::Http10),
        HttpVersion::HTTP_11 => Some(Version::Http11),
        HttpVersion::HTTP_2 => Some(Version::Http2),
        HttpVersion::HTTP_3 => Some(Version::Http3),
        _ => None,
    }
}

/// HTTP/0.9 and any other version count as HTTP/1.1.
pub open spec fn version_or_11(v: Option<Version>) -> Version {
    match v {
        Some(x) => x,
        None => Version::Http11,
    }
}

impl From<Version> for HttpVersion {
    fn from(v: Version) -> (r: HttpVersion)
        ensures
            http_version(r) == Some(v),
    {
        version_out(v)
    }
}

impl FromSpecImpl<Version> for HttpVersion {
    open spec fn obeys_from_spec() -> bool {
        false
    }

    open spec fn from_spec(v: Version) -> HttpVersion {
        arbitrary()
    }
}

impl From<HttpVersion> for Version {
    fn from(v: HttpVersion) -> (r: Version) {
        match version_in(v) {
            Some(x) => x,
            None => Version::Http11,
        }
    }
}

impl FromSpecImpl<HttpVersion> for Version {
    open spec fn obeys_from_spec() -> bool {
        true
    }

    open spec fn from_spec(v: HttpVersion) -> Version {
        version_or_11(http_version(v))
    }
}

// ---------------------------------------------------------------------------
// Status codes
// ---------------------------------------------------------------------------

/// The status code of the `http` crate.
#[verifier::external_type_specification]
#[verifier::external_body]
pub struct ExHttpStatus(HttpStatus);

/// The number of a status code.
pub uninterp spec fn http_code(s: HttpStatus) -> u16;

/// The standard reason phrase of a status code in the `http` crate.
pub uninterp spec fn http_reason(code: u16) -> Option<&'static str>;

/// Whether `http` has a status code of this number.
pub open spec fn http_status_code(code: u16) -> bool {
    100 <= code <= 999
}

/// `http::StatusCode::from_u16`: three-digit numbers are status codes.
#[verifier::external_body]
pub(crate) fn status_out(code: u16) -> (r: core::result::Result<HttpStatus, InvalidStatusCode>)
    ensures
        r is Ok <==> http_status_code(code),
        r matches Ok(s) ==> http_code(s) == code,
{
    HttpStatus::from_u16(code)
}

/// `http::StatusCode::as_u16`.
#[verifier::external_body]
pub(crate) fn status_number(s: HttpStatus) -> (r: u16)
    ensures
        r == http_code(s),
{
    s.as_u16()
}

/// `http::StatusCode::canonical_reason`.
#[verifier::external_body]
pub(crate) fn status_reason(s: HttpStatus) -> (r: Option<&'static str>)
    ensures
        r == http_reason(http_code(s)),
{
    s.canonical_reason()
}

/// The status for a number, with the phrase of the `http` crate, if it has one.
pub open spec fn status_in(code: u16) -> StatusCode {
    StatusCode {
        code,
        reason: match http_reason(code) {
            Some(t) => t,
            None => "",
        },
    }
}

impl TryFrom<StatusCode> for HttpStatus {
    type Error = InvalidStatusCode;

    fn try_from(s: StatusCode) -> (r: core::result::Result<HttpStatus, InvalidStatusCode>)
        ensures
            r is Ok <==> http_status_code(s.code),
            r matches Ok(h) ==> http_code(h) == s.code,
    {
        status_out(s.code())
    }
}

impl TryFromSpecImpl<StatusCode> for HttpStatus {
    open spec fn obeys_try_from_spec() -> bool {
        false
    }

    open spec fn try_from_spec(s: StatusCode) -> core::result::Result<HttpStatus, InvalidStatusCode> {
        arbitrary()
    }
}

impl From<HttpStatus> for StatusCode {
    fn from(s: HttpStatus) -> (r: StatusCode) {
        let code: u16 = status_number(s);
        match status_reason(s) {
            Some(t) => StatusCode::new(code, t),
            None => StatusCode::new(code, ""),
        }
    }
}

impl FromSpecImpl<HttpStatus> for StatusCode {
    open spec fn obeys_from_spec() -> bool {
        true
    }

    open spec fn from_spec(s: HttpStatus) -> StatusCode {
        status_in(http_code(s))
    }
}

// ---------------------------------------------------------------------------
// Headers
// ---------------------------------------------------------------------------

/// A header name of the `http` crate.
#[verifier::external_type_specification]
#[verifier::external_body]
pub struct ExHeaderName(http::header::HeaderName);

/// A header value of the `http` crate.
#[verifier::external_type_specification]
#[verifier::external_body]
pub struct ExHeaderValue(http::header::HeaderValue);

/// The header map of the `http` crate.
#[verifier::external_type_specification]
#[verifier::external_body]
#[verifier::reject_recursive_types(T)]
pub struct ExHeaderMap<T>(http::header::HeaderMap<T>);

/// Header fields as an `http` map has them: lower-case names, and bytes.
pub type RawFields = Seq<(Seq<char>, Seq<u8>)>;

/// The text of a header name.
pub uninterp spec fn http_name(n: HeaderName) -> Seq<char>;

/// The bytes of a header value.
pub uninterp spec fn http_value(v: HeaderValue) -> Seq<u8>;

/// The fields of a map, in the order of its iterator.
pub uninterp spec fn http_fields(m: HeaderMap) -> RawFields;

/// The longest header name that `http` takes.
pub const MAX_NAME: usize = 65535;

/// A map with fewer different names than this has room for one more.
pub const SURE_NAMES: usize = 6554;

/// Whether a text is a header name for `http`.
pub open spec fn valid_name(n: Seq<char>) -> bool {
    token(n) && n.len() <= MAX_NAME
}

/// Whether a text is a header value for `http`.
pub open spec fn valid_value(v: Seq<char>) -> bool {
    forall|i: int| 0 <= i < v.len() ==> value_char(#[trigger] v[i])
}

/// `http::header::HeaderName::from_bytes`: the name, in lower case.
#[verifier::external_body]
pub(crate) fn name_out(n: &str) -> (r: core::result::Result<HeaderName, InvalidHeaderName>)
    ensures
        r is Ok <==> valid_name(n@),
        r matches Ok(h) ==> http_name(h) == lower(n@),
{
    HeaderName::from_bytes(n.as_bytes())
}

/// `http::header::HeaderValue::from_str`.
#[verifier::external_body]
pub(crate) fn value_out(v: &str) -> (r: core::result::Result<HeaderValue, InvalidHeaderValue>)
    ensures
        r is Ok <==> valid_value(v@),
        r matches Ok(h) ==> http_value(h) == encode_utf8(v@),
{
    HeaderValue::from_str(v)
}

/// `http::HeaderMap::new`.
#[verifier::external_body]
pub(crate) fn empty_map() -> (r: HeaderMap)
    ensures
        http_fields(r) == Seq::<(Seq<char>, Seq<u8>)>::empty(),
{
    HeaderMap::new()
}

/// One more than the place of the last field with a name; 0 if there is none.
pub open spec fn behind(f: RawFields, name: Seq<char>) -> int
    decreases f.len(),
{
    if f.len() == 0 {
        0
    } else if f.last().0 == name {
        f.len() as int
    } else {
        behind(f.drop_last(), name)
    }
}

/// A map with one more field: values of one name stand together.
pub open spec fn appended(f: RawFields, name: Seq<char>, value: Seq<u8>) -> RawFields {
    if behind(f, name) > 0 {
        f.insert(behind(f, name), (name, value))
    } else {
        f.push((name, value))
    }
}

/// `http::HeaderMap::try_append`, which fails when the map cannot grow; with
/// fewer fields than [`SURE_NAMES`] it can.
#[verifier::external_body]
pub(crate) fn append_field(m: &mut HeaderMap, name: HeaderName, value: HeaderValue) -> (r: bool)
    ensures
        r ==> http_fields(*final(m)) == appended(
            http_fields(*old(m)),
            http_name(name),
            http_value(value),
        ),
        !r ==> http_fields(*old(m)).len() >= SURE_NAMES,
{
    m.try_append(name, value).is_ok()
}

/// The model of a list of raw fields.
pub open spec fn raw_fields(v: Seq<(String, Vec<u8>)>) -> RawFields {
    v.map_values(|f: (String, Vec<u8>)| (f.0@, f.1@))
}

/// `http::HeaderMap::iter`: each name once per value.
#[verifier::external_body]
pub(crate) fn map_fields(m: &HeaderMap) -> (r: Vec<(String, Vec<u8>)>)
    ensures
        raw_fields(r@) == http_fields(*m),
{
    m.iter().map(|(n, v)| (n.as_str().to_owned(), v.as_bytes().to_vec())).collect()
}

/// The map for a list of fields, or the first fault in it.
pub open spec fn map_out(f: Fields) -> core::result::Result<RawFields, Fault>
    decreases f.len(),
{
    if f.len() == 0 {
        Ok(Seq::empty())
    } else {
        match map_out(f.drop_last()) {
            Err(e) => Err(e),
            Ok(m) => if !valid_name(f.last().0) {
                Err(Fault::HeaderName)
            } else if !valid_value(f.last().1) {
                Err(Fault::HeaderValue)
            } else {
                Ok(appended(m, lower(f.last().0), encode_utf8(f.last().1)))
            },
        }
    }
}

/// Whether a conversion of fields came out as it should: the map, or the first
/// fault; there may be no room for [`SURE_NAMES`] fields or more.
pub open spec fn map_result(f: Fields, r: core::result::Result<HeaderMap, HttpConvertError>) -> bool {
    match r {
        Ok(m) => map_out(f) == Ok::<RawFields, Fault>(http_fields(m)),
        Err(HttpConvertError::Size) => f.len() > SURE_NAMES,
        Err(e) => map_out(f) == Err::<RawFields, Fault>(e.fault()),
    }
}

/// The fields that a map stands for; values that are not UTF-8 are decoded
/// lossily.
pub open spec fn map_in(m: RawFields) -> Fields {
    m.map_values(|f: (Seq<char>, Seq<u8>)| (f.0, lossy(f.1)))
}

proof fn lemma_appended_len(f: RawFields, name: Seq<char>, value: Seq<u8>)
    ensures
        appended(f, name, value).len() == f.len() + 1,
{
    lemma_behind(f, name);
}

proof fn lemma_behind(f: RawFields, name: Seq<char>)
    ensures
        0 <= behind(f, name) <= f.len(),
    decreases f.len(),
{
    if f.len() > 0 {
        lemma_behind(f.drop_last(), name);
    }
}

/// A fault in the first fields is the fault of all.
proof fn lemma_fault_stays(f: Fields, k: int)
    requires
        0 <= k <= f.len(),
        map_out(f.take(k)) is Err,
    ensures
        map_out(f) == map_out(f.take(k)),
    decreases f.len() - k,
{
    if k < f.len() {
        assert(f.take(k + 1).drop_last() =~= f.take(k));
        lemma_fault_stays(f, k + 1);
    } else {
        assert(f.take(k) =~= f);
    }
}

impl TryFrom<&Headers> for HeaderMap {
    type Error = HttpConvertError;

    fn try_from(headers: &Headers) -> (r: core::result::Result<HeaderMap, HttpConvertError>)
        ensures
            map_result(headers@, r),
    {
        let mut map = empty_map();
        let n: usize = headers.len();
        let mut i: usize = 0;
        let ghost f = headers@;
        proof {
            assert(f.take(0) =~= Seq::empty());
        }
        while i < n
            invariant
                f == headers@,
                i <= n == f.len(),
                map_out(f.take(i as int)) == Ok::<RawFields, Fault>(http_fields(map)),
                http_fields(map).len() == i,
            decreases n - i,
        {
            let (name, value) = headers.at(i);
            proof {
                assert(f.take(i + 1).drop_last() =~= f.take(i as int));
                assert(f.take(i + 1).last() == f[i as int]);
            }
            let name = match name_out(name) {
                Ok(x) => x,
                Err(e) => {
                    proof {
                        lemma_fault_stays(f, i + 1);
                    }
                    return Err(HttpConvertError::HeaderName(e));
                },
            };
            let value = match value_out(value) {
                Ok(x) => x,
                Err(e) => {
                    proof {
                        lemma_fault_stays(f, i + 1);
                    }
                    return Err(HttpConvertError::HeaderValue(e));
                },
            };
            let ghost before = http_fields(map);
            proof {
                lemma_appended_len(before, http_name(name), http_value(value));
            }
            if !append_field(&mut map, name, value) {
                return Err(HttpConvertError::Size);
            }
            i += 1;
        }
        proof {
            assert(f.take(n as int) =~= f);
        }
        Ok(map)
    }
}

impl TryFromSpecImpl<&Headers> for HeaderMap {
    open spec fn obeys_try_from_spec() -> bool {
        false
    }

    open spec fn try_from_spec(headers: &Headers) -> core::result::Result<
        HeaderMap,
        HttpConvertError,
    > {
        arbitrary()
    }
}

impl From<&HeaderMap> for Headers {
    fn from(map: &HeaderMap) -> (r: Headers)
        ensures
            r@ == map_in(http_fields(*map)),
    {
        let mut headers = Headers::new();
        let fields = map_fields(map);
        let ghost all = http_fields(*map);
        let mut i: usize = 0;
        while i < fields.len()
            invariant
                i <= fields@.len(),
                all == raw_fields(fields@),
                headers@ == map_in(all).take(i as int),
            decreases fields.len() - i,
        {
            let value = string_from_utf8_lossy(fields[i].1.as_slice());
            let ghost done = headers@;
            headers.append(fields[i].0.as_str(), value.as_str());
            proof {
                assert(all[i as int] == (fields@[i as int].0@, fields@[i as int].1@));
                assert(headers@ =~= map_in(all).take(i + 1));
            }
            i += 1;
        }
        proof {
            assert(map_in(all).take(all.len() as int) =~= map_in(all));
        }
        headers
    }
}

impl FromSpecImpl<&HeaderMap> for Headers {
    open spec fn obeys_from_spec() -> bool {
        false
    }

    open spec fn from_spec(map: &HeaderMap) -> Headers {
        arbitrary()
    }
}

// ---------------------------------------------------------------------------
// Requests
// ---------------------------------------------------------------------------

/// The URI of the `http` crate.
#[verifier::external_type_specification]
#[verifier::external_body]
pub struct ExUri(http::uri::Uri);

/// The request of the `http` crate.
#[verifier::external_type_specification]
#[verifier::external_body]
#[verifier::reject_recursive_types(T)]
pub struct ExHttpRequest<T>(HttpRequest<T>);

/// The parts of a URI that are given.
#[verifier::ext_equal]
pub struct UriModel {
    pub scheme: Option<Seq<char>>,
    pub authority: Option<Seq<char>>,
    /// The path with the query.
    pub target: Option<Seq<char>>,
}

/// What an `http` request holds.
#[verifier::ext_equal]
pub struct HttpRequestModel {
    pub method: Seq<char>,
    pub uri: UriModel,
    pub version: Option<Version>,
    pub fields: RawFields,
    pub body: Seq<u8>,
}

/// The parts of a URI.
pub uninterp spec fn uri_parts(u: Uri) -> UriModel;

/// The URI that a text is, if it is one.
pub uninterp spec fn uri_parsed(text: Seq<char>) -> Option<UriModel>;

/// What a request holds.
pub uninterp spec fn http_request(q: HttpRequest<Vec<u8>>) -> HttpRequestModel;

/// Parsing an `http::Uri`.
#[verifier::external_body]
pub(crate) fn uri_out(text: &str) -> (r: core::result::Result<Uri, InvalidUri>)
    ensures
        match r {
            Ok(u) => uri_parsed(text@) == Some(uri_parts(u)),
            Err(_) => uri_parsed(text@) is None,
        },
{
    text.parse::<Uri>()
}

/// `http::Request::new`, with its parts set.
#[verifier::external_body]
pub(crate) fn request_out(
    method: HttpMethod,
    uri: Uri,
    version: HttpVersion,
    headers: HeaderMap,
    body: Vec<u8>,
) -> (r: HttpRequest<Vec<u8>>)
    ensures
        http_request(r) == (HttpRequestModel {
            method: http_token(method),
            uri: uri_parts(uri),
            version: http_version(version),
            fields: http_fields(headers),
            body: body@,
        }),
{
    let mut out = HttpRequest::new(body);
    *out.method_mut() = method;
    *out.uri_mut() = uri;
    *out.version_mut() = version;
    *out.headers_mut() = headers;
    out
}

/// The parts that an `http` request is taken into.
pub struct RequestParts {
    pub method: HttpMethod,
    /// The path with the query, if the URI has one.
    pub target: Option<String>,
    pub version: HttpVersion,
    pub headers: HeaderMap,
    pub body: Vec<u8>,
}

/// `http::Request::into_parts`, and `http::Uri::path_and_query` of the URI.
#[verifier::external_body]
pub(crate) fn request_in(q: HttpRequest<Vec<u8>>) -> (r: RequestParts)
    ensures
        http_token(r.method) == http_request(q).method,
        http_request(q).uri.target == (match r.target {
            Some(t) => Some(t@),
            None => None,
        }),
        http_version(r.version) == http_request(q).version,
        http_fields(r.headers) == http_request(q).fields,
        r.body@ == http_request(q).body,
{
    let (parts, body) = q.into_parts();
    RequestParts {
        target: parts.uri.path_and_query().map(|t| t.as_str().to_owned()),
        method: parts.method,
        version: parts.version,
        headers: parts.headers,
        body,
    }
}

/// The `http` request for a request, or the first fault in it.
pub open spec fn http_request_of(q: RequestModel) -> core::result::Result<HttpRequestModel, Fault> {
    if !token(q.method.token()) {
        Err(Fault::Method)
    } else {
        match uri_parsed(q.target) {
            None => Err(Fault::Uri),
            Some(uri) => match map_out(q.headers) {
                Err(e) => Err(e),
                Ok(fields) => Ok(
                    HttpRequestModel {
                        method: q.method.token(),
                        uri,
                        version: Some(q.version),
                        fields,
                        body: q.body,
                    },
                ),
            },
        }
    }
}

/// The request that an `http` request stands for.
pub open spec fn request_of_http(h: HttpRequestModel) -> RequestModel {
    RequestModel {
        method: MethodModel::of_token(h.method),
        target: match h.uri.target {
            Some(t) => t,
            None => "/"@,
        },
        version: version_or_11(h.version),
        headers: map_in(h.fields),
        body: h.body,
        params: Seq::empty(),
    }
}

impl TryFrom<&Request> for HttpRequest<Vec<u8>> {
    type Error = HttpConvertError;

    fn try_from(req: &Request) -> (r: core::result::Result<HttpRequest<Vec<u8>>, HttpConvertError>)
        ensures
            match r {
                Ok(h) => http_request_of(req@) == Ok::<HttpRequestModel, Fault>(http_request(h)),
                Err(HttpConvertError::Size) => req@.headers.len() > SURE_NAMES,
                Err(e) => http_request_of(req@) == Err::<HttpRequestModel, Fault>(e.fault()),
            },
    {
        let method = match HttpMethod::try_from(req.method()) {
            Ok(m) => m,
            Err(e) => {
                return Err(HttpConvertError::Method(e));
            },
        };
        let uri = match uri_out(req.target()) {
            Ok(u) => u,
            Err(e) => {
                return Err(HttpConvertError::Uri(e));
            },
        };
        let version = HttpVersion::from(req.version());
        let headers = match HeaderMap::try_from(req.headers()) {
            Ok(m) => m,
            Err(e) => {
                return Err(e);
            },
        };
        Ok(request_out(method, uri, version, headers, copy_of(req.body())))
    }
}

impl TryFromSpecImpl<&Request> for HttpRequest<Vec<u8>> {
    open spec fn obeys_try_from_spec() -> bool {
        false
    }

    open spec fn try_from_spec(req: &Request) -> core::result::Result<
        HttpRequest<Vec<u8>>,
        HttpConvertError,
    > {
        arbitrary()
    }
}

impl From<HttpRequest<Vec<u8>>> for Request {
    fn from(req: HttpRequest<Vec<u8>>) -> (r: Request)
        ensures
            r@ == request_of_http(http_request(req)),
    {
        let parts = request_in(req);
        let target = match parts.target {
            Some(t) => t,
            None => owned("/"),
        };
        Request::new(
            Method::from(&parts.method),
            target,
            Version::from(parts.version),
            Headers::from(&parts.headers),
            parts.body,
        )
    }
}

impl FromSpecImpl<HttpRequest<Vec<u8>>> for Request {
    open spec fn obeys_from_spec() -> bool {
        false
    }

    open spec fn from_spec(req: HttpRequest<Vec<u8>>) -> Request {
        arbitrary()
    }
}

// ---------------------------------------------------------------------------
// Responses
// ---------------------------------------------------------------------------

/// The response of the `http` crate.
#[verifier::external_type_specification]
#[verifier::external_body]
#[verifier::reject_recursive_types(T)]
pub struct ExHttpResponse<T>(HttpResponse<T>);

/// What an `http` response holds.
#[verifier::ext_equal]
pub struct HttpResponseModel {
    pub status: u16,
    pub fields: RawFields,
    pub body: Seq<u8>,
}

/// What a response holds.
pub uninterp spec fn http_response(r: HttpResponse<Vec<u8>>) -> HttpResponseModel;

/// `http::Response::new`, with its parts set.
#[verifier::external_body]
pub(crate) fn response_out(status: HttpStatus, headers: HeaderMap, body: Vec<u8>) -> (r: HttpResponse<
    Vec<u8>,
>)
    ensures
        http_response(r) == (HttpResponseModel {
            status: http_code(status),
            fields: http_fields(headers),
            body: body@,
        }),
{
    let mut out = HttpResponse::new(body);
    *out.status_mut() = status;
    *out.headers_mut() = headers;
    out
}

/// `http::Response::into_parts`.
#[verifier::external_body]
pub(crate) fn response_in(resp: HttpResponse<Vec<u8>>) -> (r: (HttpStatus, HeaderMap, Vec<u8>))
    ensures
        http_response(resp) == (HttpResponseModel {
            status: http_code(r.0),
            fields: http_fields(r.1),
            body: r.2@,
        }),
{
    let (parts, body) = resp.into_parts();
    (parts.status, parts.headers, body)
}

/// The bytes of a body, with what a read of its file region yielded.
pub open spec fn body_bytes(b: BodyModel, region: Option<Seq<u8>>) -> Seq<u8> {
    match b {
        BodyModel::Bytes(bytes) => bytes,
        BodyModel::File { .. } => match region {
            Some(data) => data,
            None => Seq::empty(),
        },
    }
}

/// The `http` response for a response, or the first fault in it.
pub open spec fn http_response_of(r: ResponseModel, region: Option<Seq<u8>>) -> core::result::Result<
    HttpResponseModel,
    Fault,
> {
    if !http_status_code(r.status.code) {
        Err(Fault::Status)
    } else {
        match map_out(r.headers) {
            Err(e) => Err(e),
            Ok(fields) => Ok(
                HttpResponseModel {
                    status: r.status.code,
                    fields,
                    body: body_bytes(r.body, region),
                },
            ),
        }
    }
}

/// Whether a conversion of a response came out as it should.
pub open spec fn response_result(
    m: ResponseModel,
    region: Option<Seq<u8>>,
    r: core::result::Result<HttpResponse<Vec<u8>>, HttpConvertError>,
) -> bool {
    match r {
        Ok(h) => http_response_of(m, region) == Ok::<HttpResponseModel, Fault>(http_response(h)),
        Err(HttpConvertError::Size) => m.headers.len() > SURE_NAMES,
        Err(e) => http_response_of(m, region) == Err::<HttpResponseModel, Fault>(e.fault()),
    }
}

/// The response that an `http` response stands for.
pub open spec fn response_of_http(h: HttpResponseModel) -> ResponseModel {
    ResponseModel {
        status: status_in(h.status),
        headers: map_in(h.fields),
        body: BodyModel::Bytes(h.body),
    }
}

/// Convert a response whose body may be a file: `region` is what a read of its
/// region yielded (`None` when the read failed); a buffered body does not look at
/// it.
pub fn to_http(resp: Response, region: Option<Vec<u8>>) -> (r: core::result::Result<
    HttpResponse<Vec<u8>>,
    HttpConvertError,
>)
    ensures
        response_result(resp@, opt_bytes(region), r),
{
    let (status, headers, body) = resp.into_parts();
    let bytes = body.into_bytes(region);
    let status = match HttpStatus::try_from(status) {
        Ok(s) => s,
        Err(e) => {
            return Err(HttpConvertError::Status(e));
        },
    };
    let headers = match HeaderMap::try_from(&headers) {
        Ok(m) => m,
        Err(e) => {
            return Err(e);
        },
    };
    Ok(response_out(status, headers, bytes))
}

impl TryFrom<Response> for HttpResponse<Vec<u8>> {
    type Error = HttpConvertError;

    /// A file body counts as unreadable here; [`to_http`] takes what was read.
    fn try_from(resp: Response) -> (r: core::result::Result<HttpResponse<Vec<u8>>, HttpConvertError>)
        ensures
            response_result(resp@, None, r),
    {
        to_http(resp, None)
    }
}

impl TryFromSpecImpl<Response> for HttpResponse<Vec<u8>> {
    open spec fn obeys_try_from_spec() -> bool {
        false
    }

    open spec fn try_from_spec(resp: Response) -> core::result::Result<
        HttpResponse<Vec<u8>>,
        HttpConvertError,
    > {
        arbitrary()
    }
}

impl From<HttpResponse<Vec<u8>>> for Response {
    fn from(resp: HttpResponse<Vec<u8>>) -> (r: Response)
        ensures
            r@ == response_of_http(http_response(resp)),
    {
        let (status, headers, body) = response_in(resp);
        Response::from_parts(StatusCode::from(status), Headers::from(&headers), Body::Bytes(body))
    }
}

impl FromSpecImpl<HttpResponse<Vec<u8>>> for Response {
    open spec fn obeys_from_spec() -> bool {
        false
    }

    open spec fn from_spec(resp: HttpResponse<Vec<u8>>) -> Response {
        arbitrary()
    }
}

/// An `http` response can be returned directly from a route handler.
impl IntoResponse for HttpResponse<Vec<u8>> {
    open spec fn response(self) -> ResponseModel {
        response_of_http(http_response(self))
    }

    fn into_response(self) -> (r: Response) {
        Response::from(self)
    }
}

// ---------------------------------------------------------------------------
// Laws
// ---------------------------------------------------------------------------

/// A method survives the way to `http` and back.
pub proof fn law_methods_come_back(m: Method, h: HttpMethod)
    requires
        http_token(h) == m@.token(),
        m@ == MethodModel::of_token(m@.token()),
    ensures
        MethodModel::of_token(http_token(h)) == m@,
{
}

/// A version survives the way to `http` and back.
pub proof fn law_versions_come_back(v: Version, h: HttpVersion)
    requires
        http_version(h) == Some(v),
    ensures
        version_or_11(http_version(h)) == v,
{
}

/// The values of one name in a map, in order.
pub open spec fn raw_values(m: RawFields, name: Seq<char>) -> Seq<Seq<u8>>
    decreases m.len(),
{
    if m.len() == 0 {
        Seq::empty()
    } else if m.last().0 == name {
        raw_values(m.drop_last(), name).push(m.last().1)
    } else {
        raw_values(m.drop_last(), name)
    }
}

proof fn lemma_appended_values(m: RawFields, name: Seq<char>, value: Seq<u8>, n: Seq<char>)
    ensures
        raw_values(appended(m, name, value), n) == if n == name {
            raw_values(m, n).push(value)
        } else {
            raw_values(m, n)
        },
    decreases m.len(),
{
    let k = behind(m, name);
    let out = appended(m, name, value);
    lemma_behind(m, name);
    if k == 0 || k == m.len() {
        assert(out =~= m.push((name, value)));
        assert(out.drop_last() =~= m);
    } else {
        lemma_appended_values(m.drop_last(), name, value, n);
        assert(out.drop_last() =~= appended(m.drop_last(), name, value));
        assert(out.last() == m.last());
    }
}

/// Converting to `http` keeps the values of every name, in order, and adds none.
pub proof fn law_values_are_kept(f: Fields, name: Seq<char>)
    requires
        map_out(f) is Ok,
    ensures
        raw_values(map_out(f)->Ok_0, lower(name)) == values(f, name).map_values(
            |v: Seq<char>| encode_utf8(v),
        ),
    decreases f.len(),
{
    let enc = |v: Seq<char>| encode_utf8(v);
    if f.len() == 0 {
        assert(values(f, name).map_values(enc) =~= Seq::empty());
    } else {
        law_values_are_kept(f.drop_last(), name);
        lemma_appended_values(
            map_out(f.drop_last())->Ok_0,
            lower(f.last().0),
            encode_utf8(f.last().1),
            lower(name),
        );
        let before = values(f.drop_last(), name);
        assert(before.push(f.last().1).map_values(enc) =~= before.map_values(enc).push(
            encode_utf8(f.last().1),
        ));
    }
}

/// A request keeps its method, its version and its body on the way to `http`, and on
/// the way back its target too; what cannot be had there is a fault of its own kind.
pub proof fn law_requests_are_kept(q: RequestModel, h: HttpRequestModel)
    ensures
        http_request_of(q) == Ok::<HttpRequestModel, Fault>(h) ==> {
            &&& h.method == q.method.token()
            &&& h.version == Some(q.version)
            &&& h.body == q.body
            &&& request_of_http(h).body == q.body
            &&& request_of_http(h).version == q.version
            &&& request_of_http(h).method == MethodModel::of_token(q.method.token())
        },
        h.uri.target matches Some(t) ==> request_of_http(h).target == t,
        h.uri.target is None ==> request_of_http(h).target == "/"@,
        h.version is None ==> request_of_http(h).version == Version::Http11,
        !token(q.method.token()) ==> http_request_of(q) == Err::<HttpRequestModel, Fault>(
            Fault::Method,
        ),
        token(q.method.token()) && uri_parsed(q.target) is None ==> http_request_of(q) == Err::<
            HttpRequestModel,
            Fault,
        >(Fault::Uri),
{
}

/// A response keeps its status and its body both ways; a status is a number of three
/// digits.
pub proof fn law_responses_are_kept(r: ResponseModel, h: HttpResponseModel, bytes: Seq<u8>)
    requires
        r.body == BodyModel::Bytes(bytes),
    ensures
        http_response_of(r, None) == Ok::<HttpResponseModel, Fault>(h) ==> {
            &&& h.status == r.status.code
            &&& h.body == bytes
            &&& response_of_http(h).status.code == r.status.code
            &&& response_of_http(h).body == r.body
        },
        r.status.code < 100 || r.status.code > 999 ==> http_response_of(r, None) == Err::<
            HttpResponseModel,
            Fault,
        >(Fault::Status),
        100 <= r.status.code <= 999 && r.headers.len() == 0 ==> http_response_of(r, None) is Ok,
{
}

/// A field that is no field for `http` is a fault, the first one counting; names come
/// out in lower case, and values as their bytes.
pub proof fn law_field_faults(f: Fields, name: Seq<char>, value: Seq<char>)
    requires
        map_out(f) is Ok,
    ensures
        !valid_name(name) ==> map_out(f.push((name, value))) == Err::<RawFields, Fault>(
            Fault::HeaderName,
        ),
        valid_name(name) && !valid_value(value) ==> map_out(f.push((name, value))) == Err::<
            RawFields,
            Fault,
        >(Fault::HeaderValue),
        valid_name(name) && valid_value(value) ==> (map_out(f.push((name, value))) matches Ok(m)
            && m.len() == map_out(f)->Ok_0.len() + 1 && m.contains(
            (lower(name), encode_utf8(value)),
        )),
{
    let all = f.push((name, value));
    assert(all.drop_last() =~= f);
    if valid_name(name) && valid_value(value) {
        let m = map_out(f)->Ok_0;
        let n = lower(name);
        let v = encode_utf8(value);
        lemma_behind(m, n);
        lemma_appended_len(m, n, v);
        let out = appended(m, n, v);
        if behind(m, n) > 0 {
            assert(out[behind(m, n)] == (n, v));
        } else {
            assert(out[m.len() as int] == (n, v));
        }
    }
}

/// Every field of a map comes in, in order, under its own name.
pub proof fn law_fields_come_in(m: RawFields, i: int)
    requires
        0 <= i < m.len(),
    ensures
        map_in(m).len() == m.len(),
        map_in(m)[i].0 == m[i].0,
        map_in(m)[i].1 == lossy(m[i].1),
{
}

} // verus!
