//! HTTP response status codes.
use vstd::prelude::*;
use vstd::std_specs::convert::FromSpecImpl;

verus! {

/// An HTTP status code paired with its reason phrase.
///
/// Use one of the named constructors (e.g. [`StatusCode::ok`]) or build an
/// arbitrary code with [`StatusCode::new`].
#[derive(Debug, Clone, Copy, PartialEq, Eq)]
pub struct StatusCode {
    /// The numeric code.
    pub code: u16,
    /// The reason phrase.
    pub reason: &'static str,
}

/// The registered reason phrase of a code, or the phrase of its class.
pub open spec fn reason_of(code: u16) -> &'static str {
    match code {
        100 => "Continue",
        200 => "OK",
        201 => "Created",
        202 => "Accepted",
        204 => "No Content",
        206 => "Partial Content",
        301 => "Moved Permanently",
        302 => "Found",
        304 => "Not Modified",
        307 => "Temporary Redirect",
        308 => "Permanent Redirect",
        400 => "Bad Request",
        401 => "Unauthorized",
        403 => "Forbidden",
        404 => "Not Found",
        405 => "Method Not Allowed",
        409 => "Conflict",
        410 => "Gone",
        411 => "Length Required",
        413 => "Content Too Large",
        414 => "URI Too Long",
        416 => "Range Not Satisfiable",
        429 => "Too Many Requests",
        431 => "Request Header Fields Too Large",
        500 => "Internal Server Error",
        501 => "Not Implemented",
        502 => "Bad Gateway",
        503 => "Service Unavailable",
        505 => "HTTP Version Not Supported",
        _ => if 100 <= code <= 199 {
            "Informational"
        } else if 200 <= code <= 299 {
            "Success"
        } else if 300 <= code <= 399 {
            "Redirection"
        } else if 400 <= code <= 499 {
            "Client Error"
        } else {
            "Server Error"
        },
    }
}

/// The status with a standard code.
pub open spec fn standard(code: u16) -> StatusCode {
    StatusCode { code, reason: reason_of(code) }
}

impl StatusCode {
    /// Whether the status forbids a message body (1xx, 204, 304).
    pub open spec fn bodyless(self) -> bool {
        100 <= self.code <= 199 || self.code == 204 || self.code == 304
    }

    /// Build a status from a numeric code and reason phrase.
    pub fn new(code: u16, reason: &'static str) -> (r: StatusCode)
        ensures
            r == (StatusCode { code, reason }),
    {
        StatusCode { code, reason }
    }

    /// The numeric code, e.g. `200`.
    pub fn code(self) -> (r: u16)
        ensures
            r == self.code,
    {
        self.code
    }

    /// The reason phrase, e.g. `"OK"`.
    pub fn reason(self) -> (r: &'static str)
        ensures
            r == self.reason,
    {
        self.reason
    }

    /// Whether the status forbids a message body (1xx, 204, 304).
    pub fn is_bodyless(self) -> (r: bool)
        ensures
            r == self.bodyless(),
    {
        (100 <= self.code && self.code <= 199) || self.code == 204 || self.code == 304
    }

    /// `100 Continue`.
    pub fn continue_() -> (r: StatusCode)
        ensures
            r == (StatusCode { code: 100, reason: "Continue" }),
    {
        StatusCode { code: 100, reason: "Continue" }
    }

    /// `200 OK`.
    pub fn ok() -> (r: StatusCode)
        ensures
            r == (StatusCode { code: 200, reason: "OK" }),
    {
        StatusCode { code: 200, reason: "OK" }
    }

    /// `201 Created`.
    pub fn created() -> (r: StatusCode)
        ensures
            r == (StatusCode { code: 201, reason: "Created" }),
    {
        StatusCode { code: 201, reason: "Created" }
    }

    /// `202 Accepted`.
    pub fn accepted() -> (r: StatusCode)
        ensures
            r == (StatusCode { code: 202, reason: "Accepted" }),
    {
        StatusCode { code: 202, reason: "Accepted" }
    }

    /// `204 No Content`.
    pub fn no_content() -> (r: StatusCode)
        ensures
            r == (StatusCode { code: 204, reason: "No Content" }),
    {
        StatusCode { code: 204, reason: "No Content" }
    }

    /// `206 Partial Content`.
    pub fn partial_content() -> (r: StatusCode)
        ensures
            r == (StatusCode { code: 206, reason: "Partial Content" }),
    {
        StatusCode { code: 206, reason: "Partial Content" }
    }

    /// `301 Moved Permanently`.
    pub fn moved_permanently() -> (r: StatusCode)
        ensures
            r == (StatusCode { code: 301, reason: "Moved Permanently" }),
    {
        StatusCode { code: 301, reason: "Moved Permanently" }
    }

    /// `302 Found`.
    pub fn found() -> (r: StatusCode)
        ensures
            r == (StatusCode { code: 302, reason: "Found" }),
    {
        StatusCode { code: 302, reason: "Found" }
    }

    /// `307 Temporary Redirect`.
    pub fn temporary_redirect() -> (r: StatusCode)
        ensures
            r == (StatusCode { code: 307, reason: "Temporary Redirect" }),
    {
        StatusCode { code: 307, reason: "Temporary Redirect" }
    }

    /// `308 Permanent Redirect`.
    pub fn permanent_redirect() -> (r: StatusCode)
        ensures
            r == (StatusCode { code: 308, reason: "Permanent Redirect" }),
    {
        StatusCode { code: 308, reason: "Permanent Redirect" }
    }

    /// `304 Not Modified`.
    pub fn not_modified() -> (r: StatusCode)
        ensures
            r == (StatusCode { code: 304, reason: "Not Modified" }),
    {
        StatusCode { code: 304, reason: "Not Modified" }
    }

    /// `400 Bad Request`.
    pub fn bad_request() -> (r: StatusCode)
        ensures
            r == (StatusCode { code: 400, reason: "Bad Request" }),
    {
        StatusCode { code: 400, reason: "Bad Request" }
    }

    /// `403 Forbidden`.
    pub fn forbidden() -> (r: StatusCode)
        ensures
            r == (StatusCode { code: 403, reason: "Forbidden" }),
    {
        StatusCode { code: 403, reason: "Forbidden" }
    }

    /// `404 Not Found`.
    pub fn not_found() -> (r: StatusCode)
        ensures
            r == (StatusCode { code: 404, reason: "Not Found" }),
    {
        StatusCode { code: 404, reason: "Not Found" }
    }

    /// `405 Method Not Allowed`.
    pub fn method_not_allowed() -> (r: StatusCode)
        ensures
            r == (StatusCode { code: 405, reason: "Method Not Allowed" }),
    {
        StatusCode { code: 405, reason: "Method Not Allowed" }
    }

    /// `411 Length Required`.
    pub fn length_required() -> (r: StatusCode)
        ensures
            r == (StatusCode { code: 411, reason: "Length Required" }),
    {
        StatusCode { code: 411, reason: "Length Required" }
    }

    /// `413 Content Too Large`.
    pub fn payload_too_large() -> (r: StatusCode)
        ensures
            r == (StatusCode { code: 413, reason: "Content Too Large" }),
    {
        StatusCode { code: 413, reason: "Content Too Large" }
    }

    /// `416 Range Not Satisfiable`.
    pub fn range_not_satisfiable() -> (r: StatusCode)
        ensures
            r == (StatusCode { code: 416, reason: "Range Not Satisfiable" }),
    {
        StatusCode { code: 416, reason: "Range Not Satisfiable" }
    }

    /// `414 URI Too Long`.
    pub fn uri_too_long() -> (r: StatusCode)
        ensures
            r == (StatusCode { code: 414, reason: "URI Too Long" }),
    {
        StatusCode { code: 414, reason: "URI Too Long" }
    }

    /// `431 Request Header Fields Too Large`.
    pub fn request_header_fields_too_large() -> (r: StatusCode)
        ensures
            r == (StatusCode { code: 431, reason: "Request Header Fields Too Large" }),
    {
        StatusCode { code: 431, reason: "Request Header Fields Too Large" }
    }

    /// `500 Internal Server Error`.
    pub fn internal_server_error() -> (r: StatusCode)
        ensures
            r == (StatusCode { code: 500, reason: "Internal Server Error" }),
    {
        StatusCode { code: 500, reason: "Internal Server Error" }
    }

    /// `501 Not Implemented`.
    pub fn not_implemented() -> (r: StatusCode)
        ensures
            r == (StatusCode { code: 501, reason: "Not Implemented" }),
    {
        StatusCode { code: 501, reason: "Not Implemented" }
    }

    /// `503 Service Unavailable`.
    pub fn service_unavailable() -> (r: StatusCode)
        ensures
            r == (StatusCode { code: 503, reason: "Service Unavailable" }),
    {
        StatusCode { code: 503, reason: "Service Unavailable" }
    }

    /// `505 HTTP Version Not Supported`.
    pub fn http_version_not_supported() -> (r: StatusCode)
        ensures
            r == (StatusCode { code: 505, reason: "HTTP Version Not Supported" }),
    {
        StatusCode { code: 505, reason: "HTTP Version Not Supported" }
    }
}

impl FromSpecImpl<u16> for StatusCode {
    open spec fn obeys_from_spec() -> bool {
        true
    }

    open spec fn from_spec(code: u16) -> StatusCode {
        StatusCode { code, reason: reason_of(code) }
    }
}

impl From<u16> for StatusCode {
    /// Map a bare numeric code to its registered reason phrase, falling back
    /// to a generic phrase for the class.
    fn from(code: u16) -> (r: StatusCode) {
        let reason: &'static str = match code {
            100 => "Continue",
            200 => "OK",
            201 => "Created",
            202 => "Accepted",
            204 => "No Content",
            206 => "Partial Content",
            301 => "Moved Permanently",
            302 => "Found",
            304 => "Not Modified",
            307 => "Temporary Redirect",
            308 => "Permanent Redirect",
            400 => "Bad Request",
            401 => "Unauthorized",
            403 => "Forbidden",
            404 => "Not Found",
            405 => "Method Not Allowed",
            409 => "Conflict",
            410 => "Gone",
            411 => "Length Required",
            413 => "Content Too Large",
            414 => "URI Too Long",
            416 => "Range Not Satisfiable",
            429 => "Too Many Requests",
            431 => "Request Header Fields Too Large",
            500 => "Internal Server Error",
            501 => "Not Implemented",
            502 => "Bad Gateway",
            503 => "Service Unavailable",
            505 => "HTTP Version Not Supported",
            _ => if 100 <= code && code <= 199 {
                "Informational"
            } else if 200 <= code && code <= 299 {
                "Success"
            } else if 300 <= code && code <= 399 {
                "Redirection"
            } else if 400 <= code && code <= 499 {
                "Client Error"
            } else {
                "Server Error"
            },
        };
        StatusCode { code, reason }
    }
}

// ---------------------------------------------------------------------------
// Laws
// ---------------------------------------------------------------------------

/// The codes with a phrase of their own, and their phrases.
pub open spec fn registered() -> Seq<(u16, Seq<char>)> {
    seq![
        (100, "Continue"@),
        (200, "OK"@),
        (201, "Created"@),
        (202, "Accepted"@),
        (204, "No Content"@),
        (206, "Partial Content"@),
        (301, "Moved Permanently"@),
        (302, "Found"@),
        (304, "Not Modified"@),
        (307, "Temporary Redirect"@),
        (308, "Permanent Redirect"@),
        (400, "Bad Request"@),
        (401, "Unauthorized"@),
        (403, "Forbidden"@),
        (404, "Not Found"@),
        (405, "Method Not Allowed"@),
        (409, "Conflict"@),
        (410, "Gone"@),
        (411, "Length Required"@),
        (413, "Content Too Large"@),
        (414, "URI Too Long"@),
        (416, "Range Not Satisfiable"@),
        (429, "Too Many Requests"@),
        (431, "Request Header Fields Too Large"@),
        (500, "Internal Server Error"@),
        (501, "Not Implemented"@),
        (502, "Bad Gateway"@),
        (503, "Service Unavailable"@),
        (505, "HTTP Version Not Supported"@),
    ]
}

/// A registered code has its registered phrase, and any other the phrase of its class.
pub proof fn law_reason_phrases(code: u16, i: int)
    ensures
        0 <= i < registered().len() ==> reason_of(registered()[i].0)@ == registered()[i].1,
        (forall|j: int| 0 <= j < registered().len() ==> (#[trigger] registered()[j]).0 != code) ==> {
            &&& 100 <= code < 200 ==> reason_of(code)@ == "Informational"@
            &&& 200 <= code < 300 ==> reason_of(code)@ == "Success"@
            &&& 300 <= code < 400 ==> reason_of(code)@ == "Redirection"@
            &&& 400 <= code < 500 ==> reason_of(code)@ == "Client Error"@
            &&& 500 <= code < 600 ==> reason_of(code)@ == "Server Error"@
        },
{
    if forall|j: int| 0 <= j < registered().len() ==> (#[trigger] registered()[j]).0 != code {
        assert(registered()[0].0 == 100);
        assert(registered()[1].0 == 200);
        assert(registered()[2].0 == 201);
        assert(registered()[3].0 == 202);
        assert(registered()[4].0 == 204);
        assert(registered()[5].0 == 206);
        assert(registered()[6].0 == 301);
        assert(registered()[7].0 == 302);
        assert(registered()[8].0 == 304);
        assert(registered()[9].0 == 307);
        assert(registered()[10].0 == 308);
        assert(registered()[11].0 == 400);
        assert(registered()[12].0 == 401);
        assert(registered()[13].0 == 403);
        assert(registered()[14].0 == 404);
        assert(registered()[15].0 == 405);
        assert(registered()[16].0 == 409);
        assert(registered()[17].0 == 410);
        assert(registered()[18].0 == 411);
        assert(registered()[19].0 == 413);
        assert(registered()[20].0 == 414);
        assert(registered()[21].0 == 416);
        assert(registered()[22].0 == 429);
        assert(registered()[23].0 == 431);
        assert(registered()[24].0 == 500);
        assert(registered()[25].0 == 501);
        assert(registered()[26].0 == 502);
        assert(registered()[27].0 == 503);
        assert(registered()[28].0 == 505);
    }
}

/// No body goes with a provisional status, with 204 or with 304; with any other one
/// may.
pub proof fn law_bodyless(status: StatusCode)
    ensures
        100 <= status.code < 200 ==> status.bodyless(),
        status.code == 204 || status.code == 304 ==> status.bodyless(),
        200 <= status.code && status.code != 204 && status.code != 304 ==> !status.bodyless(),
{
}

} // verus!
