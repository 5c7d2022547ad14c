//! HTTP protocol versions.
use crate::text::{chars_are, chars_of};
use vstd::prelude::*;

verus! {

/// The HTTP version of a request.
#[derive(Debug, Clone, Copy, PartialEq, Eq, Structural)]
pub enum Version {
    /// HTTP/1.0: connections close by default unless `Connection: keep-alive`.
    Http10,
    /// HTTP/1.1: connections persist by default unless `Connection: close`.
    Http11,
    /// HTTP/2, negotiated by ALPN; never parsed from a request line.
    Http2,
    /// HTTP/3 over QUIC; never parsed from a request line.
    Http3,
}

impl Version {
    /// The wire form of the version.
    pub open spec fn token(self) -> Seq<char> {
        match self {
            Version::Http10 => "HTTP/1.0"@,
            Version::Http11 => "HTTP/1.1"@,
            Version::Http2 => "HTTP/2"@,
            Version::Http3 => "HTTP/3"@,
        }
    }

    /// The version that a request-line token names.
    pub open spec fn of_token(token: Seq<char>) -> Option<Version> {
        if token == "HTTP/1.0"@ {
            Some(Version::Http10)
        } else if token == "HTTP/1.1"@ {
            Some(Version::Http11)
        } else {
            None
        }
    }

    /// Parse the `HTTP/x.y` token from a request line.
    pub fn parse(token: &str) -> (r: Option<Version>)
        ensures
            r == Version::of_token(token@),
    {
        let c = chars_of(token);
        if chars_are(&c, "HTTP/1.0") {
            Some(Version::Http10)
        } else if chars_are(&c, "HTTP/1.1") {
            Some(Version::Http11)
        } else {
            None
        }
    }

    /// The wire representation, e.g. `"HTTP/1.1"`.
    pub fn as_str(self) -> (r: &'static str)
        ensures
            r@ == self.token(),
    {
        match self {
            Version::Http10 => "HTTP/1.0",
            Version::Http11 => "HTTP/1.1",
            Version::Http2 => "HTTP/2",
            Version::Http3 => "HTTP/3",
        }
    }

    /// Whether persistent connections are the default for this version.
    pub fn default_keep_alive(self) -> (r: bool)
        ensures
            r == (self == Version::Http11),
    {
        matches!(self, Version::Http11)
    }
}

/// A version that can stand on a request line is read back from its token.
pub proof fn law_version_token_round_trip(v: Version)
    requires
        v == Version::Http10 || v == Version::Http11,
    ensures
        Version::of_token(v.token()) == Some(v),
{
    reveal_strlit("HTTP/1.0");
    reveal_strlit("HTTP/1.1");
    assert("HTTP/1.0"@[7] != "HTTP/1.1"@[7]);
}

/// The versions have their names, and only the first two stand in request lines.
pub proof fn law_version_tokens(t: Seq<char>)
    ensures
        Version::of_token("HTTP/1.0"@) == Some(Version::Http10),
        Version::of_token("HTTP/1.1"@) == Some(Version::Http11),
        t != "HTTP/1.0"@ && t != "HTTP/1.1"@ ==> Version::of_token(t) is None,
        Version::Http10.token() == "HTTP/1.0"@,
        Version::Http11.token() == "HTTP/1.1"@,
        Version::Http2.token() == "HTTP/2"@,
        Version::Http3.token() == "HTTP/3"@,
{
    reveal_strlit("HTTP/1.0");
    reveal_strlit("HTTP/1.1");
    assert("HTTP/1.0"@[7] == '0' && "HTTP/1.1"@[7] == '1');
}

} // verus!
