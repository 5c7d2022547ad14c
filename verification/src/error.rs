//! The crate-wide error type.
use vstd::prelude::*;

verus! {

/// Errors produced by the HTTP engine, the runtimes, and configuration loading.
#[derive(Debug)]
pub enum Error {
    /// The peer sent a malformed request (bad request line, headers, or body
    /// framing). Carries a human-readable reason.
    BadRequest(&'static str),
    /// A request exceeded a configured limit (header bytes, body bytes).
    TooLarge(&'static str),
    /// An I/O error from a socket or the filesystem, by its description.
    Io(String),
    /// A TLS-layer error (handshake failure, decrypt error).
    Tls(String),
    /// A compression-layer error.
    Compress(String),
    /// A configuration error (invalid TOML, missing file, bad value).
    Config(String),
    /// An automatic-certificate error.
    Acme(String),
}

/// The model of an error: its kind and its text.
pub enum ErrorModel {
    BadRequest(Seq<char>),
    TooLarge(Seq<char>),
    Io(Seq<char>),
    Tls(Seq<char>),
    Compress(Seq<char>),
    Config(Seq<char>),
    Acme(Seq<char>),
}

impl View for Error {
    type V = ErrorModel;

    open spec fn view(&self) -> ErrorModel {
        match self {
            Error::BadRequest(s) => ErrorModel::BadRequest(s@),
            Error::TooLarge(s) => ErrorModel::TooLarge(s@),
            Error::Io(s) => ErrorModel::Io(s@),
            Error::Tls(s) => ErrorModel::Tls(s@),
            Error::Compress(s) => ErrorModel::Compress(s@),
            Error::Config(s) => ErrorModel::Config(s@),
            Error::Acme(s) => ErrorModel::Acme(s@),
        }
    }
}

impl ErrorModel {
    /// The message that an error prints.
    pub open spec fn message(self) -> Seq<char> {
        match self {
            ErrorModel::BadRequest(s) => "bad request: "@ + s,
            ErrorModel::TooLarge(s) => "request too large: "@ + s,
            ErrorModel::Io(s) => "io error: "@ + s,
            ErrorModel::Tls(s) => "tls error: "@ + s,
            ErrorModel::Compress(s) => "compression error: "@ + s,
            ErrorModel::Config(s) => "config error: "@ + s,
            ErrorModel::Acme(s) => "acme error: "@ + s,
        }
    }
}

impl Error {
    /// The message that the error prints.
    pub fn message(&self) -> (r: String)
        ensures
            r@ == self@.message(),
    {
        let (prefix, text): (&str, &str) = match self {
            Error::BadRequest(s) => ("bad request: ", s),
            Error::TooLarge(s) => ("request too large: ", s),
            Error::Io(s) => ("io error: ", s.as_str()),
            Error::Tls(s) => ("tls error: ", s.as_str()),
            Error::Compress(s) => ("compression error: ", s.as_str()),
            Error::Config(s) => ("config error: ", s.as_str()),
            Error::Acme(s) => ("acme error: ", s.as_str()),
        };
        let mut out: String = String::new();
        out.push_str(prefix);
        out.push_str(text);
        proof {
            assert(out@ =~= prefix@ + text@);
        }
        out
    }
}

/// Convenience alias used throughout the crate.
pub type Result<T> = std::result::Result<T, Error>;

// ---------------------------------------------------------------------------
// Laws
// ---------------------------------------------------------------------------

/// An error prints its kind and what it is about.
pub proof fn law_messages(s: Seq<char>)
    ensures
        ErrorModel::BadRequest(s).message() == "bad request: "@ + s,
        ErrorModel::TooLarge(s).message() == "request too large: "@ + s,
        ErrorModel::Io(s).message() == "io error: "@ + s,
        ErrorModel::Tls(s).message() == "tls error: "@ + s,
        ErrorModel::Compress(s).message() == "compression error: "@ + s,
        ErrorModel::Config(s).message() == "config error: "@ + s,
        ErrorModel::Acme(s).message() == "acme error: "@ + s,
{
}

} // verus!
