//! HTTP request methods.
use crate::text::{chars_are, chars_of, str_eq};
use vstd::prelude::*;

verus! {

/// An HTTP request method.
///
/// Common methods are represented as dedicated variants; anything else is kept
/// verbatim in [`Method::Other`] so a request is never rejected purely because
/// its method is unusual.
#[derive(Debug)]
pub enum Method {
    Get,
    Head,
    Post,
    Put,
    Delete,
    Connect,
    Options,
    Trace,
    Patch,
    /// Any other (still syntactically valid) method token.
    Other(String),
}

/// The model of a method.
pub enum MethodModel {
    Get,
    Head,
    Post,
    Put,
    Delete,
    Connect,
    Options,
    Trace,
    Patch,
    Other(Seq<char>),
}

impl View for Method {
    type V = MethodModel;

    open spec fn view(&self) -> MethodModel {
        match self {
            Method::Get => MethodModel::Get,
            Method::Head => MethodModel::Head,
            Method::Post => MethodModel::Post,
            Method::Put => MethodModel::Put,
            Method::Delete => MethodModel::Delete,
            Method::Connect => MethodModel::Connect,
            Method::Options => MethodModel::Options,
            Method::Trace => MethodModel::Trace,
            Method::Patch => MethodModel::Patch,
            Method::Other(s) => MethodModel::Other(s@),
        }
    }
}

impl MethodModel {
    /// The token of a method on the wire.
    pub open spec fn token(self) -> Seq<char> {
        match self {
            MethodModel::Get => "GET"@,
            MethodModel::Head => "HEAD"@,
            MethodModel::Post => "POST"@,
            MethodModel::Put => "PUT"@,
            MethodModel::Delete => "DELETE"@,
            MethodModel::Connect => "CONNECT"@,
            MethodModel::Options => "OPTIONS"@,
            MethodModel::Trace => "TRACE"@,
            MethodModel::Patch => "PATCH"@,
            MethodModel::Other(s) => s,
        }
    }

    /// The method that a token names.
    pub open spec fn of_token(t: Seq<char>) -> MethodModel {
        if t == "GET"@ {
            MethodModel::Get
        } else if t == "HEAD"@ {
            MethodModel::Head
        } else if t == "POST"@ {
            MethodModel::Post
        } else if t == "PUT"@ {
            MethodModel::Put
        } else if t == "DELETE"@ {
            MethodModel::Delete
        } else if t == "CONNECT"@ {
            MethodModel::Connect
        } else if t == "OPTIONS"@ {
            MethodModel::Options
        } else if t == "TRACE"@ {
            MethodModel::Trace
        } else if t == "PATCH"@ {
            MethodModel::Patch
        } else {
            MethodModel::Other(t)
        }
    }
}

impl vstd::std_specs::cmp::PartialEqSpecImpl for Method {
    open spec fn obeys_eq_spec() -> bool {
        true
    }

    open spec fn eq_spec(&self, other: &Method) -> bool {
        self@ == other@
    }
}

impl PartialEq for Method {
    fn eq(&self, other: &Method) -> (r: bool) {
        match (self, other) {
            (Method::Get, Method::Get) => true,
            (Method::Head, Method::Head) => true,
            (Method::Post, Method::Post) => true,
            (Method::Put, Method::Put) => true,
            (Method::Delete, Method::Delete) => true,
            (Method::Connect, Method::Connect) => true,
            (Method::Options, Method::Options) => true,
            (Method::Trace, Method::Trace) => true,
            (Method::Patch, Method::Patch) => true,
            (Method::Other(a), Method::Other(b)) => str_eq(a.as_str(), b.as_str()),
            _ => false,
        }
    }
}

impl Eq for Method {

}

impl Clone for Method {
    fn clone(&self) -> (r: Method)
        ensures
            r@ == self@,
    {
        match self {
            Method::Get => Method::Get,
            Method::Head => Method::Head,
            Method::Post => Method::Post,
            Method::Put => Method::Put,
            Method::Delete => Method::Delete,
            Method::Connect => Method::Connect,
            Method::Options => Method::Options,
            Method::Trace => Method::Trace,
            Method::Patch => Method::Patch,
            Method::Other(s) => Method::Other(s.clone()),
        }
    }
}

impl Method {
    /// Parse a method token from the request line.
    pub fn parse(token: &str) -> (r: Method)
        ensures
            r@ == MethodModel::of_token(token@),
    {
        let c = chars_of(token);
        if chars_are(&c, "GET") {
            Method::Get
        } else if chars_are(&c, "HEAD") {
            Method::Head
        } else if chars_are(&c, "POST") {
            Method::Post
        } else if chars_are(&c, "PUT") {
            Method::Put
        } else if chars_are(&c, "DELETE") {
            Method::Delete
        } else if chars_are(&c, "CONNECT") {
            Method::Connect
        } else if chars_are(&c, "OPTIONS") {
            Method::Options
        } else if chars_are(&c, "TRACE") {
            Method::Trace
        } else if chars_are(&c, "PATCH") {
            Method::Patch
        } else {
            Method::Other(token.to_owned())
        }
    }

    /// The canonical token for this method.
    pub fn as_str(&self) -> (r: &str)
        ensures
            r@ == self@.token(),
    {
        match self {
            Method::Get => "GET",
            Method::Head => "HEAD",
            Method::Post => "POST",
            Method::Put => "PUT",
            Method::Delete => "DELETE",
            Method::Connect => "CONNECT",
            Method::Options => "OPTIONS",
            Method::Trace => "TRACE",
            Method::Patch => "PATCH",
            Method::Other(s) => s.as_str(),
        }
    }

    /// Whether a response to this method must omit its body.
    pub fn is_head(&self) -> (r: bool)
        ensures
            r == (self@ == MethodModel::Head),
    {
        matches!(self, Method::Head)
    }
}

/// Parsing a token and writing the method back yields the token.
pub proof fn law_method_token_round_trip(t: Seq<char>)
    ensures
        MethodModel::of_token(t).token() == t,
{
}

/// The standard methods are named by their own tokens, in capitals, and any other
/// token stands for itself.
pub proof fn law_method_tokens(t: Seq<char>)
    ensures
        MethodModel::of_token("GET"@) == MethodModel::Get,
        MethodModel::Get.token() == "GET"@,
        MethodModel::of_token("HEAD"@) == MethodModel::Head,
        MethodModel::Head.token() == "HEAD"@,
        MethodModel::of_token("POST"@) == MethodModel::Post,
        MethodModel::Post.token() == "POST"@,
        MethodModel::of_token("PUT"@) == MethodModel::Put,
        MethodModel::Put.token() == "PUT"@,
        MethodModel::of_token("DELETE"@) == MethodModel::Delete,
        MethodModel::Delete.token() == "DELETE"@,
        MethodModel::of_token("CONNECT"@) == MethodModel::Connect,
        MethodModel::Connect.token() == "CONNECT"@,
        MethodModel::of_token("OPTIONS"@) == MethodModel::Options,
        MethodModel::Options.token() == "OPTIONS"@,
        MethodModel::of_token("TRACE"@) == MethodModel::Trace,
        MethodModel::Trace.token() == "TRACE"@,
        MethodModel::of_token("PATCH"@) == MethodModel::Patch,
        MethodModel::Patch.token() == "PATCH"@,
        t != "GET"@ && t != "HEAD"@ && t != "POST"@ && t != "PUT"@ && t != "DELETE"@ && t
            != "CONNECT"@ && t != "OPTIONS"@ && t != "TRACE"@ && t != "PATCH"@
            ==> MethodModel::of_token(t) == MethodModel::Other(t),
        MethodModel::Other(t).token() == t,
{
    lemma_tokens();
}

/// The tokens of the standard methods, told apart.
proof fn lemma_tokens()
    ensures
        "GET"@.len() == 3 && "GET"@[0] == 'G',
        "PUT"@.len() == 3 && "PUT"@[0] == 'P',
        "HEAD"@.len() == 4 && "HEAD"@[0] == 'H',
        "POST"@.len() == 4 && "POST"@[0] == 'P',
        "TRACE"@.len() == 5 && "TRACE"@[0] == 'T',
        "PATCH"@.len() == 5 && "PATCH"@[0] == 'P',
        "DELETE"@.len() == 6,
        "CONNECT"@.len() == 7 && "CONNECT"@[0] == 'C',
        "OPTIONS"@.len() == 7 && "OPTIONS"@[0] == 'O',
{
    reveal_strlit("GET");
    reveal_strlit("HEAD");
    reveal_strlit("POST");
    reveal_strlit("PUT");
    reveal_strlit("DELETE");
    reveal_strlit("CONNECT");
    reveal_strlit("OPTIONS");
    reveal_strlit("TRACE");
    reveal_strlit("PATCH");
}

} // verus!
