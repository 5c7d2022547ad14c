//! Parsed HTTP requests.
use crate::proto::headers::{lookup, Fields, Headers};
use crate::proto::method::{Method, MethodModel};
use crate::proto::version::Version;
use crate::text::{chars_find, chars_of, find_char, lemma_find_char, lossy, str_eq};
use vstd::prelude::*;
use vstd::string::StrSliceExecFns;

verus! {

broadcast use vstd::seq::group_seq_axioms;

/// A fully-received HTTP request: the request line, headers, and a fully
/// buffered body, plus the path parameters a router captured.
#[derive(Debug)]
pub struct Request {
    method: Method,
    target: String,
    version: Version,
    headers: Headers,
    body: Vec<u8>,
    params: Vec<(String, String)>,
}

/// The model of a request.
#[verifier::ext_equal]
pub struct RequestModel {
    pub method: MethodModel,
    pub target: Seq<char>,
    pub version: Version,
    pub headers: Fields,
    pub body: Seq<u8>,
    pub params: Fields,
}

impl View for Request {
    type V = RequestModel;

    closed spec fn view(&self) -> RequestModel {
        RequestModel {
            method: self.method@,
            target: self.target@,
            version: self.version,
            headers: self.headers@,
            body: self.body@,
            params: self.params@.map_values(|p: (String, String)| (p.0@, p.1@)),
        }
    }
}

/// The path portion of a target: everything before the first `?`.
pub open spec fn path_of(target: Seq<char>) -> Seq<char> {
    match find_char(target, '?') {
        Some(i) => target.take(i),
        None => target,
    }
}

/// The query string of a target, without the leading `?`.
pub open spec fn query_of(target: Seq<char>) -> Option<Seq<char>> {
    match find_char(target, '?') {
        Some(i) => Some(target.skip(i + 1)),
        None => None,
    }
}

/// The value of the first parameter with exactly this name.
pub open spec fn param_of(params: Fields, name: Seq<char>) -> Option<Seq<char>>
    decreases params.len(),
{
    if params.len() == 0 {
        None
    } else if params[0].0 == name {
        Some(params[0].1)
    } else {
        param_of(params.skip(1), name)
    }
}

impl Clone for Request {
    fn clone(&self) -> (r: Request)
        ensures
            r@ == self@,
    {
        let mut params: Vec<(String, String)> = Vec::new();
        let ghost g = |p: (String, String)| (p.0@, p.1@);
        let mut i: usize = 0;
        while i < self.params.len()
            invariant
                i <= self.params@.len(),
                g == (|p: (String, String)| (p.0@, p.1@)),
                params@.map_values(g) == self.params@.map_values(g).take(i as int),
            decreases self.params@.len() - i,
        {
            let ghost before = params@;
            params.push((self.params[i].0.clone(), self.params[i].1.clone()));
            i += 1;
            proof {
                let all = self.params@.map_values(g);
                assert(params@.map_values(g) =~= before.map_values(g).push(all[i - 1]));
                assert(all.take(i as int) =~= all.take(i - 1).push(all[i - 1]));
            }
        }
        let r = Request {
            method: self.method.clone(),
            target: self.target.clone(),
            version: self.version,
            headers: self.headers.clone(),
            body: crate::bytes::copy_of(self.body.as_slice()),
            params,
        };
        proof {
            let all = self.params@.map_values(g);
            assert(all.take(all.len() as int) =~= all);
            assert(r@ =~= self@);
        }
        r
    }
}

impl Request {
    /// Assemble a request from its parts, without path parameters.
    pub fn new(
        method: Method,
        target: String,
        version: Version,
        headers: Headers,
        body: Vec<u8>,
    ) -> (r: Request)
        ensures
            r@ == (RequestModel {
                method: method@,
                target: target@,
                version,
                headers: headers@,
                body: body@,
                params: Seq::empty(),
            }),
    {
        let r = Request { method, target, version, headers, body, params: Vec::new() };
        proof {
            assert(r@.params =~= Seq::empty());
        }
        r
    }

    /// The request method.
    pub fn method(&self) -> (r: &Method)
        ensures
            r@ == self@.method,
    {
        &self.method
    }

    /// The raw request target (origin-form path, possibly with a query string),
    /// exactly as sent on the request line.
    pub fn target(&self) -> (r: &str)
        ensures
            r@ == self@.target,
    {
        self.target.as_str()
    }

    /// The path portion of the target, i.e. everything before the first `?`.
    pub fn path(&self) -> (r: &str)
        ensures
            r@ == path_of(self@.target),
    {
        let c = chars_of(self.target.as_str());
        match chars_find(&c, '?') {
            Some(i) => {
                proof {
                    assert(self.target@.subrange(0, i as int) =~= self.target@.take(i as int));
                }
                self.target.as_str().substring_char(0, i)
            },
            None => self.target.as_str(),
        }
    }

    /// The query string (without the leading `?`), if present.
    pub fn query(&self) -> (r: Option<&str>)
        ensures
            match (r, query_of(self@.target)) {
                (Some(a), Some(b)) => a@ == b,
                (None, None) => true,
                _ => false,
            },
    {
        let c = chars_of(self.target.as_str());
        let n: usize = c.len();
        match chars_find(&c, '?') {
            Some(i) => {
                proof {
                    assert(self.target@.subrange(i as int + 1, n as int) =~= self.target@.skip(
                        i as int + 1,
                    ));
                }
                Some(self.target.as_str().substring_char(i + 1, n))
            },
            None => None,
        }
    }

    /// The HTTP version.
    pub fn version(&self) -> (r: Version)
        ensures
            r == self@.version,
    {
        self.version
    }

    /// The request headers.
    pub fn headers(&self) -> (r: &Headers)
        ensures
            r@ == self@.headers,
    {
        &self.headers
    }

    /// The value of the `Host` header, if any.
    pub fn host(&self) -> (r: Option<&str>)
        ensures
            match (r, lookup(self@.headers, "host"@)) {
                (Some(a), Some(b)) => a@ == b,
                (None, None) => true,
                _ => false,
            },
    {
        self.headers.get("host")
    }

    /// The buffered request body.
    pub fn body(&self) -> (r: &[u8])
        ensures
            r@ == self@.body,
    {
        self.body.as_slice()
    }

    /// The request body interpreted as UTF-8 (lossily).
    pub fn body_str(&self) -> (r: String)
        ensures
            r@ == lossy(self@.body),
    {
        crate::text::string_from_utf8_lossy(self.body.as_slice())
    }

    /// Consume the request and return the owned body bytes.
    pub fn into_body(self) -> (r: Vec<u8>)
        ensures
            r@ == self@.body,
    {
        self.body
    }

    /// Replace the path parameters captured by a router.
    pub fn set_params(&mut self, params: Vec<(String, String)>)
        ensures
            final(self)@ == (RequestModel {
                params: params@.map_values(|p: (String, String)| (p.0@, p.1@)),
                ..old(self)@
            }),
    {
        self.params = params;
    }

    /// The path parameter captured under `name`, if any.
    pub fn param(&self, name: &str) -> (r: Option<&str>)
        ensures
            match (r, param_of(self@.params, name@)) {
                (Some(a), Some(b)) => a@ == b,
                (None, None) => true,
                _ => false,
            },
    {
        let ghost f = self@.params;
        let mut i: usize = 0;
        proof {
            assert(f.skip(0) =~= f);
        }
        while i < self.params.len()
            invariant
                i <= self.params@.len(),
                f == self@.params,
                param_of(f.skip(i as int), name@) == param_of(f, name@),
            decreases self.params@.len() - i,
        {
            proof {
                assert(f.skip(i as int)[0] == f[i as int]);
                assert(f.skip(i as int).skip(1) =~= f.skip(i as int + 1));
            }
            if str_eq(self.params[i].0.as_str(), name) {
                return Some(self.params[i].1.as_str());
            }
            i += 1;
        }
        None
    }
}

/// Path and query together make up the target.
pub proof fn law_target_is_path_and_query(target: Seq<char>)
    ensures
        target == match query_of(target) {
            Some(q) => path_of(target).push('?') + q,
            None => path_of(target),
        },
{
    lemma_find_char(target, '?');
    match find_char(target, '?') {
        Some(i) => {
            assert(target =~= target.take(i).push('?') + target.skip(i + 1));
        },
        None => {},
    }
}

/// What stands before the first question mark of a target is its path, and what
/// stands behind it is its query, further question marks included.
pub proof fn law_path_and_query(path: Seq<char>, query: Seq<char>)
    requires
        !path.contains('?'),
    ensures
        path_of(path) == path,
        query_of(path) is None,
        path_of(path + seq!['?'] + query) == path,
        query_of(path + seq!['?'] + query) == Some(query),
{
    crate::text::lemma_unsplit(path, '?');
    crate::text::law_split_once(path, query, '?');
    let t = path + seq!['?'] + query;
    lemma_find_char(t, '?');
    let k = find_char(t, '?')->0;
    assert(t[path.len() as int] == '?');
    if k < path.len() {
        assert(path[k] == t[k]);
        assert(path.contains(path[k]));
    }
    assert(t.take(k) =~= path);
    assert(t.skip(k + 1) =~= query);
}

/// A parameter is found under its exact name, the first of that name first.
pub proof fn law_parameters(params: Fields, name: Seq<char>)
    ensures
        match param_of(params, name) {
            Some(v) => exists|i: int|
                0 <= i < params.len() && (#[trigger] params[i]) == (name, v) && forall|j: int|
                    0 <= j < i ==> (#[trigger] params[j]).0 != name,
            None => forall|i: int| 0 <= i < params.len() ==> (#[trigger] params[i]).0 != name,
        },
    decreases params.len(),
{
    if params.len() > 0 {
        if params[0].0 == name {
            assert(params[0] == (name, params[0].1));
        } else {
            let rest = params.skip(1);
            law_parameters(rest, name);
            match param_of(rest, name) {
                Some(v) => {
                    let i = choose|i: int|
                        0 <= i < rest.len() && (#[trigger] rest[i]) == (name, v) && forall|j: int|
                            0 <= j < i ==> (#[trigger] rest[j]).0 != name;
                    assert(params[i + 1] == rest[i]);
                    assert forall|j: int| 0 <= j < i + 1 implies (#[trigger] params[j]).0 != name by {
                        if j > 0 {
                            assert(params[j] == rest[j - 1]);
                        }
                    }
                },
                None => {
                    assert forall|i: int| 0 <= i < params.len() implies (#[trigger] params[i]).0
                        != name by {
                        if i > 0 {
                            assert(params[i] == rest[i - 1]);
                        }
                    }
                },
            }
        }
    }
}

} // verus!
