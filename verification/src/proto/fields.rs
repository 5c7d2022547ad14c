//! Shared logic for building a request head from HTTP/2 or HTTP/3 header
//! fields, and a response's header fields for them (both use the same
//! pseudo-header model, RFC 9113 section 8.3 and RFC 9114 section 4.3).
use crate::bytes::{bytes_are, copy_of};
use crate::proto::headers::{lookup, with_default, Fields, Headers};
use crate::proto::message_laws::{lemma_ascii_bytes, lemma_encode_injective};
use crate::proto::method::{Method, MethodModel};
use crate::proto::status::StatusCode;
use crate::text::{
    chars_are, chars_of, decimal, decimal_string, lossy, lower, string_from_utf8_lossy, to_lower,
};
use vstd::prelude::*;
use vstd::utf8::encode_utf8;

verus! {

broadcast use vstd::seq::group_seq_axioms;

/// The model of a list of raw header fields.
pub type RawFields = Seq<(Seq<u8>, Seq<u8>)>;

/// The model of owned raw header fields.
pub open spec fn raw_model(v: Seq<(Vec<u8>, Vec<u8>)>) -> RawFields {
    v.map_values(|p: (Vec<u8>, Vec<u8>)| (p.0@, p.1@))
}

/// A request line reconstructed from header fields, before the body is known.
pub struct RequestHead {
    pub method: Method,
    pub target: String,
    pub headers: Headers,
}

/// The model of a request head.
#[verifier::ext_equal]
pub struct RequestHeadModel {
    pub method: MethodModel,
    pub target: Seq<char>,
    pub headers: Fields,
}

impl View for RequestHead {
    type V = RequestHeadModel;

    open spec fn view(&self) -> RequestHeadModel {
        RequestHeadModel { method: self.method@, target: self.target@, headers: self.headers@ }
    }
}

/// What has been gathered from the fields so far.
#[verifier::ext_equal]
pub struct Gathered {
    pub method: Option<Seq<char>>,
    pub path: Option<Seq<char>>,
    pub authority: Option<Seq<char>>,
    pub scheme: Option<Seq<char>>,
    pub headers: Fields,
    pub seen_regular: bool,
}

/// Before any field.
pub open spec fn nothing_gathered() -> Gathered {
    Gathered {
        method: None,
        path: None,
        authority: None,
        scheme: None,
        headers: Seq::empty(),
        seen_regular: false,
    }
}

/// Whether a field name is a pseudo-header's.
pub open spec fn is_pseudo(name: Seq<u8>) -> bool {
    name.len() > 0 && name[0] == 58
}

/// Whether a regular field may not appear: its name has an upper-case letter,
/// or it is specific to an HTTP/1 connection.
pub open spec fn forbidden(name: Seq<u8>, value: Seq<u8>) -> bool {
    ||| exists|i: int| 0 <= i < name.len() && 65 <= #[trigger] name[i] <= 90
    ||| name == encode_utf8("connection"@)
    ||| name == encode_utf8("keep-alive"@)
    ||| name == encode_utf8("proxy-connection"@)
    ||| name == encode_utf8("transfer-encoding"@)
    ||| name == encode_utf8("upgrade"@)
    ||| name == encode_utf8("te"@) && value != encode_utf8("trailers"@)
}

/// One more field: pseudo-headers come first, each known one at most once;
/// regular fields are kept in order.
pub open spec fn gather(g: Gathered, name: Seq<u8>, value: Seq<u8>) -> Option<Gathered> {
    if is_pseudo(name) {
        let val = lossy(value);
        if g.seen_regular {
            None
        } else if name == encode_utf8(":method"@) {
            if g.method is Some {
                None
            } else {
                Some(Gathered { method: Some(val), ..g })
            }
        } else if name == encode_utf8(":path"@) {
            if g.path is Some {
                None
            } else {
                Some(Gathered { path: Some(val), ..g })
            }
        } else if name == encode_utf8(":authority"@) {
            if g.authority is Some {
                None
            } else {
                Some(Gathered { authority: Some(val), ..g })
            }
        } else if name == encode_utf8(":scheme"@) {
            if g.scheme is Some {
                None
            } else {
                Some(Gathered { scheme: Some(val), ..g })
            }
        } else {
            None
        }
    } else if forbidden(name, value) {
        None
    } else {
        Some(
            Gathered {
                headers: g.headers.push((lossy(name), lossy(value))),
                seen_regular: true,
                ..g
            },
        )
    }
}

/// What the fields amount to together, unless one of them is out of place.
pub open spec fn gathered(f: RawFields) -> Option<Gathered>
    decreases f.len(),
{
    if f.len() == 0 {
        Some(nothing_gathered())
    } else {
        match gathered(f.drop_last()) {
            None => None,
            Some(g) => gather(g, f.last().0, f.last().1),
        }
    }
}

/// The request head that header fields spell, if they obey the pseudo-header
/// rules and name a method and a non-empty path. `:authority` stands in for a
/// missing `host`.
pub open spec fn request_head_of(f: RawFields) -> Option<RequestHeadModel> {
    match gathered(f) {
        None => None,
        Some(g) => match (g.method, g.path) {
            (Some(m), Some(p)) => if p.len() == 0 {
                None
            } else {
                Some(
                    RequestHeadModel {
                        method: MethodModel::of_token(m),
                        target: p,
                        headers: match g.authority {
                            Some(a) => with_default(g.headers, "host"@, a),
                            None => g.headers,
                        },
                    },
                )
            },
            _ => None,
        },
    }
}

fn is_forbidden(name: &[u8], value: &[u8]) -> (r: bool)
    ensures
        r == forbidden(name@, value@),
{
    let mut i: usize = 0;
    while i < name.len()
        invariant
            i <= name@.len(),
            forall|j: int| 0 <= j < i ==> !(65 <= #[trigger] name@[j] <= 90),
        decreases name@.len() - i,
    {
        if 65 <= name[i] && name[i] <= 90 {
            return true;
        }
        i += 1;
    }
    bytes_are(name, "connection") || bytes_are(name, "keep-alive") || bytes_are(
        name,
        "proxy-connection",
    ) || bytes_are(name, "transfer-encoding") || bytes_are(name, "upgrade") || (bytes_are(
        name,
        "te",
    ) && !bytes_are(value, "trailers"))
}

spec fn opt_view(o: Option<String>) -> Option<Seq<char>> {
    match o {
        Some(s) => Some(s@),
        None => None,
    }
}

fn set_once(slot: &mut Option<String>, value: String) -> (r: core::result::Result<(), ()>)
    ensures
        r is Ok <==> *old(slot) is None,
        r is Ok ==> opt_view(*final(slot)) == Some(value@),
        r is Err ==> *final(slot) == *old(slot),
{
    if slot.is_some() {
        return Err(());
    }
    *slot = Some(value);
    Ok(())
}

proof fn lemma_gathered_fails(f: RawFields, i: int)
    requires
        0 <= i <= f.len(),
        gathered(f.take(i)) is None,
    ensures
        gathered(f) is None,
    decreases f.len() - i,
{
    if i == f.len() {
        assert(f.take(i) =~= f);
    } else {
        assert(f.take(i + 1).drop_last() =~= f.take(i));
        lemma_gathered_fails(f, i + 1);
    }
}

/// Build a request head from an ordered list of `(name, value)` header fields,
/// validating the pseudo-header rules common to HTTP/2 and HTTP/3:
///
/// - pseudo-headers (`:method`, `:path`, `:scheme`, `:authority`) must precede
///   regular fields and may not repeat;
/// - field names must be lowercase;
/// - connection-specific headers are forbidden;
/// - `:method` and a non-empty `:path` are required.
pub fn request_head(fields: &Vec<(Vec<u8>, Vec<u8>)>) -> (r: core::result::Result<RequestHead, ()>)
    ensures
        match (r, request_head_of(raw_model(fields@))) {
            (Ok(h), Some(m)) => h@ == m,
            (Err(_), None) => true,
            _ => false,
        },
{
    let mut method: Option<String> = None;
    let mut path: Option<String> = None;
    let mut authority: Option<String> = None;
    let mut scheme: Option<String> = None;
    let mut headers = Headers::new();
    let mut seen_regular: bool = false;
    let ghost f = raw_model(fields@);
    let mut i: usize = 0;
    proof {
        assert(f.take(0) =~= Seq::empty());
    }
    while i < fields.len()
        invariant
            i <= fields@.len(),
            f == raw_model(fields@),
            gathered(f.take(i as int)) == Some(
                Gathered {
                    method: opt_view(method),
                    path: opt_view(path),
                    authority: opt_view(authority),
                    scheme: opt_view(scheme),
                    headers: headers@,
                    seen_regular,
                },
            ),
        decreases fields@.len() - i,
    {
        let name = fields[i].0.as_slice();
        let value = fields[i].1.as_slice();
        proof {
            assert(f[i as int] == (name@, value@));
            assert(f.take(i as int + 1).drop_last() =~= f.take(i as int));
            assert(f.take(i as int + 1).last() == f[i as int]);
            if gathered(f.take(i as int + 1)) is None {
                lemma_gathered_fails(f, i as int + 1);
            }
        }
        if name.len() > 0 && name[0] == 58 {
            if seen_regular {
                return Err(());
            }
            let val = string_from_utf8_lossy(value);
            let ok = if bytes_are(name, ":method") {
                set_once(&mut method, val)
            } else if bytes_are(name, ":path") {
                set_once(&mut path, val)
            } else if bytes_are(name, ":authority") {
                set_once(&mut authority, val)
            } else if bytes_are(name, ":scheme") {
                set_once(&mut scheme, val)
            } else {
                Err(())
            };
            if ok.is_err() {
                return Err(());
            }
        } else {
            if is_forbidden(name, value) {
                return Err(());
            }
            seen_regular = true;
            headers.append(string_from_utf8_lossy(name), string_from_utf8_lossy(value));
        }
        i += 1;
    }
    proof {
        assert(f.take(f.len() as int) =~= f);
    }
    match (method, path) {
        (Some(m), Some(target)) => {
            if target.as_str().is_empty() {
                return Err(());
            }
            let method = Method::parse(m.as_str());
            if let Some(auth) = authority {
                headers.set_if_absent("host", auth);
            }
            Ok(RequestHead { method, target, headers })
        },
        _ => Err(()),
    }
}

// ---------------------------------------------------------------------------
// Response fields
// ---------------------------------------------------------------------------

/// Whether a (lower-cased) field name belongs to the HTTP/1 connection and is
/// illegal in HTTP/2 and HTTP/3.
pub open spec fn hop_by_hop(name: Seq<char>) -> bool {
    ||| name == "connection"@
    ||| name == "keep-alive"@
    ||| name == "proxy-connection"@
    ||| name == "transfer-encoding"@
    ||| name == "upgrade"@
}

/// The regular fields of a response: names lower-cased, hop-by-hop ones gone.
pub open spec fn regular_fields(f: Fields) -> RawFields
    decreases f.len(),
{
    if f.len() == 0 {
        Seq::empty()
    } else {
        let name = lower(f.last().0);
        if hop_by_hop(name) {
            regular_fields(f.drop_last())
        } else {
            regular_fields(f.drop_last()).push((encode_utf8(name), encode_utf8(f.last().1)))
        }
    }
}

/// Whether a field names the server.
pub open spec fn names_server(f: Fields) -> bool {
    exists|i: int| 0 <= i < f.len() && lower((#[trigger] f[i]).0) == "server"@
}

/// The header field list of a response: `:status` first, then the regular
/// fields, then a default `server`.
pub open spec fn response_fields_of(
    status: StatusCode,
    f: Fields,
    server: Option<Seq<char>>,
) -> RawFields {
    let all = seq![(encode_utf8(":status"@), encode_utf8(decimal(status.code as nat)))]
        + regular_fields(f);
    match server {
        Some(s) => if names_server(f) {
            all
        } else {
            all.push((encode_utf8("server"@), encode_utf8(s)))
        },
        None => all,
    }
}

/// Build the response header field list shared by HTTP/2 and HTTP/3: the
/// `:status` pseudo-header first, then the lowercased regular headers with the
/// connection-specific (hop-by-hop) headers dropped. A `server` value is
/// appended when the response doesn't already set one.
pub fn response_fields(status: StatusCode, headers: &Headers, server: Option<&str>) -> (r: Vec<
    (Vec<u8>, Vec<u8>),
>)
    ensures
        raw_model(r@) == response_fields_of(
            status,
            headers@,
            match server {
                Some(s) => Some(s@),
                None => None,
            },
        ),
{
    let mut out: Vec<(Vec<u8>, Vec<u8>)> = Vec::new();
    out.push((copy_of(":status".as_bytes()), decimal_string(status.code() as u64).into_bytes()));
    let ghost f = headers@;
    let ghost first = (encode_utf8(":status"@), encode_utf8(decimal(status.code as nat)));
    let mut has_server: bool = false;
    let mut i: usize = 0;
    proof {
        assert(f.take(0) =~= Seq::empty());
        assert(raw_model(out@) =~= seq![first] + regular_fields(f.take(0)));
    }
    while i < headers.len()
        invariant
            i <= f.len(),
            f == headers@,
            raw_model(out@) == seq![first] + regular_fields(f.take(i as int)),
            has_server == names_server(f.take(i as int)),
        decreases f.len() - i,
    {
        let (name, value) = headers.at(i);
        let low = to_lower(name);
        let lc = chars_of(low.as_str());
        let ghost prev = out@;
        proof {
            assert(f.take(i as int + 1).drop_last() =~= f.take(i as int));
            assert(f.take(i as int + 1).last() == f[i as int]);
            let a = f.take(i as int);
            let b = f.take(i as int + 1);
            assert(forall|j: int| 0 <= j < i ==> a[j] == b[j]);
            if names_server(a) {
                let j = choose|j: int| 0 <= j < a.len() && lower((#[trigger] a[j]).0) == "server"@;
                assert(lower(b[j].0) == "server"@);
            }
            if lower(f[i as int].0) == "server"@ {
                assert(lower(b[i as int].0) == "server"@);
            }
            if names_server(b) {
                let j = choose|j: int| 0 <= j < b.len() && lower((#[trigger] b[j]).0) == "server"@;
                if j < i {
                    assert(lower(a[j].0) == "server"@);
                }
            }
        }
        let hop = chars_are(&lc, "connection") || chars_are(&lc, "keep-alive") || chars_are(
            &lc,
            "proxy-connection",
        ) || chars_are(&lc, "transfer-encoding") || chars_are(&lc, "upgrade");
        if !hop {
            out.push((low.into_bytes(), copy_of(value.as_bytes())));
            proof {
                assert(raw_model(out@) =~= raw_model(prev).push(
                    (encode_utf8(lower(name@)), encode_utf8(value@)),
                ));
                assert(raw_model(out@) =~= seq![first] + regular_fields(f.take(i as int + 1)));
            }
        }
        if chars_are(&lc, "server") {
            has_server = true;
        }
        i += 1;
    }
    proof {
        assert(f.take(f.len() as int) =~= f);
    }
    if !has_server {
        if let Some(s) = server {
            let ghost prev = out@;
            out.push((copy_of("server".as_bytes()), copy_of(s.as_bytes())));
            proof {
                assert(raw_model(out@) =~= raw_model(prev).push(
                    (encode_utf8("server"@), encode_utf8(s@)),
                ));
            }
        }
    }
    out
}

// ---------------------------------------------------------------------------
// Laws
// ---------------------------------------------------------------------------

/// Fields as they are sent.
pub open spec fn sent_fields(f: Fields) -> RawFields {
    f.map_values(|p: (Seq<char>, Seq<char>)| (encode_utf8(p.0), encode_utf8(p.1)))
}

/// Whether fields may stand in a request: their names are not empty, begin with no
/// colon, have no capital letters, and are none that belong to an HTTP/1 connection.
pub open spec fn regular(f: Fields) -> bool {
    forall|i: int|
        0 <= i < f.len() ==> {
            let n = (#[trigger] f[i]).0;
            &&& n.len() > 0 && n[0] != ':'
            &&& forall|k: int| 0 <= k < n.len() ==> !('A' <= #[trigger] n[k] && n[k] <= 'Z')
            &&& n != "connection"@ && n != "keep-alive"@ && n != "proxy-connection"@
            &&& n != "transfer-encoding"@ && n != "upgrade"@
            &&& n == "te"@ ==> f[i].1 == "trailers"@
        }
}

proof fn lemma_regular_name(n: Seq<char>, v: Seq<char>)
    requires
        regular(seq![(n, v)]),
    ensures
        !is_pseudo(encode_utf8(n)),
        !forbidden(encode_utf8(n), encode_utf8(v)),
{
    let f = seq![(n, v)];
    assert(f[0].0 == n && f[0].1 == v);
    let b = encode_utf8(n);
    lemma_ascii_bytes(n);
    assert forall|k: int| 0 <= k < b.len() implies !(65 <= #[trigger] b[k] <= 90) by {
        if 65 <= b[k] <= 90 {
            let j = choose|j: int| 0 <= j < n.len() && n[j] == b[k] as char;
            assert('A' <= n[j] && n[j] <= 'Z');
        }
    }
    if b == encode_utf8("connection"@) {
        lemma_encode_injective(n, "connection"@);
    }
    if b == encode_utf8("keep-alive"@) {
        lemma_encode_injective(n, "keep-alive"@);
    }
    if b == encode_utf8("proxy-connection"@) {
        lemma_encode_injective(n, "proxy-connection"@);
    }
    if b == encode_utf8("transfer-encoding"@) {
        lemma_encode_injective(n, "transfer-encoding"@);
    }
    if b == encode_utf8("upgrade"@) {
        lemma_encode_injective(n, "upgrade"@);
    }
    if b == encode_utf8("te"@) {
        lemma_encode_injective(n, "te"@);
    }
}

proof fn lemma_text_is_read(s: Seq<char>)
    ensures
        lossy(encode_utf8(s)) == s,
{
    vstd::utf8::encode_utf8_valid_utf8(s);
    vstd::utf8::encode_utf8_decode_utf8(s);
}

proof fn lemma_pseudo_names()
    ensures
        is_pseudo(encode_utf8(":method"@)),
        is_pseudo(encode_utf8(":path"@)),
        is_pseudo(encode_utf8(":scheme"@)),
        is_pseudo(encode_utf8(":authority"@)),
        encode_utf8(":method"@) != encode_utf8(":path"@),
        encode_utf8(":method"@) != encode_utf8(":scheme"@),
        encode_utf8(":method"@) != encode_utf8(":authority"@),
        encode_utf8(":path"@) != encode_utf8(":scheme"@),
        encode_utf8(":path"@) != encode_utf8(":authority"@),
        encode_utf8(":scheme"@) != encode_utf8(":authority"@),
{
    reveal_strlit(":method");
    reveal_strlit(":path");
    reveal_strlit(":scheme");
    reveal_strlit(":authority");
    lemma_colon_first(":method"@);
    lemma_colon_first(":path"@);
    lemma_colon_first(":scheme"@);
    lemma_colon_first(":authority"@);
    vstd::utf8::encode_utf8_decode_utf8(":method"@);
    vstd::utf8::encode_utf8_decode_utf8(":path"@);
    vstd::utf8::encode_utf8_decode_utf8(":scheme"@);
    vstd::utf8::encode_utf8_decode_utf8(":authority"@);
    assert(":method"@[1] == 'm');
    assert(":scheme"@[1] == 's');
}

proof fn lemma_colon_first(s: Seq<char>)
    requires
        s.len() > 0,
        s[0] == ':',
    ensures
        is_pseudo(encode_utf8(s)),
{
    assert(58u32 & 0x7F == 58u32) by (bit_vector);
    assert(':' as u32 == 58u32);
    assert(encode_utf8(s)[0] == vstd::utf8::encode_scalar(58u32)[0]);
}

proof fn lemma_regular_gathered(g: Gathered, pre: RawFields, f: Fields)
    requires
        gathered(pre) == Some(g),
        regular(f),
    ensures
        gathered(pre + sent_fields(f)) == Some(
            Gathered { headers: g.headers + f, seen_regular: g.seen_regular || f.len() > 0, ..g },
        ),
    decreases f.len(),
{
    let all = pre + sent_fields(f);
    if f.len() == 0 {
        assert(all =~= pre);
        assert(g.headers + f =~= g.headers);
    } else {
        let rest = f.drop_last();
        let p = f.last();
        assert(f[f.len() - 1] == p);
        assert(regular(seq![(p.0, p.1)]));
        lemma_regular_name(p.0, p.1);
        assert(regular(rest)) by {
            assert forall|i: int| 0 <= i < rest.len() implies #[trigger] rest[i] == f[i] by {}
        }
        lemma_regular_gathered(g, pre, rest);
        assert(all.drop_last() =~= pre + sent_fields(rest));
        assert(all.last() == (encode_utf8(p.0), encode_utf8(p.1)));
        lemma_text_is_read(p.0);
        lemma_text_is_read(p.1);
        assert((g.headers + rest).push(p) =~= g.headers + f);
    }
}

/// A request head is what its fields say: the method and the target of the
/// pseudo-headers, and the regular fields in order, with the authority for a host
/// where none is named.
pub proof fn law_head_is_what_its_fields_say(
    method: Seq<char>,
    scheme: Seq<char>,
    authority: Seq<char>,
    path: Seq<char>,
    f: Fields,
)
    requires
        path.len() > 0,
        regular(f),
    ensures
        ({
            let pseudo: Fields = seq![
                (":method"@, method),
                (":scheme"@, scheme),
                (":authority"@, authority),
                (":path"@, path),
            ];
            request_head_of(sent_fields(pseudo + f)) == Some(
                RequestHeadModel {
                    method: MethodModel::of_token(method),
                    target: path,
                    headers: if lookup(f, "host"@) is Some {
                        f
                    } else {
                        f.push(("host"@, authority))
                    },
                },
            )
        }),
{
    let pseudo: Fields = seq![
        (":method"@, method),
        (":scheme"@, scheme),
        (":authority"@, authority),
        (":path"@, path),
    ];
    let p = sent_fields(pseudo);
    lemma_pseudo_names();
    lemma_text_is_read(method);
    lemma_text_is_read(scheme);
    lemma_text_is_read(authority);
    lemma_text_is_read(path);
    let p3 = p.drop_last();
    let p2 = p3.drop_last();
    let p1 = p2.drop_last();
    assert(p1.drop_last() =~= Seq::empty());
    assert(gathered(p1.drop_last()) == Some(nothing_gathered()));
    assert(p1.last() == (encode_utf8(":method"@), encode_utf8(method)));
    assert(p2.last() == (encode_utf8(":scheme"@), encode_utf8(scheme)));
    assert(p3.last() == (encode_utf8(":authority"@), encode_utf8(authority)));
    assert(p.last() == (encode_utf8(":path"@), encode_utf8(path)));
    assert(gathered(p1) == Some(Gathered { method: Some(method), ..nothing_gathered() }));
    assert(gathered(p2) == Some(
        Gathered { method: Some(method), scheme: Some(scheme), ..nothing_gathered() },
    ));
    assert(gathered(p3) == Some(
        Gathered {
            method: Some(method),
            scheme: Some(scheme),
            authority: Some(authority),
            ..nothing_gathered()
        },
    ));
    let g = Gathered {
        method: Some(method),
        scheme: Some(scheme),
        authority: Some(authority),
        path: Some(path),
        ..nothing_gathered()
    };
    assert(gathered(p) == Some(g));
    lemma_regular_gathered(g, p, f);
    assert(sent_fields(pseudo + f) =~= p + sent_fields(f));
    assert(g.headers + f =~= f);
}

/// A pseudo-header behind a regular field, an unknown one, or one that comes twice
/// makes a request malformed, and so does a capital letter in a name.
pub proof fn law_malformed_heads_are_refused(f: RawFields, i: int, j: int)
    requires
        0 <= i < j < f.len(),
        ({
            ||| !is_pseudo(f[i].0) && is_pseudo(f[j].0)
            ||| is_pseudo(f[j].0) && f[i].0 == f[j].0
            ||| is_pseudo(f[j].0) && f[j].0 != encode_utf8(":method"@) && f[j].0 != encode_utf8(
                ":path"@,
            ) && f[j].0 != encode_utf8(":scheme"@) && f[j].0 != encode_utf8(":authority"@)
            ||| !is_pseudo(f[j].0) && exists|k: int| 0 <= k < f[j].0.len() && 65 <= #[trigger] f[j].0[k] <= 90
        }),
    ensures
        request_head_of(f) is None,
{
    let t = f.take(j + 1);
    assert(t.drop_last() =~= f.take(j));
    assert(t.last() == f[j]);
    if gathered(f.take(j)) is Some {
        lemma_gathered_so_far(f.take(j), i);
        assert(f.take(j)[i] == f[i]);
    }
    assert(gathered(t) is None);
    lemma_gathered_fails(f, j + 1);
}

/// What has been gathered has the fields that came.
proof fn lemma_gathered_so_far(f: RawFields, i: int)
    requires
        0 <= i < f.len(),
        gathered(f) is Some,
    ensures
        ({
            let g = gathered(f)->0;
            &&& !is_pseudo(f[i].0) ==> g.seen_regular
            &&& is_pseudo(f[i].0) && f[i].0 == encode_utf8(":method"@) ==> g.method is Some
            &&& is_pseudo(f[i].0) && f[i].0 == encode_utf8(":path"@) ==> g.path is Some
            &&& is_pseudo(f[i].0) && f[i].0 == encode_utf8(":scheme"@) ==> g.scheme is Some
            &&& is_pseudo(f[i].0) && f[i].0 == encode_utf8(":authority"@) ==> g.authority is Some
        }),
    decreases f.len(),
{
    lemma_pseudo_names();
    if i < f.len() - 1 {
        lemma_gathered_so_far(f.drop_last(), i);
        assert(f.drop_last()[i] == f[i]);
    }
}

/// A request without a method or without a path is malformed.
pub proof fn law_method_and_path_are_required(f: RawFields)
    requires
        (forall|i: int| 0 <= i < f.len() ==> (#[trigger] f[i]).0 != encode_utf8(":method"@)) || (
        forall|i: int| 0 <= i < f.len() ==> (#[trigger] f[i]).0 != encode_utf8(":path"@)),
    ensures
        request_head_of(f) is None,
{
    lemma_pseudo_names();
    if gathered(f) is Some {
        if forall|i: int| 0 <= i < f.len() ==> (#[trigger] f[i]).0 != encode_utf8(":method"@) {
            lemma_never_gathered(f, true);
        } else {
            lemma_never_gathered(f, false);
        }
    }
}

proof fn lemma_never_gathered(f: RawFields, method: bool)
    requires
        gathered(f) is Some,
        method ==> forall|i: int| 0 <= i < f.len() ==> (#[trigger] f[i]).0 != encode_utf8(":method"@),
        !method ==> forall|i: int| 0 <= i < f.len() ==> (#[trigger] f[i]).0 != encode_utf8(":path"@),
    ensures
        method ==> gathered(f)->0.method is None,
        !method ==> gathered(f)->0.path is None,
    decreases f.len(),
{
    if f.len() > 0 {
        let g = f.drop_last();
        assert forall|i: int| 0 <= i < g.len() implies #[trigger] g[i] == f[i] by {}
        if method {
            assert(f[f.len() - 1].0 != encode_utf8(":method"@));
        } else {
            assert(f[f.len() - 1].0 != encode_utf8(":path"@));
        }
        lemma_never_gathered(g, method);
    }
}

/// The fields of a response are its status as a decimal number and then its own,
/// with names in lower case and in order, but for those that belong to an HTTP/1
/// connection; the server is named last, if nothing named it.
pub proof fn law_response_fields(status: StatusCode, f: Fields, server: Option<Seq<char>>)
    requires
        forall|i: int| 0 <= i < f.len() ==> !hop_by_hop(lower((#[trigger] f[i]).0)),
    ensures
        ({
            let own: Fields = f.map_values(|p: (Seq<char>, Seq<char>)| (lower(p.0), p.1));
            let first: Fields = seq![(":status"@, decimal(status.code as nat))];
            let named = exists|i: int| 0 <= i < f.len() && lower((#[trigger] f[i]).0) == "server"@;
            response_fields_of(status, f, server) == sent_fields(
                first + own + match server {
                    Some(s) => if named {
                        Seq::empty()
                    } else {
                        seq![("server"@, s)]
                    },
                    None => Seq::empty(),
                },
            )
        }),
{
    let own: Fields = f.map_values(|p: (Seq<char>, Seq<char>)| (lower(p.0), p.1));
    let first: Fields = seq![(":status"@, decimal(status.code as nat))];
    lemma_own_fields(f);
    let named = exists|i: int| 0 <= i < f.len() && lower((#[trigger] f[i]).0) == "server"@;
    let tail: Fields = match server {
        Some(s) => if named {
            Seq::empty()
        } else {
            seq![("server"@, s)]
        },
        None => Seq::empty(),
    };
    assert(response_fields_of(status, f, server) =~= sent_fields(first + own + tail));
}

proof fn lemma_own_fields(f: Fields)
    requires
        forall|i: int| 0 <= i < f.len() ==> !hop_by_hop(lower((#[trigger] f[i]).0)),
    ensures
        regular_fields(f) == sent_fields(
            f.map_values(|p: (Seq<char>, Seq<char>)| (lower(p.0), p.1)),
        ),
    decreases f.len(),
{
    let own: Fields = f.map_values(|p: (Seq<char>, Seq<char>)| (lower(p.0), p.1));
    if f.len() > 0 {
        let g = f.drop_last();
        assert forall|i: int| 0 <= i < g.len() implies !hop_by_hop(lower((#[trigger] g[i]).0)) by {
            assert(g[i] == f[i]);
        }
        assert(!hop_by_hop(lower(f[f.len() - 1].0)));
        lemma_own_fields(g);
    }
    assert(regular_fields(f) =~= sent_fields(own));
}

/// Fields that belong to an HTTP/1 connection do not go out, and the others are as
/// they are without them.
pub proof fn law_connection_fields_stay_behind(f: Fields, i: int)
    requires
        0 <= i < f.len(),
        ({
            let n = lower(f[i].0);
            n == "connection"@ || n == "keep-alive"@ || n == "proxy-connection"@ || n
                == "transfer-encoding"@ || n == "upgrade"@
        }),
    ensures
        regular_fields(f) == regular_fields(f.remove(i)),
    decreases f.len(),
{
    if i == f.len() - 1 {
        assert(f.remove(i) =~= f.drop_last());
    } else {
        let g = f.drop_last();
        assert(g[i] == f[i]);
        law_connection_fields_stay_behind(g, i);
        assert(f.remove(i).drop_last() =~= g.remove(i));
        assert(f.remove(i).last() == f.last());
    }
}

} // verus!
