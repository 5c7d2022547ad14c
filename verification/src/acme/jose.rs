//! The JOSE bits ACME needs: base64url, the account JWK and its thumbprint, and
//! ES256 (ECDSA P-256 / SHA-256) JWS signing (RFC 7515/7518/7638, RFC 8555
//! section 6.2).
use crate::acme::json;
use crate::acme::json::{
    document, escaped, members_text, string_members, string_values, value_at, ValueModel, MAX_INPUT,
};
use crate::bytes::copy_of;
use crate::error::{Error, ErrorModel, Result};
use purecrypto::ec::{BoxedEcdsaPrivateKey, CurveId};
use purecrypto::hash::Sha256;
use vstd::prelude::*;
use vstd::slice::slice_subrange;
use vstd::utf8::encode_utf8;

verus! {

broadcast use vstd::seq::group_seq_axioms;

// ---------------------------------------------------------------------------
// base64url
// ---------------------------------------------------------------------------

/// The character of the URL-safe alphabet for a value below 64.
pub open spec fn url_char(v: int) -> char {
    if v < 26 {
        ('A' as u32 + v) as char
    } else if v < 52 {
        ('a' as u32 + (v - 26)) as char
    } else if v < 62 {
        ('0' as u32 + (v - 52)) as char
    } else if v == 62 {
        '-'
    } else {
        '_'
    }
}

/// base64url without padding: three bytes make four characters, and a rest of
/// one or two bytes makes two or three.
pub open spec fn b64url_of(s: Seq<u8>) -> Seq<char>
    decreases s.len(),
{
    if s.len() == 0 {
        Seq::empty()
    } else if s.len() == 1 {
        seq![url_char(s[0] as int / 4), url_char(s[0] as int % 4 * 16)]
    } else if s.len() == 2 {
        seq![
            url_char(s[0] as int / 4),
            url_char(s[0] as int % 4 * 16 + s[1] as int / 16),
            url_char(s[1] as int % 16 * 4),
        ]
    } else {
        seq![
            url_char(s[0] as int / 4),
            url_char(s[0] as int % 4 * 16 + s[1] as int / 16),
            url_char(s[1] as int % 16 * 4 + s[2] as int / 64),
            url_char(s[2] as int % 64),
        ] + b64url_of(s.skip(3))
    }
}

fn to_url_char(v: u8) -> (r: char)
    requires
        v < 64,
    ensures
        r == url_char(v as int),
{
    if v < 26 {
        (65u8 + v) as char
    } else if v < 52 {
        (97u8 + (v - 26)) as char
    } else if v < 62 {
        (48u8 + (v - 52)) as char
    } else if v == 62 {
        '-'
    } else {
        '_'
    }
}

/// base64url **without** padding (RFC 4648 section 5), the encoding JOSE uses.
pub fn b64url(data: &[u8]) -> (r: String)
    ensures
        r@ == b64url_of(data@),
{
    let n: usize = data.len();
    let mut out: String = String::new();
    let mut i: usize = 0;
    proof {
        assert(data@.skip(0) =~= data@);
        assert(out@ + b64url_of(data@) =~= b64url_of(data@));
    }
    while n - i >= 3
        invariant
            i <= n == data@.len(),
            out@ + b64url_of(data@.skip(i as int)) == b64url_of(data@),
        decreases n - i,
    {
        let (a, b, c): (u8, u8, u8) = (data[i], data[i + 1], data[i + 2]);
        let ghost o = out@;
        out.push(to_url_char(a / 4));
        out.push(to_url_char(a % 4 * 16 + b / 16));
        out.push(to_url_char(b % 16 * 4 + c / 64));
        out.push(to_url_char(c % 64));
        proof {
            let s = data@.skip(i as int);
            assert(s.skip(3) =~= data@.skip(i + 3));
            assert(out@ + b64url_of(s.skip(3)) =~= o + b64url_of(s));
        }
        i += 3;
    }
    let ghost s = data@.skip(i as int);
    let ghost o = out@;
    if n - i == 1 {
        let a: u8 = data[i];
        out.push(to_url_char(a / 4));
        out.push(to_url_char(a % 4 * 16));
    } else if n - i == 2 {
        let (a, b): (u8, u8) = (data[i], data[i + 1]);
        out.push(to_url_char(a / 4));
        out.push(to_url_char(a % 4 * 16 + b / 16));
        out.push(to_url_char(b % 16 * 4));
    }
    proof {
        assert(out@ =~= o + b64url_of(s));
    }
    out
}

// ---------------------------------------------------------------------------
// Keys
// ---------------------------------------------------------------------------

/// The public point of a SEC1-encoded private key, if it is one.
pub uninterp spec fn ec_point_of(key: Seq<u8>) -> Option<Seq<u8>>;

/// The ES256 signature (fixed-width `r || s`) of a message under a SEC1-encoded
/// private key, or why there is none.
pub uninterp spec fn es256_of(key: Seq<u8>, msg: Seq<u8>) -> core::result::Result<Seq<u8>, Seq<char>>;

/// The PEM document of a SEC1-encoded private key.
pub uninterp spec fn ec_pem_of(key: Seq<u8>) -> Option<Seq<char>>;

/// The SEC1 encoding of the private key in a PEM document.
pub uninterp spec fn ec_key_of(pem: Seq<char>) -> Option<Seq<u8>>;

/// The SHA-256 digest of a message.
pub uninterp spec fn sha256_of(msg: Seq<u8>) -> Seq<u8>;

/// Whether a key's public point is uncompressed, with 32-byte coordinates.
pub open spec fn has_p256_point(key: Seq<u8>) -> bool {
    ec_point_of(key) matches Some(p) && coordinates(p) is Some
}

/// `BoxedEcdsaPublicKey::to_sec1` of the public key that
/// `BoxedEcdsaPrivateKey::from_sec1_der` finds.
#[verifier::external_body]
pub(crate) fn ec_point(key: &[u8]) -> (r: Option<Vec<u8>>)
    ensures
        match r {
            Some(p) => ec_point_of(key@) == Some(p@),
            None => ec_point_of(key@) is None,
        },
{
    BoxedEcdsaPrivateKey::from_sec1_der(key).ok().map(|k| k.public_key().to_sec1())
}

/// `BoxedEcdsaPrivateKey::sign` with SHA-256 (the nonce is derived from key and
/// message, RFC 6979), as fixed-width P-256 bytes.
#[verifier::external_body]
pub(crate) fn es256(key: &[u8], msg: &[u8]) -> (r: core::result::Result<Vec<u8>, String>)
    ensures
        match r {
            Ok(s) => es256_of(key@, msg@) == Ok::<Seq<u8>, Seq<char>>(s@),
            Err(e) => es256_of(key@, msg@) == Err::<Seq<u8>, Seq<char>>(e@),
        },
{
    BoxedEcdsaPrivateKey::from_sec1_der(key)
        .and_then(|k| k.sign::<Sha256>(msg))
        .map(|s| s.to_bytes(CurveId::P256))
        .map_err(|e| format!("{e:?}"))
}

/// `BoxedEcdsaPrivateKey::generate` on P-256 with the system's random numbers,
/// SEC1-encoded: a key with an uncompressed point of 32-byte coordinates.
/// Which key is left to chance.
#[verifier::external_body]
pub(crate) fn new_ec_key() -> (r: Vec<u8>)
    ensures
        has_p256_point(r@),
{
    BoxedEcdsaPrivateKey::generate(CurveId::P256, &mut purecrypto::rng::OsRng).to_sec1_der()
}

/// `BoxedEcdsaPrivateKey::to_sec1_pem` of a SEC1-encoded key.
#[verifier::external_body]
pub(crate) fn ec_pem(key: &[u8]) -> (r: Option<String>)
    ensures
        match r {
            Some(s) => ec_pem_of(key@) == Some(s@),
            None => ec_pem_of(key@) is None,
        },
{
    BoxedEcdsaPrivateKey::from_sec1_der(key).ok().map(|k| k.to_sec1_pem())
}

/// `BoxedEcdsaPrivateKey::from_sec1_pem`, SEC1-encoded.
#[verifier::external_body]
pub(crate) fn ec_key(pem: &str) -> (r: Option<Vec<u8>>)
    ensures
        match r {
            Some(k) => ec_key_of(pem@) == Some(k@),
            None => ec_key_of(pem@) is None,
        },
{
    BoxedEcdsaPrivateKey::from_sec1_pem(pem).ok().map(|k| k.to_sec1_der())
}

/// `purecrypto::hash::sha256`.
#[verifier::external_body]
pub(crate) fn sha256(msg: &[u8]) -> (r: Vec<u8>)
    ensures
        r@ == sha256_of(msg@),
        r@.len() == 32,
{
    purecrypto::hash::sha256(msg).to_vec()
}

/// The affine coordinates in an uncompressed SEC1 point with 32-byte
/// coordinates (`0x04 || X || Y`).
pub open spec fn coordinates(point: Seq<u8>) -> Option<(Seq<u8>, Seq<u8>)> {
    if point.len() == 65 && point[0] == 4 {
        Some((point.subrange(1, 33), point.subrange(33, 65)))
    } else {
        None
    }
}

/// Split an uncompressed SEC1 point; anything else has no coordinates.
pub fn xy(point: &[u8]) -> (r: Option<(Vec<u8>, Vec<u8>)>)
    ensures
        match r {
            Some((x, y)) => coordinates(point@) == Some((x@, y@)),
            None => coordinates(point@) is None,
        },
{
    if point.len() == 65 && point[0] == 4 {
        Some((copy_of(slice_subrange(point, 1, 33)), copy_of(slice_subrange(point, 33, 65))))
    } else {
        None
    }
}

/// The public JWK as canonical JSON (members in RFC 7638 order, so that it
/// doubles as the thumbprint input).
pub open spec fn jwk_of(x: Seq<u8>, y: Seq<u8>) -> Seq<char> {
    "{\"crv\":\"P-256\",\"kty\":\"EC\",\"x\":\""@ + b64url_of(x) + "\",\"y\":\""@ + b64url_of(y)
        + "\"}"@
}

/// The JWK of a public point's coordinates.
pub fn jwk(x: &[u8], y: &[u8]) -> (r: String)
    ensures
        r@ == jwk_of(x@, y@),
{
    let mut s: String = String::new();
    s.push_str("{\"crv\":\"P-256\",\"kty\":\"EC\",\"x\":\"");
    s.push_str(b64url(x).as_str());
    s.push_str("\",\"y\":\"");
    s.push_str(b64url(y).as_str());
    s.push_str("\"}");
    proof {
        assert(s@ =~= jwk_of(x@, y@));
    }
    s
}

/// How a JWS identifies its signing key.
pub enum KeyId {
    /// Embed the full public JWK (used only for `newAccount`).
    Jwk,
    /// Reference the account URL via `kid` (used for all other requests).
    Kid(String),
}

impl KeyId {
    /// The account URL, where there is one.
    pub open spec fn kid(self) -> Option<Seq<char>> {
        match self {
            KeyId::Jwk => None,
            KeyId::Kid(kid) => Some(kid@),
        }
    }
}

/// The member that identifies the key: the account URL, or else the whole key.
pub open spec fn auth_member(jwk: Seq<char>, kid: Option<Seq<char>>) -> Seq<char> {
    match kid {
        None => "\"jwk\":"@ + jwk,
        Some(kid) => "\"kid\":\""@ + escaped(kid) + "\""@,
    }
}

/// The protected header of a request.
pub open spec fn protected_of(
    jwk: Seq<char>,
    url: Seq<char>,
    nonce: Seq<char>,
    kid: Option<Seq<char>>,
) -> Seq<char> {
    "{\"alg\":\"ES256\",\"nonce\":\""@ + escaped(nonce) + "\",\"url\":\""@ + escaped(url) + "\","@
        + auth_member(jwk, kid) + "}"@
}

/// Assemble the protected header.
pub fn protected_header(jwk: &str, url: &str, nonce: &str, auth: &KeyId) -> (r: String)
    ensures
        r@ == protected_of(jwk@, url@, nonce@, auth.kid()),
{
    let mut m: String = String::new();
    match auth {
        KeyId::Jwk => {
            m.push_str("\"jwk\":");
            m.push_str(jwk);
        },
        KeyId::Kid(kid) => {
            m.push_str("\"kid\":\"");
            m.push_str(json::escape(kid.as_str()).as_str());
            m.push_str("\"");
        },
    }
    proof {
        assert(m@ =~= auth_member(jwk@, auth.kid()));
    }
    let mut s: String = String::new();
    s.push_str("{\"alg\":\"ES256\",\"nonce\":\"");
    s.push_str(json::escape(nonce).as_str());
    s.push_str("\",\"url\":\"");
    s.push_str(json::escape(url).as_str());
    s.push_str("\",");
    s.push_str(m.as_str());
    s.push_str("}");
    proof {
        assert(s@ =~= protected_of(jwk@, url@, nonce@, auth.kid()));
    }
    s
}

/// What is signed: header and payload, each base64url, joined by a dot.
pub open spec fn signing_input(protected: Seq<char>, payload: Seq<char>) -> Seq<char> {
    b64url_of(encode_utf8(protected)) + seq!['.'] + b64url_of(encode_utf8(payload))
}

/// The members of a flattened JWS, each a JSON string.
pub open spec fn jws_members(protected: Seq<char>, payload: Seq<char>, sig: Seq<u8>) -> Seq<
    (Seq<char>, Seq<char>),
> {
    seq![
        ("protected"@, b64url_of(encode_utf8(protected))),
        ("payload"@, b64url_of(encode_utf8(payload))),
        ("signature"@, b64url_of(sig)),
    ]
}

/// A text between quotes, as it stands.
pub open spec fn in_quotes(s: Seq<char>) -> Seq<char> {
    seq!['"'] + s + seq!['"']
}

/// The flattened JWS.
pub open spec fn jws_of(protected: Seq<char>, payload: Seq<char>, sig: Seq<u8>) -> Seq<char> {
    let m = jws_members(protected, payload, sig);
    seq!['{'] + members_text(
        m.map_values(|p: (Seq<char>, Seq<char>)| (p.0, in_quotes(p.1))),
    ) + seq!['}']
}

fn quote(s: &str) -> (r: String)
    ensures
        r@ == in_quotes(s@),
{
    let mut out: String = String::new();
    out.push('"');
    out.push_str(s);
    out.push('"');
    proof {
        assert(out@ =~= in_quotes(s@));
    }
    out
}

/// Assemble the flattened JWS from its signature.
pub fn flattened(protected: &str, payload: &str, sig: &[u8]) -> (r: String)
    ensures
        r@ == jws_of(protected@, payload@, sig@),
{
    let p = quote(b64url(protected.as_bytes()).as_str());
    let q = quote(b64url(payload.as_bytes()).as_str());
    let s = quote(b64url(sig).as_str());
    let fields: [(&str, String); 3] = [("protected", p), ("payload", q), ("signature", s)];
    let r = json::obj(&fields);
    proof {
        let m = jws_members(protected@, payload@, sig@);
        let a = json::pairs(fields@);
        let b = m.map_values(|p: (Seq<char>, Seq<char>)| (p.0, in_quotes(p.1)));
        assert(a =~= b);
    }
    r
}

/// The signed body of a request, or why there is none.
pub open spec fn signed(
    key: Seq<u8>,
    jwk: Seq<char>,
    url: Seq<char>,
    nonce: Seq<char>,
    kid: Option<Seq<char>>,
    payload: Seq<char>,
) -> core::result::Result<Seq<char>, ErrorModel> {
    let protected = protected_of(jwk, url, nonce, kid);
    match es256_of(key, encode_utf8(signing_input(protected, payload))) {
        Ok(sig) => Ok(jws_of(protected, payload, sig)),
        Err(m) => Err(ErrorModel::Tls("acme jws sign: "@ + m)),
    }
}

/// An ACME account key: an ECDSA P-256 key plus its JOSE identity.
pub struct AccountKey {
    /// The private key, SEC1-encoded.
    key: Vec<u8>,
    x: Vec<u8>,
    y: Vec<u8>,
}

impl AccountKey {
    /// The SEC1 encoding of the private key.
    pub closed spec fn encoding(self) -> Seq<u8> {
        self.key@
    }

    /// The key has a P-256 point, whose coordinates are at hand.
    pub closed spec fn wf(self) -> bool {
        match ec_point_of(self.key@) {
            Some(p) => coordinates(p) == Some((self.x@, self.y@)),
            None => false,
        }
    }

    /// The JWK of the public key.
    pub open spec fn jwk(self) -> Seq<char> {
        let p = coordinates(ec_point_of(self.encoding())->0)->0;
        jwk_of(p.0, p.1)
    }

    /// Wrap an existing SEC1-encoded P-256 key; nothing if it is not one.
    pub fn new(key: Vec<u8>) -> (r: Option<AccountKey>)
        ensures
            r is Some <==> has_p256_point(key@),
            r matches Some(a) ==> a.wf() && a.encoding() == key@,
    {
        match ec_point(key.as_slice()) {
            None => None,
            Some(p) => match xy(p.as_slice()) {
                None => None,
                Some((x, y)) => Some(AccountKey { key, x, y }),
            },
        }
    }

    /// The key in a PEM document; nothing if there is no P-256 key in it.
    pub fn from_pem(pem: &str) -> (r: Option<AccountKey>)
        ensures
            r is Some <==> (ec_key_of(pem@) matches Some(k) && has_p256_point(k)),
            r matches Some(a) ==> a.wf() && ec_key_of(pem@) == Some(a.encoding()),
    {
        match ec_key(pem) {
            None => None,
            Some(k) => AccountKey::new(k),
        }
    }

    /// Generate a fresh P-256 account key.
    pub fn generate() -> (r: AccountKey)
        ensures
            r.wf(),
    {
        let key = new_ec_key();
        match AccountKey::new(key) {
            Some(a) => a,
            None => {
                proof {
                    assert(false);
                }
                AccountKey { key: Vec::new(), x: Vec::new(), y: Vec::new() }
            },
        }
    }

    /// The private key, SEC1-encoded (e.g. to persist it).
    pub fn private_key(&self) -> (r: &[u8])
        ensures
            r@ == self.encoding(),
    {
        self.key.as_slice()
    }

    /// The private key as a PEM document.
    pub fn to_pem(&self) -> (r: Option<String>)
        ensures
            match r {
                Some(s) => ec_pem_of(self.encoding()) == Some(s@),
                None => ec_pem_of(self.encoding()) is None,
            },
    {
        ec_pem(self.key.as_slice())
    }

    /// The public JWK as canonical JSON.
    pub fn jwk_json(&self) -> (r: String)
        requires
            self.wf(),
        ensures
            r@ == self.jwk(),
    {
        jwk(self.x.as_slice(), self.y.as_slice())
    }

    /// The RFC 7638 JWK thumbprint: SHA-256 of the canonical JWK JSON.
    pub fn thumbprint(&self) -> (r: Vec<u8>)
        requires
            self.wf(),
        ensures
            r@ == sha256_of(encode_utf8(self.jwk())),
            r@.len() == 32,
    {
        sha256(self.jwk_json().as_str().as_bytes())
    }

    /// The ACME key authorization for a challenge `token`:
    /// `token "." base64url(thumbprint)` (RFC 8555 section 8.1).
    pub fn key_authorization(&self, token: &str) -> (r: String)
        requires
            self.wf(),
        ensures
            r@ == authorization_of(token@, sha256_of(encode_utf8(self.jwk()))),
    {
        authorization(token, self.thumbprint().as_slice())
    }

    /// Produce a flattened JWS (the JSON body ACME POSTs) over `payload` with
    /// the given protected-header members. `payload` is the raw JSON request
    /// body, or `""` for a POST-as-GET.
    ///
    /// `auth` selects the key identification: a JWK (new-account) or a `kid`
    /// account URL (everything else).
    pub fn sign(&self, url: &str, nonce: &str, auth: &KeyId, payload: &str) -> (r: Result<String>)
        requires
            self.wf(),
        ensures
            match (r, signed(self.encoding(), self.jwk(), url@, nonce@, auth.kid(), payload@)) {
                (Ok(s), Ok(m)) => s@ == m,
                (Err(e), Err(m)) => e@ == m,
                _ => false,
            },
    {
        let jwk = self.jwk_json();
        let protected = protected_header(jwk.as_str(), url, nonce, auth);
        let mut input = b64url(protected.as_str().as_bytes());
        input.push('.');
        input.push_str(b64url(payload.as_bytes()).as_str());
        proof {
            assert(input@ =~= signing_input(protected@, payload@));
        }
        match es256(self.key.as_slice(), input.as_str().as_bytes()) {
            Ok(sig) => Ok(flattened(protected.as_str(), payload, sig.as_slice())),
            Err(m) => {
                let mut s: String = String::new();
                s.push_str("acme jws sign: ");
                s.push_str(m.as_str());
                proof {
                    assert(s@ =~= "acme jws sign: "@ + m@);
                }
                Err(Error::Tls(s))
            },
        }
    }
}

/// The key authorization with a given thumbprint.
pub open spec fn authorization_of(token: Seq<char>, thumbprint: Seq<u8>) -> Seq<char> {
    token + seq!['.'] + b64url_of(thumbprint)
}

/// Assemble a key authorization.
pub fn authorization(token: &str, thumbprint: &[u8]) -> (r: String)
    ensures
        r@ == authorization_of(token@, thumbprint@),
{
    let mut s: String = String::new();
    s.push_str(token);
    s.push('.');
    s.push_str(b64url(thumbprint).as_str());
    proof {
        assert(s@ =~= authorization_of(token@, thumbprint@));
    }
    s
}

// ---------------------------------------------------------------------------
// Laws
// ---------------------------------------------------------------------------

/// Three bytes make four characters; a rest of one or two makes two or three.
pub proof fn law_b64url_length(s: Seq<u8>)
    ensures
        b64url_of(s).len() == (s.len() * 4 + 2) / 3,
    decreases s.len(),
{
    if s.len() >= 3 {
        law_b64url_length(s.skip(3));
    }
}

/// The characters of the URL-safe alphabet.
pub open spec fn is_url_char(c: char) -> bool {
    ('A' <= c && c <= 'Z') || ('a' <= c && c <= 'z') || ('0' <= c && c <= '9') || c == '-' || c == '_'
}

proof fn lemma_url_char(v: int)
    requires
        0 <= v < 64,
    ensures
        is_url_char(url_char(v)),
        forall|w: int| 0 <= w < 64 && #[trigger] url_char(w) == url_char(v) ==> w == v,
{
}

/// Only letters, digits, `-` and `_` come out.
pub proof fn law_b64url_alphabet(s: Seq<u8>)
    ensures
        forall|i: int| 0 <= i < b64url_of(s).len() ==> is_url_char(#[trigger] b64url_of(s)[i]),
    decreases s.len(),
{
    if s.len() >= 3 {
        law_b64url_alphabet(s.skip(3));
        lemma_url_char(s[0] as int / 4);
        lemma_url_char(s[0] as int % 4 * 16 + s[1] as int / 16);
        lemma_url_char(s[1] as int % 16 * 4 + s[2] as int / 64);
        lemma_url_char(s[2] as int % 64);
        assert forall|i: int| 0 <= i < b64url_of(s).len() implies is_url_char(
            #[trigger] b64url_of(s)[i],
        ) by {
            if i >= 4 {
                assert(b64url_of(s)[i] == b64url_of(s.skip(3))[i - 4]);
            }
        }
    } else if s.len() == 2 {
        lemma_url_char(s[0] as int / 4);
        lemma_url_char(s[0] as int % 4 * 16 + s[1] as int / 16);
        lemma_url_char(s[1] as int % 16 * 4);
    } else if s.len() == 1 {
        lemma_url_char(s[0] as int / 4);
        lemma_url_char(s[0] as int % 4 * 16);
    }
}

/// Different byte strings have different encodings.
pub proof fn law_b64url_is_injective(s: Seq<u8>, t: Seq<u8>)
    requires
        b64url_of(s) == b64url_of(t),
    ensures
        s == t,
    decreases s.len(),
{
    law_b64url_length(s);
    law_b64url_length(t);
    assert(s.len() == t.len());
    let e = b64url_of(s);
    let f = b64url_of(t);
    if s.len() == 0 {
        assert(s =~= t);
    } else {
        assert(e[0] == f[0] && e[1] == f[1]);
        lemma_url_char(s[0] as int / 4);
        if s.len() == 1 {
            lemma_url_char(s[0] as int % 4 * 16);
            assert(s[0] == t[0]);
            assert(s =~= t);
        } else {
            lemma_url_char(s[0] as int % 4 * 16 + s[1] as int / 16);
            assert(e[2] == f[2]);
            assert(s[0] == t[0]);
            if s.len() == 2 {
                lemma_url_char(s[1] as int % 16 * 4);
                assert(s[1] == t[1]);
                assert(s =~= t);
            } else {
                lemma_url_char(s[1] as int % 16 * 4 + s[2] as int / 64);
                lemma_url_char(s[2] as int % 64);
                assert(e[3] == f[3]);
                assert(s[1] == t[1]);
                assert(s[2] == t[2]);
                assert(e.skip(4) =~= b64url_of(s.skip(3)));
                assert(f.skip(4) =~= b64url_of(t.skip(3)));
                law_b64url_is_injective(s.skip(3), t.skip(3));
                assert(s =~= s.take(3) + s.skip(3));
                assert(t =~= t.take(3) + t.skip(3));
                assert(s.take(3) =~= t.take(3));
            }
        }
    }
}

/// A text without quotes, backslashes and control characters is its own escape.
pub proof fn lemma_nothing_to_escape(s: Seq<char>)
    requires
        forall|i: int|
            0 <= i < s.len() ==> #[trigger] s[i] != '"' && s[i] != '\\' && (s[i] as u32) >= 0x20,
    ensures
        escaped(s) == s,
    decreases s.len(),
{
    if s.len() > 0 {
        lemma_nothing_to_escape(s.drop_last());
        assert(s[s.len() - 1] == s.last());
        assert(escaped(s) =~= s);
    }
}

/// The signed body is a JSON object that says exactly what was signed; as a
/// document, if it is not too long for one.
pub proof fn law_jws_reads_back(protected: Seq<char>, payload: Seq<char>, sig: Seq<u8>)
    ensures
        ({
            let b = jws_of(protected, payload, sig);
            let v = ValueModel::Object(string_values(jws_members(protected, payload, sig)));
            &&& value_at(b, 0, 0) == Ok::<(ValueModel, int), Seq<char>>((v, b.len() as int))
            &&& encode_utf8(b).len() <= MAX_INPUT ==> document(b) == Ok::<ValueModel, Seq<char>>(v)
        }),
{
    let m = jws_members(protected, payload, sig);
    law_b64url_alphabet(encode_utf8(protected));
    law_b64url_alphabet(encode_utf8(payload));
    law_b64url_alphabet(sig);
    lemma_nothing_to_escape(m[0].1);
    lemma_nothing_to_escape(m[1].1);
    lemma_nothing_to_escape(m[2].1);
    assert(m.map_values(|p: (Seq<char>, Seq<char>)| (p.0, in_quotes(p.1))) =~= string_members(m));
    json::law_object_round_trip(m);
}

} // verus!
