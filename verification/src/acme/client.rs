//! The requests an ACME (RFC 8555) client makes and what it makes of the
//! replies: account registration, orders, authorizations, finalization.
use crate::acme::jose::{b64url, b64url_of};
use crate::acme::json;
use crate::acme::json::{document, escaped, json_error, model, models, Value, ValueModel};
use crate::bytes::copy_of;
use crate::error::{Error, ErrorModel, Result};
use crate::text::{
    contains, lossy, opt_text, owned, str_contains, str_eq, string_from_utf8,
    string_from_utf8_lossy, texts,
};
use purecrypto::ec::BoxedEcdsaPrivateKey;
use purecrypto::x509::{CertSigner, CertificationRequest, DistinguishedName};
use vstd::prelude::*;
use vstd::utf8::{decode_utf8, valid_utf8};

verus! {

broadcast use vstd::seq::group_seq_axioms;

/// Let's Encrypt production directory URL.
pub const LETSENCRYPT_PRODUCTION: &'static str = "https://acme-v02.api.letsencrypt.org/directory";

/// Let's Encrypt staging directory URL (untrusted certs, high rate limits).
pub const LETSENCRYPT_STAGING: &'static str = "https://acme-staging-v02.api.letsencrypt.org/directory";

/// A freshly issued certificate.
#[derive(Debug)]
pub struct Issued {
    /// PEM certificate chain (leaf first).
    pub chain_pem: String,
    /// PEM private key for the certificate.
    pub key_pem: String,
}

/// The directory endpoints in use.
#[derive(Debug)]
pub struct Directory {
    pub new_nonce: String,
    pub new_account: String,
    pub new_order: String,
}

/// The model of a directory.
#[verifier::ext_equal]
pub struct DirectoryModel {
    pub new_nonce: Seq<char>,
    pub new_account: Seq<char>,
    pub new_order: Seq<char>,
}

impl View for Directory {
    type V = DirectoryModel;

    open spec fn view(&self) -> DirectoryModel {
        DirectoryModel {
            new_nonce: self.new_nonce@,
            new_account: self.new_account@,
            new_order: self.new_order@,
        }
    }
}

/// What the certificate authority replied, as far as it matters.
#[derive(Debug)]
pub struct Reply {
    pub status: u16,
    /// The `Location` header.
    pub location: Option<String>,
    /// The `Replay-Nonce` header.
    pub nonce: Option<String>,
    pub body: Vec<u8>,
}

/// The model of a reply.
#[verifier::ext_equal]
pub struct ReplyModel {
    pub status: u16,
    pub location: Option<Seq<char>>,
    pub nonce: Option<Seq<char>>,
    pub body: Seq<u8>,
}

impl View for Reply {
    type V = ReplyModel;

    open spec fn view(&self) -> ReplyModel {
        ReplyModel {
            status: self.status,
            location: opt_text(self.location),
            nonce: opt_text(self.nonce),
            body: self.body@,
        }
    }
}

// ---------------------------------------------------------------------------
// Reading replies
// ---------------------------------------------------------------------------

/// The text of an ACME error.
pub open spec fn acme_error(text: Seq<char>) -> ErrorModel {
    ErrorModel::Acme(text)
}

/// An ACME error with a fixed text.
pub fn acme(text: &str) -> (r: Error)
    ensures
        r@ == acme_error(text@),
{
    let mut s: String = String::new();
    s.push_str(text);
    proof {
        assert(s@ =~= text@);
    }
    Error::Acme(s)
}

/// The JSON document in a reply.
pub open spec fn json_in(body: Seq<u8>) -> core::result::Result<ValueModel, ErrorModel> {
    if !valid_utf8(body) {
        Err(acme_error("non-UTF-8 response"@))
    } else {
        match document(decode_utf8(body)) {
            Ok(v) => Ok(v),
            Err(m) => Err(json_error(m)),
        }
    }
}

/// Parse the JSON document in a reply.
pub fn parse_json(body: &[u8]) -> (r: Result<Value>)
    ensures
        match (r, json_in(body@)) {
            (Ok(v), Ok(m)) => v@ == m,
            (Err(e), Err(m)) => e@ == m,
            _ => false,
        },
{
    match string_from_utf8(copy_of(body)) {
        None => Err(acme("non-UTF-8 response")),
        Some(text) => json::parse(text.as_str()),
    }
}

/// Whether a body is an ACME `badNonce` problem.
pub open spec fn says_bad_nonce(body: Seq<u8>) -> bool {
    json_in(body) matches Ok(v) && v.text_at("type"@) matches Some(t) && contains(t, "badNonce"@)
}

/// Whether a 400 body is an ACME `badNonce` error.
pub fn is_bad_nonce(body: &[u8]) -> (r: bool)
    ensures
        r == says_bad_nonce(body@),
{
    match parse_json(body) {
        Err(_) => false,
        Ok(v) => match v.str_at("type") {
            Some(t) => str_contains(t, "badNonce"),
            None => false,
        },
    }
}

/// The `detail` of a problem document, or else the whole body.
pub open spec fn problem_detail(body: Seq<u8>) -> Seq<char> {
    match json_in(body) {
        Ok(v) => match v.text_at("detail"@) {
            Some(d) => d,
            None => lossy(body),
        },
        Err(_) => lossy(body),
    }
}

/// The error for a problem document (RFC 7807).
pub open spec fn problem(ctx: Seq<char>, body: Seq<u8>) -> ErrorModel {
    acme_error(ctx + ": "@ + problem_detail(body))
}

fn detail(body: &[u8]) -> (r: String)
    ensures
        r@ == problem_detail(body@),
{
    let doc = parse_json(body);
    match &doc {
        Ok(v) => match v.str_at("detail") {
            Some(d) => {
                let mut s: String = String::new();
                s.push_str(d);
                proof {
                    assert(s@ =~= d@);
                }
                s
            },
            None => string_from_utf8_lossy(body),
        },
        Err(_) => string_from_utf8_lossy(body),
    }
}

/// Build an error from an ACME problem document (RFC 7807).
pub fn acme_err(ctx: &str, body: &[u8]) -> (r: Error)
    ensures
        r@ == problem(ctx@, body@),
{
    let mut s: String = String::new();
    s.push_str(ctx);
    s.push_str(": ");
    s.push_str(detail(body).as_str());
    proof {
        assert(s@ =~= ctx@ + ": "@ + problem_detail(body@));
    }
    Error::Acme(s)
}

/// The URL under a key of the directory document.
pub open spec fn endpoint(doc: ValueModel, key: Seq<char>) -> core::result::Result<
    Seq<char>,
    ErrorModel,
> {
    match doc.text_at(key) {
        Some(s) => Ok(s),
        None => Err(acme_error("directory missing "@ + key)),
    }
}

/// The URL under `key`.
pub fn field(doc: &Value, key: &str) -> (r: Result<String>)
    ensures
        match (r, endpoint(doc@, key@)) {
            (Ok(s), Ok(t)) => s@ == t,
            (Err(e), Err(m)) => e@ == m,
            _ => false,
        },
{
    match doc.str_at(key) {
        Some(s) => Ok(owned(s)),
        None => {
            let mut m: String = String::new();
            m.push_str("directory missing ");
            m.push_str(key);
            proof {
                assert(m@ =~= "directory missing "@ + key@);
            }
            Err(Error::Acme(m))
        },
    }
}

/// The endpoints that a directory document names.
pub open spec fn directory_of(body: Seq<u8>) -> core::result::Result<DirectoryModel, ErrorModel> {
    match json_in(body) {
        Err(e) => Err(e),
        Ok(doc) => match endpoint(doc, "newNonce"@) {
            Err(e) => Err(e),
            Ok(new_nonce) => match endpoint(doc, "newAccount"@) {
                Err(e) => Err(e),
                Ok(new_account) => match endpoint(doc, "newOrder"@) {
                    Err(e) => Err(e),
                    Ok(new_order) => Ok(DirectoryModel { new_nonce, new_account, new_order }),
                },
            },
        },
    }
}

/// Read the directory document.
pub fn directory(body: &[u8]) -> (r: Result<Directory>)
    ensures
        match (r, directory_of(body@)) {
            (Ok(d), Ok(m)) => d@ == m,
            (Err(e), Err(m)) => e@ == m,
            _ => false,
        },
{
    let doc = match parse_json(body) {
        Ok(d) => d,
        Err(e) => {
            return Err(e);
        },
    };
    let new_nonce = match field(&doc, "newNonce") {
        Ok(s) => s,
        Err(e) => {
            return Err(e);
        },
    };
    let new_account = match field(&doc, "newAccount") {
        Ok(s) => s,
        Err(e) => {
            return Err(e);
        },
    };
    let new_order = match field(&doc, "newOrder") {
        Ok(s) => s,
        Err(e) => {
            return Err(e);
        },
    };
    Ok(Directory { new_nonce, new_account, new_order })
}

// ---------------------------------------------------------------------------
// Payloads
// ---------------------------------------------------------------------------

/// The registration payload: agreement to the terms, and the contact if known.
pub open spec fn account_payload_of(email: Option<Seq<char>>) -> Seq<char> {
    match email {
        Some(e) => "{\"termsOfServiceAgreed\":true,\"contact\":[\"mailto:"@ + escaped(e) + "\"]}"@,
        None => "{\"termsOfServiceAgreed\":true}"@,
    }
}

/// The payload that registers an account.
pub fn account_payload(email: &Option<String>) -> (r: String)
    ensures
        r@ == account_payload_of(opt_text(*email)),
{
    let mut s: String = String::new();
    match email {
        Some(e) => {
            s.push_str("{\"termsOfServiceAgreed\":true,\"contact\":[\"mailto:");
            s.push_str(json::escape(e.as_str()).as_str());
            s.push_str("\"]}");
        },
        None => {
            s.push_str("{\"termsOfServiceAgreed\":true}");
        },
    }
    proof {
        assert(s@ =~= account_payload_of(opt_text(*email)));
    }
    s
}

/// One DNS identifier.
pub open spec fn identifier(name: Seq<char>) -> Seq<char> {
    "{\"type\":\"dns\",\"value\":\""@ + escaped(name) + "\"}"@
}

/// Identifiers with commas between them.
pub open spec fn identifiers(names: Seq<Seq<char>>) -> Seq<char>
    decreases names.len(),
{
    if names.len() == 0 {
        Seq::empty()
    } else if names.len() == 1 {
        identifier(names[0])
    } else {
        identifiers(names.drop_last()) + ","@ + identifier(names.last())
    }
}

/// The payload that orders a certificate for DNS names.
pub open spec fn order_payload_of(names: Seq<Seq<char>>) -> Seq<char> {
    "{\"identifiers\":["@ + identifiers(names) + "]}"@
}

/// The payload that orders a certificate.
pub fn order_payload(names: &Vec<String>) -> (r: String)
    ensures
        r@ == order_payload_of(texts(names@)),
{
    let mut s: String = String::new();
    s.push_str("{\"identifiers\":[");
    let ghost open = "{\"identifiers\":["@;
    let ghost t = texts(names@);
    let mut i: usize = 0;
    proof {
        assert(s@ =~= open + identifiers(t.take(0)));
    }
    while i < names.len()
        invariant
            i <= names@.len(),
            t == texts(names@),
            s@ == open + identifiers(t.take(i as int)),
        decreases names.len() - i,
    {
        let ghost o = s@;
        if i > 0 {
            s.push_str(",");
        }
        s.push_str("{\"type\":\"dns\",\"value\":\"");
        s.push_str(json::escape(names[i].as_str()).as_str());
        s.push_str("\"}");
        proof {
            let u = t.take(i + 1);
            let d = identifier(t[i as int]);
            assert(u.drop_last() =~= t.take(i as int));
            if i == 0 {
                assert(identifiers(t.take(0)) =~= Seq::empty());
                assert(u[0] == t[0]);
                assert(s@ =~= open + identifiers(u));
            } else {
                assert(s@ =~= o + (","@ + d));
                assert(identifiers(u) == identifiers(t.take(i as int)) + ","@ + d);
                assert(s@ =~= open + identifiers(u));
            }
        }
        i += 1;
    }
    s.push_str("]}");
    proof {
        assert(t.take(t.len() as int) =~= t);
        assert(s@ =~= order_payload_of(t));
    }
    s
}

/// The payload that hands in a signing request.
pub open spec fn finalize_payload_of(csr: Seq<u8>) -> Seq<char> {
    "{\"csr\":\""@ + b64url_of(csr) + "\"}"@
}

/// The payload that hands in a signing request.
pub fn finalize_payload(csr: &[u8]) -> (r: String)
    ensures
        r@ == finalize_payload_of(csr@),
{
    let mut s: String = String::new();
    s.push_str("{\"csr\":\"");
    s.push_str(b64url(csr).as_str());
    s.push_str("\"}");
    proof {
        assert(s@ =~= finalize_payload_of(csr@));
    }
    s
}

/// The DER signing request for a common name and DNS names under a SEC1-encoded
/// key, or why there is none.
pub uninterp spec fn csr_of(key: Seq<u8>, common_name: Seq<char>, names: Seq<Seq<char>>) -> core::result::Result<
    Seq<u8>,
    Seq<char>,
>;

/// `CertificationRequest::create`, signed by the key (deterministically, RFC
/// 6979), as DER.
#[verifier::external_body]
pub(crate) fn signing_request(key: &[u8], common_name: &str, names: &Vec<String>) -> (r: core::result::Result<
    Vec<u8>,
    String,
>)
    ensures
        match r {
            Ok(d) => csr_of(key@, common_name@, texts(names@)) == Ok::<Seq<u8>, Seq<char>>(d@),
            Err(e) => csr_of(key@, common_name@, texts(names@)) == Err::<Seq<u8>, Seq<char>>(e@),
        },
{
    let key = BoxedEcdsaPrivateKey::from_sec1_der(key).map_err(|e| format!("{e:?}"))?;
    let names: Vec<&str> = names.iter().map(|n| n.as_str()).collect();
    let subject = DistinguishedName::common_name(common_name);
    CertificationRequest::create(&CertSigner::Ecdsa(&key), &subject, &names)
        .map(|c| c.to_der().to_vec())
        .map_err(|e| format!("{e:?}"))
}

/// Build a DER CSR for `dns_names` signed by the SEC1-encoded `key`.
pub fn build_csr(key: &[u8], dns_names: &Vec<String>) -> (r: Result<Vec<u8>>)
    requires
        dns_names@.len() > 0,
    ensures
        match (r, csr_of(key@, dns_names@[0]@, texts(dns_names@))) {
            (Ok(d), Ok(m)) => d@ == m,
            (Err(e), Err(m)) => e@ == acme_error("CSR: "@ + m),
            _ => false,
        },
{
    match signing_request(key, dns_names[0].as_str(), dns_names) {
        Ok(d) => Ok(d),
        Err(m) => {
            let mut s: String = String::new();
            s.push_str("CSR: ");
            s.push_str(m.as_str());
            proof {
                assert(s@ =~= "CSR: "@ + m@);
            }
            Err(Error::Acme(s))
        },
    }
}

// ---------------------------------------------------------------------------
// Challenges
// ---------------------------------------------------------------------------

/// A challenge to fulfil.
#[derive(Debug)]
pub struct Challenge {
    pub typ: String,
    pub url: String,
    pub token: String,
}

/// The model of a challenge.
#[verifier::ext_equal]
pub struct ChallengeModel {
    pub typ: Seq<char>,
    pub url: Seq<char>,
    pub token: Seq<char>,
}

impl View for Challenge {
    type V = ChallengeModel;

    open spec fn view(&self) -> ChallengeModel {
        ChallengeModel { typ: self.typ@, url: self.url@, token: self.token@ }
    }
}

/// The first challenge of this type.
pub open spec fn offered(challenges: Seq<ValueModel>, typ: Seq<char>) -> Option<ValueModel>
    decreases challenges.len(),
{
    if challenges.len() == 0 {
        None
    } else if challenges[0].text_at("type"@) == Some(typ) {
        Some(challenges[0])
    } else {
        offered(challenges.skip(1), typ)
    }
}

/// The first challenge of the most preferred type that is offered; nothing if
/// none is, or if that one lacks its URL or token.
pub open spec fn selected(challenges: Seq<ValueModel>, preferred: Seq<Seq<char>>) -> Option<
    ChallengeModel,
>
    decreases preferred.len(),
{
    if preferred.len() == 0 {
        None
    } else {
        match offered(challenges, preferred[0]) {
            None => selected(challenges, preferred.skip(1)),
            Some(c) => match (c.text_at("url"@), c.text_at("token"@)) {
                (Some(url), Some(token)) => Some(ChallengeModel { typ: preferred[0], url, token }),
                _ => None,
            },
        }
    }
}

fn find_challenge<'a>(challenges: &'a [Value], typ: &str) -> (r: Option<&'a Value>)
    ensures
        match r {
            Some(v) => offered(models(challenges@), typ@) == Some(v@),
            None => offered(models(challenges@), typ@) is None,
        },
{
    let mut i: usize = 0;
    let ghost m = models(challenges@);
    proof {
        json::lemma_models(challenges@);
        assert(m.skip(0) =~= m);
    }
    while i < challenges.len()
        invariant
            i <= challenges@.len(),
            m == models(challenges@),
            m.len() == challenges@.len(),
            forall|k: int| 0 <= k < m.len() ==> #[trigger] m[k] == model(challenges@[k]),
            offered(m, typ@) == offered(m.skip(i as int), typ@),
        decreases challenges.len() - i,
    {
        proof {
            assert(m.skip(i as int)[0] == m[i as int]);
            assert(m.skip(i as int).skip(1) =~= m.skip(i + 1));
        }
        match challenges[i].str_at("type") {
            Some(t) => {
                if str_eq(t, typ) {
                    return Some(&challenges[i]);
                }
            },
            None => {},
        }
        i += 1;
    }
    None
}

/// Pick the most-preferred challenge that is supported.
pub fn select_challenge(challenges: &[Value], preferred: &Vec<String>) -> (r: Option<Challenge>)
    ensures
        match r {
            Some(c) => selected(models(challenges@), texts(preferred@)) == Some(c@),
            None => selected(models(challenges@), texts(preferred@)) is None,
        },
{
    let ghost m = models(challenges@);
    let ghost p = texts(preferred@);
    let mut i: usize = 0;
    proof {
        assert(p.skip(0) =~= p);
    }
    while i < preferred.len()
        invariant
            i <= preferred@.len(),
            m == models(challenges@),
            p == texts(preferred@),
            selected(m, p) == selected(m, p.skip(i as int)),
        decreases preferred.len() - i,
    {
        proof {
            assert(p.skip(i as int)[0] == preferred@[i as int]@);
            assert(p.skip(i as int).skip(1) =~= p.skip(i + 1));
        }
        match find_challenge(challenges, preferred[i].as_str()) {
            Some(c) => {
                return match (c.str_at("url"), c.str_at("token")) {
                    (Some(url), Some(token)) => Some(
                        Challenge {
                            typ: owned(preferred[i].as_str()),
                            url: owned(url),
                            token: owned(token),
                        },
                    ),
                    _ => None,
                };
            },
            None => {},
        }
        i += 1;
    }
    None
}

} // verus!
