//! TLS support, built on the sans-I/O `purecrypto::tls` engine.
//!
//! A [`TlsAcceptor`] holds a server configuration (certificate chain and private
//! key). For each accepted socket it mints a [`TlsStream`], itself sans-I/O:
//! feed it ciphertext from the socket, pull decrypted application bytes, push
//! application bytes to encrypt, and drain ciphertext to write back.
//! [`crate::session::Session`] drives this together with the HTTP engine.
use crate::acme::jose::{ec_pem, ec_pem_of, has_p256_point, new_ec_key};
use crate::bytes::{copy_of, push_all, tail};
use crate::error::{Error, ErrorModel, Result};
use crate::text::{
    chars_find_text, chars_of, find_text, owned, str_eq, text_of, texts,
};
use purecrypto::ec::ed25519::Ed25519PrivateKey;
use purecrypto::ec::BoxedEcdsaPrivateKey;
use purecrypto::quic::QuicConfig;
use purecrypto::rng::OsRng;
use purecrypto::rsa::BoxedRsaPrivateKey;
use purecrypto::tls::{Config, Connection, SigningKey};
use purecrypto::x509::extension::subject_alt_name;
use purecrypto::x509::{
    AnyPrivateKey, CertSigner, Certificate, DistinguishedName, Extension, GeneralName, Time,
    Validity,
};
use std::sync::Arc;
use vstd::prelude::*;
use vstd::slice::slice_subrange;
use vstd::utf8::encode_utf8;

verus! {

broadcast use vstd::seq::group_seq_axioms;

// ---------------------------------------------------------------------------
// base64
// ---------------------------------------------------------------------------

/// What a base64 character stands for.
pub open spec fn base64_val(c: char) -> Option<u8> {
    if 'A' <= c && c <= 'Z' {
        Some((c as u32 - 'A' as u32) as u8)
    } else if 'a' <= c && c <= 'z' {
        Some((c as u32 - 'a' as u32 + 26) as u8)
    } else if '0' <= c && c <= '9' {
        Some((c as u32 - '0' as u32 + 52) as u8)
    } else if c == '+' {
        Some(62u8)
    } else if c == '/' {
        Some(63u8)
    } else {
        None
    }
}

/// Characters that are passed over: padding and white space.
pub open spec fn base64_filler(c: char) -> bool {
    c == '=' || c == ' ' || c == '\t' || c == '\n' || c == '\r' || c == '\u{c}'
}

/// The values of a base64 text; nothing if it holds any other character.
pub open spec fn sextets(s: Seq<char>) -> Option<Seq<u8>>
    decreases s.len(),
{
    if s.len() == 0 {
        Some(Seq::empty())
    } else {
        match sextets(s.drop_last()) {
            None => None,
            Some(v) => if base64_filler(s.last()) {
                Some(v)
            } else {
                match base64_val(s.last()) {
                    Some(x) => Some(v.push(x)),
                    None => None,
                }
            },
        }
    }
}

/// The bytes that six-bit values make up; bits that do not fill a byte are
/// dropped.
pub open spec fn packed(v: Seq<u8>) -> Seq<u8>
    decreases v.len(),
{
    if v.len() < 2 {
        Seq::empty()
    } else if v.len() == 2 {
        seq![(v[0] * 4 + v[1] / 16) as u8]
    } else if v.len() == 3 {
        seq![(v[0] * 4 + v[1] / 16) as u8, (v[1] % 16 * 16 + v[2] / 4) as u8]
    } else {
        seq![
            (v[0] * 4 + v[1] / 16) as u8,
            (v[1] % 16 * 16 + v[2] / 4) as u8,
            (v[2] % 4 * 64 + v[3]) as u8,
        ] + packed(v.skip(4))
    }
}

/// The bytes of a base64 text.
pub open spec fn base64_of(s: Seq<char>) -> Option<Seq<u8>> {
    match sextets(s) {
        Some(v) => Some(packed(v)),
        None => None,
    }
}

fn base64_char(c: char) -> (r: Option<u8>)
    ensures
        r == base64_val(c),
        r matches Some(v) ==> v < 64,
{
    if 'A' <= c && c <= 'Z' {
        Some((c as u32 - 65) as u8)
    } else if 'a' <= c && c <= 'z' {
        Some((c as u32 - 97 + 26) as u8)
    } else if '0' <= c && c <= '9' {
        Some((c as u32 - 48 + 52) as u8)
    } else if c == '+' {
        Some(62)
    } else if c == '/' {
        Some(63)
    } else {
        None
    }
}

fn pack(v: &[u8]) -> (r: Vec<u8>)
    requires
        forall|i: int| 0 <= i < v@.len() ==> #[trigger] v@[i] < 64,
    ensures
        r@ == packed(v@),
{
    let n: usize = v.len();
    let mut out: Vec<u8> = Vec::new();
    let mut i: usize = 0;
    proof {
        assert(v@.skip(0) =~= v@);
        assert(out@ + packed(v@) =~= packed(v@));
    }
    while n - i >= 4
        invariant
            i <= n == v@.len(),
            forall|k: int| 0 <= k < v@.len() ==> #[trigger] v@[k] < 64,
            out@ + packed(v@.skip(i as int)) == packed(v@),
        decreases n - i,
    {
        let (a, b, c, d): (u8, u8, u8, u8) = (v[i], v[i + 1], v[i + 2], v[i + 3]);
        let ghost o = out@;
        out.push(a * 4 + b / 16);
        out.push(b % 16 * 16 + c / 4);
        out.push(c % 4 * 64 + d);
        proof {
            let s = v@.skip(i as int);
            assert(s.skip(4) =~= v@.skip(i + 4));
            assert(out@ + packed(s.skip(4)) =~= o + packed(s));
        }
        i += 4;
    }
    let ghost s = v@.skip(i as int);
    let ghost o = out@;
    if n - i >= 2 {
        out.push(v[i] * 4 + v[i + 1] / 16);
    }
    if n - i == 3 {
        out.push(v[i + 1] % 16 * 16 + v[i + 2] / 4);
    }
    proof {
        assert(out@ =~= o + packed(s));
    }
    out
}

/// Decode standard-alphabet base64 (ignoring white space), tolerating optional
/// `=` padding. `None` on invalid input.
pub fn base64_decode(s: &[char]) -> (r: Option<Vec<u8>>)
    ensures
        match r {
            Some(v) => base64_of(s@) == Some(v@),
            None => base64_of(s@) is None,
        },
{
    let mut v: Vec<u8> = Vec::new();
    let mut i: usize = 0;
    proof {
        assert(s@.take(0) =~= Seq::empty());
    }
    while i < s.len()
        invariant
            i <= s@.len(),
            sextets(s@.take(i as int)) == Some(v@),
            forall|k: int| 0 <= k < v@.len() ==> #[trigger] v@[k] < 64,
        decreases s.len() - i,
    {
        let c: char = s[i];
        proof {
            assert(s@.take(i + 1).drop_last() =~= s@.take(i as int));
        }
        if !(c == '=' || c == ' ' || c == '\t' || c == '\n' || c == '\r' || c == '\u{c}') {
            match base64_char(c) {
                Some(x) => {
                    v.push(x);
                },
                None => {
                    proof {
                        lemma_sextets_fail(s@, i + 1);
                    }
                    return None;
                },
            }
        }
        i += 1;
    }
    proof {
        assert(s@.take(s@.len() as int) =~= s@);
    }
    Some(pack(v.as_slice()))
}

proof fn lemma_sextets_fail(s: Seq<char>, n: int)
    requires
        0 <= n <= s.len(),
        sextets(s.take(n)) is None,
    ensures
        sextets(s) is None,
    decreases s.len() - n,
{
    if n == s.len() {
        assert(s.take(n) =~= s);
    } else {
        assert(s.take(n + 1).drop_last() =~= s.take(n));
        lemma_sextets_fail(s, n + 1);
    }
}

// ---------------------------------------------------------------------------
// PEM
// ---------------------------------------------------------------------------

/// One block of a PEM document.
#[derive(Debug)]
pub struct PemBlock {
    pub label: String,
    /// The whole block, markers included.
    pub text: String,
    pub der: Vec<u8>,
}

/// The model of a block.
#[verifier::ext_equal]
pub struct PemModel {
    pub label: Seq<char>,
    pub text: Seq<char>,
    pub der: Seq<u8>,
}

impl View for PemBlock {
    type V = PemModel;

    open spec fn view(&self) -> PemModel {
        PemModel { label: self.label@, text: self.text@, der: self.der@ }
    }
}

/// The models of blocks.
pub open spec fn pem_models(v: Seq<PemBlock>) -> Seq<PemModel> {
    v.map_values(|b: PemBlock| b@)
}

/// The marker that ends a block.
pub open spec fn end_marker(label: Seq<char>) -> Seq<char> {
    "-----END "@ + label + "-----"@
}

/// Where the first block from `from` on begins, its label, where its body
/// begins and ends, and where it ends itself.
pub open spec fn block_at(s: Seq<char>, from: int) -> Option<(int, Seq<char>, int, int, int)> {
    match find_text(s, "-----BEGIN "@, from) {
        None => None,
        Some(b) => {
            let a = (b + "-----BEGIN "@.len()) as int;
            match find_text(s, "-----"@, a) {
                None => None,
                Some(e) => {
                    let label = s.subrange(a, e);
                    let body = (e + "-----"@.len()) as int;
                    match find_text(s, end_marker(label), body) {
                        None => None,
                        Some(p) => Some((b, label, body, p, (p + end_marker(label).len()) as int)),
                    }
                },
            }
        },
    }
}

/// The blocks from `from` on. One whose body is not base64 is passed over.
pub open spec fn blocks_from(s: Seq<char>, from: int) -> Seq<PemModel>
    decreases s.len() - from,
{
    match block_at(s, from) {
        None => Seq::empty(),
        Some((b, label, body, p, end)) => if end <= from || end > s.len() {
            Seq::empty()
        } else {
            let rest = blocks_from(s, end);
            match base64_of(s.subrange(body, p)) {
                Some(der) => seq![PemModel { label, text: s.subrange(b, end), der }] + rest,
                None => rest,
            }
        },
    }
}

/// Split a PEM document into its constituent blocks.
pub fn pem_blocks(pem: &str) -> (r: Vec<PemBlock>)
    ensures
        pem_models(r@) == blocks_from(pem@, 0),
{
    let chars = chars_of(pem);
    let s = chars.as_slice();
    let n: usize = s.len();
    let begin = chars_of("-----BEGIN ");
    let dashes = chars_of("-----");
    let end_prefix = chars_of("-----END ");
    let mut out: Vec<PemBlock> = Vec::new();
    let mut from: usize = 0;
    proof {
        reveal_strlit("-----BEGIN ");
        reveal_strlit("-----");
        assert(pem_models(out@) + blocks_from(pem@, 0) =~= blocks_from(pem@, 0));
    }
    loop
        invariant
            from <= n == s@.len(),
            s@ == pem@,
            begin@ == "-----BEGIN "@,
            begin@.len() == 11,
            dashes@ == "-----"@,
            dashes@.len() == 5,
            end_prefix@ == "-----END "@,
            pem_models(out@) + blocks_from(pem@, from as int) == blocks_from(pem@, 0),
        decreases n - from,
    {
        let b: usize = match chars_find_text(s, begin.as_slice(), from) {
            Some(b) => b,
            None => {
                proof {
                    assert(blocks_from(pem@, from as int) =~= Seq::empty());
                    assert(pem_models(out@) + Seq::<PemModel>::empty() =~= pem_models(out@));
                }
                return out;
            },
        };
        let a: usize = b + begin.len();
        let e: usize = match chars_find_text(s, dashes.as_slice(), a) {
            Some(e) => e,
            None => {
                proof {
                    assert(pem_models(out@) + Seq::<PemModel>::empty() =~= pem_models(out@));
                }
                return out;
            },
        };
        let label = slice_subrange(s, a, e);
        let body: usize = e + dashes.len();
        let mut marker: String = text_of(end_prefix.as_slice());
        marker.push_str(text_of(label).as_str());
        marker.push_str("-----");
        proof {
            assert(marker@ =~= end_marker(label@));
        }
        let mc = chars_of(marker.as_str());
        let p: usize = match chars_find_text(s, mc.as_slice(), body) {
            Some(p) => p,
            None => {
                proof {
                    assert(pem_models(out@) + Seq::<PemModel>::empty() =~= pem_models(out@));
                }
                return out;
            },
        };
        let end: usize = p + mc.len();
        let ghost before = out@;
        let ghost rest = blocks_from(pem@, end as int);
        match base64_decode(slice_subrange(s, body, p)) {
            Some(der) => {
                let block = PemBlock {
                    label: text_of(label),
                    text: text_of(slice_subrange(s, b, end)),
                    der,
                };
                out.push(block);
                proof {
                    assert(pem_models(out@) =~= pem_models(before).push(block@));
                    assert(pem_models(out@) + rest =~= pem_models(before) + (seq![block@] + rest));
                }
            },
            None => {},
        }
        from = end;
    }
}

/// The DER of the blocks with this label.
pub open spec fn labelled(blocks: Seq<PemModel>, label: Seq<char>) -> Seq<Seq<u8>>
    decreases blocks.len(),
{
    if blocks.len() == 0 {
        Seq::empty()
    } else {
        let rest = labelled(blocks.drop_last(), label);
        if blocks.last().label == label {
            rest.push(blocks.last().der)
        } else {
            rest
        }
    }
}

/// The models of byte strings.
pub open spec fn byte_views(v: Seq<Vec<u8>>) -> Seq<Seq<u8>> {
    v.map_values(|b: Vec<u8>| b@)
}

/// Collect every `CERTIFICATE` block's DER, in order.
pub fn cert_chain_der(pem: &str) -> (r: Vec<Vec<u8>>)
    ensures
        byte_views(r@) == labelled(blocks_from(pem@, 0), "CERTIFICATE"@),
{
    let blocks = pem_blocks(pem);
    let ghost m = pem_models(blocks@);
    let mut out: Vec<Vec<u8>> = Vec::new();
    let mut i: usize = 0;
    proof {
        assert(m.take(0) =~= Seq::empty());
        assert(byte_views(out@) =~= Seq::empty());
    }
    while i < blocks.len()
        invariant
            i <= blocks@.len(),
            m == pem_models(blocks@),
            byte_views(out@) == labelled(m.take(i as int), "CERTIFICATE"@),
        decreases blocks.len() - i,
    {
        proof {
            assert(m.take(i + 1).drop_last() =~= m.take(i as int));
            assert(m[i as int] == blocks@[i as int]@);
        }
        let ghost before = out@;
        if str_eq(blocks[i].label.as_str(), "CERTIFICATE") {
            let d = copy_of(blocks[i].der.as_slice());
            out.push(d);
            proof {
                assert(byte_views(out@) =~= byte_views(before).push(d@));
            }
        }
        i += 1;
    }
    proof {
        assert(m.take(m.len() as int) =~= m);
    }
    out
}

// ---------------------------------------------------------------------------
// Keys
// ---------------------------------------------------------------------------

/// A private key that a TLS identity signs with.
#[verifier::external_type_specification]
#[verifier::external_body]
pub struct ExSigningKey(purecrypto::tls::SigningKey);

/// The secret that a signing key holds.
pub uninterp spec fn key_secret(key: SigningKey) -> Seq<u8>;

/// The secret of the RSA key in a PKCS#1 document, or why there is none.
pub uninterp spec fn pkcs1_rsa(text: Seq<char>) -> core::result::Result<Seq<u8>, Seq<char>>;

/// The secret of the EC key in a SEC1 document, or why there is none.
pub uninterp spec fn sec1_ec(text: Seq<char>) -> core::result::Result<Seq<u8>, Seq<char>>;

/// The secret of the RSA key in a PKCS#8 document.
pub uninterp spec fn pkcs8_rsa(text: Seq<char>) -> Option<Seq<u8>>;

/// The secret of the EC key in a PKCS#8 document.
pub uninterp spec fn pkcs8_ec(text: Seq<char>) -> Option<Seq<u8>>;

/// The secret of the Ed25519 key in a PKCS#8 document.
pub uninterp spec fn pkcs8_ed25519(text: Seq<char>) -> Option<Seq<u8>>;

/// `BoxedRsaPrivateKey::from_pkcs1_pem`, as a signing key; the error is its
/// debug text.
#[verifier::external_body]
pub(crate) fn read_pkcs1_rsa(text: &str) -> (r: core::result::Result<SigningKey, String>)
    ensures
        match r {
            Ok(k) => pkcs1_rsa(text@) == Ok::<Seq<u8>, Seq<char>>(key_secret(k)),
            Err(e) => pkcs1_rsa(text@) == Err::<Seq<u8>, Seq<char>>(e@),
        },
{
    BoxedRsaPrivateKey::from_pkcs1_pem(text).map(SigningKey::Rsa).map_err(|e| format!("{e:?}"))
}

/// `BoxedEcdsaPrivateKey::from_sec1_pem`, as a signing key; the error is its
/// debug text.
#[verifier::external_body]
pub(crate) fn read_sec1_ec(text: &str) -> (r: core::result::Result<SigningKey, String>)
    ensures
        match r {
            Ok(k) => sec1_ec(text@) == Ok::<Seq<u8>, Seq<char>>(key_secret(k)),
            Err(e) => sec1_ec(text@) == Err::<Seq<u8>, Seq<char>>(e@),
        },
{
    BoxedEcdsaPrivateKey::from_sec1_pem(text).map(SigningKey::Ecdsa).map_err(|e| format!("{e:?}"))
}

/// `BoxedRsaPrivateKey::from_pkcs8_pem`, as a signing key.
#[verifier::external_body]
pub(crate) fn read_pkcs8_rsa(text: &str) -> (r: Option<SigningKey>)
    ensures
        match r {
            Some(k) => pkcs8_rsa(text@) == Some(key_secret(k)),
            None => pkcs8_rsa(text@) is None,
        },
{
    BoxedRsaPrivateKey::from_pkcs8_pem(text).ok().map(SigningKey::Rsa)
}

/// `BoxedEcdsaPrivateKey::from_pkcs8_pem`, as a signing key.
#[verifier::external_body]
pub(crate) fn read_pkcs8_ec(text: &str) -> (r: Option<SigningKey>)
    ensures
        match r {
            Some(k) => pkcs8_ec(text@) == Some(key_secret(k)),
            None => pkcs8_ec(text@) is None,
        },
{
    BoxedEcdsaPrivateKey::from_pkcs8_pem(text).ok().map(SigningKey::Ecdsa)
}

/// `Ed25519PrivateKey::from_pkcs8_pem`, as a signing key.
#[verifier::external_body]
pub(crate) fn read_pkcs8_ed25519(text: &str) -> (r: Option<SigningKey>)
    ensures
        match r {
            Some(k) => pkcs8_ed25519(text@) == Some(key_secret(k)),
            None => pkcs8_ed25519(text@) is None,
        },
{
    Ed25519PrivateKey::from_pkcs8_pem(text).ok().map(SigningKey::Ed25519)
}

/// The secret of a PKCS#8 key: RSA, EC, or Ed25519 material, tried in this
/// order.
pub open spec fn pkcs8_secret(text: Seq<char>) -> core::result::Result<Seq<u8>, ErrorModel> {
    match (pkcs8_rsa(text), pkcs8_ec(text), pkcs8_ed25519(text)) {
        (Some(s), _, _) => Ok(s),
        (None, Some(s), _) => Ok(s),
        (None, None, Some(s)) => Ok(s),
        (None, None, None) => Err(ErrorModel::Tls("PKCS#8 key is not RSA, EC, or Ed25519"@)),
    }
}

/// Whether a key was read as described.
pub open spec fn key_read(
    r: Result<SigningKey>,
    m: core::result::Result<Seq<u8>, ErrorModel>,
) -> bool {
    match (r, m) {
        (Ok(k), Ok(s)) => key_secret(k) == s,
        (Err(e), Err(f)) => e@ == f,
        _ => false,
    }
}

/// A PKCS#8 key may hold RSA, EC, or Ed25519 material; try each.
fn signing_key_from_pkcs8(text: &str) -> (r: Result<SigningKey>)
    ensures
        key_read(r, pkcs8_secret(text@)),
{
    if let Some(k) = read_pkcs8_rsa(text) {
        return Ok(k);
    }
    if let Some(k) = read_pkcs8_ec(text) {
        return Ok(k);
    }
    if let Some(k) = read_pkcs8_ed25519(text) {
        return Ok(k);
    }
    Err(Error::Tls(owned("PKCS#8 key is not RSA, EC, or Ed25519")))
}

/// A TLS error from the outside error's text.
fn tls_result(r: core::result::Result<SigningKey, String>) -> (out: Result<SigningKey>)
    ensures
        match (out, r) {
            (Ok(a), Ok(b)) => a == b,
            (Err(e), Err(m)) => e@ == ErrorModel::Tls(m@),
            _ => false,
        },
{
    match r {
        Ok(k) => Ok(k),
        Err(m) => Err(Error::Tls(m)),
    }
}

pub open spec fn tls_outcome(r: core::result::Result<Seq<u8>, Seq<char>>) -> core::result::Result<
    Seq<u8>,
    ErrorModel,
> {
    match r {
        Ok(s) => Ok(s),
        Err(m) => Err(ErrorModel::Tls(m)),
    }
}

/// Whether a block holds a private key.
pub open spec fn is_key_label(l: Seq<char>) -> bool {
    l == "RSA PRIVATE KEY"@ || l == "EC PRIVATE KEY"@ || l == "PRIVATE KEY"@
}

/// The secret in a private-key block.
pub open spec fn block_secret(b: PemModel) -> core::result::Result<Seq<u8>, ErrorModel> {
    if b.label == "RSA PRIVATE KEY"@ {
        tls_outcome(pkcs1_rsa(b.text))
    } else if b.label == "EC PRIVATE KEY"@ {
        tls_outcome(sec1_ec(b.text))
    } else {
        pkcs8_secret(b.text)
    }
}

/// The secret in the first private-key block.
pub open spec fn first_key(blocks: Seq<PemModel>) -> core::result::Result<Seq<u8>, ErrorModel>
    decreases blocks.len(),
{
    if blocks.len() == 0 {
        Err(ErrorModel::Tls("no private key found in PEM"@))
    } else if is_key_label(blocks[0].label) {
        block_secret(blocks[0])
    } else {
        first_key(blocks.skip(1))
    }
}

/// Load the first private-key block as a TLS signing key.
pub fn load_signing_key(pem: &str) -> (r: Result<SigningKey>)
    ensures
        key_read(r, first_key(blocks_from(pem@, 0))),
{
    let blocks = pem_blocks(pem);
    let ghost m = pem_models(blocks@);
    let mut i: usize = 0;
    proof {
        assert(m.skip(0) =~= m);
    }
    while i < blocks.len()
        invariant
            i <= blocks@.len(),
            m == pem_models(blocks@),
            m == blocks_from(pem@, 0),
            first_key(m) == first_key(m.skip(i as int)),
        decreases blocks.len() - i,
    {
        proof {
            assert(m.skip(i as int)[0] == blocks@[i as int]@);
            assert(m.skip(i as int).skip(1) =~= m.skip(i + 1));
            reveal_strlit("RSA PRIVATE KEY");
            reveal_strlit("EC PRIVATE KEY");
            reveal_strlit("PRIVATE KEY");
        }
        let label = blocks[i].label.as_str();
        let text = blocks[i].text.as_str();
        if str_eq(label, "RSA PRIVATE KEY") {
            return tls_result(read_pkcs1_rsa(text));
        }
        if str_eq(label, "EC PRIVATE KEY") {
            return tls_result(read_sec1_ec(text));
        }
        if str_eq(label, "PRIVATE KEY") {
            return signing_key_from_pkcs8(text);
        }
        i += 1;
    }
    Err(Error::Tls(owned("no private key found in PEM")))
}

// ---------------------------------------------------------------------------
// Acceptors
// ---------------------------------------------------------------------------

/// A TLS server configuration.
#[verifier::external_type_specification]
#[verifier::external_body]
pub struct ExConfig(purecrypto::tls::Config);

/// The certificate chain of a configuration.
pub uninterp spec fn config_chain(config: Config) -> Seq<Seq<u8>>;

/// The secret of a configuration's key.
pub uninterp spec fn config_secret(config: Config) -> Seq<u8>;

/// The application protocols of a configuration, most preferred first.
pub uninterp spec fn config_alpn(config: Config) -> Seq<Seq<u8>>;

/// Whether connections can be served with a configuration.
pub uninterp spec fn config_serves(config: Config) -> bool;

/// `Config::builder`: TLS only, with the system's random numbers, and this
/// identity and protocol list. With an identity and the protocol versions that
/// the builder has by default, connections can be served.
#[verifier::external_body]
pub(crate) fn server_config(chain: Vec<Vec<u8>>, key: SigningKey, alpn: Vec<Vec<u8>>) -> (r: Config)
    ensures
        config_chain(r) == byte_views(chain@),
        config_secret(r) == key_secret(key),
        config_alpn(r) == byte_views(alpn@),
        config_serves(r),
{
    Config::builder().rng(Arc::new(OsRng)).tls_only().identity(chain, key).alpn(alpn).build()
}

/// A moment in UTC.
#[derive(Debug, Clone, Copy, PartialEq, Eq, Structural)]
pub struct Moment {
    pub year: u64,
    pub month: u8,
    pub day: u8,
    pub hour: u8,
    pub minute: u8,
    pub second: u8,
}

/// The start of a year.
pub open spec fn start_of(year: u64) -> Moment {
    Moment { year, month: 1, day: 1, hour: 0, minute: 0, second: 0 }
}

fn new_year(year: u64) -> (r: Moment)
    ensures
        r == start_of(year),
{
    Moment { year, month: 1, day: 1, hour: 0, minute: 0, second: 0 }
}

/// The year at whose start the validity of the certificates that are made here
/// begins.
pub const VALID_FROM: u64 = 2020;

/// The year at whose start it ends.
pub const VALID_TO: u64 = 2040;

/// Their serial number.
pub const SERIAL: u64 = 1;

/// The self-signed certificate (DER) for host names under a SEC1-encoded key, of
/// an authority or not, or why there is none.
pub uninterp spec fn self_signed_of(
    key: Seq<u8>,
    common_name: Seq<char>,
    names: Seq<Seq<char>>,
    from: Moment,
    to: Moment,
    serial: u64,
    authority: bool,
) -> core::result::Result<Seq<u8>, Seq<char>>;

/// `Certificate::self_signed_with_sans`, signed deterministically (RFC 6979).
#[verifier::external_body]
pub(crate) fn self_signed_cert(
    key: &[u8],
    common_name: &str,
    names: &Vec<String>,
    from: Moment,
    to: Moment,
    serial: u64,
    authority: bool,
) -> (r: core::result::Result<Vec<u8>, String>)
    ensures
        match r {
            Ok(d) => self_signed_of(key@, common_name@, texts(names@), from, to, serial, authority) == Ok::<
                Seq<u8>,
                Seq<char>,
            >(d@),
            Err(e) => self_signed_of(key@, common_name@, texts(names@), from, to, serial, authority) == Err::<
                Seq<u8>,
                Seq<char>,
            >(e@),
        },
{
    let key = BoxedEcdsaPrivateKey::from_sec1_der(key).map_err(|e| format!("{e:?}"))?;
    let name = DistinguishedName::common_name(common_name);
    let valid = Validity::new(
        Time::utc(from.year, from.month, from.day, from.hour, from.minute, from.second),
        Time::utc(to.year, to.month, to.day, to.hour, to.minute, to.second),
    );
    let names: Vec<&str> = names.iter().map(|n| n.as_str()).collect();
    let any = AnyPrivateKey::Ecdsa(key);
    Certificate::self_signed_with_sans(&any, &name, &valid, serial, authority, &names)
        .map(|c| c.to_der().to_vec())
        .map_err(|e| format!("{e:?}"))
}

/// The object identifier of `id-pe-acmeIdentifier` (RFC 8737).
pub open spec fn acme_identifier_oid() -> Seq<u64> {
    seq![1u64, 3u64, 6u64, 1u64, 5u64, 5u64, 7u64, 1u64, 31u64]
}

/// The self-signed certificate (DER) for a host, with an extension of this object
/// identifier and value, critical or not, under a SEC1-encoded key.
pub uninterp spec fn extended_cert_of(
    key: Seq<u8>,
    host: Seq<char>,
    oid: Seq<u64>,
    critical: bool,
    value: Seq<u8>,
    from: Moment,
    to: Moment,
    serial: u64,
) -> core::result::Result<Seq<u8>, Seq<char>>;

/// `Certificate::self_signed_with_extensions`: the host as subject alternative
/// name, and the extension.
#[verifier::external_body]
pub(crate) fn extended_cert(
    key: &[u8],
    host: &str,
    oid: Vec<u64>,
    critical: bool,
    value: Vec<u8>,
    from: Moment,
    to: Moment,
    serial: u64,
) -> (r: core::result::Result<Vec<u8>, String>)
    requires
        2 <= oid@.len(),
        oid@[0] < 2,
        oid@[1] < 40,
    ensures
        match r {
            Ok(d) => extended_cert_of(key@, host@, oid@, critical, value@, from, to, serial) == Ok::<
                Seq<u8>,
                Seq<char>,
            >(d@),
            Err(e) => extended_cert_of(key@, host@, oid@, critical, value@, from, to, serial) == Err::<
                Seq<u8>,
                Seq<char>,
            >(e@),
        },
{
    let key = BoxedEcdsaPrivateKey::from_sec1_der(key).map_err(|e| format!("{e:?}"))?;
    let name = DistinguishedName::common_name(host);
    let valid = Validity::new(
        Time::utc(from.year, from.month, from.day, from.hour, from.minute, from.second),
        Time::utc(to.year, to.month, to.day, to.hour, to.minute, to.second),
    );
    let san = subject_alt_name(&[GeneralName::Dns(host.to_owned())]);
    let exts = [san, Extension { oid, critical, value }];
    let signer = CertSigner::Ecdsa(&key);
    Certificate::self_signed_with_extensions(&signer, &name, &valid, serial, &exts)
        .map(|c| c.to_der().to_vec())
        .map_err(|e| format!("{e:?}"))
}

/// The protocols offered for content: HTTP/2 ahead of HTTP/1.1.
pub open spec fn content_alpn() -> Seq<Seq<u8>> {
    seq![encode_utf8("h2"@), encode_utf8("http/1.1"@)]
}

/// The protocol of a challenge.
pub open spec fn challenge_alpn() -> Seq<Seq<u8>> {
    seq![encode_utf8("acme-tls/1"@)]
}

/// The identity behind an acceptor.
#[verifier::ext_equal]
pub struct AcceptorModel {
    /// The certificate chain (DER, leaf first).
    pub chain: Seq<Seq<u8>>,
    pub secret: Seq<u8>,
    pub key_pem: Seq<char>,
    pub alpn: Seq<Seq<u8>>,
}

/// A reusable TLS server configuration. The chain and the key's PEM are kept so
/// that the same identity can also mint QUIC configurations.
pub struct TlsAcceptor {
    config: Arc<Config>,
    chain: Vec<Vec<u8>>,
    key_pem: String,
}

impl View for TlsAcceptor {
    type V = AcceptorModel;

    closed spec fn view(&self) -> AcceptorModel {
        AcceptorModel {
            chain: byte_views(self.chain@),
            secret: config_secret(*self.config),
            key_pem: self.key_pem@,
            alpn: config_alpn(*self.config),
        }
    }
}

/// The acceptor for a chain and a key.
pub open spec fn acceptor_of(chain: Seq<Seq<u8>>, key_pem: Seq<char>, alpn: Seq<Seq<u8>>) -> core::result::Result<
    AcceptorModel,
    ErrorModel,
> {
    match first_key(blocks_from(key_pem, 0)) {
        Ok(secret) => Ok(AcceptorModel { chain, secret, key_pem, alpn }),
        Err(e) => Err(e),
    }
}

/// Whether an acceptor was built as described.
pub open spec fn acceptor_built(
    r: Result<TlsAcceptor>,
    m: core::result::Result<AcceptorModel, ErrorModel>,
) -> bool {
    match (r, m) {
        (Ok(a), Ok(x)) => a.wf() && a@ == x,
        (Err(e), Err(f)) => e@ == f,
        _ => false,
    }
}

/// The value of the `id-pe-acmeIdentifier` extension: a DER octet string of the
/// digest.
pub open spec fn acme_identifier(digest: Seq<u8>) -> Seq<u8> {
    seq![0x04u8, 0x20u8] + digest
}

/// The acceptor for the self-signed certificate under a key.
pub open spec fn self_signed_acceptor(key: Seq<u8>, names: Seq<Seq<char>>) -> core::result::Result<
    AcceptorModel,
    ErrorModel,
> {
    let primary = if names.len() > 0 {
        names[0]
    } else {
        "localhost"@
    };
    minted(key, self_signed_of(key, primary, names, start_of(VALID_FROM), start_of(VALID_TO), SERIAL, false), content_alpn())
}

/// The acceptor for the challenge certificate under a key.
pub open spec fn challenge_acceptor(key: Seq<u8>, host: Seq<char>, digest: Seq<u8>) -> core::result::Result<
    AcceptorModel,
    ErrorModel,
> {
    minted(
        key,
        extended_cert_of(
            key,
            host,
            acme_identifier_oid(),
            true,
            acme_identifier(digest),
            start_of(VALID_FROM),
            start_of(VALID_TO),
            SERIAL,
        ),
        challenge_alpn(),
    )
}

/// The acceptor for a certificate that was made for a key.
pub open spec fn minted(
    key: Seq<u8>,
    cert: core::result::Result<Seq<u8>, Seq<char>>,
    alpn: Seq<Seq<u8>>,
) -> core::result::Result<AcceptorModel, ErrorModel> {
    match (ec_pem_of(key), cert) {
        (Some(pem), Ok(der)) => acceptor_of(seq![der], pem, alpn),
        (_, Err(m)) => Err(ErrorModel::Tls(m)),
        (None, _) => Err(ErrorModel::Tls("key encoding failed"@)),
    }
}

impl TlsAcceptor {
    /// The configuration serves the chain that is kept, with the key that is
    /// kept.
    pub closed spec fn wf(self) -> bool {
        &&& config_serves(*self.config)
        &&& config_chain(*self.config) == byte_views(self.chain@)
        &&& first_key(blocks_from(self.key_pem@, 0)) == Ok::<Seq<u8>, ErrorModel>(
            config_secret(*self.config),
        )
    }

    /// Build an acceptor from a PEM certificate chain and a PEM private key.
    ///
    /// The certificate PEM may contain the leaf followed by intermediates. The
    /// key may be PKCS#8 (`PRIVATE KEY`), PKCS#1 RSA (`RSA PRIVATE KEY`), or
    /// SEC1 EC (`EC PRIVATE KEY`).
    pub fn from_pem(cert_pem: &str, key_pem: &str) -> (r: Result<TlsAcceptor>)
        ensures
            ({
                let chain = labelled(blocks_from(cert_pem@, 0), "CERTIFICATE"@);
                acceptor_built(
                    r,
                    if chain.len() == 0 {
                        Err(ErrorModel::Tls("no certificates found in PEM"@))
                    } else {
                        acceptor_of(chain, key_pem@, content_alpn())
                    },
                )
            }),
    {
        let chain = cert_chain_der(cert_pem);
        proof {
            assert(byte_views(chain@).len() == chain@.len());
        }
        if chain.len() == 0 {
            return Err(Error::Tls(owned("no certificates found in PEM")));
        }
        TlsAcceptor::build_with_alpn(chain, owned(key_pem), content_protocols())
    }

    /// Generate an ephemeral self-signed certificate covering the given host
    /// names, with a P-256 key. Handy for local development; clients must opt
    /// out of verification or trust the generated certificate.
    pub fn self_signed(hostnames: &Vec<String>) -> (r: Result<TlsAcceptor>)
        ensures
            exists|key: Seq<u8>|
                has_p256_point(key) && #[trigger] acceptor_built(
                    r,
                    self_signed_acceptor(key, texts(hostnames@)),
                ),
    {
        let key = new_ec_key();
        TlsAcceptor::self_signed_with(key.as_slice(), hostnames)
    }

    /// The self-signed identity under a SEC1-encoded key.
    pub fn self_signed_with(key: &[u8], hostnames: &Vec<String>) -> (r: Result<TlsAcceptor>)
        ensures
            acceptor_built(r, self_signed_acceptor(key@, texts(hostnames@))),
    {
        let from = new_year(VALID_FROM);
        let to = new_year(VALID_TO);
        let cert = if hostnames.len() > 0 {
            self_signed_cert(key, hostnames[0].as_str(), hostnames, from, to, SERIAL, false)
        } else {
            self_signed_cert(key, "localhost", hostnames, from, to, SERIAL, false)
        };
        TlsAcceptor::mint(key, cert, content_protocols())
    }

    /// Build the special acceptor for an ACME **TLS-ALPN-01** challenge
    /// (RFC 8737): a self-signed certificate for `host` carrying the critical
    /// `id-pe-acmeIdentifier` extension with `key_auth_digest`
    /// (`SHA-256(key authorization)`), and an ALPN of exactly `acme-tls/1`.
    pub fn acme_challenge(host: &str, key_auth_digest: &[u8]) -> (r: Result<TlsAcceptor>)
        ensures
            exists|key: Seq<u8>|
                has_p256_point(key) && #[trigger] acceptor_built(
                    r,
                    challenge_acceptor(key, host@, key_auth_digest@),
                ),
    {
        let key = new_ec_key();
        TlsAcceptor::acme_challenge_with(key.as_slice(), host, key_auth_digest)
    }

    /// The challenge identity under a SEC1-encoded key.
    pub fn acme_challenge_with(key: &[u8], host: &str, key_auth_digest: &[u8]) -> (r: Result<
        TlsAcceptor,
    >)
        ensures
            acceptor_built(r, challenge_acceptor(key@, host@, key_auth_digest@)),
    {
        let mut oid: Vec<u64> = Vec::new();
        oid.push(1);
        oid.push(3);
        oid.push(6);
        oid.push(1);
        oid.push(5);
        oid.push(5);
        oid.push(7);
        oid.push(1);
        oid.push(31);
        proof {
            assert(oid@ =~= acme_identifier_oid());
        }
        let mut value: Vec<u8> = Vec::new();
        value.push(0x04);
        value.push(0x20);
        push_all(&mut value, key_auth_digest);
        proof {
            assert(value@ =~= acme_identifier(key_auth_digest@));
        }
        let cert = extended_cert(key, host, oid, true, value, new_year(VALID_FROM), new_year(VALID_TO), SERIAL);
        TlsAcceptor::mint(key, cert, protocol("acme-tls/1"))
    }

    fn mint(
        key: &[u8],
        cert: core::result::Result<Vec<u8>, String>,
        alpn: Vec<Vec<u8>>,
    ) -> (r: Result<TlsAcceptor>)
        ensures
            acceptor_built(
                r,
                minted(
                    key@,
                    match cert {
                        Ok(d) => Ok(d@),
                        Err(e) => Err(e@),
                    },
                    byte_views(alpn@),
                ),
            ),
    {
        let der = match cert {
            Ok(d) => d,
            Err(m) => {
                return Err(Error::Tls(m));
            },
        };
        let pem = match ec_pem(key) {
            Some(p) => p,
            None => {
                return Err(Error::Tls(owned("key encoding failed")));
            },
        };
        let mut chain: Vec<Vec<u8>> = Vec::new();
        chain.push(der);
        proof {
            assert(byte_views(chain@) =~= seq![der@]);
        }
        TlsAcceptor::build_with_alpn(chain, pem, alpn)
    }

    fn build_with_alpn(chain: Vec<Vec<u8>>, key_pem: String, alpn: Vec<Vec<u8>>) -> (r: Result<
        TlsAcceptor,
    >)
        ensures
            acceptor_built(r, acceptor_of(byte_views(chain@), key_pem@, byte_views(alpn@))),
    {
        let key = match load_signing_key(key_pem.as_str()) {
            Ok(k) => k,
            Err(e) => {
                return Err(e);
            },
        };
        let config = server_config(copy_all(&chain), key, alpn);
        Ok(TlsAcceptor { config: Arc::new(config), chain, key_pem })
    }

    /// The certificate chain (DER, leaf first).
    pub fn chain(&self) -> (r: &Vec<Vec<u8>>)
        ensures
            byte_views(r@) == self@.chain,
    {
        &self.chain
    }

    /// The private key as PEM.
    pub fn key_pem(&self) -> (r: &str)
        ensures
            r@ == self@.key_pem,
    {
        self.key_pem.as_str()
    }

    /// Begin a new server-side TLS connection. The handshake is driven by
    /// feeding the returned stream the bytes that arrive on the socket.
    pub fn accept(&self) -> (r: Result<TlsStream>)
        requires
            self.wf(),
        ensures
            r matches Ok(s) && s@ == (StreamModel {
                fed: Seq::empty(),
                sent: Seq::empty(),
                received: Seq::empty(),
                outgoing: Seq::empty(),
                taken: Seq::empty(),
                popped: Seq::empty(),
                identity: (self@.chain, self@.secret, self@.alpn),
                complete: false,
                alpn: None,
            }),
    {
        match server_connection(&self.config) {
            Ok(conn) => Ok(TlsStream { conn }),
            Err(m) => Err(Error::Tls(m)),
        }
    }
}

// ---------------------------------------------------------------------------
// QUIC
// ---------------------------------------------------------------------------

/// A QUIC configuration.
#[verifier::external_type_specification]
#[verifier::external_body]
pub struct ExQuicConfig(purecrypto::quic::QuicConfig);

/// What a QUIC endpoint lets its peer do.
#[derive(Debug, Clone, Copy, PartialEq, Eq, Structural)]
pub struct QuicLimits {
    pub idle_timeout_ms: u64,
    pub udp_payload: u64,
    /// Credit for the connection as a whole.
    pub data: u64,
    /// Credit for each stream.
    pub stream_data: u64,
    pub streams_bidi: u64,
    pub streams_uni: u64,
    pub connection_ids: u64,
}

/// The limits of a server here.
pub open spec fn quic_limits() -> QuicLimits {
    QuicLimits {
        idle_timeout_ms: 30000,
        udp_payload: 1500,
        data: 8388608,
        stream_data: 1048576,
        streams_bidi: 128,
        streams_uni: 8,
        connection_ids: 2,
    }
}

/// The certificate chain of a QUIC configuration.
pub uninterp spec fn quic_chain(config: QuicConfig) -> Seq<Seq<u8>>;

/// The secret of a QUIC configuration's key.
pub uninterp spec fn quic_secret(config: QuicConfig) -> Seq<u8>;

/// The application protocols of a QUIC configuration.
pub uninterp spec fn quic_alpn(config: QuicConfig) -> Seq<Seq<u8>>;

/// The limits that a QUIC configuration advertises.
pub uninterp spec fn quic_advertised(config: QuicConfig) -> QuicLimits;

/// `QuicConfig::default` with this TLS configuration and these transport
/// parameters.
#[verifier::external_body]
pub(crate) fn quic_server_config(tls: Config, limits: &QuicLimits) -> (r: QuicConfig)
    ensures
        quic_chain(r) == config_chain(tls),
        quic_secret(r) == config_secret(tls),
        quic_alpn(r) == config_alpn(tls),
        quic_advertised(r) == *limits,
{
    let mut cfg = QuicConfig::default();
    cfg.tls = tls;
    cfg.transport_params.max_idle_timeout_ms = Some(limits.idle_timeout_ms);
    cfg.transport_params.max_udp_payload_size = Some(limits.udp_payload);
    cfg.transport_params.initial_max_data = Some(limits.data);
    cfg.transport_params.initial_max_stream_data_bidi_local = Some(limits.stream_data);
    cfg.transport_params.initial_max_stream_data_bidi_remote = Some(limits.stream_data);
    cfg.transport_params.initial_max_stream_data_uni = Some(limits.stream_data);
    cfg.transport_params.initial_max_streams_bidi = Some(limits.streams_bidi);
    cfg.transport_params.initial_max_streams_uni = Some(limits.streams_uni);
    cfg.transport_params.active_connection_id_limit = Some(limits.connection_ids);
    cfg
}

impl TlsAcceptor {
    /// Mint a QUIC configuration for the same identity, with an ALPN of exactly
    /// `h3`.
    pub fn quic_config(&self) -> (r: Result<QuicConfig>)
        requires
            self.wf(),
        ensures
            r matches Ok(c) && quic_chain(c) == self@.chain && quic_secret(c) == self@.secret
                && quic_alpn(c) == seq![encode_utf8("h3"@)] && quic_advertised(c) == quic_limits(),
    {
        let key = match load_signing_key(self.key_pem.as_str()) {
            Ok(k) => k,
            Err(e) => {
                return Err(e);
            },
        };
        let tls = server_config(copy_all(&self.chain), key, protocol("h3"));
        let limits = QuicLimits {
            idle_timeout_ms: 30000,
            udp_payload: 1500,
            data: 8388608,
            stream_data: 1048576,
            streams_bidi: 128,
            streams_uni: 8,
            connection_ids: 2,
        };
        Ok(quic_server_config(tls, &limits))
    }
}

/// A list of one protocol.
fn protocol(name: &str) -> (r: Vec<Vec<u8>>)
    ensures
        byte_views(r@) == seq![encode_utf8(name@)],
{
    let mut v: Vec<Vec<u8>> = Vec::new();
    v.push(copy_of(name.as_bytes()));
    proof {
        assert(byte_views(v@) =~= seq![encode_utf8(name@)]);
    }
    v
}

fn content_protocols() -> (r: Vec<Vec<u8>>)
    ensures
        byte_views(r@) == content_alpn(),
{
    let mut v: Vec<Vec<u8>> = Vec::new();
    v.push(copy_of("h2".as_bytes()));
    v.push(copy_of("http/1.1".as_bytes()));
    proof {
        assert(byte_views(v@) =~= content_alpn());
    }
    v
}

fn copy_all(v: &Vec<Vec<u8>>) -> (r: Vec<Vec<u8>>)
    ensures
        byte_views(r@) == byte_views(v@),
{
    let mut out: Vec<Vec<u8>> = Vec::new();
    let ghost all = byte_views(v@);
    let mut i: usize = 0;
    proof {
        assert(byte_views(out@) =~= all.take(0));
    }
    while i < v.len()
        invariant
            i <= v@.len(),
            all == byte_views(v@),
            byte_views(out@) == all.take(i as int),
        decreases v.len() - i,
    {
        let ghost before = out@;
        let c = copy_of(v[i].as_slice());
        out.push(c);
        proof {
            assert(byte_views(out@) =~= byte_views(before).push(c@));
            assert(all.take(i + 1) =~= all.take(i as int).push(c@));
        }
        i += 1;
    }
    proof {
        assert(all.take(all.len() as int) =~= all);
    }
    out
}

// ---------------------------------------------------------------------------
// Streams
// ---------------------------------------------------------------------------

/// The TLS engine of one connection.
#[verifier::external_type_specification]
#[verifier::external_body]
pub struct ExConnection(purecrypto::tls::Connection);

/// Decrypted application bytes that wait to be taken.
pub uninterp spec fn tls_received(conn: Connection) -> Seq<u8>;

/// Ciphertext that waits to be written to the socket.
pub uninterp spec fn tls_outgoing(conn: Connection) -> Seq<u8>;

/// All the bytes off the wire that the connection has taken in.
pub uninterp spec fn tls_fed(conn: Connection) -> Seq<u8>;

/// All the application bytes that the connection was given to send.
pub uninterp spec fn tls_sent(conn: Connection) -> Seq<u8>;

/// All the decrypted application bytes that were taken.
pub uninterp spec fn tls_taken(conn: Connection) -> Seq<u8>;

/// All the ciphertext that was taken.
pub uninterp spec fn tls_popped(conn: Connection) -> Seq<u8>;

/// What a connection is served with: the certificate chain, the secret of the key,
/// and the application protocols, most preferred first.
pub uninterp spec fn tls_identity(conn: Connection) -> (Seq<Seq<u8>>, Seq<u8>, Seq<Seq<u8>>);

/// Whether the handshake has completed.
pub uninterp spec fn tls_complete(conn: Connection) -> bool;

/// The negotiated application protocol.
pub uninterp spec fn tls_alpn(conn: Connection) -> Option<Seq<u8>>;

/// `Connection::server`: a connection on which nothing has happened, if the
/// configuration has an identity and protocol versions to serve with. It is served
/// with what the configuration holds.
#[verifier::external_body]
pub(crate) fn server_connection(config: &Config) -> (r: core::result::Result<Connection, String>)
    ensures
        r is Ok <==> config_serves(*config),
        r matches Ok(c) ==> tls_fed(c) == Seq::<u8>::empty(),
        r matches Ok(c) ==> tls_sent(c) == Seq::<u8>::empty(),
        r matches Ok(c) ==> tls_received(c) == Seq::<u8>::empty(),
        r matches Ok(c) ==> tls_outgoing(c) == Seq::<u8>::empty(),
        r matches Ok(c) ==> tls_taken(c) == Seq::<u8>::empty(),
        r matches Ok(c) ==> tls_popped(c) == Seq::<u8>::empty(),
        r matches Ok(c) ==> tls_identity(c) == (
            config_chain(*config),
            config_secret(*config),
            config_alpn(*config),
        ),
        r matches Ok(c) ==> !tls_complete(c),
        r matches Ok(c) ==> tls_alpn(c) is None,
{
    Connection::server(config).map_err(|e| format!("{e:?}"))
}

/// `Connection::feed`: takes in all of the bytes, or fails. What it makes of
/// them is the TLS engine's: what it decrypts to, what is to be answered, and
/// whether the handshake is complete with them.
#[verifier::external_body]
pub(crate) fn conn_feed(conn: &mut Connection, wire: &[u8]) -> (r: core::result::Result<usize, String>)
    ensures
        r matches Ok(n) ==> n == wire@.len(),
        r is Ok ==> tls_fed(*final(conn)) == tls_fed(*old(conn)) + wire@,
        tls_sent(*final(conn)) == tls_sent(*old(conn)),
        tls_taken(*final(conn)) == tls_taken(*old(conn)),
        tls_popped(*final(conn)) == tls_popped(*old(conn)),
        tls_identity(*final(conn)) == tls_identity(*old(conn)),
{
    conn.feed(wire).map_err(|e| format!("{e:?}"))
}

/// `Connection::recv`: takes all the application bytes that wait. It does not
/// fail.
#[verifier::external_body]
pub(crate) fn conn_recv(conn: &mut Connection) -> (r: core::result::Result<Vec<u8>, String>)
    ensures
        r matches Ok(v) && v@ == tls_received(*old(conn)),
        tls_received(*final(conn)) == Seq::<u8>::empty(),
        r matches Ok(v) ==> tls_taken(*final(conn)) == tls_taken(*old(conn)) + v@,
        tls_outgoing(*final(conn)) == tls_outgoing(*old(conn)),
        tls_popped(*final(conn)) == tls_popped(*old(conn)),
        tls_identity(*final(conn)) == tls_identity(*old(conn)),
        tls_fed(*final(conn)) == tls_fed(*old(conn)),
        tls_sent(*final(conn)) == tls_sent(*old(conn)),
        tls_complete(*final(conn)) == tls_complete(*old(conn)),
        tls_alpn(*final(conn)) == tls_alpn(*old(conn)),
{
    conn.recv().map_err(|e| format!("{e:?}"))
}

/// `Connection::send`: takes all of the application bytes, or fails; ciphertext
/// comes behind what waits already. How they look encrypted is the TLS engine's.
#[verifier::external_body]
pub(crate) fn conn_send(conn: &mut Connection, app: &[u8]) -> (r: core::result::Result<(), String>)
    ensures
        r is Ok ==> tls_sent(*final(conn)) == tls_sent(*old(conn)) + app@,
        tls_outgoing(*old(conn)).is_prefix_of(tls_outgoing(*final(conn))),
        tls_taken(*final(conn)) == tls_taken(*old(conn)),
        tls_popped(*final(conn)) == tls_popped(*old(conn)),
        tls_identity(*final(conn)) == tls_identity(*old(conn)),
        tls_received(*final(conn)) == tls_received(*old(conn)),
        tls_fed(*final(conn)) == tls_fed(*old(conn)),
        tls_complete(*final(conn)) == tls_complete(*old(conn)),
        tls_alpn(*final(conn)) == tls_alpn(*old(conn)),
{
    conn.send(app).map_err(|e| format!("{e:?}"))
}

/// `Connection::pop`: takes waiting ciphertext off the front, some if there is
/// any. It does not fail.
#[verifier::external_body]
pub(crate) fn conn_pop(conn: &mut Connection) -> (r: core::result::Result<Vec<u8>, String>)
    ensures
        r matches Ok(v) && tls_outgoing(*old(conn)) == v@ + tls_outgoing(*final(conn)) && (v@.len()
            == 0 ==> tls_outgoing(*old(conn)) == Seq::<u8>::empty()),
        r matches Ok(v) ==> tls_popped(*final(conn)) == tls_popped(*old(conn)) + v@,
        tls_taken(*final(conn)) == tls_taken(*old(conn)),
        tls_identity(*final(conn)) == tls_identity(*old(conn)),
        tls_received(*final(conn)) == tls_received(*old(conn)),
        tls_fed(*final(conn)) == tls_fed(*old(conn)),
        tls_sent(*final(conn)) == tls_sent(*old(conn)),
        tls_complete(*final(conn)) == tls_complete(*old(conn)),
        tls_alpn(*final(conn)) == tls_alpn(*old(conn)),
{
    conn.pop().map_err(|e| format!("{e:?}"))
}

/// `Connection::is_handshake_complete`.
#[verifier::external_body]
pub(crate) fn conn_complete(conn: &Connection) -> (r: bool)
    ensures
        r == tls_complete(*conn),
{
    conn.is_handshake_complete()
}

/// `Connection::alpn_selected`.
#[verifier::external_body]
pub(crate) fn conn_alpn(conn: &Connection) -> (r: Option<Vec<u8>>)
    ensures
        match r {
            Some(p) => tls_alpn(*conn) == Some(p@),
            None => tls_alpn(*conn) is None,
        },
{
    conn.alpn_selected().map(|p| p.to_vec())
}

/// `Connection::close`: queues the closing alert, once there are keys for it.
#[verifier::external_body]
pub(crate) fn conn_close(conn: &mut Connection) -> (r: core::result::Result<(), String>)
    ensures
        tls_outgoing(*old(conn)).is_prefix_of(tls_outgoing(*final(conn))),
        tls_taken(*final(conn)) == tls_taken(*old(conn)),
        tls_popped(*final(conn)) == tls_popped(*old(conn)),
        tls_identity(*final(conn)) == tls_identity(*old(conn)),
        tls_received(*final(conn)) == tls_received(*old(conn)),
        tls_fed(*final(conn)) == tls_fed(*old(conn)),
        tls_sent(*final(conn)) == tls_sent(*old(conn)),
        tls_complete(*final(conn)) == tls_complete(*old(conn)),
        tls_alpn(*final(conn)) == tls_alpn(*old(conn)),
{
    conn.close().map_err(|e| format!("{e:?}"))
}

/// What is known of a TLS connection.
#[verifier::ext_equal]
pub struct StreamModel {
    /// All the bytes off the wire that were taken in.
    pub fed: Seq<u8>,
    /// All the application bytes that were given to send.
    pub sent: Seq<u8>,
    /// Decrypted bytes that wait to be taken.
    pub received: Seq<u8>,
    /// Ciphertext that waits to be taken.
    pub outgoing: Seq<u8>,
    /// All the decrypted bytes that were taken.
    pub taken: Seq<u8>,
    /// All the ciphertext that was taken.
    pub popped: Seq<u8>,
    /// The chain, the secret and the protocols that it is served with.
    pub identity: (Seq<Seq<u8>>, Seq<u8>, Seq<Seq<u8>>),
    pub complete: bool,
    pub alpn: Option<Seq<u8>>,
}

/// One server-side TLS connection.
pub struct TlsStream {
    conn: Connection,
}

impl View for TlsStream {
    type V = StreamModel;

    closed spec fn view(&self) -> StreamModel {
        StreamModel {
            fed: tls_fed(self.conn),
            sent: tls_sent(self.conn),
            received: tls_received(self.conn),
            outgoing: tls_outgoing(self.conn),
            taken: tls_taken(self.conn),
            popped: tls_popped(self.conn),
            identity: tls_identity(self.conn),
            complete: tls_complete(self.conn),
            alpn: tls_alpn(self.conn),
        }
    }
}

impl TlsStream {
    /// Feed ciphertext received from the socket into the TLS engine. What comes
    /// of it is the engine's; on an empty input nothing is fed.
    pub fn feed(&mut self, wire: &[u8]) -> (r: Result<()>)
        ensures
            r is Ok ==> final(self)@.fed == old(self)@.fed + wire@,
            final(self)@.sent == old(self)@.sent,
            final(self)@.taken == old(self)@.taken,
            final(self)@.popped == old(self)@.popped,
            final(self)@.identity == old(self)@.identity,
            r matches Err(e) ==> e@ is Tls,
            wire@.len() == 0 ==> r is Ok && final(self)@ == old(self)@,
    {
        let n: usize = wire.len();
        let mut off: usize = 0;
        proof {
            assert(self@.fed + wire@.take(0) =~= self@.fed);
        }
        while off < n
            invariant
                off <= n == wire@.len(),
                self@.fed == old(self)@.fed + wire@.take(off as int),
                self@.sent == old(self)@.sent,
                self@.taken == old(self)@.taken,
                self@.popped == old(self)@.popped,
                self@.identity == old(self)@.identity,
                wire@.len() == 0 ==> self@ == old(self)@,
            decreases n - off,
        {
            let ghost before = self@.fed;
            let k: usize = match conn_feed(&mut self.conn, tail(wire, off)) {
                Ok(k) => k,
                Err(m) => {
                    return Err(Error::Tls(m));
                },
            };
            proof {
                assert(before + wire@.skip(off as int) =~= old(self)@.fed + wire@.take(off + k));
            }
            off += k;
        }
        proof {
            assert(wire@.take(n as int) =~= wire@);
        }
        Ok(())
    }

    /// Drain all currently available decrypted application bytes.
    pub fn recv_all(&mut self) -> (r: Result<Vec<u8>>)
        ensures
            r matches Ok(v) && v@ == old(self)@.received,
            final(self)@ == (StreamModel {
                received: Seq::empty(),
                taken: old(self)@.taken + old(self)@.received,
                ..old(self)@
            }),
    {
        let mut out: Vec<u8> = Vec::new();
        proof {
            assert(out@ + self@.received =~= self@.received);
            assert(self@.taken + out@ =~= self@.taken);
        }
        loop
            invariant
                out@ + self@.received == old(self)@.received,
                self@ == (StreamModel {
                    received: self@.received,
                    taken: old(self)@.taken + out@,
                    ..old(self)@
                }),
            decreases self@.received.len(),
        {
            let ghost before = self@.received;
            let ghost o = out@;
            let chunk = match conn_recv(&mut self.conn) {
                Ok(c) => c,
                Err(m) => {
                    return Err(Error::Tls(m));
                },
            };
            if chunk.len() == 0 {
                proof {
                    assert(chunk@ =~= Seq::empty());
                    assert(out@ + Seq::<u8>::empty() =~= out@);
                    assert(self@.taken =~= old(self)@.taken + out@);
                }
                return Ok(out);
            }
            push_all(&mut out, chunk.as_slice());
            proof {
                assert(out@ + self@.received =~= o + before);
                assert(self@.taken =~= old(self)@.taken + out@);
            }
        }
    }

    /// Queue application bytes to be encrypted and sent; none are nothing to
    /// send.
    pub fn send(&mut self, app: &[u8]) -> (r: Result<()>)
        ensures
            final(self)@ == (StreamModel {
                sent: final(self)@.sent,
                outgoing: final(self)@.outgoing,
                ..old(self)@
            }),
            r is Ok ==> final(self)@.sent == old(self)@.sent + app@,
            old(self)@.outgoing.is_prefix_of(final(self)@.outgoing),
            r matches Err(e) ==> e@ is Tls,
            app@.len() == 0 ==> r is Ok && final(self)@ == old(self)@,
    {
        if app.len() == 0 {
            proof {
                assert(self@.sent + app@ =~= self@.sent);
            }
            return Ok(());
        }
        match conn_send(&mut self.conn, app) {
            Ok(_) => Ok(()),
            Err(m) => Err(Error::Tls(m)),
        }
    }

    /// Drain all ciphertext that must be written to the socket (handshake
    /// records and/or encrypted application data).
    pub fn pop_all(&mut self) -> (r: Result<Vec<u8>>)
        ensures
            r matches Ok(v) && v@ == old(self)@.outgoing,
            final(self)@ == (StreamModel {
                outgoing: Seq::empty(),
                popped: old(self)@.popped + old(self)@.outgoing,
                ..old(self)@
            }),
    {
        let mut out: Vec<u8> = Vec::new();
        proof {
            assert(out@ + self@.outgoing =~= self@.outgoing);
            assert(self@.popped + out@ =~= self@.popped);
        }
        loop
            invariant
                out@ + self@.outgoing == old(self)@.outgoing,
                self@ == (StreamModel {
                    outgoing: self@.outgoing,
                    popped: old(self)@.popped + out@,
                    ..old(self)@
                }),
            decreases self@.outgoing.len(),
        {
            let ghost before = self@.outgoing;
            let ghost o = out@;
            let chunk = match conn_pop(&mut self.conn) {
                Ok(c) => c,
                Err(m) => {
                    return Err(Error::Tls(m));
                },
            };
            if chunk.len() == 0 {
                proof {
                    assert(self@.outgoing =~= Seq::empty());
                    assert(out@ + Seq::<u8>::empty() =~= out@);
                    assert(self@.popped =~= old(self)@.popped + out@);
                }
                return Ok(out);
            }
            push_all(&mut out, chunk.as_slice());
            proof {
                assert(out@ + self@.outgoing =~= o + before);
                assert(self@.popped =~= old(self)@.popped + out@);
            }
        }
    }

    /// Whether the TLS handshake has completed.
    pub fn is_handshake_complete(&self) -> (r: bool)
        ensures
            r == self@.complete,
    {
        conn_complete(&self.conn)
    }

    /// The ALPN protocol negotiated during the handshake (e.g. `h2` or
    /// `http/1.1`), once available.
    pub fn alpn_protocol(&self) -> (r: Option<Vec<u8>>)
        ensures
            match r {
                Some(p) => self@.alpn == Some(p@),
                None => self@.alpn is None,
            },
    {
        conn_alpn(&self.conn)
    }

    /// Begin a clean shutdown (queues a `close_notify`).
    pub fn close(&mut self) -> (r: Result<()>)
        ensures
            final(self)@ == (StreamModel { outgoing: final(self)@.outgoing, ..old(self)@ }),
            old(self)@.outgoing.is_prefix_of(final(self)@.outgoing),
            r matches Err(e) ==> e@ is Tls,
    {
        match conn_close(&mut self.conn) {
            Ok(_) => Ok(()),
            Err(m) => Err(Error::Tls(m)),
        }
    }
}

// ---------------------------------------------------------------------------
// Laws
// ---------------------------------------------------------------------------

/// White space and padding in a base64 text do not matter, wherever they stand.
pub proof fn law_base64_filler_does_not_matter(a: Seq<char>, c: char, b: Seq<char>)
    requires
        base64_filler(c),
    ensures
        base64_of(a.push(c) + b) == base64_of(a + b),
{
    lemma_filler(a, c, b);
}

proof fn lemma_filler(a: Seq<char>, c: char, b: Seq<char>)
    requires
        base64_filler(c),
    ensures
        sextets(a.push(c) + b) == sextets(a + b),
    decreases b.len(),
{
    if b.len() == 0 {
        assert(a.push(c) + b =~= a.push(c));
        assert(a.push(c).drop_last() =~= a);
        assert(a + b =~= a);
    } else {
        lemma_filler(a, c, b.drop_last());
        assert((a.push(c) + b).drop_last() =~= a.push(c) + b.drop_last());
        assert((a + b).drop_last() =~= a + b.drop_last());
        assert((a.push(c) + b).last() == (a + b).last());
    }
}

} // verus!
