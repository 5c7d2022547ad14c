use httpsd::acme::client::{acme_err, build_csr, is_bad_nonce};
use httpsd::acme::jose::{b64url, AccountKey, KeyId};
use httpsd::acme::json::{self, Value};
use purecrypto::ec::BoxedEcdsaPrivateKey;

#[test]
fn bad_nonce_detection() {
    let body = br#"{"type":"urn:ietf:params:acme:error:badNonce","detail":"bad"}"#;
    assert!(is_bad_nonce(body));
    assert!(!is_bad_nonce(br#"{"type":"urn:ietf:params:acme:error:malformed"}"#));
}

#[test]
fn problem_detail_extracted() {
    let e = acme_err("newOrder", br#"{"type":"x","detail":"rejected: bad id"}"#);
    assert!(e.message().contains("rejected: bad id"));
}

#[test]
fn csr_builds_for_names() {
    let key = AccountKey::generate();
    let der = build_csr(
        key.private_key(),
        &vec!["a.example".to_owned(), "b.example".to_owned()],
    )
    .unwrap();
    assert!(!der.is_empty());
    // A DER sequence that names both hosts.
    assert_eq!(der[0], 0x30);
    assert!(der.windows(9).any(|w| w == b"a.example"));
    assert!(der.windows(9).any(|w| w == b"b.example"));
}

#[test]
fn csr_needs_a_key() {
    assert!(build_csr(b"not a key", &vec!["a.example".to_owned()]).is_err());
}

#[test]
fn b64url_vectors() {
    assert_eq!(b64url(b""), "");
    assert_eq!(b64url(b"f"), "Zg");
    assert_eq!(b64url(b"fo"), "Zm8");
    assert_eq!(b64url(b"foo"), "Zm9v");
    assert_eq!(b64url(b"foobar"), "Zm9vYmFy");
    // url-safe alphabet: bytes that map to '-' and '_'
    assert_eq!(b64url(&[0xfb, 0xff]), "-_8");
}

#[test]
fn jwk_and_thumbprint_are_stable() {
    let k = AccountKey::generate();
    let j1 = k.jwk_json();
    assert!(j1.starts_with(r#"{"crv":"P-256","kty":"EC","x":"#));
    assert_eq!(k.thumbprint(), k.thumbprint());
    // key authorization shape: "<token>.<43-char b64url of 32 bytes>"
    let ka = k.key_authorization("tok");
    let parts: Vec<&str> = ka.split('.').collect();
    assert_eq!(parts.len(), 2);
    assert_eq!(parts[0], "tok");
    assert_eq!(parts[1].len(), 43);
}

#[test]
fn jws_is_well_formed() {
    let k = AccountKey::generate();
    let body = k
        .sign("https://acme.test/x", "nonce123", &KeyId::Jwk, r#"{"a":1}"#)
        .unwrap();
    let v = json::parse(&body).unwrap();
    let prot_b64 = v.str_at("protected").unwrap();
    let sig = v.str_at("signature").unwrap();
    assert_eq!(sig.len(), 86); // 64-byte r‖s -> 86 b64url chars

    // The protected header decodes to the expected JSON with a JWK.
    let prot = String::from_utf8(b64url_decode(prot_b64)).unwrap();
    let ph = json::parse(&prot).unwrap();
    assert_eq!(ph.str_at("alg"), Some("ES256"));
    assert_eq!(ph.str_at("nonce"), Some("nonce123"));
    assert_eq!(ph.str_at("url"), Some("https://acme.test/x"));
    assert_eq!(ph.get("jwk").unwrap().str_at("crv"), Some("P-256"));

    // POST-as-GET uses an empty payload.
    let g = k
        .sign("https://acme.test/y", "n2", &KeyId::Kid("acc".into()), "")
        .unwrap();
    assert_eq!(json::parse(&g).unwrap().str_at("payload"), Some(""));
}

// Minimal base64url decode for the test only.
fn b64url_decode(s: &str) -> Vec<u8> {
    fn v(c: u8) -> u8 {
        match c {
            b'A'..=b'Z' => c - b'A',
            b'a'..=b'z' => c - b'a' + 26,
            b'0'..=b'9' => c - b'0' + 52,
            b'-' => 62,
            _ => 63, // '_'
        }
    }
    let mut out = Vec::new();
    let mut acc = 0u32;
    let mut bits = 0;
    for &c in s.as_bytes() {
        acc = (acc << 6) | v(c) as u32;
        bits += 6;
        if bits >= 8 {
            bits -= 8;
            out.push((acc >> bits) as u8);
        }
    }
    out
}

#[test]
fn account_key_survives_pem() {
    let k = AccountKey::generate();
    let pem = k.to_pem().unwrap();
    assert!(pem.contains("EC PRIVATE KEY"));
    let back = AccountKey::from_pem(&pem).unwrap();
    assert_eq!(back.jwk_json(), k.jwk_json());
    assert_eq!(back.thumbprint(), k.thumbprint());
    assert!(AccountKey::from_pem("not pem").is_none());
}

#[test]
fn thumbprint_is_the_hash_of_the_jwk() {
    let k = AccountKey::generate();
    assert_eq!(k.thumbprint().len(), 32);
    assert_eq!(
        k.key_authorization("t"),
        format!("t.{}", b64url(&k.thumbprint()))
    );
}

#[test]
fn signatures_verify() {
    let k = AccountKey::generate();
    let a = k.sign("https://a/", "n", &KeyId::Jwk, "{}").unwrap();
    let b = k.sign("https://a/", "n", &KeyId::Jwk, "{}").unwrap();
    // Deterministic signatures.
    assert_eq!(a, b);
    let c = k.sign("https://a/", "m", &KeyId::Jwk, "{}").unwrap();
    assert!(a != c);
    assert!(BoxedEcdsaPrivateKey::from_sec1_der(k.private_key()).is_ok());
}

#[test]
fn parses_nested() {
    let v = json::parse(r#"{"a":1,"b":[true,null,"x"],"c":{"d":"e"}}"#).unwrap();
    assert_eq!(v.get("c").unwrap().str_at("d"), Some("e"));
    assert_eq!(v.get("b").unwrap().as_array().unwrap().len(), 3);
    assert_eq!(v.get("b").unwrap().as_array().unwrap()[2].as_str(), Some("x"));
    // Numbers keep their text.
    let n = v.get("a").unwrap().as_number().unwrap();
    assert_eq!(n.parse::<f64>().unwrap(), 1.0);
}

#[test]
fn handles_escapes_and_unicode() {
    let v = json::parse(r#"{"k":"line\nbreak \" é café"}"#).unwrap();
    assert_eq!(v.str_at("k"), Some("line\nbreak \" é café"));
}

#[test]
fn unicode_escapes() {
    let v = json::parse("{\"k\":\"\\u00e9\\uD83D\"}").unwrap();
    // Escapes stand for one code point each; surrogates are none.
    assert_eq!(v.str_at("k"), Some("é\u{fffd}"));
}

#[test]
fn builds_objects() {
    let body = json::obj(&[
        ("termsOfServiceAgreed", "true".into()),
        ("contact", r#"["mailto:a@b.test"]"#.into()),
    ]);
    let v = json::parse(&body).unwrap();
    assert!(matches!(v.get("termsOfServiceAgreed"), Some(Value::Bool(true))));
    assert_eq!(
        v.get("contact").unwrap().as_array().unwrap()[0].as_str(),
        Some("mailto:a@b.test")
    );
}

#[test]
fn escape_basic() {
    assert_eq!(json::escape("a\"b\\c"), "a\\\"b\\\\c");
}

#[test]
fn escape_round_trips() {
    for s in ["", "plain", "q\"uote", "back\\slash", "ctrl\u{1}\n\r\t", "é😀"] {
        let doc = format!("{{\"k\":\"{}\"}}", json::escape(s));
        assert_eq!(json::parse(&doc).unwrap().str_at("k"), Some(s));
    }
}

#[test]
fn malformed_json_is_refused() {
    for s in ["", "{", "[1,", "{\"a\"}", "tru", "1 2", "\"\\x\"", "\"open"] {
        assert!(json::parse(s).is_err(), "{s}");
    }
}

#[test]
fn deep_nesting_is_refused() {
    let nested = |n: usize| "[".repeat(n) + &"]".repeat(n);
    assert!(json::parse(&nested(json::MAX_DEPTH)).is_ok());
    let e = json::parse(&nested(json::MAX_DEPTH + 1)).unwrap_err();
    assert_eq!(e.message(), "config error: json: nested too deeply");
    // Within the length that is taken, however deep.
    assert!(json::parse(&nested(json::MAX_INPUT / 2)).is_err());
    assert!(json::parse(&"[".repeat(1_000_000)).is_err());
    let objects = r#"{"a":"#.repeat(json::MAX_DEPTH + 1) + "1" + &"}".repeat(json::MAX_DEPTH + 1);
    assert!(json::parse(&objects).is_err());
    // Siblings do not add up.
    assert!(json::parse(&format!("[{}[]]", "[],".repeat(1000))).is_ok());
}

#[test]
fn long_documents_are_refused() {
    let text = |n: usize| format!("\"{}\"", "x".repeat(n - 2));
    assert!(json::parse(&text(json::MAX_INPUT)).is_ok());
    let e = json::parse(&text(json::MAX_INPUT + 1)).unwrap_err();
    assert_eq!(e.message(), "config error: json: document too long");
    assert!(json::parse(&("[".repeat(1_000_000) + &"]".repeat(1_000_000))).is_err());
}
