use httpsd::acme::client::Reply;
use httpsd::acme::flow::{solve, AcmeClient, Action, ChallengeSolver, Event};
use httpsd::acme::jose::AccountKey;
use httpsd::Result;
use std::cell::RefCell;

const DIRECTORY: &[u8] = br#"{"newNonce":"https://ca/nonce","newAccount":"https://ca/acct","newOrder":"https://ca/order"}"#;

fn reply(status: u16, location: Option<&str>, nonce: &str, body: &str) -> Event {
    Event::Reply(Reply {
        status,
        location: location.map(|s| s.to_owned()),
        nonce: Some(nonce.to_owned()),
        body: body.as_bytes().to_vec(),
    })
}

fn client() -> AcmeClient {
    AcmeClient::new(DIRECTORY, AccountKey::generate(), Some("a@b.test".to_owned())).unwrap()
}

fn post_to(a: &Action) -> &str {
    match a {
        Action::Post { url, .. } => url,
        other => panic!("{other:?}"),
    }
}

#[test]
fn registering_asks_for_a_nonce_first() {
    let mut c = client();
    let a = c.ensure_account();
    assert!(matches!(&a, Action::Head { url } if url == "https://ca/nonce"));
    let a = c.step(reply(200, None, "n1", ""), 0);
    assert_eq!(post_to(&a), "https://ca/acct");
    let a = c.step(reply(201, Some("https://ca/acct/1"), "n2", "{}"), 0);
    assert!(matches!(a, Action::Registered));
}

#[test]
fn a_bad_nonce_is_retried_once() {
    let mut c = client();
    let _ = c.ensure_account();
    let _ = c.step(reply(200, None, "n1", ""), 0);
    let bad = r#"{"type":"urn:ietf:params:acme:error:badNonce"}"#;
    // A fresh nonce, then the same request again.
    let a = c.step(reply(400, None, "n2", bad), 0);
    assert!(matches!(a, Action::Head { .. }));
    let a = c.step(reply(200, None, "n3", ""), 0);
    assert_eq!(post_to(&a), "https://ca/acct");
    let a = c.step(reply(400, None, "n4", bad), 0);
    assert!(matches!(a, Action::Failed(_)));
}

struct Log(RefCell<Vec<String>>);

impl ChallengeSolver for Log {
    fn preferred(&self) -> Vec<String> {
        vec!["tls-alpn-01".to_owned(), "http-01".to_owned()]
    }

    fn present(&self, typ: &str, host: &str, token: &str, key_auth: &str) -> Result<()> {
        assert!(key_auth.starts_with(token));
        self.0.borrow_mut().push(format!("present {typ} {host} {token}"));
        Ok(())
    }

    fn cleanup(&self, typ: &str, host: &str, token: &str) {
        self.0.borrow_mut().push(format!("cleanup {typ} {host} {token}"));
    }
}

#[test]
fn a_whole_order() {
    let mut c = client();
    let solver = Log(RefCell::new(Vec::new()));
    let key = AccountKey::generate().private_key().to_vec();
    let a = c.issue(vec!["a.test".to_owned()], solver.preferred(), key);
    assert!(matches!(a, Action::Head { .. }));
    let a = c.step(reply(200, None, "n1", ""), 0);
    assert_eq!(post_to(&a), "https://ca/acct");
    let a = c.step(reply(201, Some("https://ca/acct/1"), "n2", "{}"), 0);
    assert_eq!(post_to(&a), "https://ca/order");
    let order = r#"{"status":"pending","authorizations":["https://ca/authz/1"],"finalize":"https://ca/fin"}"#;
    let a = c.step(reply(201, Some("https://ca/order/1"), "n3", order), 0);
    assert_eq!(post_to(&a), "https://ca/authz/1");
    let authz = r#"{"status":"pending","identifier":{"type":"dns","value":"a.test"},"challenges":[{"type":"http-01","url":"https://ca/ch/h","token":"th"},{"type":"tls-alpn-01","url":"https://ca/ch/t","token":"tt"}]}"#;
    let a = c.step(reply(200, None, "n4", authz), 0);
    let done = solve(&solver, &a).unwrap();
    let a = c.step(done, 0);
    assert_eq!(post_to(&a), "https://ca/ch/t");
    let a = c.step(reply(200, None, "n5", "{}"), 0);
    assert_eq!(post_to(&a), "https://ca/authz/1");
    // Still pending: wait, then ask again.
    let a = c.step(reply(200, None, "n6", r#"{"status":"pending"}"#), 0);
    assert!(matches!(a, Action::Wait));
    assert!(solve(&solver, &a).is_none());
    let a = c.step(Event::Woken, 2);
    assert_eq!(post_to(&a), "https://ca/authz/1");
    let a = c.step(reply(200, None, "n7", r#"{"status":"valid"}"#), 2);
    let done = solve(&solver, &a).unwrap();
    let a = c.step(done, 2);
    assert_eq!(post_to(&a), "https://ca/fin");
    let a = c.step(reply(200, None, "n8", "{}"), 2);
    assert_eq!(post_to(&a), "https://ca/order/1");
    let ready = r#"{"status":"valid","certificate":"https://ca/cert/1"}"#;
    let a = c.step(reply(200, None, "n9", ready), 2);
    assert_eq!(post_to(&a), "https://ca/cert/1");
    let a = c.step(reply(200, None, "n10", "CHAIN"), 2);
    assert!(matches!(&a, Action::Done { chain } if chain == "CHAIN"));
    assert_eq!(
        *solver.0.borrow(),
        vec!["present tls-alpn-01 a.test tt", "cleanup tls-alpn-01 a.test tt"]
    );
}

#[test]
fn a_failed_authorization_is_cleaned_up() {
    let mut c = client();
    let key = AccountKey::generate().private_key().to_vec();
    let _ = c.issue(vec!["a.test".to_owned()], vec!["http-01".to_owned()], key);
    let _ = c.step(reply(200, None, "n1", ""), 0);
    let _ = c.step(reply(201, Some("https://ca/acct/1"), "n2", "{}"), 0);
    let order = r#"{"status":"pending","authorizations":["https://ca/authz/1"],"finalize":"https://ca/fin"}"#;
    let _ = c.step(reply(201, Some("https://ca/order/1"), "n3", order), 0);
    let authz = r#"{"status":"pending","identifier":{"value":"a.test"},"challenges":[{"type":"http-01","url":"https://ca/ch/h","token":"th"}]}"#;
    let a = c.step(reply(200, None, "n4", authz), 0);
    assert!(matches!(a, Action::Present { .. }));
    let _ = c.step(Event::Presented(None), 0);
    let a = c.step(reply(400, None, "n5", r#"{"detail":"no"}"#), 0);
    assert!(matches!(a, Action::Cleanup { .. }));
    let a = c.step(Event::Cleaned, 0);
    assert!(matches!(a, Action::Failed(_)));
}

#[test]
fn a_directory_must_be_complete() {
    assert!(AcmeClient::new(b"{}", AccountKey::generate(), None).is_err());
    assert!(AcmeClient::new(b"not json", AccountKey::generate(), None).is_err());
}
