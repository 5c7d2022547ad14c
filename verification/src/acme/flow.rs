//! The ACME flow: registering an account and obtaining a certificate, as a state
//! machine.
//!
//! [`AcmeClient`] never touches the network or the clock. Each call answers with
//! the [`Action`] to perform next; the driver performs it and reports back with
//! an [`Event`].
use crate::acme::client::{
    account_payload, account_payload_of, acme, acme_err, acme_error, build_csr, csr_of, directory,
    directory_of, finalize_payload, finalize_payload_of, is_bad_nonce, json_in,
    order_payload, order_payload_of, parse_json, problem, says_bad_nonce, select_challenge,
    selected, Challenge, ChallengeModel, Directory, DirectoryModel, Reply, ReplyModel,
};
use crate::acme::jose::{authorization_of, sha256_of, signed, AccountKey, KeyId};
use crate::acme::json::{lemma_models, models, Value, ValueModel};
use crate::error::{Error, ErrorModel, Result};
use crate::text::{opt_owned, opt_text, owned, str_eq, string_from_utf8, texts};
use vstd::prelude::*;
use vstd::utf8::{decode_utf8, encode_utf8, valid_utf8};

verus! {

broadcast use vstd::seq::group_seq_axioms;

/// How long an authorization or an order is polled, in seconds.
pub const POLL_SECONDS: u64 = 60;

/// How far the flow has come.
#[derive(Debug, Clone, Copy, PartialEq, Eq, Structural)]
pub enum Stage {
    /// Nothing is under way.
    Idle,
    /// Registering the account.
    Account,
    /// Creating the order.
    NewOrder,
    /// Fetching an authorization.
    Fetch,
    /// Installing a challenge response.
    Present,
    /// Telling the authority that the challenge is ready.
    Ready,
    /// Waiting for the authorization.
    PollAuthorization,
    /// Removing the challenge response.
    Cleanup,
    /// Handing in the signing request.
    Finalize,
    /// Waiting for the order.
    PollOrder,
    /// Downloading the certificate.
    Certificate,
}

/// Which event the flow waits for.
#[derive(Debug, Clone, Copy, PartialEq, Eq, Structural)]
pub enum Awaiting {
    Nothing,
    /// The reply to a nonce request.
    Nonce,
    /// The reply to a signed request.
    Reply,
    Presented,
    Cleaned,
    Woken,
}

/// What to do next.
#[derive(Debug)]
pub enum Action {
    /// Nothing: the event was not expected.
    Ignore,
    /// Ask for a nonce with a `HEAD` request.
    Head { url: String },
    /// Send a signed body.
    Post { url: String, body: String },
    /// Make a challenge response retrievable by the authority.
    Present { typ: String, host: String, token: String, key_auth: String },
    /// Tear the challenge response down.
    Cleanup { typ: String, host: String, token: String },
    /// Sleep for two seconds.
    Wait,
    /// The account is registered.
    Registered,
    /// Here is the PEM certificate chain.
    Done { chain: String },
    /// It failed.
    Failed(Error),
}

/// The model of an action.
pub enum ActionModel {
    Ignore,
    Head { url: Seq<char> },
    Post { url: Seq<char>, body: Seq<char> },
    Present { typ: Seq<char>, host: Seq<char>, token: Seq<char>, key_auth: Seq<char> },
    Cleanup { typ: Seq<char>, host: Seq<char>, token: Seq<char> },
    Wait,
    Registered,
    Done { chain: Seq<char> },
    Failed(ErrorModel),
}

impl View for Action {
    type V = ActionModel;

    open spec fn view(&self) -> ActionModel {
        match self {
            Action::Ignore => ActionModel::Ignore,
            Action::Head { url } => ActionModel::Head { url: url@ },
            Action::Post { url, body } => ActionModel::Post { url: url@, body: body@ },
            Action::Present { typ, host, token, key_auth } => ActionModel::Present {
                typ: typ@,
                host: host@,
                token: token@,
                key_auth: key_auth@,
            },
            Action::Cleanup { typ, host, token } => ActionModel::Cleanup {
                typ: typ@,
                host: host@,
                token: token@,
            },
            Action::Wait => ActionModel::Wait,
            Action::Registered => ActionModel::Registered,
            Action::Done { chain } => ActionModel::Done { chain: chain@ },
            Action::Failed(e) => ActionModel::Failed(e@),
        }
    }
}

/// What came of an action.
#[derive(Debug)]
pub enum Event {
    /// The authority replied.
    Reply(Reply),
    /// A request could not be sent or answered.
    Unreachable(Error),
    /// The challenge response is installed, or could not be.
    Presented(Option<Error>),
    /// The challenge response is removed.
    Cleaned,
    /// The sleep is over.
    Woken,
}

/// The model of an event.
pub enum EventModel {
    Reply(ReplyModel),
    Unreachable(ErrorModel),
    Presented(Option<ErrorModel>),
    Cleaned,
    Woken,
}

impl View for Event {
    type V = EventModel;

    open spec fn view(&self) -> EventModel {
        match self {
            Event::Reply(r) => EventModel::Reply(r@),
            Event::Unreachable(e) => EventModel::Unreachable(e@),
            Event::Presented(o) => EventModel::Presented(opt_error(*o)),
            Event::Cleaned => EventModel::Cleaned,
            Event::Woken => EventModel::Woken,
        }
    }
}

pub open spec fn opt_error(o: Option<Error>) -> Option<ErrorModel> {
    match o {
        Some(e) => Some(e@),
        None => None,
    }
}

/// Installs and removes challenge responses. Backed by the state that the TLS
/// router (TLS-ALPN-01) and the HTTP listener (HTTP-01) read.
pub trait ChallengeSolver {
    /// Challenge types this solver can satisfy, in preference order
    /// (e.g. `["tls-alpn-01", "http-01"]`).
    fn preferred(&self) -> Vec<String>;

    /// Make the challenge response retrievable by the CA.
    fn present(&self, typ: &str, host: &str, token: &str, key_auth: &str) -> Result<()>;

    /// Tear down a previously presented challenge.
    fn cleanup(&self, typ: &str, host: &str, token: &str);
}

/// Whether presenting a challenge may end so.
pub open spec fn may_present<S: ChallengeSolver>(
    s: S,
    typ: Seq<char>,
    host: Seq<char>,
    token: Seq<char>,
    key_auth: Seq<char>,
    end: Result<()>,
) -> bool {
    exists|t: &str, h: &str, k: &str, a: &str|
        t@ == typ && h@ == host && k@ == token && a@ == key_auth && #[trigger] call_ensures(
            S::present,
            (&s, t, h, k, a),
            end,
        )
}

/// Whether an event may come of an action for which a solver is there.
pub open spec fn solved<S: ChallengeSolver>(s: S, action: Action, event: Option<Event>) -> bool {
    match action {
        Action::Present { typ, host, token, key_auth } => exists|end: Result<()>|
            #[trigger] may_present(s, typ@, host@, token@, key_auth@, end) && (event matches Some(e)
                && e@ == EventModel::Presented(
                match end {
                    Ok(_) => None,
                    Err(e) => Some(e@),
                },
            )),
        Action::Cleanup { .. } => event == Some(Event::Cleaned),
        _ => event is None,
    }
}

/// Carry out an action that concerns a challenge response, and report what came
/// of it; other actions are left to the driver.
pub fn solve<S: ChallengeSolver>(solver: &S, action: &Action) -> (r: Option<Event>)
    ensures
        solved(*solver, *action, r),
{
    match action {
        Action::Present { typ, host, token, key_auth } => {
            let end = solver.present(typ.as_str(), host.as_str(), token.as_str(), key_auth.as_str());
            proof {
                assert(may_present(*solver, typ@, host@, token@, key_auth@, end));
            }
            match end {
                Ok(_) => Some(Event::Presented(None)),
                Err(e) => Some(Event::Presented(Some(e))),
            }
        },
        Action::Cleanup { typ, host, token } => {
            solver.cleanup(typ.as_str(), host.as_str(), token.as_str());
            Some(Event::Cleaned)
        },
        _ => None,
    }
}

/// The state of the flow.
#[verifier::ext_equal]
pub struct FlowModel {
    pub dir: DirectoryModel,
    /// The account's private key and its JWK.
    pub key: Seq<u8>,
    pub jwk: Seq<char>,
    /// The account URL, once registered.
    pub kid: Option<Seq<char>>,
    /// A nonce to use.
    pub nonce: Option<Seq<char>>,
    pub email: Option<Seq<char>>,
    /// Whether a certificate is wanted, for which names and under which key.
    pub ordering: bool,
    pub names: Seq<Seq<char>>,
    pub preferred: Seq<Seq<char>>,
    pub cert_key: Seq<u8>,
    pub stage: Stage,
    pub awaiting: Awaiting,
    /// The request under way.
    pub url: Seq<char>,
    pub payload: Seq<char>,
    pub retried: bool,
    /// The order: its URL, its authorizations and where to finalize it.
    pub order_url: Seq<char>,
    pub authorizations: Seq<Option<Seq<char>>>,
    pub finalize: Option<Seq<char>>,
    /// The authorization under way.
    pub index: int,
    pub authz_url: Seq<char>,
    pub host: Seq<char>,
    pub challenge: Option<ChallengeModel>,
    pub outcome: Option<ErrorModel>,
    /// When polling ends.
    pub deadline: u64,
}

impl FlowModel {
    /// What holds between any two events.
    pub open spec fn wf(self) -> bool {
        &&& self.ordering ==> self.names.len() > 0
        &&& self.stage != Stage::Idle && self.stage != Stage::Account ==> self.ordering
        &&& 0 <= self.index <= self.authorizations.len()
        &&& self.in_authorization() ==> self.index < self.authorizations.len()
        &&& self.has_challenge() ==> self.challenge is Some
    }

    /// A request that is under way in the name of an account has one, and each
    /// kind of event is awaited in its stage.
    pub open spec fn steady(self) -> bool {
        &&& self.awaiting == Awaiting::Nonce || self.awaiting == Awaiting::Reply ==> self.stage
            == Stage::Account || self.kid is Some
        &&& self.awaiting == Awaiting::Presented ==> self.stage == Stage::Present
    }

    pub open spec fn in_authorization(self) -> bool {
        self.stage == Stage::Fetch || self.has_challenge()
    }

    pub open spec fn has_challenge(self) -> bool {
        self.stage == Stage::Present || self.stage == Stage::Ready || self.stage
            == Stage::PollAuthorization || self.stage == Stage::Cleanup
    }
}

// ---------------------------------------------------------------------------
// What each event leads to
// ---------------------------------------------------------------------------

/// It failed. A challenge response that is installed is removed first.
pub open spec fn failed(m: FlowModel, e: ErrorModel) -> (FlowModel, ActionModel) {
    if m.stage == Stage::Ready || m.stage == Stage::PollAuthorization {
        cleaning(m, Some(e))
    } else {
        (FlowModel { stage: Stage::Idle, awaiting: Awaiting::Nothing, ..m }, ActionModel::Failed(e))
    }
}

/// The challenge response is to be removed.
pub open spec fn cleaning(m: FlowModel, outcome: Option<ErrorModel>) -> (FlowModel, ActionModel) {
    let c = m.challenge->0;
    (
        FlowModel { stage: Stage::Cleanup, awaiting: Awaiting::Cleaned, outcome, ..m },
        ActionModel::Cleanup { typ: c.typ, host: m.host, token: c.token },
    )
}

/// Send the request under way: signed with the nonce at hand, or after asking
/// for one.
pub open spec fn sending(m: FlowModel) -> (FlowModel, ActionModel) {
    match m.nonce {
        None => (
            FlowModel { awaiting: Awaiting::Nonce, ..m },
            ActionModel::Head { url: m.dir.new_nonce },
        ),
        Some(n) => {
            let m1 = FlowModel { nonce: None, awaiting: Awaiting::Reply, ..m };
            let kid = if m.stage == Stage::Account {
                None
            } else {
                m.kid
            };
            match signed(m.key, m.jwk, m.url, n, kid, m.payload) {
                Ok(body) => (m1, ActionModel::Post { url: m.url, body }),
                Err(e) => failed(m1, e),
            }
        },
    }
}

/// Start a request. All but the registration need an account.
pub open spec fn posting(m: FlowModel, stage: Stage, url: Seq<char>, payload: Seq<char>) -> (
    FlowModel,
    ActionModel,
) {
    let m1 = FlowModel { stage, url, payload, retried: false, ..m };
    if stage != Stage::Account && m.kid is None {
        failed(m1, acme_error("no account registered"@))
    } else {
        sending(m1)
    }
}

/// The next authorization, or finalization when there is none left.
pub open spec fn next_authorization(m: FlowModel) -> (FlowModel, ActionModel) {
    if m.index == m.authorizations.len() {
        finalizing(m)
    } else {
        match m.authorizations[m.index] {
            None => failed(m, acme_error("bad authorization URL"@)),
            Some(url) => posting(FlowModel { authz_url: url, ..m }, Stage::Fetch, url, ""@),
        }
    }
}

/// Hand in the signing request.
pub open spec fn finalizing(m: FlowModel) -> (FlowModel, ActionModel) {
    match m.finalize {
        None => failed(m, acme_error("order has no finalize URL"@)),
        Some(url) => match csr_of(m.cert_key, m.names[0], m.names) {
            Err(e) => failed(m, acme_error("CSR: "@ + e)),
            Ok(csr) => posting(m, Stage::Finalize, url, finalize_payload_of(csr)),
        },
    }
}

/// The strings among values.
pub open spec fn strings(a: Seq<ValueModel>) -> Seq<Option<Seq<char>>> {
    a.map_values(
        |v: ValueModel|
            match v {
                ValueModel::Str(s) => Some(s),
                _ => None,
            },
    )
}

/// The reply to the registration.
pub open spec fn account_replied(m: FlowModel, r: ReplyModel) -> (FlowModel, ActionModel) {
    if r.status >= 400 {
        failed(m, problem("newAccount"@, r.body))
    } else {
        match r.location {
            None => failed(m, acme_error("newAccount: no Location (account URL)"@)),
            Some(url) => {
                let m1 = FlowModel { kid: Some(url), ..m };
                if m.ordering {
                    posting(m1, Stage::NewOrder, m.dir.new_order, order_payload_of(m.names))
                } else {
                    (
                        FlowModel { stage: Stage::Idle, awaiting: Awaiting::Nothing, ..m1 },
                        ActionModel::Registered,
                    )
                }
            },
        }
    }
}

/// The reply to the order.
pub open spec fn order_replied(m: FlowModel, r: ReplyModel) -> (FlowModel, ActionModel) {
    if r.status >= 400 {
        failed(m, problem("newOrder"@, r.body))
    } else {
        match r.location {
            None => failed(m, acme_error("newOrder: no order URL"@)),
            Some(url) => match json_in(r.body) {
                Err(e) => failed(m, e),
                Ok(doc) => match doc.list_at("authorizations"@) {
                    None => failed(m, acme_error("order has no authorizations"@)),
                    Some(a) => next_authorization(
                        FlowModel {
                            order_url: url,
                            authorizations: strings(a),
                            finalize: doc.text_at("finalize"@),
                            index: 0,
                            ..m
                        },
                    ),
                },
            },
        }
    }
}

/// The host that an authorization is for.
pub open spec fn identified(doc: ValueModel) -> Option<Seq<char>> {
    match doc.at("identifier"@) {
        Some(i) => i.text_at("value"@),
        None => None,
    }
}

/// The key authorization of a token.
pub open spec fn key_authorization_of(jwk: Seq<char>, token: Seq<char>) -> Seq<char> {
    authorization_of(token, sha256_of(encode_utf8(jwk)))
}

/// The authorization was fetched: pass over it when it is valid already, else
/// install the response to the most preferred challenge.
pub open spec fn authorization_replied(m: FlowModel, r: ReplyModel) -> (FlowModel, ActionModel) {
    if r.status >= 400 {
        failed(m, problem("authz"@, r.body))
    } else {
        match json_in(r.body) {
            Err(e) => failed(m, e),
            Ok(doc) => if doc.text_at("status"@) == Some("valid"@) {
                next_authorization(FlowModel { index: m.index + 1, ..m })
            } else {
                match (identified(doc), doc.list_at("challenges"@)) {
                    (None, _) => failed(m, acme_error("authz missing identifier"@)),
                    (_, None) => failed(m, acme_error("authz has no challenges"@)),
                    (Some(host), Some(offers)) => match selected(offers, m.preferred) {
                        None => failed(m, acme_error("no supported challenge offered"@)),
                        Some(c) => (
                            FlowModel {
                                stage: Stage::Present,
                                awaiting: Awaiting::Presented,
                                host,
                                challenge: Some(c),
                                ..m
                            },
                            ActionModel::Present {
                                typ: c.typ,
                                host,
                                token: c.token,
                                key_auth: key_authorization_of(m.jwk, c.token),
                            },
                        ),
                    },
                }
            },
        }
    }
}

/// When polling that starts now ends.
pub open spec fn poll_end(now: u64) -> u64 {
    if now <= u64::MAX - POLL_SECONDS {
        (now + POLL_SECONDS) as u64
    } else {
        u64::MAX
    }
}

/// The authority was told that the challenge is ready: poll the authorization.
pub open spec fn ready_replied(m: FlowModel, r: ReplyModel, now: u64) -> (FlowModel, ActionModel) {
    if r.status >= 400 {
        failed(m, problem("challenge"@, r.body))
    } else {
        posting(
            FlowModel { deadline: poll_end(now), ..m },
            Stage::PollAuthorization,
            m.authz_url,
            ""@,
        )
    }
}

/// Sleep and poll again, unless it has gone on for too long.
pub open spec fn polling_on(m: FlowModel, now: u64, late: Seq<char>) -> (FlowModel, ActionModel) {
    if now >= m.deadline {
        failed(m, acme_error(late))
    } else {
        (FlowModel { awaiting: Awaiting::Woken, ..m }, ActionModel::Wait)
    }
}

/// A polled authorization.
pub open spec fn authorization_polled(m: FlowModel, r: ReplyModel, now: u64) -> (
    FlowModel,
    ActionModel,
) {
    match json_in(r.body) {
        Err(e) => failed(m, e),
        Ok(doc) => {
            let status = doc.text_at("status"@);
            if status == Some("valid"@) {
                cleaning(m, None)
            } else if status == Some("pending"@) || status == Some("processing"@) {
                polling_on(m, now, "authorization timed out"@)
            } else if status == Some("invalid"@) {
                failed(m, problem("authorization invalid"@, r.body))
            } else {
                failed(m, acme_error("unexpected authz status: "@ + debug_of(status)))
            }
        },
    }
}

/// The signing request was handed in: poll the order.
pub open spec fn finalize_replied(m: FlowModel, r: ReplyModel, now: u64) -> (FlowModel, ActionModel) {
    if r.status >= 400 {
        failed(m, problem("finalize"@, r.body))
    } else {
        posting(FlowModel { deadline: poll_end(now), ..m }, Stage::PollOrder, m.order_url, ""@)
    }
}

/// A polled order.
pub open spec fn order_polled(m: FlowModel, r: ReplyModel, now: u64) -> (FlowModel, ActionModel) {
    match json_in(r.body) {
        Err(e) => failed(m, e),
        Ok(doc) => {
            let status = doc.text_at("status"@);
            if status == Some("valid"@) {
                match doc.text_at("certificate"@) {
                    None => failed(m, acme_error("valid order has no certificate URL"@)),
                    Some(url) => posting(m, Stage::Certificate, url, ""@),
                }
            } else if status == Some("processing"@) || status == Some("pending"@) || status == Some(
                "ready"@,
            ) {
                polling_on(m, now, "order finalization timed out"@)
            } else if status == Some("invalid"@) {
                failed(m, problem("order invalid"@, r.body))
            } else {
                failed(m, acme_error("unexpected order status: "@ + debug_of(status)))
            }
        },
    }
}

/// The certificate was downloaded.
pub open spec fn certificate_replied(m: FlowModel, r: ReplyModel) -> (FlowModel, ActionModel) {
    if r.status >= 400 {
        failed(m, problem("certificate"@, r.body))
    } else if !valid_utf8(r.body) {
        failed(m, acme_error("certificate is not valid UTF-8 PEM"@))
    } else {
        (
            FlowModel { stage: Stage::Idle, awaiting: Awaiting::Nothing, ..m },
            ActionModel::Done { chain: decode_utf8(r.body) },
        )
    }
}

/// The reply to a signed request.
pub open spec fn replied(m: FlowModel, r: ReplyModel, now: u64) -> (FlowModel, ActionModel) {
    match m.stage {
        Stage::Account => account_replied(m, r),
        Stage::NewOrder => order_replied(m, r),
        Stage::Fetch => authorization_replied(m, r),
        Stage::Ready => ready_replied(m, r, now),
        Stage::PollAuthorization => authorization_polled(m, r, now),
        Stage::Finalize => finalize_replied(m, r, now),
        Stage::PollOrder => order_polled(m, r, now),
        Stage::Certificate => certificate_replied(m, r),
        _ => (m, ActionModel::Ignore),
    }
}

/// Where an event leads, and what is to be done.
pub open spec fn stepped(m: FlowModel, e: EventModel, now: u64) -> (FlowModel, ActionModel) {
    match (m.awaiting, e) {
        (Awaiting::Nonce, EventModel::Reply(r)) => match r.nonce {
            None => failed(m, acme_error("newNonce returned no Replay-Nonce"@)),
            Some(n) => sending(FlowModel { nonce: Some(n), ..m }),
        },
        (Awaiting::Reply, EventModel::Reply(r)) => if r.status == 400 && !m.retried
            && says_bad_nonce(r.body) {
            sending(FlowModel { nonce: None, retried: true, ..m })
        } else {
            replied(FlowModel { nonce: r.nonce, ..m }, r, now)
        },
        (Awaiting::Nonce, EventModel::Unreachable(e)) => failed(m, e),
        (Awaiting::Reply, EventModel::Unreachable(e)) => failed(m, e),
        (Awaiting::Presented, EventModel::Presented(None)) => match m.challenge {
            Some(c) => posting(m, Stage::Ready, c.url, "{}"@),
            None => (m, ActionModel::Ignore),
        },
        (Awaiting::Presented, EventModel::Presented(Some(e))) => failed(m, e),
        (Awaiting::Cleaned, EventModel::Cleaned) => match m.outcome {
            Some(e) => failed(FlowModel { outcome: None, ..m }, e),
            None => if m.stage == Stage::Cleanup {
                next_authorization(FlowModel { index: m.index + 1, ..m })
            } else {
                (m, ActionModel::Ignore)
            },
        },
        (Awaiting::Woken, EventModel::Woken) => if m.stage == Stage::PollAuthorization {
            posting(m, Stage::PollAuthorization, m.authz_url, ""@)
        } else if m.stage == Stage::PollOrder {
            posting(m, Stage::PollOrder, m.order_url, ""@)
        } else {
            (m, ActionModel::Ignore)
        },
        _ => (m, ActionModel::Ignore),
    }
}

/// Registration begins.
pub open spec fn registering(m: FlowModel) -> (FlowModel, ActionModel) {
    posting(
        FlowModel { ordering: false, ..m },
        Stage::Account,
        m.dir.new_account,
        account_payload_of(m.email),
    )
}

/// An order begins, with the registration of the account if need be.
pub open spec fn issuing(
    m: FlowModel,
    names: Seq<Seq<char>>,
    preferred: Seq<Seq<char>>,
    cert_key: Seq<u8>,
) -> (FlowModel, ActionModel) {
    let m1 = FlowModel { ordering: true, names, preferred, cert_key, ..m };
    if m.kid is None {
        posting(m1, Stage::Account, m.dir.new_account, account_payload_of(m.email))
    } else {
        posting(m1, Stage::NewOrder, m.dir.new_order, order_payload_of(names))
    }
}

/// The text that `{:?}` makes of an optional string.
pub uninterp spec fn debug_of(s: Option<Seq<char>>) -> Seq<char>;

/// The debug form of `Option<&str>`, as `format!` writes it.
#[verifier::external_body]
pub(crate) fn debug_text(s: Option<&str>) -> (r: String)
    ensures
        r@ == debug_of(
            match s {
                Some(t) => Some(t@),
                None => None,
            },
        ),
{
    format!("{s:?}")
}

// ---------------------------------------------------------------------------
// The client
// ---------------------------------------------------------------------------

/// An ACME client bound to one directory and account key.
pub struct AcmeClient {
    dir: Directory,
    account: AccountKey,
    kid: Option<String>,
    nonce: Option<String>,
    email: Option<String>,
    ordering: bool,
    names: Vec<String>,
    preferred: Vec<String>,
    cert_key: Vec<u8>,
    stage: Stage,
    awaiting: Awaiting,
    url: String,
    payload: String,
    retried: bool,
    order_url: String,
    authorizations: Vec<Option<String>>,
    finalize: Option<String>,
    index: usize,
    authz_url: String,
    host: String,
    challenge: Option<Challenge>,
    outcome: Option<Error>,
    deadline: u64,
}

/// The models of optional texts.
pub open spec fn opt_texts(v: Seq<Option<String>>) -> Seq<Option<Seq<char>>> {
    v.map_values(|o: Option<String>| opt_text(o))
}

pub open spec fn opt_challenge(o: Option<Challenge>) -> Option<ChallengeModel> {
    match o {
        Some(c) => Some(c@),
        None => None,
    }
}

impl View for AcmeClient {
    type V = FlowModel;

    closed spec fn view(&self) -> FlowModel {
        FlowModel {
            dir: self.dir@,
            key: self.account.encoding(),
            jwk: self.account.jwk(),
            kid: opt_text(self.kid),
            nonce: opt_text(self.nonce),
            email: opt_text(self.email),
            ordering: self.ordering,
            names: texts(self.names@),
            preferred: texts(self.preferred@),
            cert_key: self.cert_key@,
            stage: self.stage,
            awaiting: self.awaiting,
            url: self.url@,
            payload: self.payload@,
            retried: self.retried,
            order_url: self.order_url@,
            authorizations: opt_texts(self.authorizations@),
            finalize: opt_text(self.finalize),
            index: self.index as int,
            authz_url: self.authz_url@,
            host: self.host@,
            challenge: opt_challenge(self.challenge),
            outcome: opt_error(self.outcome),
            deadline: self.deadline,
        }
    }
}

/// A client for a directory, with nothing under way.
pub open spec fn idle_client(
    dir: DirectoryModel,
    key: Seq<u8>,
    jwk: Seq<char>,
    email: Option<Seq<char>>,
) -> FlowModel {
    FlowModel {
        dir,
        key,
        jwk,
        kid: None,
        nonce: None,
        email,
        ordering: false,
        names: Seq::empty(),
        preferred: Seq::empty(),
        cert_key: Seq::empty(),
        stage: Stage::Idle,
        awaiting: Awaiting::Nothing,
        url: Seq::empty(),
        payload: Seq::empty(),
        retried: false,
        order_url: Seq::empty(),
        authorizations: Seq::empty(),
        finalize: None,
        index: 0,
        authz_url: Seq::empty(),
        host: Seq::empty(),
        challenge: None,
        outcome: None,
        deadline: 0,
    }
}

impl AcmeClient {
    /// What holds between any two calls.
    pub closed spec fn wf(self) -> bool {
        self.sound() && self@.steady()
    }

    spec fn sound(self) -> bool {
        self.account.wf() && self@.wf()
    }

    /// A client for the directory document in `body`, with the given account
    /// key. Pass the account `email` for the `contact` field (optional). The
    /// caller is responsible for having obtained agreement to the terms of
    /// service before registering.
    pub fn new(body: &[u8], account: AccountKey, email: Option<String>) -> (r: Result<AcmeClient>)
        requires
            account.wf(),
        ensures
            match (r, directory_of(body@)) {
                (Ok(c), Ok(d)) => c.wf() && c@ == idle_client(
                    d,
                    account.encoding(),
                    account.jwk(),
                    opt_text(email),
                ),
                (Err(e), Err(m)) => e@ == m,
                _ => false,
            },
    {
        match directory(body) {
            Err(e) => Err(e),
            Ok(dir) => {
                let c = AcmeClient {
                    dir,
                    account,
                    kid: None,
                    nonce: None,
                    email,
                    ordering: false,
                    names: Vec::new(),
                    preferred: Vec::new(),
                    cert_key: Vec::new(),
                    stage: Stage::Idle,
                    awaiting: Awaiting::Nothing,
                    url: String::new(),
                    payload: String::new(),
                    retried: false,
                    order_url: String::new(),
                    authorizations: Vec::new(),
                    finalize: None,
                    index: 0,
                    authz_url: String::new(),
                    host: String::new(),
                    challenge: None,
                    outcome: None,
                    deadline: 0,
                };
                proof {
                    assert(c@ =~= idle_client(
                        dir@,
                        account.encoding(),
                        account.jwk(),
                        opt_text(email),
                    ));
                }
                Ok(c)
            },
        }
    }

    /// The account key, e.g. to persist after a successful registration.
    pub fn account(&self) -> (r: &AccountKey)
        requires
            self.wf(),
        ensures
            r.wf(),
            r.encoding() == self@.key,
            r.jwk() == self@.jwk,
    {
        &self.account
    }

    /// Register (or look up) the account, agreeing to the authority's terms of
    /// service. Idempotent: an existing account for this key resolves to the
    /// same URL.
    pub fn ensure_account(&mut self) -> (r: Action)
        requires
            old(self).wf(),
        ensures
            final(self).wf(),
            (final(self)@, r@) == registering(old(self)@),
    {
        self.ordering = false;
        let url = owned(self.dir.new_account.as_str());
        let payload = account_payload(&self.email);
        self.post(Stage::Account, url, payload)
    }

    /// Obtain a certificate for `names`, fulfilling challenges of the
    /// `preferred` types (most preferred first), under the SEC1-encoded
    /// `cert_key`.
    pub fn issue(&mut self, names: Vec<String>, preferred: Vec<String>, cert_key: Vec<u8>) -> (r:
        Action)
        requires
            old(self).wf(),
            names@.len() > 0,
        ensures
            final(self).wf(),
            (final(self)@, r@) == issuing(
                old(self)@,
                texts(names@),
                texts(preferred@),
                cert_key@,
            ),
    {
        self.ordering = true;
        self.names = names;
        self.preferred = preferred;
        self.cert_key = cert_key;
        if self.kid.is_none() {
            let url = owned(self.dir.new_account.as_str());
            let payload = account_payload(&self.email);
            self.post(Stage::Account, url, payload)
        } else {
            self.new_order()
        }
    }

    fn new_order(&mut self) -> (r: Action)
        requires
            old(self).account.wf(),
            old(self)@.ordering,
            old(self)@.names.len() > 0,
            0 <= old(self)@.index <= old(self)@.authorizations.len(),
        ensures
            final(self).wf(),
            (final(self)@, r@) == posting(
                old(self)@,
                Stage::NewOrder,
                old(self)@.dir.new_order,
                order_payload_of(old(self)@.names),
            ),
    {
        let url = owned(self.dir.new_order.as_str());
        let payload = order_payload(&self.names);
        self.post(Stage::NewOrder, url, payload)
    }

    fn clean_up(&mut self, outcome: Option<Error>) -> (r: Action)
        requires
            old(self).sound(),
            old(self)@.has_challenge(),
        ensures
            final(self).wf(),
            (final(self)@, r@) == cleaning(old(self)@, opt_error(outcome)),
    {
        let (typ, token) = match &self.challenge {
            Some(c) => (owned(c.typ.as_str()), owned(c.token.as_str())),
            None => (String::new(), String::new()),
        };
        self.stage = Stage::Cleanup;
        self.awaiting = Awaiting::Cleaned;
        self.outcome = outcome;
        Action::Cleanup { typ, host: owned(self.host.as_str()), token }
    }

    fn fail(&mut self, e: Error) -> (r: Action)
        requires
            old(self).sound(),
        ensures
            final(self).wf(),
            (final(self)@, r@) == failed(old(self)@, e@),
    {
        match self.stage {
            Stage::Ready => self.clean_up(Some(e)),
            Stage::PollAuthorization => self.clean_up(Some(e)),
            _ => {
                self.stage = Stage::Idle;
                self.awaiting = Awaiting::Nothing;
                Action::Failed(e)
            },
        }
    }

    fn fail_with(&mut self, text: &str) -> (r: Action)
        requires
            old(self).sound(),
        ensures
            final(self).wf(),
            (final(self)@, r@) == failed(old(self)@, acme_error(text@)),
    {
        self.fail(acme(text))
    }

    /// JWS-sign and send the request under way.
    fn send(&mut self) -> (r: Action)
        requires
            old(self).sound(),
            old(self)@.stage != Stage::Account ==> old(self)@.kid is Some,
        ensures
            final(self).wf(),
            (final(self)@, r@) == sending(old(self)@),
    {
        match self.nonce.take() {
            None => {
                self.awaiting = Awaiting::Nonce;
                Action::Head { url: owned(self.dir.new_nonce.as_str()) }
            },
            Some(n) => {
                self.awaiting = Awaiting::Reply;
                let auth = match self.stage {
                    Stage::Account => KeyId::Jwk,
                    _ => match &self.kid {
                        Some(k) => KeyId::Kid(owned(k.as_str())),
                        None => KeyId::Jwk,
                    },
                };
                let body = self.account.sign(
                    self.url.as_str(),
                    n.as_str(),
                    &auth,
                    self.payload.as_str(),
                );
                match body {
                    Ok(body) => Action::Post { url: owned(self.url.as_str()), body },
                    Err(e) => self.fail(e),
                }
            },
        }
    }

    /// Start a request for a stage.
    fn post(&mut self, stage: Stage, url: String, payload: String) -> (r: Action)
        requires
            old(self).account.wf(),
            (FlowModel { stage, ..old(self)@ }).wf(),
        ensures
            final(self).wf(),
            (final(self)@, r@) == posting(old(self)@, stage, url@, payload@),
    {
        self.stage = stage;
        self.url = url;
        self.payload = payload;
        self.retried = false;
        let registering = match stage {
            Stage::Account => true,
            _ => false,
        };
        if !registering && self.kid.is_none() {
            return self.fail_with("no account registered");
        }
        self.send()
    }

    fn next_authz(&mut self) -> (r: Action)
        requires
            old(self).account.wf(),
            old(self)@.ordering,
            old(self)@.names.len() > 0,
            0 <= old(self)@.index <= old(self)@.authorizations.len(),
            old(self)@.stage == Stage::NewOrder || old(self)@.stage == Stage::Fetch || old(self)@.stage
                == Stage::Cleanup,
            old(self)@.has_challenge() ==> old(self)@.challenge is Some,
        ensures
            final(self).wf(),
            (final(self)@, r@) == next_authorization(old(self)@),
    {
        if self.index == self.authorizations.len() {
            return self.finish();
        }
        let url = match &self.authorizations[self.index] {
            None => {
                return self.fail_with("bad authorization URL");
            },
            Some(u) => owned(u.as_str()),
        };
        self.authz_url = owned(url.as_str());
        let payload = owned("");
        self.post(Stage::Fetch, url, payload)
    }

    fn finish(&mut self) -> (r: Action)
        requires
            old(self).account.wf(),
            old(self)@.ordering,
            old(self)@.names.len() > 0,
            old(self)@.index == old(self)@.authorizations.len(),
            old(self)@.stage == Stage::NewOrder || old(self)@.stage == Stage::Fetch || old(self)@.stage
                == Stage::Cleanup,
        ensures
            final(self).wf(),
            (final(self)@, r@) == finalizing(old(self)@),
    {
        let url = match &self.finalize {
            None => {
                let e = acme("order has no finalize URL");
                self.stage = Stage::Idle;
                self.awaiting = Awaiting::Nothing;
                return Action::Failed(e);
            },
            Some(u) => owned(u.as_str()),
        };
        let csr = match build_csr(self.cert_key.as_slice(), &self.names) {
            Ok(c) => c,
            Err(e) => {
                self.stage = Stage::Idle;
                self.awaiting = Awaiting::Nothing;
                return Action::Failed(e);
            },
        };
        let payload = finalize_payload(csr.as_slice());
        self.post(Stage::Finalize, url, payload)
    }

    fn account_reply(&mut self, r: Reply) -> (a: Action)
        requires
            old(self).sound(),
            old(self)@.stage == Stage::Account,
        ensures
            final(self).wf(),
            (final(self)@, a@) == account_replied(old(self)@, r@),
    {
        if r.status >= 400 {
            return self.fail(acme_err("newAccount", r.body.as_slice()));
        }
        match r.location {
            None => self.fail_with("newAccount: no Location (account URL)"),
            Some(url) => {
                self.kid = Some(url);
                if self.ordering {
                    self.new_order()
                } else {
                    self.stage = Stage::Idle;
                    self.awaiting = Awaiting::Nothing;
                    Action::Registered
                }
            },
        }
    }

    fn order_reply(&mut self, r: Reply) -> (a: Action)
        requires
            old(self).sound(),
            old(self)@.stage == Stage::NewOrder,
        ensures
            final(self).wf(),
            (final(self)@, a@) == order_replied(old(self)@, r@),
    {
        if r.status >= 400 {
            return self.fail(acme_err("newOrder", r.body.as_slice()));
        }
        let url = match r.location {
            None => {
                return self.fail_with("newOrder: no order URL");
            },
            Some(u) => u,
        };
        let doc = match parse_json(r.body.as_slice()) {
            Ok(d) => d,
            Err(e) => {
                return self.fail(e);
            },
        };
        let list = match array_at(&doc, "authorizations") {
            None => {
                return self.fail_with("order has no authorizations");
            },
            Some(a) => strings_of(a),
        };
        self.order_url = url;
        self.authorizations = list;
        self.finalize = match doc.str_at("finalize") {
            Some(u) => Some(owned(u)),
            None => None,
        };
        self.index = 0;
        self.next_authz()
    }

    fn authz_reply(&mut self, r: Reply) -> (a: Action)
        requires
            old(self).sound(),
            old(self)@.stage == Stage::Fetch,
        ensures
            final(self).wf(),
            (final(self)@, a@) == authorization_replied(old(self)@, r@),
    {
        if r.status >= 400 {
            return self.fail(acme_err("authz", r.body.as_slice()));
        }
        let doc = match parse_json(r.body.as_slice()) {
            Ok(d) => d,
            Err(e) => {
                return self.fail(e);
            },
        };
        if is_text(doc.str_at("status"), "valid") {
            // Already authorized (reused).
            let n: usize = self.authorizations.len();
            proof {
                assert(self@.authorizations.len() == n);
            }
            self.index = self.index + 1;
            return self.next_authz();
        }
        let host = match identifier_value(&doc) {
            None => {
                return self.fail_with("authz missing identifier");
            },
            Some(h) => h,
        };
        let picked = match array_at(&doc, "challenges") {
            None => {
                return self.fail_with("authz has no challenges");
            },
            Some(offers) => select_challenge(offers, &self.preferred),
        };
        let c = match picked {
            None => {
                return self.fail_with("no supported challenge offered");
            },
            Some(c) => c,
        };
        let key_auth = self.account.key_authorization(c.token.as_str());
        let (typ, token) = (owned(c.typ.as_str()), owned(c.token.as_str()));
        self.stage = Stage::Present;
        self.awaiting = Awaiting::Presented;
        self.host = owned(host.as_str());
        self.challenge = Some(c);
        Action::Present { typ, host, token, key_auth }
    }

    fn poll_authz(&mut self) -> (a: Action)
        requires
            old(self).account.wf(),
            (FlowModel { stage: Stage::PollAuthorization, ..old(self)@ }).wf(),
        ensures
            final(self).wf(),
            (final(self)@, a@) == posting(
                old(self)@,
                Stage::PollAuthorization,
                old(self)@.authz_url,
                ""@,
            ),
    {
        let url = owned(self.authz_url.as_str());
        let payload = owned("");
        self.post(Stage::PollAuthorization, url, payload)
    }

    fn poll_order(&mut self) -> (a: Action)
        requires
            old(self).account.wf(),
            (FlowModel { stage: Stage::PollOrder, ..old(self)@ }).wf(),
        ensures
            final(self).wf(),
            (final(self)@, a@) == posting(old(self)@, Stage::PollOrder, old(self)@.order_url, ""@),
    {
        let url = owned(self.order_url.as_str());
        let payload = owned("");
        self.post(Stage::PollOrder, url, payload)
    }

    fn set_deadline(&mut self, now: u64)
        requires
            old(self).sound(),
        ensures
            final(self).sound(),
            final(self)@ == (FlowModel { deadline: poll_end(now), ..old(self)@ }),
    {
        self.deadline = if now <= u64::MAX - POLL_SECONDS {
            now + POLL_SECONDS
        } else {
            u64::MAX
        };
    }

    fn poll_on(&mut self, now: u64, late: &str) -> (a: Action)
        requires
            old(self).sound(),
        ensures
            final(self).wf(),
            (final(self)@, a@) == polling_on(old(self)@, now, late@),
    {
        if now >= self.deadline {
            return self.fail_with(late);
        }
        self.awaiting = Awaiting::Woken;
        Action::Wait
    }

    fn unexpected(&mut self, what: &str, status: Option<&str>) -> (a: Action)
        requires
            old(self).sound(),
        ensures
            final(self).wf(),
            (final(self)@, a@) == failed(
                old(self)@,
                acme_error(
                    what@ + debug_of(
                        match status {
                            Some(t) => Some(t@),
                            None => None,
                        },
                    ),
                ),
            ),
    {
        let mut s: String = String::new();
        s.push_str(what);
        s.push_str(debug_text(status).as_str());
        proof {
            assert(s@ =~= what@ + debug_of(
                match status {
                    Some(t) => Some(t@),
                    None => None,
                },
            ));
        }
        self.fail(Error::Acme(s))
    }

    fn authz_polled(&mut self, r: Reply, now: u64) -> (a: Action)
        requires
            old(self).sound(),
            old(self)@.stage == Stage::PollAuthorization,
        ensures
            final(self).wf(),
            (final(self)@, a@) == authorization_polled(old(self)@, r@, now),
    {
        let doc = match parse_json(r.body.as_slice()) {
            Ok(d) => d,
            Err(e) => {
                return self.fail(e);
            },
        };
        let status = doc.str_at("status");
        if is_text(status, "valid") {
            self.clean_up(None)
        } else if is_text(status, "pending") || is_text(status, "processing") {
            self.poll_on(now, "authorization timed out")
        } else if is_text(status, "invalid") {
            self.fail(acme_err("authorization invalid", r.body.as_slice()))
        } else {
            self.unexpected("unexpected authz status: ", status)
        }
    }

    fn order_poll_reply(&mut self, r: Reply, now: u64) -> (a: Action)
        requires
            old(self).sound(),
            old(self)@.stage == Stage::PollOrder,
        ensures
            final(self).wf(),
            (final(self)@, a@) == order_polled(old(self)@, r@, now),
    {
        let doc = match parse_json(r.body.as_slice()) {
            Ok(d) => d,
            Err(e) => {
                return self.fail(e);
            },
        };
        let status = doc.str_at("status");
        if is_text(status, "valid") {
            match doc.str_at("certificate") {
                None => self.fail_with("valid order has no certificate URL"),
                Some(u) => {
                    let url = owned(u);
                    let payload = owned("");
                    self.post(Stage::Certificate, url, payload)
                },
            }
        } else if is_text(status, "processing") || is_text(status, "pending") || is_text(
            status,
            "ready",
        ) {
            self.poll_on(now, "order finalization timed out")
        } else if is_text(status, "invalid") {
            self.fail(acme_err("order invalid", r.body.as_slice()))
        } else {
            self.unexpected("unexpected order status: ", status)
        }
    }

    fn certificate_reply(&mut self, r: Reply) -> (a: Action)
        requires
            old(self).sound(),
            old(self)@.stage == Stage::Certificate,
        ensures
            final(self).wf(),
            (final(self)@, a@) == certificate_replied(old(self)@, r@),
    {
        if r.status >= 400 {
            return self.fail(acme_err("certificate", r.body.as_slice()));
        }
        match string_from_utf8(r.body) {
            None => self.fail_with("certificate is not valid UTF-8 PEM"),
            Some(chain) => {
                self.stage = Stage::Idle;
                self.awaiting = Awaiting::Nothing;
                Action::Done { chain }
            },
        }
    }

    fn reply(&mut self, r: Reply, now: u64) -> (a: Action)
        requires
            old(self).wf(),
        ensures
            final(self).wf(),
            (final(self)@, a@) == replied(old(self)@, r@, now),
    {
        match self.stage {
            Stage::Account => self.account_reply(r),
            Stage::NewOrder => self.order_reply(r),
            Stage::Fetch => self.authz_reply(r),
            Stage::Ready => {
                if r.status >= 400 {
                    self.fail(acme_err("challenge", r.body.as_slice()))
                } else {
                    self.set_deadline(now);
                    self.poll_authz()
                }
            },
            Stage::PollAuthorization => self.authz_polled(r, now),
            Stage::Finalize => {
                if r.status >= 400 {
                    self.fail(acme_err("finalize", r.body.as_slice()))
                } else {
                    self.set_deadline(now);
                    self.poll_order()
                }
            },
            Stage::PollOrder => self.order_poll_reply(r, now),
            Stage::Certificate => self.certificate_reply(r),
            _ => Action::Ignore,
        }
    }

    /// Report what came of the last action, and learn what to do next. `now` is
    /// a clock that counts seconds.
    pub fn step(&mut self, event: Event, now: u64) -> (r: Action)
        requires
            old(self).wf(),
        ensures
            final(self).wf(),
            (final(self)@, r@) == stepped(old(self)@, event@, now),
    {
        match event {
            Event::Reply(r) => self.on_reply(r, now),
            Event::Unreachable(e) => match self.awaiting {
                Awaiting::Nonce => self.fail(e),
                Awaiting::Reply => self.fail(e),
                _ => Action::Ignore,
            },
            Event::Presented(o) => self.on_presented(o),
            Event::Cleaned => self.on_cleaned(),
            Event::Woken => match self.awaiting {
                Awaiting::Woken => match self.stage {
                    Stage::PollAuthorization => self.poll_authz(),
                    Stage::PollOrder => self.poll_order(),
                    _ => Action::Ignore,
                },
                _ => Action::Ignore,
            },
        }
    }

    fn on_reply(&mut self, r: Reply, now: u64) -> (a: Action)
        requires
            old(self).wf(),
        ensures
            final(self).wf(),
            (final(self)@, a@) == stepped(old(self)@, EventModel::Reply(r@), now),
    {
        match self.awaiting {
            Awaiting::Nonce => match r.nonce {
                None => self.fail_with("newNonce returned no Replay-Nonce"),
                Some(n) => {
                    self.nonce = Some(n);
                    self.send()
                },
            },
            Awaiting::Reply => {
                if r.status == 400 && !self.retried && is_bad_nonce(r.body.as_slice()) {
                    // Force a fresh nonce and retry.
                    self.nonce = None;
                    self.retried = true;
                    return self.send();
                }
                self.nonce = opt_owned(&r.nonce);
                self.reply(r, now)
            },
            _ => Action::Ignore,
        }
    }

    fn on_presented(&mut self, o: Option<Error>) -> (a: Action)
        requires
            old(self).wf(),
        ensures
            final(self).wf(),
            forall|now: u64|
                (final(self)@, a@) == stepped(
                    old(self)@,
                    EventModel::Presented(opt_error(o)),
                    now,
                ),
    {
        match self.awaiting {
            Awaiting::Presented => match o {
                Some(e) => self.fail(e),
                None => {
                    let url = match &self.challenge {
                        Some(c) => owned(c.url.as_str()),
                        None => {
                            return Action::Ignore;
                        },
                    };
                    // Tell the authority we are ready (empty object payload).
                    let payload = owned("{}");
                    self.post(Stage::Ready, url, payload)
                },
            },
            _ => Action::Ignore,
        }
    }

    fn on_cleaned(&mut self) -> (a: Action)
        requires
            old(self).wf(),
        ensures
            final(self).wf(),
            forall|now: u64| (final(self)@, a@) == stepped(old(self)@, EventModel::Cleaned, now),
    {
        match self.awaiting {
            Awaiting::Cleaned => match self.outcome.take() {
                Some(e) => self.fail(e),
                None => match self.stage {
                    Stage::Cleanup => {
                        let n: usize = self.authorizations.len();
                        proof {
                            assert(self@.authorizations.len() == n);
                        }
                        self.index = self.index + 1;
                        self.next_authz()
                    },
                    _ => Action::Ignore,
                },
            },
            _ => Action::Ignore,
        }
    }
}

/// The array at object field `key`.
fn array_at<'a>(doc: &'a Value, key: &str) -> (r: Option<&'a [Value]>)
    ensures
        match r {
            Some(a) => doc@.list_at(key@) == Some(models(a@)),
            None => doc@.list_at(key@) is None,
        },
{
    match doc.get(key) {
        Some(v) => v.as_array(),
        None => None,
    }
}

fn identifier_value(doc: &Value) -> (r: Option<String>)
    ensures
        opt_text(r) == identified(doc@),
{
    match doc.get("identifier") {
        None => None,
        Some(i) => match i.str_at("value") {
            Some(s) => Some(owned(s)),
            None => None,
        },
    }
}

fn strings_of(a: &[Value]) -> (r: Vec<Option<String>>)
    ensures
        opt_texts(r@) == strings(models(a@)),
{
    let mut out: Vec<Option<String>> = Vec::new();
    let ghost m = models(a@);
    let mut i: usize = 0;
    proof {
        lemma_models(a@);
        assert(opt_texts(out@) =~= strings(m).take(0));
    }
    while i < a.len()
        invariant
            i <= a@.len(),
            m == models(a@),
            m.len() == a@.len(),
            forall|k: int| 0 <= k < a@.len() ==> #[trigger] m[k] == a@[k]@,
            opt_texts(out@) == strings(m).take(i as int),
        decreases a.len() - i,
    {
        let ghost before = out@;
        let s = match a[i].as_str() {
            Some(s) => Some(owned(s)),
            None => None,
        };
        out.push(s);
        proof {
            assert(m[i as int] == a@[i as int]@);
            assert(opt_text(s) == strings(m)[i as int]);
            assert(opt_texts(out@) =~= opt_texts(before).push(opt_text(s)));
            assert(strings(m).take(i + 1) =~= strings(m).take(i as int).push(strings(m)[i as int]));
        }
        i += 1;
    }
    proof {
        assert(strings(m).take(m.len() as int) =~= strings(m));
    }
    out
}

fn is_text(s: Option<&str>, t: &str) -> (r: bool)
    ensures
        r == (s matches Some(x) && x@ == t@),
{
    match s {
        Some(x) => str_eq(x, t),
        None => false,
    }
}

// ---------------------------------------------------------------------------
// Laws
// ---------------------------------------------------------------------------

/// A challenge response that is installed is removed whatever happens: while it
/// stands, the flow neither fails nor ends, and the only way on is to remove
/// it.
#[verifier::rlimit(40)]
#[verifier::spinoff_prover]
pub proof fn law_challenge_is_removed(m: FlowModel, e: EventModel, now: u64)
    requires
        m.wf(),
        m.stage == Stage::Ready || m.stage == Stage::PollAuthorization,
    ensures
        ({
            let (n, a) = stepped(m, e, now);
            &&& !(a is Failed) && !(a is Done) && !(a is Registered)
            &&& n.stage == Stage::Ready || n.stage == Stage::PollAuthorization || (n.stage
                == Stage::Cleanup && a == (ActionModel::Cleanup {
                typ: m.challenge->0.typ,
                host: m.host,
                token: m.challenge->0.token,
            }))
            &&& n.challenge == m.challenge && n.host == m.host
        }),
{
}

/// A request refused for its nonce is sent once more, with a nonce asked for
/// anew; refused again, it is not.
pub proof fn law_bad_nonce_is_retried_once(m: FlowModel, r: ReplyModel, now: u64)
    requires
        m.awaiting == Awaiting::Reply,
        r.status == 400,
        says_bad_nonce(r.body),
    ensures
        !m.retried ==> {
            let (n, a) = stepped(m, EventModel::Reply(r), now);
            &&& a == (ActionModel::Head { url: m.dir.new_nonce })
            &&& n.retried && n.awaiting == Awaiting::Nonce && n.nonce is None
            &&& n.url == m.url && n.payload == m.payload && n.stage == m.stage
        },
        m.retried ==> stepped(m, EventModel::Reply(r), now) == replied(
            FlowModel { nonce: r.nonce, ..m },
            r,
            now,
        ),
{
}

/// A nonce is used at most once: what is sent leaves none behind.
pub proof fn law_nonce_is_used_once(m: FlowModel)
    ensures
        sending(m).1 is Post ==> m.nonce is Some && sending(m).0.nonce is None,
{
}

/// Polling ends: at the deadline there is no further wait.
pub proof fn law_polling_ends(m: FlowModel, r: ReplyModel, now: u64)
    requires
        m.awaiting == Awaiting::Reply,
        m.stage == Stage::PollAuthorization || m.stage == Stage::PollOrder,
        now >= m.deadline,
    ensures
        !(stepped(m, EventModel::Reply(r), now).1 is Wait),
{
}

/// Nothing is signed in the name of an account before there is one.
pub proof fn law_no_order_without_account(m: FlowModel, stage: Stage, url: Seq<char>, payload: Seq<char>)
    requires
        m.wf(),
        m.kid is None,
        stage != Stage::Account,
    ensures
        !(posting(m, stage, url, payload).1 is Post),
        !(posting(m, stage, url, payload).1 is Head),
{
}

} // verus!
