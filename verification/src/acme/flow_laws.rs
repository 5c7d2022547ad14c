//! Laws of the order flow: which request follows which reply, from the account to the
//! certificate.
use crate::acme::client::{
    account_payload_of, csr_of, finalize_payload_of, json_in, order_payload_of, problem, selected,
    ChallengeModel, ReplyModel,
};
use crate::acme::flow::{
    issuing, registering, stepped, ActionModel, Awaiting, EventModel, FlowModel, Stage,
};
use crate::acme::jose::{b64url_of, sha256_of, signed};
use crate::acme::json::ValueModel;
use crate::error::ErrorModel;
use vstd::prelude::*;
use vstd::utf8::{decode_utf8, encode_utf8, valid_utf8};

verus! {

broadcast use vstd::seq::group_seq_axioms;

/// Whether a flow goes on with a request of its own: with a nonce at hand it is signed,
/// in the name of the account unless it asks for one, and sent; without one a nonce is
/// asked for first, with the request kept.
pub open spec fn requests(
    m: FlowModel,
    next: (FlowModel, ActionModel),
    stage: Stage,
    url: Seq<char>,
    payload: Seq<char>,
    kid: Option<Seq<char>>,
) -> bool {
    let (n, a) = next;
    match m.nonce {
        None => {
            &&& a == (ActionModel::Head { url: m.dir.new_nonce })
            &&& n.awaiting == Awaiting::Nonce
            &&& n.stage == stage && n.url == url && n.payload == payload && !n.retried
        },
        Some(nonce) => signed(m.key, m.jwk, url, nonce, kid, payload) matches Ok(body) ==> {
            &&& a == (ActionModel::Post { url, body })
            &&& n.awaiting == Awaiting::Reply
            &&& n.nonce is None
            &&& n.stage == stage && n.url == url && n.payload == payload && !n.retried
        },
    }
}

/// The state in which the reply to a request finds a flow: with the nonce that the
/// reply brought.
pub open spec fn with_reply(m: FlowModel, r: ReplyModel) -> FlowModel {
    FlowModel { nonce: r.nonce, ..m }
}

/// Without an account one is asked for first; with one the order goes out at once.
pub proof fn law_orders_begin_with_an_account(
    m: FlowModel,
    names: Seq<Seq<char>>,
    preferred: Seq<Seq<char>>,
    cert_key: Seq<u8>,
)
    ensures
        requests(
            m,
            registering(m),
            Stage::Account,
            m.dir.new_account,
            account_payload_of(m.email),
            None,
        ),
        m.kid is None ==> requests(
            m,
            issuing(m, names, preferred, cert_key),
            Stage::Account,
            m.dir.new_account,
            account_payload_of(m.email),
            None,
        ),
        m.kid is Some ==> requests(
            m,
            issuing(m, names, preferred, cert_key),
            Stage::NewOrder,
            m.dir.new_order,
            order_payload_of(names),
            m.kid,
        ),
        issuing(m, names, preferred, cert_key).0.names == names,
        issuing(m, names, preferred, cert_key).0.preferred == preferred,
        issuing(m, names, preferred, cert_key).0.cert_key == cert_key,
{
}

/// A nonce that was asked for is used for the request that waits for it.
pub proof fn law_nonce_is_put_to_use(m: FlowModel, r: ReplyModel, nonce: Seq<char>, now: u64)
    requires
        m.awaiting == Awaiting::Nonce,
        r.nonce == Some(nonce),
    ensures
        signed(
            m.key,
            m.jwk,
            m.url,
            nonce,
            if m.stage == Stage::Account {
                None
            } else {
                m.kid
            },
            m.payload,
        ) matches Ok(body) ==> stepped(m, EventModel::Reply(r), now).1 == (ActionModel::Post {
            url: m.url,
            body,
        }),
{
}

/// The account is known by where it was made, and the order for its names follows.
pub proof fn law_account_then_order(m: FlowModel, r: ReplyModel, url: Seq<char>, now: u64)
    requires
        m.awaiting == Awaiting::Reply,
        m.stage == Stage::Account,
        r.status < 400,
        r.location == Some(url),
    ensures
        stepped(m, EventModel::Reply(r), now).0.kid == Some(url),
        m.ordering ==> requests(
            with_reply(m, r),
            stepped(m, EventModel::Reply(r), now),
            Stage::NewOrder,
            m.dir.new_order,
            order_payload_of(m.names),
            Some(url),
        ),
        !m.ordering ==> stepped(m, EventModel::Reply(r), now).1 == ActionModel::Registered,
{
}

/// An order leads to its authorizations, the first one first, and is remembered by
/// where it was made and where it is to be finished.
pub proof fn law_order_then_authorizations(
    m: FlowModel,
    r: ReplyModel,
    doc: ValueModel,
    url: Seq<char>,
    urls: Seq<Seq<char>>,
    now: u64,
)
    requires
        m.awaiting == Awaiting::Reply,
        m.stage == Stage::NewOrder,
        m.kid is Some,
        r.status < 400,
        r.location == Some(url),
        json_in(r.body) == Ok::<ValueModel, ErrorModel>(doc),
        doc.list_at("authorizations"@) == Some(urls.map_values(|s: Seq<char>| ValueModel::Str(s))),
        urls.len() > 0,
    ensures
        ({
            let next = stepped(m, EventModel::Reply(r), now);
            &&& requests(with_reply(m, r), next, Stage::Fetch, urls[0], ""@, m.kid)
            &&& next.0.order_url == url
            &&& next.0.finalize == doc.text_at("finalize"@)
            &&& next.0.authz_url == urls[0]
            &&& next.0.index == 0
            &&& next.0.authorizations == urls.map_values(|s: Seq<char>| Some(s))
        }),
{
    let items = urls.map_values(|s: Seq<char>| ValueModel::Str(s));
    assert(crate::acme::flow::strings(items) =~= urls.map_values(|s: Seq<char>| Some(s)));
}

/// A pending authorization is answered with the challenge of the most preferred type:
/// its token, a dot and the digest of the account's key.
pub proof fn law_challenge_is_presented(
    m: FlowModel,
    r: ReplyModel,
    doc: ValueModel,
    who: ValueModel,
    host: Seq<char>,
    offers: Seq<ValueModel>,
    c: ChallengeModel,
    now: u64,
)
    requires
        m.awaiting == Awaiting::Reply,
        m.stage == Stage::Fetch,
        r.status < 400,
        json_in(r.body) == Ok::<ValueModel, ErrorModel>(doc),
        doc.text_at("status"@) != Some("valid"@),
        doc.at("identifier"@) == Some(who),
        who.text_at("value"@) == Some(host),
        doc.list_at("challenges"@) == Some(offers),
        selected(offers, m.preferred) == Some(c),
    ensures
        stepped(m, EventModel::Reply(r), now).1 == (ActionModel::Present {
            typ: c.typ,
            host,
            token: c.token,
            key_auth: c.token + "."@ + b64url_of(sha256_of(encode_utf8(m.jwk))),
        }),
        stepped(m, EventModel::Reply(r), now).0.challenge == Some(c),
        stepped(m, EventModel::Reply(r), now).0.awaiting == Awaiting::Presented,
{
    reveal_strlit(".");
    assert("."@ =~= seq!['.']);
}

/// Once the response is in place the authority is told so, at the challenge's own
/// address, and then the authorization is polled.
pub proof fn law_presented_then_polled(
    m: FlowModel,
    c: ChallengeModel,
    r: ReplyModel,
    now: u64,
)
    requires
        m.kid is Some,
    ensures
        m.awaiting == Awaiting::Presented && m.challenge == Some(c) ==> requests(
            m,
            stepped(m, EventModel::Presented(None), now),
            Stage::Ready,
            c.url,
            "{}"@,
            m.kid,
        ),
        m.awaiting == Awaiting::Reply && m.stage == Stage::Ready && r.status < 400 ==> requests(
            with_reply(m, r),
            stepped(m, EventModel::Reply(r), now),
            Stage::PollAuthorization,
            m.authz_url,
            ""@,
            m.kid,
        ),
        m.awaiting == Awaiting::Reply && m.stage == Stage::Finalize && r.status < 400 ==> requests(
            with_reply(m, r),
            stepped(m, EventModel::Reply(r), now),
            Stage::PollOrder,
            m.order_url,
            ""@,
            m.kid,
        ),
{
}

/// What is not decided yet is asked for again after a wait, at the same address.
pub proof fn law_polling_goes_on(m: FlowModel, r: ReplyModel, doc: ValueModel, now: u64)
    requires
        m.kid is Some,
        json_in(r.body) == Ok::<ValueModel, ErrorModel>(doc),
        r.status < 400,
        now < m.deadline,
        doc.text_at("status"@) == Some("pending"@) || doc.text_at("status"@) == Some(
            "processing"@,
        ),
    ensures
        m.awaiting == Awaiting::Reply && (m.stage == Stage::PollAuthorization || m.stage
            == Stage::PollOrder) ==> stepped(m, EventModel::Reply(r), now).1 == ActionModel::Wait
            && stepped(m, EventModel::Reply(r), now).0.awaiting == Awaiting::Woken,
        m.awaiting == Awaiting::Woken && m.stage == Stage::PollAuthorization ==> requests(
            m,
            stepped(m, EventModel::Woken, now),
            Stage::PollAuthorization,
            m.authz_url,
            ""@,
            m.kid,
        ),
        m.awaiting == Awaiting::Woken && m.stage == Stage::PollOrder ==> requests(
            m,
            stepped(m, EventModel::Woken, now),
            Stage::PollOrder,
            m.order_url,
            ""@,
            m.kid,
        ),
{
    lemma_statuses();
}

proof fn lemma_statuses()
    ensures
        "valid"@.len() == 5,
        "ready"@.len() == 5,
        "valid"@[0] == 'v',
        "ready"@[0] == 'r',
        "pending"@.len() == 7,
        "pending"@[0] == 'p',
        "invalid"@.len() == 7,
        "invalid"@[0] == 'i',
        "processing"@.len() == 10,
{
    reveal_strlit("valid");
    reveal_strlit("ready");
    reveal_strlit("pending");
    reveal_strlit("invalid");
    reveal_strlit("processing");
}

/// A valid authorization has its challenge removed, and then comes the next one, or the
/// signing request where it was the last.
pub proof fn law_valid_authorization_leads_on(
    m: FlowModel,
    r: ReplyModel,
    doc: ValueModel,
    c: ChallengeModel,
    url: Seq<char>,
    now: u64,
)
    requires
        m.kid is Some,
        m.challenge == Some(c),
        0 <= m.index < m.authorizations.len(),
        json_in(r.body) == Ok::<ValueModel, ErrorModel>(doc),
        r.status < 400,
        doc.text_at("status"@) == Some("valid"@),
    ensures
        m.awaiting == Awaiting::Reply && m.stage == Stage::PollAuthorization ==> stepped(
            m,
            EventModel::Reply(r),
            now,
        ).1 == (ActionModel::Cleanup { typ: c.typ, host: m.host, token: c.token }) && stepped(
            m,
            EventModel::Reply(r),
            now,
        ).0.outcome is None,
        m.awaiting == Awaiting::Cleaned && m.stage == Stage::Cleanup && m.outcome is None && m.index
            + 1 < m.authorizations.len() && m.authorizations[m.index + 1] == Some(url) ==> requests(
            m,
            stepped(m, EventModel::Cleaned, now),
            Stage::Fetch,
            url,
            ""@,
            m.kid,
        ) && stepped(m, EventModel::Cleaned, now).0.index == m.index + 1,
        m.awaiting == Awaiting::Reply && m.stage == Stage::Fetch && m.index + 1
            < m.authorizations.len() && m.authorizations[m.index + 1] == Some(url) ==> requests(
            with_reply(m, r),
            stepped(m, EventModel::Reply(r), now),
            Stage::Fetch,
            url,
            ""@,
            m.kid,
        ),
{
}

/// After the last authorization the signing request for the names is handed in where
/// the order said.
pub proof fn law_signing_request_is_handed_in(
    m: FlowModel,
    url: Seq<char>,
    csr: Seq<u8>,
    now: u64,
)
    requires
        m.kid is Some,
        m.awaiting == Awaiting::Cleaned,
        m.stage == Stage::Cleanup,
        m.outcome is None,
        m.index + 1 == m.authorizations.len(),
        m.finalize == Some(url),
        m.names.len() > 0,
        csr_of(m.cert_key, m.names[0], m.names) == Ok::<Seq<u8>, Seq<char>>(csr),
    ensures
        requests(
            m,
            stepped(m, EventModel::Cleaned, now),
            Stage::Finalize,
            url,
            finalize_payload_of(csr),
            m.kid,
        ),
{
}

/// A valid order says where its certificate is, and what is there is the certificate.
pub proof fn law_certificate_is_fetched(
    m: FlowModel,
    r: ReplyModel,
    doc: ValueModel,
    url: Seq<char>,
    now: u64,
)
    requires
        m.kid is Some,
        m.awaiting == Awaiting::Reply,
        r.status < 400,
    ensures
        m.stage == Stage::PollOrder && json_in(r.body) == Ok::<ValueModel, ErrorModel>(doc)
            && doc.text_at("status"@) == Some("valid"@) && doc.text_at("certificate"@) == Some(url)
            ==> requests(
            with_reply(m, r),
            stepped(m, EventModel::Reply(r), now),
            Stage::Certificate,
            url,
            ""@,
            m.kid,
        ),
        m.stage == Stage::Certificate && valid_utf8(r.body) ==> stepped(
            m,
            EventModel::Reply(r),
            now,
        ).1 == (ActionModel::Done { chain: decode_utf8(r.body) }),
{
}

/// A refused request fails with what was refused and the authority's own words; an
/// order or an authorization that became invalid fails too.
pub proof fn law_refusals_fail(m: FlowModel, r: ReplyModel, doc: ValueModel, now: u64)
    requires
        m.awaiting == Awaiting::Reply,
        m.retried || r.status != 400,
    ensures
        r.status >= 400 && m.stage == Stage::Account ==> stepped(m, EventModel::Reply(r), now).1
            == ActionModel::Failed(problem("newAccount"@, r.body)),
        r.status >= 400 && m.stage == Stage::NewOrder ==> stepped(m, EventModel::Reply(r), now).1
            == ActionModel::Failed(problem("newOrder"@, r.body)),
        r.status >= 400 && m.stage == Stage::Fetch ==> stepped(m, EventModel::Reply(r), now).1
            == ActionModel::Failed(problem("authz"@, r.body)),
        r.status >= 400 && m.stage == Stage::Finalize ==> stepped(m, EventModel::Reply(r), now).1
            == ActionModel::Failed(problem("finalize"@, r.body)),
        r.status >= 400 && m.stage == Stage::Certificate ==> stepped(m, EventModel::Reply(r), now).1
            == ActionModel::Failed(problem("certificate"@, r.body)),
        m.stage == Stage::PollOrder && json_in(r.body) == Ok::<ValueModel, ErrorModel>(doc)
            && doc.text_at("status"@) == Some("invalid"@) ==> stepped(
            m,
            EventModel::Reply(r),
            now,
        ).1 == ActionModel::Failed(problem("order invalid"@, r.body)),
        m.stage == Stage::PollAuthorization && json_in(r.body) == Ok::<ValueModel, ErrorModel>(doc)
            && doc.text_at("status"@) == Some("invalid"@) ==> stepped(
            m,
            EventModel::Reply(r),
            now,
        ).0.outcome == Some(problem("authorization invalid"@, r.body)),
{
    lemma_statuses();
}

} // verus!
