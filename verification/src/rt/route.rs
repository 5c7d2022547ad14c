//! Per-connection TLS certificate routing for the ACME path: read the
//! ClientHello off the socket, then pick the certificate (cached/issued cert,
//! the `acme-tls/1` challenge cert, the loopback self-signed, or reject).
use crate::acme::manager::{chosen, norm, AcmeManager, CertChoice, CertChoiceModel, ManagerModel};
use crate::bytes::push_all;
use crate::error::{ErrorModel, Result};
use crate::net::clienthello::{
    client_hello_in, hello_result, offers_acme, peek, reported, ClientHelloInfo, HelloModel,
};
use vstd::prelude::*;
use vstd::utf8::encode_utf8;

verus! {

broadcast use vstd::seq::group_seq_axioms;

/// Cap on bytes buffered while waiting for a complete ClientHello.
pub const MAX_HELLO: usize = 16384;

/// Absolute deadline for buffering a complete ClientHello: ten seconds.
///
/// The per-read inactivity timeout cannot stop a peer that dribbles a byte at a
/// time (each read resets the timer), so this phase gets a hard ceiling. A real
/// client's ClientHello arrives in the first packet, well under a second.
pub const HELLO_DEADLINE: u64 = 10000000000;

/// What to do next on the way to a ClientHello.
#[derive(Debug)]
pub enum HelloStep {
    /// It is complete.
    Done(ClientHelloInfo),
    /// Give up on the connection: too much data, or too late.
    GiveUp,
    /// Read, waiting no longer than this.
    Read(u64),
}

/// The model of a step.
pub enum HelloStepModel {
    Done(HelloModel),
    GiveUp,
    Read(u64),
}

impl View for HelloStep {
    type V = HelloStepModel;

    open spec fn view(&self) -> HelloStepModel {
        match self {
            HelloStep::Done(info) => HelloStepModel::Done(info@),
            HelloStep::GiveUp => HelloStepModel::GiveUp,
            HelloStep::Read(t) => HelloStepModel::Read(*t),
        }
    }
}

/// What came of a read.
#[derive(Debug)]
pub enum HelloRead {
    /// Some bytes.
    Data(Vec<u8>),
    /// The peer closed, went idle or hit the deadline.
    Ended,
}

/// The bytes buffered on the way to a ClientHello, to be replayed into the TLS
/// engine.
#[derive(Debug)]
pub struct HelloReader {
    buf: Vec<u8>,
    deadline: u64,
}

/// The model of a reader.
#[verifier::ext_equal]
pub struct HelloReaderModel {
    pub buf: Seq<u8>,
    pub deadline: u64,
}

impl View for HelloReader {
    type V = HelloReaderModel;

    closed spec fn view(&self) -> HelloReaderModel {
        HelloReaderModel { buf: self.buf@, deadline: self.deadline }
    }
}

/// What to do next, given what the buffered bytes amount to.
pub open spec fn hello_step(
    m: HelloReaderModel,
    seen: core::result::Result<Option<HelloModel>, ErrorModel>,
    now: u64,
) -> core::result::Result<HelloStepModel, ErrorModel> {
    match seen {
        Err(e) => Err(e),
        Ok(Some(info)) => Ok(HelloStepModel::Done(info)),
        Ok(None) => if m.buf.len() > MAX_HELLO || now >= m.deadline {
            Ok(HelloStepModel::GiveUp)
        } else {
            Ok(HelloStepModel::Read((m.deadline - now) as u64))
        },
    }
}

/// The model of the result of a step.
pub open spec fn step_result(r: Result<HelloStep>) -> core::result::Result<HelloStepModel, ErrorModel> {
    match r {
        Ok(s) => Ok(s@),
        Err(e) => Err(e@),
    }
}

impl HelloReader {
    /// A reader that starts now.
    pub fn new(now: u64) -> (r: HelloReader)
        ensures
            r@ == (HelloReaderModel {
                buf: Seq::empty(),
                deadline: if now + HELLO_DEADLINE <= u64::MAX {
                    (now + HELLO_DEADLINE) as u64
                } else {
                    u64::MAX
                },
            }),
    {
        let deadline: u64 = if now <= u64::MAX - HELLO_DEADLINE {
            now + HELLO_DEADLINE
        } else {
            u64::MAX
        };
        let r = HelloReader { buf: Vec::new(), deadline };
        proof {
            assert(r@.buf =~= Seq::empty());
        }
        r
    }

    /// What to do next, given what the buffered bytes amount to.
    pub fn decide(&self, seen: Result<Option<ClientHelloInfo>>, now: u64) -> (r: Result<HelloStep>)
        ensures
            step_result(r) == hello_step(self@, hello_result(seen), now),
    {
        match seen {
            Err(e) => Err(e),
            Ok(Some(info)) => Ok(HelloStep::Done(info)),
            Ok(None) => {
                if self.buf.len() > MAX_HELLO || now >= self.deadline {
                    Ok(HelloStep::GiveUp)
                } else {
                    Ok(HelloStep::Read(self.deadline - now))
                }
            },
        }
    }

    /// Look at the buffered bytes and say what to do next.
    pub fn step(&self, now: u64) -> (r: Result<HelloStep>)
        ensures
            step_result(r) == hello_step(self@, reported(client_hello_in(self@.buf)), now),
    {
        self.decide(peek(self.buf.as_slice()), now)
    }

    /// Take in what a read brought; says whether to go on.
    pub fn on_read(&mut self, read: HelloRead) -> (r: bool)
        ensures
            match read {
                HelloRead::Data(d) => r == (d@.len() > 0) && final(self)@ == (HelloReaderModel {
                    buf: old(self)@.buf + d@,
                    ..old(self)@
                }),
                HelloRead::Ended => !r && final(self)@ == old(self)@,
            },
    {
        match read {
            HelloRead::Data(d) => {
                push_all(&mut self.buf, d.as_slice());
                d.len() > 0
            },
            HelloRead::Ended => false,
        }
    }

    /// The bytes consumed so far.
    pub fn bytes(&self) -> (r: &[u8])
        ensures
            r@ == self@.buf,
    {
        self.buf.as_slice()
    }
}

/// The certificate for a peeked ClientHello.
pub open spec fn routed(m: ManagerModel, hello: HelloModel, loopback: bool, now: u64) -> (
    ManagerModel,
    CertChoiceModel,
) {
    if offers_acme(hello.1) {
        (
            m,
            match hello.0 {
                Some(h) => if m.alpn.contains_key(norm(h)) {
                    CertChoiceModel::Serve(m.alpn[norm(h)])
                } else {
                    CertChoiceModel::Reject
                },
                None => CertChoiceModel::Reject,
            },
        )
    } else {
        chosen(m, hello.0, loopback, now)
    }
}

/// Choose the certificate for a peeked ClientHello. `now` is Unix time.
pub fn pick(mgr: &mut AcmeManager, info: &ClientHelloInfo, loopback: bool, now: u64) -> (r: CertChoice)
    requires
        old(mgr).wf(),
    ensures
        final(mgr).wf(),
        (final(mgr)@, r@) == routed(old(mgr)@, info@, loopback, now),
{
    // A TLS-ALPN-01 validation connection must get the challenge cert (and only
    // when one is actually pending for that host).
    if info.wants_acme_tls() {
        return match &info.server_name {
            Some(h) => match mgr.challenge_acceptor(h.as_str()) {
                Some(a) => CertChoice::Serve(a),
                None => CertChoice::Reject,
            },
            None => CertChoice::Reject,
        };
    }
    match &info.server_name {
        Some(h) => mgr.choose_cert(Some(h.as_str()), loopback, now),
        None => mgr.choose_cert(None, loopback, now),
    }
}

// ---------------------------------------------------------------------------
// Laws
// ---------------------------------------------------------------------------

/// A validation connection gets the challenge certificate or nothing: never one
/// for content.
pub proof fn law_validation_gets_only_the_challenge(
    m: ManagerModel,
    hello: HelloModel,
    loopback: bool,
    now: u64,
)
    requires
        offers_acme(hello.1),
    ensures
        routed(m, hello, loopback, now).0 == m,
        routed(m, hello, loopback, now).1 is Reject || (routed(m, hello, loopback, now).1
            matches CertChoiceModel::Serve(a) && exists|host: Seq<char>|
            #[trigger] m.alpn.contains_key(host) && m.alpn[host] == a),
{
}

/// No read waits past the deadline.
pub proof fn law_reads_end_by_the_deadline(
    m: HelloReaderModel,
    seen: core::result::Result<Option<HelloModel>, ErrorModel>,
    now: u64,
)
    ensures
        hello_step(m, seen, now) matches Ok(HelloStepModel::Read(t)) ==> now + t <= m.deadline && t
            > 0 && m.buf.len() <= MAX_HELLO,
{
}

/// A validation connection gets the challenge of the host that it names, in whatever
/// case; any other connection is routed by its name.
pub proof fn law_hello_decides(
    m: ManagerModel,
    hello: HelloModel,
    host: Seq<char>,
    acceptor: u64,
    loopback: bool,
    now: u64,
    i: int,
)
    ensures
        0 <= i < hello.1.len() && hello.1[i] == encode_utf8("acme-tls/1"@) && hello.0 == Some(host)
            && m.alpn.contains_key(norm(host)) && m.alpn[norm(host)] == acceptor ==> routed(
            m,
            hello,
            loopback,
            now,
        ) == (m, CertChoiceModel::Serve(acceptor)),
        0 <= i < hello.1.len() && hello.1[i] == encode_utf8("acme-tls/1"@) && (hello.0 is None
            || !m.alpn.contains_key(norm(hello.0->0))) ==> routed(m, hello, loopback, now) == (
            m,
            CertChoiceModel::Reject,
        ),
        (forall|j: int|
            0 <= j < hello.1.len() ==> #[trigger] hello.1[j] != encode_utf8("acme-tls/1"@))
            ==> routed(m, hello, loopback, now) == chosen(m, hello.0, loopback, now),
{
}

/// A complete hello is taken whenever it is there, an unreadable one is an error, and an
/// incomplete one is waited for until the deadline or the size limit.
pub proof fn law_hello_is_awaited(m: HelloReaderModel, hello: HelloModel, e: ErrorModel, now: u64)
    ensures
        hello_step(m, Ok(Some(hello)), now) == Ok::<HelloStepModel, ErrorModel>(
            HelloStepModel::Done(hello),
        ),
        hello_step(m, Err(e), now) == Err::<HelloStepModel, ErrorModel>(e),
        m.buf.len() <= MAX_HELLO && now < m.deadline ==> hello_step(m, Ok(None), now) == Ok::<
            HelloStepModel,
            ErrorModel,
        >(HelloStepModel::Read((m.deadline - now) as u64)),
        m.buf.len() > MAX_HELLO || now >= m.deadline ==> hello_step(m, Ok(None), now) == Ok::<
            HelloStepModel,
            ErrorModel,
        >(HelloStepModel::GiveUp),
{
}

} // verus!
