//! What the QUIC/UDP runtime that carries HTTP/3 decides.
//!
//! A single UDP socket is multiplexed across clients, keyed by peer address.
//! Each datagram is fed to its QUIC connection; the per-connection HTTP/3 engine
//! then services any complete requests, and the connection's outbound datagrams
//! are written back. Loss-recovery timers are driven from the socket read
//! timeout.
use crate::acme::manager::{chosen_cached, AcmeManager, CertChoice, CertChoiceModel, ManagerModel};
use crate::net::clienthello::{raw_hello, ClientHelloInfo, HelloModel};
use crate::error::Result;
use crate::h3::drive::quic_error;
use crate::h3::transport::{quic_serves, quic_server, quic_state, untouched};
use crate::tls::{quic_advertised, quic_alpn, quic_chain, quic_limits, quic_secret, TlsAcceptor};
use purecrypto::quic::{QuicConfig, QuicConnection};
use vstd::prelude::*;
use vstd::utf8::encode_utf8;

verus! {

broadcast use vstd::seq::group_seq_axioms;

/// Datagrams must fit a conservative MTU; they are read into a slightly larger
/// buffer.
pub const RECV_BUF: usize = 2048;

/// Poll interval when no connection has a pending timer: 200 milliseconds.
pub const IDLE_POLL: u64 = 200000000;

/// The shortest poll: one millisecond.
pub const MIN_POLL: u64 = 1000000;

/// Hard cap on concurrent connections. UDP source addresses are trivially
/// spoofable, so the per-connection state that is held must be bounded. Past the
/// cap, new Initials are dropped without allocating state (after first trying to
/// evict a closed or stuck connection).
pub const MAX_CONNS: usize = 4096;

/// Idle timeout for sweeping connections out: sixty seconds. It guarantees that
/// state is reclaimed even for connections that never make progress.
pub const CONN_IDLE_TIMEOUT: u64 = 60000000000;

/// What is known of a connection.
#[derive(Debug, Clone, Copy, PartialEq, Eq, Structural)]
pub struct Peer {
    pub closed: bool,
    /// Whether its handshake is complete.
    pub established: bool,
    /// When a datagram last came for it.
    pub last_seen: u64,
    /// When its next loss-recovery timer should fire.
    pub deadline: Option<u64>,
}

/// The time from one moment to another that is not earlier.
pub open spec fn until(now: u64, then_at: u64) -> u64 {
    if then_at > now {
        (then_at - now) as u64
    } else {
        0
    }
}

/// The soonest pending timer, as a wait.
pub open spec fn soonest(peers: Seq<Peer>, now: u64) -> Option<u64>
    decreases peers.len(),
{
    if peers.len() == 0 {
        None
    } else {
        let rest = soonest(peers.drop_last(), now);
        match (rest, peers.last().deadline) {
            (Some(a), Some(d)) => if until(now, d) < a {
                Some(until(now, d))
            } else {
                Some(a)
            },
            (None, Some(d)) => Some(until(now, d)),
            (a, None) => a,
        }
    }
}

/// How long to wait for a datagram: until the soonest pending timer, or the idle
/// interval, but never less than the shortest poll.
pub fn wait(peers: &Vec<Peer>, now: u64) -> (r: u64)
    ensures
        r == match soonest(peers@, now) {
            Some(w) => if w < MIN_POLL {
                MIN_POLL
            } else {
                w
            },
            None => IDLE_POLL,
        },
{
    let mut best: Option<u64> = None;
    let mut i: usize = 0;
    proof {
        assert(peers@.take(0) =~= Seq::empty());
    }
    while i < peers.len()
        invariant
            i <= peers@.len(),
            best == soonest(peers@.take(i as int), now),
        decreases peers.len() - i,
    {
        proof {
            assert(peers@.take(i + 1).drop_last() =~= peers@.take(i as int));
            assert(peers@.take(i + 1).last() == peers@[i as int]);
        }
        if let Some(d) = peers[i].deadline {
            let w: u64 = if d > now {
                d - now
            } else {
                0
            };
            best = match best {
                Some(a) => if w < a {
                    Some(w)
                } else {
                    Some(a)
                },
                None => Some(w),
            };
        }
        i += 1;
    }
    proof {
        assert(peers@.take(peers@.len() as int) =~= peers@);
    }
    match best {
        Some(w) => if w < MIN_POLL {
            MIN_POLL
        } else {
            w
        },
        None => IDLE_POLL,
    }
}

/// Whether a connection's timer has elapsed.
pub fn is_due(peer: &Peer, now: u64) -> (r: bool)
    ensures
        r == (peer.deadline matches Some(d) && d <= now),
{
    match peer.deadline {
        Some(d) => d <= now,
        None => false,
    }
}

/// Whether a connection is kept: it is not closed, and not idle past the
/// backstop timeout.
pub open spec fn kept(peer: Peer, now: u64) -> bool {
    !peer.closed && until(peer.last_seen, now) < CONN_IDLE_TIMEOUT
}

/// Whether a connection is kept.
pub fn keeps(peer: &Peer, now: u64) -> (r: bool)
    ensures
        r == kept(*peer, now),
{
    let age: u64 = if now > peer.last_seen {
        now - peer.last_seen
    } else {
        0
    };
    !peer.closed && age < CONN_IDLE_TIMEOUT
}

/// Whether a connection comes before another when one has to go: closed ones
/// first, then those whose handshake is not complete, and among equals the one
/// that was heard of longest ago.
pub open spec fn goes_before(a: Peer, b: Peer) -> bool {
    if a.closed || b.closed {
        a.closed
    } else if a.established != b.established {
        !a.established
    } else {
        a.last_seen <= b.last_seen
    }
}

/// The connection to reclaim to make room at the cap: one that no other comes
/// before.
pub fn evict_one(peers: &Vec<Peer>) -> (r: Option<usize>)
    ensures
        match r {
            Some(k) => k < peers@.len() && forall|j: int|
                0 <= j < peers@.len() ==> goes_before(peers@[k as int], #[trigger] peers@[j]),
            None => peers@.len() == 0,
        },
{
    if peers.len() == 0 {
        return None;
    }
    let mut k: usize = 0;
    let mut i: usize = 1;
    while i < peers.len()
        invariant
            0 < peers@.len(),
            k < i <= peers@.len(),
            forall|j: int| 0 <= j < i ==> goes_before(peers@[k as int], #[trigger] peers@[j]),
        decreases peers.len() - i,
    {
        let a = peers[k];
        let b = peers[i];
        let stays: bool = if a.closed || b.closed {
            a.closed
        } else if a.established != b.established {
            !a.established
        } else {
            a.last_seen <= b.last_seen
        };
        if !stays {
            k = i;
        }
        i += 1;
    }
    Some(k)
}

/// What to do about a datagram from an unknown peer for which there is a
/// certificate.
#[derive(Debug, Clone, Copy, PartialEq, Eq, Structural)]
pub enum Room {
    /// There is room.
    Accept,
    /// Remove this connection first.
    Evict(usize),
    /// Drop the datagram without allocating any state.
    Drop,
}

/// Bound the connection table so that spoofed source addresses can't exhaust
/// memory.
pub fn make_room(peers: &Vec<Peer>) -> (r: Room)
    ensures
        peers@.len() < MAX_CONNS <==> r is Accept,
        r matches Room::Evict(k) ==> k < peers@.len() && forall|j: int|
            0 <= j < peers@.len() ==> goes_before(peers@[k as int], #[trigger] peers@[j]),
        r !is Drop,
{
    if peers.len() < MAX_CONNS {
        return Room::Accept;
    }
    match evict_one(peers) {
        Some(k) => Room::Evict(k),
        None => Room::Drop,
    }
}

// ---------------------------------------------------------------------------
// Certificates
// ---------------------------------------------------------------------------

/// What `peek_initial_sni` makes of a datagram.
pub uninterp spec fn initial_hello_in(datagram: Seq<u8>) -> core::result::Result<
    Option<(Option<Seq<char>>, Seq<Seq<u8>>)>,
    Seq<char>,
>;

/// `purecrypto::quic::peek_initial_sni`: its result is a function of the
/// datagram.
#[verifier::external_body]
pub(crate) fn inspect_initial(datagram: &[u8]) -> (r: core::result::Result<
    Option<ClientHelloInfo>,
    String,
>)
    ensures
        raw_hello(r) == initial_hello_in(datagram@),
{
    match purecrypto::quic::peek_initial_sni(datagram) {
        Ok(Some(info)) => Ok(
            Some(
                ClientHelloInfo {
                    server_name: info.server_name,
                    alpn_protocols: info.alpn_protocols,
                },
            ),
        ),
        Ok(None) => Ok(None),
        Err(e) => Err(format!("{e:?}")),
    }
}

/// The certificate for a new connection, given what its first datagram says;
/// nothing to drop the datagram.
pub open spec fn initial_choice(
    m: ManagerModel,
    hello: core::result::Result<Option<HelloModel>, Seq<char>>,
    loopback: bool,
) -> (ManagerModel, Option<CertChoiceModel>) {
    match hello {
        Ok(Some(h)) => {
            let (n, c) = chosen_cached(m, h.0, loopback);
            (
                n,
                if c is Reject {
                    None
                } else {
                    Some(c)
                },
            )
        },
        _ => (m, None),
    }
}

/// The model of a certificate choice that may be missing.
pub open spec fn opt_choice(c: Option<CertChoice>) -> Option<CertChoiceModel> {
    match c {
        Some(x) => Some(x@),
        None => None,
    }
}

/// Choose the certificate for a new connection, given what its first datagram
/// says. Nothing is chosen while the host name is not available, or if the host
/// is not permitted: the client retries, or falls back.
pub fn choose_initial(
    mgr: &mut AcmeManager,
    hello: core::result::Result<Option<ClientHelloInfo>, String>,
    loopback: bool,
) -> (r: Option<CertChoice>)
    requires
        old(mgr).wf(),
    ensures
        final(mgr).wf(),
        (final(mgr)@, opt_choice(r)) == initial_choice(old(mgr)@, raw_hello(hello), loopback),
{
    let info = match hello {
        Ok(Some(info)) => info,
        _ => {
            return None;
        },
    };
    let choice = match &info.server_name {
        Some(h) => mgr.choose_cached(Some(h.as_str()), loopback),
        None => mgr.choose_cached(None, loopback),
    };
    match choice {
        CertChoice::Reject => None,
        c => Some(c),
    }
}

/// Choose the certificate for a new connection by its first datagram. The
/// ClientHello rides in the encrypted Initial; its host name is peeked without
/// committing to a connection.
pub fn acceptor_for(mgr: &mut AcmeManager, first_datagram: &[u8], loopback: bool) -> (r: Option<CertChoice>)
    requires
        old(mgr).wf(),
    ensures
        final(mgr).wf(),
        (final(mgr)@, opt_choice(r)) == initial_choice(
            old(mgr)@,
            initial_hello_in(first_datagram@),
            loopback,
        ),
{
    choose_initial(mgr, inspect_initial(first_datagram), loopback)
}

// ---------------------------------------------------------------------------
// Laws
// ---------------------------------------------------------------------------

/// A connection in use is reclaimed only when every connection is in use: closed
/// ones go first, then half-open ones.
pub proof fn law_live_connections_go_last(peers: Seq<Peer>, k: int, j: int)
    requires
        0 <= k < peers.len(),
        0 <= j < peers.len(),
        forall|i: int| 0 <= i < peers.len() ==> goes_before(peers[k], #[trigger] peers[i]),
        !peers[k].closed && peers[k].established,
    ensures
        !peers[j].closed && peers[j].established && peers[k].last_seen <= peers[j].last_seen,
{
    assert(goes_before(peers[k], peers[j]));
}

/// No timer is overslept: the wait ends by the time the soonest is due, up to
/// the shortest poll.
pub proof fn law_no_timer_is_overslept(peers: Seq<Peer>, now: u64, j: int)
    requires
        0 <= j < peers.len(),
        peers[j].deadline is Some,
    ensures
        soonest(peers, now) matches Some(w) && w <= until(now, peers[j].deadline->0),
    decreases peers.len(),
{
    if j < peers.len() - 1 {
        assert(peers.drop_last()[j] == peers[j]);
        law_no_timer_is_overslept(peers.drop_last(), now, j);
    }
}

/// Whether a configuration is the one that an acceptor's connections are served
/// with.
pub open spec fn configures(acceptor: TlsAcceptor, config: QuicConfig) -> bool {
    &&& quic_chain(config) == acceptor@.chain
    &&& quic_secret(config) == acceptor@.secret
    &&& quic_alpn(config) == seq![encode_utf8("h3"@)]
    &&& quic_advertised(config) == quic_limits()
}

/// Begin a connection with an acceptor's certificate. It fails only where the QUIC
/// engine does not serve with the acceptor's configuration.
pub fn accept(acceptor: &TlsAcceptor) -> (r: Result<QuicConnection>)
    requires
        acceptor.wf(),
    ensures
        exists|config: QuicConfig|
            configures(*acceptor, config) && (r is Ok <==> #[trigger] quic_serves(config)),
        r matches Ok(c) ==> untouched(quic_state(c)),
        r matches Ok(c) ==> quic_state(c).identity == (
            acceptor@.chain,
            acceptor@.secret,
            seq![encode_utf8("h3"@)],
        ),
        r matches Ok(c) ==> quic_state(c).advertised == quic_limits(),
        r matches Err(e) ==> e@ is Tls,
{
    match acceptor.quic_config() {
        Ok(config) => {
            let ghost c = config;
            proof {
                assert(configures(*acceptor, c));
            }
            match quic_server(config) {
                Ok(conn) => Ok(conn),
                Err(e) => Err(quic_error(e)),
            }
        },
        Err(e) => Err(e),
    }
}

/// The wait is for a timer that is pending; where none is, there is none to wait for.
pub proof fn law_wait_is_for_a_timer(peers: Seq<Peer>, now: u64)
    ensures
        match soonest(peers, now) {
            Some(w) => exists|j: int|
                0 <= j < peers.len() && ((#[trigger] peers[j]).deadline matches Some(d) && w == if d
                    > now {
                    d - now
                } else {
                    0
                }),
            None => forall|j: int| 0 <= j < peers.len() ==> (#[trigger] peers[j]).deadline is None,
        },
    decreases peers.len(),
{
    if peers.len() > 0 {
        let rest = peers.drop_last();
        law_wait_is_for_a_timer(rest, now);
        assert(peers[peers.len() - 1] == peers.last());
        match soonest(rest, now) {
            Some(w) => {
                let j = choose|j: int|
                    0 <= j < rest.len() && ((#[trigger] rest[j]).deadline matches Some(d) && w
                        == if d > now {
                        d - now
                    } else {
                        0
                    });
                assert(peers[j] == rest[j]);
            },
            None => {
                assert forall|j: int| 0 <= j < peers.len() - 1 implies (
                #[trigger] peers[j]).deadline is None by {
                    assert(peers[j] == rest[j]);
                }
            },
        }
    }
}

/// A connection is kept until it is closed or was not heard of for the whole idle
/// time.
pub proof fn law_idle_connections_go(peer: Peer, now: u64)
    ensures
        peer.closed ==> !kept(peer, now),
        !peer.closed ==> (kept(peer, now) <==> now < peer.last_seen + CONN_IDLE_TIMEOUT),
{
}

} // verus!
