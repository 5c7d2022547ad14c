//! The QUIC connection that carries HTTP/3: its streams and their credit.
use crate::tls::{quic_advertised, quic_alpn, quic_chain, quic_secret, QuicLimits};
use purecrypto::quic::{QuicConfig, QuicConnection, StreamId};
use vstd::prelude::*;

verus! {

broadcast use vstd::seq::group_seq_axioms;

/// The QUIC engine of one connection.
#[verifier::external_type_specification]
#[verifier::external_body]
pub struct ExQuicConnection(purecrypto::quic::QuicConnection);

/// A QUIC connection: what it is served with, and its streams, of which there are
/// none until the peer's limits are known.
#[verifier::ext_equal]
pub struct QuicModel {
    /// The certificate chain, the secret of the key and the application protocols
    /// that it is served with.
    pub identity: (Seq<Seq<u8>>, Seq<u8>, Seq<Seq<u8>>),
    /// What the peer is let do.
    pub advertised: QuicLimits,
    /// Whether the handshake has completed.
    pub complete: bool,
    /// The streams with something to read: bytes, an end or a reset.
    pub readable: Set<u64>,
    /// Received bytes not yet read, of each stream that can be read.
    pub unread: Map<u64, Seq<u8>>,
    /// The streams of which nothing comes behind the unread bytes.
    pub ending: Set<u64>,
    /// The streams with a sending side.
    pub sending: Set<u64>,
    /// Those of them that were not reset.
    pub live: Set<u64>,
    /// How much each stream that takes bytes takes for itself.
    pub credit: Map<u64, nat>,
    /// How much all streams take together.
    pub room: nat,
    /// How many one-way streams may be opened.
    pub uni_left: nat,
    /// The id of the next one-way stream.
    pub next_uni: int,
    /// The credit that a new one-way stream has.
    pub uni_credit: nat,
    /// All that each stream was given to send.
    pub written: Map<u64, Seq<u8>>,
    /// The streams whose sending side was ended.
    pub finished: Set<u64>,
    /// The code that each stream was reset with.
    pub resets: Map<u64, u64>,
}

impl QuicModel {
    /// The received bytes of a stream that were not read.
    pub open spec fn unread_of(self, id: u64) -> Seq<u8> {
        if self.unread.contains_key(id) {
            self.unread[id]
        } else {
            Seq::empty()
        }
    }

    /// What a stream was given to send.
    pub open spec fn written_of(self, id: u64) -> Seq<u8> {
        if self.written.contains_key(id) {
            self.written[id]
        } else {
            Seq::empty()
        }
    }
}

/// A connection on which nothing has happened.
pub open spec fn untouched(q: QuicModel) -> bool {
    &&& !q.complete
    &&& q.readable == Set::<u64>::empty()
    &&& q.unread == Map::<u64, Seq<u8>>::empty()
    &&& q.ending == Set::<u64>::empty()
    &&& q.sending == Set::<u64>::empty()
    &&& q.live == Set::<u64>::empty()
    &&& q.credit == Map::<u64, nat>::empty()
    &&& q.uni_left == 0
    &&& q.written == Map::<u64, Seq<u8>>::empty()
    &&& q.finished == Set::<u64>::empty()
    &&& q.resets == Map::<u64, u64>::empty()
}

/// A one-way stream was opened.
pub open spec fn uni_opened(q: QuicModel) -> QuicModel {
    let id = q.next_uni as u64;
    QuicModel {
        uni_left: (q.uni_left - 1) as nat,
        next_uni: q.next_uni + 4,
        sending: q.sending.insert(id),
        live: q.live.insert(id),
        credit: q.credit.insert(id, q.uni_credit),
        ..q
    }
}

/// How many of `n` bytes a stream takes.
pub open spec fn accepted(q: QuicModel, id: u64, n: nat) -> nat {
    let own = if n < q.credit[id] {
        n
    } else {
        q.credit[id]
    };
    if own < q.room {
        own
    } else {
        q.room
    }
}

/// A stream took these bytes to send.
pub open spec fn wrote_on(q: QuicModel, id: u64, data: Seq<u8>) -> QuicModel {
    QuicModel {
        credit: q.credit.insert(id, (q.credit[id] - data.len()) as nat),
        room: (q.room - data.len()) as nat,
        written: q.written.insert(id, q.written_of(id) + data),
        ..q
    }
}

/// Our side of a stream was ended.
pub open spec fn finished_on(q: QuicModel, id: u64) -> QuicModel {
    QuicModel { credit: q.credit.remove(id), finished: q.finished.insert(id), ..q }
}

/// Our side of a stream was reset, if it has one.
pub open spec fn reset_on(q: QuicModel, id: u64, code: u64) -> QuicModel {
    if q.sending.contains(id) {
        QuicModel {
            credit: q.credit.remove(id),
            live: q.live.remove(id),
            resets: q.resets.insert(id, code),
            ..q
        }
    } else {
        q
    }
}

/// So many of a stream's unread bytes were read.
pub open spec fn read_on(q: QuicModel, id: u64, n: nat) -> QuicModel {
    let rest = q.unread_of(id).skip(n as int);
    QuicModel {
        unread: q.unread.insert(id, rest),
        readable: if rest.len() > 0 {
            q.readable.insert(id)
        } else {
            q.readable.remove(id)
        },
        ..q
    }
}

/// A stream that is over on both sides was forgotten.
pub open spec fn retired(q: QuicModel, id: u64) -> QuicModel {
    QuicModel {
        readable: q.readable.remove(id),
        unread: q.unread.remove(id),
        ending: q.ending.remove(id),
        sending: q.sending.remove(id),
        live: q.live.remove(id),
        ..q
    }
}

/// What a connection is served with, its streams, and what was done with them.
pub uninterp spec fn quic_state(conn: QuicConnection) -> QuicModel;

/// Whether connections can be served with a QUIC configuration.
pub uninterp spec fn quic_serves(config: QuicConfig) -> bool;

/// `QuicConnection::server`: a connection on which nothing has happened, if the
/// configuration can be served with. Which ones can is the QUIC engine's. It is
/// served with what the configuration holds, and advertises its limits.
#[verifier::external_body]
pub(crate) fn quic_server(config: QuicConfig) -> (r: core::result::Result<QuicConnection, String>)
    ensures
        r is Ok <==> quic_serves(config),
        r matches Ok(c) ==> untouched(quic_state(c)),
        r matches Ok(c) ==> quic_state(c).identity == (
            quic_chain(config),
            quic_secret(config),
            quic_alpn(config),
        ),
        r matches Ok(c) ==> quic_state(c).advertised == quic_advertised(config),
{
    QuicConnection::server(config).map_err(|e| format!("{e:?}"))
}

/// `QuicConnection::is_handshake_complete`.
#[verifier::external_body]
pub(crate) fn quic_complete(conn: &QuicConnection) -> (r: bool)
    ensures
        r == quic_state(*conn).complete,
{
    conn.is_handshake_complete()
}

/// `QuicConnection::readable_streams`: the ids of the streams with something to
/// read, by ascending id.
#[verifier::external_body]
pub(crate) fn quic_readable(conn: &QuicConnection) -> (r: Vec<u64>)
    ensures
        forall|i: int, j: int| 0 <= i < j < r@.len() ==> r@[i] < r@[j],
        forall|id: u64| #[trigger] r@.contains(id) <==> quic_state(*conn).readable.contains(id),
{
    conn.readable_streams().map(|s| s.value()).collect()
}

/// `QuicConnection::open_uni`: opens the next one-way stream, if the peer lets us
/// open one more; otherwise the state is said to be inappropriate.
#[verifier::external_body]
pub(crate) fn quic_open_uni(conn: &mut QuicConnection) -> (r: core::result::Result<u64, String>)
    ensures
        r is Ok <==> quic_state(*old(conn)).uni_left > 0,
        r matches Ok(id) ==> id == quic_state(*old(conn)).next_uni,
        r is Ok ==> quic_state(*final(conn)) == uni_opened(quic_state(*old(conn))),
        r is Err ==> quic_state(*final(conn)) == quic_state(*old(conn)),
        r matches Err(e) ==> e@ == "InappropriateState"@,
{
    conn.open_uni().map(|s| s.value()).map_err(|e| format!("{e:?}"))
}

/// `QuicConnection::write`: takes as many of the bytes, from the front, as the
/// stream's credit and the connection's let it, if the stream takes bytes.
#[verifier::external_body]
pub(crate) fn quic_write(conn: &mut QuicConnection, id: u64, data: &[u8]) -> (r: core::result::Result<
    usize,
    String,
>)
    ensures
        r is Ok <==> quic_state(*old(conn)).credit.contains_key(id),
        r matches Ok(n) ==> n == accepted(quic_state(*old(conn)), id, data@.len()),
        r matches Ok(n) ==> quic_state(*final(conn)) == wrote_on(
            quic_state(*old(conn)),
            id,
            data@.take(n as int),
        ),
        r is Err ==> quic_state(*final(conn)) == quic_state(*old(conn)),
{
    conn.write(StreamId(id), data).map_err(|e| format!("{e:?}"))
}

/// `QuicConnection::finish`: ends our side of a stream that was not reset.
#[verifier::external_body]
pub(crate) fn quic_finish(conn: &mut QuicConnection, id: u64) -> (r: core::result::Result<(), String>)
    ensures
        r is Ok <==> quic_state(*old(conn)).live.contains(id),
        r is Ok ==> quic_state(*final(conn)) == finished_on(quic_state(*old(conn)), id),
        r is Err ==> quic_state(*final(conn)) == quic_state(*old(conn)),
{
    conn.finish(StreamId(id)).map_err(|e| format!("{e:?}"))
}

/// `QuicConnection::reset`: resets our side of a stream, if it has one.
#[verifier::external_body]
pub(crate) fn quic_reset(conn: &mut QuicConnection, id: u64, code: u64) -> (r: core::result::Result<
    (),
    String,
>)
    ensures
        r is Ok <==> quic_state(*old(conn)).sending.contains(id),
        quic_state(*final(conn)) == reset_on(quic_state(*old(conn)), id, code),
{
    conn.reset(StreamId(id), code).map_err(|e| format!("{e:?}"))
}

/// `QuicConnection::read`: fills the buffer from the front with unread bytes of
/// a stream that can be read, and says whether that was the last of the stream.
/// A stream that is over on both sides may be forgotten when nothing is left to
/// read; when that is, depends on what the peer has acknowledged, and is not
/// said.
#[verifier::external_body]
pub(crate) fn quic_read(conn: &mut QuicConnection, id: u64, into: &mut Vec<u8>) -> (r:
    core::result::Result<(usize, bool), String>)
    ensures
        r is Ok <==> quic_state(*old(conn)).unread.contains_key(id),
        r matches Ok((n, fin)) ==> {
            let q = quic_state(*old(conn));
            let u = q.unread_of(id);
            &&& n == (if u.len() < old(into)@.len() {
                u.len()
            } else {
                old(into)@.len()
            })
            &&& final(into)@ == u.take(n as int) + old(into)@.skip(n as int)
            &&& fin == (q.ending.contains(id) && n == u.len())
            &&& {
                ||| quic_state(*final(conn)) == read_on(q, id, n as nat)
                ||| n == u.len() && !q.credit.contains_key(id) && quic_state(*final(conn)) == retired(
                    read_on(q, id, n as nat),
                    id,
                )
            }
        },
        r is Err ==> final(into)@ == old(into)@,
        r is Err ==> quic_state(*final(conn)) == quic_state(*old(conn)),
{
    conn.read(StreamId(id), into.as_mut_slice()).map_err(|e| format!("{e:?}"))
}

} // verus!
