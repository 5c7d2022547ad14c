//! Driving one connection to completion over a blocking byte stream.
//!
//! This is transport-agnostic: TLS is handled inside the [`Session`] (the
//! handshake records flow through the same read/flush cycle), so the same cycle
//! serves HTTP and HTTPS.
use crate::bytes::opt_bytes;
use crate::error::{Error, ErrorModel};
use crate::handler::Handler;
use crate::proto::conn::FileRead;
use crate::rt::progress::{delivered, trickles, Window, MIN_PROGRESS};
use crate::session::{
    drained, engine_output, engine_read, engine_wanted, read_in, wire_in, wire_out, EngineModel,
    Session, SessionModel,
};
use vstd::prelude::*;

verus! {

broadcast use vstd::seq::group_seq_axioms;

/// What to do next on a connection.
#[derive(Debug)]
pub enum Next {
    /// Write these bytes.
    Write(Vec<u8>),
    /// Read a piece of a file, and hand it to [`BlockingConn::file_read`].
    ReadFile(FileRead),
    /// Read from the socket.
    Read,
    /// Close: everything was said.
    Close,
    /// Close: the peer broke the protocol.
    Fail(Error),
}

/// The model of what to do next.
pub enum NextModel {
    Write(Seq<u8>),
    ReadFile(FileRead),
    Read,
    Close,
    Fail(ErrorModel),
}

impl View for Next {
    type V = NextModel;

    open spec fn view(&self) -> NextModel {
        match self {
            Next::Write(b) => NextModel::Write(b@),
            Next::ReadFile(q) => NextModel::ReadFile(*q),
            Next::Read => NextModel::Read,
            Next::Close => NextModel::Close,
            Next::Fail(e) => NextModel::Fail(e@),
        }
    }
}

/// One connection on a blocking stream.
pub struct BlockingConn<H: Handler> {
    session: Session<H>,
    window: Window,
    failure: Option<Error>,
}

/// The model of a connection: its session, its throughput window and the error
/// that its input came to, if any.
pub struct BlockingModel {
    pub session: SessionModel,
    pub window: Window,
    pub failure: Option<ErrorModel>,
}

impl<H: Handler> View for BlockingConn<H> {
    type V = BlockingModel;

    closed spec fn view(&self) -> BlockingModel {
        BlockingModel {
            session: self.session@,
            window: self.window,
            failure: match self.failure {
                Some(e) => Some(e@),
                None => None,
            },
        }
    }
}

/// Whether an engine wants its connection closed.
pub open spec fn engine_closed(e: Option<EngineModel>) -> bool {
    match e {
        Some(EngineModel::H1(c)) => c.closed,
        Some(EngineModel::H2(m)) => m.closed,
        None => false,
    }
}

/// What to do once everything ready was written: a file body comes first, then a
/// failure is acted on.
pub open spec fn when_flushed(m: BlockingModel) -> NextModel {
    match engine_wanted(m.session.engine) {
        Some(q) => NextModel::ReadFile(q),
        None => match m.failure {
            Some(e) => NextModel::Fail(e),
            None => if engine_closed(m.session.engine) {
                NextModel::Close
            } else {
                NextModel::Read
            },
        },
    }
}

impl<H: Handler> BlockingConn<H> {
    /// The session is in order.
    pub closed spec fn wf(&self) -> bool {
        self.session.wf()
    }

    /// Start on a session.
    pub fn new(session: Session<H>, now: u64) -> (r: BlockingConn<H>)
        requires
            session.wf(),
        ensures
            r.wf(),
            r@ == (BlockingModel {
                session: session@,
                window: Window { since: now, bytes: 0 },
                failure: None,
            }),
    {
        BlockingConn { session, window: Window::new(now), failure: None }
    }

    /// Take in bytes from the socket (or bytes that were read off it before, such
    /// as the ClientHello). Says whether to drop the connection: its peer
    /// trickles. A failure waits until queued output has been flushed: it may
    /// have produced a TLS alert, which the peer should receive rather than a
    /// bare connection reset.
    pub fn received(&mut self, data: &[u8], now: u64, unix_now: u64) -> (r: bool)
        requires
            old(self).wf(),
        ensures
            final(self).wf(),
            final(self)@.window == delivered(old(self)@.window, data@.len() as usize, now),
            r == (old(self)@.window.bytes + data@.len() < MIN_PROGRESS && trickles(
                final(self)@.window,
                now,
            )),
            ({
                ||| final(self)@.failure == old(self)@.failure && wire_in(
                    old(self)@.session,
                    data@,
                    unix_now as int,
                    true,
                    final(self)@.session,
                )
                ||| final(self)@.failure matches Some(ErrorModel::Tls(_)) && wire_in(
                    old(self)@.session,
                    data@,
                    unix_now as int,
                    false,
                    final(self)@.session,
                )
            }),
    {
        match self.session.received(data, unix_now) {
            Ok(_) => {},
            Err(e) => {
                self.failure = Some(e);
            },
        }
        self.window.note_and_check(data.len(), now)
    }

    /// What to do next: flush everything, then act on a failure, close, or read.
    pub fn next(&mut self) -> (r: Next)
        requires
            old(self).wf(),
        ensures
            final(self).wf(),
            final(self)@.window == old(self)@.window,
            r@ matches NextModel::Write(out) ==> final(self)@.failure == old(self)@.failure
                && out.len() > 0 && wire_out(
                drained(old(self)@.session),
                engine_output(old(self)@.session.engine),
                Some(out),
                final(self)@.session,
            ),
            r !is Write ==> wire_out(
                drained(old(self)@.session),
                engine_output(old(self)@.session.engine),
                Some(Seq::empty()),
                final(self)@.session,
            ) || wire_out(
                drained(old(self)@.session),
                engine_output(old(self)@.session.engine),
                None,
                final(self)@.session,
            ),
            r !is Write ==> r@ == when_flushed(
                BlockingModel { session: final(self)@.session, ..old(self)@ },
            ),
            r !is Write && r !is Fail ==> final(self)@.failure == old(self)@.failure,
    {
        if let Ok(out) = self.session.to_send() {
            if out.len() > 0 {
                return Next::Write(out);
            }
            proof {
                assert(out@ =~= Seq::empty());
            }
        }
        if let Some(q) = self.session.wanted_read() {
            return Next::ReadFile(q);
        }
        match self.failure.take() {
            Some(e) => Next::Fail(e),
            None => {
                if self.session.wants_close() {
                    Next::Close
                } else {
                    Next::Read
                }
            },
        }
    }

    /// Hand in what the file read yielded (`None` when it failed) and get the
    /// bytes to write, if any can be sent.
    pub fn file_read(&mut self, data: Option<Vec<u8>>) -> (r: Vec<u8>)
        requires
            old(self).wf(),
            engine_wanted(old(self)@.session.engine) is Some,
            data matches Some(d) ==> d@.len() <= engine_wanted(old(self)@.session.engine)->0.len,
        ensures
            final(self).wf(),
            final(self)@ == (BlockingModel { session: final(self)@.session, ..old(self)@ }),
            wire_out(
                read_in(old(self)@.session, opt_bytes(data)),
                engine_read(old(self)@.session.engine->0, opt_bytes(data)).1,
                Some(r@),
                final(self)@.session,
            ) || (r@.len() == 0 && wire_out(
                read_in(old(self)@.session, opt_bytes(data)),
                engine_read(old(self)@.session.engine->0, opt_bytes(data)).1,
                None,
                final(self)@.session,
            )),
    {
        match self.session.read_done(data) {
            Ok(out) => out,
            Err(_) => Vec::new(),
        }
    }
}

// ---------------------------------------------------------------------------
// Laws
// ---------------------------------------------------------------------------

/// A failed connection is not closed before its file body and everything ready
/// was sent, and it is never read from again.
pub proof fn law_failure_waits_for_the_flush(m: BlockingModel)
    requires
        m.failure is Some,
    ensures
        when_flushed(m) is ReadFile || when_flushed(m) is Fail,
        when_flushed(m) is Fail ==> engine_wanted(m.session.engine) is None,
{
}

} // verus!
