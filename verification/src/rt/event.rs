//! One connection of a readiness event loop.
//!
//! Each connection keeps a sans-I/O [`Session`] plus a small outbound buffer for
//! bytes that couldn't be written immediately; the loop tracks writability only
//! while that buffer is non-empty.
use crate::bytes::{opt_bytes, push_all, tail};
use crate::error::{Error, Result};
use crate::handler::Handler;
use crate::proto::conn::FileRead;
use crate::rt::blocking::engine_closed;
use crate::rt::progress::{delivered, idle, Window};
use crate::session::{
    drained, engine_output, engine_read, engine_wanted, outputs, read_in, wire_in, wire_out,
    Session, SessionModel,
};
use vstd::prelude::*;

verus! {

broadcast use vstd::seq::group_seq_axioms;

/// Ceiling on simultaneous connections. The connection map would grow
/// unbounded otherwise, letting a flood exhaust memory and file descriptors.
/// Accepts past the cap are shed (accepted then dropped so the kernel backlog
/// keeps draining).
pub const MAX_CONNS: usize = 8192;

/// How often the idle sweep runs: every second.
pub const SWEEP_INTERVAL: u64 = 1000000000;

/// Whether a freshly accepted connection is to be shed.
pub fn sheds(conns: usize) -> (r: bool)
    ensures
        r == (conns >= MAX_CONNS),
{
    conns >= MAX_CONNS
}

/// Whether the idle sweep is due, and when it is due next.
pub fn sweep(next_sweep: u64, now: u64) -> (r: (bool, u64))
    ensures
        r == if now >= next_sweep {
            (
                true,
                if now + SWEEP_INTERVAL <= u64::MAX {
                    (now + SWEEP_INTERVAL) as u64
                } else {
                    u64::MAX
                },
            )
        } else {
            (false, next_sweep)
        },
{
    if now >= next_sweep {
        let next: u64 = if now <= u64::MAX - SWEEP_INTERVAL {
            now + SWEEP_INTERVAL
        } else {
            u64::MAX
        };
        (true, next)
    } else {
        (false, next_sweep)
    }
}

// ---------------------------------------------------------------------------
// Outbound bytes
// ---------------------------------------------------------------------------

/// Bytes on their way to a socket that takes them piece by piece.
#[derive(Debug)]
pub struct Outbox {
    buf: Vec<u8>,
    pos: usize,
}

impl View for Outbox {
    type V = Seq<u8>;

    closed spec fn view(&self) -> Seq<u8> {
        self.buf@.skip(self.pos as int)
    }
}

impl Outbox {
    /// What was written is no more than there is.
    pub closed spec fn wf(&self) -> bool {
        self.pos <= self.buf@.len()
    }

    /// Nothing to write.
    pub fn new() -> (r: Outbox)
        ensures
            r.wf(),
            r@ == Seq::<u8>::empty(),
    {
        let r = Outbox { buf: Vec::new(), pos: 0 };
        proof {
            assert(r@ =~= Seq::empty());
        }
        r
    }

    /// Whether anything is left to write.
    pub fn pending_out(&self) -> (r: bool)
        requires
            self.wf(),
        ensures
            r == (self@.len() > 0),
    {
        self.pos < self.buf.len()
    }

    /// What is left to write.
    pub fn pending(&self) -> (r: &[u8])
        requires
            self.wf(),
        ensures
            r@ == self@,
    {
        tail(self.buf.as_slice(), self.pos)
    }

    /// Queue freshly produced bytes.
    pub fn enqueue(&mut self, bytes: Vec<u8>)
        requires
            old(self).wf(),
        ensures
            final(self).wf(),
            final(self)@ == old(self)@ + bytes@,
    {
        if self.pending_out() {
            push_all(&mut self.buf, bytes.as_slice());
        } else {
            self.buf = bytes;
            self.pos = 0;
        }
        proof {
            assert(self@ =~= old(self)@ + bytes@);
        }
    }

    /// The socket took the first `n` bytes.
    pub fn wrote(&mut self, n: usize)
        requires
            old(self).wf(),
            n <= old(self)@.len(),
        ensures
            final(self).wf(),
            final(self)@ == old(self)@.skip(n as int),
    {
        let len: usize = self.buf.len();
        self.pos = self.pos + n;
        if self.pos == len {
            self.buf = Vec::new();
            self.pos = 0;
        }
        proof {
            assert(self@ =~= old(self)@.skip(n as int));
        }
    }
}

// ---------------------------------------------------------------------------
// Connections
// ---------------------------------------------------------------------------

/// What came of a read.
#[derive(Debug)]
pub enum ReadEvent {
    Data(Vec<u8>),
    /// The peer closed its side.
    Closed,
    WouldBlock,
    Interrupted,
}

/// What came of a write.
#[derive(Debug, Clone, Copy, PartialEq, Eq, Structural)]
pub enum WriteEvent {
    Wrote(usize),
    WouldBlock,
    Interrupted,
}

/// What to do next to send.
#[derive(Debug)]
pub enum SendStep {
    /// Write what is [pending](EventConn::pending).
    Write,
    /// Read a piece of a file, and hand it to [`EventConn::file_read`].
    ReadFile(FileRead),
    /// There is nothing more to send.
    Rest,
}

/// One connection of a readiness event loop.
pub struct EventConn<H: Handler> {
    session: Session<H>,
    out: Outbox,
    read_closed: bool,
    window: Window,
}

/// The model of a connection.
pub struct EventModel {
    pub session: SessionModel,
    /// Bytes on their way to the socket.
    pub out: Seq<u8>,
    pub read_closed: bool,
    pub window: Window,
}

impl<H: Handler> View for EventConn<H> {
    type V = EventModel;

    closed spec fn view(&self) -> EventModel {
        EventModel {
            session: self.session@,
            out: self.out@,
            read_closed: self.read_closed,
            window: self.window,
        }
    }
}

impl<H: Handler> EventConn<H> {
    /// The session and the outbound buffer are in order.
    pub closed spec fn wf(&self) -> bool {
        self.session.wf() && self.out.wf()
    }

    /// Start on a session.
    pub fn new(session: Session<H>, now: u64) -> (r: EventConn<H>)
        requires
            session.wf(),
        ensures
            r.wf(),
            r@ == (EventModel {
                session: session@,
                out: Seq::empty(),
                read_closed: false,
                window: Window { since: now, bytes: 0 },
            }),
    {
        EventConn { session, out: Outbox::new(), read_closed: false, window: Window::new(now) }
    }

    /// Whether readability is of interest still.
    pub fn reads(&self) -> (r: bool)
        ensures
            r == !self@.read_closed,
    {
        !self.read_closed
    }

    /// Whether the loop should wait for the socket to become writable, besides
    /// readable.
    pub fn wants_write(&self) -> (r: bool)
        requires
            self.wf(),
        ensures
            r == (self@.out.len() > 0),
    {
        self.out.pending_out()
    }

    /// Whether the connection is finished and can be dropped.
    pub fn is_done(&self) -> (r: bool)
        requires
            self.wf(),
        ensures
            r == (self@.out.len() == 0 && (engine_closed(self@.session.engine) || self@.read_closed)),
    {
        !self.out.pending_out() && (self.session.wants_close() || self.read_closed)
    }

    /// Whether the connection is idle or slow-trickling and is to be evicted.
    pub fn is_idle(&self, now: u64) -> (r: bool)
        ensures
            r == idle(self@.window, now),
    {
        self.window.is_idle(now)
    }

    /// Take in what a read brought; says whether to read again.
    pub fn on_read(&mut self, read: ReadEvent, now: u64, unix_now: u64) -> (r: Result<bool>)
        requires
            old(self).wf(),
        ensures
            final(self).wf(),
            final(self)@.out == old(self)@.out,
            match read {
                ReadEvent::Data(d) => {
                    &&& r matches Ok(again) ==> again
                    &&& final(self)@.window == delivered(old(self)@.window, d@.len() as usize, now)
                    &&& final(self)@.read_closed == old(self)@.read_closed
                    &&& wire_in(
                        old(self)@.session,
                        d@,
                        unix_now as int,
                        r is Ok,
                        final(self)@.session,
                    )
                    &&& r matches Err(e) ==> e@ is Tls
                },
                ReadEvent::Closed => r == Ok::<bool, Error>(false) && final(self)@ == (EventModel {
                    read_closed: true,
                    ..old(self)@
                }),
                ReadEvent::WouldBlock => r == Ok::<bool, Error>(false) && final(self)@ == old(self)@,
                ReadEvent::Interrupted => r == Ok::<bool, Error>(true) && final(self)@ == old(
                    self,
                )@,
            },
    {
        match read {
            ReadEvent::Data(d) => {
                self.window.note_progress(d.len(), now);
                match self.session.received(d.as_slice(), unix_now) {
                    Ok(_) => Ok(true),
                    Err(e) => Err(e),
                }
            },
            ReadEvent::Closed => {
                self.read_closed = true;
                Ok(false)
            },
            ReadEvent::WouldBlock => Ok(false),
            ReadEvent::Interrupted => Ok(true),
        }
    }

    /// Queue whatever the session has ready (handshake records or response
    /// bytes), once a round of reads is over.
    pub fn after_reads(&mut self) -> (r: Result<()>)
        requires
            old(self).wf(),
        ensures
            final(self).wf(),
            final(self)@.read_closed == old(self)@.read_closed,
            final(self)@.window == old(self)@.window,
            old(self)@.out.is_prefix_of(final(self)@.out),
            wire_out(
                drained(old(self)@.session),
                engine_output(old(self)@.session.engine),
                if r is Ok {
                    Some(final(self)@.out.skip(old(self)@.out.len() as int))
                } else {
                    None
                },
                final(self)@.session,
            ),
            r matches Err(e) ==> e@ is Tls && final(self)@.out == old(self)@.out,
    {
        match self.session.to_send() {
            Ok(out) => {
                let ghost o = out@;
                self.out.enqueue(out);
                proof {
                    assert(self@.out.skip(old(self)@.out.len() as int) =~= o);
                }
                Ok(())
            },
            Err(e) => Err(e),
        }
    }

    /// What to do next to send: drain the outbound buffer and, as the socket
    /// accepts more, pull the next piece — so a file body is streamed without
    /// buffering it whole and without stalling when the socket back-pressures.
    pub fn send_step(&mut self) -> (r: Result<SendStep>)
        requires
            old(self).wf(),
        ensures
            final(self).wf(),
            final(self)@.read_closed == old(self)@.read_closed,
            final(self)@.window == old(self)@.window,
            old(self)@.out.len() > 0 ==> (r matches Ok(SendStep::Write)) && final(self)@ == old(
                self,
            )@,
            old(self)@.out.len() == 0 && !outputs(old(self)@.session.engine) ==> (r matches Ok(
                SendStep::Rest,
            )) && final(self)@ == old(self)@,
            old(self)@.out.len() == 0 && outputs(old(self)@.session.engine) ==> wire_out(
                drained(old(self)@.session),
                engine_output(old(self)@.session.engine),
                if r is Ok {
                    Some(final(self)@.out)
                } else {
                    None
                },
                final(self)@.session,
            ) && match r {
                Ok(SendStep::Write) => final(self)@.out.len() > 0,
                Ok(SendStep::ReadFile(q)) => final(self)@.out.len() == 0 && engine_wanted(
                    final(self)@.session.engine,
                ) == Some(q),
                Ok(SendStep::Rest) => final(self)@.out.len() == 0 && engine_wanted(
                    final(self)@.session.engine,
                ) is None,
                Err(e) => e@ is Tls && final(self)@.out == old(self)@.out,
            },
    {
        if self.out.pending_out() {
            return Ok(SendStep::Write);
        }
        if !self.session.has_output() {
            return Ok(SendStep::Rest);
        }
        let out = match self.session.to_send() {
            Ok(out) => out,
            Err(e) => {
                return Err(e);
            },
        };
        if out.len() > 0 {
            self.out.enqueue(out);
            proof {
                assert(Seq::<u8>::empty() + out@ =~= out@);
                assert(old(self)@.out =~= Seq::empty());
            }
            return Ok(SendStep::Write);
        }
        proof {
            assert(out@ =~= Seq::empty());
            assert(old(self)@.out =~= Seq::empty());
        }
        match self.session.wanted_read() {
            Some(q) => Ok(SendStep::ReadFile(q)),
            None => Ok(SendStep::Rest),
        }
    }

    /// What is to be written.
    pub fn pending(&self) -> (r: &[u8])
        requires
            self.wf(),
        ensures
            r@ == self@.out,
    {
        self.out.pending()
    }

    /// Take note of what came of a write; says whether to go on. A write that
    /// blocks or takes nothing leaves the rest for when the socket is writable.
    pub fn on_write(&mut self, write: WriteEvent) -> (r: bool)
        requires
            old(self).wf(),
            write matches WriteEvent::Wrote(n) ==> n <= old(self)@.out.len(),
        ensures
            final(self).wf(),
            final(self)@ == match write {
                WriteEvent::Wrote(n) => EventModel {
                    out: old(self)@.out.skip(n as int),
                    ..old(self)@
                },
                _ => old(self)@,
            },
            r == match write {
                WriteEvent::Wrote(n) => n > 0,
                WriteEvent::WouldBlock => false,
                WriteEvent::Interrupted => true,
            },
    {
        match write {
            WriteEvent::Wrote(n) => {
                self.out.wrote(n);
                n > 0
            },
            WriteEvent::WouldBlock => false,
            WriteEvent::Interrupted => true,
        }
    }

    /// Hand in what the file read yielded (`None` when it failed).
    pub fn file_read(&mut self, data: Option<Vec<u8>>) -> (r: Result<()>)
        requires
            old(self).wf(),
            engine_wanted(old(self)@.session.engine) is Some,
            data matches Some(d) ==> d@.len() <= engine_wanted(old(self)@.session.engine)->0.len,
        ensures
            final(self).wf(),
            final(self)@.read_closed == old(self)@.read_closed,
            final(self)@.window == old(self)@.window,
            old(self)@.out.is_prefix_of(final(self)@.out),
            wire_out(
                read_in(old(self)@.session, opt_bytes(data)),
                engine_read(old(self)@.session.engine->0, opt_bytes(data)).1,
                if r is Ok {
                    Some(final(self)@.out.skip(old(self)@.out.len() as int))
                } else {
                    None
                },
                final(self)@.session,
            ),
            r matches Err(e) ==> e@ is Tls && final(self)@.out == old(self)@.out,
    {
        match self.session.read_done(data) {
            Ok(out) => {
                let ghost o = out@;
                self.out.enqueue(out);
                proof {
                    assert(self@.out.skip(old(self)@.out.len() as int) =~= o);
                }
                Ok(())
            },
            Err(e) => Err(e),
        }
    }
}

} // verus!
