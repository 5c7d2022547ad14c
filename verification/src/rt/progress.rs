//! The minimum-throughput rule.
//!
//! A per-read inactivity timeout only fires on a *fully idle* read: a peer that
//! dribbles a single byte at a time resets it on every read and so would pin a
//! worker forever. So a peer must also deliver at least [`MIN_PROGRESS`] bytes
//! within each [`IO_TIMEOUT`] window. The floor is tiny — a TLS handshake, an
//! HTTP request head, or any steady upload clears it in a single read. The
//! window restarts every time the floor is met, so the rule applies uniformly
//! to the handshake, the request head, request bodies, and subsequent keep-alive
//! requests without ever penalizing bulk transfer.
use vstd::prelude::*;

verus! {

/// Read buffer size used by the drive loops.
pub const READ_BUF: usize = 16384;

/// Per-operation inactivity timeout: thirty seconds. A read or write that makes
/// no progress within this window fails, so a peer that connects and then stalls
/// releases its worker thread instead of pinning it forever.
pub const IO_TIMEOUT: u64 = 30000000000;

/// Minimum number of bytes a peer must deliver within each [`IO_TIMEOUT`]
/// window for the connection to be considered as making real progress.
pub const MIN_PROGRESS: usize = 256;

/// Whether a connection has failed the minimum-throughput rule: it has not
/// delivered at least [`MIN_PROGRESS`] bytes within an [`IO_TIMEOUT`] window.
pub fn min_progress_exceeded(bytes: usize, elapsed: u64) -> (r: bool)
    ensures
        r == (bytes < MIN_PROGRESS && elapsed >= IO_TIMEOUT),
{
    bytes < MIN_PROGRESS && elapsed >= IO_TIMEOUT
}

/// How long ago a moment was.
pub open spec fn elapsed_since(since: u64, now: u64) -> u64 {
    if now > since {
        (now - since) as u64
    } else {
        0
    }
}

/// How much a peer has delivered in the current window.
#[derive(Debug, Clone, Copy, PartialEq, Eq, Structural)]
pub struct Window {
    /// When the window opened.
    pub since: u64,
    /// Bytes received in the window (fewer than the floor).
    pub bytes: usize,
}

/// A window once more bytes arrived: meeting the floor opens a fresh one.
pub open spec fn delivered(w: Window, n: usize, now: u64) -> Window {
    if w.bytes + n >= MIN_PROGRESS {
        Window { since: now, bytes: 0 }
    } else {
        Window { since: w.since, bytes: (w.bytes + n) as usize }
    }
}

/// Whether a window has run out below the floor.
pub open spec fn trickles(w: Window, now: u64) -> bool {
    w.bytes < MIN_PROGRESS && elapsed_since(w.since, now) >= IO_TIMEOUT
}

/// Whether nothing like the floor has arrived for longer than the timeout.
pub open spec fn idle(w: Window, now: u64) -> bool {
    elapsed_since(w.since, now) > IO_TIMEOUT
}

impl Window {
    /// A window that opens now.
    pub fn new(now: u64) -> (r: Window)
        ensures
            r == (Window { since: now, bytes: 0 }),
    {
        Window { since: now, bytes: 0 }
    }

    fn elapsed(&self, now: u64) -> (r: u64)
        ensures
            r == elapsed_since(self.since, now),
    {
        if now > self.since {
            now - self.since
        } else {
            0
        }
    }

    /// Record `n` freshly read bytes.
    pub fn note_progress(&mut self, n: usize, now: u64)
        ensures
            *final(self) == delivered(*old(self), n, now),
    {
        if n >= MIN_PROGRESS || self.bytes >= MIN_PROGRESS || self.bytes + n >= MIN_PROGRESS {
            self.since = now;
            self.bytes = 0;
        } else {
            self.bytes = self.bytes + n;
        }
    }

    /// Record `n` freshly read bytes; says whether the peer trickles and is to be
    /// dropped.
    pub fn note_and_check(&mut self, n: usize, now: u64) -> (r: bool)
        ensures
            *final(self) == delivered(*old(self), n, now),
            r == (old(self).bytes + n < MIN_PROGRESS && trickles(*final(self), now)),
    {
        let below: bool = n < MIN_PROGRESS && self.bytes < MIN_PROGRESS && self.bytes + n
            < MIN_PROGRESS;
        self.note_progress(n, now);
        below && min_progress_exceeded(self.bytes, self.elapsed(now))
    }

    /// Whether the connection has failed the minimum-throughput rule: no full
    /// window completed within [`IO_TIMEOUT`].
    pub fn is_idle(&self, now: u64) -> (r: bool)
        ensures
            r == idle(*self, now),
    {
        self.elapsed(now) > IO_TIMEOUT
    }
}

// ---------------------------------------------------------------------------
// Laws
// ---------------------------------------------------------------------------

/// A read that meets the floor by itself is never a trickle, however late it
/// comes.
pub proof fn law_bulk_transfer_is_not_penalized(w: Window, n: usize, now: u64, later: u64)
    requires
        n >= MIN_PROGRESS,
    ensures
        delivered(w, n, now) == (Window { since: now, bytes: 0 }),
        later < now + IO_TIMEOUT ==> !trickles(delivered(w, n, now), later),
{
}

/// A peer that never meets the floor is dropped once its window has run out: its
/// window does not move.
pub proof fn law_trickle_is_shed(w: Window, n: usize, now: u64)
    requires
        w.bytes + n < MIN_PROGRESS,
        now >= w.since + IO_TIMEOUT,
    ensures
        delivered(w, n, now).since == w.since,
        trickles(delivered(w, n, now), now),
{
}

/// A window asks for 256 bytes in thirty seconds, in however many pieces they come.
pub proof fn law_floor(w: Window, a: usize, b: usize, now: u64, later: u64)
    requires
        w.bytes < 256,
    ensures
        trickles(w, now) <==> now >= w.since + 30_000_000_000,
        idle(w, now) <==> now > w.since + 30_000_000_000,
        w.bytes + a + b < 256 ==> delivered(delivered(w, a, now), b, later) == (Window {
            since: w.since,
            bytes: (w.bytes + a + b) as usize,
        }),
        w.bytes + a < 256 && w.bytes + a + b >= 256 ==> delivered(delivered(w, a, now), b, later)
            == (Window { since: later, bytes: 0 }),
{
}

} // verus!
