//! What to do about failed accepts, and how many connections to take.
use vstd::prelude::*;

verus! {

/// Backoff applied after a descriptor-exhaustion `accept()` error: fifty
/// milliseconds.
pub const ACCEPT_BACKOFF: u64 = 50000000;

/// Minimum gap between logged accept errors: five seconds. Errors in between are
/// counted and reported as a suppressed total on the next emitted line.
pub const ACCEPT_LOG_EVERY: u64 = 5000000000;

/// Maximum redirect connections served concurrently; excess is shed.
pub const MAX_INFLIGHT: usize = 256;

/// Whether an accept error says that descriptors have run out (`EMFILE` or
/// `ENFILE`). The listening socket then stays readable, so the caller should wait
/// for [`ACCEPT_BACKOFF`] before it retries, giving in-flight connections time to
/// release descriptors.
pub fn exhausted(os_error: Option<i32>) -> (r: bool)
    ensures
        r == (os_error == Some(24i32) || os_error == Some(23i32)),
{
    match os_error {
        Some(e) => e == 24 || e == 23,
        None => false,
    }
}

/// Coalesces logged accept errors to at most one line per [`ACCEPT_LOG_EVERY`],
/// so that a sustained failure can never flood the log.
#[derive(Debug)]
pub struct AcceptLog {
    state: Option<(u64, u64)>,
}

/// What a log throttle remembers: when it last let a line through, and how many
/// it has suppressed since.
pub open spec fn noted(state: Option<(u64, u64)>, now: u64) -> (Option<(u64, u64)>, Option<u64>) {
    match state {
        Some((last, suppressed)) => if now < last || now - last < ACCEPT_LOG_EVERY {
            (
                Some(
                    (
                        last,
                        if suppressed < u64::MAX {
                            (suppressed + 1) as u64
                        } else {
                            suppressed
                        },
                    ),
                ),
                None,
            )
        } else {
            (Some((now, 0)), Some(suppressed))
        },
        None => (Some((now, 0)), Some(0)),
    }
}

impl View for AcceptLog {
    type V = Option<(u64, u64)>;

    closed spec fn view(&self) -> Option<(u64, u64)> {
        self.state
    }
}

impl AcceptLog {
    /// A throttle that has let nothing through yet.
    pub fn new() -> (r: AcceptLog)
        ensures
            r@ is None,
    {
        AcceptLog { state: None }
    }

    /// Note an error at `now`: the number of errors suppressed before it if it is
    /// to be logged, nothing if it is to be suppressed.
    pub fn note(&mut self, now: u64) -> (r: Option<u64>)
        ensures
            (final(self)@, r) == noted(old(self)@, now),
    {
        match self.state {
            Some((last, suppressed)) => {
                if now < last || now - last < ACCEPT_LOG_EVERY {
                    let n: u64 = if suppressed < u64::MAX {
                        suppressed + 1
                    } else {
                        suppressed
                    };
                    self.state = Some((last, n));
                    None
                } else {
                    self.state = Some((now, 0));
                    Some(suppressed)
                }
            },
            None => {
                self.state = Some((now, 0));
                Some(0)
            },
        }
    }
}

/// How many accepted-but-unserved connections may queue for so many workers.
/// Each queued stream holds an open descriptor, so the queue is bounded; the cap
/// is generous, so it stays well clear of normal concurrency.
pub fn backlog(workers: usize) -> (r: usize)
    ensures
        r == if workers * 64 < 256 {
            256
        } else if workers * 64 > 4096 {
            4096
        } else {
            workers * 64
        },
{
    if workers < 4 {
        256
    } else if workers > 64 {
        4096
    } else {
        workers * 64
    }
}

/// Whether one more connection may be served beside those in flight.
pub fn has_room(in_flight: usize) -> (r: bool)
    ensures
        r == (in_flight < MAX_INFLIGHT),
{
    in_flight < MAX_INFLIGHT
}

/// What came of binding an address.
#[derive(Debug, Clone, Copy, PartialEq, Eq, Structural)]
pub enum BindStep {
    /// Try the address with this index.
    Try(usize),
    /// No address is left, and the last one failed.
    Failed,
    /// There is no address at all.
    NoAddress,
}

/// The next address to bind after the first `tried` of `count` failed: each is
/// tried in order until one succeeds.
pub fn next_bind(count: usize, tried: usize) -> (r: BindStep)
    ensures
        r == if tried < count {
            BindStep::Try(tried)
        } else if count == 0 {
            BindStep::NoAddress
        } else {
            BindStep::Failed
        },
{
    if tried < count {
        BindStep::Try(tried)
    } else if count == 0 {
        BindStep::NoAddress
    } else {
        BindStep::Failed
    }
}

/// At most one line per interval: two lines that are let through are that far
/// apart.
pub proof fn law_log_lines_keep_their_distance(state: Option<(u64, u64)>, a: u64, b: u64)
    requires
        noted(state, a).1 is Some,
        noted(noted(state, a).0, b).1 is Some,
    ensures
        b >= a + ACCEPT_LOG_EVERY,
{
}

/// What a throttle remembers after errors at these moments.
pub open spec fn noted_all(state: Option<(u64, u64)>, times: Seq<u64>) -> Option<(u64, u64)>
    decreases times.len(),
{
    if times.len() == 0 {
        state
    } else {
        noted(noted_all(state, times.drop_last()), times.last()).0
    }
}

/// Errors that come too soon are kept back and counted: the next line that is let
/// through says how many there were.
pub proof fn law_suppressed_errors_are_counted(first: u64, times: Seq<u64>, next: u64)
    requires
        first + ACCEPT_LOG_EVERY <= next,
        times.len() < u64::MAX,
        forall|i: int|
            0 <= i < times.len() ==> first <= #[trigger] times[i] < first + ACCEPT_LOG_EVERY,
    ensures
        noted(None, first).1 == Some(0u64),
        noted_all(noted(None, first).0, times) == Some((first, times.len() as u64)),
        noted(noted_all(noted(None, first).0, times), next).1 == Some(times.len() as u64),
    decreases times.len(),
{
    if times.len() > 0 {
        let rest = times.drop_last();
        assert forall|i: int| 0 <= i < rest.len() implies first <= #[trigger] rest[i] < first
            + ACCEPT_LOG_EVERY by {
            assert(rest[i] == times[i]);
        }
        assert(times[times.len() - 1] == times.last());
        law_suppressed_errors_are_counted(first, rest, next);
    }
}

} // verus!
