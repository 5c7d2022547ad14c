//! The chunked transfer coding of request bodies, decoded incrementally.
use crate::bytes::{
    bytes_eq, copy_of, find, find_subslice, head, lemma_find, lemma_find_is, lemma_find_none,
    lemma_find_prefix, lemma_find_take, occurs_at, push_all, tail,
};
use crate::proto::status::StatusCode;
use crate::text::{
    all_digits, chars_digits, chars_of, chars_trim, digit_char, digit_val, digits_value,
    hexadecimal, parse_digits, string_from_utf8, trim, trim_end, trim_start,
};
use vstd::prelude::*;
use vstd::utf8::{decode_utf8, encode_utf8, is_ascii_chars, valid_utf8};

verus! {

broadcast use vstd::seq::group_seq_axioms;

/// Maximum length of a single chunk-size line (size + extensions), in bytes.
pub const MAX_CHUNK_LINE_BYTES: usize = 16384;

/// Maximum size of the trailer section after the terminating zero-length chunk.
pub const MAX_TRAILER_BYTES: usize = 8192;

// ---------------------------------------------------------------------------
// The coding
// ---------------------------------------------------------------------------

/// What a (possibly still incomplete) chunked body amounts to.
pub enum ChunkOutcome {
    /// More bytes are needed.
    Need,
    /// The body is malformed or too large; answered with this status.
    Bad(StatusCode),
    /// The body is complete: it occupies `used` bytes and decodes to `body`.
    Done { used: nat, body: Seq<u8> },
}

/// Carriage return, line feed.
pub open spec fn crlf() -> Seq<u8> {
    seq![13u8, 10u8]
}

pub open spec fn bad_request() -> StatusCode {
    StatusCode { code: 400, reason: "Bad Request" }
}

pub open spec fn payload_too_large() -> StatusCode {
    StatusCode { code: 413, reason: "Content Too Large" }
}

/// What precedes the first semicolon of a chunk-size line.
pub open spec fn size_field(line: Seq<u8>) -> Seq<u8> {
    match find(line, seq![59u8]) {
        Some(i) => line.take(i),
        None => line,
    }
}

/// The size that a chunk-size line announces: the hexadecimal number before any
/// chunk extension, surrounding whitespace aside.
pub open spec fn line_size(line: Seq<u8>) -> Option<nat> {
    if valid_utf8(size_field(line)) {
        parse_digits(trim(decode_utf8(size_field(line))), 16, usize::MAX as nat)
    } else {
        None
    }
}

/// An outcome shifted by `n` consumed bytes that decoded to `b`.
pub open spec fn after(n: nat, b: Seq<u8>, o: ChunkOutcome) -> ChunkOutcome {
    match o {
        ChunkOutcome::Done { used, body } => ChunkOutcome::Done { used: n + used, body: b + body },
        other => other,
    }
}

/// At a chunk-size line, with `have` body bytes decoded so far.
pub open spec fn at_size(rest: Seq<u8>, have: nat, max: nat) -> ChunkOutcome
    decreases rest.len(), 0nat,
{
    proof {
        lemma_find(rest, crlf());
    }
    match find(rest, crlf()) {
        None => if rest.len() > MAX_CHUNK_LINE_BYTES {
            ChunkOutcome::Bad(bad_request())
        } else {
            ChunkOutcome::Need
        },
        Some(eol) => if eol > MAX_CHUNK_LINE_BYTES {
            ChunkOutcome::Bad(bad_request())
        } else {
            match line_size(rest.take(eol)) {
                None => ChunkOutcome::Bad(bad_request()),
                Some(size) => {
                    let next = rest.skip(eol + 2);
                    if size > max {
                        ChunkOutcome::Bad(payload_too_large())
                    } else if size == 0 {
                        after((eol + 2) as nat, Seq::empty(), at_trailer(next, 0))
                    } else if have + size > max {
                        ChunkOutcome::Bad(payload_too_large())
                    } else {
                        after((eol + 2) as nat, Seq::empty(), at_data(next, size, have, max))
                    }
                },
            }
        },
    }
}

/// Inside a chunk's data, with `remaining` bytes of it to come.
pub open spec fn at_data(rest: Seq<u8>, remaining: nat, have: nat, max: nat) -> ChunkOutcome
    decreases rest.len(), 1nat,
{
    if rest.len() < remaining {
        ChunkOutcome::Need
    } else {
        after(
            remaining,
            rest.take(remaining as int),
            at_data_end(rest.skip(remaining as int), have + remaining, max),
        )
    }
}

/// At the line end that closes a chunk's data.
pub open spec fn at_data_end(rest: Seq<u8>, have: nat, max: nat) -> ChunkOutcome
    decreases rest.len(), 0nat,
{
    if rest.len() < 2 {
        ChunkOutcome::Need
    } else if rest.take(2) != crlf() {
        ChunkOutcome::Bad(bad_request())
    } else {
        after(2, Seq::empty(), at_size(rest.skip(2), have, max))
    }
}

/// In the trailer section, `seen` bytes past its start: lines up to and
/// including an empty one.
pub open spec fn at_trailer(rest: Seq<u8>, seen: nat) -> ChunkOutcome
    decreases rest.len(), 0nat,
{
    proof {
        lemma_find(rest, crlf());
    }
    if seen > MAX_TRAILER_BYTES {
        ChunkOutcome::Bad(bad_request())
    } else {
        match find(rest, crlf()) {
            None => if seen + rest.len() > MAX_TRAILER_BYTES {
                ChunkOutcome::Bad(bad_request())
            } else {
                ChunkOutcome::Need
            },
            Some(eol) => if eol == 0 {
                ChunkOutcome::Done { used: 2, body: Seq::empty() }
            } else {
                after(
                    (eol + 2) as nat,
                    Seq::empty(),
                    at_trailer(rest.skip(eol + 2), (seen + eol + 2) as nat),
                )
            },
        }
    }
}

/// What a chunked body region amounts to, with bodies limited to `max` bytes.
pub open spec fn decode_chunked(data: Seq<u8>, max: nat) -> ChunkOutcome {
    at_size(data, 0, max)
}

// ---------------------------------------------------------------------------
// The incremental decoder
// ---------------------------------------------------------------------------

/// The position within the chunked grammar that a decoder resumes at.
#[derive(Debug, Clone, Copy, PartialEq, Eq, Structural)]
pub enum ChunkState {
    /// Awaiting (the rest of) a chunk-size line.
    Size,
    /// In a chunk's data: `remaining` data bytes still to copy.
    Data { remaining: usize },
    /// Awaiting the CRLF that terminates a chunk's data.
    DataCrlf,
    /// In the trailer section that began at body offset `start`.
    Trailer { start: usize },
}

/// Incremental decoder for a chunked request body.
///
/// It keeps its progress across calls to [`ChunkDecoder::advance`], so each call
/// only processes newly-arrived bytes.
#[derive(Debug)]
pub struct ChunkDecoder {
    /// Bytes of the body region already consumed (parse cursor).
    pub pos: usize,
    /// Decoded body accumulated so far.
    pub out: Vec<u8>,
    /// What part of a chunk we are currently in.
    pub state: ChunkState,
}

/// What is to come, seen from a decoder position.
pub open spec fn resumed(
    state: ChunkState,
    pos: nat,
    rest: Seq<u8>,
    have: nat,
    max: nat,
) -> ChunkOutcome {
    match state {
        ChunkState::Size => at_size(rest, have, max),
        ChunkState::Data { remaining } => at_data(rest, remaining as nat, have, max),
        ChunkState::DataCrlf => at_data_end(rest, have, max),
        ChunkState::Trailer { start } => at_trailer(rest, (pos - start) as nat),
    }
}

impl ChunkDecoder {
    /// What the decoder makes of `data` when it goes on from where it stands.
    pub open spec fn outcome_on(self, data: Seq<u8>, max: nat) -> ChunkOutcome {
        after(
            self.pos as nat,
            self.out@,
            resumed(self.state, self.pos as nat, data.skip(self.pos as int), self.out@.len(), max),
        )
    }

    /// The decoder has kept pace with `data`: going on from where it stands
    /// gives what decoding from the start gives, whatever else arrives.
    pub open spec fn follows(self, data: Seq<u8>, max: nat) -> bool {
        &&& self.pos <= data.len()
        &&& self.state matches ChunkState::Data { remaining } ==> remaining > 0
        &&& self.state matches ChunkState::Trailer { start } ==> start <= self.pos
        &&& forall|ext: Seq<u8>|
            self.outcome_on(#[trigger] (data + ext), max) == decode_chunked(data + ext, max)
    }

    /// A decoder at the start of a body.
    pub fn new() -> (r: ChunkDecoder)
        ensures
            forall|data: Seq<u8>, max: nat| #[trigger] r.follows(data, max),
            r.pos == 0,
            r.out@.len() == 0,
            r.state == ChunkState::Size,
    {
        let r = ChunkDecoder { pos: 0, out: Vec::new(), state: ChunkState::Size };
        proof {
            assert forall|data: Seq<u8>, max: nat| #[trigger] r.follows(data, max) by {
                assert forall|ext: Seq<u8>|
                    r.outcome_on(#[trigger] (data + ext), max) == decode_chunked(data + ext, max) by {
                    let d = data + ext;
                    assert(d.skip(0) =~= d);
                    lemma_after_nothing(at_size(d, 0, max));
                    assert(r.out@ =~= Seq::empty());
                }
            }
        }
        r
    }

    /// Advance the decode over `data` (the full body region as buffered so far).
    ///
    /// Returns `Ok(Some(consumed))` once the terminating zero-length chunk and
    /// its trailer section have arrived (`consumed` is the number of body-region
    /// bytes the body occupies, and `out` holds the decoded body), `Ok(None)` if
    /// more bytes are needed, or `Err(status)` on a malformed or oversized body.
    pub fn advance(&mut self, data: &[u8], max_body: usize) -> (r: std::result::Result<
        Option<usize>,
        StatusCode,
    >)
        requires
            old(self).follows(data@, max_body as nat),
        ensures
            match r {
                Ok(Some(used)) => used <= data@.len() && decode_chunked(data@, max_body as nat) == (
                ChunkOutcome::Done { used: used as nat, body: final(self).out@ }),
                Ok(None) => decode_chunked(data@, max_body as nat) == ChunkOutcome::Need
                    && final(self).follows(data@, max_body as nat),
                Err(status) => decode_chunked(data@, max_body as nat) == ChunkOutcome::Bad(status),
            },
    {
        let ghost max = max_body as nat;
        loop
            invariant
                self.follows(data@, max),
                max == max_body as nat,
            decreases data@.len() - self.pos,
        {
            let ghost rest = data@.skip(self.pos as int);
            let ghost have = self.out@.len();
            proof {
                self.lemma_now(data@, max);
                lemma_find(rest, crlf());
            }
            let n: usize = data.len();
            let here = tail(data, self.pos);
            let nl: [u8; 2] = [13, 10];
            proof {
                assert(nl@ =~= crlf());
            }
            match self.state {
                ChunkState::Size => {
                    let eol: usize = match find_subslice(here, &nl) {
                        Some(eol) => eol,
                        None => {
                            if n - self.pos > MAX_CHUNK_LINE_BYTES {
                                return Err(StatusCode::bad_request());
                            }
                            return Ok(None);
                        },
                    };
                    if eol > MAX_CHUNK_LINE_BYTES {
                        return Err(StatusCode::bad_request());
                    }
                    let size: usize = match read_line_size(head(here, eol)) {
                        Some(size) => size,
                        None => {
                            return Err(StatusCode::bad_request());
                        },
                    };
                    if size > max_body {
                        return Err(StatusCode::payload_too_large());
                    }
                    let after_size: usize = self.pos + eol + 2;
                    if size == 0 {
                        let ghost before = *self;
                        self.pos = after_size;
                        self.state = ChunkState::Trailer { start: after_size };
                        proof {
                            lemma_step(before, *self, data@, max, (eol + 2) as nat, Seq::empty());
                        }
                    } else {
                        if self.out.len() > max_body || size > max_body - self.out.len() {
                            return Err(StatusCode::payload_too_large());
                        }
                        let ghost before = *self;
                        self.pos = after_size;
                        self.state = ChunkState::Data { remaining: size };
                        proof {
                            lemma_step(before, *self, data@, max, (eol + 2) as nat, Seq::empty());
                        }
                    }
                },
                ChunkState::Data { remaining } => {
                    let avail: usize = n - self.pos;
                    let take: usize = if remaining < avail {
                        remaining
                    } else {
                        avail
                    };
                    let ghost before = *self;
                    let piece = head(here, take);
                    push_all(&mut self.out, piece);
                    self.pos = self.pos + take;
                    let left: usize = remaining - take;
                    if left > 0 {
                        self.state = ChunkState::Data { remaining: left };
                        proof {
                            lemma_step(before, *self, data@, max, take as nat, piece@);
                        }
                        return Ok(None);
                    }
                    self.state = ChunkState::DataCrlf;
                    proof {
                        lemma_step(before, *self, data@, max, take as nat, piece@);
                    }
                },
                ChunkState::DataCrlf => {
                    if n - self.pos < 2 {
                        return Ok(None);
                    }
                    if !bytes_eq(head(here, 2), &nl) {
                        return Err(StatusCode::bad_request());
                    }
                    let ghost before = *self;
                    self.pos = self.pos + 2;
                    self.state = ChunkState::Size;
                    proof {
                        lemma_step(before, *self, data@, max, 2, Seq::empty());
                    }
                },
                ChunkState::Trailer { start } => {
                    if self.pos - start > MAX_TRAILER_BYTES {
                        return Err(StatusCode::bad_request());
                    }
                    match find_subslice(here, &nl) {
                        None => {
                            if n - start > MAX_TRAILER_BYTES {
                                return Err(StatusCode::bad_request());
                            }
                            return Ok(None);
                        },
                        Some(eol) => {
                            if eol == 0 {
                                proof {
                                    assert(self.out@ + Seq::<u8>::empty() =~= self.out@);
                                }
                                return Ok(Some(self.pos + 2));
                            }
                            let ghost before = *self;
                            self.pos = self.pos + eol + 2;
                            proof {
                                lemma_step(before, *self, data@, max, (eol + 2) as nat, Seq::empty());
                            }
                        },
                    }
                },
            }
        }
    }

    proof fn lemma_now(self, data: Seq<u8>, max: nat)
        requires
            self.follows(data, max),
        ensures
            self.outcome_on(data, max) == decode_chunked(data, max),
    {
        assert(data + Seq::<u8>::empty() =~= data);
        assert(self.outcome_on(data + Seq::<u8>::empty(), max) == decode_chunked(
            data + Seq::<u8>::empty(),
            max,
        ));
    }

    /// A decoder that has kept pace goes on doing so when bytes arrive.
    pub proof fn lemma_follows_more(self, data: Seq<u8>, more: Seq<u8>, max: nat)
        requires
            self.follows(data, max),
        ensures
            self.follows(data + more, max),
    {
        assert forall|ext: Seq<u8>|
            self.outcome_on(#[trigger] ((data + more) + ext), max) == decode_chunked(
                (data + more) + ext,
                max,
            ) by {
            assert((data + more) + ext =~= data + (more + ext));
            assert(self.outcome_on(data + (more + ext), max) == decode_chunked(
                data + (more + ext),
                max,
            ));
        }
    }
}

/// The size that a chunk-size line announces.
fn read_line_size(line: &[u8]) -> (r: Option<usize>)
    ensures
        match (r, line_size(line@)) {
            (Some(a), Some(b)) => a == b,
            (None, None) => true,
            _ => false,
        },
{
    let semi: [u8; 1] = [59];
    proof {
        assert(semi@ =~= seq![59u8]);
    }
    let hex: &[u8] = match find_subslice(line, &semi) {
        Some(i) => head(line, i),
        None => line,
    };
    match string_from_utf8(copy_of(hex)) {
        None => None,
        Some(text) => {
            let c = chars_of(text.as_str());
            let t = chars_trim(&c);
            match chars_digits(t, 16, usize::MAX as u64) {
                Some(v) => Some(v as usize),
                None => None,
            }
        },
    }
}

proof fn lemma_after_nothing(o: ChunkOutcome)
    ensures
        after(0, Seq::empty(), o) == o,
{
    match o {
        ChunkOutcome::Done { used, body } => {
            assert(Seq::<u8>::empty() + body =~= body);
        },
        _ => {},
    }
}

proof fn lemma_after_after(n: nat, b: Seq<u8>, k: nat, c: Seq<u8>, o: ChunkOutcome)
    ensures
        after(n, b, after(k, c, o)) == after(n + k, b + c, o),
{
    match o {
        ChunkOutcome::Done { used, body } => {
            assert(b + (c + body) =~= (b + c) + body);
        },
        _ => {},
    }
}

/// One step of the decoder over `k` bytes of `data` that decode to `b` keeps
/// pace, when the grammar takes the same step on every extension of `data`.
proof fn lemma_step(
    before: ChunkDecoder,
    now: ChunkDecoder,
    data: Seq<u8>,
    max: nat,
    k: nat,
    b: Seq<u8>,
)
    requires
        before.follows(data, max),
        before.pos + k <= data.len(),
        now.pos == before.pos + k,
        now.out@ == before.out@ + b,
        match before.state {
            ChunkState::Size => {
                let rest = data.skip(before.pos as int);
                &&& find(rest, crlf()) == Some(k - 2)
                &&& k - 2 <= MAX_CHUNK_LINE_BYTES
                &&& b == Seq::<u8>::empty()
                &&& line_size(rest.take(k - 2)) matches Some(size) && size <= max && if size == 0 {
                    now.state == (ChunkState::Trailer { start: now.pos })
                } else {
                    &&& before.out@.len() + size <= max
                    &&& now.state matches ChunkState::Data { remaining } && remaining == size
                }
            },
            ChunkState::Data { remaining } => {
                &&& k <= remaining
                &&& b == data.skip(before.pos as int).take(k as int)
                &&& if k == remaining {
                    now.state == ChunkState::DataCrlf
                } else {
                    &&& now.state matches ChunkState::Data { remaining: left } && left == remaining
                        - k
                    &&& before.pos + k == data.len()
                }
            },
            ChunkState::DataCrlf => {
                &&& k == 2
                &&& b == Seq::<u8>::empty()
                &&& data.skip(before.pos as int).take(2) == crlf()
                &&& now.state == ChunkState::Size
            },
            ChunkState::Trailer { start } => {
                &&& find(data.skip(before.pos as int), crlf()) == Some(k - 2)
                &&& k > 2
                &&& before.pos - start <= MAX_TRAILER_BYTES
                &&& b == Seq::<u8>::empty()
                &&& now.state == before.state
            },
        },
    ensures
        now.follows(data, max),
{
    assert forall|ext: Seq<u8>|
        now.outcome_on(#[trigger] (data + ext), max) == decode_chunked(data + ext, max) by {
        let all = data + ext;
        let rest = data.skip(before.pos as int);
        assert(before.outcome_on(all, max) == decode_chunked(all, max));
        let r0 = all.skip(before.pos as int);
        let r1 = all.skip(now.pos as int);
        assert(r0 =~= rest + ext);
        assert(r0.skip(k as int) =~= r1);
        let have = before.out@.len();
        let o1 = resumed(now.state, now.pos as nat, r1, now.out@.len(), max);
        match before.state {
            ChunkState::Size => {
                lemma_step_size(rest, ext, have, max, k);
            },
            ChunkState::Data { remaining } => {
                lemma_step_data(rest, ext, remaining as nat, have, max, k);
            },
            ChunkState::DataCrlf => {
                lemma_step_data_end(rest, ext, have, max);
            },
            ChunkState::Trailer { start } => {
                lemma_step_trailer(rest, ext, (before.pos - start) as nat, k);
            },
        }
        assert(resumed(before.state, before.pos as nat, r0, have, max) == after(k, b, o1));
        lemma_after_after(before.pos as nat, before.out@, k, b, o1);
    }
}

proof fn lemma_step_size(rest: Seq<u8>, ext: Seq<u8>, have: nat, max: nat, k: nat)
    requires
        find(rest, crlf()) == Some(k - 2),
        k - 2 <= MAX_CHUNK_LINE_BYTES,
        line_size(rest.take(k - 2)) is Some,
        line_size(rest.take(k - 2))->0 <= max,
        line_size(rest.take(k - 2))->0 > 0 ==> have + line_size(rest.take(k - 2))->0 <= max,
    ensures
        ({
            let size = line_size(rest.take(k - 2))->0;
            let next = (rest + ext).skip(k as int);
            at_size(rest + ext, have, max) == after(
                k,
                Seq::empty(),
                if size == 0 {
                    at_trailer(next, 0)
                } else {
                    at_data(next, size, have, max)
                },
            )
        }),
{
    lemma_find(rest, crlf());
    lemma_find_prefix(rest, ext, crlf());
    assert((rest + ext).take(k - 2) =~= rest.take(k - 2));
}

proof fn lemma_step_data(
    rest: Seq<u8>,
    ext: Seq<u8>,
    remaining: nat,
    have: nat,
    max: nat,
    k: nat,
)
    requires
        k <= remaining,
        k <= rest.len(),
    ensures
        ({
            let next = (rest + ext).skip(k as int);
            at_data(rest + ext, remaining, have, max) == after(
                k,
                rest.take(k as int),
                if k == remaining {
                    at_data_end(next, have + k, max)
                } else {
                    at_data(next, (remaining - k) as nat, have + k, max)
                },
            )
        }),
{
    let r0 = rest + ext;
    let r1 = r0.skip(k as int);
    let b = rest.take(k as int);
    assert(r0.take(k as int) =~= b);
    if k < remaining {
        let left = (remaining - k) as nat;
        if r0.len() >= remaining {
            assert(r1.skip(left as int) =~= r0.skip(remaining as int));
            assert(b + r1.take(left as int) =~= r0.take(remaining as int));
            lemma_after_after(
                k,
                b,
                left,
                r1.take(left as int),
                at_data_end(r1.skip(left as int), have + remaining, max),
            );
        }
    }
}

proof fn lemma_step_data_end(rest: Seq<u8>, ext: Seq<u8>, have: nat, max: nat)
    requires
        rest.len() >= 2,
        rest.take(2) == crlf(),
    ensures
        at_data_end(rest + ext, have, max) == after(
            2,
            Seq::empty(),
            at_size((rest + ext).skip(2), have, max),
        ),
{
    assert((rest + ext).take(2) =~= rest.take(2));
}

proof fn lemma_step_trailer(rest: Seq<u8>, ext: Seq<u8>, seen: nat, k: nat)
    requires
        find(rest, crlf()) == Some(k - 2),
        k > 2,
        seen <= MAX_TRAILER_BYTES,
    ensures
        at_trailer(rest + ext, seen) == after(
            k,
            Seq::empty(),
            at_trailer((rest + ext).skip(k as int), seen + k),
        ),
{
    lemma_find_prefix(rest, ext, crlf());
}

// ---------------------------------------------------------------------------
// Laws
// ---------------------------------------------------------------------------

/// A body that is complete stays what it is: bytes that arrive after it are
/// never part of it.
pub proof fn law_complete_body_is_final(data: Seq<u8>, ext: Seq<u8>, max: nat)
    requires
        decode_chunked(data, max) is Done,
    ensures
        decode_chunked(data + ext, max) == decode_chunked(data, max),
        decode_chunked(data, max)->used <= data.len(),
        decode_chunked(data, max)->body.len() <= max,
{
    lemma_done_at_size(data, ext, 0, max);
}

proof fn lemma_done_at_size(rest: Seq<u8>, ext: Seq<u8>, have: nat, max: nat)
    requires
        at_size(rest, have, max) is Done,
        have <= max,
    ensures
        at_size(rest + ext, have, max) == at_size(rest, have, max),
        at_size(rest, have, max)->used <= rest.len(),
        have + at_size(rest, have, max)->body.len() <= max,
    decreases rest.len(), 0nat,
{
    lemma_find(rest, crlf());
    let eol = find(rest, crlf())->0;
    lemma_find_prefix(rest, ext, crlf());
    assert((rest + ext).take(eol) =~= rest.take(eol));
    assert((rest + ext).skip(eol + 2) =~= rest.skip(eol + 2) + ext);
    let size = line_size(rest.take(eol))->0;
    if size == 0 {
        lemma_done_at_trailer(rest.skip(eol + 2), ext, 0);
    } else {
        lemma_done_at_data(rest.skip(eol + 2), ext, size, have, max);
    }
}

proof fn lemma_done_at_data(rest: Seq<u8>, ext: Seq<u8>, remaining: nat, have: nat, max: nat)
    requires
        at_data(rest, remaining, have, max) is Done,
        have + remaining <= max,
    ensures
        at_data(rest + ext, remaining, have, max) == at_data(rest, remaining, have, max),
        at_data(rest, remaining, have, max)->used <= rest.len(),
        have + at_data(rest, remaining, have, max)->body.len() <= max,
    decreases rest.len(), 1nat,
{
    let r = remaining as int;
    assert((rest + ext).take(r) =~= rest.take(r));
    assert((rest + ext).skip(r) =~= rest.skip(r) + ext);
    lemma_done_at_data_end(rest.skip(r), ext, have + remaining, max);
}

proof fn lemma_done_at_data_end(rest: Seq<u8>, ext: Seq<u8>, have: nat, max: nat)
    requires
        at_data_end(rest, have, max) is Done,
        have <= max,
    ensures
        at_data_end(rest + ext, have, max) == at_data_end(rest, have, max),
        at_data_end(rest, have, max)->used <= rest.len(),
        have + at_data_end(rest, have, max)->body.len() <= max,
    decreases rest.len(), 0nat,
{
    assert((rest + ext).take(2) =~= rest.take(2));
    assert((rest + ext).skip(2) =~= rest.skip(2) + ext);
    lemma_done_at_size(rest.skip(2), ext, have, max);
}

proof fn lemma_done_at_trailer(rest: Seq<u8>, ext: Seq<u8>, seen: nat)
    requires
        at_trailer(rest, seen) is Done,
    ensures
        at_trailer(rest + ext, seen) == at_trailer(rest, seen),
        at_trailer(rest, seen)->used <= rest.len(),
        at_trailer(rest, seen)->body.len() == 0,
    decreases rest.len(), 0nat,
{
    lemma_find(rest, crlf());
    lemma_find_prefix(rest, ext, crlf());
    let eol = find(rest, crlf())->0;
    if eol != 0 {
        assert((rest + ext).skip(eol + 2) =~= rest.skip(eol + 2) + ext);
        lemma_done_at_trailer(rest.skip(eol + 2), ext, (seen + eol + 2) as nat);
    }
}

/// Whether no line of a chunked body reaches its limit: a size line or a trailer
/// section that just meets its limit is refused while the last byte of its line
/// end is missing.
pub open spec fn roomy(rest: Seq<u8>) -> bool
    decreases rest.len(), 0nat,
{
    proof {
        lemma_find(rest, crlf());
    }
    match find(rest, crlf()) {
        None => true,
        Some(eol) => eol < MAX_CHUNK_LINE_BYTES && match line_size(rest.take(eol)) {
            None => true,
            Some(size) => {
                let next = rest.skip(eol + 2);
                if size == 0 {
                    roomy_trailer(next, 0)
                } else {
                    next.len() >= size + 2 ==> roomy(next.skip(size as int + 2))
                }
            },
        },
    }
}

/// The same of a trailer section, `seen` bytes past its start.
pub open spec fn roomy_trailer(rest: Seq<u8>, seen: nat) -> bool
    decreases rest.len(),
{
    proof {
        lemma_find(rest, crlf());
    }
    match find(rest, crlf()) {
        None => true,
        Some(eol) => if eol == 0 {
            seen < MAX_TRAILER_BYTES
        } else {
            roomy_trailer(rest.skip(eol + 2), (seen + eol + 2) as nat)
        },
    }
}

proof fn lemma_prefix_size(rest: Seq<u8>, k: int, have: nat, max: nat)
    requires
        at_size(rest, have, max) is Done,
        have <= max,
        roomy(rest),
        0 <= k < at_size(rest, have, max)->used,
    ensures
        at_size(rest.take(k), have, max) == ChunkOutcome::Need,
    decreases rest.len(),
{
    lemma_done_at_size(rest, Seq::empty(), have, max);
    lemma_find(rest, crlf());
    let eol = find(rest, crlf())->0;
    let p = rest.take(k);
    lemma_find_take(rest, k, crlf());
    if eol + 2 <= k {
        let next = rest.skip(eol + 2);
        assert(p.take(eol) =~= rest.take(eol));
        assert(p.skip(eol + 2) =~= next.take(k - eol - 2));
        let size = line_size(rest.take(eol))->0;
        if size == 0 {
            lemma_prefix_trailer(next, k - eol - 2, 0);
        } else {
            let q = next.take(k - eol - 2);
            if q.len() >= size + 2 {
                let n = size as int;
                lemma_done_at_data(next, Seq::empty(), size, have, max);
                assert(next.skip(n).skip(2) =~= next.skip(n + 2));
                assert(q.skip(n).take(2) =~= next.skip(n).take(2));
                assert(q.skip(n).skip(2) =~= next.skip(n + 2).take(k - eol - 4 - n));
                lemma_prefix_size(next.skip(n + 2), k - eol - 4 - n, have + size, max);
            }
        }
    }
}

proof fn lemma_prefix_trailer(rest: Seq<u8>, k: int, seen: nat)
    requires
        at_trailer(rest, seen) is Done,
        roomy_trailer(rest, seen),
        0 <= k < at_trailer(rest, seen)->used,
    ensures
        at_trailer(rest.take(k), seen) == ChunkOutcome::Need,
    decreases rest.len(),
{
    lemma_done_at_trailer(rest, Seq::empty(), seen);
    lemma_find(rest, crlf());
    let eol = find(rest, crlf())->0;
    let p = rest.take(k);
    lemma_find_take(rest, k, crlf());
    if eol != 0 && eol + 2 <= k {
        assert(p.skip(eol + 2) =~= rest.skip(eol + 2).take(k - eol - 2));
        lemma_prefix_trailer(rest.skip(eol + 2), k - eol - 2, (seen + eol + 2) as nat);
    }
}

/// No part of a body is refused while the rest of it is on its way: every proper
/// prefix of it asks for more.
pub proof fn law_partial_body_asks_for_more(data: Seq<u8>, k: int, max: nat)
    requires
        decode_chunked(data, max) is Done,
        roomy(data),
        0 <= k < decode_chunked(data, max)->used,
    ensures
        decode_chunked(data.take(k), max) == ChunkOutcome::Need,
{
    lemma_prefix_size(data, k, 0, max);
}

/// A chunk: its size in hexadecimal, and its data, each with a line end.
pub open spec fn chunk_of(data: Seq<u8>) -> Seq<u8> {
    encode_utf8(hexadecimal(data.len())) + crlf() + data + crlf()
}

/// The last chunk, with no trailers.
pub open spec fn last_chunk() -> Seq<u8> {
    seq![48u8, 13u8, 10u8, 13u8, 10u8]
}

/// A body in these chunks.
pub open spec fn chunk_encoded(chunks: Seq<Seq<u8>>) -> Seq<u8>
    decreases chunks.len(),
{
    if chunks.len() == 0 {
        last_chunk()
    } else {
        chunk_of(chunks[0]) + chunk_encoded(chunks.skip(1))
    }
}

/// Chunks one after the other.
pub open spec fn put_together(chunks: Seq<Seq<u8>>) -> Seq<u8>
    decreases chunks.len(),
{
    if chunks.len() == 0 {
        Seq::empty()
    } else {
        chunks[0] + put_together(chunks.skip(1))
    }
}

/// The powers of sixteen.
spec fn sixteens(k: nat) -> nat
    decreases k,
{
    if k == 0 {
        1
    } else {
        16 * sixteens((k - 1) as nat)
    }
}

proof fn lemma_hexadecimal(n: nat, k: nat)
    requires
        k > 0,
        n < sixteens(k),
    ensures
        ({
            let h = hexadecimal(n);
            &&& 0 < h.len() <= k
            &&& all_digits(h, 16)
            &&& digits_value(h, 16) == n
            &&& forall|i: int|
                0 <= i < h.len() ==> ('0' <= #[trigger] h[i] && h[i] <= '9') || ('a' <= h[i] && h[i]
                    <= 'f')
        }),
    decreases n,
{
    let h = hexadecimal(n);
    if n < 16 {
        reveal_with_fuel(digits_value, 2);
        assert(h =~= seq![digit_char(n)]);
        assert(h.drop_last() =~= Seq::empty());
        assert(digit_val(h[0], 16) == Some(n));
    } else {
        assert(k > 1) by {
            if k == 1 {
                reveal_with_fuel(sixteens, 2);
            }
        }
        lemma_hexadecimal(n / 16, (k - 1) as nat);
        let t = hexadecimal(n / 16);
        let d = digit_char(n % 16);
        assert(h == t.push(d));
        assert(h.drop_last() =~= t);
        assert(digit_val(d, 16) == Some(n % 16));
        assert forall|i: int| 0 <= i < h.len() implies digit_val(#[trigger] h[i], 16) is Some by {
            if i < t.len() {
                assert(h[i] == t[i]);
            }
        }
        assert forall|i: int| 0 <= i < h.len() implies ('0' <= #[trigger] h[i] && h[i] <= '9') || (
        'a' <= h[i] && h[i] <= 'f') by {
            if i < t.len() {
                assert(h[i] == t[i]);
            }
        }
    }
}

/// A size line that says a size in hexadecimal announces it.
proof fn lemma_size_line(n: nat, more: Seq<u8>)
    requires
        n <= usize::MAX,
    ensures
        ({
            let line = encode_utf8(hexadecimal(n));
            &&& 0 < line.len() <= 16
            &&& line_size(line) == Some(n)
            &&& find(line + crlf() + more, crlf()) == Some(line.len() as int)
        }),
{
    let h = hexadecimal(n);
    let line = encode_utf8(h);
    assert(sixteens(16) == 0x1_0000_0000_0000_0000) by {
        reveal_with_fuel(sixteens, 17);
    }
    lemma_hexadecimal(n, 16);
    assert(is_ascii_chars(h));
    vstd::utf8::is_ascii_chars_encode_utf8(h);
    vstd::utf8::encode_utf8_valid_utf8(h);
    vstd::utf8::encode_utf8_decode_utf8(h);
    assert forall|i: int| 0 <= i < line.len() implies #[trigger] line[i] != 59u8 && line[i] != 13u8 by {
        assert(h[i] as u8 == line[i]);
    }
    let semi = seq![59u8];
    assert forall|j: int| !#[trigger] occurs_at(line, semi, j) by {
        if occurs_at(line, semi, j) {
            assert(line.subrange(j, j + 1)[0] == line[j]);
        }
    }
    lemma_find_none(line, semi);
    assert(size_field(line) == line);
    assert(trim_start(h) == h);
    assert(trim_end(h) == h);
    let s = line + crlf() + more;
    let e = line.len() as int;
    assert(s.subrange(e, e + 2) =~= crlf());
    assert forall|j: int| 0 <= j < e implies !#[trigger] occurs_at(s, crlf(), j) by {
        if occurs_at(s, crlf(), j) {
            assert(s.subrange(j, j + 2)[0] == s[j]);
            assert(s[j] == line[j]);
        }
    }
    lemma_find_is(s, crlf(), e);
}

proof fn lemma_last_chunk(more: Seq<u8>, have: nat, max: nat)
    ensures
        at_size(last_chunk() + more, have, max) == (ChunkOutcome::Done {
            used: 5,
            body: Seq::empty(),
        }),
        roomy(last_chunk() + more),
{
    let s = last_chunk() + more;
    let next = seq![13u8, 10u8] + more;
    let line = encode_utf8(hexadecimal(0));
    lemma_size_line(0, next);
    assert(line =~= seq![48u8]) by {
        assert(hexadecimal(0) =~= seq!['0']);
        assert(is_ascii_chars(hexadecimal(0)));
        vstd::utf8::is_ascii_chars_encode_utf8(hexadecimal(0));
        assert(hexadecimal(0)[0] as u8 == line[0]);
    }
    assert(s =~= line + crlf() + next);
    assert(s.take(1) =~= line);
    assert(s.skip(3) =~= next);
    assert(next.subrange(0, 2) =~= crlf());
    lemma_find_is(next, crlf(), 0);
    assert(Seq::<u8>::empty() + Seq::<u8>::empty() =~= Seq::<u8>::empty());
}

/// A chunk is taken off the front.
proof fn lemma_one_chunk(c: Seq<u8>, rest: Seq<u8>, have: nat, max: nat)
    requires
        c.len() > 0,
        have + c.len() <= max,
        max <= usize::MAX,
    ensures
        at_size(chunk_of(c) + rest, have, max) == after(
            chunk_of(c).len(),
            c,
            at_size(rest, have + c.len(), max),
        ),
        roomy(rest) ==> roomy(chunk_of(c) + rest),
{
    let line = encode_utf8(hexadecimal(c.len()));
    let s = chunk_of(c) + rest;
    let next = c + crlf() + rest;
    let n = c.len() as int;
    let e = line.len() as int;
    lemma_size_line(c.len(), next);
    assert(s =~= line + crlf() + next);
    assert(s.take(e) =~= line);
    assert(s.skip(e + 2) =~= next);
    assert(next.take(n) =~= c);
    assert(next.skip(n) =~= crlf() + rest);
    assert(next.skip(n).take(2) =~= crlf());
    assert(next.skip(n).skip(2) =~= rest);
    assert(next.skip(n + 2) =~= rest);
    let o = at_size(rest, have + c.len(), max);
    assert(at_data_end(next.skip(n), have + c.len(), max) == after(2, Seq::empty(), o));
    lemma_after_after(c.len(), c, 2, Seq::empty(), o);
    assert(c + Seq::<u8>::empty() =~= c);
    assert(at_data(next, c.len(), have, max) == after(c.len() + 2, c, o));
    lemma_after_after((e + 2) as nat, Seq::empty(), c.len() + 2, c, o);
    assert(Seq::<u8>::empty() + c =~= c);
}

proof fn lemma_chunks_decode(chunks: Seq<Seq<u8>>, more: Seq<u8>, have: nat, max: nat)
    requires
        forall|i: int| 0 <= i < chunks.len() ==> (#[trigger] chunks[i]).len() > 0,
        have + put_together(chunks).len() <= max,
        max <= usize::MAX,
    ensures
        at_size(chunk_encoded(chunks) + more, have, max) == (ChunkOutcome::Done {
            used: chunk_encoded(chunks).len(),
            body: put_together(chunks),
        }),
        roomy(chunk_encoded(chunks) + more),
    decreases chunks.len(),
{
    if chunks.len() == 0 {
        lemma_last_chunk(more, have, max);
    } else {
        let c = chunks[0];
        let t = chunks.skip(1);
        let e = chunk_encoded(t);
        assert forall|i: int| 0 <= i < t.len() implies (#[trigger] t[i]).len() > 0 by {
            assert(t[i] == chunks[i + 1]);
        }
        lemma_chunks_decode(t, more, have + c.len(), max);
        lemma_one_chunk(c, e + more, have, max);
        assert(chunk_encoded(chunks) + more =~= chunk_of(c) + (e + more));
    }
}

/// A body that was put into chunks comes out again, whatever follows it; and every
/// proper prefix of the chunks asks for more.
pub proof fn law_chunks_round_trip(chunks: Seq<Seq<u8>>, more: Seq<u8>, max: nat)
    requires
        forall|i: int| 0 <= i < chunks.len() ==> (#[trigger] chunks[i]).len() > 0,
        put_together(chunks).len() <= max,
        max <= usize::MAX,
    ensures
        decode_chunked(chunk_encoded(chunks) + more, max) == (ChunkOutcome::Done {
            used: chunk_encoded(chunks).len(),
            body: put_together(chunks),
        }),
        forall|k: int|
            0 <= k < chunk_encoded(chunks).len() ==> decode_chunked(
                #[trigger] chunk_encoded(chunks).take(k),
                max,
            ) == ChunkOutcome::Need,
{
    let e = chunk_encoded(chunks);
    lemma_chunks_decode(chunks, more, 0, max);
    lemma_chunks_decode(chunks, Seq::empty(), 0, max);
    assert(e + Seq::<u8>::empty() =~= e);
    assert forall|k: int| 0 <= k < e.len() implies decode_chunked(#[trigger] e.take(k), max)
        == ChunkOutcome::Need by {
        law_partial_body_asks_for_more(e, k, max);
    }
}

} // verus!
