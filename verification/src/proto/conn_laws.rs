//! Laws of an HTTP/1 connection: what is refused and with what, when a client is told
//! to go on, and how a file goes out.
use crate::bytes::{find, lemma_find, occurs_at};
use crate::error::ErrorModel;
use crate::proto::conn::{
    after_read, expects_continue, head_end, polled, request_in, wanted, ConnModel, FileStream,
    InputOutcome, Limits,
};
use crate::proto::head::{framing_of, head_of, lemma_one_list, BodyFraming, HeadModel};
use crate::proto::headers::{values, Fields};
use crate::text::{concat, eq_nocase, trim};
use vstd::prelude::*;
use vstd::utf8::encode_utf8;

verus! {

broadcast use vstd::seq::group_seq_axioms;

/// A header block that has not ended by its limit is refused with 431, and one that is
/// still within it is waited for.
pub proof fn law_long_heads_are_refused(input: Seq<u8>, empty_line: Seq<u8>, limits: Limits)
    requires
        empty_line == seq![13u8, 10u8, 13u8, 10u8],
        forall|i: int|
            0 <= i <= limits.max_header_bytes ==> !#[trigger] occurs_at(input, empty_line, i),
    ensures
        input.len() > limits.max_header_bytes ==> (request_in(input, limits)
            matches InputOutcome::Fail { status, what } && status.code == 431),
        input.len() <= limits.max_header_bytes ==> request_in(input, limits) == (
        InputOutcome::Need { expects_continue: false }),
{
    lemma_find(input, empty_line);
    assert(head_end() =~= empty_line);
}

/// What follows a header block that stands complete within its limit.
pub open spec fn complete_head(
    input: Seq<u8>,
    end: int,
    h: HeadModel,
    limits: Limits,
) -> bool {
    &&& find(input, head_end()) == Some(end)
    &&& 0 <= end <= limits.max_header_bytes
    &&& head_of(input.take(end)) == Ok::<HeadModel, Seq<char>>(h)
}

/// A body is taken up to its limit and refused with 413 beyond it; framing that
/// cannot be trusted is refused with 400, and a version that is not spoken with 505.
pub proof fn law_bodies_and_versions(input: Seq<u8>, end: int, h: HeadModel, n: usize, limits: Limits)
    requires
        complete_head(input, end, h, limits),
    ensures
        h.version is None ==> (request_in(input, limits) matches InputOutcome::Fail { status, what }
            && status.code == 505),
        h.version is Some && framing_of(h.headers) is None ==> (request_in(input, limits)
            matches InputOutcome::Fail { status, what } && status.code == 400),
        h.version is Some && framing_of(h.headers) == Some(BodyFraming::Length(n)) && n
            > limits.max_body_bytes ==> (request_in(input, limits)
            matches InputOutcome::Fail { status, what } && status.code == 413),
        h.version is Some && framing_of(h.headers) == Some(BodyFraming::Length(n)) && n
            <= limits.max_body_bytes && input.len() < end + 4 + n ==> request_in(input, limits) == (
        InputOutcome::Need { expects_continue: expects_continue(h.headers) }),
        h.version is Some && framing_of(h.headers) == Some(BodyFraming::Length(n)) && n
            <= limits.max_body_bytes && input.len() >= end + 4 + n ==> (request_in(input, limits)
            matches InputOutcome::Ready { used, request } && used == end + 4 + n && request.body
            == input.subrange(end + 4, end + 4 + n)),
{
}

/// A header block that cannot be read is refused with 400.
pub proof fn law_unreadable_heads_are_refused(input: Seq<u8>, end: int, limits: Limits)
    requires
        find(input, head_end()) == Some(end),
        end <= limits.max_header_bytes,
        head_of(input.take(end)) is Err,
    ensures
        request_in(input, limits) matches InputOutcome::Fail { status, what } && status.code == 400,
{
}

/// A client that asked to be told is told once to go on, when its head has come and its
/// body has not; one that did not ask is told nothing.
pub proof fn law_continue_is_said_once(
    c: ConnModel,
    end: int,
    h: HeadModel,
    n: usize,
    now: int,
    later: int,
)
    requires
        !c.closed,
        c.pending is None,
        !c.interim_sent,
        complete_head(c.input, end, h, c.limits),
        h.version is Some,
        framing_of(h.headers) == Some(BodyFraming::Length(n)),
        n <= c.limits.max_body_bytes,
        c.input.len() < end + 4 + n,
    ensures
        ({
            let (d, r) = polled(c, now);
            let told = expects_continue(h.headers);
            &&& r matches Ok(None)
            &&& d.input == c.input
            &&& told ==> d.output == c.output + encode_utf8("HTTP/1.1 100 Continue\r\n\r\n"@)
            &&& !told ==> d.output == c.output
            &&& polled(d, later).0 == d
            &&& polled(d, later).1 matches Ok(None)
        }),
{
}

/// To be told to go on is asked for by naming it, in any case, among what is expected.
pub proof fn law_what_expects_continue(parts: Seq<Seq<char>>, f: Fields)
    requires
        parts.len() > 0,
        forall|i: int| 0 <= i < parts.len() ==> !(#[trigger] parts[i]).contains(','),
        values(f, "expect"@) == seq![concat(parts, seq![','])],
    ensures
        expects_continue(f) <==> exists|i: int|
            0 <= i < parts.len() && eq_nocase(
                trim(#[trigger] parts[i]),
                "100-continue"@,
            ),
{
    lemma_one_list(f, "expect"@, parts, "100-continue"@);
}

/// A refusal is reported for what it is.
pub proof fn law_refusals_are_reported(c: ConnModel, now: int)
    requires
        !c.closed,
        c.pending is None,
        request_in(c.input, c.limits) is Fail,
    ensures
        request_in(c.input, c.limits) matches InputOutcome::Fail { status, what } && match polled(
            c,
            now,
        ).1 {
            Err(ErrorModel::TooLarge(t)) => t == what && (status.code == 413 || status.code == 431),
            Err(ErrorModel::BadRequest(t)) => t == what && status.code != 413 && status.code != 431,
            _ => false,
        },
        polled(c, now).0.closed,
{
}

/// A file goes out piece by piece without a gap: every read goes on where the last
/// one ended, and all of them together are as long as was promised.
pub proof fn law_file_reads_join_up(c: ConnModel, fs: FileStream)
    requires
        c.output.len() == 0,
        c.stream == Some(fs),
        fs.remaining > 0,
        fs.offset + fs.remaining <= u64::MAX,
    ensures
        wanted(c) matches Some(r) && r.file == fs.file && r.offset == fs.offset && 0 < r.len
            <= fs.remaining && ({
            let d = after_read(c, Some(r.len as nat));
            if r.len == fs.remaining {
                d.stream is None && d.closed == c.closed
            } else {
                d.stream == Some(
                    FileStream {
                        file: fs.file,
                        offset: (fs.offset + r.len) as u64,
                        remaining: (fs.remaining - r.len) as u64,
                    },
                ) && d.closed == c.closed
            }
        }),
        wanted(c) matches Some(r) && after_read(c, None).closed && after_read(c, None).stream is None
            && (r.len > 0 ==> after_read(c, Some((r.len - 1) as nat)).closed),
{
}

/// Nothing is read from a file while there is output to send, nor where there is no
/// file.
pub proof fn law_reads_wait_for_output(c: ConnModel)
    ensures
        c.output.len() > 0 || c.stream is None ==> wanted(c) is None,
{
}

} // verus!
