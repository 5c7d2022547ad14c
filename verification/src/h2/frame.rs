//! HTTP/2 binary framing (RFC 9113 sections 4 to 6): the 9-octet frame header
//! and a few payload (de)serializers.
use crate::bytes::{
    be16, be24, be32, be_value, head, lemma_be_value_2, lemma_be_value_3, lemma_be_value_4,
    push_all, push_be16, push_be32, read_be16, read_be32, tail,
};
use crate::h2::{flag, ftype};
use vstd::prelude::*;

verus! {

broadcast use vstd::seq::group_seq_axioms;

/// The client connection preface (RFC 9113 section 3.4).
pub const CLIENT_PREFACE: &'static str = "PRI * HTTP/2.0\r\n\r\nSM\r\n\r\n";

/// The fixed 9-octet frame header.
#[derive(Debug, Clone, Copy, PartialEq, Eq, Structural)]
pub struct FrameHeader {
    pub length: usize,
    pub ftype: u8,
    pub flags: u8,
    pub stream_id: u32,
}

/// The frame header that nine bytes spell. The top bit of the stream id is
/// reserved and ignored.
pub open spec fn header_of(b: Seq<u8>) -> FrameHeader {
    FrameHeader {
        length: be_value(b.subrange(0, 3)) as usize,
        ftype: b[3],
        flags: b[4],
        stream_id: (be_value(b.subrange(5, 9)) % 0x8000_0000) as u32,
    }
}

/// Whether a flag bit is set.
pub open spec fn flag_set(flags: u8, f: u8) -> bool {
    flags & f != 0
}

/// A complete frame: header, then payload.
pub open spec fn frame_of(ftype: u8, flags: u8, stream_id: u32, payload: Seq<u8>) -> Seq<u8> {
    be24(payload.len() as int) + seq![ftype, flags] + be32(stream_id as int % 0x8000_0000) + payload
}

/// The payload of a SETTINGS frame.
pub open spec fn settings_payload(params: Seq<(u16, u32)>) -> Seq<u8>
    decreases params.len(),
{
    if params.len() == 0 {
        Seq::empty()
    } else {
        settings_payload(params.drop_last()) + be16(params.last().0 as int) + be32(
            params.last().1 as int,
        )
    }
}

pub open spec fn settings_frame(params: Seq<(u16, u32)>) -> Seq<u8> {
    frame_of(ftype::SETTINGS, 0, 0, settings_payload(params))
}

pub open spec fn settings_ack_frame() -> Seq<u8> {
    frame_of(ftype::SETTINGS, flag::ACK, 0, Seq::empty())
}

pub open spec fn window_update_frame(stream_id: u32, increment: u32) -> Seq<u8> {
    frame_of(ftype::WINDOW_UPDATE, 0, stream_id, be32(increment as int % 0x8000_0000))
}

pub open spec fn rst_stream_frame(stream_id: u32, error_code: u32) -> Seq<u8> {
    frame_of(ftype::RST_STREAM, 0, stream_id, be32(error_code as int))
}

pub open spec fn goaway_frame(last_stream_id: u32, error_code: u32) -> Seq<u8> {
    frame_of(
        ftype::GOAWAY,
        0,
        0,
        be32(last_stream_id as int % 0x8000_0000) + be32(error_code as int),
    )
}

/// The parameters in a SETTINGS payload of whole six-byte entries.
pub open spec fn settings_in(payload: Seq<u8>) -> Seq<(u16, u32)> {
    Seq::new(
        payload.len() / 6,
        |i: int|
            (
                be_value(payload.subrange(6 * i, 6 * i + 2)) as u16,
                be_value(payload.subrange(6 * i + 2, 6 * i + 6)) as u32,
            ),
    )
}

/// The content of a payload without its padding; `None` where the pad length
/// exceeds what is there.
pub open spec fn unpadded(payload: Seq<u8>, padded: bool) -> Option<Seq<u8>> {
    if !padded {
        Some(payload)
    } else if payload.len() == 0 || payload[0] > payload.len() - 1 {
        None
    } else {
        Some(payload.subrange(1, payload.len() - payload[0]))
    }
}

impl FrameHeader {
    /// Parse a frame header from the first nine bytes.
    pub fn parse(buf: &[u8]) -> (r: FrameHeader)
        requires
            buf@.len() >= 9,
        ensures
            r == header_of(buf@),
            r.length < 0x100_0000,
            r.length == be_value(buf@.subrange(0, 3)),
            r.stream_id < 0x8000_0000,
    {
        proof {
            lemma_be_value_3(buf@.subrange(0, 3));
            lemma_be_value_4(buf@.subrange(5, 9));
        }
        let length: usize = (buf[0] as usize) * 0x1_0000 + (buf[1] as usize) * 0x100 + (
        buf[2] as usize);
        let stream_id: u32 = read_be32(buf, 5) % 0x8000_0000;
        FrameHeader { length, ftype: buf[3], flags: buf[4], stream_id }
    }

    /// Whether a flag bit is set.
    pub fn has(&self, f: u8) -> (r: bool)
        ensures
            r == flag_set(self.flags, f),
    {
        self.flags & f != 0
    }
}

/// Append a complete frame (9-octet header + payload) to `out`.
pub fn write_frame(out: &mut Vec<u8>, ftype: u8, flags: u8, stream_id: u32, payload: &[u8])
    ensures
        final(out)@ == old(out)@ + frame_of(ftype, flags, stream_id, payload@),
{
    let len: usize = payload.len();
    out.push((len / 0x1_0000 % 0x100) as u8);
    out.push((len / 0x100 % 0x100) as u8);
    out.push((len % 0x100) as u8);
    out.push(ftype);
    out.push(flags);
    push_be32(out, stream_id % 0x8000_0000);
    push_all(out, payload);
    proof {
        assert(out@ =~= old(out)@ + frame_of(ftype, flags, stream_id, payload@));
    }
}

/// Append a SETTINGS frame carrying the given `(id, value)` parameters.
pub fn write_settings(out: &mut Vec<u8>, params: &[(u16, u32)])
    ensures
        final(out)@ == old(out)@ + settings_frame(params@),
{
    let mut payload: Vec<u8> = Vec::new();
    let mut i: usize = 0;
    proof {
        assert(params@.take(0) =~= Seq::empty());
    }
    while i < params.len()
        invariant
            i <= params@.len(),
            payload@ == settings_payload(params@.take(i as int)),
        decreases params@.len() - i,
    {
        proof {
            assert(params@.take(i as int + 1).drop_last() =~= params@.take(i as int));
        }
        push_be16(&mut payload, params[i].0);
        push_be32(&mut payload, params[i].1);
        i += 1;
    }
    proof {
        assert(params@.take(params@.len() as int) =~= params@);
    }
    write_frame(out, ftype::SETTINGS, 0, 0, payload.as_slice());
}

/// Append a SETTINGS ACK frame.
pub fn write_settings_ack(out: &mut Vec<u8>)
    ensures
        final(out)@ == old(out)@ + settings_ack_frame(),
{
    let none: Vec<u8> = Vec::new();
    proof {
        assert(none@ =~= Seq::empty());
    }
    write_frame(out, ftype::SETTINGS, flag::ACK, 0, none.as_slice());
}

/// Append a WINDOW_UPDATE frame adding `increment` to `stream_id`'s window
/// (use stream 0 for the connection-level window).
pub fn write_window_update(out: &mut Vec<u8>, stream_id: u32, increment: u32)
    ensures
        final(out)@ == old(out)@ + window_update_frame(stream_id, increment),
{
    let mut payload: Vec<u8> = Vec::new();
    push_be32(&mut payload, increment % 0x8000_0000);
    proof {
        assert(payload@ =~= be32(increment as int % 0x8000_0000));
    }
    write_frame(out, ftype::WINDOW_UPDATE, 0, stream_id, payload.as_slice());
}

/// Append an RST_STREAM frame.
pub fn write_rst_stream(out: &mut Vec<u8>, stream_id: u32, error_code: u32)
    ensures
        final(out)@ == old(out)@ + rst_stream_frame(stream_id, error_code),
{
    let mut payload: Vec<u8> = Vec::new();
    push_be32(&mut payload, error_code);
    proof {
        assert(payload@ =~= be32(error_code as int));
    }
    write_frame(out, ftype::RST_STREAM, 0, stream_id, payload.as_slice());
}

/// Append a GOAWAY frame.
pub fn write_goaway(out: &mut Vec<u8>, last_stream_id: u32, error_code: u32)
    ensures
        final(out)@ == old(out)@ + goaway_frame(last_stream_id, error_code),
{
    let mut payload: Vec<u8> = Vec::new();
    push_be32(&mut payload, last_stream_id % 0x8000_0000);
    push_be32(&mut payload, error_code);
    proof {
        assert(payload@ =~= be32(last_stream_id as int % 0x8000_0000) + be32(error_code as int));
    }
    write_frame(out, ftype::GOAWAY, 0, 0, payload.as_slice());
}

/// Parse a SETTINGS payload into `(id, value)` pairs. Returns `None` if the
/// payload length is not a multiple of six.
pub fn parse_settings(payload: &[u8]) -> (r: Option<Vec<(u16, u32)>>)
    ensures
        match r {
            Some(v) => payload@.len() % 6 == 0 && v@ == settings_in(payload@),
            None => payload@.len() % 6 != 0,
        },
{
    let n: usize = payload.len();
    if n % 6 != 0 {
        return None;
    }
    let mut out: Vec<(u16, u32)> = Vec::new();
    let mut i: usize = 0;
    while i < n / 6
        invariant
            i <= n / 6,
            n == payload@.len(),
            n % 6 == 0,
            out@ == settings_in(payload@).take(i as int),
        decreases n / 6 - i,
    {
        let id: u16 = read_be16(payload, 6 * i);
        let value: u32 = read_be32(payload, 6 * i + 2);
        out.push((id, value));
        proof {
            assert(out@ =~= settings_in(payload@).take(i as int + 1));
        }
        i += 1;
    }
    proof {
        assert(out@ =~= settings_in(payload@));
    }
    Some(out)
}

/// Strip DATA/HEADERS padding given the `PADDED` flag. Returns the content
/// slice (between the pad-length octet and the trailing padding), or `None` on
/// a malformed pad length.
pub fn strip_padding(payload: &[u8], padded: bool) -> (r: Option<&[u8]>)
    ensures
        match (r, unpadded(payload@, padded)) {
            (Some(a), Some(b)) => a@ == b,
            (None, None) => true,
            _ => false,
        },
{
    if !padded {
        return Some(payload);
    }
    if payload.len() == 0 {
        return None;
    }
    let pad_len: usize = payload[0] as usize;
    let body = tail(payload, 1);
    if pad_len > body.len() {
        return None;
    }
    let r = head(body, body.len() - pad_len);
    proof {
        assert(r@ =~= payload@.subrange(1, payload@.len() - payload@[0]));
    }
    Some(r)
}

// ---------------------------------------------------------------------------
// Laws
// ---------------------------------------------------------------------------

proof fn lemma_be24_value(v: int)
    requires
        0 <= v < 0x100_0000,
    ensures
        be_value(be24(v)) == v,
{
    lemma_be_value_3(be24(v));
}

proof fn lemma_be32_value(v: int)
    requires
        0 <= v < 0x1_0000_0000,
    ensures
        be_value(be32(v)) == v,
{
    lemma_be_value_4(be32(v));
}

proof fn lemma_be16_value(v: int)
    requires
        0 <= v < 0x1_0000,
    ensures
        be_value(be16(v)) == v,
{
    lemma_be_value_2(be16(v));
}

/// Reading a frame header gives back what was written, and the payload
/// follows it. A payload of 2^24 bytes or more does not fit the length field.
pub proof fn law_frame_round_trip(ftype: u8, flags: u8, stream_id: u32, payload: Seq<u8>)
    requires
        payload.len() < 0x100_0000,
    ensures
        ({
            let f = frame_of(ftype, flags, stream_id, payload);
            &&& f.len() == 9 + payload.len()
            &&& header_of(f) == (FrameHeader {
                length: payload.len() as usize,
                ftype,
                flags,
                stream_id: (stream_id % 0x8000_0000) as u32,
            })
            &&& f.skip(9) == payload
        }),
{
    let f = frame_of(ftype, flags, stream_id, payload);
    assert(f.subrange(0, 3) =~= be24(payload.len() as int));
    assert(f.subrange(5, 9) =~= be32(stream_id as int % 0x8000_0000));
    assert(f.skip(9) =~= payload);
    lemma_be24_value(payload.len() as int);
    lemma_be32_value(stream_id as int % 0x8000_0000);
}

proof fn lemma_settings_payload_len(params: Seq<(u16, u32)>)
    ensures
        settings_payload(params).len() == 6 * params.len(),
    decreases params.len(),
{
    if params.len() > 0 {
        lemma_settings_payload_len(params.drop_last());
    }
}

/// Reading a SETTINGS payload gives back the parameters that were written.
pub proof fn law_settings_round_trip(params: Seq<(u16, u32)>)
    ensures
        settings_payload(params).len() % 6 == 0,
        settings_in(settings_payload(params)) == params,
    decreases params.len(),
{
    lemma_settings_payload_len(params);
    let p = settings_payload(params);
    if params.len() > 0 {
        let q = settings_payload(params.drop_last());
        lemma_settings_payload_len(params.drop_last());
        law_settings_round_trip(params.drop_last());
        let k = params.len() - 1;
        assert forall|i: int| 0 <= i < params.len() implies #[trigger] settings_in(p)[i]
            == params[i] by {
            if i < k {
                assert(p.subrange(6 * i, 6 * i + 2) =~= q.subrange(6 * i, 6 * i + 2));
                assert(p.subrange(6 * i + 2, 6 * i + 6) =~= q.subrange(6 * i + 2, 6 * i + 6));
                assert(settings_in(q)[i] == params.drop_last()[i]);
            } else {
                assert(p.subrange(6 * i, 6 * i + 2) =~= be16(params.last().0 as int));
                assert(p.subrange(6 * i + 2, 6 * i + 6) =~= be32(params.last().1 as int));
                lemma_be16_value(params.last().0 as int);
                lemma_be32_value(params.last().1 as int);
            }
        }
    }
    assert(settings_in(p) =~= params);
}

} // verus!
