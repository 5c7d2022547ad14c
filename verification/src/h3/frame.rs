//! HTTP/3 framing: QUIC variable-length integers and type-length-payload
//! frames (RFC 9000 section 16, RFC 9114 section 7).
use crate::bytes::{
    be16, be32, be64, be_value, lemma_be32_value, lemma_be_value_2, lemma_be_value_concat_4,
    push_all, push_be16, push_be32, push_be64,
};
use vstd::prelude::*;

verus! {

broadcast use vstd::seq::group_seq_axioms;

pub const FRAME_DATA: u64 = 0x0;

pub const FRAME_HEADERS: u64 = 0x1;

pub const FRAME_SETTINGS: u64 = 0x4;

pub const STREAM_CONTROL: u64 = 0x0;

pub const STREAM_QPACK_ENCODER: u64 = 0x2;

pub const STREAM_QPACK_DECODER: u64 = 0x3;

pub const SETTINGS_QPACK_MAX_TABLE_CAPACITY: u64 = 0x1;

pub const SETTINGS_MAX_FIELD_SECTION_SIZE: u64 = 0x6;

pub const SETTINGS_QPACK_BLOCKED_STREAMS: u64 = 0x7;

/// The variable-length form of an integer: one, two, four or eight bytes, the
/// length in the top two bits. Only 62 bits fit.
pub open spec fn varint(v: int) -> Seq<u8> {
    if v < 0x40 {
        seq![v as u8]
    } else if v < 0x4000 {
        be16(v + 0x4000)
    } else if v < 0x4000_0000 {
        be32(v + 0x8000_0000)
    } else {
        be64(v % 0x4000_0000_0000_0000 + 0xc000_0000_0000_0000)
    }
}

/// How many bytes a variable-length integer takes, by its first byte.
pub open spec fn varint_len(first: u8) -> int {
    if first < 0x40 {
        1
    } else if first < 0x80 {
        2
    } else if first < 0xc0 {
        4
    } else {
        8
    }
}

/// The integer at `pos` and where it ends, if it is all there.
pub open spec fn varint_at(b: Seq<u8>, pos: int) -> Option<(int, int)> {
    if pos < 0 || pos >= b.len() {
        None
    } else {
        let n = varint_len(b[pos]);
        if pos + n > b.len() {
            None
        } else {
            Some((be_value(b.subrange(pos, pos + n).update(0, b[pos] % 0x40)), pos + n))
        }
    }
}

/// A frame: type, length, payload.
pub open spec fn frame3(ty: int, payload: Seq<u8>) -> Seq<u8> {
    varint(ty) + varint(payload.len() as int) + payload
}

/// Encode a QUIC variable-length integer.
pub fn write_varint(out: &mut Vec<u8>, v: u64)
    ensures
        final(out)@ == old(out)@ + varint(v as int),
{
    if v < 0x40 {
        out.push(v as u8);
        proof {
            assert(out@ =~= old(out)@ + varint(v as int));
        }
    } else if v < 0x4000 {
        push_be16(out, v as u16 + 0x4000);
    } else if v < 0x4000_0000 {
        push_be32(out, v as u32 + 0x8000_0000);
    } else {
        push_be64(out, v % 0x4000_0000_0000_0000 + 0xc000_0000_0000_0000);
    }
}

/// Decode a QUIC variable-length integer, returning `(value, next_pos)`.
pub fn read_varint(buf: &[u8], pos: usize) -> (r: Option<(u64, usize)>)
    ensures
        match (r, varint_at(buf@, pos as int)) {
            (Some((v, p)), Some((w, q))) => v == w && p == q && pos < p <= buf@.len() && v
                < 0x4000_0000_0000_0000,
            (None, None) => true,
            _ => false,
        },
{
    if pos >= buf.len() {
        return None;
    }
    let first: u8 = buf[pos];
    let len: usize = if first < 0x40 {
        1
    } else if first < 0x80 {
        2
    } else if first < 0xc0 {
        4
    } else {
        8
    };
    if buf.len() - pos < len {
        return None;
    }
    let n: usize = buf.len();
    let ghost s = buf@.subrange(pos as int, pos + len).update(0, first % 0x40);
    let mut v: u64 = (first % 0x40) as u64;
    let mut i: usize = 1;
    let ghost mut bound: int = 0x40;
    proof {
        assert(s.take(1).drop_last() =~= Seq::empty());
        assert(be_value(s.take(1)) == v) by {
            reveal_with_fuel(be_value, 2);
        }
    }
    while i < len
        invariant
            1 <= i <= len,
            len <= 8,
            pos + len <= n,
            n == buf@.len(),
            s.len() == len,
            s == buf@.subrange(pos as int, pos + len).update(0, first % 0x40),
            v == be_value(s.take(i as int)),
            v < bound,
            i == 1 ==> bound == 0x40,
            i == 2 ==> bound == 0x4000,
            i == 3 ==> bound == 0x40_0000,
            i == 4 ==> bound == 0x4000_0000,
            i == 5 ==> bound == 0x40_0000_0000,
            i == 6 ==> bound == 0x4000_0000_0000,
            i == 7 ==> bound == 0x40_0000_0000_0000,
            i == 8 ==> bound == 0x4000_0000_0000_0000,
        decreases len - i,
    {
        proof {
            assert(s.take(i as int + 1).drop_last() =~= s.take(i as int));
            assert(s.take(i as int + 1).last() == buf@[pos + i]);
            bound = bound * 0x100;
        }
        v = v * 0x100 + buf[pos + i] as u64;
        i += 1;
    }
    proof {
        assert(s.take(len as int) =~= s);
    }
    Some((v, pos + len))
}

/// Append an HTTP/3 frame (`type`, `length`, payload).
pub fn write_frame(out: &mut Vec<u8>, ty: u64, payload: &[u8])
    ensures
        final(out)@ == old(out)@ + frame3(ty as int, payload@),
{
    write_varint(out, ty);
    write_varint(out, payload.len() as u64);
    push_all(out, payload);
    proof {
        assert(out@ =~= old(out)@ + frame3(ty as int, payload@));
    }
}

// ---------------------------------------------------------------------------
// Laws
// ---------------------------------------------------------------------------

/// Setting the top two bits of a 30-bit number changes its first byte alone.
proof fn lemma_top_bits(v: int)
    requires
        0 <= v < 0x4000_0000,
    ensures
        be32(v + 0xc000_0000)[0] == be32(v)[0] + 0xc0,
        be32(v + 0x8000_0000)[0] == be32(v)[0] + 0x80,
        be32(v)[0] < 0x40,
        be32(v + 0xc000_0000).update(0, be32(v)[0]) == be32(v),
        be32(v + 0x8000_0000).update(0, be32(v)[0]) == be32(v),
{
    let a = v + 0xc000_0000;
    let b = v + 0x8000_0000;
    assert(a / 0x100_0000 == v / 0x100_0000 + 0xc0);
    assert(b / 0x100_0000 == v / 0x100_0000 + 0x80);
    assert(a / 0x1_0000 == v / 0x1_0000 + 0xc000);
    assert(b / 0x1_0000 == v / 0x1_0000 + 0x8000);
    assert(a / 0x100 == v / 0x100 + 0xc0_0000);
    assert(b / 0x100 == v / 0x100 + 0x80_0000);
    assert(be32(a).update(0, be32(v)[0]) =~= be32(v));
    assert(be32(b).update(0, be32(v)[0]) =~= be32(v));
}

/// A variable-length integer, read without the bits that tell its length.
proof fn lemma_varint_value(v: int)
    requires
        0 <= v < 0x4000_0000_0000_0000,
    ensures
        varint(v).len() == varint_len(varint(v)[0]),
        be_value(varint(v).update(0, varint(v)[0] % 0x40)) == v,
{
    let s = varint(v).update(0, varint(v)[0] % 0x40);
    if v < 0x40 {
        reveal_with_fuel(be_value, 2);
        assert(s.drop_last() =~= Seq::empty());
    } else if v < 0x4000 {
        assert((v + 0x4000) / 0x100 == v / 0x100 + 0x40);
        lemma_be_value_2(s);
    } else if v < 0x4000_0000 {
        lemma_top_bits(v);
        lemma_be32_value(v);
    } else {
        let h = v / 0x1_0000_0000;
        let l = v % 0x1_0000_0000;
        let w = v + 0xc000_0000_0000_0000;
        assert(w / 0x1_0000_0000 == h + 0xc000_0000);
        assert(w % 0x1_0000_0000 == l);
        assert(varint(v) == be32(h + 0xc000_0000) + be32(l));
        lemma_top_bits(h);
        assert(varint(v)[0] == be32(h)[0] + 0xc0);
        assert(s =~= be32(h + 0xc000_0000).update(0, be32(h)[0]) + be32(l));
        lemma_be_value_concat_4(be32(h), be32(l));
        lemma_be32_value(h);
        lemma_be32_value(l);
    }
}

/// Reading a variable-length integer gives back what was written, whatever
/// stands around it. Integers of more than 62 bits do not fit.
pub proof fn law_varint_round_trip(before: Seq<u8>, v: int, rest: Seq<u8>)
    requires
        0 <= v < 0x4000_0000_0000_0000,
    ensures
        varint_at(before + varint(v) + rest, before.len() as int) == Some(
            (v, (before.len() + varint(v).len()) as int),
        ),
{
    let b = before + varint(v) + rest;
    let pos = before.len() as int;
    lemma_varint_value(v);
    assert(b.subrange(pos, pos + varint(v).len()) =~= varint(v));
    assert(b[pos] == varint(v)[0]);
}

/// Reading a frame gives back its type and length, and its payload follows.
pub proof fn law_frame_round_trip(ty: int, payload: Seq<u8>)
    requires
        0 <= ty < 0x4000_0000_0000_0000,
        payload.len() < 0x4000_0000_0000_0000,
    ensures
        ({
            let f = frame3(ty, payload);
            let p = varint(ty).len() as int;
            let q = p + varint(payload.len() as int).len();
            &&& varint_at(f, 0) == Some((ty, p))
            &&& varint_at(f, p) == Some((payload.len() as int, q))
            &&& f.skip(q) == payload
        }),
{
    let f = frame3(ty, payload);
    let n = payload.len() as int;
    assert(f =~= Seq::<u8>::empty() + varint(ty) + (varint(n) + payload));
    law_varint_round_trip(Seq::empty(), ty, varint(n) + payload);
    assert(f =~= varint(ty) + varint(n) + payload);
    law_varint_round_trip(varint(ty), n, payload);
    assert(f.skip((varint(ty).len() + varint(n).len()) as int) =~= payload);
}

} // verus!
