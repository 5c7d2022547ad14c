//! Laws of response framing: what goes out for a response.
use crate::h2::flag;
use crate::h2::frame::flag_set;
use crate::h2::ftype;
use crate::h2::hpack::hpack_encoding;
use crate::h2::laws::{
    header_list, law_header_block_is_framed, lemma_data_sent_wf, lemma_resets_spare,
    lemma_unfinished_from, lemma_wire_concat, lemma_wire_one, wire, SentFrame,
};
use crate::h2::model::{
    chunk_len, data_sent, header_frames, lemma_next_sender, next_sender, pos_of, pumped, responded,
    unfailed, unfinished, H2Model, StreamModel,
};
use crate::proto::fields::response_fields_of;
use crate::proto::response::{outgoing, BodyModel, ResponseModel};
use vstd::prelude::*;

verus! {

broadcast use vstd::seq::group_seq_axioms;

/// All that the frames of one stream carry, in order.
pub open spec fn carried_on(frames: Seq<SentFrame>, id: u32) -> Seq<u8>
    decreases frames.len(),
{
    if frames.len() == 0 {
        Seq::empty()
    } else if frames.last().id == id {
        carried_on(frames.drop_last(), id) + frames.last().payload
    } else {
        carried_on(frames.drop_last(), id)
    }
}

proof fn lemma_carried_concat(a: Seq<SentFrame>, b: Seq<SentFrame>, id: u32)
    ensures
        carried_on(a + b, id) == carried_on(a, id) + carried_on(b, id),
    decreases b.len(),
{
    if b.len() == 0 {
        assert(a + b =~= a);
    } else {
        lemma_carried_concat(a, b.drop_last(), id);
        assert((a + b).drop_last() =~= a + b.drop_last());
    }
    assert(carried_on(a + b, id) =~= carried_on(a, id) + carried_on(b, id));
}

proof fn lemma_carried_one(f: SentFrame, id: u32)
    ensures
        carried_on(seq![f], id) == if f.id == id {
            f.payload
        } else {
            Seq::empty()
        },
{
    reveal_with_fuel(carried_on, 2);
    assert(seq![f].drop_last() =~= Seq::empty());
    assert(carried_on(seq![f], f.id) =~= f.payload);
}

proof fn lemma_carried_nothing(frames: Seq<SentFrame>, id: u32)
    requires
        forall|k: int| 0 <= k < frames.len() ==> (#[trigger] frames[k]).id != id,
    ensures
        carried_on(frames, id) == Seq::<u8>::empty(),
    decreases frames.len(),
{
    if frames.len() > 0 {
        assert(frames[frames.len() - 1].id != id);
        assert forall|k: int| 0 <= k < frames.drop_last().len() implies (
        #[trigger] frames.drop_last()[k]).id != id by {
            assert(frames.drop_last()[k] == frames[k]);
        }
        lemma_carried_nothing(frames.drop_last(), id);
    }
}

/// Whether frames are how a connection sent a body on a stream, up to what the
/// windows let through: DATA frames that carry the body from its first byte on, of
/// which the one with the last byte, and no other, ends the stream. What has not
/// gone out is what the stream still holds, and a stream that is gone sent it all.
pub open spec fn sends(
    m: H2Model,
    n: H2Model,
    id: u32,
    body: Seq<u8>,
    frames: Seq<SentFrame>,
) -> bool {
    &&& n.output == m.output + wire(frames)
    &&& forall|k: int|
        0 <= k < frames.len() && (#[trigger] frames[k]).id == id ==> {
            &&& frames[k].ftype == ftype::DATA
            &&& frames[k].payload.len() > 0
            &&& flag_set(frames[k].flags, flag::END_STREAM) <==> carried_on(
                frames.take(k + 1),
                id,
            ) == body
        }
    &&& forall|k: int|
        0 <= k < n.streams.len() && (#[trigger] n.streams[k]).id == id ==> (
        n.streams[k].out matches Some(BodyModel::Bytes(rest)) && rest.len() > 0 && carried_on(
            frames,
            id,
        ) + rest == body)
    &&& (forall|k: int| 0 <= k < n.streams.len() ==> (#[trigger] n.streams[k]).id != id)
        ==> carried_on(frames, id) == body
}

proof fn lemma_kept(streams: Seq<StreamModel>, j: int)
    requires
        0 <= j < streams.len(),
        !streams[j].failed,
        streams[j].out matches Some(b) && b.size() > 0,
    ensures
        unfinished(streams).contains(streams[j]),
        unfailed(streams).contains(streams[j]),
    decreases streams.len(),
{
    let s = streams.drop_last();
    let u = unfinished(streams);
    let v = unfailed(streams);
    if j == streams.len() - 1 {
        assert(u[u.len() - 1] == streams[j]);
        assert(v[v.len() - 1] == streams[j]);
    } else {
        assert(s[j] == streams[j]);
        lemma_kept(s, j);
        let a = choose|a: int| 0 <= a < unfinished(s).len() && unfinished(s)[a] == s[j];
        let b = choose|b: int| 0 <= b < unfailed(s).len() && unfailed(s)[b] == s[j];
        assert(u[a] == streams[j]);
        assert(v[b] == streams[j]);
    }
}

proof fn lemma_unfailed_from(streams: Seq<StreamModel>)
    ensures
        forall|k: int|
            0 <= k < unfailed(streams).len() ==> streams.contains(#[trigger] unfailed(streams)[k])
                && !unfailed(streams)[k].failed,
    decreases streams.len(),
{
    if streams.len() > 0 {
        let s = streams.drop_last();
        lemma_unfailed_from(s);
        let u = unfailed(streams);
        assert forall|k: int| 0 <= k < u.len() implies streams.contains(#[trigger] u[k])
            && !u[k].failed by {
            if k < unfailed(s).len() {
                assert(u[k] == unfailed(s)[k]);
                let i = choose|i: int| 0 <= i < s.len() && s[i] == u[k];
                assert(streams[i] == u[k]);
            } else {
                assert(u[k] == streams[streams.len() - 1]);
            }
        }
    }
}

proof fn lemma_unfinished_open(streams: Seq<StreamModel>)
    ensures
        forall|k: int|
            0 <= k < unfinished(streams).len() ==> !crate::h2::model::finished(
                #[trigger] unfinished(streams)[k],
            ),
    decreases streams.len(),
{
    if streams.len() > 0 {
        let s = streams.drop_last();
        lemma_unfinished_open(s);
        let u = unfinished(streams);
        assert forall|k: int| 0 <= k < u.len() implies !crate::h2::model::finished(#[trigger] u[k]) by {
            if k < unfinished(s).len() {
                assert(u[k] == unfinished(s)[k]);
            }
        }
    }
}

/// The streams that stay, seen from one of them.
proof fn lemma_stays(m: H2Model, j: int, d: Seq<u8>, left: Seq<StreamModel>)
    requires
        m.wf(),
        0 <= j < m.streams.len(),
        !m.streams[j].failed,
        m.streams[j].out == Some(BodyModel::Bytes(d)),
        left == unfinished(m.streams) || left == unfailed(unfinished(m.streams)),
    ensures
        forall|k: int|
            0 <= k < left.len() && (#[trigger] left[k]).id == m.streams[j].id ==> left[k]
                == m.streams[j] && d.len() > 0,
        (forall|k: int| 0 <= k < left.len() ==> (#[trigger] left[k]).id != m.streams[j].id) ==> d.len()
            == 0,
{
    let u = unfinished(m.streams);
    lemma_unfinished_from(m.streams);
    lemma_unfinished_open(m.streams);
    lemma_unfailed_from(u);
    assert forall|k: int| 0 <= k < left.len() && (#[trigger] left[k]).id == m.streams[j].id implies left[k]
        == m.streams[j] && d.len() > 0 by {
        let a = if left == u {
            k
        } else {
            choose|a: int| 0 <= a < u.len() && u[a] == left[k]
        };
        assert(u[a] == left[k]);
        let i = choose|i: int| 0 <= i < m.streams.len() && m.streams[i] == u[a];
        if i < j {
            assert(m.streams[i].id < m.streams[j].id);
        } else if j < i {
            assert(m.streams[j].id < m.streams[i].id);
        }
        assert(!crate::h2::model::finished(u[a]));
    }
    if d.len() > 0 {
        lemma_kept(m.streams, j);
        let a = choose|a: int| 0 <= a < u.len() && u[a] == m.streams[j];
        lemma_kept(u, a);
        let b = choose|b: int| 0 <= b < unfailed(u).len() && unfailed(u)[b] == u[a];
        assert(unfailed(u)[b].id == m.streams[j].id);
        assert(u[a].id == m.streams[j].id);
        if left == u {
            assert(left[a].id == m.streams[j].id);
        } else {
            assert(left[b].id == m.streams[j].id);
        }
    }
}

/// The body of a response goes out in order and without gaps: see [`sends`].
pub proof fn law_body_goes_out_in_order(m: H2Model, j: int, d: Seq<u8>)
    requires
        m.wf(),
        0 <= j < m.streams.len(),
        !m.streams[j].failed,
        m.streams[j].out == Some(BodyModel::Bytes(d)),
    ensures
        exists|frames: Seq<SentFrame>| #[trigger] sends(m, pumped(m), m.streams[j].id, d, frames),
    decreases m.window,
{
    let id = m.streams[j].id;
    let p = pumped(m);
    lemma_next_sender(m, 0);
    match next_sender(m, 0) {
        None => {
            let u = unfinished(m.streams);
            lemma_unfinished_from(m.streams);
            assert forall|k: int| 0 <= k < u.len() && (#[trigger] u[k]).failed implies u[k].id != id by {
                let i = choose|i: int| 0 <= i < m.streams.len() && m.streams[i] == u[k];
                if i < j {
                    assert(m.streams[i].id < m.streams[j].id);
                } else if j < i {
                    assert(m.streams[j].id < m.streams[i].id);
                }
            }
            let frames = lemma_resets_spare(u, id);
            lemma_carried_nothing(frames, id);
            lemma_stays(m, j, d, p.streams);
            assert(carried_on(frames, id) + d =~= d);
            assert(d.len() == 0 ==> d =~= carried_on(frames, id));
            assert(sends(m, p, id, d, frames));
        },
        Some(i) => {
            if let BodyModel::Bytes(e) = m.streams[i].out->0 {
                let n = chunk_len(m, m.streams[i]) as int;
                let b = e.take(n);
                let q = data_sent(m, i, b);
                lemma_data_sent_wf(m, i, b);
                let flags: u8 = if b.len() == e.len() {
                    flag::END_STREAM
                } else {
                    0
                };
                let f = SentFrame { ftype: ftype::DATA, flags, id: m.streams[i].id, payload: b };
                lemma_wire_one(f);
                lemma_carried_one(f, id);
                assert(1u8 & 1u8 != 0 && 0u8 & 1u8 == 0) by (bit_vector);
                if i == j {
                    let rest = e.skip(n);
                    assert(e == d);
                    assert(q.streams[j].out == Some(BodyModel::Bytes(rest)));
                    law_body_goes_out_in_order(q, j, rest);
                    let r = choose|r: Seq<SentFrame>| #[trigger] sends(q, pumped(q), id, rest, r);
                    assert(d =~= b + rest);
                    lemma_prepended(m, q, p, id, d, rest, f, r);
                } else {
                    assert(m.streams[i].id != id) by {
                        if i < j {
                            assert(m.streams[i].id < m.streams[j].id);
                        } else {
                            assert(m.streams[j].id < m.streams[i].id);
                        }
                    }
                    assert(q.streams[j] == m.streams[j]);
                    law_body_goes_out_in_order(q, j, d);
                    let r = choose|r: Seq<SentFrame>| #[trigger] sends(q, pumped(q), id, d, r);
                    lemma_prepended(m, q, p, id, d, d, f, r);
                }
            } else {
                let frames = Seq::<SentFrame>::empty();
                assert(m.output + wire(frames) =~= m.output);
                lemma_stays(m, j, d, p.streams);
                assert(carried_on(frames, id) + d =~= d);
                assert(d.len() == 0 ==> d =~= carried_on(frames, id));
                assert(sends(m, p, id, d, frames));
            }
        },
    }
}

/// One more frame in front.
proof fn lemma_prepended(
    m: H2Model,
    q: H2Model,
    p: H2Model,
    id: u32,
    d: Seq<u8>,
    rest: Seq<u8>,
    f: SentFrame,
    r: Seq<SentFrame>,
)
    requires
        sends(q, p, id, rest, r),
        q.output == m.output + wire(seq![f]),
        f.id == id ==> d == f.payload + rest && f.ftype == ftype::DATA && f.payload.len() > 0
            && flag_set(f.flags, flag::END_STREAM) == (rest.len() == 0),
        f.id != id ==> d == rest,
        carried_on(seq![f], id) == if f.id == id {
            f.payload
        } else {
            Seq::empty()
        },
    ensures
        sends(m, p, id, d, seq![f] + r),
{
    let all = seq![f] + r;
    let c = carried_on(seq![f], id);
    assert(d =~= c + rest);
    lemma_wire_concat(seq![f], r);
    assert(m.output + wire(seq![f]) + wire(r) =~= m.output + wire(all));
    lemma_carried_concat(seq![f], r, id);
    assert forall|k: int| 0 <= k < all.len() && (#[trigger] all[k]).id == id implies {
        &&& all[k].ftype == ftype::DATA
        &&& all[k].payload.len() > 0
        &&& flag_set(all[k].flags, flag::END_STREAM) <==> carried_on(all.take(k + 1), id) == d
    } by {
        if k == 0 {
            assert(all.take(1) =~= seq![f]);
            if rest.len() == 0 {
                assert(d =~= f.payload);
            } else {
                assert(d.len() != f.payload.len());
            }
        } else {
            assert(all[k] == r[k - 1]);
            let t = r.take(k);
            assert(all.take(k + 1) =~= seq![f] + t);
            lemma_carried_concat(seq![f], t, id);
            let x = carried_on(t, id);
            if c + x == d {
                assert(x =~= (c + x).skip(c.len() as int));
                assert(rest =~= (c + rest).skip(c.len() as int));
            }
        }
    }
    assert forall|k: int| 0 <= k < p.streams.len() && (#[trigger] p.streams[k]).id == id implies (
    p.streams[k].out matches Some(BodyModel::Bytes(left)) && left.len() > 0 && carried_on(all, id)
        + left == d) by {
        let left = p.streams[k].out->0->Bytes_0;
        assert(c + carried_on(r, id) + left =~= c + (carried_on(r, id) + left));
    }
}

/// A response goes out as its header block, made of its status and fields, and then
/// its body: see [`sends`]. The block ends the stream only where there is no body.
pub proof fn law_response_goes_out(m: H2Model, i: int, resp: ResponseModel, d: Seq<u8>)
    requires
        m.wf(),
        0 <= i < m.streams.len(),
        pos_of(m.streams, m.streams[i].id) == Some(i),
        m.streams[i].out is None,
        !m.streams[i].failed,
        !m.streams[i].is_head,
        resp.body == BodyModel::Bytes(d),
    ensures
        ({
            let id = m.streams[i].id;
            let fields = response_fields_of(resp.status, resp.headers, m.server_name);
            let block = hpack_encoding(m.enc_size, m.enc_lists, fields);
            let l = header_list(id, block, m.max_frame, d.len() == 0, true);
            exists|frames: Seq<SentFrame>|
                #[trigger] sends(
                    H2Model { output: m.output + wire(l), ..m },
                    responded(m, id, resp),
                    id,
                    d,
                    frames,
                )
        }),
{
    let s = m.streams[i];
    let id = s.id;
    let r = outgoing(s.is_head, resp);
    assert(r == resp);
    let fields = response_fields_of(resp.status, resp.headers, m.server_name);
    let block = hpack_encoding(m.enc_size, m.enc_lists, fields);
    let l = header_list(id, block, m.max_frame, d.len() == 0, true);
    law_header_block_is_framed(id, block, m.max_frame, d.len() == 0);
    let m1 = H2Model {
        enc_lists: m.enc_lists.push(fields),
        output: m.output + header_frames(s.id, block, m.max_frame, r.body.size() == 0, true),
        ..m.set_stream(i, StreamModel { out: Some(r.body), ..s })
    };
    assert(m1.wf()) by {
        assert forall|k: int| 0 <= k < m1.streams.len() implies 0 < (#[trigger] m1.streams[k]).id
            <= m1.last_stream by {
            assert(0 < m.streams[k].id <= m.last_stream);
        }
        assert forall|a: int, b: int| 0 <= a < b < m1.streams.len() implies (
        #[trigger] m1.streams[a]).id < (#[trigger] m1.streams[b]).id by {
            assert(m.streams[a].id < m.streams[b].id);
        }
    }
    law_body_goes_out_in_order(m1, i, d);
    let frames = choose|frames: Seq<SentFrame>| #[trigger] sends(m1, pumped(m1), id, d, frames);
    assert(sends(
        H2Model { output: m.output + wire(l), ..m },
        responded(m, id, resp),
        id,
        d,
        frames,
    ));
}

} // verus!
