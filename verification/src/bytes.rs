//! Byte-buffer helpers: appending, searching, and big-endian integers.
use vstd::prelude::*;
use vstd::slice::slice_subrange;
use vstd::utf8::encode_utf8;

verus! {

broadcast use vstd::seq::group_seq_axioms;

/// Append `data` to `out`.
pub fn push_all(out: &mut Vec<u8>, data: &[u8])
    ensures
        final(out)@ == old(out)@ + data@,
{
    out.extend_from_slice(data);
    proof {
        assert(out@ =~= old(out)@ + data@);
    }
}

/// Append the UTF-8 encoding of `s` to `out`.
pub fn push_text(out: &mut Vec<u8>, s: &str)
    ensures
        final(out)@ == old(out)@ + encode_utf8(s@),
{
    push_all(out, s.as_bytes());
}

/// An owned copy of `data`.
pub fn copy_of(data: &[u8]) -> (r: Vec<u8>)
    ensures
        r@ == data@,
{
    let mut v: Vec<u8> = Vec::new();
    push_all(&mut v, data);
    proof {
        assert(v@ =~= data@);
    }
    v
}

/// Drop the first `n` bytes of `v`.
pub fn drop_front(v: &mut Vec<u8>, n: usize)
    requires
        n <= old(v)@.len(),
    ensures
        final(v)@ == old(v)@.skip(n as int),
{
    let rest = v.split_off(n);
    *v = rest;
    proof {
        assert(v@ =~= old(v)@.skip(n as int));
    }
}

/// The part of `data` from `from` on.
pub fn tail<T>(data: &[T], from: usize) -> (r: &[T])
    requires
        from <= data@.len(),
    ensures
        r@ == data@.skip(from as int),
{
    proof {
        assert(data@.subrange(from as int, data@.len() as int) =~= data@.skip(from as int));
    }
    slice_subrange(data, from, data.len())
}

/// The first `n` bytes of `data`.
pub fn head<T>(data: &[T], n: usize) -> (r: &[T])
    requires
        n <= data@.len(),
    ensures
        r@ == data@.take(n as int),
{
    proof {
        assert(data@.subrange(0, n as int) =~= data@.take(n as int));
    }
    slice_subrange(data, 0, n)
}

/// Whether two byte slices are equal.
pub fn bytes_eq(a: &[u8], b: &[u8]) -> (r: bool)
    ensures
        r == (a@ == b@),
{
    if a.len() != b.len() {
        return false;
    }
    let mut i: usize = 0;
    while i < a.len()
        invariant
            i <= a@.len(),
            a@.len() == b@.len(),
            forall|j: int| 0 <= j < i ==> #[trigger] a@[j] == b@[j],
        decreases a@.len() - i,
    {
        if a[i] != b[i] {
            return false;
        }
        i += 1;
    }
    proof {
        assert(a@ =~= b@);
    }
    true
}

/// Whether a byte slice is the UTF-8 encoding of the string `s`.
pub fn bytes_are(a: &[u8], s: &str) -> (r: bool)
    ensures
        r == (a@ == encode_utf8(s@)),
{
    bytes_eq(a, s.as_bytes())
}

// ---------------------------------------------------------------------------
// Searching
// ---------------------------------------------------------------------------

/// Whether `needle` stands in `hay` at index `i`.
pub open spec fn occurs_at(hay: Seq<u8>, needle: Seq<u8>, i: int) -> bool {
    &&& 0 <= i
    &&& i + needle.len() <= hay.len()
    &&& hay.subrange(i, i + needle.len()) == needle
}

/// Index of the first occurrence of `needle` in `hay`, if any.
pub open spec fn find(hay: Seq<u8>, needle: Seq<u8>) -> Option<int>
    decreases hay.len(),
{
    if hay.len() < needle.len() || hay.len() == 0 {
        None
    } else if occurs_at(hay, needle, 0) {
        Some(0)
    } else {
        match find(hay.skip(1), needle) {
            Some(i) => Some(i + 1),
            None => None,
        }
    }
}

proof fn lemma_occurs_skip(hay: Seq<u8>, needle: Seq<u8>, k: int, i: int)
    requires
        0 <= k <= hay.len(),
        0 <= i,
    ensures
        occurs_at(hay.skip(k), needle, i) == occurs_at(hay, needle, i + k),
{
    if i + k + needle.len() <= hay.len() {
        assert(hay.skip(k).subrange(i, i + needle.len()) =~= hay.subrange(
            i + k,
            i + k + needle.len(),
        ));
    }
}

/// `find` yields the least index at which `needle` occurs.
pub proof fn lemma_find(hay: Seq<u8>, needle: Seq<u8>)
    requires
        needle.len() > 0,
    ensures
        match find(hay, needle) {
            Some(i) => occurs_at(hay, needle, i) && forall|j: int|
                0 <= j < i ==> !#[trigger] occurs_at(hay, needle, j),
            None => forall|j: int| !#[trigger] occurs_at(hay, needle, j),
        },
    decreases hay.len(),
{
    if hay.len() < needle.len() || occurs_at(hay, needle, 0) {
    } else {
        let t = hay.skip(1);
        lemma_find(t, needle);
        match find(t, needle) {
            Some(i) => {
                lemma_occurs_skip(hay, needle, 1, i);
                assert forall|j: int| 0 <= j < i + 1 implies !#[trigger] occurs_at(
                    hay,
                    needle,
                    j,
                ) by {
                    if j > 0 {
                        lemma_occurs_skip(hay, needle, 1, j - 1);
                    }
                }
            },
            None => {
                assert forall|j: int| !#[trigger] occurs_at(hay, needle, j) by {
                    if j > 0 {
                        lemma_occurs_skip(hay, needle, 1, j - 1);
                    }
                }
            },
        }
    }
}

/// The first occurrence is the one with none before it.
pub proof fn lemma_find_is(hay: Seq<u8>, needle: Seq<u8>, i: int)
    requires
        needle.len() > 0,
        occurs_at(hay, needle, i),
        forall|j: int| 0 <= j < i ==> !#[trigger] occurs_at(hay, needle, j),
    ensures
        find(hay, needle) == Some(i),
{
    lemma_find(hay, needle);
}

/// Where nothing occurs, nothing is found.
pub proof fn lemma_find_none(hay: Seq<u8>, needle: Seq<u8>)
    requires
        needle.len() > 0,
        forall|j: int| !#[trigger] occurs_at(hay, needle, j),
    ensures
        find(hay, needle) is None,
{
    lemma_find(hay, needle);
}

/// What is found in the first bytes is what is found in all of them, if it stands
/// in the first.
pub proof fn lemma_find_take(hay: Seq<u8>, k: int, needle: Seq<u8>)
    requires
        needle.len() > 0,
        0 <= k <= hay.len(),
    ensures
        find(hay.take(k), needle) == (match find(hay, needle) {
            Some(i) => if i + needle.len() <= k {
                Some(i)
            } else {
                None
            },
            None => None,
        }),
{
    let p = hay.take(k);
    assert(p + hay.skip(k) =~= hay);
    lemma_find(p, needle);
    lemma_find(hay, needle);
    if find(p, needle) is Some {
        lemma_find_prefix(p, hay.skip(k), needle);
    } else if let Some(i) = find(hay, needle) {
        if i + needle.len() <= k {
            assert(p.subrange(i, i + needle.len()) =~= hay.subrange(i, i + needle.len()));
            assert(occurs_at(p, needle, i));
        }
    }
}

/// Bytes that come later do not move an occurrence that was found.
pub proof fn lemma_find_prefix(hay: Seq<u8>, ext: Seq<u8>, needle: Seq<u8>)
    requires
        needle.len() > 0,
        find(hay, needle) is Some,
    ensures
        find(hay + ext, needle) == find(hay, needle),
{
    lemma_find(hay, needle);
    let i = find(hay, needle)->0;
    let all = hay + ext;
    assert(all.subrange(i, i + needle.len()) =~= hay.subrange(i, i + needle.len()));
    assert forall|j: int| 0 <= j < i implies !#[trigger] occurs_at(all, needle, j) by {
        assert(!occurs_at(hay, needle, j));
        assert(all.subrange(j, j + needle.len()) =~= hay.subrange(j, j + needle.len()));
    }
    lemma_find_is(all, needle, i);
}

/// Searching past a prefix in which nothing starts.
pub proof fn lemma_find_from(hay: Seq<u8>, needle: Seq<u8>, from: int)
    requires
        needle.len() > 0,
        0 <= from <= hay.len(),
        forall|j: int| 0 <= j < from ==> !#[trigger] occurs_at(hay, needle, j),
    ensures
        find(hay, needle) == match find(hay.skip(from), needle) {
            Some(i) => Some(i + from),
            None => None,
        },
{
    let t = hay.skip(from);
    lemma_find(t, needle);
    match find(t, needle) {
        Some(i) => {
            lemma_occurs_skip(hay, needle, from, i);
            assert forall|j: int| 0 <= j < i + from implies !#[trigger] occurs_at(hay, needle, j) by {
                if j >= from {
                    lemma_occurs_skip(hay, needle, from, j - from);
                }
            }
            lemma_find_is(hay, needle, i + from);
        },
        None => {
            assert forall|j: int| !#[trigger] occurs_at(hay, needle, j) by {
                if j >= from {
                    lemma_occurs_skip(hay, needle, from, j - from);
                }
            }
            lemma_find_none(hay, needle);
        },
    }
}

/// Find the first occurrence of `needle` in `haystack`. An empty needle is
/// never found.
pub fn find_subslice(haystack: &[u8], needle: &[u8]) -> (r: Option<usize>)
    ensures
        needle@.len() == 0 ==> r is None,
        needle@.len() > 0 ==> match (r, find(haystack@, needle@)) {
            (Some(a), Some(b)) => a == b && a + needle@.len() <= haystack@.len(),
            (None, None) => true,
            _ => false,
        },
{
    let nlen: usize = needle.len();
    if nlen == 0 || haystack.len() < nlen {
        return None;
    }
    let first: u8 = needle[0];
    let last_start: usize = haystack.len() - nlen;
    let mut i: usize = 0;
    while i <= last_start
        invariant
            nlen == needle@.len(),
            nlen > 0,
            first == needle@[0],
            last_start + nlen == haystack@.len(),
            i <= last_start + 1,
            forall|j: int| 0 <= j < i ==> !#[trigger] occurs_at(haystack@, needle@, j),
        decreases last_start + 1 - i,
    {
        if haystack[i] == first {
            let window = slice_subrange(haystack, i, i + nlen);
            if bytes_eq(window, needle) {
                proof {
                    assert(occurs_at(haystack@, needle@, i as int));
                    lemma_find_is(haystack@, needle@, i as int);
                }
                return Some(i);
            }
        } else {
            proof {
                if occurs_at(haystack@, needle@, i as int) {
                    assert(haystack@.subrange(i as int, i + nlen)[0] == haystack@[i as int]);
                }
            }
        }
        i += 1;
    }
    proof {
        assert forall|j: int| !#[trigger] occurs_at(haystack@, needle@, j) by {
            if j > last_start {
            }
        }
        lemma_find_none(haystack@, needle@);
    }
    None
}

// ---------------------------------------------------------------------------
// Big-endian integers
// ---------------------------------------------------------------------------

/// The two-byte big-endian form of `v`.
pub open spec fn be16(v: int) -> Seq<u8> {
    seq![(v / 0x100 % 0x100) as u8, (v % 0x100) as u8]
}

/// The three-byte big-endian form of `v`.
pub open spec fn be24(v: int) -> Seq<u8> {
    seq![(v / 0x1_0000 % 0x100) as u8, (v / 0x100 % 0x100) as u8, (v % 0x100) as u8]
}

/// The four-byte big-endian form of `v`.
pub open spec fn be32(v: int) -> Seq<u8> {
    seq![
        (v / 0x100_0000 % 0x100) as u8,
        (v / 0x1_0000 % 0x100) as u8,
        (v / 0x100 % 0x100) as u8,
        (v % 0x100) as u8,
    ]
}

/// The eight-byte big-endian form of `v`.
pub open spec fn be64(v: int) -> Seq<u8> {
    be32(v / 0x1_0000_0000) + be32(v % 0x1_0000_0000)
}

/// The number that a big-endian byte string denotes.
pub open spec fn be_value(b: Seq<u8>) -> int
    decreases b.len(),
{
    if b.len() == 0 {
        0
    } else {
        be_value(b.drop_last()) * 0x100 + b.last()
    }
}

pub proof fn lemma_be_value_2(b: Seq<u8>)
    requires
        b.len() == 2,
    ensures
        be_value(b) == b[0] * 0x100 + b[1],
{
    reveal_with_fuel(be_value, 3);
    assert(b.drop_last().drop_last() =~= Seq::<u8>::empty());
}

pub proof fn lemma_be_value_3(b: Seq<u8>)
    requires
        b.len() == 3,
    ensures
        be_value(b) == b[0] * 0x1_0000 + b[1] * 0x100 + b[2],
{
    reveal_with_fuel(be_value, 4);
    assert(b.drop_last().drop_last().drop_last() =~= Seq::<u8>::empty());
}

pub proof fn lemma_be_value_4(b: Seq<u8>)
    requires
        b.len() == 4,
    ensures
        be_value(b) == b[0] * 0x100_0000 + b[1] * 0x1_0000 + b[2] * 0x100 + b[3],
{
    reveal_with_fuel(be_value, 5);
    assert(b.drop_last().drop_last().drop_last().drop_last() =~= Seq::<u8>::empty());
}

pub fn push_be16(out: &mut Vec<u8>, v: u16)
    ensures
        final(out)@ == old(out)@ + be16(v as int),
{
    out.push((v / 0x100) as u8);
    out.push((v % 0x100) as u8);
    proof {
        assert(out@ =~= old(out)@ + be16(v as int));
    }
}

pub fn push_be32(out: &mut Vec<u8>, v: u32)
    ensures
        final(out)@ == old(out)@ + be32(v as int),
{
    out.push((v / 0x100_0000) as u8);
    out.push((v / 0x1_0000 % 0x100) as u8);
    out.push((v / 0x100 % 0x100) as u8);
    out.push((v % 0x100) as u8);
    proof {
        assert(out@ =~= old(out)@ + be32(v as int));
    }
}

pub fn push_be64(out: &mut Vec<u8>, v: u64)
    ensures
        final(out)@ == old(out)@ + be64(v as int),
{
    push_be32(out, (v / 0x1_0000_0000) as u32);
    push_be32(out, (v % 0x1_0000_0000) as u32);
    proof {
        let hi = be32(v as int / 0x1_0000_0000);
        let lo = be32(v as int % 0x1_0000_0000);
        assert(old(out)@ + hi + lo =~= old(out)@ + (hi + lo));
    }
}

/// Four bytes hold every number below 2^32.
pub proof fn lemma_be32_value(v: int)
    requires
        0 <= v < 0x1_0000_0000,
    ensures
        be_value(be32(v)) == v,
{
    lemma_be_value_4(be32(v));
}

/// A big-endian byte string in two parts.
pub proof fn lemma_be_value_concat_4(a: Seq<u8>, b: Seq<u8>)
    requires
        b.len() == 4,
    ensures
        be_value(a + b) == be_value(a) * 0x1_0000_0000 + be_value(b),
{
    let s = a + b;
    lemma_be_value_4(b);
    assert(s.drop_last().drop_last().drop_last().drop_last() =~= a);
    reveal_with_fuel(be_value, 5);
}

/// Read a four-byte big-endian integer at `at`.
pub fn read_be32(b: &[u8], at: usize) -> (r: u32)
    requires
        at + 4 <= b@.len(),
    ensures
        r == be_value(b@.subrange(at as int, at + 4)),
{
    proof {
        lemma_be_value_4(b@.subrange(at as int, at + 4));
    }
    (b[at] as u32) * 0x100_0000 + (b[at + 1] as u32) * 0x1_0000 + (b[at + 2] as u32) * 0x100 + (b[at
        + 3] as u32)
}

/// Read a two-byte big-endian integer at `at`.
pub fn read_be16(b: &[u8], at: usize) -> (r: u16)
    requires
        at + 2 <= b@.len(),
    ensures
        r == be_value(b@.subrange(at as int, at + 2)),
{
    proof {
        lemma_be_value_2(b@.subrange(at as int, at + 2));
    }
    (b[at] as u16) * 0x100 + (b[at + 1] as u16)
}

/// The model of bytes that may be missing.
pub open spec fn opt_bytes(v: Option<Vec<u8>>) -> Option<Seq<u8>> {
    match v {
        Some(b) => Some(b@),
        None => None,
    }
}

// ---------------------------------------------------------------------------
// Laws
// ---------------------------------------------------------------------------

/// What stands between two other pieces occurs there, and where it occurs it stands.
pub proof fn law_occurrences(a: Seq<u8>, needle: Seq<u8>, b: Seq<u8>, hay: Seq<u8>, i: int)
    ensures
        occurs_at(a + needle + b, needle, a.len() as int),
        occurs_at(hay, needle, i) ==> hay == hay.take(i) + needle + hay.skip(i + needle.len()),
{
    let all = a + needle + b;
    assert(all.subrange(a.len() as int, (a.len() + needle.len()) as int) =~= needle);
    if occurs_at(hay, needle, i) {
        assert(hay =~= hay.take(i) + hay.subrange(i, i + needle.len()) + hay.skip(
            i + needle.len(),
        ));
    }
}

/// The most significant byte comes first: a number that is written is read back, and
/// two byte strings one after another denote the first, shifted, plus the second.
pub proof fn law_big_endian(v: int, a: Seq<u8>, x: u8)
    ensures
        0 <= v < 0x1_0000 ==> be_value(be16(v)) == v && be16(v).len() == 2,
        0 <= v < 0x100_0000 ==> be_value(be24(v)) == v && be24(v).len() == 3,
        0 <= v < 0x1_0000_0000 ==> be_value(be32(v)) == v && be32(v).len() == 4,
        be64(v).len() == 8,
        be_value(a.push(x)) == be_value(a) * 256 + x,
        be_value(seq![x]) == x,
{
    reveal_with_fuel(be_value, 6);
    let b2 = be16(v);
    assert(b2.drop_last() =~= seq![b2[0]]);
    let b3 = be24(v);
    assert(b3.drop_last() =~= seq![b3[0], b3[1]]);
    assert(b3.drop_last().drop_last() =~= seq![b3[0]]);
    let b4 = be32(v);
    assert(b4.drop_last() =~= seq![b4[0], b4[1], b4[2]]);
    assert(b4.drop_last().drop_last() =~= seq![b4[0], b4[1]]);
    assert(b4.drop_last().drop_last().drop_last() =~= seq![b4[0]]);
    assert(a.push(x).drop_last() =~= a);
    assert(seq![x].drop_last() =~= Seq::<u8>::empty());
    assert(seq![b2[0]].drop_last() =~= Seq::<u8>::empty());
    assert(seq![b3[0]].drop_last() =~= Seq::<u8>::empty());
    assert(seq![b4[0]].drop_last() =~= Seq::<u8>::empty());
}

} // verus!
