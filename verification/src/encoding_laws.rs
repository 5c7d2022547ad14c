//! Laws of base64 and PEM: what is written comes out as what it was.
use crate::acme::jose::b64url_of;
use crate::text::{find_text, law_find_text, stands_at};
use crate::tls::{
    base64_filler, base64_of, base64_val, block_at, blocks_from, end_marker, labelled, packed,
    sextets, PemModel,
};
use vstd::arithmetic::div_mod::lemma_fundamental_div_mod_converse;
use vstd::prelude::*;

verus! {

broadcast use vstd::seq::group_seq_axioms;

// ---------------------------------------------------------------------------
// base64
// ---------------------------------------------------------------------------

/// The digits of standard base64.
pub open spec fn standard_digits() -> Seq<char> {
    "ABCDEFGHIJKLMNOPQRSTUVWXYZabcdefghijklmnopqrstuvwxyz0123456789+/"@
}

/// The digits of base64 for URLs.
pub open spec fn url_digits() -> Seq<char> {
    "ABCDEFGHIJKLMNOPQRSTUVWXYZabcdefghijklmnopqrstuvwxyz0123456789-_"@
}

/// Three bytes as one number, zeros for those that are missing.
pub open spec fn triple(s: Seq<u8>) -> int {
    s[0] as int * 0x1_0000 + (if s.len() > 1 {
        s[1] as int * 0x100
    } else {
        0
    }) + (if s.len() > 2 {
        s[2] as int
    } else {
        0
    })
}

/// Bytes in base 64, without padding: every three bytes are a number of four
/// digits, and a rest of one or two bytes has as many digits as it needs.
pub open spec fn base64_digits(s: Seq<u8>) -> Seq<u8>
    decreases s.len(),
{
    if s.len() == 0 {
        Seq::empty()
    } else {
        let n = triple(s);
        let d = seq![
            (n / 0x4_0000) as u8,
            (n / 0x1000 % 64) as u8,
            (n / 64 % 64) as u8,
            (n % 64) as u8,
        ];
        if s.len() < 3 {
            d.take(s.len() as int + 1)
        } else {
            d + base64_digits(s.skip(3))
        }
    }
}

/// Bytes as a base64 text.
pub open spec fn base64_text(s: Seq<u8>, digits: Seq<char>) -> Seq<char> {
    base64_digits(s).map_values(|d: u8| digits[d as int])
}

proof fn lemma_digits_small(s: Seq<u8>)
    ensures
        forall|i: int| 0 <= i < base64_digits(s).len() ==> #[trigger] base64_digits(s)[i] < 64,
    decreases s.len(),
{
    if s.len() > 0 {
        let n = triple(s);
        let d = seq![
            (n / 0x4_0000) as u8,
            (n / 0x1000 % 64) as u8,
            (n / 64 % 64) as u8,
            (n % 64) as u8,
        ];
        assert(0 <= n < 0x100_0000);
        assert(d[0] < 64 && d[1] < 64 && d[2] < 64 && d[3] < 64);
        if s.len() >= 3 {
            let r = s.skip(3);
            lemma_digits_small(r);
            assert forall|i: int| 0 <= i < base64_digits(s).len() implies #[trigger] base64_digits(
                s,
            )[i] < 64 by {
                if i >= 4 {
                    assert(base64_digits(s)[i] == base64_digits(r)[i - 4]);
                }
            }
        }
    }
}

/// The four digits of three bytes, from the bytes.
proof fn lemma_triple(a: int, b: int, c: int)
    requires
        0 <= a < 256,
        0 <= b < 256,
        0 <= c < 256,
    ensures
        ({
            let n = a * 0x1_0000 + b * 0x100 + c;
            &&& 0 <= n < 0x100_0000
            &&& n / 0x4_0000 == a / 4
            &&& n / 0x1000 % 64 == a % 4 * 16 + b / 16
            &&& n / 64 % 64 == b % 16 * 4 + c / 64
            &&& n % 64 == c % 64
        }),
{
    let n = a * 0x1_0000 + b * 0x100 + c;
    let w = a / 4;
    let x = a % 4 * 16 + b / 16;
    let y = b % 16 * 4 + c / 64;
    let z = c % 64;
    assert(0 <= x < 64 && 0 <= y < 64 && 0 <= z < 64);
    assert(n == w * 0x4_0000 + x * 0x1000 + y * 64 + z);
    lemma_fundamental_div_mod_converse(n, 0x4_0000, w, x * 0x1000 + y * 64 + z);
    lemma_fundamental_div_mod_converse(n, 0x1000, w * 64 + x, y * 64 + z);
    lemma_fundamental_div_mod_converse(w * 64 + x, 64, w, x);
    lemma_fundamental_div_mod_converse(n, 64, w * 0x1000 + x * 64 + y, z);
    lemma_fundamental_div_mod_converse(w * 0x1000 + x * 64 + y, 64, w * 64 + x, y);
}

/// The digits of a group, from its bytes.
proof fn lemma_group(s: Seq<u8>)
    requires
        s.len() > 0,
    ensures
        ({
            let v = base64_digits(s);
            let b = if s.len() > 1 {
                s[1] as int
            } else {
                0
            };
            let c = if s.len() > 2 {
                s[2] as int
            } else {
                0
            };
            &&& v.len() >= 2
            &&& v[0] == s[0] as int / 4
            &&& v[1] == s[0] as int % 4 * 16 + b / 16
            &&& s.len() > 1 ==> v.len() >= 3 && v[2] == b % 16 * 4 + c / 64
            &&& s.len() > 2 ==> v.len() >= 4 && v[3] == c % 64 && v.skip(4) == base64_digits(
                s.skip(3),
            )
            &&& s.len() < 3 ==> v.len() == s.len() + 1
        }),
{
    let b = if s.len() > 1 {
        s[1] as int
    } else {
        0
    };
    let c = if s.len() > 2 {
        s[2] as int
    } else {
        0
    };
    lemma_triple(s[0] as int, b, c);
    assert(triple(s) == s[0] as int * 0x1_0000 + b * 0x100 + c);
    if s.len() >= 3 {
        assert(base64_digits(s).skip(4) =~= base64_digits(s.skip(3)));
    }
}

proof fn lemma_bytes_back(a: int, b: int, c: int)
    requires
        0 <= a < 256,
        0 <= b < 256,
        0 <= c < 256,
    ensures
        a / 4 * 4 + (a % 4 * 16 + b / 16) / 16 == a,
        (a % 4 * 16 + b / 16) % 16 * 16 + (b % 16 * 4 + c / 64) / 4 == b,
        (b % 16 * 4 + c / 64) % 4 * 64 + c % 64 == c,
{
}

proof fn lemma_packed(s: Seq<u8>)
    ensures
        packed(base64_digits(s)) == s,
    decreases s.len(),
{
    let v = base64_digits(s);
    if s.len() > 0 {
        lemma_group(s);
        let b = if s.len() > 1 {
            s[1] as int
        } else {
            0
        };
        let c = if s.len() > 2 {
            s[2] as int
        } else {
            0
        };
        lemma_bytes_back(s[0] as int, b, c);
        if s.len() > 2 {
            lemma_packed(s.skip(3));
        }
    }
    assert(packed(v) =~= s);
}

proof fn lemma_digit_read(v: int)
    requires
        0 <= v < 64,
    ensures
        base64_val(standard_digits()[v]) == Some(v as u8),
        !base64_filler(standard_digits()[v]),
        crate::acme::jose::url_char(v) == url_digits()[v],
{
    reveal_strlit("ABCDEFGHIJKLMNOPQRSTUVWXYZabcdefghijklmnopqrstuvwxyz0123456789+/");
    reveal_strlit("ABCDEFGHIJKLMNOPQRSTUVWXYZabcdefghijklmnopqrstuvwxyz0123456789-_");
}

proof fn lemma_sextets_text(v: Seq<u8>)
    requires
        forall|i: int| 0 <= i < v.len() ==> #[trigger] v[i] < 64,
    ensures
        sextets(v.map_values(|d: u8| standard_digits()[d as int])) == Some(v),
    decreases v.len(),
{
    let t = v.map_values(|d: u8| standard_digits()[d as int]);
    if v.len() > 0 {
        let w = v.drop_last();
        assert forall|i: int| 0 <= i < w.len() implies #[trigger] w[i] < 64 by {
            assert(w[i] == v[i]);
        }
        lemma_sextets_text(w);
        assert(t.drop_last() =~= w.map_values(|d: u8| standard_digits()[d as int]));
        assert(v[v.len() - 1] < 64);
        lemma_digit_read(v.last() as int);
        assert(t.last() == standard_digits()[v.last() as int]);
        assert(w.push(v.last()) =~= v);
    } else {
        assert(t =~= Seq::empty());
        assert(v =~= Seq::empty());
    }
}

/// Padding and white space behind a base64 text add nothing.
proof fn lemma_filled(s: Seq<char>, fill: Seq<char>)
    requires
        forall|i: int| 0 <= i < fill.len() ==> base64_filler(#[trigger] fill[i]),
    ensures
        sextets(s + fill) == sextets(s),
    decreases fill.len(),
{
    if fill.len() == 0 {
        assert(s + fill =~= s);
    } else {
        let f = fill.drop_last();
        assert(base64_filler(fill[fill.len() - 1]));
        assert forall|i: int| 0 <= i < f.len() implies base64_filler(#[trigger] f[i]) by {
            assert(f[i] == fill[i]);
        }
        lemma_filled(s, f);
        assert((s + fill).drop_last() =~= s + f);
    }
}

/// Bytes that are written in base64, with or without padding, are read back.
pub proof fn law_base64_reads_back(s: Seq<u8>, padding: nat)
    ensures
        base64_of(base64_text(s, standard_digits()) + Seq::new(padding, |i: int| '=')) == Some(s),
{
    lemma_digits_small(s);
    lemma_packed(s);
    lemma_sextets_text(base64_digits(s));
    lemma_filled(base64_text(s, standard_digits()), Seq::new(padding, |i: int| '='));
}

/// A text with a character that is neither a digit of base64 nor padding nor white
/// space is not base64.
pub proof fn law_base64_refuses_other_characters(s: Seq<char>, i: int)
    requires
        0 <= i < s.len(),
        !standard_digits().contains(s[i]),
        !base64_filler(s[i]),
    ensures
        base64_of(s) is None,
    decreases s.len(),
{
    if base64_val(s[i]) is Some {
        let v = base64_val(s[i])->0 as int;
        lemma_value_is_place(s[i]);
        assert(standard_digits()[v] == s[i]);
    }
    if i < s.len() - 1 {
        assert(s.drop_last()[i] == s[i]);
        law_base64_refuses_other_characters(s.drop_last(), i);
    }
}

proof fn lemma_value_is_place(c: char)
    requires
        base64_val(c) is Some,
    ensures
        base64_val(c)->0 < 64,
        standard_digits()[base64_val(c)->0 as int] == c,
        standard_digits().len() == 64,
{
    reveal_strlit("ABCDEFGHIJKLMNOPQRSTUVWXYZabcdefghijklmnopqrstuvwxyz0123456789+/");
}

/// What is written in base64 for URLs is just that: the digits of the bytes in base
/// 64, without padding.
pub proof fn law_b64url_is_base64(s: Seq<u8>)
    ensures
        b64url_of(s) == base64_text(s, url_digits()),
    decreases s.len(),
{
    let v = base64_digits(s);
    let t = base64_text(s, url_digits());
    lemma_digits_small(s);
    if s.len() > 0 {
        lemma_group(s);
        lemma_digit_read(v[0] as int);
        lemma_digit_read(v[1] as int);
        if s.len() > 1 {
            lemma_digit_read(v[2] as int);
        }
        if s.len() > 2 {
            lemma_digit_read(v[3] as int);
            law_b64url_is_base64(s.skip(3));
            assert(t.skip(4) =~= base64_text(s.skip(3), url_digits()));
            assert(t =~= t.take(4) + t.skip(4));
        }
    }
    assert(b64url_of(s) =~= t);
}

// ---------------------------------------------------------------------------
// PEM
// ---------------------------------------------------------------------------

/// A PEM block: its markers around its body.
pub open spec fn pem_block(label: Seq<char>, body: Seq<char>) -> Seq<char> {
    "-----BEGIN "@ + label + "-----"@ + body + "-----END "@ + label + "-----"@
}

/// Whether there is no dash in a text.
pub open spec fn dashless(s: Seq<char>) -> bool {
    forall|i: int| 0 <= i < s.len() ==> #[trigger] s[i] != '-'
}

proof fn lemma_first_place(s: Seq<char>, p: Seq<char>, from: int, k: int)
    requires
        0 <= from <= k,
        stands_at(s, p, k),
        forall|j: int| from <= j < k ==> !stands_at(s, p, j),
    ensures
        find_text(s, p, from) == Some(k),
{
    law_find_text(s, p, from);
}

/// Searching behind a text is searching in what follows it.
proof fn lemma_find_behind(x: Seq<char>, y: Seq<char>, p: Seq<char>, i: int)
    requires
        0 <= i,
    ensures
        find_text(x + y, p, x.len() + i) == match find_text(y, p, i) {
            Some(k) => Some(k + x.len()),
            None => None,
        },
    decreases y.len() + 1 - i,
{
    let s = x + y;
    if i + p.len() <= y.len() {
        assert(s.subrange(x.len() + i, x.len() + i + p.len()) =~= y.subrange(i, i + p.len()));
        lemma_find_behind(x, y, p, i + 1);
    }
}

proof fn lemma_find_bounds(s: Seq<char>, p: Seq<char>, from: int)
    requires
        0 <= from,
    ensures
        find_text(s, p, from) matches Some(k) ==> from <= k && k + p.len() <= s.len(),
{
    law_find_text(s, p, from);
}

proof fn lemma_blocks_behind(x: Seq<char>, y: Seq<char>, i: int)
    requires
        0 <= i,
    ensures
        blocks_from(x + y, x.len() + i) == blocks_from(y, i),
    decreases y.len() - i,
{
    let s = x + y;
    let n = x.len() as int;
    let begin = "-----BEGIN "@;
    let dashes = "-----"@;
    reveal_strlit("-----BEGIN ");
    reveal_strlit("-----");
    lemma_find_behind(x, y, begin, i);
    lemma_find_bounds(y, begin, i);
    if let Some(b) = find_text(y, begin, i) {
        let a = b + begin.len();
        lemma_find_behind(x, y, dashes, a);
        lemma_find_bounds(y, dashes, a);
        if let Some(e) = find_text(y, dashes, a) {
            let label = y.subrange(a, e);
            assert(s.subrange(n + a, n + e) =~= label);
            let body = e + dashes.len();
            lemma_find_behind(x, y, end_marker(label), body);
            lemma_find_bounds(y, end_marker(label), body);
            if let Some(p) = find_text(y, end_marker(label), body) {
                let end = p + end_marker(label).len();
                assert(s.subrange(n + body, n + p) =~= y.subrange(body, p));
                assert(s.subrange(n + b, n + end) =~= y.subrange(b, end));
                lemma_blocks_behind(x, y, end);
                assert(block_at(y, i) == Some((b, label, body, p, end)));
                assert(block_at(s, n + i) == Some((n + b, label, n + body, n + p, n + end)));
            }
        }
    }
}

/// Where the parts of a PEM block are found.
proof fn lemma_block_found(pre: Seq<char>, label: Seq<char>, body: Seq<char>, post: Seq<char>)
    requires
        dashless(pre),
        dashless(label),
        dashless(body),
    ensures
        ({
            let s = pre + pem_block(label, body) + post;
            let n = pre.len() as int;
            let l = label.len() as int;
            let at = n + 11 + l + 5;
            block_at(s, 0) == Some(
                (n, label, at, at + body.len(), at + body.len() + end_marker(label).len()),
            )
        }),
{
    reveal_strlit("-----BEGIN ");
    reveal_strlit("-----");
    reveal_strlit("-----END ");
    let begin = "-----BEGIN "@;
    let dashes = "-----"@;
    let mark = end_marker(label);
    let s = pre + pem_block(label, body) + post;
    let n = pre.len() as int;
    let l = label.len() as int;
    let a = n + 11;
    let e = a + l;
    let at = e + 5;
    let p = at + body.len();
    assert(s.subrange(n, n + 11) =~= begin);
    assert forall|j: int| 0 <= j < n implies !stands_at(s, begin, j) by {
        if stands_at(s, begin, j) {
            assert(s.subrange(j, j + 11)[0] == '-');
            assert(s[j] == pre[j]);
        }
    }
    lemma_first_place(s, begin, 0, n);
    assert(s.subrange(e, e + 5) =~= dashes);
    assert forall|j: int| a <= j < e implies !stands_at(s, dashes, j) by {
        if stands_at(s, dashes, j) {
            assert(s.subrange(j, j + 5)[0] == '-');
            assert(s[j] == label[j - a]);
        }
    }
    lemma_first_place(s, dashes, a, e);
    assert(s.subrange(a, e) =~= label);
    assert(s.subrange(p, p + mark.len()) =~= mark);
    assert forall|j: int| at <= j < p implies !stands_at(s, mark, j) by {
        if stands_at(s, mark, j) {
            assert(s.subrange(j, j + mark.len())[0] == mark[0]);
            assert(mark[0] == '-');
            assert(s[j] == body[j - at]);
        }
    }
    lemma_first_place(s, mark, at, p);
}

/// A document is read block by block: the first block, whatever dashless text stands
/// before it, with its label, its text and the bytes that its body spells, and then
/// the blocks of what follows. A block whose body is no base64 is passed over.
pub proof fn law_pem_is_read_block_by_block(
    pre: Seq<char>,
    label: Seq<char>,
    body: Seq<char>,
    post: Seq<char>,
)
    requires
        dashless(pre),
        dashless(label),
        dashless(body),
    ensures
        blocks_from(pre + pem_block(label, body) + post, 0) == match base64_of(body) {
            Some(der) => seq![PemModel { label, text: pem_block(label, body), der }] + blocks_from(
                post,
                0,
            ),
            None => blocks_from(post, 0),
        },
{
    reveal_strlit("-----BEGIN ");
    reveal_strlit("-----");
    reveal_strlit("-----END ");
    let block = pem_block(label, body);
    let s = pre + block + post;
    let n = pre.len() as int;
    let at = n + 11 + label.len() + 5;
    let p = at + body.len();
    let end = p + end_marker(label).len();
    lemma_block_found(pre, label, body, post);
    assert(block.len() == end - n);
    assert(s.subrange(at, p) =~= body);
    assert(s.subrange(n, end) =~= block);
    lemma_blocks_behind(pre + block, post, 0);
    assert((pre + block).len() == end);
}

/// A text without a block has none.
pub proof fn law_no_pem_no_blocks(s: Seq<char>)
    requires
        dashless(s),
    ensures
        blocks_from(s, 0) == Seq::<PemModel>::empty(),
{
    reveal_strlit("-----BEGIN ");
    law_find_text(s, "-----BEGIN "@, 0);
    if let Some(i) = find_text(s, "-----BEGIN "@, 0) {
        assert(s.subrange(i, i + 11)[0] == '-');
        assert(s[i] == '-');
    }
}

/// The blocks with a label are those of each part of a document, in order.
pub proof fn law_labelled_blocks(a: Seq<PemModel>, b: Seq<PemModel>, one: PemModel, label: Seq<char>)
    ensures
        labelled(a + b, label) == labelled(a, label) + labelled(b, label),
        labelled(seq![one], label) == if one.label == label {
            seq![one.der]
        } else {
            Seq::empty()
        },
    decreases b.len(),
{
    reveal_with_fuel(labelled, 2);
    assert(seq![one].drop_last() =~= Seq::empty());
    assert(labelled(seq![one], one.label) =~= seq![one.der]);
    if b.len() == 0 {
        assert(a + b =~= a);
    } else {
        assert((a + b).drop_last() =~= a + b.drop_last());
        law_labelled_blocks(a, b.drop_last(), one, label);
    }
    assert(labelled(a + b, label) =~= labelled(a, label) + labelled(b, label));
}

} // verus!
