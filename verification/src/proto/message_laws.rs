//! Laws of messages: what is written as a request is read as that request, and
//! what a response says is what is written.
use crate::bytes::{find, lemma_find_is, occurs_at};
use crate::proto::chunk::{chunk_encoded, law_chunks_round_trip, put_together};
use crate::proto::conn::{
    field_lines, head_end, replied, reply_fields, reply_head, request_in, ConnModel, InputOutcome,
    Limits, Pending,
};
use crate::proto::head::{
    field_value, fields_of, find_break, framing_of, head_of, line_field, lines, stray_break, tchar,
    token, value_char, BodyFraming, HeadModel, MAX_HEADER_FIELDS,
};
use crate::proto::headers::Fields;
use crate::proto::laws::{law_one_line_per_field, lemma_line_then, sent_lines};
use crate::proto::method::MethodModel;
use crate::proto::response::{BodyModel, ResponseModel};
use crate::proto::version::Version;
use crate::text::{concat, decimal, law_split_once, law_split_undoes_joining, law_trim, tight};
use vstd::prelude::*;
use vstd::utf8::{encode_scalar, encode_utf8};

verus! {

broadcast use vstd::seq::group_seq_axioms;

// ---------------------------------------------------------------------------
// Texts as bytes
// ---------------------------------------------------------------------------

/// The bytes of two texts, one after the other, are those of each.
pub proof fn lemma_encode_concat(a: Seq<char>, b: Seq<char>)
    ensures
        encode_utf8(a + b) == encode_utf8(a) + encode_utf8(b),
    decreases a.len(),
{
    if a.len() == 0 {
        assert(a + b =~= b);
        assert(encode_utf8(a) + encode_utf8(b) =~= encode_utf8(b));
    } else {
        assert((a + b).drop_first() =~= a.drop_first() + b);
        lemma_encode_concat(a.drop_first(), b);
        assert((a + b)[0] == a[0]);
        assert(encode_utf8(a + b) =~= encode_utf8(a) + encode_utf8(b));
    }
}

/// Different texts have different bytes.
pub proof fn lemma_encode_injective(a: Seq<char>, b: Seq<char>)
    requires
        encode_utf8(a) == encode_utf8(b),
    ensures
        a == b,
{
    vstd::utf8::encode_utf8_decode_utf8(a);
    vstd::utf8::encode_utf8_decode_utf8(b);
}

/// Whether no line break is among the bytes.
pub open spec fn breakless(b: Seq<u8>) -> bool {
    forall|i: int| 0 <= i < b.len() ==> #[trigger] b[i] != 13 && b[i] != 10
}

proof fn lemma_wide_bytes(u: u32)
    by (bit_vector)
    ensures
        0xC0u8 | ((u >> 6) & 0x1F) as u8 >= 0x80u8,
        0xE0u8 | ((u >> 12) & 0x0F) as u8 >= 0x80u8,
        0xF0u8 | ((u >> 18) & 0x7) as u8 >= 0x80u8,
        0x80u8 | (u & 0x3F) as u8 >= 0x80u8,
        0x80u8 | ((u >> 6) & 0x3F) as u8 >= 0x80u8,
        0x80u8 | ((u >> 12) & 0x3F) as u8 >= 0x80u8,
        u < 0x80 ==> (u & 0x7F) as u8 == u,
{
}

/// Every ASCII byte of a text is a character of it, and the first one is the first.
pub proof fn lemma_ascii_bytes(s: Seq<char>)
    ensures
        forall|i: int|
            0 <= i < encode_utf8(s).len() && #[trigger] encode_utf8(s)[i] < 0x80 ==> s.contains(
                encode_utf8(s)[i] as char,
            ),
        s.len() > 0 ==> encode_utf8(s).len() > 0 && (encode_utf8(s)[0] < 0x80 ==> encode_utf8(
            s,
        )[0] as char == s[0]),
    decreases s.len(),
{
    if s.len() > 0 {
        let c = s[0];
        let t = s.drop_first();
        lemma_ascii_bytes(t);
        let u = c as u32;
        lemma_wide_bytes(u);
        vstd::utf8::char_is_scalar(c);
        vstd::utf8::char_u32_cast(c, u);
        let e = encode_scalar(u);
        let all = encode_utf8(s);
        assert(all[0] == e[0]);
        assert(u < 0x80 ==> e[0] as char == c);
        assert forall|i: int| 0 <= i < all.len() && #[trigger] all[i] < 0x80 implies s.contains(
            all[i] as char,
        ) by {
            if i < e.len() {
                assert(all[i] == e[i]);
                assert(s.contains(s[0]));
            } else {
                let k = i - e.len();
                assert(all[i] == encode_utf8(t)[k]);
                let j = choose|j: int| 0 <= j < t.len() && t[j] == encode_utf8(t)[k] as char;
                assert(s[j + 1] == t[j]);
            }
        }
    }
}

/// A text without line breaks has none in its bytes, and is as empty as they are.
pub proof fn lemma_breakless(s: Seq<char>)
    requires
        !s.contains('\r'),
        !s.contains('\n'),
    ensures
        breakless(encode_utf8(s)),
        s.len() > 0 ==> encode_utf8(s).len() > 0,
    decreases s.len(),
{
    if s.len() > 0 {
        let c = s[0];
        let t = s.drop_first();
        assert(s.contains(s[0]));
        assert forall|i: int| 0 <= i < t.len() implies t[i] != '\r' && t[i] != '\n' by {
            assert(t[i] == s[i + 1]);
            assert(s.contains(s[i + 1]));
        }
        lemma_breakless(t);
        let u = c as u32;
        lemma_wide_bytes(u);
        vstd::utf8::char_is_scalar(c);
        assert(u != 13) by {
            if u == 13 {
                vstd::utf8::char_u32_cast(c, u);
                assert(13u32 as char == '\r');
            }
        }
        assert(u != 10) by {
            if u == 10 {
                vstd::utf8::char_u32_cast(c, u);
                assert(10u32 as char == '\n');
            }
        }
        let e = encode_scalar(c as u32);
        assert(breakless(e)) by {
            assert forall|i: int| 0 <= i < e.len() implies #[trigger] e[i] != 13 && e[i] != 10 by {}
        }
        let all = encode_utf8(s);
        assert forall|i: int| 0 <= i < all.len() implies #[trigger] all[i] != 13 && all[i] != 10 by {
            if i < e.len() {
                assert(all[i] == e[i]);
            } else {
                assert(all[i] == encode_utf8(t)[i - e.len()]);
            }
        }
    }
}

// ---------------------------------------------------------------------------
// Requests
// ---------------------------------------------------------------------------

/// Lines with a line break between any two.
pub open spec fn lined(ls: Seq<Seq<char>>) -> Seq<char>
    decreases ls.len(),
{
    if ls.len() == 0 {
        Seq::empty()
    } else if ls.len() == 1 {
        ls[0]
    } else {
        ls[0] + "\r\n"@ + lined(ls.skip(1))
    }
}

/// Whether lines are not empty and without breaks in them.
pub open spec fn solid(ls: Seq<Seq<char>>) -> bool {
    forall|i: int|
        0 <= i < ls.len() ==> (#[trigger] ls[i]).len() > 0 && !ls[i].contains('\r')
            && !ls[i].contains('\n')
}

proof fn lemma_no_break(x: Seq<char>)
    requires
        !x.contains('\r'),
    ensures
        find_break(x) is None,
    decreases x.len(),
{
    if x.len() >= 2 {
        assert(x.contains(x[0]));
        assert forall|i: int| 0 <= i < x.skip(1).len() implies x.skip(1)[i] != '\r' by {
            assert(x.skip(1)[i] == x[i + 1]);
            assert(x.contains(x[i + 1]));
        }
        lemma_no_break(x.skip(1));
    }
}

/// Lines that are put together come apart again.
pub proof fn law_lines_come_apart(ls: Seq<Seq<char>>)
    requires
        ls.len() > 0,
        solid(ls),
    ensures
        lines(lined(ls)) == ls,
    decreases ls.len(),
{
    assert(ls[0].len() > 0);
    if ls.len() == 1 {
        lemma_no_break(ls[0]);
        assert(ls =~= seq![ls[0]]);
    } else {
        let rest = ls.skip(1);
        assert forall|i: int| 0 <= i < rest.len() implies (#[trigger] rest[i]).len() > 0
            && !rest[i].contains('\r') && !rest[i].contains('\n') by {
            assert(rest[i] == ls[i + 1]);
        }
        law_lines_come_apart(rest);
        assert forall|i: int| 0 <= i < ls[0].len() implies #[trigger] ls[0][i] != '\r' by {
            assert(ls[0].contains(ls[0][i]));
        }
        lemma_line_then(ls[0], lined(rest));
        assert(ls =~= seq![ls[0]] + rest);
    }
}

/// Whether breaks come in pairs, no two of them together, and not at the front.
spec fn paired(h: Seq<u8>) -> bool {
    &&& h.len() > 0
    &&& h[0] != 13 && h[0] != 10
    &&& h.last() != 13 && h.last() != 10
    &&& forall|i: int|
        0 <= i < h.len() ==> (#[trigger] h[i] == 13 ==> h[i + 1] == 10) && (h[i] == 10 ==> h[i - 1]
            == 13 && h[i + 1] != 13)
}

proof fn lemma_paired(ls: Seq<Seq<char>>)
    requires
        ls.len() > 0,
        solid(ls),
    ensures
        paired(encode_utf8(lined(ls))),
    decreases ls.len(),
{
    assert(ls[0].len() > 0);
    lemma_breakless(ls[0]);
    let a = encode_utf8(ls[0]);
    if ls.len() > 1 {
        let rest = ls.skip(1);
        assert forall|i: int| 0 <= i < rest.len() implies (#[trigger] rest[i]).len() > 0
            && !rest[i].contains('\r') && !rest[i].contains('\n') by {
            assert(rest[i] == ls[i + 1]);
        }
        lemma_paired(rest);
        lemma_encode_concat(ls[0] + "\r\n"@, lined(rest));
        lemma_encode_concat(ls[0], "\r\n"@);
        lemma_crlf();
        let b = encode_utf8(lined(rest));
        let h = a + seq![13u8, 10u8] + b;
        assert(encode_utf8(lined(ls)) =~= h);
        assert forall|i: int| 0 <= i < h.len() implies (#[trigger] h[i] == 13 ==> h[i + 1] == 10) && (
        h[i] == 10 ==> h[i - 1] == 13 && h[i + 1] != 13) by {
            let k = i - a.len() - 2;
            if i < a.len() {
                assert(h[i] == a[i]);
            } else if k >= 0 {
                assert(h[i] == b[k]);
                if k > 0 {
                    assert(h[i - 1] == b[k - 1]);
                }
                if k + 1 < b.len() {
                    assert(h[i + 1] == b[k + 1]);
                }
            } else if k == -1 {
                assert(h[i + 1] == b[0]);
            }
        }
        assert(h.last() == b.last());
        assert(h[0] == a[0]);
    }
}

/// The bytes of a line break.
pub proof fn lemma_crlf()
    ensures
        encode_utf8("\r\n"@) == seq![13u8, 10u8],
{
    reveal_strlit("\r\n");
    lemma_wide_bytes(13);
    lemma_wide_bytes(10);
    let s = "\r\n"@;
    assert(s.drop_first().drop_first() =~= Seq::empty());
    reveal_with_fuel(encode_utf8, 3);
    assert(encode_utf8(s) =~= seq![13u8, 10u8]);
}

proof fn lemma_no_stray(h: Seq<u8>, i: int)
    requires
        paired(h),
        0 <= i,
    ensures
        stray_break(h, i) is None,
    decreases h.len() - i,
{
    if i < h.len() {
        lemma_no_stray(h, i + 1);
    }
}

proof fn lemma_end_found(h: Seq<u8>, more: Seq<u8>)
    requires
        paired(h),
    ensures
        find(h + head_end() + more, head_end()) == Some(h.len() as int),
{
    let s = h + head_end() + more;
    let n = h.len() as int;
    assert(s.subrange(n, n + 4) =~= head_end());
    assert forall|j: int| 0 <= j < n implies !#[trigger] occurs_at(s, head_end(), j) by {
        if occurs_at(s, head_end(), j) {
            let w = s.subrange(j, j + 4);
            assert(w[0] == 13 && w[1] == 10 && w[2] == 13);
            assert(s[j] == 13 && s[j + 1] == 10 && s[j + 2] == 13);
            assert(s[j] == h[j]);
            if j + 1 < n {
                assert(s[j + 1] == h[j + 1]);
                if j + 2 < n {
                    assert(s[j + 2] == h[j + 2]);
                }
            }
        }
    }
    lemma_find_is(s, head_end(), n);
}

/// A header field as it is written, with the blanks around its value.
pub struct WrittenField {
    pub name: Seq<char>,
    pub before: Seq<char>,
    pub value: Seq<char>,
    pub after: Seq<char>,
}

/// Whether a text is blanks and tabs alone.
pub open spec fn blank(s: Seq<char>) -> bool {
    forall|i: int| 0 <= i < s.len() ==> #[trigger] s[i] == ' ' || s[i] == '\t'
}

impl WrittenField {
    pub open spec fn wf(self) -> bool {
        &&& token(self.name)
        &&& field_value(self.value)
        &&& tight(self.value)
        &&& blank(self.before)
        &&& blank(self.after)
    }

    /// The field as a header line.
    pub open spec fn line(self) -> Seq<char> {
        self.name + seq![':'] + (self.before + self.value + self.after)
    }
}

/// The lines of header fields.
pub open spec fn written_lines(f: Seq<WrittenField>) -> Seq<Seq<char>> {
    f.map_values(|w: WrittenField| w.line())
}

/// The names and values of header fields.
pub open spec fn written_fields(f: Seq<WrittenField>) -> Fields {
    f.map_values(|w: WrittenField| (w.name, w.value))
}

proof fn lemma_written_line(w: WrittenField)
    requires
        w.wf(),
    ensures
        w.line().len() > 0,
        !w.line().contains('\r'),
        !w.line().contains('\n'),
        w.line()[0] != ' ' && w.line()[0] != '\t',
        line_field(w.line()) == Ok::<(Seq<char>, Seq<char>), Seq<char>>((w.name, w.value)),
{
    let l = w.line();
    let rest = w.before + w.value + w.after;
    let n = w.name.len();
    assert(tchar(w.name[0]));
    assert(l[0] == w.name[0]);
    assert forall|i: int| 0 <= i < l.len() implies l[i] != '\r' && l[i] != '\n' by {
        if i < n {
            assert(tchar(w.name[i]));
        } else if i > n {
            let k = i - n - 1;
            assert(l[i] == rest[k]);
            if k < w.before.len() {
                assert(rest[k] == w.before[k]);
            } else if k < w.before.len() + w.value.len() {
                assert(rest[k] == w.value[k - w.before.len()]);
                assert(value_char(w.value[k - w.before.len()]));
            } else {
                assert(rest[k] == w.after[k - w.before.len() - w.value.len()]);
            }
        }
    }
    assert(!w.name.contains(':')) by {
        if w.name.contains(':') {
            let i = choose|i: int| 0 <= i < n && w.name[i] == ':';
            assert(tchar(w.name[i]));
        }
    }
    law_split_once(w.name, rest, ':');
    law_trim(w.before, w.value, w.after);
}

proof fn lemma_fields_read(f: Seq<WrittenField>, acc: Fields)
    requires
        forall|i: int| 0 <= i < f.len() ==> (#[trigger] f[i]).wf(),
        acc.len() + f.len() <= MAX_HEADER_FIELDS,
    ensures
        fields_of(written_lines(f), acc) == Ok::<Fields, Seq<char>>(acc + written_fields(f)),
    decreases f.len(),
{
    let ls = written_lines(f);
    if f.len() == 0 {
        assert(acc + written_fields(f) =~= acc);
    } else {
        let g = f.skip(1);
        assert(f[0].wf());
        lemma_written_line(f[0]);
        assert(ls[0] == f[0].line());
        assert(ls.skip(1) =~= written_lines(g));
        assert forall|i: int| 0 <= i < g.len() implies (#[trigger] g[i]).wf() by {
            assert(g[i] == f[i + 1]);
        }
        let p = (f[0].name, f[0].value);
        lemma_fields_read(g, acc.push(p));
        assert(acc.push(p) + written_fields(g) =~= acc + written_fields(f));
    }
}

/// A word of a request line.
pub open spec fn request_word(s: Seq<char>) -> bool {
    s.len() > 0 && !s.contains(' ') && !s.contains('\r') && !s.contains('\n')
}

/// The head of a request as it is written: the request line, then a line for each
/// field.
pub open spec fn head_text(
    method: Seq<char>,
    target: Seq<char>,
    version: Seq<char>,
    f: Seq<WrittenField>,
) -> Seq<char> {
    lined(seq![method + seq![' '] + target + seq![' '] + version] + written_lines(f))
}

/// A head that is written is read as what it says: the method, the target and the
/// version of the request line, and the fields in order, each name with its value.
pub proof fn law_written_head_is_read(
    method: Seq<char>,
    target: Seq<char>,
    version: Seq<char>,
    f: Seq<WrittenField>,
)
    requires
        request_word(method),
        request_word(target),
        request_word(version),
        f.len() <= MAX_HEADER_FIELDS,
        forall|i: int| 0 <= i < f.len() ==> (#[trigger] f[i]).wf(),
    ensures
        head_of(encode_utf8(head_text(method, target, version, f))) == Ok::<HeadModel, Seq<char>>(
            HeadModel {
                method: MethodModel::of_token(method),
                target,
                version: Version::of_token(version),
                headers: written_fields(f),
            },
        ),
{
    let line = method + seq![' '] + target + seq![' '] + version;
    let ls = seq![line] + written_lines(f);
    lemma_solid(method, target, version, f);
    law_lines_come_apart(ls);
    lemma_paired(ls);
    let text = lined(ls);
    let head = encode_utf8(text);
    lemma_no_stray(head, 0);
    vstd::utf8::encode_utf8_valid_utf8(text);
    vstd::utf8::encode_utf8_decode_utf8(text);
    let words = seq![method, target, version];
    assert(concat(words, seq![' ']) =~= line) by {
        reveal_with_fuel(concat, 3);
        assert(words.drop_last() =~= seq![method, target]);
        assert(seq![method, target].drop_last() =~= seq![method]);
    }
    assert forall|i: int| 0 <= i < words.len() implies !(#[trigger] words[i]).contains(' ') by {}
    law_split_undoes_joining(words, ' ');
    assert(ls.skip(1) =~= written_lines(f));
    lemma_fields_read(f, Seq::empty());
    assert(Seq::<(Seq<char>, Seq<char>)>::empty() + written_fields(f) =~= written_fields(f));
}

proof fn lemma_solid(
    method: Seq<char>,
    target: Seq<char>,
    version: Seq<char>,
    f: Seq<WrittenField>,
)
    requires
        request_word(method),
        request_word(target),
        request_word(version),
        forall|i: int| 0 <= i < f.len() ==> (#[trigger] f[i]).wf(),
    ensures
        solid(seq![method + seq![' '] + target + seq![' '] + version] + written_lines(f)),
{
    let line = method + seq![' '] + target + seq![' '] + version;
    let ls = seq![line] + written_lines(f);
    assert forall|i: int| 0 <= i < line.len() implies line[i] != '\r' && line[i] != '\n' by {
        let a = method.len();
        let b = a + 1 + target.len();
        if i < a {
            assert(method.contains(method[i]));
        } else if a < i && i < b {
            assert(line[i] == target[i - a - 1]);
            assert(target.contains(target[i - a - 1]));
        } else if i > b {
            assert(line[i] == version[i - b - 1]);
            assert(version.contains(version[i - b - 1]));
        }
    }
    assert forall|i: int| 0 <= i < ls.len() implies (#[trigger] ls[i]).len() > 0
        && !ls[i].contains('\r') && !ls[i].contains('\n') by {
        if i > 0 {
            assert(f[i - 1].wf());
            lemma_written_line(f[i - 1]);
            assert(ls[i] == f[i - 1].line());
        }
    }
}

/// A request that is written is read as what it says, and ends where it ends: its
/// head, an empty line and as many bytes as the head promises are the request,
/// with just those bytes for a body, whatever follows.
pub proof fn law_written_request_is_read(
    method: Seq<char>,
    target: Seq<char>,
    version: Version,
    f: Seq<WrittenField>,
    body: Seq<u8>,
    more: Seq<u8>,
    limits: Limits,
)
    requires
        request_word(method),
        request_word(target),
        version == Version::Http10 || version == Version::Http11,
        f.len() <= MAX_HEADER_FIELDS,
        forall|i: int| 0 <= i < f.len() ==> (#[trigger] f[i]).wf(),
        encode_utf8(head_text(method, target, version.token(), f)).len() <= limits.max_header_bytes,
        body.len() <= limits.max_body_bytes,
        framing_of(written_fields(f)) == if body.len() == 0 {
            Some(BodyFraming::Empty)
        } else {
            Some(BodyFraming::Length(body.len() as usize))
        },
    ensures
        ({
            let head = encode_utf8(head_text(method, target, version.token(), f)) + head_end();
            request_in(head + body + more, limits) == InputOutcome::Ready {
                used: (head + body).len(),
                request: crate::proto::request::RequestModel {
                    method: MethodModel::of_token(method),
                    target,
                    version,
                    headers: written_fields(f),
                    body,
                    params: Seq::empty(),
                },
            }
        }),
{
    let h = encode_utf8(head_text(method, target, version.token(), f));
    lemma_version_word(version);
    crate::proto::version::law_version_token_round_trip(version);
    law_written_head_is_read(method, target, version.token(), f);
    lemma_solid(method, target, version.token(), f);
    lemma_paired(
        seq![method + seq![' '] + target + seq![' '] + version.token()] + written_lines(f),
    );
    lemma_end_found(h, body + more);
    let s = h + head_end() + body + more;
    assert(s =~= h + head_end() + (body + more));
    assert(s.take(h.len() as int) =~= h);
    let start = h.len() as int + 4;
    if body.len() == 0 {
        assert(body =~= Seq::empty());
    } else {
        assert(s.subrange(start, start + body.len()) =~= body);
    }
}

proof fn lemma_version_word(version: Version)
    requires
        version == Version::Http10 || version == Version::Http11,
    ensures
        request_word(version.token()),
{
    reveal_strlit("HTTP/1.0");
    reveal_strlit("HTTP/1.1");
    let t = version.token();
    assert forall|i: int| 0 <= i < t.len() implies t[i] != ' ' && t[i] != '\r' && t[i] != '\n' by {}
}

/// A request whose body comes in chunks is read with the chunks put together.
pub proof fn law_chunked_request_is_read(
    method: Seq<char>,
    target: Seq<char>,
    version: Version,
    f: Seq<WrittenField>,
    chunks: Seq<Seq<u8>>,
    more: Seq<u8>,
    limits: Limits,
)
    requires
        request_word(method),
        request_word(target),
        version == Version::Http10 || version == Version::Http11,
        f.len() <= MAX_HEADER_FIELDS,
        forall|i: int| 0 <= i < f.len() ==> (#[trigger] f[i]).wf(),
        encode_utf8(head_text(method, target, version.token(), f)).len() <= limits.max_header_bytes,
        forall|i: int| 0 <= i < chunks.len() ==> (#[trigger] chunks[i]).len() > 0,
        put_together(chunks).len() <= limits.max_body_bytes,
        framing_of(written_fields(f)) == Some(BodyFraming::Chunked),
    ensures
        ({
            let head = encode_utf8(head_text(method, target, version.token(), f)) + head_end();
            let coded = chunk_encoded(chunks);
            request_in(head + coded + more, limits) == InputOutcome::Ready {
                used: (head + coded).len(),
                request: crate::proto::request::RequestModel {
                    method: MethodModel::of_token(method),
                    target,
                    version,
                    headers: written_fields(f),
                    body: put_together(chunks),
                    params: Seq::empty(),
                },
            }
        }),
{
    let h = encode_utf8(head_text(method, target, version.token(), f));
    let coded = chunk_encoded(chunks);
    lemma_version_word(version);
    crate::proto::version::law_version_token_round_trip(version);
    law_written_head_is_read(method, target, version.token(), f);
    lemma_solid(method, target, version.token(), f);
    lemma_paired(
        seq![method + seq![' '] + target + seq![' '] + version.token()] + written_lines(f),
    );
    lemma_end_found(h, coded + more);
    let s = h + head_end() + coded + more;
    assert(s =~= h + head_end() + (coded + more));
    assert(s.take(h.len() as int) =~= h);
    assert(s.skip(h.len() as int + 4) =~= coded + more);
    law_chunks_round_trip(chunks, more, limits.max_body_bytes as nat);
}

// ---------------------------------------------------------------------------
// Responses
// ---------------------------------------------------------------------------

/// The head of a response is a status line of version, code and phrase, a line for
/// each field that can be sent, and an empty line.
pub proof fn law_response_head_lines(
    version: Version,
    status: crate::proto::status::StatusCode,
    f: Fields,
)
    requires
        !status.reason@.contains('\r'),
    ensures
        lines(reply_head(version, status, f)) == seq![
            version.token() + seq![' '] + decimal(status.code as nat) + seq![' '] + status.reason@,
        ] + sent_lines(f) + seq![Seq::empty(), Seq::empty()],
{
    reveal_strlit(" ");
    reveal_strlit("\r\n");
    reveal_strlit("HTTP/1.0");
    reveal_strlit("HTTP/1.1");
    reveal_strlit("HTTP/2");
    reveal_strlit("HTTP/3");
    let d = decimal(status.code as nat);
    let v = version.token();
    let first = v + " "@ + d + " "@ + status.reason@;
    let want = v + seq![' '] + d + seq![' '] + status.reason@;
    assert(" "@ =~= seq![' ']);
    assert(first =~= want);
    crate::text::lemma_numeral(status.code as nat, 10);
    let t = field_lines(f) + "\r\n"@;
    assert(reply_head(version, status, f) =~= first + "\r\n"@ + t);
    assert forall|i: int| 0 <= i < first.len() implies #[trigger] first[i] != '\r' by {
        let a = v.len() + 1;
        let b = a + d.len();
        if i < v.len() {
            assert(first[i] == v[i]);
        } else if a <= i && i < b {
            assert(first[i] == d[i - a]);
            assert(crate::text::digit_val(d[i - a], 10) is Some);
        } else if i > b {
            assert(first[i] == status.reason@[i - b - 1]);
            assert(status.reason@.contains(status.reason@[i - b - 1]));
        }
    }
    lemma_line_then(first, t);
    law_one_line_per_field(f, "\r\n"@);
    let e = Seq::<char>::empty();
    lemma_line_then(e, e);
    assert(e + "\r\n"@ + e =~= "\r\n"@);
    lemma_no_break(e);
    assert(lines("\r\n"@) =~= seq![e, e]);
    assert(seq![first] + (sent_lines(f) + lines("\r\n"@)) =~= seq![want] + sent_lines(f) + seq![e, e]);
}

/// A response goes out behind what was there: its head, then its body, all of it
/// where it is in memory and the request was not `HEAD`; a body in a file is left
/// to be streamed, from its offset on and in its full length.
pub proof fn law_response_is_head_and_body(
    c: ConnModel,
    meta: Pending,
    resp: ResponseModel,
    now: int,
)
    requires
        !meta.is_head,
        !resp.status.bodyless(),
    ensures
        ({
            let keep = meta.keep_alive && !c.closed;
            let head = encode_utf8(
                reply_head(
                    meta.version,
                    resp.status,
                    reply_fields(resp, keep, c.server_name, now),
                ),
            );
            let n = replied(c, meta, resp, now);
            &&& resp.body matches BodyModel::Bytes(b) ==> n.output == c.output + head + b && n.stream
                == c.stream
            &&& resp.body matches BodyModel::File { file, offset, len } ==> n.output == c.output + head
                && (len > 0 ==> (n.stream matches Some(s) && s.file == file && s.offset == offset
                && s.remaining == len))
            &&& n.closed == !keep
            &&& n.input == c.input
        }),
{
    let keep = meta.keep_alive && !c.closed;
    let head = encode_utf8(
        reply_head(meta.version, resp.status, reply_fields(resp, keep, c.server_name, now)),
    );
    assert(c.output + head + Seq::<u8>::empty() =~= c.output + head);
}

} // verus!
