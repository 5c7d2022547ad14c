//! Laws of static file serving: which file a request leads to, and which part of
//! it goes out.
use crate::path::joined;
use crate::proto::headers::{lemma_lookup_push, lookup, Fields};
use crate::proto::method::MethodModel;
use crate::proto::request::{path_of, RequestModel};
use crate::proto::response::BodyModel;
use crate::static_files::{
    decoded, descended, etag_of, file_response, first_step, hex_byte, idle_segment, located, looked,
    range_of, unescaped, unmodified, unsafe_segment, FileInfo, Stat, StepModel,
};
use crate::text::{
    concat, decimal, digit_val, eq_nocase, find_char, hexadecimal, law_digits, law_split_once,
    law_split_undoes_joining, law_strip_prefix, law_trim, lemma_find_char, lemma_numeral,
    lemma_split_around, lemma_unsplit, lower, parse_signed_digits, split, starts_with,
    strip_prefix, tight, trim, trim_start,
};
use vstd::prelude::*;
use vstd::utf8::encode_utf8;

verus! {

broadcast use vstd::seq::group_seq_axioms;

// ---------------------------------------------------------------------------
// Escapes
// ---------------------------------------------------------------------------

/// A byte as an escape: a percent sign and two hexadecimal digits, in upper or in
/// lower case.
pub open spec fn escape_of(b: u8, upper: bool) -> Seq<u8> {
    let digits = if upper {
        "0123456789ABCDEF"@
    } else {
        "0123456789abcdef"@
    };
    seq![0x25u8, digits[b as int / 16] as u8, digits[b as int % 16] as u8]
}

/// A byte string in which some bytes are escaped, as `how` says of each: not at
/// all, or in upper or lower case.
pub open spec fn escaped(b: Seq<u8>, how: Seq<Option<bool>>) -> Seq<u8>
    decreases b.len(),
{
    if b.len() == 0 || how.len() == 0 {
        Seq::empty()
    } else {
        (match how[0] {
            Some(upper) => escape_of(b[0], upper),
            None => seq![b[0]],
        }) + escaped(b.skip(1), how.skip(1))
    }
}

/// Decoding depends only on what is still to come.
proof fn lemma_unescaped_suffix(x: Seq<u8>, y: Seq<u8>, i: int)
    requires
        0 <= i <= y.len(),
    ensures
        unescaped(x + y, x.len() + i) == unescaped(y, i),
    decreases y.len() - i,
{
    let s = x + y;
    if i < y.len() {
        lemma_unescaped_suffix(x, y, i + 1);
        if i + 3 <= y.len() {
            lemma_unescaped_suffix(x, y, i + 3);
            assert(s[x.len() + i + 1] == y[i + 1]);
            assert(s[x.len() + i + 2] == y[i + 2]);
        }
        assert(s[x.len() + i] == y[i]);
    }
}

proof fn lemma_escape(b: u8, upper: bool)
    ensures
        ({
            let e = escape_of(b, upper);
            hex_byte(e[1], e[2]) == Some(b)
        }),
{
    let e = escape_of(b, upper);
    let h = b as int / 16;
    let l = b as int % 16;
    law_digits('0', h);
    law_digits('0', l);
    reveal_strlit("0123456789ABCDEF");
    reveal_strlit("0123456789abcdef");
    let digits = if upper {
        "0123456789ABCDEF"@
    } else {
        "0123456789abcdef"@
    };
    assert(digits[h] as u8 as char == digits[h]);
    assert(digits[l] as u8 as char == digits[l]);
    assert((h * 16 + l) as u8 == b);
}

/// Decoding undoes escaping, whichever bytes are escaped and in whatever case, so
/// long as every percent sign is.
pub proof fn law_decoding_undoes_escaping(b: Seq<u8>, how: Seq<Option<bool>>)
    requires
        how.len() == b.len(),
        forall|i: int| 0 <= i < b.len() && #[trigger] b[i] == 0x25 ==> how[i] is Some,
    ensures
        unescaped(escaped(b, how), 0) == b,
    decreases b.len(),
{
    let s = escaped(b, how);
    if b.len() > 0 {
        let c = b.skip(1);
        let g = how.skip(1);
        assert forall|i: int| 0 <= i < c.len() && #[trigger] c[i] == 0x25 implies g[i] is Some by {
            assert(c[i] == b[i + 1]);
        }
        law_decoding_undoes_escaping(c, g);
        let rest = escaped(c, g);
        match how[0] {
            Some(upper) => {
                let e = escape_of(b[0], upper);
                lemma_escape(b[0], upper);
                assert(s =~= e + rest);
                assert(s[0] == e[0] && s[1] == e[1] && s[2] == e[2]);
                lemma_unescaped_suffix(e, rest, 0);
            },
            None => {
                let e = seq![b[0]];
                assert(s =~= e + rest);
                assert(s[0] == b[0]);
                lemma_unescaped_suffix(e, rest, 0);
            },
        }
        assert(seq![b[0]] + c =~= b);
    }
}

/// A percent sign that no two hexadecimal digits follow stands for itself.
pub proof fn law_broken_escape_stands_for_itself(x: u8, y: u8, rest: Seq<u8>)
    requires
        !"0123456789abcdefABCDEF"@.contains(x as char) || !"0123456789abcdefABCDEF"@.contains(
            y as char,
        ),
    ensures
        unescaped(seq![0x25u8, x, y] + rest, 0) == seq![0x25u8] + unescaped(seq![x, y] + rest, 0),
        unescaped(seq![0x25u8, x], 0) == seq![0x25u8] + unescaped(seq![x], 0),
        unescaped(seq![0x25u8], 0) == seq![0x25u8],
{
    reveal_with_fuel(unescaped, 2);
    law_digits(x as char, 0);
    law_digits(y as char, 0);
    let s = seq![0x25u8, x, y] + rest;
    assert(s =~= seq![0x25u8] + (seq![x, y] + rest));
    assert(s[1] == x && s[2] == y);
    lemma_unescaped_suffix(seq![0x25u8], seq![x, y] + rest, 0);
    assert(seq![0x25u8, x] =~= seq![0x25u8] + seq![x]);
    lemma_unescaped_suffix(seq![0x25u8], seq![x], 0);
    assert(unescaped(seq![0x25u8], 0) =~= seq![0x25u8]);
}

// ---------------------------------------------------------------------------
// Paths
// ---------------------------------------------------------------------------

/// Names of files and directories that may be served.
pub open spec fn servable(names: Seq<Seq<char>>) -> bool {
    forall|i: int|
        0 <= i < names.len() ==> {
            let n = #[trigger] names[i];
            n.len() > 0 && n[0] != '.' && !n.contains('/') && !n.contains('\0') && !n.contains('\\')
        }
}

proof fn lemma_servable(n: Seq<char>)
    requires
        n.len() > 0,
        n[0] != '.',
        !n.contains('\0'),
        !n.contains('\\'),
    ensures
        !idle_segment(n),
        !unsafe_segment(n),
{
    reveal_strlit(".");
    lemma_unsplit(n, '\0');
    lemma_unsplit(n, '\\');
}

proof fn lemma_descended(root: Seq<char>, names: Seq<Seq<char>>)
    requires
        names.len() > 0,
        servable(names),
        root.len() > 0,
        root.last() != '/',
    ensures
        descended(root, seq![Seq::<char>::empty()] + names) == root + seq!['/'] + concat(
            names,
            seq!['/'],
        ),
    decreases names.len(),
{
    let e = Seq::<char>::empty();
    let all = seq![e] + names;
    let last = names[names.len() - 1];
    lemma_servable(last);
    assert(all.drop_last() =~= seq![e] + names.drop_last());
    assert(all.last() == last);
    if names.len() == 1 {
        assert(names.drop_last() =~= Seq::empty());
        assert(all.drop_last() =~= seq![e]);
        reveal_with_fuel(descended, 2);
        assert(seq![e].drop_last() =~= Seq::empty());
        assert(idle_segment(e));
        assert(descended(root, seq![e]) == root);
    } else {
        let rest = names.drop_last();
        assert forall|i: int| 0 <= i < rest.len() implies {
            let n = #[trigger] rest[i];
            n.len() > 0 && n[0] != '.' && !n.contains('/') && !n.contains('\0') && !n.contains('\\')
        } by {
            assert(rest[i] == names[i]);
        }
        lemma_descended(root, rest);
        let up = root + seq!['/'] + concat(rest, seq!['/']);
        lemma_joined_end(rest);
        assert(up.last() != '/');
        assert(joined(up, last) =~= root + seq!['/'] + concat(names, seq!['/']));
    }
}

proof fn lemma_joined_end(names: Seq<Seq<char>>)
    requires
        names.len() > 0,
        servable(names),
    ensures
        concat(names, seq!['/']).len() > 0,
        concat(names, seq!['/']).last() != '/',
{
    let last = names[names.len() - 1];
    assert(last.contains(last[last.len() - 1]));
    assert(concat(names, seq!['/']).last() == last.last());
}

/// A request for a path of servable names leads to those names under the root, in
/// that order and nothing else, however the path is escaped.
pub proof fn law_request_leads_to_its_file(
    req: RequestModel,
    root: Seq<char>,
    names: Seq<Seq<char>>,
    how: Seq<Option<bool>>,
)
    requires
        req.method == MethodModel::Get || req.method == MethodModel::Head,
        root.len() > 0,
        root.last() != '/',
        names.len() > 0,
        servable(names),
        ({
            let path = encode_utf8(seq!['/'] + concat(names, seq!['/']));
            &&& how.len() == path.len()
            &&& forall|i: int| 0 <= i < path.len() && #[trigger] path[i] == 0x25 ==> how[i] is Some
            &&& encode_utf8(path_of(req.target)) == escaped(path, how)
        }),
    ensures
        first_step(req, root) == StepModel::Look(root + seq!['/'] + concat(names, seq!['/'])),
{
    let p = seq!['/'] + concat(names, seq!['/']);
    let path = encode_utf8(p);
    law_decoding_undoes_escaping(path, how);
    vstd::utf8::encode_utf8_valid_utf8(p);
    vstd::utf8::encode_utf8_decode_utf8(p);
    assert(decoded(path_of(req.target)) == p);
    lemma_located(root, names);
}

proof fn lemma_located(root: Seq<char>, names: Seq<Seq<char>>)
    requires
        root.len() > 0,
        root.last() != '/',
        names.len() > 0,
        servable(names),
    ensures
        located(root, seq!['/'] + concat(names, seq!['/'])) == Some(
            root + seq!['/'] + concat(names, seq!['/']),
        ),
{
    let e = Seq::<char>::empty();
    let c = concat(names, seq!['/']);
    let p = seq!['/'] + c;
    assert(p =~= e + seq!['/'] + c);
    lemma_split_around(e, c, '/');
    assert forall|i: int| 0 <= i < names.len() implies !(#[trigger] names[i]).contains('/') by {}
    law_split_undoes_joining(names, '/');
    lemma_unsplit(e, '/');
    let segs = split(p, '/');
    assert(segs =~= seq![e] + names);
    assert forall|i: int| 0 <= i < segs.len() implies !unsafe_segment(#[trigger] segs[i]) by {
        if i > 0 {
            assert(segs[i] == names[i - 1]);
            lemma_servable(names[i - 1]);
        }
    }
    lemma_descended(root, names);
}

/// A path with a part that is hidden, leads up, or has a NUL or a backslash in it
/// is answered as if nothing were there, whatever the rest of it.
pub proof fn law_unsafe_paths_are_not_found(
    req: RequestModel,
    root: Seq<char>,
    parts: Seq<Seq<char>>,
    k: int,
)
    requires
        req.method == MethodModel::Get || req.method == MethodModel::Head,
        0 <= k < parts.len(),
        forall|i: int| 0 <= i < parts.len() ==> !(#[trigger] parts[i]).contains('/'),
        decoded(path_of(req.target)) == concat(parts, seq!['/']),
        parts[k].contains('\0') || parts[k].contains('\\') || (parts[k].len() > 1 && parts[k][0]
            == '.'),
    ensures
        first_step(req, root) matches StepModel::Respond(r) && r.status.code == 404,
{
    law_split_undoes_joining(parts, '/');
    let n = parts[k];
    reveal_strlit(".");
    lemma_find_char(n, '\0');
    lemma_find_char(n, '\\');
    if n.contains('\0') {
        let i = choose|i: int| 0 <= i < n.len() && n[i] == '\0';
        assert(find_char(n, '\0') is Some);
        assert(n != "."@) by {
            if n == "."@ {
                assert(n[i] == '.');
            }
        }
    }
    if n.contains('\\') {
        let i = choose|i: int| 0 <= i < n.len() && n[i] == '\\';
        assert(find_char(n, '\\') is Some);
        assert(n != "."@) by {
            if n == "."@ {
                assert(n[i] == '.');
            }
        }
    }
    assert(unsafe_segment(split(concat(parts, seq!['/']), '/')[k]));
}

/// Empty parts of a path and single dots lead nowhere else.
pub proof fn law_idle_parts_do_not_matter(root: Seq<char>, a: Seq<char>, x: Seq<char>, b: Seq<char>)
    requires
        x == Seq::<char>::empty() || x == "."@,
    ensures
        located(root, a + seq!['/'] + x + seq!['/'] + b) == located(root, a + seq!['/'] + b),
{
    reveal_strlit(".");
    let left = a + seq!['/'] + x;
    lemma_split_around(left, b, '/');
    lemma_split_around(a, x, '/');
    lemma_split_around(a, b, '/');
    lemma_unsplit(x, '/');
    let p = split(a, '/');
    let q = split(b, '/');
    let with_it = p + seq![x] + q;
    let plain = p + q;
    assert(split(left + seq!['/'] + b, '/') =~= with_it);
    assert(!unsafe_segment(x));
    if exists|i: int| 0 <= i < plain.len() && unsafe_segment(#[trigger] plain[i]) {
        let i = choose|i: int| 0 <= i < plain.len() && unsafe_segment(#[trigger] plain[i]);
        let j = if i < p.len() {
            i
        } else {
            i + 1
        };
        assert(with_it[j] == plain[i]);
    }
    if exists|i: int| 0 <= i < with_it.len() && unsafe_segment(#[trigger] with_it[i]) {
        let i = choose|i: int| 0 <= i < with_it.len() && unsafe_segment(#[trigger] with_it[i]);
        assert(i != p.len());
        let j = if i < p.len() {
            i
        } else {
            i - 1
        };
        assert(plain[j] == with_it[i]);
    }
    lemma_idle(root, p, x, q);
}

proof fn lemma_idle(root: Seq<char>, p: Seq<Seq<char>>, x: Seq<char>, q: Seq<Seq<char>>)
    requires
        idle_segment(x),
    ensures
        descended(root, p + seq![x] + q) == descended(root, p + q),
    decreases q.len(),
{
    let s = p + seq![x] + q;
    if q.len() == 0 {
        assert(s.drop_last() =~= p);
        assert(s.last() == x);
        assert(p + q =~= p);
    } else {
        assert(s.drop_last() =~= p + seq![x] + q.drop_last());
        assert((p + q).drop_last() =~= p + q.drop_last());
        lemma_idle(root, p, x, q.drop_last());
    }
}

/// Only `GET` and `HEAD` are served, and the answer to any other method names them.
pub proof fn law_only_reading_is_served(req: RequestModel, root: Seq<char>)
    requires
        req.method != MethodModel::Get,
        req.method != MethodModel::Head,
    ensures
        first_step(req, root) matches StepModel::Respond(r) && r.status.code == 405 && lookup(
            r.headers,
            "allow"@,
        ) == Some("GET, HEAD"@),
{
    reveal_strlit("Allow");
    reveal_strlit("allow");
    reveal_strlit("Content-Type");
    assert(lower("Allow"@) =~= lower("allow"@));
    assert(lower("Content-Type"@).len() != lower("allow"@).len());
    let r = crate::proto::response::status_response(crate::proto::status::standard(405));
    lemma_lookup_push(r.headers, ("Allow"@, "GET, HEAD"@), "allow"@);
    reveal_with_fuel(lookup, 3);
}

/// A directory is asked for again with a slash behind its path and before the
/// query, if it was asked for without; with one, its index is what is opened.
pub proof fn law_directories(
    req: RequestModel,
    index: Seq<char>,
    path: Seq<char>,
    p: Seq<char>,
    q: Seq<char>,
)
    requires
        !p.contains('?'),
        p.len() > 0,
        req.target == p || req.target == p + seq!['?'] + q,
    ensures
        p.last() == '/' ==> looked(req, index, path, Stat::Directory) == StepModel::Open(
            joined(path, index),
        ),
        p.last() != '/' ==> (looked(
            req,
            index,
            path,
            Stat::Directory,
        ) matches StepModel::Respond(r) && r.status.code == 301 && lookup(r.headers, "location"@)
            == Some(
            if req.target == p {
                p + seq!['/']
            } else {
                p + seq!['/'] + seq!['?'] + q
            },
        )),
{
    reveal_strlit("Location");
    reveal_strlit("location");
    assert(lower("Location"@) =~= lower("location"@));
    law_split_once(p, q, '?');
    lemma_unsplit(p, '?');
    lemma_find_char(p + seq!['?'] + q, '?');
    let t = p + seq!['?'] + q;
    let k = find_char(t, '?')->0;
    assert(t[p.len() as int] == '?');
    if k < p.len() {
        assert(p[k] == t[k]);
        assert(p.contains(p[k]));
    }
    assert(t.take(k) =~= p);
    assert(t.skip(k + 1) =~= q);
    if req.target == p {
        assert(p.push('/') =~= p + seq!['/']);
    } else {
        assert(p.push('/').push('?') + q =~= p + seq!['/'] + seq!['?'] + q);
    }
}

// ---------------------------------------------------------------------------
// Ranges
// ---------------------------------------------------------------------------

proof fn lemma_reads_number(n: nat)
    requires
        n <= u64::MAX,
    ensures
        parse_signed_digits(decimal(n), u64::MAX as nat) == Some(n),
        decimal(n).len() > 0,
        tight(decimal(n)),
        trim(decimal(n)) == decimal(n),
        forall|c: char| #[trigger] digit_val(c, 10) is None ==> !decimal(n).contains(c),
{
    lemma_numeral(n, 10);
    let d = decimal(n);
    assert(digit_val(d[0], 10) is Some);
    assert(digit_val(d[d.len() - 1], 10) is Some);
    let e = Seq::<char>::empty();
    law_trim(e, d, e);
    assert(e + d + e =~= d);
}

/// What a range value asks for: its first and last byte, as they are written.
pub open spec fn range_text(first: Seq<char>, last: Seq<char>) -> Seq<char> {
    "bytes="@ + first + seq!['-'] + last
}

proof fn lemma_range_parts(a: Seq<char>, b: Seq<char>, total: u64)
    requires
        total > 0,
        tight(a),
        tight(b),
        !a.contains('-'),
        !a.contains(','),
        !b.contains(','),
    ensures
        b.len() > 0 || a.len() > 0 ==> range_of(range_text(a, b), total)
            == crate::static_files::span_of(a, b, total),
{
    reveal_strlit("bytes=");
    let e = Seq::<char>::empty();
    let spec_text = a + seq!['-'] + b;
    let v = range_text(a, b);
    assert(v =~= "bytes="@ + spec_text);
    assert(v[0] == 'b');
    assert(!crate::text::is_white(v.last())) by {
        if b.len() > 0 {
            assert(v.last() == b.last());
        } else {
            assert(v.last() == '-');
        }
    }
    law_trim(e, v, e);
    assert(e + v + e =~= v);
    law_strip_prefix("bytes="@, spec_text);
    law_split_once(a, b, '-');
    assert forall|i: int| 0 <= i < spec_text.len() implies spec_text[i] != ',' by {
        if i < a.len() {
            assert(a.contains(a[i]));
        } else if i > a.len() {
            assert(spec_text[i] == b[i - a.len() - 1]);
            assert(b.contains(b[i - a.len() - 1]));
        }
    }
    lemma_unsplit(spec_text, ',');
    law_trim(e, a, e);
    law_trim(e, b, e);
    assert(e + a + e =~= a);
    assert(e + b + e =~= b);
}

/// `bytes=a-b` asks for the bytes from `a` to `b`, both included, as far as there
/// are any; it cannot be satisfied where `a` lies behind `b` or behind the end.
pub proof fn law_range_from_to(a: u64, b: u64, total: u64)
    ensures
        range_of(range_text(decimal(a as nat), decimal(b as nat)), total) == if a <= b && a < total {
            Some(
                (
                    a,
                    if b < total {
                        b
                    } else {
                        (total - 1) as u64
                    },
                ),
            )
        } else {
            None
        },
{
    lemma_reads_number(a as nat);
    lemma_reads_number(b as nat);
    assert(digit_val('-', 10) is None);
    assert(digit_val(',', 10) is None);
    if total > 0 {
        lemma_range_parts(decimal(a as nat), decimal(b as nat), total);
    } else {
        lemma_no_range_of_nothing(range_text(decimal(a as nat), decimal(b as nat)));
    }
}

proof fn lemma_no_range_of_nothing(v: Seq<char>)
    ensures
        range_of(v, 0) is None,
{
}

/// `bytes=a-` asks for all from `a` on.
pub proof fn law_range_from(a: u64, total: u64)
    ensures
        range_of(range_text(decimal(a as nat), Seq::empty()), total) == if a < total {
            Some((a, (total - 1) as u64))
        } else {
            None
        },
{
    lemma_reads_number(a as nat);
    assert(digit_val('-', 10) is None);
    assert(digit_val(',', 10) is None);
    if total > 0 {
        lemma_range_parts(decimal(a as nat), Seq::empty(), total);
    }
}

/// `bytes=-n` asks for the last `n` bytes, or for all if there are fewer.
pub proof fn law_range_of_the_last(n: u64, total: u64)
    ensures
        range_of(range_text(Seq::empty(), decimal(n as nat)), total) == if n == 0 || total == 0 {
            None
        } else if n >= total {
            Some((0u64, (total - 1) as u64))
        } else {
            Some(((total - n) as u64, (total - 1) as u64))
        },
{
    lemma_reads_number(n as nat);
    assert(digit_val(',', 10) is None);
    if total > 0 {
        lemma_range_parts(Seq::empty(), decimal(n as nat), total);
    }
}

/// Several ranges cannot be had at once.
pub proof fn law_no_multiple_ranges(value: Seq<char>, total: u64)
    requires
        value.contains(','),
    ensures
        range_of(value, total) is None,
{
    reveal_strlit("bytes=");
    lemma_trim_keeps(value, ',');
    let t = trim(value);
    if let Some(s) = strip_prefix(t, "bytes="@) {
        law_strip_prefix("bytes="@, t);
        let i = choose|i: int| 0 <= i < t.len() && t[i] == ',';
        assert(i >= 6) by {
            if i < 6 {
                assert(t[i] == "bytes="@[i]);
            }
        }
        assert(s[i - 6] == ',');
        lemma_find_char(s, ',');
    }
}

/// Trimming keeps what is not white space.
proof fn lemma_trim_keeps(s: Seq<char>, c: char)
    requires
        s.contains(c),
        !crate::text::is_white(c),
    ensures
        trim(s).contains(c),
{
    lemma_trim_start_keeps(s, c);
    lemma_trim_end_keeps(trim_start(s), c);
}

proof fn lemma_trim_start_keeps(s: Seq<char>, c: char)
    requires
        s.contains(c),
        !crate::text::is_white(c),
    ensures
        trim_start(s).contains(c),
    decreases s.len(),
{
    if s.len() > 0 && crate::text::is_white(s[0]) {
        let i = choose|i: int| 0 <= i < s.len() && s[i] == c;
        assert(s.skip(1)[i - 1] == c);
        lemma_trim_start_keeps(s.skip(1), c);
    }
}

proof fn lemma_trim_end_keeps(s: Seq<char>, c: char)
    requires
        s.contains(c),
        !crate::text::is_white(c),
    ensures
        crate::text::trim_end(s).contains(c),
    decreases s.len(),
{
    if s.len() > 0 && crate::text::is_white(s.last()) {
        let i = choose|i: int| 0 <= i < s.len() && s[i] == c;
        assert(s.drop_last()[i] == c);
        lemma_trim_end_keeps(s.drop_last(), c);
    }
}

// ---------------------------------------------------------------------------
// Answers
// ---------------------------------------------------------------------------

/// Files that differ in size or time have different entity tags.
pub proof fn law_tags_tell_files_apart(a: FileInfo, b: FileInfo, s: u64, t: u64)
    requires
        a.mtime == Some(s),
        b.mtime == Some(t),
        etag_of(a) == etag_of(b),
    ensures
        a.len == b.len,
        s == t,
{
    lemma_tag_parts(a, s);
    lemma_tag_parts(b, t);
    lemma_numeral(a.len as nat, 16);
    lemma_numeral(b.len as nat, 16);
    lemma_numeral(s as nat, 16);
    lemma_numeral(t as nat, 16);
}

proof fn lemma_tag_parts(a: FileInfo, s: u64)
    requires
        a.mtime == Some(s),
    ensures
        ({
            let t = etag_of(a);
            let inner = t.subrange(1, t.len() - 1);
            crate::text::split_once(inner, '-') == Some((hexadecimal(a.len as nat), hexadecimal(s as nat)))
        }),
{
    reveal_strlit("\"");
    reveal_strlit("-");
    let x = hexadecimal(a.len as nat);
    let y = hexadecimal(s as nat);
    let t = etag_of(a);
    lemma_numeral(a.len as nat, 16);
    assert(t.subrange(1, t.len() - 1) =~= x + seq!['-'] + y);
    assert(!x.contains('-')) by {
        assert(digit_val('-', 16) is None);
    }
    law_split_once(x, y, '-');
}

/// A client that names a file's entity tag, alone or among others, is told that it
/// has not changed, without the file.
pub proof fn law_known_tag_is_not_sent_again(
    f: Fields,
    path: Seq<char>,
    info: FileInfo,
    tags: Seq<Seq<char>>,
    k: int,
)
    requires
        forall|i: int| 0 <= i < tags.len() ==> !(#[trigger] tags[i]).contains(','),
        0 <= k < tags.len(),
        trim(tags[k]) == etag_of(info),
        lookup(f, "if-none-match"@) == Some(concat(tags, seq![','])),
    ensures
        file_response(f, path, info).status.code == 304,
        file_response(f, path, info).body == BodyModel::Bytes(Seq::empty()),
{
    law_split_undoes_joining(tags, ',');
    assert(crate::static_files::lists_tag(split(concat(tags, seq![',']), ','), etag_of(info)));
}

/// A client that names only other tags gets the file, or what it asked for of it,
/// whatever date it names besides.
pub proof fn law_unknown_tags_do_not_matter(
    f: Fields,
    path: Seq<char>,
    info: FileInfo,
    tags: Seq<Seq<char>>,
)
    requires
        tags.len() > 0,
        forall|i: int| 0 <= i < tags.len() ==> !(#[trigger] tags[i]).contains(','),
        forall|i: int| 0 <= i < tags.len() ==> trim(#[trigger] tags[i]) != etag_of(info),
        lookup(f, "if-none-match"@) == Some(concat(tags, seq![','])),
        concat(tags, seq![',']) != "*"@,
    ensures
        file_response(f, path, info).status.code != 304,
{
    law_split_undoes_joining(tags, ',');
    assert(!unmodified(f, etag_of(info), crate::static_files::modified_of(info)));
}

/// Without conditions and ranges the whole file goes out, from its first byte to
/// its last.
pub proof fn law_whole_file_is_sent(f: Fields, path: Seq<char>, info: FileInfo)
    requires
        lookup(f, "if-none-match"@) is None,
        lookup(f, "if-modified-since"@) is None,
        lookup(f, "range"@) is None,
    ensures
        file_response(f, path, info).status.code == 200,
        file_response(f, path, info).body == (BodyModel::File {
            file: info.file,
            offset: 0,
            len: info.len,
        }),
{
}

/// A range goes out as `206` with just the bytes asked for, and says which of how
/// many they are; one that lies behind the end is answered with `416`.
pub proof fn law_range_is_sent(f: Fields, path: Seq<char>, info: FileInfo, a: u64, b: u64)
    requires
        lookup(f, "if-none-match"@) is None,
        lookup(f, "if-modified-since"@) is None,
        lookup(f, "range"@) == Some(range_text(decimal(a as nat), decimal(b as nat))),
    ensures
        ({
            let r = file_response(f, path, info);
            &&& a <= b < info.len ==> {
                &&& r.status.code == 206
                &&& r.body == (BodyModel::File {
                    file: info.file,
                    offset: a,
                    len: (b - a + 1) as u64,
                })
                &&& lookup(r.headers, "content-range"@) == Some(
                    "bytes "@ + decimal(a as nat) + "-"@ + decimal(b as nat) + "/"@ + decimal(
                        info.len as nat,
                    ),
                )
            }
            &&& a >= info.len ==> r.status.code == 416 && r.body == BodyModel::Bytes(Seq::empty())
        }),
{
    law_range_from_to(a, b, info.len);
    let v = range_text(decimal(a as nat), decimal(b as nat));
    reveal_strlit("bytes=");
    assert(v[0] == 'b');
    assert(trim_start(v) == v);
    assert(starts_with(v, "bytes="@)) by {
        let rest = decimal(a as nat) + seq!['-'] + decimal(b as nat);
        assert(v =~= "bytes="@ + rest);
        law_strip_prefix("bytes="@, rest);
    }
    if a <= b && b < info.len {
        lemma_content_range(path, info, a, b);
    }
}

proof fn lemma_content_range(path: Seq<char>, info: FileInfo, a: u64, b: u64)
    ensures
        ({
            let cr = "bytes "@ + decimal(a as nat) + "-"@ + decimal(b as nat) + "/"@ + decimal(
                info.len as nat,
            );
            let f = crate::static_files::with_modified(
                crate::static_files::content_fields(path).push(("Content-Range"@, cr)).push(
                    ("ETag"@, etag_of(info)),
                ),
                info,
            );
            lookup(f, "content-range"@) == Some(cr)
        }),
{
    reveal_strlit("Content-Range");
    reveal_strlit("content-range");
    reveal_strlit("Content-Type");
    reveal_strlit("Accept-Ranges");
    reveal_strlit("X-Content-Type-Options");
    let n = "content-range"@;
    assert(lower("Content-Range"@) =~= lower(n));
    assert(lower("Content-Type"@).len() != lower(n).len());
    assert(lower("X-Content-Type-Options"@).len() != lower(n).len());
    assert(lower("Accept-Ranges"@)[0] == 'a');
    assert(lower(n)[0] == 'c');
    let cr = "bytes "@ + decimal(a as nat) + "-"@ + decimal(b as nat) + "/"@ + decimal(
        info.len as nat,
    );
    let c = crate::static_files::content_fields(path);
    crate::proto::headers::law_lookup_finds_the_first(c, n);
    assert(lookup(c, n) is None) by {
        if lookup(c, n) is Some {
            let i = choose|i: int|
                0 <= i < c.len() && eq_nocase((#[trigger] c[i]).0, n) && c[i].1 == lookup(c, n)->0;
            assert(i == 0 || i == 1 || i == 2);
        }
    }
    let d = c.push(("Content-Range"@, cr));
    lemma_lookup_push(c, ("Content-Range"@, cr), n);
    lemma_lookup_push(d, ("ETag"@, etag_of(info)), n);
    let g = d.push(("ETag"@, etag_of(info)));
    if let Some(lm) = crate::static_files::modified_of(info) {
        lemma_lookup_push(g, ("Last-Modified"@, lm), n);
    }
}

} // verus!
