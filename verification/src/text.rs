//! Character-level text helpers: the vocabulary in which the rest of the crate
//! states what a string holds.
//!
//! Strings are modelled as `Seq<char>` (their view). The executable helpers
//! work on `&[char]`, which gives random access with the same model.
use crate::bytes::{head, tail};
use vstd::arithmetic::power::{lemma_pow0, pow};
use vstd::prelude::*;
use vstd::slice::slice_subrange;
use vstd::utf8::{decode_utf8, encode_utf8, valid_utf8};

verus! {

broadcast use {vstd::seq::group_seq_axioms, vstd::string::group_string_axioms};

/// `String::push` appends one character.
pub assume_specification[ String::push ](s: &mut String, c: char)
    ensures
        final(s)@ == old(s)@.push(c),
;

/// `String::push_str` appends a whole string slice.
pub assume_specification[ String::push_str ](s: &mut String, other: &str)
    ensures
        final(s)@ == old(s)@ + other@,
;

/// `String::into_bytes` hands over the UTF-8 encoding of the string.
pub assume_specification[ String::into_bytes ](s: String) -> (r: Vec<u8>)
    ensures
        r@ == encode_utf8(s@),
;

/// `String::from_utf8`: succeeds exactly on valid UTF-8, and the string is
/// what the bytes decode to.
#[verifier::external_body]
pub(crate) fn string_from_utf8(bytes: Vec<u8>) -> (r: Option<String>)
    ensures
        r is Some <==> valid_utf8(bytes@),
        r matches Some(s) ==> s@ == decode_utf8(bytes@),
{
    String::from_utf8(bytes).ok()
}

/// What `String::from_utf8_lossy` makes of bytes that are not valid UTF-8.
pub uninterp spec fn utf8_lossy(bytes: Seq<u8>) -> Seq<char>;

/// The text of a byte string: valid UTF-8 decoded, anything else with replacement
/// characters.
pub open spec fn lossy(bytes: Seq<u8>) -> Seq<char> {
    if valid_utf8(bytes) {
        decode_utf8(bytes)
    } else {
        utf8_lossy(bytes)
    }
}

/// `String::from_utf8_lossy`: valid UTF-8 is decoded as it stands; anything
/// else is decoded with replacement characters, a result that is only named.
#[verifier::external_body]
pub(crate) fn string_from_utf8_lossy(bytes: &[u8]) -> (r: String)
    ensures
        valid_utf8(bytes@) ==> r@ == decode_utf8(bytes@),
        !valid_utf8(bytes@) ==> r@ == utf8_lossy(bytes@),
{
    String::from_utf8_lossy(bytes).into_owned()
}

/// The characters of a string, for indexed access.
pub fn chars_of(s: &str) -> (r: Vec<char>)
    ensures
        r@ == s@,
{
    let mut v: Vec<char> = Vec::new();
    for c in it: s.chars()
        invariant
            it.seq() == s@,
            v@ == s@.take(it.index() as int),
    {
        proof {
            assert(s@.take(it.index() as int + 1) =~= s@.take(it.index() as int).push(s@[it.index() as int]));
        }
        v.push(c);
    }
    proof {
        assert(s@.take(s@.len() as int) =~= s@);
    }
    v
}

/// The string made of the given characters.
pub fn text_of(c: &[char]) -> (r: String)
    ensures
        r@ == c@,
{
    let mut s: String = String::new();
    let mut i: usize = 0;
    while i < c.len()
        invariant
            i <= c@.len(),
            s@ == c@.take(i as int),
        decreases c@.len() - i,
    {
        proof {
            assert(c@.take(i as int + 1) =~= c@.take(i as int).push(c@[i as int]));
        }
        s.push(c[i]);
        i += 1;
    }
    proof {
        assert(c@.take(c@.len() as int) =~= c@);
    }
    s
}

/// An owned copy of a text.
pub fn owned(s: &str) -> (r: String)
    ensures
        r@ == s@,
{
    let mut out: String = String::new();
    out.push_str(s);
    proof {
        assert(out@ =~= s@);
    }
    out
}

/// Whether a text is empty.
pub fn is_empty(s: &str) -> (r: bool)
    ensures
        r == (s@.len() == 0),
{
    let c = chars_of(s);
    c.len() == 0
}

/// The model of an optional text.
pub open spec fn opt_text(o: Option<String>) -> Option<Seq<char>> {
    match o {
        Some(s) => Some(s@),
        None => None,
    }
}

/// An owned copy of an optional text.
pub fn opt_owned(s: &Option<String>) -> (r: Option<String>)
    ensures
        opt_text(r) == opt_text(*s),
{
    match s {
        Some(t) => Some(owned(t.as_str())),
        None => None,
    }
}

/// The models of texts.
pub open spec fn texts(v: Seq<String>) -> Seq<Seq<char>> {
    v.map_values(|s: String| s@)
}

/// The model of an optional list of texts.
pub open spec fn opt_list(o: Option<Vec<String>>) -> Option<Seq<Seq<char>>> {
    match o {
        Some(v) => Some(texts(v@)),
        None => None,
    }
}

/// Whether a text is in a list.
pub fn list_contains(list: &Vec<String>, s: &str) -> (r: bool)
    ensures
        r == texts(list@).contains(s@),
{
    let mut i: usize = 0;
    let ghost t = texts(list@);
    while i < list.len()
        invariant
            i <= list@.len(),
            t == texts(list@),
            forall|k: int| 0 <= k < i ==> t[k] != s@,
        decreases list.len() - i,
    {
        if str_eq(list[i].as_str(), s) {
            proof {
                assert(t[i as int] == s@);
            }
            return true;
        }
        i += 1;
    }
    false
}

// ---------------------------------------------------------------------------
// Case
// ---------------------------------------------------------------------------

/// ASCII lower-casing of one character; other characters stay as they are.
pub open spec fn lower_char(c: char) -> char {
    if 'A' <= c && c <= 'Z' {
        (c as u32 + 32) as char
    } else {
        c
    }
}

/// ASCII lower-casing of a text.
pub open spec fn lower(s: Seq<char>) -> Seq<char> {
    s.map_values(|c: char| lower_char(c))
}

/// Equality of two texts up to ASCII case.
pub open spec fn eq_nocase(a: Seq<char>, b: Seq<char>) -> bool {
    lower(a) == lower(b)
}

pub fn to_lower_char(c: char) -> (r: char)
    ensures
        r == lower_char(c),
{
    if 'A' <= c && c <= 'Z' {
        ((c as u8) + 32) as char
    } else {
        c
    }
}

/// ASCII lower-casing of a string.
pub fn to_lower(s: &str) -> (r: String)
    ensures
        r@ == lower(s@),
{
    let c = chars_of(s);
    let mut out: String = String::new();
    let mut i: usize = 0;
    while i < c.len()
        invariant
            i <= c@.len(),
            c@ == s@,
            out@ == lower(s@).take(i as int),
        decreases c@.len() - i,
    {
        proof {
            assert(lower(s@).take(i as int + 1) =~= lower(s@).take(i as int).push(lower(s@)[i as int]));
        }
        out.push(to_lower_char(c[i]));
        i += 1;
    }
    proof {
        assert(lower(s@).take(s@.len() as int) =~= lower(s@));
    }
    out
}

/// Whether two character slices agree up to ASCII case.
pub fn chars_eq_nocase(a: &[char], b: &[char]) -> (r: bool)
    ensures
        r == eq_nocase(a@, b@),
{
    if a.len() != b.len() {
        proof {
            assert(lower(a@).len() != lower(b@).len());
        }
        return false;
    }
    let mut i: usize = 0;
    while i < a.len()
        invariant
            i <= a@.len(),
            a@.len() == b@.len(),
            forall|j: int| 0 <= j < i ==> lower_char(#[trigger] a@[j]) == lower_char(b@[j]),
        decreases a@.len() - i,
    {
        if to_lower_char(a[i]) != to_lower_char(b[i]) {
            proof {
                assert(lower(a@)[i as int] != lower(b@)[i as int]);
            }
            return false;
        }
        i += 1;
    }
    proof {
        assert(lower(a@) =~= lower(b@));
    }
    true
}

/// Whether two strings agree up to ASCII case.
pub fn str_eq_nocase(a: &str, b: &str) -> (r: bool)
    ensures
        r == eq_nocase(a@, b@),
{
    let ca = chars_of(a);
    let cb = chars_of(b);
    chars_eq_nocase(&ca, &cb)
}

/// Whether two character slices are equal.
pub fn chars_eq(a: &[char], b: &[char]) -> (r: bool)
    ensures
        r == (a@ == b@),
{
    if a.len() != b.len() {
        return false;
    }
    let mut i: usize = 0;
    while i < a.len()
        invariant
            i <= a@.len(),
            a@.len() == b@.len(),
            forall|j: int| 0 <= j < i ==> #[trigger] a@[j] == b@[j],
        decreases a@.len() - i,
    {
        if a[i] != b[i] {
            return false;
        }
        i += 1;
    }
    proof {
        assert(a@ =~= b@);
    }
    true
}

/// Whether two strings are equal.
pub fn str_eq(a: &str, b: &str) -> (r: bool)
    ensures
        r == (a@ == b@),
{
    let ca = chars_of(a);
    let cb = chars_of(b);
    chars_eq(&ca, &cb)
}

/// Whether a character slice spells the string `s`.
pub fn chars_are(a: &[char], s: &str) -> (r: bool)
    ensures
        r == (a@ == s@),
{
    let cs = chars_of(s);
    chars_eq(a, &cs)
}

// ---------------------------------------------------------------------------
// Whitespace
// ---------------------------------------------------------------------------

/// The Unicode `White_Space` characters.
pub open spec fn is_white(c: char) -> bool {
    let u = c as u32;
    ||| 9 <= u <= 13
    ||| u == 0x20
    ||| u == 0x85
    ||| u == 0xa0
    ||| u == 0x1680
    ||| 0x2000 <= u <= 0x200a
    ||| u == 0x2028
    ||| u == 0x2029
    ||| u == 0x202f
    ||| u == 0x205f
    ||| u == 0x3000
}

pub fn white(c: char) -> (r: bool)
    ensures
        r == is_white(c),
{
    let u: u32 = c as u32;
    (9 <= u && u <= 13) || u == 0x20 || u == 0x85 || u == 0xa0 || u == 0x1680 || (0x2000 <= u && u
        <= 0x200a) || u == 0x2028 || u == 0x2029 || u == 0x202f || u == 0x205f || u == 0x3000
}

/// `s` without its leading whitespace.
pub open spec fn trim_start(s: Seq<char>) -> Seq<char>
    decreases s.len(),
{
    if s.len() > 0 && is_white(s[0]) {
        trim_start(s.skip(1))
    } else {
        s
    }
}

/// `s` without its trailing whitespace.
pub open spec fn trim_end(s: Seq<char>) -> Seq<char>
    decreases s.len(),
{
    if s.len() > 0 && is_white(s.last()) {
        trim_end(s.drop_last())
    } else {
        s
    }
}

/// `s` without leading and trailing whitespace.
pub open spec fn trim(s: Seq<char>) -> Seq<char> {
    trim_end(trim_start(s))
}

pub fn chars_trim_start(c: &[char]) -> (r: &[char])
    ensures
        r@ == trim_start(c@),
{
    let mut i: usize = 0;
    proof {
        assert(c@.skip(0) =~= c@);
    }
    while i < c.len() && white(c[i])
        invariant
            i <= c@.len(),
            trim_start(c@.skip(i as int)) == trim_start(c@),
        decreases c@.len() - i,
    {
        proof {
            assert(c@.skip(i as int).skip(1) =~= c@.skip(i as int + 1));
        }
        i += 1;
    }
    proof {
        assert(c@.skip(i as int) =~= c@.subrange(i as int, c@.len() as int));
    }
    slice_subrange(c, i, c.len())
}

pub fn chars_trim_end(c: &[char]) -> (r: &[char])
    ensures
        r@ == trim_end(c@),
{
    let mut n: usize = c.len();
    proof {
        assert(c@.take(n as int) =~= c@);
    }
    while n > 0 && white(c[n - 1])
        invariant
            n <= c@.len(),
            trim_end(c@.take(n as int)) == trim_end(c@),
        decreases n,
    {
        proof {
            assert(c@.take(n as int).drop_last() =~= c@.take(n as int - 1));
        }
        n -= 1;
    }
    proof {
        assert(c@.take(n as int) =~= c@.subrange(0, n as int));
    }
    slice_subrange(c, 0, n)
}

pub fn chars_trim(c: &[char]) -> (r: &[char])
    ensures
        r@ == trim(c@),
{
    chars_trim_end(chars_trim_start(c))
}

// ---------------------------------------------------------------------------
// Searching and splitting
// ---------------------------------------------------------------------------

/// Index of the first `sep` in `s`, if any.
pub open spec fn find_char(s: Seq<char>, sep: char) -> Option<int>
    decreases s.len(),
{
    if s.len() == 0 {
        None
    } else if s[0] == sep {
        Some(0)
    } else {
        match find_char(s.skip(1), sep) {
            Some(i) => Some(i + 1),
            None => None,
        }
    }
}

/// `find_char` yields the least index that holds `sep`.
pub proof fn lemma_find_char(s: Seq<char>, sep: char)
    ensures
        match find_char(s, sep) {
            Some(i) => 0 <= i < s.len() && s[i] == sep && forall|j: int|
                0 <= j < i ==> #[trigger] s[j] != sep,
            None => forall|j: int| 0 <= j < s.len() ==> #[trigger] s[j] != sep,
        },
    decreases s.len(),
{
    if s.len() > 0 && s[0] != sep {
        let t = s.skip(1);
        lemma_find_char(t, sep);
        match find_char(t, sep) {
            Some(i) => {
                assert forall|j: int| 0 <= j < i + 1 implies #[trigger] s[j] != sep by {
                    if j > 0 {
                        assert(s[j] == t[j - 1]);
                    }
                }
            },
            None => {
                assert forall|j: int| 0 <= j < s.len() implies #[trigger] s[j] != sep by {
                    if j > 0 {
                        assert(s[j] == t[j - 1]);
                    }
                }
            },
        }
    }
}

pub fn chars_find(c: &[char], sep: char) -> (r: Option<usize>)
    ensures
        match (r, find_char(c@, sep)) {
            (Some(i), Some(j)) => i == j && i < c@.len(),
            (None, None) => true,
            _ => false,
        },
{
    proof {
        lemma_find_char(c@, sep);
    }
    let mut i: usize = 0;
    while i < c.len()
        invariant
            i <= c@.len(),
            forall|j: int| 0 <= j < i ==> #[trigger] c@[j] != sep,
        decreases c@.len() - i,
    {
        if c[i] == sep {
            proof {
                lemma_find_char(c@, sep);
                let k = find_char(c@, sep);
                assert(k is Some);
                assert(c@[k->0] == sep);
            }
            return Some(i);
        }
        i += 1;
    }
    None
}

/// The pieces of `s` between occurrences of `sep`: one more than `sep` occurs.
pub open spec fn split(s: Seq<char>, sep: char) -> Seq<Seq<char>>
    decreases s.len(),
{
    match find_char(s, sep) {
        Some(i) => {
            if 0 <= i < s.len() {
                seq![s.take(i)] + split(s.skip(i + 1), sep)
            } else {
                seq![s]
            }
        },
        None => seq![s],
    }
}

/// No piece of a split holds the separator.
pub proof fn lemma_split_parts(s: Seq<char>, sep: char, i: int)
    requires
        0 <= i < split(s, sep).len(),
    ensures
        !split(s, sep)[i].contains(sep),
    decreases s.len(),
{
    lemma_find_char(s, sep);
    match find_char(s, sep) {
        Some(k) => {
            if i == 0 {
                assert(split(s, sep)[0] == s.take(k));
                assert forall|j: int| 0 <= j < k implies s.take(k)[j] != sep by {
                    assert(s.take(k)[j] == s[j]);
                }
            } else {
                lemma_split_parts(s.skip(k + 1), sep, i - 1);
                assert(split(s, sep)[i] == split(s.skip(k + 1), sep)[i - 1]);
            }
        },
        None => {},
    }
}

/// What stands before and after the first `sep`.
pub open spec fn split_once(s: Seq<char>, sep: char) -> Option<(Seq<char>, Seq<char>)> {
    match find_char(s, sep) {
        Some(i) => Some((s.take(i), s.skip(i + 1))),
        None => None,
    }
}

pub fn chars_split_once<'a>(c: &'a [char], sep: char) -> (r: Option<(&'a [char], &'a [char])>)
    ensures
        match (r, split_once(c@, sep)) {
            (Some((a, b)), Some((x, y))) => a@ == x && b@ == y,
            (None, None) => true,
            _ => false,
        },
{
    let n: usize = c.len();
    match chars_find(c, sep) {
        Some(i) => {
            proof {
                assert(c@.subrange(0, i as int) =~= c@.take(i as int));
                assert(c@.subrange(i as int + 1, c@.len() as int) =~= c@.skip(i as int + 1));
            }
            Some((slice_subrange(c, 0, i), slice_subrange(c, i + 1, n)))
        },
        None => None,
    }
}

/// The views of a vector of slices.
pub open spec fn views(v: Seq<&[char]>) -> Seq<Seq<char>> {
    v.map_values(|x: &[char]| x@)
}

pub fn chars_split<'a>(c: &'a [char], sep: char) -> (r: Vec<&'a [char]>)
    ensures
        views(r@) == split(c@, sep),
        r@.len() >= 1,
{
    let mut out: Vec<&'a [char]> = Vec::new();
    let mut rest: &'a [char] = c;
    proof {
        assert(views(out@) + split(rest@, sep) =~= split(c@, sep));
    }
    loop
        invariant
            views(out@) + split(rest@, sep) == split(c@, sep),
        decreases rest@.len(),
    {
        proof {
            lemma_find_char(rest@, sep);
        }
        let ghost before = out@;
        match chars_split_once(rest, sep) {
            Some((a, b)) => {
                out.push(a);
                proof {
                    assert(views(out@) =~= views(before).push(a@));
                    assert(views(before) + (seq![a@] + split(b@, sep)) =~= views(out@) + split(
                        b@,
                        sep,
                    ));
                }
                rest = b;
            },
            None => {
                out.push(rest);
                proof {
                    assert(views(out@) =~= views(before) + seq![rest@]);
                }
                return out;
            },
        }
    }
}

/// Whether `s` begins with `p`.
pub open spec fn starts_with(s: Seq<char>, p: Seq<char>) -> bool {
    p.len() <= s.len() && s.take(p.len() as int) == p
}

/// What follows the prefix `p` of `s`, if it has that prefix.
pub open spec fn strip_prefix(s: Seq<char>, p: Seq<char>) -> Option<Seq<char>> {
    if starts_with(s, p) {
        Some(s.skip(p.len() as int))
    } else {
        None
    }
}

pub fn chars_strip_prefix<'a>(c: &'a [char], p: &str) -> (r: Option<&'a [char]>)
    ensures
        match (r, strip_prefix(c@, p@)) {
            (Some(a), Some(x)) => a@ == x,
            (None, None) => true,
            _ => false,
        },
{
    let pc = chars_of(p);
    if pc.len() > c.len() {
        return None;
    }
    proof {
        assert(c@.subrange(0, pc@.len() as int) =~= c@.take(pc@.len() as int));
        assert(c@.subrange(pc@.len() as int, c@.len() as int) =~= c@.skip(pc@.len() as int));
    }
    let head = slice_subrange(c, 0, pc.len());
    if chars_eq(head, &pc) {
        Some(slice_subrange(c, pc.len(), c.len()))
    } else {
        None
    }
}

/// Whether `p` stands at `i` in `s`.
pub open spec fn stands_at(s: Seq<char>, p: Seq<char>, i: int) -> bool {
    0 <= i && i + p.len() <= s.len() && s.subrange(i, i + p.len()) == p
}

/// The first position from `from` on at which `p` stands in `s`.
pub open spec fn find_text(s: Seq<char>, p: Seq<char>, from: int) -> Option<int>
    decreases s.len() + 1 - from,
{
    if from < 0 || from + p.len() > s.len() {
        None
    } else if stands_at(s, p, from) {
        Some(from)
    } else {
        find_text(s, p, from + 1)
    }
}

/// Find the first occurrence of `p` from `from` on.
pub fn chars_find_text(c: &[char], p: &[char], from: usize) -> (r: Option<usize>)
    requires
        from <= c@.len(),
    ensures
        match r {
            Some(i) => find_text(c@, p@, from as int) == Some(i as int) && from <= i && i + p@.len()
                <= c@.len(),
            None => find_text(c@, p@, from as int) is None,
        },
{
    let n: usize = c.len();
    let m: usize = p.len();
    let mut i: usize = from;
    while n - i >= m
        invariant
            from <= i <= n == c@.len(),
            m == p@.len(),
            find_text(c@, p@, from as int) == find_text(c@, p@, i as int),
        decreases n - i,
    {
        if chars_eq(slice_subrange(c, i, i + m), p) {
            return Some(i);
        }
        if i == n {
            proof {
                assert(find_text(c@, p@, n + 1) is None);
            }
            return None;
        }
        i += 1;
    }
    None
}

/// The text without trailing occurrences of `c`.
pub open spec fn trim_end_char(s: Seq<char>, c: char) -> Seq<char>
    decreases s.len(),
{
    if s.len() > 0 && s.last() == c {
        trim_end_char(s.drop_last(), c)
    } else {
        s
    }
}

/// Strip trailing occurrences of `x`.
pub fn chars_trim_end_char(c: &[char], x: char) -> (r: &[char])
    ensures
        r@ == trim_end_char(c@, x),
{
    let mut n: usize = c.len();
    proof {
        assert(c@.take(n as int) =~= c@);
    }
    while n > 0 && c[n - 1] == x
        invariant
            n <= c@.len(),
            trim_end_char(c@, x) == trim_end_char(c@.take(n as int), x),
        decreases n,
    {
        proof {
            assert(c@.take(n as int).drop_last() =~= c@.take(n - 1));
        }
        n -= 1;
    }
    proof {
        assert(c@.subrange(0, n as int) =~= c@.take(n as int));
    }
    slice_subrange(c, 0, n)
}

/// Whether `p` stands anywhere in `s`.
pub open spec fn contains(s: Seq<char>, p: Seq<char>) -> bool {
    exists|i: int| stands_at(s, p, i)
}

/// Whether `s` contains `p`.
pub fn str_contains(s: &str, p: &str) -> (r: bool)
    ensures
        r == contains(s@, p@),
{
    let a = chars_of(s);
    let b = chars_of(p);
    let n: usize = a.len();
    let m: usize = b.len();
    let mut i: usize = 0;
    while i <= n && n - i >= m
        invariant
            n == a@.len(),
            m == b@.len(),
            a@ == s@,
            b@ == p@,
            i <= n + 1,
            forall|k: int| 0 <= k < i ==> !stands_at(s@, p@, k),
        decreases n + 1 - i,
    {
        if chars_eq(slice_subrange(a.as_slice(), i, i + m), b.as_slice()) {
            proof {
                assert(stands_at(s@, p@, i as int));
            }
            return true;
        }
        if i == n {
            return false;
        }
        i += 1;
    }
    false
}

// ---------------------------------------------------------------------------
// Numbers
// ---------------------------------------------------------------------------

/// The value of a digit character in the given base (at most sixteen).
pub open spec fn digit_val(c: char, base: nat) -> Option<nat> {
    let v: int = if '0' <= c && c <= '9' {
        c as int - '0' as int
    } else if 'a' <= c && c <= 'f' {
        c as int - 'a' as int + 10
    } else if 'A' <= c && c <= 'F' {
        c as int - 'A' as int + 10
    } else {
        16
    };
    if 0 <= v < base && v < 16 {
        Some(v as nat)
    } else {
        None
    }
}

/// Whether `s` is a non-empty run of digits.
pub open spec fn all_digits(s: Seq<char>, base: nat) -> bool {
    s.len() > 0 && forall|i: int| 0 <= i < s.len() ==> digit_val(#[trigger] s[i], base) is Some
}

/// The number that a run of digits denotes.
pub open spec fn digits_value(s: Seq<char>, base: nat) -> nat
    decreases s.len(),
{
    if s.len() == 0 {
        0
    } else {
        digits_value(s.drop_last(), base) * base + digit_val(s.last(), base)->0
    }
}

/// What a run of digits denotes, if it is one and the number is at most `max`.
pub open spec fn parse_digits(s: Seq<char>, base: nat, max: nat) -> Option<nat> {
    if all_digits(s, base) && digits_value(s, base) <= max {
        Some(digits_value(s, base))
    } else {
        None
    }
}

/// `parse_digits` for a text that may carry one leading plus sign.
pub open spec fn parse_signed_digits(s: Seq<char>, max: nat) -> Option<nat> {
    if s.len() > 1 && s[0] == '+' {
        parse_digits(s.skip(1), 10, max)
    } else {
        parse_digits(s, 10, max)
    }
}

fn digit(c: char, base: u64) -> (r: Option<u64>)
    requires
        base == 10 || base == 16,
    ensures
        match (r, digit_val(c, base as nat)) {
            (Some(a), Some(b)) => a == b && a < base,
            (None, None) => true,
            _ => false,
        },
{
    let v: u64 = if '0' <= c && c <= '9' {
        (c as u64) - ('0' as u64)
    } else if 'a' <= c && c <= 'f' {
        (c as u64) - ('a' as u64) + 10
    } else if 'A' <= c && c <= 'F' {
        (c as u64) - ('A' as u64) + 10
    } else {
        16
    };
    if v < base && v < 16 {
        Some(v)
    } else {
        None
    }
}

proof fn lemma_digits_value_grows(s: Seq<char>, base: nat, i: int)
    requires
        0 <= i <= s.len(),
        base >= 1,
    ensures
        digits_value(s.take(i), base) <= digits_value(s, base),
    decreases s.len() - i,
{
    if i == s.len() {
        assert(s.take(i) =~= s);
    } else {
        lemma_digits_value_grows(s, base, i + 1);
        assert(s.take(i + 1).drop_last() =~= s.take(i));
        let v = digits_value(s.take(i), base);
        assert(v <= v * base) by (nonlinear_arith)
            requires
                base >= 1,
        ;
    }
}

/// Read a run of digits, rejecting anything else and any number above `max`.
pub fn chars_digits(c: &[char], base: u64, max: u64) -> (r: Option<u64>)
    requires
        base == 10 || base == 16,
    ensures
        match (r, parse_digits(c@, base as nat, max as nat)) {
            (Some(a), Some(b)) => a == b,
            (None, None) => true,
            _ => false,
        },
{
    if c.len() == 0 {
        return None;
    }
    let mut acc: u64 = 0;
    let mut over: bool = false;
    let mut i: usize = 0;
    proof {
        assert(c@.take(0) =~= Seq::<char>::empty());
    }
    while i < c.len()
        invariant
            i <= c@.len(),
            base == 10 || base == 16,
            forall|j: int| 0 <= j < i ==> digit_val(#[trigger] c@[j], base as nat) is Some,
            !over ==> acc == digits_value(c@.take(i as int), base as nat) && acc <= max,
            over ==> digits_value(c@, base as nat) > max,
        decreases c@.len() - i,
    {
        match digit(c[i], base) {
            None => {
                return None;
            },
            Some(d) => {
                proof {
                    assert(c@.take(i as int + 1).drop_last() =~= c@.take(i as int));
                    lemma_digits_value_grows(c@, base as nat, i as int + 1);
                }
                if !over {
                    match acc.checked_mul(base) {
                        None => {
                            over = true;
                        },
                        Some(m) => match m.checked_add(d) {
                            None => {
                                over = true;
                            },
                            Some(t) => {
                                if t > max {
                                    over = true;
                                } else {
                                    acc = t;
                                }
                            },
                        },
                    }
                }
                i += 1;
            },
        }
    }
    proof {
        assert(c@.take(c@.len() as int) =~= c@);
    }
    if over {
        None
    } else {
        Some(acc)
    }
}

/// Read an unsigned decimal number with an optional leading plus sign.
pub fn chars_uint(c: &[char], max: u64) -> (r: Option<u64>)
    ensures
        match (r, parse_signed_digits(c@, max as nat)) {
            (Some(a), Some(b)) => a == b,
            (None, None) => true,
            _ => false,
        },
{
    if c.len() > 1 && c[0] == '+' {
        proof {
            assert(c@.subrange(1, c@.len() as int) =~= c@.skip(1));
        }
        chars_digits(slice_subrange(c, 1, c.len()), 10, max)
    } else {
        chars_digits(c, 10, max)
    }
}

/// A text without its sign.
pub open spec fn unsigned(s: Seq<char>) -> Seq<char> {
    if s.len() > 0 && (s[0] == '-' || s[0] == '+') {
        s.skip(1)
    } else {
        s
    }
}

/// Digits, with at most one decimal point and at least one digit.
pub open spec fn is_mantissa(s: Seq<char>) -> bool {
    match find_char(s, '.') {
        None => all_digits(s, 10),
        Some(k) => {
            &&& k == 0 || all_digits(s.take(k), 10)
            &&& k + 1 == s.len() || all_digits(s.skip(k + 1), 10)
            &&& s.len() > 1
        },
    }
}

/// Whether a text denotes a decimal floating-point number.
pub open spec fn is_number(s: Seq<char>) -> bool {
    let t = unsigned(s);
    let e = match find_char(t, 'e') {
        Some(k) => Some(k),
        None => find_char(t, 'E'),
    };
    match e {
        None => is_mantissa(t),
        Some(k) => is_mantissa(t.take(k)) && all_digits(unsigned(t.skip(k + 1)), 10),
    }
}

/// The text without its sign.
pub fn strip_sign(c: &[char]) -> (r: &[char])
    ensures
        r@ == unsigned(c@),
{
    if c.len() > 0 && (c[0] == '-' || c[0] == '+') {
        tail(c, 1)
    } else {
        c
    }
}

fn are_digits(c: &[char]) -> (r: bool)
    ensures
        r == all_digits(c@, 10),
{
    let mut i: usize = 0;
    while i < c.len()
        invariant
            i <= c@.len(),
            forall|k: int| 0 <= k < i ==> digit_val(#[trigger] c@[k], 10) is Some,
        decreases c.len() - i,
    {
        if !('0' <= c[i] && c[i] <= '9') {
            proof {
                assert(digit_val(c@[i as int], 10) is None);
            }
            return false;
        }
        i += 1;
    }
    c.len() > 0
}

fn mantissa(c: &[char]) -> (r: bool)
    ensures
        r == is_mantissa(c@),
{
    match chars_find(c, '.') {
        None => are_digits(c),
        Some(k) => c.len() > 1 && (k == 0 || are_digits(head(c, k))) && (k + 1 == c.len()
            || are_digits(tail(c, k + 1))),
    }
}

/// Whether a text denotes a decimal floating-point number.
pub fn number_text(c: &[char]) -> (r: bool)
    ensures
        r == is_number(c@),
{
    let t = strip_sign(c);
    let n: usize = t.len();
    let e = match chars_find(t, 'e') {
        Some(k) => Some(k),
        None => chars_find(t, 'E'),
    };
    match e {
        None => mantissa(t),
        Some(k) => mantissa(head(t, k)) && are_digits(strip_sign(tail(t, k + 1))),
    }
}

/// The digit character for a value below sixteen.
pub open spec fn digit_char(v: nat) -> char {
    if v < 10 {
        ('0' as u32 + v) as char
    } else {
        ('a' as u32 + (v - 10)) as char
    }
}

/// The numeral of `n` in the given base, without leading zeros.
pub open spec fn numeral(n: nat, base: nat) -> Seq<char>
    decreases n,
{
    if base < 2 {
        Seq::empty()
    } else if n < base {
        seq![digit_char(n)]
    } else {
        proof {
            assert(n / base < n) by (nonlinear_arith)
                requires
                    base >= 2,
                    n >= base,
            ;
        }
        numeral(n / base, base).push(digit_char(n % base))
    }
}

/// The decimal numeral of `n`.
pub open spec fn decimal(n: nat) -> Seq<char> {
    numeral(n, 10)
}

/// The lower-case hexadecimal numeral of `n`.
pub open spec fn hexadecimal(n: nat) -> Seq<char> {
    numeral(n, 16)
}

/// A numeral padded on the left with zeros to at least `width` characters.
pub open spec fn padded(s: Seq<char>, width: nat) -> Seq<char> {
    if s.len() < width {
        Seq::new((width - s.len()) as nat, |i: int| '0') + s
    } else {
        s
    }
}

/// The digit character for a value.
pub fn to_digit_char(v: u8) -> (r: char)
    requires
        v < 16,
    ensures
        r == digit_char(v as nat),
{
    if v < 10 {
        (48u8 + v) as char
    } else {
        (97u8 + (v - 10)) as char
    }
}

/// Append the numeral of `n` to `out`.
pub fn push_numeral(out: &mut String, n: u64, base: u64)
    requires
        base == 10 || base == 16,
    ensures
        final(out)@ == old(out)@ + numeral(n as nat, base as nat),
    decreases n,
{
    if n >= base {
        push_numeral(out, n / base, base);
    }
    let d: u64 = n % base;
    out.push(to_digit_char(d as u8));
    proof {
        if n >= base {
            assert(numeral(n as nat, base as nat) == numeral((n / base) as nat, base as nat).push(
                digit_char((n % base) as nat),
            ));
            assert(out@ =~= old(out)@ + numeral(n as nat, base as nat));
        } else {
            assert(n % base == n) by (nonlinear_arith)
                requires
                    n < base,
            ;
            assert(out@ =~= old(out)@ + numeral(n as nat, base as nat));
        }
    }
}

/// The decimal numeral of `n` as a string.
pub fn decimal_string(n: u64) -> (r: String)
    ensures
        r@ == decimal(n as nat),
{
    let mut s: String = String::new();
    push_numeral(&mut s, n, 10);
    s
}

/// Append `n` in decimal, zero-padded to `width` characters.
pub fn push_padded(out: &mut String, n: u64, width: usize)
    ensures
        final(out)@ == old(out)@ + padded(decimal(n as nat), width as nat),
{
    let d = decimal_string(n);
    let c = chars_of(d.as_str());
    let mut k: usize = c.len();
    let ghost z = Seq::<char>::empty();
    while k < width
        invariant
            c@.len() <= k,
            c@.len() >= width ==> k == c@.len(),
            c@.len() < width ==> k <= width,
            out@ == old(out)@ + Seq::new((k - c@.len()) as nat, |i: int| '0'),
        decreases width - k,
    {
        out.push('0');
        k += 1;
        proof {
            assert(out@ =~= old(out)@ + Seq::new((k - c@.len()) as nat, |i: int| '0'));
        }
    }
    proof {
        assert(out@ + d@ =~= old(out)@ + padded(decimal(n as nat), width as nat));
    }
    out.push_str(d.as_str());
}

// ---------------------------------------------------------------------------
// Conversion into strings
// ---------------------------------------------------------------------------

// ---------------------------------------------------------------------------
// Joining
// ---------------------------------------------------------------------------

/// Pieces one after another, with a separator between any two.
pub open spec fn concat(parts: Seq<Seq<char>>, sep: Seq<char>) -> Seq<char>
    decreases parts.len(),
{
    if parts.len() == 0 {
        Seq::empty()
    } else if parts.len() == 1 {
        parts[0]
    } else {
        concat(parts.drop_last(), sep) + sep + parts.last()
    }
}

/// Join the pieces from `from` on.
pub fn join_texts(parts: &Vec<String>, from: usize, sep: &str) -> (r: String)
    requires
        from <= parts@.len(),
    ensures
        r@ == concat(texts(parts@).skip(from as int), sep@),
{
    let ghost all = texts(parts@).skip(from as int);
    let mut out = String::new();
    let mut i: usize = from;
    proof {
        assert(all.take(0) =~= Seq::empty());
        assert(out@ =~= Seq::empty());
    }
    while i < parts.len()
        invariant
            from <= i <= parts@.len(),
            all == texts(parts@).skip(from as int),
            out@ == concat(all.take(i - from), sep@),
        decreases parts.len() - i,
    {
        proof {
            let k = i - from;
            assert(all.take(k + 1).drop_last() =~= all.take(k));
            assert(all.take(k + 1).last() == parts@[i as int]@);
            assert(out@ + parts@[i as int]@ =~= parts@[i as int]@ || k > 0);
        }
        if i > from {
            out.push_str(sep);
        }
        out.push_str(parts[i].as_str());
        i += 1;
    }
    proof {
        assert(all.take(all.len() as int) =~= all);
    }
    out
}

/// The pieces of a split as texts.
pub fn split_texts(c: &[char], sep: char) -> (r: Vec<String>)
    ensures
        texts(r@) == split(c@, sep),
{
    let parts = chars_split(c, sep);
    let ghost all = split(c@, sep);
    let mut out: Vec<String> = Vec::new();
    let mut i: usize = 0;
    proof {
        assert(texts(out@) =~= all.take(0));
    }
    while i < parts.len()
        invariant
            i <= parts@.len(),
            all == views(parts@),
            texts(out@) == all.take(i as int),
        decreases parts.len() - i,
    {
        let ghost before = out@;
        let t = text_of(parts[i]);
        out.push(t);
        proof {
            assert(texts(out@) =~= texts(before).push(t@));
            assert(all[i as int] == parts@[i as int]@);
            assert(all.take(i + 1) =~= all.take(i as int).push(t@));
        }
        i += 1;
    }
    proof {
        assert(all.take(all.len() as int) =~= all);
    }
    out
}

/// Values that can be handed over as text.
pub trait IntoText: Sized {
    /// The text that the value stands for.
    spec fn text(&self) -> Seq<char>;

    /// Hand over the text as an owned string.
    fn into_text(self) -> (r: String)
        ensures
            r@ == self.text(),
    ;
}

impl IntoText for String {
    open spec fn text(&self) -> Seq<char> {
        self@
    }

    fn into_text(self) -> (r: String) {
        self
    }
}

impl IntoText for &str {
    open spec fn text(&self) -> Seq<char> {
        self@
    }

    fn into_text(self) -> (r: String) {
        self.to_owned()
    }
}

impl IntoText for &String {
    open spec fn text(&self) -> Seq<char> {
        self@
    }

    fn into_text(self) -> (r: String) {
        self.clone()
    }
}

// ---------------------------------------------------------------------------
// Laws
// ---------------------------------------------------------------------------

/// The digits are `0` to `9` and `a` to `f`, each with its place in that list for
/// a value; in base ten only the first ten of them are digits. Upper case counts
/// the same, and nothing else is a digit.
pub proof fn law_digits(c: char, v: int)
    ensures
        0 <= v < 16 ==> digit_val("0123456789abcdef"@[v], 16) == Some(v as nat),
        0 <= v < 16 ==> digit_val("0123456789ABCDEF"@[v], 16) == Some(v as nat),
        0 <= v < 16 ==> digit_char(v as nat) == "0123456789abcdef"@[v],
        0 <= v < 10 ==> digit_val("0123456789"@[v], 10) == Some(v as nat),
        digit_val(c, 10) is Some <==> "0123456789"@.contains(c),
        digit_val(c, 16) is Some <==> "0123456789abcdefABCDEF"@.contains(c),
{
    reveal_strlit("0123456789abcdef");
    reveal_strlit("0123456789ABCDEF");
    reveal_strlit("0123456789");
    reveal_strlit("0123456789abcdefABCDEF");
    let d = "0123456789"@;
    let h = "0123456789abcdefABCDEF"@;
    if digit_val(c, 10) is Some {
        let k = c as int - '0' as int;
        assert(d[k] == c);
    }
    if digit_val(c, 16) is Some {
        let k = if '0' <= c && c <= '9' {
            c as int - '0' as int
        } else if 'a' <= c && c <= 'f' {
            c as int - 'a' as int + 10
        } else {
            c as int - 'A' as int + 16
        };
        assert(h[k] == c);
    }
}

/// Digits count by their place: what stands before `k` more digits counts as many
/// times as the base to the power of `k` says.
pub proof fn law_digits_are_positional(a: Seq<char>, b: Seq<char>, base: nat)
    ensures
        digits_value(a + b, base) == digits_value(a, base) * pow(base as int, b.len())
            + digits_value(b, base),
    decreases b.len(),
{
    if b.len() == 0 {
        assert(a + b =~= a);
        lemma_pow0(base as int);
    } else {
        let c = b.drop_last();
        assert((a + b).drop_last() =~= a + c);
        law_digits_are_positional(a, c, base);
        reveal(pow);
        let x = digits_value(a, base) as int;
        let y = digits_value(c, base) as int;
        let q = pow(base as int, c.len());
        let n = base as int;
        assert((x * q + y) * n == x * (n * q) + y * n) by (nonlinear_arith);
    }
}

/// A digit alone is worth its value.
pub proof fn law_one_digit(c: char, base: nat)
    requires
        digit_val(c, base) is Some,
    ensures
        digits_value(seq![c], base) == digit_val(c, base)->0,
{
    reveal_with_fuel(digits_value, 2);
    assert(seq![c].drop_last() =~= Seq::empty());
}

/// Numbers that are written are read back, in decimal and in hexadecimal.
pub proof fn law_numerals_read_back(n: nat, base: nat, max: nat)
    requires
        base == 10 || base == 16,
        n <= max,
    ensures
        parse_digits(numeral(n, base), base, max) == Some(n),
{
    lemma_numeral(n, base);
}

/// A numeral is made of digits of its base and is worth what it stands for.
pub proof fn lemma_numeral(n: nat, base: nat)
    requires
        base == 10 || base == 16,
    ensures
        all_digits(numeral(n, base), base),
        digits_value(numeral(n, base), base) == n,
    decreases n,
{
    if n < base {
        assert(digit_val(digit_char(n), base) == Some(n));
        law_one_digit(digit_char(n), base);
    } else {
        let q = n / base;
        let r = n % base;
        assert(q < n);
        lemma_numeral(q, base);
        let s = numeral(q, base);
        let t = s.push(digit_char(r));
        assert(digit_val(digit_char(r), base) == Some(r));
        assert(t.drop_last() =~= s);
        assert forall|i: int| 0 <= i < t.len() implies digit_val(#[trigger] t[i], base) is Some by {
            if i < s.len() {
                assert(t[i] == s[i]);
            }
        }
        assert(q * base + r == n);
    }
}

/// A numeral has no leading zero, unless it is that of zero.
pub proof fn law_numerals_have_no_leading_zero(n: nat, base: nat)
    requires
        base == 10 || base == 16,
    ensures
        numeral(n, base).len() > 0,
        n > 0 ==> numeral(n, base)[0] != '0',
        n == 0 ==> numeral(n, base) == seq!['0'],
    decreases n,
{
    if n >= base {
        assert(n / base < n);
        assert(n / base > 0);
        law_numerals_have_no_leading_zero(n / base, base);
    }
}

/// Whether every character is white space.
pub open spec fn all_white(s: Seq<char>) -> bool {
    forall|i: int| 0 <= i < s.len() ==> is_white(#[trigger] s[i])
}

/// Whether a text neither begins nor ends with white space.
pub open spec fn tight(s: Seq<char>) -> bool {
    s.len() > 0 ==> !is_white(s[0]) && !is_white(s.last())
}

/// Blanks, tabs and line breaks are white space; what can be seen in ASCII is not.
pub proof fn law_white_space(c: char)
    ensures
        c == ' ' || c == '\t' || c == '\r' || c == '\n' ==> is_white(c),
        '!' <= c && c <= '~' ==> !is_white(c),
{
}

/// Trimming takes away the white space around a text and nothing else: a text
/// with white space around it is trimmed to just that text.
pub proof fn law_trim(a: Seq<char>, s: Seq<char>, b: Seq<char>)
    requires
        all_white(a),
        all_white(b),
        tight(s),
    ensures
        trim(a + s + b) == s,
{
    lemma_trim_start(a, s + b);
    assert(a + s + b =~= a + (s + b));
    if s.len() == 0 {
        assert(s + b =~= b + Seq::<char>::empty());
        lemma_trim_start(b, Seq::empty());
        assert(s =~= Seq::empty());
    } else {
        assert((s + b)[0] == s[0]);
        assert(trim_start(s + b) == s + b);
        lemma_trim_end(s, b);
    }
}

/// White space before a text is passed over.
pub proof fn lemma_trim_start(a: Seq<char>, s: Seq<char>)
    requires
        all_white(a),
    ensures
        trim_start(a + s) == trim_start(s),
    decreases a.len(),
{
    if a.len() == 0 {
        assert(a + s =~= s);
    } else {
        assert((a + s).skip(1) =~= a.skip(1) + s);
        assert((a + s)[0] == a[0]);
        assert forall|i: int| 0 <= i < a.skip(1).len() implies is_white(#[trigger] a.skip(1)[i]) by {
            assert(a.skip(1)[i] == a[i + 1]);
        }
        lemma_trim_start(a.skip(1), s);
    }
}

/// White space behind a text is passed over.
pub proof fn lemma_trim_end(s: Seq<char>, b: Seq<char>)
    requires
        all_white(b),
        tight(s),
    ensures
        trim_end(s + b) == s,
    decreases b.len(),
{
    if b.len() == 0 {
        assert(s + b =~= s);
    } else {
        assert((s + b).drop_last() =~= s + b.drop_last());
        assert((s + b).last() == b.last());
        lemma_trim_end(s, b.drop_last());
    }
}

/// What trimming gives neither begins nor ends with white space.
pub proof fn law_trimmed_is_tight(s: Seq<char>)
    ensures
        tight(trim(s)),
{
    lemma_trimmed_start(s);
    lemma_trimmed_end(trim_start(s));
}

proof fn lemma_trimmed_start(s: Seq<char>)
    ensures
        trim_start(s).len() > 0 ==> !is_white(trim_start(s)[0]),
    decreases s.len(),
{
    if s.len() > 0 && is_white(s[0]) {
        lemma_trimmed_start(s.skip(1));
    }
}

proof fn lemma_trimmed_end(s: Seq<char>)
    requires
        s.len() > 0 ==> !is_white(s[0]),
    ensures
        tight(trim_end(s)),
    decreases s.len(),
{
    if s.len() > 0 && is_white(s.last()) {
        lemma_trimmed_end(s.drop_last());
    }
}

/// Splitting undoes joining: pieces without the separator, joined by it, are split
/// into just those pieces.
pub proof fn law_split_undoes_joining(parts: Seq<Seq<char>>, sep: char)
    requires
        parts.len() > 0,
        forall|i: int| 0 <= i < parts.len() ==> !(#[trigger] parts[i]).contains(sep),
    ensures
        split(concat(parts, seq![sep]), sep) == parts,
    decreases parts.len(),
{
    let last = parts.last();
    assert(parts[parts.len() - 1] == last);
    lemma_unsplit(last, sep);
    if parts.len() == 1 {
        assert(parts =~= seq![last]);
    } else {
        let rest = parts.drop_last();
        assert forall|i: int| 0 <= i < rest.len() implies !(#[trigger] rest[i]).contains(sep) by {
            assert(rest[i] == parts[i]);
        }
        law_split_undoes_joining(rest, sep);
        lemma_split_around(concat(rest, seq![sep]), last, sep);
        assert(parts =~= rest + seq![last]);
    }
}

/// A text without the separator is one piece.
pub proof fn lemma_unsplit(s: Seq<char>, sep: char)
    requires
        !s.contains(sep),
    ensures
        find_char(s, sep) is None,
        split(s, sep) == seq![s],
{
    lemma_find_char(s, sep);
    if find_char(s, sep) is Some {
        assert(s.contains(s[find_char(s, sep)->0]));
    }
}

/// Joining undoes splitting.
pub proof fn law_joining_undoes_split(s: Seq<char>, sep: char)
    ensures
        concat(split(s, sep), seq![sep]) == s,
        split(s, sep).len() > 0,
    decreases s.len(),
{
    lemma_find_char(s, sep);
    match find_char(s, sep) {
        None => {},
        Some(i) => {
            let rest = s.skip(i + 1);
            law_joining_undoes_split(rest, sep);
            lemma_concat_first(s.take(i), split(rest, sep), seq![sep]);
            assert(s.take(i) + seq![sep] + rest =~= s);
        },
    }
}

/// Joining one more piece in front.
pub proof fn lemma_concat_first(a: Seq<char>, parts: Seq<Seq<char>>, sep: Seq<char>)
    requires
        parts.len() > 0,
    ensures
        concat(seq![a] + parts, sep) == a + sep + concat(parts, sep),
    decreases parts.len(),
{
    let all = seq![a] + parts;
    reveal_with_fuel(concat, 2);
    if parts.len() == 1 {
        assert(all.drop_last() =~= seq![a]);
    } else {
        assert(all.drop_last() =~= seq![a] + parts.drop_last());
        lemma_concat_first(a, parts.drop_last(), sep);
        assert(concat(all, sep) =~= a + sep + concat(parts, sep));
    }
}

/// Splitting two texts with a separator between them is splitting each.
pub proof fn lemma_split_around(a: Seq<char>, b: Seq<char>, sep: char)
    ensures
        split(a + seq![sep] + b, sep) == split(a, sep) + split(b, sep),
    decreases a.len(),
{
    let s = a + seq![sep] + b;
    lemma_find_char(s, sep);
    lemma_find_char(a, sep);
    match find_char(a, sep) {
        None => {
            let k = find_char(s, sep)->0;
            assert(s[a.len() as int] == sep);
            assert(find_char(s, sep) is Some);
            assert(k == a.len()) by {
                if k < a.len() {
                    assert(a[k] == s[k]);
                }
            }
            assert(s.take(k) =~= a);
            assert(s.skip(k + 1) =~= b);
        },
        Some(i) => {
            assert(s[i] == a[i]);
            let k = find_char(s, sep)->0;
            assert(find_char(s, sep) is Some);
            assert(k == i) by {
                if k < i {
                    assert(a[k] == s[k]);
                }
            }
            assert(s.take(i) =~= a.take(i));
            assert(s.skip(i + 1) =~= a.skip(i + 1) + seq![sep] + b);
            lemma_split_around(a.skip(i + 1), b, sep);
            assert(seq![a.take(i)] + (split(a.skip(i + 1), sep) + split(b, sep)) =~= seq![a.take(i)]
                + split(a.skip(i + 1), sep) + split(b, sep));
        },
    }
}

/// A text is taken apart at the first separator.
pub proof fn law_split_once(a: Seq<char>, b: Seq<char>, sep: char)
    requires
        !a.contains(sep),
    ensures
        split_once(a + seq![sep] + b, sep) == Some((a, b)),
        split_once(a, sep) is None,
{
    let s = a + seq![sep] + b;
    lemma_find_char(s, sep);
    lemma_unsplit(a, sep);
    assert(s[a.len() as int] == sep);
    let k = find_char(s, sep)->0;
    if k < a.len() {
        assert(a[k] == s[k]);
        assert(a.contains(a[k]));
    }
    assert(s.take(k) =~= a);
    assert(s.skip(k + 1) =~= b);
}

/// A prefix is stripped from what begins with it, and from nothing else.
pub proof fn law_strip_prefix(p: Seq<char>, s: Seq<char>)
    ensures
        strip_prefix(p + s, p) == Some(s),
        strip_prefix(s, p) matches Some(t) ==> s == p + t,
{
    assert((p + s).take(p.len() as int) =~= p);
    assert((p + s).skip(p.len() as int) =~= s);
    if starts_with(s, p) {
        assert(s =~= p + s.skip(p.len() as int));
    }
}

/// Lower-casing takes the capital letters to the small ones, letter by letter, and
/// leaves everything else alone.
pub proof fn law_lower(c: char, k: int)
    ensures
        0 <= k < 26 ==> lower_char("ABCDEFGHIJKLMNOPQRSTUVWXYZ"@[k])
            == "abcdefghijklmnopqrstuvwxyz"@[k],
        !"ABCDEFGHIJKLMNOPQRSTUVWXYZ"@.contains(c) ==> lower_char(c) == c,
{
    reveal_strlit("ABCDEFGHIJKLMNOPQRSTUVWXYZ");
    reveal_strlit("abcdefghijklmnopqrstuvwxyz");
    let u = "ABCDEFGHIJKLMNOPQRSTUVWXYZ"@;
    if 'A' <= c && c <= 'Z' {
        let i = c as int - 'A' as int;
        assert(u[i] == c);
    }
}

/// What is equal up to case is as long, letter for letter equal up to case, and
/// what is equal is equal up to case.
pub proof fn law_eq_nocase(a: Seq<char>, b: Seq<char>)
    ensures
        eq_nocase(a, b) <==> a.len() == b.len() && forall|i: int|
            0 <= i < a.len() ==> lower_char(#[trigger] a[i]) == lower_char(b[i]),
        eq_nocase(a, a),
{
    if eq_nocase(a, b) {
        assert(lower(a).len() == lower(b).len());
        assert forall|i: int| 0 <= i < a.len() implies lower_char(#[trigger] a[i]) == lower_char(
            b[i],
        ) by {
            assert(lower(a)[i] == lower(b)[i]);
        }
    }
    if a.len() == b.len() && forall|i: int|
        0 <= i < a.len() ==> lower_char(#[trigger] a[i]) == lower_char(b[i]) {
        assert(lower(a) =~= lower(b));
    }
}

/// The first place at which a text stands in another is found.
pub proof fn law_find_text(s: Seq<char>, p: Seq<char>, from: int)
    requires
        0 <= from,
    ensures
        match find_text(s, p, from) {
            Some(i) => from <= i && stands_at(s, p, i) && forall|j: int|
                from <= j < i ==> !stands_at(s, p, j),
            None => forall|j: int| from <= j ==> !stands_at(s, p, j),
        },
    decreases s.len() + 1 - from,
{
    if from + p.len() <= s.len() && !stands_at(s, p, from) {
        law_find_text(s, p, from + 1);
    }
}

/// A text stands where it was put.
pub proof fn law_contains(a: Seq<char>, p: Seq<char>, b: Seq<char>)
    ensures
        stands_at(a + p + b, p, a.len() as int),
        contains(a + p + b, p),
{
    let s = a + p + b;
    assert(s.subrange(a.len() as int, (a.len() + p.len()) as int) =~= p);
    assert(stands_at(s, p, a.len() as int));
}

/// A character is stripped from the end however often it stands there, and nothing
/// else is.
pub proof fn law_trim_end_char(s: Seq<char>, c: char, k: nat)
    requires
        s.len() > 0 ==> s.last() != c,
    ensures
        trim_end_char(s + Seq::new(k, |i: int| c), c) == s,
    decreases k,
{
    let t = Seq::new(k, |i: int| c);
    if k == 0 {
        assert(s + t =~= s);
    } else {
        let u = Seq::new((k - 1) as nat, |i: int| c);
        assert((s + t).drop_last() =~= s + u);
        law_trim_end_char(s, c, (k - 1) as nat);
    }
}

/// Padding puts zeros before a numeral, as many as are wanting.
pub proof fn law_padding(n: nat, width: nat)
    ensures
        padded(decimal(n), width).len() >= width,
        digits_value(padded(decimal(n), width), 10) == n,
        all_digits(padded(decimal(n), width), 10),
        decimal(n).len() >= width ==> padded(decimal(n), width) == decimal(n),
        decimal(n).len() <= width ==> padded(decimal(n), width).len() == width,
{
    lemma_numeral(n, 10);
    let d = decimal(n);
    if d.len() < width {
        let k = (width - d.len()) as nat;
        let z = Seq::new(k, |i: int| '0');
        lemma_zeros(k);
        law_digits_are_positional(z, d, 10);
        assert(0 * pow(10, d.len()) == 0);
        let p = padded(d, width);
        assert forall|i: int| 0 <= i < p.len() implies digit_val(#[trigger] p[i], 10) is Some by {
            if i >= k {
                assert(p[i] == d[i - k]);
            }
        }
    }
}

proof fn lemma_zeros(k: nat)
    ensures
        digits_value(Seq::new(k, |i: int| '0'), 10) == 0,
    decreases k,
{
    if k > 0 {
        assert(Seq::new(k, |i: int| '0').drop_last() =~= Seq::new((k - 1) as nat, |i: int| '0'));
        lemma_zeros((k - 1) as nat);
    }
}

} // verus!
