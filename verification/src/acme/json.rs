//! A small JSON reader/writer scoped to what ACME needs (RFC 8259).
//!
//! ACME responses are small and well-structured. Outbound request bodies are
//! tiny and assembled with [`obj`]/[`escape`].
use crate::bytes::tail;
use crate::error::{Error, ErrorModel, Result};
use crate::text::{
    all_digits, chars_digits, chars_eq, chars_of, digit_char, digit_val, digits_value, is_number,
    number_text, parse_digits, str_eq, text_of, to_digit_char,
};
use vstd::prelude::*;
use vstd::slice::slice_subrange;
use vstd::utf8::{encode_scalar, encode_utf8, is_scalar};

verus! {

broadcast use vstd::seq::group_seq_axioms;

/// A parsed JSON value. A number is kept as it was written.
#[derive(Debug, PartialEq)]
pub enum Value {
    Null,
    Bool(bool),
    Num(String),
    Str(String),
    Array(Vec<Value>),
    Object(Vec<(String, Value)>),
}

/// The model of a JSON value.
pub enum ValueModel {
    Null,
    Bool(bool),
    Num(Seq<char>),
    Str(Seq<char>),
    Array(Seq<ValueModel>),
    Object(Seq<(Seq<char>, ValueModel)>),
}

/// The model of a value.
pub open spec fn model(v: Value) -> ValueModel
    decreases v,
{
    match v {
        Value::Null => ValueModel::Null,
        Value::Bool(b) => ValueModel::Bool(b),
        Value::Num(s) => ValueModel::Num(s@),
        Value::Str(s) => ValueModel::Str(s@),
        Value::Array(a) => ValueModel::Array(models(a@)),
        Value::Object(f) => ValueModel::Object(members(f@)),
    }
}

/// The models of values, in order.
pub open spec fn models(a: Seq<Value>) -> Seq<ValueModel>
    decreases a,
{
    if a.len() == 0 {
        Seq::empty()
    } else {
        models(a.drop_last()).push(model(a.last()))
    }
}

/// The models of object members, in order.
pub open spec fn members(f: Seq<(String, Value)>) -> Seq<(Seq<char>, ValueModel)>
    decreases f,
{
    if f.len() == 0 {
        Seq::empty()
    } else {
        members(f.drop_last()).push((f.last().0@, model(f.last().1)))
    }
}

impl View for Value {
    type V = ValueModel;

    open spec fn view(&self) -> ValueModel {
        model(*self)
    }
}

pub proof fn lemma_models(a: Seq<Value>)
    ensures
        models(a).len() == a.len(),
        forall|i: int| 0 <= i < a.len() ==> #[trigger] models(a)[i] == model(a[i]),
    decreases a.len(),
{
    if a.len() > 0 {
        lemma_models(a.drop_last());
        assert forall|i: int| 0 <= i < a.len() implies #[trigger] models(a)[i] == model(a[i]) by {
            if i < a.len() - 1 {
                assert(models(a)[i] == models(a.drop_last())[i]);
                assert(a.drop_last()[i] == a[i]);
            }
        }
    }
}

pub proof fn lemma_members(f: Seq<(String, Value)>)
    ensures
        members(f).len() == f.len(),
        forall|i: int|
            0 <= i < f.len() ==> #[trigger] members(f)[i] == (f[i].0@, model(f[i].1)),
    decreases f.len(),
{
    if f.len() > 0 {
        lemma_members(f.drop_last());
        assert forall|i: int| 0 <= i < f.len() implies #[trigger] members(f)[i] == (
            f[i].0@,
            model(f[i].1),
        ) by {
            if i < f.len() - 1 {
                assert(members(f)[i] == members(f.drop_last())[i]);
                assert(f.drop_last()[i] == f[i]);
            }
        }
    }
}

/// The first member with this key.
pub open spec fn member(f: Seq<(Seq<char>, ValueModel)>, key: Seq<char>) -> Option<ValueModel>
    decreases f.len(),
{
    if f.len() == 0 {
        None
    } else if f[0].0 == key {
        Some(f[0].1)
    } else {
        member(f.skip(1), key)
    }
}

impl ValueModel {
    /// The value at object field `key`.
    pub open spec fn at(self, key: Seq<char>) -> Option<ValueModel> {
        match self {
            ValueModel::Object(f) => member(f, key),
            _ => None,
        }
    }

    /// The string at object field `key`.
    pub open spec fn text_at(self, key: Seq<char>) -> Option<Seq<char>> {
        match self.at(key) {
            Some(ValueModel::Str(s)) => Some(s),
            _ => None,
        }
    }

    /// The array at object field `key`.
    pub open spec fn list_at(self, key: Seq<char>) -> Option<Seq<ValueModel>> {
        match self.at(key) {
            Some(ValueModel::Array(a)) => Some(a),
            _ => None,
        }
    }
}

impl Value {
    /// Field lookup for objects.
    pub fn get(&self, key: &str) -> (r: Option<&Value>)
        ensures
            match r {
                Some(v) => self@.at(key@) == Some(v@),
                None => self@.at(key@) is None,
            },
    {
        match self {
            Value::Object(fields) => {
                let ghost ms = members(fields@);
                let mut i: usize = 0;
                proof {
                    lemma_members(fields@);
                    assert(ms.skip(0) =~= ms);
                }
                while i < fields.len()
                    invariant
                        i <= fields@.len(),
                        ms.len() == fields@.len(),
                        self@ == ValueModel::Object(ms),
                        forall|k: int|
                            0 <= k < fields@.len() ==> #[trigger] ms[k] == (
                                fields@[k].0@,
                                model(fields@[k].1),
                            ),
                        member(ms, key@) == member(ms.skip(i as int), key@),
                    decreases fields.len() - i,
                {
                    proof {
                        assert(ms.skip(i as int)[0] == ms[i as int]);
                        assert(ms.skip(i as int).skip(1) =~= ms.skip(i + 1));
                    }
                    if str_eq(fields[i].0.as_str(), key) {
                        return Some(&fields[i].1);
                    }
                    i += 1;
                }
                None
            },
            _ => None,
        }
    }

    /// The string value, if this is a string.
    pub fn as_str(&self) -> (r: Option<&str>)
        ensures
            match r {
                Some(s) => self@ == ValueModel::Str(s@),
                None => !(self@ is Str),
            },
    {
        match self {
            Value::Str(s) => Some(s.as_str()),
            _ => None,
        }
    }

    /// The text of a number, if this is a number.
    pub fn as_number(&self) -> (r: Option<&str>)
        ensures
            match r {
                Some(s) => self@ == ValueModel::Num(s@),
                None => !(self@ is Num),
            },
    {
        match self {
            Value::Num(s) => Some(s.as_str()),
            _ => None,
        }
    }

    /// The array elements, if this is an array.
    pub fn as_array(&self) -> (r: Option<&[Value]>)
        ensures
            match r {
                Some(a) => self@ == ValueModel::Array(models(a@)),
                None => !(self@ is Array),
            },
    {
        match self {
            Value::Array(a) => Some(a.as_slice()),
            _ => None,
        }
    }

    /// Convenience: the string at object field `key`.
    pub fn str_at(&self, key: &str) -> (r: Option<&str>)
        ensures
            match r {
                Some(s) => self@.text_at(key@) == Some(s@),
                None => self@.text_at(key@) is None,
            },
    {
        match self.get(key) {
            Some(v) => v.as_str(),
            None => None,
        }
    }
}

// ---------------------------------------------------------------------------
// The grammar
// ---------------------------------------------------------------------------

/// What reading at a position gives: the value and where it ends, or what is
/// wrong.
pub type Reading<T> = core::result::Result<(T, int), Seq<char>>;

pub open spec fn is_ws(c: char) -> bool {
    c == ' ' || c == '\t' || c == '\n' || c == '\r'
}

/// The first position from `i` on that is not white space.
pub open spec fn after_ws(b: Seq<char>, i: int) -> int
    decreases b.len() - i,
{
    if 0 <= i < b.len() && is_ws(b[i]) {
        after_ws(b, i + 1)
    } else {
        i
    }
}

/// Whether the character at `i` is `c`.
pub open spec fn char_at(b: Seq<char>, i: int, c: char) -> bool {
    0 <= i < b.len() && b[i] == c
}

/// What a one-letter escape stands for.
pub open spec fn escape_of(e: char) -> Option<char> {
    if e == '"' {
        Some('"')
    } else if e == '\\' {
        Some('\\')
    } else if e == '/' {
        Some('/')
    } else if e == 'n' {
        Some('\n')
    } else if e == 't' {
        Some('\t')
    } else if e == 'r' {
        Some('\r')
    } else if e == 'b' {
        Some('\u{8}')
    } else if e == 'f' {
        Some('\u{c}')
    } else {
        None
    }
}

/// The number that the four characters of a `\u` escape denote. A plus sign may
/// stand for the first digit.
pub open spec fn code_of(h: Seq<char>) -> Option<nat> {
    if h.len() > 1 && h[0] == '+' {
        parse_digits(h.skip(1), 16, 0xffff)
    } else {
        parse_digits(h, 16, 0xffff)
    }
}

/// The character with this code, or the replacement character where the code is
/// half of a surrogate pair.
pub open spec fn char_of_code(n: nat) -> char {
    if 0xd800 <= n <= 0xdfff {
        '\u{fffd}'
    } else {
        n as char
    }
}

/// The rest of a string from `i` on, behind the opening quote, appended to `acc`.
pub open spec fn string_at(b: Seq<char>, i: int, acc: Seq<char>) -> Reading<Seq<char>>
    decreases b.len() - i,
{
    if i < 0 || i >= b.len() {
        Err("unterminated string"@)
    } else if b[i] == '"' {
        Ok((acc, i + 1))
    } else if b[i] != '\\' {
        string_at(b, i + 1, acc.push(b[i]))
    } else if i + 1 >= b.len() {
        Err("bad escape"@)
    } else if b[i + 1] == 'u' {
        if encode_utf8(b.skip(i + 2)).len() < 4 {
            Err("short \\u"@)
        } else if i + 6 > b.len() {
            Err("bad \\u"@)
        } else {
            match code_of(b.subrange(i + 2, i + 6)) {
                Some(n) => string_at(b, i + 6, acc.push(char_of_code(n))),
                None => Err("bad \\u"@),
            }
        }
    } else {
        match escape_of(b[i + 1]) {
            Some(c) => string_at(b, i + 2, acc.push(c)),
            None => Err("unknown escape"@),
        }
    }
}

pub open spec fn is_number_char(c: char) -> bool {
    c == '-' || c == '+' || c == '.' || c == 'e' || c == 'E' || ('0' <= c && c <= '9')
}

/// The first position from `i` on that cannot be part of a number.
pub open spec fn after_number(b: Seq<char>, i: int) -> int
    decreases b.len() - i,
{
    if 0 <= i < b.len() && is_number_char(b[i]) {
        after_number(b, i + 1)
    } else {
        i
    }
}

/// Whether `word` stands at `i`.
pub open spec fn word_at(b: Seq<char>, i: int, word: Seq<char>) -> bool {
    0 <= i && i + word.len() <= b.len() && b.subrange(i, i + word.len()) == word
}

pub open spec fn literal_at(b: Seq<char>, i: int, word: Seq<char>, v: ValueModel) -> Reading<
    ValueModel,
> {
    if word_at(b, i, word) {
        Ok((v, (i + word.len()) as int))
    } else {
        Err("invalid literal"@)
    }
}

/// How deep arrays and objects may be nested.
pub const MAX_DEPTH: usize = 128;

/// How long a document may be, in bytes: one mebibyte.
pub const MAX_INPUT: usize = 1048576;

/// The value at `i`, behind white space, inside this many arrays and objects.
pub open spec fn value_at(b: Seq<char>, i: int, depth: nat) -> Reading<ValueModel>
    decreases b.len() - i, 0int,
{
    let k = after_ws(b, i);
    if k < i || k < 0 || k >= b.len() {
        Err("unexpected token"@)
    } else if (b[k] == '{' || b[k] == '[') && depth >= MAX_DEPTH {
        Err("nested too deeply"@)
    } else if b[k] == '{' {
        let j = after_ws(b, k + 1);
        if char_at(b, j, '}') {
            Ok((ValueModel::Object(Seq::empty()), j + 1))
        } else {
            members_at(b, k + 1, Seq::empty(), depth + 1)
        }
    } else if b[k] == '[' {
        let j = after_ws(b, k + 1);
        if char_at(b, j, ']') {
            Ok((ValueModel::Array(Seq::empty()), j + 1))
        } else {
            items_at(b, k + 1, Seq::empty(), depth + 1)
        }
    } else if b[k] == '"' {
        match string_at(b, k + 1, Seq::empty()) {
            Ok((s, e)) => Ok((ValueModel::Str(s), e)),
            Err(m) => Err(m),
        }
    } else if b[k] == 't' {
        literal_at(b, k, "true"@, ValueModel::Bool(true))
    } else if b[k] == 'f' {
        literal_at(b, k, "false"@, ValueModel::Bool(false))
    } else if b[k] == 'n' {
        literal_at(b, k, "null"@, ValueModel::Null)
    } else if b[k] == '-' || ('0' <= b[k] && b[k] <= '9') {
        let e = after_number(b, k);
        let text = b.subrange(k, e);
        if is_number(text) {
            Ok((ValueModel::Num(text), e))
        } else {
            Err("bad number"@)
        }
    } else {
        Err("unexpected token"@)
    }
}

/// The members of an object from `i` on, after those in `acc`. The object counts
/// in `depth`.
pub open spec fn members_at(
    b: Seq<char>,
    i: int,
    acc: Seq<(Seq<char>, ValueModel)>,
    depth: nat,
) -> Reading<ValueModel>
    decreases b.len() - i, 1int,
{
    let k = after_ws(b, i);
    if !char_at(b, k, '"') {
        Err("expected object key"@)
    } else {
        match string_at(b, k + 1, Seq::empty()) {
            Err(m) => Err(m),
            Ok((key, e)) => {
                let c = after_ws(b, e);
                if !char_at(b, c, ':') || c < i {
                    Err("expected ':'"@)
                } else {
                    match value_at(b, c + 1, depth) {
                        Err(m) => Err(m),
                        Ok((v, n)) => {
                            let d = after_ws(b, n);
                            if char_at(b, d, ',') && d >= i {
                                members_at(b, d + 1, acc.push((key, v)), depth)
                            } else if char_at(b, d, '}') {
                                Ok((ValueModel::Object(acc.push((key, v))), d + 1))
                            } else {
                                Err("expected ',' or '}'"@)
                            }
                        },
                    }
                }
            },
        }
    }
}

/// The items of an array from `i` on, after those in `acc`. The array counts in
/// `depth`.
pub open spec fn items_at(b: Seq<char>, i: int, acc: Seq<ValueModel>, depth: nat) -> Reading<
    ValueModel,
>
    decreases b.len() - i, 1int,
{
    match value_at(b, i, depth) {
        Err(m) => Err(m),
        Ok((v, n)) => {
            let d = after_ws(b, n);
            if char_at(b, d, ',') && d >= i {
                items_at(b, d + 1, acc.push(v), depth)
            } else if char_at(b, d, ']') {
                Ok((ValueModel::Array(acc.push(v)), d + 1))
            } else {
                Err("expected ',' or ']'"@)
            }
        },
    }
}

/// What a whole document says: one value with nothing but white space around it.
/// One that is too long, or nested too deeply, is refused.
pub open spec fn document(b: Seq<char>) -> core::result::Result<ValueModel, Seq<char>> {
    if encode_utf8(b).len() > MAX_INPUT {
        Err("document too long"@)
    } else {
        match value_at(b, after_ws(b, 0), 0) {
            Err(m) => Err(m),
            Ok((v, n)) => if after_ws(b, n) == b.len() {
                Ok(v)
            } else {
                Err("trailing data after JSON value"@)
            },
        }
    }
}

// ---------------------------------------------------------------------------
// Reading
// ---------------------------------------------------------------------------

/// `char::from_u32`: the character with this code, if there is one.
pub assume_specification[ char::from_u32 ](i: u32) -> (r: Option<char>)
    ensures
        match r {
            Some(c) => c as u32 == i && is_scalar(i),
            None => !is_scalar(i),
        },
;

fn skip_ws(b: &[char], i: usize) -> (r: usize)
    requires
        i <= b@.len(),
    ensures
        r == after_ws(b@, i as int),
        i <= r <= b@.len(),
{
    let mut k: usize = i;
    while k < b.len() && (b[k] == ' ' || b[k] == '\t' || b[k] == '\n' || b[k] == '\r')
        invariant
            i <= k <= b@.len(),
            after_ws(b@, i as int) == after_ws(b@, k as int),
        decreases b.len() - k,
    {
        k += 1;
    }
    k
}

fn simple_escape(e: char) -> (r: Option<char>)
    ensures
        r == escape_of(e),
{
    match e {
        '"' => Some('"'),
        '\\' => Some('\\'),
        '/' => Some('/'),
        'n' => Some('\n'),
        't' => Some('\t'),
        'r' => Some('\r'),
        'b' => Some('\u{8}'),
        'f' => Some('\u{c}'),
        _ => None,
    }
}

/// How many bytes a character takes in UTF-8.
fn utf8_len(c: char) -> (r: usize)
    ensures
        r == encode_scalar(c as u32).len(),
        1 <= r <= 4,
{
    let v: u32 = c as u32;
    if v < 0x80 {
        1
    } else if v < 0x800 {
        2
    } else if v < 0x10000 {
        3
    } else {
        4
    }
}

/// Whether fewer than four bytes are left from `from` on.
fn short_of_four(b: &[char], from: usize) -> (r: bool)
    requires
        from <= b@.len(),
    ensures
        r == (encode_utf8(b@.skip(from as int)).len() < 4),
        r ==> b@.len() - from < 4,
{
    let n: usize = b.len();
    let mut k: usize = from;
    let mut total: usize = 0;
    while k < n
        invariant
            from <= k <= n == b@.len(),
            total < 4,
            total >= k - from,
            encode_utf8(b@.skip(from as int)).len() == total + encode_utf8(b@.skip(k as int)).len(),
        decreases n - k,
    {
        proof {
            assert(b@.skip(k as int)[0] == b@[k as int]);
            assert(b@.skip(k as int).drop_first() =~= b@.skip(k + 1));
        }
        total += utf8_len(b[k]);
        k += 1;
        if total >= 4 {
            return false;
        }
    }
    proof {
        assert(b@.skip(n as int).len() == 0);
    }
    true
}

/// The code of a `\\u` escape.
fn code(h: &[char]) -> (r: Option<u32>)
    ensures
        match (r, code_of(h@)) {
            (Some(a), Some(n)) => a == n && a <= 0xffff,
            (None, None) => true,
            _ => false,
        },
{
    let d = if h.len() > 1 && h[0] == '+' {
        chars_digits(tail(h, 1), 16, 0xffff)
    } else {
        chars_digits(h, 16, 0xffff)
    };
    match d {
        Some(n) => Some(n as u32),
        None => None,
    }
}

fn coded_char(n: u32) -> (r: char)
    requires
        n <= 0xffff,
    ensures
        r == char_of_code(n as nat),
{
    match char::from_u32(n) {
        Some(c) => {
            proof {
                vstd::utf8::char_u32_cast(c, n);
            }
            c
        },
        None => '\u{fffd}',
    }
}

/// Read the rest of a string, behind its opening quote.
fn string(b: &[char], start: usize) -> (r: core::result::Result<(String, usize), &'static str>)
    requires
        start <= b@.len(),
    ensures
        match (r, string_at(b@, start as int, Seq::empty())) {
            (Ok((s, e)), Ok((t, f))) => s@ == t && e == f && start < e <= b@.len(),
            (Err(m), Err(n)) => m@ == n,
            _ => false,
        },
{
    let n: usize = b.len();
    let mut i: usize = start;
    let mut out: String = String::new();
    let ghost all = string_at(b@, start as int, Seq::empty());
    proof {
        assert(out@ =~= Seq::empty());
    }
    while i < n
        invariant
            start <= i <= n == b@.len(),
            all == string_at(b@, i as int, out@),
            all == string_at(b@, start as int, Seq::empty()),
        decreases n - i,
    {
        let c: char = b[i];
        if c == '"' {
            return Ok((out, i + 1));
        }
        if c != '\\' {
            out.push(c);
            i += 1;
            continue;
        }
        if i + 1 >= n {
            return Err("bad escape");
        }
        let e: char = b[i + 1];
        if e == 'u' {
            if short_of_four(b, i + 2) {
                return Err("short \\u");
            }
            if n - i < 6 {
                return Err("bad \\u");
            }
            match code(slice_subrange(b, i + 2, i + 6)) {
                Some(v) => {
                    out.push(coded_char(v));
                    i += 6;
                },
                None => {
                    return Err("bad \\u");
                },
            }
        } else {
            match simple_escape(e) {
                Some(x) => {
                    out.push(x);
                    i += 2;
                },
                None => {
                    return Err("unknown escape");
                },
            }
        }
    }
    Err("unterminated string")
}

fn literal(b: &[char], i: usize, word: &str, v: Value) -> (r: core::result::Result<
    (Value, usize),
    &'static str,
>)
    requires
        i <= b@.len(),
    ensures
        reads(r, literal_at(b@, i as int, word@, v@)),
        r matches Ok((_, e)) ==> i + word@.len() == e <= b@.len(),
{
    let w = chars_of(word);
    if b.len() - i >= w.len() && chars_eq(slice_subrange(b, i, i + w.len()), w.as_slice()) {
        Ok((v, i + w.len()))
    } else {
        Err("invalid literal")
    }
}

/// Whether a reading is the one described.
spec fn reads(r: core::result::Result<(Value, usize), &'static str>, m: Reading<ValueModel>) -> bool {
    match (r, m) {
        (Ok((v, e)), Ok((w, f))) => v@ == w && e == f,
        (Err(a), Err(c)) => a@ == c,
        _ => false,
    }
}

fn number(b: &[char], i: usize) -> (r: core::result::Result<(Value, usize), &'static str>)
    requires
        i < b@.len(),
        is_number_char(b@[i as int]),
    ensures
        ({
            let e = after_number(b@, i as int);
            let text = b@.subrange(i as int, e);
            match r {
                Ok((v, n)) => n == e && i < n <= b@.len() && is_number(text) && v@
                    == ValueModel::Num(text),
                Err(m) => !is_number(text) && m@ == "bad number"@,
            }
        }),
{
    let mut k: usize = i;
    while k < b.len() && (b[k] == '-' || b[k] == '+' || b[k] == '.' || b[k] == 'e' || b[k] == 'E' || (
    '0' <= b[k] && b[k] <= '9'))
        invariant
            i <= k <= b@.len(),
            after_number(b@, i as int) == after_number(b@, k as int),
        decreases b.len() - k,
    {
        k += 1;
    }
    let text = slice_subrange(b, i, k);
    if number_text(text) {
        Ok((Value::Num(text_of(text)), k))
    } else {
        Err("bad number")
    }
}

/// Read a value inside this many arrays and objects.
fn value(b: &[char], i: usize, depth: usize) -> (r: core::result::Result<
    (Value, usize),
    &'static str,
>)
    requires
        i <= b@.len(),
    ensures
        reads(r, value_at(b@, i as int, depth as nat)),
        r matches Ok((_, e)) ==> i < e <= b@.len(),
    decreases b@.len() - i, 0int,
{
    let k: usize = skip_ws(b, i);
    if k >= b.len() {
        return Err("unexpected token");
    }
    let c: char = b[k];
    proof {
        reveal_strlit("true");
        reveal_strlit("false");
        reveal_strlit("null");
    }
    if (c == '{' || c == '[') && depth >= MAX_DEPTH {
        return Err("nested too deeply");
    }
    if c == '{' {
        let j: usize = skip_ws(b, k + 1);
        if j < b.len() && b[j] == '}' {
            let v = Value::Object(Vec::new());
            proof {
                assert(v@ == ValueModel::Object(Seq::empty()));
            }
            return Ok((v, j + 1));
        }
        object(b, k + 1, depth + 1)
    } else if c == '[' {
        let j: usize = skip_ws(b, k + 1);
        if j < b.len() && b[j] == ']' {
            let v = Value::Array(Vec::new());
            proof {
                assert(v@ == ValueModel::Array(Seq::empty()));
            }
            return Ok((v, j + 1));
        }
        array(b, k + 1, depth + 1)
    } else if c == '"' {
        match string(b, k + 1) {
            Ok((s, e)) => Ok((Value::Str(s), e)),
            Err(m) => Err(m),
        }
    } else if c == 't' {
        literal(b, k, "true", Value::Bool(true))
    } else if c == 'f' {
        literal(b, k, "false", Value::Bool(false))
    } else if c == 'n' {
        literal(b, k, "null", Value::Null)
    } else if c == '-' || ('0' <= c && c <= '9') {
        number(b, k)
    } else {
        Err("unexpected token")
    }
}

/// Read the members of an object, behind its opening brace.
fn object(b: &[char], start: usize, depth: usize) -> (r: core::result::Result<
    (Value, usize),
    &'static str,
>)
    requires
        start <= b@.len(),
    ensures
        reads(r, members_at(b@, start as int, Seq::empty(), depth as nat)),
        r matches Ok((_, e)) ==> start < e <= b@.len(),
    decreases b@.len() - start, 1int,
{
    let n: usize = b.len();
    let mut fields: Vec<(String, Value)> = Vec::new();
    let mut i: usize = start;
    let ghost all = members_at(b@, start as int, Seq::empty(), depth as nat);
    loop
        invariant
            start <= i <= n == b@.len(),
            all == members_at(b@, start as int, Seq::empty(), depth as nat),
            all == members_at(b@, i as int, members(fields@), depth as nat),
        decreases n - i,
    {
        let k: usize = skip_ws(b, i);
        if k >= n || b[k] != '"' {
            return Err("expected object key");
        }
        let (key, e) = match string(b, k + 1) {
            Ok(x) => x,
            Err(m) => {
                return Err(m);
            },
        };
        let c: usize = skip_ws(b, e);
        if c >= n || b[c] != ':' {
            return Err("expected ':'");
        }
        let (v, m) = match value(b, c + 1, depth) {
            Ok(x) => x,
            Err(m) => {
                return Err(m);
            },
        };
        let d: usize = skip_ws(b, m);
        let ghost before = fields@;
        fields.push((key, v));
        proof {
            assert(fields@.drop_last() =~= before);
            assert(members(fields@) == members(before).push((key@, v@)));
        }
        if d < n && b[d] == ',' {
            i = d + 1;
        } else if d < n && b[d] == '}' {
            return Ok((Value::Object(fields), d + 1));
        } else {
            return Err("expected ',' or '}'");
        }
    }
}

/// Read the items of an array, behind its opening bracket.
fn array(b: &[char], start: usize, depth: usize) -> (r: core::result::Result<
    (Value, usize),
    &'static str,
>)
    requires
        start <= b@.len(),
    ensures
        reads(r, items_at(b@, start as int, Seq::empty(), depth as nat)),
        r matches Ok((_, e)) ==> start < e <= b@.len(),
    decreases b@.len() - start, 1int,
{
    let n: usize = b.len();
    let mut items: Vec<Value> = Vec::new();
    let mut i: usize = start;
    let ghost all = items_at(b@, start as int, Seq::empty(), depth as nat);
    loop
        invariant
            start <= i <= n == b@.len(),
            all == items_at(b@, start as int, Seq::empty(), depth as nat),
            all == items_at(b@, i as int, models(items@), depth as nat),
        decreases n - i,
    {
        let (v, m) = match value(b, i, depth) {
            Ok(x) => x,
            Err(m) => {
                return Err(m);
            },
        };
        let d: usize = skip_ws(b, m);
        let ghost before = items@;
        items.push(v);
        proof {
            assert(items@.drop_last() =~= before);
            assert(models(items@) == models(before).push(v@));
        }
        if d < n && b[d] == ',' {
            i = d + 1;
        } else if d < n && b[d] == ']' {
            return Ok((Value::Array(items), d + 1));
        } else {
            return Err("expected ',' or ']'");
        }
    }
}

/// The error for a document that is not JSON.
pub open spec fn json_error(msg: Seq<char>) -> ErrorModel {
    ErrorModel::Config("json: "@ + msg)
}

fn err(msg: &str) -> (r: Error)
    ensures
        r@ == json_error(msg@),
{
    let mut s: String = String::new();
    s.push_str("json: ");
    s.push_str(msg);
    proof {
        assert(s@ =~= "json: "@ + msg@);
    }
    Error::Config(s)
}

/// Parse a JSON document.
pub fn parse(input: &str) -> (r: Result<Value>)
    ensures
        match (r, document(input@)) {
            (Ok(v), Ok(m)) => v@ == m,
            (Err(e), Err(msg)) => e@ == json_error(msg),
            _ => false,
        },
{
    if input.as_bytes().len() > MAX_INPUT {
        return Err(err("document too long"));
    }
    let chars = chars_of(input);
    let b = chars.as_slice();
    let i: usize = skip_ws(b, 0);
    match value(b, i, 0) {
        Err(m) => Err(err(m)),
        Ok((v, n)) => if skip_ws(b, n) == b.len() {
            Ok(v)
        } else {
            Err(err("trailing data after JSON value"))
        },
    }
}

// ---------------------------------------------------------------------------
// Writing
// ---------------------------------------------------------------------------

/// How a character is written inside a JSON string.
pub open spec fn escaped_char(c: char) -> Seq<char> {
    if c == '"' {
        seq!['\\', '"']
    } else if c == '\\' {
        seq!['\\', '\\']
    } else if c == '\n' {
        seq!['\\', 'n']
    } else if c == '\r' {
        seq!['\\', 'r']
    } else if c == '\t' {
        seq!['\\', 't']
    } else if (c as u32) < 0x20 {
        seq!['\\', 'u', '0', '0', digit_char((c as u32 / 16) as nat), digit_char((c as u32 % 16) as nat)]
    } else {
        seq![c]
    }
}

/// A text as it is written inside a JSON string.
pub open spec fn escaped(s: Seq<char>) -> Seq<char>
    decreases s.len(),
{
    if s.len() == 0 {
        Seq::empty()
    } else {
        escaped(s.drop_last()) + escaped_char(s.last())
    }
}

fn push_escaped(out: &mut String, c: char)
    ensures
        final(out)@ == old(out)@ + escaped_char(c),
{
    let ghost o = out@;
    if c == '"' || c == '\\' {
        out.push('\\');
        out.push(c);
    } else if c == '\n' {
        out.push('\\');
        out.push('n');
    } else if c == '\r' {
        out.push('\\');
        out.push('r');
    } else if c == '\t' {
        out.push('\\');
        out.push('t');
    } else if (c as u32) < 0x20 {
        let v: u8 = c as u8;
        out.push('\\');
        out.push('u');
        out.push('0');
        out.push('0');
        out.push(to_digit_char(v / 16));
        out.push(to_digit_char(v % 16));
    } else {
        out.push(c);
    }
    proof {
        assert(out@ =~= o + escaped_char(c));
    }
}

/// Escape a string for inclusion in a JSON document (no surrounding quotes).
pub fn escape(s: &str) -> (r: String)
    ensures
        r@ == escaped(s@),
{
    let c = chars_of(s);
    let mut out: String = String::new();
    let mut i: usize = 0;
    proof {
        assert(c@.take(0) =~= Seq::empty());
        assert(out@ =~= Seq::empty());
    }
    while i < c.len()
        invariant
            i <= c@.len(),
            out@ == escaped(c@.take(i as int)),
        decreases c.len() - i,
    {
        push_escaped(&mut out, c[i]);
        proof {
            assert(c@.take(i + 1).drop_last() =~= c@.take(i as int));
        }
        i += 1;
    }
    proof {
        assert(c@.take(c@.len() as int) =~= c@);
    }
    out
}

/// A member as it is written: the key escaped, the value as it stands.
pub open spec fn member_text(key: Seq<char>, raw: Seq<char>) -> Seq<char> {
    seq!['"'] + escaped(key) + seq!['"', ':'] + raw
}

/// Members with commas between them.
pub open spec fn members_text(f: Seq<(Seq<char>, Seq<char>)>) -> Seq<char>
    decreases f.len(),
{
    if f.len() == 0 {
        Seq::empty()
    } else if f.len() == 1 {
        member_text(f[0].0, f[0].1)
    } else {
        members_text(f.drop_last()) + seq![','] + member_text(f.last().0, f.last().1)
    }
}

/// The model of key and value texts.
pub open spec fn pairs(f: Seq<(&str, String)>) -> Seq<(Seq<char>, Seq<char>)> {
    f.map_values(|p: (&str, String)| (p.0@, p.1@))
}

/// Build a JSON object from `(key, raw_json_value)` pairs. Values are inserted
/// verbatim, so quote strings and `escape` them.
pub fn obj(fields: &[(&str, String)]) -> (r: String)
    ensures
        r@ == seq!['{'] + members_text(pairs(fields@)) + seq!['}'],
{
    let mut out: String = String::new();
    out.push('{');
    let ghost p = pairs(fields@);
    let mut i: usize = 0;
    proof {
        assert(out@ =~= seq!['{'] + members_text(p.take(0)));
    }
    while i < fields.len()
        invariant
            i <= fields@.len(),
            p == pairs(fields@),
            out@ == seq!['{'] + members_text(p.take(i as int)),
        decreases fields.len() - i,
    {
        let ghost o = out@;
        if i > 0 {
            out.push(',');
        }
        out.push('"');
        out.push_str(escape(fields[i].0).as_str());
        out.push('"');
        out.push(':');
        out.push_str(fields[i].1.as_str());
        proof {
            let t = p.take(i + 1);
            assert(t.drop_last() =~= p.take(i as int));
            assert(t.last() == (fields@[i as int].0@, fields@[i as int].1@));
            let m = member_text(t.last().0, t.last().1);
            if i == 0 {
                assert(out@ =~= o + m);
                assert(members_text(p.take(0)) =~= Seq::empty());
                assert(t[0] == t.last());
            } else {
                assert(out@ =~= o + seq![','] + m);
                assert(members_text(t) == members_text(p.take(i as int)) + seq![','] + m);
            }
            assert(out@ =~= seq!['{'] + members_text(t));
        }
        i += 1;
    }
    out.push('}');
    proof {
        assert(p.take(p.len() as int) =~= p);
        assert(out@ =~= seq!['{'] + members_text(p) + seq!['}']);
    }
    out
}

// ---------------------------------------------------------------------------
// Laws
// ---------------------------------------------------------------------------

proof fn lemma_escaped_first(s: Seq<char>)
    requires
        s.len() > 0,
    ensures
        escaped(s) == escaped_char(s[0]) + escaped(s.skip(1)),
    decreases s.len(),
{
    if s.len() == 1 {
        assert(s.drop_last() =~= Seq::empty());
        assert(s.skip(1) =~= Seq::empty());
        assert(escaped(s) =~= escaped_char(s[0]) + escaped(s.skip(1)));
    } else {
        lemma_escaped_first(s.drop_last());
        assert(s.drop_last().skip(1) =~= s.skip(1).drop_last());
        assert(escaped(s) =~= escaped_char(s[0]) + escaped(s.skip(1)));
    }
}

proof fn lemma_utf8_at_least(s: Seq<char>)
    ensures
        encode_utf8(s).len() >= s.len(),
    decreases s.len(),
{
    if s.len() > 0 {
        lemma_utf8_at_least(s.drop_first());
    }
}

proof fn lemma_control_code(c: char)
    requires
        (c as u32) < 0x20,
    ensures
        ({
            let e = escaped_char(c);
            c != '\n' && c != '\r' && c != '\t' ==> e.len() == 6 && code_of(e.skip(2)) == Some(
                c as u32 as nat,
            ) && char_of_code(c as u32 as nat) == c
        }),
{
    let v = c as u32 as nat;
    let d1 = digit_char(v / 16);
    let d2 = digit_char(v % 16);
    let h = seq!['0', '0', d1, d2];
    assert(digit_val(d1, 16) == Some(v / 16));
    assert(digit_val(d2, 16) == Some(v % 16));
    assert(digit_val('0', 16) == Some(0nat));
    assert(all_digits(h, 16));
    assert(h.drop_last() =~= seq!['0', '0', d1]);
    assert(h.drop_last().drop_last() =~= seq!['0', '0']);
    assert(h.drop_last().drop_last().drop_last() =~= seq!['0']);
    reveal_with_fuel(digits_value, 5);
    assert(digits_value(h, 16) == v);
    vstd::utf8::char_u32_cast(c, c as u32);
    if c != '\n' && c != '\r' && c != '\t' {
        assert(escaped_char(c).skip(2) =~= h);
    }
}

/// A text that was escaped and closed with a quote is read back as it was,
/// wherever it stands.
pub proof fn law_escape_round_trip(b: Seq<char>, i: int, s: Seq<char>, acc: Seq<char>)
    requires
        word_at(b, i, escaped(s).push('"')),
    ensures
        string_at(b, i, acc) == Ok::<(Seq<char>, int), Seq<char>>(
            (acc + s, (i + escaped(s).len() + 1) as int),
        ),
    decreases s.len(),
{
    let w = escaped(s).push('"');
    assert forall|k: int| 0 <= k < w.len() implies b[i + k] == #[trigger] w[k] by {
        assert(b.subrange(i, i + w.len())[k] == b[i + k]);
    }
    if s.len() == 0 {
        assert(b[i] == w[0]);
        assert(acc + s =~= acc);
    } else {
        let c = s[0];
        let e = escaped_char(c);
        let t = s.skip(1);
        lemma_escaped_first(s);
        assert(w =~= e + escaped(t).push('"'));
        let j = (i + e.len()) as int;
        assert(b.subrange(j, j + escaped(t).len() + 1) =~= escaped(t).push('"')) by {
            assert forall|k: int| 0 <= k < escaped(t).len() + 1 implies b[j + k] == #[trigger] escaped(
                t,
            ).push('"')[k] by {
                assert(w[e.len() + k] == escaped(t).push('"')[k]);
            }
        }
        law_escape_round_trip(b, j, t, acc.push(c));
        assert(acc.push(c) + t =~= acc + s);
        assert(b[i] == w[0] && w[0] == e[0]);
        if (c as u32) < 0x20 && c != '\n' && c != '\r' && c != '\t' {
            lemma_control_code(c);
            assert(b[i + 1] == w[1] && w[1] == 'u');
            assert(b.subrange(i + 2, i + 6) =~= e.skip(2)) by {
                assert(b[i + 2] == w[2] && b[i + 3] == w[3] && b[i + 4] == w[4] && b[i + 5] == w[5]);
            }
            lemma_utf8_at_least(b.skip(i + 2));
        } else if e.len() == 2 {
            assert(b[i + 1] == w[1] && w[1] == e[1]);
        }
    }
}

/// A text as a JSON string.
pub open spec fn quoted(s: Seq<char>) -> Seq<char> {
    seq!['"'] + escaped(s) + seq!['"']
}

/// The members of an object whose values are strings, as texts.
pub open spec fn string_members(f: Seq<(Seq<char>, Seq<char>)>) -> Seq<(Seq<char>, Seq<char>)> {
    f.map_values(|p: (Seq<char>, Seq<char>)| (p.0, quoted(p.1)))
}

/// The same members, as values.
pub open spec fn string_values(f: Seq<(Seq<char>, Seq<char>)>) -> Seq<(Seq<char>, ValueModel)> {
    f.map_values(|p: (Seq<char>, Seq<char>)| (p.0, ValueModel::Str(p.1)))
}

proof fn lemma_quoted_at(b: Seq<char>, i: int, s: Seq<char>)
    requires
        word_at(b, i, quoted(s)),
    ensures
        b[i] == '"',
        string_at(b, i + 1, Seq::empty()) == Ok::<(Seq<char>, int), Seq<char>>(
            (s, (i + quoted(s).len()) as int),
        ),
{
    let q = quoted(s);
    assert(b.subrange(i, i + q.len())[0] == b[i]);
    assert(b.subrange(i + 1, i + q.len()) =~= q.skip(1)) by {
        assert forall|k: int| 0 <= k < q.len() - 1 implies b[i + 1 + k] == #[trigger] q.skip(1)[k] by {
            assert(b.subrange(i, i + q.len())[k + 1] == q[k + 1]);
        }
    }
    assert(q.skip(1) =~= escaped(s).push('"'));
    law_escape_round_trip(b, i + 1, s, Seq::empty());
    assert(Seq::<char>::empty() + s =~= s);
}

/// One member, read where it was written.
proof fn lemma_member_step(
    b: Seq<char>,
    i: int,
    key: Seq<char>,
    val: Seq<char>,
    acc: Seq<(Seq<char>, ValueModel)>,
    depth: nat,
)
    requires
        word_at(b, i, member_text(key, quoted(val))),
        i + member_text(key, quoted(val)).len() < b.len(),
        ({
            let d = b[(i + member_text(key, quoted(val)).len()) as int];
            d == ',' || d == '}'
        }),
    ensures
        ({
            let d = (i + member_text(key, quoted(val)).len()) as int;
            let acc1 = acc.push((key, ValueModel::Str(val)));
            members_at(b, i, acc, depth) == (if b[d] == ',' {
                members_at(b, d + 1, acc1, depth)
            } else {
                Ok((ValueModel::Object(acc1), d + 1))
            })
        }),
{
    let t = member_text(key, quoted(val));
    let c = (i + quoted(key).len()) as int;
    assert(t =~= quoted(key) + seq![':'] + quoted(val));
    assert forall|k: int| 0 <= k < t.len() implies b[i + k] == #[trigger] t[k] by {
        assert(b.subrange(i, i + t.len())[k] == b[i + k]);
    }
    assert(b.subrange(i, c) =~= quoted(key)) by {
        assert forall|k: int| 0 <= k < quoted(key).len() implies b[i + k] == #[trigger] quoted(key)[k] by {
            assert(t[k] == quoted(key)[k]);
        }
    }
    lemma_quoted_at(b, i, key);
    assert(b[c] == t[c - i] && t[c - i] == ':');
    assert(b.subrange(c + 1, c + 1 + quoted(val).len()) =~= quoted(val)) by {
        assert forall|k: int| 0 <= k < quoted(val).len() implies b[c + 1 + k] == #[trigger] quoted(val)[k] by {
            assert(t[c + 1 - i + k] == quoted(val)[k]);
        }
    }
    lemma_quoted_at(b, c + 1, val);
    let d = (i + t.len()) as int;
    assert(d == c + 1 + quoted(val).len());
    assert(after_ws(b, i) == i);
    assert(after_ws(b, c) == c);
    assert(after_ws(b, c + 1) == c + 1);
    assert(after_ws(b, d) == d);
    assert(value_at(b, c + 1, depth) == Ok::<(ValueModel, int), Seq<char>>((ValueModel::Str(val), d)));
}

/// The members written from `k` on, read from where they stand.
proof fn lemma_members_from(f: Seq<(Seq<char>, Seq<char>)>, k: int)
    requires
        0 <= k < f.len(),
    ensures
        ({
            let b = seq!['{'] + members_text(string_members(f)) + seq!['}'];
            let at = if k == 0 {
                1
            } else {
                members_text(string_members(f.take(k))).len() as int + 2
            };
            members_at(b, at, string_values(f.take(k)), 1) == Ok::<(ValueModel, int), Seq<char>>(
                (ValueModel::Object(string_values(f)), b.len() as int),
            )
        }),
    decreases f.len() - k,
{
    let b = seq!['{'] + members_text(string_members(f)) + seq!['}'];
    let m0 = members_text(string_members(f.take(k)));
    let m1 = members_text(string_members(f.take(k + 1)));
    let at = if k == 0 {
        1
    } else {
        m0.len() as int + 2
    };
    let t = member_text(f[k].0, quoted(f[k].1));
    lemma_members_text_prefix(f, k + 1);
    assert(string_members(f.take(k + 1)).drop_last() =~= string_members(f.take(k)));
    assert(string_members(f.take(k + 1)).last() == (f[k].0, quoted(f[k].1)));
    if k == 0 {
        assert(string_members(f.take(1))[0] == (f[0].0, quoted(f[0].1)));
        assert(m1 == t);
    } else {
        assert(m1 == m0 + seq![','] + t);
    }
    assert(at + t.len() == m1.len() + 1);
    assert(m1 =~= members_text(string_members(f)).take(m1.len() as int));
    assert(b.subrange(at, at + t.len()) =~= t) by {
        assert forall|j: int| 0 <= j < t.len() implies b[at + j] == #[trigger] t[j] by {
            assert(b[at + j] == members_text(string_members(f))[at - 1 + j]);
            assert(m1[at - 1 + j] == members_text(string_members(f))[at - 1 + j]);
            assert(m1[at - 1 + j] == t[j]);
        }
    }
    let d = (at + t.len()) as int;
    let acc = string_values(f.take(k));
    let acc1 = acc.push((f[k].0, ValueModel::Str(f[k].1)));
    assert(string_values(f.take(k + 1)) =~= acc1);
    if k + 1 == f.len() {
        assert(f.take(k + 1) =~= f);
        assert(b[d] == '}');
        lemma_member_step(b, at, f[k].0, f[k].1, acc, 1);
    } else {
        lemma_members_text_prefix(f, k + 2);
        let m2 = members_text(string_members(f.take(k + 2)));
        assert(string_members(f.take(k + 2)).drop_last() =~= string_members(f.take(k + 1)));
        assert(m2[m1.len() as int] == ',');
        assert(m2 =~= members_text(string_members(f)).take(m2.len() as int));
        assert(b[d] == members_text(string_members(f))[m1.len() as int]);
        assert(b[d] == ',');
        lemma_member_step(b, at, f[k].0, f[k].1, acc, 1);
        lemma_members_from(f, k + 1);
    }
}

proof fn lemma_members_text_prefix(f: Seq<(Seq<char>, Seq<char>)>, k: int)
    requires
        0 <= k <= f.len(),
    ensures
        ({
            let m = members_text(string_members(f.take(k)));
            let all = members_text(string_members(f));
            m.len() <= all.len() && m == all.take(m.len() as int)
        }),
    decreases f.len() - k,
{
    let m = members_text(string_members(f.take(k)));
    let all = members_text(string_members(f));
    if k == f.len() {
        assert(f.take(k) =~= f);
        assert(m =~= all.take(m.len() as int));
    } else {
        lemma_members_text_prefix(f, k + 1);
        let m1 = members_text(string_members(f.take(k + 1)));
        assert(string_members(f.take(k + 1)).drop_last() =~= string_members(f.take(k)));
        if k == 0 {
            assert(string_members(f.take(0)) =~= Seq::empty());
        }
        assert(m =~= m1.take(m.len() as int));
        assert(m =~= all.take(m.len() as int));
    }
}

/// An object built of strings is read back as it was built; as a document, if it
/// is not too long for one.
pub proof fn law_object_round_trip(f: Seq<(Seq<char>, Seq<char>)>)
    ensures
        ({
            let b = seq!['{'] + members_text(string_members(f)) + seq!['}'];
            let v = ValueModel::Object(string_values(f));
            &&& value_at(b, 0, 0) == Ok::<(ValueModel, int), Seq<char>>((v, b.len() as int))
            &&& encode_utf8(b).len() <= MAX_INPUT ==> document(b) == Ok::<ValueModel, Seq<char>>(v)
        }),
{
    let b = seq!['{'] + members_text(string_members(f)) + seq!['}'];
    assert(b[0] == '{');
    assert(after_ws(b, 0) == 0);
    assert(after_ws(b, b.len() as int) == b.len());
    if f.len() == 0 {
        assert(string_members(f) =~= Seq::empty());
        assert(b[1] == '}');
        assert(after_ws(b, 1) == 1);
        assert(string_values(f) =~= Seq::empty());
    } else {
        lemma_members_from(f, 0);
        lemma_members_text_prefix(f, 1);
        assert(string_members(f.take(1))[0] == (f[0].0, quoted(f[0].1)));
        let m1 = members_text(string_members(f.take(1)));
        assert(m1 == member_text(f[0].0, quoted(f[0].1)));
        assert(m1[0] == '"');
        assert(m1[0] == members_text(string_members(f)).take(m1.len() as int)[0]);
        assert(b[1] == '"');
        assert(after_ws(b, 1) == 1);
        assert(string_values(f.take(0)) =~= Seq::empty());
    }
}

/// Whether a value is nested no deeper than this.
pub open spec fn nested_within(v: ValueModel, depth: nat) -> bool
    decreases depth,
{
    match v {
        ValueModel::Array(items) => depth > 0 && forall|i: int|
            0 <= i < items.len() ==> nested_within(#[trigger] items[i], (depth - 1) as nat),
        ValueModel::Object(fields) => depth > 0 && forall|i: int|
            0 <= i < fields.len() ==> nested_within((#[trigger] fields[i]).1, (depth - 1) as nat),
        _ => true,
    }
}

proof fn lemma_value_nesting(b: Seq<char>, i: int, depth: nat)
    requires
        depth <= MAX_DEPTH,
    ensures
        value_at(b, i, depth) matches Ok((v, _)) ==> nested_within(v, (MAX_DEPTH - depth) as nat),
    decreases b.len() - i, 0int,
{
    let k = after_ws(b, i);
    if i <= k && 0 <= k < b.len() && depth < MAX_DEPTH {
        if b[k] == '{' {
            lemma_members_nesting(b, k + 1, Seq::empty(), depth + 1);
        } else if b[k] == '[' {
            lemma_items_nesting(b, k + 1, Seq::empty(), depth + 1);
        }
    }
}

proof fn lemma_members_nesting(
    b: Seq<char>,
    i: int,
    acc: Seq<(Seq<char>, ValueModel)>,
    depth: nat,
)
    requires
        0 < depth <= MAX_DEPTH,
        forall|k: int|
            0 <= k < acc.len() ==> nested_within((#[trigger] acc[k]).1, (MAX_DEPTH - depth) as nat),
    ensures
        members_at(b, i, acc, depth) matches Ok((v, _)) ==> nested_within(
            v,
            (MAX_DEPTH - depth + 1) as nat,
        ),
    decreases b.len() - i, 1int,
{
    let k = after_ws(b, i);
    if char_at(b, k, '"') {
        if let Ok((key, e)) = string_at(b, k + 1, Seq::empty()) {
            let c = after_ws(b, e);
            if char_at(b, c, ':') && c >= i {
                lemma_value_nesting(b, c + 1, depth);
                if let Ok((v, n)) = value_at(b, c + 1, depth) {
                    let d = after_ws(b, n);
                    if char_at(b, d, ',') && d >= i {
                        lemma_members_nesting(b, d + 1, acc.push((key, v)), depth);
                    }
                }
            }
        }
    }
}

proof fn lemma_items_nesting(b: Seq<char>, i: int, acc: Seq<ValueModel>, depth: nat)
    requires
        0 < depth <= MAX_DEPTH,
        forall|k: int|
            0 <= k < acc.len() ==> nested_within(#[trigger] acc[k], (MAX_DEPTH - depth) as nat),
    ensures
        items_at(b, i, acc, depth) matches Ok((v, _)) ==> nested_within(
            v,
            (MAX_DEPTH - depth + 1) as nat,
        ),
    decreases b.len() - i, 1int,
{
    lemma_value_nesting(b, i, depth);
    if let Ok((v, n)) = value_at(b, i, depth) {
        let d = after_ws(b, n);
        if char_at(b, d, ',') && d >= i {
            lemma_items_nesting(b, d + 1, acc.push(v), depth);
        }
    }
}

/// A document that is accepted is short enough, and nested no deeper than is
/// allowed.
pub proof fn law_documents_are_bounded(b: Seq<char>)
    ensures
        document(b) matches Ok(v) ==> encode_utf8(b).len() <= MAX_INPUT && nested_within(
            v,
            MAX_DEPTH as nat,
        ),
{
    lemma_value_nesting(b, after_ws(b, 0), 0);
}

/// Too many opening brackets are refused, whatever comes behind them.
pub proof fn law_deep_nesting_is_refused(b: Seq<char>)
    requires
        b.len() > MAX_DEPTH,
        forall|k: int| 0 <= k <= MAX_DEPTH ==> #[trigger] b[k] == '[',
    ensures
        document(b) is Err,
{
    assert(after_ws(b, 0) == 0);
    lemma_brackets(b, 0);
}

proof fn lemma_brackets(b: Seq<char>, i: nat)
    requires
        b.len() > MAX_DEPTH,
        i <= MAX_DEPTH,
        forall|k: int| 0 <= k <= MAX_DEPTH ==> #[trigger] b[k] == '[',
    ensures
        value_at(b, i as int, i) is Err,
    decreases MAX_DEPTH - i,
{
    assert(b[i as int] == '[');
    assert(after_ws(b, i as int) == i);
    if i < MAX_DEPTH {
        lemma_brackets(b, i + 1);
        assert(b[i as int + 1] == '[');
        assert(after_ws(b, i as int + 1) == i + 1);
    }
}

} // verus!
