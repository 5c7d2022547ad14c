//! Laws of JSON reading: every value that is written down is read as that value.
use crate::acme::json::{
    after_number, after_ws, char_at, document, escape_of, is_number_char, is_ws, items_at,
    law_escape_round_trip, member, members_at, nested_within, quoted, string_at, value_at, word_at,
    ValueModel, MAX_DEPTH, MAX_INPUT,
};
use crate::text::is_number;
use vstd::prelude::*;
use vstd::utf8::encode_utf8;

verus! {

broadcast use vstd::seq::group_seq_axioms;

/// Whether a text is white space alone.
pub open spec fn white(w: Seq<char>) -> bool {
    forall|i: int| 0 <= i < w.len() ==> is_ws(#[trigger] w[i])
}

/// Whether the numbers in a value are numbers as JSON writes them.
pub open spec fn sound(v: ValueModel, depth: nat) -> bool
    decreases depth,
{
    match v {
        ValueModel::Num(s) => {
            &&& is_number(s)
            &&& s.len() > 0
            &&& s[0] == '-' || ('0' <= s[0] && s[0] <= '9')
            &&& forall|i: int| 0 <= i < s.len() ==> is_number_char(#[trigger] s[i])
        },
        ValueModel::Array(items) => depth > 0 && forall|i: int|
            0 <= i < items.len() ==> sound(#[trigger] items[i], (depth - 1) as nat),
        ValueModel::Object(fields) => depth > 0 && forall|i: int|
            0 <= i < fields.len() ==> sound((#[trigger] fields[i]).1, (depth - 1) as nat),
        _ => true,
    }
}

/// A value as JSON, with the same white space between any two tokens.
pub open spec fn shown(v: ValueModel, depth: nat, w: Seq<char>) -> Seq<char>
    decreases depth, 0nat,
{
    w + (match v {
        ValueModel::Null => "null"@,
        ValueModel::Bool(b) => if b {
            "true"@
        } else {
            "false"@
        },
        ValueModel::Num(s) => s,
        ValueModel::Str(s) => quoted(s),
        ValueModel::Array(items) => if depth == 0 {
            Seq::empty()
        } else {
            seq!['['] + shown_items(items, (depth - 1) as nat, w) + seq![']']
        },
        ValueModel::Object(fields) => if depth == 0 {
            Seq::empty()
        } else {
            seq!['{'] + shown_members(fields, (depth - 1) as nat, w) + seq!['}']
        },
    }) + w
}

/// The items of an array as JSON.
pub open spec fn shown_items(items: Seq<ValueModel>, depth: nat, w: Seq<char>) -> Seq<char>
    decreases depth, items.len() + 1,
{
    if items.len() == 0 {
        w
    } else if items.len() == 1 {
        shown(items[0], depth, w)
    } else {
        shown(items[0], depth, w) + (seq![','] + shown_items(items.skip(1), depth, w))
    }
}

/// The members of an object as JSON.
pub open spec fn shown_members(
    fields: Seq<(Seq<char>, ValueModel)>,
    depth: nat,
    w: Seq<char>,
) -> Seq<char>
    decreases depth, fields.len() + 1,
{
    if fields.len() == 0 {
        w
    } else {
        let first = w + (quoted(fields[0].0) + (w + (seq![':'] + shown(fields[0].1, depth, w))));
        if fields.len() == 1 {
            first
        } else {
            first + (seq![','] + shown_members(fields.skip(1), depth, w))
        }
    }
}

/// A text that stands somewhere stands there in parts.
proof fn lemma_word_parts(b: Seq<char>, i: int, x: Seq<char>, y: Seq<char>)
    requires
        word_at(b, i, x + y),
    ensures
        word_at(b, i, x),
        word_at(b, i + x.len(), y),
        y.len() > 0 ==> b[i + x.len()] == y[0],
        x.len() > 0 ==> b[i] == x[0],
{
    let n = x.len() as int;
    let all = x + y;
    let at = b.subrange(i, i + all.len());
    assert(b.subrange(i, i + n) =~= at.take(n));
    assert(at.take(n) =~= x);
    assert(b.subrange(i + n, i + n + y.len()) =~= at.skip(n));
    assert(at.skip(n) =~= y);
    if y.len() > 0 {
        assert(at[n] == y[0]);
    }
    if x.len() > 0 {
        assert(at[0] == x[0]);
    }
}

/// White space is skipped.
proof fn lemma_ws_skipped(b: Seq<char>, i: int, w: Seq<char>)
    requires
        word_at(b, i, w),
        white(w),
    ensures
        after_ws(b, i) == after_ws(b, i + w.len()),
    decreases w.len(),
{
    if w.len() > 0 {
        assert(b.subrange(i, i + w.len())[0] == w[0]);
        assert(b[i] == w[0]);
        let t = w.skip(1);
        assert(b.subrange(i + 1, i + w.len()) =~= t) by {
            assert(b.subrange(i, i + w.len()).skip(1) =~= b.subrange(i + 1, i + w.len()));
        }
        assert forall|k: int| 0 <= k < t.len() implies is_ws(#[trigger] t[k]) by {
            assert(t[k] == w[k + 1]);
        }
        lemma_ws_skipped(b, i + 1, t);
    }
}

proof fn lemma_number_end(b: Seq<char>, i: int, s: Seq<char>)
    requires
        word_at(b, i, s),
        forall|k: int| 0 <= k < s.len() ==> is_number_char(#[trigger] s[k]),
        i + s.len() == b.len() || !is_number_char(b[(i + s.len()) as int]),
    ensures
        after_number(b, i) == i + s.len(),
    decreases s.len(),
{
    if s.len() > 0 {
        assert(b.subrange(i, i + s.len())[0] == s[0]);
        let t = s.skip(1);
        assert(b.subrange(i + 1, i + s.len()) =~= t) by {
            assert(b.subrange(i, i + s.len()).skip(1) =~= b.subrange(i + 1, i + s.len()));
        }
        assert forall|k: int| 0 <= k < t.len() implies is_number_char(#[trigger] t[k]) by {
            assert(t[k] == s[k + 1]);
        }
        lemma_number_end(b, i + 1, t);
    }
}

/// A string is read where it stands.
proof fn lemma_string_read(b: Seq<char>, i: int, s: Seq<char>)
    requires
        word_at(b, i, quoted(s)),
    ensures
        b[i] == '"',
        string_at(b, i + 1, Seq::empty()) == Ok::<(Seq<char>, int), Seq<char>>(
            (s, (i + quoted(s).len()) as int),
        ),
{
    let q = quoted(s);
    let rest = crate::acme::json::escaped(s).push('"');
    assert(q =~= seq!['"'] + rest);
    lemma_word_parts(b, i, seq!['"'], rest);
    law_escape_round_trip(b, i + 1, s, Seq::empty());
    assert(Seq::<char>::empty() + s =~= s);
}

/// Whether what stands at `i` cannot go on a number.
pub open spec fn ends_token(b: Seq<char>, i: int) -> bool {
    i == b.len() || (0 <= i < b.len() && !is_number_char(b[i]))
}

/// Whether a value was read at `i`, and the rest of its text behind it is white.
spec fn reads(r: core::result::Result<(ValueModel, int), Seq<char>>, b: Seq<char>, v: ValueModel, end: int) -> bool {
    r matches Ok((x, e)) && x == v && 0 <= e <= end && after_ws(b, e) == after_ws(b, end)
}

proof fn lemma_value_read(b: Seq<char>, i: int, v: ValueModel, n: nat, w: Seq<char>, depth: nat)
    requires
        word_at(b, i, shown(v, n, w)),
        white(w),
        nested_within(v, n),
        sound(v, n),
        depth + n <= MAX_DEPTH,
        ends_token(b, i + shown(v, n, w).len()),
    ensures
        reads(value_at(b, i, depth), b, v, i + shown(v, n, w).len()),
    decreases n, 0nat,
{
    let t = shown(v, n, w);
    let end = i + t.len();
    let core = t.subrange(w.len() as int, t.len() - w.len());
    assert(t =~= w + (core + w));
    lemma_word_parts(b, i, w, core + w);
    let k = i + w.len();
    lemma_word_parts(b, k, core, w);
    let e = k + core.len();
    lemma_ws_skipped(b, i, w);
    lemma_ws_skipped(b, e, w);
    assert(e + w.len() == end);
    assert(ends_token(b, e)) by {
        if w.len() > 0 {
            assert(b.subrange(e, e + w.len())[0] == w[0]);
            assert(is_ws(w[0]));
        }
    }
    match v {
        ValueModel::Null => {
            reveal_strlit("null");
            assert(core =~= "null"@);
            assert(b.subrange(k, e)[0] == 'n');
            assert(after_ws(b, k) == k);
        },
        ValueModel::Bool(x) => {
            reveal_strlit("true");
            reveal_strlit("false");
            if x {
                assert(core =~= "true"@);
                assert(b.subrange(k, e)[0] == 't');
            } else {
                assert(core =~= "false"@);
                assert(b.subrange(k, e)[0] == 'f');
            }
            assert(after_ws(b, k) == k);
        },
        ValueModel::Num(s) => {
            assert(core =~= s);
            assert(b.subrange(k, e)[0] == s[0]);
            assert(after_ws(b, k) == k);
            lemma_number_end(b, k, s);
        },
        ValueModel::Str(s) => {
            assert(core =~= quoted(s));
            lemma_string_read(b, k, s);
            assert(after_ws(b, k) == k);
        },
        ValueModel::Array(items) => {
            let m = (n - 1) as nat;
            let inner = shown_items(items, m, w);
            assert(core =~= seq!['['] + (inner + seq![']']));
            lemma_word_parts(b, k, seq!['['], inner + seq![']']);
            lemma_word_parts(b, k + 1, inner, seq![']']);
            assert(after_ws(b, k) == k);
            if items.len() == 0 {
                lemma_ws_skipped(b, k + 1, w);
                assert(after_ws(b, k + 1 + w.len()) == k + 1 + w.len());
                assert(items =~= Seq::empty());
            } else {
                lemma_items_read(b, k + 1, items, m, w, Seq::empty(), depth + 1);
                assert(Seq::<ValueModel>::empty() + items =~= items);
                lemma_item_start(b, k + 1, items, m, w);
            }
        },
        ValueModel::Object(fields) => {
            let m = (n - 1) as nat;
            let inner = shown_members(fields, m, w);
            assert(core =~= seq!['{'] + (inner + seq!['}']));
            lemma_word_parts(b, k, seq!['{'], inner + seq!['}']);
            lemma_word_parts(b, k + 1, inner, seq!['}']);
            assert(after_ws(b, k) == k);
            if fields.len() == 0 {
                lemma_ws_skipped(b, k + 1, w);
                assert(after_ws(b, k + 1 + w.len()) == k + 1 + w.len());
                assert(fields =~= Seq::empty());
            } else {
                lemma_members_read(b, k + 1, fields, m, w, Seq::empty(), depth + 1);
                assert(Seq::<(Seq<char>, ValueModel)>::empty() + fields =~= fields);
                lemma_member_start(b, k + 1, fields, m, w);
            }
        },
    }
}

/// The first item of an array is no closing bracket.
proof fn lemma_item_start(b: Seq<char>, i: int, items: Seq<ValueModel>, n: nat, w: Seq<char>)
    requires
        items.len() > 0,
        word_at(b, i, shown_items(items, n, w)),
        white(w),
        nested_within(items[0], n),
        sound(items[0], n),
    ensures
        !char_at(b, after_ws(b, i), ']'),
{
    let v = items[0];
    let t = shown(v, n, w);
    let tail = if items.len() == 1 {
        Seq::empty()
    } else {
        seq![','] + shown_items(items.skip(1), n, w)
    };
    assert(shown_items(items, n, w) =~= t + tail);
    lemma_word_parts(b, i, t, tail);
    let core = t.subrange(w.len() as int, t.len() - w.len());
    assert(t =~= w + (core + w));
    lemma_word_parts(b, i, w, core + w);
    lemma_word_parts(b, i + w.len(), core, w);
    lemma_ws_skipped(b, i, w);
    reveal_strlit("null");
    reveal_strlit("true");
    reveal_strlit("false");
    assert(core.len() > 0 && core[0] != ']' && !is_ws(core[0])) by {
        match v {
            ValueModel::Null => {
                assert(core =~= "null"@);
            },
            ValueModel::Bool(x) => {
                assert(core =~= if x {
                    "true"@
                } else {
                    "false"@
                });
            },
            ValueModel::Num(s) => {
                assert(core =~= s);
            },
            ValueModel::Str(s) => {
                assert(core =~= quoted(s));
            },
            ValueModel::Array(a) => {
                assert(core[0] == '[');
            },
            ValueModel::Object(f) => {
                assert(core[0] == '{');
            },
        }
    }
    assert(b[i + w.len()] == core[0]);
}

/// The first member of an object is no closing brace.
proof fn lemma_member_start(
    b: Seq<char>,
    i: int,
    fields: Seq<(Seq<char>, ValueModel)>,
    n: nat,
    w: Seq<char>,
)
    requires
        fields.len() > 0,
        word_at(b, i, shown_members(fields, n, w)),
        white(w),
    ensures
        !char_at(b, after_ws(b, i), '}'),
{
    let q = quoted(fields[0].0);
    let t = shown_members(fields, n, w);
    let rest = t.skip(w.len() as int);
    assert(t =~= w + rest);
    lemma_word_parts(b, i, w, rest);
    lemma_ws_skipped(b, i, w);
    assert(rest[0] == q[0]);
    assert(q[0] == '"');
}

proof fn lemma_items_read(
    b: Seq<char>,
    i: int,
    items: Seq<ValueModel>,
    n: nat,
    w: Seq<char>,
    acc: Seq<ValueModel>,
    depth: nat,
)
    requires
        items.len() > 0,
        word_at(b, i, shown_items(items, n, w)),
        char_at(b, i + shown_items(items, n, w).len(), ']'),
        white(w),
        forall|k: int| 0 <= k < items.len() ==> nested_within(#[trigger] items[k], n),
        forall|k: int| 0 <= k < items.len() ==> sound(#[trigger] items[k], n),
        depth + n <= MAX_DEPTH,
    ensures
        items_at(b, i, acc, depth) == Ok::<(ValueModel, int), Seq<char>>(
            (ValueModel::Array(acc + items), i + shown_items(items, n, w).len() + 1),
        ),
    decreases n, items.len() + 1,
{
    let v = items[0];
    let t = shown(v, n, w);
    let end = i + t.len();
    assert(nested_within(items[0], n) && sound(items[0], n));
    if items.len() == 1 {
        assert(b[end] == ']');
        lemma_value_read(b, i, v, n, w, depth);
        assert(after_ws(b, end) == end);
        assert(acc.push(v) =~= acc + items);
    } else {
        let rest = items.skip(1);
        let tail = seq![','] + shown_items(rest, n, w);
        lemma_word_parts(b, i, t, tail);
        lemma_word_parts(b, end, seq![','], shown_items(rest, n, w));
        assert(b[end] == ',');
        lemma_value_read(b, i, v, n, w, depth);
        assert(after_ws(b, end) == end);
        assert forall|k: int| 0 <= k < rest.len() implies nested_within(#[trigger] rest[k], n)
            && sound(rest[k], n) by {
            assert(rest[k] == items[k + 1]);
        }
        lemma_items_read(b, end + 1, rest, n, w, acc.push(v), depth);
        assert(acc.push(v) + rest =~= acc + items);
    }
}

proof fn lemma_members_read(
    b: Seq<char>,
    i: int,
    fields: Seq<(Seq<char>, ValueModel)>,
    n: nat,
    w: Seq<char>,
    acc: Seq<(Seq<char>, ValueModel)>,
    depth: nat,
)
    requires
        fields.len() > 0,
        word_at(b, i, shown_members(fields, n, w)),
        char_at(b, i + shown_members(fields, n, w).len(), '}'),
        white(w),
        forall|k: int| 0 <= k < fields.len() ==> nested_within((#[trigger] fields[k]).1, n),
        forall|k: int| 0 <= k < fields.len() ==> sound((#[trigger] fields[k]).1, n),
        depth + n <= MAX_DEPTH,
    ensures
        members_at(b, i, acc, depth) == Ok::<(ValueModel, int), Seq<char>>(
            (ValueModel::Object(acc + fields), i + shown_members(fields, n, w).len() + 1),
        ),
    decreases n, fields.len() + 1,
{
    let key = fields[0].0;
    let v = fields[0].1;
    let q = quoted(key);
    let t = shown(v, n, w);
    let first = w + (q + (w + (seq![':'] + t)));
    assert(nested_within(fields[0].1, n) && sound(fields[0].1, n));
    let rest = fields.skip(1);
    let tail = if fields.len() == 1 {
        Seq::empty()
    } else {
        seq![','] + shown_members(rest, n, w)
    };
    assert(shown_members(fields, n, w) =~= first + tail);
    lemma_word_parts(b, i, first, tail);
    let end = i + first.len();
    let k = i + w.len();
    lemma_word_parts(b, i, w, q + (w + (seq![':'] + t)));
    lemma_word_parts(b, k, q, w + (seq![':'] + t));
    let c = k + q.len();
    lemma_word_parts(b, c, w, seq![':'] + t);
    let colon = c + w.len();
    lemma_word_parts(b, colon, seq![':'], t);
    lemma_ws_skipped(b, i, w);
    lemma_string_read(b, k, key);
    lemma_ws_skipped(b, c, w);
    assert(after_ws(b, k) == k);
    assert(after_ws(b, colon) == colon);
    assert(colon + 1 + t.len() == end);
    if fields.len() == 1 {
        assert(b[end] == '}');
    } else {
        lemma_word_parts(b, end, seq![','], shown_members(rest, n, w));
        assert(b[end] == ',');
    }
    lemma_value_read(b, colon + 1, v, n, w, depth);
    assert(after_ws(b, end) == end);
    if fields.len() == 1 {
        assert(acc.push((key, v)) =~= acc + fields);
    } else {
        assert forall|j: int| 0 <= j < rest.len() implies nested_within((#[trigger] rest[j]).1, n)
            && sound(rest[j].1, n) by {
            assert(rest[j] == fields[j + 1]);
        }
        lemma_members_read(b, end + 1, rest, n, w, acc.push((key, v)), depth);
        assert(acc.push((key, v)) + rest =~= acc + fields);
    }
}

/// A value that is written down as JSON, with whatever white space between its
/// tokens, is read as that value: null, booleans, numbers as they are written,
/// strings, arrays and objects in order, nested as deep as is allowed.
pub proof fn law_written_values_are_read(v: ValueModel, n: nat, w: Seq<char>)
    requires
        n <= MAX_DEPTH,
        nested_within(v, n),
        sound(v, n),
        white(w),
        encode_utf8(shown(v, n, w)).len() <= MAX_INPUT,
    ensures
        document(shown(v, n, w)) == Ok::<ValueModel, Seq<char>>(v),
{
    let b = shown(v, n, w);
    assert(b.subrange(0, b.len() as int) =~= b);
    lemma_value_read(b, 0, v, n, w, 0);
    let core = b.subrange(w.len() as int, b.len() - w.len());
    assert(b =~= w + (core + w));
    lemma_word_parts(b, 0, w, core + w);
    lemma_ws_skipped(b, 0, w);
    lemma_after_ws_twice(b, 0);
    assert(value_at(b, after_ws(b, 0), 0) == value_at(b, 0, 0)) by {
        lemma_value_from_ws(b, 0, 0);
    }
    assert(after_ws(b, b.len() as int) == b.len());
}

proof fn lemma_after_ws_twice(b: Seq<char>, i: int)
    ensures
        after_ws(b, after_ws(b, i)) == after_ws(b, i),
        i <= after_ws(b, i),
    decreases b.len() - i,
{
    if 0 <= i < b.len() && is_ws(b[i]) {
        lemma_after_ws_twice(b, i + 1);
    }
}

proof fn lemma_value_from_ws(b: Seq<char>, i: int, depth: nat)
    requires
        0 <= i,
    ensures
        value_at(b, after_ws(b, i), depth) == value_at(b, i, depth),
{
    lemma_after_ws_twice(b, i);
}

/// Nothing but white space may stand behind a value.
pub proof fn law_nothing_follows_the_value(v: ValueModel, n: nat, c: char)
    requires
        n <= MAX_DEPTH,
        nested_within(v, n),
        sound(v, n),
        c == ',' || c == '}' || c == ']' || c == '"',
    ensures
        document(shown(v, n, Seq::empty()).push(c)) is Err,
{
    let w = Seq::<char>::empty();
    let t = shown(v, n, w);
    let b = t.push(c);
    assert(b.subrange(0, t.len() as int) =~= t);
    assert(b[t.len() as int] == c);
    lemma_value_read(b, 0, v, n, w, 0);
    lemma_value_from_ws(b, 0, 0);
    assert(after_ws(b, t.len() as int) == t.len());
}

/// The value at a key is that of the first member with just that key.
pub proof fn law_members_by_key(f: Seq<(Seq<char>, ValueModel)>, key: Seq<char>)
    ensures
        match member(f, key) {
            Some(v) => exists|i: int|
                0 <= i < f.len() && (#[trigger] f[i]) == (key, v) && forall|j: int|
                    0 <= j < i ==> (#[trigger] f[j]).0 != key,
            None => forall|i: int| 0 <= i < f.len() ==> (#[trigger] f[i]).0 != key,
        },
    decreases f.len(),
{
    if f.len() > 0 {
        if f[0].0 == key {
            assert(f[0] == (key, f[0].1));
        } else {
            let rest = f.skip(1);
            law_members_by_key(rest, key);
            match member(rest, key) {
                Some(v) => {
                    let i = choose|i: int|
                        0 <= i < rest.len() && (#[trigger] rest[i]) == (key, v) && forall|j: int|
                            0 <= j < i ==> (#[trigger] rest[j]).0 != key;
                    assert(f[i + 1] == rest[i]);
                    assert forall|j: int| 0 <= j < i + 1 implies (#[trigger] f[j]).0 != key by {
                        if j > 0 {
                            assert(f[j] == rest[j - 1]);
                        }
                    }
                },
                None => {
                    assert forall|i: int| 0 <= i < f.len() implies (#[trigger] f[i]).0 != key by {
                        if i > 0 {
                            assert(f[i] == rest[i - 1]);
                        }
                    }
                },
            }
        }
    }
}

/// The short escapes of strings stand for the characters that JSON says.
pub proof fn law_short_escapes(k: int)
    requires
        0 <= k < 8,
    ensures
        escape_of("\"\\/bfnrt"@[k]) == Some("\"\\/\u{8}\u{c}\n\r\t"@[k]),
{
    reveal_strlit("\"\\/bfnrt");
    reveal_strlit("\"\\/\u{8}\u{c}\n\r\t");
}

} // verus!
