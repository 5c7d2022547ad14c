//! A case-insensitive, order-preserving header collection.
use crate::text::{
    chars_eq_nocase, chars_of, chars_split, chars_trim, concat, eq_nocase, law_split_undoes_joining,
    split, trim, views, IntoText,
};
use vstd::prelude::*;

verus! {

broadcast use vstd::seq::group_seq_axioms;

/// The model of a header collection: its `(name, value)` fields in order.
pub type Fields = Seq<(Seq<char>, Seq<char>)>;

/// The first value for `name` (compared up to ASCII case), if any.
pub open spec fn lookup(f: Fields, name: Seq<char>) -> Option<Seq<char>>
    decreases f.len(),
{
    if f.len() == 0 {
        None
    } else if eq_nocase(f[0].0, name) {
        Some(f[0].1)
    } else {
        lookup(f.skip(1), name)
    }
}

/// Every value for `name`, in order.
pub open spec fn values(f: Fields, name: Seq<char>) -> Seq<Seq<char>>
    decreases f.len(),
{
    if f.len() == 0 {
        Seq::empty()
    } else if eq_nocase(f.last().0, name) {
        values(f.drop_last(), name).push(f.last().1)
    } else {
        values(f.drop_last(), name)
    }
}

/// The fields whose name is not `name`, in order.
pub open spec fn without(f: Fields, name: Seq<char>) -> Fields
    decreases f.len(),
{
    if f.len() == 0 {
        Seq::empty()
    } else if eq_nocase(f.last().0, name) {
        without(f.drop_last(), name)
    } else {
        without(f.drop_last(), name).push(f.last())
    }
}

/// The fields after setting `name` to `value`: any old field of that name is
/// gone, the new one comes last.
pub open spec fn with_field(f: Fields, name: Seq<char>, value: Seq<char>) -> Fields {
    without(f, name).push((name, value))
}

/// The fields after setting `name` to `value` unless it is already there.
pub open spec fn with_default(f: Fields, name: Seq<char>, value: Seq<char>) -> Fields {
    if lookup(f, name) is None {
        f.push((name, value))
    } else {
        f
    }
}

/// Whether `token` is an element of the comma-separated list `value`.
pub open spec fn list_has(value: Seq<char>, token: Seq<char>) -> bool {
    exists|i: int|
        0 <= i < split(value, ',').len() && eq_nocase(trim(#[trigger] split(value, ',')[i]), token)
}

/// Whether some value for `name` has `token` as a list element.
pub open spec fn has_token(f: Fields, name: Seq<char>, token: Seq<char>) -> bool {
    exists|i: int|
        0 <= i < values(f, name).len() && list_has(#[trigger] values(f, name)[i], token)
}

/// An ordered list of HTTP header fields with case-insensitive name lookup.
///
/// Field names are compared ASCII-case-insensitively but the original casing is
/// preserved for output. Multiple fields with the same name are allowed and
/// kept in order.
#[derive(Debug)]
pub struct Headers {
    fields: Vec<(String, String)>,
}

/// The model of a list of owned fields.
pub open spec fn model(v: Seq<(String, String)>) -> Fields {
    v.map_values(|p: (String, String)| (p.0@, p.1@))
}

impl View for Headers {
    type V = Fields;

    closed spec fn view(&self) -> Fields {
        model(self.fields@)
    }
}

impl Clone for Headers {
    fn clone(&self) -> (r: Headers)
        ensures
            r@ == self@,
    {
        let mut out: Vec<(String, String)> = Vec::new();
        let mut i: usize = 0;
        while i < self.fields.len()
            invariant
                i <= self.fields@.len(),
                model(out@) == self@.take(i as int),
            decreases self.fields@.len() - i,
        {
            let ghost before = out@;
            out.push((self.fields[i].0.clone(), self.fields[i].1.clone()));
            i += 1;
            proof {
                assert(model(out@) =~= model(before).push(self@[i - 1]));
                assert(self@.take(i as int) =~= self@.take(i - 1).push(self@[i - 1]));
            }
        }
        proof {
            assert(self@.take(self@.len() as int) =~= self@);
        }
        Headers { fields: out }
    }
}

impl Default for Headers {
    fn default() -> (r: Headers)
        ensures
            r@ == Seq::<(Seq<char>, Seq<char>)>::empty(),
    {
        Headers::new()
    }
}

impl Headers {
    /// An empty header set.
    pub fn new() -> (r: Headers)
        ensures
            r@ == Seq::<(Seq<char>, Seq<char>)>::empty(),
    {
        let r = Headers { fields: Vec::new() };
        proof {
            assert(r@ =~= Seq::<(Seq<char>, Seq<char>)>::empty());
        }
        r
    }

    /// Number of header fields.
    pub fn len(&self) -> (r: usize)
        ensures
            r == self@.len(),
    {
        self.fields.len()
    }

    /// Whether there are no header fields.
    pub fn is_empty(&self) -> (r: bool)
        ensures
            r == (self@.len() == 0),
    {
        self.fields.len() == 0
    }

    /// Append a header field, keeping any existing field of the same name.
    pub fn append<N: IntoText, V: IntoText>(&mut self, name: N, value: V)
        ensures
            final(self)@ == old(self)@.push((name.text(), value.text())),
    {
        let ghost before = self.fields@;
        self.fields.push((name.into_text(), value.into_text()));
        proof {
            assert(self@ =~= model(before).push((name.text(), value.text())));
        }
    }

    /// Set a header field, removing any existing fields of the same name first.
    pub fn set<N: IntoText, V: IntoText>(&mut self, name: N, value: V)
        ensures
            final(self)@ == with_field(old(self)@, name.text(), value.text()),
    {
        let n: String = name.into_text();
        self.remove(n.as_str());
        self.append(n, value);
    }

    /// Set a header only if no field of that name is already present.
    pub fn set_if_absent<V: IntoText>(&mut self, name: &str, value: V)
        ensures
            final(self)@ == with_default(old(self)@, name@, value.text()),
    {
        if self.get(name).is_none() {
            self.append(name, value);
        }
    }

    /// Remove every field with the given (case-insensitive) name.
    pub fn remove(&mut self, name: &str)
        ensures
            final(self)@ == without(old(self)@, name@),
    {
        let nc = chars_of(name);
        let mut out: Vec<(String, String)> = Vec::new();
        let mut i: usize = 0;
        let ghost f = self@;
        proof {
            assert(f.take(0) =~= Seq::empty());
            assert(model(out@) =~= Seq::empty());
        }
        while i < self.fields.len()
            invariant
                i <= self.fields@.len(),
                f == self@,
                nc@ == name@,
                model(out@) == without(f.take(i as int), name@),
            decreases self.fields@.len() - i,
        {
            let ghost before = out@;
            let kc = chars_of(self.fields[i].0.as_str());
            proof {
                assert(f.take(i as int + 1).drop_last() =~= f.take(i as int));
                assert(f.take(i as int + 1).last() == f[i as int]);
            }
            if !chars_eq_nocase(&kc, &nc) {
                out.push((self.fields[i].0.clone(), self.fields[i].1.clone()));
                proof {
                    assert(model(out@) =~= model(before).push(f[i as int]));
                }
            }
            i += 1;
        }
        proof {
            assert(f.take(f.len() as int) =~= f);
        }
        self.fields = out;
    }

    /// The first value for `name`, if any.
    pub fn get(&self, name: &str) -> (r: Option<&str>)
        ensures
            match (r, lookup(self@, name@)) {
                (Some(v), Some(w)) => v@ == w,
                (None, None) => true,
                _ => false,
            },
    {
        let nc = chars_of(name);
        let mut i: usize = 0;
        let ghost f = self@;
        proof {
            assert(f.skip(0) =~= f);
        }
        while i < self.fields.len()
            invariant
                i <= self.fields@.len(),
                f == self@,
                nc@ == name@,
                lookup(f.skip(i as int), name@) == lookup(f, name@),
            decreases self.fields@.len() - i,
        {
            let kc = chars_of(self.fields[i].0.as_str());
            proof {
                assert(f.skip(i as int)[0] == f[i as int]);
                assert(f.skip(i as int).skip(1) =~= f.skip(i as int + 1));
            }
            if chars_eq_nocase(&kc, &nc) {
                return Some(self.fields[i].1.as_str());
            }
            i += 1;
        }
        None
    }

    /// Every value for `name` (case-insensitive), in order.
    pub fn get_all<'a>(&'a self, name: &str) -> (r: Vec<&'a str>)
        ensures
            r@.map_values(|s: &str| s@) == values(self@, name@),
    {
        let nc = chars_of(name);
        let mut out: Vec<&'a str> = Vec::new();
        let mut i: usize = 0;
        let ghost f = self@;
        let ghost g = |s: &str| s@;
        proof {
            assert(f.take(0) =~= Seq::empty());
            assert(out@.map_values(g) =~= Seq::empty());
        }
        while i < self.fields.len()
            invariant
                i <= self.fields@.len(),
                f == self@,
                nc@ == name@,
                g == (|s: &str| s@),
                out@.map_values(g) == values(f.take(i as int), name@),
            decreases self.fields@.len() - i,
        {
            let ghost before = out@;
            let kc = chars_of(self.fields[i].0.as_str());
            proof {
                assert(f.take(i as int + 1).drop_last() =~= f.take(i as int));
                assert(f.take(i as int + 1).last() == f[i as int]);
            }
            if chars_eq_nocase(&kc, &nc) {
                out.push(self.fields[i].1.as_str());
                proof {
                    assert(out@.map_values(g) =~= before.map_values(g).push(f[i as int].1));
                }
            }
            i += 1;
        }
        proof {
            assert(f.take(f.len() as int) =~= f);
        }
        out
    }

    /// Whether a field with the given name is present.
    pub fn contains(&self, name: &str) -> (r: bool)
        ensures
            r == lookup(self@, name@) is Some,
    {
        self.get(name).is_some()
    }

    /// The field at index `i`, in insertion order.
    pub fn at(&self, i: usize) -> (r: (&str, &str))
        requires
            i < self@.len(),
        ensures
            r.0@ == self@[i as int].0,
            r.1@ == self@[i as int].1,
    {
        (self.fields[i].0.as_str(), self.fields[i].1.as_str())
    }

    /// All `(name, value)` pairs in insertion order.
    pub fn iter(&self) -> (r: Vec<(&str, &str)>)
        ensures
            r@.map_values(|p: (&str, &str)| (p.0@, p.1@)) == self@,
    {
        let mut out: Vec<(&str, &str)> = Vec::new();
        let mut i: usize = 0;
        let ghost g = |p: (&str, &str)| (p.0@, p.1@);
        while i < self.fields.len()
            invariant
                i <= self.fields@.len(),
                g == (|p: (&str, &str)| (p.0@, p.1@)),
                out@.map_values(g) == self@.take(i as int),
            decreases self.fields@.len() - i,
        {
            let ghost before = out@;
            out.push(self.at(i));
            i += 1;
            proof {
                assert(out@.map_values(g) =~= before.map_values(g).push(self@[i - 1]));
                assert(self@.take(i as int) =~= self@.take(i - 1).push(self@[i - 1]));
            }
        }
        proof {
            assert(self@.take(self@.len() as int) =~= self@);
        }
        out
    }

    /// Whether a comma-separated list header contains `token` as one of its
    /// elements, compared case-insensitively.
    pub fn contains_token(&self, name: &str, token: &str) -> (r: bool)
        ensures
            r == has_token(self@, name@, token@),
    {
        let vals = self.get_all(name);
        let ghost g = |s: &str| s@;
        let mut i: usize = 0;
        while i < vals.len()
            invariant
                i <= vals@.len(),
                vals@.map_values(|s: &str| s@) == values(self@, name@),
                forall|j: int| 0 <= j < i ==> !list_has(#[trigger] values(self@, name@)[j], token@),
            decreases vals@.len() - i,
        {
            proof {
                assert(values(self@, name@)[i as int] == vals@[i as int]@);
            }
            if list_contains(vals[i], token) {
                return true;
            }
            i += 1;
        }
        proof {
            assert(values(self@, name@).len() == vals@.len());
        }
        false
    }
}

/// Whether `token` is an element of the comma-separated list `value`.
pub fn list_contains(value: &str, token: &str) -> (r: bool)
    ensures
        r == list_has(value@, token@),
{
    let vc = chars_of(value);
    let tc = chars_of(token);
    let pieces = chars_split(&vc, ',');
    let mut i: usize = 0;
    while i < pieces.len()
        invariant
            i <= pieces@.len(),
            vc@ == value@,
            tc@ == token@,
            views(pieces@) == split(value@, ','),
            forall|j: int|
                0 <= j < i ==> !eq_nocase(trim(#[trigger] split(value@, ',')[j]), token@),
        decreases pieces@.len() - i,
    {
        proof {
            assert(split(value@, ',')[i as int] == pieces@[i as int]@);
        }
        if chars_eq_nocase(chars_trim(pieces[i]), &tc) {
            return true;
        }
        i += 1;
    }
    proof {
        assert(split(value@, ',').len() == pieces@.len());
    }
    false
}

// ---------------------------------------------------------------------------
// Laws
// ---------------------------------------------------------------------------

/// After a removal no field of that name is left.
pub proof fn law_removed_is_absent(f: Fields, name: Seq<char>)
    ensures
        lookup(without(f, name), name) is None,
    decreases f.len(),
{
    if f.len() > 0 {
        law_removed_is_absent(f.drop_last(), name);
        if !eq_nocase(f.last().0, name) {
            lemma_lookup_push(without(f.drop_last(), name), f.last(), name);
        }
    }
}

/// Looking a name up in a list with one more field at the end.
pub proof fn lemma_lookup_push(f: Fields, p: (Seq<char>, Seq<char>), name: Seq<char>)
    ensures
        lookup(f.push(p), name) == if lookup(f, name) is Some {
            lookup(f, name)
        } else if eq_nocase(p.0, name) {
            Some(p.1)
        } else {
            None
        },
    decreases f.len(),
{
    if f.len() == 0 {
        assert(f.push(p).skip(1) =~= Seq::empty());
    } else {
        assert(f.push(p).skip(1) =~= f.skip(1).push(p));
        lemma_lookup_push(f.skip(1), p, name);
    }
}

/// A value that was set is the one that is found.
pub proof fn law_get_after_set(f: Fields, name: Seq<char>, value: Seq<char>)
    ensures
        lookup(with_field(f, name, value), name) == Some(value),
{
    law_removed_is_absent(f, name);
    lemma_lookup_push(without(f, name), (name, value), name);
}

/// Removing one name leaves the lookup of every other name alone.
pub proof fn law_remove_keeps_others(f: Fields, name: Seq<char>, other: Seq<char>)
    requires
        !eq_nocase(name, other),
    ensures
        lookup(without(f, name), other) == lookup(f, other),
    decreases f.len(),
{
    if f.len() > 0 {
        law_remove_keeps_others(f.drop_last(), name, other);
        assert(f.drop_last().push(f.last()) =~= f);
        lemma_lookup_push(f.drop_last(), f.last(), other);
        lemma_lookup_push(without(f.drop_last(), name), f.last(), other);
    }
}

/// Setting one name leaves the lookup of every other name alone.
pub proof fn law_set_keeps_others(f: Fields, name: Seq<char>, value: Seq<char>, other: Seq<char>)
    requires
        !eq_nocase(name, other),
    ensures
        lookup(with_field(f, name, value), other) == lookup(f, other),
{
    law_remove_keeps_others(f, name, other);
    lemma_lookup_push(without(f, name), (name, value), other);
}

/// A default never replaces a value that is there.
pub proof fn law_default_keeps_value(f: Fields, name: Seq<char>, value: Seq<char>)
    ensures
        lookup(with_default(f, name, value), name) == if lookup(f, name) is Some {
            lookup(f, name)
        } else {
            Some(value)
        },
{
    lemma_lookup_push(f, (name, value), name);
}

/// Lookup does not depend on the case of the name asked for.
pub proof fn law_lookup_ignores_case(f: Fields, a: Seq<char>, b: Seq<char>)
    requires
        eq_nocase(a, b),
    ensures
        lookup(f, a) == lookup(f, b),
    decreases f.len(),
{
    if f.len() > 0 {
        law_lookup_ignores_case(f.skip(1), a, b);
    }
}

/// A name that is absent stays absent when fields are removed.
pub proof fn lemma_absent_after_remove(f: Fields, name: Seq<char>, other: Seq<char>)
    requires
        lookup(f, other) is None,
    ensures
        lookup(without(f, name), other) is None,
    decreases f.len(),
{
    if f.len() > 0 {
        let g = f.drop_last();
        assert(f =~= g.push(f.last()));
        lemma_lookup_push(g, f.last(), other);
        lemma_absent_after_remove(g, name, other);
        lemma_lookup_push(without(g, name), f.last(), other);
    }
}

/// The values of a name in a list with one more field at the end.
pub proof fn lemma_values_push(f: Fields, p: (Seq<char>, Seq<char>), name: Seq<char>)
    ensures
        values(f.push(p), name) == if eq_nocase(p.0, name) {
            values(f, name).push(p.1)
        } else {
            values(f, name)
        },
{
    assert(f.push(p).drop_last() =~= f);
}

/// Removing a name leaves no value of it.
pub proof fn lemma_no_values_after_remove(f: Fields, name: Seq<char>)
    ensures
        values(without(f, name), name) == Seq::<Seq<char>>::empty(),
    decreases f.len(),
{
    if f.len() > 0 {
        lemma_no_values_after_remove(f.drop_last(), name);
        lemma_values_push(without(f.drop_last(), name), f.last(), name);
    }
}

/// Removing a name keeps the values of the others.
pub proof fn lemma_remove_keeps_values(f: Fields, name: Seq<char>, other: Seq<char>)
    requires
        !eq_nocase(name, other),
    ensures
        values(without(f, name), other) == values(f, other),
    decreases f.len(),
{
    if f.len() > 0 {
        lemma_remove_keeps_values(f.drop_last(), name, other);
        lemma_values_push(without(f.drop_last(), name), f.last(), other);
    }
}

/// The value that is found is that of the first field with the name; nothing is
/// found where there is no such field.
pub proof fn law_lookup_finds_the_first(f: Fields, name: Seq<char>)
    ensures
        match lookup(f, name) {
            Some(v) => exists|i: int|
                0 <= i < f.len() && eq_nocase((#[trigger] f[i]).0, name) && f[i].1 == v && forall|j: int|
                    0 <= j < i ==> !eq_nocase((#[trigger] f[j]).0, name),
            None => forall|i: int| 0 <= i < f.len() ==> !eq_nocase((#[trigger] f[i]).0, name),
        },
    decreases f.len(),
{
    if f.len() > 0 {
        if eq_nocase(f[0].0, name) {
            assert(f[0].1 == lookup(f, name)->0);
        } else {
            let g = f.skip(1);
            law_lookup_finds_the_first(g, name);
            match lookup(g, name) {
                Some(v) => {
                    let i = choose|i: int|
                        0 <= i < g.len() && eq_nocase((#[trigger] g[i]).0, name) && g[i].1 == v
                            && forall|j: int|
                            0 <= j < i ==> !eq_nocase((#[trigger] g[j]).0, name);
                    assert(f[i + 1] == g[i]);
                    assert forall|j: int| 0 <= j < i + 1 implies !eq_nocase(
                        (#[trigger] f[j]).0,
                        name,
                    ) by {
                        if j > 0 {
                            assert(f[j] == g[j - 1]);
                        }
                    }
                },
                None => {
                    assert forall|i: int| 0 <= i < f.len() implies !eq_nocase(
                        (#[trigger] f[i]).0,
                        name,
                    ) by {
                        if i > 0 {
                            assert(f[i] == g[i - 1]);
                        }
                    }
                },
            }
        }
    }
}

/// The values of two lists of fields, one after the other, are those of the first
/// and then those of the second; a field alone gives its value under its name.
pub proof fn law_values_in_order(a: Fields, b: Fields, n: Seq<char>, v: Seq<char>, name: Seq<char>)
    ensures
        values(a + b, name) == values(a, name) + values(b, name),
        values(seq![(n, v)], name) == if eq_nocase(n, name) {
            seq![v]
        } else {
            Seq::empty()
        },
    decreases b.len(),
{
    reveal_with_fuel(values, 2);
    assert(seq![(n, v)].drop_last() =~= Seq::empty());
    assert(Seq::<Seq<char>>::empty().push(v) =~= seq![v]);
    if b.len() == 0 {
        assert(a + b =~= a);
        assert(values(a, name) + values(b, name) =~= values(a, name));
    } else {
        assert((a + b).drop_last() =~= a + b.drop_last());
        law_values_in_order(a, b.drop_last(), n, v, name);
        assert(values(a + b, name) =~= values(a, name) + values(b, name));
    }
}

/// Removing a name from two lists of fields is removing it from each; a field
/// alone goes exactly if it has the name.
pub proof fn law_removal_keeps_order(a: Fields, b: Fields, n: Seq<char>, v: Seq<char>, name: Seq<char>)
    ensures
        without(a + b, name) == without(a, name) + without(b, name),
        without(seq![(n, v)], name) == if eq_nocase(n, name) {
            Seq::empty()
        } else {
            seq![(n, v)]
        },
    decreases b.len(),
{
    reveal_with_fuel(without, 2);
    assert(seq![(n, v)].drop_last() =~= Seq::empty());
    assert(Seq::<(Seq<char>, Seq<char>)>::empty().push((n, v)) =~= seq![(n, v)]);
    if b.len() == 0 {
        assert(a + b =~= a);
        assert(without(a, name) + without(b, name) =~= without(a, name));
    } else {
        assert((a + b).drop_last() =~= a + b.drop_last());
        law_removal_keeps_order(a, b.drop_last(), n, v, name);
        assert(without(a + b, name) =~= without(a, name) + without(b, name));
    }
}

/// What is found is the first of the values, and there are values exactly where
/// something is found.
pub proof fn law_lookup_is_the_first_value(f: Fields, name: Seq<char>)
    ensures
        lookup(f, name) is None <==> values(f, name).len() == 0,
        lookup(f, name) matches Some(v) ==> values(f, name)[0] == v,
    decreases f.len(),
{
    if f.len() > 0 {
        let g = f.drop_last();
        law_lookup_is_the_first_value(g, name);
        assert(f =~= g.push(f.last()));
        lemma_lookup_push(g, f.last(), name);
    }
}

/// A list of elements joined by commas has those elements, without regard to case
/// and to blanks around them, and no others.
pub proof fn law_list_elements(parts: Seq<Seq<char>>, token: Seq<char>)
    requires
        parts.len() > 0,
        forall|i: int| 0 <= i < parts.len() ==> !(#[trigger] parts[i]).contains(','),
    ensures
        list_has(concat(parts, seq![',']), token) <==> exists|i: int|
            0 <= i < parts.len() && eq_nocase(trim(#[trigger] parts[i]), token),
{
    law_split_undoes_joining(parts, ',');
}

} // verus!
