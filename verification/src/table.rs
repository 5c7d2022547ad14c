//! A small table keyed by text.
use crate::text::{owned, str_eq};
use vstd::prelude::*;

verus! {

broadcast use vstd::seq::group_seq_axioms;

/// A table that holds one value per key.
#[derive(Debug)]
pub struct Table<V> {
    items: Vec<(String, V)>,
}

/// The entries of a list as a map.
pub open spec fn map_of<V>(items: Seq<(String, V)>) -> Map<Seq<char>, V>
    decreases items.len(),
{
    if items.len() == 0 {
        Map::empty()
    } else {
        map_of(items.drop_last()).insert(items.last().0@, items.last().1)
    }
}

/// No key occurs twice.
pub open spec fn distinct<V>(items: Seq<(String, V)>) -> bool {
    forall|i: int, j: int|
        0 <= i < j < items.len() ==> #[trigger] items[i].0@ != #[trigger] items[j].0@
}

proof fn lemma_map_of<V>(items: Seq<(String, V)>)
    requires
        distinct(items),
    ensures
        forall|i: int|
            0 <= i < items.len() ==> map_of(items).contains_key(#[trigger] items[i].0@) && map_of(
                items,
            )[items[i].0@] == items[i].1,
        forall|k: Seq<char>| #[trigger]
            map_of(items).contains_key(k) ==> exists|i: int|
                0 <= i < items.len() && #[trigger] items[i].0@ == k,
        map_of(items).dom().finite(),
        map_of(items).len() == items.len(),
    decreases items.len(),
{
    if items.len() > 0 {
        let rest = items.drop_last();
        let n = items.len() - 1;
        assert(distinct(rest)) by {
            assert forall|i: int, j: int| 0 <= i < j < rest.len() implies #[trigger] rest[i].0@
                != #[trigger] rest[j].0@ by {
                assert(items[i].0@ != items[j].0@);
            }
        }
        lemma_map_of(rest);
        assert(!map_of(rest).contains_key(items[n].0@)) by {
            if map_of(rest).contains_key(items[n].0@) {
                let i = choose|i: int| 0 <= i < rest.len() && #[trigger] rest[i].0@ == items[n].0@;
                assert(items[i].0@ != items[n].0@);
            }
        }
        assert forall|i: int| 0 <= i < items.len() implies map_of(items).contains_key(
            #[trigger] items[i].0@,
        ) && map_of(items)[items[i].0@] == items[i].1 by {
            if i < n {
                assert(rest[i].0@ == items[i].0@);
                assert(items[i].0@ != items[n].0@);
            }
        }
        assert forall|k: Seq<char>| #[trigger] map_of(items).contains_key(k) implies exists|i: int|
            0 <= i < items.len() && #[trigger] items[i].0@ == k by {
            if k == items[n].0@ {
            } else {
                let i = choose|i: int| 0 <= i < rest.len() && #[trigger] rest[i].0@ == k;
                assert(items[i].0@ == k);
            }
        }
    }
}

/// Two lists with the same entries make the same map.
proof fn lemma_same<V>(items: Seq<(String, V)>, m: Map<Seq<char>, V>)
    requires
        distinct(items),
        forall|i: int|
            0 <= i < items.len() ==> m.contains_key(#[trigger] items[i].0@) && m[items[i].0@]
                == items[i].1,
        forall|k: Seq<char>| #[trigger]
            m.contains_key(k) ==> exists|i: int| 0 <= i < items.len() && #[trigger] items[i].0@ == k,
    ensures
        map_of(items) == m,
{
    lemma_map_of(items);
    assert forall|k: Seq<char>| map_of(items).contains_key(k) <==> m.contains_key(k) by {
        if map_of(items).contains_key(k) {
            let i = choose|i: int| 0 <= i < items.len() && #[trigger] items[i].0@ == k;
        }
        if m.contains_key(k) {
            let i = choose|i: int| 0 <= i < items.len() && #[trigger] items[i].0@ == k;
        }
    }
    assert forall|k: Seq<char>| map_of(items).contains_key(k) implies map_of(items)[k] == m[k] by {
        let i = choose|i: int| 0 <= i < items.len() && #[trigger] items[i].0@ == k;
    }
    assert(map_of(items) =~= m);
}

impl<V> View for Table<V> {
    type V = Map<Seq<char>, V>;

    closed spec fn view(&self) -> Map<Seq<char>, V> {
        map_of(self.items@)
    }
}

impl<V> Table<V> {
    /// No key occurs twice.
    pub closed spec fn wf(self) -> bool {
        distinct(self.items@)
    }

    pub fn new() -> (r: Table<V>)
        ensures
            r.wf(),
            r@ == Map::<Seq<char>, V>::empty(),
    {
        Table { items: Vec::new() }
    }

    pub fn len(&self) -> (r: usize)
        requires
            self.wf(),
        ensures
            self@.dom().finite(),
            r == self@.len(),
    {
        proof {
            lemma_map_of(self.items@);
        }
        self.items.len()
    }

    fn position(&self, key: &str) -> (r: Option<usize>)
        requires
            self.wf(),
        ensures
            match r {
                Some(i) => i < self.items@.len() && self.items@[i as int].0@ == key@
                    && self@.contains_key(key@) && self@[key@] == self.items@[i as int].1,
                None => !self@.contains_key(key@),
            },
    {
        proof {
            lemma_map_of(self.items@);
        }
        let mut i: usize = 0;
        while i < self.items.len()
            invariant
                i <= self.items@.len(),
                forall|k: int| 0 <= k < i ==> #[trigger] self.items@[k].0@ != key@,
                forall|k: int|
                    0 <= k < self.items@.len() ==> map_of(self.items@).contains_key(
                        #[trigger] self.items@[k].0@,
                    ) && map_of(self.items@)[self.items@[k].0@] == self.items@[k].1,
                forall|k: Seq<char>| #[trigger]
                    map_of(self.items@).contains_key(k) ==> exists|i: int|
                        0 <= i < self.items@.len() && #[trigger] self.items@[i].0@ == k,
            decreases self.items.len() - i,
        {
            if str_eq(self.items[i].0.as_str(), key) {
                proof {
                    assert(self.items@[i as int].0@ == key@);
                }
                return Some(i);
            }
            i += 1;
        }
        None
    }

    /// The value of `key`.
    pub fn get(&self, key: &str) -> (r: Option<&V>)
        requires
            self.wf(),
        ensures
            match r {
                Some(v) => self@.contains_key(key@) && self@[key@] == *v,
                None => !self@.contains_key(key@),
            },
    {
        match self.position(key) {
            Some(i) => Some(&self.items[i].1),
            None => None,
        }
    }

    /// Set the value of `key`.
    pub fn insert(&mut self, key: String, value: V)
        requires
            old(self).wf(),
        ensures
            final(self).wf(),
            final(self)@ == old(self)@.insert(key@, value),
    {
        let ghost m = self@;
        let ghost before = self.items@;
        proof {
            lemma_map_of(before);
        }
        match self.position(key.as_str()) {
            Some(i) => {
                let ghost k = key@;
                self.items.set(i, (key, value));
                proof {
                    let after = self.items@;
                    assert(after =~= before.update(i as int, (key, value)));
                    assert forall|x: int, y: int| 0 <= x < y < after.len() implies #[trigger] after[x].0@
                        != #[trigger] after[y].0@ by {
                        assert(before[x].0@ != before[y].0@);
                    }
                    assert forall|x: int| 0 <= x < after.len() implies m.insert(k, value).contains_key(
                        #[trigger] after[x].0@,
                    ) && m.insert(k, value)[after[x].0@] == after[x].1 by {
                        if x < i {
                            assert(before[x].0@ != before[i as int].0@);
                        } else if x > i {
                            assert(before[i as int].0@ != before[x].0@);
                        }
                    }
                    assert forall|q: Seq<char>| #[trigger]
                        m.insert(k, value).contains_key(q) implies exists|x: int|
                        0 <= x < after.len() && #[trigger] after[x].0@ == q by {
                        if q == k {
                            assert(after[i as int].0@ == q);
                        } else {
                            let x = choose|x: int| 0 <= x < before.len() && #[trigger] before[x].0@ == q;
                            assert(after[x].0@ == q);
                        }
                    }
                    lemma_same(after, m.insert(k, value));
                }
            },
            None => {
                self.items.push((key, value));
                proof {
                    let after = self.items@;
                    assert(after.drop_last() =~= before);
                    assert forall|x: int, y: int| 0 <= x < y < after.len() implies #[trigger] after[x].0@
                        != #[trigger] after[y].0@ by {
                        assert(after[x].0@ == before[x].0@);
                        if y < before.len() {
                            assert(before[x].0@ != before[y].0@);
                        }
                    }
                }
            },
        }
    }

    /// Remove `key`.
    pub fn remove(&mut self, key: &str)
        requires
            old(self).wf(),
        ensures
            final(self).wf(),
            final(self)@ == old(self)@.remove(key@),
    {
        let ghost m = self@;
        let ghost before = self.items@;
        proof {
            lemma_map_of(before);
        }
        match self.position(key) {
            Some(i) => {
                self.items.remove(i);
                proof {
                    lemma_removed(before, i as int);
                }
            },
            None => {
                proof {
                    assert(m.remove(key@) =~= m);
                }
            },
        }
    }
}

proof fn lemma_removed<V>(before: Seq<(String, V)>, i: int)
    requires
        distinct(before),
        0 <= i < before.len(),
    ensures
        distinct(before.remove(i)),
        map_of(before.remove(i)) == map_of(before).remove(before[i].0@),
{
    let after = before.remove(i);
    let m = map_of(before).remove(before[i].0@);
    lemma_map_of(before);
    assert forall|x: int, y: int| 0 <= x < y < after.len() implies #[trigger] after[x].0@
        != #[trigger] after[y].0@ by {
        let bx = if x < i {
            x
        } else {
            x + 1
        };
        let by_ = if y < i {
            y
        } else {
            y + 1
        };
        assert(before[bx].0@ != before[by_].0@);
    }
    assert forall|x: int| 0 <= x < after.len() implies m.contains_key(#[trigger] after[x].0@)
        && m[after[x].0@] == after[x].1 by {
        let bx = if x < i {
            x
        } else {
            x + 1
        };
        assert(after[x] == before[bx]);
        if bx < i {
            assert(before[bx].0@ != before[i].0@);
        } else {
            assert(before[i].0@ != before[bx].0@);
        }
    }
    assert forall|q: Seq<char>| #[trigger] m.contains_key(q) implies exists|x: int|
        0 <= x < after.len() && #[trigger] after[x].0@ == q by {
        let b = choose|b: int| 0 <= b < before.len() && #[trigger] before[b].0@ == q;
        let x = if b < i {
            b
        } else {
            b - 1
        };
        assert(after[x] == before[b]);
        assert(after[x].0@ == q);
    }
    lemma_same(after, m);
}

/// The entries with a value above `floor`.
pub open spec fn above(m: Map<Seq<char>, u64>, floor: u64) -> Map<Seq<char>, u64> {
    m.restrict(Set::new(|k: Seq<char>| m.contains_key(k) && m[k] > floor))
}

/// Whether `k` has the least value.
pub open spec fn is_least(m: Map<Seq<char>, u64>, k: Seq<char>) -> bool {
    m.contains_key(k) && forall|j: Seq<char>| #[trigger] m.contains_key(j) ==> m[k] <= m[j]
}

impl Table<u64> {
    /// A key with the least value.
    pub fn min_key(&self) -> (r: Option<String>)
        requires
            self.wf(),
        ensures
            match r {
                Some(k) => is_least(self@, k@),
                None => self@ == Map::<Seq<char>, u64>::empty(),
            },
    {
        proof {
            lemma_map_of(self.items@);
        }
        if self.items.len() == 0 {
            return None;
        }
        let mut best: usize = 0;
        let mut i: usize = 1;
        while i < self.items.len()
            invariant
                best < i <= self.items@.len(),
                forall|k: int| 0 <= k < i ==> self.items@[best as int].1 <= #[trigger] self.items@[k].1,
            decreases self.items.len() - i,
        {
            if self.items[i].1 < self.items[best].1 {
                best = i;
            }
            i += 1;
        }
        let key = owned(self.items[best].0.as_str());
        proof {
            assert(self.items@[best as int].0@ == key@);
            assert forall|j: Seq<char>| #[trigger] self@.contains_key(j) implies self@[key@] <= self@[j] by {
                let x = choose|x: int| 0 <= x < self.items@.len() && #[trigger] self.items@[x].0@ == j;
                assert(self@[j] == self.items@[x].1);
            }
        }
        Some(key)
    }

    /// Drop the entries whose value is not above `floor`.
    pub fn retain_above(&mut self, floor: u64)
        requires
            old(self).wf(),
        ensures
            final(self).wf(),
            final(self)@ == above(old(self)@, floor),
    {
        let ghost all = self.items@;
        let mut kept: Table<u64> = Table::new();
        let mut i: usize = 0;
        proof {
            lemma_map_of(all);
            assert(kept@ =~= above(map_of(all.take(0)), floor));
        }
        while i < self.items.len()
            invariant
                i <= self.items@.len(),
                self.items@ == all,
                distinct(all),
                kept.wf(),
                kept@ == above(map_of(all.take(i as int)), floor),
            decreases self.items.len() - i,
        {
            let v: u64 = self.items[i].1;
            let ghost m = map_of(all.take(i as int));
            proof {
                assert(all.take(i + 1).drop_last() =~= all.take(i as int));
                let t = all.take(i as int);
                assert(distinct(t)) by {
                    assert forall|x: int, y: int| 0 <= x < y < t.len() implies #[trigger] t[x].0@
                        != #[trigger] t[y].0@ by {
                        assert(all[x].0@ != all[y].0@);
                    }
                }
                lemma_map_of(t);
                if m.contains_key(all[i as int].0@) {
                    let x = choose|x: int| 0 <= x < t.len() && #[trigger] t[x].0@ == all[i as int].0@;
                    assert(all[x].0@ != all[i as int].0@);
                }
            }
            if v > floor {
                kept.insert(owned(self.items[i].0.as_str()), v);
            }
            proof {
                assert(kept@ =~= above(m.insert(all[i as int].0@, v), floor));
            }
            i += 1;
        }
        proof {
            assert(all.take(all.len() as int) =~= all);
        }
        *self = kept;
    }
}

} // verus!
