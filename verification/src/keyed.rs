//! A map from strings to values, kept as a vector sorted strictly by key
//! (the order in which a `BTreeMap<String, _>` walks its entries).

use crate::order::{
    first_index, lemma_first_index, lemma_seq_lt_irreflexive, lemma_seq_lt_total,
    lemma_seq_lt_transitive, seq_lt, str_lt,
};
use crate::text::str_eq;
use vstd::prelude::*;

verus! {

broadcast use vstd::string::group_string_axioms;

/// Keys strictly increase along `s`.
pub open spec fn sorted_keys<V>(s: Seq<(String, V)>) -> bool {
    forall|i: int, j: int| 0 <= i < j < s.len() ==> seq_lt(#[trigger] s[i].0@, #[trigger] s[j].0@)
}

/// Entries whose key is `k`.
pub open spec fn key_is<V>(k: Seq<char>) -> spec_fn((String, V)) -> bool {
    |e: (String, V)| e.0@ == k
}

/// Position of key `k` in `s`, or -1.
pub open spec fn key_index<V>(s: Seq<(String, V)>, k: Seq<char>) -> int {
    first_index(s, key_is::<V>(k))
}

/// The map that a sorted entry list stands for.
pub open spec fn entries_map<V>(s: Seq<(String, V)>) -> Map<Seq<char>, V> {
    Map::new(|k: Seq<char>| key_index(s, k) >= 0, |k: Seq<char>| s[key_index(s, k)].1)
}

/// In a sorted list, the entry holding key `k` is found at its position.
pub proof fn lemma_key_index_at<V>(s: Seq<(String, V)>, j: int)
    requires
        sorted_keys(s),
        0 <= j < s.len(),
    ensures
        key_index(s, s[j].0@) == j,
{
    let k = s[j].0@;
    assert forall|l: int| 0 <= l < j implies !key_is::<V>(k)(#[trigger] s[l]) by {
        assert(seq_lt(s[l].0@, s[j].0@));
        lemma_seq_lt_irreflexive(k);
    }
    crate::order::lemma_first_index_is(s, key_is::<V>(k), j);
}

/// A key absent from every entry has no position.
pub proof fn lemma_key_index_absent<V>(s: Seq<(String, V)>, k: Seq<char>)
    requires
        forall|j: int| 0 <= j < s.len() ==> (#[trigger] s[j]).0@ != k,
    ensures
        key_index(s, k) == -1,
{
    crate::order::lemma_first_index_none(s, key_is::<V>(k));
}

/// Bounds of `key_index`.
pub proof fn lemma_key_index_bounds<V>(s: Seq<(String, V)>, k: Seq<char>)
    ensures
        -1 <= key_index(s, k) < s.len(),
        key_index(s, k) >= 0 ==> s[key_index(s, k)].0@ == k,
        key_index(s, k) < 0 ==> forall|j: int| 0 <= j < s.len() ==> (#[trigger] s[j]).0@ != k,
{
    lemma_first_index(s, key_is::<V>(k));
}

/// Map view of a sorted list: a key is present iff some entry holds it, with
/// that entry's value.
pub proof fn lemma_entries_map<V>(s: Seq<(String, V)>, k: Seq<char>)
    requires
        sorted_keys(s),
    ensures
        entries_map(s).contains_key(k) <==> exists|j: int| 0 <= j < s.len() && (#[trigger] s[j]).0@
            == k,
        forall|j: int| 0 <= j < s.len() && (#[trigger] s[j]).0@ == k ==> entries_map(s)[k] == s[j].1,
{
    lemma_key_index_bounds(s, k);
    assert forall|j: int| 0 <= j < s.len() && (#[trigger] s[j]).0@ == k implies entries_map(s)[k]
        == s[j].1 by {
        lemma_key_index_at(s, j);
    }
}

/// Replacing the entry at `i` by one with the same key keeps the order.
pub proof fn lemma_sorted_after_replace<V>(s: Seq<(String, V)>, i: int, e: (String, V))
    requires
        sorted_keys(s),
        0 <= i < s.len(),
        e.0@ == s[i].0@,
    ensures
        sorted_keys(s.update(i, e)),
{
    let t = s.update(i, e);
    assert forall|a: int, b: int| 0 <= a < b < t.len() implies seq_lt(
        #[trigger] t[a].0@,
        #[trigger] t[b].0@,
    ) by {
        assert(t[a].0@ == s[a].0@);
        assert(t[b].0@ == s[b].0@);
    }
}

/// Inserting at `i` a key above every key before `i` and below every key
/// from `i` on keeps the order.
pub proof fn lemma_sorted_after_insert<V>(s: Seq<(String, V)>, i: int, e: (String, V))
    requires
        sorted_keys(s),
        0 <= i <= s.len(),
        forall|j: int| 0 <= j < i ==> seq_lt((#[trigger] s[j]).0@, e.0@),
        i < s.len() ==> seq_lt(e.0@, s[i].0@),
    ensures
        sorted_keys(s.take(i).push(e) + s.skip(i)),
{
    let t = s.take(i).push(e) + s.skip(i);
    assert forall|a: int, b: int| 0 <= a < b < t.len() implies seq_lt(
        #[trigger] t[a].0@,
        #[trigger] t[b].0@,
    ) by {
        if b < i {
            assert(t[a] == s[a] && t[b] == s[b]);
        } else if b == i {
            assert(t[a] == s[a] && t[b] == e);
        } else if a < i {
            assert(t[a] == s[a] && t[b] == s[b - 1]);
            if b - 1 > i {
                assert(seq_lt(s[i].0@, s[b - 1].0@));
                lemma_seq_lt_transitive(e.0@, s[i].0@, s[b - 1].0@);
            }
            lemma_seq_lt_transitive(s[a].0@, e.0@, s[b - 1].0@);
        } else if a == i {
            assert(t[a] == e && t[b] == s[b - 1]);
            if b - 1 > i {
                assert(seq_lt(s[i].0@, s[b - 1].0@));
                lemma_seq_lt_transitive(e.0@, s[i].0@, s[b - 1].0@);
            }
        } else {
            assert(t[a] == s[a - 1] && t[b] == s[b - 1]);
        }
    }
}

/// The map of a list after putting `(k, v)` at `i` (replacing when
/// `replace`) is the old map with `k` bound to `v`.
pub proof fn lemma_insert_entries<V>(
    s: Seq<(String, V)>,
    t: Seq<(String, V)>,
    i: int,
    replace: bool,
    k: Seq<char>,
    v: V,
)
    requires
        sorted_keys(s),
        sorted_keys(t),
        0 <= i <= s.len(),
        t[i].0@ == k,
        t[i].1 == v,
        replace ==> i < s.len() && s[i].0@ == k && t.len() == s.len() && forall|j: int|
            0 <= j < s.len() && j != i ==> #[trigger] t[j] == s[j],
        !replace ==> t.len() == s.len() + 1 && (forall|j: int| 0 <= j < i ==> #[trigger] t[j]
            == s[j]) && (forall|j: int| i < j < t.len() ==> #[trigger] t[j] == s[j - 1]),
    ensures
        entries_map(t) == entries_map(s).insert(k, v),
{
    let m0 = entries_map(s);
    let m1 = entries_map(t);
    lemma_key_index_at(t, i);
    assert forall|q: Seq<char>| #![trigger m1.contains_key(q)] #![trigger m0.insert(k, v).contains_key(q)] m1.contains_key(q) == m0.insert(k, v).contains_key(q) && (
    m1.contains_key(q) ==> m1[q] == m0.insert(k, v)[q]) by {
        lemma_entries_map(s, q);
        lemma_entries_map(t, q);
        if q != k {
            if m1.contains_key(q) {
                let j = choose|j: int| 0 <= j < t.len() && (#[trigger] t[j]).0@ == q;
                let j2 = if replace || j < i { j } else { j - 1 };
                assert(t[j] == s[j2]);
                lemma_key_index_at(s, j2);
            }
            if m0.contains_key(q) {
                let j = choose|j: int| 0 <= j < s.len() && (#[trigger] s[j]).0@ == q;
                let j2 = if replace || j < i { j } else { j + 1 };
                assert(t[j2] == s[j]);
                lemma_key_index_at(t, j2);
            }
        }
    }
    assert(m1.dom() =~= m0.insert(k, v).dom());
    assert(m1 =~= m0.insert(k, v));
}

/// Entries whose key is not below `k`.
pub open spec fn not_below<V>(k: Seq<char>) -> spec_fn((String, V)) -> bool {
    |e: (String, V)| !seq_lt(e.0@, k)
}

/// Where a new key `k` goes in `s`: before the first entry whose key is not
/// below it, or at the end.
pub open spec fn insert_pos<V>(s: Seq<(String, V)>, k: Seq<char>) -> int {
    let p = first_index(s, not_below::<V>(k));
    if p >= 0 {
        p
    } else {
        s.len() as int
    }
}

/// The entries after storing `e`: the entry with its key is replaced, or
/// `e` is inserted where its key belongs.
pub open spec fn put_entry<V>(s: Seq<(String, V)>, e: (String, V)) -> Seq<(String, V)> {
    let i = key_index(s, e.0@);
    if i >= 0 {
        s.update(i, e)
    } else {
        let p = insert_pos(s, e.0@);
        s.take(p).push(e) + s.skip(p)
    }
}

/// Storing an entry keeps the keys sorted, binds its key to its value in the
/// map, and leaves it where a lookup of its key finds it.
pub proof fn lemma_put_entry<V>(s: Seq<(String, V)>, e: (String, V))
    requires
        sorted_keys(s),
    ensures
        sorted_keys(put_entry(s, e)),
        entries_map(put_entry(s, e)) == entries_map(s).insert(e.0@, e.1),
        key_index(put_entry(s, e), e.0@) >= 0,
        put_entry(s, e)[key_index(put_entry(s, e), e.0@)] == e,
{
    let k = e.0@;
    let i = key_index(s, k);
    let t = put_entry(s, e);
    lemma_key_index_bounds(s, k);
    if i >= 0 {
        lemma_sorted_after_replace(s, i, e);
        lemma_insert_entries(s, t, i, true, k, e.1);
        lemma_key_index_at(t, i);
    } else {
        let p = insert_pos(s, k);
        lemma_first_index(s, not_below::<V>(k));
        assert forall|j: int| 0 <= j < p implies seq_lt((#[trigger] s[j]).0@, k) by {
            assert(!not_below::<V>(k)(s[j]));
        }
        if p < s.len() {
            assert(not_below::<V>(k)(s[p]));
            assert(s[p].0@ != k);
            lemma_seq_lt_total(s[p].0@, k);
        }
        lemma_sorted_after_insert(s, p, e);
        assert(t[p] == e);
        assert forall|j: int| 0 <= j < p implies #[trigger] t[j] == s[j] by {}
        assert forall|j: int| p < j < t.len() implies #[trigger] t[j] == s[j - 1] by {}
        lemma_insert_entries(s, t, p, false, k, e.1);
        lemma_key_index_at(t, p);
    }
}

/// Storing an entry in an empty list gives the list of that entry alone.
pub proof fn lemma_put_entry_empty<V>(e: (String, V))
    ensures
        put_entry(Seq::<(String, V)>::empty(), e) == seq![e],
{
    let s = Seq::<(String, V)>::empty();
    assert(key_index(s, e.0@) == -1);
    assert(insert_pos(s, e.0@) == 0);
    assert(put_entry(s, e) =~= seq![e]);
}

/// String-keyed map stored as a vector sorted by key.
#[derive(Debug)]
pub struct Keyed<V> {
    items: Vec<(String, V)>,
}

impl<V> Keyed<V> {
    #[verifier::type_invariant]
    pub closed spec fn wf(&self) -> bool {
        sorted_keys(self.items@)
    }

    /// The entries in key order.
    pub closed spec fn entries(&self) -> Seq<(String, V)> {
        self.items@
    }

    /// The map this collection holds.
    pub open spec fn map(&self) -> Map<Seq<char>, V> {
        entries_map(self.entries())
    }

    /// The values, in increasing order of their keys.
    pub open spec fn value_seq(&self) -> Seq<V> {
        self.entries().map_values(|e: (String, V)| e.1)
    }

    /// An empty map.
    pub fn new() -> (m: Keyed<V>)
        ensures
            m.entries() == Seq::<(String, V)>::empty(),
            sorted_keys(m.entries()),
            m.map() == Map::<Seq<char>, V>::empty(),
    {
        let m = Keyed { items: Vec::new() };
        assert(m.map() =~= Map::<Seq<char>, V>::empty());
        m
    }

    /// Number of entries.
    pub fn len(&self) -> (n: usize)
        ensures
            n == self.entries().len(),
            sorted_keys(self.entries()),
    {
        proof {
            use_type_invariant(self);
        }
        self.items.len()
    }

    /// The entry at position `i` in key order.
    pub fn entry_at(&self, i: usize) -> (e: &(String, V))
        requires
            i < self.entries().len(),
        ensures
            *e == self.entries()[i as int],
    {
        &self.items[i]
    }

    /// Position of `key`, if present.
    pub fn find(&self, key: &str) -> (r: Option<usize>)
        ensures
            match r {
                Some(i) => i < self.entries().len() && self.entries()[i as int].0@ == key@
                    && key_index(self.entries(), key@) == i,
                None => key_index(self.entries(), key@) == -1,
            },
            r is Some <==> self.map().contains_key(key@),
    {
        proof {
            use_type_invariant(self);
        }
        let mut i: usize = 0;
        while i < self.items.len()
            invariant
                sorted_keys(self.items@),
                i <= self.items@.len(),
                forall|j: int| 0 <= j < i ==> (#[trigger] self.items@[j]).0@ != key@,
            decreases self.items@.len() - i,
        {
            if str_eq(self.items[i].0.as_str(), key) {
                proof {
                    lemma_key_index_at(self.items@, i as int);
                }
                return Some(i);
            }
            i = i + 1;
        }
        proof {
            lemma_key_index_absent(self.items@, key@);
        }
        None
    }

    /// The value stored under `key`.
    pub fn get(&self, key: &str) -> (r: Option<&V>)
        ensures
            match r {
                Some(v) => self.map().contains_key(key@) && *v == self.map()[key@],
                None => !self.map().contains_key(key@),
            },
    {
        match self.find(key) {
            Some(i) => Some(&self.items[i].1),
            None => None,
        }
    }

    /// Whether `key` is present.
    pub fn contains_key(&self, key: &str) -> (r: bool)
        ensures
            r == self.map().contains_key(key@),
    {
        self.find(key).is_some()
    }

    /// Stores `value` under `key`, replacing any previous value.
    pub fn insert(&mut self, key: String, value: V)
        ensures
            final(self).entries() == put_entry(old(self).entries(), (key, value)),
            sorted_keys(final(self).entries()),
            final(self).map() == old(self).map().insert(key@, value),
    {
        proof {
            use_type_invariant(&*self);
        }
        let ghost s = self.items@;
        let ghost k = key@;
        let mut i: usize = 0;
        while i < self.items.len() && str_lt(self.items[i].0.as_str(), key.as_str())
            invariant
                self.items@ == s,
                k == key@,
                sorted_keys(s),
                i <= s.len(),
                forall|j: int| 0 <= j < i ==> seq_lt((#[trigger] s[j]).0@, k),
            decreases s.len() - i,
        {
            i = i + 1;
        }
        proof {
            assert forall|j: int| 0 <= j < i implies !not_below::<V>(k)(#[trigger] s[j]) by {
                assert(seq_lt(s[j].0@, k));
            }
            if i < s.len() {
                assert(not_below::<V>(k)(s[i as int]));
                crate::order::lemma_first_index_is(s, not_below::<V>(k), i as int);
            } else {
                crate::order::lemma_first_index_none(s, not_below::<V>(k));
            }
            assert(insert_pos(s, k) == i);
        }
        let replace = i < self.items.len() && str_eq(self.items[i].0.as_str(), key.as_str());
        proof {
            if replace {
                lemma_key_index_at(s, i as int);
            } else {
                assert forall|j: int| 0 <= j < s.len() implies (#[trigger] s[j]).0@ != k by {
                    if j < i {
                        lemma_seq_lt_irreflexive(k);
                    } else {
                        assert(s[i as int].0@ != k);
                        lemma_seq_lt_total(s[i as int].0@, k);
                        if j > i {
                            assert(seq_lt(s[i as int].0@, s[j].0@));
                            lemma_seq_lt_transitive(k, s[i as int].0@, s[j].0@);
                            lemma_seq_lt_irreflexive(k);
                        }
                    }
                }
                lemma_key_index_absent(s, k);
            }
        }
        let ghost e = (key, value);
        let mut items = Vec::new();
        std::mem::swap(&mut items, &mut self.items);
        if replace {
            items.set(i, (key, value));
        } else {
            items.insert(i, (key, value));
        }
        proof {
            if replace {
                assert(items@ =~= s.update(i as int, e));
            } else {
                assert(items@ =~= s.take(i as int).push(e) + s.skip(i as int));
            }
            assert(items@ == put_entry(s, e));
            lemma_put_entry(s, e);
        }
        self.items = items;
    }

    /// Replaces the value at position `i`, keeping its key.
    pub fn set_value(&mut self, i: usize, value: V)
        requires
            i < old(self).entries().len(),
        ensures
            final(self).entries() == old(self).entries().update(
                i as int,
                (old(self).entries()[i as int].0, value),
            ),
            sorted_keys(final(self).entries()),
    {
        proof {
            use_type_invariant(&*self);
        }
        let ghost s = self.items@;
        let mut items = Vec::new();
        std::mem::swap(&mut items, &mut self.items);
        let (k, _) = items.remove(i);
        items.insert(i, (k, value));
        proof {
            assert(items@ =~= s.update(i as int, (s[i as int].0, value)));
            lemma_sorted_after_replace(s, i as int, (s[i as int].0, value));
        }
        self.items = items;
    }

    /// Removes `key`, returning its value if it was present.
    pub fn remove(&mut self, key: &str) -> (r: Option<V>)
        ensures
            r is Some <==> old(self).map().contains_key(key@),
            r matches Some(v) ==> v == old(self).map()[key@],
            final(self).map() == old(self).map().remove(key@),
            sorted_keys(final(self).entries()),
    {
        proof {
            use_type_invariant(&*self);
        }
        let ghost s = self.items@;
        match self.find(key) {
            None => {
                proof {
                    lemma_key_index_bounds(s, key@);
                    assert(entries_map(s).remove(key@) =~= entries_map(s));
                }
                None
            },
            Some(i) => {
                let mut items = Vec::new();
                std::mem::swap(&mut items, &mut self.items);
                let (_, v) = items.remove(i);
                proof {
                    let t = items@;
                    assert(t =~= s.remove(i as int));
                    assert(sorted_keys(t)) by {
                        assert forall|a: int, b: int| 0 <= a < b < t.len() implies seq_lt(
                            #[trigger] t[a].0@,
                            #[trigger] t[b].0@,
                        ) by {
                            let a2 = if a < i { a } else { a + 1 };
                            let b2 = if b < i { b } else { b + 1 };
                            assert(t[a] == s[a2]);
                            assert(t[b] == s[b2]);
                        }
                    }
                }
                self.items = items;
                proof {
                    let t = self.items@;
                    let m0 = entries_map(s);
                    let m1 = entries_map(t);
                    lemma_key_index_at(s, i as int);
                    assert forall|q: Seq<char>| #![auto] m1.contains_key(q) <==> m0.remove(key@).contains_key(q) by {
                        lemma_entries_map(s, q);
                        lemma_entries_map(t, q);
                        if m1.contains_key(q) {
                            let j = choose|j: int| 0 <= j < t.len() && (#[trigger] t[j]).0@ == q;
                            let j2 = if j < i { j } else { j + 1 };
                            assert(t[j] == s[j2]);
                            lemma_key_index_at(s, j2);
                        }
                        if m0.remove(key@).contains_key(q) {
                            let j = choose|j: int| 0 <= j < s.len() && (#[trigger] s[j]).0@ == q;
                            lemma_key_index_at(s, j);
                            assert(j != i);
                            let j2 = if j < i { j } else { j - 1 };
                            assert(t[j2] == s[j]);
                        }
                    }
                    assert forall|q: Seq<char>| m1.contains_key(q) implies m1[q] == m0.remove(key@)[q] by {
                        lemma_entries_map(s, q);
                        lemma_entries_map(t, q);
                        let j = choose|j: int| 0 <= j < t.len() && (#[trigger] t[j]).0@ == q;
                        let j2 = if j < i { j } else { j + 1 };
                        assert(t[j] == s[j2]);
                        lemma_key_index_at(s, j2);
                    }
                    assert(m1 =~= m0.remove(key@));
                }
                Some(v)
            },
        }
    }
}

} // verus!
