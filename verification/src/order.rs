//! Orderings and searches used by the catalogs: byte-wise string order,
//! stable insertion sort and first-match search.

use crate::text::chars_of;
use vstd::prelude::*;

verus! {

broadcast use vstd::string::group_string_axioms;

/// `a` sorts strictly before `b` in lexicographic code-point order, the order
/// of `str`'s `Ord` (code-point order equals UTF-8 byte order).
pub open spec fn seq_lt(a: Seq<char>, b: Seq<char>) -> bool
    decreases a.len(),
{
    if b.len() == 0 {
        false
    } else if a.len() == 0 {
        true
    } else if a[0] < b[0] {
        true
    } else if a[0] > b[0] {
        false
    } else {
        seq_lt(a.drop_first(), b.drop_first())
    }
}

/// No string sorts before itself.
pub proof fn lemma_seq_lt_irreflexive(a: Seq<char>)
    ensures
        !seq_lt(a, a),
    decreases a.len(),
{
    if a.len() > 0 {
        lemma_seq_lt_irreflexive(a.drop_first());
    }
}

/// Lexicographic order is total on distinct strings.
pub proof fn lemma_seq_lt_total(a: Seq<char>, b: Seq<char>)
    ensures
        a != b ==> seq_lt(a, b) || seq_lt(b, a),
        !(seq_lt(a, b) && seq_lt(b, a)),
    decreases a.len(),
{
    if a.len() == 0 && b.len() == 0 {
        assert(a =~= b);
    }
    if a.len() > 0 && b.len() > 0 {
        lemma_seq_lt_total(a.drop_first(), b.drop_first());
        if a[0] == b[0] && a.drop_first() == b.drop_first() {
            assert(a == seq![a[0]] + a.drop_first());
            assert(b == seq![b[0]] + b.drop_first());
        }
    }
}

/// Lexicographic order is transitive.
pub proof fn lemma_seq_lt_transitive(a: Seq<char>, b: Seq<char>, c: Seq<char>)
    requires
        seq_lt(a, b),
        seq_lt(b, c),
    ensures
        seq_lt(a, c),
    decreases a.len(),
{
    if a.len() > 0 && b.len() > 0 && c.len() > 0 {
        if a[0] == b[0] && b[0] == c[0] {
            lemma_seq_lt_transitive(a.drop_first(), b.drop_first(), c.drop_first());
        }
    }
}

/// Whether `a` sorts strictly before `b`.
pub fn str_lt(a: &str, b: &str) -> (r: bool)
    ensures
        r == seq_lt(a@, b@),
{
    let va = chars_of(a);
    let vb = chars_of(b);
    let mut i: usize = 0;
    assert(a@.skip(0) == a@);
    assert(b@.skip(0) == b@);
    while i < va.len() && i < vb.len() && va[i] == vb[i]
        invariant
            va@ == a@,
            vb@ == b@,
            i <= va@.len(),
            i <= vb@.len(),
            seq_lt(a@, b@) == seq_lt(a@.skip(i as int), b@.skip(i as int)),
        decreases va@.len() - i,
    {
        assert(a@.skip(i as int).drop_first() == a@.skip(i + 1));
        assert(b@.skip(i as int).drop_first() == b@.skip(i + 1));
        i = i + 1;
    }
    assert(a@.skip(i as int).len() == va@.len() - i);
    assert(b@.skip(i as int).len() == vb@.len() - i);
    if i < va.len() && i < vb.len() {
        proof {
        assert(a@.skip(i as int)[0] == va@[i as int]);
        assert(b@.skip(i as int)[0] == vb@[i as int]);
        assert(va@[i as int] != vb@[i as int]);
        }
    }
    if i == vb.len() {
        false
    } else if i == va.len() {
        true
    } else {
        va[i] < vb[i]
    }
}

/// Index of the first element of `s` satisfying `f`, or -1.
pub open spec fn first_index<T>(s: Seq<T>, f: spec_fn(T) -> bool) -> int
    decreases s.len(),
{
    if s.len() == 0 {
        -1
    } else if f(s[0]) {
        0
    } else {
        let r = first_index(s.drop_first(), f);
        if r < 0 {
            -1
        } else {
            r + 1
        }
    }
}

/// `first_index` is the least index satisfying `f`, or -1 when none does.
pub proof fn lemma_first_index<T>(s: Seq<T>, f: spec_fn(T) -> bool)
    ensures
        -1 <= first_index(s, f) < s.len(),
        first_index(s, f) >= 0 ==> f(s[first_index(s, f)]),
        forall|j: int| 0 <= j < s.len() && (first_index(s, f) < 0 || j < first_index(s, f)) ==> !f(
            #[trigger] s[j],
        ),
    decreases s.len(),
{
    if s.len() > 0 && !f(s[0]) {
        lemma_first_index(s.drop_first(), f);
        assert forall|j: int|
            0 <= j < s.len() && (first_index(s, f) < 0 || j < first_index(s, f)) implies !f(
            #[trigger] s[j],
        ) by {
            if j > 0 {
                assert(s[j] == s.drop_first()[j - 1]);
            }
        }
    }
}

/// The first index satisfying `f` is `i` when `f` holds at `i` and nowhere before.
pub proof fn lemma_first_index_is<T>(s: Seq<T>, f: spec_fn(T) -> bool, i: int)
    requires
        0 <= i < s.len(),
        f(s[i]),
        forall|j: int| 0 <= j < i ==> !f(#[trigger] s[j]),
    ensures
        first_index(s, f) == i,
{
    lemma_first_index(s, f);
    let k = first_index(s, f);
    if k < 0 || k > i {
        assert(!f(s[i]));
    }
    if 0 <= k < i {
        assert(!f(s[k]));
    }
}

/// No index satisfies `f`, so the first index is -1.
pub proof fn lemma_first_index_none<T>(s: Seq<T>, f: spec_fn(T) -> bool)
    requires
        forall|j: int| 0 <= j < s.len() ==> !f(#[trigger] s[j]),
    ensures
        first_index(s, f) == -1,
{
    lemma_first_index(s, f);
    if first_index(s, f) >= 0 {
        assert(f(s[first_index(s, f)]));
    }
}

/// Types that a catalog keeps in a fixed order.
pub trait Ordered: Sized {
    /// `a` must be placed before `b`.
    spec fn precedes(a: Self, b: Self) -> bool;

    fn goes_before(&self, other: &Self) -> (r: bool)
        ensures
            r == Self::precedes(*self, *other),
    ;
}

/// `x` placed into `s` after every element it does not precede.
pub open spec fn insert_sorted<T: Ordered>(s: Seq<T>, x: T) -> Seq<T>
    decreases s.len(),
{
    if s.len() > 0 && T::precedes(x, s.last()) {
        insert_sorted(s.drop_last(), x).push(s.last())
    } else {
        s.push(x)
    }
}

/// Stable sort: elements are taken in order and each is placed after every
/// element already placed that it does not precede.
pub open spec fn sort_stable<T: Ordered>(s: Seq<T>) -> Seq<T>
    decreases s.len(),
{
    if s.len() == 0 {
        Seq::empty()
    } else {
        insert_sorted(sort_stable(s.drop_last()), s.last())
    }
}

/// `x` placed into `s` after every element that it does not precede under `lt`.
pub open spec fn insert_by<V>(s: Seq<V>, x: V, lt: spec_fn(V, V) -> bool) -> Seq<V>
    decreases s.len(),
{
    if s.len() > 0 && lt(x, s.last()) {
        insert_by(s.drop_last(), x, lt).push(s.last())
    } else {
        s.push(x)
    }
}

/// Stable insertion sort of `s` under the strict order `lt`.
pub open spec fn sort_by<V>(s: Seq<V>, lt: spec_fn(V, V) -> bool) -> Seq<V>
    decreases s.len(),
{
    if s.len() == 0 {
        Seq::empty()
    } else {
        insert_by(sort_by(s.drop_last(), lt), s.last(), lt)
    }
}

/// Inserting `x` adds exactly `x` to what the list holds.
pub proof fn lemma_insert_by_contains<V>(s: Seq<V>, x: V, lt: spec_fn(V, V) -> bool, y: V)
    ensures
        insert_by(s, x, lt).len() == s.len() + 1,
        insert_by(s, x, lt).contains(y) <==> (s.contains(y) || y == x),
    decreases s.len(),
{
    if s.len() > 0 && lt(x, s.last()) {
        let t = insert_by(s.drop_last(), x, lt);
        lemma_insert_by_contains(s.drop_last(), x, lt, y);
        assert(s == s.drop_last().push(s.last()));
        if t.push(s.last()).contains(y) {
            let k = choose|k: int| 0 <= k < t.len() + 1 && t.push(s.last())[k] == y;
            if k < t.len() {
                assert(t.contains(y));
            }
        }
        if s.contains(y) {
            let k = choose|k: int| 0 <= k < s.len() && s[k] == y;
            if k < s.len() - 1 {
                assert(s.drop_last().contains(y));
                let k2 = choose|k2: int| 0 <= k2 < t.len() && t[k2] == y;
                assert(t.push(s.last())[k2] == y);
            } else {
                assert(t.push(s.last())[t.len() as int] == y);
            }
        }
        if y == x {
            let k2 = choose|k2: int| 0 <= k2 < t.len() && t[k2] == y;
            assert(t.push(s.last())[k2] == y);
        }
    } else {
        if s.push(x).contains(y) {
            let k = choose|k: int| 0 <= k < s.len() + 1 && s.push(x)[k] == y;
            if k < s.len() {
                assert(s[k] == y);
            }
        }
        if s.contains(y) {
            let k = choose|k: int| 0 <= k < s.len() && s[k] == y;
            assert(s.push(x)[k] == y);
        }
        assert(s.push(x)[s.len() as int] == x);
    }
}

/// Sorting keeps what the list holds, and its length.
pub proof fn lemma_sort_by_contains<V>(s: Seq<V>, lt: spec_fn(V, V) -> bool, y: V)
    ensures
        sort_by(s, lt).len() == s.len(),
        sort_by(s, lt).contains(y) <==> s.contains(y),
    decreases s.len(),
{
    if s.len() > 0 {
        lemma_sort_by_contains(s.drop_last(), lt, y);
        lemma_insert_by_contains(sort_by(s.drop_last(), lt), s.last(), lt, y);
        assert(s == s.drop_last().push(s.last()));
        if s.contains(y) {
            let k = choose|k: int| 0 <= k < s.len() && s[k] == y;
            if k < s.len() - 1 {
                assert(s.drop_last()[k] == y);
            }
        }
        if s.drop_last().contains(y) {
            let k = choose|k: int| 0 <= k < s.len() - 1 && s.drop_last()[k] == y;
            assert(s[k] == y);
        }
    }
}

/// Lexicographic order on character sequences, as a closure.
pub open spec fn text_lt() -> spec_fn(Seq<char>, Seq<char>) -> bool {
    |a: Seq<char>, b: Seq<char>| seq_lt(a, b)
}

/// Order of pairs by their first component.
pub open spec fn first_lt<B>() -> spec_fn((Seq<char>, B), (Seq<char>, B)) -> bool {
    |a: (Seq<char>, B), b: (Seq<char>, B)| seq_lt(a.0, b.0)
}

/// Viewing the elements of a sequence commutes with placing one more element,
/// when the view preserves the order.
pub proof fn lemma_insert_view<T: Ordered, V>(
    s: Seq<T>,
    x: T,
    f: spec_fn(T) -> V,
    lt: spec_fn(V, V) -> bool,
)
    requires
        forall|a: T, b: T| #[trigger] T::precedes(a, b) == lt(f(a), f(b)),
    ensures
        insert_sorted(s, x).map_values(f) == insert_by(s.map_values(f), f(x), lt),
    decreases s.len(),
{
    if s.len() > 0 {
        assert(s.map_values(f).drop_last() == s.drop_last().map_values(f));
        assert(s.map_values(f).last() == f(s.last()));
        if T::precedes(x, s.last()) {
            lemma_insert_view(s.drop_last(), x, f, lt);
            assert(insert_sorted(s.drop_last(), x).push(s.last()).map_values(f)
                == insert_sorted(s.drop_last(), x).map_values(f).push(f(s.last())));
        } else {
            assert(s.push(x).map_values(f) == s.map_values(f).push(f(x)));
        }
    } else {
        assert(s.push(x).map_values(f) == s.map_values(f).push(f(x)));
    }
}

/// Viewing the elements of a sequence commutes with sorting it, when the
/// view preserves the order.
pub proof fn lemma_sort_view<T: Ordered, V>(s: Seq<T>, f: spec_fn(T) -> V, lt: spec_fn(V, V) -> bool)
    requires
        forall|a: T, b: T| #[trigger] T::precedes(a, b) == lt(f(a), f(b)),
    ensures
        sort_stable(s).map_values(f) == sort_by(s.map_values(f), lt),
    decreases s.len(),
{
    if s.len() > 0 {
        lemma_sort_view(s.drop_last(), f, lt);
        lemma_insert_view(sort_stable(s.drop_last()), s.last(), f, lt);
        assert(s.map_values(f).drop_last() == s.drop_last().map_values(f));
    } else {
        assert(s.map_values(f) == Seq::<V>::empty());
    }
}

/// `s` is ordered by `key`: no element's key sorts before the key of an
/// element earlier in `s`.
pub open spec fn ordered_by<V>(s: Seq<V>, key: spec_fn(V) -> Seq<char>) -> bool {
    forall|i: int, j: int| 0 <= i < j < s.len() ==> !seq_lt(key(s[j]), key(s[i]))
}

/// "Not before" is transitive.
proof fn lemma_not_before_trans(a: Seq<char>, b: Seq<char>, c: Seq<char>)
    requires
        !seq_lt(b, a),
        !seq_lt(c, b),
    ensures
        !seq_lt(c, a),
{
    lemma_seq_lt_total(a, b);
    if seq_lt(c, a) {
        if a != b {
            lemma_seq_lt_transitive(c, a, b);
        }
    }
}

/// Placing `x` keeps an ordered sequence ordered, and adds only `x`.
proof fn lemma_insert_by_ordered<V>(
    s: Seq<V>,
    x: V,
    lt: spec_fn(V, V) -> bool,
    key: spec_fn(V) -> Seq<char>,
)
    requires
        ordered_by(s, key),
        forall|a: V, b: V| #[trigger] lt(a, b) == seq_lt(key(a), key(b)),
    ensures
        ordered_by(insert_by(s, x, lt), key),
        insert_by(s, x, lt).len() == s.len() + 1,
        forall|i: int|
            0 <= i < insert_by(s, x, lt).len() ==> insert_by(s, x, lt)[i] == x || exists|j: int|
                0 <= j < s.len() && #[trigger] insert_by(s, x, lt)[i] == s[j],
    decreases s.len(),
{
    let r = insert_by(s, x, lt);
    if s.len() > 0 && lt(x, s.last()) {
        let d = s.drop_last();
        let l = s.last();
        assert(ordered_by(d, key));
        lemma_insert_by_ordered(d, x, lt, key);
        let r2 = insert_by(d, x, lt);
        assert(r == r2.push(l));
        assert forall|i: int| 0 <= i < r2.len() implies !seq_lt(key(l), key(#[trigger] r2[i])) by {
            if r2[i] == x {
                lemma_seq_lt_total(key(x), key(l));
            } else {
                let j = choose|j: int| 0 <= j < d.len() && r2[i] == d[j];
                assert(d[j] == s[j]);
                assert(!seq_lt(key(s[s.len() - 1]), key(s[j])));
            }
        }
        assert forall|i: int, j: int| 0 <= i < j < r.len() implies !seq_lt(
            key(r[j]),
            key(r[i]),
        ) by {
            if j == r.len() - 1 {
                assert(r[j] == l);
                assert(r[i] == r2[i]);
            } else {
                assert(r[j] == r2[j]);
                assert(r[i] == r2[i]);
            }
        }
        assert forall|i: int| 0 <= i < r.len() implies r[i] == x || exists|j: int|
            0 <= j < s.len() && #[trigger] r[i] == s[j] by {
            if i == r.len() - 1 {
                assert(r[i] == s[s.len() - 1]);
            } else {
                assert(r[i] == r2[i]);
                if r2[i] != x {
                    let j = choose|j: int| 0 <= j < d.len() && r2[i] == d[j];
                    assert(d[j] == s[j]);
                }
            }
        }
    } else {
        assert(r == s.push(x));
        assert forall|i: int, j: int| 0 <= i < j < r.len() implies !seq_lt(
            key(r[j]),
            key(r[i]),
        ) by {
            if j == r.len() - 1 {
                assert(r[j] == x);
                assert(r[i] == s[i]);
                if i < s.len() - 1 {
                    lemma_not_before_trans(key(s[i]), key(s.last()), key(x));
                }
            } else {
                assert(r[j] == s[j]);
                assert(r[i] == s[i]);
            }
        }
        assert forall|i: int| 0 <= i < r.len() implies r[i] == x || exists|j: int|
            0 <= j < s.len() && #[trigger] r[i] == s[j] by {
            if i < s.len() {
                assert(r[i] == s[i]);
            }
        }
    }
}

/// Law: sorting yields a sequence ordered by the key that the order compares,
/// with as many elements as it was given.
pub proof fn law_sorted_is_ordered<V>(s: Seq<V>, lt: spec_fn(V, V) -> bool, key: spec_fn(V) -> Seq<char>)
    requires
        forall|a: V, b: V| #[trigger] lt(a, b) == seq_lt(key(a), key(b)),
    ensures
        ordered_by(sort_by(s, lt), key),
        sort_by(s, lt).len() == s.len(),
    decreases s.len(),
{
    if s.len() > 0 {
        law_sorted_is_ordered(s.drop_last(), lt, key);
        lemma_insert_by_ordered(sort_by(s.drop_last(), lt), s.last(), lt, key);
    }
}

/// Law: the stable sort of a catalog is ordered by the key its order compares.
pub proof fn law_stable_sort_is_ordered<T: Ordered>(s: Seq<T>, key: spec_fn(T) -> Seq<char>)
    requires
        forall|a: T, b: T| #[trigger] T::precedes(a, b) == seq_lt(key(a), key(b)),
    ensures
        ordered_by(sort_stable(s), key),
        sort_stable(s).len() == s.len(),
{
    let id = |t: T| t;
    let lt = |a: T, b: T| seq_lt(key(a), key(b));
    lemma_sort_view(s, id, lt);
    assert(s.map_values(id) == s);
    assert(sort_stable(s).map_values(id) == sort_stable(s));
    law_sorted_is_ordered(s, lt, key);
}

/// Strings are kept in lexicographic order.
impl Ordered for String {
    open spec fn precedes(a: String, b: String) -> bool {
        seq_lt(a@, b@)
    }

    fn goes_before(&self, other: &String) -> (r: bool) {
        str_lt(self.as_str(), other.as_str())
    }
}

/// Named pairs are kept in lexicographic order of their names.
impl Ordered for (String, String) {
    open spec fn precedes(a: (String, String), b: (String, String)) -> bool {
        seq_lt(a.0@, b.0@)
    }

    fn goes_before(&self, other: &(String, String)) -> (r: bool) {
        str_lt(self.0.as_str(), other.0.as_str())
    }
}

/// Places `x` into `v` as `insert_sorted` describes.
pub fn insert_in_order<T: Ordered>(v: &mut Vec<T>, x: T)
    ensures
        final(v)@ == insert_sorted(old(v)@, x),
{
    let ghost s = v@;
    let mut k = v.len();
    assert(s.take(k as int) == s);
    assert(s.skip(k as int) == Seq::<T>::empty());
    while k > 0 && x.goes_before(&v[k - 1])
        invariant
            v@ == s,
            k <= s.len(),
            insert_sorted(s, x) == insert_sorted(s.take(k as int), x) + s.skip(k as int),
        decreases k,
    {
        let ghost t = s.take(k as int);
        assert(t.drop_last() == s.take(k - 1));
        assert(t.last() == s[k - 1]);
        assert(s.skip(k - 1) == seq![s[k - 1]] + s.skip(k as int));
        assert(insert_sorted(t, x) == insert_sorted(s.take(k - 1), x).push(s[k - 1]));
        assert(insert_sorted(s.take(k - 1), x).push(s[k - 1]) + s.skip(k as int)
            == insert_sorted(s.take(k - 1), x) + s.skip(k - 1));
        k = k - 1;
    }
    assert(insert_sorted(s.take(k as int), x) == s.take(k as int).push(x));
    v.insert(k, x);
    assert(v@ == s.take(k as int).push(x) + s.skip(k as int));
}

/// The elements of `items` in `sort_stable` order.
pub fn sort_in_order<T: Ordered>(items: Vec<T>) -> (r: Vec<T>)
    ensures
        r@ == sort_stable(items@),
{
    let ghost s = items@;
    let mut rest = items;
    let mut out: Vec<T> = Vec::new();
    let mut i: usize = 0;
    let n = rest.len();
    while rest.len() > 0
        invariant
            n == s.len(),
            i + rest@.len() == n,
            rest@ == s.skip(i as int),
            out@ == sort_stable(s.take(i as int)),
        decreases rest@.len(),
    {
        let x = rest.remove(0);
        assert(s.take(i + 1).drop_last() == s.take(i as int));
        assert(s.take(i + 1).last() == x);
        insert_in_order(&mut out, x);
        assert(rest@ == s.skip(i + 1));
        i = i + 1;
    }
    assert(s.take(n as int) == s);
    out
}

} // verus!
