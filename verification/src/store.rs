//! Association vectors and element vectors with set/map abstractions.
//!
//! Both services keep their tables as vectors of key/value pairs with
//! pairwise-distinct keys, abstracted in specifications as a [`Map`] from key
//! views to values, and their secondary indexes as vectors of distinct
//! elements, abstracted as a [`Set`] of element views.

use vstd::prelude::*;

verus! {

use vstd::map::*;

/// A key of an association vector: comparable and clonable by view.
pub trait AssocKey: View + Sized {
    /// Decides equality of the views.
    fn key_eq(&self, other: &Self) -> (r: bool)
        ensures
            r == (self@ == other@),
    ;

    /// Clones the key, preserving the view.
    fn key_clone(&self) -> (r: Self)
        ensures
            r@ == self@,
    ;
}

impl AssocKey for String {
    fn key_eq(&self, other: &Self) -> (r: bool) {
        self.eq(other)
    }

    fn key_clone(&self) -> (r: Self) {
        self.clone()
    }
}

impl AssocKey for u64 {
    fn key_eq(&self, other: &Self) -> (r: bool) {
        *self == *other
    }

    fn key_clone(&self) -> (r: Self) {
        *self
    }
}

/// The key views of an association, in storage order.
pub open spec fn key_seq<K: AssocKey, V>(s: Seq<(K, V)>) -> Seq<K::V> {
    s.map_values(|p: (K, V)| p.0@)
}

/// Whether all keys of the association are pairwise distinct.
pub open spec fn keys_distinct<K: AssocKey, V>(s: Seq<(K, V)>) -> bool {
    key_seq(s).no_duplicates()
}

/// Whether the association holds the key view `k`.
pub open spec fn has_key<K: AssocKey, V>(s: Seq<(K, V)>, k: K::V) -> bool {
    exists|i: int| 0 <= i < s.len() && s[i].0@ == k
}

/// An index at which the association holds the key view `k`.
pub open spec fn index_of_key<K: AssocKey, V>(s: Seq<(K, V)>, k: K::V) -> int {
    choose|i: int| 0 <= i < s.len() && s[i].0@ == k
}

/// The association abstracted as a map from key views to values.
pub open spec fn amap<K: AssocKey, V>(s: Seq<(K, V)>) -> Map<K::V, V> {
    Map::new(|k: K::V| has_key(s, k), |k: K::V| s[index_of_key(s, k)].1)
}

/// With distinct keys, the entry at any index is the map entry of its key.
pub proof fn lemma_amap_index<K: AssocKey, V>(s: Seq<(K, V)>, i: int)
    requires
        keys_distinct(s),
        0 <= i < s.len(),
    ensures
        amap(s).contains_key(s[i].0@),
        amap(s)[s[i].0@] == s[i].1,
{
    let k = s[i].0@;
    assert(has_key(s, k));
    let j = index_of_key(s, k);
    assert(key_seq(s)[i] == k && key_seq(s)[j] == k);
}

/// Distinct keys make the abstraction injective on indexes.
pub proof fn lemma_key_at_index_unique<K: AssocKey, V>(s: Seq<(K, V)>, i: int, j: int)
    requires
        keys_distinct(s),
        0 <= i < s.len(),
        0 <= j < s.len(),
        s[i].0@ == s[j].0@,
    ensures
        i == j,
{
    assert(key_seq(s)[i] == s[i].0@ && key_seq(s)[j] == s[j].0@);
}

/// Appending a fresh key inserts its entry into the abstraction.
pub proof fn lemma_amap_push<K: AssocKey, V>(s: Seq<(K, V)>, p: (K, V))
    requires
        keys_distinct(s),
        !has_key(s, p.0@),
    ensures
        keys_distinct(s.push(p)),
        amap(s.push(p)) == amap(s).insert(p.0@, p.1),
{
    let t = s.push(p);
    assert forall|i: int, j: int|
        0 <= i < j < key_seq(t).len() implies key_seq(t)[i] != key_seq(t)[j] by {
        assert(key_seq(t)[i] == t[i].0@ && key_seq(t)[j] == t[j].0@);
        if j < s.len() {
            assert(key_seq(s)[i] == s[i].0@ && key_seq(s)[j] == s[j].0@);
        } else {
            assert(t[j].0@ == p.0@);
            assert(t[i].0@ == s[i].0@);
        }
    }
    assert forall|k: K::V| #[trigger] amap(t).contains_key(k) implies amap(s).insert(
        p.0@,
        p.1,
    ).contains_key(k) && amap(t)[k] == amap(s).insert(p.0@, p.1)[k] by {
        let i = index_of_key(t, k);
        if i < s.len() {
            assert(s[i].0@ == k);
            assert(has_key(s, k));
            if k == p.0@ {
                assert(false);
            }
            lemma_amap_index(s, i);
            lemma_key_at_index_unique(t, i, index_of_key(t, k));
        } else {
            assert(t[i] == p);
            if has_key(s, k) {
                let j = index_of_key(s, k);
                assert(t[j].0@ == k);
                assert(false);
            }
        }
    }
    assert forall|k: K::V| #[trigger] amap(s).insert(p.0@, p.1).contains_key(k) implies amap(
        t,
    ).contains_key(k) by {
        if k == p.0@ {
            assert(t[s.len() as int].0@ == k);
        } else {
            let j = index_of_key(s, k);
            assert(t[j].0@ == k);
        }
    }
    assert(amap(t) =~= amap(s).insert(p.0@, p.1));
}

/// Replacing the entry at an index, keeping its key, updates the abstraction.
pub proof fn lemma_amap_update<K: AssocKey, V>(s: Seq<(K, V)>, i: int, p: (K, V))
    requires
        keys_distinct(s),
        0 <= i < s.len(),
        p.0@ == s[i].0@,
    ensures
        keys_distinct(s.update(i, p)),
        amap(s.update(i, p)) == amap(s).insert(p.0@, p.1),
{
    let t = s.update(i, p);
    assert(key_seq(t) =~= key_seq(s)) by {
        assert forall|m: int| 0 <= m < s.len() implies key_seq(t)[m] == key_seq(s)[m] by {
            assert(key_seq(t)[m] == t[m].0@ && key_seq(s)[m] == s[m].0@);
        }
    }
    assert forall|k: K::V| #[trigger] has_key(t, k) == has_key(s, k) by {
        if has_key(t, k) {
            let m = index_of_key(t, k);
            assert(s[if m == i { i } else { m }].0@ == k);
        }
        if has_key(s, k) {
            let m = index_of_key(s, k);
            assert(t[if m == i { i } else { m }].0@ == k);
        }
    }
    assert forall|k: K::V| #[trigger] amap(t).contains_key(k) implies amap(t)[k] == amap(s).insert(
        p.0@,
        p.1,
    )[k] by {
        let m = index_of_key(t, k);
        assert(t[m].0@ == k);
        lemma_key_at_index_unique(t, m, m);
        if k == p.0@ {
            lemma_key_at_index_unique(t, m, i);
        } else {
            assert(m != i);
            assert(s[m].0@ == k);
            lemma_amap_index(s, m);
            lemma_key_at_index_unique(t, m, index_of_key(t, k));
        }
    }
    assert(amap(t) =~= amap(s).insert(p.0@, p.1));
}

/// Removing the entry at an index removes its key from the abstraction.
pub proof fn lemma_amap_remove<K: AssocKey, V>(s: Seq<(K, V)>, i: int)
    requires
        keys_distinct(s),
        0 <= i < s.len(),
    ensures
        keys_distinct(s.remove(i)),
        amap(s.remove(i)) == amap(s).remove(s[i].0@),
{
    let t = s.remove(i);
    let shift = |m: int| if m < i { m } else { m + 1 };
    assert forall|m: int| 0 <= m < t.len() implies t[m] == s[shift(m)] by {}
    assert forall|m: int, n: int|
        0 <= m < n < key_seq(t).len() implies key_seq(t)[m] != key_seq(t)[n] by {
        assert(key_seq(t)[m] == t[m].0@ && key_seq(t)[n] == t[n].0@);
        assert(key_seq(s)[shift(m)] == s[shift(m)].0@ && key_seq(s)[shift(n)] == s[shift(n)].0@);
    }
    assert forall|k: K::V| #[trigger] amap(t).contains_key(k) implies amap(s).remove(
        s[i].0@,
    ).contains_key(k) && amap(t)[k] == amap(s).remove(s[i].0@)[k] by {
        let m = index_of_key(t, k);
        assert(t[m].0@ == k);
        assert(s[shift(m)].0@ == k);
        assert(has_key(s, k));
        lemma_amap_index(s, shift(m));
        if k == s[i].0@ {
            lemma_key_at_index_unique(s, shift(m), i);
            assert(false);
        }
    }
    assert forall|k: K::V| #[trigger] amap(s).remove(s[i].0@).contains_key(k) implies amap(
        t,
    ).contains_key(k) by {
        let m = index_of_key(s, k);
        assert(s[m].0@ == k);
        lemma_key_at_index_unique(s, m, m);
        assert(m != i);
        if m < i {
            assert(t[m].0@ == k);
        } else {
            assert(t[m - 1].0@ == k);
        }
    }
    assert(amap(t) =~= amap(s).remove(s[i].0@));
}

/// With distinct keys, the abstraction has as many entries as the vector.
pub proof fn lemma_amap_len<K: AssocKey, V>(s: Seq<(K, V)>)
    requires
        keys_distinct(s),
    ensures
        amap(s).dom().finite(),
        amap(s).dom().len() == s.len(),
    decreases s.len(),
{
    if s.len() == 0 {
        assert(amap(s).dom() =~= Set::<K::V>::empty());
    } else {
        let i = s.len() - 1;
        lemma_amap_remove(s, i);
        lemma_amap_len(s.remove(i));
        lemma_amap_index(s, i);
        assert(amap(s).dom().remove(s[i].0@) =~= amap(s.remove(i)).dom());
        assert(amap(s).dom() =~= amap(s.remove(i)).dom().insert(s[i].0@));
    }
}

/// Finds the position of key `k` in the association vector.
pub fn find_key<K: AssocKey, V>(v: &Vec<(K, V)>, k: &K) -> (r: Option<usize>)
    ensures
        match r {
            Some(i) => i < v@.len() && v@[i as int].0@ == k@,
            None => !has_key(v@, k@),
        },
{
    let n = v.len();
    let mut i: usize = 0;
    while i < n
        invariant
            i <= n,
            n == v@.len(),
            forall|j: int| 0 <= j < i ==> v@[j].0@ != k@,
        decreases n - i,
    {
        if v[i].0.key_eq(k) {
            return Some(i);
        }
        i += 1;
    }
    None
}

/// A map of values abstracted to a map of their views.
pub open spec fn vmap<K, V: View>(m: Map<K, V>) -> Map<K, V::V> {
    Map::new(|k: K| m.contains_key(k), |k: K| m[k]@)
}

/// Inserting a value inserts its view.
pub proof fn lemma_vmap_insert<K, V: View>(m: Map<K, V>, k: K, v: V)
    ensures
        vmap(m.insert(k, v)) == vmap(m).insert(k, v@),
{
    assert(vmap(m.insert(k, v)) =~= vmap(m).insert(k, v@));
}

/// Removing a value removes its view.
pub proof fn lemma_vmap_remove<K, V: View>(m: Map<K, V>, k: K)
    ensures
        vmap(m.remove(k)) == vmap(m).remove(k),
{
    assert(vmap(m.remove(k)) =~= vmap(m).remove(k));
}

/// The element views of a vector, in storage order.
pub open spec fn elem_seq<K: AssocKey>(s: Seq<K>) -> Seq<K::V> {
    s.map_values(|e: K| e@)
}

/// Whether all element views are pairwise distinct.
pub open spec fn elems_distinct<K: AssocKey>(s: Seq<K>) -> bool {
    elem_seq(s).no_duplicates()
}

/// The vector abstracted as a set of element views.
pub open spec fn eset<K: AssocKey>(s: Seq<K>) -> Set<K::V> {
    elem_seq(s).to_set()
}

/// Finds the position of element `k` in the vector.
pub fn find_elem<K: AssocKey>(v: &Vec<K>, k: &K) -> (r: Option<usize>)
    ensures
        match r {
            Some(i) => i < v@.len() && v@[i as int]@ == k@ && eset(v@).contains(k@),
            None => !eset(v@).contains(k@),
        },
{
    let n = v.len();
    let mut i: usize = 0;
    while i < n
        invariant
            i <= n,
            n == v@.len(),
            forall|j: int| 0 <= j < i ==> v@[j]@ != k@,
        decreases n - i,
    {
        if v[i].key_eq(k) {
            proof {
                assert(elem_seq(v@)[i as int] == v@[i as int]@);
            }
            return Some(i);
        }
        i += 1;
    }
    proof {
        if eset(v@).contains(k@) {
            let j = choose|j: int| 0 <= j < elem_seq(v@).len() && elem_seq(v@)[j] == k@;
            assert(v@[j]@ == k@);
        }
    }
    None
}

/// Adds `k` to the element vector if it is not yet present.
pub fn elem_insert<K: AssocKey>(v: &mut Vec<K>, k: K)
    requires
        elems_distinct(old(v)@),
    ensures
        elems_distinct(final(v)@),
        eset(final(v)@) == eset(old(v)@).insert(k@),
{
    let present = find_elem(v, &k).is_some();
    if !present {
        v.push(k);
        proof {
            lemma_eset_push(old(v)@, k);
        }
    } else {
        proof {
            assert(eset(v@) =~= eset(v@).insert(k@));
        }
    }
}

/// Removes `k` from the element vector, reporting whether it was present.
pub fn elem_remove<K: AssocKey>(v: &mut Vec<K>, k: &K) -> (r: bool)
    requires
        elems_distinct(old(v)@),
    ensures
        elems_distinct(final(v)@),
        eset(final(v)@) == eset(old(v)@).remove(k@),
        r == eset(old(v)@).contains(k@),
{
    match find_elem(v, k) {
        Some(i) => {
            v.remove(i);
            proof {
                lemma_eset_remove(old(v)@, i as int);
            }
            true
        },
        None => {
            proof {
                assert(eset(v@) =~= eset(v@).remove(k@));
            }
            false
        },
    }
}

/// Appending a fresh element inserts its view into the abstraction.
pub proof fn lemma_eset_push<K: AssocKey>(s: Seq<K>, k: K)
    requires
        elems_distinct(s),
        !eset(s).contains(k@),
    ensures
        elems_distinct(s.push(k)),
        eset(s.push(k)) == eset(s).insert(k@),
{
    let t = s.push(k);
    assert forall|m: int| 0 <= m < t.len() implies elem_seq(t)[m] == elem_seq(s).push(k@)[m] by {
        assert(elem_seq(t)[m] == t[m]@);
        if m < s.len() {
            assert(elem_seq(s)[m] == s[m]@);
        }
    }
    assert(elem_seq(t) =~= elem_seq(s).push(k@));
    assert forall|m: int, n: int|
        0 <= m < n < elem_seq(t).len() implies elem_seq(t)[m] != elem_seq(t)[n] by {
        if n < s.len() {
        } else {
            assert(elem_seq(t)[n] == k@);
            assert(eset(s).contains(elem_seq(s)[m])) by {
                assert(elem_seq(s).contains(elem_seq(s)[m]));
            }
        }
    }
    assert forall|x: K::V| #[trigger] eset(t).contains(x) implies eset(s).insert(k@).contains(
        x,
    ) by {
        let m = choose|m: int| 0 <= m < elem_seq(t).len() && elem_seq(t)[m] == x;
        if m < s.len() {
            assert(elem_seq(s).contains(x));
        }
    }
    assert forall|x: K::V| #[trigger] eset(s).insert(k@).contains(x) implies eset(t).contains(
        x,
    ) by {
        if x == k@ {
            assert(elem_seq(t)[s.len() as int] == x);
            assert(elem_seq(t).contains(x));
        } else {
            let m = choose|m: int| 0 <= m < elem_seq(s).len() && elem_seq(s)[m] == x;
            assert(elem_seq(t)[m] == x);
            assert(elem_seq(t).contains(x));
        }
    }
    assert(eset(t) =~= eset(s).insert(k@));
}

/// Removing the element at an index removes its view from the abstraction.
pub proof fn lemma_eset_remove<K: AssocKey>(s: Seq<K>, i: int)
    requires
        elems_distinct(s),
        0 <= i < s.len(),
    ensures
        elems_distinct(s.remove(i)),
        eset(s.remove(i)) == eset(s).remove(s[i]@),
{
    let t = s.remove(i);
    let shift = |m: int| if m < i { m } else { m + 1 };
    assert forall|m: int| 0 <= m < t.len() implies elem_seq(t)[m] == elem_seq(s)[shift(m)] by {
        assert(elem_seq(t)[m] == t[m]@ && elem_seq(s)[shift(m)] == s[shift(m)]@);
    }
    assert forall|m: int, n: int|
        0 <= m < n < elem_seq(t).len() implies elem_seq(t)[m] != elem_seq(t)[n] by {}
    assert forall|x: K::V| #[trigger] eset(t).contains(x) implies eset(s).remove(s[i]@).contains(
        x,
    ) by {
        let m = choose|m: int| 0 <= m < elem_seq(t).len() && elem_seq(t)[m] == x;
        assert(elem_seq(s)[shift(m)] == x);
        assert(elem_seq(s).contains(x));
        if x == s[i]@ {
            assert(elem_seq(s)[i] == s[i]@);
        }
    }
    assert forall|x: K::V| #[trigger] eset(s).remove(s[i]@).contains(x) implies eset(t).contains(
        x,
    ) by {
        let m = choose|m: int| 0 <= m < elem_seq(s).len() && elem_seq(s)[m] == x;
        assert(elem_seq(s)[i] == s[i]@);
        assert(m != i);
        if m < i {
            assert(elem_seq(t)[m] == x);
        } else {
            assert(elem_seq(t)[m - 1] == x);
        }
        assert(elem_seq(t).contains(x));
    }
    assert(eset(t) =~= eset(s).remove(s[i]@));
}

/// An association from keys to element vectors, abstracted at `k` as the set
/// of element views listed under `k` (empty when `k` is absent).
pub open spec fn set_map<K1: AssocKey, K2: AssocKey>(s: Seq<(K1, Vec<K2>)>, k: K1::V) -> Set<
    K2::V,
> {
    if amap(s).contains_key(k) {
        eset(amap(s)[k]@)
    } else {
        Set::empty()
    }
}

/// Whether a set-valued association is well-formed: distinct keys, and
/// distinct elements under every key.
pub open spec fn set_map_wf<K1: AssocKey, K2: AssocKey>(s: Seq<(K1, Vec<K2>)>) -> bool {
    keys_distinct(s) && forall|k: K1::V| #[trigger]
        amap(s).contains_key(k) ==> elems_distinct(amap(s)[k]@)
}

/// Adds `elem` to the set listed under `key`, creating the entry if absent.
pub fn assoc_set_insert<K1: AssocKey, K2: AssocKey>(
    m: &mut Vec<(K1, Vec<K2>)>,
    key: &K1,
    elem: K2,
)
    requires
        set_map_wf(old(m)@),
    ensures
        set_map_wf(final(m)@),
        forall|k: K1::V| #[trigger]
            set_map(final(m)@, k) == if k == key@ {
                set_map(old(m)@, k).insert(elem@)
            } else {
                set_map(old(m)@, k)
            },
{
    let ghost before = m@;
    match find_key(m, key) {
        Some(i) => {
            proof {
                lemma_amap_index(before, i as int);
                lemma_amap_remove(before, i as int);
            }
            let mut entry = m.remove(i);
            elem_insert(&mut entry.1, elem);
            let ghost mid = m@;
            let ghost newval = entry.1;
            proof {
                assert(mid == before.remove(i as int));
                assert(before[i as int].0@ == key@);
                assert(amap(mid) == amap(before).remove(key@));
                assert(!amap(mid).contains_key(key@));
                assert(!has_key(mid, key@));
            }
            m.push(entry);
            proof {
                assert(m@ == mid.push((before[i as int].0, newval)));
                lemma_amap_push(mid, (before[i as int].0, newval));
                assert(amap(m@) =~= amap(before).insert(key@, newval));
                assert forall|k: K1::V| #[trigger]
                    set_map(m@, k) == if k == key@ {
                        set_map(before, k).insert(elem@)
                    } else {
                        set_map(before, k)
                    } by {
                    if k == key@ {
                        assert(amap(m@)[k] == newval);
                        assert(amap(before)[k] == before[i as int].1);
                        assert(eset(newval@) == eset(before[i as int].1@).insert(elem@));
                    } else {
                        if amap(m@).contains_key(k) {
                            assert(amap(m@)[k] == amap(before)[k]);
                        }
                    }
                }
                assert forall|k: K1::V| #[trigger]
                    amap(m@).contains_key(k) implies elems_distinct(amap(m@)[k]@) by {
                    if k != key@ {
                        assert(amap(m@)[k] == amap(before)[k]);
                    }
                }
            }
        },
        None => {
            let mut fresh: Vec<K2> = Vec::new();
            fresh.push(elem);
            let ghost freshval = fresh;
            proof {
                assert(elem_seq(freshval@).len() == 1 && elem_seq(freshval@)[0] == elem@);
                assert forall|x: K2::V| #[trigger]
                    eset(freshval@).contains(x) implies x == elem@ by {
                    let j = choose|j: int|
                        0 <= j < elem_seq(freshval@).len() && elem_seq(freshval@)[j] == x;
                }
                assert(eset(freshval@).contains(elem@)) by {
                    assert(elem_seq(freshval@).contains(elem@)) by {
                        assert(elem_seq(freshval@)[0] == elem@);
                    }
                }
                assert(eset(freshval@) =~= Set::empty().insert(elem@));
                assert(elems_distinct(freshval@));
            }
            m.push((key.key_clone(), fresh));
            proof {
                assert(m@.last().0@ == key@ && m@.last().1 == freshval);
                assert(m@.drop_last() =~= before);
                assert(m@ == before.push(m@.last()));
                lemma_amap_push(before, m@.last());
                assert(amap(m@) =~= amap(before).insert(key@, freshval));
                assert forall|k: K1::V| #[trigger]
                    set_map(m@, k) == if k == key@ {
                        set_map(before, k).insert(elem@)
                    } else {
                        set_map(before, k)
                    } by {
                    if k == key@ {
                        assert(set_map(before, k) =~= Set::empty());
                        assert(set_map(m@, k) == eset(freshval@));
                    } else {
                        if amap(m@).contains_key(k) {
                            assert(amap(m@)[k] == amap(before)[k]);
                        }
                    }
                }
                assert forall|k: K1::V| #[trigger]
                    amap(m@).contains_key(k) implies elems_distinct(amap(m@)[k]@) by {
                    if k != key@ {
                        assert(amap(m@)[k] == amap(before)[k]);
                    }
                }
            }
        },
    }
}

/// Removes `elem` from the set listed under `key`, reporting whether it was
/// there.  An entry left empty stays, listing the empty set.
pub fn assoc_set_remove<K1: AssocKey, K2: AssocKey>(
    m: &mut Vec<(K1, Vec<K2>)>,
    key: &K1,
    elem: &K2,
) -> (r: bool)
    requires
        set_map_wf(old(m)@),
    ensures
        set_map_wf(final(m)@),
        r == set_map(old(m)@, key@).contains(elem@),
        forall|k: K1::V| #[trigger]
            set_map(final(m)@, k) == if k == key@ {
                set_map(old(m)@, k).remove(elem@)
            } else {
                set_map(old(m)@, k)
            },
{
    let ghost before = m@;
    match find_key(m, key) {
        Some(i) => {
            proof {
                lemma_amap_index(before, i as int);
                lemma_amap_remove(before, i as int);
            }
            let mut entry = m.remove(i);
            let r = elem_remove(&mut entry.1, elem);
            let ghost mid = m@;
            let ghost newval = entry.1;
            proof {
                assert(mid == before.remove(i as int));
                assert(before[i as int].0@ == key@);
                assert(amap(mid) == amap(before).remove(key@));
                assert(!amap(mid).contains_key(key@));
                assert(!has_key(mid, key@));
            }
            m.push(entry);
            proof {
                assert(m@ == mid.push((before[i as int].0, newval)));
                lemma_amap_push(mid, (before[i as int].0, newval));
                assert(amap(m@) =~= amap(before).insert(key@, newval));
                assert forall|k: K1::V| #[trigger]
                    set_map(m@, k) == if k == key@ {
                        set_map(before, k).remove(elem@)
                    } else {
                        set_map(before, k)
                    } by {
                    if k == key@ {
                        assert(amap(m@)[k] == newval);
                        assert(amap(before)[k] == before[i as int].1);
                        assert(eset(newval@) == eset(before[i as int].1@).remove(elem@));
                    } else {
                        if amap(m@).contains_key(k) {
                            assert(amap(m@)[k] == amap(before)[k]);
                        }
                    }
                }
                assert forall|k: K1::V| #[trigger]
                    amap(m@).contains_key(k) implies elems_distinct(amap(m@)[k]@) by {
                    if k != key@ {
                        assert(amap(m@)[k] == amap(before)[k]);
                    }
                }
            }
            r
        },
        None => {
            proof {
                assert forall|k: K1::V| #[trigger]
                    set_map(m@, k) == if k == key@ {
                        set_map(before, k).remove(elem@)
                    } else {
                        set_map(before, k)
                    } by {
                    if k == key@ {
                        assert(set_map(before, k) =~= set_map(before, k).remove(elem@));
                    }
                }
            }
            false
        },
    }
}

/// With distinct elements, the abstraction has as many members as the vector.
pub proof fn lemma_eset_len<K: AssocKey>(s: Seq<K>)
    requires
        elems_distinct(s),
    ensures
        eset(s).finite(),
        eset(s).len() == s.len(),
{
    elem_seq(s).unique_seq_to_set();
}

} // verus!
