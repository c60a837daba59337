//! Association lists: ordered (key, value) sequences read as maps in which the
//! first entry for a key wins. The library keeps its name-keyed collections
//! in this form.
use vstd::prelude::*;
use vstd::set_lib::{lemma_map_size, lemma_set_disjoint_lens};

verus! {

/// The map that an association list denotes: each key maps to the value of
/// its first entry.
pub open spec fn assoc_map<K, V>(s: Seq<(K, V)>) -> Map<K, V>
    decreases s.len(),
{
    if s.len() == 0 {
        Map::empty()
    } else {
        let m = assoc_map(s.drop_last());
        if m.contains_key(s.last().0) {
            m
        } else {
            m.insert(s.last().0, s.last().1)
        }
    }
}

/// `i` is the position of the first entry with key `k`.
pub open spec fn is_first_index<K, V>(s: Seq<(K, V)>, k: K, i: int) -> bool {
    &&& 0 <= i < s.len()
    &&& s[i].0 == k
    &&& forall|j: int| 0 <= j < i ==> s[j].0 != k
}

/// The list without any entry for `k`, in the same order.
pub open spec fn without_key<K, V>(s: Seq<(K, V)>, k: K) -> Seq<(K, V)>
    decreases s.len(),
{
    if s.len() == 0 {
        s
    } else {
        let w = without_key(s.drop_last(), k);
        if s.last().0 == k {
            w
        } else {
            w.push(s.last())
        }
    }
}

/// The keys of the entries, in order.
pub open spec fn keys_of<K, V>(s: Seq<(K, V)>) -> Seq<K> {
    s.map_values(|p: (K, V)| p.0)
}

/// A key is in the map exactly when some entry has it.
pub proof fn lemma_assoc_contains<K, V>(s: Seq<(K, V)>, k: K)
    ensures
        assoc_map(s).contains_key(k) <==> exists|i: int| 0 <= i < s.len() && s[i].0 == k,
    decreases s.len(),
{
    if s.len() > 0 {
        lemma_assoc_contains(s.drop_last(), k);
        if exists|i: int| 0 <= i < s.len() && s[i].0 == k {
            let i = choose|i: int| 0 <= i < s.len() && s[i].0 == k;
            if i < s.len() - 1 {
                assert(s.drop_last()[i].0 == k);
            }
        }
        if exists|i: int| 0 <= i < s.drop_last().len() && s.drop_last()[i].0 == k {
            let i = choose|i: int| 0 <= i < s.drop_last().len() && s.drop_last()[i].0 == k;
            assert(s[i].0 == k);
        }
    }
}

/// Every key in the map maps to the value of its first entry.
pub proof fn lemma_assoc_first<K, V>(s: Seq<(K, V)>, k: K, i: int)
    requires
        is_first_index(s, k, i),
    ensures
        assoc_map(s).contains_key(k),
        assoc_map(s)[k] == s[i].1,
    decreases s.len(),
{
    let d = s.drop_last();
    if i == s.len() - 1 {
        lemma_assoc_contains(d, k);
        if assoc_map(d).contains_key(k) {
            let j = choose|j: int| 0 <= j < d.len() && d[j].0 == k;
            assert(s[j].0 == k);
        }
    } else {
        assert(is_first_index(d, k, i));
        lemma_assoc_first(d, k, i);
    }
}

/// A key in the map has a first entry.
pub proof fn lemma_assoc_has_first<K, V>(s: Seq<(K, V)>, k: K) -> (i: int)
    requires
        assoc_map(s).contains_key(k),
    ensures
        is_first_index(s, k, i),
        assoc_map(s)[k] == s[i].1,
    decreases s.len(),
{
    let d = s.drop_last();
    if assoc_map(d).contains_key(k) {
        let i = lemma_assoc_has_first(d, k);
        assert(s[i] == d[i]);
        assert forall|j: int| 0 <= j < i implies s[j].0 != k by {
            assert(d[j] == s[j]);
        }
        lemma_assoc_first(s, k, i);
        i
    } else {
        lemma_assoc_contains(d, k);
        let i = s.len() - 1;
        assert forall|j: int| 0 <= j < i implies s[j].0 != k by {
            assert(d[j] == s[j]);
        }
        lemma_assoc_first(s, k, i);
        i
    }
}

/// Appending an entry for a new key adds it to the map.
pub proof fn lemma_assoc_push<K, V>(s: Seq<(K, V)>, k: K, v: V)
    requires
        !assoc_map(s).contains_key(k),
    ensures
        assoc_map(s.push((k, v))) == assoc_map(s).insert(k, v),
{
    assert(s.push((k, v)).drop_last() =~= s);
}

/// Replacing the value of a key's first entry replaces the key's value.
pub proof fn lemma_assoc_update<K, V>(s: Seq<(K, V)>, k: K, i: int, v: V)
    requires
        is_first_index(s, k, i),
    ensures
        assoc_map(s.update(i, (k, v))) == assoc_map(s).insert(k, v),
{
    let t = s.update(i, (k, v));
    assert forall|x: K| #[trigger] assoc_map(t).contains_key(x) <==> assoc_map(s).insert(
        k,
        v,
    ).contains_key(x) by {
        lemma_assoc_contains(t, x);
        lemma_assoc_contains(s, x);
        lemma_assoc_first(s, k, i);
        if exists|j: int| 0 <= j < s.len() && s[j].0 == x {
            let j = choose|j: int| 0 <= j < s.len() && s[j].0 == x;
            assert(t[j].0 == x);
        }
        if exists|j: int| 0 <= j < t.len() && t[j].0 == x {
            let j = choose|j: int| 0 <= j < t.len() && t[j].0 == x;
            assert(s[j].0 == x);
        }
    }
    assert forall|x: K| #[trigger] assoc_map(t).contains_key(x) implies assoc_map(t)[x]
        == assoc_map(s).insert(k, v)[x] by {
        let j = lemma_assoc_has_first(t, x);
        assert(is_first_index(s, x, j)) by {
            assert forall|m: int| 0 <= m < j implies s[m].0 != x by {
                assert(t[m].0 == s[m].0);
            }
        }
        lemma_assoc_first(s, x, j);
    }
    assert(assoc_map(t) =~= assoc_map(s).insert(k, v));
}

/// Dropping every entry for a key removes the key from the map.
pub proof fn lemma_assoc_without<K, V>(s: Seq<(K, V)>, k: K)
    ensures
        assoc_map(without_key(s, k)) == assoc_map(s).remove(k),
    decreases s.len(),
{
    if s.len() == 0 {
        assert(assoc_map(s).remove(k) =~= Map::<K, V>::empty());
    } else {
        let d = s.drop_last();
        let w = without_key(d, k);
        lemma_assoc_without(d, k);
        if s.last().0 == k {
            assert(assoc_map(s).remove(k) =~= assoc_map(d).remove(k));
        } else {
            assert(w.push(s.last()).drop_last() =~= w);
            assert(assoc_map(without_key(s, k)) =~= assoc_map(s).remove(k));
        }
    }
}

/// The entries without a key have no entry for it and no more entries.
pub proof fn lemma_without_key_props<K, V>(s: Seq<(K, V)>, k: K)
    ensures
        forall|i: int| 0 <= i < without_key(s, k).len() ==> without_key(s, k)[i].0 != k,
        without_key(s, k).len() <= s.len(),
    decreases s.len(),
{
    if s.len() > 0 {
        lemma_without_key_props(s.drop_last(), k);
    }
}

/// The map of a list has finitely many keys, no more than the entries.
pub proof fn lemma_assoc_finite<K, V>(s: Seq<(K, V)>)
    ensures
        assoc_map(s).dom().finite(),
        assoc_map(s).dom().len() <= s.len(),
    decreases s.len(),
{
    if s.len() > 0 {
        lemma_assoc_finite(s.drop_last());
    }
}


/// A key has at most one first entry.
pub proof fn lemma_first_index_unique<K, V>(s: Seq<(K, V)>, k: K, i: int, j: int)
    requires
        is_first_index(s, k, i),
        is_first_index(s, k, j),
    ensures
        i == j,
{
}


/// With distinct keys, the map has one key per entry.
pub proof fn lemma_assoc_len_distinct<K, V>(s: Seq<(K, V)>)
    requires
        keys_of(s).no_duplicates(),
    ensures
        assoc_map(s).dom().len() == s.len(),
        assoc_map(s).dom().finite(),
    decreases s.len(),
{
    if s.len() > 0 {
        let d = s.drop_last();
        assert(keys_of(d) =~= keys_of(s).drop_last());
        lemma_assoc_len_distinct(d);
        lemma_assoc_contains(d, s.last().0);
        if assoc_map(d).contains_key(s.last().0) {
            let j = choose|j: int| 0 <= j < d.len() && d[j].0 == s.last().0;
            assert(keys_of(s)[j] == keys_of(s)[s.len() - 1]);
        }
    } else {
        assert(assoc_map(s).dom() =~= Set::empty());
    }
}

/// With distinct keys, the entry holding a key is its first entry.
pub proof fn lemma_distinct_first<K, V>(s: Seq<(K, V)>, i: int)
    requires
        keys_of(s).no_duplicates(),
        0 <= i < s.len(),
    ensures
        is_first_index(s, s[i].0, i),
{
    assert forall|j: int| 0 <= j < i implies s[j].0 != s[i].0 by {
        assert(keys_of(s)[j] == s[j].0);
        assert(keys_of(s)[i] == s[i].0);
    }
}

/// Appending an entry for a new key keeps the keys distinct.
pub proof fn lemma_distinct_push<K, V>(s: Seq<(K, V)>, k: K, v: V)
    requires
        keys_of(s).no_duplicates(),
        !assoc_map(s).contains_key(k),
    ensures
        keys_of(s.push((k, v))).no_duplicates(),
{
    lemma_assoc_contains(s, k);
    let t = s.push((k, v));
    assert forall|a: int, b: int|
        0 <= a < keys_of(t).len() && 0 <= b < keys_of(t).len() && a != b implies keys_of(t)[a]
        != keys_of(t)[b] by {
        if a < s.len() && b < s.len() {
            assert(keys_of(s)[a] == keys_of(t)[a]);
            assert(keys_of(s)[b] == keys_of(t)[b]);
        } else if a < s.len() {
            assert(s[a].0 == keys_of(t)[a]);
        } else {
            assert(s[b].0 == keys_of(t)[b]);
        }
    }
}

/// Giving an entry a new value leaves the keys as they were.
pub proof fn lemma_keys_update<K, V>(s: Seq<(K, V)>, i: int, v: V)
    requires
        0 <= i < s.len(),
    ensures
        keys_of(s.update(i, (s[i].0, v))) == keys_of(s),
{
    assert(keys_of(s.update(i, (s[i].0, v))) =~= keys_of(s));
}

/// With distinct keys, a key is in the map exactly when some entry holds it,
/// and then maps to that entry's value.
pub proof fn lemma_distinct_entry<K, V>(s: Seq<(K, V)>, i: int)
    requires
        keys_of(s).no_duplicates(),
        0 <= i < s.len(),
    ensures
        assoc_map(s).contains_key(s[i].0),
        assoc_map(s)[s[i].0] == s[i].1,
{
    lemma_distinct_first(s, i);
    lemma_assoc_first(s, s[i].0, i);
}

/// With distinct keys, removing the entry at a position removes its key from
/// the map, and the remaining keys stay distinct.
pub proof fn lemma_assoc_remove_distinct<K, V>(s: Seq<(K, V)>, j: int)
    requires
        keys_of(s).no_duplicates(),
        0 <= j < s.len(),
    ensures
        keys_of(s.remove(j)).no_duplicates(),
        assoc_map(s.remove(j)) == assoc_map(s).remove(s[j].0),
{
    let t = s.remove(j);
    assert(keys_of(t) =~= keys_of(s).remove(j));
    assert forall|a: int, b: int|
        0 <= a < keys_of(t).len() && 0 <= b < keys_of(t).len() && a != b implies keys_of(t)[a]
        != keys_of(t)[b] by {
        let a2 = if a < j { a } else { a + 1 };
        let b2 = if b < j { b } else { b + 1 };
        assert(keys_of(t)[a] == keys_of(s)[a2]);
        assert(keys_of(t)[b] == keys_of(s)[b2]);
    }
    let k = s[j].0;
    assert forall|x: K| #[trigger] assoc_map(t).contains_key(x) <==> assoc_map(s).remove(
        k,
    ).contains_key(x) by {
        lemma_assoc_contains(t, x);
        lemma_assoc_contains(s, x);
        if exists|i: int| 0 <= i < t.len() && t[i].0 == x {
            let i = choose|i: int| 0 <= i < t.len() && t[i].0 == x;
            let i2 = if i < j { i } else { i + 1 };
            assert(s[i2].0 == x);
            assert(keys_of(s)[i2] == x && keys_of(s)[j] == k);
        }
        if assoc_map(s).remove(k).contains_key(x) {
            let i = choose|i: int| 0 <= i < s.len() && s[i].0 == x;
            assert(i != j);
            let i1 = if i < j { i } else { i - 1 };
            assert(t[i1].0 == x);
        }
    }
    assert forall|x: K| #[trigger] assoc_map(t).contains_key(x) implies assoc_map(t)[x]
        == assoc_map(s).remove(k)[x] by {
        lemma_assoc_contains(t, x);
        let i = choose|i: int| 0 <= i < t.len() && t[i].0 == x;
        let i2 = if i < j { i } else { i + 1 };
        assert(t[i] == s[i2]);
        lemma_distinct_entry(t, i);
        lemma_distinct_entry(s, i2);
    }
    assert(assoc_map(t) =~= assoc_map(s).remove(k));
}

/// Finds the first entry whose key equals `k`.
pub fn find_key<T>(v: &Vec<(String, T)>, k: &str) -> (r: Option<usize>)
    ensures
        match r {
            Some(i) => {
                &&& i < v@.len()
                &&& v@[i as int].0@ == k@
                &&& forall|j: int| 0 <= j < i ==> v@[j].0@ != k@
            },
            None => forall|j: int| 0 <= j < v@.len() ==> v@[j].0@ != k@,
        },
{
    let key = k.to_owned();
    let mut i: usize = 0;
    while i < v.len()
        invariant
            i <= v@.len(),
            key@ == k@,
            forall|j: int| 0 <= j < i ==> v@[j].0@ != k@,
        decreases v@.len() - i,
    {
        if v[i].0 == key {
            return Some(i);
        }
        i = i + 1;
    }
    None
}

/// Sets the value of the first entry for `key`, or appends an entry for it
/// when there is none. Gives back where the entry stands.
pub fn put_entry<V>(list: &mut Vec<(String, V)>, key: &str, value: V) -> (r: usize)
    ensures
        r <= old(list)@.len(),
        r < old(list)@.len() ==> {
            &&& old(list)@[r as int].0@ == key@
            &&& forall|j: int| 0 <= j < r ==> old(list)@[j].0@ != key@
            &&& final(list)@ == old(list)@.update(r as int, (old(list)@[r as int].0, value))
        },
        r == old(list)@.len() ==> {
            &&& forall|j: int| 0 <= j < old(list)@.len() ==> old(list)@[j].0@ != key@
            &&& final(list)@.len() == old(list)@.len() + 1
            &&& final(list)@.drop_last() == old(list)@
            &&& final(list)@.last().0@ == key@
            &&& final(list)@.last().1 == value
        },
{
    match find_key(list, key) {
        Some(i) => {
            let k = list[i].0.clone();
            list.set(i, (k, value));
            i
        },
        None => {
            let n = list.len();
            list.push((key.to_owned(), value));
            assert(list@.drop_last() =~= old(list)@);
            n
        },
    }
}

/// Removes the first entry for `key`, giving back its value.
pub fn take_entry<V>(list: &mut Vec<(String, V)>, key: &str) -> (r: Option<V>)
    ensures
        match r {
            Some(v) => exists|i: int|
                {
                    &&& 0 <= i < old(list)@.len()
                    &&& old(list)@[i].0@ == key@
                    &&& (forall|j: int| 0 <= j < i ==> old(list)@[j].0@ != key@)
                    &&& old(list)@[i].1 == v
                    &&& final(list)@ == old(list)@.remove(i)
                },
            None => {
                &&& forall|j: int| 0 <= j < old(list)@.len() ==> old(list)@[j].0@ != key@
                &&& final(list)@ == old(list)@
            },
        },
{
    match find_key(list, key) {
        Some(i) => {
            let (_, v) = list.remove(i);
            Some(v)
        },
        None => None,
    }
}

/// The entries of a list keyed by strings, keys and values taken through
/// their views.
pub open spec fn viewed<V, W>(s: Seq<(String, V)>, f: spec_fn(V) -> W) -> Seq<(Seq<char>, W)> {
    s.map_values(|p: (String, V)| (p.0@, f(p.1)))
}

/// What `put_entry` does to a list with distinct keys, seen through views:
/// the key now maps to the new value, and the keys stay distinct.
pub proof fn lemma_viewed_put<V, W>(
    s: Seq<(String, V)>,
    t: Seq<(String, V)>,
    key: Seq<char>,
    value: V,
    r: int,
    f: spec_fn(V) -> W,
)
    requires
        keys_of(viewed(s, f)).no_duplicates(),
        0 <= r <= s.len(),
        r < s.len() ==> {
            &&& s[r].0@ == key
            &&& t == s.update(r, (s[r].0, value))
        },
        r == s.len() ==> {
            &&& forall|j: int| 0 <= j < s.len() ==> s[j].0@ != key
            &&& t.len() == s.len() + 1
            &&& t.drop_last() == s
            &&& t.last().0@ == key
            &&& t.last().1 == value
        },
    ensures
        keys_of(viewed(t, f)).no_duplicates(),
        assoc_map(viewed(t, f)) == assoc_map(viewed(s, f)).insert(key, f(value)),
{
    let e = viewed(s, f);
    if r < s.len() {
        assert(viewed(t, f) =~= e.update(r, (key, f(value))));
        lemma_distinct_first(e, r);
        lemma_assoc_update(e, key, r, f(value));
        lemma_keys_update(e, r, f(value));
    } else {
        assert(t =~= s.push(t.last()));
        assert(viewed(t, f) =~= e.push((key, f(value))));
        lemma_assoc_contains(e, key);
        lemma_distinct_push(e, key, f(value));
        lemma_assoc_push(e, key, f(value));
    }
}

/// What removing the entry at `i` does to a list with distinct keys, seen
/// through views: its key leaves the map, and the keys stay distinct.
pub proof fn lemma_viewed_remove<V, W>(s: Seq<(String, V)>, i: int, f: spec_fn(V) -> W)
    requires
        keys_of(viewed(s, f)).no_duplicates(),
        0 <= i < s.len(),
    ensures
        keys_of(viewed(s.remove(i), f)).no_duplicates(),
        assoc_map(viewed(s.remove(i), f)) == assoc_map(viewed(s, f)).remove(s[i].0@),
        assoc_map(viewed(s, f)).contains_key(s[i].0@),
        assoc_map(viewed(s, f))[s[i].0@] == f(s[i].1),
{
    let e = viewed(s, f);
    assert(viewed(s.remove(i), f) =~= e.remove(i));
    lemma_assoc_remove_distinct(e, i);
    lemma_distinct_entry(e, i);
}

/// A lookup by first entry, seen through views.
pub proof fn lemma_viewed_first<V, W>(s: Seq<(String, V)>, key: Seq<char>, i: int, f: spec_fn(V) -> W)
    requires
        0 <= i < s.len(),
        s[i].0@ == key,
        forall|j: int| 0 <= j < i ==> s[j].0@ != key,
    ensures
        assoc_map(viewed(s, f)).contains_key(key),
        assoc_map(viewed(s, f))[key] == f(s[i].1),
{
    let e = viewed(s, f);
    assert(is_first_index(e, key, i));
    lemma_assoc_first(e, key, i);
}

/// A key no entry holds is not in the map.
pub proof fn lemma_viewed_absent<V, W>(s: Seq<(String, V)>, key: Seq<char>, f: spec_fn(V) -> W)
    requires
        forall|j: int| 0 <= j < s.len() ==> s[j].0@ != key,
    ensures
        !assoc_map(viewed(s, f)).contains_key(key),
{
    lemma_assoc_contains(viewed(s, f), key);
}

/// The (outer key, inner key) pairs of a map of maps.
pub open spec fn pair_set<W>(m: Map<Seq<char>, Map<Seq<char>, W>>) -> Set<(Seq<char>, Seq<char>)> {
    Set::new(|p: (Seq<char>, Seq<char>)| m.contains_key(p.0) && m[p.0].contains_key(p.1))
}

/// The number of entries over all the inner maps of a list.
pub open spec fn entry_count<W>(e: Seq<(Seq<char>, Map<Seq<char>, W>)>) -> nat
    decreases e.len(),
{
    if e.len() == 0 {
        0
    } else {
        entry_count(e.drop_last()) + e.last().1.dom().len()
    }
}

/// A prefix counts no more entries than the whole list.
pub proof fn lemma_entry_count_prefix<W>(e: Seq<(Seq<char>, Map<Seq<char>, W>)>, i: int)
    requires
        0 <= i <= e.len(),
    ensures
        entry_count(e.take(i)) <= entry_count(e),
    decreases e.len() - i,
{
    if i < e.len() {
        lemma_entry_count_prefix(e, i + 1);
        assert(e.take(i + 1).drop_last() =~= e.take(i));
    } else {
        assert(e.take(i) =~= e);
    }
}

/// With distinct outer keys and finite inner maps, the pairs are finite and
/// as many as the entries of all inner maps together.
pub proof fn lemma_pairs_count<W>(e: Seq<(Seq<char>, Map<Seq<char>, W>)>)
    requires
        keys_of(e).no_duplicates(),
        forall|i: int| 0 <= i < e.len() ==> (#[trigger] e[i]).1.dom().finite(),
    ensures
        pair_set(assoc_map(e)).finite(),
        pair_set(assoc_map(e)).len() == entry_count(e),
    decreases e.len(),
{
    if e.len() == 0 {
        assert(pair_set(assoc_map(e)) =~= Set::empty());
    } else {
        let d = e.drop_last();
        let t = e.last().0;
        let m = e.last().1;
        assert(keys_of(d) =~= keys_of(e).drop_last());
        assert forall|i: int| 0 <= i < d.len() implies (#[trigger] d[i]).1.dom().finite() by {
            assert(d[i] == e[i]);
        }
        lemma_pairs_count(d);
        lemma_assoc_contains(d, t);
        if assoc_map(d).contains_key(t) {
            let j = choose|j: int| 0 <= j < d.len() && d[j].0 == t;
            assert(keys_of(e)[j] == keys_of(e)[e.len() - 1]);
        }
        assert(m.dom().finite()) by {
            assert(e[e.len() - 1] == e.last());
        }
        let g = |o: Seq<char>| (t, o);
        let tail = m.dom().map(g);
        lemma_map_size(m.dom(), tail, g);
        let front = pair_set(assoc_map(d));
        assert(front.disjoint(tail));
        assert(pair_set(assoc_map(e)) =~= front + tail);
        lemma_set_disjoint_lens(front, tail);
    }
}

/// The keys of a list keyed by strings, taken by their views.
pub open spec fn key_views<V>(s: Seq<(String, V)>) -> Seq<Seq<char>> {
    s.map_values(|p: (String, V)| p.0@)
}

/// The keys of the viewed entries are the viewed keys.
pub proof fn lemma_viewed_keys<V, W>(s: Seq<(String, V)>, f: spec_fn(V) -> W)
    ensures
        keys_of(viewed(s, f)) == key_views(s),
{
    assert(keys_of(viewed(s, f)) =~= key_views(s));
}

/// With distinct keys, the keys in order are the map's keys, each once.
pub proof fn lemma_assoc_keys_set<K, V>(e: Seq<(K, V)>)
    requires
        keys_of(e).no_duplicates(),
    ensures
        keys_of(e).to_set() == assoc_map(e).dom(),
        keys_of(e).len() == assoc_map(e).dom().len(),
        assoc_map(e).dom().finite(),
{
    lemma_assoc_len_distinct(e);
    assert forall|k: K| #[trigger] keys_of(e).to_set().contains(k) <==> assoc_map(e).dom().contains(
        k,
    ) by {
        lemma_assoc_contains(e, k);
        if assoc_map(e).contains_key(k) {
            let j = choose|j: int| 0 <= j < e.len() && e[j].0 == k;
            assert(keys_of(e)[j] == k);
        }
    }
    assert(keys_of(e).to_set() =~= assoc_map(e).dom());
}

/// The keys of a list, in order.
pub fn list_keys<V>(v: &Vec<(String, V)>) -> (r: Vec<String>)
    ensures
        r@.map_values(|s: String| s@) == key_views(v@),
{
    let mut r: Vec<String> = Vec::new();
    let mut i: usize = 0;
    while i < v.len()
        invariant
            i <= v@.len(),
            r@.map_values(|s: String| s@) == key_views(v@).take(i as int),
        decreases v@.len() - i,
    {
        let k = v[i].0.clone();
        let ghost prev = r@;
        r.push(k);
        assert(r@.map_values(|s: String| s@) =~= prev.map_values(|s: String| s@).push(v@[i as int].0@));
        assert(key_views(v@).take(i + 1) =~= key_views(v@).take(i as int).push(v@[i as int].0@));
        i = i + 1;
    }
    assert(key_views(v@).take(i as int) =~= key_views(v@));
    r
}

} // verus!
