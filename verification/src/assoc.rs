//! Maps kept as vectors of `(key, value)` pairs with text keys.
//!
//! The rooms of a registry, the clients of a registry and the members of a
//! room are each kept this way. The view of such a vector is the map from each
//! key's text to its value; the vector is well formed when no key occurs twice.

use vstd::prelude::*;

verus! {

/// A key whose view is a text and that can be compared by that text.
pub trait TextKey: View<V = Seq<char>> + Sized {
    fn same_key(&self, other: &Self) -> (r: bool)
        ensures
            r == (self@ == other@),
    ;
}

/// No key occurs twice.
pub open spec fn distinct_keys<K: View, V>(s: Seq<(K, V)>) -> bool {
    forall|i: int, j: int| 0 <= i < j < s.len() ==> (#[trigger] s[i]).0@ != (#[trigger] s[j]).0@
}

/// The map from each key's view to its value; a later pair wins over an earlier one.
pub open spec fn entries_map<K: View, V>(s: Seq<(K, V)>) -> Map<K::V, V>
    decreases s.len(),
{
    if s.len() == 0 {
        Map::empty()
    } else {
        entries_map(s.drop_last()).insert(s.last().0@, s.last().1)
    }
}

/// A key is in the map exactly when some pair holds it.
pub proof fn lemma_entries_dom<K: View, V>(s: Seq<(K, V)>, k: K::V)
    ensures
        entries_map(s).contains_key(k) <==> exists|i: int| 0 <= i < s.len() && (#[trigger] s[i]).0@ == k,
    decreases s.len(),
{
    if s.len() > 0 {
        let t = s.drop_last();
        lemma_entries_dom(t, k);
        if entries_map(t).contains_key(k) {
            let i = choose|i: int| 0 <= i < t.len() && (#[trigger] t[i]).0@ == k;
            assert(s[i] == t[i]);
        }
        if exists|i: int| 0 <= i < s.len() && (#[trigger] s[i]).0@ == k {
            let i = choose|i: int| 0 <= i < s.len() && (#[trigger] s[i]).0@ == k;
            if i < s.len() - 1 {
                assert(t[i] == s[i]);
            }
        }
    }
}

/// With distinct keys, the map sends each pair's key to that pair's value.
pub proof fn lemma_entries_index<K: View, V>(s: Seq<(K, V)>, i: int)
    requires
        distinct_keys(s),
        0 <= i < s.len(),
    ensures
        entries_map(s).contains_key(s[i].0@),
        entries_map(s)[s[i].0@] == s[i].1,
    decreases s.len(),
{
    if i < s.len() - 1 {
        let t = s.drop_last();
        assert(t[i] == s[i]);
        assert(s[i].0@ != s[s.len() - 1].0@);
        lemma_entries_index(t, i);
    }
}

/// Appending a pair inserts it into the map.
pub proof fn lemma_entries_push<K: View, V>(s: Seq<(K, V)>, p: (K, V))
    ensures
        entries_map(s.push(p)) == entries_map(s).insert(p.0@, p.1),
        distinct_keys(s) && !entries_map(s).contains_key(p.0@) ==> distinct_keys(s.push(p)),
{
    assert(s.push(p).drop_last() =~= s);
    if distinct_keys(s) && !entries_map(s).contains_key(p.0@) {
        assert forall|i: int, j: int| 0 <= i < j < s.push(p).len() implies (#[trigger] s.push(p)[i]).0@
            != (#[trigger] s.push(p)[j]).0@ by {
            if j == s.len() {
                lemma_entries_dom(s, p.0@);
                assert(s[i] == s.push(p)[i]);
            } else {
                assert(s[i] == s.push(p)[i]);
                assert(s[j] == s.push(p)[j]);
            }
        }
    }
}

/// Removing the pair at an index removes its key from the map.
pub proof fn lemma_entries_remove<K: View, V>(s: Seq<(K, V)>, i: int)
    requires
        distinct_keys(s),
        0 <= i < s.len(),
    ensures
        entries_map(s.remove(i)) == entries_map(s).remove(s[i].0@),
        distinct_keys(s.remove(i)),
    decreases s.len(),
{
    let r = s.remove(i);
    assert forall|a: int, b: int| 0 <= a < b < r.len() implies (#[trigger] r[a]).0@ != (#[trigger] r[b]).0@ by {
        let a2 = if a < i { a } else { a + 1 };
        let b2 = if b < i { b } else { b + 1 };
        assert(r[a] == s[a2]);
        assert(r[b] == s[b2]);
    }
    let t = s.drop_last();
    let last = s[s.len() - 1];
    if i == s.len() - 1 {
        assert(r =~= t);
        assert forall|j: int| 0 <= j < t.len() implies (#[trigger] t[j]).0@ != last.0@ by {
            assert(t[j] == s[j]);
        }
        lemma_entries_dom(t, last.0@);
        assert(entries_map(r) =~= entries_map(s).remove(s[i].0@));
    } else {
        assert(distinct_keys(t));
        assert(t[i] == s[i]);
        lemma_entries_remove(t, i);
        assert(r =~= t.remove(i).push(last));
        assert(r.drop_last() =~= t.remove(i));
        assert(s[i].0@ != last.0@);
        assert(entries_map(r) =~= entries_map(s).remove(s[i].0@));
    }
}

/// Replacing the value of the pair at an index updates its key in the map.
pub proof fn lemma_entries_update<K: View, V>(s: Seq<(K, V)>, i: int, p: (K, V))
    requires
        distinct_keys(s),
        0 <= i < s.len(),
        p.0@ == s[i].0@,
    ensures
        entries_map(s.update(i, p)) == entries_map(s).insert(p.0@, p.1),
        distinct_keys(s.update(i, p)),
    decreases s.len(),
{
    let u = s.update(i, p);
    assert forall|a: int, b: int| 0 <= a < b < u.len() implies (#[trigger] u[a]).0@ != (#[trigger] u[b]).0@ by {
        assert(u[a].0@ == s[a].0@);
        assert(u[b].0@ == s[b].0@);
    }
    let t = s.drop_last();
    if i == s.len() - 1 {
        assert(u.drop_last() =~= t);
        assert(entries_map(u) =~= entries_map(s).insert(p.0@, p.1));
    } else {
        assert(distinct_keys(t));
        assert(t[i] == s[i]);
        lemma_entries_update(t, i, p);
        assert(u.drop_last() =~= t.update(i, p));
        assert(s[i].0@ != s[s.len() - 1].0@);
        assert(entries_map(u) =~= entries_map(s).insert(p.0@, p.1));
    }
}

/// Changing every value by the same function, keeping the keys, changes the
/// map's values by that function.
pub proof fn lemma_entries_map_values<K: View, V>(s: Seq<(K, V)>, t: Seq<(K, V)>, f: spec_fn(V) -> V)
    requires
        t.len() == s.len(),
        forall|i: int| 0 <= i < s.len() ==> (#[trigger] t[i]).0 == s[i].0 && t[i].1 == f(s[i].1),
    ensures
        entries_map(t) == entries_map(s).map_values(f),
        distinct_keys(s) ==> distinct_keys(t),
    decreases s.len(),
{
    if s.len() > 0 {
        let s2 = s.drop_last();
        let t2 = t.drop_last();
        assert forall|i: int| 0 <= i < s2.len() implies (#[trigger] t2[i]).0 == s2[i].0 && t2[i].1 == f(s2[i].1) by {
            assert(t2[i] == t[i]);
            assert(s2[i] == s[i]);
        }
        lemma_entries_map_values(s2, t2, f);
        assert(t[t.len() - 1].0 == s[s.len() - 1].0);
        assert(entries_map(t) =~= entries_map(s).map_values(f));
    }
    if distinct_keys(s) {
        assert forall|i: int, j: int| 0 <= i < j < t.len() implies (#[trigger] t[i]).0@ != (#[trigger] t[j]).0@ by {
            assert(t[i].0 == s[i].0);
            assert(t[j].0 == s[j].0);
        }
    }
}

/// With distinct keys, a property holds of every value in the map exactly
/// when it holds of every pair's value.
pub proof fn lemma_entries_all<K: View, V>(s: Seq<(K, V)>, p: spec_fn(V) -> bool)
    requires
        distinct_keys(s),
    ensures
        (forall|k: K::V| #[trigger] entries_map(s).contains_key(k) ==> p(entries_map(s)[k])) <==> (
        forall|i: int| 0 <= i < s.len() ==> p(#[trigger] s[i].1)),
{
    if forall|k: K::V| #[trigger] entries_map(s).contains_key(k) ==> p(entries_map(s)[k]) {
        assert forall|i: int| 0 <= i < s.len() implies p(#[trigger] s[i].1) by {
            lemma_entries_index(s, i);
        }
    }
    if forall|i: int| 0 <= i < s.len() ==> p(#[trigger] s[i].1) {
        assert forall|k: K::V| #[trigger] entries_map(s).contains_key(k) implies p(entries_map(s)[k]) by {
            lemma_entries_dom(s, k);
            let i = choose|i: int| 0 <= i < s.len() && (#[trigger] s[i]).0@ == k;
            lemma_entries_index(s, i);
        }
    }
}

/// The map of a vector has finitely many keys.
pub proof fn lemma_entries_finite<K: View, V>(s: Seq<(K, V)>)
    ensures
        entries_map(s).dom().finite(),
    decreases s.len(),
{
    if s.len() > 0 {
        lemma_entries_finite(s.drop_last());
    }
}

/// The index of the pair with the given key, if there is one.
pub fn find_key<K: TextKey, V>(entries: &Vec<(K, V)>, key: &K) -> (r: Option<usize>)
    ensures
        match r {
            Some(i) => i < entries@.len() && entries@[i as int].0@ == key@,
            None => forall|i: int| 0 <= i < entries@.len() ==> (#[trigger] entries@[i]).0@ != key@,
        },
{
    let mut i: usize = 0;
    while i < entries.len()
        invariant
            0 <= i <= entries@.len(),
            forall|j: int| 0 <= j < i ==> (#[trigger] entries@[j]).0@ != key@,
        decreases entries@.len() - i,
    {
        if entries[i].0.same_key(key) {
            return Some(i);
        }
        i = i + 1;
    }
    None
}

} // verus!
