//! Small association lists keyed by strings (group name → value), with the
//! lookup they stand for.

use vstd::prelude::*;

verus! {

/// The value stored under `k`: the first entry whose key is `k`.
pub open spec fn lookup<V>(s: Seq<(Seq<char>, V)>, k: Seq<char>) -> Option<V>
    decreases s.len(),
{
    if s.len() == 0 {
        None
    } else if s[0].0 == k {
        Some(s[0].1)
    } else {
        lookup(s.drop_first(), k)
    }
}

/// The keys of a string-keyed list, as characters.
pub open spec fn keys_of<V>(s: Seq<(String, V)>) -> Seq<(Seq<char>, V)> {
    s.map_values(|e: (String, V)| (e.0@, e.1))
}

pub proof fn lemma_lookup_first<V>(s: Seq<(Seq<char>, V)>, k: Seq<char>, i: int)
    requires
        0 <= i < s.len(),
        s[i].0 == k,
        forall|j: int| 0 <= j < i ==> s[j].0 != k,
    ensures
        lookup(s, k) == Some(s[i].1),
    decreases s.len(),
{
    if i > 0 {
        lemma_lookup_first(s.drop_first(), k, i - 1);
    }
}

pub proof fn lemma_lookup_absent<V>(s: Seq<(Seq<char>, V)>, k: Seq<char>)
    requires
        forall|j: int| 0 <= j < s.len() ==> s[j].0 != k,
    ensures
        lookup(s, k) is None,
    decreases s.len(),
{
    if s.len() > 0 {
        lemma_lookup_absent(s.drop_first(), k);
    }
}

/// Replacing the first entry for `k` changes the lookup of `k` only.
pub proof fn lemma_lookup_update<V>(s: Seq<(Seq<char>, V)>, k: Seq<char>, i: int, v: V)
    requires
        0 <= i < s.len(),
        s[i].0 == k,
        forall|j: int| 0 <= j < i ==> s[j].0 != k,
    ensures
        lookup(s.update(i, (k, v)), k) == Some(v),
        forall|k2: Seq<char>| k2 != k ==> lookup(s.update(i, (k, v)), k2) == lookup(s, k2),
    decreases s.len(),
{
    let t = s.update(i, (k, v));
    if i == 0 {
        assert(t.drop_first() =~= s.drop_first());
    } else {
        lemma_lookup_update(s.drop_first(), k, i - 1, v);
        assert(t.drop_first() =~= s.drop_first().update(i - 1, (k, v)));
    }
    assert forall|k2: Seq<char>| k2 != k implies lookup(t, k2) == lookup(s, k2) by {
        if i == 0 {
            assert(lookup(t, k2) == lookup(t.drop_first(), k2));
            assert(lookup(s, k2) == lookup(s.drop_first(), k2));
        } else {
            assert(t[0] == s[0]);
            if s[0].0 != k2 {
                assert(lookup(t, k2) == lookup(t.drop_first(), k2));
                assert(lookup(t.drop_first(), k2) == lookup(s.drop_first().update(i - 1, (k, v)), k2));
            }
        }
    }
}

/// Appending an entry for a key that is absent adds that key only.
pub proof fn lemma_lookup_push<V>(s: Seq<(Seq<char>, V)>, k: Seq<char>, v: V)
    requires
        forall|j: int| 0 <= j < s.len() ==> s[j].0 != k,
    ensures
        lookup(s.push((k, v)), k) == Some(v),
        forall|k2: Seq<char>| k2 != k ==> lookup(s.push((k, v)), k2) == lookup(s, k2),
    decreases s.len(),
{
    let t = s.push((k, v));
    if s.len() == 0 {
        assert(t[0] == (k, v));
        assert(t.drop_first() =~= Seq::<(Seq<char>, V)>::empty());
        assert forall|k2: Seq<char>| k2 != k implies lookup(t, k2) == lookup(s, k2) by {
            assert(t.len() == 1 && t[0].0 == k);
            assert(lookup(t, k2) == lookup(t.drop_first(), k2));
            assert(lookup(t.drop_first(), k2) is None);
            assert(lookup(s, k2) is None);
        }
    } else {
        lemma_lookup_push(s.drop_first(), k, v);
        assert(t.drop_first() =~= s.drop_first().push((k, v)));
        assert forall|k2: Seq<char>| k2 != k implies lookup(t, k2) == lookup(s, k2) by {
            assert(t[0] == s[0]);
            if s[0].0 != k2 {
                assert(lookup(t, k2) == lookup(t.drop_first(), k2));
                assert(lookup(t.drop_first(), k2) == lookup(s.drop_first().push((k, v)), k2));
                assert(lookup(s.drop_first().push((k, v)), k2) == lookup(s.drop_first(), k2));
                assert(lookup(s, k2) == lookup(s.drop_first(), k2));
            } else {
                assert(t.len() > 0);
                assert(lookup(t, k2) == Some(s[0].1));
            }
        }
    }
}

/// Entries whose key is not `k`.
pub open spec fn not_key<V>(k: Seq<char>) -> spec_fn((Seq<char>, V)) -> bool {
    |e: (Seq<char>, V)| e.0 != k
}

/// Dropping every entry for `k` removes `k` only.
pub proof fn lemma_lookup_filter<V>(s: Seq<(Seq<char>, V)>, k: Seq<char>)
    ensures
        lookup(s.filter(not_key::<V>(k)), k) is None,
        forall|k2: Seq<char>| k2 != k ==> lookup(s.filter(not_key::<V>(k)), k2) == lookup(s, k2),
    decreases s.len(),
{
    let f = not_key::<V>(k);
    reveal(Seq::filter);
    if s.len() == 0 {
    } else {
        lemma_lookup_filter(s.drop_first(), k);
        lemma_filter_first(s, f);
        let t = s.filter(f);
        let u = s.drop_first().filter(f);
        if f(s[0]) {
            assert((seq![s[0]] + u).drop_first() =~= u);
            assert(t[0] == s[0]);
        }
        assert forall|k2: Seq<char>| k2 != k implies lookup(t, k2) == lookup(s, k2) by {
            assert(lookup(u, k2) == lookup(s.drop_first(), k2));
            if f(s[0]) {
                assert((seq![s[0]] + u).drop_first() =~= u);
                assert(t.len() > 0 && t[0] == s[0]);
                if s[0].0 != k2 {
                    assert(lookup(t, k2) == lookup(t.drop_first(), k2));
                }
            } else {
                assert(t == u);
                assert(s[0].0 == k);
                assert(lookup(s, k2) == lookup(s.drop_first(), k2));
            }
        }
    }
}

/// `filter` on a non-empty sequence, seen from the front.
pub proof fn lemma_filter_first<A>(s: Seq<A>, f: spec_fn(A) -> bool)
    requires
        s.len() > 0,
    ensures
        s.filter(f) == if f(s[0]) { seq![s[0]] + s.drop_first().filter(f) } else { s.drop_first().filter(f) },
{
    let t = s.drop_first();
    assert(s =~= seq![s[0]] + t);
    Seq::filter_distributes_over_add(seq![s[0]], t, f);
    reveal_with_fuel(Seq::filter, 2);
    assert(seq![s[0]].drop_last() =~= Seq::<A>::empty());
}

/// A looked-up value is one of the stored values.
pub proof fn lemma_lookup_in<V>(s: Seq<(Seq<char>, V)>, k: Seq<char>)
    requires
        lookup(s, k) is Some,
    ensures
        exists|i: int| 0 <= i < s.len() && s[i].0 == k && s[i].1 == lookup(s, k).unwrap(),
    decreases s.len(),
{
    if s[0].0 == k {
        assert(s[0].0 == k && s[0].1 == lookup(s, k).unwrap());
    } else {
        lemma_lookup_in(s.drop_first(), k);
        let i = choose|i: int| 0 <= i < s.drop_first().len() && s.drop_first()[i].0 == k && s.drop_first()[i].1 == lookup(s.drop_first(), k).unwrap();
        assert(s[i + 1] == s.drop_first()[i]);
    }
}

/// Every element of a filtered sequence is an element of the sequence.
pub proof fn lemma_filter_subset<A>(s: Seq<A>, f: spec_fn(A) -> bool, m: int)
    requires
        0 <= m < s.filter(f).len(),
    ensures
        exists|i: int| 0 <= i < s.len() && s[i] == s.filter(f)[m],
{
    s.lemma_filter_contains_rev(f, s.filter(f)[m]);
    assert(s.filter(f).contains(s.filter(f)[m]));
    broadcast use vstd::seq_lib::group_filter_ensures;
}

/// Where the first entry for `k` sits, if any.
pub open spec fn key_index<V>(s: Seq<(Seq<char>, V)>, k: Seq<char>) -> Option<int>
    decreases s.len(),
{
    if s.len() == 0 {
        None
    } else if s[0].0 == k {
        Some(0)
    } else {
        match key_index(s.drop_first(), k) {
            Some(i) => Some(i + 1),
            None => None,
        }
    }
}

pub proof fn lemma_key_index_first<V>(s: Seq<(Seq<char>, V)>, k: Seq<char>, i: int)
    requires
        0 <= i < s.len(),
        s[i].0 == k,
        forall|j: int| 0 <= j < i ==> s[j].0 != k,
    ensures
        key_index(s, k) == Some(i),
    decreases s.len(),
{
    if i > 0 {
        lemma_key_index_first(s.drop_first(), k, i - 1);
    }
}

pub proof fn lemma_key_index_absent<V>(s: Seq<(Seq<char>, V)>, k: Seq<char>)
    requires
        forall|j: int| 0 <= j < s.len() ==> s[j].0 != k,
    ensures
        key_index(s, k) is None,
    decreases s.len(),
{
    if s.len() > 0 {
        lemma_key_index_absent(s.drop_first(), k);
    }
}

/// No key occurs twice.
pub open spec fn keys_unique<V>(s: Seq<(Seq<char>, V)>) -> bool {
    forall|i: int, j: int| 0 <= i < j < s.len() ==> #[trigger] s[i].0 != #[trigger] s[j].0
}

/// Dropping every entry for a key keeps the keys unique.
pub proof fn lemma_filter_keys_unique<V>(s: Seq<(Seq<char>, V)>, f: spec_fn((Seq<char>, V)) -> bool)
    requires
        keys_unique(s),
    ensures
        keys_unique(s.filter(f)),
    decreases s.len(),
{
    if s.len() > 0 {
        let t = s.drop_last();
        assert(s =~= t.push(s.last()));
        assert(keys_unique(t)) by {
            assert forall|i: int, j: int| 0 <= i < j < t.len() implies #[trigger] t[i].0 != #[trigger] t[j].0 by {
                assert(t[i] == s[i] && t[j] == s[j]);
            }
        }
        lemma_filter_keys_unique(t, f);
        t.lemma_filter_push(s.last(), f);
        if f(s.last()) {
            let u = t.filter(f);
            assert forall|m: int| 0 <= m < u.len() implies #[trigger] u[m].0 != s.last().0 by {
                lemma_filter_subset(t, f, m);
                let i = choose|i: int| 0 <= i < t.len() && t[i] == u[m];
                assert(t[i] == s[i]);
                assert(s[i].0 != s[s.len() - 1].0);
            }
            let v = u.push(s.last());
            assert forall|i: int, j: int| 0 <= i < j < v.len() implies #[trigger] v[i].0 != #[trigger] v[j].0 by {
                if j == v.len() - 1 {
                    assert(v[i] == u[i]);
                } else {
                    assert(v[i] == u[i] && v[j] == u[j]);
                }
            }
        }
    }
}

/// Updating the entry of an existing key, or appending an absent key, keeps
/// the keys unique.
pub proof fn lemma_keys_unique_update<V>(s: Seq<(Seq<char>, V)>, i: int, v: V)
    requires
        keys_unique(s),
        0 <= i < s.len(),
    ensures
        keys_unique(s.update(i, (s[i].0, v))),
{
    let t = s.update(i, (s[i].0, v));
    assert forall|a: int, b: int| 0 <= a < b < t.len() implies #[trigger] t[a].0 != #[trigger] t[b].0 by {
        assert(t[a].0 == s[a].0 && t[b].0 == s[b].0);
    }
}

pub proof fn lemma_keys_unique_push<V>(s: Seq<(Seq<char>, V)>, k: Seq<char>, v: V)
    requires
        keys_unique(s),
        forall|j: int| 0 <= j < s.len() ==> s[j].0 != k,
    ensures
        keys_unique(s.push((k, v))),
{
    let t = s.push((k, v));
    assert forall|a: int, b: int| 0 <= a < b < t.len() implies #[trigger] t[a].0 != #[trigger] t[b].0 by {
        if b == s.len() {
            assert(t[a] == s[a]);
        } else {
            assert(t[a] == s[a] && t[b] == s[b]);
        }
    }
}

} // verus!
