//! Specification-level association lists: sequences of key/value pairs with
//! unique keys.  Every unordered mapping the engine keeps (record fields,
//! response channels, room exits, the live action set) is modelled as such a
//! sequence, and the executable code is proved against these definitions.

use vstd::prelude::*;

verus! {

/// No key occurs twice in the sequence.
pub open spec fn unique_keys<K, V>(s: Seq<(K, V)>) -> bool {
    forall|i: int, j: int| 0 <= i < j < s.len() ==> s[i].0 != s[j].0
}

/// The value bound to `k`: the first pair whose key is `k`, if any.
pub open spec fn assoc_get<K, V>(s: Seq<(K, V)>, k: K) -> Option<V>
    decreases s.len(),
{
    if s.len() == 0 {
        None
    } else if s[0].0 == k {
        Some(s[0].1)
    } else {
        assoc_get(s.subrange(1, s.len() as int), k)
    }
}

/// Bind `k` to `v`: overwrite the pair holding `k` in place, or append a new
/// pair at the end when `k` is absent.
pub open spec fn assoc_set<K, V>(s: Seq<(K, V)>, k: K, v: V) -> Seq<(K, V)>
    decreases s.len(),
{
    if s.len() == 0 {
        seq![(k, v)]
    } else if s[0].0 == k {
        seq![(k, v)] + s.subrange(1, s.len() as int)
    } else {
        seq![s[0]] + assoc_set(s.subrange(1, s.len() as int), k, v)
    }
}

/// The mapping the pair sequence stands for.
pub open spec fn assoc_map<K, V>(s: Seq<(K, V)>) -> Map<K, V> {
    Map::new(|k: K| assoc_get(s, k) is Some, |k: K| assoc_get(s, k)->Some_0)
}

/// A lookup succeeds exactly when some pair holds the key.
pub proof fn lemma_get_some_iff<K, V>(s: Seq<(K, V)>, k: K)
    ensures
        (assoc_get(s, k) is Some) <==> exists|i: int| 0 <= i < s.len() && s[i].0 == k,
    decreases s.len(),
{
    if s.len() == 0 {
    } else if s[0].0 == k {
    } else {
        let t = s.subrange(1, s.len() as int);
        lemma_get_some_iff(t, k);
        if assoc_get(s, k) is Some {
            let i = choose|i: int| 0 <= i < t.len() && t[i].0 == k;
            assert(s[i + 1].0 == k);
        }
        if exists|i: int| 0 <= i < s.len() && s[i].0 == k {
            let i = choose|i: int| 0 <= i < s.len() && s[i].0 == k;
            assert(t[i - 1].0 == k);
        }
    }
}

/// The first pair holding `k` gives the lookup's result.
pub proof fn lemma_get_first_found<K, V>(s: Seq<(K, V)>, k: K, i: int)
    requires
        0 <= i < s.len(),
        s[i].0 == k,
        forall|j: int| 0 <= j < i ==> s[j].0 != k,
    ensures
        assoc_get(s, k) == Some(s[i].1),
    decreases s.len(),
{
    if i == 0 {
    } else {
        let t = s.subrange(1, s.len() as int);
        assert(s[0].0 != k);
        assert(forall|j: int| 0 <= j < i - 1 ==> t[j].0 != k);
        lemma_get_first_found(t, k, i - 1);
    }
}

/// Writing an existing key rewrites its pair in place.
pub proof fn lemma_set_found<K, V>(s: Seq<(K, V)>, k: K, v: V, i: int)
    requires
        unique_keys(s),
        0 <= i < s.len(),
        s[i].0 == k,
    ensures
        assoc_set(s, k, v) == s.update(i, (k, v)),
    decreases s.len(),
{
    let t = s.subrange(1, s.len() as int);
    if i == 0 {
        assert(assoc_set(s, k, v) =~= s.update(0, (k, v)));
    } else {
        assert(s[0].0 != k);
        lemma_set_found(t, k, v, i - 1);
        assert(seq![s[0]] + t.update(i - 1, (k, v)) =~= s.update(i, (k, v)));
    }
}

/// Writing an absent key appends its pair.
pub proof fn lemma_set_absent<K, V>(s: Seq<(K, V)>, k: K, v: V)
    requires
        forall|i: int| 0 <= i < s.len() ==> s[i].0 != k,
    ensures
        assoc_set(s, k, v) == s.push((k, v)),
    decreases s.len(),
{
    if s.len() == 0 {
        assert(assoc_set(s, k, v) =~= s.push((k, v)));
    } else {
        let t = s.subrange(1, s.len() as int);
        assert(forall|i: int| 0 <= i < t.len() ==> t[i].0 != k);
        lemma_set_absent(t, k, v);
        assert(seq![s[0]] + t.push((k, v)) =~= s.push((k, v)));
    }
}

/// Writing keeps the keys unique.
pub proof fn lemma_set_unique<K, V>(s: Seq<(K, V)>, k: K, v: V)
    requires
        unique_keys(s),
    ensures
        unique_keys(assoc_set(s, k, v)),
{
    lemma_get_some_iff(s, k);
    if assoc_get(s, k) is Some {
        let i = choose|i: int| 0 <= i < s.len() && s[i].0 == k;
        lemma_set_found(s, k, v, i);
    } else {
        lemma_set_absent(s, k, v);
    }
}

/// How a write changes later lookups.
pub proof fn lemma_get_after_set<K, V>(s: Seq<(K, V)>, k: K, v: V, q: K)
    requires
        unique_keys(s),
    ensures
        assoc_get(assoc_set(s, k, v), q) == if q == k {
            Some(v)
        } else {
            assoc_get(s, q)
        },
    decreases s.len(),
{
    if s.len() == 0 {
        let r = assoc_set(s, k, v);
        assert(r =~= seq![(k, v)]);
        if q == k {
            assert(assoc_get(r, q) == Some(v));
        } else {
            assert(r.subrange(1, 1) =~= Seq::<(K, V)>::empty());
            assert(assoc_get(r, q) == assoc_get(r.subrange(1, 1), q));
            assert(assoc_get(r, q) is None);
        }
    } else {
        let t = s.subrange(1, s.len() as int);
        if s[0].0 == k {
            let r = seq![(k, v)] + t;
            assert(assoc_set(s, k, v) == r);
            assert(r[0] == (k, v));
            if q == k {
                assert(assoc_get(r, q) == Some(v));
            } else {
                assert(r.subrange(1, r.len() as int) =~= t);
                assert(assoc_get(r, q) == assoc_get(t, q));
                assert(assoc_get(s, q) == assoc_get(t, q));
            }
        } else {
            let r = seq![s[0]] + assoc_set(t, k, v);
            assert(assoc_set(s, k, v) == r);
            lemma_get_after_set(t, k, v, q);
            assert(r[0] == s[0]);
            assert(r.len() == 1 + assoc_set(t, k, v).len());
            assert(r.subrange(1, r.len() as int) =~= assoc_set(t, k, v));
            if q == s[0].0 {
                assert(assoc_get(r, q) == Some(s[0].1));
                assert(assoc_get(s, q) == Some(s[0].1));
            } else {
                assert(assoc_get(r, q) == assoc_get(assoc_set(t, k, v), q));
                assert(assoc_get(s, q) == assoc_get(t, q));
            }
        }
    }
}

/// A write is an insertion on the mapping the sequence stands for.
pub proof fn lemma_map_after_set<K, V>(s: Seq<(K, V)>, k: K, v: V)
    requires
        unique_keys(s),
    ensures
        assoc_map(assoc_set(s, k, v)) == assoc_map(s).insert(k, v),
{
    assert forall|q: K| true implies assoc_get(assoc_set(s, k, v), q) == if q == k {
        Some(v)
    } else {
        assoc_get(s, q)
    } by {
        lemma_get_after_set(s, k, v, q);
    }
    assert(assoc_map(assoc_set(s, k, v)) =~= assoc_map(s).insert(k, v));
}

} // verus!
