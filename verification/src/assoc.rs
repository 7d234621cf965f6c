//! Association lists: small maps kept as a vector of distinct-keyed pairs, in
//! insertion order, with their meaning given as a `Map`.

use vstd::prelude::*;

verus! {

/// A key of an association list: what identifies it, and how to compare two.
pub trait MapKey: Sized {
    type KV;

    /// What identifies this key.
    spec fn kview(&self) -> Self::KV;

    /// Whether two keys identify the same entry.
    fn same_key(&self, other: &Self) -> (r: bool)
        ensures
            r == (self.kview() == other.kview());
}

/// The map a sequence of pairs denotes: a later pair for a key wins.
pub open spec fn map_of<K: MapKey, V: DeepView>(s: Seq<(K, V)>) -> Map<K::KV, V::V>
    decreases s.len(),
{
    if s.len() == 0 {
        Map::empty()
    } else {
        map_of(s.drop_last()).insert(s.last().0.kview(), s.last().1.deep_view())
    }
}

/// No two pairs share a key.
pub open spec fn distinct_keys<K: MapKey, V: DeepView>(s: Seq<(K, V)>) -> bool {
    forall|i: int, j: int|
        0 <= i < s.len() && 0 <= j < s.len() && i != j ==> (#[trigger] s[i]).0.kview() != (
        #[trigger] s[j]).0.kview()
}

/// With distinct keys, the map holds exactly the pairs.
pub proof fn lemma_map_of<K: MapKey, V: DeepView>(s: Seq<(K, V)>)
    requires
        distinct_keys(s),
    ensures
        forall|i: int| 0 <= i < s.len() ==> #[trigger] map_of(s).contains_key(s[i].0.kview())
            && map_of(s)[s[i].0.kview()] == s[i].1.deep_view(),
        forall|kv: K::KV| #[trigger]
            map_of(s).contains_key(kv) ==> exists|i: int| 0 <= i < s.len() && s[i].0.kview() == kv,
    decreases s.len(),
{
    if s.len() > 0 {
        let t = s.drop_last();
        assert(distinct_keys(t)) by {
            assert forall|i: int, j: int|
                0 <= i < t.len() && 0 <= j < t.len() && i != j implies (#[trigger] t[i]).0.kview() != (
            #[trigger] t[j]).0.kview() by {
                assert(t[i] == s[i] && t[j] == s[j]);
            }
        }
        lemma_map_of(t);
        let last = s.last();
        assert(map_of(s) == map_of(t).insert(last.0.kview(), last.1.deep_view()));
        assert forall|i: int| 0 <= i < s.len() implies #[trigger] map_of(s).contains_key(
            s[i].0.kview(),
        ) && map_of(s)[s[i].0.kview()] == s[i].1.deep_view() by {
            if i < s.len() - 1 {
                assert(t[i] == s[i]);
                assert(s[i].0.kview() != s[s.len() - 1].0.kview());
                assert(map_of(t).contains_key(t[i].0.kview()));
                assert(map_of(t)[t[i].0.kview()] == t[i].1.deep_view());
            } else {
                assert(s[i] == last);
            }
        }
        assert forall|kv: K::KV| #[trigger] map_of(s).contains_key(kv) implies exists|i: int|
            0 <= i < s.len() && s[i].0.kview() == kv by {
            if kv != s.last().0.kview() {
                assert(map_of(t).contains_key(kv));
                let i = choose|i: int| 0 <= i < t.len() && t[i].0.kview() == kv;
                assert(s[i] == t[i]);
            }
        }
    }
}

/// Two sequences that agree pairwise on keys and values denote the same map.
pub proof fn lemma_map_of_same_views<K1: MapKey, V1: DeepView, K2: MapKey<KV = K1::KV>, V2: DeepView<V = V1::V>>(
    s: Seq<(K1, V1)>,
    t: Seq<(K2, V2)>,
)
    requires
        s.len() == t.len(),
        forall|i: int|
            0 <= i < s.len() ==> (#[trigger] s[i]).0.kview() == t[i].0.kview() && s[i].1.deep_view()
                == t[i].1.deep_view(),
    ensures
        map_of(s) == map_of(t),
        distinct_keys(s) == distinct_keys(t),
    decreases s.len(),
{
    if s.len() > 0 {
        lemma_map_of_same_views(s.drop_last(), t.drop_last());
        assert(s.last() == s[s.len() - 1]);
    }
    if distinct_keys(s) {
        assert forall|i: int, j: int|
            0 <= i < t.len() && 0 <= j < t.len() && i != j implies (#[trigger] t[i]).0.kview() != (
        #[trigger] t[j]).0.kview() by {
            assert(s[i].0.kview() != s[j].0.kview());
        }
    }
    if distinct_keys(t) {
        assert forall|i: int, j: int|
            0 <= i < s.len() && 0 <= j < s.len() && i != j implies (#[trigger] s[i]).0.kview() != (
        #[trigger] s[j]).0.kview() by {
            assert(t[i].0.kview() != t[j].0.kview());
        }
    }
}

/// A rearrangement of a distinct-keyed sequence is distinct-keyed and denotes the same map.
pub proof fn lemma_permutation_map<K: MapKey, V: DeepView>(s: Seq<(K, V)>, t: Seq<(K, V)>)
    requires
        distinct_keys(s),
        s.to_multiset() == t.to_multiset(),
    ensures
        distinct_keys(t),
        map_of(t) == map_of(s),
        t.len() == s.len(),
{
    broadcast use vstd::seq_lib::group_to_multiset_ensures;

    assert(s.no_duplicates()) by {
        assert forall|i: int, j: int| 0 <= i < s.len() && 0 <= j < s.len() && i != j implies s[i] != s[j] by {
            assert(s[i].0.kview() != s[j].0.kview());
        }
    }
    s.lemma_multiset_has_no_duplicates();
    t.lemma_multiset_has_no_duplicates_conv();
    assert(t.len() == s.len()) by {
        s.to_multiset_ensures();
        t.to_multiset_ensures();
    }
    assert forall|i: int, j: int|
        0 <= i < t.len() && 0 <= j < t.len() && i != j implies (#[trigger] t[i]).0.kview() != (
    #[trigger] t[j]).0.kview() by {
        assert(t.contains(t[i]) && t.contains(t[j]));
        assert(t.to_multiset().count(t[i]) > 0 && t.to_multiset().count(t[j]) > 0);
        assert(s.contains(t[i]) && s.contains(t[j]));
        let a = choose|a: int| 0 <= a < s.len() && s[a] == t[i];
        let b = choose|b: int| 0 <= b < s.len() && s[b] == t[j];
        assert(t[i] != t[j]);
        assert(a != b);
        assert(s[a].0.kview() != s[b].0.kview());
    }
    lemma_map_of(s);
    lemma_map_of(t);
    assert forall|kv: K::KV| map_of(t).contains_key(kv) <==> map_of(s).contains_key(kv) by {
        if map_of(t).contains_key(kv) {
            let i = choose|i: int| 0 <= i < t.len() && t[i].0.kview() == kv;
            assert(t.contains(t[i]));
            assert(t.to_multiset().count(t[i]) > 0);
            assert(s.contains(t[i]));
            let a = choose|a: int| 0 <= a < s.len() && s[a] == t[i];
            assert(map_of(s).contains_key(s[a].0.kview()));
        }
        if map_of(s).contains_key(kv) {
            let a = choose|a: int| 0 <= a < s.len() && s[a].0.kview() == kv;
            assert(s.contains(s[a]));
            assert(s.to_multiset().count(s[a]) > 0);
            assert(t.contains(s[a]));
            let i = choose|i: int| 0 <= i < t.len() && t[i] == s[a];
            assert(map_of(t).contains_key(t[i].0.kview()));
        }
    }
    assert forall|kv: K::KV| #[trigger] map_of(t).contains_key(kv) implies map_of(t)[kv] == map_of(s)[kv] by {
        let i = choose|i: int| 0 <= i < t.len() && t[i].0.kview() == kv;
        assert(map_of(t)[t[i].0.kview()] == t[i].1.deep_view());
        assert(t.contains(t[i]));
        assert(t.to_multiset().count(t[i]) > 0);
        assert(s.contains(t[i]));
        let a = choose|a: int| 0 <= a < s.len() && s[a] == t[i];
        assert(map_of(s)[s[a].0.kview()] == s[a].1.deep_view());
    }
    assert(map_of(t) =~= map_of(s));
}

/// Position of the pair keyed like `k`, if any.
pub fn find_key<K: MapKey, V: DeepView>(items: &Vec<(K, V)>, k: &K) -> (r: Option<usize>)
    ensures
        r matches Some(i) ==> i < items@.len() && items@[i as int].0.kview() == k.kview(),
        r is None ==> forall|i: int| 0 <= i < items@.len() ==> (#[trigger] items@[i]).0.kview()
            != k.kview(),
{
    let mut i: usize = 0;
    while i < items.len()
        invariant
            i <= items.len(),
            forall|j: int| 0 <= j < i ==> (#[trigger] items@[j]).0.kview() != k.kview(),
        decreases items.len() - i,
    {
        if items[i].0.same_key(k) {
            return Some(i);
        }
        i = i + 1;
    }
    None
}

/// Replacing the value of an existing key updates the map at that key.
pub proof fn lemma_map_of_update<K: MapKey, V: DeepView>(s: Seq<(K, V)>, i: int, p: (K, V))
    requires
        distinct_keys(s),
        0 <= i < s.len(),
        p.0.kview() == s[i].0.kview(),
    ensures
        map_of(s.update(i, p)) =~= map_of(s).insert(p.0.kview(), p.1.deep_view()),
        distinct_keys(s.update(i, p)),
    decreases s.len(),
{
    let u = s.update(i, p);
    assert(distinct_keys(u)) by {
        assert forall|a: int, b: int|
            0 <= a < u.len() && 0 <= b < u.len() && a != b implies (#[trigger] u[a]).0.kview() != (
        #[trigger] u[b]).0.kview() by {
            assert(u[a].0.kview() == s[a].0.kview());
            assert(u[b].0.kview() == s[b].0.kview());
        }
    }
    lemma_map_of(s);
    lemma_map_of(u);
    assert forall|kv: K::KV| map_of(u).contains_key(kv) <==> map_of(s).insert(p.0.kview(), p.1.deep_view()).contains_key(kv) by {
        if map_of(u).contains_key(kv) {
            let j = choose|j: int| 0 <= j < u.len() && u[j].0.kview() == kv;
            assert(u[j].0.kview() == s[j].0.kview());
            assert(map_of(s).contains_key(s[j].0.kview()));
        }
        if map_of(s).contains_key(kv) {
            let j = choose|j: int| 0 <= j < s.len() && s[j].0.kview() == kv;
            assert(u[j].0.kview() == s[j].0.kview());
            assert(map_of(u).contains_key(u[j].0.kview()));
        }
        if kv == p.0.kview() {
            assert(map_of(u).contains_key(u[i].0.kview()));
        }
    }
    assert forall|kv: K::KV| #[trigger] map_of(u).contains_key(kv) implies map_of(u)[kv] == map_of(s).insert(p.0.kview(), p.1.deep_view())[kv] by {
        let j = choose|j: int| 0 <= j < u.len() && u[j].0.kview() == kv;
        assert(map_of(u)[u[j].0.kview()] == u[j].1.deep_view());
        if j != i {
            assert(u[j] == s[j]);
            assert(map_of(s)[s[j].0.kview()] == s[j].1.deep_view());
        }
    }
}

/// Appending a pair with a new key adds it to the map.
pub proof fn lemma_map_of_push<K: MapKey, V: DeepView>(s: Seq<(K, V)>, p: (K, V))
    requires
        distinct_keys(s),
        forall|i: int| 0 <= i < s.len() ==> (#[trigger] s[i]).0.kview() != p.0.kview(),
    ensures
        map_of(s.push(p)) == map_of(s).insert(p.0.kview(), p.1.deep_view()),
        distinct_keys(s.push(p)),
{
    let u = s.push(p);
    assert(u.drop_last() == s);
    assert(distinct_keys(u)) by {
        assert forall|a: int, b: int|
            0 <= a < u.len() && 0 <= b < u.len() && a != b implies (#[trigger] u[a]).0.kview() != (
        #[trigger] u[b]).0.kview() by {
            if a < s.len() && b < s.len() {
                assert(u[a] == s[a] && u[b] == s[b]);
            } else if a < s.len() {
                assert(u[a] == s[a]);
            } else {
                assert(u[b] == s[b]);
            }
        }
    }
}

/// Removing the pair of a key removes the key from the map.
pub proof fn lemma_map_of_remove<K: MapKey, V: DeepView>(s: Seq<(K, V)>, i: int)
    requires
        distinct_keys(s),
        0 <= i < s.len(),
    ensures
        map_of(s.remove(i)) =~= map_of(s).remove(s[i].0.kview()),
        distinct_keys(s.remove(i)),
{
    let u = s.remove(i);
    assert(distinct_keys(u)) by {
        assert forall|a: int, b: int|
            0 <= a < u.len() && 0 <= b < u.len() && a != b implies (#[trigger] u[a]).0.kview() != (
        #[trigger] u[b]).0.kview() by {
            let sa = if a < i { a } else { a + 1 };
            let sb = if b < i { b } else { b + 1 };
            assert(u[a] == s[sa] && u[b] == s[sb]);
        }
    }
    lemma_map_of(s);
    lemma_map_of(u);
    let kv0 = s[i].0.kview();
    assert forall|kv: K::KV| map_of(u).contains_key(kv) <==> map_of(s).remove(kv0).contains_key(kv) by {
        if map_of(u).contains_key(kv) {
            let j = choose|j: int| 0 <= j < u.len() && u[j].0.kview() == kv;
            let sj = if j < i { j } else { j + 1 };
            assert(u[j] == s[sj]);
            assert(map_of(s).contains_key(s[sj].0.kview()));
        }
        if map_of(s).contains_key(kv) && kv != kv0 {
            let j = choose|j: int| 0 <= j < s.len() && s[j].0.kview() == kv;
            let uj = if j < i { j } else { j - 1 };
            assert(u[uj] == s[j]);
            assert(map_of(u).contains_key(u[uj].0.kview()));
        }
    }
    assert forall|kv: K::KV| #[trigger] map_of(u).contains_key(kv) implies map_of(u)[kv] == map_of(s).remove(kv0)[kv] by {
        let j = choose|j: int| 0 <= j < u.len() && u[j].0.kview() == kv;
        let sj = if j < i { j } else { j + 1 };
        assert(u[j] == s[sj]);
        assert(map_of(u)[u[j].0.kview()] == u[j].1.deep_view());
        assert(map_of(s)[s[sj].0.kview()] == s[sj].1.deep_view());
    }
}

/// Set `k` to `v`, replacing any existing pair for `k` in place.
pub fn assoc_set<K: MapKey, V: DeepView>(items: &mut Vec<(K, V)>, k: K, v: V)
    requires
        distinct_keys(old(items)@),
    ensures
        distinct_keys(final(items)@),
        map_of(final(items)@) == map_of(old(items)@).insert(k.kview(), v.deep_view()),
{
    let ghost kv = k.kview();
    match find_key(items, &k) {
        Some(i) => {
            let ghost s = items@;
            items.set(i, (k, v));
            proof {
                lemma_map_of_update(s, i as int, (k, v));
            }
        },
        None => {
            let ghost s = items@;
            items.push((k, v));
            proof {
                lemma_map_of_push(s, (k, v));
            }
        },
    }
}

/// Remove any pair for `k`.
pub fn assoc_remove<K: MapKey, V: DeepView>(items: &mut Vec<(K, V)>, k: &K)
    requires
        distinct_keys(old(items)@),
    ensures
        distinct_keys(final(items)@),
        map_of(final(items)@) =~= map_of(old(items)@).remove(k.kview()),
{
    match find_key(items, k) {
        Some(i) => {
            let ghost s = items@;
            items.remove(i);
            proof {
                lemma_map_of_remove(s, i as int);
            }
        },
        None => {
            proof {
                lemma_map_of(items@);
                if map_of(items@).contains_key(k.kview()) {
                    let j = choose|j: int| 0 <= j < items@.len() && items@[j].0.kview() == k.kview();
                    assert(items@[j].0.kview() != k.kview());
                }
            }
        },
    }
}

/// The value for `k`, if any.
pub fn assoc_get<'a, K: MapKey, V: DeepView>(items: &'a Vec<(K, V)>, k: &K) -> (r: Option<&'a V>)
    requires
        distinct_keys(items@),
    ensures
        r is Some <==> map_of(items@).contains_key(k.kview()),
        r matches Some(v) ==> v.deep_view() == map_of(items@)[k.kview()],
{
    proof {
        lemma_map_of(items@);
    }
    match find_key(items, k) {
        Some(i) => {
            proof {
                assert(map_of(items@).contains_key(items@[i as int].0.kview()));
            }
            Some(&items[i].1)
        },
        None => {
            proof {
                if map_of(items@).contains_key(k.kview()) {
                    let j = choose|j: int| 0 <= j < items@.len() && items@[j].0.kview() == k.kview();
                    assert(items@[j].0.kview() != k.kview());
                }
            }
            None
        },
    }
}

} // verus!
