//! Maps represented as sequences of key/value pairs with distinct keys.
//!
//! The cache keeps its entries and its tag index in vectors; these lemmas
//! relate operations on such vectors to the maps they stand for.
use vstd::prelude::*;

verus! {

/// The map that a sequence of pairs stands for; a later pair wins over an
/// earlier pair with the same key.
pub open spec fn assoc_map<K, V>(s: Seq<(K, V)>) -> Map<K, V>
    decreases s.len(),
{
    if s.len() == 0 {
        Map::empty()
    } else {
        assoc_map(s.drop_last()).insert(s.last().0, s.last().1)
    }
}

/// No two pairs of `s` share a key.
pub open spec fn distinct_keys<K, V>(s: Seq<(K, V)>) -> bool {
    forall|i: int, j: int|
        0 <= i < s.len() && 0 <= j < s.len() && i != j ==> #[trigger] s[i].0 != #[trigger] s[j].0
}

/// A key is in the map exactly when some pair carries it; the map is finite.
pub proof fn lemma_assoc_dom<K, V>(s: Seq<(K, V)>)
    ensures
        assoc_map(s).dom().finite(),
        forall|k: K|
            #[trigger] assoc_map(s).dom().contains(k) <==> exists|i: int|
                0 <= i < s.len() && #[trigger] s[i].0 == k,
    decreases s.len(),
{
    if s.len() > 0 {
        let p = s.drop_last();
        lemma_assoc_dom(p);
        assert forall|k: K| #[trigger] assoc_map(s).dom().contains(k) <==> exists|i: int|
            0 <= i < s.len() && #[trigger] s[i].0 == k by {
            if assoc_map(s).dom().contains(k) {
                if k == s.last().0 {
                    assert(s[s.len() - 1].0 == k);
                } else {
                    let i = choose|i: int| 0 <= i < p.len() && #[trigger] p[i].0 == k;
                    assert(s[i].0 == k);
                }
            }
            if exists|i: int| 0 <= i < s.len() && #[trigger] s[i].0 == k {
                let i = choose|i: int| 0 <= i < s.len() && #[trigger] s[i].0 == k;
                if i < s.len() - 1 {
                    assert(p[i].0 == k);
                }
            }
        }
    }
}

/// With distinct keys, the pair at `i` gives the map's value for its key.
pub proof fn lemma_assoc_index<K, V>(s: Seq<(K, V)>, i: int)
    requires
        distinct_keys(s),
        0 <= i < s.len(),
    ensures
        assoc_map(s).dom().contains(s[i].0),
        assoc_map(s)[s[i].0] == s[i].1,
    decreases s.len(),
{
    if i < s.len() - 1 {
        let p = s.drop_last();
        assert(distinct_keys(p)) by {
            assert forall|a: int, b: int|
                0 <= a < p.len() && 0 <= b < p.len() && a != b implies #[trigger] p[a].0
                != #[trigger] p[b].0 by {
                assert(p[a] == s[a] && p[b] == s[b]);
            }
        }
        assert(p[i] == s[i]);
        lemma_assoc_index(p, i);
        assert(s[i].0 != s[s.len() - 1].0);
    }
}

/// Dropping the pair at `i` removes its key from the map.
pub proof fn lemma_assoc_remove<K, V>(s: Seq<(K, V)>, i: int)
    requires
        distinct_keys(s),
        0 <= i < s.len(),
    ensures
        distinct_keys(s.remove(i)),
        assoc_map(s.remove(i)) == assoc_map(s).remove(s[i].0),
{
    let r = s.remove(i);
    assert(distinct_keys(r)) by {
        assert forall|a: int, b: int|
            0 <= a < r.len() && 0 <= b < r.len() && a != b implies #[trigger] r[a].0
            != #[trigger] r[b].0 by {
            let a2 = if a < i { a } else { a + 1 };
            let b2 = if b < i { b } else { b + 1 };
            assert(r[a] == s[a2] && r[b] == s[b2]);
        }
    }
    lemma_assoc_dom(s);
    lemma_assoc_dom(r);
    let m = assoc_map(s).remove(s[i].0);
    assert forall|k: K| #[trigger] assoc_map(r).dom().contains(k) <==> m.dom().contains(k) by {
        if assoc_map(r).dom().contains(k) {
            let a = choose|a: int| 0 <= a < r.len() && #[trigger] r[a].0 == k;
            let a2 = if a < i { a } else { a + 1 };
            assert(r[a] == s[a2]);
            assert(s[a2].0 == k);
        }
        if m.dom().contains(k) {
            let a = choose|a: int| 0 <= a < s.len() && #[trigger] s[a].0 == k;
            assert(a != i);
            if a < i {
                assert(r[a] == s[a]);
            } else {
                assert(r[a - 1] == s[a]);
            }
        }
    }
    assert forall|k: K| #[trigger] assoc_map(r).dom().contains(k) implies assoc_map(r)[k]
        == m[k] by {
        let a = choose|a: int| 0 <= a < r.len() && #[trigger] r[a].0 == k;
        let a2 = if a < i { a } else { a + 1 };
        assert(r[a] == s[a2]);
        lemma_assoc_index(r, a);
        lemma_assoc_index(s, a2);
    }
    assert(assoc_map(r) =~= m);
}

/// Appending a pair with a fresh key keeps the keys distinct.
pub proof fn lemma_assoc_push<K, V>(s: Seq<(K, V)>, k: K, v: V)
    requires
        distinct_keys(s),
        !assoc_map(s).dom().contains(k),
    ensures
        distinct_keys(s.push((k, v))),
        assoc_map(s.push((k, v))) == assoc_map(s).insert(k, v),
{
    let t = s.push((k, v));
    lemma_assoc_dom(s);
    assert(t.drop_last() =~= s);
    assert forall|a: int, b: int|
        0 <= a < t.len() && 0 <= b < t.len() && a != b implies #[trigger] t[a].0
        != #[trigger] t[b].0 by {
        if a < s.len() && b < s.len() {
            assert(t[a] == s[a] && t[b] == s[b]);
        } else if a < s.len() {
            assert(t[a] == s[a]);
            assert(s[a].0 != k);
        } else {
            assert(t[b] == s[b]);
            assert(s[b].0 != k);
        }
    }
}

/// With distinct keys, the map has one key per pair.
pub proof fn lemma_assoc_len<K, V>(s: Seq<(K, V)>)
    requires
        distinct_keys(s),
    ensures
        assoc_map(s).dom().len() == s.len(),
    decreases s.len(),
{
    lemma_assoc_dom(s);
    if s.len() > 0 {
        let p = s.drop_last();
        assert(distinct_keys(p)) by {
            assert forall|a: int, b: int|
                0 <= a < p.len() && 0 <= b < p.len() && a != b implies #[trigger] p[a].0
                != #[trigger] p[b].0 by {
                assert(p[a] == s[a] && p[b] == s[b]);
            }
        }
        lemma_assoc_len(p);
        lemma_assoc_dom(p);
        if assoc_map(p).dom().contains(s.last().0) {
            let a = choose|a: int| 0 <= a < p.len() && #[trigger] p[a].0 == s.last().0;
            assert(p[a] == s[a]);
            assert(s[a].0 == s[s.len() - 1].0);
        }
    }
}

} // verus!
