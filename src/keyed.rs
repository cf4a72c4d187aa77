//! Lists of key/value pairs read as finite maps.
//!
//! The contract keeps its records in vectors, in the order in which they were
//! added; each vector is viewed as a map from key to value. The lemmas here
//! relate the usual vector edits to the map that the list denotes.
use vstd::prelude::*;

verus! {

/// No key occurs twice in `s`.
pub open spec fn keys_unique<K, V>(s: Seq<(K, V)>) -> bool {
    forall|i: int, j: int| 0 <= i < s.len() && 0 <= j < s.len() && i != j ==> #[trigger] s[i].0 != #[trigger] s[j].0
}

/// The map that a list of pairs denotes; where a key repeats, the later pair wins.
pub open spec fn pairs_to_map<K, V>(s: Seq<(K, V)>) -> Map<K, V>
    decreases s.len(),
{
    if s.len() == 0 {
        Map::empty()
    } else {
        pairs_to_map(s.drop_last()).insert(s.last().0, s.last().1)
    }
}

/// Appending a pair inserts it.
pub proof fn lemma_pairs_push<K, V>(s: Seq<(K, V)>, p: (K, V))
    ensures
        pairs_to_map(s.push(p)) == pairs_to_map(s).insert(p.0, p.1),
{
    assert(s.push(p).drop_last() =~= s);
}

/// A key is in the map exactly when some pair carries it.
pub proof fn lemma_pairs_dom<K, V>(s: Seq<(K, V)>, k: K)
    ensures
        pairs_to_map(s).contains_key(k) <==> exists|i: int| 0 <= i < s.len() && (#[trigger] s[i]).0 == k,
    decreases s.len(),
{
    if s.len() > 0 {
        let t = s.drop_last();
        lemma_pairs_dom(t, k);
        if pairs_to_map(s).contains_key(k) {
            if s.last().0 == k {
                assert(s[s.len() - 1].0 == k);
            } else {
                let i = choose|i: int| 0 <= i < t.len() && (#[trigger] t[i]).0 == k;
                assert(s[i].0 == k);
            }
        }
        if exists|i: int| 0 <= i < s.len() && (#[trigger] s[i]).0 == k {
            let i = choose|i: int| 0 <= i < s.len() && (#[trigger] s[i]).0 == k;
            if i < s.len() - 1 {
                assert(t[i].0 == k);
            }
        }
    }
}

/// With unique keys, each pair's value is the value of its key.
pub proof fn lemma_pairs_value<K, V>(s: Seq<(K, V)>, i: int)
    requires
        keys_unique(s),
        0 <= i < s.len(),
    ensures
        pairs_to_map(s).contains_key(s[i].0),
        pairs_to_map(s)[s[i].0] == s[i].1,
    decreases s.len(),
{
    let t = s.drop_last();
    if i < s.len() - 1 {
        assert(keys_unique(t)) by {
            assert forall|a: int, b: int| 0 <= a < t.len() && 0 <= b < t.len() && a != b implies #[trigger] t[a].0 != #[trigger] t[b].0 by {
                assert(t[a] == s[a] && t[b] == s[b]);
            }
        }
        lemma_pairs_value(t, i);
        assert(s[s.len() - 1].0 != s[i].0);
    }
}

/// Replacing the value of one pair in place updates that key only.
pub proof fn lemma_pairs_update<K, V>(s: Seq<(K, V)>, i: int, v: V)
    requires
        keys_unique(s),
        0 <= i < s.len(),
    ensures
        keys_unique(s.update(i, (s[i].0, v))),
        pairs_to_map(s.update(i, (s[i].0, v))) == pairs_to_map(s).insert(s[i].0, v),
{
    let u = s.update(i, (s[i].0, v));
    assert(keys_unique(u)) by {
        assert forall|a: int, b: int| 0 <= a < u.len() && 0 <= b < u.len() && a != b implies #[trigger] u[a].0 != #[trigger] u[b].0 by {
            assert(u[a].0 == s[a].0 && u[b].0 == s[b].0);
        }
    }
    let m = pairs_to_map(u);
    let n = pairs_to_map(s).insert(s[i].0, v);
    assert forall|k: K| m.contains_key(k) <==> n.contains_key(k) by {
        lemma_pairs_dom(u, k);
        lemma_pairs_dom(s, k);
        if m.contains_key(k) {
            let j = choose|j: int| 0 <= j < u.len() && (#[trigger] u[j]).0 == k;
            assert(s[j].0 == k);
        }
        if n.contains_key(k) && k != s[i].0 {
            let j = choose|j: int| 0 <= j < s.len() && (#[trigger] s[j]).0 == k;
            assert(u[j].0 == k);
        }
        if k == s[i].0 {
            assert(u[i].0 == k);
        }
    }
    assert forall|k: K| #[trigger] m.contains_key(k) implies m[k] == n[k] by {
        lemma_pairs_dom(u, k);
        let j = choose|j: int| 0 <= j < u.len() && (#[trigger] u[j]).0 == k;
        lemma_pairs_value(u, j);
        if j != i {
            lemma_pairs_value(s, j);
        }
    }
    assert(m =~= n);
}

/// Removing one pair removes its key only.
pub proof fn lemma_pairs_remove<K, V>(s: Seq<(K, V)>, i: int)
    requires
        keys_unique(s),
        0 <= i < s.len(),
    ensures
        keys_unique(s.remove(i)),
        pairs_to_map(s.remove(i)) == pairs_to_map(s).remove(s[i].0),
{
    let r = s.remove(i);
    assert forall|a: int| 0 <= a < r.len() implies #[trigger] r[a] == (if a < i { s[a] } else { s[a + 1] }) by {
    }
    assert(keys_unique(r)) by {
        assert forall|a: int, b: int| 0 <= a < r.len() && 0 <= b < r.len() && a != b implies #[trigger] r[a].0 != #[trigger] r[b].0 by {
            let a2 = if a < i { a } else { a + 1 };
            let b2 = if b < i { b } else { b + 1 };
            assert(r[a] == s[a2] && r[b] == s[b2]);
        }
    }
    let m = pairs_to_map(r);
    let n = pairs_to_map(s).remove(s[i].0);
    assert forall|k: K| m.contains_key(k) <==> n.contains_key(k) by {
        lemma_pairs_dom(r, k);
        lemma_pairs_dom(s, k);
        if m.contains_key(k) {
            let j = choose|j: int| 0 <= j < r.len() && (#[trigger] r[j]).0 == k;
            let j2 = if j < i { j } else { j + 1 };
            assert(r[j] == s[j2]);
            assert(s[j2].0 == k);
            assert(k != s[i].0);
        }
        if n.contains_key(k) {
            let j = choose|j: int| 0 <= j < s.len() && (#[trigger] s[j]).0 == k;
            assert(j != i);
            let j2 = if j < i { j } else { j - 1 };
            assert(r[j2] == s[j]);
            assert(r[j2].0 == k);
        }
    }
    assert forall|k: K| #[trigger] m.contains_key(k) implies m[k] == n[k] by {
        lemma_pairs_dom(r, k);
        let j = choose|j: int| 0 <= j < r.len() && (#[trigger] r[j]).0 == k;
        let j2 = if j < i { j } else { j + 1 };
        assert(r[j] == s[j2]);
        lemma_pairs_value(r, j);
        lemma_pairs_value(s, j2);
    }
    assert(m =~= n);
}

/// With unique keys, the map has one key per pair.
pub proof fn lemma_pairs_len<K, V>(p: Seq<(K, V)>)
    requires
        keys_unique(p),
    ensures
        pairs_to_map(p).len() == p.len(),
        pairs_to_map(p).dom().finite(),
    decreases p.len(),
{
    if p.len() > 0 {
        let t = p.drop_last();
        assert(keys_unique(t)) by {
            assert forall|a: int, b: int| 0 <= a < t.len() && 0 <= b < t.len() && a != b implies #[trigger] t[a].0 != #[trigger] t[b].0 by {
                assert(t[a] == p[a] && t[b] == p[b]);
            }
        }
        lemma_pairs_len(t);
        lemma_pairs_dom(t, p.last().0);
        if pairs_to_map(t).contains_key(p.last().0) {
            let j = choose|j: int| 0 <= j < t.len() && (#[trigger] t[j]).0 == p.last().0;
            assert(p[j].0 == p[p.len() - 1].0);
        }
    }
}

} // verus!
