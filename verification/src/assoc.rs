//! A mathematical model of association lists: a sequence of key-value pairs
//! read as a finite map in which the *earliest* occurrence of a key wins.
//!
//! Both the file-name registry and the byte-keyed store are represented
//! concretely as vectors of pairs; their map views and the lemmas relating
//! scans, pushes and in-place updates to those views live here.

use vstd::prelude::*;

verus! {

/// The map described by an association list, with the first occurrence of a
/// key taking precedence over any later one.
pub open spec fn map_of<K, V>(s: Seq<(K, V)>) -> Map<K, V>
    decreases s.len(),
{
    if s.len() == 0 {
        Map::empty()
    } else {
        map_of(s.skip(1)).insert(s[0].0, s[0].1)
    }
}

/// A key is in the map exactly when some pair of the list carries it.
pub proof fn lemma_map_of_contains<K, V>(s: Seq<(K, V)>, k: K)
    ensures
        map_of(s).contains_key(k) <==> exists|j: int| 0 <= j < s.len() && s[j].0 == k,
    decreases s.len(),
{
    if s.len() > 0 {
        lemma_map_of_contains(s.skip(1), k);
        if s[0].0 == k {
            assert(map_of(s).contains_key(k));
        } else if map_of(s).contains_key(k) {
            let j = choose|j: int| 0 <= j < s.skip(1).len() && s.skip(1)[j].0 == k;
            assert(s[j + 1].0 == k);
        } else {
            assert forall|j: int| 0 <= j < s.len() implies s[j].0 != k by {
                if j > 0 {
                    assert(s.skip(1)[j - 1] == s[j]);
                }
            }
        }
    }
}

/// The first pair of the list that carries a key gives that key's value in
/// the map.
pub proof fn lemma_map_of_first_match<K, V>(s: Seq<(K, V)>, i: int)
    requires
        0 <= i < s.len(),
        forall|j: int| 0 <= j < i ==> s[j].0 != s[i].0,
    ensures
        map_of(s).contains_key(s[i].0),
        map_of(s)[s[i].0] == s[i].1,
    decreases s.len(),
{
    if i == 0 {
    } else {
        assert(s.skip(1)[i - 1] == s[i]);
        assert forall|j: int| 0 <= j < i - 1 implies (#[trigger] s.skip(1)[j]).0 != s.skip(1)[i - 1].0 by {
            assert(s.skip(1)[j] == s[j + 1]);
        }
        lemma_map_of_first_match(s.skip(1), i - 1);
        assert(s[0].0 != s[i].0);
    }
}

/// Appending a pair whose key is absent adds exactly that binding.
pub proof fn lemma_map_of_push<K, V>(s: Seq<(K, V)>, k: K, v: V)
    requires
        !map_of(s).contains_key(k),
    ensures
        map_of(s.push((k, v))) == map_of(s).insert(k, v),
    decreases s.len(),
{
    lemma_map_of_contains(s, k);
    if s.len() == 0 {
        let t = s.push((k, v));
        assert(t[0] == (k, v));
        assert(t.skip(1) =~= Seq::<(K, V)>::empty());
        assert(map_of(t) == map_of(t.skip(1)).insert(k, v));
        assert(map_of(t.skip(1)) =~= Map::<K, V>::empty());
        assert(map_of(s) =~= Map::<K, V>::empty());
        assert(map_of(t) =~= map_of(s).insert(k, v));
    } else {
        assert(s.push((k, v)).skip(1) =~= s.skip(1).push((k, v)));
        lemma_map_of_contains(s.skip(1), k);
        assert forall|j: int| 0 <= j < s.skip(1).len() implies (#[trigger] s.skip(1)[j]).0 != k by {
            assert(s.skip(1)[j] == s[j + 1]);
        }
        lemma_map_of_push(s.skip(1), k, v);
        assert(s[0].0 != k);
        assert(map_of(s.push((k, v))) =~= map_of(s).insert(k, v));
    }
}

/// Overwriting the value of the first pair that carries a key updates
/// exactly that key's binding.
pub proof fn lemma_map_of_update<K, V>(s: Seq<(K, V)>, i: int, k: K, v: V)
    requires
        0 <= i < s.len(),
        k == s[i].0,
        forall|j: int| 0 <= j < i ==> s[j].0 != s[i].0,
    ensures
        map_of(s.update(i, (k, v))) == map_of(s).insert(k, v),
    decreases s.len(),
{
    let t = s.update(i, (k, v));
    if i == 0 {
        assert(t.skip(1) =~= s.skip(1));
        assert(map_of(t) =~= map_of(s).insert(k, v));
    } else {
        assert(t.skip(1) =~= s.skip(1).update(i - 1, (k, v)));
        assert(s.skip(1)[i - 1] == s[i]);
        assert forall|j: int| 0 <= j < i - 1 implies (#[trigger] s.skip(1)[j]).0 != s.skip(1)[i - 1].0 by {
            assert(s.skip(1)[j] == s[j + 1]);
        }
        lemma_map_of_update(s.skip(1), i - 1, k, v);
        assert(s[0].0 != k);
        assert(map_of(t) =~= map_of(s).insert(k, v));
    }
}

} // verus!
