//! Sequences of key and value as mappings: the model of the tables that the
//! library keeps in vectors.

use vstd::prelude::*;

verus! {

/// No key occurs twice among `pairs`.
pub open spec fn distinct_keys<K, W>(pairs: Seq<(K, W)>) -> bool {
    forall|i: int, j: int|
        0 <= i < j < pairs.len() ==> (#[trigger] pairs[i]).0 != (#[trigger] pairs[j]).0
}

/// The mapping that `pairs` describe when they are inserted one after the
/// other: a later pair replaces an earlier one with the same key.
pub open spec fn assoc_map<K, W>(pairs: Seq<(K, W)>) -> Map<K, W>
    decreases pairs.len(),
{
    if pairs.len() == 0 {
        Map::empty()
    } else {
        assoc_map(pairs.drop_last()).insert(pairs.last().0, pairs.last().1)
    }
}

/// `key` occurs in `pairs` at position `at`.
pub open spec fn holds_at<K, W>(pairs: Seq<(K, W)>, key: K, at: int) -> bool {
    0 <= at < pairs.len() && pairs[at].0 == key
}

/// The domain of `assoc_map` is the set of keys that occur.
pub proof fn lemma_assoc_map_dom<K, W>(pairs: Seq<(K, W)>, key: K)
    ensures
        assoc_map(pairs).contains_key(key) <==> exists|at: int| holds_at(pairs, key, at),
    decreases pairs.len(),
{
    if pairs.len() == 0 {
    } else {
        let front = pairs.drop_last();
        lemma_assoc_map_dom(front, key);
        if pairs.last().0 == key {
            assert(holds_at(pairs, key, pairs.len() - 1));
        } else if assoc_map(front).contains_key(key) {
            let at = choose|at: int| holds_at(front, key, at);
            assert(holds_at(pairs, key, at));
        } else if exists|at: int| holds_at(pairs, key, at) {
            let at = choose|at: int| holds_at(pairs, key, at);
            assert(holds_at(front, key, at));
        }
    }
}

/// Where no key occurs twice, each value is found under its own
/// key.
pub proof fn lemma_assoc_map_value<K, W>(pairs: Seq<(K, W)>, at: int)
    requires
        distinct_keys(pairs),
        0 <= at < pairs.len(),
    ensures
        assoc_map(pairs).contains_key(pairs[at].0),
        assoc_map(pairs)[pairs[at].0] == pairs[at].1,
    decreases pairs.len(),
{
    let front = pairs.drop_last();
    if at == pairs.len() - 1 {
    } else {
        assert(distinct_keys(front)) by {
            assert forall|i: int, j: int| 0 <= i < j < front.len() implies (#[trigger] front[i]).0
                != (#[trigger] front[j]).0 by {
                assert(front[i] == pairs[i] && front[j] == pairs[j]);
            }
        }
        lemma_assoc_map_value(front, at);
        assert(front[at] == pairs[at]);
        assert(pairs[at].0 != pairs[pairs.len() - 1].0);
    }
}

/// Where no key occurs twice, the mapping has one entry per pair.
pub proof fn lemma_assoc_map_len<K, W>(pairs: Seq<(K, W)>)
    requires
        distinct_keys(pairs),
    ensures
        assoc_map(pairs).dom().finite(),
        assoc_map(pairs).len() == pairs.len(),
    decreases pairs.len(),
{
    if pairs.len() == 0 {
    } else {
        let front = pairs.drop_last();
        assert(distinct_keys(front)) by {
            assert forall|i: int, j: int| 0 <= i < j < front.len() implies (#[trigger] front[i]).0
                != (#[trigger] front[j]).0 by {
                assert(front[i] == pairs[i] && front[j] == pairs[j]);
            }
        }
        lemma_assoc_map_len(front);
        let key = pairs.last().0;
        lemma_assoc_map_dom(front, key);
        if exists|at: int| holds_at(front, key, at) {
            let at = choose|at: int| holds_at(front, key, at);
            assert(pairs[at].0 == pairs[pairs.len() - 1].0);
            assert(false);
        }
    }
}

/// Replacing the value of a pair leaves the other entries of the mapping
/// as they were.
pub proof fn lemma_assoc_map_update<K, W>(pairs: Seq<(K, W)>, at: int, value: W)
    requires
        distinct_keys(pairs),
        0 <= at < pairs.len(),
    ensures
        distinct_keys(pairs.update(at, (pairs[at].0, value))),
        assoc_map(pairs.update(at, (pairs[at].0, value))) == assoc_map(pairs).insert(
            pairs[at].0,
            value,
        ),
{
    let key = pairs[at].0;
    let after = pairs.update(at, (key, value));
    assert(distinct_keys(after)) by {
        assert forall|i: int, j: int| 0 <= i < j < after.len() implies (#[trigger] after[i]).0 != (
        #[trigger] after[j]).0 by {
            assert(after[i].0 == pairs[i].0 && after[j].0 == pairs[j].0);
        }
    }
    let want = assoc_map(pairs).insert(key, value);
    assert forall|k: K| assoc_map(after).contains_key(k) <==> want.contains_key(k) by {
        lemma_assoc_map_dom(after, k);
        lemma_assoc_map_dom(pairs, k);
        if exists|p: int| holds_at(after, k, p) {
            let p = choose|p: int| holds_at(after, k, p);
            assert(holds_at(pairs, k, p));
        }
        if exists|p: int| holds_at(pairs, k, p) {
            let p = choose|p: int| holds_at(pairs, k, p);
            assert(holds_at(after, k, p));
        }
        if k == key {
            assert(holds_at(after, k, at));
        }
    }
    assert forall|k: K| assoc_map(after).contains_key(k) implies assoc_map(after)[k]
        == want[k] by {
        lemma_assoc_map_dom(after, k);
        let p = choose|p: int| holds_at(after, k, p);
        lemma_assoc_map_value(after, p);
        if p != at {
            lemma_assoc_map_value(pairs, p);
            assert(pairs[p].0 != pairs[at].0);
        }
    }
    assert(assoc_map(after) =~= want);
}

} // verus!
