//! Lists of pairs keyed by text, and the mappings they stand for.

use vstd::prelude::*;

verus! {

/// Whether no key occurs twice.
pub open spec fn keys_distinct<V>(pairs: Seq<(Seq<char>, V)>) -> bool {
    forall|i: int, j: int| 0 <= i < j < pairs.len() ==> pairs[i].0 != pairs[j].0
}

/// The mapping that a list of pairs stands for; of two pairs with one key the later counts.
pub open spec fn map_of<V>(pairs: Seq<(Seq<char>, V)>) -> Map<Seq<char>, V>
    decreases pairs.len(),
{
    if pairs.len() == 0 {
        Map::<Seq<char>, V>::empty()
    } else {
        map_of(pairs.drop_last()).insert(pairs.last().0, pairs.last().1)
    }
}

/// A key is mapped exactly when some pair carries it.
pub proof fn lemma_map_of_dom<V>(pairs: Seq<(Seq<char>, V)>)
    ensures
        forall|k: Seq<char>| #[trigger]
            map_of(pairs).contains_key(k) <==> exists|i: int| 0 <= i < pairs.len() && pairs[i].0 == k,
    decreases pairs.len(),
{
    if pairs.len() > 0 {
        let init = pairs.drop_last();
        lemma_map_of_dom(init);
        assert forall|k: Seq<char>| #[trigger]
            map_of(pairs).contains_key(k) <==> exists|i: int|
                0 <= i < pairs.len() && pairs[i].0 == k by {
            if map_of(pairs).contains_key(k) {
                if k == pairs.last().0 {
                    assert(pairs[pairs.len() - 1].0 == k);
                } else {
                    assert(map_of(init).contains_key(k));
                    let i = choose|i: int| 0 <= i < init.len() && init[i].0 == k;
                    assert(pairs[i].0 == k);
                }
            }
            if exists|i: int| 0 <= i < pairs.len() && pairs[i].0 == k {
                let i = choose|i: int| 0 <= i < pairs.len() && pairs[i].0 == k;
                if i < pairs.len() - 1 {
                    assert(init[i].0 == k);
                    assert(map_of(init).contains_key(k));
                }
            }
        }
    }
}

/// With distinct keys, each pair is what its key maps to.
pub proof fn lemma_map_of_at<V>(pairs: Seq<(Seq<char>, V)>, i: int)
    requires
        keys_distinct(pairs),
        0 <= i < pairs.len(),
    ensures
        map_of(pairs).contains_key(pairs[i].0),
        map_of(pairs)[pairs[i].0] == pairs[i].1,
    decreases pairs.len(),
{
    if i < pairs.len() - 1 {
        let init = pairs.drop_last();
        assert(keys_distinct(init)) by {
            assert forall|a: int, b: int| 0 <= a < b < init.len() implies init[a].0 != init[b].0 by {
                assert(pairs[a].0 != pairs[b].0);
            }
        }
        lemma_map_of_at(init, i);
        assert(pairs[i].0 != pairs[pairs.len() - 1].0);
    }
}

/// With distinct keys, replacing the value of one pair replaces what its key maps to.
pub proof fn lemma_map_of_update<V>(pairs: Seq<(Seq<char>, V)>, i: int, a: V)
    requires
        keys_distinct(pairs),
        0 <= i < pairs.len(),
    ensures
        keys_distinct(pairs.update(i, (pairs[i].0, a))),
        map_of(pairs.update(i, (pairs[i].0, a))) == map_of(pairs).insert(pairs[i].0, a),
    decreases pairs.len(),
{
    let next = pairs.update(i, (pairs[i].0, a));
    assert(keys_distinct(next)) by {
        assert forall|x: int, y: int| 0 <= x < y < next.len() implies next[x].0 != next[y].0 by {
            assert(pairs[x].0 != pairs[y].0);
        }
    }
    let init = pairs.drop_last();
    if i == pairs.len() - 1 {
        assert(next.drop_last() =~= init);
        assert(map_of(next) =~= map_of(pairs).insert(pairs[i].0, a));
    } else {
        assert(keys_distinct(init)) by {
            assert forall|x: int, y: int| 0 <= x < y < init.len() implies init[x].0 != init[y].0 by {
                assert(pairs[x].0 != pairs[y].0);
            }
        }
        lemma_map_of_update(init, i, a);
        assert(next.drop_last() =~= init.update(i, (pairs[i].0, a)));
        assert(pairs[i].0 != pairs[pairs.len() - 1].0);
        assert(map_of(next) =~= map_of(pairs).insert(pairs[i].0, a));
    }
}

/// With distinct keys, a list without one of its pairs maps what the whole list maps, without
/// the key of that pair.
pub proof fn lemma_map_of_remove<V>(pairs: Seq<(Seq<char>, V)>, i: int)
    requires
        keys_distinct(pairs),
        0 <= i < pairs.len(),
    ensures
        keys_distinct(pairs.remove(i)),
        map_of(pairs.remove(i)) == map_of(pairs).remove(pairs[i].0),
    decreases pairs.len(),
{
    let next = pairs.remove(i);
    assert(keys_distinct(next)) by {
        assert forall|x: int, y: int| 0 <= x < y < next.len() implies next[x].0 != next[y].0 by {
            let a = if x < i { x } else { x + 1 };
            let b = if y < i { y } else { y + 1 };
            assert(pairs[a].0 != pairs[b].0);
        }
    }
    let init = pairs.drop_last();
    if i == pairs.len() - 1 {
        assert(next =~= init);
        lemma_map_of_dom(init);
        assert(!map_of(init).contains_key(pairs[i].0)) by {
            if map_of(init).contains_key(pairs[i].0) {
                let k = choose|k: int| 0 <= k < init.len() && init[k].0 == pairs[i].0;
                assert(pairs[k].0 != pairs[i].0);
            }
        }
        assert(map_of(next) =~= map_of(pairs).remove(pairs[i].0));
    } else {
        assert(keys_distinct(init)) by {
            assert forall|x: int, y: int| 0 <= x < y < init.len() implies init[x].0 != init[y].0 by {
                assert(pairs[x].0 != pairs[y].0);
            }
        }
        lemma_map_of_remove(init, i);
        assert(next.drop_last() =~= init.remove(i));
        assert(next.last() == pairs.last());
        assert(pairs[i].0 != pairs[pairs.len() - 1].0);
        assert(map_of(next) =~= map_of(pairs).remove(pairs[i].0));
    }
}

/// A pair appended under a key that the list lacks keeps the keys distinct.
pub proof fn lemma_push_distinct<V>(pairs: Seq<(Seq<char>, V)>, key: Seq<char>, value: V)
    requires
        keys_distinct(pairs),
        forall|k: int| 0 <= k < pairs.len() ==> pairs[k].0 != key,
    ensures
        keys_distinct(pairs.push((key, value))),
        map_of(pairs.push((key, value))) == map_of(pairs).insert(key, value),
{
    let next = pairs.push((key, value));
    assert(next.drop_last() =~= pairs);
}

} // verus!
