//! The mapping denoted by a sequence of key/value pairs, and how to read it
//! entry by entry. Shared by the baseline and the debounce table, which both
//! keep their pairs in a vector with pairwise-distinct keys.

use vstd::prelude::*;

verus! {

/// The mapping that a sequence of (key, value) pairs denotes: later pairs
/// win, though a well-formed table never repeats a key.
pub open spec fn map_of_pairs<V>(es: Seq<(Seq<char>, V)>) -> Map<Seq<char>, V>
    decreases es.len(),
{
    if es.len() == 0 {
        Map::empty()
    } else {
        map_of_pairs(es.drop_last()).insert(es.last().0, es.last().1)
    }
}

pub proof fn lemma_map_of_pairs_contains<V>(es: Seq<(Seq<char>, V)>, k: Seq<char>)
    ensures
        map_of_pairs(es).contains_key(k) <==> exists|i: int| 0 <= i < es.len() && es[i].0 == k,
    decreases es.len(),
{
    if es.len() > 0 {
        lemma_map_of_pairs_contains(es.drop_last(), k);
        if map_of_pairs(es).contains_key(k) {
            if es.last().0 != k {
                let i = choose|i: int| 0 <= i < es.drop_last().len() && es.drop_last()[i].0 == k;
                assert(es[i].0 == k);
            }
        }
        if exists|i: int| 0 <= i < es.len() && es[i].0 == k {
            let i = choose|i: int| 0 <= i < es.len() && es[i].0 == k;
            if i < es.len() - 1 {
                assert(es.drop_last()[i].0 == k);
            }
        }
    }
}

/// With pairwise-distinct keys, each pair gives the map's value at its key.
pub proof fn lemma_map_of_pairs_at<V>(es: Seq<(Seq<char>, V)>, i: int)
    requires
        forall|p: int, q: int| 0 <= p < q < es.len() ==> es[p].0 != es[q].0,
        0 <= i < es.len(),
    ensures
        map_of_pairs(es).contains_key(es[i].0),
        map_of_pairs(es)[es[i].0] == es[i].1,
    decreases es.len(),
{
    lemma_map_of_pairs_contains(es, es[i].0);
    if i < es.len() - 1 {
        assert(es[i].0 != es.last().0);
        assert(es.drop_last()[i] == es[i]);
        lemma_map_of_pairs_at(es.drop_last(), i);
    }
}

} // verus!
