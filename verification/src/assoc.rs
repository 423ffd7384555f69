//! A mathematical model of an association list with byte-string keys:
//! the map it denotes when later entries overwrite earlier ones, and the
//! lemmas that connect scanning, updating and pushing entries to that map.

use vstd::prelude::*;

verus! {

/// The map denoted by a list of key/value entries; a later entry with the
/// same key overwrites an earlier one.
pub open spec fn assoc_map<V>(es: Seq<(Seq<u8>, V)>) -> Map<Seq<u8>, V>
    decreases es.len(),
{
    if es.len() == 0 {
        Map::empty()
    } else {
        assoc_map(es.drop_last()).insert(es.last().0, es.last().1)
    }
}

/// No two entries share a key.
pub open spec fn unique_keys<V>(es: Seq<(Seq<u8>, V)>) -> bool {
    forall|i: int, j: int| 0 <= i < j < es.len() ==> es[i].0 != es[j].0
}

/// The map contains a key exactly when some entry holds it.
pub proof fn lemma_assoc_contains<V>(es: Seq<(Seq<u8>, V)>, k: Seq<u8>)
    ensures
        assoc_map(es).contains_key(k) <==> exists|j: int| 0 <= j < es.len() && es[j].0 == k,
    decreases es.len(),
{
    if es.len() > 0 {
        lemma_assoc_contains(es.drop_last(), k);
        if es.last().0 == k {
            assert(es[es.len() - 1].0 == k);
        } else if assoc_map(es).contains_key(k) {
            let j = choose|j: int| 0 <= j < es.drop_last().len() && es.drop_last()[j].0 == k;
            assert(es[j].0 == k);
        } else if exists|j: int| 0 <= j < es.len() && es[j].0 == k {
            let j = choose|j: int| 0 <= j < es.len() && es[j].0 == k;
            assert(es.drop_last()[j].0 == k);
        }
    }
}

/// An entry whose key has no later occurrence gives the key's value.
pub proof fn lemma_assoc_value<V>(es: Seq<(Seq<u8>, V)>, k: Seq<u8>, j: int)
    requires
        0 <= j < es.len(),
        es[j].0 == k,
        forall|l: int| j < l < es.len() ==> es[l].0 != k,
    ensures
        assoc_map(es).contains_key(k),
        assoc_map(es)[k] == es[j].1,
    decreases es.len(),
{
    if j == es.len() - 1 {
        assert(assoc_map(es) == assoc_map(es.drop_last()).insert(k, es[j].1));
    } else {
        assert(es.last().0 != k);
        assert(forall|l: int| j < l < es.drop_last().len() ==> es.drop_last()[l].0 != k);
        assert(es.drop_last()[j].0 == k);
        lemma_assoc_value(es.drop_last(), k, j);
    }
}

/// Overwriting the entry that holds a key (with no later occurrence of it)
/// is the map's `insert` on that key.
pub proof fn lemma_assoc_update<V>(es: Seq<(Seq<u8>, V)>, k: Seq<u8>, v: V, j: int)
    requires
        0 <= j < es.len(),
        es[j].0 == k,
        forall|l: int| j < l < es.len() ==> es[l].0 != k,
    ensures
        assoc_map(es.update(j, (k, v))) == assoc_map(es).insert(k, v),
    decreases es.len(),
{
    let up = es.update(j, (k, v));
    if j == es.len() - 1 {
        assert(up.drop_last() =~= es.drop_last());
        assert(up.last() == (k, v));
        assert(assoc_map(up) == assoc_map(es.drop_last()).insert(k, v));
        assert(assoc_map(es.drop_last()).insert(k, es[j].1).insert(k, v) =~= assoc_map(
            es.drop_last(),
        ).insert(k, v));
    } else {
        assert(es.last().0 != k);
        assert(up.drop_last() =~= es.drop_last().update(j, (k, v)));
        assert(up.last() == es.last());
        assert(es.drop_last()[j].0 == k);
        assert(forall|l: int| j < l < es.drop_last().len() ==> es.drop_last()[l].0 != k);
        lemma_assoc_update(es.drop_last(), k, v, j);
        assert(assoc_map(up) == assoc_map(es.drop_last()).insert(k, v).insert(
            es.last().0,
            es.last().1,
        ));
        assert(assoc_map(es.drop_last()).insert(k, v).insert(es.last().0, es.last().1) =~=
        assoc_map(es.drop_last()).insert(es.last().0, es.last().1).insert(k, v));
    }
}

/// Appending an entry is the map's `insert` on its key.
pub proof fn lemma_assoc_push<V>(es: Seq<(Seq<u8>, V)>, k: Seq<u8>, v: V)
    ensures
        assoc_map(es.push((k, v))) == assoc_map(es).insert(k, v),
{
    assert(es.push((k, v)).drop_last() =~= es);
    assert(es.push((k, v)).last() == (k, v));
}

/// With unique keys, the map has exactly one key per entry.
pub proof fn lemma_assoc_dom_len<V>(es: Seq<(Seq<u8>, V)>)
    requires
        unique_keys(es),
    ensures
        assoc_map(es).dom().finite(),
        assoc_map(es).dom().len() == es.len(),
    decreases es.len(),
{
    broadcast use vstd::set::axiom_set_insert_len;

    if es.len() > 0 {
        assert(unique_keys(es.drop_last()));
        lemma_assoc_dom_len(es.drop_last());
        lemma_assoc_contains(es.drop_last(), es.last().0);
        assert forall|j: int|
            0 <= j < es.drop_last().len() implies es.drop_last()[j].0 != es.last().0 by {
            assert(es[j].0 != es[es.len() - 1].0);
        }
        assert(!assoc_map(es.drop_last()).contains_key(es.last().0));
        assert(assoc_map(es).dom() =~= assoc_map(es.drop_last()).dom().insert(es.last().0));
    }
}

} // verus!
