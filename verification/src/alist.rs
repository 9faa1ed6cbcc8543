//! Sequences of key-value pairs abstracted as maps.
//!
//! The registry and the schema cache both store their entries in vectors;
//! their contracts speak of maps. `amap` is the abstraction function, and
//! the lemmas here relate the vector operations (push, update, remove) to
//! the corresponding map operations, provided the keys are distinct.

use vstd::prelude::*;

verus! {

/// The map abstraction of a sequence of key-value pairs; a later pair wins.
pub open spec fn amap<V>(s: Seq<(Seq<char>, V)>) -> Map<Seq<char>, V>
    decreases s.len(),
{
    if s.len() == 0 {
        Map::empty()
    } else {
        amap(s.drop_last()).insert(s.last().0, s.last().1)
    }
}

/// Whether the keys of an association sequence are pairwise distinct.
pub open spec fn distinct_keys<V>(s: Seq<(Seq<char>, V)>) -> bool {
    forall|i: int, j: int| 0 <= i < j < s.len() ==> s[i].0 != s[j].0
}

/// A key is in the map abstraction exactly when some pair holds it.
pub proof fn lemma_amap_contains<V>(s: Seq<(Seq<char>, V)>, k: Seq<char>)
    ensures
        amap(s).contains_key(k) <==> exists|i: int| 0 <= i < s.len() && s[i].0 == k,
    decreases s.len(),
{
    if s.len() > 0 {
        lemma_amap_contains(s.drop_last(), k);
        if s.last().0 == k {
            assert(s[s.len() - 1].0 == k);
        } else {
            if amap(s).contains_key(k) {
                let i = choose|i: int|
                    0 <= i < s.drop_last().len() && s.drop_last()[i].0 == k;
                assert(s[i].0 == k);
            }
            if exists|i: int| 0 <= i < s.len() && s[i].0 == k {
                let i = choose|i: int| 0 <= i < s.len() && s[i].0 == k;
                assert(s.drop_last()[i].0 == k);
            }
        }
    }
}

/// Dropping the last pair keeps the keys distinct.
pub proof fn lemma_distinct_drop_last<V>(s: Seq<(Seq<char>, V)>)
    requires
        distinct_keys(s),
        s.len() > 0,
    ensures
        distinct_keys(s.drop_last()),
{
    assert forall|i: int, j: int|
        0 <= i < j < s.drop_last().len() implies s.drop_last()[i].0 != s.drop_last()[j].0 by {
        assert(s.drop_last()[i] == s[i]);
        assert(s.drop_last()[j] == s[j]);
    }
}

/// Removing one pair keeps the keys distinct.
pub proof fn lemma_distinct_remove<V>(s: Seq<(Seq<char>, V)>, i: int)
    requires
        distinct_keys(s),
        0 <= i < s.len(),
    ensures
        distinct_keys(s.remove(i)),
{
    assert forall|p: int, q: int|
        0 <= p < q < s.remove(i).len() implies s.remove(i)[p].0 != s.remove(i)[q].0 by {
        let p2: int = if p < i { p } else { p + 1 };
        let q2: int = if q < i { q } else { q + 1 };
        assert(s.remove(i)[p] == s[p2]);
        assert(s.remove(i)[q] == s[q2]);
    }
}

/// The pair at an index supplies the mapped value, when keys are distinct.
pub proof fn lemma_amap_index<V>(s: Seq<(Seq<char>, V)>, i: int)
    requires
        distinct_keys(s),
        0 <= i < s.len(),
    ensures
        amap(s).contains_key(s[i].0),
        amap(s)[s[i].0] == s[i].1,
    decreases s.len(),
{
    if i == s.len() - 1 {
    } else {
        lemma_distinct_drop_last(s);
        assert(s.drop_last()[i] == s[i]);
        lemma_amap_index(s.drop_last(), i);
        assert(s.last().0 != s[i].0);
    }
}

/// Appending a pair with a fresh key inserts it into the abstraction.
pub proof fn lemma_amap_push<V>(s: Seq<(Seq<char>, V)>, k: Seq<char>, v: V)
    ensures
        amap(s.push((k, v))) == amap(s).insert(k, v),
{
    assert(s.push((k, v)).drop_last() =~= s);
    assert(s.push((k, v)).last() == (k, v));
}

/// Replacing the value at an index updates the abstraction at its key.
pub proof fn lemma_amap_update<V>(s: Seq<(Seq<char>, V)>, i: int, v: V)
    requires
        distinct_keys(s),
        0 <= i < s.len(),
    ensures
        amap(s.update(i, (s[i].0, v))) == amap(s).insert(s[i].0, v),
    decreases s.len(),
{
    let k = s[i].0;
    let t = s.update(i, (k, v));
    if i == s.len() - 1 {
        assert(t.drop_last() =~= s.drop_last());
        assert(t.last() == (k, v));
        assert(amap(s.drop_last()).insert(k, s[i].1).insert(k, v) =~= amap(
            s.drop_last(),
        ).insert(k, v));
    } else {
        lemma_distinct_drop_last(s);
        assert(t.drop_last() =~= s.drop_last().update(i, (k, v)));
        assert(s.drop_last()[i] == s[i]);
        lemma_amap_update(s.drop_last(), i, v);
        assert(t.last() == s.last());
        assert(k != s.last().0);
        assert(amap(s.drop_last()).insert(k, v).insert(s.last().0, s.last().1) =~= amap(
            s.drop_last(),
        ).insert(s.last().0, s.last().1).insert(k, v));
    }
}

/// Removing the pair at an index removes its key from the abstraction.
pub proof fn lemma_amap_remove<V>(s: Seq<(Seq<char>, V)>, i: int)
    requires
        distinct_keys(s),
        0 <= i < s.len(),
    ensures
        amap(s.remove(i)) == amap(s).remove(s[i].0),
    decreases s.len(),
{
    let k = s[i].0;
    if i == s.len() - 1 {
        assert(s.remove(i) =~= s.drop_last());
        lemma_amap_contains(s.drop_last(), k);
        assert forall|j: int| 0 <= j < s.drop_last().len() implies s.drop_last()[j].0 != k by {
            assert(s.drop_last()[j] == s[j]);
        }
        assert(!amap(s.drop_last()).contains_key(k));
        assert(amap(s.drop_last()).insert(k, s.last().1).remove(k) =~= amap(s.drop_last()));
    } else {
        lemma_distinct_drop_last(s);
        assert(s.remove(i).drop_last() =~= s.drop_last().remove(i));
        assert(s.remove(i).last() == s.last());
        assert(s.drop_last()[i] == s[i]);
        lemma_amap_remove(s.drop_last(), i);
        assert(k != s.last().0);
        assert(amap(s.drop_last()).remove(k).insert(s.last().0, s.last().1) =~= amap(
            s.drop_last(),
        ).insert(s.last().0, s.last().1).remove(k));
    }
}

/// With distinct keys the abstraction has one entry per pair.
pub proof fn lemma_amap_len<V>(s: Seq<(Seq<char>, V)>)
    requires
        distinct_keys(s),
    ensures
        amap(s).dom().finite(),
        amap(s).len() == s.len(),
    decreases s.len(),
{
    if s.len() > 0 {
        lemma_distinct_drop_last(s);
        lemma_amap_len(s.drop_last());
        lemma_amap_contains(s.drop_last(), s.last().0);
        assert forall|j: int|
            0 <= j < s.drop_last().len() implies s.drop_last()[j].0 != s.last().0 by {
            assert(s.drop_last()[j] == s[j]);
        }
        assert(!amap(s.drop_last()).contains_key(s.last().0));
    }
}

} // verus!
