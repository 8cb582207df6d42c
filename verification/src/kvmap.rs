//! Spec-level view of an association list as a `Map`, with the lemmas that
//! connect the list operations (push, update, remove) to map operations.
//! The stateful components store their entries in vectors with unique keys
//! and state their contracts over this map view.

use vstd::prelude::*;

verus! {

/// No key occurs twice.
pub open spec fn kv_unique<V>(s: Seq<(Seq<char>, V)>) -> bool {
    forall|i: int, j: int|
        0 <= i < j < s.len() ==> (#[trigger] s[i]).0 != (#[trigger] s[j]).0
}

/// The map an association list denotes; a later entry would win.
pub open spec fn kv_map<V>(s: Seq<(Seq<char>, V)>) -> Map<Seq<char>, V>
    decreases s.len(),
{
    if s.len() == 0 {
        Map::empty()
    } else {
        kv_map(s.drop_last()).insert(s.last().0, s.last().1)
    }
}

pub proof fn lemma_kv_contains<V>(s: Seq<(Seq<char>, V)>, k: Seq<char>)
    ensures
        kv_map(s).contains_key(k) <==> exists|i: int| 0 <= i < s.len() && (#[trigger] s[i]).0 == k,
    decreases s.len(),
{
    if s.len() > 0 {
        lemma_kv_contains(s.drop_last(), k);
        if s.last().0 == k {
            assert(s[s.len() - 1].0 == k);
        } else if kv_map(s).contains_key(k) {
            let i = choose|i: int| 0 <= i < s.drop_last().len() && (#[trigger] s.drop_last()[i]).0
                == k;
            assert(s[i].0 == k);
        } else {
            assert(forall|i: int|
                0 <= i < s.len() - 1 ==> (#[trigger] s[i]) == s.drop_last()[i]);
        }
    }
}

pub proof fn lemma_kv_index<V>(s: Seq<(Seq<char>, V)>, i: int)
    requires
        kv_unique(s),
        0 <= i < s.len(),
    ensures
        kv_map(s).contains_key(s[i].0),
        kv_map(s)[s[i].0] == s[i].1,
    decreases s.len(),
{
    if i == s.len() - 1 {
        lemma_kv_contains(s, s[i].0);
    } else {
        assert(s.drop_last()[i] == s[i]);
        lemma_kv_index(s.drop_last(), i);
        assert(s.last().0 != s[i].0);
    }
}

pub proof fn lemma_kv_push<V>(s: Seq<(Seq<char>, V)>, k: Seq<char>, v: V)
    ensures
        kv_map(s.push((k, v))) == kv_map(s).insert(k, v),
{
    assert(s.push((k, v)).drop_last() =~= s);
}

pub proof fn lemma_kv_update<V>(s: Seq<(Seq<char>, V)>, i: int, v: V)
    requires
        kv_unique(s),
        0 <= i < s.len(),
    ensures
        kv_map(s.update(i, (s[i].0, v))) == kv_map(s).insert(s[i].0, v),
    decreases s.len(),
{
    let t = s.update(i, (s[i].0, v));
    if i == s.len() - 1 {
        assert(t.drop_last() =~= s.drop_last());
        assert(t.last() == (s[i].0, v));
        assert(kv_map(s.drop_last()).insert(s[i].0, s[i].1).insert(s[i].0, v) =~= kv_map(
            s.drop_last(),
        ).insert(s[i].0, v));
    } else {
        assert(t.drop_last() =~= s.drop_last().update(i, (s[i].0, v)));
        assert(s.drop_last()[i] == s[i]);
        lemma_kv_update(s.drop_last(), i, v);
        assert(t.last() == s.last());
        assert(s.last().0 != s[i].0);
        assert(kv_map(s.drop_last()).insert(s[i].0, v).insert(s.last().0, s.last().1) =~= kv_map(
            s.drop_last(),
        ).insert(s.last().0, s.last().1).insert(s[i].0, v));
    }
}

pub proof fn lemma_kv_remove<V>(s: Seq<(Seq<char>, V)>, i: int)
    requires
        kv_unique(s),
        0 <= i < s.len(),
    ensures
        kv_map(s.remove(i)) == kv_map(s).remove(s[i].0),
    decreases s.len(),
{
    let t = s.remove(i);
    if i == s.len() - 1 {
        assert(t =~= s.drop_last());
        lemma_kv_contains(s.drop_last(), s[i].0);
        assert(forall|j: int|
            0 <= j < s.len() - 1 ==> (#[trigger] s.drop_last()[j]).0 == s[j].0);
        assert(!kv_map(s.drop_last()).contains_key(s[i].0));
        assert(kv_map(s.drop_last()).insert(s[i].0, s[i].1).remove(s[i].0) =~= kv_map(
            s.drop_last(),
        ));
    } else {
        assert(t.drop_last() =~= s.drop_last().remove(i));
        assert(s.drop_last()[i] == s[i]);
        lemma_kv_remove(s.drop_last(), i);
        assert(t.last() == s.last());
        assert(s.last().0 != s[i].0);
        assert(kv_map(s.drop_last()).remove(s[i].0).insert(s.last().0, s.last().1) =~= kv_map(
            s.drop_last(),
        ).insert(s.last().0, s.last().1).remove(s[i].0));
    }
}

} // verus!
