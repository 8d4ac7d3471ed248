use vstd::prelude::*;

verus! {

/// The map denoted by a sequence of key/value pairs; a later pair with
/// the same key overrides an earlier one.
pub open spec fn assoc_map<V>(s: Seq<(Seq<char>, V)>) -> Map<Seq<char>, V>
    decreases s.len(),
{
    if s.len() == 0 {
        Map::empty()
    } else {
        assoc_map(s.drop_last()).insert(s.last().0, s.last().1)
    }
}

/// No two pairs share a key.
pub open spec fn keys_unique<V>(s: Seq<(Seq<char>, V)>) -> bool {
    forall|i: int, j: int| 0 <= i < j < s.len() ==> s[i].0 != s[j].0
}

/// Some pair carries the key `k`.
pub open spec fn has_key<V>(s: Seq<(Seq<char>, V)>, k: Seq<char>) -> bool {
    exists|i: int| 0 <= i < s.len() && s[i].0 == k
}

/// The domain of the denoted map holds exactly the keys of the pairs.
pub proof fn lemma_assoc_map_dom<V>(s: Seq<(Seq<char>, V)>)
    ensures
        forall|k: Seq<char>| #[trigger] assoc_map(s).contains_key(k) <==> has_key(s, k),
    decreases s.len(),
{
    if s.len() > 0 {
        lemma_assoc_map_dom(s.drop_last());
        assert forall|k: Seq<char>| #[trigger] assoc_map(s).contains_key(k) implies has_key(
            s,
            k,
        ) by {
            if k == s.last().0 {
                assert(s[s.len() - 1].0 == k);
            } else {
                assert(assoc_map(s.drop_last()).contains_key(k));
                assert(has_key(s.drop_last(), k));
                let i = choose|i: int| 0 <= i < s.drop_last().len() && s.drop_last()[i].0 == k;
                assert(s.drop_last()[i] == s[i]);
                assert(s[i].0 == k);
            }
        }
        assert forall|k: Seq<char>| has_key(s, k) implies #[trigger] assoc_map(s).contains_key(
            k,
        ) by {
            let i = choose|i: int| 0 <= i < s.len() && s[i].0 == k;
            if i < s.len() - 1 {
                assert(s.drop_last()[i].0 == k);
                assert(has_key(s.drop_last(), k));
                assert(assoc_map(s.drop_last()).contains_key(k));
            } else {
                assert(k == s.last().0);
            }
        }
    }
}

/// With unique keys, the denoted map sends each pair's key to its value.
pub proof fn lemma_assoc_map_index<V>(s: Seq<(Seq<char>, V)>, i: int)
    requires
        keys_unique(s),
        0 <= i < s.len(),
    ensures
        assoc_map(s).contains_key(s[i].0),
        assoc_map(s)[s[i].0] == s[i].1,
    decreases s.len(),
{
    if i < s.len() - 1 {
        lemma_assoc_map_index(s.drop_last(), i);
        assert(s.drop_last()[i] == s[i]);
        assert(s[i].0 != s.last().0);
    }
}

/// Replacing the value of the pair at `i` denotes `insert` on the map.
pub proof fn lemma_assoc_map_update<V>(s: Seq<(Seq<char>, V)>, i: int, v: V)
    requires
        keys_unique(s),
        0 <= i < s.len(),
    ensures
        assoc_map(s.update(i, (s[i].0, v))) == assoc_map(s).insert(s[i].0, v),
    decreases s.len(),
{
    let k = s[i].0;
    let t = s.update(i, (k, v));
    if i == s.len() - 1 {
        assert(t.drop_last() =~= s.drop_last());
        assert(assoc_map(t) == assoc_map(s.drop_last()).insert(k, v));
        assert(assoc_map(s.drop_last()).insert(k, s[i].1).insert(k, v) =~= assoc_map(
            s.drop_last(),
        ).insert(k, v));
    } else {
        lemma_assoc_map_update(s.drop_last(), i, v);
        assert(t.drop_last() =~= s.drop_last().update(i, (k, v)));
        assert(t.last() == s.last());
        assert(s[i].0 != s.last().0);
        assert(assoc_map(s.drop_last()).insert(k, v).insert(s.last().0, s.last().1) =~= assoc_map(
            s.drop_last(),
        ).insert(s.last().0, s.last().1).insert(k, v));
    }
}

/// Appending a pair denotes `insert` on the map.
pub proof fn lemma_assoc_map_push<V>(s: Seq<(Seq<char>, V)>, k: Seq<char>, v: V)
    ensures
        assoc_map(s.push((k, v))) == assoc_map(s).insert(k, v),
{
    assert(s.push((k, v)).drop_last() =~= s);
    assert(s.push((k, v)).last() == (k, v));
}

/// With unique keys, removing the pair at `i` denotes `remove` on the map.
pub proof fn lemma_assoc_map_remove<V>(s: Seq<(Seq<char>, V)>, i: int)
    requires
        keys_unique(s),
        0 <= i < s.len(),
    ensures
        assoc_map(s.remove(i)) == assoc_map(s).remove(s[i].0),
    decreases s.len(),
{
    let k = s[i].0;
    let t = s.remove(i);
    lemma_assoc_map_dom(s.drop_last());
    if i == s.len() - 1 {
        assert(t =~= s.drop_last());
        assert forall|j: int| 0 <= j < s.drop_last().len() implies s.drop_last()[j].0 != k by {
            assert(s[j].0 != s[s.len() - 1].0);
        }
        assert(!has_key(s.drop_last(), k));
        assert(assoc_map(s.drop_last()).insert(k, s.last().1).remove(k) =~= assoc_map(
            s.drop_last(),
        ));
    } else {
        lemma_assoc_map_remove(s.drop_last(), i);
        assert(t.drop_last() =~= s.drop_last().remove(i));
        assert(t.last() == s.last());
        assert(s[i].0 != s.last().0);
        assert(assoc_map(s.drop_last()).remove(k).insert(s.last().0, s.last().1) =~= assoc_map(
            s.drop_last(),
        ).insert(s.last().0, s.last().1).remove(k));
    }
}

/// Finds the index of the first pair whose key reads `key`.
pub fn assoc_find<T>(entries: &Vec<(String, T)>, key: &String) -> (r: Option<usize>)
    ensures
        match r {
            Some(i) => i < entries@.len() && entries@[i as int].0@ == key@,
            None => forall|i: int| 0 <= i < entries@.len() ==> entries@[i].0@ != key@,
        },
{
    let mut i: usize = 0;
    while i < entries.len()
        invariant
            i <= entries@.len(),
            forall|j: int| 0 <= j < i ==> entries@[j].0@ != key@,
        decreases entries@.len() - i,
    {
        if entries[i].0 == *key {
            return Some(i);
        }
        i = i + 1;
    }
    None
}

} // verus!
