//! Association lists: sequences of key/value pairs read as maps, later pairs
//! taking precedence, and how updating, adding and removing pairs changes the
//! map when no key occurs twice.

use vstd::prelude::*;

verus! {

/// The map that the pairs of `s` give, later pairs taking precedence.
pub open spec fn entries_map<K, V>(s: Seq<(K, V)>) -> Map<K, V>
    decreases s.len(),
{
    if s.len() == 0 {
        Map::empty()
    } else {
        entries_map(s.drop_last()).insert(s.last().0, s.last().1)
    }
}

/// Whether no key occurs twice.
pub open spec fn keys_unique<K, V>(s: Seq<(K, V)>) -> bool {
    forall|i: int, j: int| 0 <= i < j < s.len() ==> s[i].0 != s[j].0
}

/// A key that no pair holds is not in the map.
pub proof fn lemma_entries_absent<K, V>(s: Seq<(K, V)>, k: K)
    requires
        forall|j: int| 0 <= j < s.len() ==> s[j].0 != k,
    ensures
        !entries_map(s).contains_key(k),
    decreases s.len(),
{
    if s.len() > 0 {
        lemma_entries_absent(s.drop_last(), k);
    }
}

/// With unique keys, the map gives each pair's value for its key.
pub proof fn lemma_entries_at<K, V>(s: Seq<(K, V)>, i: int)
    requires
        keys_unique(s),
        0 <= i < s.len(),
    ensures
        entries_map(s).contains_key(s[i].0),
        entries_map(s)[s[i].0] == s[i].1,
    decreases s.len(),
{
    if i < s.len() - 1 {
        lemma_entries_at(s.drop_last(), i);
    }
}

/// With unique keys, replacing a pair's value replaces it in the map.
pub proof fn lemma_entries_update<K, V>(s: Seq<(K, V)>, i: int, v: V)
    requires
        keys_unique(s),
        0 <= i < s.len(),
    ensures
        entries_map(s.update(i, (s[i].0, v))) == entries_map(s).insert(s[i].0, v),
        keys_unique(s.update(i, (s[i].0, v))),
    decreases s.len(),
{
    let t = s.update(i, (s[i].0, v));
    if i == s.len() - 1 {
        assert(t.drop_last() =~= s.drop_last());
        assert(entries_map(t) =~= entries_map(s).insert(s[i].0, v));
    } else {
        lemma_entries_update(s.drop_last(), i, v);
        assert(t.drop_last() =~= s.drop_last().update(i, (s[i].0, v)));
        assert(entries_map(t) =~= entries_map(s).insert(s[i].0, v));
    }
}

/// With unique keys, dropping a pair drops its key from the map.
pub proof fn lemma_entries_remove<K, V>(s: Seq<(K, V)>, i: int)
    requires
        keys_unique(s),
        0 <= i < s.len(),
    ensures
        entries_map(s.remove(i)) == entries_map(s).remove(s[i].0),
        keys_unique(s.remove(i)),
    decreases s.len(),
{
    let t = s.remove(i);
    if i == s.len() - 1 {
        assert(t =~= s.drop_last());
        lemma_entries_absent(s.drop_last(), s[i].0);
        assert(entries_map(t) =~= entries_map(s).remove(s[i].0));
    } else {
        lemma_entries_remove(s.drop_last(), i);
        assert(t.drop_last() =~= s.drop_last().remove(i));
        assert(t.last() == s.last());
        assert(entries_map(t) =~= entries_map(s).remove(s[i].0));
    }
}

/// With unique keys, adding a pair with a new key adds it to the map.
pub proof fn lemma_entries_push<K, V>(s: Seq<(K, V)>, k: K, v: V)
    requires
        keys_unique(s),
        forall|j: int| 0 <= j < s.len() ==> s[j].0 != k,
    ensures
        entries_map(s.push((k, v))) == entries_map(s).insert(k, v),
        keys_unique(s.push((k, v))),
{
    assert(s.push((k, v)).drop_last() =~= s);
}

} // verus!
