//! Keyed association sequences: the spec-level model shared by the
//! inventory, the fingerprint store and the session registry, with the
//! lemmas about looking a key up, replacing its binding, and removing it.

use vstd::prelude::*;

verus! {

/// The payload bound to `key`, scanning entries front to back.
pub open spec fn lookup<K, P>(s: Seq<(K, P)>, key: K) -> Option<P>
    decreases s.len(),
{
    if s.len() == 0 {
        None
    } else if s.first().0 == key {
        Some(s.first().1)
    } else {
        lookup(s.drop_first(), key)
    }
}

pub open spec fn has_key<K, P>(s: Seq<(K, P)>, key: K) -> bool {
    lookup(s, key) is Some
}

/// Entry keys are pairwise distinct.
pub open spec fn unique_keys<K, P>(s: Seq<(K, P)>) -> bool {
    forall|i: int, j: int| 0 <= i < j < s.len() ==> s[i].0 != s[j].0
}

/// `s` with the binding for `key` replaced in place, or appended if absent.
pub open spec fn upsert<K, P>(s: Seq<(K, P)>, key: K, payload: P) -> Seq<(K, P)>
    decreases s.len(),
{
    if s.len() == 0 {
        seq![(key, payload)]
    } else if s.first().0 == key {
        seq![(key, payload)] + s.drop_first()
    } else {
        seq![s.first()] + upsert(s.drop_first(), key, payload)
    }
}

/// `s` with the first binding for `key` removed; unchanged if absent.
pub open spec fn remove_key<K, P>(s: Seq<(K, P)>, key: K) -> Seq<(K, P)>
    decreases s.len(),
{
    if s.len() == 0 {
        s
    } else if s.first().0 == key {
        s.drop_first()
    } else {
        seq![s.first()] + remove_key(s.drop_first(), key)
    }
}

pub proof fn lemma_lookup_upsert_same<K, P>(s: Seq<(K, P)>, key: K, payload: P)
    ensures
        lookup(upsert(s, key, payload), key) == Some(payload),
    decreases s.len(),
{
    if s.len() == 0 {
    } else if s.first().0 == key {
        assert(upsert(s, key, payload).first() == (key, payload));
    } else {
        lemma_lookup_upsert_same(s.drop_first(), key, payload);
        assert(upsert(s, key, payload).drop_first() =~= upsert(s.drop_first(), key, payload));
    }
}

pub proof fn lemma_lookup_upsert_other<K, P>(s: Seq<(K, P)>, key: K, payload: P, other: K)
    requires
        other != key,
    ensures
        lookup(upsert(s, key, payload), other) == lookup(s, other),
    decreases s.len(),
{
    let u = upsert(s, key, payload);
    if s.len() == 0 {
        assert(u.first() == (key, payload));
        assert(u.drop_first() =~= Seq::<(K, P)>::empty());
        assert(lookup(u, other) == lookup(u.drop_first(), other));
        assert(lookup(u.drop_first(), other) is None);
    } else if s.first().0 == key {
        assert(u.first() == (key, payload));
        assert(u.drop_first() =~= s.drop_first());
        assert(lookup(s, other) == lookup(s.drop_first(), other));
    } else {
        lemma_lookup_upsert_other(s.drop_first(), key, payload, other);
        assert(u.first() == s.first());
        assert(u.drop_first() =~= upsert(s.drop_first(), key, payload));
    }
}

pub proof fn lemma_lookup_absent<K, P>(s: Seq<(K, P)>, key: K)
    requires
        forall|i: int| 0 <= i < s.len() ==> (#[trigger] s[i]).0 != key,
    ensures
        lookup(s, key) is None,
    decreases s.len(),
{
    if s.len() > 0 {
        assert(s.first() == s[0]);
        assert(forall|i: int|
            0 <= i < s.drop_first().len() ==> (#[trigger] s.drop_first()[i]).0 != key);
        lemma_lookup_absent(s.drop_first(), key);
    }
}

pub proof fn lemma_upsert_absent_is_push<K, P>(s: Seq<(K, P)>, key: K, payload: P)
    requires
        !has_key(s, key),
    ensures
        upsert(s, key, payload) == s.push((key, payload)),
    decreases s.len(),
{
    if s.len() == 0 {
        assert(upsert(s, key, payload) =~= s.push((key, payload)));
    } else {
        lemma_upsert_absent_is_push(s.drop_first(), key, payload);
        assert(upsert(s, key, payload) =~= s.push((key, payload)));
    }
}

pub proof fn lemma_upsert_found_is_update<K, P>(
    s: Seq<(K, P)>,
    key: K,
    payload: P,
    j: int,
)
    requires
        0 <= j < s.len(),
        s[j].0 == key,
        forall|i: int| 0 <= i < j ==> (#[trigger] s[i]).0 != key,
    ensures
        upsert(s, key, payload) == s.update(j, (key, payload)),
    decreases s.len(),
{
    if j == 0 {
        assert(s.first() == s[0]);
        assert(upsert(s, key, payload) =~= s.update(0, (key, payload)));
    } else {
        assert(s.first() == s[0]);
        assert(s[0].0 != key);
        assert(s.drop_first()[j - 1].0 == key);
        assert(forall|i: int| 0 <= i < j - 1 ==> (#[trigger] s.drop_first()[i]).0 != key) by {
            assert(forall|i: int| 0 <= i < j - 1 ==> s.drop_first()[i] == s[i + 1]);
        }
        lemma_upsert_found_is_update(s.drop_first(), key, payload, j - 1);
        assert(upsert(s, key, payload) =~= s.update(j, (key, payload)));
    }
}

pub proof fn lemma_remove_found_is_remove<K, P>(s: Seq<(K, P)>, key: K, j: int)
    requires
        0 <= j < s.len(),
        s[j].0 == key,
        forall|i: int| 0 <= i < j ==> (#[trigger] s[i]).0 != key,
    ensures
        remove_key(s, key) == s.remove(j),
    decreases s.len(),
{
    if j == 0 {
        assert(s.first() == s[0]);
        assert(remove_key(s, key) =~= s.remove(0));
    } else {
        assert(s.first() == s[0]);
        assert(s[0].0 != key);
        assert(s.drop_first()[j - 1].0 == key);
        assert(forall|i: int| 0 <= i < j - 1 ==> (#[trigger] s.drop_first()[i]).0 != key) by {
            assert(forall|i: int| 0 <= i < j - 1 ==> s.drop_first()[i] == s[i + 1]);
        }
        lemma_remove_found_is_remove(s.drop_first(), key, j - 1);
        assert(remove_key(s, key) =~= s.remove(j));
    }
}

pub proof fn lemma_remove_absent_is_identity<K, P>(s: Seq<(K, P)>, key: K)
    requires
        !has_key(s, key),
    ensures
        remove_key(s, key) == s,
    decreases s.len(),
{
    if s.len() == 0 {
    } else {
        lemma_remove_absent_is_identity(s.drop_first(), key);
        assert(remove_key(s, key) =~= s);
    }
}

/// Removing an entry keeps the remaining keys pairwise distinct.
pub proof fn lemma_remove_preserves_unique<K, P>(s: Seq<(K, P)>, j: int)
    requires
        unique_keys(s),
        0 <= j < s.len(),
    ensures
        unique_keys(s.remove(j)),
{
    let t = s.remove(j);
    assert(forall|i: int| 0 <= i < j ==> t[i] == s[i]);
    assert(forall|i: int| j <= i < t.len() ==> t[i] == s[i + 1]);
}

/// Updating an entry without changing its key keeps keys distinct.
pub proof fn lemma_update_preserves_unique<K, P>(s: Seq<(K, P)>, j: int, e: (K, P))
    requires
        unique_keys(s),
        0 <= j < s.len(),
        e.0 == s[j].0,
    ensures
        unique_keys(s.update(j, e)),
{
}

/// Appending a fresh key keeps keys distinct.
pub proof fn lemma_push_fresh_preserves_unique<K, P>(s: Seq<(K, P)>, e: (K, P))
    requires
        unique_keys(s),
        !has_key(s, e.0),
    ensures
        unique_keys(s.push(e)),
{
    lemma_found_at_some_index(s, e.0);
    assert(forall|i: int| 0 <= i < s.len() ==> (#[trigger] s[i]).0 != e.0);
    assert(forall|i: int| 0 <= i < s.len() ==> s.push(e)[i] == s[i]);
}

pub proof fn lemma_upsert_preserves_unique<K, P>(s: Seq<(K, P)>, key: K, payload: P)
    requires
        unique_keys(s),
    ensures
        unique_keys(upsert(s, key, payload)),
{
    if has_key(s, key) {
        lemma_found_index_exists(s, key);
        let j = choose|j: int|
            0 <= j < s.len() && s[j].0 == key && forall|i: int|
                0 <= i < j ==> (#[trigger] s[i]).0 != key;
        lemma_upsert_found_is_update(s, key, payload, j);
        lemma_update_preserves_unique(s, j, (key, payload));
    } else {
        lemma_upsert_absent_is_push(s, key, payload);
        lemma_push_fresh_preserves_unique(s, (key, payload));
    }
}

/// If `lookup` finds nothing, no index carries the key.
pub proof fn lemma_found_at_some_index<K, P>(s: Seq<(K, P)>, key: K)
    requires
        !has_key(s, key),
    ensures
        forall|i: int| 0 <= i < s.len() ==> (#[trigger] s[i]).0 != key,
    decreases s.len(),
{
    if s.len() > 0 {
        assert(s.first() == s[0]);
        lemma_found_at_some_index(s.drop_first(), key);
        assert(forall|i: int| 1 <= i < s.len() ==> s[i] == s.drop_first()[i - 1]);
    }
}

/// If `lookup` finds something, the key stands at a first index.
pub proof fn lemma_found_index_exists<K, P>(s: Seq<(K, P)>, key: K)
    requires
        has_key(s, key),
    ensures
        exists|j: int|
            0 <= j < s.len() && (#[trigger] s[j]).0 == key && forall|i: int|
                0 <= i < j ==> (#[trigger] s[i]).0 != key,
    decreases s.len(),
{
    if s.first().0 == key {
        assert(s.first() == s[0]);
        assert(0 <= 0 < s.len() && s[0].0 == key && forall|i: int|
            0 <= i < 0 ==> (#[trigger] s[i]).0 != key);
    } else {
        lemma_found_index_exists(s.drop_first(), key);
        let j = choose|j: int|
            0 <= j < s.drop_first().len() && (#[trigger] s.drop_first()[j]).0 == key && forall|
                i: int,
            | 0 <= i < j ==> (#[trigger] s.drop_first()[i]).0 != key;
        assert(forall|i: int| 0 <= i < s.drop_first().len() ==> s.drop_first()[i] == s[i + 1]);
        assert(s.first() == s[0]);
        assert(s[j + 1].0 == key);
        assert(forall|i: int| 0 <= i < j + 1 ==> (#[trigger] s[i]).0 != key) by {
            assert(forall|i: int| 1 <= i < j + 1 ==> s[i] == s.drop_first()[i - 1]);
            assert(s[0].0 != key);
        }
    }
}

/// The payload `lookup` finds is the one at the first index of the key.
pub proof fn lemma_lookup_at_index<K, P>(s: Seq<(K, P)>, j: int)
    requires
        0 <= j < s.len(),
        forall|i: int| 0 <= i < j ==> (#[trigger] s[i]).0 != s[j].0,
    ensures
        lookup(s, s[j].0) == Some(s[j].1),
    decreases j,
{
    if j == 0 {
        assert(s.first() == s[0]);
    } else {
        assert(s.first() == s[0]);
        assert(s[0].0 != s[j].0);
        assert(s.drop_first()[j - 1] == s[j]);
        assert(forall|i: int| 0 <= i < j - 1 ==> (#[trigger] s.drop_first()[i]) == s[i + 1]);
        lemma_lookup_at_index(s.drop_first(), j - 1);
    }
}

/// In a unique-key sequence the first entry's key does not recur.
pub proof fn lemma_unique_first_absent<K, P>(s: Seq<(K, P)>)
    requires
        unique_keys(s),
        s.len() > 0,
    ensures
        !has_key(s.drop_first(), s.first().0),
{
    assert(forall|i: int| 0 <= i < s.drop_first().len() ==> s.drop_first()[i] == s[i + 1]);
    assert(s.first() == s[0]);
    assert(forall|i: int|
        0 <= i < s.drop_first().len() ==> (#[trigger] s.drop_first()[i]).0 != s.first().0);
    lemma_lookup_absent(s.drop_first(), s.first().0);
}

/// Distinct keys stay distinct on the tail.
pub proof fn lemma_unique_drop_first<K, P>(s: Seq<(K, P)>)
    requires
        unique_keys(s),
        s.len() > 0,
    ensures
        unique_keys(s.drop_first()),
{
    assert(forall|i: int| 0 <= i < s.drop_first().len() ==> s.drop_first()[i] == s[i + 1]);
}

} // verus!
