//! The stores' tables, modelled as sequences of key/value pairs with unique
//! keys. Lookup takes the first match; under unique keys that is the only
//! match. These spec functions are the vocabulary of every table contract.

use vstd::prelude::*;

verus! {

/// Does some pair of `s` carry key `k`?
pub open spec fn has_key<K, V>(s: Seq<(K, V)>, k: K) -> bool {
    exists|i: int| 0 <= i < s.len() && s[i].0 == k
}

/// The value under `k`, if any (first match).
pub open spec fn lookup<K, V>(s: Seq<(K, V)>, k: K) -> Option<V>
    decreases s.len(),
{
    if s.len() == 0 {
        None
    } else if s[0].0 == k {
        Some(s[0].1)
    } else {
        lookup(s.drop_first(), k)
    }
}

/// `s` with `v` under `k`: the first pair carrying `k` is replaced, or the
/// pair is appended when no pair carries `k`.
pub open spec fn store_kv<K, V>(s: Seq<(K, V)>, k: K, v: V) -> Seq<(K, V)>
    decreases s.len(),
{
    if s.len() == 0 {
        seq![(k, v)]
    } else if s[0].0 == k {
        seq![(k, v)] + s.drop_first()
    } else {
        seq![s[0]] + store_kv(s.drop_first(), k, v)
    }
}

/// `s` without the first pair carrying `k`.
pub open spec fn remove_kv<K, V>(s: Seq<(K, V)>, k: K) -> Seq<(K, V)>
    decreases s.len(),
{
    if s.len() == 0 {
        s
    } else if s[0].0 == k {
        s.drop_first()
    } else {
        seq![s[0]] + remove_kv(s.drop_first(), k)
    }
}

/// No two pairs of `s` carry the same key.
pub open spec fn unique_keys<K, V>(s: Seq<(K, V)>) -> bool {
    forall|i: int, j: int| 0 <= i < j < s.len() ==> s[i].0 != s[j].0
}

/// A key is present exactly when lookup finds a value.
pub proof fn lemma_lookup_has_key<K, V>(s: Seq<(K, V)>, k: K)
    ensures
        lookup(s, k) is Some <==> has_key(s, k),
    decreases s.len(),
{
    if s.len() == 0 {
    } else if s[0].0 == k {
    } else {
        lemma_lookup_has_key(s.drop_first(), k);
        if has_key(s.drop_first(), k) {
            let i = choose|i: int| 0 <= i < s.drop_first().len() && s.drop_first()[i].0 == k;
            assert(s[i + 1].0 == k);
        } else if has_key(s, k) {
            let i = choose|i: int| 0 <= i < s.len() && s[i].0 == k;
            assert(s.drop_first()[i - 1].0 == k);
        }
    }
}

/// When the first match stands at `i`, lookup yields that pair's value.
pub proof fn lemma_lookup_at<K, V>(s: Seq<(K, V)>, k: K, i: int)
    requires
        0 <= i < s.len(),
        s[i].0 == k,
        forall|j: int| 0 <= j < i ==> s[j].0 != k,
    ensures
        lookup(s, k) == Some(s[i].1),
    decreases i,
{
    if i == 0 {
    } else {
        assert(forall|j: int| 0 <= j < i - 1 ==> s.drop_first()[j].0 != k);
        lemma_lookup_at(s.drop_first(), k, i - 1);
    }
}

/// When no pair carries `k`, lookup finds nothing.
pub proof fn lemma_lookup_none<K, V>(s: Seq<(K, V)>, k: K)
    requires
        forall|j: int| 0 <= j < s.len() ==> s[j].0 != k,
    ensures
        lookup(s, k) == None::<V>,
    decreases s.len(),
{
    if s.len() > 0 {
        assert(forall|j: int| 0 <= j < s.drop_first().len() ==> s.drop_first()[j].0 != k);
        lemma_lookup_none(s.drop_first(), k);
    }
}

/// Storing where the first match stands at `i` updates that position.
pub proof fn lemma_store_at<K, V>(s: Seq<(K, V)>, k: K, v: V, i: int)
    requires
        0 <= i < s.len(),
        s[i].0 == k,
        forall|j: int| 0 <= j < i ==> s[j].0 != k,
    ensures
        store_kv(s, k, v) =~= s.update(i, (k, v)),
    decreases i,
{
    if i == 0 {
        assert(store_kv(s, k, v) == seq![(k, v)] + s.drop_first());
    } else {
        assert(forall|j: int| 0 <= j < i - 1 ==> s.drop_first()[j].0 != k);
        lemma_store_at(s.drop_first(), k, v, i - 1);
        assert(store_kv(s, k, v) == seq![s[0]] + store_kv(s.drop_first(), k, v));
    }
}

/// Storing an absent key appends the pair.
pub proof fn lemma_store_absent<K, V>(s: Seq<(K, V)>, k: K, v: V)
    requires
        forall|j: int| 0 <= j < s.len() ==> s[j].0 != k,
    ensures
        store_kv(s, k, v) =~= s.push((k, v)),
    decreases s.len(),
{
    if s.len() > 0 {
        assert(forall|j: int| 0 <= j < s.drop_first().len() ==> s.drop_first()[j].0 != k);
        lemma_store_absent(s.drop_first(), k, v);
        assert(store_kv(s, k, v) == seq![s[0]] + store_kv(s.drop_first(), k, v));
    }
}

/// Removing where the first match stands at `i` deletes that position.
pub proof fn lemma_remove_at<K, V>(s: Seq<(K, V)>, k: K, i: int)
    requires
        0 <= i < s.len(),
        s[i].0 == k,
        forall|j: int| 0 <= j < i ==> s[j].0 != k,
    ensures
        remove_kv(s, k) =~= s.remove(i),
    decreases i,
{
    if i == 0 {
    } else {
        assert(forall|j: int| 0 <= j < i - 1 ==> s.drop_first()[j].0 != k);
        lemma_remove_at(s.drop_first(), k, i - 1);
        assert(remove_kv(s, k) == seq![s[0]] + remove_kv(s.drop_first(), k));
    }
}

/// Removing an absent key changes nothing.
pub proof fn lemma_remove_absent<K, V>(s: Seq<(K, V)>, k: K)
    requires
        forall|j: int| 0 <= j < s.len() ==> s[j].0 != k,
    ensures
        remove_kv(s, k) =~= s,
    decreases s.len(),
{
    if s.len() > 0 {
        assert(forall|j: int| 0 <= j < s.drop_first().len() ==> s.drop_first()[j].0 != k);
        lemma_remove_absent(s.drop_first(), k);
        assert(remove_kv(s, k) == seq![s[0]] + remove_kv(s.drop_first(), k));
    }
}

/// Lookup after storing, same key.
pub proof fn lemma_lookup_store_same<K, V>(s: Seq<(K, V)>, k: K, v: V)
    ensures
        lookup(store_kv(s, k, v), k) == Some(v),
    decreases s.len(),
{
    if s.len() == 0 {
    } else if s[0].0 == k {
        assert(store_kv(s, k, v) == seq![(k, v)] + s.drop_first());
    } else {
        lemma_lookup_store_same(s.drop_first(), k, v);
        let t = seq![s[0]] + store_kv(s.drop_first(), k, v);
        assert(store_kv(s, k, v) == t);
        assert(t.drop_first() =~= store_kv(s.drop_first(), k, v));
    }
}

/// Lookup after storing, other key.
pub proof fn lemma_lookup_store_other<K, V>(s: Seq<(K, V)>, k: K, v: V, k2: K)
    requires
        k2 != k,
    ensures
        lookup(store_kv(s, k, v), k2) == lookup(s, k2),
    decreases s.len(),
{
    if s.len() == 0 {
        let t = seq![(k, v)];
        assert(store_kv(s, k, v) =~= t);
        assert(lookup(t, k2) == lookup(t.drop_first(), k2));
        assert(t.drop_first().len() == 0);
        assert(lookup(t.drop_first(), k2) == None::<V>);
    } else if s[0].0 == k {
        let t = seq![(k, v)] + s.drop_first();
        assert(store_kv(s, k, v) == t);
        assert(t.drop_first() =~= s.drop_first());
    } else {
        lemma_lookup_store_other(s.drop_first(), k, v, k2);
        let t = seq![s[0]] + store_kv(s.drop_first(), k, v);
        assert(store_kv(s, k, v) == t);
        assert(t.drop_first() =~= store_kv(s.drop_first(), k, v));
    }
}

/// Unique keys carry over to the tail.
pub proof fn lemma_unique_drop_first<K, V>(s: Seq<(K, V)>)
    requires
        s.len() > 0,
        unique_keys(s),
    ensures
        unique_keys(s.drop_first()),
{
    assert forall|i: int, j: int|
        0 <= i < j < s.drop_first().len() implies s.drop_first()[i].0 != s.drop_first()[j].0 by {
        assert(s[i + 1].0 != s[j + 1].0);
    }
}

/// Under unique keys, a removed key is gone.
pub proof fn lemma_lookup_remove_same<K, V>(s: Seq<(K, V)>, k: K)
    requires
        unique_keys(s),
    ensures
        lookup(remove_kv(s, k), k) == None::<V>,
    decreases s.len(),
{
    if s.len() == 0 {
    } else if s[0].0 == k {
        assert(forall|j: int| 0 <= j < s.drop_first().len() ==> s.drop_first()[j].0 != k);
        lemma_lookup_none(s.drop_first(), k);
    } else {
        lemma_unique_drop_first(s);
        lemma_lookup_remove_same(s.drop_first(), k);
        let t = seq![s[0]] + remove_kv(s.drop_first(), k);
        assert(remove_kv(s, k) == t);
        assert(t.drop_first() =~= remove_kv(s.drop_first(), k));
    }
}

/// Storing keeps keys unique.
pub proof fn lemma_store_unique<K, V>(s: Seq<(K, V)>, k: K, v: V)
    requires
        unique_keys(s),
    ensures
        unique_keys(store_kv(s, k, v)),
{
    lemma_lookup_has_key(s, k);
    if has_key(s, k) {
        let i = choose|i: int| 0 <= i < s.len() && s[i].0 == k && forall|j: int|
            0 <= j < i ==> s[j].0 != k;
        lemma_first_match_exists(s, k);
        lemma_store_at(s, k, v, i);
    } else {
        assert(forall|j: int| 0 <= j < s.len() ==> s[j].0 != k);
        lemma_store_absent(s, k, v);
    }
}

/// Removing keeps keys unique.
pub proof fn lemma_remove_unique<K, V>(s: Seq<(K, V)>, k: K)
    requires
        unique_keys(s),
    ensures
        unique_keys(remove_kv(s, k)),
{
    lemma_lookup_has_key(s, k);
    if has_key(s, k) {
        lemma_first_match_exists(s, k);
        let i = choose|i: int| 0 <= i < s.len() && s[i].0 == k && forall|j: int|
            0 <= j < i ==> s[j].0 != k;
        lemma_remove_at(s, k, i);
    } else {
        assert(forall|j: int| 0 <= j < s.len() ==> s[j].0 != k);
        lemma_remove_absent(s, k);
    }
}

/// Storing a fresh key and removing it leaves the table as it was.
pub proof fn lemma_store_then_remove_absent<K, V>(s: Seq<(K, V)>, k: K, v: V)
    requires
        forall|j: int| 0 <= j < s.len() ==> s[j].0 != k,
    ensures
        remove_kv(store_kv(s, k, v), k) =~= s,
{
    lemma_store_absent(s, k, v);
    let t = s.push((k, v));
    assert(store_kv(s, k, v) =~= t);
    lemma_remove_at(t, k, s.len() as int);
    assert(t.remove(s.len() as int) =~= s);
}

/// Overwriting a key and writing the old value back leaves the table as it
/// was.
pub proof fn lemma_store_then_store_back<K, V>(s: Seq<(K, V)>, k: K, v: V, i: int)
    requires
        0 <= i < s.len(),
        s[i].0 == k,
        forall|j: int| 0 <= j < i ==> s[j].0 != k,
    ensures
        store_kv(store_kv(s, k, v), k, s[i].1) =~= s,
{
    lemma_store_at(s, k, v, i);
    let t = s.update(i, (k, v));
    assert(store_kv(s, k, v) =~= t);
    assert(t[i].0 == k);
    assert(forall|j: int| 0 <= j < i ==> t[j].0 != k);
    lemma_store_at(t, k, s[i].1, i);
    assert(t.update(i, (k, s[i].1)) =~= s);
}

/// When a key is present, there is a first position carrying it.
pub proof fn lemma_first_match_exists<K, V>(s: Seq<(K, V)>, k: K)
    requires
        has_key(s, k),
    ensures
        exists|i: int|
            0 <= i < s.len() && s[i].0 == k && (forall|j: int| 0 <= j < i ==> s[j].0 != k),
    decreases s.len(),
{
    if s[0].0 == k {
        assert(0 <= 0 < s.len() && s[0].0 == k && (forall|j: int| 0 <= j < 0 ==> s[j].0 != k));
    } else {
        assert(has_key(s.drop_first(), k)) by {
            let i = choose|i: int| 0 <= i < s.len() && s[i].0 == k;
            assert(s.drop_first()[i - 1].0 == k);
        }
        lemma_first_match_exists(s.drop_first(), k);
        let i = choose|i: int|
            0 <= i < s.drop_first().len() && s.drop_first()[i].0 == k && (forall|j: int|
                0 <= j < i ==> s.drop_first()[j].0 != k);
        assert(s[i + 1].0 == k);
        assert forall|j: int| 0 <= j < i + 1 implies s[j].0 != k by {
            if j > 0 {
                assert(s.drop_first()[j - 1].0 != k);
            }
        }
    }
}

} // verus!
