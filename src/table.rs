//! A finite table from keys to amounts, held as a sequence of entries with
//! distinct keys. A key without an entry reads as zero.
use vstd::prelude::*;

verus! {

/// The amount recorded for `key`, or zero where no entry has that key.
pub open spec fn lookup<K: View>(s: Seq<(K, u128)>, key: K::V) -> nat
    decreases s.len(),
{
    if s.len() == 0 {
        0
    } else if s.last().0@ == key {
        s.last().1 as nat
    } else {
        lookup(s.drop_last(), key)
    }
}

/// The sum of all recorded amounts.
pub open spec fn total<K>(s: Seq<(K, u128)>) -> nat
    decreases s.len(),
{
    if s.len() == 0 {
        0
    } else {
        total(s.drop_last()) + s.last().1 as nat
    }
}

/// No two entries share a key.
pub open spec fn distinct<K: View>(s: Seq<(K, u128)>) -> bool {
    forall|i: int, j: int| 0 <= i < j < s.len() ==> s[i].0@ != s[j].0@
}

/// No entry has `key`.
pub open spec fn absent<K: View>(s: Seq<(K, u128)>, key: K::V) -> bool {
    forall|i: int| 0 <= i < s.len() ==> s[i].0@ != key
}

pub proof fn lemma_lookup_absent<K: View>(s: Seq<(K, u128)>, key: K::V)
    requires
        absent(s, key),
    ensures
        lookup(s, key) == 0,
    decreases s.len(),
{
    if s.len() > 0 {
        lemma_lookup_absent(s.drop_last(), key);
    }
}

pub proof fn lemma_lookup_found<K: View>(s: Seq<(K, u128)>, i: int)
    requires
        distinct(s),
        0 <= i < s.len(),
    ensures
        lookup(s, s[i].0@) == s[i].1,
    decreases s.len(),
{
    if i < s.len() - 1 {
        lemma_lookup_found(s.drop_last(), i);
    }
}

/// A recorded amount never exceeds the sum of all amounts.
pub proof fn lemma_lookup_le_total<K: View>(s: Seq<(K, u128)>, key: K::V)
    ensures
        lookup(s, key) <= total(s),
    decreases s.len(),
{
    if s.len() > 0 {
        lemma_lookup_le_total(s.drop_last(), key);
    }
}

/// Overwriting the amount of an existing entry.
pub proof fn lemma_lookup_update<K: View>(s: Seq<(K, u128)>, i: int, e: (K, u128), key: K::V)
    requires
        distinct(s),
        0 <= i < s.len(),
        e.0@ == s[i].0@,
    ensures
        distinct(s.update(i, e)),
        lookup(s.update(i, e), key) == if key == e.0@ {
            e.1 as nat
        } else {
            lookup(s, key)
        },
        total(s.update(i, e)) + s[i].1 == total(s) + e.1,
    decreases s.len(),
{
    let t = s.update(i, e);
    if i == s.len() - 1 {
        assert(t.drop_last() =~= s.drop_last());
    } else {
        assert(t.drop_last() =~= s.drop_last().update(i, e));
        lemma_lookup_update(s.drop_last(), i, e, key);
    }
}

/// Appending an entry whose key is new.
pub proof fn lemma_lookup_push<K: View>(s: Seq<(K, u128)>, e: (K, u128), key: K::V)
    requires
        distinct(s),
        absent(s, e.0@),
    ensures
        distinct(s.push(e)),
        lookup(s.push(e), key) == if key == e.0@ {
            e.1 as nat
        } else {
            lookup(s, key)
        },
        total(s.push(e)) == total(s) + e.1,
{
    assert(s.push(e).drop_last() =~= s);
}

} // verus!
