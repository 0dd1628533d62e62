//! Specification helpers for sequences of key/value pairs kept in insertion
//! order with pairwise-distinct keys. Both cache tiers and the snapshot store
//! are modelled as such sequences.

use vstd::prelude::*;

verus! {

/// True when some pair of the sequence carries the given key.
pub open spec fn has_key<V>(s: Seq<(u64, V)>, h: u64) -> bool {
    exists|i: int| 0 <= i < s.len() && (#[trigger] s[i]).0 == h
}

/// True when no two pairs of the sequence share a key.
pub open spec fn distinct_keys<V>(s: Seq<(u64, V)>) -> bool {
    forall|i: int, j: int|
        0 <= i < j < s.len() ==> (#[trigger] s[i]).0 != (#[trigger] s[j]).0
}

/// The value stored under the given key: the last pair carrying it, which,
/// with distinct keys, is the only one.
pub open spec fn pair_lookup<V>(s: Seq<(u64, V)>, h: u64) -> Option<V>
    decreases s.len(),
{
    if s.len() == 0 {
        None
    } else if s.last().0 == h {
        Some(s.last().1)
    } else {
        pair_lookup(s.drop_last(), h)
    }
}

/// The sequence with every pair carrying the given key removed; the order of
/// the rest is kept.
pub open spec fn pair_remove<V>(s: Seq<(u64, V)>, h: u64) -> Seq<(u64, V)>
    decreases s.len(),
{
    if s.len() == 0 {
        s
    } else if s.last().0 == h {
        pair_remove(s.drop_last(), h)
    } else {
        pair_remove(s.drop_last(), h).push(s.last())
    }
}

/// A key is found exactly when some pair carries it.
pub proof fn lemma_lookup_some_iff_has_key<V>(s: Seq<(u64, V)>, h: u64)
    ensures
        pair_lookup(s, h) is Some <==> has_key(s, h),
    decreases s.len(),
{
    if s.len() == 0 {
    } else if s.last().0 == h {
        assert(s[s.len() - 1].0 == h);
    } else {
        lemma_lookup_some_iff_has_key(s.drop_last(), h);
        if has_key(s, h) {
            let i = choose|i: int| 0 <= i < s.len() && (#[trigger] s[i]).0 == h;
            assert(i < s.len() - 1);
            assert(s.drop_last()[i].0 == h);
        }
        if has_key(s.drop_last(), h) {
            let i = choose|i: int| 0 <= i < s.drop_last().len() && (#[trigger] s.drop_last()[i]).0 == h;
            assert(s[i].0 == h);
        }
    }
}

/// With distinct keys, the value found under a key is the one at its index.
pub proof fn lemma_lookup_at<V>(s: Seq<(u64, V)>, h: u64, i: int)
    requires
        distinct_keys(s),
        0 <= i < s.len(),
        s[i].0 == h,
    ensures
        pair_lookup(s, h) == Some(s[i].1),
    decreases s.len(),
{
    if i == s.len() - 1 {
    } else {
        assert(s.last().0 != h);
        assert(s.drop_last()[i] == s[i]);
        lemma_lookup_at(s.drop_last(), h, i);
    }
}

/// A key no pair carries is not found.
pub proof fn lemma_lookup_absent<V>(s: Seq<(u64, V)>, h: u64)
    requires
        !has_key(s, h),
    ensures
        pair_lookup(s, h) is None,
{
    lemma_lookup_some_iff_has_key(s, h);
}

/// Appending a pair changes only that key's lookup.
pub proof fn lemma_lookup_push<V>(s: Seq<(u64, V)>, p: (u64, V), h: u64)
    ensures
        pair_lookup(s.push(p), h) == if p.0 == h {
            Some(p.1)
        } else {
            pair_lookup(s, h)
        },
{
    assert(s.push(p).last() == p);
    assert(s.push(p).drop_last() =~= s);
}

/// Dropping the front pair changes only that key's lookup, and with distinct
/// keys a dropped front key becomes absent.
pub proof fn lemma_lookup_drop_first<V>(s: Seq<(u64, V)>, h: u64)
    requires
        s.len() > 0,
        s[0].0 != h,
    ensures
        pair_lookup(s.drop_first(), h) == pair_lookup(s, h),
    decreases s.len(),
{
    if s.len() == 1 {
        assert(s.drop_first().len() == 0);
    } else {
        assert(s.drop_first().last() == s.last());
        if s.last().0 == h {
        } else {
            assert(s.drop_first().drop_last() =~= s.drop_last().drop_first());
            lemma_lookup_drop_first(s.drop_last(), h);
        }
    }
}

/// Removing a key that is absent leaves the sequence as it was.
pub proof fn lemma_remove_absent<V>(s: Seq<(u64, V)>, h: u64)
    requires
        !has_key(s, h),
    ensures
        pair_remove(s, h) == s,
    decreases s.len(),
{
    if s.len() == 0 {
        assert(pair_remove(s, h) =~= s);
    } else {
        assert(s[s.len() - 1].0 != h);
        assert forall|i: int| 0 <= i < s.drop_last().len() implies (#[trigger] s.drop_last()[i]).0
            != h by {
            assert(s[i].0 != h);
        }
        lemma_remove_absent(s.drop_last(), h);
        assert(pair_remove(s, h) =~= s);
    }
}

/// With distinct keys, removing the key found at an index removes exactly
/// that pair.
pub proof fn lemma_remove_at<V>(s: Seq<(u64, V)>, h: u64, i: int)
    requires
        distinct_keys(s),
        0 <= i < s.len(),
        s[i].0 == h,
    ensures
        pair_remove(s, h) == s.remove(i),
    decreases s.len(),
{
    if i == s.len() - 1 {
        assert forall|j: int| 0 <= j < s.drop_last().len() implies (#[trigger] s.drop_last()[j]).0
            != h by {
            assert(s[j].0 != h);
        }
        lemma_remove_absent(s.drop_last(), h);
        assert(pair_remove(s, h) =~= s.remove(i));
    } else {
        assert(s.last().0 != h);
        assert(s.drop_last()[i] == s[i]);
        lemma_remove_at(s.drop_last(), h, i);
        assert(pair_remove(s, h) =~= s.remove(i));
    }
}

} // verus!
