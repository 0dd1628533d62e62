//! Proofs about the cache transitions: the invariant is preserved, retrievable
//! state survives eviction when the disk tier is enabled, the capacity policy
//! is monotone, and the purge pass discards exactly the oldest entries.

use vstd::prelude::*;

use crate::assoc::{distinct_keys, has_key, lemma_lookup_absent, lemma_lookup_at,
    lemma_lookup_drop_first, lemma_lookup_push, lemma_lookup_some_iff_has_key,
    lemma_remove_absent, lemma_remove_at, pair_lookup, pair_remove};
use crate::model::{fresh_model, CacheModel, MAX_ON_DISK_HISTORY_LIMIT};
use crate::state::Account;
use crate::store::{lemma_remove_distinct, lemma_remove_no_key};

verus! {

/// One eviction step keeps the invariant; with the disk tier enabled it keeps
/// every retrievable state, without it the evicted entry alone becomes absent.
pub proof fn lemma_evict_one_props(m: CacheModel)
    requires
        m.inv(),
        m.resident.len() > 0,
    ensures
        m.evict_one().inv(),
        m.evict_one().in_memory_limit == m.in_memory_limit,
        m.evict_one().min_in_memory_limit == m.min_in_memory_limit,
        m.evict_one().max_on_disk_limit == m.max_on_disk_limit,
        m.evict_one().resident.len() == m.resident.len() - 1,
        m.evict_one().offloaded.len() == if m.memory_only() {
            m.offloaded.len() as int
        } else {
            m.offloaded.len() + 1 as int
        },
        forall|h: u64| #[trigger] m.evict_one().known(h) ==> m.known(h),
        !m.memory_only() ==> forall|h: u64|
            #[trigger] m.evict_one().lookup(h) == m.lookup(h),
        m.memory_only() ==> forall|h: u64|
            #[trigger] m.evict_one().lookup(h) == if h == m.resident[0].0 {
                None::<Seq<Account>>
            } else {
                m.lookup(h)
            },
{
    let p = m.resident[0];
    let m2 = m.evict_one();
    let rest = m.resident.drop_first();
    assert(has_key(m.resident, p.0));
    assert forall|j: int| 0 <= j < rest.len() implies (#[trigger] rest[j]).0 != p.0 by {
        assert(rest[j] == m.resident[j + 1]);
    }
    lemma_lookup_absent(rest, p.0);
    lemma_lookup_at(m.resident, p.0, 0);
    // the rest of the resident tier keeps its keys
    assert forall|h: u64| #[trigger] has_key(rest, h) implies has_key(m.resident, h) by {
        let j = choose|j: int| 0 <= j < rest.len() && (#[trigger] rest[j]).0 == h;
        assert(m.resident[j + 1].0 == h);
    }
    if m.memory_only() {
        assert forall|h: u64| #[trigger] m2.lookup(h) == if h == p.0 {
            None::<Seq<Account>>
        } else {
            m.lookup(h)
        } by {
            if h == p.0 {
                assert(!has_key(m.offloaded, h));
                lemma_lookup_absent(m.offloaded, h);
            } else {
                lemma_lookup_drop_first(m.resident, h);
            }
        }
    } else {
        assert(!has_key(m.offloaded, p.0));
        // keys of the grown offloaded tier
        assert forall|h: u64| #[trigger] has_key(m2.offloaded, h) implies has_key(m.offloaded, h)
            || h == p.0 by {
            let j = choose|j: int| 0 <= j < m2.offloaded.len() && (#[trigger] m2.offloaded[j]).0
                == h;
            if j < m.offloaded.len() {
                assert(m.offloaded[j].0 == h);
            }
        }
        assert forall|i: int, j: int| 0 <= i < j < m2.offloaded.len() implies (
        #[trigger] m2.offloaded[i]).0 != (#[trigger] m2.offloaded[j]).0 by {
            if j < m.offloaded.len() {
                assert(m.offloaded[i].0 != m.offloaded[j].0);
            } else {
                assert(m2.offloaded[j] == p);
                assert(has_key(m.offloaded, m.offloaded[i].0));
            }
        }
        assert forall|h: u64| #[trigger] has_key(m2.resident, h) implies !has_key(
            m2.offloaded,
            h,
        ) by {
            assert(has_key(m.resident, h));
            assert(h != p.0);
        }
        assert forall|h: u64| #[trigger] m2.lookup(h) == m.lookup(h) by {
            lemma_lookup_push(m.offloaded, p, h);
            if h == p.0 {
                lemma_lookup_absent(m.offloaded, h);
            } else {
                lemma_lookup_drop_first(m.resident, h);
            }
        }
    }
}

/// The eviction pass keeps the invariant and the policy, leaves the resident
/// tier under the ceiling, and preserves retrievable state as the single step
/// does.
pub proof fn lemma_evict_all_props(m: CacheModel)
    requires
        m.inv(),
    ensures
        m.evict_all().inv(),
        m.evict_all().in_memory_limit == m.in_memory_limit,
        m.evict_all().min_in_memory_limit == m.min_in_memory_limit,
        m.evict_all().max_on_disk_limit == m.max_on_disk_limit,
        m.in_memory_limit > 0 ==> m.evict_all().resident.len() < m.in_memory_limit,
        m.evict_all().resident.len() <= m.resident.len(),
        m.evict_all().offloaded.len() + m.evict_all().resident.len() <= m.offloaded.len()
            + m.resident.len(),
        forall|h: u64| #[trigger] m.evict_all().known(h) ==> m.known(h),
        !m.memory_only() ==> forall|h: u64|
            #[trigger] m.evict_all().lookup(h) == m.lookup(h),
        m.memory_only() ==> forall|h: u64| #[trigger]
            m.evict_all().lookup(h) == m.lookup(h) || m.evict_all().lookup(h) is None,
        m.memory_only() ==> m.evict_all().offloaded == m.offloaded,
    decreases m.resident.len(),
{
    if m.resident.len() > 0 && m.resident.len() >= m.in_memory_limit {
        lemma_evict_one_props(m);
        lemma_evict_all_props(m.evict_one());
    }
}

/// The purge pass keeps the invariant and everything but the offloaded tier,
/// and leaves the offloaded tier under the retention ceiling.
pub proof fn lemma_purge_all_props(m: CacheModel)
    requires
        m.inv(),
    ensures
        m.purge_all().inv(),
        m.purge_all().resident == m.resident,
        m.purge_all().in_memory_limit == m.in_memory_limit,
        m.purge_all().min_in_memory_limit == m.min_in_memory_limit,
        m.purge_all().max_on_disk_limit == m.max_on_disk_limit,
        m.purge_all().offloaded.len() <= m.offloaded.len(),
        !m.memory_only() ==> m.purge_all().offloaded.len() < m.max_on_disk_limit,
        forall|h: u64| #[trigger] m.purge_all().known(h) ==> m.known(h),
        forall|h: u64| #[trigger]
            m.purge_all().lookup(h) == m.lookup(h) || m.purge_all().lookup(h) is None,
        m.offloaded.len() < m.max_on_disk_limit || m.memory_only() ==> m.purge_all() == m,
    decreases m.offloaded.len(),
{
    if !m.memory_only() && m.offloaded.len() > 0 && m.offloaded.len() >= m.max_on_disk_limit {
        let m2 = m.purge_one();
        let q = m.offloaded[0];
        assert forall|j: int| 0 <= j < m2.offloaded.len() implies (#[trigger] m2.offloaded[j])
            == m.offloaded[j + 1] by {}
        assert forall|h: u64| #[trigger] has_key(m2.offloaded, h) implies has_key(
            m.offloaded,
            h,
        ) by {
            let j = choose|j: int| 0 <= j < m2.offloaded.len() && (#[trigger] m2.offloaded[j]).0
                == h;
            assert(m.offloaded[j + 1].0 == h);
        }
        assert(m2.inv());
        assert forall|h: u64| #[trigger]
            m2.lookup(h) == m.lookup(h) || m2.lookup(h) is None by {
            if h != q.0 {
                lemma_lookup_drop_first(m.offloaded, h);
            } else {
                lemma_lookup_some_iff_has_key(m2.offloaded, h);
                if pair_lookup(m.resident, h) is None && m2.lookup(h) is Some {
                    assert(has_key(m2.offloaded, h));
                    assert(m.offloaded[0].0 == h && distinct_keys(m.offloaded));
                    let j = choose|j: int| 0 <= j < m2.offloaded.len() && (
                    #[trigger] m2.offloaded[j]).0 == h;
                    assert(m.offloaded[j + 1].0 == h);
                    assert(false);
                }
            }
        }
        lemma_purge_all_props(m2);
    }
}


/// Removing one key from a distinctly-keyed sequence keeps the keys distinct,
/// drops that key for good, and leaves every other key's value alone.
pub proof fn lemma_remove_props<V>(s: Seq<(u64, V)>, h: u64)
    requires
        distinct_keys(s),
    ensures
        distinct_keys(pair_remove(s, h)),
        !has_key(pair_remove(s, h), h),
        pair_remove(s, h).len() <= s.len(),
        forall|h2: u64| #[trigger] has_key(pair_remove(s, h), h2) ==> has_key(s, h2),
        forall|h2: u64| h2 != h ==> #[trigger] pair_lookup(pair_remove(s, h), h2)
            == pair_lookup(s, h2),
{
    lemma_remove_distinct(s, h);
    lemma_remove_no_key(s, h);
    if has_key(s, h) {
        let i = choose|i: int| 0 <= i < s.len() && (#[trigger] s[i]).0 == h;
        lemma_remove_at(s, h, i);
        let r = s.remove(i);
        assert forall|h2: u64| #[trigger] has_key(r, h2) implies has_key(s, h2) by {
            let j = choose|j: int| 0 <= j < r.len() && (#[trigger] r[j]).0 == h2;
            if j < i {
                assert(s[j].0 == h2);
            } else {
                assert(s[j + 1].0 == h2);
            }
        }
        assert forall|h2: u64| h2 != h implies #[trigger] pair_lookup(r, h2) == pair_lookup(
            s,
            h2,
        ) by {
            if has_key(s, h2) {
                let j = choose|j: int| 0 <= j < s.len() && (#[trigger] s[j]).0 == h2;
                lemma_lookup_at(s, h2, j);
                if j < i {
                    assert(r[j] == s[j]);
                    lemma_lookup_at(r, h2, j);
                } else {
                    assert(j > i);
                    assert(r[j - 1] == s[j]);
                    lemma_lookup_at(r, h2, j - 1);
                }
            } else {
                lemma_lookup_absent(s, h2);
                assert(!has_key(r, h2));
                lemma_lookup_absent(r, h2);
            }
        }
    } else {
        lemma_remove_absent(s, h);
    }
}

/// Forgetting one hash keeps the invariant and the policy, removes that hash
/// for good, and leaves every other hash's state alone.
pub proof fn lemma_forget_props(m: CacheModel, h: u64)
    requires
        m.inv(),
    ensures
        m.forget(h).inv(),
        !m.forget(h).known(h),
        m.forget(h).in_memory_limit == m.in_memory_limit,
        m.forget(h).min_in_memory_limit == m.min_in_memory_limit,
        m.forget(h).max_on_disk_limit == m.max_on_disk_limit,
        m.forget(h).resident.len() <= m.resident.len(),
        m.forget(h).offloaded.len() <= m.offloaded.len(),
        forall|h2: u64| #[trigger] m.forget(h).known(h2) ==> m.known(h2),
        forall|h2: u64| h2 != h ==> #[trigger] m.forget(h).lookup(h2) == m.lookup(h2),
{
    lemma_remove_props(m.resident, h);
    lemma_remove_props(m.offloaded, h);
}

/// Insertion keeps the invariant, and the inserted hash is afterwards
/// retrievable with exactly the inserted contents.
pub proof fn lemma_insert_tr_found(m: CacheModel, h: u64, st: Seq<Account>)
    requires
        m.inv(),
    ensures
        m.insert_tr(h, st).inv(),
        m.insert_tr(h, st).lookup(h) == Some(st),
        m.insert_tr(h, st).memory_only() == m.memory_only(),
{
    lemma_forget_props(m, h);
    let m1 = m.forget(h).with_decayed_limit();
    assert(m1.inv());
    assert(!m1.known(h));
    lemma_evict_all_props(m1);
    lemma_purge_all_props(m1.evict_all());
    let m2 = m1.enforce();
    assert(!m2.known(h));
    let mf = m.insert_tr(h, st);
    assert(mf.resident == m2.resident.push((h, st)));
    assert forall|i: int, j: int| 0 <= i < j < mf.resident.len() implies (
    #[trigger] mf.resident[i]).0 != (#[trigger] mf.resident[j]).0 by {
        if j < m2.resident.len() {
            assert(m2.resident[i].0 != m2.resident[j].0);
        } else {
            assert(mf.resident[j] == (h, st));
            assert(has_key(m2.resident, mf.resident[i].0));
        }
    }
    assert forall|h2: u64| #[trigger] has_key(mf.resident, h2) implies !has_key(
        mf.offloaded,
        h2,
    ) by {
        let j = choose|j: int| 0 <= j < mf.resident.len() && (#[trigger] mf.resident[j]).0 == h2;
        if j < m2.resident.len() {
            assert(has_key(m2.resident, h2));
        } else {
            assert(h2 == h);
        }
    }
    lemma_lookup_push(m2.resident, (h, st), h);
}

/// With the disk tier enabled and the retention window not yet reached,
/// inserting one entry leaves every other hash's retrievable state alone.
pub proof fn lemma_insert_tr_preserves(m: CacheModel, h: u64, st: Seq<Account>, h0: u64)
    requires
        m.inv(),
        h0 != h,
        !m.memory_only(),
        m.offloaded.len() + m.resident.len() < m.max_on_disk_limit,
    ensures
        m.insert_tr(h, st).lookup(h0) == m.lookup(h0),
{
    lemma_forget_props(m, h);
    let m1 = m.forget(h).with_decayed_limit();
    assert(m1.lookup(h0) == m.forget(h).lookup(h0));
    assert(m1.lookup(h0) == m.lookup(h0));
    lemma_evict_all_props(m1);
    let me = m1.evict_all();
    assert(me.lookup(h0) == m1.lookup(h0));
    assert(me.offloaded.len() < m.max_on_disk_limit);
    lemma_purge_all_props(me);
    assert(me.purge_all() == me);
    let m2 = m1.enforce();
    assert(m2 == me);
    lemma_lookup_push(m2.resident, (h, st), h0);
    let mf = m.insert_tr(h, st);
    assert(mf.offloaded == m2.offloaded);
    assert(pair_lookup(mf.resident, h0) == pair_lookup(m2.resident, h0));
    assert(mf.lookup(h0) == m2.lookup(h0));
}

/// The capacity policy is monotone under insertion: the in-memory ceiling
/// never rises and never drops under its floor, and the floor and the disk
/// ceiling are left alone.
pub proof fn lemma_insert_tr_limit(m: CacheModel, h: u64, st: Seq<Account>)
    requires
        m.inv(),
        m.in_memory_limit >= m.min_in_memory_limit,
    ensures
        m.insert_tr(h, st).in_memory_limit <= m.in_memory_limit,
        m.insert_tr(h, st).in_memory_limit >= m.min_in_memory_limit,
        m.insert_tr(h, st).min_in_memory_limit == m.min_in_memory_limit,
        m.insert_tr(h, st).max_on_disk_limit == m.max_on_disk_limit,
{
    lemma_forget_props(m, h);
    let m1 = m.forget(h).with_decayed_limit();
    lemma_evict_all_props(m1);
    lemma_purge_all_props(m1.evict_all());
}

/// In memory-only mode no disk entry is ever created: an empty offloaded tier
/// stays empty under insertion, and the state found for any other hash is
/// either what it was or permanently gone.
pub proof fn lemma_insert_tr_memory_only(m: CacheModel, h: u64, st: Seq<Account>, h0: u64)
    requires
        m.inv(),
        m.memory_only(),
        m.offloaded.len() == 0,
        h0 != h,
    ensures
        m.insert_tr(h, st).offloaded.len() == 0,
        m.insert_tr(h, st).memory_only(),
        m.insert_tr(h, st).lookup(h0) == m.lookup(h0) || m.insert_tr(h, st).lookup(h0) is None,
{
    lemma_forget_props(m, h);
    let m1 = m.forget(h).with_decayed_limit();
    assert(m1.lookup(h0) == m.forget(h).lookup(h0));
    assert(m1.lookup(h0) == m.lookup(h0));
    lemma_evict_all_props(m1);
    let me = m1.evict_all();
    assert(me.lookup(h0) == m1.lookup(h0) || me.lookup(h0) is None);
    lemma_purge_all_props(me);
    assert(me.purge_all() == me);
    let m2 = m1.enforce();
    lemma_lookup_push(m2.resident, (h, st), h0);
    let mf = m.insert_tr(h, st);
    assert(mf.offloaded == m2.offloaded);
    assert(pair_lookup(mf.resident, h0) == pair_lookup(m2.resident, h0));
    assert(mf.lookup(h0) == m2.lookup(h0));
}

/// The purge pass, once the offloaded tier has reached the retention ceiling,
/// keeps exactly the newest entries.
proof fn lemma_purge_skip(m: CacheModel)
    requires
        0 < m.max_on_disk_limit <= m.offloaded.len(),
    ensures
        m.purge_all().offloaded == m.offloaded.skip(
            m.offloaded.len() - m.max_on_disk_limit + 1,
        ),
    decreases m.offloaded.len(),
{
    let m2 = m.purge_one();
    assert(m.purge_all() == m2.purge_all());
    if m.offloaded.len() == m.max_on_disk_limit {
        assert(m2.purge_all() == m2);
        assert(m2.offloaded =~= m.offloaded.skip(1));
    } else {
        lemma_purge_skip(m2);
        assert(m2.purge_all().offloaded == m2.offloaded.skip(
            m2.offloaded.len() - m.max_on_disk_limit + 1));
        assert(m.offloaded.drop_first().skip(m.offloaded.len() - m.max_on_disk_limit)
            =~= m.offloaded.skip(m.offloaded.len() - m.max_on_disk_limit + 1));
    }
}

/// Once the offloaded tier reaches the retention ceiling, the purge pass
/// discards exactly the oldest offloaded hashes, and each of them becomes
/// permanently irretrievable.
pub proof fn lemma_purge_drops_oldest(m: CacheModel)
    requires
        m.inv(),
        0 < m.max_on_disk_limit <= m.offloaded.len(),
    ensures
        m.purge_all().offloaded == m.offloaded.skip(
            m.offloaded.len() - m.max_on_disk_limit + 1,
        ),
        forall|i: int|
            0 <= i < m.offloaded.len() - m.max_on_disk_limit + 1 ==> (
            #[trigger] m.purge_all().lookup(m.offloaded[i].0)) is None,
{
    lemma_purge_skip(m);
    lemma_purge_all_props(m);
    let k = m.offloaded.len() - m.max_on_disk_limit + 1;
    let mp = m.purge_all();
    assert forall|i: int| 0 <= i < k implies (#[trigger] mp.lookup(m.offloaded[i].0)) is None by {
        let q = m.offloaded[i].0;
        assert(has_key(m.offloaded, q));
        assert(!has_key(m.resident, q));
        lemma_lookup_absent(mp.resident, q);
        assert forall|j: int| 0 <= j < mp.offloaded.len() implies (#[trigger] mp.offloaded[j]).0
            != q by {
            assert(mp.offloaded[j] == m.offloaded[j + k]);
        }
        lemma_lookup_absent(mp.offloaded, q);
    }
}


/// One purge step keeps the invariant.
pub proof fn lemma_purge_one_inv(m: CacheModel)
    requires
        m.inv(),
        m.offloaded.len() > 0,
    ensures
        m.purge_one().inv(),
{
    let m2 = m.purge_one();
    assert forall|h: u64| #[trigger] has_key(m2.offloaded, h) implies has_key(
        m.offloaded,
        h,
    ) by {
        let j = choose|j: int| 0 <= j < m2.offloaded.len() && (#[trigger] m2.offloaded[j]).0 == h;
        assert(m.offloaded[j + 1].0 == h);
    }
    assert forall|i: int, j: int| 0 <= i < j < m2.offloaded.len() implies (
    #[trigger] m2.offloaded[i]).0 != (#[trigger] m2.offloaded[j]).0 by {
        assert(m2.offloaded[i] == m.offloaded[i + 1]);
        assert(m2.offloaded[j] == m.offloaded[j + 1]);
    }
}


/// The cache after inserting a sequence of (hash, contents) entries in order.
pub open spec fn insert_seq(m: CacheModel, entries: Seq<(u64, Seq<Account>)>) -> CacheModel
    decreases entries.len(),
{
    if entries.len() == 0 {
        m
    } else {
        insert_seq(m.insert_tr(entries[0].0, entries[0].1), entries.drop_first())
    }
}

/// One insertion grows the cache by at most one entry overall, keeps the
/// policy settings other than the decaying ceiling, and keeps the resident
/// tier at or under the ceiling.
pub proof fn lemma_insert_tr_size(m: CacheModel, h: u64, st: Seq<Account>)
    requires
        m.inv(),
    ensures
        m.insert_tr(h, st).offloaded.len() + m.insert_tr(h, st).resident.len()
            <= m.offloaded.len() + m.resident.len() + 1,
        m.insert_tr(h, st).min_in_memory_limit == m.min_in_memory_limit,
        m.insert_tr(h, st).max_on_disk_limit == m.max_on_disk_limit,
        m.in_memory_limit >= m.min_in_memory_limit && m.min_in_memory_limit > 0
            ==> m.insert_tr(h, st).resident.len() <= m.insert_tr(h, st).in_memory_limit,
{
    lemma_forget_props(m, h);
    let m1 = m.forget(h).with_decayed_limit();
    lemma_evict_all_props(m1);
    lemma_purge_all_props(m1.evict_all());
}

/// A state already retrievable stays so, unchanged, under any further
/// insertions of other hashes, as long as the disk tier is enabled and the
/// retention window is not exhausted.
pub proof fn lemma_insert_seq_keeps(
    m: CacheModel,
    entries: Seq<(u64, Seq<Account>)>,
    h0: u64,
    v0: Seq<Account>,
)
    requires
        m.inv(),
        !m.memory_only(),
        m.lookup(h0) == Some(v0),
        !has_key(entries, h0),
        m.offloaded.len() + m.resident.len() + entries.len() <= m.max_on_disk_limit,
    ensures
        insert_seq(m, entries).lookup(h0) == Some(v0),
    decreases entries.len(),
{
    if entries.len() > 0 {
        let h = entries[0].0;
        let st = entries[0].1;
        assert(h0 != h);
        lemma_insert_tr_found(m, h, st);
        lemma_insert_tr_preserves(m, h, st, h0);
        lemma_insert_tr_size(m, h, st);
        let m1 = m.insert_tr(h, st);
        let rest = entries.drop_first();
        assert forall|j: int| 0 <= j < rest.len() implies (#[trigger] rest[j]).0 != h0 by {
            assert(entries[j + 1].0 == rest[j].0);
        }
        lemma_insert_seq_keeps(m1, rest, h0, v0);
    }
}

/// Inserting distinct hashes, with the disk tier enabled and within its
/// retention window, leaves every one of them retrievable with exactly the
/// contents inserted.
pub proof fn lemma_insert_seq_all(m: CacheModel, entries: Seq<(u64, Seq<Account>)>)
    requires
        m.inv(),
        !m.memory_only(),
        distinct_keys(entries),
        m.offloaded.len() + m.resident.len() + entries.len() <= m.max_on_disk_limit,
    ensures
        insert_seq(m, entries).inv(),
        forall|i: int|
            0 <= i < entries.len() ==> #[trigger] insert_seq(m, entries).lookup(entries[i].0)
                == Some(entries[i].1),
    decreases entries.len(),
{
    if entries.len() > 0 {
        let h = entries[0].0;
        let st = entries[0].1;
        lemma_insert_tr_found(m, h, st);
        lemma_insert_tr_size(m, h, st);
        let m1 = m.insert_tr(h, st);
        let rest = entries.drop_first();
        assert forall|i: int, j: int| 0 <= i < j < rest.len() implies (#[trigger] rest[i]).0 != (
        #[trigger] rest[j]).0 by {
            assert(rest[i] == entries[i + 1]);
            assert(rest[j] == entries[j + 1]);
        }
        lemma_insert_seq_all(m1, rest);
        assert forall|j: int| 0 <= j < rest.len() implies (#[trigger] rest[j]).0 != h by {
            assert(rest[j] == entries[j + 1]);
        }
        lemma_insert_seq_keeps(m1, rest, h, st);
        let mf = insert_seq(m, entries);
        assert forall|i: int| 0 <= i < entries.len() implies #[trigger] mf.lookup(entries[i].0)
            == Some(entries[i].1) by {
            if i == 0 {
            } else {
                assert(entries[i] == rest[i - 1]);
            }
        }
    }
}

/// Starting from a fresh cache with the disk tier enabled, inserting distinct
/// hashes within the retention window keeps every inserted state retrievable,
/// the resident tier at or under the decayed ceiling, and the ceiling at or
/// over its floor.
pub proof fn lemma_fresh_inserts_retrievable(capacity: nat, entries: Seq<(u64, Seq<Account>)>)
    requires
        capacity > 0,
        distinct_keys(entries),
        entries.len() <= MAX_ON_DISK_HISTORY_LIMIT as nat,
    ensures
        ({
            let m = insert_seq(fresh_model(capacity), entries);
            &&& forall|i: int|
                0 <= i < entries.len() ==> #[trigger] m.lookup(entries[i].0)
                    == Some(entries[i].1)
            &&& m.resident.len() <= m.in_memory_limit
            &&& m.in_memory_limit >= m.min_in_memory_limit
        }),
{
    lemma_insert_seq_all(fresh_model(capacity), entries);
    lemma_insert_seq_bounds(fresh_model(capacity), entries);
}

/// Under repeated insertion the resident tier stays at or under the ceiling
/// and the ceiling stays at or over its floor.
pub proof fn lemma_insert_seq_bounds(m: CacheModel, entries: Seq<(u64, Seq<Account>)>)
    requires
        m.inv(),
        m.in_memory_limit >= m.min_in_memory_limit,
        m.min_in_memory_limit > 0,
        m.resident.len() <= m.in_memory_limit,
    ensures
        insert_seq(m, entries).inv(),
        insert_seq(m, entries).resident.len() <= insert_seq(m, entries).in_memory_limit,
        insert_seq(m, entries).in_memory_limit >= insert_seq(m, entries).min_in_memory_limit,
        insert_seq(m, entries).in_memory_limit <= m.in_memory_limit,
        insert_seq(m, entries).min_in_memory_limit == m.min_in_memory_limit,
    decreases entries.len(),
{
    if entries.len() > 0 {
        let h = entries[0].0;
        let st = entries[0].1;
        lemma_insert_tr_found(m, h, st);
        lemma_insert_tr_size(m, h, st);
        lemma_insert_tr_limit(m, h, st);
        lemma_insert_seq_bounds(m.insert_tr(h, st), entries.drop_first());
    }
}


/// The eviction pass keeps exactly the newest resident entries: what is left
/// is a suffix of what was there.
pub proof fn lemma_evict_all_skip(m: CacheModel)
    ensures
        m.evict_all().resident.len() <= m.resident.len(),
        m.evict_all().resident == m.resident.skip(
            m.resident.len() - m.evict_all().resident.len(),
        ),
    decreases m.resident.len(),
{
    if m.resident.len() > 0 && m.resident.len() >= m.in_memory_limit {
        let m2 = m.evict_one();
        lemma_evict_all_skip(m2);
        let k = m2.resident.len() - m.evict_all().resident.len();
        assert(m.resident.drop_first().skip(k) =~= m.resident.skip(k + 1));
    } else {
        assert(m.resident.skip(0) =~= m.resident);
    }
}

/// In memory-only mode repeated insertion keeps the resident tier a suffix of
/// everything inserted so far, the disk tier empty, and the ceiling unchanged.
proof fn lemma_mem_only_seq(m: CacheModel, entries: Seq<(u64, Seq<Account>)>)
    requires
        m.inv(),
        m.memory_only(),
        m.offloaded.len() == 0,
        distinct_keys(m.resident + entries),
    ensures
        ({
            let mf = insert_seq(m, entries);
            &&& mf.inv()
            &&& mf.memory_only()
            &&& mf.offloaded.len() == 0
            &&& mf.in_memory_limit == m.in_memory_limit
            &&& mf.resident.len() <= m.resident.len() + entries.len()
            &&& mf.resident == (m.resident + entries).skip(
                m.resident.len() + entries.len() - mf.resident.len(),
            )
        }),
    decreases entries.len(),
{
    let all = m.resident + entries;
    if entries.len() == 0 {
        assert(all.skip(0) =~= m.resident);
        assert(all =~= m.resident);
    } else {
        let h = entries[0].0;
        let st = entries[0].1;
        let rl = m.resident.len() as int;
        assert(all[rl] == entries[0]);
        assert(!has_key(m.resident, h)) by {
            if has_key(m.resident, h) {
                let i = choose|i: int| 0 <= i < m.resident.len() && (#[trigger] m.resident[i]).0
                    == h;
                assert(all[i] == m.resident[i]);
                assert(false);
            }
        }
        lemma_remove_absent(m.resident, h);
        assert(!has_key(m.offloaded, h));
        lemma_remove_absent(m.offloaded, h);
        let mg = m.forget(h);
        assert(mg =~~= m);
        lemma_forget_props(m, h);
        lemma_evict_all_props(m);
        lemma_evict_all_skip(m);
        let me = m.evict_all();
        let e = m.resident.len() - me.resident.len();
        let m1 = m.insert_tr(h, st);
        assert(m1.resident == me.resident.push(entries[0]));
        lemma_insert_tr_found(m, h, st);
        let rest = entries.drop_first();
        assert((m1.resident + rest) =~= all.skip(e as int)) by {
            assert forall|j: int| 0 <= j < m1.resident.len() + rest.len() implies (m1.resident
                + rest)[j] == all.skip(e as int)[j] by {
                if j < me.resident.len() {
                    assert((m1.resident + rest)[j] == me.resident[j]);
                    assert(me.resident[j] == m.resident[e + j]);
                    assert(all[e + j] == m.resident[e + j]);
                } else if j == me.resident.len() {
                    assert((m1.resident + rest)[j] == entries[0]);
                    assert(all[e + j] == entries[0]);
                } else {
                    assert((m1.resident + rest)[j] == rest[j - me.resident.len() - 1]);
                    assert(all[e + j] == entries[e + j - rl]);
                }
            }
        }
        assert(distinct_keys(m1.resident + rest)) by {
            assert forall|i: int, j: int| 0 <= i < j < (m1.resident + rest).len() implies (
            #[trigger] (m1.resident + rest)[i]).0 != (#[trigger] (m1.resident + rest)[j]).0 by {
                assert((m1.resident + rest)[i] == all[e + i]);
                assert((m1.resident + rest)[j] == all[e + j]);
            }
        }
        lemma_mem_only_seq(m1, rest);
        let mf = insert_seq(m, entries);
        assert(mf == insert_seq(m1, rest));
        assert((m1.resident + rest).skip(m1.resident.len() + rest.len() - mf.resident.len())
            =~= all.skip(m.resident.len() + entries.len() - mf.resident.len()));
    }
}

/// With the disk tier disabled, inserting distinct hashes keeps only the
/// newest as resident, creates no disk entry, and makes every older hash
/// permanently absent.
pub proof fn lemma_memory_only_loss(capacity: nat, entries: Seq<(u64, Seq<Account>)>)
    requires
        distinct_keys(entries),
    ensures
        ({
            let m0 = CacheModel { max_on_disk_limit: 0, ..fresh_model(capacity) };
            let mf = insert_seq(m0, entries);
            &&& mf.offloaded.len() == 0
            &&& mf.resident == entries.skip(entries.len() - mf.resident.len())
            &&& forall|i: int|
                0 <= i < entries.len() - mf.resident.len() ==> (#[trigger] mf.lookup(
                    entries[i].0,
                )) is None
            &&& forall|i: int|
                entries.len() - mf.resident.len() <= i < entries.len() ==> #[trigger] mf.lookup(
                    entries[i].0,
                ) == Some(entries[i].1)
        }),
{
    let m0 = CacheModel { max_on_disk_limit: 0, ..fresh_model(capacity) };
    assert((m0.resident + entries) =~= entries);
    lemma_mem_only_seq(m0, entries);
    let mf = insert_seq(m0, entries);
    let k = entries.len() - mf.resident.len();
    assert(mf.resident == entries.skip(k as int));
    assert forall|i: int| 0 <= i < k implies (#[trigger] mf.lookup(entries[i].0)) is None by {
        assert(!has_key(mf.resident, entries[i].0)) by {
            if has_key(mf.resident, entries[i].0) {
                let j = choose|j: int| 0 <= j < mf.resident.len() && (#[trigger] mf.resident[j]).0
                    == entries[i].0;
                assert(entries[k + j].0 == entries[i].0);
                assert(false);
            }
        }
        lemma_lookup_absent(mf.resident, entries[i].0);
        lemma_lookup_absent(mf.offloaded, entries[i].0);
    }
    assert forall|i: int| k <= i < entries.len() implies #[trigger] mf.lookup(entries[i].0)
        == Some(entries[i].1) by {
        assert(mf.resident[i - k] == entries[i]);
        lemma_lookup_at(mf.resident, entries[i].0, i - k);
    }
}

} // verus!
