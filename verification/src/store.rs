//! The snapshot store: a key-value persistence facility for block-state
//! snapshots, keyed by block hash. Writes are idempotent per hash (last write
//! wins), reads return a copy, removes are no-ops on absent hashes.

use vstd::prelude::*;

use crate::assoc::{distinct_keys, has_key, lemma_lookup_absent, lemma_lookup_at,
    lemma_remove_absent, lemma_remove_at, pair_lookup, pair_remove};
use crate::state::{Account, StateSnapshot};

verus! {

/// The pairs of a stored sequence, each snapshot replaced by its contents.
pub open spec fn snap_pairs(s: Seq<(u64, StateSnapshot)>) -> Seq<(u64, Seq<Account>)> {
    s.map_values(|p: (u64, StateSnapshot)| (p.0, p.1@))
}

/// A store of block-state snapshots keyed by block hash, in write order.
pub struct SnapshotStore {
    entries: Vec<(u64, StateSnapshot)>,
}

impl View for SnapshotStore {
    type V = Seq<(u64, Seq<Account>)>;

    closed spec fn view(&self) -> Seq<(u64, Seq<Account>)> {
        snap_pairs(self.entries@)
    }
}

impl SnapshotStore {
    /// Every stored hash occurs once.
    pub closed spec fn wf(&self) -> bool {
        distinct_keys(self@)
    }

    /// An empty store.
    pub fn new() -> (r: Self)
        ensures
            r.wf(),
            r@ == Seq::<(u64, Seq<Account>)>::empty(),
    {
        let r = SnapshotStore { entries: Vec::new() };
        proof {
            assert(r@ =~= Seq::<(u64, Seq<Account>)>::empty());
        }
        r
    }

    /// The position of the entry for the given hash, if one is stored.
    fn position_of(&self, hash: u64) -> (r: Option<usize>)
        requires
            self.wf(),
        ensures
            match r {
                Some(i) => i < self@.len() && self@[i as int].0 == hash,
                None => !has_key(self@, hash),
            },
    {
        let n: usize = self.entries.len();
        let mut i: usize = 0;
        while i < n
            invariant
                i <= n,
                n == self.entries@.len(),
                self@.len() == self.entries@.len(),
                forall|j: int| 0 <= j < i ==> (#[trigger] self@[j]).0 != hash,
                forall|j: int| 0 <= j < self@.len() ==> (#[trigger] self@[j]).0
                    == self.entries@[j].0,
            decreases n - i,
        {
            if self.entries[i].0 == hash {
                return Some(i);
            }
            i = i + 1;
        }
        None
    }

    /// Stores a snapshot under a hash, replacing any snapshot stored under it
    /// before.
    pub fn write(&mut self, hash: u64, snapshot: StateSnapshot)
        requires
            old(self).wf(),
        ensures
            final(self).wf(),
            final(self)@ == pair_remove(old(self)@, hash).push((hash, snapshot@)),
    {
        let ghost pre = self@;
        match self.position_of(hash) {
            Some(i) => {
                self.entries.remove(i);
                proof {
                    assert(self@ =~= pre.remove(i as int));
                    lemma_remove_at(pre, hash, i as int);
                }
            },
            None => {
                proof {
                    lemma_remove_absent(pre, hash);
                }
            },
        }
        let ghost mid = self@;
        self.entries.push((hash, snapshot));
        proof {
            assert(self@ =~= mid.push((hash, snapshot@)));
            assert(mid == pair_remove(pre, hash));
            lemma_remove_distinct(pre, hash);
            lemma_remove_no_key(pre, hash);
            assert forall|i: int, j: int| 0 <= i < j < self@.len() implies (#[trigger] self@[i]).0
                != (#[trigger] self@[j]).0 by {
                if j < self@.len() - 1 {
                    assert(mid[i].0 != mid[j].0);
                } else {
                    assert(mid[i].0 != hash);
                }
            }
        }
    }

    /// Reads back a copy of the snapshot stored under the hash, if any.
    pub fn read(&self, hash: u64) -> (r: Option<StateSnapshot>)
        requires
            self.wf(),
        ensures
            match r {
                Some(s) => pair_lookup(self@, hash) == Some(s@),
                None => pair_lookup(self@, hash) is None,
            },
    {
        match self.position_of(hash) {
            Some(i) => {
                proof {
                    lemma_lookup_at(self@, hash, i as int);
                }
                let snap = StateSnapshot { accounts: crate::state::copy_accounts(
                    &self.entries[i].1.accounts) };
                Some(snap)
            },
            None => {
                proof {
                    lemma_lookup_absent(self@, hash);
                }
                None
            },
        }
    }

    /// Removes the snapshot stored under the hash; a no-op if none is.
    pub fn remove(&mut self, hash: u64)
        requires
            old(self).wf(),
        ensures
            final(self).wf(),
            final(self)@ == pair_remove(old(self)@, hash),
    {
        let ghost pre = self@;
        match self.position_of(hash) {
            Some(i) => {
                self.entries.remove(i);
                proof {
                    assert(self@ =~= pre.remove(i as int));
                    lemma_remove_at(pre, hash, i as int);
                    lemma_remove_distinct(pre, hash);
                }
            },
            None => {
                proof {
                    lemma_remove_absent(pre, hash);
                }
            },
        }
    }
}

/// Removing a key keeps the remaining keys distinct.
pub proof fn lemma_remove_distinct<V>(s: Seq<(u64, V)>, h: u64)
    requires
        distinct_keys(s),
    ensures
        distinct_keys(pair_remove(s, h)),
{
    if has_key(s, h) {
        let i = choose|i: int| 0 <= i < s.len() && (#[trigger] s[i]).0 == h;
        lemma_remove_at(s, h, i);
    } else {
        lemma_remove_absent(s, h);
    }
}

/// Removing a key removes it altogether.
pub proof fn lemma_remove_no_key<V>(s: Seq<(u64, V)>, h: u64)
    requires
        distinct_keys(s),
    ensures
        !has_key(pair_remove(s, h), h),
{
    if has_key(s, h) {
        let i = choose|i: int| 0 <= i < s.len() && (#[trigger] s[i]).0 == h;
        lemma_remove_at(s, h, i);
        assert forall|j: int| 0 <= j < s.remove(i).len() implies (#[trigger] s.remove(i)[j]).0
            != h by {
            if j < i {
                assert(s.remove(i)[j] == s[j]);
            } else {
                assert(s.remove(i)[j] == s[j + 1]);
            }
        }
    } else {
        lemma_remove_absent(s, h);
    }
}

} // verus!
