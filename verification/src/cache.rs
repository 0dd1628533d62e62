//! The tiered block-state cache. Per-block state handles live in memory up to
//! an adaptive ceiling; under pressure the oldest are snapshotted to the
//! snapshot store and kept as offloaded placeholders; offloaded entries past
//! the retention ceiling are purged for good. `get` serves resident entries
//! directly and rehydrates offloaded ones from the store on every call.

use vstd::prelude::*;

use crate::assoc::{has_key, lemma_lookup_absent, lemma_lookup_at, lemma_lookup_some_iff_has_key,
    lemma_remove_absent, lemma_remove_at};
use crate::laws::{lemma_evict_one_props, lemma_forget_props, lemma_insert_tr_found,
    lemma_purge_all_props, lemma_purge_one_inv};
use crate::model::{fresh_model, CacheModel, DEFAULT_HISTORY_LIMIT, MAX_ON_DISK_HISTORY_LIMIT,
    MIN_HISTORY_LIMIT};
use crate::state::{Account, StateDb};
use crate::store::SnapshotStore;

verus! {

/// The pairs of a resident sequence, each handle replaced by its contents.
pub open spec fn db_pairs(s: Seq<(u64, StateDb)>) -> Seq<(u64, Seq<Account>)> {
    s.map_values(|p: (u64, StateDb)| (p.0, p.1@))
}

/// The complete state of single blocks, tiered between memory and the
/// snapshot store.
pub struct InMemoryBlockStates {
    /// The states resident at a certain block, in insertion order.
    states: Vec<(u64, StateDb)>,
    /// Placeholder handles for states whose data moved to the store, in
    /// offload order.
    on_disk_states: Vec<(u64, StateDb)>,
    /// How many states to keep resident at most.
    in_memory_limit: usize,
    /// The floor under the decaying resident ceiling.
    min_in_memory_limit: usize,
    /// The ceiling on offloaded states retained; zero disables the disk tier.
    max_on_disk_limit: usize,
    /// Holds the offloaded snapshots.
    disk_cache: SnapshotStore,
}

impl View for InMemoryBlockStates {
    type V = CacheModel;

    closed spec fn view(&self) -> CacheModel {
        CacheModel {
            resident: db_pairs(self.states@),
            offloaded: self.disk_cache@,
            in_memory_limit: self.in_memory_limit as nat,
            min_in_memory_limit: self.min_in_memory_limit as nat,
            max_on_disk_limit: self.max_on_disk_limit as nat,
        }
    }
}

impl InMemoryBlockStates {
    /// The model invariant holds, the store is well formed, and the offloaded
    /// placeholder handles are keyed exactly as the store is, in the same
    /// order.
    pub closed spec fn wf(&self) -> bool {
        &&& self@.inv()
        &&& self.disk_cache.wf()
        &&& self.on_disk_states@.len() == self.disk_cache@.len()
        &&& forall|j: int|
            0 <= j < self.on_disk_states@.len() ==> (#[trigger] self.on_disk_states@[j]).0
                == self.disk_cache@[j].0
    }

    /// A well-formed cache satisfies the model invariant, so the transition
    /// lemmas apply to its view.
    pub proof fn lemma_wf_inv(&self)
        requires
            self.wf(),
        ensures
            self@.inv(),
    {
    }

    /// Creates a new instance with limited slots.
    pub fn new(limit: usize) -> (r: Self)
        ensures
            r.wf(),
            r@ == fresh_model(limit as nat),
    {
        let min: usize = if limit < MIN_HISTORY_LIMIT {
            limit
        } else {
            MIN_HISTORY_LIMIT
        };
        let r = InMemoryBlockStates {
            states: Vec::new(),
            on_disk_states: Vec::new(),
            in_memory_limit: limit,
            min_in_memory_limit: min,
            max_on_disk_limit: MAX_ON_DISK_HISTORY_LIMIT,
            disk_cache: SnapshotStore::new(),
        };
        proof {
            assert(db_pairs(r.states@) =~= Seq::<(u64, Seq<Account>)>::empty());
            assert(r@ =~~= fresh_model(limit as nat));
        }
        r
    }

    /// Configures no disk caching: evicted states are dropped for good.
    pub fn memory_only(self) -> (r: Self)
        requires
            self.wf(),
        ensures
            r.wf(),
            r@ == (CacheModel { max_on_disk_limit: 0, ..self@ }),
    {
        let mut s = self;
        s.max_on_disk_limit = 0;
        proof {
            assert(s@ =~~= (CacheModel { max_on_disk_limit: 0, ..self@ }));
        }
        s
    }

    /// Adjusts the ceiling to the mining interval: at two seconds or less the
    /// in-memory ceiling rises to three times the default and the enforcement
    /// passes run at once; longer intervals leave the cache alone.
    pub fn update_interval_mine_block_time(&mut self, block_time_secs: u64)
        requires
            old(self).wf(),
        ensures
            final(self).wf(),
            block_time_secs <= 2 ==> final(self)@ == (CacheModel {
                in_memory_limit: 3 * DEFAULT_HISTORY_LIMIT as nat,
                ..old(self)@
            }).enforce(),
            block_time_secs <= 2 ==> final(self)@.in_memory_limit == 3 * DEFAULT_HISTORY_LIMIT,
            block_time_secs > 2 ==> *final(self) == *old(self),
    {
        if block_time_secs <= 2 {
            self.in_memory_limit = DEFAULT_HISTORY_LIMIT * 3;
            let ghost raised = self@;
            proof {
                assert(raised =~~= (CacheModel {
                    in_memory_limit: 3 * DEFAULT_HISTORY_LIMIT as nat,
                    ..old(self)@
                }));
            }
            self.enforce_limits();
            proof {
                crate::laws::lemma_evict_all_props(raised);
                lemma_purge_all_props(raised.evict_all());
            }
        }
    }

    /// True if only memory caching is supported.
    fn is_memory_only(&self) -> (r: bool)
        ensures
            r == self@.memory_only(),
    {
        self.max_on_disk_limit == 0
    }

    /// Runs both enforcement passes: oldest resident states are evicted until
    /// the resident tier is under the ceiling (offloaded to the store when the
    /// disk tier is enabled, dropped when not), then oldest offloaded states
    /// are purged until the disk tier is under its retention ceiling.
    fn enforce_limits(&mut self)
        requires
            old(self).wf(),
        ensures
            final(self).wf(),
            final(self)@ == old(self)@.enforce(),
    {
        while self.states.len() >= self.in_memory_limit && self.states.len() > 0
            invariant
                self.wf(),
                self@.evict_all() == old(self)@.evict_all(),
            decreases self.states@.len(),
        {
            let ghost pre = self@;
            proof {
                lemma_evict_one_props(pre);
                assert(pre.evict_all() == pre.evict_one().evict_all());
            }
            let (hash, mut state) = self.states.remove(0);
            proof {
                assert(pre.resident[0] == (hash, state@));
                assert(db_pairs(self.states@) =~= pre.resident.drop_first());
            }
            if !self.is_memory_only() {
                let snapshot = state.clear_into_snapshot();
                proof {
                    assert(has_key(pre.resident, hash));
                    assert(!has_key(pre.offloaded, hash));
                    lemma_remove_absent(self.disk_cache@, hash);
                }
                self.disk_cache.write(hash, snapshot);
                self.on_disk_states.push((hash, state));
                proof {
                    assert(self.disk_cache@ =~= pre.offloaded.push((hash, snapshot@)));
                    assert(self@ =~~= pre.evict_one());
                }
            } else {
                proof {
                    assert(self@ =~~= pre.evict_one());
                }
            }
        }
        proof {
            assert(self@.evict_all() == self@);
        }
        let ghost mid = self@;
        while self.max_on_disk_limit != 0 && self.on_disk_states.len() >= self.max_on_disk_limit
            invariant
                self.wf(),
                self@.purge_all() == mid.purge_all(),
                self@.resident == mid.resident,
            decreases self.on_disk_states@.len(),
        {
            let ghost pre = self@;
            proof {
                assert(pre.purge_all() == pre.purge_one().purge_all());
                lemma_purge_one_inv(pre);
            }
            let (hash, _state) = self.on_disk_states.remove(0);
            proof {
                assert(pre.offloaded[0].0 == hash);
                lemma_remove_at(pre.offloaded, hash, 0);
                assert(pre.offloaded.remove(0) =~= pre.offloaded.drop_first());
            }
            self.disk_cache.remove(hash);
            proof {
                assert(self@ =~~= pre.purge_one());
            }
        }
        proof {
            assert(self@.purge_all() == self@);
            assert(self@ == mid.purge_all());
            assert(self@ == old(self)@.enforce());
        }
    }

    /// The position of the hash in the resident tier, if it is held there.
    fn position_in_states(&self, hash: u64) -> (r: Option<usize>)
        ensures
            match r {
                Some(i) => i < self@.resident.len() && self@.resident[i as int].0 == hash,
                None => !has_key(self@.resident, hash),
            },
    {
        let n: usize = self.states.len();
        let mut i: usize = 0;
        while i < n
            invariant
                i <= n,
                n == self.states@.len(),
                forall|j: int| 0 <= j < i ==> (#[trigger] db_pairs(self.states@)[j]).0 != hash,
            decreases n - i,
        {
            if self.states[i].0 == hash {
                return Some(i);
            }
            i = i + 1;
        }
        None
    }

    /// The position of the hash in the offloaded tier, if it is held there.
    fn position_in_on_disk(&self, hash: u64) -> (r: Option<usize>)
        requires
            self.on_disk_states@.len() == self.disk_cache@.len(),
            forall|j: int|
                0 <= j < self.on_disk_states@.len() ==> (#[trigger] self.on_disk_states@[j]).0
                    == self.disk_cache@[j].0,
        ensures
            match r {
                Some(j) => j < self@.offloaded.len() && self@.offloaded[j as int].0 == hash && j
                    < self.on_disk_states@.len(),
                None => !has_key(self@.offloaded, hash),
            },
    {
        let n: usize = self.on_disk_states.len();
        let mut i: usize = 0;
        while i < n
            invariant
                i <= n,
                n == self.on_disk_states@.len(),
                self.on_disk_states@.len() == self.disk_cache@.len(),
                forall|j: int|
                    0 <= j < self.on_disk_states@.len() ==> (#[trigger] self.on_disk_states@[j]).0
                        == self.disk_cache@[j].0,
                forall|j: int| 0 <= j < i ==> (#[trigger] self@.offloaded[j]).0 != hash,
            decreases n - i,
        {
            if self.on_disk_states[i].0 == hash {
                return Some(i);
            }
            i = i + 1;
        }
        None
    }

    /// Drops any entry held for the hash, in either tier, together with its
    /// stored snapshot.
    fn forget_hash(&mut self, hash: u64)
        requires
            old(self).wf(),
        ensures
            final(self).wf(),
            final(self)@ == old(self)@.forget(hash),
    {
        let ghost pre = self@;
        proof {
            lemma_forget_props(pre, hash);
        }
        match self.position_in_states(hash) {
            Some(i) => {
                self.states.remove(i);
                proof {
                    assert(db_pairs(self.states@) =~= pre.resident.remove(i as int));
                    lemma_remove_at(pre.resident, hash, i as int);
                }
            },
            None => {
                proof {
                    lemma_remove_absent(pre.resident, hash);
                }
            },
        }
        match self.position_in_on_disk(hash) {
            Some(j) => {
                self.on_disk_states.remove(j);
                proof {
                    lemma_remove_at(pre.offloaded, hash, j as int);
                }
                self.disk_cache.remove(hash);
                proof {
                    assert(self.disk_cache@ == pre.offloaded.remove(j as int));
                    assert forall|k: int|
                        0 <= k < self.on_disk_states@.len() implies (
                    #[trigger] self.on_disk_states@[k]).0 == self.disk_cache@[k].0 by {
                        if k < j {
                            assert(old(self).on_disk_states@[k].0 == pre.offloaded[k].0);
                        } else {
                            assert(old(self).on_disk_states@[k + 1].0 == pre.offloaded[k + 1].0);
                        }
                    }
                    assert(self@ =~~= pre.forget(hash));
                }
            },
            None => {
                proof {
                    lemma_remove_absent(pre.offloaded, hash);
                    assert(self@ =~~= pre.forget(hash));
                }
            },
        }
    }

    /// Inserts a new (hash -> state) pair; always succeeds. Under pressure the
    /// in-memory ceiling decays by one (floored at the minimum), the
    /// enforcement passes run, and the state joins the resident tier. Any
    /// entry held for the hash before is dropped first.
    pub fn insert(&mut self, hash: u64, state: StateDb)
        requires
            old(self).wf(),
        ensures
            final(self).wf(),
            final(self)@ == old(self)@.insert_tr(hash, state@),
            final(self)@.lookup(hash) == Some(state@),
    {
        proof {
            lemma_insert_tr_found(old(self)@, hash, state@);
        }
        self.forget_hash(hash);
        let ghost m0 = self@;
        if !self.is_memory_only() && self.states.len() >= self.in_memory_limit {
            let dec: usize = if self.in_memory_limit == 0 {
                0
            } else {
                self.in_memory_limit - 1
            };
            self.in_memory_limit = if dec > self.min_in_memory_limit {
                dec
            } else {
                self.min_in_memory_limit
            };
            proof {
                assert(self@ =~~= m0.with_decayed_limit());
            }
        } else {
            proof {
                assert(self@ =~~= m0.with_decayed_limit());
            }
        }
        proof {
            lemma_forget_props(old(self)@, hash);
            assert(self@.inv());
        }
        self.enforce_limits();
        let ghost m2 = self@;
        self.states.push((hash, state));
        proof {
            assert(db_pairs(self.states@) =~= m2.resident.push((hash, state@)));
            assert(self@ =~~= old(self)@.insert_tr(hash, state@));
        }
    }

    /// Returns a copy of the state for the given hash if the cache still holds
    /// it. A resident state is served from memory; an offloaded one is re-read
    /// from the snapshot store and its placeholder rehydrated in place, without
    /// promotion back to the resident tier — a repeated call re-reads the
    /// store. An unknown or purged hash yields nothing; that is a normal
    /// outcome, not a fault.
    pub fn get(&mut self, hash: u64) -> (r: Option<StateDb>)
        requires
            old(self).wf(),
        ensures
            final(self).wf(),
            final(self)@ == old(self)@,
            match r {
                Some(db) => old(self)@.lookup(hash) == Some(db@),
                None => old(self)@.lookup(hash) is None,
            },
    {
        let ghost pre = self@;
        match self.position_in_states(hash) {
            Some(i) => {
                proof {
                    lemma_lookup_at(pre.resident, hash, i as int);
                }
                let (h2, db) = self.states.remove(i);
                let copy = db.duplicate();
                self.states.insert(i, (h2, db));
                proof {
                    assert(self.states@ =~= old(self).states@);
                    assert(self@ =~~= pre);
                }
                Some(copy)
            },
            None => {
                proof {
                    lemma_lookup_absent(pre.resident, hash);
                }
                match self.position_in_on_disk(hash) {
                    Some(j) => {
                        proof {
                            lemma_lookup_at(pre.offloaded, hash, j as int);
                        }
                        match self.disk_cache.read(hash) {
                            Some(snapshot) => {
                                let (h2, mut db) = self.on_disk_states.remove(j);
                                db.init_from_snapshot(snapshot);
                                let copy = db.duplicate();
                                self.on_disk_states.insert(j, (h2, db));
                                proof {
                                    assert forall|k: int|
                                        0 <= k < self.on_disk_states@.len() implies (
                                    #[trigger] self.on_disk_states@[k]).0
                                        == self.disk_cache@[k].0 by {
                                        assert(self.on_disk_states@[k].0 == old(
                                            self,
                                        ).on_disk_states@[k].0);
                                    }
                                    assert(self@ =~~= pre);
                                }
                                Some(copy)
                            },
                            None => {
                                proof {
                                    lemma_lookup_some_iff_has_key(pre.offloaded, hash);
                                    assert(false);
                                }
                                None
                            },
                        }
                    },
                    None => {
                        proof {
                            lemma_lookup_absent(pre.offloaded, hash);
                        }
                        None
                    },
                }
            },
        }
    }

    /// Sets the maximum number of states kept in memory, bypassing the floor
    /// and the decay policy; the change takes effect at the next insertion.
    pub fn set_cache_limit(&mut self, limit: usize)
        requires
            old(self).wf(),
        ensures
            final(self).wf(),
            final(self)@ == (CacheModel { in_memory_limit: limit as nat, ..old(self)@ }),
    {
        self.in_memory_limit = limit;
        proof {
            assert(self@ =~~= (CacheModel { in_memory_limit: limit as nat, ..old(self)@ }));
        }
    }

    /// Clears all entries: both tiers are emptied and every offloaded snapshot
    /// is removed from the store; the capacity policy is left unchanged.
    pub fn clear(&mut self)
        requires
            old(self).wf(),
        ensures
            final(self).wf(),
            final(self)@ == old(self)@.cleared(),
            forall|h: u64| (#[trigger] final(self)@.lookup(h)) is None,
    {
        self.states.clear();
        proof {
            assert(db_pairs(self.states@) =~= Seq::<(u64, Seq<Account>)>::empty());
        }
        while self.on_disk_states.len() > 0
            invariant
                self.wf(),
                self@.resident.len() == 0,
                self@.in_memory_limit == old(self)@.in_memory_limit,
                self@.min_in_memory_limit == old(self)@.min_in_memory_limit,
                self@.max_on_disk_limit == old(self)@.max_on_disk_limit,
            decreases self.on_disk_states@.len(),
        {
            let ghost pre = self@;
            proof {
                lemma_purge_one_inv(pre);
            }
            let (hash, _state) = self.on_disk_states.remove(0);
            proof {
                assert(pre.offloaded[0].0 == hash);
                lemma_remove_at(pre.offloaded, hash, 0);
                assert(pre.offloaded.remove(0) =~= pre.offloaded.drop_first());
            }
            self.disk_cache.remove(hash);
            proof {
                assert(self@ =~~= pre.purge_one());
            }
        }
        proof {
            assert(self@ =~~= old(self)@.cleared());
        }
    }

    /// The current in-memory ceiling.
    pub fn in_memory_limit(&self) -> (r: usize)
        ensures
            r == self@.in_memory_limit,
    {
        self.in_memory_limit
    }

    /// The fixed floor under the in-memory ceiling.
    pub fn min_in_memory_limit(&self) -> (r: usize)
        ensures
            r == self@.min_in_memory_limit,
    {
        self.min_in_memory_limit
    }

    /// The retention ceiling of the disk tier; zero means memory-only.
    pub fn max_on_disk_limit(&self) -> (r: usize)
        ensures
            r == self@.max_on_disk_limit,
    {
        self.max_on_disk_limit
    }

    /// How many states are resident in memory.
    pub fn resident_count(&self) -> (r: usize)
        ensures
            r == self@.resident.len(),
    {
        self.states.len()
    }

    /// How many states are offloaded to the disk tier.
    pub fn on_disk_count(&self) -> (r: usize)
        requires
            self.wf(),
        ensures
            r == self@.offloaded.len(),
    {
        self.on_disk_states.len()
    }
}

impl Default for InMemoryBlockStates {
    /// Enough slots in memory for the default history window.
    fn default() -> (r: Self)
        ensures
            r.wf(),
            r@ == fresh_model(DEFAULT_HISTORY_LIMIT as nat),
    {
        InMemoryBlockStates::new(DEFAULT_HISTORY_LIMIT)
    }
}

} // verus!
