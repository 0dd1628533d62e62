//! The mathematical model of the tiered state cache: a ghost record of both
//! tiers and the capacity policy, with the transition functions that the
//! executable operations are proved to implement.

use vstd::prelude::*;

use crate::assoc::{distinct_keys, has_key, pair_lookup, pair_remove};
use crate::state::Account;

verus! {

/// Default ceiling on the number of block states held in memory.
pub const DEFAULT_HISTORY_LIMIT: usize = 500;

/// Floor under the adaptive in-memory ceiling.
pub const MIN_HISTORY_LIMIT: usize = 10;

/// Ceiling on the number of block states retained on the disk tier.
pub const MAX_ON_DISK_HISTORY_LIMIT: usize = 3600;

/// The cache as the contracts see it: the resident tier and the offloaded
/// tier, each a sequence of (block hash, state contents) pairs in insertion
/// order (oldest first), and the three capacity settings. An offloaded pair's
/// contents are the snapshot held by the store for that hash.
#[verifier::ext_equal]
pub ghost struct CacheModel {
    pub resident: Seq<(u64, Seq<Account>)>,
    pub offloaded: Seq<(u64, Seq<Account>)>,
    pub in_memory_limit: nat,
    pub min_in_memory_limit: nat,
    pub max_on_disk_limit: nat,
}

impl CacheModel {
    /// The disk tier is disabled.
    pub open spec fn memory_only(self) -> bool {
        self.max_on_disk_limit == 0
    }

    /// The hash is present in one of the two tiers.
    pub open spec fn known(self, h: u64) -> bool {
        has_key(self.resident, h) || has_key(self.offloaded, h)
    }

    /// The state contents retrievable for a hash: the resident copy if one is
    /// held, else the offloaded snapshot, else nothing.
    pub open spec fn lookup(self, h: u64) -> Option<Seq<Account>> {
        match pair_lookup(self.resident, h) {
            Some(v) => Some(v),
            None => pair_lookup(self.offloaded, h),
        }
    }

    /// Each tier is keyed at most once per hash, and no hash is in both.
    pub open spec fn inv(self) -> bool {
        &&& distinct_keys(self.resident)
        &&& distinct_keys(self.offloaded)
        &&& forall|h: u64|
            #[trigger] has_key(self.resident, h) ==> !has_key(self.offloaded, h)
    }

    /// The capacity decay applied on insertion pressure: when the disk tier is
    /// enabled and the resident tier is at or over the ceiling, the ceiling
    /// drops by one, floored at the minimum.
    pub open spec fn with_decayed_limit(self) -> CacheModel {
        if !self.memory_only() && self.resident.len() >= self.in_memory_limit {
            let dec: nat = if self.in_memory_limit == 0 {
                0
            } else {
                (self.in_memory_limit - 1) as nat
            };
            let lim: nat = if dec > self.min_in_memory_limit {
                dec
            } else {
                self.min_in_memory_limit
            };
            CacheModel { in_memory_limit: lim, ..self }
        } else {
            self
        }
    }

    /// One eviction step: the oldest resident entry leaves memory; with the
    /// disk tier enabled it moves to the back of the offloaded tier, without
    /// it the entry is dropped outright.
    pub open spec fn evict_one(self) -> CacheModel
        recommends
            self.resident.len() > 0,
    {
        let p = self.resident[0];
        if self.memory_only() {
            CacheModel { resident: self.resident.drop_first(), ..self }
        } else {
            CacheModel {
                resident: self.resident.drop_first(),
                offloaded: self.offloaded.push(p),
                ..self
            }
        }
    }

    /// The eviction pass: oldest resident entries leave memory until the
    /// resident tier is under the ceiling (or empty).
    pub open spec fn evict_all(self) -> CacheModel
        decreases self.resident.len(),
    {
        if self.resident.len() > 0 && self.resident.len() >= self.in_memory_limit {
            self.evict_one().evict_all()
        } else {
            self
        }
    }

    /// One purge step: the oldest offloaded entry is discarded for good.
    pub open spec fn purge_one(self) -> CacheModel
        recommends
            self.offloaded.len() > 0,
    {
        CacheModel { offloaded: self.offloaded.drop_first(), ..self }
    }

    /// The disk purge pass: oldest offloaded entries are discarded until the
    /// offloaded tier is under the retention ceiling.
    pub open spec fn purge_all(self) -> CacheModel
        decreases self.offloaded.len(),
    {
        if !self.memory_only() && self.offloaded.len() > 0 && self.offloaded.len()
            >= self.max_on_disk_limit {
            self.purge_one().purge_all()
        } else {
            self
        }
    }

    /// Both limit-enforcement passes, in order.
    pub open spec fn enforce(self) -> CacheModel {
        self.evict_all().purge_all()
    }

    /// The cache with every trace of one hash removed from both tiers.
    pub open spec fn forget(self, h: u64) -> CacheModel {
        CacheModel {
            resident: pair_remove(self.resident, h),
            offloaded: pair_remove(self.offloaded, h),
            ..self
        }
    }

    /// The insertion transition: any earlier entry for the hash goes, the
    /// ceiling decays under pressure, both enforcement passes run, and the new
    /// entry joins the back of the resident tier.
    pub open spec fn insert_tr(self, h: u64, st: Seq<Account>) -> CacheModel {
        let m = self.forget(h).with_decayed_limit().enforce();
        CacheModel { resident: m.resident.push((h, st)), ..m }
    }

    /// The reset transition: both tiers emptied, the policy kept.
    pub open spec fn cleared(self) -> CacheModel {
        CacheModel {
            resident: Seq::<(u64, Seq<Account>)>::empty(),
            offloaded: Seq::<(u64, Seq<Account>)>::empty(),
            ..self
        }
    }
}

/// The model of a freshly constructed cache with the given capacity.
pub open spec fn fresh_model(capacity: nat) -> CacheModel {
    CacheModel {
        resident: Seq::<(u64, Seq<Account>)>::empty(),
        offloaded: Seq::<(u64, Seq<Account>)>::empty(),
        in_memory_limit: capacity,
        min_in_memory_limit: if capacity < MIN_HISTORY_LIMIT as nat {
            capacity
        } else {
            MIN_HISTORY_LIMIT as nat
        },
        max_on_disk_limit: MAX_ON_DISK_HISTORY_LIMIT as nat,
    }
}

} // verus!
