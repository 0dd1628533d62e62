use block_state_cache::cache::InMemoryBlockStates;
use block_state_cache::model::{DEFAULT_HISTORY_LIMIT, MAX_ON_DISK_HISTORY_LIMIT,
    MIN_HISTORY_LIMIT};
use block_state_cache::state::{Account, StateDb};

fn state_with_balance(address: u64, balance: u64) -> StateDb {
    let mut db = StateDb::new();
    db.insert_account(Account { address, balance });
    db
}

#[test]
fn test_interval_update() {
    let mut storage = InMemoryBlockStates::default();
    storage.update_interval_mine_block_time(1);
    assert_eq!(storage.in_memory_limit(), DEFAULT_HISTORY_LIMIT * 3);
}

#[test]
fn interval_above_threshold_changes_nothing() {
    let mut storage = InMemoryBlockStates::new(20);
    storage.update_interval_mine_block_time(3);
    assert_eq!(storage.in_memory_limit(), 20);
    storage.update_interval_mine_block_time(60);
    assert_eq!(storage.in_memory_limit(), 20);
}

#[test]
fn new_cache_policy_settings() {
    let storage = InMemoryBlockStates::new(3);
    assert_eq!(storage.in_memory_limit(), 3);
    assert_eq!(storage.min_in_memory_limit(), 3);
    assert_eq!(storage.max_on_disk_limit(), MAX_ON_DISK_HISTORY_LIMIT);
    let wide = InMemoryBlockStates::new(64);
    assert_eq!(wide.min_in_memory_limit(), MIN_HISTORY_LIMIT);
    assert_eq!(wide.resident_count(), 0);
}

#[test]
fn can_read_write_cached_state() {
    let mut storage = InMemoryBlockStates::new(1);
    let one: u64 = 1;
    let two: u64 = 2;
    let addr: u64 = 99;

    storage.insert(one, state_with_balance(addr, 1337));
    storage.insert(two, StateDb::new());

    assert_eq!(storage.on_disk_count(), 1);
    assert_eq!(storage.resident_count(), 1);

    let loaded = storage.get(one).unwrap();
    let acc = loaded.basic(addr).unwrap();
    assert_eq!(acc.balance, 1337);
}

#[test]
fn can_decrease_state_cache_size() {
    let limit: usize = 15;
    let mut storage = InMemoryBlockStates::new(limit);

    let num_states: u64 = 30;
    for idx in 0..num_states {
        let hash = idx;
        let addr = idx;
        let balance = idx * 2;
        storage.insert(hash, state_with_balance(addr, balance));
    }

    assert_eq!(storage.on_disk_count(), 30 - storage.min_in_memory_limit());
    assert_eq!(storage.resident_count(), storage.min_in_memory_limit());

    for idx in 0..num_states {
        let loaded = storage.get(idx).unwrap();
        let acc = loaded.basic(idx).unwrap();
        assert_eq!(acc.balance, idx * 2);
    }
}

#[test]
fn memory_only_loses_oldest_and_writes_nothing() {
    let mut storage = InMemoryBlockStates::new(1).memory_only();
    for idx in 0..4u64 {
        storage.insert(idx, state_with_balance(idx, idx + 100));
    }
    assert_eq!(storage.on_disk_count(), 0);
    assert!(storage.get(0).is_none());
    assert!(storage.get(1).is_none());
    assert!(storage.get(2).is_none());
    let latest = storage.get(3).unwrap();
    assert_eq!(latest.basic(3).unwrap().balance, 103);
}

#[test]
fn capacity_decays_monotonically_to_floor() {
    let mut storage = InMemoryBlockStates::new(12);
    let mut prev = storage.in_memory_limit();
    for idx in 0..30u64 {
        storage.insert(idx, state_with_balance(idx, idx));
        let limit = storage.in_memory_limit();
        assert!(limit <= prev);
        assert!(limit >= storage.min_in_memory_limit());
        prev = limit;
    }
    assert_eq!(storage.in_memory_limit(), storage.min_in_memory_limit());
    assert_eq!(storage.min_in_memory_limit(), MIN_HISTORY_LIMIT);
}

#[test]
fn purge_drops_oldest_on_disk_entries() {
    let mut storage = InMemoryBlockStates::new(11);
    let total: u64 = 3650;
    for idx in 0..total {
        storage.insert(idx, state_with_balance(idx, idx));
    }
    // the retention ceiling has been hit: the pass leaves one slot free
    assert_eq!(storage.on_disk_count(), MAX_ON_DISK_HISTORY_LIMIT - 1);
    // the oldest offloaded hashes are gone for good
    assert!(storage.get(0).is_none());
    assert!(storage.get(5).is_none());
    // newer offloaded hashes and resident hashes are still served
    let kept = storage.get(100).unwrap();
    assert_eq!(kept.basic(100).unwrap().balance, 100);
    let newest = storage.get(total - 1).unwrap();
    assert_eq!(newest.basic(total - 1).unwrap().balance, total - 1);
}

#[test]
fn clear_removes_all_entries_and_keeps_policy() {
    let mut storage = InMemoryBlockStates::new(2);
    for idx in 0..6u64 {
        storage.insert(idx, state_with_balance(idx, idx));
    }
    assert!(storage.on_disk_count() > 0);
    let limit_before = storage.in_memory_limit();
    let disk_before = storage.max_on_disk_limit();

    storage.clear();

    assert_eq!(storage.resident_count(), 0);
    assert_eq!(storage.on_disk_count(), 0);
    for idx in 0..6u64 {
        assert!(storage.get(idx).is_none());
    }
    assert_eq!(storage.in_memory_limit(), limit_before);
    assert_eq!(storage.max_on_disk_limit(), disk_before);
}

#[test]
fn get_is_idempotent_and_does_not_promote() {
    let mut storage = InMemoryBlockStates::new(1);
    storage.insert(1, state_with_balance(7, 700));
    storage.insert(2, state_with_balance(8, 800));
    // hash 1 is offloaded, hash 2 resident
    assert_eq!(storage.on_disk_count(), 1);
    assert_eq!(storage.resident_count(), 1);

    let first = storage.get(1).unwrap();
    let second = storage.get(1).unwrap();
    assert_eq!(first.basic(7).unwrap().balance, second.basic(7).unwrap().balance);
    // no promotion back into memory: the classification is untouched
    assert_eq!(storage.on_disk_count(), 1);
    assert_eq!(storage.resident_count(), 1);

    let res_a = storage.get(2).unwrap();
    let res_b = storage.get(2).unwrap();
    assert_eq!(res_a.basic(8).unwrap().balance, 800);
    assert_eq!(res_b.basic(8).unwrap().balance, 800);
    assert_eq!(storage.resident_count(), 1);
}

#[test]
fn set_cache_limit_bypasses_floor_until_next_decay() {
    let mut storage = InMemoryBlockStates::new(5);
    for idx in 0..5u64 {
        storage.insert(idx, state_with_balance(idx, idx));
    }
    storage.set_cache_limit(2);
    assert_eq!(storage.in_memory_limit(), 2);
    // the next insertion under pressure decays the ceiling, which snaps it
    // back up to the floor of min(5, 10) = 5
    storage.insert(9, state_with_balance(9, 9));
    assert_eq!(storage.in_memory_limit(), 5);
    assert!(storage.resident_count() <= 5);
}

#[test]
fn reinserting_a_hash_replaces_its_state() {
    let mut storage = InMemoryBlockStates::new(4);
    storage.insert(1, state_with_balance(5, 50));
    storage.insert(1, state_with_balance(5, 51));
    assert_eq!(storage.resident_count(), 1);
    let loaded = storage.get(1).unwrap();
    assert_eq!(loaded.basic(5).unwrap().balance, 51);
}

#[test]
fn memory_only_after_offloading_keeps_existing_disk_entries() {
    let mut storage = InMemoryBlockStates::new(1);
    storage.insert(1, state_with_balance(1, 10));
    storage.insert(2, state_with_balance(2, 20));
    assert_eq!(storage.on_disk_count(), 1);

    let mut storage = storage.memory_only();
    // the already-offloaded entry is still served from the store
    assert_eq!(storage.get(1).unwrap().basic(1).unwrap().balance, 10);

    // but from now on evicted entries are dropped, not offloaded
    storage.insert(3, state_with_balance(3, 30));
    assert!(storage.get(2).is_none());
    assert_eq!(storage.on_disk_count(), 1);
}

#[test]
fn state_handle_snapshot_round_trip() {
    let mut db = state_with_balance(4, 40);
    let snap = db.clear_into_snapshot();
    assert!(db.basic(4).is_none());
    db.init_from_snapshot(snap);
    assert_eq!(db.basic(4).unwrap().balance, 40);
}
