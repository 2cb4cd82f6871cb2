use std::collections::HashMap;

use homeserver_core::bytes::{u64_from_bytes, u64_to_be_bytes};
use homeserver_core::error::Error;
use homeserver_core::snapshot::{ChainWalk, SnapshotStore};
use homeserver_core::state_diff::{CompressedStateEvent, StateDiff};

fn entry(shortstatekey: u64, shorteventid: u64) -> CompressedStateEvent {
    CompressedStateEvent { shortstatekey, shorteventid }
}

fn state(pairs: &[(u64, u64)]) -> HashMap<u64, u64> {
    pairs.iter().copied().collect()
}

#[test]
fn handles_are_stored_most_significant_byte_first() {
    assert_eq!(u64_to_be_bytes(0), vec![0, 0, 0, 0, 0, 0, 0, 0]);
    assert_eq!(u64_to_be_bytes(1), vec![0, 0, 0, 0, 0, 0, 0, 1]);
    assert_eq!(u64_to_be_bytes(0x0102_0304_0506_0708), vec![1, 2, 3, 4, 5, 6, 7, 8]);
    assert_eq!(u64_to_be_bytes(u64::MAX), vec![255; 8]);
    for value in [0u64, 1, 255, 256, 65_535, 1 << 32, u64::MAX - 1, u64::MAX] {
        assert_eq!(u64_to_be_bytes(value), value.to_be_bytes().to_vec());
        assert_eq!(u64_from_bytes(&value.to_be_bytes()), Some(value));
    }
    assert_eq!(u64_from_bytes(&[1, 2, 3]), None);
    assert_eq!(u64_from_bytes(&[0; 9]), None);
    assert_eq!(u64_from_bytes(&[]), None);
}

#[test]
fn a_diff_without_removals_has_no_separator() {
    let diff = StateDiff { parent: None, added: vec![entry(1, 2), entry(3, 4)], removed: vec![] };
    let mut expected = vec![0u8; 8];
    for value in [1u64, 2, 3, 4] {
        expected.extend_from_slice(&value.to_be_bytes());
    }
    assert_eq!(diff.encode(), expected);
    assert_eq!(StateDiff::decode(&expected).ok(), Some(diff));
}

#[test]
fn a_diff_with_removals_has_a_zero_separator() {
    let diff = StateDiff {
        parent: Some(7),
        added: vec![entry(1, 2)],
        removed: vec![entry(1, 9), entry(5, 6)],
    };
    let mut expected = Vec::new();
    for value in [7u64, 1, 2, 0, 1, 9, 5, 6] {
        expected.extend_from_slice(&value.to_be_bytes());
    }
    assert_eq!(diff.encode(), expected);
    assert_eq!(StateDiff::decode(&expected).ok(), Some(diff));
}

#[test]
fn an_empty_diff_is_eight_bytes() {
    let diff = StateDiff { parent: None, added: vec![], removed: vec![] };
    assert_eq!(diff.encode(), vec![0u8; 8]);
    assert_eq!(StateDiff::decode(&[0u8; 8]).ok(), Some(diff));
}

#[test]
fn bytes_too_few_for_a_parent_are_refused() {
    assert!(matches!(StateDiff::decode(&[0u8; 7]), Err(Error::Database(_))));
    assert!(matches!(StateDiff::decode(&[]), Err(Error::Database(_))));
}

#[test]
fn bytes_left_over_are_not_read() {
    let mut bytes = Vec::new();
    for value in [3u64, 1, 2] {
        bytes.extend_from_slice(&value.to_be_bytes());
    }
    bytes.extend_from_slice(&[9u8; 15]);
    let diff = StateDiff::decode(&bytes).ok().unwrap();
    assert_eq!(
        diff,
        StateDiff { parent: Some(3), added: vec![entry(1, 2)], removed: vec![] }
    );
}

#[test]
fn an_added_entry_with_a_zero_state_key_reads_as_the_separator() {
    let diff = StateDiff { parent: None, added: vec![entry(0, 5), entry(1, 2)], removed: vec![] };
    let read = StateDiff::decode(&diff.encode()).ok().unwrap();
    assert_ne!(read, diff);
    assert_eq!(read.added, vec![]);
    assert_eq!(read.removed, vec![entry(5, 1)]);
}

#[test]
fn a_zero_parent_reads_as_no_parent() {
    let diff = StateDiff { parent: Some(0), added: vec![], removed: vec![] };
    assert_eq!(StateDiff::decode(&diff.encode()).ok().unwrap().parent, None);
}

#[test]
fn handles_grow_from_one() {
    let mut store = SnapshotStore::new();
    assert_eq!(store.peek_next_handle(), 1);
    let first = store.create_snapshot(None, vec![entry(1, 10)], vec![]);
    let second = store.create_snapshot(Some(first), vec![entry(2, 20)], vec![]);
    let third = store.create_snapshot(Some(first), vec![], vec![]);
    assert_eq!((first, second, third), (1, 2, 3));
    assert_eq!(store.peek_next_handle(), 4);
}

#[test]
fn resolve_folds_the_chain_from_the_root() {
    let mut store = SnapshotStore::new();
    let root = store.create_snapshot(None, vec![entry(1, 10), entry(2, 20)], vec![]);
    let middle = store.create_snapshot(Some(root), vec![entry(1, 11)], vec![entry(1, 10)]);
    let top = store.create_snapshot(Some(middle), vec![entry(3, 30)], vec![entry(2, 20)]);
    assert_eq!(store.resolve(root).ok(), Some(state(&[(1, 10), (2, 20)])));
    assert_eq!(store.resolve(middle).ok(), Some(state(&[(1, 11), (2, 20)])));
    assert_eq!(store.resolve(top).ok(), Some(state(&[(1, 11), (3, 30)])));
}

#[test]
fn resolve_equals_replay() {
    let assignments: Vec<(u64, u64)> =
        vec![(1, 100), (2, 200), (1, 101), (3, 300), (2, 201), (1, 102), (4, 400), (3, 301)];
    let mut store = SnapshotStore::new();
    let mut replayed: HashMap<u64, u64> = HashMap::new();
    let mut parent = None;
    for (key, event) in assignments {
        let removed = match replayed.get(&key) {
            Some(old) => vec![entry(key, *old)],
            None => vec![],
        };
        let handle = store.create_snapshot(parent, vec![entry(key, event)], removed);
        replayed.insert(key, event);
        assert_eq!(store.resolve(handle).ok(), Some(replayed.clone()));
        parent = Some(handle);
    }
    assert_eq!(replayed, state(&[(1, 102), (2, 201), (3, 301), (4, 400)]));
}

#[test]
fn resolve_is_idempotent() {
    let mut store = SnapshotStore::new();
    let root = store.create_snapshot(None, vec![entry(1, 10)], vec![]);
    let top = store.create_snapshot(Some(root), vec![entry(2, 20)], vec![]);
    let first = store.resolve(top).ok();
    let second = store.resolve(top).ok();
    assert_eq!(first, second);
    assert_eq!(first, Some(state(&[(1, 10), (2, 20)])));
}

#[test]
fn new_snapshots_leave_old_ones_alone() {
    let mut store = SnapshotStore::new();
    let root = store.create_snapshot(None, vec![entry(1, 10)], vec![]);
    let before = store.resolve(root).ok();
    store.create_snapshot(Some(root), vec![entry(1, 11)], vec![entry(1, 10)]);
    assert_eq!(store.resolve(root).ok(), before);
}

#[test]
fn missing_snapshots_are_not_found() {
    let mut store = SnapshotStore::new();
    assert!(matches!(store.resolve(1), Err(Error::Database(_))));
    assert!(matches!(store.resolve_one(1, 1), Err(Error::Database(_))));
    assert!(matches!(store.get_statediff(1), Err(Error::Database(_))));
    let orphan = store.create_snapshot(Some(40), vec![entry(1, 10)], vec![]);
    assert!(matches!(store.resolve(orphan), Err(Error::Database(_))));
}

#[test]
fn a_parent_that_is_not_older_is_a_broken_link() {
    let mut store = SnapshotStore::new();
    store.save_statediff(5, &StateDiff { parent: Some(6), added: vec![entry(1, 1)], removed: vec![] });
    store.save_statediff(6, &StateDiff { parent: Some(5), added: vec![entry(2, 2)], removed: vec![] });
    store.save_statediff(7, &StateDiff { parent: Some(7), added: vec![entry(3, 3)], removed: vec![] });
    assert!(matches!(store.resolve(5), Err(Error::Database(_))));
    assert!(matches!(store.resolve(6), Err(Error::Database(_))));
    assert!(matches!(store.resolve(7), Err(Error::Database(_))));
    assert!(matches!(store.resolve_one(5, 9), Err(Error::Database(_))));
    assert_eq!(store.resolve_one(5, 1).ok(), Some(Some(1)));
    assert_eq!(store.peek_next_handle(), 8);
}

#[test]
fn resolve_one_stops_at_the_first_layer_that_decides() {
    let mut store = SnapshotStore::new();
    let root = store.create_snapshot(None, vec![entry(1, 10), entry(2, 20), entry(3, 30)], vec![]);
    let middle = store.create_snapshot(Some(root), vec![entry(1, 11)], vec![entry(1, 10), entry(2, 20)]);
    let top = store.create_snapshot(Some(middle), vec![entry(4, 40)], vec![]);
    assert_eq!(store.resolve_one(top, 1).ok(), Some(Some(11)));
    assert_eq!(store.resolve_one(top, 2).ok(), Some(None));
    assert_eq!(store.resolve_one(top, 3).ok(), Some(Some(30)));
    assert_eq!(store.resolve_one(top, 4).ok(), Some(Some(40)));
    assert_eq!(store.resolve_one(top, 5).ok(), Some(None));
    assert_eq!(store.resolve_one(root, 2).ok(), Some(Some(20)));
    let full = store.resolve(top).ok().unwrap();
    for key in 0..6u64 {
        assert_eq!(store.resolve_one(top, key).ok(), Some(full.get(&key).copied()));
    }
}

#[test]
fn resolve_one_does_not_look_below_the_deciding_layer() {
    let mut store = SnapshotStore::new();
    let top = store.create_snapshot(Some(90), vec![entry(1, 10)], vec![entry(2, 20)]);
    assert_eq!(store.resolve_one(top, 1).ok(), Some(Some(10)));
    assert_eq!(store.resolve_one(top, 2).ok(), Some(None));
    assert!(store.resolve_one(top, 3).is_err());
    assert!(store.resolve(top).is_err());
}

#[test]
fn the_last_of_two_added_entries_for_one_key_wins() {
    let mut store = SnapshotStore::new();
    let root = store.create_snapshot(None, vec![entry(1, 10), entry(1, 11)], vec![]);
    assert_eq!(store.resolve(root).ok(), Some(state(&[(1, 11)])));
    assert_eq!(store.resolve_one(root, 1).ok(), Some(Some(11)));
}

#[test]
fn records_go_to_storage_and_back() {
    let mut store = SnapshotStore::new();
    let root = store.create_snapshot(None, vec![entry(1, 10)], vec![]);
    let top = store.create_snapshot(Some(root), vec![entry(2, 20)], vec![entry(1, 10)]);
    let diff = StateDiff { parent: Some(root), added: vec![entry(2, 20)], removed: vec![entry(1, 10)] };
    assert_eq!(store.record(top), Some(&diff.encode()));
    assert_eq!(store.record(9), None);
    assert_eq!(store.get_statediff(top).ok(), Some(diff));

    let mut restarted = SnapshotStore::new();
    for handle in [top, root] {
        restarted.load_record(handle, store.record(handle).unwrap().clone());
    }
    assert_eq!(restarted.resolve(top).ok(), store.resolve(top).ok());
    assert_eq!(restarted.resolve(top).ok(), Some(state(&[(2, 20)])));
    assert_eq!(restarted.peek_next_handle(), 3);
    assert_eq!(restarted.create_snapshot(None, vec![], vec![]), 3);
}

#[test]
fn unreadable_records_are_not_found() {
    let mut store = SnapshotStore::new();
    store.load_record(1, vec![1, 2, 3]);
    assert!(matches!(store.resolve(1), Err(Error::Database(_))));
    store.load_record(u64::MAX, vec![0; 8]);
    assert_eq!(store.peek_next_handle(), u64::MAX);
    assert_eq!(store.resolve(u64::MAX).ok(), Some(state(&[])));
}

fn walk(store: &SnapshotStore, handle: u64) -> Result<HashMap<u64, u64>, Error> {
    let mut walk = ChainWalk::begin(handle);
    while let Some(wanted) = walk.wanted() {
        walk.supply(store.record(wanted).map(|value| value.as_slice()))?;
    }
    Ok(walk.finish())
}

#[test]
fn a_walk_layer_by_layer_finds_the_same_state() {
    let mut store = SnapshotStore::new();
    let root = store.create_snapshot(None, vec![entry(1, 10), entry(2, 20)], vec![]);
    let middle = store.create_snapshot(Some(root), vec![entry(1, 11)], vec![entry(1, 10)]);
    let top = store.create_snapshot(Some(middle), vec![entry(3, 30)], vec![entry(2, 20)]);
    for handle in [root, middle, top] {
        assert_eq!(walk(&store, handle).ok(), store.resolve(handle).ok());
    }
    assert_eq!(walk(&store, top).ok(), Some(state(&[(1, 11), (3, 30)])));
    assert!(matches!(walk(&store, 9), Err(Error::Database(_))));
}

#[test]
fn a_walk_wants_the_parents_in_turn() {
    let mut walk = ChainWalk::begin(3);
    assert_eq!(walk.wanted(), Some(3));
    let top = StateDiff { parent: Some(1), added: vec![entry(2, 20)], removed: vec![] };
    assert!(walk.supply(Some(&top.encode())).is_ok());
    assert_eq!(walk.wanted(), Some(1));
    assert!(matches!(walk.supply(None), Err(Error::Database(_))));
    assert!(matches!(walk.supply(Some(&[1, 2, 3])), Err(Error::Database(_))));
    let newer = StateDiff { parent: Some(1), added: vec![], removed: vec![] };
    assert!(matches!(walk.supply(Some(&newer.encode())), Err(Error::Database(_))));
    assert_eq!(walk.wanted(), Some(1));
    let root = StateDiff { parent: None, added: vec![entry(1, 10)], removed: vec![] };
    assert!(walk.supply(Some(&root.encode())).is_ok());
    assert_eq!(walk.wanted(), None);
    assert!(matches!(walk.supply(Some(&root.encode())), Err(Error::Database(_))));
    assert_eq!(walk.finish(), state(&[(1, 10), (2, 20)]));
}

#[test]
fn a_store_can_go_on_after_the_last_handle() {
    let mut store = SnapshotStore::starting_at(41);
    assert_eq!(store.peek_next_handle(), 41);
    assert_eq!(store.create_snapshot(None, vec![entry(1, 1)], vec![]), 41);
    assert_eq!(store.resolve(41).ok(), Some(state(&[(1, 1)])));
}
