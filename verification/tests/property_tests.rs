use snapshot_trie::KeyTrait;
use snapshot_trie::VectorKey;
use snapshot_trie::art::Tree;
use snapshot_trie::art::TrieError;

#[test]
fn ts_counts_successful_inserts() {
    let mut tree: Tree<VectorKey, u32> = Tree::new();
    assert!(tree.insert(&VectorKey::from_str("base"), 0, 0).is_ok());
    assert!(tree.insert(&VectorKey::from_str("base_2"), 0, 0).is_ok());

    let mut snap = tree.create_snapshot().unwrap();
    let start_ts = snap.ts();
    assert_eq!(start_ts, 2);
    for n in 0..5u32 {
        let key = VectorKey::from_str(&format!("key_{}", n));
        assert!(snap.insert(&key, n).is_ok());
        assert_eq!(snap.ts(), start_ts + u64::from(n) + 1);
    }
    assert_eq!(snap.ts(), start_ts + 5);
    // the tree's own timestamp did not move
    assert_eq!(tree.ts(), 2);
}

#[test]
fn get_bounded_by_requested_timestamp() {
    let mut tree: Tree<VectorKey, i32> = Tree::new();
    let key = VectorKey::from_str("key_1");
    assert!(tree.insert(&key, 7, 0).is_ok());
    let snap = tree.create_snapshot().unwrap();

    // committed at timestamp 1: visible from 1 on, not at 0
    assert_eq!(snap.get(&key, 0), Err(TrieError::KeyNotFound));
    assert_eq!(snap.get(&key, 1).unwrap(), (7, 1));
    assert_eq!(snap.get(&key, u64::MAX).unwrap(), (7, 1));
}

#[test]
fn own_insert_visible_at_own_timestamp() {
    let mut tree: Tree<VectorKey, i32> = Tree::new();
    let mut snap = tree.create_snapshot().unwrap();
    let key = VectorKey::from_str("mine");
    assert!(snap.insert(&key, 42).is_ok());
    let (value, commit_ts) = snap.get(&key, snap.ts()).unwrap();
    assert_eq!(value, 42);
    assert!(commit_ts <= snap.ts());
}

#[test]
fn overwrite_replaces_version() {
    let mut tree: Tree<VectorKey, i32> = Tree::new();
    let key = VectorKey::from_str("key_1");
    let mut snap = tree.create_snapshot().unwrap();
    assert!(snap.insert(&key, 1).is_ok());
    assert!(snap.insert(&key, 2).is_ok());
    // the overwrite replaced the key's version on the write path
    assert_eq!(snap.get(&key, snap.ts()).unwrap(), (2, 2));
    assert_eq!(snap.get(&key, 1), Err(TrieError::KeyNotFound));
}

#[test]
fn close_fails_while_readers_active() {
    let mut tree: Tree<VectorKey, i32> = Tree::new();
    let mut snap = tree.create_snapshot().unwrap();
    let reader1 = snap.new_reader().unwrap();
    let reader2 = snap.new_reader().unwrap();

    assert_eq!(snap.close(), Err(TrieError::SnapshotReadersNotClosed));
    assert!(snap.close_reader(reader1.id()).is_ok());
    assert_eq!(snap.close(), Err(TrieError::SnapshotReadersNotClosed));
    assert!(snap.close_reader(reader2.id()).is_ok());
    // the count reached zero: close succeeds immediately
    assert_eq!(snap.close(), Ok(()));
    assert_eq!(snap.close(), Err(TrieError::SnapshotAlreadyClosed));
}

#[test]
fn reader_ids_strictly_increasing_and_counted() {
    let mut tree: Tree<VectorKey, i32> = Tree::new();
    let mut snap = tree.create_snapshot().unwrap();

    let r0 = snap.new_reader().unwrap();
    let r1 = snap.new_reader().unwrap();
    let r2 = snap.new_reader().unwrap();
    assert_eq!(r0.id(), 0);
    assert_eq!(r1.id(), 1);
    assert_eq!(r2.id(), 2);
    // issued 3, closed 0
    assert_eq!(snap.active_readers().unwrap(), 3);

    assert!(snap.close_reader(r1.id()).is_ok());
    // issued 3, closed 1
    assert_eq!(snap.active_readers().unwrap(), 2);

    // an id never issued, and an id already closed, are reported
    assert_eq!(snap.close_reader(99), Err(TrieError::ReaderNotFound));
    assert_eq!(snap.close_reader(r1.id()), Err(TrieError::ReaderNotFound));
    assert_eq!(snap.active_readers().unwrap(), 2);

    // ids are never reused: the next reader continues after every issued id
    let r3 = snap.new_reader().unwrap();
    assert_eq!(r3.id(), 3);
    assert_eq!(snap.active_readers().unwrap(), 3);
}

#[test]
fn reader_view_pinned_at_creation() {
    let mut tree: Tree<VectorKey, i32> = Tree::new();
    let key_1 = VectorKey::from_str("key_1");
    let key_2 = VectorKey::from_str("key_2");
    assert!(tree.insert(&key_1, 1, 0).is_ok());

    let mut snap = tree.create_snapshot().unwrap();
    let reader = snap.new_reader().unwrap();

    // a later insert on the same snapshot is invisible to the reader
    assert!(snap.insert(&key_2, 2).is_ok());
    let entries = reader.iter();
    assert_eq!(entries.len(), 1);
    assert!(entries[0].0.key_eq(&key_1));
    assert_eq!(entries[0].1, 1);
    assert_eq!(entries[0].2, 1);

    // the traversal is restartable: a fresh walk sees the same entries
    let again = reader.iter();
    assert_eq!(again.len(), 1);
    assert!(again[0].0.key_eq(&key_1));

    // the snapshot itself sees both keys
    let new_entries = snap.new_reader().unwrap().iter();
    assert_eq!(new_entries.len(), 2);
}

#[test]
fn sibling_snapshots_fully_isolated() {
    let mut tree: Tree<VectorKey, i32> = Tree::new();
    let key_1 = VectorKey::from_str("key_1");
    let key_2 = VectorKey::from_str("key_2");
    let key_3_snap1 = VectorKey::from_str("key_3_snap1");
    let key_3_snap2 = VectorKey::from_str("key_3_snap2");

    assert!(tree.insert(&key_1, 1, 0).is_ok());

    let mut snap1 = tree.create_snapshot().unwrap();
    let mut snap2 = tree.create_snapshot().unwrap();
    assert_eq!(snap1.id(), 0);
    assert_eq!(snap2.id(), 1);
    assert_eq!(snap1.get(&key_1, 1).unwrap(), (1, 1));
    assert_eq!(snap2.get(&key_1, 1).unwrap(), (1, 1));

    // a later write into the base store is invisible to both snapshots,
    // at every requested timestamp
    assert!(tree.insert(&key_2, 1, 0).is_ok());
    assert_eq!(snap1.get(&key_2, u64::MAX), Err(TrieError::KeyNotFound));
    assert_eq!(snap2.get(&key_2, u64::MAX), Err(TrieError::KeyNotFound));

    // each snapshot sees its own write and not the sibling's
    assert!(snap1.insert(&key_3_snap1, 2).is_ok());
    assert!(snap2.insert(&key_3_snap2, 3).is_ok());
    assert_eq!(snap1.get(&key_3_snap1, snap1.ts()).unwrap(), (2, 2));
    assert_eq!(snap2.get(&key_3_snap2, snap2.ts()).unwrap(), (3, 2));
    assert_eq!(snap1.get(&key_3_snap2, u64::MAX), Err(TrieError::KeyNotFound));
    assert_eq!(snap2.get(&key_3_snap1, u64::MAX), Err(TrieError::KeyNotFound));

    // closing succeeds only after each snapshot's readers are closed
    let reader = snap1.new_reader().unwrap();
    assert_eq!(snap1.close(), Err(TrieError::SnapshotReadersNotClosed));
    assert!(snap1.close_reader(reader.id()).is_ok());
    assert!(snap1.close().is_ok());
    assert!(snap2.close().is_ok());

    assert!(tree.close_snapshot(snap1.id()).is_ok());
    assert!(tree.close_snapshot(snap2.id()).is_ok());
    assert_eq!(tree.snapshot_count(), 0);
    assert_eq!(tree.close_snapshot(snap1.id()), Err(TrieError::SnapshotNotFound));
}

#[test]
fn closed_snapshot_rejects_every_operation() {
    let mut tree: Tree<VectorKey, i32> = Tree::new();
    let key = VectorKey::from_str("key_1");
    let mut snap = tree.create_snapshot().unwrap();
    assert!(snap.close().is_ok());

    assert_eq!(snap.insert(&key, 1), Err(TrieError::SnapshotAlreadyClosed));
    assert_eq!(snap.get(&key, 1), Err(TrieError::SnapshotAlreadyClosed));
    assert!(snap.new_reader().is_err());
    assert_eq!(snap.active_readers(), Err(TrieError::SnapshotAlreadyClosed));
    assert_eq!(snap.close_reader(0), Err(TrieError::SnapshotAlreadyClosed));
    assert_eq!(snap.close(), Err(TrieError::SnapshotAlreadyClosed));
}

#[test]
fn readers_of_closed_snapshot_stay_valid() {
    let mut tree: Tree<VectorKey, i32> = Tree::new();
    let key = VectorKey::from_str("key_1");
    assert!(tree.insert(&key, 5, 0).is_ok());
    let mut snap = tree.create_snapshot().unwrap();
    let reader = snap.new_reader().unwrap();
    assert!(snap.close_reader(reader.id()).is_ok());
    assert!(snap.close().is_ok());

    // the reader still walks the graph it was bound to
    let entries = reader.iter();
    assert_eq!(entries.len(), 1);
    assert!(entries[0].0.key_eq(&key));
    assert_eq!(entries[0].1, 5);
}

#[test]
fn tree_write_timestamps() {
    let mut tree: Tree<VectorKey, i32> = Tree::new();
    let key_1 = VectorKey::from_str("key_1");
    let key_2 = VectorKey::from_str("key_2");
    assert_eq!(tree.ts(), 0);

    // zero lets the tree assign the next timestamp
    assert!(tree.insert(&key_1, 1, 0).is_ok());
    assert_eq!(tree.ts(), 1);

    // an explicit timestamp at or above the current one is taken as given
    assert!(tree.insert(&key_2, 2, 5).is_ok());
    assert_eq!(tree.ts(), 5);
    assert_eq!(tree.get(&key_2, 5).unwrap(), (2, 5));

    // a nonzero timestamp below the current one is rejected and nothing moves
    assert_eq!(tree.insert(&key_1, 3, 4), Err(TrieError::TimestampTooOld));
    assert_eq!(tree.ts(), 5);
    assert_eq!(tree.get(&key_1, 5).unwrap(), (1, 1));
}

#[test]
fn vector_keys_compare_by_bytes() {
    let from_str = VectorKey::from_str("abc");
    let from_slice = VectorKey::from_slice(b"abc");
    let other = VectorKey::from_str("abd");
    assert!(from_str.key_eq(&from_slice));
    assert!(!from_str.key_eq(&other));
    assert!(from_str.clone_key().key_eq(&from_str));
}
