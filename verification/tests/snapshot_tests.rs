use snapshot_trie::VectorKey;
use snapshot_trie::art::Tree;
use snapshot_trie::iter::IterationPointer;

#[test]
fn test_snapshot_creation() {
    let mut tree: Tree<VectorKey, i32> = Tree::<VectorKey, i32>::new();
    let keys = ["key_1", "key_2", "key_3"];

    for key in keys.iter() {
        assert!(tree.insert(&VectorKey::from_str(key), 1, 0).is_ok());
    }

    let mut snap1 = tree.create_snapshot().unwrap();
    let key_to_insert = "key_1";
    assert!(snap1.insert(&VectorKey::from_str(key_to_insert), 1).is_ok());

    let expected_snap_ts = keys.len() as u64 + 1;
    assert_eq!(snap1.ts(), expected_snap_ts);
    assert_eq!(tree.snapshot_count(), 1);

    let expected_tree_ts = keys.len() as u64;
    assert_eq!(tree.ts(), expected_tree_ts);
}

#[test]
fn test_snapshot_isolation() {
    let mut tree: Tree<VectorKey, i32> = Tree::<VectorKey, i32>::new();
    let key_1 = VectorKey::from_str("key_1");
    let key_2 = VectorKey::from_str("key_2");
    let key_3_snap1 = VectorKey::from_str("key_3_snap1");
    let key_3_snap2 = VectorKey::from_str("key_3_snap2");

    assert!(tree.insert(&key_1, 1, 0).is_ok());
    let initial_ts = tree.ts();

    // Keys inserted before snapshot creation should be visible
    let mut snap1 = tree.create_snapshot().unwrap();
    assert_eq!(snap1.id(), 0);
    assert_eq!(snap1.get(&key_1, initial_ts).unwrap(), (1, 1));

    let mut snap2 = tree.create_snapshot().unwrap();
    assert_eq!(snap2.id(), 1);
    assert_eq!(snap2.get(&key_1, initial_ts).unwrap(), (1, 1));

    assert_eq!(tree.snapshot_count(), 2);

    // Keys inserted after snapshot creation should not be visible to other snapshots
    assert!(tree.insert(&key_2, 1, 0).is_ok());
    assert!(snap1.get(&key_2, snap1.ts()).is_err());
    assert!(snap2.get(&key_2, snap2.ts()).is_err());

    // Keys inserted after snapshot creation should be visible to the snapshot that inserted them
    assert!(snap1.insert(&key_3_snap1, 2).is_ok());
    assert_eq!(snap1.get(&key_3_snap1, snap1.ts()).unwrap(), (2, 2));

    assert!(snap2.insert(&key_3_snap2, 3).is_ok());
    assert_eq!(snap2.get(&key_3_snap2, snap2.ts()).unwrap(), (3, 2));

    // Keys inserted after snapshot creation should not be visible to other snapshots
    assert!(snap1.get(&key_3_snap2, snap1.ts()).is_err());
    assert!(snap2.get(&key_3_snap1, snap2.ts()).is_err());

    assert!(snap1.close().is_ok());
    assert!(snap2.close().is_ok());

    assert!(tree.close_snapshot(snap1.id()).is_ok());
    assert!(tree.close_snapshot(snap2.id()).is_ok());

    assert_eq!(tree.snapshot_count(), 0);
}

#[test]
fn test_snapshot_readers() {
    let mut tree: Tree<VectorKey, i32> = Tree::<VectorKey, i32>::new();
    let key_1 = VectorKey::from_str("key_1");
    let key_2 = VectorKey::from_str("key_2");
    let key_3 = VectorKey::from_str("key_3");
    let key_4 = VectorKey::from_str("key_4");

    assert!(tree.insert(&key_1, 1, 0).is_ok());
    assert!(tree.insert(&key_2, 1, 0).is_ok());
    assert!(tree.insert(&key_3, 1, 0).is_ok());

    let mut snap = tree.create_snapshot().unwrap();
    assert!(snap.insert(&key_4, 1).is_ok());

    // Reader 1
    let reader1 = snap.new_reader().unwrap();
    let reader1_id = reader1.id();
    assert_eq!(count_items(&reader1), 4);

    // Reader 2
    let reader2 = snap.new_reader().unwrap();
    let reader2_id = reader2.id();
    assert_eq!(count_items(&reader2), 4);

    // Active readers
    assert_eq!(snap.active_readers().unwrap(), 2);
    assert!(snap.close().is_err());

    // Close readers
    assert!(snap.close_reader(reader1_id).is_ok());
    assert!(snap.close_reader(reader2_id).is_ok());
    assert!(snap.close().is_ok());
}

fn count_items(reader: &IterationPointer<VectorKey, i32>) -> usize {
    let mut len = 0;
    for _ in reader.iter() {
        len += 1;
    }
    len
}
