//! End-to-end behavior of the typed table layer over the real store, run
//! against an in-memory backend.

use redb_bincode::{AccessError, Database, DecodeError, RangeBound, TableDefinition};

fn new_db() -> Database {
    Database::create_in_memory().unwrap()
}

#[test]
fn insert_commit_get_round_trip() {
    let db = new_db();
    let def: TableDefinition<String, (u64, String)> = TableDefinition::new("test_table");

    let write_txn = db.begin_write().unwrap();
    {
        let mut table = write_txn.open_table(&def).unwrap();
        let prev = table
            .insert(&"foo".to_string(), &(13u64, "bar".to_string()))
            .unwrap();
        assert!(prev.is_none());
    }
    write_txn.commit().unwrap();

    let read_txn = db.begin_read().unwrap();
    let table = read_txn.open_table(&def).unwrap();
    let guard = table.get(&"foo".to_string()).unwrap().expect("present");
    assert_eq!(guard.value(), (13u64, "bar".to_string()));
}

#[test]
fn remove_returns_previous_and_clears() {
    let db = new_db();
    let def: TableDefinition<String, (u64, String)> = TableDefinition::new("test_table");

    let write_txn = db.begin_write().unwrap();
    {
        let mut table = write_txn.open_table(&def).unwrap();
        table
            .insert(&"foo".to_string(), &(13u64, "bar".to_string()))
            .unwrap();
    }
    write_txn.commit().unwrap();

    let write_txn = db.begin_write().unwrap();
    {
        let mut table = write_txn.open_table(&def).unwrap();
        let prev = table.remove(&"foo".to_string()).unwrap().expect("present");
        assert_eq!(prev.value(), (13u64, "bar".to_string()));
        assert!(table.get(&"foo".to_string()).unwrap().is_none());
        // Removing an absent key returns None and changes nothing.
        assert!(table.remove(&"foo".to_string()).unwrap().is_none());
    }
    write_txn.commit().unwrap();
}

#[test]
fn insert_returns_previous_value() {
    let db = new_db();
    let def: TableDefinition<String, u64> = TableDefinition::new("counts");

    let write_txn = db.begin_write().unwrap();
    let mut table = write_txn.open_table(&def).unwrap();
    assert!(table.insert(&"k".to_string(), &1u64).unwrap().is_none());
    let prev = table.insert(&"k".to_string(), &2u64).unwrap().expect("had v1");
    assert_eq!(prev.value(), 1u64);
    assert_eq!(table.get(&"k".to_string()).unwrap().unwrap().value(), 2u64);
}

#[test]
fn range_yields_integer_keys_in_numeric_order() {
    let db = new_db();
    let def: TableDefinition<u64, String> = TableDefinition::new("ints");

    let write_txn = db.begin_write().unwrap();
    let mut table = write_txn.open_table(&def).unwrap();
    // Insertion order deliberately scrambled.
    for k in [3u64, 1, 2] {
        table.insert(&k, &format!("v{}", k)).unwrap();
    }
    let mut rg = table.range(RangeBound::Unbounded, RangeBound::Unbounded).unwrap();
    let mut seen: Vec<u64> = Vec::new();
    while let Some(item) = rg.next() {
        let (kg, vg) = item.unwrap();
        let k: u64 = kg.value();
        assert_eq!(vg.value(), format!("v{}", k));
        seen.push(k);
    }
    assert_eq!(seen, vec![1, 2, 3]);
}

#[test]
fn range_order_spans_width_classes() {
    let db = new_db();
    let def: TableDefinition<u64, bool> = TableDefinition::new("wide");

    let write_txn = db.begin_write().unwrap();
    let mut table = write_txn.open_table(&def).unwrap();
    let keys = [u64::MAX, 250, 0, 70_000, 251, 1, 0x1_0000_0000];
    for k in keys {
        table.insert(&k, &true).unwrap();
    }
    let mut rg = table.range(RangeBound::Unbounded, RangeBound::Unbounded).unwrap();
    let mut seen: Vec<u64> = Vec::new();
    while let Some(item) = rg.next() {
        seen.push(item.unwrap().0.value());
    }
    let mut sorted = keys.to_vec();
    sorted.sort();
    assert_eq!(seen, sorted);
}

#[test]
fn range_bound_inclusivity() {
    let db = new_db();
    let def: TableDefinition<u64, bool> = TableDefinition::new("ints");

    let write_txn = db.begin_write().unwrap();
    let mut table = write_txn.open_table(&def).unwrap();
    for k in [1u64, 2, 3] {
        table.insert(&k, &true).unwrap();
    }

    let collect = |start: RangeBound<&u64>, end: RangeBound<&u64>| -> Vec<u64> {
        let mut rg = table.range(start, end).unwrap();
        let mut seen = Vec::new();
        while let Some(item) = rg.next() {
            seen.push(item.unwrap().0.value());
        }
        seen
    };

    assert_eq!(collect(RangeBound::Included(&1), RangeBound::Excluded(&3)), vec![1, 2]);
    assert_eq!(collect(RangeBound::Excluded(&1), RangeBound::Included(&3)), vec![2, 3]);
    assert_eq!(collect(RangeBound::Included(&2), RangeBound::Included(&2)), vec![2]);
    assert_eq!(collect(RangeBound::Excluded(&2), RangeBound::Excluded(&3)), Vec::<u64>::new());
    // An inverted bound pair yields an empty sequence, not an error.
    assert_eq!(collect(RangeBound::Included(&3), RangeBound::Included(&1)), Vec::<u64>::new());
}

#[test]
fn first_last_on_empty_and_filled() {
    let db = new_db();
    let def: TableDefinition<u64, String> = TableDefinition::new("ints");

    let write_txn = db.begin_write().unwrap();
    let mut table = write_txn.open_table(&def).unwrap();
    assert!(table.first().unwrap().is_none());
    assert!(table.last().unwrap().is_none());

    for k in [5u64, 9, 7] {
        table.insert(&k, &format!("v{}", k)).unwrap();
    }
    let (kg, vg) = table.first().unwrap().expect("nonempty");
    assert_eq!(kg.value(), 5u64);
    assert_eq!(vg.value(), "v5".to_string());
    let (kg, vg) = table.last().unwrap().expect("nonempty");
    assert_eq!(kg.value(), 9u64);
    assert_eq!(vg.value(), "v9".to_string());
}

#[test]
fn retain_false_empties_and_true_keeps() {
    let db = new_db();
    let def: TableDefinition<u64, String> = TableDefinition::new("ints");

    let write_txn = db.begin_write().unwrap();
    let mut table = write_txn.open_table(&def).unwrap();
    for k in [1u64, 2, 3, 4] {
        table.insert(&k, &format!("v{}", k)).unwrap();
    }

    table.retain(|_, _| true).unwrap();
    for k in [1u64, 2, 3, 4] {
        assert!(table.get(&k).unwrap().is_some());
    }

    table.retain(|_, _| false).unwrap();
    assert!(table.first().unwrap().is_none());
    for k in [1u64, 2, 3, 4] {
        assert!(table.get(&k).unwrap().is_none());
    }
}

#[test]
fn retain_by_predicate_on_decoded_pairs() {
    let db = new_db();
    let def: TableDefinition<u64, u64> = TableDefinition::new("ints");

    let write_txn = db.begin_write().unwrap();
    let mut table = write_txn.open_table(&def).unwrap();
    for k in [1u64, 2, 3, 4, 5, 6] {
        table.insert(&k, &(k * 10)).unwrap();
    }
    table.retain(|k: &u64, v: &u64| *k % 2 == 0 && *v >= 40).unwrap();
    let mut rg = table.range(RangeBound::Unbounded, RangeBound::Unbounded).unwrap();
    let mut seen: Vec<u64> = Vec::new();
    while let Some(item) = rg.next() {
        seen.push(item.unwrap().0.value());
    }
    assert_eq!(seen, vec![4, 6]);
}

#[test]
fn retain_in_restricts_to_bounds() {
    let db = new_db();
    let def: TableDefinition<u64, bool> = TableDefinition::new("ints");

    let write_txn = db.begin_write().unwrap();
    let mut table = write_txn.open_table(&def).unwrap();
    for k in [1u64, 2, 3, 4, 5] {
        table.insert(&k, &true).unwrap();
    }
    table
        .retain_in(RangeBound::Included(&2), RangeBound::Excluded(&4), |_, _| false)
        .unwrap();
    let mut rg = table.range(RangeBound::Unbounded, RangeBound::Unbounded).unwrap();
    let mut seen: Vec<u64> = Vec::new();
    while let Some(item) = rg.next() {
        seen.push(item.unwrap().0.value());
    }
    assert_eq!(seen, vec![1, 4, 5]);
}

#[test]
fn value_try_surfaces_type_confusion() {
    let db = new_db();
    let string_def: TableDefinition<String, String> = TableDefinition::new("mixed");

    let write_txn = db.begin_write().unwrap();
    {
        let mut table = write_txn.open_table(&string_def).unwrap();
        table.insert(&"k".to_string(), &"xyz".to_string()).unwrap();
    }
    write_txn.commit().unwrap();

    // Reopening the same name under a different value type is undetected
    // until decode: the fallible path reports it instead of aborting.
    let bool_def: TableDefinition<String, bool> = TableDefinition::new("mixed");
    let read_txn = db.begin_read().unwrap();
    let table = read_txn.open_table(&bool_def).unwrap();
    let guard = table.get(&"k".to_string()).unwrap().expect("present");
    // "xyz" encodes as [3, b'x', b'y', b'z']; 3 is no boolean.
    assert_eq!(guard.value_try(), Err(DecodeError::InvalidTag));
}

#[test]
fn access_error_unifies_both_failure_kinds() {
    let decode_side: AccessError = DecodeError::InvalidTag.into();
    assert!(matches!(decode_side, AccessError::Decode(DecodeError::InvalidTag)));

    let storage_side: AccessError = redb_bincode::StorageError::ValueTooLarge(8).into();
    assert!(matches!(storage_side, AccessError::Storage(_)));

    // The combined surface in use: a fallible decode mapped into it.
    let db = new_db();
    let def: TableDefinition<String, String> = TableDefinition::new("mixed");
    let write_txn = db.begin_write().unwrap();
    {
        let mut table = write_txn.open_table(&def).unwrap();
        table.insert(&"k".to_string(), &"xyz".to_string()).unwrap();
    }
    write_txn.commit().unwrap();

    let bool_def: TableDefinition<String, bool> = TableDefinition::new("mixed");
    let read_txn = db.begin_read().unwrap();
    let table = read_txn.open_table(&bool_def).unwrap();
    let bool_view: Result<bool, AccessError> = table
        .get(&"k".to_string())
        .map_err(AccessError::from)
        .and_then(|g| g.unwrap().value_try().map_err(AccessError::from));
    assert!(matches!(
        bool_view,
        Err(AccessError::Decode(DecodeError::InvalidTag))
    ));
}

#[test]
fn read_only_table_sees_committed_state() {
    let db = new_db();
    let def: TableDefinition<u64, String> = TableDefinition::new("ints");

    let write_txn = db.begin_write().unwrap();
    {
        let mut table = write_txn.open_table(&def).unwrap();
        for k in [10u64, 20] {
            table.insert(&k, &format!("v{}", k)).unwrap();
        }
    }
    write_txn.commit().unwrap();

    let read_txn = db.begin_read().unwrap();
    let table = read_txn.open_table(&def).unwrap();
    assert_eq!(table.get(&10u64).unwrap().unwrap().value(), "v10".to_string());
    assert!(table.get(&30u64).unwrap().is_none());
    let (kg, _) = table.first().unwrap().expect("nonempty");
    assert_eq!(kg.value(), 10u64);
    let (kg, _) = table.last().unwrap().expect("nonempty");
    assert_eq!(kg.value(), 20u64);
    let mut rg = table
        .range(RangeBound::Included(&10), RangeBound::Included(&20))
        .unwrap();
    let mut seen: Vec<u64> = Vec::new();
    while let Some(item) = rg.next() {
        seen.push(item.unwrap().0.value());
    }
    assert_eq!(seen, vec![10, 20]);
}

#[test]
fn string_keys_iterate_in_encoded_byte_order() {
    let db = new_db();
    let def: TableDefinition<String, u64> = TableDefinition::new("words");

    let write_txn = db.begin_write().unwrap();
    let mut table = write_txn.open_table(&def).unwrap();
    for (i, w) in ["banana", "pear", "apple"].iter().enumerate() {
        table.insert(&w.to_string(), &(i as u64)).unwrap();
    }
    let mut rg = table.range(RangeBound::Unbounded, RangeBound::Unbounded).unwrap();
    let mut seen: Vec<String> = Vec::new();
    while let Some(item) = rg.next() {
        seen.push(item.unwrap().0.value());
    }
    // Ordering follows the comparator applied to the encoded bytes, and a
    // string's encoding starts with its byte length: shorter keys come
    // first, equal lengths fall back to the contents.
    assert_eq!(
        seen,
        vec!["pear".to_string(), "apple".to_string(), "banana".to_string()]
    );
}
