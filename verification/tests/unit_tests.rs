use count_records::{count_from_log, reconcile_with_segment, IdSet, LogRecord, Operation,
    OperationRecord};

fn rec(offset: i64, id: &str, operation: Operation) -> LogRecord {
    LogRecord {
        log_offset: offset,
        record: OperationRecord { id: id.to_string(), operation },
    }
}

#[test]
fn test_id_set_semantics() {
    let mut set = IdSet::new();
    assert_eq!(set.len(), 0);
    let a = "a".to_string();
    let b = "b".to_string();
    assert!(!set.contains(&a));
    set.insert(&a);
    set.insert(&a);
    set.insert(&b);
    assert!(set.contains(&a));
    assert!(set.contains(&b));
    assert_eq!(set.len(), 2);
    let copy = set.duplicate();
    set.remove(&a);
    assert!(!set.contains(&a));
    assert_eq!(set.len(), 1);
    set.remove(&a);
    assert_eq!(set.len(), 1);
    assert!(copy.contains(&a));
    assert_eq!(copy.len(), 2);
}

#[test]
fn test_count_from_log_direct() {
    let log_records = vec![
        rec(1, "a", Operation::Add),
        rec(2, "a", Operation::Update),
        rec(3, "b", Operation::Upsert),
        rec(4, "c", Operation::Delete),
    ];
    assert_eq!(count_from_log(&log_records), 2);
    assert_eq!(count_from_log(&Vec::new()), 0);
}

#[test]
fn test_reconcile_with_segment_direct() {
    // Segment holds {a, b} (count 2). Log: delete a, add c, update b.
    let log_records = vec![
        rec(1, "a", Operation::Delete),
        rec(2, "c", Operation::Add),
        rec(3, "b", Operation::Update),
    ];
    let present = vec![true, false, true];
    assert_eq!(reconcile_with_segment(&log_records, &present, 2), 2);
}

#[test]
fn test_reconcile_repeated_operations_net_once() {
    // "a" is committed and toggles, ending deleted: subtracted once.
    // "d" is absent and toggles, ending live: added once.
    let log_records = vec![
        rec(1, "a", Operation::Delete),
        rec(2, "a", Operation::Add),
        rec(3, "a", Operation::Delete),
        rec(4, "d", Operation::Add),
        rec(5, "d", Operation::Delete),
        rec(6, "d", Operation::Upsert),
    ];
    let present = vec![true, true, true, false, false, false];
    assert_eq!(reconcile_with_segment(&log_records, &present, 3), 3);
}
