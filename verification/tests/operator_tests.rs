use count_records::{
    CountRecordsError, CountRecordsInput, CountRecordsOperator, CreationFailure, ErrorCode,
    LogRecord, Operation, OperationRecord, ReadFailure, SegmentHandle, SegmentReads,
};

fn rec(offset: i64, id: &str, operation: Operation) -> LogRecord {
    LogRecord {
        log_offset: offset,
        record: OperationRecord { id: id.to_string(), operation },
    }
}

fn run_on(log_records: Vec<LogRecord>, segment: SegmentHandle) -> Result<usize, CountRecordsError> {
    let input = CountRecordsInput::new(log_records, segment);
    let operator = CountRecordsOperator::new();
    operator.run(&input).map(|output| output.count)
}

#[test]
fn test_no_compaction_log_only() {
    // Add 1, 2. Delete 1. Add 3. Upsert 3. Expected count is 2.
    let log_records = vec![
        rec(1, "embedding_id_1", Operation::Add),
        rec(2, "embedding_id_2", Operation::Add),
        rec(3, "embedding_id_1", Operation::Delete),
        rec(4, "embedding_id_3", Operation::Add),
        rec(5, "embedding_id_3", Operation::Upsert),
    ];
    let segment = SegmentHandle::NotOpened(CreationFailure::Uninitialized);
    assert_eq!(run_on(log_records, segment), Ok(2));
}

#[test]
fn test_merge_log_and_storage() {
    // Committed state after compacting Add(id1), Add(id2), Delete(id1):
    // live set {id2}, committed count 1, and only id2 still exists.
    // New log: Add(id1), Add(id4), Update(id2).
    let log_records = vec![
        rec(4, "embedding_id_1", Operation::Add),
        rec(5, "embedding_id_4", Operation::Add),
        rec(6, "embedding_id_2", Operation::Update),
    ];
    let segment = SegmentHandle::Opened(SegmentReads::Complete {
        present: vec![false, false, true],
        committed_count: 1,
    });
    assert_eq!(run_on(log_records, segment), Ok(3));
}

#[test]
fn test_uninitialized_empty_log() {
    let segment = SegmentHandle::NotOpened(CreationFailure::Uninitialized);
    assert_eq!(run_on(Vec::new(), segment), Ok(0));
}

#[test]
fn test_empty_log_ready_returns_committed_count() {
    let segment = SegmentHandle::Opened(SegmentReads::Complete {
        present: Vec::new(),
        committed_count: 5,
    });
    assert_eq!(run_on(Vec::new(), segment), Ok(5));
}

#[test]
fn test_update_position_never_changes_result() {
    let base = vec![
        rec(1, "a", Operation::Add),
        rec(2, "b", Operation::Add),
        rec(3, "a", Operation::Delete),
    ];
    let expected = run_on(base.clone(), SegmentHandle::NotOpened(CreationFailure::Uninitialized));
    assert_eq!(expected, Ok(1));
    for position in 0..=base.len() {
        let mut log_records = base.clone();
        log_records.insert(position, rec(9, "b", Operation::Update));
        let got = run_on(log_records, SegmentHandle::NotOpened(CreationFailure::Uninitialized));
        assert_eq!(got, expected);
    }
}

#[test]
fn test_update_position_never_changes_ready_result() {
    // Segment knows "a" (committed count 2); the log re-adds "c" and
    // deletes "a". An Update of "a" at any position changes nothing.
    let base = vec![rec(1, "c", Operation::Add), rec(2, "a", Operation::Delete)];
    let base_present = vec![false, true];
    let expected = run_on(
        base.clone(),
        SegmentHandle::Opened(SegmentReads::Complete {
            present: base_present.clone(),
            committed_count: 2,
        }),
    );
    assert_eq!(expected, Ok(2));
    for position in 0..=base.len() {
        let mut log_records = base.clone();
        log_records.insert(position, rec(9, "a", Operation::Update));
        let mut present = base_present.clone();
        present.insert(position, true);
        let got = run_on(
            log_records,
            SegmentHandle::Opened(SegmentReads::Complete { present, committed_count: 2 }),
        );
        assert_eq!(got, expected);
    }
}

#[test]
fn test_rerun_yields_identical_result() {
    let build = || {
        CountRecordsInput::new(
            vec![
                rec(1, "a", Operation::Add),
                rec(2, "b", Operation::Upsert),
                rec(3, "a", Operation::Delete),
            ],
            SegmentHandle::Opened(SegmentReads::Complete {
                present: vec![true, false, true],
                committed_count: 4,
            }),
        )
    };
    let operator = CountRecordsOperator::new();
    let first = operator.run(&build());
    let second = operator.run(&build());
    assert_eq!(first, second);
    let input = build();
    assert_eq!(operator.run(&input), operator.run(&input));
}

#[test]
fn test_last_operation_wins_toggle_ends_live() {
    // a: Add, Delete, Add -> live once; b: Add, Delete -> not live.
    let log_records = vec![
        rec(1, "a", Operation::Add),
        rec(2, "b", Operation::Add),
        rec(3, "a", Operation::Delete),
        rec(4, "b", Operation::Delete),
        rec(5, "a", Operation::Add),
    ];
    let segment = SegmentHandle::NotOpened(CreationFailure::Uninitialized);
    assert_eq!(run_on(log_records, segment), Ok(1));
}

#[test]
fn test_last_operation_wins_on_committed_id() {
    // "a" is committed (count 1); the log deletes and re-adds it: still 1.
    let log_records = vec![rec(1, "a", Operation::Delete), rec(2, "a", Operation::Add)];
    let segment = SegmentHandle::Opened(SegmentReads::Complete {
        present: vec![true, true],
        committed_count: 1,
    });
    assert_eq!(run_on(log_records, segment), Ok(1));
}

#[test]
fn test_delete_committed_id() {
    // Segment holds {a, b}; the log deletes a.
    let log_records = vec![rec(1, "a", Operation::Delete)];
    let segment = SegmentHandle::Opened(SegmentReads::Complete {
        present: vec![true],
        committed_count: 2,
    });
    assert_eq!(run_on(log_records, segment), Ok(1));
}

#[test]
fn test_upsert_committed_id_not_double_counted() {
    let log_records = vec![rec(1, "a", Operation::Upsert)];
    let segment = SegmentHandle::Opened(SegmentReads::Complete {
        present: vec![true],
        committed_count: 1,
    });
    assert_eq!(run_on(log_records, segment), Ok(1));
}

#[test]
fn test_corrupt_committed_count_clamps_to_zero() {
    // The segment answers "a exists" yet reports a committed count of 0:
    // upstream corruption; the deletion would drive the count to -1.
    let log_records = vec![rec(1, "a", Operation::Delete)];
    let segment = SegmentHandle::Opened(SegmentReads::Complete {
        present: vec![true],
        committed_count: 0,
    });
    assert_eq!(run_on(log_records, segment), Ok(0));
}

#[test]
fn test_malformed_file_set_is_fatal_no_fallback() {
    // A log that would count 1 on the fallback path must not be counted:
    // the creation failure is surfaced unchanged.
    let log_records = vec![rec(1, "a", Operation::Add)];
    let segment = SegmentHandle::NotOpened(CreationFailure::MalformedFileSet);
    assert_eq!(
        run_on(log_records, segment),
        Err(CountRecordsError::RecordSegmentCreateError(CreationFailure::MalformedFileSet))
    );
}

#[test]
fn test_open_failure_is_fatal() {
    let segment = SegmentHandle::NotOpened(CreationFailure::OpenFailure("io fault".to_string()));
    assert_eq!(
        run_on(Vec::new(), segment),
        Err(CountRecordsError::RecordSegmentCreateError(CreationFailure::OpenFailure(
            "io fault".to_string()
        )))
    );
}

#[test]
fn test_missing_committed_record_is_fatal() {
    let segment =
        SegmentHandle::NotOpened(CreationFailure::MissingCommittedRecord("a".to_string()));
    assert_eq!(
        run_on(Vec::new(), segment),
        Err(CountRecordsError::RecordSegmentCreateError(CreationFailure::MissingCommittedRecord(
            "a".to_string()
        )))
    );
}

#[test]
fn test_read_failure_is_fatal() {
    let log_records = vec![rec(1, "a", Operation::Add)];
    let segment = SegmentHandle::Opened(SegmentReads::Failed(ReadFailure {
        cause: "block unreadable".to_string(),
    }));
    assert_eq!(
        run_on(log_records, segment),
        Err(CountRecordsError::RecordSegmentReadError(ReadFailure {
            cause: "block unreadable".to_string()
        }))
    );
}

#[test]
fn test_error_codes() {
    let create = |failure: CreationFailure| {
        CountRecordsError::RecordSegmentCreateError(failure).code()
    };
    assert_eq!(create(CreationFailure::Uninitialized), ErrorCode::FailedPrecondition);
    assert_eq!(create(CreationFailure::OpenFailure("x".to_string())), ErrorCode::Internal);
    assert_eq!(create(CreationFailure::MalformedFileSet), ErrorCode::InvalidArgument);
    assert_eq!(
        create(CreationFailure::MissingCommittedRecord("x".to_string())),
        ErrorCode::NotFound
    );
    let read = CountRecordsError::RecordSegmentReadError(ReadFailure { cause: "x".to_string() });
    assert_eq!(read.code(), ErrorCode::Internal);
}

#[test]
fn test_error_messages() {
    let create = CountRecordsError::RecordSegmentCreateError(CreationFailure::MalformedFileSet);
    assert_eq!(create.message(), "Error creating record segment reader");
    let read = CountRecordsError::RecordSegmentReadError(ReadFailure { cause: "x".to_string() });
    assert_eq!(read.message(), "Error reading record segment");
}

#[test]
fn test_get_name() {
    let operator = CountRecordsOperator::new();
    assert_eq!(operator.get_name(), "CountRecordsOperator");
}
