use pgcopy::storage::pending::{
    CopyDestination, CopyFlushReasonKind, CopyFlushThresholds, CopyFlushThresholdsByScope,
    DestinationBatch, PendingCopyRow, PendingCopyRows,
};

fn pending_row(destination: CopyDestination, encoded_row: &[u8]) -> PendingCopyRow {
    PendingCopyRow::new(destination, encoded_row.to_vec())
}

#[test]
fn pending_rows_track_destination_and_session_limits() {
    let mut pending = PendingCopyRows::default();
    let limits = CopyFlushThresholds::new(2, Some(4));

    let first = pending_row(CopyDestination::Local, &[1, 2]);
    assert_eq!(pending.destination_would_exceed(&first, limits), None);
    assert_eq!(pending.session_would_exceed(&first, limits), None);

    let destination = pending.push(first);
    assert_eq!(destination, CopyDestination::Local);
    assert_eq!(pending.rows, 1);
    assert_eq!(pending.bytes, 2);
    assert_eq!(pending.destination_reached(&destination, limits), None);
    assert_eq!(pending.session_reached(limits), None);

    let second = pending_row(CopyDestination::Local, &[3, 4, 5]);
    assert_eq!(
        pending.destination_would_exceed(&second, limits),
        Some(CopyFlushReasonKind::Bytes)
    );
    assert_eq!(
        pending.session_would_exceed(&second, limits),
        Some(CopyFlushReasonKind::Bytes)
    );
}

#[test]
fn pending_rows_can_omit_byte_threshold() {
    let mut pending = PendingCopyRows::default();
    let limits = CopyFlushThresholds::new(3, None);

    pending.push(pending_row(CopyDestination::Local, &[1, 2, 3]));

    let next = pending_row(CopyDestination::Local, &[4, 5, 6]);
    assert_eq!(pending.destination_would_exceed(&next, limits), None);
    assert_eq!(pending.session_would_exceed(&next, limits), None);
}

#[test]
fn pending_rows_can_flush_one_destination_without_dropping_others() {
    let mut pending = PendingCopyRows::default();
    let local = CopyDestination::Local;
    let remote = CopyDestination::Replicaset("remote-rs-1".into());

    pending.push(pending_row(local.clone(), &[1, 2]));
    pending.push(pending_row(remote.clone(), &[3, 4, 5]));

    let batch = pending
        .take_destination(&remote)
        .expect("remote destination should be present");
    assert_eq!(batch.encoded_rows, vec![vec![3, 4, 5]]);
    assert_eq!(batch.bytes(), 3);
    assert_eq!(pending.rows, 1);
    assert_eq!(pending.bytes, 2);
    assert!(pending.contains_destination(&local));
    assert!(!pending.contains_destination(&remote));
}

#[test]
fn thresholds_count_rows_before_bytes() {
    let limits = CopyFlushThresholds::new(2, Some(10));
    assert_eq!(limits.would_exceed(0, 100, 100), None);
    assert_eq!(limits.would_exceed(1, 4, 6), None);
    assert_eq!(limits.would_exceed(1, 5, 6), Some(CopyFlushReasonKind::Bytes));
    assert_eq!(limits.would_exceed(2, 0, 0), Some(CopyFlushReasonKind::Rows));
    assert_eq!(limits.would_exceed(2, 100, 0), Some(CopyFlushReasonKind::Rows));
    assert_eq!(limits.reached(1, 9), None);
    assert_eq!(limits.reached(1, 10), Some(CopyFlushReasonKind::Bytes));
    assert_eq!(limits.reached(2, 10), Some(CopyFlushReasonKind::Rows));
    assert_eq!(CopyFlushThresholds::new(0, None).reached(0, 0), Some(CopyFlushReasonKind::Rows));
}

#[test]
fn thresholds_do_not_overflow() {
    let limits = CopyFlushThresholds::new(usize::MAX, Some(usize::MAX));
    assert_eq!(limits.would_exceed(usize::MAX, 0, 0), None);
    assert_eq!(limits.would_exceed(1, usize::MAX, usize::MAX), None);
    let limits = CopyFlushThresholds::new(usize::MAX, Some(usize::MAX - 1));
    assert_eq!(
        limits.would_exceed(1, usize::MAX, 1),
        Some(CopyFlushReasonKind::Bytes)
    );
}

#[test]
fn thresholds_are_kept_by_scope() {
    let session = CopyFlushThresholds::new(10, None);
    let destination = CopyFlushThresholds::new(5, Some(7));
    let scopes = CopyFlushThresholdsByScope::new(session, destination);
    assert_eq!(scopes.session, session);
    assert_eq!(scopes.destination, destination);
}

#[test]
fn rows_wait_in_the_order_in_which_they_came() {
    let mut pending = PendingCopyRows::default();
    assert!(pending.is_empty());
    let first = CopyDestination::Replicaset("a".into());
    let second = CopyDestination::Replicaset("b".into());
    pending.push(pending_row(first.clone(), &[1]));
    pending.push(pending_row(second.clone(), &[2]));
    pending.push(pending_row(CopyDestination::Local, &[3]));
    let told = pending.push(pending_row(first.clone(), &[4, 4]));
    assert_eq!(told, first);
    assert!(!pending.is_empty());
    assert_eq!(pending.rows, 4);
    assert_eq!(pending.bytes, 5);
    assert_eq!(pending.destinations().len(), 3);
    assert_eq!(
        pending.destination(&first).unwrap().encoded_rows,
        vec![vec![1], vec![4, 4]]
    );
    assert_eq!(pending.take_destination(&first).unwrap().bytes(), 3);
    assert!(pending.take_destination(&first).is_none());
    assert_eq!(pending.destination(&second).unwrap().encoded_rows, vec![vec![2]]);
    assert_eq!(
        pending.destination(&CopyDestination::Local).unwrap().encoded_rows,
        vec![vec![3]]
    );
    pending.clear();
    assert!(pending.is_empty());
    assert_eq!(pending.bytes, 0);
    assert!(pending.destination(&second).is_none());
}

#[test]
fn limits_of_a_destination_without_rows_are_not_reached() {
    let pending = PendingCopyRows::default();
    let limits = CopyFlushThresholds::new(0, Some(0));
    assert_eq!(pending.destination_reached(&CopyDestination::Local, limits), None);
    assert_eq!(pending.session_reached(limits), Some(CopyFlushReasonKind::Rows));
}

#[test]
fn destinations_are_told_apart_by_name() {
    let a = CopyDestination::Replicaset("a".into());
    let b = CopyDestination::Replicaset("b".into());
    assert!(a.same_as(&a.clone()));
    assert!(!a.same_as(&b));
    assert!(!a.same_as(&CopyDestination::Local));
    assert!(CopyDestination::Local.same_as(&CopyDestination::Local));
    let row = pending_row(b, &[1, 2, 3]);
    assert_eq!(row.len(), 3);
    assert_eq!(row.destination(), &CopyDestination::Replicaset("b".into()));
}

#[test]
fn batches_count_their_bytes() {
    let mut batch = DestinationBatch::default();
    assert!(batch.is_empty());
    batch.push(vec![1, 2]);
    batch.push(vec![]);
    batch.push(vec![3]);
    assert!(!batch.is_empty());
    assert_eq!(batch.bytes(), 3);
    assert_eq!(batch.encoded_rows.len(), 3);
}
