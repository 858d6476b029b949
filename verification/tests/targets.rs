use pgcopy::errors::{Action, CopyTargetError, Entity, SbroadError, TarantoolError};
use pgcopy::storage::direct_insert::{
    apply_insert_with_conflict, determine_insert_bucket_id, ensure_target_space,
    find_insert_motion_key, insert_all_tuples, insert_key_values, ConflictPolicy,
    DirectInsertTarget, InsertError, MotionKey, Target, TupleBuilderCommand,
};
use pgcopy::storage::pending::{CopyDestination, PendingCopyRow, PendingCopyRows};
use pgcopy::storage::target::{
    CopyRouting, PreparedCopyTarget, RemoteInsert, ShardedCopyRouting,
};
use std::cell::RefCell;
use tarantool::error::TarantoolErrorCode;

type Command = TupleBuilderCommand<i64, &'static str>;

fn key(targets: Vec<Target<i64>>) -> MotionKey<i64> {
    MotionKey { targets }
}

fn by_bucket() -> Command {
    TupleBuilderCommand::CalculateBucketId(key(vec![Target::Reference(1), Target::Value(7)]))
}

fn failed(text: &str) -> SbroadError {
    SbroadError::Other(text.into())
}

#[test]
fn the_first_key_with_targets_distributes() {
    let builder: Vec<Command> = vec![
        TupleBuilderCommand::Other("a"),
        TupleBuilderCommand::CalculateBucketId(key(vec![])),
        TupleBuilderCommand::CalculateBucketId(key(vec![Target::Value(1)])),
        by_bucket(),
    ];
    let found = find_insert_motion_key(&builder).unwrap();
    assert!(matches!(found.targets[0], Target::Value(1)));
    let none: Vec<Command> = vec![TupleBuilderCommand::CalculateBucketId(key(vec![]))];
    assert!(find_insert_motion_key(&none).is_none());
}

#[test]
fn key_values_come_from_the_row_and_the_key() {
    let motion_key = key(vec![Target::Reference(1), Target::Value(7), Target::Reference(0)]);
    assert_eq!(insert_key_values(&vec![10, 20], &motion_key), Ok(vec![&20, &7, &10]));
    let motion_key = key(vec![Target::Value(7), Target::Reference(2), Target::Reference(9)]);
    assert_eq!(insert_key_values(&vec![10, 20], &motion_key), Err(2));
}

#[test]
fn a_row_without_a_column_of_the_key_has_no_bucket() {
    let motion_key = key(vec![Target::Reference(12)]);
    let result = determine_insert_bucket_id(
        &vec![10, 20],
        &motion_key,
        |_| Ok(1),
        || "[10, 20]".to_string(),
    );
    assert_eq!(
        result,
        Err(SbroadError::NotFound(
            Entity::DistributionKey,
            "failed to find a distribution key column 12 in the tuple [10, 20].".into()
        ))
    );
    let motion_key = key(vec![Target::Reference(0), Target::Reference(1)]);
    let result = determine_insert_bucket_id(
        &vec![10, 20],
        &motion_key,
        |values| Ok((*values[0] + *values[1]) as u64),
        || String::new(),
    );
    assert_eq!(result, Ok(30));
}

#[test]
fn an_encoded_row_is_an_array() {
    let target: DirectInsertTarget<i64, &'static str> =
        DirectInsertTarget::new(1, 1, vec![by_bucket(), TupleBuilderCommand::Other("a")]);
    let encoded = target.encode_row(
        &vec![1, 2],
        |values| Ok((*values[0] * 10 + *values[1]) as u64),
        || String::new(),
        |bucket| Ok(vec![bucket.unwrap() as u8, 9]),
    );
    assert_eq!(encoded, Ok(vec![0x92, 27, 9]));
    let failing = target.encode_row(
        &vec![1, 2],
        |_| Err(failed("no bucket")),
        || String::new(),
        |_| Ok(vec![]),
    );
    assert_eq!(failing, Err(failed("no bucket")));
    let failing = target.encode_row(
        &vec![1, 2],
        |_| Ok(1),
        || String::new(),
        |_| Err(failed("no value")),
    );
    assert_eq!(failing, Err(failed("no value")));
}

#[test]
fn the_length_of_an_array_has_three_forms() {
    for (len, header) in [
        (0, vec![0x90]),
        (15, vec![0x9f]),
        (16, vec![0xdc, 0, 16]),
        (0x1234, vec![0xdc, 0x12, 0x34]),
        (0xffff, vec![0xdc, 0xff, 0xff]),
        (0x10000, vec![0xdd, 0, 1, 0, 0]),
        (0x12345, vec![0xdd, 0, 1, 0x23, 0x45]),
    ] {
        let mut builder: Vec<Command> = Vec::new();
        for _ in 0..len {
            builder.push(TupleBuilderCommand::Other(""));
        }
        let target = DirectInsertTarget::new(1, 1, builder);
        assert_eq!(target.bucket_id_for_row(&vec![], |_| Ok(1), || String::new()), Ok(None));
        assert_eq!(target.encode_row_with_bucket(None, |_| Ok(vec![])), Ok(header));
    }
}

#[test]
fn a_batch_goes_to_the_version_it_was_made_for() {
    let target: DirectInsertTarget<i64, ()> = DirectInsertTarget::new(5, 3, Vec::new());
    let tuples = vec![vec![1], vec![2]];
    let version = |table: u32| {
        assert_eq!(table, 5);
        Ok(3)
    };
    assert_eq!(target.flush_batch(&tuples, version, |rows| Ok(rows.len())), Ok(2));
    assert_eq!(
        target.flush_batch(&tuples, |_| Ok(4), |_| panic!("inserted")),
        Err(SbroadError::OutdatedStorageSchema)
    );
    assert_eq!(
        target.flush_batch(&tuples, |_| Err(failed("no table")), |_| panic!("inserted")),
        Err(failed("no table"))
    );
    assert_eq!(
        target.flush_batch(&tuples, |_| Ok(3), |_| Err(failed("full"))),
        Err(failed("full"))
    );
    assert_eq!(
        target.flush_batch(&vec![], |_| panic!("asked"), |_| panic!("inserted")),
        Ok(0)
    );
    assert_eq!(ensure_target_space(1, 2, |_| Ok(2)), Ok(()));
}

fn conflict() -> Result<(), InsertError> {
    Err(InsertError {
        tarantool: Some(TarantoolError {
            code: TarantoolErrorCode::TupleFound as u32,
            message: "duplicate".into(),
        }),
        shown: "shown".into(),
    })
}

fn insert_failed(text: &str) -> SbroadError {
    SbroadError::FailedTo(Action::Insert, Some(Entity::Space), text.into())
}

/// A table that keeps the rows that were attempted.
fn attempted(mut table: Vec<u8>, tuple: &Vec<u8>) -> (Vec<u8>, Result<(), InsertError>) {
    table.push(tuple[0]);
    let outcome = if tuple[0] == 3 { conflict() } else { Ok(()) };
    (table, outcome)
}

#[test]
fn all_rows_are_inserted_once_and_counted() {
    let tuples = vec![vec![1], vec![2], vec![4], vec![5]];
    assert_eq!(
        insert_all_tuples(&tuples, vec![0], attempted),
        (vec![0, 1, 2, 4, 5], Ok(4))
    );
    assert_eq!(insert_all_tuples(&vec![], vec![0], attempted), (vec![0], Ok(0)));
}

#[test]
fn the_first_row_that_is_not_inserted_fails_all() {
    let tuples = vec![vec![1], vec![2], vec![3], vec![4]];
    assert_eq!(
        insert_all_tuples(&tuples, vec![], attempted),
        (vec![1, 2, 3], Err(insert_failed("duplicate")))
    );
    let other = insert_all_tuples(&tuples, (), |table, _: &Vec<u8>| {
        let failure = InsertError {
            tarantool: None,
            shown: "shown".into(),
        };
        (table, Err(failure))
    });
    assert_eq!(other, ((), Err(insert_failed("shown"))));
}

#[test]
fn the_policy_decides_about_a_conflict() {
    let unused = || panic!("replaced");
    assert_eq!(apply_insert_with_conflict(Ok(()), ConflictPolicy::DoFail, unused), Ok(true));
    assert_eq!(
        apply_insert_with_conflict(conflict(), ConflictPolicy::DoNothing, unused),
        Ok(false)
    );
    assert_eq!(
        apply_insert_with_conflict(conflict(), ConflictPolicy::DoFail, unused),
        Err(insert_failed("duplicate"))
    );
    assert_eq!(
        apply_insert_with_conflict(conflict(), ConflictPolicy::DoReplace, || Ok(())),
        Ok(true)
    );
    assert_eq!(
        apply_insert_with_conflict(conflict(), ConflictPolicy::DoReplace, || Err(failed("no"))),
        Err(failed("no"))
    );
}

#[test]
fn any_other_insert_error_is_an_error() {
    for tarantool in [
        None,
        Some(TarantoolError {
            code: TarantoolErrorCode::AccessDenied as u32,
            message: "denied".into(),
        }),
    ] {
        let failure = Err(InsertError {
            tarantool,
            shown: "shown".into(),
        });
        assert_eq!(
            apply_insert_with_conflict(failure, ConflictPolicy::DoReplace, || Ok(())),
            Err(insert_failed("shown"))
        );
    }
}

fn sharded() -> CopyRouting {
    CopyRouting::Sharded(ShardedCopyRouting {
        tier_name: "hot".into(),
        schema_version: 8,
        dispatch_timeout: 30,
    })
}

fn target(routing: CopyRouting) -> PreparedCopyTarget<i64, &'static str> {
    PreparedCopyTarget {
        table_id: 5,
        table_name: "t".into(),
        field_types: Vec::new(),
        conflict_policy: ConflictPolicy::DoReplace,
        insert: DirectInsertTarget::new(5, 8, vec![by_bucket(), TupleBuilderCommand::Other("a")]),
        routing,
    }
}

fn replicaset(name: &str) -> CopyDestination {
    CopyDestination::Replicaset(name.into())
}

fn internal(text: &str) -> CopyTargetError {
    CopyTargetError::Internal(text.into())
}

#[test]
fn buckets_have_destinations() {
    let local = target(CopyRouting::Local);
    assert_eq!(
        local.destination_for_bucket(None, || panic!("asked"), |_| panic!("looked up")),
        Ok(CopyDestination::Local)
    );
    let far = target(sharded());
    assert_eq!(
        far.destination_for_bucket(None, || panic!("asked"), |_| panic!("looked up")),
        Err(CopyTargetError::MissingBucketId)
    );
    assert_eq!(
        far.destination_for_bucket(Some(4), || Err(internal("old")), |_| panic!("looked up")),
        Err(internal("old"))
    );
    assert_eq!(
        far.destination_for_bucket(Some(4), || Ok(()), |_| None),
        Err(CopyTargetError::MissingBucketRoute {
            tier_name: "hot".into(),
            bucket_id: 4
        })
    );
    assert_eq!(
        far.destination_for_bucket(Some(4), || Ok(()), |id| Some(replicaset(&format!("r{id}")))),
        Ok(replicaset("r4"))
    );
}

#[test]
fn timeouts_follow_the_routing() {
    assert_eq!(target(CopyRouting::Local).local_insert_timeout(99), 99);
    assert_eq!(target(sharded()).local_insert_timeout(99), 30);
    assert_eq!(
        target(CopyRouting::Local).ensure_routing_current(|| Err(internal("old"))),
        Ok(())
    );
    assert_eq!(
        target(sharded()).ensure_routing_current(|| Err(internal("old"))),
        Err(internal("old"))
    );
}

#[test]
fn a_row_is_prepared_for_its_destination() {
    let row = target(sharded())
        .prepare_pending_row(
            &vec![1, 2],
            |values| Ok(*values[0] as u64),
            || String::new(),
            |bucket| Ok(vec![bucket.unwrap() as u8]),
            || Ok(()),
            |id| Some(replicaset(&format!("r{id}"))),
        )
        .unwrap();
    assert_eq!(row.destination(), &replicaset("r2"));
    assert_eq!(row.encoded_row, vec![0x92, 2]);
    let error = target(sharded())
        .prepare_pending_row(
            &vec![1],
            |_| Ok(1),
            || "[1]".to_string(),
            |_| Ok(vec![]),
            || Ok(()),
            |_| None,
        )
        .unwrap_err();
    assert!(matches!(error, CopyTargetError::Storage(SbroadError::NotFound(_, _))));
    let error = target(sharded())
        .prepare_pending_row(
            &vec![1, 2],
            |_| Ok(1),
            || String::new(),
            |_| Err(failed("no value")),
            || panic!("asked"),
            |_| None,
        )
        .unwrap_err();
    assert_eq!(error, CopyTargetError::Storage(failed("no value")));
}

fn is_uuid(text: &str) -> bool {
    let chars: Vec<char> = text.chars().collect();
    chars.len() == 36
        && chars.iter().enumerate().all(|(at, ch)| match at {
            8 | 13 | 18 | 23 => *ch == '-',
            14 => *ch == '4',
            19 => "89ab".contains(*ch),
            _ => "0123456789abcdef".contains(*ch),
        })
}

fn waiting() -> PendingCopyRows {
    let mut pending = PendingCopyRows::default();
    pending.push(PendingCopyRow::new(replicaset("a"), vec![1]));
    pending.push(PendingCopyRow::new(CopyDestination::Local, vec![2, 2]));
    pending.push(PendingCopyRow::new(replicaset("b"), vec![3]));
    pending.push(PendingCopyRow::new(replicaset("a"), vec![4]));
    pending
}

#[test]
fn all_rows_are_written_here_first_and_then_elsewhere() {
    let target = target(sharded());
    let mut pending = waiting();
    let calls = RefCell::new(Vec::new());
    let result = target.flush_pending_rows(
        &mut pending,
        99,
        |table| {
            calls.borrow_mut().push(format!("operable {table}"));
            Ok(())
        },
        || {
            calls.borrow_mut().push("current".to_string());
            Ok(())
        },
        |rows, timeout| {
            calls.borrow_mut().push(format!("local {rows:?} {timeout}"));
            Ok(rows.len())
        },
        |request: &RemoteInsert| {
            assert!(is_uuid(request.core.request_id.as_str()));
            assert_eq!(request.core.space_id, 5);
            assert_eq!(request.core.space_version, 8);
            assert_eq!(request.core.conflict_policy, ConflictPolicy::DoReplace);
            assert_eq!(request.tier_name.as_str(), "hot");
            assert_eq!(request.dispatch_timeout, 30);
            let mut count = 0;
            for batch in &request.batches {
                count += batch.encoded_rows.len();
                let call = format!("{} {:?}", batch.replicaset_uuid, batch.encoded_rows);
                calls.borrow_mut().push(call);
            }
            Ok(count)
        },
    );
    assert_eq!(result, Ok(4));
    assert_eq!(
        calls.into_inner(),
        vec![
            "operable 5",
            "current",
            "local [[2, 2]] 30",
            "a [[1], [4]]",
            "b [[3]]",
        ]
    );
    assert!(pending.is_empty());
    assert_eq!(pending.bytes, 0);
}

#[test]
fn rows_go_on_waiting_where_a_write_fails() {
    let target = target(sharded());
    let mut pending = waiting();
    let result = target.flush_pending_rows(
        &mut pending,
        99,
        |_| Ok(()),
        || Ok(()),
        |_, _| Err(internal("full")),
        |_: &RemoteInsert| panic!("sent"),
    );
    assert_eq!(result, Err(internal("full")));
    assert_eq!(pending.rows, 4);
    let result = target.flush_pending_rows(
        &mut pending,
        99,
        |_| Err(internal("busy")),
        || panic!("asked"),
        |_, _| panic!("inserted"),
        |_: &RemoteInsert| panic!("sent"),
    );
    assert_eq!(result, Err(internal("busy")));
    let result = target.flush_pending_destination(
        &mut pending,
        &replicaset("a"),
        99,
        |_| Ok(()),
        || Ok(()),
        |_, _| panic!("inserted"),
        |_: &RemoteInsert| Err(internal("lost")),
    );
    assert_eq!(result, Err(internal("lost")));
    assert_eq!(pending.rows, 4);
    assert_eq!(pending.destination(&replicaset("a")).unwrap().encoded_rows.len(), 2);
}

#[test]
fn one_destination_is_written_alone() {
    let target = target(sharded());
    let mut pending = waiting();
    let result = target.flush_pending_destination(
        &mut pending,
        &replicaset("a"),
        99,
        |_| Ok(()),
        || Ok(()),
        |_, _| panic!("inserted"),
        |request: &RemoteInsert| {
            assert_eq!(request.batches.len(), 1);
            assert_eq!(request.batches[0].replicaset_uuid, "a");
            Ok(request.batches[0].encoded_rows.len())
        },
    );
    assert_eq!(result, Ok(2));
    assert_eq!(pending.rows, 2);
    assert!(!pending.contains_destination(&replicaset("a")));
    let result = target.flush_pending_destination(
        &mut pending,
        &CopyDestination::Local,
        99,
        |_| Ok(()),
        || Ok(()),
        |rows, _| Ok(rows.len()),
        |_: &RemoteInsert| panic!("sent"),
    );
    assert_eq!(result, Ok(1));
    let result = target.flush_pending_destination(
        &mut pending,
        &CopyDestination::Local,
        99,
        |_| panic!("asked"),
        || panic!("asked"),
        |_, _| panic!("inserted"),
        |_: &RemoteInsert| panic!("sent"),
    );
    assert_eq!(result, Ok(0));
    assert_eq!(pending.rows, 1);
}

#[test]
fn totals_that_have_reached_their_end_are_counted_down_from_there() {
    let target = target(sharded());
    let mut pending = waiting();
    pending.rows = usize::MAX;
    pending.bytes = 1;
    let none = target.flush_pending_destination(
        &mut pending,
        &replicaset("z"),
        99,
        |_| panic!("asked"),
        || panic!("asked"),
        |_, _| panic!("inserted"),
        |_: &RemoteInsert| panic!("sent"),
    );
    assert_eq!(none, Ok(0));
    assert_eq!((pending.rows, pending.bytes), (usize::MAX, 1));
    let sent = RefCell::new(0);
    let two = target.flush_pending_destination(
        &mut pending,
        &replicaset("a"),
        99,
        |_| Ok(()),
        || Ok(()),
        |_, _| panic!("inserted"),
        |request: &RemoteInsert| {
            *sent.borrow_mut() += 1;
            Ok(request.batches[0].encoded_rows.len())
        },
    );
    assert_eq!(two, Ok(2));
    assert_eq!(sent.into_inner(), 1);
    assert_eq!((pending.rows, pending.bytes), (usize::MAX - 2, 0));
}

#[test]
fn nothing_is_asked_where_no_rows_wait() {
    let mut pending = PendingCopyRows::default();
    let result = target(sharded()).flush_pending_rows(
        &mut pending,
        99,
        |_| panic!("asked"),
        || panic!("asked"),
        |_, _| panic!("inserted"),
        |_: &RemoteInsert| panic!("sent"),
    );
    assert_eq!(result, Ok(0));
}

#[test]
fn a_table_that_is_not_distributed_sends_nothing() {
    let mut pending = PendingCopyRows::default();
    pending.push(PendingCopyRow::new(replicaset("a"), vec![1]));
    let result = target(CopyRouting::Local).flush_pending_destination(
        &mut pending,
        &replicaset("a"),
        99,
        |_| Ok(()),
        || panic!("asked"),
        |_, _| panic!("inserted"),
        |_: &RemoteInsert| panic!("sent"),
    );
    assert_eq!(
        result,
        Err(internal("remote COPY batch requires sharded routing"))
    );
    assert_eq!(pending.rows, 1);
}

#[test]
fn requests_have_ids_of_their_own() {
    let ids = RefCell::new(Vec::new());
    for _ in 0..2 {
        let result = target(sharded()).dispatch_remote_batches(Vec::new(), |request| {
            ids.borrow_mut().push(request.core.request_id.clone());
            Ok(3)
        });
        assert_eq!(result, Ok(3));
    }
    let ids = ids.into_inner();
    assert_ne!(ids[0], ids[1]);
}
