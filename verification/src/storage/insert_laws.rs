//! What holds of the bucket of a row, of an encoded row, and of rows that are inserted.
use crate::errors::{Action, Entity, SbroadError, SbroadErrorView};
use crate::storage::direct_insert::{
    are_inserted, array_header, insert_key, is_bucket_for_row, is_bucket_of_row, is_encoded_row,
    is_inserted, is_refused, is_space_check, key_values, referred, DirectInsertTarget, InsertError,
    MotionKey, Target, TupleBuilderCommand,
};
use crate::text::{decimal, smol_text};
use vstd::prelude::*;

verus! {

/// Whether a row has what a part of a distribution key asks for.
pub open spec fn has_part<V>(row: Seq<V>, target: Target<V>) -> bool {
    target matches Target::Reference(column) ==> column < row.len()
}

/// Whether a value is what a part of a distribution key asks for: that of the column which the part
/// names, counted from zero, or the value which the part gives.
pub open spec fn is_part<V>(row: Seq<V>, target: Target<V>, value: V) -> bool {
    match target {
        Target::Reference(column) => value == row[column as int],
        Target::Value(fixed) => value == fixed,
    }
}

/// The values of a distribution key are as many as its parts, and the value at each place is what
/// the part at that place asks for. There are such values exactly where the row has every column
/// that the key names; the first column that it lacks is named otherwise.
pub proof fn law_key_values_are_those_of_the_parts<V>(row: Seq<V>, targets: Seq<Target<V>>)
    ensures
        key_values(row, targets) is Ok <==> forall|i: int|
            0 <= i < targets.len() ==> has_part(row, #[trigger] targets[i]),
        match key_values(row, targets) {
            Ok(values) => {
                &&& values.len() == targets.len()
                &&& forall|i: int|
                    0 <= i < targets.len() ==> is_part(row, #[trigger] targets[i], values[i])
            },
            Err(missing) => exists|at: int|
                {
                    &&& 0 <= at < targets.len()
                    &&& #[trigger] targets[at] == Target::<V>::Reference(missing)
                    &&& missing >= row.len()
                    &&& forall|i: int| 0 <= i < at ==> has_part(row, #[trigger] targets[i])
                },
        },
    decreases targets.len(),
{
    if targets.len() > 0 {
        let fewer = targets.drop_last();
        law_key_values_are_those_of_the_parts(row, fewer);
        let last = targets.len() - 1;
        assert forall|i: int| 0 <= i < last implies #[trigger] fewer[i] == targets[i] by {}
        match key_values(row, fewer) {
            Err(missing) => {
                let at = choose|at: int|
                    {
                        &&& 0 <= at < fewer.len()
                        &&& #[trigger] fewer[at] == Target::<V>::Reference(missing)
                        &&& missing >= row.len()
                        &&& forall|i: int| 0 <= i < at ==> has_part(row, #[trigger] fewer[i])
                    };
                assert(targets[at] == Target::<V>::Reference(missing));
                assert forall|i: int| 0 <= i < at implies has_part(row, #[trigger] targets[i]) by {
                    assert(has_part(row, fewer[i]));
                }
                assert(!has_part(row, targets[at]));
            },
            Ok(values) => {
                assert forall|i: int| 0 <= i < last implies has_part(
                    row,
                    #[trigger] targets[i],
                ) by {
                    assert(has_part(row, fewer[i]));
                }
                if has_part(row, targets[last]) {
                    let all = key_values(row, targets)->Ok_0;
                    assert forall|i: int| 0 <= i < targets.len() implies is_part(
                        row,
                        #[trigger] targets[i],
                        all[i],
                    ) by {
                        if i < last {
                            assert(is_part(row, fewer[i], values[i]));
                        }
                    }
                } else {
                    assert(targets[last] == Target::<V>::Reference(
                        key_values(row, targets)->Err_0,
                    ));
                }
            },
        }
    }
}

/// Rows are distributed by the key of the first command that asks for a bucket by a key which is
/// not empty, and by none where no command does.
pub proof fn law_first_key_distributes<V, C>(builder: Seq<TupleBuilderCommand<V, C>>)
    ensures
        match insert_key(builder) {
            Some(key) => exists|at: int|
                {
                    &&& 0 <= at < builder.len()
                    &&& #[trigger] builder[at] == TupleBuilderCommand::<V, C>::CalculateBucketId(
                        key,
                    )
                    &&& key.targets@.len() > 0
                    &&& forall|i: int|
                        0 <= i < at ==> (#[trigger] builder[i] matches
                            TupleBuilderCommand::CalculateBucketId(other)
                            ==> other.targets@.len() == 0)
                },
            None => forall|i: int|
                0 <= i < builder.len() ==> (#[trigger] builder[i] matches
                    TupleBuilderCommand::CalculateBucketId(other) ==> other.targets@.len() == 0),
        },
    decreases builder.len(),
{
    if builder.len() > 0 {
        let rest = builder.skip(1);
        law_first_key_distributes(rest);
        assert forall|i: int| 0 < i < builder.len() implies #[trigger] builder[i] == rest[i
            - 1] by {}
        if insert_key(rest) is Some && insert_key(builder) == insert_key(rest) && !(builder[0]
            matches TupleBuilderCommand::CalculateBucketId(other) && other.targets@.len() > 0) {
            let key = insert_key(rest)->0;
            let at = choose|at: int|
                {
                    &&& 0 <= at < rest.len()
                    &&& #[trigger] rest[at] == TupleBuilderCommand::<V, C>::CalculateBucketId(key)
                    &&& key.targets@.len() > 0
                    &&& forall|i: int|
                        0 <= i < at ==> (#[trigger] rest[i] matches
                            TupleBuilderCommand::CalculateBucketId(other)
                            ==> other.targets@.len() == 0)
                };
            assert(builder[at + 1] == TupleBuilderCommand::<V, C>::CalculateBucketId(key));
        }
    }
}

/// Whether values are those that a distribution key asks for.
pub open spec fn are_key_values<V>(row: Seq<V>, key: MotionKey<V>, values: Seq<&V>) -> bool {
    &&& values.len() == key.targets@.len()
    &&& forall|i: int|
        0 <= i < values.len() ==> is_part(row, key.targets@[i], *#[trigger] values[i])
}

/// The bucket of a row is the one that is asked for with the values of its distribution key, and
/// with no other; a row that lacks a column of the key has none, and the first such column is
/// named.
pub proof fn law_bucket_is_that_of_the_key<
    V,
    B: FnOnce(&Vec<&V>) -> Result<u64, SbroadError>,
    S: FnOnce() -> String,
>(
    row: Seq<V>,
    key: MotionKey<V>,
    bucket_of: B,
    show_row: S,
    result: Result<u64, SbroadError>,
    at: int,
    missing: usize,
)
    requires
        is_bucket_of_row(row, key, bucket_of, show_row, result),
    ensures
        (forall|i: int| 0 <= i < key.targets@.len() ==> has_part(row, #[trigger] key.targets@[i]))
            ==> exists|values: Vec<&V>|
            #![trigger call_ensures(bucket_of, (&values,), result)]
            are_key_values(row, key, values@) && call_ensures(bucket_of, (&values,), result),
        0 <= at < key.targets@.len() && key.targets@[at] == Target::<V>::Reference(missing)
            && missing >= row.len() && (forall|i: int|
            0 <= i < at ==> has_part(row, #[trigger] key.targets@[i])) ==> is_lack(
            show_row,
            missing,
            result,
        ),
{
    let targets = key.targets@;
    law_key_values_are_those_of_the_parts(row, targets);
    if forall|i: int| 0 <= i < targets.len() ==> has_part(row, #[trigger] targets[i]) {
        let wanted = key_values(row, targets)->Ok_0;
        let values = choose|found: Vec<&V>| #[trigger]
            referred(found@) == wanted && call_ensures(bucket_of, (&found,), result);
        assert forall|i: int| 0 <= i < values@.len() implies is_part(
            row,
            targets[i],
            *#[trigger] values@[i],
        ) by {
            assert(referred(values@)[i] == *values@[i]);
            assert(is_part(row, targets[i], wanted[i]));
        }
        assert(are_key_values(row, key, values@));
    }
    if 0 <= at < targets.len() && targets[at] == Target::<V>::Reference(missing) && missing
        >= row.len() && (forall|i: int| 0 <= i < at ==> has_part(row, #[trigger] targets[i])) {
        assert(!has_part(row, targets[at]));
        let named = key_values(row, targets)->Err_0;
        let first = choose|first: int|
            {
                &&& 0 <= first < targets.len()
                &&& #[trigger] targets[first] == Target::<V>::Reference(named)
                &&& named >= row.len()
                &&& forall|i: int| 0 <= i < first ==> has_part(row, #[trigger] targets[i])
            };
        assert(!has_part(row, targets[first]));
        assert(first == at);
        let shown = choose|shown: String| #[trigger]
            call_ensures(show_row, (), shown) && (result matches Err(error) && error@
                == crate::storage::direct_insert::missing_key_column(named as nat, shown@));
        assert(call_ensures(show_row, (), shown));
    }
}

/// Whether a result says that a row lacks a column of the distribution key.
pub open spec fn is_lack<S: FnOnce() -> String>(
    show_row: S,
    column: usize,
    result: Result<u64, SbroadError>,
) -> bool {
    exists|shown: String| #[trigger]
        call_ensures(show_row, (), shown) && (result matches Err(error) && error@
            == SbroadErrorView::NotFound(
            Entity::DistributionKey,
            "failed to find a distribution key column "@ + decimal(column as nat)
                + " in the tuple "@ + shown@ + "."@,
        ))
}

/// A row of a table that is distributed by a key has the bucket of that key, or none is known; a
/// row of any other table has no bucket.
pub proof fn law_distributed_rows_have_buckets<
    V,
    C,
    B: FnOnce(&Vec<&V>) -> Result<u64, SbroadError>,
    S: FnOnce() -> String,
>(
    target: DirectInsertTarget<V, C>,
    row: Seq<V>,
    bucket_of: B,
    show_row: S,
    result: Result<Option<u64>, SbroadError>,
)
    requires
        is_bucket_for_row(target, row, bucket_of, show_row, result),
    ensures
        insert_key(target.builder@) is None ==> result == Ok::<Option<u64>, SbroadError>(None),
        insert_key(target.builder@) matches Some(key) ==> match result {
            Ok(None) => false,
            Ok(Some(id)) => is_bucket_of_row(row, key, bucket_of, show_row, Ok(id)),
            Err(error) => is_bucket_of_row(row, key, bucket_of, show_row, Err(error)),
        },
{
}

/// What opens an array says how many parts it has: the first byte how the length is written, and
/// the others the length, with the highest byte first.
pub proof fn law_array_header_says_its_length(len: u32)
    ensures
        len < 16 ==> array_header(len).len() == 1 && array_header(len)[0] == 0x90 + len,
        16 <= len < 0x1_0000 ==> array_header(len).len() == 3 && array_header(len)[0] == 0xdc
            && array_header(len)[1] * 0x100 + array_header(len)[2] == len,
        0x1_0000 <= len ==> array_header(len).len() == 5 && array_header(len)[0] == 0xdd
            && array_header(len)[1] * 0x100_0000 + array_header(len)[2] * 0x1_0000 + array_header(
            len,
        )[3] * 0x100 + array_header(len)[4] == len,
{
    assert(len / 0x100_0000 < 0x100);
}

/// An encoded row is what opens an array of as many parts as are made, and behind it, byte for
/// byte, the parts that were written for its bucket. It fails just where they cannot be written.
pub proof fn law_encoded_row_is_header_and_parts<
    V,
    C,
    W: FnOnce(Option<u64>) -> Result<Vec<u8>, SbroadError>,
>(
    target: DirectInsertTarget<V, C>,
    bucket_id: Option<u64>,
    write_args: W,
    result: Result<Vec<u8>, SbroadError>,
)
    requires
        is_encoded_row(target, bucket_id, write_args, result),
    ensures
        match result {
            Ok(encoded) => exists|args: Vec<u8>|
                {
                    let head = array_header(target.builder@.len() as u32);
                    &&& #[trigger] call_ensures(write_args, (bucket_id,), Ok(args))
                    &&& encoded@.len() == head.len() + args@.len()
                    &&& encoded@.take(head.len() as int) == head
                    &&& encoded@.skip(head.len() as int) == args@
                },
            Err(error) => call_ensures(write_args, (bucket_id,), Err(error)),
        },
{
    if let Ok(encoded) = result {
        let head = array_header(target.builder@.len() as u32);
        let args = choose|args: Vec<u8>| #[trigger]
            call_ensures(write_args, (bucket_id,), Ok(args)) && encoded@ == array_header(
                target.builder.len() as u32,
            ) + args@;
        assert(encoded@.take(head.len() as int) =~= head);
        assert(encoded@.skip(head.len() as int) =~= args@);
    }
}

/// Rows made for one version of a schema are written under that version alone: the check passes
/// only where it is the version of the table, and any other version is answered as outdated.
pub proof fn law_other_versions_are_outdated<T: FnOnce(u32) -> Result<u64, SbroadError>>(
    table_id: u32,
    version: u64,
    table_version: T,
    result: Result<(), SbroadError>,
)
    requires
        is_space_check(table_id, version, table_version, result),
    ensures
        match result {
            Ok(_) => call_ensures(table_version, (table_id,), Ok(version)),
            Err(error) => {
                ||| call_ensures(table_version, (table_id,), Err(error))
                ||| error == SbroadError::OutdatedStorageSchema && exists|found: u64|
                    found != version && #[trigger] call_ensures(
                        table_version,
                        (table_id,),
                        Ok(found),
                    )
            },
        },
{
    let found = choose|found: Result<u64, SbroadError>|
        {
            &&& #[trigger] call_ensures(table_version, (table_id,), found)
            &&& match found {
                Ok(current) => if current == version {
                    result is Ok
                } else {
                    result matches Err(error) && error == SbroadError::OutdatedStorageSchema
                },
                Err(error) => result matches Err(answer) && answer == error,
            }
        };
    if let Ok(current) = found {
        assert(call_ensures(table_version, (table_id,), Ok(current)));
    }
}

/// Rows are inserted in the order of the list, each once: the insert at each place was handed the
/// row at that place and the table that the insert before it gave back, and has succeeded.
pub proof fn law_rows_are_inserted_in_their_order<
    S,
    I: Fn(S, &Vec<u8>) -> (S, Result<(), InsertError>),
>(tuples: Seq<Vec<u8>>, insert: I, table: S, tables: Seq<S>, at: int)
    requires
        are_inserted(tuples, insert, table, tables),
        0 <= at < tables.len() - 1,
    ensures
        tables[0] == table,
        tables.len() <= tuples.len() + 1,
        exists|outcome: Result<(), InsertError>| #[trigger]
            call_ensures(insert, (tables[at], &tuples[at]), (tables[at + 1], outcome))
                && outcome is Ok,
{
    assert(is_inserted(tuples, insert, tables, at));
}

/// A row that is not inserted fails all with the message of the database where its key is in the
/// table already, and with the error as it is shown otherwise.
pub proof fn law_refused_row_is_told<S, I: Fn(S, &Vec<u8>) -> (S, Result<(), InsertError>)>(
    tuple: Vec<u8>,
    insert: I,
    before: S,
    after: S,
    error: SbroadError,
)
    requires
        is_refused(tuple, insert, before, after, error),
    ensures
        exists|failure: InsertError|
            {
                &&& #[trigger] call_ensures(insert, (before, &tuple), (after, Err(failure)))
                &&& error@ == SbroadErrorView::FailedTo(
                    Action::Insert,
                    Some(Entity::Space),
                    match failure.tarantool {
                        Some(reported) => if reported.code == 3 {
                            smol_text(reported.message)
                        } else {
                            smol_text(failure.shown)
                        },
                        None => smol_text(failure.shown),
                    },
                )
            },
{
    let failure = choose|failure: InsertError|
        {
            &&& #[trigger] call_ensures(insert, (before, &tuple), (after, Err(failure)))
            &&& error@ == crate::storage::direct_insert::insert_failed(
                if failure.is_conflict() {
                    smol_text(failure.tarantool->0.message)
                } else {
                    smol_text(failure.shown)
                },
            )
        };
    assert(call_ensures(insert, (before, &tuple), (after, Err(failure))));
}

}
