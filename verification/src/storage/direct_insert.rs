//! Encodes rows for a table and inserts them.
use crate::errors::{
    tuple_found_code, Action, Entity, SbroadError, SbroadErrorView, TarantoolError,
};
use crate::text::{concat3, decimal, decimal_text, smol, smol_text};
use smol_str::SmolStr;
use vstd::prelude::*;

verus! {

/// What is done with a row whose key is in the table already.
#[derive(Clone, Copy, Debug, PartialEq, Eq, Structural)]
pub enum ConflictPolicy {
    DoNothing,
    DoReplace,
    DoFail,
}

/// A part of a distribution key: a column of the row, or a fixed value.
#[derive(Debug)]
pub enum Target<V> {
    Reference(usize),
    Value(V),
}

/// The key by which rows are distributed.
#[derive(Debug)]
pub struct MotionKey<V> {
    pub targets: Vec<Target<V>>,
}

/// How a part of an encoded row is made. `C` is what the planner says of the parts that are not
/// the number of a bucket.
#[derive(Debug)]
pub enum TupleBuilderCommand<V, C> {
    CalculateBucketId(MotionKey<V>),
    Other(C),
}

/// How an encoded row is made, part by part.
pub type TupleBuilderPattern<V, C> = Vec<TupleBuilderCommand<V, C>>;

/// Whether a command asks for the number of a bucket by a key that is not empty.
pub open spec fn has_key<V, C>(command: TupleBuilderCommand<V, C>) -> bool {
    command matches TupleBuilderCommand::CalculateBucketId(key) && key.targets@.len() > 0
}

/// The key of the first command that asks for the number of a bucket by a key that is not empty.
pub open spec fn insert_key<V, C>(builder: Seq<TupleBuilderCommand<V, C>>) -> Option<MotionKey<V>>
    decreases builder.len(),
{
    if builder.len() == 0 {
        None
    } else if has_key(builder[0]) {
        Some(builder[0]->CalculateBucketId_0)
    } else {
        insert_key(builder.skip(1))
    }
}

/// Finds the key by which rows are distributed.
pub fn find_insert_motion_key<V, C>(builder: &TupleBuilderPattern<V, C>) -> (result: Option<
    &MotionKey<V>,
>)
    ensures
        match insert_key(builder@) {
            Some(key) => result matches Some(found) && *found == key,
            None => result is None,
        },
{
    let mut idx: usize = 0;
    assert(builder@.skip(0) =~= builder@);
    while idx < builder.len()
        invariant
            idx <= builder@.len(),
            insert_key(builder@) == insert_key(builder@.skip(idx as int)),
        decreases builder@.len() - idx,
    {
        assert(builder@.skip(idx as int).skip(1) =~= builder@.skip(idx + 1));
        if let TupleBuilderCommand::CalculateBucketId(key) = &builder[idx] {
            if key.targets.len() > 0 {
                return Some(key);
            }
        }
        idx += 1;
    }
    None
}

/// The values of a distribution key in a row, or the first column of the key that the row lacks.
pub open spec fn key_values<V>(row: Seq<V>, targets: Seq<Target<V>>) -> Result<Seq<V>, usize>
    decreases targets.len(),
{
    if targets.len() == 0 {
        Ok(seq![])
    } else {
        match key_values(row, targets.drop_last()) {
            Err(column) => Err(column),
            Ok(values) => match targets.last() {
                Target::Reference(column) => if column < row.len() {
                    Ok(values.push(row[column as int]))
                } else {
                    Err(column)
                },
                Target::Value(value) => Ok(values.push(value)),
            },
        }
    }
}

/// The values that references lead to.
pub open spec fn referred<V>(values: Seq<&V>) -> Seq<V> {
    values.map_values(|value: &V| *value)
}

/// An error in a part of a key makes the key an error.
proof fn lemma_key_error<V>(row: Seq<V>, targets: Seq<Target<V>>, at: int)
    requires
        0 <= at <= targets.len(),
        key_values(row, targets.take(at)) is Err,
    ensures
        key_values(row, targets) == key_values(row, targets.take(at)),
    decreases targets.len(),
{
    if at < targets.len() {
        assert(targets.drop_last().take(at) =~= targets.take(at));
        lemma_key_error(row, targets.drop_last(), at);
    } else {
        assert(targets.take(at) =~= targets);
    }
}

/// Collects the values of a distribution key from a row.
pub fn insert_key_values<'a, V>(row: &'a Vec<V>, motion_key: &'a MotionKey<V>) -> (result: Result<
    Vec<&'a V>,
    usize,
>)
    ensures
        match key_values(row@, motion_key.targets@) {
            Ok(values) => result matches Ok(found) && referred(found@) == values,
            Err(column) => result matches Err(found) && found == column,
        },
{
    let targets = &motion_key.targets;
    let mut values: Vec<&'a V> = Vec::with_capacity(targets.len());
    let mut idx: usize = 0;
    assert(targets@.take(0) =~= seq![]);
    assert(referred(values@) =~= seq![]);
    while idx < targets.len()
        invariant
            targets@ == motion_key.targets@,
            idx <= targets@.len(),
            key_values(row@, targets@.take(idx as int)) == Ok::<Seq<V>, usize>(referred(values@)),
        decreases targets@.len() - idx,
    {
        assert(targets@.take(idx + 1).drop_last() =~= targets@.take(idx as int));
        let ghost before = values@;
        let value: &'a V = match &targets[idx] {
            Target::Reference(column) => {
                if *column >= row.len() {
                    proof {
                        lemma_key_error(row@, targets@, idx + 1);
                    }
                    return Err(*column);
                }
                &row[*column]
            },
            Target::Value(value) => value,
        };
        values.push(value);
        assert(referred(values@) =~= referred(before).push(*value));
        idx += 1;
    }
    assert(targets@.take(idx as int) =~= targets@);
    Ok(values)
}

/// The error about a row that lacks a column of the distribution key.
pub open spec fn missing_key_column(column: nat, shown_row: Seq<char>) -> SbroadErrorView {
    SbroadErrorView::NotFound(
        Entity::DistributionKey,
        "failed to find a distribution key column "@ + decimal(column) + " in the tuple "@
            + shown_row + "."@,
    )
}

/// Whether `result` is the number of the bucket of a row: the one that `bucket_of` gives for the
/// values of the distribution key, or the error about the column that the row lacks.
pub open spec fn is_bucket_of_row<
    V,
    B: FnOnce(&Vec<&V>) -> Result<u64, SbroadError>,
    S: FnOnce() -> String,
>(
    row: Seq<V>,
    key: MotionKey<V>,
    bucket_of: B,
    show_row: S,
    result: Result<u64, SbroadError>,
) -> bool {
    match key_values(row, key.targets@) {
        Ok(values) => exists|found: Vec<&V>| #[trigger]
            referred(found@) == values && call_ensures(bucket_of, (&found,), result),
        Err(column) => exists|shown: String| #[trigger]
            call_ensures(show_row, (), shown) && (result matches Err(error) && error@
                == missing_key_column(column as nat, shown@)),
    }
}

/// Whether the functions that the bucket of a row is determined with can be called where they are
/// needed: `bucket_of` on the values of the key, where the row has them all, and `show_row` where
/// it lacks one.
pub open spec fn can_find_bucket<
    V,
    B: FnOnce(&Vec<&V>) -> Result<u64, SbroadError>,
    S: FnOnce() -> String,
>(row: Seq<V>, key: MotionKey<V>, bucket_of: B, show_row: S) -> bool {
    match key_values(row, key.targets@) {
        Ok(values) => forall|found: Vec<&V>| #[trigger]
            referred(found@) == values ==> call_requires(bucket_of, (&found,)),
        Err(_) => call_requires(show_row, ()),
    }
}

/// Determines the bucket of a row. `bucket_of` gives the bucket of the values of a distribution
/// key, and `show_row` shows the row in a report.
pub fn determine_insert_bucket_id<
    V,
    B: FnOnce(&Vec<&V>) -> Result<u64, SbroadError>,
    S: FnOnce() -> String,
>(row: &Vec<V>, motion_key: &MotionKey<V>, bucket_of: B, show_row: S) -> (result: Result<
    u64,
    SbroadError,
>)
    requires
        can_find_bucket(row@, *motion_key, bucket_of, show_row),
    ensures
        is_bucket_of_row(row@, *motion_key, bucket_of, show_row, result),
{
    match insert_key_values(row, motion_key) {
        Ok(values) => bucket_of(&values),
        Err(column) => {
            let number = decimal_text(column as u64);
            let shown = show_row();
            let mut text = concat3(
                "failed to find a distribution key column ",
                number.as_str(),
                " in the tuple ",
            );
            text.append(shown.as_str());
            text.append(".");
            Err(SbroadError::NotFound(Entity::DistributionKey, smol(text.as_str())))
        },
    }
}

/// The bytes that open an array of `len` parts in MessagePack: the shortest of the three forms
/// that can say its length, which stands with its highest byte first.
pub open spec fn array_header(len: u32) -> Seq<u8> {
    if len < 16 {
        seq![(0x90 + len) as u8]
    } else if len < 0x1_0000 {
        seq![0xdcu8, (len / 0x100) as u8, (len % 0x100) as u8]
    } else {
        seq![
            0xddu8,
            (len / 0x100_0000) as u8,
            (len / 0x1_0000 % 0x100) as u8,
            (len / 0x100 % 0x100) as u8,
            (len % 0x100) as u8,
        ]
    }
}

/// `rmp::encode::write_array_len` appends what opens an array of `len` parts. It fails only where
/// a write does, and a vector takes every write: it grows as needed.
#[verifier::external_body]
pub(crate) fn write_array_len(buffer: &mut Vec<u8>, len: u32) -> (result: Result<(), String>)
    ensures
        result is Ok,
        final(buffer)@ == old(buffer)@ + array_header(len),
{
    match rmp::encode::write_array_len(buffer, len) {
        Ok(_) => Ok(()),
        Err(error) => Err(format!("{error}")),
    }
}

/// A table that rows are inserted into: its number, the version of its schema for which the rows
/// are made, and how they are made.
#[derive(Debug)]
pub struct DirectInsertTarget<V, C> {
    pub table_id: u32,
    pub schema_version: u64,
    pub builder: TupleBuilderPattern<V, C>,
}

/// Whether `result` is what a row is distributed by: its bucket, where the table is distributed by
/// a key, and nothing else.
pub open spec fn is_bucket_for_row<
    V,
    C,
    B: FnOnce(&Vec<&V>) -> Result<u64, SbroadError>,
    S: FnOnce() -> String,
>(
    target: DirectInsertTarget<V, C>,
    row: Seq<V>,
    bucket_of: B,
    show_row: S,
    result: Result<Option<u64>, SbroadError>,
) -> bool {
    match insert_key(target.builder@) {
        None => result matches Ok(None),
        Some(key) => match result {
            Ok(bucket) => bucket matches Some(id) && is_bucket_of_row(
                row,
                key,
                bucket_of,
                show_row,
                Ok(id),
            ),
            Err(error) => is_bucket_of_row(row, key, bucket_of, show_row, Err(error)),
        },
    }
}

/// Whether `result` is the encoded row that `write_args` completes: what opens an array of as many
/// parts as the builder has, and then what `write_args` gives for the bucket.
pub open spec fn is_encoded_row<V, C, W: FnOnce(Option<u64>) -> Result<Vec<u8>, SbroadError>>(
    target: DirectInsertTarget<V, C>,
    bucket_id: Option<u64>,
    write_args: W,
    result: Result<Vec<u8>, SbroadError>,
) -> bool {
    match result {
        Ok(encoded) => exists|args: Vec<u8>| #[trigger]
            call_ensures(write_args, (bucket_id,), Ok(args)) && encoded@ == array_header(
                target.builder.len() as u32,
            ) + args@,
        Err(error) => call_ensures(write_args, (bucket_id,), Err(error)),
    }
}

impl<V, C> DirectInsertTarget<V, C> {
    /// A table that rows are inserted into.
    pub fn new(table_id: u32, schema_version: u64, builder: TupleBuilderPattern<V, C>) -> (target:
        Self)
        ensures
            target.table_id == table_id,
            target.schema_version == schema_version,
            target.builder == builder,
    {
        DirectInsertTarget { table_id, schema_version, builder }
    }

    /// Determines the bucket of a row, where the table is distributed by a key.
    pub fn bucket_id_for_row<
        B: FnOnce(&Vec<&V>) -> Result<u64, SbroadError>,
        S: FnOnce() -> String,
    >(&self, row: &Vec<V>, bucket_of: B, show_row: S) -> (result: Result<
        Option<u64>,
        SbroadError,
    >)
        requires
            insert_key(self.builder@) matches Some(key) ==> can_find_bucket(
                row@,
                key,
                bucket_of,
                show_row,
            ),
        ensures
            is_bucket_for_row(*self, row@, bucket_of, show_row, result),
    {
        match find_insert_motion_key(&self.builder) {
            Some(motion_key) => match determine_insert_bucket_id(
                row,
                motion_key,
                bucket_of,
                show_row,
            ) {
                Ok(bucket_id) => Ok(Some(bucket_id)),
                Err(error) => Err(error),
            },
            None => Ok(None),
        }
    }

    /// Encodes a row that goes to a bucket. `write_args` encodes the parts of the row.
    pub fn encode_row_with_bucket<W: FnOnce(Option<u64>) -> Result<Vec<u8>, SbroadError>>(
        &self,
        bucket_id: Option<u64>,
        write_args: W,
    ) -> (result: Result<Vec<u8>, SbroadError>)
        requires
            call_requires(write_args, (bucket_id,)),
        ensures
            is_encoded_row(*self, bucket_id, write_args, result),
    {
        let mut encoded: Vec<u8> = Vec::new();
        match write_array_len(&mut encoded, self.builder.len() as u32) {
            Ok(()) => {},
            Err(text) => return Err(
                SbroadError::FailedTo(Action::Encode, Some(Entity::MsgPack), smol(text.as_str())),
            ),
        }
        match write_args(bucket_id) {
            Ok(args) => {
                encoded.extend_from_slice(args.as_slice());
                assert(encoded@ =~= array_header(self.builder.len() as u32) + args@);
                Ok(encoded)
            },
            Err(error) => Err(error),
        }
    }

    /// Determines the bucket of a row, where the table is distributed by a key, and encodes the
    /// row.
    pub fn encode_row<
        B: FnOnce(&Vec<&V>) -> Result<u64, SbroadError>,
        S: FnOnce() -> String,
        W: FnOnce(Option<u64>) -> Result<Vec<u8>, SbroadError>,
    >(&self, row: &Vec<V>, bucket_of: B, show_row: S, write_args: W) -> (result: Result<
        Vec<u8>,
        SbroadError,
    >)
        requires
            insert_key(self.builder@) matches Some(key) ==> can_find_bucket(
                row@,
                key,
                bucket_of,
                show_row,
            ),
            forall|bucket_id: Option<u64>| #[trigger]
                is_bucket_for_row(*self, row@, bucket_of, show_row, Ok(bucket_id))
                    ==> call_requires(write_args, (bucket_id,)),
        ensures
            exists|bucket: Result<Option<u64>, SbroadError>|
                {
                    &&& #[trigger] is_bucket_for_row(*self, row@, bucket_of, show_row, bucket)
                    &&& match bucket {
                        Ok(bucket_id) => is_encoded_row(*self, bucket_id, write_args, result),
                        Err(error) => result matches Err(answer) && answer == error,
                    }
                },
    {
        match self.bucket_id_for_row(row, bucket_of, show_row) {
            Ok(bucket_id) => {
                assert(is_bucket_for_row(*self, row@, bucket_of, show_row, Ok(bucket_id)));
                self.encode_row_with_bucket(bucket_id, write_args)
            },
            Err(error) => {
                assert(is_bucket_for_row(*self, row@, bucket_of, show_row, Err(error)));
                Err(error)
            },
        }
    }

    /// Inserts a batch of encoded rows. `table_version` gives the version of the schema of a table
    /// now, and `insert_all`, which is called for that version alone, inserts the rows, all or
    /// none, and counts them.
    pub fn flush_batch<
        T: FnOnce(u32) -> Result<u64, SbroadError>,
        I: FnOnce(&Vec<Vec<u8>>) -> Result<usize, SbroadError>,
    >(&self, tuples: &Vec<Vec<u8>>, table_version: T, insert_all: I) -> (result: Result<
        usize,
        SbroadError,
    >)
        requires
            tuples@.len() > 0 ==> call_requires(table_version, (self.table_id,)),
            tuples@.len() > 0 && is_version(self.table_id, self.schema_version, table_version)
                ==> call_requires(insert_all, (tuples,)),
            forall|inserted: usize| #[trigger]
                call_ensures(insert_all, (tuples,), Ok(inserted)) ==> inserted == tuples@.len(),
        ensures
            result matches Ok(inserted) ==> inserted == tuples@.len(),
            tuples@.len() == 0 ==> result == Ok::<usize, SbroadError>(0),
            tuples@.len() > 0 ==> exists|space: Result<(), SbroadError>|
                {
                    &&& #[trigger] is_space_check(
                        self.table_id,
                        self.schema_version,
                        table_version,
                        space,
                    )
                    &&& match space {
                        Ok(()) => call_ensures(insert_all, (tuples,), result),
                        Err(error) => result matches Err(answer) && answer == error,
                    }
                },
    {
        if tuples.len() == 0 {
            return Ok(0);
        }
        match ensure_target_space(self.table_id, self.schema_version, table_version) {
            Ok(()) => {
                assert(is_space_check(self.table_id, self.schema_version, table_version, Ok(())));
                insert_all(tuples)
            },
            Err(error) => {
                assert(is_space_check(
                    self.table_id,
                    self.schema_version,
                    table_version,
                    Err(error),
                ));
                Err(error)
            },
        }
    }
}

/// Whether `result` says that a table has the version `version` of its schema.
pub open spec fn is_space_check<T: FnOnce(u32) -> Result<u64, SbroadError>>(
    table_id: u32,
    version: u64,
    table_version: T,
    result: Result<(), SbroadError>,
) -> bool {
    exists|found: Result<u64, SbroadError>|
        {
            &&& #[trigger] call_ensures(table_version, (table_id,), found)
            &&& match found {
                Ok(current) => if current == version {
                    result is Ok
                } else {
                    result matches Err(error) && error == SbroadError::OutdatedStorageSchema
                },
                Err(error) => result matches Err(answer) && answer == error,
            }
        }
}

/// Whether a table can have the version `version` of its schema now.
pub open spec fn is_version<T: FnOnce(u32) -> Result<u64, SbroadError>>(
    table_id: u32,
    version: u64,
    table_version: T,
) -> bool {
    call_ensures(table_version, (table_id,), Ok(version))
}

/// Makes sure that a table still has the version of its schema for which rows were made.
pub fn ensure_target_space<T: FnOnce(u32) -> Result<u64, SbroadError>>(
    table_id: u32,
    version: u64,
    table_version: T,
) -> (result: Result<(), SbroadError>)
    requires
        call_requires(table_version, (table_id,)),
    ensures
        is_space_check(table_id, version, table_version, result),
        result is Ok ==> is_version(table_id, version, table_version),
{
    let found = table_version(table_id);
    assert(call_ensures(table_version, (table_id,), found));
    match found {
        Ok(current) => if current != version {
            Err(SbroadError::OutdatedStorageSchema)
        } else {
            Ok(())
        },
        Err(error) => Err(error),
    }
}

/// Why a row could not be inserted: the error of the database, where it is one, and how the error
/// is shown.
#[derive(Clone, Debug, PartialEq, Eq)]
pub struct InsertError {
    pub tarantool: Option<TarantoolError>,
    pub shown: SmolStr,
}

impl InsertError {
    /// Whether the key of the row is in the table already.
    pub open spec fn is_conflict(self) -> bool {
        self.tarantool matches Some(error) && error.code == 3
    }
}

/// The error about a row that was not inserted.
pub open spec fn insert_failed(text: Seq<char>) -> SbroadErrorView {
    SbroadErrorView::FailedTo(Action::Insert, Some(Entity::Space), text)
}

/// Decides about a row after an attempt to insert it: a row whose key is in the table already is
/// passed over, put in place of the one that is there, or refused, as the policy says; any other
/// error is an error. Says whether the row is new.
pub fn apply_insert_with_conflict<R: FnOnce() -> Result<(), SbroadError>>(
    insert_result: Result<(), InsertError>,
    conflict_strategy: ConflictPolicy,
    replace_on_conflict: R,
) -> (result: Result<bool, SbroadError>)
    requires
        conflict_strategy == ConflictPolicy::DoReplace && (insert_result matches Err(failure)
            && failure.is_conflict()) ==> call_requires(replace_on_conflict, ()),
    ensures
        match insert_result {
            Ok(()) => result == Ok::<bool, SbroadError>(true),
            Err(failure) => if !failure.is_conflict() {
                result matches Err(error) && error@ == insert_failed(smol_text(failure.shown))
            } else {
                match conflict_strategy {
                    ConflictPolicy::DoNothing => result == Ok::<bool, SbroadError>(false),
                    ConflictPolicy::DoReplace => exists|replaced: Result<(), SbroadError>|
                        {
                            &&& #[trigger] call_ensures(replace_on_conflict, (), replaced)
                            &&& match replaced {
                                Ok(_) => result == Ok::<bool, SbroadError>(true),
                                Err(error) => result == Err::<bool, SbroadError>(error),
                            }
                        },
                    ConflictPolicy::DoFail => result matches Err(error) && error@ == insert_failed(
                        smol_text(failure.tarantool->0.message),
                    ),
                }
            },
        },
{
    let failure = match insert_result {
        Ok(()) => return Ok(true),
        Err(failure) => failure,
    };
    match failure.tarantool {
        Some(error) => if error.code == tuple_found_code() {
            match conflict_strategy {
                ConflictPolicy::DoNothing => Ok(false),
                ConflictPolicy::DoReplace => {
                    let replaced = replace_on_conflict();
                    match replaced {
                        Ok(()) => Ok(true),
                        Err(error) => Err(error),
                    }
                },
                ConflictPolicy::DoFail => Err(
                    SbroadError::FailedTo(Action::Insert, Some(Entity::Space), error.message),
                ),
            }
        } else {
            Err(SbroadError::FailedTo(Action::Insert, Some(Entity::Space), failure.shown))
        },
        None => Err(SbroadError::FailedTo(Action::Insert, Some(Entity::Space), failure.shown)),
    }
}

/// Whether `insert` can have inserted row `at`: it was handed the table as `tables[at]` says, and
/// has handed it back as the next says.
pub open spec fn is_inserted<S, I: Fn(S, &Vec<u8>) -> (S, Result<(), InsertError>)>(
    tuples: Seq<Vec<u8>>,
    insert: I,
    tables: Seq<S>,
    at: int,
) -> bool {
    exists|outcome: Result<(), InsertError>| #[trigger]
        call_ensures(insert, (tables[at], &tuples[at]), (tables[at + 1], outcome)) && outcome is Ok
}

/// Whether `insert` can have inserted the first rows, each once and in order: `tables` is the table
/// before the first of them and behind each.
pub open spec fn are_inserted<S, I: Fn(S, &Vec<u8>) -> (S, Result<(), InsertError>)>(
    tuples: Seq<Vec<u8>>,
    insert: I,
    table: S,
    tables: Seq<S>,
) -> bool {
    &&& 0 < tables.len() <= tuples.len() + 1
    &&& tables[0] == table
    &&& forall|at: int|
        0 <= at < tables.len() - 1 ==> #[trigger] is_inserted(tuples, insert, tables, at)
}

/// Whether `insert` can have refused a row, and `error` is what comes of that.
pub open spec fn is_refused<S, I: Fn(S, &Vec<u8>) -> (S, Result<(), InsertError>)>(
    tuple: Vec<u8>,
    insert: I,
    before: S,
    after: S,
    error: SbroadError,
) -> bool {
    exists|failure: InsertError|
        {
            &&& #[trigger] call_ensures(insert, (before, &tuple), (after, Err(failure)))
            &&& error@ == insert_failed(
                if failure.is_conflict() {
                    smol_text(failure.tarantool->0.message)
                } else {
                    smol_text(failure.shown)
                },
            )
        }
}

/// Whether `insert` can be called on each row, with the table as it is once those before it are
/// inserted.
pub open spec fn can_attempt<S, I: Fn(S, &Vec<u8>) -> (S, Result<(), InsertError>)>(
    tuples: Seq<Vec<u8>>,
    insert: I,
    table: S,
) -> bool {
    forall|tables: Seq<S>| #[trigger]
        are_inserted(tuples, insert, table, tables) && tables.len() <= tuples.len()
            ==> call_requires(insert, (tables.last(), &tuples[tables.len() - 1]))
}

/// Inserts encoded rows in order, each once, and counts them. `insert` attempts to insert one: it
/// is handed the table, and hands it back, so that the table that comes out is the one behind just
/// these inserts. The first row that cannot be inserted, be it for a key that is in the table
/// already, makes the whole fail.
pub fn insert_all_tuples<S, I: Fn(S, &Vec<u8>) -> (S, Result<(), InsertError>)>(
    tuples: &Vec<Vec<u8>>,
    table: S,
    insert: I,
) -> (result: (S, Result<usize, SbroadError>))
    requires
        can_attempt(tuples@, insert, table),
    ensures
        exists|tables: Seq<S>|
            {
                &&& #[trigger] are_inserted(tuples@, insert, table, tables)
                &&& match result.1 {
                    Ok(inserted) => {
                        &&& inserted == tuples@.len()
                        &&& tables.len() == tuples@.len() + 1
                        &&& result.0 == tables.last()
                    },
                    Err(error) => {
                        &&& tables.len() <= tuples@.len()
                        &&& is_refused(
                            tuples@[tables.len() - 1],
                            insert,
                            tables.last(),
                            result.0,
                            error,
                        )
                    },
                }
            },
{
    let mut current = table;
    let ghost mut tables: Seq<S> = seq![table];
    let mut idx: usize = 0;
    while idx < tuples.len()
        invariant
            idx <= tuples@.len(),
            tables.len() == idx + 1,
            tables.last() == current,
            are_inserted(tuples@, insert, table, tables),
            can_attempt(tuples@, insert, table),
        decreases tuples@.len() - idx,
    {
        let ghost before = tables;
        let (next, outcome) = insert(current, &tuples[idx]);
        assert(call_ensures(insert, (before.last(), &tuples@[idx as int]), (next, outcome)));
        current = next;
        let ghost failure = outcome->Err_0;
        match apply_insert_with_conflict(outcome, ConflictPolicy::DoFail, || Ok(())) {
            Ok(_) => {
                proof {
                    tables = before.push(next);
                    assert(is_inserted(tuples@, insert, tables, idx as int));
                    assert forall|at: int|
                        0 <= at < tables.len() - 1 implies #[trigger] is_inserted(
                        tuples@,
                        insert,
                        tables,
                        at,
                    ) by {
                        if at < idx {
                            assert(is_inserted(tuples@, insert, before, at));
                        }
                    }
                }
            },
            Err(error) => {
                assert(call_ensures(
                    insert,
                    (before.last(), &tuples@[idx as int]),
                    (next, Err(failure)),
                ));
                assert(are_inserted(tuples@, insert, table, before));
                return (current, Err(error));
            },
        }
        idx += 1;
    }
    assert(are_inserted(tuples@, insert, table, tables));
    (current, Ok(idx))
}

}
