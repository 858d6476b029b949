//! The table that the rows of a COPY go into, and how waiting rows are written to it.
use crate::errors::{CopyTargetError, CopyTargetErrorView, SbroadError};
use crate::storage::direct_insert::{
    can_find_bucket, insert_key, is_bucket_for_row, is_encoded_row, ConflictPolicy,
    DirectInsertTarget,
};
use crate::storage::pending::{
    entries_wf, CopyDestination, CopyDestinationView, DestinationBatch, DestinationEntry,
    PendingCopyRow, PendingCopyRows,
};
use crate::text::{smol, smol_text};
use crate::tuples::{counted, counted_down, total_len, tuple_views};
use postgres_types::Type;
use smol_str::SmolStr;
use vstd::prelude::*;

verus! {

/// Declares `postgres_types::Type`.
#[verifier::external_type_specification]
#[verifier::external_body]
pub struct ExType(postgres_types::Type);

/// How the rows of a distributed table reach their buckets.
#[derive(Clone, Debug, PartialEq, Eq)]
pub struct ShardedCopyRouting {
    pub tier_name: SmolStr,
    pub schema_version: u64,
    pub dispatch_timeout: u64,
}

/// How rows reach the table.
#[derive(Clone, Debug, PartialEq, Eq)]
pub enum CopyRouting {
    /// They are inserted on this instance.
    Local,
    /// They are inserted where their buckets are.
    Sharded(ShardedCopyRouting),
}

/// What goes with the rows that are sent to another replicaset.
#[derive(Clone, Debug, PartialEq, Eq)]
pub struct InsertCoreData {
    pub request_id: SmolStr,
    pub space_id: u32,
    pub space_version: u64,
    pub conflict_policy: ConflictPolicy,
}

/// The rows that go to one replicaset.
#[derive(Debug)]
pub struct RemoteBatch<'a> {
    pub replicaset_uuid: String,
    pub encoded_rows: &'a Vec<Vec<u8>>,
}

/// The rows that go to one replicaset, as sequences.
#[verifier::ext_equal]
pub struct RemoteBatchView {
    pub replicaset_uuid: Seq<char>,
    pub encoded_rows: Seq<Seq<u8>>,
}

impl<'a> View for RemoteBatch<'a> {
    type V = RemoteBatchView;

    open spec fn view(&self) -> RemoteBatchView {
        RemoteBatchView {
            replicaset_uuid: self.replicaset_uuid@,
            encoded_rows: tuple_views(self.encoded_rows@),
        }
    }
}

/// The rows that go to each replicaset.
pub open spec fn remote_views<'a>(batches: Seq<RemoteBatch<'a>>) -> Seq<RemoteBatchView> {
    batches.map_values(|batch: RemoteBatch<'a>| batch@)
}

/// A request to insert rows on other replicasets of a tier.
#[derive(Debug)]
pub struct RemoteInsert<'a> {
    pub core: InsertCoreData,
    pub batches: Vec<RemoteBatch<'a>>,
    pub tier_name: SmolStr,
    pub dispatch_timeout: u64,
}

pub open spec fn is_lower_hex(ch: char) -> bool {
    ('0' <= ch && ch <= '9') || ('a' <= ch && ch <= 'f')
}

/// Whether a text is a random UUID, written in lower case and with hyphens.
pub open spec fn is_random_uuid(text: Seq<char>) -> bool {
    &&& text.len() == 36
    &&& forall|i: int|
        0 <= i < 36 ==> if i == 8 || i == 13 || i == 18 || i == 23 {
            #[trigger] text[i] == '-'
        } else {
            is_lower_hex(text[i])
        }
    &&& text[14] == '4'
    &&& text[19] == '8' || text[19] == '9' || text[19] == 'a' || text[19] == 'b'
}

/// `uuid::Uuid::new_v4` makes a random UUID, and `to_string` writes it with hyphens in lower case:
/// its version is 4, and its variant is one of the four that start with the bits `10`. Two calls
/// give, as good as always, different ones. It panics where the system has no random bytes.
#[verifier::external_body]
pub(crate) fn new_request_id() -> (id: String)
    ensures
        is_random_uuid(id@),
{
    uuid::Uuid::new_v4().to_string()
}

/// A table that is ready for the rows of a COPY.
#[derive(Debug)]
pub struct PreparedCopyTarget<V, C> {
    pub table_id: u32,
    pub table_name: SmolStr,
    pub field_types: Vec<Type>,
    pub conflict_policy: ConflictPolicy,
    pub insert: DirectInsertTarget<V, C>,
    pub routing: CopyRouting,
}

/// Whether `result` is the answer to the question if the routing of a table is up to date.
/// `ensure_current` answers it for a distributed table; any other has none.
pub open spec fn is_routing_check<R: FnOnce() -> Result<(), CopyTargetError>>(
    routing: CopyRouting,
    ensure_current: R,
    result: Result<(), CopyTargetError>,
) -> bool {
    match routing {
        CopyRouting::Local => result is Ok,
        CopyRouting::Sharded(_) => call_ensures(ensure_current, (), result),
    }
}

/// Whether a check can have nothing against what it is asked about.
pub open spec fn can_pass<R: FnOnce() -> Result<(), CopyTargetError>>(check: R) -> bool {
    exists|answer: Result<(), CopyTargetError>| #[trigger]
        call_ensures(check, (), answer) && answer is Ok
}

/// Whether the functions that the destination of a bucket is found with can be called where they
/// are needed: `ensure_current` for a bucket of a distributed table, and `lookup` for that bucket
/// once `ensure_current` has nothing against it.
pub open spec fn can_find_destination<
    R: FnOnce() -> Result<(), CopyTargetError>,
    L: FnOnce(u64) -> Option<CopyDestination>,
>(routing: CopyRouting, bucket_id: Option<u64>, ensure_current: R, lookup: L) -> bool {
    routing is Sharded ==> (bucket_id matches Some(id) ==> {
        &&& call_requires(ensure_current, ())
        &&& can_pass(ensure_current) ==> call_requires(lookup, (id,))
    })
}

/// Whether `result` is where the rows of a bucket go: to this instance where the table is not
/// distributed; else to where `lookup` finds the bucket, once `ensure_current` has nothing against
/// it.
pub open spec fn is_destination_of<
    R: FnOnce() -> Result<(), CopyTargetError>,
    L: FnOnce(u64) -> Option<CopyDestination>,
>(
    routing: CopyRouting,
    bucket_id: Option<u64>,
    ensure_current: R,
    lookup: L,
    result: Result<CopyDestination, CopyTargetError>,
) -> bool {
    match (routing, bucket_id) {
        (CopyRouting::Local, _) => result matches Ok(CopyDestination::Local),
        (CopyRouting::Sharded(_), None) => result matches Err(CopyTargetError::MissingBucketId),
        (CopyRouting::Sharded(sharded), Some(id)) => exists|check: Result<(), CopyTargetError>|
            {
                &&& #[trigger] call_ensures(ensure_current, (), check)
                &&& match check {
                    Err(error) => result == Err::<CopyDestination, CopyTargetError>(error),
                    Ok(_) => match result {
                        Ok(destination) => call_ensures(lookup, (id,), Some(destination)),
                        Err(error) => call_ensures(lookup, (id,), None) && error@
                            == CopyTargetErrorView::MissingBucketRoute {
                            tier_name: smol_text(sharded.tier_name),
                            bucket_id: id,
                        },
                    },
                }
            },
    }
}

/// Whether `result` is the row that is made of encoded bytes and of where the bucket is.
pub open spec fn is_placed_row<
    R: FnOnce() -> Result<(), CopyTargetError>,
    L: FnOnce(u64) -> Option<CopyDestination>,
>(
    routing: CopyRouting,
    bucket_id: Option<u64>,
    encoded_row: Vec<u8>,
    ensure_current: R,
    lookup: L,
    result: Result<PendingCopyRow, CopyTargetError>,
) -> bool {
    exists|destination: Result<CopyDestination, CopyTargetError>|
        {
            &&& #[trigger] is_destination_of(
                routing,
                bucket_id,
                ensure_current,
                lookup,
                destination,
            )
            &&& match destination {
                Ok(place) => result matches Ok(row) && row.destination == place && row.encoded_row
                    == encoded_row,
                Err(error) => result matches Err(answer) && answer == error,
            }
        }
}

/// Whether `result` is the row that is encoded for a bucket and goes to where the bucket is.
pub open spec fn is_row_of_bucket<
    V,
    C,
    W: FnOnce(Option<u64>) -> Result<Vec<u8>, SbroadError>,
    R: FnOnce() -> Result<(), CopyTargetError>,
    L: FnOnce(u64) -> Option<CopyDestination>,
>(
    target: PreparedCopyTarget<V, C>,
    bucket_id: Option<u64>,
    write_args: W,
    ensure_current: R,
    lookup: L,
    result: Result<PendingCopyRow, CopyTargetError>,
) -> bool {
    exists|encoded: Result<Vec<u8>, SbroadError>|
        {
            &&& #[trigger] is_encoded_row(target.insert, bucket_id, write_args, encoded)
            &&& match encoded {
                Ok(encoded_row) => is_placed_row(
                    target.routing,
                    bucket_id,
                    encoded_row,
                    ensure_current,
                    lookup,
                    result,
                ),
                Err(error) => result matches Err(answer) && answer == CopyTargetError::Storage(
                    error,
                ),
            }
        }
}

/// Whether a request asks for rows to be inserted into a distributed table, and nothing else.
pub open spec fn is_request_for<'a, V, C>(
    target: PreparedCopyTarget<V, C>,
    routing: ShardedCopyRouting,
    batches: Seq<RemoteBatchView>,
    request: RemoteInsert<'a>,
) -> bool {
    &&& request.core.space_id == target.table_id
    &&& request.core.space_version == routing.schema_version
    &&& request.core.conflict_policy == target.conflict_policy
    &&& remote_views(request.batches@) == batches
    &&& smol_text(request.tier_name) == smol_text(routing.tier_name)
    &&& request.dispatch_timeout == routing.dispatch_timeout
}

/// Whether `dispatch` can be called on the requests for rows of a distributed table, and on no
/// others.
pub open spec fn can_dispatch<
    'a,
    V,
    C,
    D: FnOnce(&RemoteInsert<'a>) -> Result<usize, CopyTargetError>,
>(target: PreparedCopyTarget<V, C>, batches: Seq<RemoteBatchView>, dispatch: D) -> bool {
    target.routing matches CopyRouting::Sharded(routing) ==> forall|request: RemoteInsert<'a>|
        #[trigger] is_request_for(target, routing, batches, request) && is_random_uuid(
            smol_text(request.core.request_id),
        ) ==> call_requires(dispatch, (&request,))
}

/// Whether `result` is what comes of rows for other replicasets: what `dispatch` answers to a
/// request for them under an id of its own. A table that is not distributed has none.
pub open spec fn is_remote_result<
    'a,
    V,
    C,
    D: FnOnce(&RemoteInsert<'a>) -> Result<usize, CopyTargetError>,
>(
    target: PreparedCopyTarget<V, C>,
    batches: Seq<RemoteBatchView>,
    dispatch: D,
    result: Result<usize, CopyTargetError>,
) -> bool {
    match target.routing {
        CopyRouting::Local => result matches Err(error) && error@ == CopyTargetErrorView::Internal(
            "remote COPY batch requires sharded routing"@,
        ),
        CopyRouting::Sharded(routing) => exists|request: RemoteInsert<'a>|
            {
                &&& #[trigger] call_ensures(dispatch, (&request,), result)
                &&& is_request_for(target, routing, batches, request)
                &&& is_random_uuid(smol_text(request.core.request_id))
            },
    }
}

/// Whether `result` says that a table can be written to now: `check_operable` has nothing against
/// it, and its routing is up to date.
pub open spec fn is_ready_check<
    V,
    C,
    K: FnOnce(u32) -> Result<(), CopyTargetError>,
    R: FnOnce() -> Result<(), CopyTargetError>,
>(
    target: PreparedCopyTarget<V, C>,
    check_operable: K,
    ensure_current: R,
    result: Result<(), CopyTargetError>,
) -> bool {
    exists|check: Result<(), CopyTargetError>|
        {
            &&& #[trigger] call_ensures(check_operable, (target.table_id,), check)
            &&& match check {
                Ok(_) => is_routing_check(target.routing, ensure_current, result),
                Err(error) => result matches Err(answer) && answer == error,
            }
        }
}

/// Whether `check_operable` can have nothing against writing to a table.
pub open spec fn is_operable<V, C, K: FnOnce(u32) -> Result<(), CopyTargetError>>(
    target: PreparedCopyTarget<V, C>,
    check_operable: K,
) -> bool {
    exists|answer: Result<(), CopyTargetError>| #[trigger]
        call_ensures(check_operable, (target.table_id,), answer) && answer is Ok
}

/// Whether a table can be ready to be written to: the checks can have nothing against it.
pub open spec fn is_ready<
    V,
    C,
    K: FnOnce(u32) -> Result<(), CopyTargetError>,
    R: FnOnce() -> Result<(), CopyTargetError>,
>(target: PreparedCopyTarget<V, C>, check_operable: K, ensure_current: R) -> bool {
    is_operable(target, check_operable) && (target.routing is Sharded ==> can_pass(ensure_current))
}

/// Whether the checks can be called where they are needed: that of the routing for a distributed
/// table that is operable.
pub open spec fn can_check_ready<
    V,
    C,
    K: FnOnce(u32) -> Result<(), CopyTargetError>,
    R: FnOnce() -> Result<(), CopyTargetError>,
>(target: PreparedCopyTarget<V, C>, check_operable: K, ensure_current: R) -> bool {
    &&& call_requires(check_operable, (target.table_id,))
    &&& is_operable(target, check_operable) && target.routing is Sharded ==> call_requires(
        ensure_current,
        (),
    )
}

/// Whether the functions that write the rows for one destination can be called on those rows: the
/// one that serves the destination.
pub open spec fn can_write_batch<
    'a,
    V,
    C,
    I: FnOnce(&Vec<Vec<u8>>, u64) -> Result<usize, CopyTargetError>,
    D: FnOnce(&RemoteInsert<'a>) -> Result<usize, CopyTargetError>,
>(
    target: PreparedCopyTarget<V, C>,
    destination: CopyDestinationView,
    rows: Vec<Vec<u8>>,
    default_timeout: u64,
    insert_local: I,
    dispatch: D,
) -> bool {
    rows@.len() > 0 ==> match destination {
        CopyDestinationView::Local => call_requires(
            insert_local,
            (&rows, target.local_timeout(default_timeout)),
        ),
        CopyDestinationView::Replicaset(name) => can_dispatch(
            target,
            seq![RemoteBatchView { replicaset_uuid: name, encoded_rows: tuple_views(rows@) }],
            dispatch,
        ),
    }
}

/// Whether the functions that write waiting rows can be called where they are needed:
/// `insert_local` on the rows for this instance, and `dispatch` on those for other replicasets,
/// where there are any, once those for this instance can be inserted.
pub open spec fn can_write_rows<
    'a,
    V,
    C,
    I: FnOnce(&Vec<Vec<u8>>, u64) -> Result<usize, CopyTargetError>,
    D: FnOnce(&RemoteInsert<'a>) -> Result<usize, CopyTargetError>,
>(
    target: PreparedCopyTarget<V, C>,
    entries: Seq<DestinationEntry>,
    default_timeout: u64,
    insert_local: I,
    dispatch: D,
) -> bool {
    let timeout = target.local_timeout(default_timeout);
    &&& forall|i: int|
        0 <= i < entries.len() && (#[trigger] entries[i]).0@ == CopyDestinationView::Local
            ==> call_requires(insert_local, (&entries[i].1.encoded_rows, timeout))
    &&& remote_rows(entries).len() > 0 && (exists|inserted: usize| #[trigger]
        is_local_result(entries, timeout, insert_local, Ok(inserted))) ==> can_dispatch(
        target,
        remote_rows(entries),
        dispatch,
    )
}

/// Whether `result` is what comes of the rows for one destination: those for this instance are
/// inserted by `insert_local`, any other are sent by `dispatch`, and where there are none, nothing
/// is done.
pub open spec fn is_batch_result<
    'a,
    V,
    C,
    I: FnOnce(&Vec<Vec<u8>>, u64) -> Result<usize, CopyTargetError>,
    D: FnOnce(&RemoteInsert<'a>) -> Result<usize, CopyTargetError>,
>(
    target: PreparedCopyTarget<V, C>,
    destination: CopyDestinationView,
    rows: Vec<Vec<u8>>,
    default_timeout: u64,
    insert_local: I,
    dispatch: D,
    result: Result<usize, CopyTargetError>,
) -> bool {
    if rows@.len() == 0 {
        result == Ok::<usize, CopyTargetError>(0)
    } else {
        match destination {
            CopyDestinationView::Local => call_ensures(
                insert_local,
                (&rows, target.local_timeout(default_timeout)),
                result,
            ),
            CopyDestinationView::Replicaset(name) => is_remote_result(
                target,
                seq![RemoteBatchView { replicaset_uuid: name, encoded_rows: tuple_views(rows@) }],
                dispatch,
                result,
            ),
        }
    }
}

/// The rows that go to other replicasets.
pub open spec fn remote_rows(entries: Seq<DestinationEntry>) -> Seq<RemoteBatchView>
    decreases entries.len(),
{
    if entries.len() == 0 {
        seq![]
    } else {
        match entries.last().0@ {
            CopyDestinationView::Local => remote_rows(entries.drop_last()),
            CopyDestinationView::Replicaset(name) => remote_rows(entries.drop_last()).push(
                RemoteBatchView { replicaset_uuid: name, encoded_rows: entries.last().1@ },
            ),
        }
    }
}

/// Whether any rows go to this instance.
pub open spec fn has_local_rows(entries: Seq<DestinationEntry>) -> bool {
    exists|i: int|
        0 <= i < entries.len() && (#[trigger] entries[i]).0@ == CopyDestinationView::Local
}

/// Whether `result` is what comes of the rows for this instance, where there are any.
pub open spec fn is_local_result<I: FnOnce(&Vec<Vec<u8>>, u64) -> Result<usize, CopyTargetError>>(
    entries: Seq<DestinationEntry>,
    timeout: u64,
    insert_local: I,
    result: Result<usize, CopyTargetError>,
) -> bool {
    if has_local_rows(entries) {
        exists|i: int|
            {
                &&& 0 <= i < entries.len()
                &&& (#[trigger] entries[i]).0@ == CopyDestinationView::Local
                &&& call_ensures(insert_local, (&entries[i].1.encoded_rows, timeout), result)
            }
    } else {
        result == Ok::<usize, CopyTargetError>(0)
    }
}

/// Whether `result` is what comes of all rows: those for this instance are inserted first, and
/// where that fails, none are sent; then those for other replicasets are sent, where there are
/// any. The counts are added up.
pub open spec fn is_rows_result<
    'a,
    V,
    C,
    I: FnOnce(&Vec<Vec<u8>>, u64) -> Result<usize, CopyTargetError>,
    D: FnOnce(&RemoteInsert<'a>) -> Result<usize, CopyTargetError>,
>(
    target: PreparedCopyTarget<V, C>,
    entries: Seq<DestinationEntry>,
    default_timeout: u64,
    insert_local: I,
    dispatch: D,
    result: Result<usize, CopyTargetError>,
) -> bool {
    exists|local: Result<usize, CopyTargetError>|
        {
            &&& #[trigger] is_local_result(
                entries,
                target.local_timeout(default_timeout),
                insert_local,
                local,
            )
            &&& match local {
                Err(error) => result matches Err(answer) && answer == error,
                Ok(inserted) => if remote_rows(entries).len() == 0 {
                    result == Ok::<usize, CopyTargetError>(inserted)
                } else {
                    is_total_result(target, inserted, remote_rows(entries), dispatch, result)
                },
            }
        }
}

/// Whether `result` is what comes of rows for other replicasets, with those added that were
/// inserted before.
pub open spec fn is_total_result<
    'a,
    V,
    C,
    D: FnOnce(&RemoteInsert<'a>) -> Result<usize, CopyTargetError>,
>(
    target: PreparedCopyTarget<V, C>,
    inserted: usize,
    batches: Seq<RemoteBatchView>,
    dispatch: D,
    result: Result<usize, CopyTargetError>,
) -> bool {
    exists|remote: Result<usize, CopyTargetError>|
        {
            &&& #[trigger] is_remote_result(target, batches, dispatch, remote)
            &&& match remote {
                Err(error) => result matches Err(answer) && answer == error,
                Ok(sent) => result matches Ok(total) && total == counted(inserted + sent),
            }
        }
}

impl<V, C> PreparedCopyTarget<V, C> {
    pub fn table_name(&self) -> (name: &SmolStr)
        ensures
            *name == self.table_name,
    {
        &self.table_name
    }

    pub fn field_types(&self) -> (types: &Vec<Type>)
        ensures
            *types == self.field_types,
    {
        &self.field_types
    }

    /// Finds where the rows of a bucket go.
    pub fn destination_for_bucket<
        R: FnOnce() -> Result<(), CopyTargetError>,
        L: FnOnce(u64) -> Option<CopyDestination>,
    >(&self, bucket_id: Option<u64>, ensure_current: R, lookup: L) -> (result: Result<
        CopyDestination,
        CopyTargetError,
    >)
        requires
            can_find_destination(self.routing, bucket_id, ensure_current, lookup),
        ensures
            is_destination_of(self.routing, bucket_id, ensure_current, lookup, result),
    {
        match &self.routing {
            CopyRouting::Local => Ok(CopyDestination::Local),
            CopyRouting::Sharded(routing) => {
                let bucket_id: u64 = match bucket_id {
                    Some(id) => id,
                    None => return Err(CopyTargetError::MissingBucketId),
                };
                let check = ensure_current();
                assert(call_ensures(ensure_current, (), check));
                match check {
                    Ok(()) => {},
                    Err(error) => return Err(error),
                }
                match lookup(bucket_id) {
                    Some(destination) => Ok(destination),
                    None => Err(
                        CopyTargetError::MissingBucketRoute {
                            tier_name: routing.tier_name.clone(),
                            bucket_id,
                        },
                    ),
                }
            },
        }
    }

    /// Makes sure that the routing of a distributed table is up to date.
    pub fn ensure_routing_current<R: FnOnce() -> Result<(), CopyTargetError>>(
        &self,
        ensure_current: R,
    ) -> (result: Result<(), CopyTargetError>)
        requires
            self.routing is Sharded ==> call_requires(ensure_current, ()),
        ensures
            is_routing_check(self.routing, ensure_current, result),
            result is Ok && self.routing is Sharded ==> can_pass(ensure_current),
    {
        match &self.routing {
            CopyRouting::Local => Ok(()),
            CopyRouting::Sharded(_) => {
                let answer = ensure_current();
                assert(call_ensures(ensure_current, (), answer));
                answer
            },
        }
    }

    /// How long an insert on this instance may take.
    pub open spec fn local_timeout(&self, default_timeout: u64) -> u64 {
        match self.routing {
            CopyRouting::Local => default_timeout,
            CopyRouting::Sharded(routing) => routing.dispatch_timeout,
        }
    }

    /// How long an insert on this instance may take.
    pub fn local_insert_timeout(&self, default_timeout: u64) -> (timeout: u64)
        ensures
            timeout == self.local_timeout(default_timeout),
    {
        match &self.routing {
            CopyRouting::Local => default_timeout,
            CopyRouting::Sharded(routing) => routing.dispatch_timeout,
        }
    }

    /// Prepares a row: encodes it, and finds where it goes. What the row says of itself is asked
    /// of the functions that are handed in, as for `DirectInsertTarget` and
    /// `destination_for_bucket`.
    pub fn prepare_pending_row<
        B: FnOnce(&Vec<&V>) -> Result<u64, SbroadError>,
        S: FnOnce() -> String,
        W: FnOnce(Option<u64>) -> Result<Vec<u8>, SbroadError>,
        R: FnOnce() -> Result<(), CopyTargetError>,
        L: FnOnce(u64) -> Option<CopyDestination>,
    >(
        &self,
        row: &Vec<V>,
        bucket_of: B,
        show_row: S,
        write_args: W,
        ensure_current: R,
        lookup: L,
    ) -> (result: Result<PendingCopyRow, CopyTargetError>)
        requires
            insert_key(self.insert.builder@) matches Some(key) ==> can_find_bucket(
                row@,
                key,
                bucket_of,
                show_row,
            ),
            forall|bucket_id: Option<u64>| #[trigger]
                is_bucket_for_row(self.insert, row@, bucket_of, show_row, Ok(bucket_id))
                    ==> call_requires(write_args, (bucket_id,)),
            forall|bucket_id: Option<u64>, encoded_row: Vec<u8>|
                #![trigger is_encoded_row(self.insert, bucket_id, write_args, Ok(encoded_row))]
                is_bucket_for_row(self.insert, row@, bucket_of, show_row, Ok(bucket_id))
                    && is_encoded_row(self.insert, bucket_id, write_args, Ok(encoded_row))
                    ==> can_find_destination(self.routing, bucket_id, ensure_current, lookup),
        ensures
            exists|bucket: Result<Option<u64>, SbroadError>|
                {
                    &&& #[trigger] is_bucket_for_row(self.insert, row@, bucket_of, show_row, bucket)
                    &&& match bucket {
                        Ok(bucket_id) => is_row_of_bucket(
                            *self,
                            bucket_id,
                            write_args,
                            ensure_current,
                            lookup,
                            result,
                        ),
                        Err(error) => result matches Err(answer) && answer
                            == CopyTargetError::Storage(error),
                    }
                },
    {
        let bucket = self.insert.bucket_id_for_row(row, bucket_of, show_row);
        assert(is_bucket_for_row(self.insert, row@, bucket_of, show_row, bucket));
        let bucket_id = match bucket {
            Ok(bucket_id) => bucket_id,
            Err(error) => return Err(CopyTargetError::Storage(error)),
        };
        let encoded = self.insert.encode_row_with_bucket(bucket_id, write_args);
        assert(is_encoded_row(self.insert, bucket_id, write_args, encoded));
        let encoded_row = match encoded {
            Ok(encoded_row) => encoded_row,
            Err(error) => return Err(CopyTargetError::Storage(error)),
        };
        let destination = self.destination_for_bucket(bucket_id, ensure_current, lookup);
        assert(is_destination_of(self.routing, bucket_id, ensure_current, lookup, destination));
        match destination {
            Ok(destination) => Ok(PendingCopyRow::new(destination, encoded_row)),
            Err(error) => Err(error),
        }
    }

    /// A request to insert rows on other replicasets.
    pub fn remote_insert<'a>(
        &self,
        routing: &ShardedCopyRouting,
        request_id: SmolStr,
        batches: Vec<RemoteBatch<'a>>,
    ) -> (request: RemoteInsert<'a>)
        ensures
            request.core.request_id == request_id,
            is_request_for(*self, *routing, remote_views(batches@), request),
    {
        RemoteInsert {
            core: InsertCoreData {
                request_id,
                space_id: self.table_id,
                space_version: routing.schema_version,
                conflict_policy: self.conflict_policy,
            },
            batches,
            tier_name: routing.tier_name.clone(),
            dispatch_timeout: routing.dispatch_timeout,
        }
    }

    /// Has rows inserted on other replicasets. `dispatch` sends the request, and counts the rows
    /// that were inserted.
    pub fn dispatch_remote_batches<
        'a,
        D: FnOnce(&RemoteInsert<'a>) -> Result<usize, CopyTargetError>,
    >(&self, batches: Vec<RemoteBatch<'a>>, dispatch: D) -> (result: Result<
        usize,
        CopyTargetError,
    >)
        requires
            can_dispatch(*self, remote_views(batches@), dispatch),
        ensures
            is_remote_result(*self, remote_views(batches@), dispatch, result),
    {
        match &self.routing {
            CopyRouting::Local => Err(
                CopyTargetError::Internal(smol("remote COPY batch requires sharded routing")),
            ),
            CopyRouting::Sharded(routing) => {
                let id = new_request_id();
                let request = self.remote_insert(routing, smol(id.as_str()), batches);
                dispatch(&request)
            },
        }
    }

    /// Makes sure that the table can be written to now.
    fn ensure_ready<
        K: FnOnce(u32) -> Result<(), CopyTargetError>,
        R: FnOnce() -> Result<(), CopyTargetError>,
    >(&self, check_operable: K, ensure_current: R) -> (result: Result<(), CopyTargetError>)
        requires
            can_check_ready(*self, check_operable, ensure_current),
        ensures
            is_ready_check(*self, check_operable, ensure_current, result),
            result is Ok ==> is_ready(*self, check_operable, ensure_current),
    {
        let check = check_operable(self.table_id);
        assert(call_ensures(check_operable, (self.table_id,), check));
        match check {
            Ok(()) => self.ensure_routing_current(ensure_current),
            Err(error) => Err(error),
        }
    }

    /// Has the rows inserted on this instance that wait for it.
    pub fn insert_destination_batch<
        I: FnOnce(&Vec<Vec<u8>>, u64) -> Result<usize, CopyTargetError>,
    >(&self, batch: &DestinationBatch, default_timeout: u64, insert_local: I) -> (result: Result<
        usize,
        CopyTargetError,
    >)
        requires
            call_requires(
                insert_local,
                (&batch.encoded_rows, self.local_timeout(default_timeout)),
            ),
        ensures
            call_ensures(
                insert_local,
                (&batch.encoded_rows, self.local_timeout(default_timeout)),
                result,
            ),
    {
        insert_local(&batch.encoded_rows, self.local_insert_timeout(default_timeout))
    }

    /// Has the rows written that wait for one destination.
    pub fn flush_destination_batch<
        I: FnOnce(&Vec<Vec<u8>>, u64) -> Result<usize, CopyTargetError>,
        D: FnOnce(&RemoteInsert<'_>) -> Result<usize, CopyTargetError>,
    >(
        &self,
        destination: &CopyDestination,
        batch: &DestinationBatch,
        default_timeout: u64,
        insert_local: I,
        dispatch: D,
    ) -> (result: Result<usize, CopyTargetError>)
        requires
            can_write_batch(
                *self,
                destination@,
                batch.encoded_rows,
                default_timeout,
                insert_local,
                dispatch,
            ),
        ensures
            is_batch_result(
                *self,
                destination@,
                batch.encoded_rows,
                default_timeout,
                insert_local,
                dispatch,
                result,
            ),
    {
        if batch.is_empty() {
            return Ok(0);
        }
        match destination {
            CopyDestination::Local => self.insert_destination_batch(
                batch,
                default_timeout,
                insert_local,
            ),
            CopyDestination::Replicaset(name) => {
                let mut batches: Vec<RemoteBatch<'_>> = Vec::new();
                batches.push(
                    RemoteBatch {
                        replicaset_uuid: name.as_str().to_owned(),
                        encoded_rows: &batch.encoded_rows,
                    },
                );
                assert(remote_views(batches@) =~= seq![
                    RemoteBatchView {
                        replicaset_uuid: smol_text(*name),
                        encoded_rows: tuple_views(batch.encoded_rows@),
                    },
                ]);
                self.dispatch_remote_batches(batches, dispatch)
            },
        }
    }

    /// Has the rows written that wait for one destination, where any do, and drops them once they
    /// are. Until then, and where that fails, they go on waiting.
    pub fn flush_pending_destination<
        K: FnOnce(u32) -> Result<(), CopyTargetError>,
        R: FnOnce() -> Result<(), CopyTargetError>,
        I: FnOnce(&Vec<Vec<u8>>, u64) -> Result<usize, CopyTargetError>,
        D: FnOnce(&RemoteInsert<'_>) -> Result<usize, CopyTargetError>,
    >(
        &self,
        pending: &mut PendingCopyRows,
        destination: &CopyDestination,
        default_timeout: u64,
        check_operable: K,
        ensure_current: R,
        insert_local: I,
        dispatch: D,
    ) -> (result: Result<usize, CopyTargetError>)
        requires
            old(pending).wf(),
            old(pending)@.dom().contains(destination@) ==> can_check_ready(
                *self,
                check_operable,
                ensure_current,
            ),
            old(pending)@.dom().contains(destination@) && is_ready(
                *self,
                check_operable,
                ensure_current,
            ) ==> forall|rows: Vec<Vec<u8>>| #[trigger]
                tuple_views(rows@) == old(pending)@[destination@] ==> can_write_batch(
                    *self,
                    destination@,
                    rows,
                    default_timeout,
                    insert_local,
                    dispatch,
                ),
        ensures
            final(pending).wf(),
            old(pending).is_exact() ==> final(pending).is_exact(),
            if !old(pending)@.dom().contains(destination@) {
                result == Ok::<usize, CopyTargetError>(0) && *final(pending) == *old(pending)
            } else {
                exists|ready: Result<(), CopyTargetError>|
                    {
                        &&& #[trigger] is_ready_check(*self, check_operable, ensure_current, ready)
                        &&& match ready {
                            Err(error) => result matches Err(answer) && answer == error,
                            Ok(_) => exists|rows: Vec<Vec<u8>>|
                                {
                                    &&& #[trigger] tuple_views(rows@) == old(
                                        pending,
                                    )@[destination@]
                                    &&& is_batch_result(
                                        *self,
                                        destination@,
                                        rows,
                                        default_timeout,
                                        insert_local,
                                        dispatch,
                                        result,
                                    )
                                },
                        }
                    }
            },
            result is Ok ==> final(pending)@ == old(pending)@.remove(destination@),
            result is Ok && old(pending)@.dom().contains(destination@) ==> final(pending).rows
                == counted_down(old(pending).rows as int, old(pending)@[destination@].len() as int)
                && final(pending).bytes == counted_down(
                old(pending).bytes as int,
                counted(total_len(old(pending)@[destination@])),
            ),
            result is Err ==> *final(pending) == *old(pending),
    {
        if !pending.contains_destination(destination) {
            assert(pending@ =~= pending@.remove(destination@));
            return Ok(0);
        }
        let ready = self.ensure_ready(check_operable, ensure_current);
        assert(is_ready_check(*self, check_operable, ensure_current, ready));
        match ready {
            Ok(()) => {},
            Err(error) => return Err(error),
        }
        let flushed = match pending.destination(destination) {
            Some(batch) => {
                let flushed = self.flush_destination_batch(
                    destination,
                    batch,
                    default_timeout,
                    insert_local,
                    dispatch,
                );
                assert(tuple_views(batch.encoded_rows@) == old(pending)@[destination@]);
                flushed
            },
            None => return Ok(0),
        };
        match flushed {
            Ok(row_count) => {
                pending.take_destination(destination);
                Ok(row_count)
            },
            Err(error) => Err(error),
        }
    }

    /// Has all rows written that wait, where any do, and drops them once they are. Until then, and
    /// where that fails, they go on waiting.
    pub fn flush_pending_rows<
        K: FnOnce(u32) -> Result<(), CopyTargetError>,
        R: FnOnce() -> Result<(), CopyTargetError>,
        I: FnOnce(&Vec<Vec<u8>>, u64) -> Result<usize, CopyTargetError>,
        D: FnOnce(&RemoteInsert<'_>) -> Result<usize, CopyTargetError>,
    >(
        &self,
        pending: &mut PendingCopyRows,
        default_timeout: u64,
        check_operable: K,
        ensure_current: R,
        insert_local: I,
        dispatch: D,
    ) -> (result: Result<usize, CopyTargetError>)
        requires
            old(pending).wf(),
            old(pending).rows > 0 ==> can_check_ready(*self, check_operable, ensure_current),
            old(pending).rows > 0 && is_ready(*self, check_operable, ensure_current)
                ==> can_write_rows(
                *self,
                old(pending).destinations@,
                default_timeout,
                insert_local,
                dispatch,
            ),
        ensures
            final(pending).wf(),
            old(pending).is_exact() ==> final(pending).is_exact(),
            if old(pending).rows == 0 {
                result == Ok::<usize, CopyTargetError>(0) && *final(pending) == *old(pending)
            } else {
                exists|ready: Result<(), CopyTargetError>|
                    {
                        &&& #[trigger] is_ready_check(*self, check_operable, ensure_current, ready)
                        &&& match ready {
                            Err(error) => result matches Err(answer) && answer == error,
                            Ok(_) => is_rows_result(
                                *self,
                                old(pending).destinations@,
                                default_timeout,
                                insert_local,
                                dispatch,
                                result,
                            ),
                        }
                    }
            },
            result is Ok && old(pending).rows > 0 ==> final(pending)@ == Map::<
                CopyDestinationView,
                Seq<Seq<u8>>,
            >::empty() && final(pending).rows == 0 && final(pending).bytes == 0,
            result is Err ==> *final(pending) == *old(pending),
    {
        if pending.is_empty() {
            return Ok(0);
        }
        let ready = self.ensure_ready(check_operable, ensure_current);
        assert(is_ready_check(*self, check_operable, ensure_current, ready));
        match ready {
            Ok(()) => {},
            Err(error) => return Err(error),
        }
        let flushed = self.flush_entries(
            pending.destinations(),
            default_timeout,
            insert_local,
            dispatch,
        );
        match flushed {
            Ok(row_count) => {
                pending.clear();
                Ok(row_count)
            },
            Err(error) => Err(error),
        }
    }

    fn flush_entries<
        I: FnOnce(&Vec<Vec<u8>>, u64) -> Result<usize, CopyTargetError>,
        D: FnOnce(&RemoteInsert<'_>) -> Result<usize, CopyTargetError>,
    >(
        &self,
        entries: &Vec<DestinationEntry>,
        default_timeout: u64,
        insert_local: I,
        dispatch: D,
    ) -> (result: Result<usize, CopyTargetError>)
        requires
            entries_wf(entries@),
            can_write_rows(*self, entries@, default_timeout, insert_local, dispatch),
        ensures
            is_rows_result(*self, entries@, default_timeout, insert_local, dispatch, result),
    {
        let ghost timeout = self.local_timeout(default_timeout);
        let mut local: Option<usize> = None;
        let mut remote_batches: Vec<RemoteBatch<'_>> = Vec::new();
        let mut idx: usize = 0;
        assert(remote_views(remote_batches@) =~= seq![]);
        while idx < entries.len()
            invariant
                idx <= entries@.len(),
                remote_views(remote_batches@) == remote_rows(entries@.take(idx as int)),
                match local {
                    Some(at) => at < idx && entries@[at as int].0@ == CopyDestinationView::Local,
                    None => forall|i: int|
                        0 <= i < idx ==> (#[trigger] entries@[i]).0@ != CopyDestinationView::Local,
                },
            decreases entries@.len() - idx,
        {
            assert(entries@.take(idx + 1).drop_last() =~= entries@.take(idx as int));
            let (destination, batch) = &entries[idx];
            match destination {
                CopyDestination::Local => {
                    local = Some(idx);
                },
                CopyDestination::Replicaset(name) => {
                    remote_batches.push(
                        RemoteBatch {
                            replicaset_uuid: name.as_str().to_owned(),
                            encoded_rows: &batch.encoded_rows,
                        },
                    );
                },
            }
            idx += 1;
        }
        assert(entries@.take(idx as int) =~= entries@);
        let inserted = match local {
            Some(at) => {
                assert(entries@[at as int].0@ == CopyDestinationView::Local);
                self.insert_destination_batch(&entries[at].1, default_timeout, insert_local)
            },
            None => Ok(0),
        };
        assert(is_local_result(entries@, timeout, insert_local, inserted));
        let row_count: usize = match inserted {
            Ok(row_count) => row_count,
            Err(error) => return Err(error),
        };
        if remote_batches.len() > 0 {
            assert(remote_rows(entries@).len() > 0) by {
                assert(remote_views(remote_batches@).len() > 0);
            }
            let sent = self.dispatch_remote_batches(remote_batches, dispatch);
            assert(is_remote_result(*self, remote_rows(entries@), dispatch, sent));
            match sent {
                Ok(count) => Ok(row_count.saturating_add(count)),
                Err(error) => Err(error),
            }
        } else {
            Ok(row_count)
        }
    }
}

}
