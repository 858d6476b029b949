//! What holds of rows that are placed and written: each goes where its bucket is, and none is
//! dropped unwritten.
use crate::errors::{CopyTargetError, CopyTargetErrorView, SbroadError};
use crate::storage::direct_insert::is_encoded_row;
use crate::storage::insert_laws::law_encoded_row_is_header_and_parts;
use crate::storage::pending::{
    entries_wf, row_count, CopyDestination, CopyDestinationView, DestinationEntry, PendingCopyRow,
};
use crate::storage::target::{
    has_local_rows, is_batch_result, is_destination_of, is_local_result, is_placed_row,
    is_ready_check, is_remote_result, is_request_for, is_row_of_bucket, is_rows_result,
    is_total_result, remote_rows, remote_views, CopyRouting, PreparedCopyTarget, RemoteBatch,
    RemoteBatchView, RemoteInsert,
};
use crate::text::smol_text;
use crate::tuples::tuple_views;
use vstd::prelude::*;

verus! {

/// Whether encoded rows are, one by one and byte by byte, those of another list.
pub open spec fn same_rows(left: Seq<Vec<u8>>, right: Seq<Vec<u8>>) -> bool {
    &&& left.len() == right.len()
    &&& forall|i: int| 0 <= i < left.len() ==> (#[trigger] left[i])@ == right[i]@
}

/// Whether a batch is what waits for a replicaset: it names the replicaset, and has its rows.
pub open spec fn is_batch_for<'a>(batch: RemoteBatch<'a>, entry: DestinationEntry) -> bool {
    &&& entry.0@ == CopyDestinationView::Replicaset(batch.replicaset_uuid@)
    &&& same_rows(batch.encoded_rows@, entry.1.encoded_rows@)
}

/// Whether what waits for a replicaset is among batches.
pub open spec fn has_batch_for<'a>(batches: Seq<RemoteBatch<'a>>, entry: DestinationEntry) -> bool {
    exists|j: int| 0 <= j < batches.len() && is_batch_for(#[trigger] batches[j], entry)
}

/// Whether a batch is what waits for one of the replicasets.
pub open spec fn has_entry_for<'a>(
    entries: Seq<DestinationEntry>,
    batch: RemoteBatch<'a>,
) -> bool {
    exists|i: int| 0 <= i < entries.len() && is_batch_for(batch, #[trigger] entries[i])
}

/// Whether batches are just what waits for the replicasets: for each one batch, and no other.
pub open spec fn are_all_remote<'a>(
    batches: Seq<RemoteBatch<'a>>,
    entries: Seq<DestinationEntry>,
) -> bool {
    &&& forall|i: int|
        0 <= i < entries.len() && (#[trigger] entries[i]).0@ is Replicaset ==> has_batch_for(
            batches,
            entries[i],
        )
    &&& forall|j: int| 0 <= j < batches.len() ==> has_entry_for(entries, #[trigger] batches[j])
    &&& forall|j: int, k: int|
        0 <= j < k < batches.len() ==> (#[trigger] batches[j]).replicaset_uuid@ != (
        #[trigger] batches[k]).replicaset_uuid@
}

/// Whether a request is for a table that is distributed in the way `target` says.
pub open spec fn is_for_table<'a, V, C>(
    target: PreparedCopyTarget<V, C>,
    request: RemoteInsert<'a>,
) -> bool {
    &&& request.core.space_id == target.table_id
    &&& request.core.conflict_policy == target.conflict_policy
    &&& target.routing matches CopyRouting::Sharded(routing) && request.core.space_version
        == routing.schema_version && smol_text(request.tier_name) == smol_text(routing.tier_name)
        && request.dispatch_timeout == routing.dispatch_timeout
}

proof fn lemma_fewer_wf(entries: Seq<DestinationEntry>)
    requires
        entries_wf(entries),
        entries.len() > 0,
    ensures
        entries_wf(entries.drop_last()),
{
    let fewer = entries.drop_last();
    assert forall|i: int, j: int| 0 <= i < j < fewer.len() implies (#[trigger] fewer[i]).0@ != (
    #[trigger] fewer[j]).0@ by {
        assert(entries[i].0@ != entries[j].0@);
    }
    assert forall|i: int| 0 <= i < fewer.len() implies (#[trigger] fewer[i]).1.wf()
        && fewer[i].1@.len() > 0 by {
        assert(entries[i].1.wf());
    }
}

/// Whether the rows that go elsewhere hold those of an entry.
spec fn has_view(views: Seq<RemoteBatchView>, entry: DestinationEntry) -> bool {
    exists|j: int| 0 <= j < views.len() && is_view_of(#[trigger] views[j], entry)
}

spec fn is_view_of(view: RemoteBatchView, entry: DestinationEntry) -> bool {
    entry.0@ == CopyDestinationView::Replicaset(view.replicaset_uuid) && view.encoded_rows
        == tuple_views(entry.1.encoded_rows@)
}

spec fn has_source(entries: Seq<DestinationEntry>, view: RemoteBatchView) -> bool {
    exists|i: int| 0 <= i < entries.len() && is_view_of(view, #[trigger] entries[i])
}

proof fn lemma_remote_rows(entries: Seq<DestinationEntry>)
    requires
        entries_wf(entries),
    ensures
        ({
            let views = remote_rows(entries);
            &&& forall|i: int|
                0 <= i < entries.len() && (#[trigger] entries[i]).0@ is Replicaset ==> has_view(
                    views,
                    entries[i],
                )
            &&& forall|j: int| 0 <= j < views.len() ==> has_source(entries, #[trigger] views[j])
            &&& forall|j: int, k: int|
                0 <= j < k < views.len() ==> (#[trigger] views[j]).replicaset_uuid != (
                #[trigger] views[k]).replicaset_uuid
        }),
    decreases entries.len(),
{
    if entries.len() > 0 {
        let fewer = entries.drop_last();
        let last = entries.len() - 1;
        let views = remote_rows(entries);
        let before = remote_rows(fewer);
        lemma_fewer_wf(entries);
        lemma_remote_rows(fewer);
        assert forall|j: int| 0 <= j < before.len() implies has_source(
            entries,
            #[trigger] before[j],
        ) by {
            assert(has_source(fewer, before[j]));
            let i = choose|i: int|
                0 <= i < fewer.len() && is_view_of(before[j], #[trigger] fewer[i]);
            assert(is_view_of(before[j], entries[i]));
        }
        assert forall|i: int| 0 <= i < entries.len() && (
        #[trigger] entries[i]).0@ is Replicaset implies has_view(views, entries[i]) by {
            if i < last {
                assert(fewer[i] == entries[i]);
                assert(has_view(before, fewer[i]));
                let j = choose|j: int|
                    0 <= j < before.len() && is_view_of(#[trigger] before[j], fewer[i]);
                assert(views[j] == before[j]);
            } else {
                assert(is_view_of(views[views.len() - 1], entries[last]));
            }
        }
        assert forall|j: int| 0 <= j < views.len() implies has_source(entries, #[trigger] views[j])
            by {
            if j < before.len() {
                assert(views[j] == before[j]);
            } else {
                assert(is_view_of(views[j], entries[last]));
            }
        }
        assert forall|j: int, k: int| 0 <= j < k < views.len() implies (
        #[trigger] views[j]).replicaset_uuid != (#[trigger] views[k]).replicaset_uuid by {
            assert(views[j] == before[j]);
            if k < before.len() {
                assert(views[k] == before[k]);
            } else {
                assert(has_source(fewer, before[j]));
                let i = choose|i: int|
                    0 <= i < fewer.len() && is_view_of(before[j], #[trigger] fewer[i]);
                assert(entries[i].0@ != entries[last].0@);
            }
        }
    }
}

proof fn lemma_same_rows(left: Seq<Vec<u8>>, right: Seq<Vec<u8>>)
    requires
        tuple_views(left) == tuple_views(right),
    ensures
        same_rows(left, right),
{
    assert(left.len() == tuple_views(left).len());
    assert forall|i: int| 0 <= i < left.len() implies (#[trigger] left[i])@ == right[i]@ by {
        assert(tuple_views(left)[i] == left[i]@);
        assert(tuple_views(right)[i] == right[i]@);
    }
}

/// Batches that look like the rows that go elsewhere are just those.
proof fn lemma_batches<'a>(batches: Seq<RemoteBatch<'a>>, entries: Seq<DestinationEntry>)
    requires
        entries_wf(entries),
        remote_views(batches) == remote_rows(entries),
    ensures
        are_all_remote(batches, entries),
{
    let views = remote_rows(entries);
    lemma_remote_rows(entries);
    assert(batches.len() == views.len());
    assert forall|j: int| 0 <= j < batches.len() implies (#[trigger] batches[j])@ == views[j] by {
        assert(remote_views(batches)[j] == batches[j]@);
    }
    assert forall|i: int| 0 <= i < entries.len() && (
    #[trigger] entries[i]).0@ is Replicaset implies has_batch_for(batches, entries[i]) by {
        assert(has_view(views, entries[i]));
        let j = choose|j: int| 0 <= j < views.len() && is_view_of(#[trigger] views[j], entries[i]);
        assert(batches[j]@ == views[j]);
        lemma_same_rows(batches[j].encoded_rows@, entries[i].1.encoded_rows@);
        assert(is_batch_for(batches[j], entries[i]));
    }
    assert forall|j: int| 0 <= j < batches.len() implies has_entry_for(
        entries,
        #[trigger] batches[j],
    ) by {
        assert(has_source(entries, views[j]));
        let i = choose|i: int|
            0 <= i < entries.len() && is_view_of(views[j], #[trigger] entries[i]);
        assert(batches[j]@ == views[j]);
        lemma_same_rows(batches[j].encoded_rows@, entries[i].1.encoded_rows@);
        assert(is_batch_for(batches[j], entries[i]));
    }
    assert forall|j: int, k: int| 0 <= j < k < batches.len() implies (
    #[trigger] batches[j]).replicaset_uuid@ != (#[trigger] batches[k]).replicaset_uuid@ by {
        assert(batches[j]@ == views[j] && batches[k]@ == views[k]);
        assert(views[j].replicaset_uuid != views[k].replicaset_uuid);
    }
}

/// Whether any rows go to other replicasets.
pub open spec fn has_remote_rows(entries: Seq<DestinationEntry>) -> bool {
    exists|i: int| 0 <= i < entries.len() && (#[trigger] entries[i]).0@ is Replicaset
}

/// Whether `dispatch` can have answered `result` to a request that has just the rows which wait for
/// other replicasets.
pub open spec fn all_dispatched<
    'a,
    V,
    C,
    D: FnOnce(&RemoteInsert<'a>) -> Result<usize, CopyTargetError>,
>(
    target: PreparedCopyTarget<V, C>,
    entries: Seq<DestinationEntry>,
    dispatch: D,
    result: Result<usize, CopyTargetError>,
) -> bool {
    exists|request: RemoteInsert<'a>|
        {
            &&& #[trigger] call_ensures(dispatch, (&request,), result)
            &&& is_for_table(target, request)
            &&& are_all_remote(request.batches@, entries)
        }
}

/// Whether `insert_local` can have answered `result` for the rows which wait for this instance.
pub open spec fn all_inserted<
    V,
    C,
    I: FnOnce(&Vec<Vec<u8>>, u64) -> Result<usize, CopyTargetError>,
>(
    target: PreparedCopyTarget<V, C>,
    entries: Seq<DestinationEntry>,
    default_timeout: u64,
    insert_local: I,
    result: Result<usize, CopyTargetError>,
) -> bool {
    exists|i: int|
        {
            &&& 0 <= i < entries.len()
            &&& (#[trigger] entries[i]).0@ is Local
            &&& call_ensures(
                insert_local,
                (
                    &entries[i].1.encoded_rows,
                    match target.routing {
                        CopyRouting::Local => default_timeout,
                        CopyRouting::Sharded(routing) => routing.dispatch_timeout,
                    },
                ),
                result,
            )
        }
}

/// Whether so many rows were inserted on this instance: those that wait for it, where any do.
pub open spec fn local_count<
    V,
    C,
    I: FnOnce(&Vec<Vec<u8>>, u64) -> Result<usize, CopyTargetError>,
>(
    target: PreparedCopyTarget<V, C>,
    entries: Seq<DestinationEntry>,
    default_timeout: u64,
    insert_local: I,
    count: usize,
) -> bool {
    if exists|i: int| 0 <= i < entries.len() && (#[trigger] entries[i]).0@ is Local {
        all_inserted(target, entries, default_timeout, insert_local, Ok(count))
    } else {
        count == 0
    }
}

/// Whether so many rows were inserted elsewhere: those that wait for other replicasets, where any
/// do.
pub open spec fn remote_count<
    'a,
    V,
    C,
    D: FnOnce(&RemoteInsert<'a>) -> Result<usize, CopyTargetError>,
>(
    target: PreparedCopyTarget<V, C>,
    entries: Seq<DestinationEntry>,
    dispatch: D,
    count: usize,
) -> bool {
    if has_remote_rows(entries) {
        all_dispatched(target, entries, dispatch, Ok(count))
    } else {
        count == 0
    }
}

proof fn lemma_counts_of_written_rows<
    'a,
    V,
    C,
    I: FnOnce(&Vec<Vec<u8>>, u64) -> Result<usize, CopyTargetError>,
    D: FnOnce(&RemoteInsert<'a>) -> Result<usize, CopyTargetError>,
>(
    target: PreparedCopyTarget<V, C>,
    entries: Seq<DestinationEntry>,
    default_timeout: u64,
    insert_local: I,
    dispatch: D,
    total: usize,
) -> (counts: (usize, usize))
    requires
        entries_wf(entries),
        is_rows_result(target, entries, default_timeout, insert_local, dispatch, Ok(total)),
    ensures
        local_count(target, entries, default_timeout, insert_local, counts.0),
        remote_count(target, entries, dispatch, counts.1),
        total == if counts.0 + counts.1 <= usize::MAX {
            counts.0 + counts.1
        } else {
            usize::MAX as int
        },
{
    let timeout = target.local_timeout(default_timeout);
    let rows = remote_rows(entries);
    lemma_remote_rows(entries);
    let result = Ok::<usize, CopyTargetError>(total);
    let local = choose|local: Result<usize, CopyTargetError>|
        {
            &&& #[trigger] is_local_result(entries, timeout, insert_local, local)
            &&& match local {
                Err(error) => result matches Err(answer) && answer == error,
                Ok(inserted) => if rows.len() == 0 {
                    result == Ok::<usize, CopyTargetError>(inserted)
                } else {
                    is_total_result(target, inserted, rows, dispatch, result)
                },
            }
        };
    let inserted = local->Ok_0;
    if has_local_rows(entries) {
        let i = choose|i: int|
            {
                &&& 0 <= i < entries.len()
                &&& (#[trigger] entries[i]).0@ == CopyDestinationView::Local
                &&& call_ensures(insert_local, (&entries[i].1.encoded_rows, timeout), local)
            };
        assert(entries[i].0@ is Local);
    }
    assert(local_count(target, entries, default_timeout, insert_local, inserted));
    if rows.len() == 0 {
        if has_remote_rows(entries) {
            let i = choose|i: int|
                0 <= i < entries.len() && (#[trigger] entries[i]).0@ is Replicaset;
            assert(has_view(rows, entries[i]));
        }
        (inserted, 0)
    } else {
        let remote = choose|remote: Result<usize, CopyTargetError>|
            {
                &&& #[trigger] is_remote_result(target, rows, dispatch, remote)
                &&& match remote {
                    Err(error) => result matches Err(answer) && answer == error,
                    Ok(sent) => result matches Ok(whole) && whole == crate::tuples::counted(
                        inserted + sent,
                    ),
                }
            };
        let sent = remote->Ok_0;
        lemma_dispatched(target, entries, dispatch, remote);
        assert(has_source(entries, rows[0]));
        assert(has_remote_rows(entries));
        (inserted, sent)
    }
}

/// No waiting row is dropped unwritten. Where all rows are written, those for this instance were
/// inserted, where any wait for it, and those for other replicasets were sent, where any wait for
/// one, whatever waits for this instance: in a request that has for each such replicaset its rows,
/// and no others. The number of rows that is reported is that of the one and of the other together,
/// as far as the machine can count.
pub proof fn law_no_row_is_dropped_unwritten<
    'a,
    V,
    C,
    I: FnOnce(&Vec<Vec<u8>>, u64) -> Result<usize, CopyTargetError>,
    D: FnOnce(&RemoteInsert<'a>) -> Result<usize, CopyTargetError>,
>(
    target: PreparedCopyTarget<V, C>,
    entries: Seq<DestinationEntry>,
    default_timeout: u64,
    insert_local: I,
    dispatch: D,
    total: usize,
)
    requires
        entries_wf(entries),
        is_rows_result(target, entries, default_timeout, insert_local, dispatch, Ok(total)),
    ensures
        exists|local: usize, sent: usize|
            {
                &&& #[trigger] local_count(target, entries, default_timeout, insert_local, local)
                &&& #[trigger] remote_count(target, entries, dispatch, sent)
                &&& total == if local + sent <= usize::MAX {
                    local + sent
                } else {
                    usize::MAX as int
                }
            },
{
    let counts = lemma_counts_of_written_rows(
        target,
        entries,
        default_timeout,
        insert_local,
        dispatch,
        total,
    );
    assert(local_count(target, entries, default_timeout, insert_local, counts.0));
    assert(remote_count(target, entries, dispatch, counts.1));
}

proof fn lemma_dispatched<
    'a,
    V,
    C,
    D: FnOnce(&RemoteInsert<'a>) -> Result<usize, CopyTargetError>,
>(
    target: PreparedCopyTarget<V, C>,
    entries: Seq<DestinationEntry>,
    dispatch: D,
    remote: Result<usize, CopyTargetError>,
)
    requires
        entries_wf(entries),
        is_remote_result(target, remote_rows(entries), dispatch, remote),
    ensures
        target.routing is Sharded ==> all_dispatched(target, entries, dispatch, remote),
        target.routing is Local ==> remote is Err,
{
    if let CopyRouting::Sharded(routing) = target.routing {
        let request = choose|request: RemoteInsert<'a>|
            {
                &&& #[trigger] call_ensures(dispatch, (&request,), remote)
                &&& is_request_for(target, routing, remote_rows(entries), request)
                &&& crate::storage::target::is_random_uuid(smol_text(request.core.request_id))
            };
        lemma_batches(request.batches@, entries);
        assert(call_ensures(dispatch, (&request,), remote));
    }
}

/// How many rows batches have together.
pub open spec fn rows_in<'a>(batches: Seq<RemoteBatch<'a>>) -> int
    decreases batches.len(),
{
    if batches.len() == 0 {
        0
    } else {
        rows_in(batches.drop_last()) + batches.last().encoded_rows@.len()
    }
}

spec fn rows_in_views(views: Seq<RemoteBatchView>) -> int
    decreases views.len(),
{
    if views.len() == 0 {
        0
    } else {
        rows_in_views(views.drop_last()) + views.last().encoded_rows.len()
    }
}

proof fn lemma_rows_in<'a>(batches: Seq<RemoteBatch<'a>>)
    ensures
        rows_in(batches) == rows_in_views(remote_views(batches)),
    decreases batches.len(),
{
    if batches.len() > 0 {
        lemma_rows_in(batches.drop_last());
        assert(remote_views(batches).drop_last() =~= remote_views(batches.drop_last()));
        assert(remote_views(batches).last() == batches.last()@);
    }
}

/// All rows are those for this instance and those for others.
proof fn lemma_row_count(entries: Seq<DestinationEntry>)
    requires
        entries_wf(entries),
    ensures
        !has_local_rows(entries) ==> row_count(entries) == rows_in_views(remote_rows(entries)),
        forall|i: int|
            0 <= i < entries.len() && (#[trigger] entries[i]).0@ == CopyDestinationView::Local
                ==> row_count(entries) == entries[i].1.encoded_rows@.len() + rows_in_views(
                remote_rows(entries),
            ),
        remote_rows(entries).len() == 0 ==> rows_in_views(remote_rows(entries)) == 0,
    decreases entries.len(),
{
    if entries.len() > 0 {
        let fewer = entries.drop_last();
        let last = entries.len() - 1;
        lemma_fewer_wf(entries);
        lemma_row_count(fewer);
        if has_local_rows(fewer) {
            let i = choose|i: int|
                0 <= i < fewer.len() && (#[trigger] fewer[i]).0@ == CopyDestinationView::Local;
            assert(entries[i].0@ == CopyDestinationView::Local);
            assert(entries[i].0@ != entries[last].0@);
        }
        if entries[last].0@ is Replicaset {
            let views = remote_rows(entries);
            assert(views.drop_last() =~= remote_rows(fewer));
        }
        assert forall|i: int| 0 <= i < entries.len() && (#[trigger] entries[i]).0@
            == CopyDestinationView::Local implies row_count(entries)
            == entries[i].1.encoded_rows@.len() + rows_in_views(remote_rows(entries)) by {
            if i < last {
                assert(fewer[i].0@ == CopyDestinationView::Local);
                assert(entries[i].0@ != entries[last].0@);
            } else {
                if has_local_rows(fewer) {
                    let k = choose|k: int|
                        0 <= k < fewer.len() && (#[trigger] fewer[k]).0@
                            == CopyDestinationView::Local;
                    assert(entries[k].0@ != entries[last].0@);
                }
            }
        }
    }
}

/// Where those who insert rows and those who send them report every row that they get, the number
/// that is reported for all rows is the number of those that waited.
pub proof fn law_every_row_is_reported<
    'a,
    V,
    C,
    I: FnOnce(&Vec<Vec<u8>>, u64) -> Result<usize, CopyTargetError>,
    D: FnOnce(&RemoteInsert<'a>) -> Result<usize, CopyTargetError>,
>(
    target: PreparedCopyTarget<V, C>,
    entries: Seq<DestinationEntry>,
    default_timeout: u64,
    insert_local: I,
    dispatch: D,
    total: usize,
)
    requires
        entries_wf(entries),
        row_count(entries) <= usize::MAX,
        is_rows_result(target, entries, default_timeout, insert_local, dispatch, Ok(total)),
        forall|rows: &Vec<Vec<u8>>, timeout: u64, count: usize| #[trigger]
            call_ensures(insert_local, (rows, timeout), Ok(count)) ==> count == rows@.len(),
        forall|request: RemoteInsert<'a>, count: usize| #[trigger]
            call_ensures(dispatch, (&request,), Ok(count)) ==> count == rows_in(
                request.batches@,
            ),
    ensures
        total == row_count(entries),
{
    let timeout = target.local_timeout(default_timeout);
    let rows = remote_rows(entries);
    lemma_row_count(entries);
    let result = Ok::<usize, CopyTargetError>(total);
    let local = choose|local: Result<usize, CopyTargetError>|
        {
            &&& #[trigger] is_local_result(entries, timeout, insert_local, local)
            &&& match local {
                Err(error) => result matches Err(answer) && answer == error,
                Ok(inserted) => if rows.len() == 0 {
                    result == Ok::<usize, CopyTargetError>(inserted)
                } else {
                    is_total_result(target, inserted, rows, dispatch, result)
                },
            }
        };
    let inserted = local->Ok_0;
    if has_local_rows(entries) {
        let i = choose|i: int|
            {
                &&& 0 <= i < entries.len()
                &&& (#[trigger] entries[i]).0@ == CopyDestinationView::Local
                &&& call_ensures(insert_local, (&entries[i].1.encoded_rows, timeout), local)
            };
        assert(call_ensures(insert_local, (&entries[i].1.encoded_rows, timeout), Ok(inserted)));
        assert(inserted == entries[i].1.encoded_rows@.len());
    }
    if rows.len() > 0 {
        let remote = choose|remote: Result<usize, CopyTargetError>|
            {
                &&& #[trigger] is_remote_result(target, rows, dispatch, remote)
                &&& match remote {
                    Err(error) => result matches Err(answer) && answer == error,
                    Ok(sent) => result matches Ok(whole) && whole == crate::tuples::counted(
                        inserted + sent,
                    ),
                }
            };
        let sent = remote->Ok_0;
        if let CopyRouting::Sharded(routing) = target.routing {
            let request = choose|request: RemoteInsert<'a>|
                {
                    &&& #[trigger] call_ensures(dispatch, (&request,), remote)
                    &&& is_request_for(target, routing, rows, request)
                    &&& crate::storage::target::is_random_uuid(smol_text(request.core.request_id))
                };
            assert(call_ensures(dispatch, (&request,), Ok(sent)));
            lemma_rows_in(request.batches@);
        }
    }
}

/// Where the rows are not all written, the error is that of the insert on this instance, that of
/// the request to the others, or that a table which is not distributed has rows for others.
pub proof fn law_failed_write_is_told<
    'a,
    V,
    C,
    I: FnOnce(&Vec<Vec<u8>>, u64) -> Result<usize, CopyTargetError>,
    D: FnOnce(&RemoteInsert<'a>) -> Result<usize, CopyTargetError>,
>(
    target: PreparedCopyTarget<V, C>,
    entries: Seq<DestinationEntry>,
    default_timeout: u64,
    insert_local: I,
    dispatch: D,
    error: CopyTargetError,
)
    requires
        entries_wf(entries),
        is_rows_result(target, entries, default_timeout, insert_local, dispatch, Err(error)),
    ensures
        all_inserted(target, entries, default_timeout, insert_local, Err(error)) || (
        has_remote_rows(entries) && match target.routing {
            CopyRouting::Sharded(_) => all_dispatched(target, entries, dispatch, Err(error)),
            CopyRouting::Local => error@ == CopyTargetErrorView::Internal(
                "remote COPY batch requires sharded routing"@,
            ),
        }),
{
    let timeout = target.local_timeout(default_timeout);
    let rows = remote_rows(entries);
    lemma_remote_rows(entries);
    let result = Err::<usize, CopyTargetError>(error);
    let local = choose|local: Result<usize, CopyTargetError>|
        {
            &&& #[trigger] is_local_result(entries, timeout, insert_local, local)
            &&& match local {
                Err(error) => result matches Err(answer) && answer == error,
                Ok(inserted) => if rows.len() == 0 {
                    result == Ok::<usize, CopyTargetError>(inserted)
                } else {
                    is_total_result(target, inserted, rows, dispatch, result)
                },
            }
        };
    if local is Err {
        let i = choose|i: int|
            {
                &&& 0 <= i < entries.len()
                &&& (#[trigger] entries[i]).0@ == CopyDestinationView::Local
                &&& call_ensures(insert_local, (&entries[i].1.encoded_rows, timeout), local)
            };
        assert(entries[i].0@ is Local);
        assert(local == result);
        assert(all_inserted(target, entries, default_timeout, insert_local, Err(error)));
    } else {
        let inserted = local->Ok_0;
        let remote = choose|remote: Result<usize, CopyTargetError>|
            {
                &&& #[trigger] is_remote_result(target, rows, dispatch, remote)
                &&& match remote {
                    Err(error) => result matches Err(answer) && answer == error,
                    Ok(sent) => result matches Ok(whole) && whole == crate::tuples::counted(
                        inserted + sent,
                    ),
                }
            };
        assert(remote == result);
        lemma_dispatched(target, entries, dispatch, remote);
        assert(has_source(entries, rows[0]));
        assert(has_remote_rows(entries));
    }
}

/// Whether a request has one batch: these rows for this replicaset.
pub open spec fn has_just<'a>(
    request: RemoteInsert<'a>,
    name: Seq<char>,
    rows: Seq<Vec<u8>>,
) -> bool {
    &&& request.batches@.len() == 1
    &&& request.batches@[0].replicaset_uuid@ == name
    &&& same_rows(request.batches@[0].encoded_rows@, rows)
}

/// The rows for one destination are written there: those for this instance by the one insert, and
/// those for a replicaset in a request that has these rows for that replicaset, and nothing else.
/// What was answered is the result. No rows are nothing to write.
pub proof fn law_rows_of_a_destination_go_there<
    'a,
    V,
    C,
    I: FnOnce(&Vec<Vec<u8>>, u64) -> Result<usize, CopyTargetError>,
    D: FnOnce(&RemoteInsert<'a>) -> Result<usize, CopyTargetError>,
>(
    target: PreparedCopyTarget<V, C>,
    destination: CopyDestinationView,
    rows: Vec<Vec<u8>>,
    default_timeout: u64,
    insert_local: I,
    dispatch: D,
    result: Result<usize, CopyTargetError>,
)
    requires
        is_batch_result(
            target,
            destination,
            rows,
            default_timeout,
            insert_local,
            dispatch,
            result,
        ),
    ensures
        rows@.len() == 0 ==> result == Ok::<usize, CopyTargetError>(0),
        rows@.len() > 0 ==> match destination {
            CopyDestinationView::Local => call_ensures(
                insert_local,
                (
                    &rows,
                    match target.routing {
                        CopyRouting::Local => default_timeout,
                        CopyRouting::Sharded(routing) => routing.dispatch_timeout,
                    },
                ),
                result,
            ),
            CopyDestinationView::Replicaset(name) => match target.routing {
                CopyRouting::Local => result matches Err(error) && error@
                    == CopyTargetErrorView::Internal("remote COPY batch requires sharded routing"@),
                CopyRouting::Sharded(_) => exists|request: RemoteInsert<'a>|
                    {
                        &&& #[trigger] call_ensures(dispatch, (&request,), result)
                        &&& is_for_table(target, request)
                        &&& has_just(request, name, rows@)
                    },
            },
        },
{
    if rows@.len() > 0 {
        if let CopyDestinationView::Replicaset(name) = destination {
            if let CopyRouting::Sharded(routing) = target.routing {
                let views = seq![
                    RemoteBatchView { replicaset_uuid: name, encoded_rows: tuple_views(rows@) },
                ];
                let request = choose|request: RemoteInsert<'a>|
                    {
                        &&& #[trigger] call_ensures(dispatch, (&request,), result)
                        &&& is_request_for(target, routing, views, request)
                        &&& crate::storage::target::is_random_uuid(
                            smol_text(request.core.request_id),
                        )
                    };
                let batches = request.batches@;
                assert(remote_views(batches).len() == 1);
                assert(remote_views(batches)[0] == batches[0]@);
                lemma_same_rows(batches[0].encoded_rows@, rows@);
                assert(call_ensures(dispatch, (&request,), result));
            }
        }
    }
}

/// A row goes to where its bucket is found, once the routing is known to be up to date; without a
/// bucket, or where none is found, it goes nowhere. Rows of a table that is not distributed stay on
/// this instance, whatever their bucket.
pub proof fn law_rows_go_where_their_bucket_is<
    R: FnOnce() -> Result<(), CopyTargetError>,
    L: FnOnce(u64) -> Option<CopyDestination>,
>(
    routing: CopyRouting,
    bucket_id: Option<u64>,
    ensure_current: R,
    lookup: L,
    result: Result<CopyDestination, CopyTargetError>,
)
    requires
        is_destination_of(routing, bucket_id, ensure_current, lookup, result),
    ensures
        match routing {
            CopyRouting::Local => result matches Ok(place) && place@ is Local,
            CopyRouting::Sharded(sharded) => match bucket_id {
                None => result matches Err(error) && error@ == CopyTargetErrorView::MissingBucketId,
                Some(id) => match result {
                    Ok(place) => call_ensures(lookup, (id,), Some(place)) && passes(
                        ensure_current,
                    ),
                    Err(error) => call_ensures(ensure_current, (), Err(error)) || (call_ensures(
                        lookup,
                        (id,),
                        None,
                    ) && passes(ensure_current) && error@
                        == CopyTargetErrorView::MissingBucketRoute {
                        tier_name: smol_text(sharded.tier_name),
                        bucket_id: id,
                    }),
                },
            },
        },
{
    if let CopyRouting::Sharded(sharded) = routing {
        if let Some(id) = bucket_id {
            let check = choose|check: Result<(), CopyTargetError>|
                {
                    &&& #[trigger] call_ensures(ensure_current, (), check)
                    &&& match check {
                        Err(error) => result == Err::<CopyDestination, CopyTargetError>(error),
                        Ok(_) => match result {
                            Ok(destination) => call_ensures(lookup, (id,), Some(destination)),
                            Err(error) => call_ensures(lookup, (id,), None) && error@
                                == CopyTargetErrorView::MissingBucketRoute {
                                tier_name: smol_text(sharded.tier_name),
                                bucket_id: id,
                            },
                        },
                    }
                };
            assert(call_ensures(ensure_current, (), check));
        }
    }
}

/// Whether a check can have nothing against what it is asked about.
pub open spec fn passes<R: FnOnce() -> Result<(), CopyTargetError>>(check: R) -> bool {
    exists|answer: Result<(), CopyTargetError>| #[trigger]
        call_ensures(check, (), answer) && answer is Ok
}

/// A prepared row has the bytes that were encoded for its bucket, and goes to where that bucket is.
pub proof fn law_prepared_row_has_its_bytes_and_place<
    V,
    C,
    W: FnOnce(Option<u64>) -> Result<Vec<u8>, SbroadError>,
    R: FnOnce() -> Result<(), CopyTargetError>,
    L: FnOnce(u64) -> Option<CopyDestination>,
>(
    target: PreparedCopyTarget<V, C>,
    bucket_id: Option<u64>,
    write_args: W,
    ensure_current: R,
    lookup: L,
    row: PendingCopyRow,
)
    requires
        is_row_of_bucket(target, bucket_id, write_args, ensure_current, lookup, Ok(row)),
    ensures
        is_encoded_row(target.insert, bucket_id, write_args, Ok(row.encoded_row)),
        is_destination_of(
            target.routing,
            bucket_id,
            ensure_current,
            lookup,
            Ok(row.destination),
        ),
{
    let result = Ok::<PendingCopyRow, CopyTargetError>(row);
    let encoded = choose|encoded: Result<Vec<u8>, SbroadError>|
        {
            &&& #[trigger] is_encoded_row(target.insert, bucket_id, write_args, encoded)
            &&& match encoded {
                Ok(encoded_row) => is_placed_row(
                    target.routing,
                    bucket_id,
                    encoded_row,
                    ensure_current,
                    lookup,
                    result,
                ),
                Err(error) => result matches Err(answer) && answer == CopyTargetError::Storage(
                    error,
                ),
            }
        };
    let bytes = encoded->Ok_0;
    let destination = choose|destination: Result<CopyDestination, CopyTargetError>|
        {
            &&& #[trigger] is_destination_of(
                target.routing,
                bucket_id,
                ensure_current,
                lookup,
                destination,
            )
            &&& match destination {
                Ok(place) => result matches Ok(row) && row.destination == place && row.encoded_row
                    == bytes,
                Err(error) => result matches Err(answer) && answer == error,
            }
        };
    assert(destination == Ok::<CopyDestination, CopyTargetError>(row.destination));
}

/// A row that is not prepared could not be encoded, and is told with the error of the planner that
/// says why; or it was encoded, and the place of its bucket was not found, for the reason told.
pub proof fn law_unprepared_row_is_told<
    V,
    C,
    W: FnOnce(Option<u64>) -> Result<Vec<u8>, SbroadError>,
    R: FnOnce() -> Result<(), CopyTargetError>,
    L: FnOnce(u64) -> Option<CopyDestination>,
>(
    target: PreparedCopyTarget<V, C>,
    bucket_id: Option<u64>,
    write_args: W,
    ensure_current: R,
    lookup: L,
    error: CopyTargetError,
)
    requires
        is_row_of_bucket(target, bucket_id, write_args, ensure_current, lookup, Err(error)),
    ensures
        (error matches CopyTargetError::Storage(inner) && call_ensures(
            write_args,
            (bucket_id,),
            Err(inner),
        )) || ((exists|args: Vec<u8>| #[trigger]
            call_ensures(write_args, (bucket_id,), Ok(args))) && is_destination_of(
            target.routing,
            bucket_id,
            ensure_current,
            lookup,
            Err(error),
        )),
{
    let result = Err::<PendingCopyRow, CopyTargetError>(error);
    let encoded = choose|encoded: Result<Vec<u8>, SbroadError>|
        {
            &&& #[trigger] is_encoded_row(target.insert, bucket_id, write_args, encoded)
            &&& match encoded {
                Ok(encoded_row) => is_placed_row(
                    target.routing,
                    bucket_id,
                    encoded_row,
                    ensure_current,
                    lookup,
                    result,
                ),
                Err(inner) => error == CopyTargetError::Storage(inner),
            }
        };
    law_encoded_row_is_header_and_parts(target.insert, bucket_id, write_args, encoded);
}

/// A table is ready to be written to only where it is operable and, if it is distributed, its
/// routing is up to date; otherwise the first of these checks that fails is told.
pub proof fn law_only_a_ready_table_is_written_to<
    V,
    C,
    K: FnOnce(u32) -> Result<(), CopyTargetError>,
    R: FnOnce() -> Result<(), CopyTargetError>,
>(
    target: PreparedCopyTarget<V, C>,
    check_operable: K,
    ensure_current: R,
    result: Result<(), CopyTargetError>,
)
    requires
        is_ready_check(target, check_operable, ensure_current, result),
    ensures
        match result {
            Ok(_) => operable(target, check_operable) && (target.routing is Sharded ==> passes(
                ensure_current,
            )),
            Err(error) => call_ensures(check_operable, (target.table_id,), Err(error)) || (operable(
                target,
                check_operable,
            ) && target.routing is Sharded && call_ensures(ensure_current, (), Err(error))),
        },
{
    let check = choose|check: Result<(), CopyTargetError>|
        {
            &&& #[trigger] call_ensures(check_operable, (target.table_id,), check)
            &&& match check {
                Ok(_) => crate::storage::target::is_routing_check(
                    target.routing,
                    ensure_current,
                    result,
                ),
                Err(error) => result matches Err(answer) && answer == error,
            }
        };
    assert(call_ensures(check_operable, (target.table_id,), check));
    if target.routing is Sharded && check is Ok {
        assert(call_ensures(ensure_current, (), result));
    }
}

/// Whether a check can have nothing against writing to a table.
pub open spec fn operable<V, C, K: FnOnce(u32) -> Result<(), CopyTargetError>>(
    target: PreparedCopyTarget<V, C>,
    check_operable: K,
) -> bool {
    exists|answer: Result<(), CopyTargetError>| #[trigger]
        call_ensures(check_operable, (target.table_id,), answer) && answer is Ok
}

}
