//! What holds of a whole session, whatever events it goes through.
use crate::ascii::{escaped_at, CARRIAGE_RETURN, LINE_FEED};
use crate::errors::PgErrorView;
use crate::pgproto::record::{
    ending_len, ends_with_cr, exceeds_limit, first_end, last_in, next_in, open_record_len, style_at,
    EolStyle,
};
use crate::pgproto::row_laws::{
    joined, law_joined_fields_are_found_again, law_written_row_is_one_line,
    law_written_row_reads_back, law_written_value_is_self_contained, plain_delimiter,
    self_contained, unmarked, written, written_field, written_fields,
};
use crate::pgproto::session::{
    adding_effect, data_effect, done_effect, encoded_effect, fields_of, flushed_effect,
    fresh_state, reading_effect, record_effect, CopyActionView, CopyFieldView, CopySettings,
    CopyState, SessionPhase, StepView,
};
use crate::pgproto::stream::{
    complete_records, has_long_record, law_limit_check_is_exact, law_pieces_do_not_matter,
    law_written_lines_are_found_again, lemma_first_end, line_styles, lines, open_part,
    stream_records, stream_styles,
};
use crate::tuples::{counted, total_len};
use vstd::prelude::*;

verus! {

/// What happens to a session.
pub enum SessionEvent {
    /// The client sends data.
    Data(Seq<u8>),
    /// The client has sent all its data.
    Done,
    /// A row was encoded.
    Encoded(Seq<u8>),
    /// The batch was written, and so many rows of it are new.
    Flushed(nat),
}

/// What an event finds a session waiting for.
pub open spec fn awaited_by(event: SessionEvent) -> SessionPhase {
    match event {
        SessionEvent::Data(_) => SessionPhase::Reading,
        SessionEvent::Done => SessionPhase::Reading,
        SessionEvent::Encoded(_) => SessionPhase::Encoding,
        SessionEvent::Flushed(_) => SessionPhase::Flushing,
    }
}

/// What comes of an event that a session waits for.
pub open spec fn event_step(
    settings: CopySettings,
    state: CopyState,
    event: SessionEvent,
) -> StepView {
    match event {
        SessionEvent::Data(data) => data_effect(settings, state, data),
        SessionEvent::Done => done_effect(settings, state),
        SessionEvent::Encoded(tuple) => encoded_effect(settings, state, tuple),
        SessionEvent::Flushed(inserted) => flushed_effect(settings, state, inserted as int),
    }
}

/// What an event does to a session that waits for it and does not fail.
pub open spec fn event_effect(
    settings: CopySettings,
    state: CopyState,
    event: SessionEvent,
) -> Option<(CopyState, CopyActionView)> {
    if state.phase != awaited_by(event) {
        None
    } else {
        match event_step(settings, state, event) {
            Ok(done) => Some(done),
            Err(_) => None,
        }
    }
}

/// What has come of a session so far.
#[verifier::ext_equal]
pub struct SessionRun {
    pub state: CopyState,
    /// All data that the client has sent.
    pub data: Seq<u8>,
    /// The rows that were given out to be encoded.
    pub rows: Seq<Seq<CopyFieldView>>,
    /// The rows that came back encoded.
    pub encoded: Seq<Seq<u8>>,
    /// The encoded rows of the batches that were written.
    pub written: Seq<Seq<u8>>,
    /// How many new rows the writes have reported.
    pub reported: nat,
}

/// What has come of a session after one more event.
pub open spec fn run_step(
    before: SessionRun,
    event: SessionEvent,
    state: CopyState,
    action: CopyActionView,
) -> SessionRun {
    SessionRun {
        state,
        data: match event {
            SessionEvent::Data(data) => before.data + data,
            _ => before.data,
        },
        rows: match action {
            CopyActionView::EncodeRow(fields) => before.rows.push(fields),
            _ => before.rows,
        },
        encoded: match event {
            SessionEvent::Encoded(tuple) => before.encoded.push(tuple),
            _ => before.encoded,
        },
        written: match event {
            SessionEvent::Flushed(_) => before.written + before.state.batch,
            _ => before.written,
        },
        reported: match event {
            SessionEvent::Flushed(inserted) => before.reported + inserted,
            _ => before.reported,
        },
    }
}

/// What comes of a session that goes through events, each of which it waits for, and does not
/// fail.
pub open spec fn run(settings: CopySettings, events: Seq<SessionEvent>) -> Option<SessionRun>
    decreases events.len(),
{
    if events.len() == 0 {
        Some(
            SessionRun {
                state: fresh_state(),
                data: seq![],
                rows: seq![],
                encoded: seq![],
                written: seq![],
                reported: 0,
            },
        )
    } else {
        match run(settings, events.drop_last()) {
            None => None,
            Some(before) => match event_effect(settings, before.state, events.last()) {
                None => None,
                Some((state, action)) => Some(run_step(before, events.last(), state, action)),
            },
        }
    }
}

/// The encoded rows that a session holds, in the order in which they will be written.
pub open spec fn held_rows(state: CopyState) -> Seq<Seq<u8>> {
    match state.held {
        Some(tuple) => state.batch.push(tuple),
        None => state.batch,
    }
}

/// Reading on touches neither the batch nor what is held.
proof fn lemma_reading_keeps_rows(settings: CopySettings, state: CopyState)
    ensures
        reading_effect(settings, state) matches Ok((next, action)) ==> {
            &&& next.batch == state.batch
            &&& next.held == state.held
            &&& next.inserted_rows == state.inserted_rows
            &&& next.finishing == state.finishing
            &&& action is AwaitData ==> next.phase == SessionPhase::Reading
            &&& action is EncodeRow ==> next.phase == SessionPhase::Encoding
            &&& action is AwaitData || action is EncodeRow
        },
        reading_effect(settings, state) matches Err((next, _)) ==> {
            &&& next.phase == SessionPhase::Failed
            &&& next.batch == state.batch
            &&& next.held == state.held
            &&& next.inserted_rows == state.inserted_rows
        },
    decreases state.unread.len(),
{
    lemma_first_end(state.unread, 0);
    if let Ok(Some(cut)) = next_in(state.unread, state.eol_style) {
        let rest = CopyState { unread: cut.rest, eol_style: cut.style, ..state };
        if let Ok((next, None)) = record_effect(settings, rest, cut.record) {
            lemma_reading_keeps_rows(settings, next);
        }
    }
}

/// Whether nothing is held but behind a batch that is being written, and nothing is left at the
/// end.
pub open spec fn rows_wf(state: CopyState) -> bool {
    &&& state.held is Some ==> state.phase == SessionPhase::Flushing
    &&& state.phase == SessionPhase::Completed ==> state.batch.len() == 0
}

/// The encoded rows that a session holds behind an event.
pub open spec fn rows_behind(state: CopyState, event: SessionEvent) -> Seq<Seq<u8>> {
    match event {
        SessionEvent::Encoded(tuple) => held_rows(state).push(tuple),
        SessionEvent::Flushed(_) => held_rows(state).skip(state.batch.len() as int),
        _ => held_rows(state),
    }
}

/// An error loses no encoded row and no count: a session that an event ends with an error holds the
/// rows that it held and the one that came with the event, but for those that the event says were
/// written, and has counted what was written.
pub proof fn law_failure_keeps_rows(settings: CopySettings, state: CopyState, event: SessionEvent)
    requires
        state.phase == awaited_by(event),
        rows_wf(state),
    ensures
        event_step(settings, state, event) matches Err((after, _)) ==> {
            &&& after.phase == SessionPhase::Failed
            &&& held_rows(after) == rows_behind(state, event)
            &&& after.inserted_rows == state.inserted_rows + match event {
                SessionEvent::Flushed(inserted) => inserted as int,
                _ => 0,
            }
        },
{
    match event {
        SessionEvent::Data(data) => {
            lemma_reading_keeps_rows(settings, CopyState { unread: state.unread + data, ..state });
        },
        SessionEvent::Done => {},
        SessionEvent::Encoded(tuple) => {
            lemma_reading_keeps_rows(
                settings,
                CopyState { batch: state.batch.push(tuple), held: None, ..state },
            );
        },
        SessionEvent::Flushed(inserted) => {
            let emptied = CopyState {
                batch: seq![],
                inserted_rows: state.inserted_rows + inserted,
                ..state
            };
            lemma_reading_keeps_rows(settings, emptied);
            match state.held {
                Some(tuple) => {
                    lemma_reading_keeps_rows(
                        settings,
                        CopyState { batch: emptied.batch.push(tuple), held: None, ..emptied },
                    );
                    assert(rows_behind(state, event) =~= emptied.batch.push(tuple));
                },
                None => {
                    assert(rows_behind(state, event) =~= emptied.batch);
                },
            }
        },
    }
}

/// Every encoded row is written once, and the rows are written in the order in which they were
/// encoded: what was written and what the session holds are together what was encoded. Once a
/// session is complete, all is written, and the number of rows that the client is told is the one
/// that the writes have reported.
pub proof fn law_rows_are_written_once_in_order(
    settings: CopySettings,
    events: Seq<SessionEvent>,
)
    requires
        run(settings, events) is Some,
    ensures
        ({
            let after = run(settings, events)->0;
            &&& after.written + held_rows(after.state) == after.encoded
            &&& after.state.inserted_rows == after.reported
            &&& after.rows.len() == after.encoded.len() + if after.state.phase
                == SessionPhase::Encoding {
                1int
            } else {
                0
            }
            &&& rows_wf(after.state)
            &&& after.state.phase == SessionPhase::Completed ==> after.written == after.encoded
        }),
    decreases events.len(),
{
    let after = run(settings, events)->0;
    if events.len() == 0 {
        assert(after.written + held_rows(after.state) =~= after.encoded);
    } else {
        law_rows_are_written_once_in_order(settings, events.drop_last());
        let before = run(settings, events.drop_last())->0;
        let state = before.state;
        match events.last() {
            SessionEvent::Data(data) => {
                lemma_reading_keeps_rows(
                    settings,
                    CopyState { unread: state.unread + data, ..state },
                );
            },
            SessionEvent::Done => {},
            SessionEvent::Encoded(tuple) => {
                let added = CopyState { batch: state.batch.push(tuple), held: None, ..state };
                lemma_reading_keeps_rows(settings, added);
                assert(before.written + state.batch.push(tuple) =~= (before.written
                    + state.batch).push(tuple));
            },
            SessionEvent::Flushed(inserted) => {
                let emptied = CopyState {
                    batch: seq![],
                    inserted_rows: state.inserted_rows + inserted,
                    ..state
                };
                lemma_reading_keeps_rows(settings, emptied);
                match state.held {
                    Some(tuple) => {
                        let added = CopyState {
                            batch: emptied.batch.push(tuple),
                            held: None,
                            ..emptied
                        };
                        lemma_reading_keeps_rows(settings, added);
                        assert(before.written + state.batch + emptied.batch.push(tuple)
                            =~= before.written + state.batch.push(tuple));
                    },
                    None => {
                        assert(before.written + state.batch + emptied.batch =~= before.written
                            + state.batch);
                    },
                }
            },
        }
    }
    if after.state.phase == SessionPhase::Completed {
        assert(after.written + held_rows(after.state) =~= after.written);
    }
}

/// Whether a batch that is to be written has rows, no more than the settings say, and no more
/// bytes than they say unless it is a single row; and whether a batch that waits has fewer.
pub open spec fn within_limits(settings: CopySettings, state: CopyState) -> bool {
    let rows = state.batch.len();
    let bytes = counted(total_len(state.batch));
    if state.phase == SessionPhase::Flushing {
        &&& rows > 0
        &&& rows == 1 || rows <= settings.batch_size
        &&& rows == 1 || bytes <= settings.batch_byte_limit
    } else {
        rows == 0 || (rows < settings.batch_size && bytes < settings.batch_byte_limit)
    }
}

/// No batch is written empty, none with more rows than the settings say, and none with more bytes
/// unless it is a single row.
pub proof fn law_batches_keep_the_limits(settings: CopySettings, events: Seq<SessionEvent>)
    requires
        run(settings, events) is Some,
    ensures
        within_limits(settings, run(settings, events)->0.state),
    decreases events.len(),
{
    if events.len() > 0 {
        law_batches_keep_the_limits(settings, events.drop_last());
        law_rows_are_written_once_in_order(settings, events.drop_last());
        let state = run(settings, events.drop_last())->0.state;
        match events.last() {
            SessionEvent::Data(data) => {
                lemma_reading_keeps_rows(
                    settings,
                    CopyState { unread: state.unread + data, ..state },
                );
            },
            SessionEvent::Done => {},
            SessionEvent::Encoded(tuple) => {
                lemma_adding_keeps_the_limits(settings, state, tuple);
            },
            SessionEvent::Flushed(inserted) => {
                let emptied = CopyState {
                    batch: seq![],
                    inserted_rows: state.inserted_rows + inserted,
                    ..state
                };
                lemma_reading_keeps_rows(settings, emptied);
                if let Some(tuple) = state.held {
                    lemma_adding_keeps_the_limits(settings, emptied, tuple);
                }
            },
        }
    }
}

proof fn lemma_adding_keeps_the_limits(settings: CopySettings, state: CopyState, tuple: Seq<u8>)
    requires
        state.batch.len() == 0 || (state.batch.len() < settings.batch_size && counted(
            total_len(state.batch) + tuple.len(),
        ) <= settings.batch_byte_limit) || state.phase == SessionPhase::Encoding,
        state.phase == SessionPhase::Encoding ==> within_limits(settings, state),
    ensures
        state.phase == SessionPhase::Encoding ==> (encoded_effect(settings, state, tuple) matches
            Ok((next, _)) ==> within_limits(settings, next)),
        state.batch.len() == 0 ==> (adding_effect(settings, state, tuple) matches Ok((next, _))
            ==> within_limits(settings, next)),
{
    let added = CopyState { batch: state.batch.push(tuple), held: None, ..state };
    assert(added.batch.drop_last() =~= state.batch);
    lemma_reading_keeps_rows(settings, added);
}

/// The records that are rows: all but the header, where there is one.
pub open spec fn row_records(settings: CopySettings, records: Seq<Seq<u8>>) -> Seq<Seq<u8>> {
    if settings.header && records.len() > 0 {
        records.skip(1)
    } else {
        records
    }
}

/// Whether rows are the fields of records, one by one.
pub open spec fn are_fields_of(
    settings: CopySettings,
    rows: Seq<Seq<CopyFieldView>>,
    records: Seq<Seq<u8>>,
) -> bool {
    &&& rows.len() == records.len()
    &&& forall|i: int|
        0 <= i < rows.len() ==> fields_of(settings, #[trigger] records[i]) == Ok::<
            Seq<CopyFieldView>,
            PgErrorView,
        >(rows[i])
}

/// Whether no record is longer than the limit.
pub open spec fn all_short(records: Seq<Seq<u8>>, limit: nat) -> bool {
    forall|i: int| 0 <= i < records.len() ==> (#[trigger] records[i]).len() <= limit
}

/// Whether all lines end in one way.
pub open spec fn all_in_style(styles: Seq<EolStyle>, style: EolStyle) -> bool {
    forall|i: int| 0 <= i < styles.len() ==> #[trigger] styles[i] == style
}

/// The first records of a stream, up to where the records of what is left of it begin.
pub open spec fn records_before(data: Seq<u8>, left: Seq<u8>) -> Seq<Seq<u8>> {
    complete_records(data).take(complete_records(data).len() - complete_records(left).len())
}

/// How the first lines of a stream end, up to where the lines of what is left of it begin.
pub open spec fn styles_before(data: Seq<u8>, left: Seq<u8>) -> Seq<EolStyle> {
    line_styles(data).take(line_styles(data).len() - line_styles(left).len())
}

/// Whether `left` is what is left of a stream behind some of its records.
pub open spec fn is_left_of(left: Seq<u8>, data: Seq<u8>) -> bool {
    &&& complete_records(left).len() <= complete_records(data).len()
    &&& complete_records(data) == records_before(data, left) + complete_records(left)
    &&& line_styles(left).len() <= line_styles(data).len()
    &&& line_styles(data) == styles_before(data, left) + line_styles(left)
    &&& open_part(data) == open_part(left)
}

proof fn lemma_left_of_step(data: Seq<u8>, left: Seq<u8>, rest: Seq<u8>, end: int)
    requires
        is_left_of(left, data),
        first_end(left, 0) == Some(end),
        rest == left.skip(
            end + ending_len(style_at(left, end)),
        ),
    ensures
        is_left_of(rest, data),
        records_before(data, rest) == records_before(data, left).push(left.take(end)),
        styles_before(data, rest) == styles_before(data, left).push(
            style_at(left, end),
        ),
{
    let style = style_at(left, end);
    assert(complete_records(left) == seq![left.take(end)] + complete_records(rest));
    assert(line_styles(left) == seq![style] + line_styles(rest));
    assert(records_before(data, rest) =~= records_before(data, left).push(left.take(end)));
    assert(styles_before(data, rest) =~= styles_before(data, left).push(style));
    assert(complete_records(data) =~= records_before(data, rest) + complete_records(rest));
    assert(line_styles(data) =~= styles_before(data, rest) + line_styles(rest));
}

/// What is read of the data before the end of it: `rows` are the fields of the records before what
/// is left, none of which is too long, and their lines end in one way.
pub open spec fn reads(
    settings: CopySettings,
    data: Seq<u8>,
    rows: Seq<Seq<CopyFieldView>>,
    state: CopyState,
) -> bool {
    let records = records_before(data, state.unread);
    &&& is_left_of(state.unread, data)
    &&& are_fields_of(settings, rows, row_records(settings, records))
    &&& state.skipped_header == (settings.header && records.len() > 0)
    &&& all_short(records, settings.record_byte_limit)
    &&& all_in_style(styles_before(data, state.unread), state.eol_style)
    &&& state.eol_style == EolStyle::Unknown <==> styles_before(data, state.unread).len() == 0
}

/// Reading on takes the records in order.
proof fn lemma_reading(
    settings: CopySettings,
    data: Seq<u8>,
    rows: Seq<Seq<CopyFieldView>>,
    state: CopyState,
)
    requires
        reads(settings, data, rows, state),
    ensures
        reading_effect(settings, state) matches Ok((next, action)) ==> {
            &&& action is AwaitData ==> reads(settings, data, rows, next) && first_end(
                next.unread,
                0,
            ) is None && open_record_len(next.unread) <= settings.record_byte_limit
            &&& action matches CopyActionView::EncodeRow(fields) ==> reads(
                settings,
                data,
                rows.push(fields),
                next,
            )
        },
    decreases state.unread.len(),
{
    lemma_first_end(state.unread, 0);
    if let Ok(Some(cut)) = next_in(state.unread, state.eol_style) {
        let end = first_end(state.unread, 0)->0;
        lemma_left_of_step(data, state.unread, cut.rest, end);
        let records = records_before(data, state.unread);
        let more = records_before(data, cut.rest);
        let rest = CopyState { unread: cut.rest, eol_style: cut.style, ..state };
        match record_effect(settings, rest, cut.record) {
            Ok((next, None)) => {
                assert(row_records(settings, more) =~= seq![]);
                assert(reads(settings, data, rows, next));
                lemma_reading(settings, data, rows, next);
            },
            Ok((next, Some(fields))) => {
                assert(row_records(settings, more) =~= row_records(settings, records).push(
                    cut.record,
                ));
                assert(reads(settings, data, rows.push(fields), next));
            },
            Err(_) => {},
        }
    }
}

/// What holds of the rows of a session and of the data they come from.
pub open spec fn rows_match_data(settings: CopySettings, after: SessionRun) -> bool {
    if after.state.finishing {
        &&& are_fields_of(
            settings,
            after.rows,
            row_records(settings, stream_records(after.data)),
        )
        &&& all_short(stream_records(after.data), settings.record_byte_limit)
        &&& all_in_style(stream_styles(after.data), after.state.eol_style)
    } else {
        &&& reads(settings, after.data, after.rows, after.state)
        &&& after.state.phase == SessionPhase::Reading ==> first_end(after.state.unread, 0) is None
            && open_record_len(after.state.unread) <= settings.record_byte_limit
        &&& after.state.phase != SessionPhase::Completed
    }
}

proof fn lemma_rows_match_data(settings: CopySettings, events: Seq<SessionEvent>)
    requires
        run(settings, events) is Some,
    ensures
        rows_match_data(settings, run(settings, events)->0),
    decreases events.len(),
{
    let after = run(settings, events)->0;
    if events.len() == 0 {
        assert(complete_records(seq![]) =~= seq![]);
        assert(line_styles(seq![]) =~= seq![]);
        assert(reads(settings, after.data, after.rows, after.state));
    } else {
        lemma_rows_match_data(settings, events.drop_last());
        lemma_phase_of_finishing(settings, events.drop_last());
        law_rows_are_written_once_in_order(settings, events.drop_last());
        let before = run(settings, events.drop_last())->0;
        let state = before.state;
        match events.last() {
            SessionEvent::Data(data) => {
                let fed = CopyState { unread: state.unread + data, ..state };
                lemma_reading_keeps_rows(settings, fed);
                lemma_data_is_read(settings, before, data);
                lemma_reading(settings, before.data + data, before.rows, fed);
            },
            SessionEvent::Done => {
                lemma_end_is_read(settings, before);
            },
            SessionEvent::Encoded(tuple) => {
                let added = CopyState { batch: state.batch.push(tuple), held: None, ..state };
                lemma_reading_keeps_rows(settings, added);
                if !state.finishing {
                    assert(reads(settings, before.data, before.rows, added));
                    lemma_reading(settings, before.data, before.rows, added);
                }
            },
            SessionEvent::Flushed(inserted) => {
                let emptied = CopyState {
                    batch: seq![],
                    inserted_rows: state.inserted_rows + inserted,
                    ..state
                };
                let added = match state.held {
                    Some(tuple) => CopyState {
                        batch: emptied.batch.push(tuple),
                        held: None,
                        ..emptied
                    },
                    None => emptied,
                };
                lemma_reading_keeps_rows(settings, added);
                if !state.finishing {
                    assert(reads(settings, before.data, before.rows, added));
                    lemma_reading(settings, before.data, before.rows, added);
                }
            },
        }
    }
}

/// Data that comes in is read behind what is there.
proof fn lemma_data_is_read(settings: CopySettings, before: SessionRun, data: Seq<u8>)
    requires
        rows_match_data(settings, before),
        before.state.phase == SessionPhase::Reading,
        !before.state.finishing,
    ensures
        reads(
            settings,
            before.data + data,
            before.rows,
            CopyState { unread: before.state.unread + data, ..before.state },
        ),
{
    let unread = before.state.unread;
    law_pieces_do_not_matter(before.data, data);
    assert(complete_records(unread) =~= seq![]);
    assert(line_styles(unread) =~= seq![]);
    assert(open_part(unread) == unread);
    assert(records_before(before.data, unread) =~= complete_records(before.data));
    assert(styles_before(before.data, unread) =~= line_styles(before.data));
    assert(records_before(before.data + data, unread + data) =~= complete_records(before.data));
    assert(styles_before(before.data + data, unread + data) =~= line_styles(before.data));
    assert(is_left_of(unread + data, before.data + data));
}

/// At the end of the data what is left of it is read as the last record.
proof fn lemma_end_is_read(settings: CopySettings, before: SessionRun)
    requires
        rows_match_data(settings, before),
        before.state.phase == SessionPhase::Reading,
        !before.state.finishing,
    ensures
        done_effect(settings, before.state) matches Ok((next, action)) ==> next.finishing
            && rows_match_data(settings, run_step(before, SessionEvent::Done, next, action)),
{
    let state = before.state;
    let unread = state.unread;
    let records = complete_records(before.data);
    assert(complete_records(unread) =~= seq![]);
    assert(line_styles(unread) =~= seq![]);
    assert(open_part(before.data) == unread);
    assert(records_before(before.data, unread) =~= records);
    assert(styles_before(before.data, unread) =~= line_styles(before.data));
    if let Ok(Some(cut)) = last_in(unread, state.eol_style) {
        assert(cut.record =~= unread.take(open_record_len(unread)));
        let all = stream_records(before.data);
        assert(all == records.push(cut.record));
        let rest = CopyState {
            unread: cut.rest,
            eol_style: cut.style,
            finishing: true,
            ..state
        };
        match record_effect(settings, rest, cut.record) {
            Ok((next, None)) => {
                assert(row_records(settings, all) =~= seq![]);
            },
            Ok((next, Some(fields))) => {
                assert(row_records(settings, all) =~= row_records(settings, records).push(
                    cut.record,
                ));
            },
            Err(_) => {},
        }
    }
}

/// The rows of a session are those of the stream, in order, however the client has cut it into
/// messages: while a session waits for data, each record that has ended, but for the header, was
/// given out as a row; once it is complete, each record of the stream was.
pub proof fn law_rows_are_those_of_the_stream(settings: CopySettings, events: Seq<SessionEvent>)
    requires
        run(settings, events) is Some,
    ensures
        ({
            let after = run(settings, events)->0;
            &&& after.state.phase == SessionPhase::Reading ==> are_fields_of(
                settings,
                after.rows,
                row_records(settings, complete_records(after.data)),
            ) && after.state.unread == open_part(after.data)
            &&& after.state.phase == SessionPhase::Completed ==> are_fields_of(
                settings,
                after.rows,
                row_records(settings, stream_records(after.data)),
            )
        }),
{
    lemma_rows_match_data(settings, events);
    lemma_phase_of_finishing(settings, events);
    let after = run(settings, events)->0;
    if after.state.phase == SessionPhase::Reading {
        let unread = after.state.unread;
        assert(complete_records(unread) =~= seq![]);
        assert(records_before(after.data, unread) =~= complete_records(after.data));
    }
}

/// A session that has seen the end of the data waits for no more.
proof fn lemma_phase_of_finishing(settings: CopySettings, events: Seq<SessionEvent>)
    requires
        run(settings, events) is Some,
    ensures
        run(settings, events)->0.state.finishing ==> run(settings, events)->0.state.phase
            != SessionPhase::Reading,
    decreases events.len(),
{
    if events.len() > 0 {
        lemma_phase_of_finishing(settings, events.drop_last());
        let state = run(settings, events.drop_last())->0.state;
        match events.last() {
            SessionEvent::Data(data) => {
                lemma_reading_keeps_rows(
                    settings,
                    CopyState { unread: state.unread + data, ..state },
                );
            },
            SessionEvent::Done => {},
            SessionEvent::Encoded(tuple) => {
                lemma_reading_keeps_rows(
                    settings,
                    CopyState { batch: state.batch.push(tuple), held: None, ..state },
                );
            },
            SessionEvent::Flushed(inserted) => {
                let emptied = CopyState {
                    batch: seq![],
                    inserted_rows: state.inserted_rows + inserted,
                    ..state
                };
                lemma_reading_keeps_rows(settings, emptied);
                if let Some(tuple) = state.held {
                    lemma_reading_keeps_rows(
                        settings,
                        CopyState { batch: emptied.batch.push(tuple), held: None, ..emptied },
                    );
                }
            },
        }
    }
}

/// A session takes no record in that is longer than the limit: none of a stream that it has read,
/// be it ended or still open.
pub proof fn law_no_long_record_is_taken(settings: CopySettings, events: Seq<SessionEvent>)
    requires
        run(settings, events) is Some,
    ensures
        ({
            let after = run(settings, events)->0;
            &&& after.state.phase == SessionPhase::Reading ==> !has_long_record(
                after.data,
                settings.record_byte_limit as int,
            )
            &&& after.state.phase == SessionPhase::Completed ==> all_short(
                stream_records(after.data),
                settings.record_byte_limit,
            )
        }),
{
    lemma_rows_match_data(settings, events);
    lemma_phase_of_finishing(settings, events);
    let after = run(settings, events)->0;
    if after.state.phase == SessionPhase::Reading {
        let unread = after.state.unread;
        assert(complete_records(unread) =~= seq![]);
        assert(records_before(after.data, unread) =~= complete_records(after.data));
    }
}

/// A session takes no stream in whose lines end in more than one way.
pub proof fn law_lines_end_in_one_way(settings: CopySettings, events: Seq<SessionEvent>)
    requires
        run(settings, events) is Some,
    ensures
        ({
            let after = run(settings, events)->0;
            &&& after.state.phase == SessionPhase::Reading ==> all_in_style(
                line_styles(after.data),
                after.state.eol_style,
            )
            &&& after.state.phase == SessionPhase::Completed ==> all_in_style(
                stream_styles(after.data),
                after.state.eol_style,
            )
        }),
{
    lemma_rows_match_data(settings, events);
    lemma_phase_of_finishing(settings, events);
    let after = run(settings, events)->0;
    if after.state.phase == SessionPhase::Reading {
        let unread = after.state.unread;
        assert(line_styles(unread) =~= seq![]);
        assert(styles_before(after.data, unread) =~= line_styles(after.data));
    }
}

/// Whether all lines end in the same way.
pub open spec fn all_alike(styles: Seq<EolStyle>) -> bool {
    forall|i: int, j: int|
        0 <= i < styles.len() && 0 <= j < styles.len() ==> #[trigger] styles[i]
            == #[trigger] styles[j]
}

/// Whether each record has fields.
pub open spec fn all_have_fields(settings: CopySettings, records: Seq<Seq<u8>>) -> bool {
    forall|i: int| 0 <= i < records.len() ==> fields_of(settings, #[trigger] records[i]) is Ok
}

/// Whether nothing is wrong with what has come of a stream: no record is longer than the limit,
/// be it ended or open, the lines end in one way, and each record that has ended is a row, but for
/// the header.
pub open spec fn is_good_so_far(settings: CopySettings, data: Seq<u8>) -> bool {
    &&& !has_long_record(data, settings.record_byte_limit as int)
    &&& all_alike(line_styles(data))
    &&& all_have_fields(settings, row_records(settings, complete_records(data)))
}

/// Whether nothing is wrong with a stream that is at its end.
pub open spec fn is_good(settings: CopySettings, data: Seq<u8>) -> bool {
    &&& all_short(stream_records(data), settings.record_byte_limit)
    &&& all_alike(stream_styles(data))
    &&& all_have_fields(settings, row_records(settings, stream_records(data)))
}

/// Reading on does not fail on a good stream.
proof fn lemma_reading_succeeds(
    settings: CopySettings,
    data: Seq<u8>,
    rows: Seq<Seq<CopyFieldView>>,
    state: CopyState,
)
    requires
        reads(settings, data, rows, state),
        is_good_so_far(settings, data),
    ensures
        reading_effect(settings, state) is Ok,
    decreases state.unread.len(),
{
    lemma_first_end(state.unread, 0);
    let records = records_before(data, state.unread);
    match first_end(state.unread, 0) {
        None => {
            assert(open_part(data) == state.unread);
        },
        Some(end) => {
            let style = style_at(state.unread, end);
            let left = state.unread.skip(end + ending_len(style));
            let record = state.unread.take(end);
            lemma_left_of_step(data, state.unread, left, end);
            let styles = styles_before(data, state.unread);
            assert(line_styles(data)[styles.len() as int] == style);
            if styles.len() > 0 {
                assert(line_styles(data)[0] == styles[0]);
            }
            assert(complete_records(data)[records.len() as int] == record);
            let rest = CopyState { unread: left, eol_style: style, ..state };
            let more = records_before(data, left);
            if settings.header && !state.skipped_header {
                let next = CopyState { skipped_header: true, ..rest };
                assert(row_records(settings, more) =~= seq![]);
                assert(reads(settings, data, rows, next));
                lemma_reading_succeeds(settings, data, rows, next);
            } else {
                let all = row_records(settings, complete_records(data));
                assert(all[row_records(settings, records).len() as int] == record);
            }
        },
    }
}

/// The data with which an event comes.
pub open spec fn data_of(event: SessionEvent) -> Seq<u8> {
    match event {
        SessionEvent::Data(data) => data,
        _ => seq![],
    }
}

/// A session fails of itself only where something is wrong with the stream: it takes every event
/// that it waits for as long as nothing is wrong with the data that has come with it and before
/// it, and the end of the data where nothing is wrong with the whole of it.
pub proof fn law_good_stream_is_taken(
    settings: CopySettings,
    events: Seq<SessionEvent>,
    event: SessionEvent,
)
    requires
        run(settings, events) is Some,
        run(settings, events)->0.state.phase == awaited_by(event),
        is_good_so_far(settings, run(settings, events)->0.data + data_of(event)),
        event is Done ==> is_good(settings, run(settings, events)->0.data),
    ensures
        run(settings, events.push(event)) is Some,
{
    let before = run(settings, events)->0;
    let state = before.state;
    lemma_rows_match_data(settings, events);
    lemma_phase_of_finishing(settings, events);
    assert(events.push(event).drop_last() =~= events);
    match event {
        SessionEvent::Data(data) => {
            let fed = CopyState { unread: state.unread + data, ..state };
            lemma_data_is_read(settings, before, data);
            lemma_reading_succeeds(settings, before.data + data, before.rows, fed);
            lemma_data_is_short(settings, before, data);
        },
        SessionEvent::Done => {
            lemma_end_succeeds(settings, before);
        },
        SessionEvent::Encoded(tuple) => {
            let added = CopyState { batch: state.batch.push(tuple), held: None, ..state };
            assert(before.data + data_of(event) =~= before.data);
            if !state.finishing {
                assert(reads(settings, before.data, before.rows, added));
                lemma_reading_succeeds(settings, before.data, before.rows, added);
            }
        },
        SessionEvent::Flushed(inserted) => {
            let emptied = CopyState {
                batch: seq![],
                inserted_rows: state.inserted_rows + inserted,
                ..state
            };
            let added = match state.held {
                Some(tuple) => CopyState {
                    batch: emptied.batch.push(tuple),
                    held: None,
                    ..emptied
                },
                None => emptied,
            };
            assert(before.data + data_of(event) =~= before.data);
            if !state.finishing {
                assert(reads(settings, before.data, before.rows, added));
                lemma_reading_succeeds(settings, before.data, before.rows, added);
            }
        },
    }
}

/// The check of the limit lets good data through.
proof fn lemma_data_is_short(settings: CopySettings, before: SessionRun, data: Seq<u8>)
    requires
        rows_match_data(settings, before),
        before.state.phase == SessionPhase::Reading,
        !before.state.finishing,
        !has_long_record(before.data + data, settings.record_byte_limit as int),
    ensures
        !exceeds_limit(
            before.state.unread,
            escaped_at(before.state.unread, before.state.unread.len() as int),
            data,
            settings.record_byte_limit as int,
        ),
{
    let unread = before.state.unread;
    let limit = settings.record_byte_limit as int;
    assert(open_part(before.data) == unread);
    law_limit_check_is_exact(unread, escaped_at(unread, unread.len() as int), data, limit);
    law_pieces_do_not_matter(before.data, data);
    let records = complete_records(unread + data);
    let first = complete_records(before.data).len();
    if has_long_record(unread + data, limit) && open_record_len(open_part(unread + data)) <= limit {
        let i = choose|i: int| 0 <= i < records.len() && #[trigger] records[i].len() > limit;
        assert(complete_records(before.data + data)[first + i] == records[i]);
    }
}

proof fn lemma_end_succeeds(settings: CopySettings, before: SessionRun)
    requires
        rows_match_data(settings, before),
        before.state.phase == SessionPhase::Reading,
        !before.state.finishing,
        is_good(settings, before.data),
    ensures
        done_effect(settings, before.state) is Ok,
{
    let state = before.state;
    let unread = state.unread;
    let records = complete_records(before.data);
    let styles = line_styles(before.data);
    assert(complete_records(unread) =~= seq![]);
    assert(line_styles(unread) =~= seq![]);
    assert(open_part(before.data) == unread);
    assert(records_before(before.data, unread) =~= records);
    assert(styles_before(before.data, unread) =~= styles);
    if unread.len() > 0 {
        let all = stream_records(before.data);
        let record = unread.take(open_record_len(unread));
        assert(all[records.len() as int] == record);
        if ends_with_cr(unread) {
            assert(unread.drop_last() =~= record);
            assert(stream_styles(before.data)[styles.len() as int] == EolStyle::Cr);
            if styles.len() > 0 {
                assert(stream_styles(before.data)[0] == styles[0]);
            }
        } else {
            assert(unread =~= record);
        }
        if !(settings.header && !state.skipped_header) {
            let rows = row_records(settings, all);
            assert(rows[row_records(settings, records).len() as int] == record);
        }
    }
}

/// A row as it is written: its fields, each freed of what has a meaning, with delimiters between
/// them.
pub open spec fn written_row(settings: CopySettings, values: Seq<Option<Seq<u8>>>) -> Seq<u8> {
    joined(
        written_fields(values, settings.delimiter, settings.null_marker),
        settings.delimiter,
    )
}

/// Rows as they are written.
pub open spec fn written_rows(
    settings: CopySettings,
    rows: Seq<Seq<Option<Seq<u8>>>>,
) -> Seq<Seq<u8>> {
    rows.map_values(|values: Seq<Option<Seq<u8>>>| written_row(settings, values))
}

/// Whether rows can be written in the format of the settings: the delimiter stands for itself
/// behind a backslash and ends no line, the null marker can stand between two delimiters and in a
/// line, no value is written as the null marker is, and each row has a value for each column.
pub open spec fn can_be_written(
    settings: CopySettings,
    rows: Seq<Seq<Option<Seq<u8>>>>,
) -> bool {
    &&& plain_delimiter(settings.delimiter)
    &&& settings.delimiter != LINE_FEED
    &&& settings.delimiter != CARRIAGE_RETURN
    &&& self_contained(settings.null_marker, settings.delimiter)
    &&& unmarked(settings.null_marker)
    &&& settings.field_oids.len() > 0
    &&& forall|i: int|
        0 <= i < rows.len() ==> (#[trigger] rows[i]).len() == settings.field_oids.len()
            && has_no_null_text(settings, rows[i])
}

/// Whether no value of a row is written as the null marker is.
pub open spec fn has_no_null_text(
    settings: CopySettings,
    values: Seq<Option<Seq<u8>>>,
) -> bool {
    forall|j: int|
        0 <= j < values.len() ==> (#[trigger] values[j] matches Some(value) ==> written(
            value,
            settings.delimiter,
        ) != settings.null_marker)
}

/// The fields of a row with the types of its columns.
pub open spec fn typed_fields(
    settings: CopySettings,
    values: Seq<Option<Seq<u8>>>,
) -> Seq<CopyFieldView> {
    Seq::new(
        values.len(),
        |i: int| CopyFieldView { value: values[i], oid: settings.field_oids[i] },
    )
}

proof fn lemma_written_row(settings: CopySettings, rows: Seq<Seq<Option<Seq<u8>>>>, i: int)
    requires
        can_be_written(settings, rows),
        0 <= i < rows.len(),
    ensures
        fields_of(settings, written_row(settings, rows[i])) == Ok::<
            Seq<CopyFieldView>,
            PgErrorView,
        >(typed_fields(settings, rows[i])),
        unmarked(written_row(settings, rows[i])),
        !escaped_at(
            written_row(settings, rows[i]),
            written_row(settings, rows[i]).len() as int,
        ),
{
    let values = rows[i];
    let delimiter = settings.delimiter;
    let null_marker = settings.null_marker;
    assert(has_no_null_text(settings, values));
    law_written_row_reads_back(values, delimiter, null_marker);
    law_written_row_is_one_line(values, delimiter, null_marker);
    let fields = written_fields(values, delimiter, null_marker);
    assert forall|j: int| 0 <= j < fields.len() implies self_contained(
        #[trigger] fields[j],
        delimiter,
    ) by {
        assert(fields[j] == written_field(values[j], delimiter, null_marker));
        if let Some(value) = values[j] {
            law_written_value_is_self_contained(value, delimiter);
        }
    }
    law_joined_fields_are_found_again(fields, delimiter);
    assert(fields_of(settings, written_row(settings, values))->Ok_0 =~= typed_fields(
        settings,
        values,
    ));
}

/// What is written comes out: where the stream of a session without a header is rows, each written
/// on a line of its own, the rows that are given out to be encoded are those rows, in order,
/// however the lines end and however the client has cut the stream into messages.
pub proof fn law_written_rows_come_out(
    settings: CopySettings,
    events: Seq<SessionEvent>,
    rows: Seq<Seq<Option<Seq<u8>>>>,
    style: EolStyle,
)
    requires
        run(settings, events) is Some,
        run(settings, events)->0.state.phase == SessionPhase::Completed,
        !settings.header,
        style != EolStyle::Unknown,
        can_be_written(settings, rows),
        run(settings, events)->0.data == lines(
            written_rows(settings, rows),
            Seq::new(rows.len(), |i: int| style),
        ),
    ensures
        run(settings, events)->0.rows == rows.map_values(
            |values: Seq<Option<Seq<u8>>>| typed_fields(settings, values),
        ),
{
    let after = run(settings, events)->0;
    let records = written_rows(settings, rows);
    law_rows_are_those_of_the_stream(settings, events);
    assert forall|i: int| 0 <= i < records.len() implies unmarked(#[trigger] records[i])
        && !escaped_at(records[i], records[i].len() as int) by {
        lemma_written_row(settings, rows, i);
    }
    assert(Seq::new(rows.len(), |i: int| style) =~= Seq::new(records.len(), |i: int| style));
    law_written_lines_are_found_again(records, style);
    let expected = rows.map_values(
        |values: Seq<Option<Seq<u8>>>| typed_fields(settings, values),
    );
    assert forall|i: int| 0 <= i < rows.len() implies #[trigger] after.rows[i] == expected[i] by {
        lemma_written_row(settings, rows, i);
        assert(row_records(settings, records)[i] == written_row(settings, rows[i]));
    }
    assert(after.rows =~= expected);
}

}
