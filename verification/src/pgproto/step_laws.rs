//! What each step of a session does.
use crate::ascii::escaped_at;
use crate::errors::{
    flush_error_answer, CopyTargetErrorView, PgErrorCode, PgErrorView, PgResult,
};
use crate::pgproto::line_laws::{
    is_line_text, law_last_line_needs_no_end, law_line_ends_at_its_first_mark, law_open_line_waits,
    law_records_are_those_of_the_lines, style_name,
};
use crate::pgproto::record::{first_end, next_in, EolStyle};
use crate::pgproto::session::{
    data_effect, done_effect, encoded_effect, encoding_failed_effect, fields_of,
    flush_failed_effect, flushed_effect, fresh_state, is_step, reading_effect, reading_wf,
    record_effect, CopyAction, CopyActionView, CopyField, CopySettings, CopyState, FlushReason,
    SessionPhase, StepView,
};
use crate::pgproto::stream::{
    complete_records, has_long_record, law_limit_check_is_exact, open_part,
};
use crate::text::decimal;
use crate::tuples::{counted, counted_down, lemma_total_len, total_len};
use vstd::prelude::*;

verus! {

/// The bytes of rows are those of the first ones and those of the last one together, and no rows
/// have none.
pub proof fn law_bytes_add_up(rows: Seq<Seq<u8>>, row: Seq<u8>)
    ensures
        total_len(seq![]) == 0,
        total_len(rows.push(row)) == total_len(rows) + row.len(),
        total_len(rows) >= 0,
{
    lemma_total_len(rows);
    assert(rows.push(row).drop_last() =~= rows);
}

/// A count is the number that it counts as far as the machine can count, and the largest number of
/// the machine beyond that; counted down, it stops at zero.
pub proof fn law_counts_stop_at_the_ends(number: int, by: int)
    ensures
        number <= usize::MAX ==> counted(number) == number,
        number >= usize::MAX ==> counted(number) == usize::MAX,
        by <= number ==> counted_down(number, by) == number - by,
        by >= number ==> counted_down(number, by) == 0,
{
}

/// A session before any data has read nothing, holds nothing and has written nothing.
pub proof fn law_session_starts_empty()
    ensures
        fresh_state().phase == SessionPhase::Reading,
        !fresh_state().finishing,
        !fresh_state().skipped_header,
        fresh_state().unread.len() == 0,
        fresh_state().eol_style == EolStyle::Unknown,
        fresh_state().batch.len() == 0,
        fresh_state().held is None,
        fresh_state().inserted_rows == 0,
{
}

/// Whether a session is the same but for what reading changes: what is unread, how lines end,
/// whether the header was passed over, and what is waited for.
pub open spec fn same_but_for_reading(before: CopyState, after: CopyState) -> bool {
    &&& after.finishing == before.finishing
    &&& after.batch == before.batch
    &&& after.held == before.held
    &&& after.inserted_rows == before.inserted_rows
}

/// What comes of a record of a line, with `left` as what is left behind it: a record that is too
/// long is refused; the first one is passed over where it is a header, and what is left is read;
/// any other is a row to be encoded, or refused for what is wrong with its fields.
pub open spec fn is_read_as(
    settings: CopySettings,
    step: StepView,
    line: Seq<u8>,
    left: CopyState,
) -> bool {
    if line.len() > settings.record_byte_limit {
        step matches Err((after, error)) && after == (CopyState {
            phase: SessionPhase::Failed,
            ..left
        }) && error == PgErrorView::Pedantic(
            PgErrorCode::BadCopyFileFormat,
            "COPY row exceeds maximum size of "@ + decimal(settings.record_byte_limit)
                + " bytes"@,
        )
    } else if settings.header && !left.skipped_header {
        step == reading_effect(settings, CopyState { skipped_header: true, ..left })
    } else {
        match fields_of(settings, line) {
            Ok(fields) => step == Ok::<_, (CopyState, PgErrorView)>(
                (
                    CopyState { phase: SessionPhase::Encoding, ..left },
                    CopyActionView::EncodeRow(fields),
                ),
            ),
            Err(error) => step == Err::<(CopyState, CopyActionView), _>(
                (CopyState { phase: SessionPhase::Failed, ..left }, error),
            ),
        }
    }
}

/// Whether a line that ends in the way `found` is read, with `rest` left behind it, or refused for
/// that way.
pub open spec fn is_line_read(
    settings: CopySettings,
    state: CopyState,
    step: StepView,
    line: Seq<u8>,
    rest: Seq<u8>,
    found: EolStyle,
) -> bool {
    if state.eol_style == EolStyle::Unknown || state.eol_style == found {
        is_read_as(
            settings,
            step,
            line,
            CopyState { unread: rest, eol_style: found, ..state },
        )
    } else {
        step == Err::<(CopyState, CopyActionView), _>(
            (
                CopyState { phase: SessionPhase::Failed, ..state },
                PgErrorView::Pedantic(
                    PgErrorCode::BadCopyFileFormat,
                    "COPY data has mixed line endings: expected "@ + style_name(state.eol_style)
                        + " but found "@ + style_name(found),
                ),
            ),
        )
    }
}

/// A session reads line by line: what is unread starts with a line, which is taken for a header, a
/// row, or a fault, and what stands behind its end is left.
pub proof fn law_session_reads_line_by_line(
    settings: CopySettings,
    state: CopyState,
    line: Seq<u8>,
    rest: Seq<u8>,
)
    requires
        is_line_text(line),
    ensures
        state.unread == line + seq![0x0a] + rest ==> is_line_read(
            settings,
            state,
            reading_effect(settings, state),
            line,
            rest,
            EolStyle::Lf,
        ),
        state.unread == line + seq![0x0d, 0x0a] + rest ==> is_line_read(
            settings,
            state,
            reading_effect(settings, state),
            line,
            rest,
            EolStyle::CrLf,
        ),
        state.unread == line + seq![0x0d] + rest && rest.len() > 0 && rest[0] != 0x0a
            ==> is_line_read(
            settings,
            state,
            reading_effect(settings, state),
            line,
            rest,
            EolStyle::Cr,
        ),
{
    law_line_ends_at_its_first_mark(line, rest, state.eol_style);
    crate::pgproto::stream::lemma_first_end(state.unread, 0);
}

/// Where no line has ended, a session waits for more, if what it has of a line is not too long.
pub proof fn law_session_waits_for_the_end_of_a_line(
    settings: CopySettings,
    state: CopyState,
    line: Seq<u8>,
)
    requires
        is_line_text(line),
        state.unread == line || state.unread == line.push(0x0d) || state.unread == line.push(0x5c),
    ensures
        ({
            let len = line.len() + if state.unread == line.push(0x5c) {
                1int
            } else {
                0
            };
            if len <= settings.record_byte_limit {
                reading_effect(settings, state) == Ok::<_, (CopyState, PgErrorView)>(
                    (
                        CopyState { phase: SessionPhase::Reading, ..state },
                        CopyActionView::AwaitData,
                    ),
                )
            } else {
                reading_effect(settings, state) == Err::<(CopyState, CopyActionView), _>(
                    (
                        CopyState { phase: SessionPhase::Failed, ..state },
                        PgErrorView::Pedantic(
                            PgErrorCode::BadCopyFileFormat,
                            "COPY row exceeds maximum size of "@ + decimal(
                                settings.record_byte_limit,
                            ) + " bytes"@,
                        ),
                    ),
                )
            }
        }),
{
    law_open_line_waits(line, state.eol_style);
    assert(line.push(0x5c).last() == 0x5c);
    assert(line.push(0x0d).last() == 0x0d);
    assert(line.len() != line.push(0x5c).len());
}

/// Why a batch is given out to be written, and that it is due: it has as many rows as the settings
/// say, or as many bytes, or would have more with the row that is held back; at the end of the data
/// it has what is left.
pub open spec fn is_due(settings: CopySettings, after: CopyState, reason: FlushReason) -> bool {
    &&& after.phase == SessionPhase::Flushing
    &&& after.batch.len() > 0
    &&& match reason {
        FlushReason::BatchSize => after.held is None && after.batch.len() >= settings.batch_size,
        FlushReason::BatchBytes => match after.held {
            Some(tuple) => counted(total_len(after.batch) + tuple.len())
                > settings.batch_byte_limit,
            None => counted(total_len(after.batch)) >= settings.batch_byte_limit
                && after.batch.len() < settings.batch_size,
        },
        FlushReason::CopyDone => after.finishing && after.held is None,
    }
}

/// The encoded rows that a session holds, in the order in which they will be written.
pub open spec fn rows_held(state: CopyState) -> Seq<Seq<u8>> {
    match state.held {
        Some(tuple) => state.batch.push(tuple),
        None => state.batch,
    }
}

/// Whether a batch that goes on waiting is not due.
pub open spec fn is_not_due(settings: CopySettings, state: CopyState) -> bool {
    &&& state.held is None
    &&& state.batch.len() == 0 || (state.batch.len() < settings.batch_size && counted(
        total_len(state.batch),
    ) < settings.batch_byte_limit)
}

proof fn lemma_reading_keeps(settings: CopySettings, state: CopyState)
    ensures
        match reading_effect(settings, state) {
            Ok((after, action)) => same_but_for_reading(state, after) && (action is AwaitData
                || action is EncodeRow),
            Err((after, _)) => same_but_for_reading(state, after),
        },
    decreases state.unread.len(),
{
    crate::pgproto::stream::lemma_first_end(state.unread, 0);
    if let Ok(Some(cut)) = next_in(state.unread, state.eol_style) {
        let rest = CopyState { unread: cut.rest, eol_style: cut.style, ..state };
        if let Ok((next, None)) = record_effect(settings, rest, cut.record) {
            lemma_reading_keeps(settings, next);
        }
    }
}

/// An encoded row joins the rows that are held, behind them. The batch is given out to be written
/// exactly when it is due, and otherwise the session goes on with the next line, or, at the end of
/// the data, has what is left written.
pub proof fn law_encoded_row_joins_the_batch(
    settings: CopySettings,
    state: CopyState,
    tuple: Seq<u8>,
)
    requires
        state.held is None,
    ensures
        match encoded_effect(settings, state, tuple) {
            Ok((after, CopyActionView::FlushBatch(reason))) => {
                &&& rows_held(after) == state.batch.push(tuple)
                &&& is_due(settings, after, reason)
                &&& after.inserted_rows == state.inserted_rows
                &&& after.unread == state.unread
                &&& after.finishing == state.finishing
            },
            Ok((after, action)) => {
                &&& !state.finishing
                &&& action is AwaitData || action is EncodeRow
                &&& after.batch == state.batch.push(tuple)
                &&& is_not_due(settings, after)
                &&& after.inserted_rows == state.inserted_rows
                &&& Ok::<_, (CopyState, PgErrorView)>((after, action)) == reading_effect(
                    settings,
                    CopyState { batch: state.batch.push(tuple), ..state },
                )
            },
            Err((after, error)) => {
                &&& !state.finishing
                &&& after.batch == state.batch.push(tuple)
                &&& Err::<(CopyState, CopyActionView), _>((after, error)) == reading_effect(
                    settings,
                    CopyState { batch: state.batch.push(tuple), ..state },
                )
            },
        },
{
    let added = CopyState { batch: state.batch.push(tuple), held: None, ..state };
    lemma_reading_keeps(settings, added);
    assert(added == (CopyState { batch: state.batch.push(tuple), ..state }));
}

/// A batch that was written is gone, its rows are counted as the write has reported them, and the
/// row that was held back is the first of the next batch. Then the session goes on as behind any
/// row.
pub proof fn law_written_batch_is_gone(settings: CopySettings, state: CopyState, inserted: nat)
    ensures
        match flushed_effect(settings, state, inserted as int) {
            Ok((after, action)) => {
                &&& after.inserted_rows == state.inserted_rows + inserted
                &&& after.held is None
                &&& after.batch == match state.held {
                    Some(tuple) => seq![tuple],
                    None => seq![],
                }
                &&& match action {
                    CopyActionView::FlushBatch(reason) => is_due(settings, after, reason),
                    CopyActionView::Complete { inserted_rows } => after.finishing
                        && after.batch.len() == 0 && inserted_rows == after.inserted_rows
                        && after.phase == SessionPhase::Completed,
                    _ => !after.finishing && is_not_due(settings, after),
                }
            },
            Err((after, _)) => {
                &&& !state.finishing
                &&& after.inserted_rows == state.inserted_rows + inserted
                &&& after.held is None
                &&& after.batch == match state.held {
                    Some(tuple) => seq![tuple],
                    None => seq![],
                }
            },
        },
{
    let emptied = CopyState {
        batch: seq![],
        inserted_rows: state.inserted_rows + inserted,
        ..state
    };
    lemma_reading_keeps(settings, emptied);
    if let Some(tuple) = state.held {
        let added = CopyState { batch: emptied.batch.push(tuple), held: None, ..emptied };
        lemma_reading_keeps(settings, added);
        assert(added.batch =~= seq![tuple]);
    }
}

/// At the end of the data with nothing left, a session that holds rows has them written, all of
/// them, and one that holds none is complete, with as many rows as were written.
pub proof fn law_end_of_data_writes_what_is_left(settings: CopySettings, state: CopyState)
    requires
        state.unread.len() == 0,
    ensures
        state.batch.len() > 0 ==> done_effect(settings, state) == Ok::<
            _,
            (CopyState, PgErrorView),
        >(
            (
                CopyState { phase: SessionPhase::Flushing, finishing: true, ..state },
                CopyActionView::FlushBatch(FlushReason::CopyDone),
            ),
        ),
        state.batch.len() == 0 ==> done_effect(settings, state) == Ok::<
            _,
            (CopyState, PgErrorView),
        >(
            (
                CopyState { phase: SessionPhase::Completed, finishing: true, ..state },
                CopyActionView::Complete { inserted_rows: state.inserted_rows },
            ),
        ),
{
}

/// A row that could not be encoded and a batch that could not be written end the session where it
/// is, with the error that came of them.
pub proof fn law_failed_work_ends_the_session(
    settings: CopySettings,
    state: CopyState,
    answer: PgErrorView,
    error: CopyTargetErrorView,
)
    ensures
        encoding_failed_effect(state, answer) == Err::<(CopyState, CopyActionView), _>(
            (CopyState { phase: SessionPhase::Failed, ..state }, answer),
        ),
        flush_failed_effect(settings, state, error) == Err::<(CopyState, CopyActionView), _>(
            (
                CopyState { phase: SessionPhase::Failed, ..state },
                flush_error_answer(settings.table_name, error),
            ),
        ),
{
}

/// Data that comes in is read behind what is unread, all of it, unless it makes a record longer
/// than the limit: then none of it is taken, and the session ends.
pub proof fn law_data_is_read_behind_what_waits(
    settings: CopySettings,
    state: CopyState,
    data: Seq<u8>,
)
    requires
        state.phase == SessionPhase::Reading,
        reading_wf(settings, state),
    ensures
        if has_long_record(state.unread + data, settings.record_byte_limit as int) {
            data_effect(settings, state, data) == Err::<(CopyState, CopyActionView), _>(
                (
                    CopyState { phase: SessionPhase::Failed, ..state },
                    PgErrorView::Pedantic(
                        PgErrorCode::BadCopyFileFormat,
                        "COPY row exceeds maximum size of "@ + decimal(
                            settings.record_byte_limit,
                        ) + " bytes"@,
                    ),
                ),
            )
        } else {
            data_effect(settings, state, data) == reading_effect(
                settings,
                CopyState { unread: state.unread + data, ..state },
            )
        },
{
    law_limit_check_is_exact(
        state.unread,
        escaped_at(state.unread, state.unread.len() as int),
        data,
        settings.record_byte_limit as int,
    );
}

/// A record is too long where it has more bytes than the limit, be it the first line, one behind
/// it, or the line that is still open.
pub proof fn law_long_records_are_long_lines(line: Seq<u8>, rest: Seq<u8>, limit: int)
    requires
        is_line_text(line),
        0 <= limit,
    ensures
        has_long_record(line + seq![0x0a] + rest, limit) <==> line.len() > limit
            || has_long_record(rest, limit),
        has_long_record(line, limit) <==> line.len() > limit,
        has_long_record(line.push(0x0d), limit) <==> line.len() > limit,
{
    let ended = line + seq![0x0au8] + rest;
    law_records_are_those_of_the_lines(line, rest);
    law_open_line_waits(line, EolStyle::Unknown);
    let records = complete_records(ended);
    let fewer = complete_records(rest);
    assert(records == seq![line] + fewer);
    if line.len() > limit {
        assert(records[0].len() > limit);
    }
    if exists|i: int| 0 <= i < fewer.len() && #[trigger] fewer[i].len() > limit {
        let i = choose|i: int| 0 <= i < fewer.len() && #[trigger] fewer[i].len() > limit;
        assert(records[i + 1] == fewer[i]);
    }
    if exists|i: int| 0 <= i < records.len() && #[trigger] records[i].len() > limit {
        let i = choose|i: int| 0 <= i < records.len() && #[trigger] records[i].len() > limit;
        if i > 0 {
            assert(fewer[i - 1] == records[i]);
        }
    }
    let open = line.push(0x0d);
    assert(first_end(open, 0) is None);
    assert(complete_records(open) =~= seq![]);
    assert(open_part(open) == open);
}

/// What comes of the last line, which nothing ends: a row to be encoded, a header to pass over, or
/// a fault; behind it the session has what is left written.
pub open spec fn is_last_read_as(
    settings: CopySettings,
    step: StepView,
    line: Seq<u8>,
    left: CopyState,
) -> bool {
    if settings.header && !left.skipped_header {
        step == done_effect(
            settings,
            CopyState { skipped_header: true, ..left },
        )
    } else {
        match fields_of(settings, line) {
            Ok(fields) => step == Ok::<_, (CopyState, PgErrorView)>(
                (
                    CopyState { phase: SessionPhase::Encoding, finishing: true, ..left },
                    CopyActionView::EncodeRow(fields),
                ),
            ),
            Err(error) => step == Err::<(CopyState, CopyActionView), _>(
                (CopyState { phase: SessionPhase::Failed, finishing: true, ..left }, error),
            ),
        }
    }
}

/// At the end of the data what is left unread is the last line, with or without a carriage return
/// at its end.
pub proof fn law_last_line_is_read(settings: CopySettings, state: CopyState, line: Seq<u8>)
    requires
        is_line_text(line),
        line.len() <= settings.record_byte_limit,
    ensures
        state.unread == line && line.len() > 0 ==> is_last_read_as(
            settings,
            done_effect(settings, state),
            line,
            CopyState { unread: seq![], ..state },
        ),
        state.unread == line.push(0x0d) && (state.eol_style == EolStyle::Unknown
            || state.eol_style == EolStyle::Cr) ==> is_last_read_as(
            settings,
            done_effect(settings, state),
            line,
            CopyState { unread: seq![], eol_style: EolStyle::Cr, ..state },
        ),
        state.unread == line.push(0x0d) && state.eol_style != EolStyle::Unknown && state.eol_style
            != EolStyle::Cr ==> (done_effect(settings, state) matches Err((_, error)) && error
            == PgErrorView::Pedantic(
            PgErrorCode::BadCopyFileFormat,
            "COPY data has mixed line endings: expected "@ + style_name(state.eol_style)
                + " but found "@ + style_name(EolStyle::Cr),
        )),
{
    law_last_line_needs_no_end(line, state.eol_style);
    law_open_line_waits(line, state.eol_style);
}

/// What comes of a step is what is returned, and where the session stands behind it is where it
/// stands.
pub proof fn law_step_is_what_is_returned(
    step: StepView,
    result: PgResult<CopyAction>,
    after: CopyState,
)
    requires
        is_step(step, result, after),
    ensures
        match result {
            Ok(action) => step == Ok::<_, (CopyState, PgErrorView)>((after, action@)),
            Err(error) => step == Err::<(CopyState, CopyActionView), _>((after, error@)),
        },
{
}

/// What a session asks for is seen as it is: rows with their values and types in their places, and
/// numbers as they are.
pub proof fn law_actions_are_seen_as_they_are(
    fields: Vec<CopyField>,
    reason: FlushReason,
    rows: usize,
    at: int,
)
    ensures
        CopyAction::AwaitData@ is AwaitData,
        CopyAction::FlushBatch(reason)@ == CopyActionView::FlushBatch(reason),
        (CopyAction::Complete { inserted_rows: rows })@ == (CopyActionView::Complete {
            inserted_rows: rows as int,
        }),
        CopyAction::EncodeRow(fields)@ matches CopyActionView::EncodeRow(row) && row.len()
            == fields@.len() && (0 <= at < row.len() ==> row[at].oid == fields@[at].oid && match
            fields@[at].value {
            Some(bytes) => row[at].value == Some(bytes@),
            None => row[at].value is None,
        }),
{
}

/// Why a batch is written is called by what was reached: the bytes or the rows of a batch, or the
/// end of the data. The ways in which lines end are called by the names of their characters.
pub proof fn law_reasons_and_styles_are_named(reason: FlushReason, style: EolStyle)
    ensures
        reason == FlushReason::BatchBytes <==> reason.text() == "batch_bytes"@,
        reason == FlushReason::BatchSize <==> reason.text() == "batch_size"@,
        reason == FlushReason::CopyDone <==> reason.text() == "copy_done"@,
        style.text() == style_name(style),
{
    reveal_strlit("batch_bytes");
    reveal_strlit("batch_size");
    reveal_strlit("copy_done");
    assert("batch_bytes"@.len() == 11);
    assert("batch_size"@.len() == 10);
    assert("copy_done"@.len() == 9);
}

}
