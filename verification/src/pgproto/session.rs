//! A session of COPY: cuts the stream of a client into rows, has each row encoded, and has the
//! encoded rows written in batches.
//!
//! The session itself neither encodes nor writes. It goes from event to event and says after each
//! what is to be done next.
use crate::ascii::{copied, escaped_at};
use crate::buffer::{buffered_slice, content, content_slice};
use crate::errors::{
    bad_copy_format, flush_error_answer, map_copy_target_flush_error, CopyTargetError,
    CopyTargetErrorView, PgError, PgErrorView, PgResult,
};
use crate::pgproto::record::{
    exceeds_limit, first_end, incoming_exceeds_record_limit, last_in, next_in, open_record_len,
    pending_record_len, EolStyle, TextRecordReader,
};
use crate::pgproto::row::{bad_format, cow_values, record_values, TextRowParser};
use crate::pgproto::stream::lemma_first_end;
use crate::text::{concat3, decimal, decimal_text, smol_text};
use crate::tuples::{counted, lemma_total_len, total_len, tuple_views};
use bytes::Bytes;
use postgres_types::Oid;
use smol_str::SmolStr;
use std::borrow::Cow;
use vstd::prelude::*;

verus! {

/// Why a batch is written.
#[derive(Clone, Copy, Debug, PartialEq, Eq, Structural)]
pub enum FlushReason {
    BatchBytes,
    BatchSize,
    CopyDone,
}

impl FlushReason {
    /// The name of a reason.
    pub open spec fn text(self) -> Seq<char> {
        match self {
            FlushReason::BatchBytes => "batch_bytes"@,
            FlushReason::BatchSize => "batch_size"@,
            FlushReason::CopyDone => "copy_done"@,
        }
    }

    /// The name of a reason.
    pub fn name(self) -> (name: &'static str)
        ensures
            name@ == self.text(),
    {
        match self {
            FlushReason::BatchBytes => "batch_bytes",
            FlushReason::BatchSize => "batch_size",
            FlushReason::CopyDone => "copy_done",
        }
    }
}

/// A field of a row: its bytes, unless it is null, and the type of its column.
#[derive(Clone, Debug, PartialEq, Eq)]
pub struct CopyField {
    pub value: Option<Vec<u8>>,
    pub oid: Oid,
}

/// A field with its bytes as a sequence.
#[verifier::ext_equal]
pub struct CopyFieldView {
    pub value: Option<Seq<u8>>,
    pub oid: Oid,
}

impl View for CopyField {
    type V = CopyFieldView;

    open spec fn view(&self) -> CopyFieldView {
        CopyFieldView {
            value: match self.value {
                Some(bytes) => Some(bytes@),
                None => None,
            },
            oid: self.oid,
        }
    }
}

/// The fields of a row.
pub open spec fn field_views(fields: Seq<CopyField>) -> Seq<CopyFieldView> {
    fields.map_values(|field: CopyField| field@)
}

/// What is to be done next.
#[derive(Clone, Debug, PartialEq, Eq)]
pub enum CopyAction {
    /// Wait for the next message of the client.
    AwaitData,
    /// Encode a row, and hand it to `on_row_encoded`.
    EncodeRow(Vec<CopyField>),
    /// Write the batch, and hand what came of it to `on_batch_flushed`.
    FlushBatch(FlushReason),
    /// Tell the client how many rows were written.
    Complete { inserted_rows: usize },
}

/// What is to be done next, with the bytes as sequences.
#[verifier::ext_equal]
pub enum CopyActionView {
    AwaitData,
    EncodeRow(Seq<CopyFieldView>),
    FlushBatch(FlushReason),
    Complete { inserted_rows: int },
}

impl View for CopyAction {
    type V = CopyActionView;

    open spec fn view(&self) -> CopyActionView {
        match *self {
            CopyAction::AwaitData => CopyActionView::AwaitData,
            CopyAction::EncodeRow(fields) => CopyActionView::EncodeRow(field_views(fields@)),
            CopyAction::FlushBatch(reason) => CopyActionView::FlushBatch(reason),
            CopyAction::Complete { inserted_rows } => CopyActionView::Complete {
                inserted_rows: inserted_rows as int,
            },
        }
    }
}

/// What a session waits for.
#[derive(Clone, Copy, Debug, PartialEq, Eq, Structural)]
pub enum SessionPhase {
    /// For data, or for the end of it.
    Reading,
    /// For the row that is being encoded.
    Encoding,
    /// For the batch that is being written.
    Flushing,
    /// For nothing: all rows are written.
    Completed,
    /// For nothing: the client was answered with an error.
    Failed,
}

/// What does not change during a session.
#[verifier::ext_equal]
pub struct CopySettings {
    pub table_name: Seq<char>,
    pub field_oids: Seq<Oid>,
    pub delimiter: u8,
    pub null_marker: Seq<u8>,
    pub header: bool,
    pub batch_size: nat,
    pub batch_byte_limit: nat,
    pub record_byte_limit: nat,
}

/// Where a session stands.
#[verifier::ext_equal]
pub struct CopyState {
    pub phase: SessionPhase,
    /// Whether the client has sent all its data.
    pub finishing: bool,
    pub skipped_header: bool,
    /// The data that no record has taken yet.
    pub unread: Seq<u8>,
    pub eol_style: EolStyle,
    /// The encoded rows that wait to be written.
    pub batch: Seq<Seq<u8>>,
    /// The encoded row that goes into the batch behind the one that is being written.
    pub held: Option<Seq<u8>>,
    pub inserted_rows: int,
}

/// A session before any data.
pub open spec fn fresh_state() -> CopyState {
    CopyState {
        phase: SessionPhase::Reading,
        finishing: false,
        skipped_header: false,
        unread: seq![],
        eol_style: EolStyle::Unknown,
        batch: seq![],
        held: None,
        inserted_rows: 0,
    }
}

/// The answer to a record of more bytes than the limit.
pub open spec fn record_limit_answer(limit: nat) -> PgErrorView {
    bad_format("COPY row exceeds maximum size of "@ + decimal(limit) + " bytes"@)
}

/// The fields of a record: its values, each with the type of its column.
pub open spec fn fields_of(settings: CopySettings, record: Seq<u8>) -> Result<
    Seq<CopyFieldView>,
    PgErrorView,
> {
    match record_values(
        record,
        settings.delimiter,
        settings.null_marker,
        settings.field_oids.len(),
    ) {
        Ok(values) => Ok(
            Seq::new(
                values.len(),
                |i: int| CopyFieldView { value: values[i], oid: settings.field_oids[i] },
            ),
        ),
        Err(error) => Err(error),
    }
}

/// What comes of an event: where the session stands, and what is to be done next or what the client
/// is answered.
pub type StepView = Result<(CopyState, CopyActionView), (CopyState, PgErrorView)>;

/// A session that the client was answered with an error in. All else is as it was.
pub open spec fn failed(state: CopyState) -> CopyState {
    CopyState { phase: SessionPhase::Failed, ..state }
}

/// What comes of a row that could not be encoded.
pub open spec fn encoding_failed_effect(state: CopyState, error: PgErrorView) -> StepView {
    Err((failed(state), error))
}

/// What comes of a batch that could not be written.
pub open spec fn flush_failed_effect(
    settings: CopySettings,
    state: CopyState,
    error: CopyTargetErrorView,
) -> StepView {
    Err((failed(state), flush_error_answer(settings.table_name, error)))
}

/// Whether a result and where the session stands behind it are what comes of an event.
pub open spec fn is_step(step: StepView, result: PgResult<CopyAction>, after: CopyState) -> bool {
    match step {
        Ok((state, action)) => result matches Ok(found) && found@ == action && after == state,
        Err((state, error)) => result matches Err(answer) && answer@ == error && after == state,
    }
}

/// What comes of a record: the first is passed over where the settings say that it is a header,
/// any other becomes a row. An error leaves the session as it is.
pub open spec fn record_effect(settings: CopySettings, state: CopyState, record: Seq<u8>) -> Result<
    (CopyState, Option<Seq<CopyFieldView>>),
    PgErrorView,
> {
    if record.len() > settings.record_byte_limit {
        Err(record_limit_answer(settings.record_byte_limit))
    } else if settings.header && !state.skipped_header {
        Ok((CopyState { skipped_header: true, ..state }, None))
    } else {
        match fields_of(settings, record) {
            Ok(fields) => Ok((state, Some(fields))),
            Err(error) => Err(error),
        }
    }
}

/// Goes on with the data that is there, up to the next row or to the end of what has come.
pub open spec fn reading_effect(settings: CopySettings, state: CopyState) -> StepView
    decreases state.unread.len(),
{
    match next_in(state.unread, state.eol_style) {
        Err(error) => Err((failed(state), error)),
        Ok(None) => if open_record_len(state.unread) > settings.record_byte_limit {
            Err((failed(state), record_limit_answer(settings.record_byte_limit)))
        } else {
            Ok(
                (
                    CopyState { phase: SessionPhase::Reading, ..state },
                    CopyActionView::AwaitData,
                ),
            )
        },
        Ok(Some(cut)) => {
            proof {
                lemma_first_end(state.unread, 0);
            }
            let rest = CopyState { unread: cut.rest, eol_style: cut.style, ..state };
            match record_effect(settings, rest, cut.record) {
                Err(error) => Err((failed(rest), error)),
                Ok((next, None)) => reading_effect(settings, next),
                Ok((next, Some(fields))) => Ok(
                    (
                        CopyState { phase: SessionPhase::Encoding, ..next },
                        CopyActionView::EncodeRow(fields),
                    ),
                ),
            }
        },
    }
}

/// Has the rows written that are left once all rows are encoded, where any are.
pub open spec fn draining_effect(state: CopyState) -> (CopyState, CopyActionView) {
    if state.batch.len() == 0 {
        (
            CopyState { phase: SessionPhase::Completed, ..state },
            CopyActionView::Complete { inserted_rows: state.inserted_rows },
        )
    } else {
        (
            CopyState { phase: SessionPhase::Flushing, ..state },
            CopyActionView::FlushBatch(FlushReason::CopyDone),
        )
    }
}

/// Goes on behind a row.
pub open spec fn resuming_effect(settings: CopySettings, state: CopyState) -> StepView {
    if state.finishing {
        Ok(draining_effect(state))
    } else {
        reading_effect(settings, state)
    }
}

/// What comes of data. No data is taken in that makes a record longer than the limit.
pub open spec fn data_effect(settings: CopySettings, state: CopyState, data: Seq<u8>) -> StepView {
    if exceeds_limit(
        state.unread,
        escaped_at(state.unread, state.unread.len() as int),
        data,
        settings.record_byte_limit as int,
    ) {
        Err((failed(state), record_limit_answer(settings.record_byte_limit)))
    } else {
        reading_effect(settings, CopyState { unread: state.unread + data, ..state })
    }
}

/// What comes of the end of the data: what is left of it is the last record.
pub open spec fn done_effect(settings: CopySettings, state: CopyState) -> StepView {
    let finishing = CopyState { finishing: true, ..state };
    if open_record_len(state.unread) > settings.record_byte_limit {
        Err((failed(state), record_limit_answer(settings.record_byte_limit)))
    } else {
        match last_in(state.unread, state.eol_style) {
            Err(error) => Err((failed(CopyState { unread: seq![], ..finishing }), error)),
            Ok(None) => Ok(draining_effect(finishing)),
            Ok(Some(cut)) => {
                let rest = CopyState { unread: cut.rest, eol_style: cut.style, ..finishing };
                match record_effect(settings, rest, cut.record) {
                    Err(error) => Err((failed(rest), error)),
                    Ok((next, None)) => Ok(draining_effect(next)),
                    Ok((next, Some(fields))) => Ok(
                        (
                            CopyState { phase: SessionPhase::Encoding, ..next },
                            CopyActionView::EncodeRow(fields),
                        ),
                    ),
                }
            },
        }
    }
}

/// Puts an encoded row into the batch, which is written once it has as many rows or bytes as the
/// settings say.
pub open spec fn adding_effect(
    settings: CopySettings,
    state: CopyState,
    tuple: Seq<u8>,
) -> StepView {
    let added = CopyState { batch: state.batch.push(tuple), held: None, ..state };
    if added.batch.len() >= settings.batch_size {
        Ok(
            (
                CopyState { phase: SessionPhase::Flushing, ..added },
                CopyActionView::FlushBatch(FlushReason::BatchSize),
            ),
        )
    } else if counted(total_len(added.batch)) >= settings.batch_byte_limit {
        Ok(
            (
                CopyState { phase: SessionPhase::Flushing, ..added },
                CopyActionView::FlushBatch(FlushReason::BatchBytes),
            ),
        )
    } else {
        resuming_effect(settings, added)
    }
}

/// What comes of an encoded row. A batch that has rows and would get too many bytes with this one
/// is written first.
pub open spec fn encoded_effect(
    settings: CopySettings,
    state: CopyState,
    tuple: Seq<u8>,
) -> StepView {
    if state.batch.len() > 0 && counted(total_len(state.batch) + tuple.len())
        > settings.batch_byte_limit {
        Ok(
            (
                CopyState { phase: SessionPhase::Flushing, held: Some(tuple), ..state },
                CopyActionView::FlushBatch(FlushReason::BatchBytes),
            ),
        )
    } else {
        adding_effect(settings, state, tuple)
    }
}

/// What comes of a batch of which `inserted` rows were written.
pub open spec fn flushed_effect(
    settings: CopySettings,
    state: CopyState,
    inserted: int,
) -> StepView {
    let emptied = CopyState {
        batch: seq![],
        inserted_rows: state.inserted_rows + inserted,
        ..state
    };
    match state.held {
        Some(tuple) => adding_effect(settings, emptied, tuple),
        None => resuming_effect(settings, emptied),
    }
}

/// The error that answers a record of more bytes than the limit.
pub fn record_limit_error(record_byte_limit: usize) -> (error: PgError)
    ensures
        error@ == record_limit_answer(record_byte_limit as nat),
{
    let limit = decimal_text(record_byte_limit as u64);
    bad_copy_format(concat3("COPY row exceeds maximum size of ", limit.as_str(), " bytes"))
}

/// A session of COPY.
pub struct CopySession {
    table_name: SmolStr,
    field_oids: Vec<Oid>,
    header: bool,
    batch_size: usize,
    batch_byte_limit: usize,
    record_byte_limit: usize,
    skipped_header: bool,
    record_reader: TextRecordReader,
    row_parser: TextRowParser,
    batch_tuples: Vec<Vec<u8>>,
    batch_bytes: usize,
    held_tuple: Option<Vec<u8>>,
    inserted_rows: usize,
    phase: SessionPhase,
    finishing: bool,
}

impl View for CopySession {
    type V = CopyState;

    closed spec fn view(&self) -> CopyState {
        CopyState {
            phase: self.phase,
            finishing: self.finishing,
            skipped_header: self.skipped_header,
            unread: self.record_reader.unread(),
            eol_style: self.record_reader.eol_style,
            batch: tuple_views(self.batch_tuples@),
            held: match self.held_tuple {
                Some(tuple) => Some(tuple@),
                None => None,
            },
            inserted_rows: self.inserted_rows as int,
        }
    }
}

impl CopySession {
    /// What does not change during the session.
    pub closed spec fn settings(&self) -> CopySettings {
        CopySettings {
            table_name: smol_text(self.table_name),
            field_oids: self.field_oids@,
            delimiter: self.row_parser.delimiter,
            null_marker: self.row_parser.null_marker@,
            header: self.header,
            batch_size: self.batch_size as nat,
            batch_byte_limit: self.batch_byte_limit as nat,
            record_byte_limit: self.record_byte_limit as nat,
        }
    }

    spec fn counts_wf(&self) -> bool {
        &&& self.row_parser.field_count == self.field_oids@.len()
        &&& self.batch_bytes == counted(total_len(tuple_views(self.batch_tuples@)))
    }

    spec fn parts_wf(&self) -> bool {
        self.counts_wf() && self.record_reader.wf()
    }

    /// Whether the parts of the session agree with each other.
    pub closed spec fn wf(&self) -> bool {
        &&& self.counts_wf()
        &&& self.phase == SessionPhase::Failed || {
            &&& self.record_reader.wf()
            &&& self.phase == SessionPhase::Reading ==> self.record_reader.caught_up()
            &&& self.held_tuple is Some ==> self.phase == SessionPhase::Flushing
            &&& reading_wf(self.settings(), self@)
        }
    }

    /// A session before any data.
    pub fn new(
        table_name: SmolStr,
        field_oids: Vec<Oid>,
        delimiter: u8,
        null_marker: Vec<u8>,
        header: bool,
        batch_size: usize,
        batch_byte_limit: usize,
        record_byte_limit: usize,
    ) -> (session: Self)
        ensures
            session.wf(),
            session@ == fresh_state(),
            session.settings() == (CopySettings {
                table_name: smol_text(table_name),
                field_oids: field_oids@,
                delimiter,
                null_marker: null_marker@,
                header,
                batch_size: batch_size as nat,
                batch_byte_limit: batch_byte_limit as nat,
                record_byte_limit: record_byte_limit as nat,
            }),
    {
        let row_parser = TextRowParser::new(delimiter, null_marker, field_oids.len());
        let session = CopySession {
            table_name,
            field_oids,
            header,
            batch_size,
            batch_byte_limit,
            record_byte_limit,
            skipped_header: false,
            record_reader: TextRecordReader::new(),
            row_parser,
            batch_tuples: Vec::new(),
            batch_bytes: 0,
            held_tuple: None,
            inserted_rows: 0,
            phase: SessionPhase::Reading,
            finishing: false,
        };
        assert(session@ =~= fresh_state());
        session
    }

    /// The encoded rows of the batch, in the order in which they came.
    pub fn batch_tuples(&self) -> (tuples: &Vec<Vec<u8>>)
        ensures
            tuple_views(tuples@) == self@.batch,
    {
        &self.batch_tuples
    }

    /// Refuses a record of more bytes than the limit.
    fn ensure_record_size(&self, record_len: usize) -> (result: PgResult<()>)
        ensures
            if record_len > self.settings().record_byte_limit {
                result matches Err(answer) && answer@ == record_limit_answer(
                    self.settings().record_byte_limit,
                )
            } else {
                result is Ok
            },
    {
        if record_len <= self.record_byte_limit {
            return Ok(());
        }
        Err(record_limit_error(self.record_byte_limit))
    }

    /// Refuses a part of a record of more bytes than the limit.
    fn ensure_pending_record_limit(&self) -> (result: PgResult<()>)
        ensures
            if open_record_len(self@.unread) > self.settings().record_byte_limit {
                result matches Err(answer) && answer@ == record_limit_answer(
                    self.settings().record_byte_limit,
                )
            } else {
                result is Ok
            },
    {
        let pending = pending_record_len(buffered_slice(&self.record_reader.pending));
        self.ensure_record_size(pending)
    }

    /// Refuses data that makes a record longer than the limit.
    fn ensure_incoming_record_limit(&self, incoming: &[u8]) -> (result: PgResult<()>)
        requires
            self.parts_wf(),
            self.record_reader.caught_up(),
            self@.unread.len() + incoming@.len() <= isize::MAX,
        ensures
            if exceeds_limit(
                self@.unread,
                escaped_at(self@.unread, self@.unread.len() as int),
                incoming@,
                self.settings().record_byte_limit as int,
            ) {
                result matches Err(answer) && answer@ == record_limit_answer(
                    self.settings().record_byte_limit,
                )
            } else {
                result is Ok
            },
    {
        if !incoming_exceeds_record_limit(
            buffered_slice(&self.record_reader.pending),
            self.record_reader.scan_escaped,
            incoming,
            self.record_byte_limit,
        ) {
            return Ok(());
        }
        Err(record_limit_error(self.record_byte_limit))
    }

    /// Cuts a record into fields, each with the type of its column.
    fn decode_record(&self, record: &[u8]) -> (result: PgResult<Vec<CopyField>>)
        requires
            self.parts_wf(),
        ensures
            match fields_of(self.settings(), record@) {
                Ok(fields) => result matches Ok(found) && field_views(found@) == fields,
                Err(error) => result matches Err(answer) && answer@ == error,
            },
    {
        let values = match self.row_parser.parse_record(record) {
            Ok(values) => values,
            Err(error) => return Err(error),
        };
        let mut fields: Vec<CopyField> = Vec::new();
        let mut idx: usize = 0;
        while idx < values.len()
            invariant
                idx <= values@.len(),
                values@.len() == self.field_oids@.len(),
                fields@.len() == idx,
                forall|i: int|
                    0 <= i < idx ==> (#[trigger] fields@[i])@ == (CopyFieldView {
                        value: cow_values(values@)[i],
                        oid: self.field_oids@[i],
                    }),
            decreases values@.len() - idx,
        {
            let value = match &values[idx] {
                None => None,
                Some(Cow::Borrowed(bytes)) => Some(copied(bytes)),
                Some(Cow::Owned(bytes)) => Some(bytes.clone()),
            };
            fields.push(CopyField { value, oid: self.field_oids[idx] });
            idx += 1;
        }
        assert(field_views(fields@) =~= fields_of(self.settings(), record@)->Ok_0);
        Ok(fields)
    }

    /// Passes over a record that is a header, and makes a row of any other.
    fn process_record(&mut self, record: &[u8]) -> (result: PgResult<Option<Vec<CopyField>>>)
        requires
            old(self).parts_wf(),
        ensures
            final(self).parts_wf(),
            final(self).settings() == old(self).settings(),
            match record_effect(old(self).settings(), old(self)@, record@) {
                Ok((state, None)) => result matches Ok(None) && final(self)@ == state,
                Ok((state, Some(fields))) => result matches Ok(Some(found)) && field_views(found@)
                    == fields && final(self)@ == state,
                Err(error) => result matches Err(answer) && answer@ == error && final(self)@ == old(
                    self,
                )@,
            },
    {
        match self.ensure_record_size(record.len()) {
            Ok(()) => {},
            Err(error) => return Err(error),
        }
        if self.header && !self.skipped_header {
            self.skipped_header = true;
            return Ok(None);
        }
        match self.decode_record(record) {
            Ok(fields) => Ok(Some(fields)),
            Err(error) => Err(error),
        }
    }

    /// Ends the session with an error.
    fn fail(&mut self, error: PgError) -> (result: PgResult<CopyAction>)
        requires
            old(self).counts_wf(),
        ensures
            final(self).wf(),
            final(self).settings() == old(self).settings(),
            final(self)@ == failed(old(self)@),
            result matches Err(answer) && answer == error,
    {
        self.phase = SessionPhase::Failed;
        Err(error)
    }

    /// Goes on with the data that is there.
    fn read_on(&mut self) -> (result: PgResult<CopyAction>)
        requires
            old(self).parts_wf(),
            old(self)@.held is None,
            !old(self).finishing,
        ensures
            final(self).wf(),
            final(self).settings() == old(self).settings(),
            is_step(reading_effect(old(self).settings(), old(self)@), result, final(self)@),
    {
        loop
            invariant
                self.parts_wf(),
                self@.held is None,
                !self.finishing,
                self.settings() == old(self).settings(),
                reading_effect(old(self).settings(), old(self)@) == reading_effect(
                    self.settings(),
                    self@,
                ),
            decreases self@.unread.len(),
        {
            proof {
                lemma_first_end(self@.unread, 0);
            }
            let record = match self.record_reader.next_record() {
                Ok(Some(record)) => record,
                Ok(None) => {
                    match self.ensure_pending_record_limit() {
                        Ok(()) => {},
                        Err(error) => return self.fail(error),
                    }
                    self.phase = SessionPhase::Reading;
                    return Ok(CopyAction::AwaitData);
                },
                Err(error) => return self.fail(error),
            };
            match self.process_record(content_slice(&record)) {
                Ok(None) => {},
                Ok(Some(fields)) => {
                    self.phase = SessionPhase::Encoding;
                    return Ok(CopyAction::EncodeRow(fields));
                },
                Err(error) => return self.fail(error),
            }
        }
    }

    /// Has the rows written that are left.
    fn drain(&mut self) -> (action: CopyAction)
        requires
            old(self).parts_wf(),
            old(self)@.held is None,
        ensures
            final(self).wf(),
            final(self).settings() == old(self).settings(),
            (final(self)@, action@) == draining_effect(old(self)@),
    {
        if self.batch_tuples.len() == 0 {
            self.phase = SessionPhase::Completed;
            CopyAction::Complete { inserted_rows: self.inserted_rows }
        } else {
            self.phase = SessionPhase::Flushing;
            CopyAction::FlushBatch(FlushReason::CopyDone)
        }
    }

    /// Goes on behind a row.
    fn resume(&mut self) -> (result: PgResult<CopyAction>)
        requires
            old(self).parts_wf(),
            old(self)@.held is None,
        ensures
            final(self).wf(),
            final(self).settings() == old(self).settings(),
            is_step(resuming_effect(old(self).settings(), old(self)@), result, final(self)@),
    {
        if self.finishing {
            Ok(self.drain())
        } else {
            self.read_on()
        }
    }

    /// Puts an encoded row into the batch.
    fn add_tuple(&mut self, tuple: Vec<u8>) -> (result: PgResult<CopyAction>)
        requires
            old(self).parts_wf(),
            old(self)@.held is None,
        ensures
            final(self).wf(),
            final(self).settings() == old(self).settings(),
            is_step(adding_effect(old(self).settings(), old(self)@, tuple@), result, final(self)@),
    {
        let ghost batch = self@.batch;
        self.batch_bytes = self.batch_bytes.saturating_add(tuple.len());
        self.batch_tuples.push(tuple);
        proof {
            assert(self@.batch =~= batch.push(tuple@));
            assert(batch.push(tuple@).drop_last() =~= batch);
            lemma_total_len(batch);
        }
        if self.batch_tuples.len() >= self.batch_size {
            self.phase = SessionPhase::Flushing;
            Ok(CopyAction::FlushBatch(FlushReason::BatchSize))
        } else if self.batch_bytes >= self.batch_byte_limit {
            self.phase = SessionPhase::Flushing;
            Ok(CopyAction::FlushBatch(FlushReason::BatchBytes))
        } else {
            self.resume()
        }
    }

    /// How many bytes wait for the end of their record.
    pub fn unread_len(&self) -> (len: usize)
        ensures
            len == self@.unread.len(),
    {
        buffered_slice(&self.record_reader.pending).len()
    }

    /// Takes data of the client in.
    pub fn on_copy_data(&mut self, data: Bytes) -> (result: PgResult<CopyAction>)
        requires
            old(self).wf(),
            old(self)@.phase == SessionPhase::Reading,
            old(self)@.unread.len() + content(data).len() <= isize::MAX,
        ensures
            final(self).wf(),
            final(self).settings() == old(self).settings(),
            is_step(
                data_effect(old(self).settings(), old(self)@, content(data)),
                result,
                final(self)@,
            ),
    {
        let bytes = content_slice(&data);
        match self.ensure_incoming_record_limit(bytes) {
            Ok(()) => {},
            Err(error) => return self.fail(error),
        }
        self.record_reader.push(bytes);
        self.read_on()
    }

    /// Takes the end of the client's data in.
    pub fn on_copy_done(&mut self) -> (result: PgResult<CopyAction>)
        requires
            old(self).wf(),
            old(self)@.phase == SessionPhase::Reading,
        ensures
            final(self).wf(),
            final(self).settings() == old(self).settings(),
            is_step(done_effect(old(self).settings(), old(self)@), result, final(self)@),
    {
        match self.ensure_pending_record_limit() {
            Ok(()) => {},
            Err(error) => return self.fail(error),
        }
        self.finishing = true;
        let record = match self.record_reader.finish_record() {
            Ok(Some(record)) => record,
            Ok(None) => {
                assert(self@.unread =~= old(self)@.unread);
                return Ok(self.drain());
            },
            Err(error) => return self.fail(error),
        };
        match self.process_record(content_slice(&record)) {
            Ok(None) => Ok(self.drain()),
            Ok(Some(fields)) => {
                self.phase = SessionPhase::Encoding;
                Ok(CopyAction::EncodeRow(fields))
            },
            Err(error) => self.fail(error),
        }
    }

    /// Takes the row in that was to be encoded, or the error that came of it.
    pub fn on_row_encoded(&mut self, encoded: PgResult<Vec<u8>>) -> (result: PgResult<CopyAction>)
        requires
            old(self).wf(),
            old(self)@.phase == SessionPhase::Encoding,
        ensures
            final(self).wf(),
            final(self).settings() == old(self).settings(),
            is_step(
                match encoded {
                    Ok(tuple) => encoded_effect(old(self).settings(), old(self)@, tuple@),
                    Err(error) => encoding_failed_effect(old(self)@, error@),
                },
                result,
                final(self)@,
            ),
            encoded matches Err(error) ==> result matches Err(answer) && answer == error,
    {
        let tuple = match encoded {
            Ok(tuple) => tuple,
            Err(error) => return self.fail(error),
        };
        if self.batch_tuples.len() > 0 && self.batch_bytes.saturating_add(tuple.len())
            > self.batch_byte_limit {
            self.held_tuple = Some(tuple);
            self.phase = SessionPhase::Flushing;
            return Ok(CopyAction::FlushBatch(FlushReason::BatchBytes));
        }
        self.add_tuple(tuple)
    }

    /// Takes the number of rows in that were written of the batch, or the error that came of it.
    pub fn on_batch_flushed(&mut self, flushed: Result<usize, CopyTargetError>) -> (result:
        PgResult<CopyAction>)
        requires
            old(self).wf(),
            old(self)@.phase == SessionPhase::Flushing,
            flushed matches Ok(inserted) ==> old(self)@.inserted_rows + inserted <= usize::MAX,
        ensures
            final(self).wf(),
            final(self).settings() == old(self).settings(),
            is_step(
                match flushed {
                    Ok(inserted) => flushed_effect(
                        old(self).settings(),
                        old(self)@,
                        inserted as int,
                    ),
                    Err(error) => flush_failed_effect(old(self).settings(), old(self)@, error@),
                },
                result,
                final(self)@,
            ),
    {
        let inserted: usize = match flushed {
            Ok(inserted) => inserted,
            Err(error) => {
                let answer = map_copy_target_flush_error(&self.table_name, error);
                return self.fail(answer);
            },
        };
        self.batch_tuples.clear();
        self.batch_bytes = 0;
        self.inserted_rows = self.inserted_rows + inserted;
        assert(self@.batch =~= seq![]);
        match self.held_tuple.take() {
            Some(tuple) => self.add_tuple(tuple),
            None => self.resume(),
        }
    }
}

/// While a session waits for data, the part of a record that it has is within the limit.
pub open spec fn reading_wf(settings: CopySettings, state: CopyState) -> bool {
    state.phase == SessionPhase::Reading ==> {
        &&& !state.finishing
        &&& first_end(state.unread, 0) is None
        &&& open_record_len(state.unread) <= settings.record_byte_limit
    }
}

}
