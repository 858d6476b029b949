//! The messages that go to and fro while a client sends rows.
use crate::errors::{PgError, PgErrorView, PgResult};
use crate::text::smol;
use bytes::Bytes;
use vstd::prelude::*;

verus! {

/// In which of the two protocols of PostgreSQL the command came.
#[derive(Clone, Copy, Debug, PartialEq, Eq, Structural)]
pub enum CopyInMode {
    SimpleQuery,
    ExtendedQuery,
}

/// What a message of the client comes down to.
#[derive(Clone, Debug, PartialEq, Eq)]
pub enum CopyInMessageOutcome {
    Continue,
    Done { inserted_rows: usize },
    ClientFailed { reason: String },
    Terminate,
}

/// A message of the client. Those that have no part in COPY are held as they are shown in a
/// report.
#[derive(Debug)]
pub enum FeMessage {
    CopyData(Bytes),
    CopyDone,
    CopyFail(String),
    Flush,
    Sync,
    Terminate,
    Other(String),
}

/// What is to be done about a message of the client.
#[derive(Debug)]
pub enum CopyInAction {
    /// Hand the bytes to the session, then answer as `outcome_of_data` says.
    Feed(Bytes),
    /// Finish the session, then answer as `outcome_of_done` says.
    Finish,
    /// Drop the session, then answer.
    Abort(CopyInMessageOutcome),
    /// Answer.
    Answer(CopyInMessageOutcome),
}

/// Whether a client may send a message while it sends rows.
pub open spec fn is_copy_in(message: FeMessage) -> bool {
    message is CopyData || message is CopyDone || message is CopyFail || message is Flush
        || message is Sync
}

/// Whether a client may send a message while it sends rows.
pub fn is_copy_in_message(message: &FeMessage) -> (result: bool)
    ensures
        result == is_copy_in(*message),
{
    matches!(
        message,
        FeMessage::CopyData(_)
            | FeMessage::CopyDone
            | FeMessage::CopyFail(_)
            | FeMessage::Flush
            | FeMessage::Sync
    )
}

/// How many columns the rows of a session have.
#[derive(Clone, Copy, Debug, PartialEq, Eq, Structural)]
pub struct CopyStart {
    pub column_count: usize,
}

/// The message that asks the client for its rows: the format of the whole and that of each
/// column, where zero is text.
#[derive(Clone, Debug, PartialEq, Eq)]
pub struct CopyInResponse {
    pub format: i8,
    pub column_formats: Vec<i16>,
}

/// The message, to be written to the client, that asks it for its rows in the text format.
pub fn send_copy_in_response(start: &CopyStart) -> (response: CopyInResponse)
    ensures
        response.format == 0,
        response.column_formats@ == Seq::new(start.column_count as nat, |i: int| 0i16),
{
    let mut column_formats: Vec<i16> = Vec::new();
    while column_formats.len() < start.column_count
        invariant
            column_formats@.len() <= start.column_count,
            forall|i: int| 0 <= i < column_formats@.len() ==> column_formats@[i] == 0,
        decreases start.column_count - column_formats@.len(),
    {
        column_formats.push(0);
    }
    assert(column_formats@ =~= Seq::new(start.column_count as nat, |i: int| 0i16));
    CopyInResponse { format: 0, column_formats }
}

/// Decides about a message of the client: rows are fed to the session, the end finishes it, a
/// failure of the client and its leaving abort it; whatever has no part in COPY is refused.
pub fn process_copy_in_message(message: FeMessage) -> (result: PgResult<CopyInAction>)
    ensures
        match message {
            FeMessage::CopyData(data) => result matches Ok(CopyInAction::Feed(fed)) && fed == data,
            FeMessage::CopyDone => result matches Ok(CopyInAction::Finish),
            FeMessage::CopyFail(text) => result matches Ok(
                CopyInAction::Abort(CopyInMessageOutcome::ClientFailed { reason }),
            ) && reason == text,
            FeMessage::Flush | FeMessage::Sync => result matches Ok(
                CopyInAction::Answer(CopyInMessageOutcome::Continue),
            ),
            FeMessage::Terminate => result matches Ok(
                CopyInAction::Abort(CopyInMessageOutcome::Terminate),
            ),
            FeMessage::Other(shown) => result matches Err(answer) && answer@
                == PgErrorView::ProtocolViolation(
                "unexpected frontend message during COPY FROM STDIN: "@ + shown@,
            ),
        },
        result is Ok <==> is_copy_in(message) || message is Terminate,
{
    match message {
        FeMessage::CopyData(data) => Ok(CopyInAction::Feed(data)),
        FeMessage::CopyDone => Ok(CopyInAction::Finish),
        FeMessage::CopyFail(reason) => Ok(
            CopyInAction::Abort(CopyInMessageOutcome::ClientFailed { reason }),
        ),
        FeMessage::Flush | FeMessage::Sync => Ok(
            CopyInAction::Answer(CopyInMessageOutcome::Continue),
        ),
        FeMessage::Terminate => Ok(CopyInAction::Abort(CopyInMessageOutcome::Terminate)),
        FeMessage::Other(shown) => {
            let reason = "unexpected frontend message during COPY FROM STDIN: ".to_owned().concat(
                shown.as_str(),
            );
            Err(PgError::ProtocolViolation(smol(reason.as_str())))
        },
    }
}

/// What comes of rows that were fed to the session.
pub fn outcome_of_data(fed: PgResult<()>) -> (result: PgResult<CopyInMessageOutcome>)
    ensures
        match fed {
            Ok(()) => result matches Ok(CopyInMessageOutcome::Continue),
            Err(error) => result matches Err(answer) && answer == error,
        },
{
    match fed {
        Ok(()) => Ok(CopyInMessageOutcome::Continue),
        Err(error) => Err(error),
    }
}

/// What comes of a session that was finished.
pub fn outcome_of_done(finished: PgResult<usize>) -> (result: PgResult<CopyInMessageOutcome>)
    ensures
        match finished {
            Ok(rows) => result matches Ok(CopyInMessageOutcome::Done { inserted_rows })
                && inserted_rows == rows,
            Err(error) => result matches Err(answer) && answer == error,
        },
{
    match finished {
        Ok(inserted_rows) => Ok(CopyInMessageOutcome::Done { inserted_rows }),
        Err(error) => Err(error),
    }
}

/// While it sends rows, a client may send everything that has a part in COPY: all that is not
/// refused, but for its leaving.
pub proof fn law_only_leaving_and_strange_messages_have_no_part(message: FeMessage)
    ensures
        is_copy_in(message) <==> !(message is Terminate) && !(message is Other),
{
}

}
