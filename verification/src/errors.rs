//! Errors: of the SQL planner, of the storage, and those that a client is answered with.
use crate::text::{concat3, decimal, decimal_text, optional_text, smol_text};
use smol_str::SmolStr;
use tarantool::error::TarantoolErrorCode;
use vstd::prelude::*;

verus! {

/// What a planner error is about.
#[derive(Clone, Copy, Debug, PartialEq, Eq, Structural)]
pub enum Entity {
    Rule,
    Query,
    MsgPack,
    DistributionKey,
    Space,
}

/// What a planner error says was being done.
#[derive(Clone, Copy, Debug, PartialEq, Eq, Structural)]
pub enum Action {
    Encode,
    Insert,
    ReplaceOnConflict,
}

/// An error of the SQL planner and its executor.
#[derive(Clone, Debug, PartialEq, Eq)]
pub enum SbroadError {
    ParsingError(Entity, SmolStr),
    Invalid(Entity, Option<SmolStr>),
    FailedTo(Action, Option<Entity>, SmolStr),
    NotFound(Entity, SmolStr),
    OutdatedStorageSchema,
    /// Any other planner error, by its message.
    Other(SmolStr),
}

/// A planner error with its texts as sequences of characters.
pub enum SbroadErrorView {
    ParsingError(Entity, Seq<char>),
    Invalid(Entity, Option<Seq<char>>),
    FailedTo(Action, Option<Entity>, Seq<char>),
    NotFound(Entity, Seq<char>),
    OutdatedStorageSchema,
    Other(Seq<char>),
}

impl View for SbroadError {
    type V = SbroadErrorView;

    open spec fn view(&self) -> SbroadErrorView {
        match *self {
            SbroadError::ParsingError(entity, text) => SbroadErrorView::ParsingError(
                entity,
                smol_text(text),
            ),
            SbroadError::Invalid(entity, text) => SbroadErrorView::Invalid(
                entity,
                optional_text(text),
            ),
            SbroadError::FailedTo(action, entity, text) => SbroadErrorView::FailedTo(
                action,
                entity,
                smol_text(text),
            ),
            SbroadError::NotFound(entity, text) => SbroadErrorView::NotFound(
                entity,
                smol_text(text),
            ),
            SbroadError::OutdatedStorageSchema => SbroadErrorView::OutdatedStorageSchema,
            SbroadError::Other(text) => SbroadErrorView::Other(smol_text(text)),
        }
    }
}

/// An error that the database reports: its number and its message.
#[derive(Clone, Debug, PartialEq, Eq)]
pub struct TarantoolError {
    pub code: u32,
    pub message: SmolStr,
}

/// A database error with its message as a sequence of characters.
pub struct TarantoolErrorView {
    pub code: u32,
    pub message: Seq<char>,
}

impl View for TarantoolError {
    type V = TarantoolErrorView;

    open spec fn view(&self) -> TarantoolErrorView {
        TarantoolErrorView { code: self.code, message: smol_text(self.message) }
    }
}

/// An error of a compare-and-swap request to the cluster.
#[derive(Clone, Debug, PartialEq, Eq)]
pub enum CasError {
    TableNotOperable { table: SmolStr },
    /// Any other one, by its message.
    Other(SmolStr),
}

/// An error of the cluster.
#[derive(Clone, Debug, PartialEq, Eq)]
pub enum PicodataError {
    Cas(CasError),
    /// Any other one, by its message.
    Other(SmolStr),
}

/// An error of the cluster with its texts as sequences of characters.
pub enum PicodataErrorView {
    TableNotOperable { table: Seq<char> },
    OtherCas(Seq<char>),
    Other(Seq<char>),
}

impl View for PicodataError {
    type V = PicodataErrorView;

    open spec fn view(&self) -> PicodataErrorView {
        match *self {
            PicodataError::Cas(CasError::TableNotOperable { table }) => {
                PicodataErrorView::TableNotOperable { table: smol_text(table) }
            },
            PicodataError::Cas(CasError::Other(text)) => PicodataErrorView::OtherCas(
                smol_text(text),
            ),
            PicodataError::Other(text) => PicodataErrorView::Other(smol_text(text)),
        }
    }
}

/// Why the target of a COPY cannot be prepared or written to.
#[derive(Clone, Debug, PartialEq, Eq)]
pub enum CopyTargetError {
    TableDoesNotExist { table: SmolStr },
    DuplicateColumn { column: SmolStr },
    ColumnDoesNotExist { column: SmolStr },
    SystemColumnInsertNotAllowed { column: SmolStr },
    MissingRequiredColumn { column: SmolStr },
    Internal(SmolStr),
    FeatureNotSupported(SmolStr),
    MissingBucketId,
    MissingBucketRoute { tier_name: SmolStr, bucket_id: u64 },
    Picodata(PicodataError),
    Storage(SbroadError),
    Tarantool(TarantoolError),
}

/// An error of a COPY target with its texts as sequences of characters.
pub enum CopyTargetErrorView {
    TableDoesNotExist { table: Seq<char> },
    DuplicateColumn { column: Seq<char> },
    ColumnDoesNotExist { column: Seq<char> },
    SystemColumnInsertNotAllowed { column: Seq<char> },
    MissingRequiredColumn { column: Seq<char> },
    Internal(Seq<char>),
    FeatureNotSupported(Seq<char>),
    MissingBucketId,
    MissingBucketRoute { tier_name: Seq<char>, bucket_id: u64 },
    Picodata(PicodataErrorView),
    Storage(SbroadErrorView),
    Tarantool(TarantoolErrorView),
}

impl View for CopyTargetError {
    type V = CopyTargetErrorView;

    open spec fn view(&self) -> CopyTargetErrorView {
        match *self {
            CopyTargetError::TableDoesNotExist { table } => {
                CopyTargetErrorView::TableDoesNotExist { table: smol_text(table) }
            },
            CopyTargetError::DuplicateColumn { column } => {
                CopyTargetErrorView::DuplicateColumn { column: smol_text(column) }
            },
            CopyTargetError::ColumnDoesNotExist { column } => {
                CopyTargetErrorView::ColumnDoesNotExist { column: smol_text(column) }
            },
            CopyTargetError::SystemColumnInsertNotAllowed { column } => {
                CopyTargetErrorView::SystemColumnInsertNotAllowed { column: smol_text(column) }
            },
            CopyTargetError::MissingRequiredColumn { column } => {
                CopyTargetErrorView::MissingRequiredColumn { column: smol_text(column) }
            },
            CopyTargetError::Internal(text) => CopyTargetErrorView::Internal(smol_text(text)),
            CopyTargetError::FeatureNotSupported(text) => {
                CopyTargetErrorView::FeatureNotSupported(smol_text(text))
            },
            CopyTargetError::MissingBucketId => CopyTargetErrorView::MissingBucketId,
            CopyTargetError::MissingBucketRoute { tier_name, bucket_id } => {
                CopyTargetErrorView::MissingBucketRoute {
                    tier_name: smol_text(tier_name),
                    bucket_id,
                }
            },
            CopyTargetError::Picodata(error) => CopyTargetErrorView::Picodata(error@),
            CopyTargetError::Storage(error) => CopyTargetErrorView::Storage(error@),
            CopyTargetError::Tarantool(error) => CopyTargetErrorView::Tarantool(error@),
        }
    }
}

/// The error codes that COPY answers with.
#[derive(Clone, Copy, Debug, PartialEq, Eq, Structural)]
pub enum PgErrorCode {
    BadCopyFileFormat,
    UndefinedTable,
    DuplicateColumn,
    UndefinedColumn,
    InvalidColumnReference,
    NotNullViolation,
    InternalError,
    ObjectNotInPrerequisiteState,
    InsufficientPrivilege,
}

/// An error with a code of its own and the reason for it.
#[derive(Clone, Debug, PartialEq, Eq)]
pub struct PedanticError {
    pub code: PgErrorCode,
    pub reason: String,
}

/// An error that a client is answered with.
#[derive(Clone, Debug, PartialEq, Eq)]
pub enum PgError {
    Pedantic(PedanticError),
    FeatureNotSupported(SmolStr),
    ProtocolViolation(SmolStr),
    Picodata(PicodataError),
    Sbroad(SbroadError),
    Tarantool(TarantoolError),
    /// Any other one, by its message.
    Other(SmolStr),
}

/// What answers a client, or an error.
pub type PgResult<T> = Result<T, PgError>;

/// An answer to a client with its texts as sequences of characters.
pub enum PgErrorView {
    Pedantic(PgErrorCode, Seq<char>),
    FeatureNotSupported(Seq<char>),
    ProtocolViolation(Seq<char>),
    Picodata(PicodataErrorView),
    Sbroad(SbroadErrorView),
    Tarantool(TarantoolErrorView),
    Other(Seq<char>),
}

impl View for PgError {
    type V = PgErrorView;

    open spec fn view(&self) -> PgErrorView {
        match *self {
            PgError::Pedantic(error) => PgErrorView::Pedantic(error.code, error.reason@),
            PgError::FeatureNotSupported(text) => PgErrorView::FeatureNotSupported(
                smol_text(text),
            ),
            PgError::ProtocolViolation(text) => PgErrorView::ProtocolViolation(smol_text(text)),
            PgError::Picodata(error) => PgErrorView::Picodata(error@),
            PgError::Sbroad(error) => PgErrorView::Sbroad(error@),
            PgError::Tarantool(error) => PgErrorView::Tarantool(error@),
            PgError::Other(text) => PgErrorView::Other(smol_text(text)),
        }
    }
}

/// `TarantoolErrorCode::AccessDenied` is the number 42.
#[verifier::external_body]
pub(crate) fn access_denied_code() -> (code: u32)
    ensures
        code == 42,
{
    TarantoolErrorCode::AccessDenied as u32
}

/// `TarantoolErrorCode::TupleFound` is the number 3.
#[verifier::external_body]
pub(crate) fn tuple_found_code() -> (code: u32)
    ensures
        code == 3,
{
    TarantoolErrorCode::TupleFound as u32
}

/// An error with code `code`.
pub fn pedantic(code: PgErrorCode, reason: String) -> (error: PgError)
    ensures
        error@ == PgErrorView::Pedantic(code, reason@),
{
    PgError::Pedantic(PedanticError { code, reason })
}

/// The answer to COPY data that breaks the format, for the reason given.
pub fn bad_copy_format(reason: String) -> (error: PgError)
    ensures
        error@ == PgErrorView::Pedantic(PgErrorCode::BadCopyFileFormat, reason@),
{
    pedantic(PgErrorCode::BadCopyFileFormat, reason)
}

/// What a client is answered when the target of its COPY fails with `error`.
pub open spec fn target_error_answer(error: CopyTargetErrorView) -> PgErrorView {
    match error {
        CopyTargetErrorView::TableDoesNotExist { table } => PgErrorView::Pedantic(
            PgErrorCode::UndefinedTable,
            "table does not exist: "@ + table,
        ),
        CopyTargetErrorView::DuplicateColumn { column } => PgErrorView::Pedantic(
            PgErrorCode::DuplicateColumn,
            "column \""@ + column + "\" specified more than once"@,
        ),
        CopyTargetErrorView::ColumnDoesNotExist { column } => PgErrorView::Pedantic(
            PgErrorCode::UndefinedColumn,
            "column does not exist: "@ + column,
        ),
        CopyTargetErrorView::SystemColumnInsertNotAllowed { column } => PgErrorView::Pedantic(
            PgErrorCode::InvalidColumnReference,
            "system column \""@ + column + "\" cannot be inserted"@,
        ),
        CopyTargetErrorView::MissingRequiredColumn { column } => PgErrorView::Pedantic(
            PgErrorCode::NotNullViolation,
            "NonNull column \""@ + column + "\" must be specified"@,
        ),
        CopyTargetErrorView::Internal(message) => PgErrorView::Pedantic(
            PgErrorCode::InternalError,
            message,
        ),
        CopyTargetErrorView::FeatureNotSupported(message) => PgErrorView::FeatureNotSupported(
            message,
        ),
        CopyTargetErrorView::MissingBucketId => PgErrorView::Pedantic(
            PgErrorCode::InternalError,
            "bucket id is missing"@,
        ),
        CopyTargetErrorView::MissingBucketRoute { tier_name, bucket_id } => PgErrorView::Pedantic(
            PgErrorCode::InternalError,
            "bucket "@ + decimal(bucket_id as nat) + " has no route in tier "@ + tier_name,
        ),
        CopyTargetErrorView::Picodata(PicodataErrorView::TableNotOperable { table }) => {
            PgErrorView::Pedantic(
                PgErrorCode::ObjectNotInPrerequisiteState,
                "table "@ + table + " cannot be modified now as DDL operation is in progress"@,
            )
        },
        CopyTargetErrorView::Picodata(error) => PgErrorView::Picodata(error),
        CopyTargetErrorView::Storage(error) => PgErrorView::Sbroad(error),
        CopyTargetErrorView::Tarantool(error) => if error.code == 42 {
            PgErrorView::Pedantic(PgErrorCode::InsufficientPrivilege, error.message)
        } else {
            PgErrorView::Tarantool(error)
        },
    }
}

/// Turns an error of a COPY target into the answer to the client.
pub fn map_copy_target_error(error: CopyTargetError) -> (answer: PgError)
    ensures
        answer@ == target_error_answer(error@),
{
    match error {
        CopyTargetError::TableDoesNotExist { table } => pedantic(
            PgErrorCode::UndefinedTable,
            "table does not exist: ".to_owned().concat(table.as_str()),
        ),
        CopyTargetError::DuplicateColumn { column } => pedantic(
            PgErrorCode::DuplicateColumn,
            concat3("column \"", column.as_str(), "\" specified more than once"),
        ),
        CopyTargetError::ColumnDoesNotExist { column } => pedantic(
            PgErrorCode::UndefinedColumn,
            "column does not exist: ".to_owned().concat(column.as_str()),
        ),
        CopyTargetError::SystemColumnInsertNotAllowed { column } => pedantic(
            PgErrorCode::InvalidColumnReference,
            concat3("system column \"", column.as_str(), "\" cannot be inserted"),
        ),
        CopyTargetError::MissingRequiredColumn { column } => pedantic(
            PgErrorCode::NotNullViolation,
            concat3("NonNull column \"", column.as_str(), "\" must be specified"),
        ),
        CopyTargetError::Internal(message) => pedantic(
            PgErrorCode::InternalError,
            message.as_str().to_owned(),
        ),
        CopyTargetError::FeatureNotSupported(message) => PgError::FeatureNotSupported(message),
        CopyTargetError::MissingBucketId => pedantic(
            PgErrorCode::InternalError,
            "bucket id is missing".to_owned(),
        ),
        CopyTargetError::MissingBucketRoute { tier_name, bucket_id } => {
            let number = decimal_text(bucket_id);
            pedantic(
                PgErrorCode::InternalError,
                concat3("bucket ", number.as_str(), " has no route in tier ").concat(
                    tier_name.as_str(),
                ),
            )
        },
        CopyTargetError::Picodata(PicodataError::Cas(CasError::TableNotOperable { table })) => {
            pedantic(
                PgErrorCode::ObjectNotInPrerequisiteState,
                concat3(
                    "table ",
                    table.as_str(),
                    " cannot be modified now as DDL operation is in progress",
                ),
            )
        },
        CopyTargetError::Picodata(error) => PgError::Picodata(error),
        CopyTargetError::Storage(error) => PgError::Sbroad(error),
        CopyTargetError::Tarantool(error) => if error.code == access_denied_code() {
            pedantic(PgErrorCode::InsufficientPrivilege, error.message.as_str().to_owned())
        } else {
            PgError::Tarantool(error)
        },
    }
}

/// What a client is answered when a batch for the table `table_name` cannot be written.
pub open spec fn flush_error_answer(
    table_name: Seq<char>,
    error: CopyTargetErrorView,
) -> PgErrorView {
    if error == CopyTargetErrorView::Storage(SbroadErrorView::OutdatedStorageSchema) {
        PgErrorView::Pedantic(
            PgErrorCode::ObjectNotInPrerequisiteState,
            "target table schema changed during execution: "@ + table_name,
        )
    } else {
        target_error_answer(error)
    }
}

/// Turns the error of a write of a batch into the answer to the client.
pub fn map_copy_target_flush_error(table_name: &SmolStr, error: CopyTargetError) -> (answer:
    PgError)
    ensures
        answer@ == flush_error_answer(smol_text(*table_name), error@),
{
    match error {
        CopyTargetError::Storage(SbroadError::OutdatedStorageSchema) => pedantic(
            PgErrorCode::ObjectNotInPrerequisiteState,
            "target table schema changed during execution: ".to_owned().concat(
                table_name.as_str(),
            ),
        ),
        other => map_copy_target_error(other),
    }
}

}
