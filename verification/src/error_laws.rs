//! What a client is told of the errors of a table.
use crate::errors::{
    flush_error_answer, target_error_answer, CasError, CopyTargetError, CopyTargetErrorView,
    PedanticError, PgError, PgErrorCode, PgErrorView, PicodataError, PicodataErrorView,
    SbroadError, SbroadErrorView, TarantoolError,
};
use crate::text::{decimal, smol_text};
use smol_str::SmolStr;
use vstd::prelude::*;

verus! {

/// An error that names a table or a column is told with that name and with the code that clients
/// know it by.
pub proof fn law_errors_about_names_are_told(name: Seq<char>)
    ensures
        target_error_answer(CopyTargetErrorView::TableDoesNotExist { table: name })
            == PgErrorView::Pedantic(
            PgErrorCode::UndefinedTable,
            "table does not exist: "@ + name,
        ),
        target_error_answer(CopyTargetErrorView::DuplicateColumn { column: name })
            == PgErrorView::Pedantic(
            PgErrorCode::DuplicateColumn,
            "column \""@ + name + "\" specified more than once"@,
        ),
        target_error_answer(CopyTargetErrorView::ColumnDoesNotExist { column: name })
            == PgErrorView::Pedantic(
            PgErrorCode::UndefinedColumn,
            "column does not exist: "@ + name,
        ),
        target_error_answer(CopyTargetErrorView::SystemColumnInsertNotAllowed { column: name })
            == PgErrorView::Pedantic(
            PgErrorCode::InvalidColumnReference,
            "system column \""@ + name + "\" cannot be inserted"@,
        ),
        target_error_answer(CopyTargetErrorView::MissingRequiredColumn { column: name })
            == PgErrorView::Pedantic(
            PgErrorCode::NotNullViolation,
            "NonNull column \""@ + name + "\" must be specified"@,
        ),
        target_error_answer(
            CopyTargetErrorView::Picodata(PicodataErrorView::TableNotOperable { table: name }),
        ) == PgErrorView::Pedantic(
            PgErrorCode::ObjectNotInPrerequisiteState,
            "table "@ + name + " cannot be modified now as DDL operation is in progress"@,
        ),
{
}

/// Errors within the server are told as such, and what is not supported as that, in their own
/// words.
pub proof fn law_inner_errors_are_told(message: Seq<char>, bucket_id: u64)
    ensures
        target_error_answer(CopyTargetErrorView::Internal(message)) == PgErrorView::Pedantic(
            PgErrorCode::InternalError,
            message,
        ),
        target_error_answer(CopyTargetErrorView::FeatureNotSupported(message))
            == PgErrorView::FeatureNotSupported(message),
        target_error_answer(CopyTargetErrorView::MissingBucketId) matches PgErrorView::Pedantic(
            code,
            _,
        ) && code == PgErrorCode::InternalError,
        target_error_answer(
            CopyTargetErrorView::MissingBucketRoute { tier_name: message, bucket_id },
        ) == PgErrorView::Pedantic(
            PgErrorCode::InternalError,
            "bucket "@ + decimal(bucket_id as nat) + " has no route in tier "@ + message,
        ),
{
}

/// An error of the planner, of the cluster or of the database is handed on as it is, but for one of
/// the database that says access is denied, which is told as a lack of privilege, in its words.
pub proof fn law_outer_errors_are_handed_on(error: CopyTargetErrorView)
    ensures
        match error {
            CopyTargetErrorView::Storage(inner) => target_error_answer(error)
                == PgErrorView::Sbroad(inner),
            CopyTargetErrorView::Picodata(inner) => inner !is TableNotOperable
                ==> target_error_answer(error) == PgErrorView::Picodata(inner),
            CopyTargetErrorView::Tarantool(inner) => target_error_answer(error) == if inner.code
                == 42 {
                PgErrorView::Pedantic(PgErrorCode::InsufficientPrivilege, inner.message)
            } else {
                PgErrorView::Tarantool(inner)
            },
            _ => true,
        },
{
}

/// A batch that cannot be written because the schema of its table has changed is told so, with the
/// name of the table; any other error of a write is told as that of a table.
pub proof fn law_changed_schema_is_told(table_name: Seq<char>, error: CopyTargetErrorView)
    ensures
        flush_error_answer(
            table_name,
            CopyTargetErrorView::Storage(SbroadErrorView::OutdatedStorageSchema),
        ) == PgErrorView::Pedantic(
            PgErrorCode::ObjectNotInPrerequisiteState,
            "target table schema changed during execution: "@ + table_name,
        ),
        error != CopyTargetErrorView::Storage(SbroadErrorView::OutdatedStorageSchema)
            ==> flush_error_answer(table_name, error) == target_error_answer(error),
{
}

/// Whether an error of the planner is seen as what it holds.
pub open spec fn is_seen(error: SbroadError) -> bool {
    match error {
        SbroadError::ParsingError(entity, text) => error@ == SbroadErrorView::ParsingError(
            entity,
            smol_text(text),
        ),
        SbroadError::Invalid(entity, Some(text)) => error@ == SbroadErrorView::Invalid(
            entity,
            Some(smol_text(text)),
        ),
        SbroadError::Invalid(entity, None) => error@ == SbroadErrorView::Invalid(entity, None),
        SbroadError::FailedTo(action, entity, text) => error@ == SbroadErrorView::FailedTo(
            action,
            entity,
            smol_text(text),
        ),
        SbroadError::NotFound(entity, text) => error@ == SbroadErrorView::NotFound(
            entity,
            smol_text(text),
        ),
        SbroadError::OutdatedStorageSchema => error@ == SbroadErrorView::OutdatedStorageSchema,
        SbroadError::Other(text) => error@ == SbroadErrorView::Other(smol_text(text)),
    }
}

/// Errors of the planner, of the database and of the cluster are seen as what they hold: the kind,
/// the number and the text of each.
pub proof fn law_outer_errors_are_seen_as_they_are(
    planner: SbroadError,
    database: TarantoolError,
    text: SmolStr,
)
    ensures
        is_seen(planner),
        database@.code == database.code,
        database@.message == smol_text(database.message),
        PicodataError::Cas((CasError::TableNotOperable { table: text }))@ == (
        PicodataErrorView::TableNotOperable { table: smol_text(text) }),
        PicodataError::Cas(CasError::Other(text))@ == PicodataErrorView::OtherCas(smol_text(text)),
        PicodataError::Other(text)@ == PicodataErrorView::Other(smol_text(text)),
{
}

/// Errors of a table are seen as what they hold: what is wrong, and with which table, column, tier
/// or bucket.
pub proof fn law_target_errors_are_seen_as_they_are(
    text: SmolStr,
    bucket_id: u64,
    planner: SbroadError,
    database: TarantoolError,
    cluster: PicodataError,
)
    ensures
        (CopyTargetError::TableDoesNotExist { table: text })@ == (
        CopyTargetErrorView::TableDoesNotExist { table: smol_text(text) }),
        (CopyTargetError::DuplicateColumn { column: text })@ == (
        CopyTargetErrorView::DuplicateColumn { column: smol_text(text) }),
        (CopyTargetError::ColumnDoesNotExist { column: text })@ == (
        CopyTargetErrorView::ColumnDoesNotExist { column: smol_text(text) }),
        (CopyTargetError::SystemColumnInsertNotAllowed { column: text })@ == (
        CopyTargetErrorView::SystemColumnInsertNotAllowed { column: smol_text(text) }),
        (CopyTargetError::MissingRequiredColumn { column: text })@ == (
        CopyTargetErrorView::MissingRequiredColumn { column: smol_text(text) }),
        CopyTargetError::Internal(text)@ == CopyTargetErrorView::Internal(smol_text(text)),
        CopyTargetError::FeatureNotSupported(text)@ == CopyTargetErrorView::FeatureNotSupported(
            smol_text(text),
        ),
        CopyTargetError::MissingBucketId@ == CopyTargetErrorView::MissingBucketId,
        (CopyTargetError::MissingBucketRoute { tier_name: text, bucket_id })@ == (
        CopyTargetErrorView::MissingBucketRoute { tier_name: smol_text(text), bucket_id }),
        CopyTargetError::Storage(planner)@ == CopyTargetErrorView::Storage(planner@),
        CopyTargetError::Tarantool(database)@ == CopyTargetErrorView::Tarantool(database@),
        CopyTargetError::Picodata(cluster)@ == CopyTargetErrorView::Picodata(cluster@),
{
}

/// What a client is answered with is seen as what it holds: the code and the reason, or the error
/// that is handed on.
pub proof fn law_answers_are_seen_as_they_are(
    error: PedanticError,
    text: SmolStr,
    planner: SbroadError,
    database: TarantoolError,
    cluster: PicodataError,
)
    ensures
        PgError::Pedantic(error)@ == PgErrorView::Pedantic(error.code, error.reason@),
        PgError::FeatureNotSupported(text)@ == PgErrorView::FeatureNotSupported(smol_text(text)),
        PgError::ProtocolViolation(text)@ == PgErrorView::ProtocolViolation(smol_text(text)),
        PgError::Sbroad(planner)@ == PgErrorView::Sbroad(planner@),
        PgError::Tarantool(database)@ == PgErrorView::Tarantool(database@),
        PgError::Picodata(cluster)@ == PgErrorView::Picodata(cluster@),
        PgError::Other(text)@ == PgErrorView::Other(smol_text(text)),
{
}

}
