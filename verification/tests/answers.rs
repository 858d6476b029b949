use pgcopy::errors::{
    map_copy_target_error, map_copy_target_flush_error, CasError, CopyTargetError, PedanticError,
    PgError, PgErrorCode, PicodataError, SbroadError, TarantoolError,
};
use tarantool::error::TarantoolErrorCode;

fn pedantic(code: PgErrorCode, reason: &str) -> PgError {
    PgError::Pedantic(PedanticError {
        code,
        reason: reason.to_string(),
    })
}

#[test]
fn errors_of_a_target_have_answers() {
    let cases = vec![
        (
            CopyTargetError::TableDoesNotExist { table: "t".into() },
            pedantic(PgErrorCode::UndefinedTable, "table does not exist: t"),
        ),
        (
            CopyTargetError::DuplicateColumn { column: "c".into() },
            pedantic(
                PgErrorCode::DuplicateColumn,
                "column \"c\" specified more than once",
            ),
        ),
        (
            CopyTargetError::ColumnDoesNotExist { column: "c".into() },
            pedantic(PgErrorCode::UndefinedColumn, "column does not exist: c"),
        ),
        (
            CopyTargetError::SystemColumnInsertNotAllowed { column: "c".into() },
            pedantic(
                PgErrorCode::InvalidColumnReference,
                "system column \"c\" cannot be inserted",
            ),
        ),
        (
            CopyTargetError::MissingRequiredColumn { column: "c".into() },
            pedantic(
                PgErrorCode::NotNullViolation,
                "NonNull column \"c\" must be specified",
            ),
        ),
        (
            CopyTargetError::Internal("oops".into()),
            pedantic(PgErrorCode::InternalError, "oops"),
        ),
        (
            CopyTargetError::MissingBucketId,
            pedantic(PgErrorCode::InternalError, "bucket id is missing"),
        ),
        (
            CopyTargetError::MissingBucketRoute {
                tier_name: "hot".into(),
                bucket_id: 1205,
            },
            pedantic(
                PgErrorCode::InternalError,
                "bucket 1205 has no route in tier hot",
            ),
        ),
        (
            CopyTargetError::FeatureNotSupported("views".into()),
            PgError::FeatureNotSupported("views".into()),
        ),
        (
            CopyTargetError::Picodata(PicodataError::Cas(CasError::TableNotOperable {
                table: "t".into(),
            })),
            pedantic(
                PgErrorCode::ObjectNotInPrerequisiteState,
                "table t cannot be modified now as DDL operation is in progress",
            ),
        ),
        (
            CopyTargetError::Picodata(PicodataError::Cas(CasError::Other("cas".into()))),
            PgError::Picodata(PicodataError::Cas(CasError::Other("cas".into()))),
        ),
        (
            CopyTargetError::Picodata(PicodataError::Other("raft".into())),
            PgError::Picodata(PicodataError::Other("raft".into())),
        ),
        (
            CopyTargetError::Storage(SbroadError::OutdatedStorageSchema),
            PgError::Sbroad(SbroadError::OutdatedStorageSchema),
        ),
    ];
    for (error, answer) in cases {
        assert_eq!(map_copy_target_error(error), answer);
    }
}

#[test]
fn a_denied_access_is_a_missing_privilege() {
    let denied = TarantoolError {
        code: TarantoolErrorCode::AccessDenied as u32,
        message: "no".into(),
    };
    assert_eq!(
        map_copy_target_error(CopyTargetError::Tarantool(denied)),
        pedantic(PgErrorCode::InsufficientPrivilege, "no")
    );
    let other = TarantoolError {
        code: TarantoolErrorCode::NoSuchSpace as u32,
        message: "no space".into(),
    };
    assert_eq!(
        map_copy_target_error(CopyTargetError::Tarantool(other.clone())),
        PgError::Tarantool(other)
    );
}

#[test]
fn a_schema_that_changed_is_named_on_flush() {
    let error = CopyTargetError::Storage(SbroadError::OutdatedStorageSchema);
    assert_eq!(
        map_copy_target_flush_error(&"t".into(), error),
        pedantic(
            PgErrorCode::ObjectNotInPrerequisiteState,
            "target table schema changed during execution: t"
        )
    );
    let error = CopyTargetError::Internal("oops".into());
    assert_eq!(
        map_copy_target_flush_error(&"t".into(), error),
        pedantic(PgErrorCode::InternalError, "oops")
    );
}
