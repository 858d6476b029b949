use bytes::Bytes;
use pgcopy::errors::PgError;
use pgcopy::pgproto::copy_in::{
    is_copy_in_message, outcome_of_data, outcome_of_done, process_copy_in_message,
    send_copy_in_response, CopyInAction, CopyInMessageOutcome, CopyInMode, CopyStart, FeMessage,
};
use pgcopy::pgproto::spec::{
    copy_format_name, parse_copy_delimiter, resolve_copy_batch_size, CopySpec, PreparedCopy,
};
use pgcopy::sql::statement::{
    CopyFormat, CopyFrom, CopyOptions, CopyStatement, CopyTableTarget, CopyTo,
};

fn table() -> CopyTableTarget {
    CopyTableTarget {
        schema_name: Some("s".into()),
        table_name: "t".into(),
        columns: vec!["a".into()],
    }
}

fn from(options: CopyOptions) -> CopyStatement {
    CopyStatement::From(CopyFrom {
        table: table(),
        options,
    })
}

fn unsupported(text: &str) -> PgError {
    PgError::FeatureNotSupported(text.into())
}

#[test]
fn messages_of_a_copy_are_told_from_others() {
    assert!(is_copy_in_message(&FeMessage::CopyData(Bytes::from_static(b"x"))));
    assert!(is_copy_in_message(&FeMessage::CopyDone));
    assert!(is_copy_in_message(&FeMessage::CopyFail("why".into())));
    assert!(is_copy_in_message(&FeMessage::Flush));
    assert!(is_copy_in_message(&FeMessage::Sync));
    assert!(!is_copy_in_message(&FeMessage::Terminate));
    assert!(!is_copy_in_message(&FeMessage::Other("Query".into())));
}

#[test]
fn the_response_asks_for_text() {
    let response = send_copy_in_response(&CopyStart { column_count: 3 });
    assert_eq!(response.format, 0);
    assert_eq!(response.column_formats, vec![0, 0, 0]);
    assert_ne!(CopyInMode::SimpleQuery, CopyInMode::ExtendedQuery);
}

#[test]
fn each_message_has_its_action() {
    match process_copy_in_message(FeMessage::CopyData(Bytes::from_static(b"xy"))) {
        Ok(CopyInAction::Feed(data)) => assert_eq!(data.as_ref(), b"xy"),
        other => panic!("{other:?}"),
    }
    assert!(matches!(
        process_copy_in_message(FeMessage::CopyDone),
        Ok(CopyInAction::Finish)
    ));
    match process_copy_in_message(FeMessage::CopyFail("why".into())) {
        Ok(CopyInAction::Abort(CopyInMessageOutcome::ClientFailed { reason })) => {
            assert_eq!(reason, "why")
        }
        other => panic!("{other:?}"),
    }
    for message in [FeMessage::Flush, FeMessage::Sync] {
        assert!(matches!(
            process_copy_in_message(message),
            Ok(CopyInAction::Answer(CopyInMessageOutcome::Continue))
        ));
    }
    assert!(matches!(
        process_copy_in_message(FeMessage::Terminate),
        Ok(CopyInAction::Abort(CopyInMessageOutcome::Terminate))
    ));
    assert_eq!(
        process_copy_in_message(FeMessage::Other("Query(..)".into())).unwrap_err(),
        PgError::ProtocolViolation(
            "unexpected frontend message during COPY FROM STDIN: Query(..)".into()
        )
    );
}

#[test]
fn outcomes_follow_the_session() {
    let failed = PgError::Other("no".into());
    assert_eq!(outcome_of_data(Ok(())), Ok(CopyInMessageOutcome::Continue));
    assert_eq!(outcome_of_data(Err(failed.clone())), Err(failed.clone()));
    assert_eq!(
        outcome_of_done(Ok(7)),
        Ok(CopyInMessageOutcome::Done { inserted_rows: 7 })
    );
    assert_eq!(outcome_of_done(Err(failed.clone())), Err(failed));
}

#[test]
fn a_command_without_options_has_the_defaults() {
    let spec = CopySpec::try_from_statement(from(CopyOptions::default())).unwrap();
    assert_eq!(spec.schema_name, Some("s".into()));
    assert_eq!(spec.table_name.as_str(), "t");
    assert_eq!(spec.columns, vec!["a"]);
    assert_eq!(spec.delimiter, b'\t');
    assert_eq!(spec.null_marker, b"\\N".to_vec());
    assert!(!spec.header);
}

#[test]
fn options_go_into_the_spec() {
    let spec = CopySpec::try_from_statement(from(CopyOptions {
        delimiter: Some("|".into()),
        null_string: Some("é".into()),
        header: true,
        ..CopyOptions::default()
    }))
    .unwrap();
    assert_eq!(spec.delimiter, b'|');
    assert_eq!(spec.null_marker, "é".as_bytes().to_vec());
    assert!(spec.header);
}

#[test]
fn unsupported_commands_are_refused() {
    let to = CopyStatement::To(CopyTo {
        table: table(),
        options: CopyOptions::default(),
    });
    assert_eq!(
        CopySpec::try_from_statement(to).unwrap_err(),
        unsupported("COPY TO is not supported")
    );
    for (format, text) in [
        (CopyFormat::Csv, "COPY format csv is not supported"),
        (CopyFormat::Binary, "COPY format binary is not supported"),
    ] {
        let options = CopyOptions {
            format,
            delimiter: Some("".into()),
            ..CopyOptions::default()
        };
        assert_eq!(
            CopySpec::try_from_statement(from(options)).unwrap_err(),
            unsupported(text)
        );
    }
    for delimiter in ["", "ab", "é"] {
        let options = CopyOptions {
            delimiter: Some(delimiter.into()),
            ..CopyOptions::default()
        };
        assert_eq!(
            CopySpec::try_from_statement(from(options)).unwrap_err(),
            unsupported("COPY delimiter must be a single-byte character")
        );
    }
    assert_eq!(parse_copy_delimiter("\n"), Ok(b'\n'));
    assert_eq!(copy_format_name(CopyFormat::Text), "text");
}

#[test]
fn batch_sizes_are_not_zero() {
    assert_eq!(resolve_copy_batch_size(None), Ok(1024));
    assert_eq!(resolve_copy_batch_size(Some(1)), Ok(1));
    assert_eq!(
        resolve_copy_batch_size(Some(0)),
        Err(unsupported("COPY batch_size must be greater than zero"))
    );
}

#[test]
fn the_query_is_shown_where_it_is_asked_for() {
    let statement = || from(CopyOptions::default());
    let prepared =
        PreparedCopy::try_from_statement(statement(), "copy t", Ok(true), None, false).unwrap();
    assert_eq!(prepared.query_for_audit(), Some("copy t"));
    assert_eq!(prepared.query_for_logging(), None);
    assert_eq!(prepared.spec().table_name.as_str(), "t");
    let prepared =
        PreparedCopy::try_from_statement(statement(), "copy t", Ok(false), Some(true), false)
            .unwrap();
    assert_eq!(prepared.query_for_audit(), None);
    assert_eq!(prepared.query_for_logging(), Some("copy t"));
    let prepared =
        PreparedCopy::try_from_statement(statement(), "q", Ok(false), None, true).unwrap();
    assert_eq!(prepared.query_for_logging(), Some("q"));
    let failed = PgError::Other("no policy".into());
    assert_eq!(
        PreparedCopy::try_from_statement(statement(), "q", Err(failed.clone()), None, true)
            .unwrap_err(),
        failed
    );
}
