use bytes::Bytes;
use pgcopy::errors::{
    bad_copy_format, CopyTargetError, PedanticError, PgError, PgErrorCode, PgResult, SbroadError,
};
use pgcopy::pgproto::session::{
    record_limit_error, CopyAction, CopyField, CopySession, FlushReason,
};
use pgcopy::pgproto::start::{copy_field_oid, copy_target_request, start_copy};
use pgcopy::pgproto::spec::CopySpec;
use pgcopy::storage::direct_insert::{ConflictPolicy, DirectInsertTarget};
use pgcopy::storage::target::{CopyRouting, PreparedCopyTarget};
use postgres_types::Type;

struct Limits {
    header: bool,
    batch_size: usize,
    batch_bytes: usize,
    record_bytes: usize,
}

const WIDE: Limits = Limits {
    header: false,
    batch_size: 100,
    batch_bytes: 1000,
    record_bytes: 1000,
};

fn session(limits: Limits) -> CopySession {
    CopySession::new(
        "t".into(),
        vec![20, 25],
        b'\t',
        b"\\N".to_vec(),
        limits.header,
        limits.batch_size,
        limits.batch_bytes,
        limits.record_bytes,
    )
}

/// Runs a session: a row is encoded by joining its values with `|`, and each batch is kept.
struct Client {
    session: CopySession,
    rows: Vec<Vec<CopyField>>,
    batches: Vec<(FlushReason, Vec<Vec<u8>>)>,
}

impl Client {
    fn new(limits: Limits) -> Self {
        Client {
            session: session(limits),
            rows: Vec::new(),
            batches: Vec::new(),
        }
    }

    fn run(&mut self, action: PgResult<CopyAction>) -> PgResult<Option<usize>> {
        let mut action = action?;
        loop {
            action = match action {
                CopyAction::AwaitData => return Ok(None),
                CopyAction::Complete { inserted_rows } => return Ok(Some(inserted_rows)),
                CopyAction::EncodeRow(fields) => {
                    let values: Vec<Vec<u8>> = fields
                        .iter()
                        .map(|field| field.value.clone().unwrap_or_default())
                        .collect();
                    self.rows.push(fields);
                    self.session.on_row_encoded(Ok(values.join(&b'|')))?
                }
                CopyAction::FlushBatch(reason) => {
                    let batch = self.session.batch_tuples().clone();
                    let count = batch.len();
                    self.batches.push((reason, batch));
                    self.session.on_batch_flushed(Ok(count))?
                }
            };
        }
    }

    fn data(&mut self, data: &[u8]) -> PgResult<Option<usize>> {
        let action = self.session.on_copy_data(Bytes::copy_from_slice(data));
        self.run(action)
    }

    fn done(&mut self) -> PgResult<Option<usize>> {
        let action = self.session.on_copy_done();
        self.run(action)
    }

    fn written(&self) -> Vec<Vec<u8>> {
        self.batches.iter().flat_map(|(_, batch)| batch.clone()).collect()
    }
}

#[test]
fn rows_are_written_once_and_in_order() {
    let mut client = Client::new(WIDE);
    assert_eq!(client.data(b"1\ta\n2\tb\n3"), Ok(None));
    assert_eq!(client.data(b"\t\\N\n4\td"), Ok(None));
    assert!(client.batches.is_empty());
    assert_eq!(client.done(), Ok(Some(4)));
    assert_eq!(
        client.batches,
        vec![(
            FlushReason::CopyDone,
            vec![b"1|a".to_vec(), b"2|b".to_vec(), b"3|".to_vec(), b"4|d".to_vec()]
        )]
    );
    assert_eq!(
        client.rows[2],
        vec![
            CopyField {
                value: Some(b"3".to_vec()),
                oid: 20
            },
            CopyField {
                value: None,
                oid: 25
            }
        ]
    );
}

#[test]
fn rows_do_not_depend_on_the_messages() {
    let data = b"1\ta\r\n2\tb\\\r\n\r\n3\tc\r\n4\td".to_vec();
    let mut whole = Client::new(WIDE);
    assert!(whole.data(b"1\ta\r\n2\tb\\\\\r\n3\tc\r\n4\td").is_ok());
    for size in 1..data.len() {
        let mut client = Client::new(Limits {
            batch_size: 2,
            ..WIDE
        });
        for piece in b"1\ta\r\n2\tb\\\\\r\n3\tc\r\n4\td".chunks(size) {
            assert_eq!(client.data(piece), Ok(None));
        }
        assert_eq!(client.done(), Ok(Some(4)));
        assert_eq!(
            client.written(),
            vec![b"1|a".to_vec(), b"2|b\\".to_vec(), b"3|c".to_vec(), b"4|d".to_vec()]
        );
    }
}

#[test]
fn an_empty_stream_writes_nothing() {
    let mut client = Client::new(WIDE);
    assert_eq!(client.done(), Ok(Some(0)));
    assert!(client.batches.is_empty());
}

#[test]
fn the_header_is_passed_over_once() {
    let mut client = Client::new(Limits {
        header: true,
        ..WIDE
    });
    assert_eq!(client.data(b"not a row\n1\ta\n2\tb\n"), Ok(None));
    assert_eq!(client.done(), Ok(Some(2)));
    assert_eq!(client.written(), vec![b"1|a".to_vec(), b"2|b".to_vec()]);

    let mut client = Client::new(Limits {
        header: true,
        ..WIDE
    });
    assert_eq!(client.data(b"only a header"), Ok(None));
    assert_eq!(client.done(), Ok(Some(0)));
}

#[test]
fn a_batch_is_written_once_it_has_enough_rows() {
    let mut client = Client::new(Limits {
        batch_size: 2,
        ..WIDE
    });
    assert_eq!(client.data(b"1\ta\n2\tb\n3\tc\n"), Ok(None));
    assert_eq!(
        client.batches,
        vec![(FlushReason::BatchSize, vec![b"1|a".to_vec(), b"2|b".to_vec()])]
    );
    assert_eq!(client.done(), Ok(Some(3)));
    assert_eq!(client.batches[1], (FlushReason::CopyDone, vec![b"3|c".to_vec()]));
}

#[test]
fn a_batch_is_written_before_it_gets_too_many_bytes() {
    let mut client = Client::new(Limits {
        batch_bytes: 7,
        ..WIDE
    });
    assert_eq!(client.data(b"1\ta\n2\tb\n3\tc\n12345\t67890\n4\td\n5\tef\n"), Ok(None));
    assert_eq!(
        client.batches,
        vec![
            (FlushReason::BatchBytes, vec![b"1|a".to_vec(), b"2|b".to_vec()]),
            (FlushReason::BatchBytes, vec![b"3|c".to_vec()]),
            (FlushReason::BatchBytes, vec![b"12345|67890".to_vec()]),
            (FlushReason::BatchBytes, vec![b"4|d".to_vec(), b"5|ef".to_vec()]),
        ]
    );
    assert_eq!(client.done(), Ok(Some(6)));
    assert_eq!(client.batches.len(), 4);
}

#[test]
fn long_records_are_refused_before_they_are_taken_in() {
    let limits = || Limits {
        record_bytes: 5,
        ..WIDE
    };
    let refused = Err(record_limit_error(5));
    assert_eq!(
        record_limit_error(5),
        bad_copy_format("COPY row exceeds maximum size of 5 bytes".into())
    );
    let mut client = Client::new(limits());
    assert_eq!(client.data(b"1\ta\n123456"), refused);
    assert!(client.rows.is_empty());
    let mut client = Client::new(limits());
    assert_eq!(client.data(b"1\tabc\r"), Ok(None));
    assert_eq!(client.data(b"\n1\tabc"), Ok(None));
    assert_eq!(client.data(b"d"), refused);
    let mut client = Client::new(Limits {
        header: true,
        ..limits()
    });
    assert_eq!(client.data(b"header\n"), refused);
}

#[test]
fn rows_that_are_wrong_are_refused() {
    let mut client = Client::new(WIDE);
    assert_eq!(
        client.data(b"1\ta\n2\n"),
        Err(bad_copy_format("COPY row has 1 columns but expected 2".into()))
    );
    assert_eq!(client.rows.len(), 1);
    let mut client = Client::new(WIDE);
    assert_eq!(client.data(b"1\ta\n2\tb"), Ok(None));
    assert_eq!(client.data(b"\r\n"), Err(bad_copy_format(
        "COPY data has mixed line endings: expected LF but found CRLF".into()
    )));
    let mut client = Client::new(WIDE);
    assert_eq!(client.data(b"1\ta\n2\tb\r"), Ok(None));
    assert_eq!(client.done(), Err(bad_copy_format(
        "COPY data has mixed line endings: expected LF but found CR".into()
    )));
    let mut client = Client::new(WIDE);
    assert_eq!(client.data(b"1\ta\\"), Ok(None));
    assert_eq!(
        client.done(),
        Err(bad_copy_format("COPY data ended inside an escape sequence".into()))
    );
}

#[test]
fn the_number_of_rows_is_the_one_that_writes_report() {
    let mut session = session(Limits {
        batch_size: 1,
        ..WIDE
    });
    let first = session.on_copy_data(Bytes::from_static(b"1\ta\n2\tb\n")).unwrap();
    assert!(matches!(first, CopyAction::EncodeRow(_)));
    assert_eq!(
        session.on_row_encoded(Ok(vec![1])),
        Ok(CopyAction::FlushBatch(FlushReason::BatchSize))
    );
    assert!(matches!(session.on_batch_flushed(Ok(0)), Ok(CopyAction::EncodeRow(_))));
    assert_eq!(
        session.on_row_encoded(Ok(vec![2])),
        Ok(CopyAction::FlushBatch(FlushReason::BatchSize))
    );
    assert_eq!(session.on_batch_flushed(Ok(1)), Ok(CopyAction::AwaitData));
    assert_eq!(session.on_copy_done(), Ok(CopyAction::Complete { inserted_rows: 1 }));
}

#[test]
fn errors_of_encoding_and_writing_end_the_session() {
    let failed = PgError::Other("no such value".into());
    let mut encoding = session(WIDE);
    encoding.on_copy_data(Bytes::from_static(b"1\ta\n")).unwrap();
    assert_eq!(encoding.on_row_encoded(Err(failed.clone())), Err(failed));

    let mut writing = session(WIDE);
    writing.on_copy_data(Bytes::from_static(b"1\ta\n")).unwrap();
    assert_eq!(writing.on_row_encoded(Ok(vec![1])), Ok(CopyAction::AwaitData));
    assert_eq!(
        writing.on_copy_done(),
        Ok(CopyAction::FlushBatch(FlushReason::CopyDone))
    );
    let outdated = CopyTargetError::Storage(SbroadError::OutdatedStorageSchema);
    assert_eq!(
        writing.on_batch_flushed(Err(outdated)),
        Err(PgError::Pedantic(PedanticError {
            code: PgErrorCode::ObjectNotInPrerequisiteState,
            reason: "target table schema changed during execution: t".into(),
        }))
    );
}

#[test]
fn rows_stay_where_they_are_after_an_error() {
    let two_rows = b"1\ta\n2\tb\n";
    let kept = vec![b"1|a".to_vec(), b"2|b".to_vec()];

    let mut bad_row = Client::new(WIDE);
    assert_eq!(bad_row.data(two_rows), Ok(None));
    assert!(bad_row.data(b"3\n4\td\n").is_err());
    assert_eq!(bad_row.session.batch_tuples(), &kept);
    assert_eq!(bad_row.session.unread_len(), 4);

    let mut refused = Client::new(Limits {
        record_bytes: 5,
        ..WIDE
    });
    assert_eq!(refused.data(b"1\ta\n2\tb\n3"), Ok(None));
    assert!(refused.data(b"456789").is_err());
    assert_eq!(refused.session.batch_tuples(), &kept);
    assert_eq!(refused.session.unread_len(), 1);

    let mut encoding = Client::new(WIDE);
    assert_eq!(encoding.data(two_rows), Ok(None));
    let action = encoding.session.on_copy_data(Bytes::from_static(b"3\tc\n4"));
    assert!(matches!(action, Ok(CopyAction::EncodeRow(_))));
    assert!(encoding.session.on_row_encoded(Err(PgError::Other("failed".into()))).is_err());
    assert_eq!(encoding.session.batch_tuples(), &kept);
    assert_eq!(encoding.session.unread_len(), 1);

    let mut writing = Client::new(WIDE);
    assert_eq!(writing.data(two_rows), Ok(None));
    assert!(matches!(writing.session.on_copy_done(), Ok(CopyAction::FlushBatch(_))));
    let outdated = CopyTargetError::Storage(SbroadError::OutdatedStorageSchema);
    assert!(writing.session.on_batch_flushed(Err(outdated)).is_err());
    assert_eq!(writing.session.batch_tuples(), &kept);

    let mut mixed = Client::new(WIDE);
    assert_eq!(mixed.data(b"1\ta\n2\tb\n3\tc\r"), Ok(None));
    assert_eq!(mixed.session.unread_len(), 4);
    assert!(mixed.done().is_err());
    assert_eq!(mixed.session.batch_tuples(), &kept);
    assert_eq!(mixed.session.unread_len(), 0);
}

/// What comes of data that is sent in two messages, the second of them only if the first is taken.
fn in_two(data: &[u8], at: usize, limits: Limits) -> (Client, PgResult<Option<usize>>) {
    let mut client = Client::new(limits);
    let mut result = client.data(&data[..at]);
    if result.is_ok() {
        result = client.data(&data[at..]);
    }
    (client, result)
}

#[test]
fn one_message_does_what_two_do() {
    let limits = || Limits {
        batch_size: 2,
        ..WIDE
    };
    for data in [
        b"1\ta\n2\tb\n3\tc\n4".to_vec(),
        b"1\ta\n2\tb\n3\tc\n4\n5\te\n".to_vec(),
        b"1\ta\r\n2\tb\r\n3\tc\n4\td\n".to_vec(),
    ] {
        let mut whole = Client::new(limits());
        let answer = whole.data(&data);
        assert_eq!(whole.rows.len(), if data.contains(&b'\r') { 2 } else { 3 });
        for at in 0..=data.len() {
            let (client, result) = in_two(&data, at, limits());
            assert_eq!(result, answer);
            assert_eq!(client.rows, whole.rows);
            assert_eq!(client.batches, whole.batches);
            assert_eq!(client.session.batch_tuples(), whole.session.batch_tuples());
            if answer.is_ok() {
                assert_eq!(client.session.unread_len(), whole.session.unread_len());
            }
        }
    }
}

#[test]
fn a_long_record_takes_the_rows_of_its_message_with_it() {
    let limits = || Limits {
        record_bytes: 5,
        ..WIDE
    };
    let data = b"1\ta\n123456\n";
    let mut whole = Client::new(limits());
    assert_eq!(whole.data(data), Err(record_limit_error(5)));
    assert!(whole.rows.is_empty());
    assert_eq!(whole.session.unread_len(), 0);
    for at in 0..data.len() {
        let (client, result) = in_two(data, at, limits());
        assert_eq!(result, Err(record_limit_error(5)));
        assert_eq!(client.rows.len(), if at < 4 || at >= 10 { 0 } else { 1 });
    }
}

#[test]
fn reasons_have_names() {
    assert_eq!(FlushReason::BatchBytes.name(), "batch_bytes");
    assert_eq!(FlushReason::BatchSize.name(), "batch_size");
    assert_eq!(FlushReason::CopyDone.name(), "copy_done");
}

fn spec() -> CopySpec {
    CopySpec {
        schema_name: None,
        table_name: "asked".into(),
        columns: vec!["a".into(), "b".into()],
        delimiter: b',',
        null_marker: b"null".to_vec(),
        header: true,
    }
}

fn target() -> PreparedCopyTarget<i64, ()> {
    PreparedCopyTarget {
        table_id: 1,
        table_name: "found".into(),
        field_types: vec![Type::INT8, Type::TEXT],
        conflict_policy: ConflictPolicy::DoFail,
        insert: DirectInsertTarget::new(1, 1, Vec::new()),
        routing: CopyRouting::Local,
    }
}

#[test]
fn a_copy_starts_with_the_types_of_its_columns() {
    assert_eq!(copy_field_oid(&Type::INT8), 20);
    assert_eq!(copy_field_oid(&Type::TEXT), 25);
    let (start, mut session, kept) = start_copy(spec(), Ok(target())).unwrap();
    assert_eq!(start.column_count, 2);
    assert_eq!(kept.table_name().as_str(), "found");
    assert_eq!(kept.field_types().len(), 2);
    let action = session.on_copy_data(Bytes::from_static(b"a,b\n1,null\n")).unwrap();
    assert_eq!(
        action,
        CopyAction::EncodeRow(vec![
            CopyField {
                value: Some(b"1".to_vec()),
                oid: 20
            },
            CopyField {
                value: None,
                oid: 25
            }
        ])
    );
}

#[test]
fn a_copy_that_cannot_start_is_answered() {
    let error = CopyTargetError::TableDoesNotExist {
        table: "asked".into(),
    };
    let answer = match start_copy::<i64, ()>(spec(), Err(error)) {
        Ok(_) => panic!("started"),
        Err(answer) => answer,
    };
    assert_eq!(
        answer,
        PgError::Pedantic(PedanticError {
            code: PgErrorCode::UndefinedTable,
            reason: "table does not exist: asked".into(),
        })
    );
}

#[test]
fn the_table_is_asked_to_fail_on_conflicts() {
    let spec = spec();
    let request = copy_target_request(&spec);
    assert_eq!(request.schema_name, None);
    assert_eq!(request.table_name.as_str(), "asked");
    assert_eq!(request.columns.len(), 2);
    assert_eq!(request.conflict_policy, ConflictPolicy::DoFail);
}
