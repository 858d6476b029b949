use pgcopy::errors::{bad_copy_format, PgResult};
use pgcopy::pgproto::record::{
    ends_with_unescaped_cr, incoming_exceeds_record_limit, pending_record_len, EolStyle,
    TextRecordReader,
};

fn drain(reader: &mut TextRecordReader) -> PgResult<Vec<Vec<u8>>> {
    let mut records = Vec::new();
    while let Some(record) = reader.next_record()? {
        records.push(record.to_vec());
    }
    Ok(records)
}

fn records_in_pieces(data: &[u8], size: usize) -> PgResult<Vec<Vec<u8>>> {
    let mut reader = TextRecordReader::new();
    let mut records = Vec::new();
    for piece in data.chunks(size) {
        reader.push(piece);
        records.extend(drain(&mut reader)?);
    }
    if let Some(record) = reader.finish_record()? {
        records.push(record.to_vec());
    }
    Ok(records)
}

#[test]
fn records_do_not_depend_on_the_pieces() {
    for ending in ["\n", "\r", "\r\n"] {
        let data = ["a\tb", "", "c\\\nd\\\\", "\\\r", "e"].join(ending);
        let whole = records_in_pieces(data.as_bytes(), data.len()).unwrap();
        assert_eq!(
            whole,
            vec![
                b"a\tb".to_vec(),
                b"".to_vec(),
                b"c\\\nd\\\\".to_vec(),
                b"\\\r".to_vec(),
                b"e".to_vec()
            ],
            "{ending:?}"
        );
        for size in 1..data.len() {
            assert_eq!(records_in_pieces(data.as_bytes(), size).unwrap(), whole);
        }
    }
}

#[test]
fn a_carriage_return_at_the_end_waits_for_the_next_byte() {
    let mut reader = TextRecordReader::new();
    reader.push(b"a\r");
    assert!(reader.next_record().unwrap().is_none());
    reader.push(b"\nb\r");
    assert_eq!(reader.next_record().unwrap().unwrap().to_vec(), b"a".to_vec());
    assert_eq!(reader.eol_style, EolStyle::CrLf);
    assert!(reader.next_record().unwrap().is_none());
    let error = reader.finish_record().unwrap_err();
    assert_eq!(
        error,
        bad_copy_format("COPY data has mixed line endings: expected CRLF but found CR".into())
    );
}

#[test]
fn mixed_line_endings_are_refused() {
    for (data, expected, found) in [
        (&b"a\nb\r\nc"[..], "LF", "CRLF"),
        (&b"a\rb\nc"[..], "CR", "LF"),
        (&b"a\r\nb\nc"[..], "CRLF", "LF"),
        (&b"a\r\nb\rc"[..], "CRLF", "CR"),
        (&b"a\nb\rc"[..], "LF", "CR"),
    ] {
        let text =
            format!("COPY data has mixed line endings: expected {expected} but found {found}");
        assert_eq!(
            records_in_pieces(data, data.len()).unwrap_err(),
            bad_copy_format(text)
        );
    }
}

#[test]
fn the_first_error_does_not_depend_on_the_pieces() {
    let data = b"a\nb\\\nc\nd\r\ne\n";
    for at in 0..=data.len() {
        let mut reader = TextRecordReader::new();
        let mut records = Vec::new();
        let mut error = None;
        for piece in [&data[..at], &data[at..]] {
            reader.push(piece);
            while error.is_none() {
                match reader.next_record() {
                    Ok(Some(record)) => records.push(record.to_vec()),
                    Ok(None) => break,
                    Err(found) => error = Some(found),
                }
            }
        }
        assert_eq!(records, vec![b"a".to_vec(), b"b\\\nc".to_vec()]);
        assert_eq!(
            error,
            Some(bad_copy_format(
                "COPY data has mixed line endings: expected LF but found CRLF".into()
            ))
        );
        assert_eq!(reader.pending.to_vec(), b"d\r\ne\n".to_vec());
    }
}

#[test]
fn line_endings_have_names() {
    assert_eq!(EolStyle::default(), EolStyle::Unknown);
    assert_eq!(EolStyle::Unknown.name(), "unknown");
    assert_eq!(EolStyle::Lf.name(), "LF");
    assert_eq!(EolStyle::Cr.name(), "CR");
    assert_eq!(EolStyle::CrLf.name(), "CRLF");
}

#[test]
fn the_last_record_needs_no_line_ending() {
    assert_eq!(
        records_in_pieces(b"a\nb", 10).unwrap(),
        vec![b"a".to_vec(), b"b".to_vec()]
    );
    assert_eq!(records_in_pieces(b"a\n", 10).unwrap(), vec![b"a".to_vec()]);
    assert_eq!(records_in_pieces(b"a\r", 10).unwrap(), vec![b"a".to_vec()]);
    assert_eq!(records_in_pieces(b"", 1).unwrap(), Vec::<Vec<u8>>::new());
    assert_eq!(records_in_pieces(b"\\\n", 10).unwrap(), vec![b"\\\n".to_vec()]);
}

#[test]
fn finding_the_end_goes_on_where_it_stopped() {
    let mut reader = TextRecordReader::new();
    reader.push(b"ab\\");
    assert_eq!(reader.find_record_end(), None);
    assert_eq!(reader.scan_offset, 3);
    assert!(reader.scan_escaped);
    reader.push(b"\ncd\n");
    assert_eq!(reader.find_record_end(), Some((6, 1, EolStyle::Lf)));
    reader.reset_scan();
    assert_eq!(reader.find_record_end(), Some((6, 1, EolStyle::Lf)));
    assert!(reader.register_eol(EolStyle::Lf).is_ok());
    assert!(reader.register_eol(EolStyle::Cr).is_err());
    assert_eq!(reader.eol_style, EolStyle::Lf);
}

#[test]
fn an_escaped_carriage_return_ends_nothing() {
    assert!(ends_with_unescaped_cr(b"a\r"));
    assert!(!ends_with_unescaped_cr(b"a\\\r"));
    assert!(ends_with_unescaped_cr(b"a\\\\\r"));
    assert!(!ends_with_unescaped_cr(b"a"));
    assert!(!ends_with_unescaped_cr(b""));
    assert_eq!(pending_record_len(b"ab\r"), 2);
    assert_eq!(pending_record_len(b"ab\\\r"), 4);
    assert_eq!(pending_record_len(b""), 0);
}

#[test]
fn the_limit_is_checked_record_by_record() {
    assert!(!incoming_exceeds_record_limit(b"ab", false, b"c\nabc\nabc", 3));
    assert!(incoming_exceeds_record_limit(b"ab", false, b"cd\n", 3));
    assert!(incoming_exceeds_record_limit(b"", false, b"a\nabcd\na", 3));
    assert!(incoming_exceeds_record_limit(b"", false, b"a\nabcd", 3));
    assert!(!incoming_exceeds_record_limit(b"abc\r", false, b"\nabc", 3));
    assert!(!incoming_exceeds_record_limit(b"abc\r", false, b"abc", 3));
    assert!(incoming_exceeds_record_limit(b"abc\r", false, b"abcd", 3));
    assert!(incoming_exceeds_record_limit(b"ab\\", true, b"\nx", 3));
    assert!(!incoming_exceeds_record_limit(b"ab\\", false, b"\nx", 3));
    assert!(!incoming_exceeds_record_limit(b"", false, b"abc", 3));
    assert!(incoming_exceeds_record_limit(b"", false, b"a", 0));
    assert!(!incoming_exceeds_record_limit(b"", false, b"\n\n", 0));
}

#[test]
fn no_byte_of_a_stream_is_lost() {
    let data = b"a\r\n\\\r\nb\\\n\r\nrest\r";
    let mut reader = TextRecordReader::new();
    reader.push(data);
    assert!(drain(&mut reader).is_err());
    let data = b"a\r\n\\\\\r\nb\\\n\r\nrest\r";
    let mut reader = TextRecordReader::new();
    reader.push(data);
    let mut rebuilt = Vec::new();
    for record in drain(&mut reader).unwrap() {
        rebuilt.extend_from_slice(&record);
        rebuilt.extend_from_slice(b"\r\n");
    }
    rebuilt.extend_from_slice(&reader.pending);
    assert_eq!(rebuilt, data.to_vec());
}
