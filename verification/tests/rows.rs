use pgcopy::errors::{bad_copy_format, PgError};
use pgcopy::pgproto::row::TextRowParser;

fn parser(field_count: usize) -> TextRowParser {
    TextRowParser::new(b'\t', b"\\N".to_vec(), field_count)
}

fn decode(raw: &[u8]) -> Result<Vec<u8>, PgError> {
    parser(1).decode_text_field(raw)
}

fn bad(reason: &str) -> PgError {
    bad_copy_format(reason.to_string())
}

fn values(parser: &TextRowParser, record: &[u8]) -> Result<Vec<Option<Vec<u8>>>, PgError> {
    let fields = parser.parse_record(record)?;
    Ok(fields
        .into_iter()
        .map(|field| field.map(|value| value.into_owned()))
        .collect())
}

#[test]
fn decodes_escapes() {
    assert_eq!(decode(b"a\\tb\\x41\\101").unwrap(), b"a\tbAA".to_vec());
    assert_eq!(
        decode(b"\\b\\f\\n\\r\\t\\v\\\\").unwrap(),
        vec![8, 12, 10, 13, 9, 11, b'\\']
    );
    assert_eq!(decode(b"plain").unwrap(), b"plain".to_vec());
    assert_eq!(decode(b"").unwrap(), Vec::<u8>::new());
    assert_eq!(decode(b"\\q\\.\\\t").unwrap(), b"q.\t".to_vec());
}

#[test]
fn decodes_hexadecimal_escapes() {
    assert_eq!(decode(b"\\x7").unwrap(), vec![7]);
    assert_eq!(decode(b"\\xfF0").unwrap(), vec![0xff, b'0']);
    assert_eq!(decode(b"\\x4g").unwrap(), vec![4, b'g']);
    assert_eq!(
        decode(b"a\\x").unwrap_err(),
        bad("COPY data ended inside a hexadecimal escape sequence")
    );
    assert_eq!(
        decode(b"\\xg1").unwrap_err(),
        bad("invalid COPY hexadecimal escape sequence: \\xg")
    );
    assert_eq!(
        decode(b"\\x\xe9").unwrap_err(),
        bad("invalid COPY hexadecimal escape sequence: \\x\u{e9}")
    );
}

#[test]
fn decodes_octal_escapes() {
    assert_eq!(decode(b"\\0").unwrap(), vec![0]);
    assert_eq!(decode(b"\\78").unwrap(), vec![7, b'8']);
    assert_eq!(decode(b"\\1234").unwrap(), vec![0o123, b'4']);
    assert_eq!(decode(b"\\377").unwrap(), vec![0o377]);
    assert_eq!(decode(b"\\400").unwrap(), vec![255]);
    assert_eq!(decode(b"\\777").unwrap(), vec![255]);
}

#[test]
fn refuses_an_escape_without_an_end() {
    assert_eq!(
        decode(b"ab\\").unwrap_err(),
        bad("COPY data ended inside an escape sequence")
    );
}

#[test]
fn cuts_a_record_at_its_delimiters() {
    assert_eq!(
        values(&parser(3), b"a\t\tb").unwrap(),
        vec![Some(b"a".to_vec()), Some(vec![]), Some(b"b".to_vec())]
    );
    assert_eq!(
        values(&parser(2), b"a\\\tb\tc").unwrap(),
        vec![Some(b"a\tb".to_vec()), Some(b"c".to_vec())]
    );
    assert_eq!(values(&parser(1), b"").unwrap(), vec![Some(vec![])]);
}

#[test]
fn null_is_what_reads_as_the_marker_before_escapes_are_read() {
    assert_eq!(
        values(&parser(3), b"\\N\t\\\\N\tN").unwrap(),
        vec![None, Some(b"\\N".to_vec()), Some(b"N".to_vec())]
    );
    let parser = TextRowParser::new(b',', b"".to_vec(), 2);
    assert_eq!(values(&parser, b",x").unwrap(), vec![None, Some(b"x".to_vec())]);
}

#[test]
fn refuses_a_row_of_another_number_of_columns() {
    assert_eq!(
        values(&parser(2), b"a\tb\tc").unwrap_err(),
        bad("COPY row has 3 columns but expected 2")
    );
    assert_eq!(
        values(&parser(12), b"a").unwrap_err(),
        bad("COPY row has 1 columns but expected 12")
    );
}

#[test]
fn the_first_field_that_is_wrong_decides() {
    assert_eq!(
        values(&parser(1), b"\\x\t\\xg").unwrap_err(),
        bad("COPY data ended inside a hexadecimal escape sequence")
    );
}

#[test]
fn a_backslash_may_be_the_delimiter() {
    let parser = TextRowParser::new(b'\\', b"\\N".to_vec(), 3);
    assert_eq!(
        values(&parser, b"a\\b\\c").unwrap(),
        vec![Some(b"a".to_vec()), Some(b"b".to_vec()), Some(b"c".to_vec())]
    );
}

#[test]
fn a_written_row_reads_back() {
    let row = vec![Some(b"a\tb\\c\nd\r".to_vec()), None, Some(b"\\N".to_vec())];
    let mut written: Vec<u8> = Vec::new();
    for (idx, value) in row.iter().enumerate() {
        if idx > 0 {
            written.push(b'\t');
        }
        match value {
            None => written.extend_from_slice(b"\\N"),
            Some(bytes) => {
                for byte in bytes {
                    match byte {
                        b'\n' => written.extend_from_slice(b"\\n"),
                        b'\r' => written.extend_from_slice(b"\\r"),
                        b'\t' => written.extend_from_slice(b"\\t"),
                        b'\\' => written.extend_from_slice(b"\\\\"),
                        other => written.push(*other),
                    }
                }
            }
        }
    }
    assert!(!written.contains(&b'\n'));
    assert_eq!(values(&parser(3), &written).unwrap(), row);
}
