use pgcopy::errors::{Entity, SbroadError};
use pgcopy::sql::command::{
    parse_command, parse_copy as parse_parts, parse_copy_format, parse_option_value,
    parse_top_level_command, parse_with_options, ParsedCommand,
};
use pgcopy::sql::grammar::{CopyOption, CopyPart, OptionValue};
use pgcopy::sql::names::{
    normalize_name_from_sql, parse_table_name, split_top_level_dot, unquote_single_quoted,
};
use pgcopy::sql::statement::{
    CopyFormat, CopyFrom, CopyOptions, CopyStatement, CopyTableTarget, CopyTo,
};

/// A grammar of SQL that knows queries that start with SELECT.
fn parse_sql(query: &str) -> Result<(), String> {
    if query.starts_with("SELECT ") {
        Ok(())
    } else {
        Err(format!("expected SELECT, found {query}"))
    }
}

/// For a COPY the grammar of all other SQL is not asked.
fn not_asked(query: &str) -> Result<(), String> {
    panic!("asked about {query}")
}

/// What a parser has against a query that its grammar does not accept.
fn show_error(query: &str) -> String {
    format!("no rule accepts {query}")
}

/// A query that the grammar accepts is not explained.
fn not_shown(query: &str) -> String {
    panic!("asked what is wrong with {query}")
}

fn parse_copy(query: &str) -> CopyStatement {
    match parse_command(query, not_asked, not_shown).expect("parse command") {
        ParsedCommand::Copy(copy) => copy,
        ParsedCommand::Sql => panic!("expected COPY command"),
    }
}

fn options_of(query: &str) -> CopyOptions {
    match parse_copy(query) {
        CopyStatement::From(copy) => copy.options,
        CopyStatement::To(copy) => copy.options,
    }
}

fn invalid(text: &str) -> SbroadError {
    SbroadError::Invalid(Entity::Query, Some(text.into()))
}

#[test]
fn parses_copy_from_stdin() {
    let parsed = parse_copy(
        r#"COPY "t" ("id", "value") FROM STDIN WITH (DELIMITER '|', NULL 'nil', HEADER true)"#,
    );

    assert_eq!(
        parsed,
        CopyStatement::From(CopyFrom {
            table: CopyTableTarget {
                schema_name: None,
                table_name: "t".into(),
                columns: vec!["id".into(), "value".into()],
            },
            options: CopyOptions {
                format: CopyFormat::Text,
                delimiter: Some("|".into()),
                null_string: Some("nil".into()),
                header: true,
                batch_size: None,
            },
        })
    );
}

#[test]
fn parses_copy_batch_size_option() {
    let parsed = parse_copy(r#"COPY "t" FROM STDIN WITH (BATCH_SIZE = 2)"#);

    assert_eq!(
        parsed,
        CopyStatement::From(CopyFrom {
            table: CopyTableTarget {
                schema_name: None,
                table_name: "t".into(),
                columns: vec![],
            },
            options: CopyOptions {
                batch_size: Some(2),
                ..CopyOptions::default()
            },
        })
    );
}

#[test]
fn classifies_non_copy_as_sql() {
    assert!(matches!(
        parse_command("SELECT 1", parse_sql, not_shown).unwrap(),
        ParsedCommand::Sql
    ));
}

#[test]
fn normalizes_schema_qualified_copy_target() {
    let parsed = parse_copy(r#"COPY public."Mixed Table" ("Mixed Column") FROM STDIN"#);

    assert_eq!(
        parsed,
        CopyStatement::From(CopyFrom {
            table: CopyTableTarget {
                schema_name: Some("public".into()),
                table_name: "Mixed Table".into(),
                columns: vec!["Mixed Column".into()],
            },
            options: CopyOptions::default(),
        })
    );
}

#[test]
fn any_other_text_is_for_the_grammar_of_sql() {
    for query in ["", "'", "copying", "insert into copy values (1)", "\"copy\" t from stdin"] {
        let refused = SbroadError::ParsingError(
            Entity::Rule,
            format!("expected SELECT, found {query}").into(),
        );
        assert_eq!(parse_command(query, parse_sql, not_shown).unwrap_err(), refused);
        assert_eq!(parse_top_level_command(query, parse_sql, not_shown), Err(refused));
        assert!(matches!(parse_command(query, |_| Ok(()), not_shown), Ok(ParsedCommand::Sql)));
    }
}

#[test]
fn keywords_may_be_written_in_lower_case() {
    assert_eq!(
        parse_copy(" \t\n copy T from StdIn ;"),
        CopyStatement::From(CopyFrom {
            table: CopyTableTarget {
                schema_name: None,
                table_name: "t".into(),
                columns: vec![],
            },
            options: CopyOptions::default(),
        })
    );
}

#[test]
fn parses_copy_to_stdout() {
    assert_eq!(
        parse_copy("COPY s.t (A, b) TO STDOUT (FORMAT 'csv')"),
        CopyStatement::To(CopyTo {
            table: CopyTableTarget {
                schema_name: Some("s".into()),
                table_name: "t".into(),
                columns: vec!["a".into(), "b".into()],
            },
            options: CopyOptions {
                format: CopyFormat::Csv,
                ..CopyOptions::default()
            },
        })
    );
}

#[test]
fn direction_and_endpoint_must_agree() {
    assert_eq!(
        parse_command("COPY t FROM STDOUT", not_asked, not_shown).unwrap_err(),
        invalid("COPY FROM STDOUT is invalid")
    );
    assert_eq!(
        parse_command("COPY t TO STDIN", not_asked, not_shown).unwrap_err(),
        invalid("COPY TO STDIN is invalid")
    );
}

#[test]
fn options_may_have_an_equals_sign() {
    let options = options_of("COPY t FROM STDIN WITH (FORMAT = text, DELIMITER = ',', NULL = '')");
    assert_eq!(options.format, CopyFormat::Text);
    assert_eq!(options.delimiter, Some(",".into()));
    assert_eq!(options.null_string, Some(String::new()));
}

#[test]
fn later_options_count() {
    let options =
        options_of("COPY t FROM STDIN (HEADER, DELIMITER 'a', HEADER FALSE, DELIMITER b)");
    assert!(!options.header);
    assert_eq!(options.delimiter, Some("b".into()));
}

#[test]
fn header_without_a_value_is_true() {
    assert!(options_of("COPY t FROM STDIN (HEADER)").header);
    assert!(options_of("COPY t FROM STDIN (HEADER TRUE)").header);
    assert!(options_of("COPY t FROM STDIN (HEADER = True)").header);
    assert!(!options_of("COPY t FROM STDIN (HEADER = false)").header);
    assert!(!options_of("COPY t FROM STDIN").header);
}

#[test]
fn reads_the_older_clauses() {
    let options = options_of("COPY t FROM STDIN DELIMITER AS ';' NULL 'it''s'");
    assert_eq!(options.delimiter, Some(";".into()));
    assert_eq!(options.null_string, Some("it's".into()));
    let options = options_of("COPY t FROM STDIN WITH NULL AS x");
    assert_eq!(options.delimiter, None);
    assert_eq!(options.null_string, Some("x".into()));
}

#[test]
fn refuses_what_the_grammar_does_not_have() {
    for query in [
        "COPY",
        "COPY t",
        "COPY t FROM",
        "COPY t FROM file",
        "COPY t INTO STDIN",
        "COPY t () FROM STDIN",
        "COPY t (a,) FROM STDIN",
        "COPY t (a FROM STDIN",
        "COPY 1 FROM STDIN",
        "COPY a.b.c FROM STDIN",
        "COPY t FROM STDIN WITH",
        "COPY t FROM STDIN ()",
        "COPY t FROM STDIN (HEADER =)",
        "COPY t FROM STDIN (BATCH_SIZE x)",
        "COPY t FROM STDIN (QUOTE 'x')",
        "COPY t FROM STDIN (FORMAT)",
        "COPY t FROM STDIN NULL",
        "COPY t FROM STDIN;;",
        "COPY t FROM STDIN extra",
        "COPY \"t FROM STDIN",
        "COPY t FROM STDIN (NULL 'x)",
        "COPY t FROM STDIN #",
    ] {
        let refused = SbroadError::ParsingError(
            Entity::Rule,
            format!("no rule accepts {query}").into(),
        );
        assert_eq!(parse_command(query, not_asked, show_error).unwrap_err(), refused);
        assert_eq!(parse_top_level_command(query, not_asked, show_error), Err(refused));
    }
}

#[test]
fn refuses_an_unknown_format() {
    assert_eq!(
        parse_command("COPY t FROM STDIN (FORMAT 'XML')", not_asked, not_shown).unwrap_err(),
        invalid("unsupported COPY format: xml")
    );
    assert_eq!(parse_copy_format("BINARY"), Ok(CopyFormat::Binary));
    assert_eq!(parse_copy_format("Csv"), Ok(CopyFormat::Csv));
    assert_eq!(parse_copy_format("text"), Ok(CopyFormat::Text));
    assert_eq!(
        parse_copy_format(""),
        Err(invalid("unsupported COPY format: "))
    );
}

#[test]
fn refuses_a_batch_size_that_is_too_large() {
    assert_eq!(
        options_of("COPY t FROM STDIN (BATCH_SIZE 18446744073709551615)").batch_size,
        Some(usize::MAX)
    );
    assert_eq!(
        parse_command("COPY t FROM STDIN (BATCH_SIZE 18446744073709551616)", not_asked, not_shown)
            .unwrap_err(),
        invalid(
            "invalid COPY batch_size 18446744073709551616: number too large to fit in target type"
        )
    );
}

#[test]
fn reads_batch_sizes_as_integers_are_read() {
    let large = "99999999999999999999";
    for raw in ["", "+", "+7", "-7", "007", "1x", &format!("{large}x"), &format!("x{large}")] {
        let mut options = CopyOptions::default();
        let given = vec![CopyOption::BatchSize(raw.to_string())];
        let result = parse_with_options(&mut options, &given);
        match raw.parse::<usize>() {
            Ok(size) => {
                assert_eq!(result, Ok(()));
                assert_eq!(options.batch_size, Some(size));
            }
            Err(error) => {
                let text = format!("invalid COPY batch_size {raw}: {error}");
                assert_eq!(result, Err(invalid(&text)));
                assert_eq!(options, CopyOptions::default());
            }
        }
    }
}

#[test]
fn options_before_an_error_are_taken_over() {
    let mut options = CopyOptions::default();
    let given = vec![
        CopyOption::Header(None),
        CopyOption::Format(OptionValue::Identifier("tar".into())),
        CopyOption::Null(OptionValue::Identifier("x".into())),
    ];
    assert_eq!(
        parse_with_options(&mut options, &given),
        Err(invalid("unsupported COPY format: tar"))
    );
    assert!(options.header);
    assert_eq!(options.null_string, None);
}

#[test]
fn parts_that_are_missing_are_errors() {
    let table = CopyPart::TableName("t".into());
    let from = CopyPart::Direction("From".into());
    let stdin = CopyPart::Target("STDIN".into());
    assert_eq!(
        parse_parts(&vec![from.clone(), stdin.clone()]),
        Err(invalid("COPY table name is missing"))
    );
    assert_eq!(
        parse_parts(&vec![table.clone(), stdin.clone()]),
        Err(invalid("COPY direction is missing"))
    );
    assert_eq!(
        parse_parts(&vec![table.clone(), from.clone()]),
        Err(invalid("COPY target is missing"))
    );
    assert_eq!(
        parse_parts(&vec![table.clone(), CopyPart::Direction("OVER".into()), stdin.clone()]),
        Err(SbroadError::ParsingError(
            Entity::Query,
            "unsupported COPY direction: over".into()
        ))
    );
    assert_eq!(
        parse_parts(&vec![table, from, CopyPart::Target("FILE".into())]),
        Err(SbroadError::ParsingError(
            Entity::Query,
            "unsupported COPY target: file".into()
        ))
    );
}

#[test]
fn finds_the_parts_of_a_command() {
    assert_eq!(parse_top_level_command("SELECT 'copy'", parse_sql, not_shown), Ok(None));
    assert_eq!(
        parse_top_level_command("copy S . \"T\" (a) from stdin null 'x'", not_asked, not_shown),
        Ok(Some(vec![
            CopyPart::TableName("S.\"T\"".into()),
            CopyPart::Column("a".into()),
            CopyPart::Direction("from".into()),
            CopyPart::Target("stdin".into()),
            CopyPart::LegacyNull(OptionValue::SingleQuoted("'x'".into())),
        ]))
    );
}

#[test]
fn quoted_names_and_texts_read_back() {
    assert_eq!(unquote_single_quoted("'it''s'"), "it's");
    assert_eq!(unquote_single_quoted("''''''"), "''");
    assert_eq!(normalize_name_from_sql("\"a\"\"B\"").as_str(), "a\"B");
    assert_eq!(normalize_name_from_sql("AbC").as_str(), "abc");
    assert_eq!(normalize_name_from_sql("\"").as_str(), "\"");
    assert_eq!(
        parse_option_value(&OptionValue::SingleQuoted("'a''b'".into())),
        "a'b"
    );
    assert_eq!(parse_option_value(&OptionValue::Identifier("A''b".into())), "A''b");
}

#[test]
fn dots_within_quotes_do_not_split() {
    assert_eq!(split_top_level_dot("a.b.c"), Some(1));
    assert_eq!(split_top_level_dot("\"a.b\".c"), Some(5));
    assert_eq!(split_top_level_dot("\"a\"\".b\".\"c\""), Some(7));
    assert_eq!(split_top_level_dot("\"a.b\""), None);
    assert_eq!(split_top_level_dot("été.x"), Some(5));
    assert_eq!(split_top_level_dot(""), None);
    let (schema, table) = parse_table_name("\"é.\"\"T\"\"\".Ü");
    assert_eq!(schema.unwrap().as_str(), "é.\"T\"");
    assert_eq!(table.as_str(), "Ü");
}

#[test]
fn a_written_copy_reads_back() {
    let words = [
        "copy",
        "\"s.\"\"1\"",
        ".",
        "\"T 'x'\"",
        "(",
        "\"a\"",
        ",",
        "\"b,)\"",
        ")",
        "from",
        "stdin",
        "with",
        "(",
        "format 'text' , header true , delimiter '''' , null '(),' , batch_size 12",
        ")",
    ];
    assert_eq!(
        parse_copy(&words.join(" ")),
        CopyStatement::From(CopyFrom {
            table: CopyTableTarget {
                schema_name: Some("s.\"1".into()),
                table_name: "T 'x'".into(),
                columns: vec!["a".into(), "b,)".into()],
            },
            options: CopyOptions {
                format: CopyFormat::Text,
                delimiter: Some("'".into()),
                null_string: Some("(),".into()),
                header: true,
                batch_size: Some(12),
            },
        })
    );
}
