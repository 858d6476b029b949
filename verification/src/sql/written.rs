//! Every COPY can be written as a command that reads as that COPY.
use crate::errors::SbroadErrorView;
use crate::sql::command::{
    copy_of, copy_statement, nothing_so_far, number_from, number_of, option_effect,
    options_effect, part_effect, parts_effect, starts_with_copy, CopySoFar,
};
use crate::sql::grammar::{
    clauses_at, column_list_at, columns_at, copy_parts, option_at, options_at, table_at,
    CopyOptionView, CopyPartView, OptionValueView,
};
use crate::sql::laws::{
    doubled, in_quotes, law_quoted_name_reads_back, law_quoted_table_reads_back,
    law_quoted_text_reads_back,
};
use crate::sql::lexer::{
    in_word, is_digit, is_sign, is_space, number_end, quote_end, starts_word, token_at,
    tokens_from, word_end, TokenView,
};
use crate::sql::statement::{
    default_options, CopyFormat, CopyOptionsView, CopyStatementView, CopyTableTargetView,
};
use crate::text::{decimal, digit, lower};
use vstd::prelude::*;

verus! {

/// How a piece of a command is written.
pub open spec fn token_text(token: TokenView) -> Seq<char> {
    match token {
        TokenView::Word(text) => text,
        TokenView::Quoted(text) => text,
        TokenView::Text(text) => text,
        TokenView::Number(text) => text,
        TokenView::Sign(sign) => seq![sign],
    }
}

/// Pieces of a command, each with a space behind it.
pub open spec fn written(tokens: Seq<TokenView>) -> Seq<char>
    decreases tokens.len(),
{
    if tokens.len() == 0 {
        seq![]
    } else {
        token_text(tokens[0]) + seq![' '] + written(tokens.skip(1))
    }
}

/// Whether a piece is one: a word of letters and the like, a number of digits, a name or a text in
/// its quotes, or a sign.
pub open spec fn token_wf(token: TokenView) -> bool {
    match token {
        TokenView::Word(text) => text.len() > 0 && starts_word(text[0]) && forall|i: int|
            0 <= i < text.len() ==> in_word(#[trigger] text[i]),
        TokenView::Quoted(text) => exists|name: Seq<char>| #[trigger]
            in_quotes(name, '"') == text,
        TokenView::Text(text) => exists|said: Seq<char>| #[trigger]
            in_quotes(said, '\'') == text,
        TokenView::Number(text) => text.len() > 0 && forall|i: int|
            0 <= i < text.len() ==> is_digit(#[trigger] text[i]),
        TokenView::Sign(sign) => is_sign(sign),
    }
}

proof fn lemma_word_end(text: Seq<char>, at: int, end: int)
    requires
        0 <= at <= end <= text.len(),
        forall|i: int| at <= i < end ==> in_word(#[trigger] text[i]),
        end < text.len() ==> !in_word(text[end]),
    ensures
        word_end(text, at) == end,
    decreases end - at,
{
    if at < end {
        assert(in_word(text[at]));
        lemma_word_end(text, at + 1, end);
    }
}

proof fn lemma_number_end(text: Seq<char>, at: int, end: int)
    requires
        0 <= at <= end <= text.len(),
        forall|i: int| at <= i < end ==> is_digit(#[trigger] text[i]),
        end < text.len() ==> !is_digit(text[end]),
    ensures
        number_end(text, at) == end,
    decreases end - at,
{
    if at < end {
        assert(is_digit(text[at]));
        lemma_number_end(text, at + 1, end);
    }
}

/// What is doubled within quotes does not end them.
proof fn lemma_quote_end(text: Seq<char>, quote: char, at: int, said: Seq<char>)
    requires
        0 <= at,
        at + doubled(said, quote).len() < text.len(),
        text.subrange(at, at + doubled(said, quote).len()) == doubled(said, quote),
        text[at + doubled(said, quote).len()] == quote,
        at + doubled(said, quote).len() + 1 < text.len() ==> text[at + doubled(said, quote).len()
            + 1] != quote,
    ensures
        quote_end(text, quote, at) == Some(at + doubled(said, quote).len() + 1),
    decreases said.len(),
{
    let inner = doubled(said, quote);
    if said.len() > 0 {
        let rest = said.skip(1);
        let step: int = if said[0] == quote {
            2
        } else {
            1
        };
        assert(inner.skip(step) =~= doubled(rest, quote));
        assert(text.subrange(at, at + inner.len()).skip(step) =~= text.subrange(
            at + step,
            at + inner.len(),
        ));
        assert(text[at] == text.subrange(at, at + inner.len())[0]);
        if said[0] == quote {
            assert(text[at + 1] == text.subrange(at, at + inner.len())[1]);
        }
        lemma_quote_end(text, quote, at + step, rest);
    }
}

/// A piece with a space behind it is read as that piece.
proof fn lemma_token_reads_back(text: Seq<char>, at: int, token: TokenView)
    requires
        token_wf(token),
        0 <= at,
        at + token_text(token).len() < text.len(),
        text.subrange(at, at + token_text(token).len()) == token_text(token),
        text[at + token_text(token).len()] == ' ',
    ensures
        token_at(text, at) == Some((token, at + token_text(token).len())),
        token_text(token).len() > 0,
        !is_space(text[at]),
{
    let raw = token_text(token);
    let end = at + raw.len();
    assert forall|i: int| at <= i < end implies #[trigger] text[i] == raw[i - at] by {
        assert(text.subrange(at, end)[i - at] == text[i]);
    }
    match token {
        TokenView::Word(word) => {
            assert forall|i: int| at + 1 <= i < end implies in_word(#[trigger] text[i]) by {
                assert(in_word(word[i - at]));
            }
            lemma_word_end(text, at + 1, end);
        },
        TokenView::Number(number) => {
            assert forall|i: int| at + 1 <= i < end implies is_digit(#[trigger] text[i]) by {
                assert(is_digit(number[i - at]));
            }
            assert(is_digit(number[0]));
            lemma_number_end(text, at + 1, end);
        },
        TokenView::Quoted(quoted) => {
            let name = choose|name: Seq<char>| #[trigger] in_quotes(name, '"') == quoted;
            let inner = doubled(name, '"');
            assert(text.subrange(at + 1, at + 1 + inner.len()) =~= inner);
            lemma_quote_end(text, '"', at + 1, name);
        },
        TokenView::Text(quoted) => {
            let said = choose|said: Seq<char>| #[trigger] in_quotes(said, '\'') == quoted;
            let inner = doubled(said, '\'');
            assert(text.subrange(at + 1, at + 1 + inner.len()) =~= inner);
            lemma_quote_end(text, '\'', at + 1, said);
        },
        TokenView::Sign(sign) => {},
    }
}

/// Pieces that are written with spaces between them are read as those pieces.
proof fn lemma_written_reads_back(text: Seq<char>, at: int, tokens: Seq<TokenView>)
    requires
        0 <= at <= text.len(),
        text.skip(at) == written(tokens),
        forall|i: int| 0 <= i < tokens.len() ==> token_wf(#[trigger] tokens[i]),
    ensures
        tokens_from(text, at) == Some(tokens),
    decreases tokens.len(),
{
    if tokens.len() == 0 {
        assert(tokens =~= seq![]);
    } else {
        let first = tokens[0];
        let raw = token_text(first);
        let rest = tokens.skip(1);
        let end = at + raw.len();
        let tail = text.skip(at);
        assert(tail == raw + seq![' '] + written(rest));
        assert(tail.len() > raw.len());
        assert(text.subrange(at, end) =~= tail.take(raw.len() as int));
        assert(tail.take(raw.len() as int) =~= raw);
        assert(text[end] == tail[raw.len() as int]);
        assert(tail[raw.len() as int] == ' ');
        lemma_token_reads_back(text, at, first);
        assert(text.skip(end + 1) =~= tail.skip(raw.len() as int + 1));
        assert(tail.skip(raw.len() as int + 1) =~= written(rest));
        assert forall|i: int| 0 <= i < rest.len() implies token_wf(#[trigger] rest[i]) by {
            assert(token_wf(tokens[i + 1]));
        }
        lemma_written_reads_back(text, end + 1, rest);
        assert(tokens_from(text, end) == tokens_from(text, end + 1));
        assert(seq![first] + rest =~= tokens);
    }
}

/// Whether pieces stand at `at`.
pub open spec fn stand_at(tokens: Seq<TokenView>, at: int, pieces: Seq<TokenView>) -> bool {
    &&& 0 <= at
    &&& at + pieces.len() <= tokens.len()
    &&& forall|i: int|
        0 <= i < pieces.len() ==> #[trigger] pieces[i] == tokens[at + i]
}

/// A name within double quotes.
pub open spec fn name_token(name: Seq<char>) -> TokenView {
    TokenView::Quoted(in_quotes(name, '"'))
}

/// The name of a table, behind that of its schema where there is one.
pub open spec fn table_tokens(table: CopyTableTargetView) -> Seq<TokenView> {
    match table.schema_name {
        None => seq![name_token(table.table_name)],
        Some(schema) => seq![
            name_token(schema),
            TokenView::Sign('.'),
            name_token(table.table_name),
        ],
    }
}

/// The names of columns, with commas between them and a bracket behind.
pub open spec fn column_tokens(columns: Seq<Seq<char>>) -> Seq<TokenView>
    decreases columns.len(),
{
    if columns.len() == 0 {
        seq![]
    } else if columns.len() == 1 {
        seq![name_token(columns[0]), TokenView::Sign(')')]
    } else {
        seq![name_token(columns[0]), TokenView::Sign(',')] + column_tokens(columns.skip(1))
    }
}

/// The names of columns within brackets, where there are any.
pub open spec fn column_list_tokens(columns: Seq<Seq<char>>) -> Seq<TokenView> {
    if columns.len() == 0 {
        seq![]
    } else {
        seq![TokenView::Sign('(')] + column_tokens(columns)
    }
}

/// The parts of a command that name columns.
pub open spec fn column_parts(columns: Seq<Seq<char>>) -> Seq<CopyPartView> {
    columns.map_values(|name: Seq<char>| CopyPartView::Column(in_quotes(name, '"')))
}

proof fn lemma_table(tokens: Seq<TokenView>, at: int, table: CopyTableTargetView)
    requires
        stand_at(tokens, at, table_tokens(table)),
        at + table_tokens(table).len() < tokens.len() ==> tokens[at + table_tokens(table).len()]
            != TokenView::Sign('.'),
    ensures
        table_at(tokens, at) == Some(
            (
                match table.schema_name {
                    None => in_quotes(table.table_name, '"'),
                    Some(schema) => in_quotes(schema, '"') + "."@ + in_quotes(
                        table.table_name,
                        '"',
                    ),
                },
                at + table_tokens(table).len(),
            ),
        ),
{
    let pieces = table_tokens(table);
    assert(pieces[0] == tokens[at + 0]);
    if table.schema_name is Some {
        assert(pieces[1] == tokens[at + 1]);
        assert(pieces[2] == tokens[at + 2]);
    }
}

proof fn lemma_columns(tokens: Seq<TokenView>, at: int, columns: Seq<Seq<char>>)
    requires
        columns.len() > 0,
        stand_at(tokens, at, column_tokens(columns)),
    ensures
        columns_at(tokens, at) == Some(
            (column_parts(columns), at + column_tokens(columns).len()),
        ),
    decreases columns.len(),
{
    let pieces = column_tokens(columns);
    assert(pieces[0] == tokens[at + 0]);
    assert(pieces[1] == tokens[at + 1]);
    if columns.len() > 1 {
        let rest = columns.skip(1);
        let more = column_tokens(rest);
        assert forall|i: int| 0 <= i < more.len() implies #[trigger] more[i] == tokens[at + 2
            + i] by {
            assert(pieces[i + 2] == tokens[at + (i + 2)]);
        }
        lemma_columns(tokens, at + 2, rest);
        assert(column_parts(columns) =~= seq![column_parts(columns)[0]] + column_parts(rest));
    } else {
        assert(column_parts(columns) =~= seq![column_parts(columns)[0]]);
    }
}

/// How an option is written: a keyword, and its value.
pub open spec fn option_tokens(option: CopyOptionView) -> Seq<TokenView> {
    match option {
        CopyOptionView::Format(value) => seq![TokenView::Word("format"@), value_token(value)],
        CopyOptionView::Delimiter(value) => seq![
            TokenView::Word("delimiter"@),
            value_token(value),
        ],
        CopyOptionView::Null(value) => seq![TokenView::Word("null"@), value_token(value)],
        CopyOptionView::Header(None) => seq![TokenView::Word("header"@)],
        CopyOptionView::Header(Some(value)) => seq![
            TokenView::Word("header"@),
            TokenView::Word(value),
        ],
        CopyOptionView::BatchSize(number) => seq![
            TokenView::Word("batch_size"@),
            TokenView::Number(number),
        ],
    }
}

/// How a value is written.
pub open spec fn value_token(value: OptionValueView) -> TokenView {
    match value {
        OptionValueView::Identifier(text) => TokenView::Word(text),
        OptionValueView::SingleQuoted(raw) => TokenView::Text(raw),
    }
}

/// Options, with commas between them and a bracket behind.
pub open spec fn options_tokens(options: Seq<CopyOptionView>) -> Seq<TokenView>
    decreases options.len(),
{
    if options.len() == 0 {
        seq![]
    } else if options.len() == 1 {
        option_tokens(options[0]) + seq![TokenView::Sign(')')]
    } else {
        option_tokens(options[0]) + seq![TokenView::Sign(',')] + options_tokens(options.skip(1))
    }
}

/// Whether an option that says if there is a header says so in one of its two words.
pub open spec fn option_wf(option: CopyOptionView) -> bool {
    option matches CopyOptionView::Header(Some(value)) ==> value == "true"@ || value == "false"@
}

/// The keywords are words, differ, and are in lower case.
proof fn lemma_keywords()
    ensures
        lower("copy"@) == "copy"@,
        lower("from"@) == "from"@,
        lower("to"@) == "to"@,
        lower("stdin"@) == "stdin"@,
        lower("stdout"@) == "stdout"@,
        lower("with"@) == "with"@,
        lower("format"@) == "format"@,
        lower("delimiter"@) == "delimiter"@,
        lower("null"@) == "null"@,
        lower("header"@) == "header"@,
        lower("batch_size"@) == "batch_size"@,
        lower("true"@) == "true"@,
        lower("false"@) == "false"@,
        "format"@.len() == 6,
        "delimiter"@.len() == 9,
        "null"@.len() == 4,
        "header"@.len() == 6,
        "batch_size"@.len() == 10,
        "format"@[0] != "header"@[0],
        "from"@ != "to"@,
        "stdin"@ != "stdout"@,
        "true"@ != "false"@,
{
    reveal_strlit("copy");
    reveal_strlit("from");
    reveal_strlit("to");
    reveal_strlit("stdin");
    reveal_strlit("stdout");
    reveal_strlit("with");
    reveal_strlit("format");
    reveal_strlit("delimiter");
    reveal_strlit("null");
    reveal_strlit("header");
    reveal_strlit("batch_size");
    reveal_strlit("true");
    reveal_strlit("false");
    assert(lower("copy"@) =~= "copy"@);
    assert(lower("from"@) =~= "from"@);
    assert(lower("to"@) =~= "to"@);
    assert(lower("stdin"@) =~= "stdin"@);
    assert(lower("stdout"@) =~= "stdout"@);
    assert(lower("with"@) =~= "with"@);
    assert(lower("format"@) =~= "format"@);
    assert(lower("delimiter"@) =~= "delimiter"@);
    assert(lower("null"@) =~= "null"@);
    assert(lower("header"@) =~= "header"@);
    assert(lower("batch_size"@) =~= "batch_size"@);
    assert(lower("true"@) =~= "true"@);
    assert(lower("false"@) =~= "false"@);
    assert("from"@.len() != "to"@.len());
    assert("stdin"@.len() != "stdout"@.len());
    assert("true"@.len() != "false"@.len());
}

proof fn lemma_option(tokens: Seq<TokenView>, at: int, option: CopyOptionView)
    requires
        option_wf(option),
        stand_at(tokens, at, option_tokens(option)),
        at + option_tokens(option).len() < tokens.len(),
        tokens[at + option_tokens(option).len()] == TokenView::Sign(',') || tokens[at
            + option_tokens(option).len()] == TokenView::Sign(')'),
    ensures
        option_at(tokens, at) == Some((option, at + option_tokens(option).len())),
{
    let pieces = option_tokens(option);
    lemma_keywords();
    assert(pieces[0] == tokens[at + 0]);
    if pieces.len() == 2 {
        assert(pieces[1] == tokens[at + 1]);
    }
}

proof fn lemma_options(tokens: Seq<TokenView>, at: int, options: Seq<CopyOptionView>)
    requires
        options.len() > 0,
        forall|i: int| 0 <= i < options.len() ==> option_wf(#[trigger] options[i]),
        stand_at(tokens, at, options_tokens(options)),
    ensures
        options_at(tokens, at) == Some((options, at + options_tokens(options).len())),
    decreases options.len(),
{
    let first = option_tokens(options[0]);
    let pieces = options_tokens(options);
    assert forall|i: int| 0 <= i < first.len() implies #[trigger] first[i] == tokens[at + i] by {
        assert(pieces[i] == first[i]);
    }
    assert(pieces[first.len() as int] == tokens[at + first.len()]);
    lemma_option(tokens, at, options[0]);
    if options.len() > 1 {
        let rest = options.skip(1);
        let more = options_tokens(rest);
        let next = at + first.len() + 1;
        assert forall|i: int| 0 <= i < more.len() implies #[trigger] more[i] == tokens[next
            + i] by {
            assert(pieces[first.len() + 1 + i] == more[i]);
            assert(pieces[first.len() + 1 + i] == tokens[at + (first.len() + 1 + i)]);
        }
        assert forall|i: int| 0 <= i < rest.len() implies option_wf(#[trigger] rest[i]) by {
            assert(option_wf(options[i + 1]));
        }
        lemma_options(tokens, next, rest);
        assert(seq![options[0]] + rest =~= options);
    } else {
        assert(seq![options[0]] =~= options);
    }
}

/// The name of a format.
pub open spec fn format_word(format: CopyFormat) -> Seq<char> {
    match format {
        CopyFormat::Text => "text"@,
        CopyFormat::Csv => "csv"@,
        CopyFormat::Binary => "binary"@,
    }
}

/// A text within single quotes.
pub open spec fn quoted_value(text: Seq<char>) -> OptionValueView {
    OptionValueView::SingleQuoted(in_quotes(text, '\''))
}

/// Options as they are written: the format and whether there is a header, and what else was given.
pub open spec fn written_options(options: CopyOptionsView) -> Seq<CopyOptionView> {
    let always = seq![
        CopyOptionView::Format(quoted_value(format_word(options.format))),
        CopyOptionView::Header(
            Some(
                if options.header {
                    "true"@
                } else {
                    "false"@
                },
            ),
        ),
    ];
    let with_delimiter = match options.delimiter {
        Some(text) => always.push(CopyOptionView::Delimiter(quoted_value(text))),
        None => always,
    };
    let with_null = match options.null_string {
        Some(text) => with_delimiter.push(CopyOptionView::Null(quoted_value(text))),
        None => with_delimiter,
    };
    match options.batch_size {
        Some(size) => with_null.push(CopyOptionView::BatchSize(decimal(size as nat))),
        None => with_null,
    }
}

/// A digit of a number is one, and is worth what it stands for.
proof fn lemma_digit(value: nat)
    requires
        value < 10,
    ensures
        is_digit(digit(value)),
        digit(value) as nat - 0x30 == value,
{
}

/// A number in decimal is made of digits.
proof fn lemma_decimal_digits(value: nat)
    ensures
        decimal(value).len() > 0,
        forall|i: int| 0 <= i < decimal(value).len() ==> is_digit(#[trigger] decimal(value)[i]),
    decreases value,
{
    if value < 10 {
        lemma_digit(value);
    } else {
        lemma_decimal_digits(value / 10);
        lemma_digit(value % 10);
    }
}

/// A number in decimal at the start of a text is read as that number.
proof fn lemma_decimal_is_read(text: Seq<char>, value: nat)
    requires
        value <= usize::MAX,
        decimal(value).len() <= text.len(),
        text.take(decimal(value).len() as int) == decimal(value),
    ensures
        number_from(text, 0, 0) == number_from(text, decimal(value).len() as int, value),
    decreases value,
{
    let digits = decimal(value);
    let last = digits.len() - 1;
    if value < 10 {
        lemma_digit(value);
        assert(text[0] == text.take(1)[0]);
        assert(number_from(text, 0, 0) == number_from(text, 1, value));
    } else {
        lemma_decimal_digits(value / 10);
        lemma_digit(value % 10);
        let front = decimal(value / 10);
        assert(text.take(front.len() as int) =~= front) by {
            assert(text.take(digits.len() as int).take(front.len() as int) =~= front);
        }
        lemma_decimal_is_read(text, value / 10);
        assert(text[last] == text.take(digits.len() as int)[last]);
        assert(number_from(text, last, value / 10) == number_from(text, last + 1, value));
    }
}

proof fn lemma_decimal_reads_back(value: nat)
    requires
        value <= usize::MAX,
    ensures
        number_of(decimal(value)) == Ok::<nat, Seq<char>>(value),
{
    let text = decimal(value);
    lemma_decimal_digits(value);
    assert(text.take(text.len() as int) =~= text);
    lemma_decimal_is_read(text, value);
    assert(is_digit(text[0]));
}

/// One option more at the end.
proof fn lemma_one_more_option(
    options: CopyOptionsView,
    list: Seq<CopyOptionView>,
    option: CopyOptionView,
    at: int,
)
    requires
        0 <= at <= list.len(),
        options_effect(options, list, at).1 is None,
    ensures
        options_effect(options, list.push(option), at) == match option_effect(
            options_effect(options, list, at).0,
            option,
        ) {
            Ok(next) => (next, None),
            Err(error) => (options_effect(options, list, at).0, Some(error)),
        },
    decreases list.len() - at,
{
    let longer = list.push(option);
    if at < list.len() {
        assert(longer[at] == list[at]);
        if let Ok(next) = option_effect(options, list[at]) {
            lemma_one_more_option(next, list, option, at + 1);
        }
    } else {
        assert(longer[at] == option);
        reveal_with_fuel(options_effect, 2);
    }
}

/// Options that are written read as those options.
proof fn lemma_options_read_back(options: CopyOptionsView)
    ensures
        options_effect(default_options(), written_options(options), 0) == (
            options,
            None::<SbroadErrorView>,
        ),
{
    lemma_keywords();
    let start = default_options();
    let empty = Seq::<CopyOptionView>::empty();
    let format = CopyOptionView::Format(quoted_value(format_word(options.format)));
    law_quoted_text_reads_back(format_word(options.format));
    reveal_strlit("text");
    reveal_strlit("csv");
    reveal_strlit("binary");
    assert(lower("text"@) =~= "text"@);
    assert(lower("csv"@) =~= "csv"@);
    assert(lower("binary"@) =~= "binary"@);
    assert("csv"@.len() != "text"@.len() && "binary"@.len() != "text"@.len() && "binary"@.len()
        != "csv"@.len());
    let word = if options.header {
        "true"@
    } else {
        "false"@
    };
    let header = CopyOptionView::Header(Some(word));
    assert(options_effect(start, empty, 0) == (start, None::<SbroadErrorView>));
    lemma_one_more_option(start, empty, format, 0);
    let one = empty.push(format);
    lemma_one_more_option(start, one, header, 0);
    let always = one.push(header);
    assert(always =~= seq![format, header]);
    let mut so_far = always;
    if let Some(text) = options.delimiter {
        law_quoted_text_reads_back(text);
        lemma_one_more_option(start, so_far, CopyOptionView::Delimiter(quoted_value(text)), 0);
        so_far = so_far.push(CopyOptionView::Delimiter(quoted_value(text)));
    }
    if let Some(text) = options.null_string {
        law_quoted_text_reads_back(text);
        lemma_one_more_option(start, so_far, CopyOptionView::Null(quoted_value(text)), 0);
        so_far = so_far.push(CopyOptionView::Null(quoted_value(text)));
    }
    if let Some(size) = options.batch_size {
        lemma_decimal_reads_back(size as nat);
        lemma_one_more_option(start, so_far, CopyOptionView::BatchSize(decimal(size as nat)), 0);
        so_far = so_far.push(CopyOptionView::BatchSize(decimal(size as nat)));
    }
    assert(so_far == written_options(options));
}

/// The table and the columns of a statement.
pub open spec fn table_of_statement(statement: CopyStatementView) -> CopyTableTargetView {
    match statement {
        CopyStatementView::From { table, options } => table,
        CopyStatementView::To { table, options } => table,
    }
}

/// The options of a statement.
pub open spec fn options_of_statement(statement: CopyStatementView) -> CopyOptionsView {
    match statement {
        CopyStatementView::From { table, options } => options,
        CopyStatementView::To { table, options } => options,
    }
}

/// The words for where the rows of a statement come from or go to.
pub open spec fn direction_words(statement: CopyStatementView) -> (Seq<char>, Seq<char>) {
    match statement {
        CopyStatementView::From { table, options } => ("from"@, "stdin"@),
        CopyStatementView::To { table, options } => ("to"@, "stdout"@),
    }
}

/// The pieces of a command for a statement.
pub open spec fn statement_tokens(statement: CopyStatementView) -> Seq<TokenView> {
    let words = direction_words(statement);
    seq![TokenView::Word("copy"@)] + table_tokens(table_of_statement(statement))
        + column_list_tokens(table_of_statement(statement).columns) + seq![
        TokenView::Word(words.0),
        TokenView::Word(words.1),
        TokenView::Word("with"@),
        TokenView::Sign('('),
    ] + options_tokens(written_options(options_of_statement(statement)))
}

/// The parts of a command for a statement.
spec fn statement_parts(statement: CopyStatementView) -> Seq<CopyPartView> {
    let words = direction_words(statement);
    let table = table_of_statement(statement);
    let name = match table.schema_name {
        None => in_quotes(table.table_name, '"'),
        Some(schema) => in_quotes(schema, '"') + "."@ + in_quotes(table.table_name, '"'),
    };
    seq![CopyPartView::TableName(name)] + column_parts(table.columns) + seq![
        CopyPartView::Direction(words.0),
        CopyPartView::Target(words.1),
    ] + seq![CopyPartView::WithOptions(written_options(options_of_statement(statement)))]
}

proof fn lemma_written_options_wf(options: CopyOptionsView)
    ensures
        written_options(options).len() > 0,
        forall|i: int|
            0 <= i < written_options(options).len() ==> option_wf(
                #[trigger] written_options(options)[i],
            ),
{
}

/// The pieces of a command for a statement have the parts of that statement.
proof fn lemma_statement_parts(statement: CopyStatementView)
    ensures
        copy_parts(statement_tokens(statement)) == Some(statement_parts(statement)),
{
    let tokens = statement_tokens(statement);
    let table = table_of_statement(statement);
    let words = direction_words(statement);
    let list = written_options(options_of_statement(statement));
    let named = table_tokens(table);
    let columns = column_list_tokens(table.columns);
    let given = options_tokens(list);
    let middle = seq![
        TokenView::Word(words.0),
        TokenView::Word(words.1),
        TokenView::Word("with"@),
        TokenView::Sign('('),
    ];
    lemma_keywords();
    let columns_start = 1 + named.len() as int;
    let direction_start = columns_start + columns.len();
    let options_start = direction_start + 4;
    assert(tokens.len() == options_start + given.len());
    assert forall|i: int| 0 <= i < named.len() implies #[trigger] named[i] == tokens[1 + i] by {}
    assert forall|i: int| 0 <= i < columns.len() implies #[trigger] columns[i]
        == tokens[columns_start + i] by {}
    assert forall|i: int| 0 <= i < 4 implies #[trigger] middle[i] == tokens[direction_start
        + i] by {}
    assert forall|i: int| 0 <= i < given.len() implies #[trigger] given[i] == tokens[options_start
        + i] by {}
    assert(middle[0] == tokens[direction_start + 0]);
    assert(middle[1] == tokens[direction_start + 1]);
    assert(middle[2] == tokens[direction_start + 2]);
    assert(middle[3] == tokens[direction_start + 3]);
    if table.columns.len() > 0 {
        assert(columns[0] == tokens[columns_start + 0]);
    }
    lemma_table(tokens, 1, table);
    if table.columns.len() > 0 {
        let inner = column_tokens(table.columns);
        assert forall|i: int| 0 <= i < inner.len() implies #[trigger] inner[i]
            == tokens[columns_start + 1 + i] by {
            assert(columns[i + 1] == tokens[columns_start + (i + 1)]);
        }
        lemma_columns(tokens, columns_start + 1, table.columns);
    } else {
        assert(column_parts(table.columns) =~= seq![]);
    }
    assert(column_list_at(tokens, columns_start) == Some(
        (column_parts(table.columns), direction_start),
    ));
    lemma_written_options_wf(options_of_statement(statement));
    lemma_options(tokens, options_start, list);
    assert(clauses_at(tokens, direction_start + 2) == Some(
        (seq![CopyPartView::WithOptions(list)], tokens.len() as int),
    ));
}

/// One part more at the end.
proof fn lemma_one_more_part(
    so_far: CopySoFar,
    parts: Seq<CopyPartView>,
    part: CopyPartView,
    at: int,
)
    requires
        0 <= at <= parts.len(),
        parts_effect(so_far, parts, at) is Ok,
    ensures
        parts_effect(so_far, parts.push(part), at) == part_effect(
            parts_effect(so_far, parts, at)->Ok_0,
            part,
        ),
    decreases parts.len() - at,
{
    let longer = parts.push(part);
    if at < parts.len() {
        assert(longer[at] == parts[at]);
        if let Ok(next) = part_effect(so_far, parts[at]) {
            lemma_one_more_part(next, parts, part, at + 1);
        }
    } else {
        assert(longer[at] == part);
        reveal_with_fuel(parts_effect, 2);
    }
}

/// Columns at the end.
proof fn lemma_more_columns(
    so_far: CopySoFar,
    parts: Seq<CopyPartView>,
    columns: Seq<Seq<char>>,
)
    requires
        parts_effect(so_far, parts, 0) is Ok,
    ensures
        parts_effect(so_far, parts + column_parts(columns), 0) == Ok::<CopySoFar, SbroadErrorView>(
            CopySoFar {
                columns: parts_effect(so_far, parts, 0)->Ok_0.columns + columns,
                ..parts_effect(so_far, parts, 0)->Ok_0
            },
        ),
    decreases columns.len(),
{
    let before = parts_effect(so_far, parts, 0)->Ok_0;
    if columns.len() == 0 {
        assert(parts + column_parts(columns) =~= parts);
        assert(before.columns + columns =~= before.columns);
    } else {
        let fewer = columns.drop_last();
        let last = columns.last();
        lemma_more_columns(so_far, parts, fewer);
        law_quoted_name_reads_back(last);
        let part = CopyPartView::Column(in_quotes(last, '"'));
        lemma_one_more_part(so_far, parts + column_parts(fewer), part, 0);
        assert((parts + column_parts(fewer)).push(part) =~= parts + column_parts(columns));
        assert((before.columns + fewer).push(last) =~= before.columns + columns);
    }
}

/// The parts of a statement make that statement.
proof fn lemma_statement_of_parts(statement: CopyStatementView)
    ensures
        copy_statement(statement_parts(statement)) == Ok::<CopyStatementView, SbroadErrorView>(
            statement,
        ),
{
    let start = nothing_so_far();
    let empty = Seq::<CopyPartView>::empty();
    let table = table_of_statement(statement);
    let words = direction_words(statement);
    let options = options_of_statement(statement);
    let name = match table.schema_name {
        None => in_quotes(table.table_name, '"'),
        Some(schema) => in_quotes(schema, '"') + "."@ + in_quotes(table.table_name, '"'),
    };
    lemma_keywords();
    law_quoted_table_reads_back(
        match table.schema_name {
            None => seq![],
            Some(schema) => schema,
        },
        table.table_name,
    );
    lemma_options_read_back(options);
    assert(parts_effect(start, empty, 0) == Ok::<CopySoFar, SbroadErrorView>(start));
    lemma_one_more_part(start, empty, CopyPartView::TableName(name), 0);
    let one = empty.push(CopyPartView::TableName(name));
    lemma_more_columns(start, one, table.columns);
    assert(start.columns + table.columns =~= table.columns);
    let two = one + column_parts(table.columns);
    lemma_one_more_part(start, two, CopyPartView::Direction(words.0), 0);
    let three = two.push(CopyPartView::Direction(words.0));
    lemma_one_more_part(start, three, CopyPartView::Target(words.1), 0);
    let four = three.push(CopyPartView::Target(words.1));
    lemma_one_more_part(start, four, CopyPartView::WithOptions(written_options(options)), 0);
    let five = four.push(CopyPartView::WithOptions(written_options(options)));
    assert(five =~= statement_parts(statement));
}

/// Whether all pieces are such.
pub open spec fn all_wf(tokens: Seq<TokenView>) -> bool {
    forall|i: int| 0 <= i < tokens.len() ==> token_wf(#[trigger] tokens[i])
}

proof fn lemma_keywords_wf()
    ensures
        token_wf(TokenView::Word("copy"@)),
        token_wf(TokenView::Word("from"@)),
        token_wf(TokenView::Word("to"@)),
        token_wf(TokenView::Word("stdin"@)),
        token_wf(TokenView::Word("stdout"@)),
        token_wf(TokenView::Word("with"@)),
        token_wf(TokenView::Word("format"@)),
        token_wf(TokenView::Word("delimiter"@)),
        token_wf(TokenView::Word("null"@)),
        token_wf(TokenView::Word("header"@)),
        token_wf(TokenView::Word("batch_size"@)),
        token_wf(TokenView::Word("true"@)),
        token_wf(TokenView::Word("false"@)),
{
    reveal_strlit("copy");
    reveal_strlit("from");
    reveal_strlit("to");
    reveal_strlit("stdin");
    reveal_strlit("stdout");
    reveal_strlit("with");
    reveal_strlit("format");
    reveal_strlit("delimiter");
    reveal_strlit("null");
    reveal_strlit("header");
    reveal_strlit("batch_size");
    reveal_strlit("true");
    reveal_strlit("false");
}

proof fn lemma_columns_wf(columns: Seq<Seq<char>>)
    ensures
        all_wf(column_tokens(columns)),
    decreases columns.len(),
{
    if columns.len() > 0 {
        assert(token_wf(name_token(columns[0])));
        if columns.len() > 1 {
            lemma_columns_wf(columns.skip(1));
        }
    }
}

/// Whether the pieces of an option are such.
proof fn lemma_option_wf(options: CopyOptionsView, i: int)
    requires
        0 <= i < written_options(options).len(),
    ensures
        all_wf(option_tokens(written_options(options)[i])),
{
    lemma_keywords_wf();
    let option = written_options(options)[i];
    match option {
        CopyOptionView::Format(value) => {
            assert(value == quoted_value(format_word(options.format)));
            assert(token_wf(value_token(value)));
        },
        CopyOptionView::Delimiter(value) => {
            assert(value == quoted_value(options.delimiter->0));
            assert(token_wf(value_token(value)));
        },
        CopyOptionView::Null(value) => {
            assert(value == quoted_value(options.null_string->0));
            assert(token_wf(value_token(value)));
        },
        CopyOptionView::Header(_) => {},
        CopyOptionView::BatchSize(number) => {
            lemma_decimal_digits(options.batch_size->0 as nat);
        },
    }
}

proof fn lemma_options_wf(options: Seq<CopyOptionView>)
    requires
        forall|i: int| 0 <= i < options.len() ==> all_wf(option_tokens(#[trigger] options[i])),
    ensures
        all_wf(options_tokens(options)),
    decreases options.len(),
{
    if options.len() > 0 {
        assert(all_wf(option_tokens(options[0])));
        if options.len() > 1 {
            let rest = options.skip(1);
            assert forall|i: int| 0 <= i < rest.len() implies all_wf(
                option_tokens(#[trigger] rest[i]),
            ) by {
                assert(all_wf(option_tokens(options[i + 1])));
            }
            lemma_options_wf(rest);
        }
    }
}

proof fn lemma_statement_wf(statement: CopyStatementView)
    ensures
        all_wf(statement_tokens(statement)),
{
    let table = table_of_statement(statement);
    let options = options_of_statement(statement);
    let list = written_options(options);
    lemma_keywords_wf();
    lemma_columns_wf(table.columns);
    assert(token_wf(name_token(table.table_name)));
    if let Some(schema) = table.schema_name {
        assert(token_wf(name_token(schema)));
    }
    assert(all_wf(table_tokens(table)));
    assert(all_wf(column_list_tokens(table.columns)));
    assert forall|i: int| 0 <= i < list.len() implies all_wf(option_tokens(#[trigger] list[i])) by {
        lemma_option_wf(options, i);
    }
    lemma_options_wf(list);
}

/// The command for a statement.
pub open spec fn written_copy(statement: CopyStatementView) -> Seq<char> {
    written(statement_tokens(statement))
}

/// Every COPY can be written: whatever its table, its columns and its options are, there is a
/// command that reads as that COPY and as nothing else. Names and texts stand in quotes.
pub proof fn law_written_copy_reads_back(statement: CopyStatementView)
    ensures
        starts_with_copy(written_copy(statement)),
        copy_of(written_copy(statement)) == Some(
            Ok::<CopyStatementView, SbroadErrorView>(statement),
        ),
{
    let tokens = statement_tokens(statement);
    let text = written_copy(statement);
    lemma_statement_wf(statement);
    assert(text.skip(0) =~= text);
    lemma_written_reads_back(text, 0, tokens);
    lemma_statement_parts(statement);
    lemma_statement_of_parts(statement);
    lemma_keywords();
    lemma_keywords_wf();
    assert(starts_with_copy(text)) by {
        reveal_strlit("copy");
        assert(tokens[0] == TokenView::Word("copy"@));
        assert(text == "copy"@ + seq![' '] + written(tokens.skip(1)));
        assert(text.subrange(0, 4) =~= "copy"@);
        lemma_word_end(text, 1, 4);
    }
}

}
