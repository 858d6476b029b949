//! Reads a command: tells COPY from any other SQL, and makes the statement of a COPY.
use crate::errors::{Entity, SbroadError, SbroadErrorView};
use crate::sql::grammar::{
    copy_parts, lemma_parts_wf, option_views, options_wf, part_views, parts_wf, read_copy,
    CopyOption, CopyOptionView, CopyPart, CopyPartView, OptionValue, OptionValueView,
};
use crate::sql::lexer::{
    char_is_digit, char_is_space, char_starts_word, find_word_end, is_digit, is_space,
    lemma_tokens_quoted, starts_word, token_views, tokenize, tokens_from, word_end,
};
use crate::sql::names::{
    normalize_name_from_sql, normalized, parse_table_name, table_of, undoubled,
    unquote_single_quoted,
};
use crate::sql::statement::{
    default_options, CopyFormat, CopyFrom, CopyOptions, CopyOptionsView, CopyStatement,
    CopyStatementView, CopyTableTarget, CopyTableTargetView, CopyTo,
};
use crate::text::{
    chars_of, lower, optional_text, same_text, smol, smol_text, string_of, texts,
    to_lower,
};
use smol_str::SmolStr;
use vstd::prelude::*;

verus! {

/// What a query is.
#[derive(Debug)]
pub enum ParsedCommand {
    /// Any command but COPY.
    Sql,
    Copy(CopyStatement),
}

pub enum ParsedCommandView {
    Sql,
    Copy(CopyStatementView),
}

impl View for ParsedCommand {
    type V = ParsedCommandView;

    open spec fn view(&self) -> ParsedCommandView {
        match *self {
            ParsedCommand::Sql => ParsedCommandView::Sql,
            ParsedCommand::Copy(statement) => ParsedCommandView::Copy(statement@),
        }
    }
}

/// Which way the rows go.
#[derive(Clone, Copy, Debug, PartialEq, Eq, Structural)]
pub enum ParsedDirection {
    From,
    To,
}

/// Where the rows come from or go to.
#[derive(Clone, Copy, Debug, PartialEq, Eq, Structural)]
pub enum ParsedEndpoint {
    Stdin,
    Stdout,
}

/// An error about a query, with a text.
pub open spec fn invalid_query(text: Seq<char>) -> SbroadErrorView {
    SbroadErrorView::Invalid(Entity::Query, Some(text))
}

fn invalid(text: &str) -> (error: SbroadError)
    ensures
        error@ == invalid_query(text@),
{
    SbroadError::Invalid(Entity::Query, Some(smol(text)))
}

/// What a value says: a name as it is written, a text without its quotes.
pub open spec fn value_text(value: OptionValueView) -> Seq<char> {
    match value {
        OptionValueView::Identifier(text) => text,
        OptionValueView::SingleQuoted(raw) => undoubled(raw.subrange(1, raw.len() - 1), '\''),
    }
}

/// Reads the value of an option.
pub fn parse_option_value(value: &OptionValue) -> (text: String)
    requires
        value@.wf(),
    ensures
        text@ == value_text(value@),
{
    match value {
        OptionValue::Identifier(text) => text.clone(),
        OptionValue::SingleQuoted(raw) => unquote_single_quoted(raw.as_str()),
    }
}

/// The format of a name, in upper or lower case.
pub open spec fn format_of(raw: Seq<char>) -> Result<CopyFormat, SbroadErrorView> {
    if lower(raw) == "text"@ {
        Ok(CopyFormat::Text)
    } else if lower(raw) == "csv"@ {
        Ok(CopyFormat::Csv)
    } else if lower(raw) == "binary"@ {
        Ok(CopyFormat::Binary)
    } else {
        Err(invalid_query("unsupported COPY format: "@ + lower(raw)))
    }
}

/// Reads the name of a format.
pub fn parse_copy_format(raw: &str) -> (result: Result<CopyFormat, SbroadError>)
    ensures
        match format_of(raw@) {
            Ok(format) => result == Ok::<CopyFormat, SbroadError>(format),
            Err(error) => result matches Err(found) && found@ == error,
        },
{
    let name = to_lower(raw);
    if same_text(name.as_str(), "text") {
        Ok(CopyFormat::Text)
    } else if same_text(name.as_str(), "csv") {
        Ok(CopyFormat::Csv)
    } else if same_text(name.as_str(), "binary") {
        Ok(CopyFormat::Binary)
    } else {
        let text = "unsupported COPY format: ".to_owned().concat(name.as_str());
        Err(invalid(text.as_str()))
    }
}

/// The number that a row of digits says, read on from `at` with what stands before it worth
/// `value`; or why it is none. The first character that makes it none decides.
pub open spec fn number_from(text: Seq<char>, at: int, value: nat) -> Result<nat, Seq<char>>
    decreases text.len() - at,
{
    if at < 0 || at >= text.len() {
        Ok(value)
    } else if !is_digit(text[at]) {
        Err("invalid digit found in string"@)
    } else {
        let next = value * 10 + (text[at] as nat - 0x30) as nat;
        if next > usize::MAX {
            Err("number too large to fit in target type"@)
        } else {
            number_from(text, at + 1, next)
        }
    }
}

/// The number that a text says, in decimal and perhaps behind a plus sign; or why it is none.
pub open spec fn number_of(text: Seq<char>) -> Result<nat, Seq<char>> {
    if text.len() == 0 {
        Err("cannot parse integer from empty string"@)
    } else if text[0] == '+' && text.len() > 1 {
        number_from(text, 1, 0)
    } else {
        number_from(text, 0, 0)
    }
}

fn parse_number(text: &str) -> (result: Result<usize, &'static str>)
    ensures
        match number_of(text@) {
            Ok(value) => result matches Ok(number) && number == value,
            Err(reason) => result matches Err(found) && found@ == reason,
        },
{
    let chars = chars_of(text);
    if chars.len() == 0 {
        return Err("cannot parse integer from empty string");
    }
    let mut at: usize = if chars[0] == '+' && chars.len() > 1 {
        1
    } else {
        0
    };
    let mut value: usize = 0;
    while at < chars.len()
        invariant
            chars@ == text@,
            at <= chars@.len(),
            number_of(chars@) == number_from(chars@, at as int, value as nat),
        decreases chars@.len() - at,
    {
        let ch = chars[at];
        if !char_is_digit(ch) {
            return Err("invalid digit found in string");
        }
        let digit: usize = (ch as u32 - 0x30) as usize;
        if value > usize::MAX / 10 || value * 10 > usize::MAX - digit {
            return Err("number too large to fit in target type");
        }
        value = value * 10 + digit;
        at += 1;
    }
    Ok(value)
}

/// The options after one more option, or the error that it is.
pub open spec fn option_effect(options: CopyOptionsView, option: CopyOptionView) -> Result<
    CopyOptionsView,
    SbroadErrorView,
> {
    match option {
        CopyOptionView::Format(value) => match format_of(value_text(value)) {
            Ok(format) => Ok(CopyOptionsView { format, ..options }),
            Err(error) => Err(error),
        },
        CopyOptionView::Delimiter(value) => Ok(
            CopyOptionsView { delimiter: Some(value_text(value)), ..options },
        ),
        CopyOptionView::Null(value) => Ok(
            CopyOptionsView { null_string: Some(value_text(value)), ..options },
        ),
        CopyOptionView::Header(None) => Ok(CopyOptionsView { header: true, ..options }),
        CopyOptionView::Header(Some(value)) => Ok(
            CopyOptionsView { header: lower(value) == "true"@, ..options },
        ),
        CopyOptionView::BatchSize(raw) => match number_of(raw) {
            Ok(size) => Ok(CopyOptionsView { batch_size: Some(size as usize), ..options }),
            Err(reason) => Err(
                invalid_query("invalid COPY batch_size "@ + raw + ": "@ + reason),
            ),
        },
    }
}

/// The options after those of a list from `at` on, up to the first that is an error, and that
/// error. What comes later counts.
pub open spec fn options_effect(
    options: CopyOptionsView,
    list: Seq<CopyOptionView>,
    at: int,
) -> (CopyOptionsView, Option<SbroadErrorView>)
    decreases list.len() - at,
{
    if at < 0 || at >= list.len() {
        (options, None)
    } else {
        match option_effect(options, list[at]) {
            Ok(next) => options_effect(next, list, at + 1),
            Err(error) => (options, Some(error)),
        }
    }
}

fn apply_option(options: &mut CopyOptions, option: &CopyOption) -> (result: Result<
    (),
    SbroadError,
>)
    requires
        option@.wf(),
    ensures
        match option_effect(old(options)@, option@) {
            Ok(next) => result is Ok && final(options)@ == next,
            Err(error) => result matches Err(found) && found@ == error && final(options)@ == old(
                options,
            )@,
        },
{
    match option {
        CopyOption::Format(value) => {
            let name = parse_option_value(value);
            match parse_copy_format(name.as_str()) {
                Ok(format) => {
                    options.format = format;
                    Ok(())
                },
                Err(error) => Err(error),
            }
        },
        CopyOption::Delimiter(value) => {
            options.delimiter = Some(parse_option_value(value));
            Ok(())
        },
        CopyOption::Null(value) => {
            options.null_string = Some(parse_option_value(value));
            Ok(())
        },
        CopyOption::Header(value) => {
            options.header = match value {
                Some(text) => {
                    let small = to_lower(text.as_str());
                    same_text(small.as_str(), "true")
                },
                None => true,
            };
            Ok(())
        },
        CopyOption::BatchSize(raw) => match parse_number(raw.as_str()) {
            Ok(size) => {
                options.batch_size = Some(size);
                Ok(())
            },
            Err(reason) => {
                let mut text = "invalid COPY batch_size ".to_owned();
                text.append(raw.as_str());
                text.append(": ");
                text.append(reason);
                Err(invalid(text.as_str()))
            },
        },
    }
}

/// Takes over the options of a list.
pub fn parse_with_options(options: &mut CopyOptions, list: &Vec<CopyOption>) -> (result: Result<
    (),
    SbroadError,
>)
    requires
        options_wf(option_views(list@)),
    ensures
        final(options)@ == options_effect(old(options)@, option_views(list@), 0).0,
        match options_effect(old(options)@, option_views(list@), 0).1 {
            None => result is Ok,
            Some(error) => result matches Err(found) && found@ == error,
        },
{
    let ghost views = option_views(list@);
    let mut at: usize = 0;
    while at < list.len()
        invariant
            at <= list@.len(),
            views == option_views(list@),
            options_wf(views),
            options_effect(old(options)@, views, 0) == options_effect(options@, views, at as int),
        decreases list@.len() - at,
    {
        assert(views[at as int].wf());
        match apply_option(options, &list[at]) {
            Ok(()) => {},
            Err(error) => return Err(error),
        }
        at += 1;
    }
    Ok(())
}

/// What has been read of a COPY.
#[verifier::ext_equal]
pub struct CopySoFar {
    pub table: Option<(Option<Seq<char>>, Seq<char>)>,
    pub columns: Seq<Seq<char>>,
    pub direction: Option<ParsedDirection>,
    pub endpoint: Option<ParsedEndpoint>,
    pub options: CopyOptionsView,
}

/// What has been read of a COPY before its first part.
pub open spec fn nothing_so_far() -> CopySoFar {
    CopySoFar {
        table: None,
        columns: seq![],
        direction: None,
        endpoint: None,
        options: default_options(),
    }
}

/// The direction that a word gives.
pub open spec fn direction_of(word: Seq<char>) -> Result<ParsedDirection, SbroadErrorView> {
    if lower(word) == "from"@ {
        Ok(ParsedDirection::From)
    } else if lower(word) == "to"@ {
        Ok(ParsedDirection::To)
    } else {
        Err(
            SbroadErrorView::ParsingError(
                Entity::Query,
                "unsupported COPY direction: "@ + lower(word),
            ),
        )
    }
}

/// The endpoint that a word gives.
pub open spec fn endpoint_of(word: Seq<char>) -> Result<ParsedEndpoint, SbroadErrorView> {
    if lower(word) == "stdin"@ {
        Ok(ParsedEndpoint::Stdin)
    } else if lower(word) == "stdout"@ {
        Ok(ParsedEndpoint::Stdout)
    } else {
        Err(
            SbroadErrorView::ParsingError(
                Entity::Query,
                "unsupported COPY target: "@ + lower(word),
            ),
        )
    }
}

/// What has been read after one more part, or the error that it is.
pub open spec fn part_effect(so_far: CopySoFar, part: CopyPartView) -> Result<
    CopySoFar,
    SbroadErrorView,
> {
    match part {
        CopyPartView::TableName(raw) => Ok(CopySoFar { table: Some(table_of(raw)), ..so_far }),
        CopyPartView::Column(name) => Ok(
            CopySoFar { columns: so_far.columns.push(normalized(name)), ..so_far },
        ),
        CopyPartView::Direction(word) => match direction_of(word) {
            Ok(direction) => Ok(CopySoFar { direction: Some(direction), ..so_far }),
            Err(error) => Err(error),
        },
        CopyPartView::Target(word) => match endpoint_of(word) {
            Ok(endpoint) => Ok(CopySoFar { endpoint: Some(endpoint), ..so_far }),
            Err(error) => Err(error),
        },
        CopyPartView::WithOptions(list) => match options_effect(so_far.options, list, 0) {
            (options, None) => Ok(CopySoFar { options, ..so_far }),
            (_, Some(error)) => Err(error),
        },
        CopyPartView::LegacyDelimiter(value) => Ok(
            CopySoFar {
                options: CopyOptionsView {
                    delimiter: Some(value_text(value)),
                    ..so_far.options
                },
                ..so_far
            },
        ),
        CopyPartView::LegacyNull(value) => Ok(
            CopySoFar {
                options: CopyOptionsView {
                    null_string: Some(value_text(value)),
                    ..so_far.options
                },
                ..so_far
            },
        ),
    }
}

/// What has been read after the parts from `at` on, or the first error.
pub open spec fn parts_effect(so_far: CopySoFar, parts: Seq<CopyPartView>, at: int) -> Result<
    CopySoFar,
    SbroadErrorView,
>
    decreases parts.len() - at,
{
    if at < 0 || at >= parts.len() {
        Ok(so_far)
    } else {
        match part_effect(so_far, parts[at]) {
            Ok(next) => parts_effect(next, parts, at + 1),
            Err(error) => Err(error),
        }
    }
}

/// The statement that has been read: rows go from `STDIN` or to `STDOUT`, and nothing may be
/// missing.
pub open spec fn statement_of(read: CopySoFar) -> Result<CopyStatementView, SbroadErrorView> {
    match (read.table, read.direction, read.endpoint) {
        (None, _, _) => Err(invalid_query("COPY table name is missing"@)),
        (_, None, _) => Err(invalid_query("COPY direction is missing"@)),
        (_, _, None) => Err(invalid_query("COPY target is missing"@)),
        (Some((schema_name, table_name)), Some(direction), Some(endpoint)) => {
            let table = CopyTableTargetView { schema_name, table_name, columns: read.columns };
            let options = read.options;
            match (direction, endpoint) {
                (ParsedDirection::From, ParsedEndpoint::Stdin) => Ok(
                    CopyStatementView::From { table, options },
                ),
                (ParsedDirection::To, ParsedEndpoint::Stdout) => Ok(
                    CopyStatementView::To { table, options },
                ),
                (ParsedDirection::From, ParsedEndpoint::Stdout) => Err(
                    invalid_query("COPY FROM STDOUT is invalid"@),
                ),
                (ParsedDirection::To, ParsedEndpoint::Stdin) => Err(
                    invalid_query("COPY TO STDIN is invalid"@),
                ),
            }
        },
    }
}

/// The statement that the parts of a COPY make, or what is wrong with them.
pub open spec fn copy_statement(parts: Seq<CopyPartView>) -> Result<
    CopyStatementView,
    SbroadErrorView,
> {
    match parts_effect(nothing_so_far(), parts, 0) {
        Ok(read) => statement_of(read),
        Err(error) => Err(error),
    }
}

fn parse_direction(word: &str) -> (result: Result<ParsedDirection, SbroadError>)
    ensures
        match direction_of(word@) {
            Ok(direction) => result == Ok::<ParsedDirection, SbroadError>(direction),
            Err(error) => result matches Err(found) && found@ == error,
        },
{
    let small = to_lower(word);
    if same_text(small.as_str(), "from") {
        Ok(ParsedDirection::From)
    } else if same_text(small.as_str(), "to") {
        Ok(ParsedDirection::To)
    } else {
        let text = "unsupported COPY direction: ".to_owned().concat(small.as_str());
        Err(SbroadError::ParsingError(Entity::Query, smol(text.as_str())))
    }
}

fn parse_endpoint(word: &str) -> (result: Result<ParsedEndpoint, SbroadError>)
    ensures
        match endpoint_of(word@) {
            Ok(endpoint) => result == Ok::<ParsedEndpoint, SbroadError>(endpoint),
            Err(error) => result matches Err(found) && found@ == error,
        },
{
    let small = to_lower(word);
    if same_text(small.as_str(), "stdin") {
        Ok(ParsedEndpoint::Stdin)
    } else if same_text(small.as_str(), "stdout") {
        Ok(ParsedEndpoint::Stdout)
    } else {
        let text = "unsupported COPY target: ".to_owned().concat(small.as_str());
        Err(SbroadError::ParsingError(Entity::Query, smol(text.as_str())))
    }
}

/// Makes the statement of the parts of a COPY.
pub fn parse_copy(parts: &Vec<CopyPart>) -> (result: Result<CopyStatement, SbroadError>)
    requires
        parts_wf(part_views(parts@)),
    ensures
        match copy_statement(part_views(parts@)) {
            Ok(statement) => result matches Ok(found) && found@ == statement,
            Err(error) => result matches Err(found) && found@ == error,
        },
{
    let mut target: Option<(Option<SmolStr>, SmolStr)> = None;
    let mut columns: Vec<SmolStr> = Vec::new();
    let mut direction: Option<ParsedDirection> = None;
    let mut endpoint: Option<ParsedEndpoint> = None;
    let mut options = CopyOptions::default();
    let ghost views = part_views(parts@);
    let ghost mut so_far = nothing_so_far();
    assert(texts(columns@) =~= seq![]);
    let mut at: usize = 0;
    while at < parts.len()
        invariant
            at <= parts@.len(),
            views == part_views(parts@),
            parts_wf(views),
            parts_effect(nothing_so_far(), views, 0) == parts_effect(so_far, views, at as int),
            so_far.table == match target {
                Some((schema, table)) => Some((optional_text(schema), smol_text(table))),
                None => None,
            },
            so_far.columns == texts(columns@),
            so_far.direction == direction,
            so_far.endpoint == endpoint,
            so_far.options == options@,
        decreases parts@.len() - at,
    {
        assert(views[at as int].wf());
        let ghost before = so_far;
        match &parts[at] {
            CopyPart::TableName(raw) => {
                target = Some(parse_table_name(raw.as_str()));
            },
            CopyPart::Column(name) => {
                let ghost old_columns = columns@;
                let column = normalize_name_from_sql(name.as_str());
                columns.push(column);
                assert(texts(columns@) =~= texts(old_columns).push(smol_text(column)));
            },
            CopyPart::Direction(word) => {
                match parse_direction(word.as_str()) {
                    Ok(found) => {
                        direction = Some(found);
                    },
                    Err(error) => return Err(error),
                }
            },
            CopyPart::Target(word) => {
                match parse_endpoint(word.as_str()) {
                    Ok(found) => {
                        endpoint = Some(found);
                    },
                    Err(error) => return Err(error),
                }
            },
            CopyPart::WithOptions(list) => {
                match parse_with_options(&mut options, list) {
                    Ok(()) => {},
                    Err(error) => return Err(error),
                }
            },
            CopyPart::LegacyDelimiter(value) => {
                options.delimiter = Some(parse_option_value(value));
            },
            CopyPart::LegacyNull(value) => {
                options.null_string = Some(parse_option_value(value));
            },
        }
        at += 1;
        proof {
            so_far = part_effect(before, views[at - 1])->Ok_0;
        }
    }
    let (schema_name, table_name) = match target {
        Some(found) => found,
        None => return Err(invalid("COPY table name is missing")),
    };
    let table = CopyTableTarget { schema_name, table_name, columns };
    let direction = match direction {
        Some(found) => found,
        None => return Err(invalid("COPY direction is missing")),
    };
    let endpoint = match endpoint {
        Some(found) => found,
        None => return Err(invalid("COPY target is missing")),
    };
    match (direction, endpoint) {
        (ParsedDirection::From, ParsedEndpoint::Stdin) => Ok(
            CopyStatement::From(CopyFrom { table, options }),
        ),
        (ParsedDirection::To, ParsedEndpoint::Stdout) => Ok(
            CopyStatement::To(CopyTo { table, options }),
        ),
        (ParsedDirection::From, ParsedEndpoint::Stdout) => Err(
            invalid("COPY FROM STDOUT is invalid"),
        ),
        (ParsedDirection::To, ParsedEndpoint::Stdin) => Err(invalid("COPY TO STDIN is invalid")),
    }
}

/// Where the white space ends that goes on at `at`.
pub open spec fn space_end(text: Seq<char>, at: int) -> int
    decreases text.len() - at,
{
    if 0 <= at < text.len() && is_space(text[at]) {
        space_end(text, at + 1)
    } else {
        at
    }
}

/// Whether the first word of a query is `COPY`.
pub open spec fn starts_with_copy(query: Seq<char>) -> bool {
    let start = space_end(query, 0);
    start < query.len() && starts_word(query[start]) && lower(
        query.subrange(start, word_end(query, start + 1)),
    ) == "copy"@
}

fn is_copy(query: &str) -> (result: bool)
    ensures
        result == starts_with_copy(query@),
{
    let chars = chars_of(query);
    let mut start: usize = 0;
    while start < chars.len() && char_is_space(chars[start])
        invariant
            start <= chars@.len(),
            space_end(chars@, 0) == space_end(chars@, start as int),
        decreases chars@.len() - start,
    {
        start += 1;
    }
    if start < chars.len() && char_starts_word(chars[start]) {
        let end: usize = find_word_end(&chars, start + 1);
        let word = string_of(&chars, start, end);
        let small = to_lower(word.as_str());
        same_text(small.as_str(), "copy")
    } else {
        false
    }
}

/// The parts of a COPY, where the grammar accepts a query as one.
pub open spec fn copy_parts_of(query: Seq<char>) -> Option<Seq<CopyPartView>> {
    match tokens_from(query, 0) {
        None => None,
        Some(tokens) => copy_parts(tokens),
    }
}

fn read_copy_parts(query: &str) -> (result: Option<Vec<CopyPart>>)
    ensures
        match copy_parts_of(query@) {
            Some(parts) => result matches Some(found) && part_views(found@) == parts && parts_wf(
                parts,
            ),
            None => result is None,
        },
{
    match tokenize(query) {
        Some(tokens) => {
            proof {
                lemma_tokens_quoted(query@, 0);
                lemma_parts_wf(token_views(tokens@));
            }
            read_copy(&tokens)
        },
        None => None,
    }
}

/// Whether `error` is the one about a query that the grammar does not accept, with what
/// `show_error` says of it.
pub open spec fn is_refusal<E: FnOnce(&str) -> String>(
    query: &str,
    show_error: E,
    error: SbroadErrorView,
) -> bool {
    exists|text: String| #[trigger]
        call_ensures(show_error, (query,), text) && error == SbroadErrorView::ParsingError(
            Entity::Rule,
            text@,
        )
}

/// Whether `error` is what comes of what the grammar of all other SQL says of a query: none where
/// it accepts the query, and an error with its text where it does not.
pub open spec fn is_sql_answer<G: FnOnce(&str) -> Result<(), String>>(
    query: &str,
    parse_sql: G,
    error: Option<SbroadErrorView>,
) -> bool {
    exists|answer: Result<(), String>|
        {
            &&& #[trigger] call_ensures(parse_sql, (query,), answer)
            &&& error == match answer {
                Ok(_) => None,
                Err(text) => Some(SbroadErrorView::ParsingError(Entity::Rule, text@)),
            }
        }
}

/// Whether the functions that a query is handed to can be called on it where they are needed:
/// `show_error` on a COPY that the grammar does not accept, and `parse_sql` on any other command.
pub open spec fn can_parse<
    G: FnOnce(&str) -> Result<(), String>,
    E: FnOnce(&str) -> String,
>(query: &str, parse_sql: G, show_error: E) -> bool {
    if starts_with_copy(query@) {
        copy_parts_of(query@) is None ==> call_requires(show_error, (query,))
    } else {
        call_requires(parse_sql, (query,))
    }
}

/// Parses a query: gives the parts of a COPY, or `None` for any other command. `show_error` says
/// what the parser has against a COPY that the grammar does not accept; `parse_sql` says whether
/// the grammar of all other SQL accepts a query, and how it fails.
pub fn parse_top_level_command<
    G: FnOnce(&str) -> Result<(), String>,
    E: FnOnce(&str) -> String,
>(query: &str, parse_sql: G, show_error: E) -> (result: Result<
    Option<Vec<CopyPart>>,
    SbroadError,
>)
    requires
        can_parse(query, parse_sql, show_error),
    ensures
        starts_with_copy(query@) ==> match copy_parts_of(query@) {
            Some(parts) => result matches Ok(Some(found)) && part_views(found@) == parts
                && parts_wf(parts),
            None => result matches Err(error) && is_refusal(query, show_error, error@),
        },
        !starts_with_copy(query@) ==> match result {
            Ok(found) => found is None && is_sql_answer(query, parse_sql, None),
            Err(error) => is_sql_answer(query, parse_sql, Some(error@)),
        },
{
    if is_copy(query) {
        return match read_copy_parts(query) {
            Some(parts) => Ok(Some(parts)),
            None => {
                let text = show_error(query);
                assert(call_ensures(show_error, (query,), text));
                Err(SbroadError::ParsingError(Entity::Rule, smol(text.as_str())))
            },
        };
    }
    let answer = parse_sql(query);
    assert(call_ensures(parse_sql, (query,), answer));
    match answer {
        Ok(()) => Ok(None),
        Err(text) => Err(SbroadError::ParsingError(Entity::Rule, smol(text.as_str()))),
    }
}

/// The statement of a COPY, or what is wrong with it, where the grammar accepts a query as one.
pub open spec fn copy_of(query: Seq<char>) -> Option<Result<CopyStatementView, SbroadErrorView>> {
    match copy_parts_of(query) {
        Some(parts) => Some(copy_statement(parts)),
        None => None,
    }
}

/// Parses a query: reads a COPY, and tells it from any other command. `show_error` says what the
/// parser has against a COPY that the grammar does not accept; `parse_sql` says whether the grammar
/// of all other SQL accepts a query, and how it fails.
pub fn parse_command<G: FnOnce(&str) -> Result<(), String>, E: FnOnce(&str) -> String>(
    query: &str,
    parse_sql: G,
    show_error: E,
) -> (result: Result<ParsedCommand, SbroadError>)
    requires
        can_parse(query, parse_sql, show_error),
    ensures
        starts_with_copy(query@) ==> match copy_of(query@) {
            Some(Ok(statement)) => result matches Ok(found) && found@ == ParsedCommandView::Copy(
                statement,
            ),
            Some(Err(error)) => result matches Err(found) && found@ == error,
            None => result matches Err(error) && is_refusal(query, show_error, error@),
        },
        !starts_with_copy(query@) ==> match result {
            Ok(found) => found is Sql && is_sql_answer(query, parse_sql, None),
            Err(error) => is_sql_answer(query, parse_sql, Some(error@)),
        },
{
    match parse_top_level_command(query, parse_sql, show_error) {
        Ok(Some(parts)) => match parse_copy(&parts) {
            Ok(statement) => Ok(ParsedCommand::Copy(statement)),
            Err(error) => Err(error),
        },
        Ok(None) => Ok(ParsedCommand::Sql),
        Err(error) => Err(error),
    }
}

}
