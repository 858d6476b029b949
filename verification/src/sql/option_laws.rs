//! What options say, whatever their order, and what the parts of a command change.
use crate::errors::{Entity, SbroadErrorView};
use crate::sql::command::{
    copy_of, copy_statement, format_of, is_refusal, is_sql_answer, nothing_so_far, number_from,
    number_of, option_effect, options_effect, part_effect, parts_effect, value_text, CopySoFar,
    ParsedDirection, ParsedEndpoint,
};
use crate::sql::grammar::{copy_parts, CopyOptionView, CopyPartView, OptionValueView};
use crate::sql::lexer::tokens_from;
use crate::sql::names::{normalized, table_of};
use crate::sql::statement::{
    CopyFormat, CopyFrom, CopyOptions, CopyOptionsView, CopyStatement, CopyStatementView,
    CopyTableTarget, CopyTo,
};
use crate::text::{decimal, lower, lower_char, smol_text};
use vstd::prelude::*;

verus! {

/// The ASCII letters in upper case become those in lower case, one by one; every other character
/// stays as it is.
pub proof fn law_lower_case_of_a_letter(ch: char, place: u32)
    requires
        place < 26,
    ensures
        lower_char((0x41 + place) as char) == (0x61 + place) as char,
        !('A' <= ch && ch <= 'Z') ==> lower_char(ch) == ch,
{
}

/// A text in lower case has the lower case of each of its characters, in their places.
pub proof fn law_lower_case_keeps_places(text: Seq<char>)
    ensures
        lower(text).len() == text.len(),
        forall|i: int| 0 <= i < text.len() ==> #[trigger] lower(text)[i] == lower_char(text[i]),
{
}

/// Whether two texts differ in the case of ASCII letters at most.
pub open spec fn same_word(left: Seq<char>, right: Seq<char>) -> bool {
    lower(left) == lower(right)
}

/// The formats are text, csv and binary, in upper and lower case, and there is no other.
pub proof fn law_format_names(name: Seq<char>)
    ensures
        format_of(name) == Ok::<CopyFormat, SbroadErrorView>(CopyFormat::Text) <==> lower(name)
            == "text"@,
        format_of(name) == Ok::<CopyFormat, SbroadErrorView>(CopyFormat::Csv) <==> lower(name)
            == "csv"@,
        format_of(name) == Ok::<CopyFormat, SbroadErrorView>(CopyFormat::Binary) <==> lower(name)
            == "binary"@,
        format_of(name) matches Err(error) ==> error == SbroadErrorView::Invalid(
            Entity::Query,
            Some("unsupported COPY format: "@ + lower(name)),
        ),
        forall|other: Seq<char>| same_word(name, other) ==> #[trigger] format_of(other)
            == format_of(name),
{
    reveal_strlit("text");
    reveal_strlit("csv");
    reveal_strlit("binary");
    assert("csv"@.len() != "text"@.len());
    assert("binary"@.len() != "text"@.len());
    assert("binary"@.len() != "csv"@.len());
}

/// Whether the options are the same but for the one that an option of its kind sets.
pub open spec fn same_but_for(
    option: CopyOptionView,
    before: CopyOptionsView,
    after: CopyOptionsView,
) -> bool {
    &&& option !is Format ==> after.format == before.format
    &&& option !is Delimiter ==> after.delimiter == before.delimiter
    &&& option !is Null ==> after.null_string == before.null_string
    &&& option !is Header ==> after.header == before.header
    &&& option !is BatchSize ==> after.batch_size == before.batch_size
}

/// Whether options say what an option of its kind says.
pub open spec fn says(options: CopyOptionsView, option: CopyOptionView) -> bool {
    match option {
        CopyOptionView::Format(value) => {
            ||| options.format == CopyFormat::Text && lower(value_text(value)) == "text"@
            ||| options.format == CopyFormat::Csv && lower(value_text(value)) == "csv"@
            ||| options.format == CopyFormat::Binary && lower(value_text(value)) == "binary"@
        },
        CopyOptionView::Delimiter(value) => options.delimiter == Some(value_text(value)),
        CopyOptionView::Null(value) => options.null_string == Some(value_text(value)),
        CopyOptionView::Header(None) => options.header,
        CopyOptionView::Header(Some(word)) => options.header == (lower(word) == "true"@),
        CopyOptionView::BatchSize(digits) => options.batch_size matches Some(size) && number_of(
            digits,
        ) == Ok::<nat, Seq<char>>(size as nat),
    }
}

/// Whether an option can be taken: its format is one, its number is one.
pub open spec fn is_valid(option: CopyOptionView) -> bool {
    match option {
        CopyOptionView::Format(value) => {
            ||| lower(value_text(value)) == "text"@
            ||| lower(value_text(value)) == "csv"@
            ||| lower(value_text(value)) == "binary"@
        },
        CopyOptionView::BatchSize(digits) => number_of(digits) is Ok,
        _ => true,
    }
}

/// A name as a value says itself.
pub proof fn law_name_says_itself(name: Seq<char>)
    ensures
        value_text(OptionValueView::Identifier(name)) == name,
{
}

/// An option sets what its kind is about, and nothing else, whatever was set before. A format or a
/// number that is none is refused.
pub proof fn law_option_changes_its_own_field_alone(
    options: CopyOptionsView,
    option: CopyOptionView,
)
    ensures
        option_effect(options, option) is Ok == is_valid(option),
        option_effect(options, option) matches Ok(after) ==> same_but_for(option, options, after)
            && says(after, option),
{
    lemma_number_fits(option);
}

proof fn lemma_number_fits(option: CopyOptionView)
    ensures
        option matches CopyOptionView::BatchSize(digits) ==> (number_of(digits) matches Ok(size)
            ==> size <= usize::MAX),
{
    if let CopyOptionView::BatchSize(digits) = option {
        lemma_number_from_fits(digits, 0, 0);
        lemma_number_from_fits(digits, 1, 0);
    }
}

proof fn lemma_number_from_fits(text: Seq<char>, at: int, value: nat)
    requires
        value <= usize::MAX,
    ensures
        number_from(text, at, value) matches Ok(number) ==> number <= usize::MAX,
    decreases text.len() - at,
{
    if 0 <= at < text.len() {
        let next = value * 10 + (text[at] as nat - 0x30) as nat;
        if next <= usize::MAX {
            lemma_number_from_fits(text, at + 1, next);
        }
    }
}

/// Whether two options are of one kind.
pub open spec fn same_kind(left: CopyOptionView, right: CopyOptionView) -> bool {
    match left {
        CopyOptionView::Format(_) => right is Format,
        CopyOptionView::Delimiter(_) => right is Delimiter,
        CopyOptionView::Null(_) => right is Null,
        CopyOptionView::Header(_) => right is Header,
        CopyOptionView::BatchSize(_) => right is BatchSize,
    }
}

/// Whether the option at `at` is the last of its kind in a list.
pub open spec fn is_last_of_its_kind(list: Seq<CopyOptionView>, at: int) -> bool {
    0 <= at < list.len() && forall|later: int|
        at < later < list.len() ==> !same_kind(list[at], #[trigger] list[later])
}

/// Whether no option of the kind of `option` stands in a list from `at` on.
pub open spec fn has_none_of_kind(
    list: Seq<CopyOptionView>,
    at: int,
    option: CopyOptionView,
) -> bool {
    forall|i: int| at <= i < list.len() ==> !same_kind(option, #[trigger] list[i])
}

/// Whether options agree in what options of the kind of `option` set.
pub open spec fn agree_on(
    option: CopyOptionView,
    left: CopyOptionsView,
    right: CopyOptionsView,
) -> bool {
    match option {
        CopyOptionView::Format(_) => left.format == right.format,
        CopyOptionView::Delimiter(_) => left.delimiter == right.delimiter,
        CopyOptionView::Null(_) => left.null_string == right.null_string,
        CopyOptionView::Header(_) => left.header == right.header,
        CopyOptionView::BatchSize(_) => left.batch_size == right.batch_size,
    }
}

proof fn lemma_options(options: CopyOptionsView, list: Seq<CopyOptionView>, at: int)
    requires
        0 <= at <= list.len(),
    ensures
        ({
            let after = options_effect(options, list, at);
            &&& after.1 is None <==> forall|i: int|
                at <= i < list.len() ==> is_valid(#[trigger] list[i])
            &&& after.1 is None ==> forall|i: int|
                at <= i && #[trigger] is_last_of_its_kind(list, i) ==> says(after.0, list[i])
            &&& after.1 is None ==> forall|option: CopyOptionView| #[trigger]
                has_none_of_kind(list, at, option) ==> agree_on(option, after.0, options)
        }),
    decreases list.len() - at,
{
    let after = options_effect(options, list, at);
    if at < list.len() {
        let first = list[at];
        law_option_changes_its_own_field_alone(options, first);
        if let Ok(next) = option_effect(options, first) {
            lemma_options(next, list, at + 1);
            if after.1 is None {
                assert forall|i: int| at <= i && #[trigger] is_last_of_its_kind(
                    list,
                    i,
                ) implies says(after.0, list[i]) by {
                    if i == at {
                        assert(has_none_of_kind(list, at + 1, first));
                        assert(agree_on(first, after.0, next));
                    }
                }
                assert forall|option: CopyOptionView| #[trigger]
                    has_none_of_kind(list, at, option) implies agree_on(
                    option,
                    after.0,
                    options,
                ) by {
                    assert(!same_kind(option, list[at]));
                    assert(has_none_of_kind(list, at + 1, option));
                    assert(agree_on(option, after.0, next));
                }
            }
        }
    }
}

/// Options do not depend on their order: of a list in which each can be taken, what each kind is
/// about is what the last option of that kind says, whatever stands before and behind it; and where
/// the list has none of a kind, what that kind is about stays as it was.
pub proof fn law_last_option_of_each_kind_counts(
    options: CopyOptionsView,
    list: Seq<CopyOptionView>,
    at: int,
    absent: CopyOptionView,
)
    requires
        forall|i: int| 0 <= i < list.len() ==> is_valid(#[trigger] list[i]),
    ensures
        options_effect(options, list, 0).1 is None,
        is_last_of_its_kind(list, at) ==> says(options_effect(options, list, 0).0, list[at]),
        has_none_of_kind(list, 0, absent) ==> agree_on(
            absent,
            options_effect(options, list, 0).0,
            options,
        ),
{
    lemma_options(options, list, 0);
}

/// The first option that cannot be taken is what a list is refused for; those before it are taken,
/// and none behind it is.
pub proof fn law_first_wrong_option_decides(
    options: CopyOptionsView,
    list: Seq<CopyOptionView>,
    at: int,
)
    requires
        0 <= at < list.len(),
        !is_valid(list[at]),
        forall|i: int| 0 <= i < at ==> is_valid(#[trigger] list[i]),
    ensures
        options_effect(options, list, 0).0 == options_effect(options, list.take(at), 0).0,
        options_effect(options, list, 0).1 matches Some(error) && error == match list[at] {
            CopyOptionView::BatchSize(digits) => SbroadErrorView::Invalid(
                Entity::Query,
                Some(
                    "invalid COPY batch_size "@ + digits + ": "@ + number_of(digits)->Err_0,
                ),
            ),
            CopyOptionView::Format(value) => SbroadErrorView::Invalid(
                Entity::Query,
                Some("unsupported COPY format: "@ + lower(value_text(value))),
            ),
            _ => error,
        },
{
    lemma_wrong_option(options, list, 0, at);
}

proof fn lemma_wrong_option(
    options: CopyOptionsView,
    list: Seq<CopyOptionView>,
    from: int,
    at: int,
)
    requires
        0 <= from <= at < list.len(),
        !is_valid(list[at]),
        forall|i: int| 0 <= i < at ==> is_valid(#[trigger] list[i]),
    ensures
        options_effect(options, list, from).0 == options_effect(options, list.take(at), from).0,
        options_effect(options, list, from).1 matches Some(error) && error == match list[at] {
            CopyOptionView::BatchSize(digits) => SbroadErrorView::Invalid(
                Entity::Query,
                Some(
                    "invalid COPY batch_size "@ + digits + ": "@ + number_of(digits)->Err_0,
                ),
            ),
            CopyOptionView::Format(value) => SbroadErrorView::Invalid(
                Entity::Query,
                Some("unsupported COPY format: "@ + lower(value_text(value))),
            ),
            _ => error,
        },
    decreases at - from,
{
    law_option_changes_its_own_field_alone(options, list[from]);
    if from < at {
        assert(list.take(at)[from] == list[from]);
        assert(is_valid(list[from]));
        lemma_wrong_option(option_effect(options, list[from])->Ok_0, list, from + 1, at);
    }
}

/// The character of a decimal digit.
pub open spec fn digit_char(value: nat) -> char {
    (0x30 + value) as u8 as char
}

/// A number is written in decimal with its last digit last and its other digits before it.
pub proof fn law_decimal_ends_in_its_last_digit(tens: nat, last: nat)
    requires
        last < 10,
    ensures
        decimal(last) == seq![digit_char(last)],
        tens > 0 ==> decimal(10 * tens + last) == decimal(tens).push(digit_char(last)),
{
    assert((10 * tens + last) / 10 == tens);
    assert((10 * tens + last) % 10 == last);
}

proof fn lemma_number_goes_on(text: Seq<char>, next: char, at: int, value: nat)
    requires
        0 <= at <= text.len(),
    ensures
        number_from(text.push(next), at, value) == match number_from(text, at, value) {
            Ok(number) => number_from(text.push(next), text.len() as int, number),
            Err(reason) => Err(reason),
        },
    decreases text.len() - at,
{
    if at < text.len() {
        assert(text.push(next)[at] == text[at]);
        let more = value * 10 + (text[at] as nat - 0x30) as nat;
        lemma_number_goes_on(text, next, at + 1, more);
    }
}

/// A number is read digit by digit: with one more digit behind it, it is ten times as much and that
/// digit, where the machine can count as far. Anything else behind it makes it none, and what is
/// none stays none for the same reason, whatever stands behind it. A plus sign before it changes
/// nothing.
pub proof fn law_number_is_read_digit_by_digit(text: Seq<char>, next: char, digit: nat)
    requires
        text.len() > 0,
        text[0] != '+',
        digit < 10,
    ensures
        number_of(seq![digit_char(digit)]) == Ok::<nat, Seq<char>>(digit),
        match number_of(text) {
            Ok(number) => {
                &&& number_of(text.push(digit_char(digit))) == if 10 * number + digit
                    <= usize::MAX {
                    Ok::<nat, Seq<char>>(10 * number + digit)
                } else {
                    Err("number too large to fit in target type"@)
                }
                &&& !('0' <= next <= '9') ==> number_of(text.push(next)) == Err::<nat, Seq<char>>(
                    "invalid digit found in string"@,
                )
            },
            Err(reason) => number_of(text.push(next)) == Err::<nat, Seq<char>>(reason),
        },
        number_of(seq!['+'] + text) == number_of(text),
        !('0' <= next <= '9') ==> number_of(seq![next]) == Err::<nat, Seq<char>>(
            "invalid digit found in string"@,
        ),
        number_of(seq![]) == Err::<nat, Seq<char>>("cannot parse integer from empty string"@),
{
    let one = seq![digit_char(digit)];
    reveal_with_fuel(number_from, 3);
    assert(number_from(one, 0, 0) == number_from(one, 1, digit));
    let end = text.len() as int;
    let ch = digit_char(digit);
    lemma_number_goes_on(text, ch, 0, 0);
    lemma_number_goes_on(text, next, 0, 0);
    assert(text.push(ch)[end] == ch);
    assert(text.push(next)[end] == next);
    assert(text.push(ch)[0] == text[0]);
    assert(text.push(next)[0] == text[0]);
    lemma_number_behind_plus(text, 0, 0);
    assert((seq!['+'] + text)[0] == '+');
}

proof fn lemma_number_behind_plus(text: Seq<char>, at: int, value: nat)
    requires
        0 <= at <= text.len(),
    ensures
        number_from(seq!['+'] + text, at + 1, value) == number_from(text, at, value),
    decreases text.len() - at,
{
    if at < text.len() {
        assert((seq!['+'] + text)[at + 1] == text[at]);
        let more = value * 10 + (text[at] as nat - 0x30) as nat;
        lemma_number_behind_plus(text, at + 1, more);
    }
}

/// Whether what has been read of a COPY is the same but for what a part of its kind is about.
pub open spec fn same_but_for_part(
    part: CopyPartView,
    before: CopySoFar,
    after: CopySoFar,
) -> bool {
    &&& part !is TableName ==> after.table == before.table
    &&& part !is Column ==> after.columns == before.columns
    &&& part !is Direction ==> after.direction == before.direction
    &&& part !is Target ==> after.endpoint == before.endpoint
    &&& part is TableName || part is Column || part is Direction || part is Target ==> after.options
        == before.options
    &&& part is LegacyDelimiter ==> after.options == (CopyOptionsView {
        delimiter: after.options.delimiter,
        ..before.options
    })
    &&& part is LegacyNull ==> after.options == (CopyOptionsView {
        null_string: after.options.null_string,
        ..before.options
    })
}

/// A part of a command is taken for what its kind is about, and changes nothing else: a column
/// joins those before it, behind them, and a clause of the older form sets what the option of that
/// name does. A word for a direction is FROM or TO, one for a target is STDIN or STDOUT, in upper
/// or lower case, and any other is refused.
pub proof fn law_part_changes_its_own_alone(so_far: CopySoFar, part: CopyPartView)
    ensures
        part_effect(so_far, part) matches Ok(after) ==> same_but_for_part(part, so_far, after),
        match part {
            CopyPartView::TableName(raw) => part_effect(so_far, part) matches Ok(after)
                && after.table == Some(table_of(raw)),
            CopyPartView::Column(name) => part_effect(so_far, part) matches Ok(after)
                && after.columns == so_far.columns.push(normalized(name)),
            CopyPartView::Direction(word) => match part_effect(so_far, part) {
                Ok(after) => {
                    ||| lower(word) == "from"@ && after.direction == Some(ParsedDirection::From)
                    ||| lower(word) == "to"@ && after.direction == Some(ParsedDirection::To)
                },
                Err(error) => {
                    &&& lower(word) != "from"@ && lower(word) != "to"@
                    &&& error == SbroadErrorView::ParsingError(
                        Entity::Query,
                        "unsupported COPY direction: "@ + lower(word),
                    )
                },
            },
            CopyPartView::Target(word) => match part_effect(so_far, part) {
                Ok(after) => {
                    ||| lower(word) == "stdin"@ && after.endpoint == Some(ParsedEndpoint::Stdin)
                    ||| lower(word) == "stdout"@ && after.endpoint == Some(ParsedEndpoint::Stdout)
                },
                Err(error) => {
                    &&& lower(word) != "stdin"@ && lower(word) != "stdout"@
                    &&& error == SbroadErrorView::ParsingError(
                        Entity::Query,
                        "unsupported COPY target: "@ + lower(word),
                    )
                },
            },
            CopyPartView::WithOptions(list) => match part_effect(so_far, part) {
                Ok(after) => options_effect(so_far.options, list, 0) == (
                    after.options,
                    None::<SbroadErrorView>,
                ),
                Err(error) => options_effect(so_far.options, list, 0).1 == Some(error),
            },
            CopyPartView::LegacyDelimiter(value) => part_effect(so_far, part) matches Ok(after)
                && after.options.delimiter == Some(value_text(value)),
            CopyPartView::LegacyNull(value) => part_effect(so_far, part) matches Ok(after)
                && after.options.null_string == Some(value_text(value)),
        },
{
}

/// The parts of a command are taken one behind the other, the first that is refused decides, and
/// before the first nothing is known but that the options are those of a command that gives none:
/// text, without a header, and with nothing else given.
pub proof fn law_parts_are_taken_in_order(parts: Seq<CopyPartView>, part: CopyPartView)
    ensures
        parts_effect(nothing_so_far(), parts.push(part), 0) == match parts_effect(
            nothing_so_far(),
            parts,
            0,
        ) {
            Ok(so_far) => part_effect(so_far, part),
            Err(error) => Err(error),
        },
        parts_effect(nothing_so_far(), seq![], 0) == Ok::<CopySoFar, SbroadErrorView>(
            CopySoFar {
                table: None,
                columns: seq![],
                direction: None,
                endpoint: None,
                options: CopyOptionsView {
                    format: CopyFormat::Text,
                    delimiter: None,
                    null_string: None,
                    header: false,
                    batch_size: None,
                },
            },
        ),
{
    lemma_parts_go_on(nothing_so_far(), parts, part, 0);
}

proof fn lemma_parts_go_on(
    so_far: CopySoFar,
    parts: Seq<CopyPartView>,
    part: CopyPartView,
    at: int,
)
    requires
        0 <= at <= parts.len(),
    ensures
        parts_effect(so_far, parts.push(part), at) == match parts_effect(so_far, parts, at) {
            Ok(read) => part_effect(read, part),
            Err(error) => Err(error),
        },
    decreases parts.len() - at,
{
    let longer = parts.push(part);
    if at < parts.len() {
        assert(longer[at] == parts[at]);
        if let Ok(next) = part_effect(so_far, parts[at]) {
            lemma_parts_go_on(next, parts, part, at + 1);
        }
    } else {
        assert(longer[at] == part);
        reveal_with_fuel(parts_effect, 2);
    }
}

/// A command is the statement of what was read of it: rows come from STDIN or go to STDOUT, and the
/// table, the columns and the options are those that were read. Where the table, the direction or
/// the target is missing, or a direction does not go with its target, it is refused.
pub proof fn law_statement_is_what_was_read(parts: Seq<CopyPartView>, read: CopySoFar)
    requires
        parts_effect(nothing_so_far(), parts, 0) == Ok::<CopySoFar, SbroadErrorView>(read),
    ensures
        match copy_statement(parts) {
            Ok(CopyStatementView::From { table, options }) => {
                &&& read.direction == Some(ParsedDirection::From)
                &&& read.endpoint == Some(ParsedEndpoint::Stdin)
                &&& read.table == Some((table.schema_name, table.table_name))
                &&& read.columns == table.columns
                &&& read.options == options
            },
            Ok(CopyStatementView::To { table, options }) => {
                &&& read.direction == Some(ParsedDirection::To)
                &&& read.endpoint == Some(ParsedEndpoint::Stdout)
                &&& read.table == Some((table.schema_name, table.table_name))
                &&& read.columns == table.columns
                &&& read.options == options
            },
            Err(error) => {
                ||| read.table is None
                ||| read.direction is None
                ||| read.endpoint is None
                ||| read.direction == Some(ParsedDirection::From) && read.endpoint == Some(
                    ParsedEndpoint::Stdout,
                )
                ||| read.direction == Some(ParsedDirection::To) && read.endpoint == Some(
                    ParsedEndpoint::Stdin,
                )
            },
        },
{
}

/// A query that is refused for the reason `text`.
pub open spec fn refused_for(text: Seq<char>) -> Result<CopyStatementView, SbroadErrorView> {
    Err(SbroadErrorView::Invalid(Entity::Query, Some(text)))
}

/// A command that is refused is told why: the first part that is wrong says it; without one, what
/// is missing, be it the table, then the direction, then the target; and else the direction and the
/// target that do not go together.
pub proof fn law_refused_command_is_told(parts: Seq<CopyPartView>)
    ensures
        match parts_effect(nothing_so_far(), parts, 0) {
            Err(error) => copy_statement(parts) == Err::<CopyStatementView, SbroadErrorView>(
                error,
            ),
            Ok(read) => {
                &&& read.table is None ==> copy_statement(parts) == refused_for(
                    "COPY table name is missing"@,
                )
                &&& read.table is Some && read.direction is None ==> copy_statement(parts)
                    == refused_for("COPY direction is missing"@)
                &&& read.table is Some && read.direction is Some && read.endpoint is None
                    ==> copy_statement(parts) == refused_for("COPY target is missing"@)
                &&& read.table is Some && read.direction == Some(ParsedDirection::From)
                    && read.endpoint == Some(ParsedEndpoint::Stdout) ==> copy_statement(parts)
                    == refused_for("COPY FROM STDOUT is invalid"@)
                &&& read.table is Some && read.direction == Some(ParsedDirection::To)
                    && read.endpoint == Some(ParsedEndpoint::Stdin) ==> copy_statement(parts)
                    == refused_for("COPY TO STDIN is invalid"@)
            },
        },
{
}

/// A query is a COPY of its parts where its pieces have parts, and none where it has no pieces or
/// they have no parts.
pub proof fn law_query_is_read_piece_by_piece(query: Seq<char>)
    ensures
        match tokens_from(query, 0) {
            None => copy_of(query) is None,
            Some(tokens) => match copy_parts(tokens) {
                None => copy_of(query) is None,
                Some(parts) => copy_of(query) == Some(copy_statement(parts)),
            },
        },
{
}

/// What the grammar of other SQL says of a query is handed on: nothing where it accepts the query,
/// and its text where it does not. So is what a parser has against a COPY.
pub proof fn law_answers_of_the_grammar_are_handed_on<
    G: FnOnce(&str) -> Result<(), String>,
    E: FnOnce(&str) -> String,
>(query: &str, parse_sql: G, show_error: E, error: SbroadErrorView)
    ensures
        is_sql_answer(query, parse_sql, None) ==> exists|answer: Result<(), String>| #[trigger]
            call_ensures(parse_sql, (query,), answer) && answer is Ok,
        is_sql_answer(query, parse_sql, Some(error)) ==> exists|text: String| #[trigger]
            call_ensures(parse_sql, (query,), Err(text)) && error == SbroadErrorView::ParsingError(
                Entity::Rule,
                text@,
            ),
        is_refusal(query, show_error, error) ==> exists|text: String| #[trigger]
            call_ensures(show_error, (query,), text) && error == SbroadErrorView::ParsingError(
                Entity::Rule,
                text@,
            ),
{
    if is_sql_answer(query, parse_sql, None) {
        let answer = choose|answer: Result<(), String>|
            {
                &&& #[trigger] call_ensures(parse_sql, (query,), answer)
                &&& None::<SbroadErrorView> == match answer {
                    Ok(_) => None,
                    Err(text) => Some(SbroadErrorView::ParsingError(Entity::Rule, text@)),
                }
            };
        assert(call_ensures(parse_sql, (query,), answer));
    }
    if is_sql_answer(query, parse_sql, Some(error)) {
        let answer = choose|answer: Result<(), String>|
            {
                &&& #[trigger] call_ensures(parse_sql, (query,), answer)
                &&& Some(error) == match answer {
                    Ok(_) => None,
                    Err(text) => Some(SbroadErrorView::ParsingError(Entity::Rule, text@)),
                }
            };
        assert(call_ensures(parse_sql, (query,), Err(answer->Err_0)));
    }
}

/// Options, tables and statements are seen as what they hold, field by field.
pub proof fn law_statements_are_seen_as_they_are(
    options: CopyOptions,
    table: CopyTableTarget,
    at: int,
)
    ensures
        options@.format == options.format,
        options@.header == options.header,
        options@.batch_size == options.batch_size,
        match options.delimiter {
            Some(text) => options@.delimiter == Some(text@),
            None => options@.delimiter is None,
        },
        match options.null_string {
            Some(text) => options@.null_string == Some(text@),
            None => options@.null_string is None,
        },
        match table.schema_name {
            Some(name) => table@.schema_name == Some(smol_text(name)),
            None => table@.schema_name is None,
        },
        table@.table_name == smol_text(table.table_name),
        table@.columns.len() == table.columns@.len(),
        0 <= at < table.columns@.len() ==> table@.columns[at] == smol_text(table.columns@[at]),
        CopyStatement::From((CopyFrom { table, options }))@ == (CopyStatementView::From {
            table: table@,
            options: options@,
        }),
        CopyStatement::To((CopyTo { table, options }))@ == (CopyStatementView::To {
            table: table@,
            options: options@,
        }),
{
}

}
