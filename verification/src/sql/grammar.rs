//! The grammar of COPY:
//!
//! ```text
//! command   = COPY table [ "(" name { "," name } ")" ] ( FROM | TO ) ( STDIN | STDOUT )
//!             [ clauses ] [ ";" ]
//! table     = name [ "." name ]
//! clauses   = [ WITH ] "(" option { "," option } ")"
//!           | [ WITH ] legacy { legacy }
//! legacy    = ( DELIMITER | NULL ) [ AS ] value
//! option    = ( FORMAT | DELIMITER | NULL ) [ "=" ] value
//!           | HEADER [ [ "=" ] ( TRUE | FALSE ) ]
//!           | BATCH_SIZE [ "=" ] number
//! value     = name | text
//! ```
//!
//! Keywords may be written in upper and lower case. A name is a word or stands in double quotes, a
//! text stands in single quotes.
use crate::sql::lexer::{all_quoted, in_single_quotes, token_views, Token, TokenView};
use crate::text::{lower, same_text, to_lower};
use vstd::prelude::*;

verus! {

/// The value of an option, as it is written.
#[derive(Clone, Debug, PartialEq, Eq)]
pub enum OptionValue {
    Identifier(String),
    SingleQuoted(String),
}

pub enum OptionValueView {
    Identifier(Seq<char>),
    SingleQuoted(Seq<char>),
}

impl View for OptionValue {
    type V = OptionValueView;

    open spec fn view(&self) -> OptionValueView {
        match *self {
            OptionValue::Identifier(text) => OptionValueView::Identifier(text@),
            OptionValue::SingleQuoted(text) => OptionValueView::SingleQuoted(text@),
        }
    }
}

impl OptionValueView {
    /// Whether a value that is a text stands in single quotes.
    pub open spec fn wf(self) -> bool {
        self matches OptionValueView::SingleQuoted(raw) ==> in_single_quotes(raw)
    }
}

/// An option, as it is written.
#[derive(Clone, Debug, PartialEq, Eq)]
pub enum CopyOption {
    Format(OptionValue),
    Delimiter(OptionValue),
    Null(OptionValue),
    Header(Option<String>),
    BatchSize(String),
}

pub enum CopyOptionView {
    Format(OptionValueView),
    Delimiter(OptionValueView),
    Null(OptionValueView),
    Header(Option<Seq<char>>),
    BatchSize(Seq<char>),
}

impl View for CopyOption {
    type V = CopyOptionView;

    open spec fn view(&self) -> CopyOptionView {
        match *self {
            CopyOption::Format(value) => CopyOptionView::Format(value@),
            CopyOption::Delimiter(value) => CopyOptionView::Delimiter(value@),
            CopyOption::Null(value) => CopyOptionView::Null(value@),
            CopyOption::Header(None) => CopyOptionView::Header(None),
            CopyOption::Header(Some(value)) => CopyOptionView::Header(Some(value@)),
            CopyOption::BatchSize(digits) => CopyOptionView::BatchSize(digits@),
        }
    }
}

impl CopyOptionView {
    /// Whether a value that is a text stands in single quotes.
    pub open spec fn wf(self) -> bool {
        match self {
            CopyOptionView::Format(value) => value.wf(),
            CopyOptionView::Delimiter(value) => value.wf(),
            CopyOptionView::Null(value) => value.wf(),
            _ => true,
        }
    }
}

/// Whether each value of the options that is a text stands in single quotes.
pub open spec fn options_wf(options: Seq<CopyOptionView>) -> bool {
    forall|i: int| 0 <= i < options.len() ==> (#[trigger] options[i]).wf()
}

/// The options of a list.
pub open spec fn option_views(options: Seq<CopyOption>) -> Seq<CopyOptionView> {
    options.map_values(|option: CopyOption| option@)
}

/// A part of a COPY command, as it is written.
#[derive(Clone, Debug, PartialEq, Eq)]
pub enum CopyPart {
    TableName(String),
    Column(String),
    Direction(String),
    Target(String),
    WithOptions(Vec<CopyOption>),
    LegacyDelimiter(OptionValue),
    LegacyNull(OptionValue),
}

pub enum CopyPartView {
    TableName(Seq<char>),
    Column(Seq<char>),
    Direction(Seq<char>),
    Target(Seq<char>),
    WithOptions(Seq<CopyOptionView>),
    LegacyDelimiter(OptionValueView),
    LegacyNull(OptionValueView),
}

impl View for CopyPart {
    type V = CopyPartView;

    open spec fn view(&self) -> CopyPartView {
        match *self {
            CopyPart::TableName(text) => CopyPartView::TableName(text@),
            CopyPart::Column(text) => CopyPartView::Column(text@),
            CopyPart::Direction(text) => CopyPartView::Direction(text@),
            CopyPart::Target(text) => CopyPartView::Target(text@),
            CopyPart::WithOptions(options) => CopyPartView::WithOptions(option_views(options@)),
            CopyPart::LegacyDelimiter(value) => CopyPartView::LegacyDelimiter(value@),
            CopyPart::LegacyNull(value) => CopyPartView::LegacyNull(value@),
        }
    }
}

impl CopyPartView {
    /// Whether each value that is a text stands in single quotes.
    pub open spec fn wf(self) -> bool {
        match self {
            CopyPartView::WithOptions(options) => options_wf(options),
            CopyPartView::LegacyDelimiter(value) => value.wf(),
            CopyPartView::LegacyNull(value) => value.wf(),
            _ => true,
        }
    }
}

/// Whether each value in the parts that is a text stands in single quotes.
pub open spec fn parts_wf(parts: Seq<CopyPartView>) -> bool {
    forall|i: int| 0 <= i < parts.len() ==> (#[trigger] parts[i]).wf()
}

/// The parts of a command.
pub open spec fn part_views(parts: Seq<CopyPart>) -> Seq<CopyPartView> {
    parts.map_values(|part: CopyPart| part@)
}

/// Whether the piece at `at` is the keyword given in lower case.
pub open spec fn keyword_at(tokens: Seq<TokenView>, at: int, word: Seq<char>) -> bool {
    0 <= at < tokens.len() && (tokens[at] matches TokenView::Word(text) && lower(text) == word)
}

/// Whether the piece at `at` is a sign.
pub open spec fn sign_at(tokens: Seq<TokenView>, at: int, sign: char) -> bool {
    0 <= at < tokens.len() && tokens[at] == TokenView::Sign(sign)
}

/// The name at `at`.
pub open spec fn name_at(tokens: Seq<TokenView>, at: int) -> Option<Seq<char>> {
    if 0 <= at < tokens.len() {
        match tokens[at] {
            TokenView::Word(text) => Some(text),
            TokenView::Quoted(text) => Some(text),
            _ => None,
        }
    } else {
        None
    }
}

/// The value at `at`.
pub open spec fn value_at(tokens: Seq<TokenView>, at: int) -> Option<OptionValueView> {
    if 0 <= at < tokens.len() {
        match tokens[at] {
            TokenView::Word(text) => Some(OptionValueView::Identifier(text)),
            TokenView::Quoted(text) => Some(OptionValueView::Identifier(text)),
            TokenView::Text(text) => Some(OptionValueView::SingleQuoted(text)),
            _ => None,
        }
    } else {
        None
    }
}

/// The name of the table at `at`, and where it ends.
pub open spec fn table_at(tokens: Seq<TokenView>, at: int) -> Option<(Seq<char>, int)> {
    match name_at(tokens, at) {
        None => None,
        Some(first) => if sign_at(tokens, at + 1, '.') {
            match name_at(tokens, at + 2) {
                None => None,
                Some(second) => Some((first + "."@ + second, at + 3)),
            }
        } else {
            Some((first, at + 1))
        },
    }
}

/// The names of columns from `at` up to the closing bracket, and where they end.
pub open spec fn columns_at(tokens: Seq<TokenView>, at: int) -> Option<(Seq<CopyPartView>, int)>
    decreases tokens.len() - at,
{
    match name_at(tokens, at) {
        None => None,
        Some(name) => if sign_at(tokens, at + 1, ',') {
            match columns_at(tokens, at + 2) {
                None => None,
                Some((rest, end)) => Some((seq![CopyPartView::Column(name)] + rest, end)),
            }
        } else if sign_at(tokens, at + 1, ')') {
            Some((seq![CopyPartView::Column(name)], at + 2))
        } else {
            None
        },
    }
}

/// Behind an equals sign, where there is one.
pub open spec fn behind_equals(tokens: Seq<TokenView>, at: int) -> int {
    if sign_at(tokens, at, '=') {
        at + 1
    } else {
        at
    }
}

/// The option at `at`, and where it ends.
pub open spec fn option_at(tokens: Seq<TokenView>, at: int) -> Option<(CopyOptionView, int)> {
    let next = behind_equals(tokens, at + 1);
    if keyword_at(tokens, at, "format"@) {
        match value_at(tokens, next) {
            None => None,
            Some(value) => Some((CopyOptionView::Format(value), next + 1)),
        }
    } else if keyword_at(tokens, at, "delimiter"@) {
        match value_at(tokens, next) {
            None => None,
            Some(value) => Some((CopyOptionView::Delimiter(value), next + 1)),
        }
    } else if keyword_at(tokens, at, "null"@) {
        match value_at(tokens, next) {
            None => None,
            Some(value) => Some((CopyOptionView::Null(value), next + 1)),
        }
    } else if keyword_at(tokens, at, "header"@) {
        if keyword_at(tokens, next, "true"@) || keyword_at(tokens, next, "false"@) {
            Some((CopyOptionView::Header(Some(tokens[next]->Word_0)), next + 1))
        } else if next == at + 1 {
            Some((CopyOptionView::Header(None), at + 1))
        } else {
            None
        }
    } else if keyword_at(tokens, at, "batch_size"@) {
        if 0 <= next < tokens.len() && tokens[next] is Number {
            Some((CopyOptionView::BatchSize(tokens[next]->Number_0), next + 1))
        } else {
            None
        }
    } else {
        None
    }
}

/// The options from `at` up to the closing bracket, and where they end.
pub open spec fn options_at(tokens: Seq<TokenView>, at: int) -> Option<(Seq<CopyOptionView>, int)>
    decreases tokens.len() - at,
{
    match option_at(tokens, at) {
        None => None,
        Some((option, end)) => if sign_at(tokens, end, ',') {
            match options_at(tokens, end + 1) {
                None => None,
                Some((rest, last)) => Some((seq![option] + rest, last)),
            }
        } else if sign_at(tokens, end, ')') {
            Some((seq![option], end + 1))
        } else {
            None
        },
    }
}

/// Behind an `AS`, where there is one.
pub open spec fn behind_as(tokens: Seq<TokenView>, at: int) -> int {
    if keyword_at(tokens, at, "as"@) {
        at + 1
    } else {
        at
    }
}

/// The clauses of the older form from `at` on, and where they end.
pub open spec fn legacy_at(tokens: Seq<TokenView>, at: int) -> Option<(Seq<CopyPartView>, int)>
    decreases tokens.len() - at,
{
    let delimiter = keyword_at(tokens, at, "delimiter"@);
    if delimiter || keyword_at(tokens, at, "null"@) {
        let next = behind_as(tokens, at + 1);
        match value_at(tokens, next) {
            None => None,
            Some(value) => match legacy_at(tokens, next + 1) {
                None => None,
                Some((rest, end)) => Some(
                    (
                        seq![
                            if delimiter {
                                CopyPartView::LegacyDelimiter(value)
                            } else {
                                CopyPartView::LegacyNull(value)
                            },
                        ] + rest,
                        end,
                    ),
                ),
            },
        }
    } else {
        Some((seq![], at))
    }
}

/// The clauses at `at`, where there are any, and where they end.
pub open spec fn clauses_at(tokens: Seq<TokenView>, at: int) -> Option<(Seq<CopyPartView>, int)> {
    let start = if keyword_at(tokens, at, "with"@) {
        at + 1
    } else {
        at
    };
    if sign_at(tokens, start, '(') {
        match options_at(tokens, start + 1) {
            None => None,
            Some((options, end)) => Some((seq![CopyPartView::WithOptions(options)], end)),
        }
    } else {
        match legacy_at(tokens, start) {
            None => None,
            Some((parts, end)) => if start > at && parts.len() == 0 {
                None
            } else {
                Some((parts, end))
            },
        }
    }
}

/// The columns in brackets at `at`, where there are any, and where they end.
pub open spec fn column_list_at(tokens: Seq<TokenView>, at: int) -> Option<
    (Seq<CopyPartView>, int),
> {
    if sign_at(tokens, at, '(') {
        columns_at(tokens, at + 1)
    } else {
        Some((seq![], at))
    }
}

/// Whether a command ends at `at`.
pub open spec fn ends_at(tokens: Seq<TokenView>, at: int) -> bool {
    at == tokens.len() || (sign_at(tokens, at, ';') && at + 1 == tokens.len())
}

/// The direction and the target at `at`.
pub open spec fn direction_at(tokens: Seq<TokenView>, at: int) -> Option<Seq<CopyPartView>> {
    if (keyword_at(tokens, at, "from"@) || keyword_at(tokens, at, "to"@)) && (keyword_at(
        tokens,
        at + 1,
        "stdin"@,
    ) || keyword_at(tokens, at + 1, "stdout"@)) {
        Some(
            seq![
                CopyPartView::Direction(tokens[at]->Word_0),
                CopyPartView::Target(tokens[at + 1]->Word_0),
            ],
        )
    } else {
        None
    }
}

/// The parts of a COPY command in the order in which they are written; `None` where the grammar
/// does not accept it.
pub open spec fn copy_parts(tokens: Seq<TokenView>) -> Option<Seq<CopyPartView>> {
    if !keyword_at(tokens, 0, "copy"@) {
        None
    } else {
        match table_at(tokens, 1) {
            None => None,
            Some((table, columns_start)) => match column_list_at(tokens, columns_start) {
                None => None,
                Some((columns, direction_start)) => match direction_at(tokens, direction_start) {
                    None => None,
                    Some(direction) => match clauses_at(tokens, direction_start + 2) {
                        None => None,
                        Some((clauses, end)) => if ends_at(tokens, end) {
                            Some(
                                seq![CopyPartView::TableName(table)] + columns + direction
                                    + clauses,
                            )
                        } else {
                            None
                        },
                    },
                },
            },
        }
    }
}

proof fn lemma_columns_wf(tokens: Seq<TokenView>, at: int)
    ensures
        columns_at(tokens, at) matches Some((columns, end)) ==> parts_wf(columns),
    decreases tokens.len() - at,
{
    if name_at(tokens, at) is Some && sign_at(tokens, at + 1, ',') {
        lemma_columns_wf(tokens, at + 2);
    }
}

proof fn lemma_options_wf(tokens: Seq<TokenView>, at: int)
    requires
        all_quoted(tokens),
    ensures
        options_at(tokens, at) matches Some((options, end)) ==> options_wf(options),
    decreases tokens.len() - at,
{
    if let Some((option, end)) = option_at(tokens, at) {
        if sign_at(tokens, end, ',') {
            lemma_options_wf(tokens, end + 1);
        }
    }
}

proof fn lemma_legacy_wf(tokens: Seq<TokenView>, at: int)
    requires
        all_quoted(tokens),
    ensures
        legacy_at(tokens, at) matches Some((clauses, end)) ==> parts_wf(clauses),
    decreases tokens.len() - at,
{
    let next = behind_as(tokens, at + 1);
    if (keyword_at(tokens, at, "delimiter"@) || keyword_at(tokens, at, "null"@)) && value_at(
        tokens,
        next,
    ) is Some {
        lemma_legacy_wf(tokens, next + 1);
    }
}

/// Each value in the parts of a command that is a text stands in single quotes.
pub proof fn lemma_parts_wf(tokens: Seq<TokenView>)
    requires
        all_quoted(tokens),
    ensures
        copy_parts(tokens) matches Some(parts) ==> parts_wf(parts),
{
    if let Some((table, columns_start)) = table_at(tokens, 1) {
        lemma_columns_wf(tokens, columns_start + 1);
        if let Some((columns, direction_start)) = column_list_at(tokens, columns_start) {
            let at = direction_start + 2;
            let start = if keyword_at(tokens, at, "with"@) {
                at + 1
            } else {
                at
            };
            lemma_options_wf(tokens, start + 1);
            lemma_legacy_wf(tokens, start);
        }
    }
}

fn is_keyword(tokens: &Vec<Token>, at: usize, word: &str) -> (result: bool)
    ensures
        result == keyword_at(token_views(tokens@), at as int, word@),
{
    if at >= tokens.len() {
        return false;
    }
    match &tokens[at] {
        Token::Word(text) => {
            let small = to_lower(text.as_str());
            same_text(small.as_str(), word)
        },
        _ => false,
    }
}

fn is_sign(tokens: &Vec<Token>, at: usize, sign: char) -> (result: bool)
    ensures
        result == sign_at(token_views(tokens@), at as int, sign),
{
    if at >= tokens.len() {
        return false;
    }
    match &tokens[at] {
        Token::Sign(found) => *found == sign,
        _ => false,
    }
}

fn read_name(tokens: &Vec<Token>, at: usize) -> (result: Option<String>)
    ensures
        match name_at(token_views(tokens@), at as int) {
            Some(name) => result matches Some(text) && text@ == name && at < tokens.len(),
            None => result is None,
        },
{
    if at >= tokens.len() {
        return None;
    }
    match &tokens[at] {
        Token::Word(text) => Some(text.clone()),
        Token::Quoted(text) => Some(text.clone()),
        _ => None,
    }
}

fn read_word(tokens: &Vec<Token>, at: usize) -> (text: String)
    requires
        at < tokens.len(),
        tokens@[at as int]@ is Word,
    ensures
        text@ == tokens@[at as int]@->Word_0,
{
    match &tokens[at] {
        Token::Word(text) => text.clone(),
        _ => String::new(),
    }
}

fn read_value(tokens: &Vec<Token>, at: usize) -> (result: Option<OptionValue>)
    ensures
        match value_at(token_views(tokens@), at as int) {
            Some(value) => result matches Some(found) && found@ == value && at < tokens.len(),
            None => result is None,
        },
{
    if at >= tokens.len() {
        return None;
    }
    match &tokens[at] {
        Token::Word(text) => Some(OptionValue::Identifier(text.clone())),
        Token::Quoted(text) => Some(OptionValue::Identifier(text.clone())),
        Token::Text(text) => Some(OptionValue::SingleQuoted(text.clone())),
        _ => None,
    }
}

fn read_table(tokens: &Vec<Token>, at: usize) -> (result: Option<(String, usize)>)
    requires
        at <= tokens.len(),
    ensures
        match table_at(token_views(tokens@), at as int) {
            Some((name, end)) => result matches Some((text, next)) && text@ == name && next == end
                && end <= tokens.len(),
            None => result is None,
        },
{
    let first = match read_name(tokens, at) {
        Some(first) => first,
        None => return None,
    };
    if is_sign(tokens, at + 1, '.') {
        match read_name(tokens, at + 2) {
            Some(second) => {
                let mut name = first;
                name.append(".");
                name.append(second.as_str());
                Some((name, at + 3))
            },
            None => None,
        }
    } else {
        Some((first, at + 1))
    }
}

fn read_columns(tokens: &Vec<Token>, start: usize, parts: &mut Vec<CopyPart>) -> (result: Option<
    usize,
>)
    requires
        start <= tokens.len(),
    ensures
        match columns_at(token_views(tokens@), start as int) {
            Some((columns, end)) => {
                &&& result matches Some(next)
                &&& next == end
                &&& end <= tokens.len()
                &&& part_views(final(parts)@) == part_views(old(parts)@) + columns
            },
            None => result is None,
        },
{
    let mut at: usize = start;
    let ghost views = token_views(tokens@);
    proof {
        if let Some((rest, end)) = columns_at(views, at as int) {
            assert(part_views(parts@) + rest =~= part_views(old(parts)@) + rest);
        }
    }
    loop
        invariant
            start <= at <= tokens.len(),
            views == token_views(tokens@),
            match columns_at(views, at as int) {
                Some((rest, end)) => columns_at(views, start as int) matches Some((all, last))
                    && last == end && part_views(parts@) + rest == part_views(old(parts)@) + all,
                None => columns_at(views, start as int) is None,
            },
        decreases tokens.len() - at,
    {
        let name = match read_name(tokens, at) {
            Some(name) => name,
            None => return None,
        };
        let ghost before = part_views(parts@);
        let ghost column = CopyPartView::Column(name@);
        parts.push(CopyPart::Column(name));
        assert(part_views(parts@) =~= before.push(column));
        if is_sign(tokens, at + 1, ',') {
            proof {
                if let Some((rest, end)) = columns_at(views, at + 2) {
                    assert(before + (seq![column] + rest) =~= part_views(parts@) + rest);
                }
            }
            at = at + 2;
        } else if is_sign(tokens, at + 1, ')') {
            assert(before + seq![column] =~= part_views(parts@));
            return Some(at + 2);
        } else {
            return None;
        }
    }
}

fn read_option(tokens: &Vec<Token>, at: usize) -> (result: Option<(CopyOption, usize)>)
    requires
        at <= tokens.len(),
    ensures
        match option_at(token_views(tokens@), at as int) {
            Some((option, end)) => result matches Some((found, next)) && found@ == option && next
                == end && at < end <= tokens.len(),
            None => result is None,
        },
{
    if at >= tokens.len() {
        return None;
    }
    let next: usize = if is_sign(tokens, at + 1, '=') {
        at + 2
    } else {
        at + 1
    };
    if is_keyword(tokens, at, "format") {
        match read_value(tokens, next) {
            Some(value) => Some((CopyOption::Format(value), next + 1)),
            None => None,
        }
    } else if is_keyword(tokens, at, "delimiter") {
        match read_value(tokens, next) {
            Some(value) => Some((CopyOption::Delimiter(value), next + 1)),
            None => None,
        }
    } else if is_keyword(tokens, at, "null") {
        match read_value(tokens, next) {
            Some(value) => Some((CopyOption::Null(value), next + 1)),
            None => None,
        }
    } else if is_keyword(tokens, at, "header") {
        if is_keyword(tokens, next, "true") || is_keyword(tokens, next, "false") {
            Some((CopyOption::Header(Some(read_word(tokens, next))), next + 1))
        } else if next == at + 1 {
            Some((CopyOption::Header(None), at + 1))
        } else {
            None
        }
    } else if is_keyword(tokens, at, "batch_size") {
        if next >= tokens.len() {
            return None;
        }
        match &tokens[next] {
            Token::Number(digits) => Some((CopyOption::BatchSize(digits.clone()), next + 1)),
            _ => None,
        }
    } else {
        None
    }
}

fn read_options(tokens: &Vec<Token>, start: usize) -> (result: Option<(Vec<CopyOption>, usize)>)
    requires
        start <= tokens.len(),
    ensures
        match options_at(token_views(tokens@), start as int) {
            Some((options, end)) => result matches Some((found, next)) && option_views(found@)
                == options && next == end && end <= tokens.len(),
            None => result is None,
        },
{
    let mut at: usize = start;
    let mut options: Vec<CopyOption> = Vec::new();
    let ghost views = token_views(tokens@);
    proof {
        assert(option_views(options@) =~= seq![]);
        if let Some((rest, end)) = options_at(views, at as int) {
            assert(option_views(options@) + rest =~= rest);
        }
    }
    loop
        invariant
            start <= at <= tokens.len(),
            views == token_views(tokens@),
            match options_at(views, at as int) {
                Some((rest, end)) => options_at(views, start as int) matches Some((all, last))
                    && last == end && option_views(options@) + rest == all,
                None => options_at(views, start as int) is None,
            },
        decreases tokens.len() - at,
    {
        let (option, end) = match read_option(tokens, at) {
            Some(found) => found,
            None => return None,
        };
        let ghost before = option_views(options@);
        let ghost view = option@;
        options.push(option);
        assert(option_views(options@) =~= before.push(view));
        if is_sign(tokens, end, ',') {
            proof {
                if let Some((rest, last)) = options_at(views, end + 1) {
                    assert(before + (seq![view] + rest) =~= option_views(options@) + rest);
                }
            }
            at = end + 1;
        } else if is_sign(tokens, end, ')') {
            assert(before + seq![view] =~= option_views(options@));
            return Some((options, end + 1));
        } else {
            return None;
        }
    }
}

fn read_legacy(tokens: &Vec<Token>, start: usize, parts: &mut Vec<CopyPart>) -> (result: Option<
    usize,
>)
    requires
        start <= tokens.len(),
    ensures
        match legacy_at(token_views(tokens@), start as int) {
            Some((clauses, end)) => {
                &&& result matches Some(next)
                &&& next == end
                &&& end <= tokens.len()
                &&& part_views(final(parts)@) == part_views(old(parts)@) + clauses
                &&& (clauses.len() == 0) == (end == start)
            },
            None => result is None,
        },
{
    let mut at: usize = start;
    let ghost views = token_views(tokens@);
    proof {
        if let Some((rest, end)) = legacy_at(views, at as int) {
            assert(part_views(parts@) + rest =~= part_views(old(parts)@) + rest);
        }
    }
    loop
        invariant
            start <= at <= tokens.len(),
            views == token_views(tokens@),
            match legacy_at(views, at as int) {
                Some((rest, end)) => legacy_at(views, start as int) matches Some((all, last))
                    && last == end && part_views(parts@) + rest == part_views(old(parts)@) + all
                    && all.len() == parts@.len() - old(parts)@.len() + rest.len(),
                None => legacy_at(views, start as int) is None,
            },
            parts@.len() >= old(parts)@.len(),
            (at == start) == (parts@.len() == old(parts)@.len()),
        decreases tokens.len() - at,
    {
        let delimiter = is_keyword(tokens, at, "delimiter");
        if !delimiter && !is_keyword(tokens, at, "null") {
            assert(part_views(parts@) + Seq::<CopyPartView>::empty() =~= part_views(parts@));
            return Some(at);
        }
        let next: usize = if is_keyword(tokens, at + 1, "as") {
            at + 2
        } else {
            at + 1
        };
        let value = match read_value(tokens, next) {
            Some(value) => value,
            None => return None,
        };
        let ghost before = part_views(parts@);
        let part = if delimiter {
            CopyPart::LegacyDelimiter(value)
        } else {
            CopyPart::LegacyNull(value)
        };
        let ghost view = part@;
        parts.push(part);
        proof {
            assert(part_views(parts@) =~= before.push(view));
            if let Some((rest, end)) = legacy_at(views, next + 1) {
                assert(before + (seq![view] + rest) =~= part_views(parts@) + rest);
            }
        }
        at = next + 1;
    }
}

fn read_clauses(tokens: &Vec<Token>, at: usize, parts: &mut Vec<CopyPart>) -> (result: Option<
    usize,
>)
    requires
        at <= tokens.len(),
    ensures
        match clauses_at(token_views(tokens@), at as int) {
            Some((clauses, end)) => {
                &&& result matches Some(next)
                &&& next == end
                &&& end <= tokens.len()
                &&& part_views(final(parts)@) == part_views(old(parts)@) + clauses
            },
            None => result is None,
        },
{
    let start: usize = if is_keyword(tokens, at, "with") {
        at + 1
    } else {
        at
    };
    if is_sign(tokens, start, '(') {
        match read_options(tokens, start + 1) {
            Some((options, end)) => {
                let part = CopyPart::WithOptions(options);
                let ghost view = part@;
                parts.push(part);
                assert(part_views(parts@) =~= part_views(old(parts)@) + seq![view]);
                Some(end)
            },
            None => None,
        }
    } else {
        match read_legacy(tokens, start, parts) {
            Some(end) => if start > at && end == start {
                None
            } else {
                Some(end)
            },
            None => None,
        }
    }
}

/// Reads the parts of a COPY command, or finds that the grammar does not accept it.
pub fn read_copy(tokens: &Vec<Token>) -> (result: Option<Vec<CopyPart>>)
    ensures
        match copy_parts(token_views(tokens@)) {
            Some(parts) => result matches Some(found) && part_views(found@) == parts,
            None => result is None,
        },
{
    if !is_keyword(tokens, 0, "copy") {
        return None;
    }
    let (table, columns_start) = match read_table(tokens, 1) {
        Some(found) => found,
        None => return None,
    };
    let mut parts: Vec<CopyPart> = Vec::new();
    let ghost table_part = CopyPartView::TableName(table@);
    parts.push(CopyPart::TableName(table));
    assert(part_views(parts@) =~= seq![table_part]);
    let at: usize = if is_sign(tokens, columns_start, '(') {
        match read_columns(tokens, columns_start + 1, &mut parts) {
            Some(end) => end,
            None => return None,
        }
    } else {
        assert(part_views(parts@) + Seq::<CopyPartView>::empty() =~= part_views(parts@));
        columns_start
    };
    if !(is_keyword(tokens, at, "from") || is_keyword(tokens, at, "to")) || !(is_keyword(
        tokens,
        at + 1,
        "stdin",
    ) || is_keyword(tokens, at + 1, "stdout")) {
        return None;
    }
    let ghost before = part_views(parts@);
    parts.push(CopyPart::Direction(read_word(tokens, at)));
    parts.push(CopyPart::Target(read_word(tokens, at + 1)));
    assert(part_views(parts@) =~= before + direction_at(token_views(tokens@), at as int)->0);
    let end: usize = match read_clauses(tokens, at + 2, &mut parts) {
        Some(end) => end,
        None => return None,
    };
    if end == tokens.len() || (is_sign(tokens, end, ';') && end + 1 == tokens.len()) {
        Some(parts)
    } else {
        None
    }
}

}
