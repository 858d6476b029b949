//! Every way in which a COPY can be written is read as what it says.
use crate::sql::grammar::{
    behind_as, behind_equals, clauses_at, column_list_at, columns_at, copy_parts, direction_at,
    keyword_at, legacy_at, option_at, options_at, sign_at, table_at, CopyOptionView, CopyPartView,
    OptionValueView,
};
use crate::sql::lexer::TokenView;
use crate::sql::written::stand_at;
use crate::text::lower;
use vstd::prelude::*;

verus! {

/// An option as it is written: its keyword, perhaps an equals sign, and its value, where it has
/// one.
pub struct OptionForm {
    pub keyword: Seq<char>,
    pub equals: bool,
    pub value: Option<TokenView>,
}

/// A clause of the older form as it is written: its keyword, perhaps the word AS, and its value.
pub struct LegacyForm {
    pub keyword: Seq<char>,
    pub as_word: Option<Seq<char>>,
    pub value: TokenView,
}

/// What stands behind the target of a command.
pub enum ClausesForm {
    Nothing,
    /// Perhaps the word WITH, and options in brackets.
    Options { with: Option<Seq<char>>, options: Seq<OptionForm> },
    /// Perhaps the word WITH, and clauses of the older form.
    Legacy { with: Option<Seq<char>>, clauses: Seq<LegacyForm> },
}

/// A command as it is written. Where there are no columns, there are no brackets.
pub struct CommandForm {
    pub copy: Seq<char>,
    pub schema: Option<TokenView>,
    pub table: TokenView,
    pub columns: Seq<TokenView>,
    pub direction: Seq<char>,
    pub target: Seq<char>,
    pub clauses: ClausesForm,
    pub semicolon: bool,
}

/// Whether a piece is a name: a word, or what stands in double quotes.
pub open spec fn is_name(piece: TokenView) -> bool {
    piece is Word || piece is Quoted
}

/// Whether a piece is a value: a name, or what stands in single quotes.
pub open spec fn is_value(piece: TokenView) -> bool {
    is_name(piece) || piece is Text
}

/// A name as it is written.
pub open spec fn name_text(piece: TokenView) -> Seq<char> {
    match piece {
        TokenView::Word(text) => text,
        TokenView::Quoted(text) => text,
        _ => seq![],
    }
}

/// The value that a piece is.
pub open spec fn value_of(piece: TokenView) -> OptionValueView {
    match piece {
        TokenView::Text(text) => OptionValueView::SingleQuoted(text),
        _ => OptionValueView::Identifier(name_text(piece)),
    }
}

/// Whether a piece is a word, in upper or lower case.
pub open spec fn is_the_word(piece: TokenView, word: Seq<char>) -> bool {
    piece matches TokenView::Word(text) && lower(text) == word
}

impl OptionForm {
    /// Whether an option can be written so.
    pub open spec fn wf(self) -> bool {
        let keyword = lower(self.keyword);
        if keyword == "format"@ || keyword == "delimiter"@ || keyword == "null"@ {
            self.value matches Some(piece) && is_value(piece)
        } else if keyword == "header"@ {
            match self.value {
                Some(piece) => is_the_word(piece, "true"@) || is_the_word(piece, "false"@),
                None => !self.equals,
            }
        } else {
            keyword == "batch_size"@ && (self.value matches Some(piece) && piece is Number)
        }
    }

    /// The pieces of the option.
    pub open spec fn pieces(self) -> Seq<TokenView> {
        seq![TokenView::Word(self.keyword)] + (if self.equals {
            seq![TokenView::Sign('=')]
        } else {
            seq![]
        }) + (match self.value {
            Some(piece) => seq![piece],
            None => seq![],
        })
    }

    /// The option that it is.
    pub open spec fn option(self) -> CopyOptionView {
        let keyword = lower(self.keyword);
        if keyword == "format"@ {
            CopyOptionView::Format(value_of(self.value->0))
        } else if keyword == "delimiter"@ {
            CopyOptionView::Delimiter(value_of(self.value->0))
        } else if keyword == "null"@ {
            CopyOptionView::Null(value_of(self.value->0))
        } else if keyword == "header"@ {
            CopyOptionView::Header(
                match self.value {
                    Some(piece) => Some(name_text(piece)),
                    None => None,
                },
            )
        } else {
            CopyOptionView::BatchSize(self.value->0->Number_0)
        }
    }
}

impl LegacyForm {
    /// Whether a clause can be written so. The word AS alone cannot be the value.
    pub open spec fn wf(self) -> bool {
        &&& lower(self.keyword) == "delimiter"@ || lower(self.keyword) == "null"@
        &&& is_value(self.value)
        &&& match self.as_word {
            Some(word) => lower(word) == "as"@,
            None => !is_the_word(self.value, "as"@),
        }
    }

    /// The pieces of the clause.
    pub open spec fn pieces(self) -> Seq<TokenView> {
        seq![TokenView::Word(self.keyword)] + (match self.as_word {
            Some(word) => seq![TokenView::Word(word)],
            None => seq![],
        }) + seq![self.value]
    }

    /// The part that it is.
    pub open spec fn part(self) -> CopyPartView {
        if lower(self.keyword) == "delimiter"@ {
            CopyPartView::LegacyDelimiter(value_of(self.value))
        } else {
            CopyPartView::LegacyNull(value_of(self.value))
        }
    }
}

/// The pieces of options, with commas between them and a bracket behind.
pub open spec fn option_pieces(options: Seq<OptionForm>) -> Seq<TokenView>
    decreases options.len(),
{
    if options.len() == 0 {
        seq![]
    } else if options.len() == 1 {
        options[0].pieces() + seq![TokenView::Sign(')')]
    } else {
        options[0].pieces() + seq![TokenView::Sign(',')] + option_pieces(options.skip(1))
    }
}

/// The pieces of clauses of the older form.
pub open spec fn legacy_pieces(clauses: Seq<LegacyForm>) -> Seq<TokenView>
    decreases clauses.len(),
{
    if clauses.len() == 0 {
        seq![]
    } else {
        clauses[0].pieces() + legacy_pieces(clauses.skip(1))
    }
}

/// The pieces of the names of columns, with commas between them and a bracket behind.
pub open spec fn column_pieces(columns: Seq<TokenView>) -> Seq<TokenView>
    decreases columns.len(),
{
    if columns.len() == 0 {
        seq![]
    } else if columns.len() == 1 {
        seq![columns[0], TokenView::Sign(')')]
    } else {
        seq![columns[0], TokenView::Sign(',')] + column_pieces(columns.skip(1))
    }
}

/// The pieces of the word WITH, where it is written.
pub open spec fn with_pieces(with: Option<Seq<char>>) -> Seq<TokenView> {
    match with {
        Some(word) => seq![TokenView::Word(word)],
        None => seq![],
    }
}

/// Whether the word WITH is written in upper or lower case, if at all.
pub open spec fn with_wf(with: Option<Seq<char>>) -> bool {
    with matches Some(word) ==> lower(word) == "with"@
}

impl ClausesForm {
    /// Whether clauses can be written so.
    pub open spec fn wf(self) -> bool {
        match self {
            ClausesForm::Nothing => true,
            ClausesForm::Options { with, options } => with_wf(with) && options.len() > 0
                && forall|i: int| 0 <= i < options.len() ==> (#[trigger] options[i]).wf(),
            ClausesForm::Legacy { with, clauses } => with_wf(with) && clauses.len() > 0
                && forall|i: int| 0 <= i < clauses.len() ==> (#[trigger] clauses[i]).wf(),
        }
    }

    /// The pieces of the clauses.
    pub open spec fn pieces(self) -> Seq<TokenView> {
        match self {
            ClausesForm::Nothing => seq![],
            ClausesForm::Options { with, options } => with_pieces(with) + seq![
                TokenView::Sign('('),
            ] + option_pieces(options),
            ClausesForm::Legacy { with, clauses } => with_pieces(with) + legacy_pieces(clauses),
        }
    }

    /// The parts that they are: options in brackets are one part, in their order.
    pub open spec fn parts(self) -> Seq<CopyPartView> {
        match self {
            ClausesForm::Nothing => seq![],
            ClausesForm::Options { with, options } => seq![
                CopyPartView::WithOptions(
                    Seq::new(options.len(), |i: int| options[i].option()),
                ),
            ],
            ClausesForm::Legacy { with, clauses } => Seq::new(
                clauses.len(),
                |i: int| clauses[i].part(),
            ),
        }
    }
}

impl CommandForm {
    /// Whether a command can be written so.
    pub open spec fn wf(self) -> bool {
        &&& lower(self.copy) == "copy"@
        &&& self.schema matches Some(piece) ==> is_name(piece)
        &&& is_name(self.table)
        &&& forall|i: int| 0 <= i < self.columns.len() ==> is_name(#[trigger] self.columns[i])
        &&& lower(self.direction) == "from"@ || lower(self.direction) == "to"@
        &&& lower(self.target) == "stdin"@ || lower(self.target) == "stdout"@
        &&& self.clauses.wf()
    }

    /// The pieces of the name of the table.
    pub open spec fn table_pieces(self) -> Seq<TokenView> {
        match self.schema {
            Some(schema) => seq![schema, TokenView::Sign('.'), self.table],
            None => seq![self.table],
        }
    }

    /// The name of the table as it is written.
    pub open spec fn table_text(self) -> Seq<char> {
        match self.schema {
            Some(schema) => name_text(schema) + "."@ + name_text(self.table),
            None => name_text(self.table),
        }
    }

    /// The pieces of the columns, in their brackets.
    pub open spec fn columns_pieces(self) -> Seq<TokenView> {
        if self.columns.len() == 0 {
            seq![]
        } else {
            seq![TokenView::Sign('(')] + column_pieces(self.columns)
        }
    }

    /// The pieces of what ends the command.
    pub open spec fn end_pieces(self) -> Seq<TokenView> {
        if self.semicolon {
            seq![TokenView::Sign(';')]
        } else {
            seq![]
        }
    }

    /// The pieces of the command.
    pub open spec fn pieces(self) -> Seq<TokenView> {
        seq![TokenView::Word(self.copy)] + self.table_pieces() + self.columns_pieces() + seq![
            TokenView::Word(self.direction),
            TokenView::Word(self.target),
        ] + self.clauses.pieces() + self.end_pieces()
    }

    /// The parts that it is: the table, its columns in their order, the direction and the target,
    /// and the clauses in their order.
    pub open spec fn parts(self) -> Seq<CopyPartView> {
        seq![CopyPartView::TableName(self.table_text())] + Seq::new(
            self.columns.len(),
            |i: int| CopyPartView::Column(name_text(self.columns[i])),
        ) + seq![
            CopyPartView::Direction(self.direction),
            CopyPartView::Target(self.target),
        ] + self.clauses.parts()
    }
}

/// The keywords differ.
proof fn lemma_keywords_differ()
    ensures
        "format"@ != "delimiter"@,
        "format"@ != "null"@,
        "format"@ != "header"@,
        "format"@ != "batch_size"@,
        "delimiter"@ != "null"@,
        "delimiter"@ != "header"@,
        "delimiter"@ != "batch_size"@,
        "null"@ != "header"@,
        "null"@ != "batch_size"@,
        "header"@ != "batch_size"@,
        "with"@ != "delimiter"@,
        "with"@ != "null"@,
{
    reveal_strlit("format");
    reveal_strlit("delimiter");
    reveal_strlit("null");
    reveal_strlit("header");
    reveal_strlit("batch_size");
    reveal_strlit("with");
    assert("format"@.len() == 6 && "delimiter"@.len() == 9 && "null"@.len() == 4
        && "header"@.len() == 6 && "batch_size"@.len() == 10 && "with"@.len() == 4);
    assert("format"@[0] != "header"@[0]);
    assert("with"@[0] != "null"@[0]);
}

proof fn lemma_option(tokens: Seq<TokenView>, at: int, form: OptionForm)
    requires
        form.wf(),
        stand_at(tokens, at, form.pieces()),
        at + form.pieces().len() < tokens.len(),
        tokens[at + form.pieces().len()] == TokenView::Sign(',') || tokens[at
            + form.pieces().len()] == TokenView::Sign(')'),
    ensures
        option_at(tokens, at) == Some((form.option(), at + form.pieces().len())),
{
    let pieces = form.pieces();
    lemma_keywords_differ();
    assert(pieces[0] == tokens[at + 0]);
    if pieces.len() > 1 {
        assert(pieces[1] == tokens[at + 1]);
    }
    if pieces.len() > 2 {
        assert(pieces[2] == tokens[at + 2]);
    }
    if form.equals {
        assert(pieces[1] == TokenView::Sign('='));
    }
}

proof fn lemma_options(tokens: Seq<TokenView>, at: int, options: Seq<OptionForm>)
    requires
        options.len() > 0,
        forall|i: int| 0 <= i < options.len() ==> (#[trigger] options[i]).wf(),
        stand_at(tokens, at, option_pieces(options)),
    ensures
        options_at(tokens, at) == Some(
            (
                Seq::new(options.len(), |i: int| options[i].option()),
                at + option_pieces(options).len(),
            ),
        ),
    decreases options.len(),
{
    let first = options[0].pieces();
    let pieces = option_pieces(options);
    let all = Seq::new(options.len(), |i: int| options[i].option());
    assert forall|i: int| 0 <= i < first.len() implies #[trigger] first[i] == tokens[at + i] by {
        assert(pieces[i] == first[i]);
    }
    assert(pieces[first.len() as int] == tokens[at + first.len()]);
    lemma_option(tokens, at, options[0]);
    if options.len() > 1 {
        let rest = options.skip(1);
        let more = option_pieces(rest);
        let next = at + first.len() + 1;
        assert forall|i: int| 0 <= i < more.len() implies #[trigger] more[i] == tokens[next
            + i] by {
            assert(pieces[first.len() + 1 + i] == more[i]);
            assert(pieces[first.len() + 1 + i] == tokens[at + (first.len() + 1 + i)]);
        }
        assert forall|i: int| 0 <= i < rest.len() implies (#[trigger] rest[i]).wf() by {
            assert(options[i + 1].wf());
        }
        lemma_options(tokens, next, rest);
        assert(seq![options[0].option()] + Seq::new(rest.len(), |i: int| rest[i].option())
            =~= all);
    } else {
        assert(seq![options[0].option()] =~= all);
    }
}

proof fn lemma_legacy(tokens: Seq<TokenView>, at: int, clauses: Seq<LegacyForm>)
    requires
        forall|i: int| 0 <= i < clauses.len() ==> (#[trigger] clauses[i]).wf(),
        stand_at(tokens, at, legacy_pieces(clauses)),
        at + legacy_pieces(clauses).len() < tokens.len() ==> tokens[at + legacy_pieces(
            clauses,
        ).len()] == TokenView::Sign(';'),
    ensures
        legacy_at(tokens, at) == Some(
            (
                Seq::new(clauses.len(), |i: int| clauses[i].part()),
                at + legacy_pieces(clauses).len(),
            ),
        ),
    decreases clauses.len(),
{
    let all = Seq::new(clauses.len(), |i: int| clauses[i].part());
    if clauses.len() == 0 {
        assert(all =~= seq![]);
    } else {
        let form = clauses[0];
        let first = form.pieces();
        let pieces = legacy_pieces(clauses);
        let rest = clauses.skip(1);
        let more = legacy_pieces(rest);
        let next = at + first.len();
        lemma_keywords_differ();
        assert(pieces[0] == tokens[at + 0]);
        assert(pieces[1] == tokens[at + 1]);
        if first.len() > 2 {
            assert(pieces[2] == tokens[at + 2]);
        }
        assert(first[first.len() - 1] == form.value);
        assert forall|i: int| 0 <= i < more.len() implies #[trigger] more[i] == tokens[next
            + i] by {
            assert(pieces[first.len() + i] == more[i]);
            assert(pieces[first.len() + i] == tokens[at + (first.len() + i)]);
        }
        assert forall|i: int| 0 <= i < rest.len() implies (#[trigger] rest[i]).wf() by {
            assert(clauses[i + 1].wf());
        }
        lemma_legacy(tokens, next, rest);
        assert(seq![form.part()] + Seq::new(rest.len(), |i: int| rest[i].part()) =~= all);
    }
}

proof fn lemma_columns(tokens: Seq<TokenView>, at: int, columns: Seq<TokenView>)
    requires
        columns.len() > 0,
        forall|i: int| 0 <= i < columns.len() ==> is_name(#[trigger] columns[i]),
        stand_at(tokens, at, column_pieces(columns)),
    ensures
        columns_at(tokens, at) == Some(
            (
                Seq::new(columns.len(), |i: int| CopyPartView::Column(name_text(columns[i]))),
                at + column_pieces(columns).len(),
            ),
        ),
    decreases columns.len(),
{
    let pieces = column_pieces(columns);
    let all = Seq::new(columns.len(), |i: int| CopyPartView::Column(name_text(columns[i])));
    assert(pieces[0] == tokens[at + 0]);
    assert(pieces[1] == tokens[at + 1]);
    assert(is_name(columns[0]));
    if columns.len() > 1 {
        let rest = columns.skip(1);
        let more = column_pieces(rest);
        assert forall|i: int| 0 <= i < more.len() implies #[trigger] more[i] == tokens[at + 2
            + i] by {
            assert(pieces[i + 2] == tokens[at + (i + 2)]);
        }
        assert forall|i: int| 0 <= i < rest.len() implies is_name(#[trigger] rest[i]) by {
            assert(is_name(columns[i + 1]));
        }
        lemma_columns(tokens, at + 2, rest);
        assert(seq![all[0]] + Seq::new(
            rest.len(),
            |i: int| CopyPartView::Column(name_text(rest[i])),
        ) =~= all);
    } else {
        assert(seq![all[0]] =~= all);
    }
}

proof fn lemma_clauses(tokens: Seq<TokenView>, at: int, form: ClausesForm)
    requires
        form.wf(),
        stand_at(tokens, at, form.pieces()),
        at + form.pieces().len() < tokens.len() ==> tokens[at + form.pieces().len()]
            == TokenView::Sign(';'),
    ensures
        clauses_at(tokens, at) == Some((form.parts(), at + form.pieces().len())),
{
    let pieces = form.pieces();
    lemma_keywords_differ();
    if pieces.len() > 0 {
        assert(pieces[0] == tokens[at + 0]);
    }
    match form {
        ClausesForm::Nothing => {
            assert(form.parts() =~= seq![]);
        },
        ClausesForm::Options { with, options } => {
            let given = option_pieces(options);
            let before = with_pieces(with).len() as int;
            let start = at + before + 1;
            assert(pieces[before] == tokens[at + before]);
            assert(pieces[before] == TokenView::Sign('('));
            assert forall|i: int| 0 <= i < given.len() implies #[trigger] given[i]
                == tokens[start + i] by {
                assert(pieces[before + 1 + i] == given[i]);
                assert(pieces[before + 1 + i] == tokens[at + (before + 1 + i)]);
            }
            lemma_options(tokens, start, options);
        },
        ClausesForm::Legacy { with, clauses } => {
            let given = legacy_pieces(clauses);
            let before = with_pieces(with).len() as int;
            let start = at + before;
            assert forall|i: int| 0 <= i < given.len() implies #[trigger] given[i]
                == tokens[start + i] by {
                assert(pieces[before + i] == given[i]);
                assert(pieces[before + i] == tokens[at + (before + i)]);
            }
            assert(clauses[0].wf());
            assert(given[0] == TokenView::Word(clauses[0].keyword));
            assert(given[0] == tokens[start + 0]);
            lemma_legacy(tokens, start, clauses);
            assert(form.parts().len() > 0);
        },
    }
}

/// A command is read as what it says, in whatever way it is written: keywords in upper and lower
/// case, names as words or in quotes, with a schema and columns or without, with the options in any
/// order, with or without equals signs, with or without the word WITH, with clauses of the older
/// form, with or without the word AS, and with or without a semicolon at its end.
pub proof fn law_command_is_read_as_it_is_written(form: CommandForm)
    requires
        form.wf(),
    ensures
        copy_parts(form.pieces()) == Some(form.parts()),
{
    let tokens = form.pieces();
    let table = form.table_pieces();
    let columns = form.columns_pieces();
    let clauses = form.clauses.pieces();
    let end = form.end_pieces();
    let columns_start = 1 + table.len() as int;
    let direction_start = columns_start + columns.len();
    let clauses_start = direction_start + 2;
    assert(tokens.len() == clauses_start + clauses.len() + end.len());
    assert(tokens[0] == TokenView::Word(form.copy));
    assert forall|i: int| 0 <= i < table.len() implies #[trigger] table[i] == tokens[1 + i] by {}
    assert forall|i: int| 0 <= i < columns.len() implies #[trigger] columns[i]
        == tokens[columns_start + i] by {}
    assert(tokens[direction_start] == TokenView::Word(form.direction));
    assert(tokens[direction_start + 1] == TokenView::Word(form.target));
    assert forall|i: int| 0 <= i < clauses.len() implies #[trigger] clauses[i]
        == tokens[clauses_start + i] by {}
    if form.semicolon {
        assert(end[0] == tokens[clauses_start + clauses.len()]);
    }
    assert(table[0] == tokens[1int + 0]);
    if form.schema is Some {
        assert(table[1] == tokens[1int + 1]);
        assert(table[2] == tokens[1int + 2]);
    }
    if form.columns.len() > 0 {
        assert(columns[0] == tokens[columns_start + 0]);
        let inner = column_pieces(form.columns);
        assert forall|i: int| 0 <= i < inner.len() implies #[trigger] inner[i]
            == tokens[columns_start + 1 + i] by {
            assert(columns[i + 1] == tokens[columns_start + (i + 1)]);
        }
        lemma_columns(tokens, columns_start + 1, form.columns);
    }
    assert(table_at(tokens, 1) == Some((form.table_text(), columns_start)));
    let named = Seq::new(
        form.columns.len(),
        |i: int| CopyPartView::Column(name_text(form.columns[i])),
    );
    if form.columns.len() == 0 {
        assert(named =~= seq![]);
    }
    assert(column_list_at(tokens, columns_start) == Some((named, direction_start)));
    assert(direction_at(tokens, direction_start) is Some);
    lemma_clauses(tokens, clauses_start, form.clauses);
}

proof fn lemma_option_form(tokens: Seq<TokenView>, at: int) -> (form: OptionForm)
    requires
        option_at(tokens, at) is Some,
    ensures
        form.wf(),
        stand_at(tokens, at, form.pieces()),
        option_at(tokens, at) matches Some((_, end)) && end == at + form.pieces().len(),
{
    lemma_keywords_differ();
    let equals = sign_at(tokens, at + 1, '=');
    let next = behind_equals(tokens, at + 1);
    let keyword = tokens[at]->Word_0;
    let bare = lower(keyword) == "header"@ && !keyword_at(tokens, next, "true"@) && !keyword_at(
        tokens,
        next,
        "false"@,
    );
    let form = OptionForm {
        keyword,
        equals,
        value: if bare {
            None
        } else {
            Some(tokens[next])
        },
    };
    let pieces = form.pieces();
    assert(pieces[0] == tokens[at]);
    assert(stand_at(tokens, at, pieces));
    form
}

proof fn lemma_options_form(tokens: Seq<TokenView>, at: int) -> (options: Seq<OptionForm>)
    requires
        options_at(tokens, at) is Some,
    ensures
        options.len() > 0,
        forall|i: int| 0 <= i < options.len() ==> (#[trigger] options[i]).wf(),
        stand_at(tokens, at, option_pieces(options)),
        options_at(tokens, at) matches Some((_, end)) && end == at + option_pieces(options).len(),
    decreases tokens.len() - at,
{
    let first = lemma_option_form(tokens, at);
    let pieces = first.pieces();
    let end = at + pieces.len();
    if sign_at(tokens, end, ',') {
        let rest = lemma_options_form(tokens, end + 1);
        let options = seq![first] + rest;
        let more = option_pieces(rest);
        assert(options.skip(1) =~= rest);
        assert(options[0] == first);
        let all = option_pieces(options);
        assert(all == pieces + seq![TokenView::Sign(',')] + more);
        assert forall|i: int| 0 <= i < all.len() implies #[trigger] all[i] == tokens[at + i] by {
            if i < pieces.len() {
                assert(pieces[i] == tokens[at + i]);
            } else if i > pieces.len() {
                assert(more[i - pieces.len() - 1] == tokens[end + 1 + (i - pieces.len() - 1)]);
            }
        }
        assert forall|i: int| 0 <= i < options.len() implies (#[trigger] options[i]).wf() by {
            if i > 0 {
                assert(rest[i - 1].wf());
            }
        }
        options
    } else {
        let options = seq![first];
        let all = option_pieces(options);
        assert(all == pieces + seq![TokenView::Sign(')')]);
        assert forall|i: int| 0 <= i < all.len() implies #[trigger] all[i] == tokens[at + i] by {
            if i < pieces.len() {
                assert(pieces[i] == tokens[at + i]);
            }
        }
        options
    }
}

proof fn lemma_columns_form(tokens: Seq<TokenView>, at: int) -> (columns: Seq<TokenView>)
    requires
        columns_at(tokens, at) is Some,
    ensures
        columns.len() > 0,
        forall|i: int| 0 <= i < columns.len() ==> is_name(#[trigger] columns[i]),
        stand_at(tokens, at, column_pieces(columns)),
        columns_at(tokens, at) matches Some((_, end)) && end == at + column_pieces(columns).len(),
    decreases tokens.len() - at,
{
    let first = tokens[at];
    if sign_at(tokens, at + 1, ',') {
        let rest = lemma_columns_form(tokens, at + 2);
        let columns = seq![first] + rest;
        let more = column_pieces(rest);
        assert(columns.skip(1) =~= rest);
        let all = column_pieces(columns);
        assert(all == seq![first, TokenView::Sign(',')] + more);
        assert forall|i: int| 0 <= i < all.len() implies #[trigger] all[i] == tokens[at + i] by {
            if i > 1 {
                assert(more[i - 2] == tokens[at + 2 + (i - 2)]);
            }
        }
        assert forall|i: int| 0 <= i < columns.len() implies is_name(#[trigger] columns[i]) by {
            if i > 0 {
                assert(is_name(rest[i - 1]));
            }
        }
        columns
    } else {
        let columns = seq![first];
        assert(column_pieces(columns) == seq![first, TokenView::Sign(')')]);
        columns
    }
}

proof fn lemma_legacy_form(tokens: Seq<TokenView>, at: int) -> (clauses: Seq<LegacyForm>)
    requires
        legacy_at(tokens, at) is Some,
        0 <= at <= tokens.len(),
    ensures
        forall|i: int| 0 <= i < clauses.len() ==> (#[trigger] clauses[i]).wf(),
        stand_at(tokens, at, legacy_pieces(clauses)),
        legacy_at(tokens, at) matches Some((_, end)) && end == at + legacy_pieces(clauses).len(),
        legacy_at(tokens, at) matches Some((parts, _)) && parts.len() == clauses.len(),
    decreases tokens.len() - at,
{
    lemma_keywords_differ();
    if keyword_at(tokens, at, "delimiter"@) || keyword_at(tokens, at, "null"@) {
        let next = behind_as(tokens, at + 1);
        let first = LegacyForm {
            keyword: tokens[at]->Word_0,
            as_word: if next > at + 1 {
                Some(tokens[at + 1]->Word_0)
            } else {
                None
            },
            value: tokens[next],
        };
        let pieces = first.pieces();
        assert(pieces.len() == next + 1 - at);
        assert(stand_at(tokens, at, pieces));
        let rest = lemma_legacy_form(tokens, next + 1);
        let clauses = seq![first] + rest;
        let more = legacy_pieces(rest);
        assert(clauses.skip(1) =~= rest);
        let all = legacy_pieces(clauses);
        assert(all == pieces + more);
        assert forall|i: int| 0 <= i < all.len() implies #[trigger] all[i] == tokens[at + i] by {
            if i < pieces.len() {
                assert(pieces[i] == tokens[at + i]);
            } else {
                assert(more[i - pieces.len()] == tokens[next + 1 + (i - pieces.len())]);
            }
        }
        assert(first.wf());
        assert forall|i: int| 0 <= i < clauses.len() implies (#[trigger] clauses[i]).wf() by {
            if i > 0 {
                assert(rest[i - 1].wf());
            }
        }
        clauses
    } else {
        seq![]
    }
}

proof fn lemma_clauses_form(tokens: Seq<TokenView>, at: int) -> (form: ClausesForm)
    requires
        clauses_at(tokens, at) is Some,
        0 <= at <= tokens.len(),
    ensures
        form.wf(),
        stand_at(tokens, at, form.pieces()),
        clauses_at(tokens, at) matches Some((_, end)) && end == at + form.pieces().len(),
{
    let with = if keyword_at(tokens, at, "with"@) {
        Some(tokens[at]->Word_0)
    } else {
        None
    };
    let before = with_pieces(with);
    let start = at + before.len();
    if sign_at(tokens, start, '(') {
        let options = lemma_options_form(tokens, start + 1);
        let form = ClausesForm::Options { with, options };
        let given = option_pieces(options);
        let all = form.pieces();
        assert(all == before + seq![TokenView::Sign('(')] + given);
        assert forall|i: int| 0 <= i < all.len() implies #[trigger] all[i] == tokens[at + i] by {
            if i > before.len() {
                assert(given[i - before.len() - 1] == tokens[start + 1 + (i - before.len() - 1)]);
            }
        }
        form
    } else {
        let clauses = lemma_legacy_form(tokens, start);
        if clauses.len() == 0 {
            assert(with is None);
            ClausesForm::Nothing
        } else {
            let form = ClausesForm::Legacy { with, clauses };
            let given = legacy_pieces(clauses);
            let all = form.pieces();
            assert(all == before + given);
            assert forall|i: int| 0 <= i < all.len() implies #[trigger] all[i] == tokens[at
                + i] by {
                if i >= before.len() {
                    assert(given[i - before.len()] == tokens[start + (i - before.len())]);
                }
            }
            form
        }
    }
}

proof fn lemma_command_form(tokens: Seq<TokenView>) -> (form: CommandForm)
    requires
        copy_parts(tokens) is Some,
    ensures
        form.wf(),
        form.pieces() == tokens,
{
    let (_, columns_start) = table_at(tokens, 1)->0;
    let (_, direction_start) = column_list_at(tokens, columns_start)->0;
    let clauses = lemma_clauses_form(tokens, direction_start + 2);
    let clauses_end = direction_start + 2 + clauses.pieces().len();
    let columns = if sign_at(tokens, columns_start, '(') {
        lemma_columns_form(tokens, columns_start + 1)
    } else {
        seq![]
    };
    let dotted = sign_at(tokens, 2, '.');
    let form = CommandForm {
        copy: tokens[0]->Word_0,
        schema: if dotted {
            Some(tokens[1])
        } else {
            None
        },
        table: if dotted {
            tokens[3]
        } else {
            tokens[1]
        },
        columns,
        direction: tokens[direction_start]->Word_0,
        target: tokens[direction_start + 1]->Word_0,
        clauses,
        semicolon: clauses_end < tokens.len(),
    };
    let all = form.pieces();
    let listed = form.columns_pieces();
    let given = clauses.pieces();
    assert(form.table_pieces().len() == columns_start - 1);
    assert(listed.len() == direction_start - columns_start);
    assert(all.len() == tokens.len());
    assert forall|i: int| 0 <= i < all.len() implies all[i] == tokens[i] by {
        if columns_start < i < direction_start {
            let inner = column_pieces(columns);
            assert(inner[i - columns_start - 1] == tokens[columns_start + 1 + (i - columns_start
                - 1)]);
            assert(all[i] == listed[i - columns_start]);
        } else if direction_start + 2 <= i < clauses_end {
            assert(given[i - direction_start - 2] == tokens[direction_start + 2 + (i
                - direction_start - 2)]);
        }
    }
    assert(all =~= tokens);
    form
}

/// Nothing but a command that is written in one of these ways is read as a COPY.
pub proof fn law_nothing_else_is_read_as_a_copy(tokens: Seq<TokenView>)
    ensures
        copy_parts(tokens) is Some ==> exists|form: CommandForm| #[trigger]
            form.wf() && form.pieces() == tokens,
{
    if copy_parts(tokens) is Some {
        let form = lemma_command_form(tokens);
        assert(form.wf());
    }
}

}
