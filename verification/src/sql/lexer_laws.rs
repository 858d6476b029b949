//! How a command is cut into pieces, from its start.
use crate::sql::command::{space_end, starts_with_copy};
use crate::sql::laws::{doubled, in_quotes};
use crate::sql::lexer::{
    in_word, is_digit, lemma_token_at, number_end, quote_end, token_at, tokens_from, word_end,
    TokenView,
};
use crate::text::lower;
use vstd::prelude::*;

verus! {

/// Whether a character is white space.
pub open spec fn is_blank(ch: char) -> bool {
    ch == '\u{20}' || ch == '\u{9}' || ch == '\u{a}' || ch == '\u{d}'
}

/// Whether a character is a decimal digit.
pub open spec fn is_figure(ch: char) -> bool {
    '0' <= ch && ch <= '9'
}

/// Whether a word can start with a character: an ASCII letter, an underscore, or anything beyond
/// ASCII.
pub open spec fn opens_word(ch: char) -> bool {
    ('a' <= ch && ch <= 'z') || ('A' <= ch && ch <= 'Z') || ch == '_' || '\u{80}' <= ch
}

/// Whether a word can go on with a character: one that it can start with, a digit, or a dollar
/// sign.
pub open spec fn goes_on_word(ch: char) -> bool {
    opens_word(ch) || is_figure(ch) || ch == '$'
}

/// Whether a text is a word.
pub open spec fn is_word(text: Seq<char>) -> bool {
    text.len() > 0 && opens_word(text[0]) && forall|i: int|
        0 <= i < text.len() ==> goes_on_word(#[trigger] text[i])
}

/// Whether a text is a row of digits.
pub open spec fn is_row_of_figures(text: Seq<char>) -> bool {
    text.len() > 0 && forall|i: int| 0 <= i < text.len() ==> is_figure(#[trigger] text[i])
}

/// Whether a character is one of the signs of the grammar.
pub open spec fn is_sign_char(ch: char) -> bool {
    ch == '(' || ch == ')' || ch == ',' || ch == '.' || ch == '=' || ch == ';'
}

/// Pieces with one before them.
pub open spec fn behind_piece(piece: TokenView, rest: Option<Seq<TokenView>>) -> Option<
    Seq<TokenView>,
> {
    match rest {
        Some(pieces) => Some(seq![piece] + pieces),
        None => None,
    }
}

proof fn lemma_word_end_shift(front: Seq<char>, rest: Seq<char>, at: int)
    requires
        0 <= at <= rest.len(),
    ensures
        word_end(front + rest, front.len() + at) == front.len() + word_end(rest, at),
    decreases rest.len() - at,
{
    if at < rest.len() {
        assert((front + rest)[front.len() + at] == rest[at]);
        if in_word(rest[at]) {
            lemma_word_end_shift(front, rest, at + 1);
        }
    }
}

proof fn lemma_number_end_shift(front: Seq<char>, rest: Seq<char>, at: int)
    requires
        0 <= at <= rest.len(),
    ensures
        number_end(front + rest, front.len() + at) == front.len() + number_end(rest, at),
    decreases rest.len() - at,
{
    if at < rest.len() {
        assert((front + rest)[front.len() + at] == rest[at]);
        if is_digit(rest[at]) {
            lemma_number_end_shift(front, rest, at + 1);
        }
    }
}

proof fn lemma_quote_end_shift(front: Seq<char>, rest: Seq<char>, quote: char, at: int)
    requires
        0 <= at,
    ensures
        quote_end(front + rest, quote, front.len() + at) == match quote_end(rest, quote, at) {
            Some(end) => Some(front.len() + end),
            None => None,
        },
    decreases rest.len() - at,
{
    if at < rest.len() {
        assert((front + rest)[front.len() + at] == rest[at]);
        if rest[at] != quote {
            lemma_quote_end_shift(front, rest, quote, at + 1);
        } else if at + 1 < rest.len() {
            assert((front + rest)[front.len() + at + 1] == rest[at + 1]);
            if rest[at + 1] == quote {
                lemma_quote_end_shift(front, rest, quote, at + 2);
            }
        }
    }
}

proof fn lemma_token_shift(front: Seq<char>, rest: Seq<char>, at: int)
    requires
        0 <= at < rest.len(),
    ensures
        token_at(front + rest, front.len() + at) == match token_at(rest, at) {
            Some((token, end)) => Some((token, front.len() + end)),
            None => None,
        },
{
    let all = front + rest;
    let start = front.len() + at;
    assert(all[start] == rest[at]);
    lemma_token_at(rest, at);
    lemma_token_at(all, start);
    lemma_word_end_shift(front, rest, at + 1);
    lemma_number_end_shift(front, rest, at + 1);
    lemma_quote_end_shift(front, rest, '"', at + 1);
    lemma_quote_end_shift(front, rest, '\'', at + 1);
    if let Some((token, end)) = token_at(rest, at) {
        assert(all.subrange(start, front.len() + end) =~= rest.subrange(at, end));
    }
}

proof fn lemma_tokens_shift(front: Seq<char>, rest: Seq<char>, at: int)
    requires
        0 <= at <= rest.len(),
    ensures
        tokens_from(front + rest, front.len() + at) == tokens_from(rest, at),
    decreases rest.len() - at,
{
    if at < rest.len() {
        assert((front + rest)[front.len() + at] == rest[at]);
        lemma_token_shift(front, rest, at);
        lemma_token_at(rest, at);
        if crate::sql::lexer::is_space(rest[at]) {
            lemma_tokens_shift(front, rest, at + 1);
        } else if let Some((token, end)) = token_at(rest, at) {
            lemma_tokens_shift(front, rest, end);
        }
    }
}

/// A piece at the start of a text, and then the pieces of what stands behind it.
proof fn lemma_first_piece(text: Seq<char>, piece: TokenView, front: Seq<char>, rest: Seq<char>)
    requires
        text == front + rest,
        front.len() > 0,
        !is_blank(text[0]),
        token_at(text, 0) == Some((piece, front.len() as int)),
    ensures
        tokens_from(text, 0) == behind_piece(piece, tokens_from(rest, 0)),
{
    lemma_tokens_shift(front, rest, 0);
}

/// White space between pieces counts for nothing, and no text has no pieces.
pub proof fn law_white_space_counts_for_nothing(blank: char, rest: Seq<char>)
    requires
        is_blank(blank),
    ensures
        tokens_from(seq![blank] + rest, 0) == tokens_from(rest, 0),
        tokens_from(seq![], 0) == Some(Seq::<TokenView>::empty()),
{
    lemma_tokens_shift(seq![blank], rest, 0);
    assert((seq![blank] + rest)[0] == blank);
}

/// A sign is a piece of its own, whatever stands behind it.
pub proof fn law_sign_is_a_piece(sign: char, rest: Seq<char>)
    requires
        is_sign_char(sign),
    ensures
        tokens_from(seq![sign] + rest, 0) == behind_piece(
            TokenView::Sign(sign),
            tokens_from(rest, 0),
        ),
{
    let text = seq![sign] + rest;
    assert(text[0] == sign);
    lemma_first_piece(text, TokenView::Sign(sign), seq![sign], rest);
}

proof fn lemma_word_ends(text: Seq<char>, at: int, end: int)
    requires
        0 <= at <= end <= text.len(),
        forall|i: int| at <= i < end ==> goes_on_word(#[trigger] text[i]),
        end < text.len() ==> !goes_on_word(text[end]),
    ensures
        word_end(text, at) == end,
    decreases end - at,
{
    if at < end {
        assert(goes_on_word(text[at]));
        lemma_word_ends(text, at + 1, end);
    }
}

proof fn lemma_number_ends(text: Seq<char>, at: int, end: int)
    requires
        0 <= at <= end <= text.len(),
        forall|i: int| at <= i < end ==> is_figure(#[trigger] text[i]),
        end < text.len() ==> !is_figure(text[end]),
    ensures
        number_end(text, at) == end,
    decreases end - at,
{
    if at < end {
        assert(is_figure(text[at]));
        lemma_number_ends(text, at + 1, end);
    }
}

/// A word is a piece up to the first character that it cannot go on with, and a number up to the
/// first that is no digit.
pub proof fn law_words_and_numbers_are_pieces(text: Seq<char>, rest: Seq<char>)
    ensures
        is_word(text) && (rest.len() == 0 || !goes_on_word(rest[0])) ==> tokens_from(text + rest, 0)
            == behind_piece(TokenView::Word(text), tokens_from(rest, 0)),
        is_row_of_figures(text) && (rest.len() == 0 || !is_figure(rest[0])) ==> tokens_from(
            text + rest,
            0,
        ) == behind_piece(TokenView::Number(text), tokens_from(rest, 0)),
{
    let all = text + rest;
    let end = text.len() as int;
    if is_word(text) && (rest.len() == 0 || !goes_on_word(rest[0])) {
        assert forall|i: int| 0 <= i < end implies goes_on_word(#[trigger] all[i]) by {
            assert(all[i] == text[i]);
        }
        if rest.len() > 0 {
            assert(all[end] == rest[0]);
        }
        lemma_word_ends(all, 1, end);
        assert(all.subrange(0, end) =~= text);
        lemma_first_piece(all, TokenView::Word(text), text, rest);
    }
    if is_row_of_figures(text) && (rest.len() == 0 || !is_figure(rest[0])) {
        assert forall|i: int| 0 <= i < end implies is_figure(#[trigger] all[i]) by {
            assert(all[i] == text[i]);
        }
        if rest.len() > 0 {
            assert(all[end] == rest[0]);
        }
        assert(is_figure(all[0]));
        lemma_number_ends(all, 1, end);
        assert(all.subrange(0, end) =~= text);
        lemma_first_piece(all, TokenView::Number(text), text, rest);
    }
}

proof fn lemma_quotes_end(text: Seq<char>, quote: char, at: int, said: Seq<char>)
    requires
        0 <= at,
        at + doubled(said, quote).len() < text.len(),
        text.subrange(at, at + doubled(said, quote).len()) == doubled(said, quote),
        text[at + doubled(said, quote).len()] == quote,
        at + doubled(said, quote).len() + 1 < text.len() ==> text[at + doubled(said, quote).len()
            + 1] != quote,
    ensures
        quote_end(text, quote, at) == Some(at + doubled(said, quote).len() + 1),
    decreases said.len(),
{
    let inner = doubled(said, quote);
    if said.len() > 0 {
        let rest = said.skip(1);
        let step: int = if said[0] == quote {
            2
        } else {
            1
        };
        assert(inner.skip(step) =~= doubled(rest, quote));
        assert(text.subrange(at, at + inner.len()).skip(step) =~= text.subrange(
            at + step,
            at + inner.len(),
        ));
        assert(text[at] == text.subrange(at, at + inner.len())[0]);
        if said[0] == quote {
            assert(text[at + 1] == text.subrange(at, at + inner.len())[1]);
        }
        lemma_quotes_end(text, quote, at + step, rest);
    }
}

/// What stands in double quotes is a name, and what stands in single quotes a text, each with its
/// quotes one piece, whatever it holds: a quote in it is doubled. The piece ends at the first quote
/// that is not.
pub proof fn law_quoted_names_and_texts_are_pieces(said: Seq<char>, rest: Seq<char>)
    ensures
        rest.len() == 0 || rest[0] != '"' ==> tokens_from(in_quotes(said, '"') + rest, 0)
            == behind_piece(TokenView::Quoted(in_quotes(said, '"')), tokens_from(rest, 0)),
        rest.len() == 0 || rest[0] != '\'' ==> tokens_from(in_quotes(said, '\'') + rest, 0)
            == behind_piece(TokenView::Text(in_quotes(said, '\'')), tokens_from(rest, 0)),
{
    if rest.len() == 0 || rest[0] != '"' {
        let front = in_quotes(said, '"');
        let all = front + rest;
        let inner = doubled(said, '"');
        assert(all.subrange(1, 1 + inner.len() as int) =~= inner);
        if rest.len() > 0 {
            assert(all[front.len() as int] == rest[0]);
        }
        lemma_quotes_end(all, '"', 1, said);
        assert(all.subrange(0, front.len() as int) =~= front);
        lemma_first_piece(all, TokenView::Quoted(front), front, rest);
    }
    if rest.len() == 0 || rest[0] != '\'' {
        let front = in_quotes(said, '\'');
        let all = front + rest;
        let inner = doubled(said, '\'');
        assert(all.subrange(1, 1 + inner.len() as int) =~= inner);
        if rest.len() > 0 {
            assert(all[front.len() as int] == rest[0]);
        }
        lemma_quotes_end(all, '\'', 1, said);
        assert(all.subrange(0, front.len() as int) =~= front);
        lemma_first_piece(all, TokenView::Text(front), front, rest);
    }
}

/// Quotes that nothing closes are no piece, and neither is any other character.
pub proof fn law_nothing_else_is_a_piece(ch: char, said: Seq<char>, rest: Seq<char>)
    requires
        !is_blank(ch),
        !opens_word(ch),
        !is_figure(ch),
        !is_sign_char(ch),
        ch != '"',
        ch != '\'',
    ensures
        tokens_from(seq![ch] + rest, 0) is None,
        tokens_from(seq!['"'] + doubled(said, '"'), 0) is None,
        tokens_from(seq!['\''] + doubled(said, '\''), 0) is None,
{
    assert((seq![ch] + rest)[0] == ch);
    lemma_open_quotes(said, '"');
    lemma_open_quotes(said, '\'');
}

proof fn lemma_open_quotes(said: Seq<char>, quote: char)
    ensures
        quote_end(seq![quote] + doubled(said, quote), quote, 1) is None,
{
    lemma_quote_end_shift(seq![quote], doubled(said, quote), quote, 0);
    lemma_never_closed(said, quote);
}

proof fn lemma_never_closed(said: Seq<char>, quote: char)
    ensures
        quote_end(doubled(said, quote), quote, 0) is None,
    decreases said.len(),
{
    if said.len() > 0 {
        let rest = said.skip(1);
        lemma_never_closed(rest, quote);
        if said[0] == quote {
            assert(doubled(said, quote) =~= seq![quote, quote] + doubled(rest, quote));
            lemma_quote_end_shift(seq![quote, quote], doubled(rest, quote), quote, 0);
        } else {
            assert(doubled(said, quote) =~= seq![said[0]] + doubled(rest, quote));
            lemma_quote_end_shift(seq![said[0]], doubled(rest, quote), quote, 0);
        }
    }
}

proof fn lemma_space_ends(text: Seq<char>, at: int, end: int)
    requires
        0 <= at <= end <= text.len(),
        forall|i: int| at <= i < end ==> is_blank(#[trigger] text[i]),
        end < text.len() ==> !is_blank(text[end]),
    ensures
        space_end(text, at) == end,
    decreases end - at,
{
    if at < end {
        assert(is_blank(text[at]));
        lemma_space_ends(text, at + 1, end);
    }
}

/// A command is a COPY where its first word, behind any white space, is COPY in upper or lower
/// case, and not where it is any other.
pub proof fn law_first_word_tells_a_copy(blanks: Seq<char>, word: Seq<char>, rest: Seq<char>)
    requires
        forall|i: int| 0 <= i < blanks.len() ==> is_blank(#[trigger] blanks[i]),
        is_word(word),
        rest.len() == 0 || !goes_on_word(rest[0]),
    ensures
        starts_with_copy(blanks + word + rest) <==> lower(word) == "copy"@,
{
    let text = blanks + word + rest;
    let start = blanks.len() as int;
    let end = start + word.len();
    assert forall|i: int| 0 <= i < start implies is_blank(#[trigger] text[i]) by {
        assert(text[i] == blanks[i]);
    }
    assert(text[start] == word[0]);
    lemma_space_ends(text, 0, start);
    assert forall|i: int| start < i < end implies goes_on_word(#[trigger] text[i]) by {
        assert(text[i] == word[i - start]);
    }
    if rest.len() > 0 {
        assert(text[end] == rest[0]);
    }
    lemma_word_ends(text, start + 1, end);
    assert(text.subrange(start, end) =~= word);
}

}
