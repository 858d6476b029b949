//! Cuts a command into its words, names, texts, numbers and signs.
use crate::text::{chars_of, string_of};
use vstd::prelude::*;

verus! {

/// A piece of a command, as it is written.
#[derive(Clone, Debug, PartialEq, Eq)]
pub enum Token {
    /// A keyword, or a name without quotes.
    Word(String),
    /// A name in double quotes.
    Quoted(String),
    /// A text in single quotes.
    Text(String),
    /// A row of decimal digits.
    Number(String),
    /// One of the signs of the grammar.
    Sign(char),
}

/// A piece of a command as a sequence of characters.
pub enum TokenView {
    Word(Seq<char>),
    Quoted(Seq<char>),
    Text(Seq<char>),
    Number(Seq<char>),
    Sign(char),
}

impl View for Token {
    type V = TokenView;

    open spec fn view(&self) -> TokenView {
        match *self {
            Token::Word(text) => TokenView::Word(text@),
            Token::Quoted(text) => TokenView::Quoted(text@),
            Token::Text(text) => TokenView::Text(text@),
            Token::Number(text) => TokenView::Number(text@),
            Token::Sign(sign) => TokenView::Sign(sign),
        }
    }
}

/// The pieces of a command.
pub open spec fn token_views(tokens: Seq<Token>) -> Seq<TokenView> {
    tokens.map_values(|token: Token| token@)
}

pub open spec fn is_space(ch: char) -> bool {
    ch == ' ' || ch == '\t' || ch == '\n' || ch == '\r'
}

pub open spec fn is_digit(ch: char) -> bool {
    '0' <= ch && ch <= '9'
}

/// Whether a word can start with a character: a letter, an underscore, or anything beyond ASCII.
pub open spec fn starts_word(ch: char) -> bool {
    ('a' <= ch && ch <= 'z') || ('A' <= ch && ch <= 'Z') || ch == '_' || ch >= '\u{80}'
}

pub open spec fn in_word(ch: char) -> bool {
    starts_word(ch) || is_digit(ch) || ch == '$'
}

pub open spec fn is_sign(ch: char) -> bool {
    ch == '(' || ch == ')' || ch == ',' || ch == '.' || ch == '=' || ch == ';'
}

/// Where the word ends that goes on at `at`.
pub open spec fn word_end(text: Seq<char>, at: int) -> int
    decreases text.len() - at,
{
    if 0 <= at < text.len() && in_word(text[at]) {
        word_end(text, at + 1)
    } else {
        at
    }
}

/// Where the number ends that goes on at `at`.
pub open spec fn number_end(text: Seq<char>, at: int) -> int
    decreases text.len() - at,
{
    if 0 <= at < text.len() && is_digit(text[at]) {
        number_end(text, at + 1)
    } else {
        at
    }
}

/// Where what stands in quotes ends, its last quote included, if it goes on at `at`. A doubled
/// quote does not end it.
pub open spec fn quote_end(text: Seq<char>, quote: char, at: int) -> Option<int>
    decreases text.len() - at,
{
    if at < 0 || at >= text.len() {
        None
    } else if text[at] != quote {
        quote_end(text, quote, at + 1)
    } else if at + 1 < text.len() && text[at + 1] == quote {
        quote_end(text, quote, at + 2)
    } else {
        Some(at + 1)
    }
}

/// The piece that starts at `at`, and where it ends.
pub open spec fn token_at(text: Seq<char>, at: int) -> Option<(TokenView, int)> {
    let ch = text[at];
    if starts_word(ch) {
        let end = word_end(text, at + 1);
        Some((TokenView::Word(text.subrange(at, end)), end))
    } else if is_digit(ch) {
        let end = number_end(text, at + 1);
        Some((TokenView::Number(text.subrange(at, end)), end))
    } else if ch == '"' {
        match quote_end(text, '"', at + 1) {
            Some(end) => Some((TokenView::Quoted(text.subrange(at, end)), end)),
            None => None,
        }
    } else if ch == '\'' {
        match quote_end(text, '\'', at + 1) {
            Some(end) => Some((TokenView::Text(text.subrange(at, end)), end)),
            None => None,
        }
    } else if is_sign(ch) {
        Some((TokenView::Sign(ch), at + 1))
    } else {
        None
    }
}

proof fn lemma_word_end(text: Seq<char>, at: int)
    requires
        0 <= at <= text.len(),
    ensures
        at <= word_end(text, at) <= text.len(),
    decreases text.len() - at,
{
    if at < text.len() && in_word(text[at]) {
        lemma_word_end(text, at + 1);
    }
}

proof fn lemma_number_end(text: Seq<char>, at: int)
    requires
        0 <= at <= text.len(),
    ensures
        at <= number_end(text, at) <= text.len(),
    decreases text.len() - at,
{
    if at < text.len() && is_digit(text[at]) {
        lemma_number_end(text, at + 1);
    }
}

proof fn lemma_quote_end(text: Seq<char>, quote: char, at: int)
    requires
        0 <= at,
    ensures
        quote_end(text, quote, at) matches Some(end) ==> at < end <= text.len() && text[end - 1]
            == quote,
    decreases text.len() - at,
{
    if at < text.len() {
        if text[at] != quote {
            lemma_quote_end(text, quote, at + 1);
        } else if at + 1 < text.len() && text[at + 1] == quote {
            lemma_quote_end(text, quote, at + 2);
        }
    }
}

/// Whether a text stands in single quotes.
pub open spec fn in_single_quotes(raw: Seq<char>) -> bool {
    raw.len() >= 2 && raw[0] == '\'' && raw.last() == '\''
}

/// A piece is not empty, and ends within the text; a text stands in single quotes.
pub proof fn lemma_token_at(text: Seq<char>, at: int)
    requires
        0 <= at < text.len(),
    ensures
        token_at(text, at) matches Some((token, end)) ==> at < end <= text.len() && (
        token matches TokenView::Text(raw) ==> in_single_quotes(raw)),
{
    lemma_word_end(text, at + 1);
    lemma_number_end(text, at + 1);
    lemma_quote_end(text, '"', at + 1);
    lemma_quote_end(text, '\'', at + 1);
}

/// The pieces of a text from `at` on, with nothing but white space between them.
pub open spec fn tokens_from(text: Seq<char>, at: int) -> Option<Seq<TokenView>>
    decreases text.len() - at,
{
    if at < 0 || at >= text.len() {
        Some(seq![])
    } else if is_space(text[at]) {
        tokens_from(text, at + 1)
    } else {
        match token_at(text, at) {
            None => None,
            Some((token, end)) => {
                proof {
                    lemma_token_at(text, at);
                }
                match tokens_from(text, end) {
                    None => None,
                    Some(rest) => Some(seq![token] + rest),
                }
            },
        }
    }
}

/// Whether each text among the pieces stands in single quotes.
pub open spec fn all_quoted(tokens: Seq<TokenView>) -> bool {
    forall|i: int|
        0 <= i < tokens.len() ==> (#[trigger] tokens[i] matches TokenView::Text(raw)
            ==> in_single_quotes(raw))
}

/// Each text among the pieces of a command stands in single quotes.
pub proof fn lemma_tokens_quoted(text: Seq<char>, at: int)
    ensures
        tokens_from(text, at) matches Some(tokens) ==> all_quoted(tokens),
    decreases text.len() - at,
{
    if 0 <= at < text.len() {
        if is_space(text[at]) {
            lemma_tokens_quoted(text, at + 1);
        } else if let Some((token, end)) = token_at(text, at) {
            lemma_token_at(text, at);
            lemma_tokens_quoted(text, end);
        }
    }
}

pub(crate) fn char_is_space(ch: char) -> (result: bool)
    ensures
        result == is_space(ch),
{
    ch == ' ' || ch == '\t' || ch == '\n' || ch == '\r'
}

pub(crate) fn char_is_digit(ch: char) -> (result: bool)
    ensures
        result == is_digit(ch),
{
    '0' <= ch && ch <= '9'
}

pub(crate) fn char_starts_word(ch: char) -> (result: bool)
    ensures
        result == starts_word(ch),
{
    ('a' <= ch && ch <= 'z') || ('A' <= ch && ch <= 'Z') || ch == '_' || ch >= '\u{80}'
}

pub(crate) fn find_word_end(chars: &Vec<char>, at: usize) -> (end: usize)
    requires
        at <= chars@.len(),
    ensures
        end == word_end(chars@, at as int),
        at <= end <= chars@.len(),
{
    let mut end: usize = at;
    while end < chars.len() && (char_starts_word(chars[end]) || char_is_digit(chars[end])
        || chars[end] == '$')
        invariant
            at <= end <= chars@.len(),
            word_end(chars@, at as int) == word_end(chars@, end as int),
        decreases chars@.len() - end,
    {
        end += 1;
    }
    end
}

fn find_number_end(chars: &Vec<char>, at: usize) -> (end: usize)
    requires
        at <= chars@.len(),
    ensures
        end == number_end(chars@, at as int),
        at <= end <= chars@.len(),
{
    let mut end: usize = at;
    while end < chars.len() && char_is_digit(chars[end])
        invariant
            at <= end <= chars@.len(),
            number_end(chars@, at as int) == number_end(chars@, end as int),
        decreases chars@.len() - end,
    {
        end += 1;
    }
    end
}

fn find_quote_end(chars: &Vec<char>, quote: char, at: usize) -> (result: Option<usize>)
    requires
        at <= chars@.len(),
    ensures
        match quote_end(chars@, quote, at as int) {
            Some(end) => result matches Some(found) && found == end && at < end <= chars@.len(),
            None => result is None,
        },
{
    let mut end: usize = at;
    while end < chars.len()
        invariant
            at <= end <= chars@.len(),
            quote_end(chars@, quote, at as int) == quote_end(chars@, quote, end as int),
        decreases chars@.len() - end,
    {
        if chars[end] != quote {
            end += 1;
        } else if end + 1 < chars.len() && chars[end + 1] == quote {
            end += 2;
        } else {
            return Some(end + 1);
        }
    }
    None
}

/// Cuts a command into its pieces, or finds that something in it is not one.
pub fn tokenize(query: &str) -> (result: Option<Vec<Token>>)
    ensures
        match tokens_from(query@, 0) {
            Some(tokens) => result matches Some(found) && token_views(found@) == tokens,
            None => result is None,
        },
{
    let chars = chars_of(query);
    let mut tokens: Vec<Token> = Vec::new();
    let mut at: usize = 0;
    assert(token_views(tokens@) =~= seq![]);
    proof {
        if let Some(rest) = tokens_from(chars@, 0) {
            assert(seq![] + rest =~= rest);
        }
    }
    while at < chars.len()
        invariant
            chars@ == query@,
            at <= chars@.len(),
            match tokens_from(chars@, at as int) {
                Some(rest) => tokens_from(chars@, 0) == Some(token_views(tokens@) + rest),
                None => tokens_from(chars@, 0) is None,
            },
        decreases chars@.len() - at,
    {
        let ch = chars[at];
        if char_is_space(ch) {
            at += 1;
            continue ;
        }
        let ghost before = token_views(tokens@);
        let ghost start = at as int;
        let token: Token;
        if char_starts_word(ch) {
            let end = find_word_end(&chars, at + 1);
            token = Token::Word(string_of(&chars, at, end));
            at = end;
        } else if char_is_digit(ch) {
            let end = find_number_end(&chars, at + 1);
            token = Token::Number(string_of(&chars, at, end));
            at = end;
        } else if ch == '"' {
            match find_quote_end(&chars, '"', at + 1) {
                Some(end) => {
                    token = Token::Quoted(string_of(&chars, at, end));
                    at = end;
                },
                None => return None,
            }
        } else if ch == '\'' {
            match find_quote_end(&chars, '\'', at + 1) {
                Some(end) => {
                    token = Token::Text(string_of(&chars, at, end));
                    at = end;
                },
                None => return None,
            }
        } else if ch == '(' || ch == ')' || ch == ',' || ch == '.' || ch == '=' || ch == ';' {
            token = Token::Sign(ch);
            at = at + 1;
        } else {
            return None;
        }
        proof {
            assert(token_at(chars@, start) == Some((token@, at as int)));
        }
        tokens.push(token);
        proof {
            assert(token_views(tokens@) =~= before.push(tokens@.last()@));
            if let Some(rest) = tokens_from(chars@, at as int) {
                assert(before + (seq![tokens@.last()@] + rest) =~= token_views(tokens@) + rest);
            }
        }
    }
    proof {
        assert(token_views(tokens@) + Seq::<TokenView>::empty() =~= token_views(tokens@));
    }
    Some(tokens)
}

}
