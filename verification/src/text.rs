//! Text: the strings of the `smol_str` crate, comparison, lower case and decimal numbers.
use smol_str::SmolStr;
use vstd::prelude::*;

verus! {

/// Declares `smol_str::SmolStr`.
#[verifier::external_type_specification]
#[verifier::external_body]
pub struct ExSmolStr(smol_str::SmolStr);

/// The characters that a `SmolStr` holds, from the first to the last.
pub uninterp spec fn smol_text(text: SmolStr) -> Seq<char>;

/// `SmolStr::as_str` lends the characters that the string holds.
pub assume_specification[ SmolStr::as_str ](text: &SmolStr) -> (chars: &str)
    ensures
        chars@ == smol_text(*text),
;

/// `SmolStr::clone` gives a string of the same characters.
pub assume_specification[ <SmolStr as Clone>::clone ](text: &SmolStr) -> (copy: SmolStr)
    ensures
        smol_text(copy) == smol_text(*text),
;

/// `SmolStr::new` gives a string of the characters that it is handed.
#[verifier::external_body]
pub(crate) fn smol(text: &str) -> (result: SmolStr)
    ensures
        smol_text(result) == text@,
{
    SmolStr::new(text)
}

/// `String::push` appends one character.
pub assume_specification[ String::push ](text: &mut String, ch: char)
    ensures
        final(text)@ == old(text)@.push(ch),
;

/// The characters of an optional string.
pub open spec fn optional_text(text: Option<SmolStr>) -> Option<Seq<char>> {
    match text {
        Some(text) => Some(smol_text(text)),
        None => None,
    }
}

/// The characters of each string of a list.
pub open spec fn texts(list: Seq<SmolStr>) -> Seq<Seq<char>> {
    list.map_values(|text: SmolStr| smol_text(text))
}

/// Whether two strings hold the same characters.
pub fn same_text(left: &str, right: &str) -> (same: bool)
    ensures
        same == (left@ == right@),
{
    left.to_owned() == right.to_owned()
}

/// The characters of a string, one by one.
pub fn chars_of(text: &str) -> (chars: Vec<char>)
    ensures
        chars@ == text@,
{
    let mut chars: Vec<char> = Vec::new();
    for ch in it: text.chars()
        invariant
            it.seq() == text@,
            chars@ == text@.take(it.index() as int),
    {
        chars.push(ch);
    }
    chars
}

/// A string of the characters `chars[from..to]`.
pub fn string_of(chars: &Vec<char>, from: usize, to: usize) -> (text: String)
    requires
        from <= to <= chars@.len(),
    ensures
        text@ == chars@.subrange(from as int, to as int),
{
    let mut text = String::new();
    let mut idx: usize = from;
    while idx < to
        invariant
            from <= idx <= to <= chars@.len(),
            text@ == chars@.subrange(from as int, idx as int),
        decreases to - idx,
    {
        text.push(chars[idx]);
        idx += 1;
        assert(chars@.subrange(from as int, idx as int) =~= chars@.subrange(
            from as int,
            idx - 1,
        ).push(chars@[idx - 1]));
    }
    text
}

/// The lower case form of an ASCII letter; every other character stands for itself.
pub open spec fn lower_char(ch: char) -> char {
    if 'A' <= ch && ch <= 'Z' {
        ((ch as u8) + 0x20) as char
    } else {
        ch
    }
}

/// A text with its ASCII letters in lower case.
pub open spec fn lower(text: Seq<char>) -> Seq<char> {
    text.map_values(|ch: char| lower_char(ch))
}

/// Turns the ASCII letters of a text into lower case.
pub fn to_lower(text: &str) -> (result: String)
    ensures
        result@ == lower(text@),
{
    let chars = chars_of(text);
    let mut result = String::new();
    let mut idx: usize = 0;
    while idx < chars.len()
        invariant
            idx <= chars@.len(),
            chars@ == text@,
            result@ == lower(text@.take(idx as int)),
        decreases chars@.len() - idx,
    {
        let ch = chars[idx];
        if 'A' <= ch && ch <= 'Z' {
            result.push(((ch as u8) + 0x20) as char);
        } else {
            result.push(ch);
        }
        idx += 1;
        assert(lower(text@.take(idx as int)) =~= lower(text@.take(idx - 1)).push(
            lower_char(text@[idx - 1]),
        ));
    }
    assert(text@.take(idx as int) =~= text@);
    result
}

/// The decimal digit of a number below ten.
pub open spec fn digit(value: nat) -> char {
    ((0x30 + value) as u8) as char
}

/// A number in decimal, without leading zeros.
pub open spec fn decimal(value: nat) -> Seq<char>
    decreases value,
{
    if value < 10 {
        seq![digit(value)]
    } else {
        decimal(value / 10).push(digit(value % 10))
    }
}

/// Writes a number in decimal.
pub fn decimal_text(value: u64) -> (text: String)
    ensures
        text@ == decimal(value as nat),
    decreases value,
{
    if value < 10 {
        let mut text = String::new();
        text.push((0x30u8 + value as u8) as char);
        assert(text@ =~= seq![digit(value as nat)]);
        text
    } else {
        let mut text = decimal_text(value / 10);
        text.push((0x30u8 + (value % 10) as u8) as char);
        text
    }
}

/// Three texts, one behind the other.
pub fn concat3(first: &str, second: &str, third: &str) -> (text: String)
    ensures
        text@ == first@ + second@ + third@,
{
    let mut text = first.to_owned();
    text.append(second);
    text.append(third);
    text
}

}
