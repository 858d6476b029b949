//! Names and quoted texts in SQL.
use crate::ascii::{DOT, DOUBLE_QUOTE};
use crate::text::{chars_of, lower, optional_text, smol, smol_text, to_lower};
use smol_str::SmolStr;
use vstd::prelude::*;
use vstd::string::StringSliceAdditionalSpecFns;
use vstd::utf8::{
    encode_scalar, encode_utf8, encode_utf8_decode_utf8, encode_utf8_valid_utf8, is_char_boundary,
    is_char_boundary_iff_not_is_continuation_byte, is_char_boundary_start_end_of_seq, valid_utf8,
};

verus! {

/// A text with each two quotes that stand side by side made one.
pub open spec fn undoubled(text: Seq<char>, quote: char) -> Seq<char>
    decreases text.len(),
{
    if text.len() == 0 {
        seq![]
    } else if text.len() >= 2 && text[0] == quote && text[1] == quote {
        seq![quote] + undoubled(text.skip(2), quote)
    } else {
        seq![text[0]] + undoubled(text.skip(1), quote)
    }
}

/// Makes each two quotes of `chars[from..to]` that stand side by side one.
fn undouble(chars: &Vec<char>, from: usize, to: usize, quote: char) -> (text: String)
    requires
        from <= to <= chars@.len(),
    ensures
        text@ == undoubled(chars@.subrange(from as int, to as int), quote),
{
    let mut text = String::new();
    let mut idx: usize = from;
    let ghost whole = chars@.subrange(from as int, to as int);
    assert(whole.skip(0) =~= whole);
    assert(Seq::<char>::empty() + undoubled(whole, quote) =~= undoubled(whole, quote));
    while idx < to
        invariant
            from <= idx <= to <= chars@.len(),
            whole == chars@.subrange(from as int, to as int),
            undoubled(whole, quote) == text@ + undoubled(whole.skip(idx - from), quote),
        decreases to - idx,
    {
        let ghost tail = whole.skip(idx - from);
        let ghost before = text@;
        let ch = chars[idx];
        text.push(ch);
        if idx + 1 < to && ch == quote && chars[idx + 1] == quote {
            assert(tail.skip(2) =~= whole.skip(idx + 2 - from));
            idx += 2;
        } else {
            assert(tail.skip(1) =~= whole.skip(idx + 1 - from));
            idx += 1;
        }
        let ghost rest = undoubled(whole.skip(idx - from), quote);
        assert(before + (seq![ch] + rest) =~= text@ + rest);
    }
    assert(whole.skip(to - from) =~= seq![]);
    assert(text@ + Seq::<char>::empty() =~= text@);
    text
}

/// What a single-quoted text says: what stands between its quotes, with each doubled quote made
/// one.
pub fn unquote_single_quoted(raw: &str) -> (text: String)
    requires
        raw@.len() >= 2,
        raw@[0] <= '\u{7f}',
        raw@.last() <= '\u{7f}',
    ensures
        text@ == undoubled(raw@.subrange(1, raw@.len() - 1), '\''),
{
    let chars = chars_of(raw);
    undouble(&chars, 1, chars.len() - 1, '\'')
}

/// A name as the database knows it: what stands between the quotes of a quoted name, with each
/// doubled quote made one; any other name in lower case.
pub open spec fn normalized(name: Seq<char>) -> Seq<char> {
    if name.len() >= 2 && name[0] == '"' && name.last() == '"' {
        undoubled(name.subrange(1, name.len() - 1), '"')
    } else {
        lower(name)
    }
}

/// Turns a name of a command into the name that the database knows.
pub fn normalize_name_from_sql(name: &str) -> (normal: SmolStr)
    ensures
        smol_text(normal) == normalized(name@),
{
    let chars = chars_of(name);
    if chars.len() >= 2 && chars[0] == '"' && chars[chars.len() - 1] == '"' {
        let text = undouble(&chars, 1, chars.len() - 1, '"');
        smol(text.as_str())
    } else {
        let text = to_lower(name);
        smol(text.as_str())
    }
}

/// How many double quotes stand before the byte at `at`.
pub open spec fn quotes_before(name: Seq<u8>, at: int) -> nat
    decreases at,
{
    if at <= 0 {
        0
    } else if name[at - 1] == DOUBLE_QUOTE {
        quotes_before(name, at - 1) + 1
    } else {
        quotes_before(name, at - 1)
    }
}

/// Whether a dot at `at` stands outside of quotes: every quote before it is closed.
pub open spec fn is_top_level_dot(name: Seq<u8>, at: int) -> bool {
    name[at] == DOT && quotes_before(name, at) % 2 == 0
}

/// Finds the first dot outside of quotes.
pub fn split_top_level_dot(name: &str) -> (dot: Option<usize>)
    ensures
        match dot {
            Some(at) => {
                &&& at < encode_utf8(name@).len()
                &&& is_top_level_dot(encode_utf8(name@), at as int)
                &&& forall|i: int| 0 <= i < at ==> !is_top_level_dot(encode_utf8(name@), i)
            },
            None => forall|i: int|
                0 <= i < encode_utf8(name@).len() ==> !is_top_level_dot(encode_utf8(name@), i),
        },
{
    let bytes = name.as_bytes();
    let mut idx: usize = 0;
    let mut in_quotes = false;
    while idx < bytes.len()
        invariant
            bytes@ == encode_utf8(name@),
            idx <= bytes@.len(),
            in_quotes == (quotes_before(bytes@, idx as int) % 2 == 1),
            forall|i: int| 0 <= i < idx ==> !is_top_level_dot(bytes@, i),
        decreases bytes@.len() - idx,
    {
        let byte = bytes[idx];
        if byte == DOUBLE_QUOTE {
            if in_quotes && idx + 1 < bytes.len() && bytes[idx + 1] == DOUBLE_QUOTE {
                assert(quotes_before(bytes@, idx + 1) == quotes_before(bytes@, idx as int) + 1);
                assert(quotes_before(bytes@, idx + 2) == quotes_before(bytes@, idx as int) + 2);
                idx += 2;
                continue ;
            }
            in_quotes = !in_quotes;
        } else if byte == DOT && !in_quotes {
            return Some(idx);
        }
        idx += 1;
    }
    None
}

/// Where the first dot outside of quotes is, if `quoted` says whether the text starts within them.
/// Every double quote opens or closes them.
pub open spec fn top_level_dot(name: Seq<char>, quoted: bool) -> Option<int>
    decreases name.len(),
{
    if name.len() == 0 {
        None
    } else if name[0] == '.' && !quoted {
        Some(0)
    } else {
        match top_level_dot(name.skip(1), quoted != (name[0] == '"')) {
            Some(at) => Some(at + 1),
            None => None,
        }
    }
}

/// The same of the bytes of a text.
spec fn byte_dot(name: Seq<u8>, quoted: bool) -> Option<int>
    decreases name.len(),
{
    if name.len() == 0 {
        None
    } else if name[0] == DOT && !quoted {
        Some(0)
    } else {
        match byte_dot(name.skip(1), quoted != (name[0] == DOUBLE_QUOTE)) {
            Some(at) => Some(at + 1),
            None => None,
        }
    }
}

/// Finding the first dot byte by byte, with the quotes before it counted or toggled, is one.
proof fn lemma_byte_dot(name: Seq<u8>, from: int, dot: Option<int>)
    requires
        0 <= from <= name.len(),
        match dot {
            Some(at) => from <= at < name.len() && is_top_level_dot(name, at) && forall|i: int|
                from <= i < at ==> !is_top_level_dot(name, i),
            None => forall|i: int| from <= i < name.len() ==> !is_top_level_dot(name, i),
        },
    ensures
        byte_dot(name.skip(from), quotes_before(name, from) % 2 == 1) == match dot {
            Some(at) => Some(at - from),
            None => None,
        },
    decreases name.len() - from,
{
    if from < name.len() {
        assert(name.skip(from).skip(1) =~= name.skip(from + 1));
        if !is_top_level_dot(name, from) {
            lemma_byte_dot(name, from + 1, dot);
        }
    }
}

/// The bytes of a character beyond ASCII are no ASCII.
proof fn lemma_scalar_bytes(ch: char)
    ensures
        ch as u32 <= 0x7f ==> encode_scalar(ch as u32) == seq![ch as u8],
        ch as u32 > 0x7f ==> forall|i: int|
            0 <= i < encode_scalar(ch as u32).len() ==> #[trigger] encode_scalar(ch as u32)[i]
                >= 0x80,
        encode_scalar(ch as u32).len() > 0,
        ch as u32 <= 0x7f ==> (ch as u8 == DOT) == (ch == '.') && (ch as u8 == DOUBLE_QUOTE) == (ch
            == '"'),
        ch as u32 > 0x7f ==> ch != '.' && ch != '"',
{
    let v = ch as u32;
    assert(v <= 0x7f ==> (v & 0x7f) as u8 == v as u8) by (bit_vector);
    assert((0xC0u8 | ((v >> 6) & 0x1F) as u8) >= 0x80) by (bit_vector);
    assert((0xE0u8 | ((v >> 12) & 0x0F) as u8) >= 0x80) by (bit_vector);
    assert((0xF0u8 | ((v >> 18) & 0x7) as u8) >= 0x80) by (bit_vector);
    assert((0x80u8 | (v & 0x3F) as u8) >= 0x80) by (bit_vector);
    assert((0x80u8 | ((v >> 6) & 0x3F) as u8) >= 0x80) by (bit_vector);
    assert((0x80u8 | ((v >> 12) & 0x3F) as u8) >= 0x80) by (bit_vector);
}

/// Bytes that are no ASCII are neither dots nor quotes.
proof fn lemma_byte_dot_skips(name: Seq<u8>, len: int, quoted: bool)
    requires
        0 <= len <= name.len(),
        forall|i: int| 0 <= i < len ==> #[trigger] name[i] >= 0x80,
    ensures
        byte_dot(name, quoted) == match byte_dot(name.skip(len), quoted) {
            Some(at) => Some(at + len),
            None => None,
        },
    decreases len,
{
    if len > 0 {
        assert(name.skip(1).skip(len - 1) =~= name.skip(len));
        assert(name[0] >= 0x80);
        assert forall|i: int| 0 <= i < len - 1 implies #[trigger] name.skip(1)[i] >= 0x80 by {
            assert(name[i + 1] >= 0x80);
        }
        lemma_byte_dot_skips(name.skip(1), len - 1, quoted);
    } else {
        assert(name.skip(0) =~= name);
    }
}

/// The first dot of a text and the first dot of its bytes are one.
proof fn lemma_dot_of_bytes(name: Seq<char>, quoted: bool)
    ensures
        byte_dot(encode_utf8(name), quoted) == match top_level_dot(name, quoted) {
            Some(at) => Some(encode_utf8(name.take(at)).len() as int),
            None => None,
        },
        top_level_dot(name, quoted) matches Some(at) ==> {
            &&& 0 <= at < name.len()
            &&& encode_utf8(name) == encode_utf8(name.take(at)) + seq![DOT] + encode_utf8(
                name.skip(at + 1),
            )
        },
    decreases name.len(),
{
    if name.len() > 0 {
        let first = name[0];
        let rest = name.skip(1);
        let bytes = encode_utf8(name);
        let scalar = encode_scalar(first as u32);
        assert(name.drop_first() =~= rest);
        assert(bytes == scalar + encode_utf8(rest));
        assert(bytes.skip(scalar.len() as int) =~= encode_utf8(rest));
        lemma_scalar_bytes(first);
        let after = quoted != (first == '"');
        lemma_dot_of_bytes(rest, after);
        if first as u32 <= 0x7f {
            assert(bytes.skip(1) =~= encode_utf8(rest));
            assert(bytes[0] == first as u8);
        } else {
            assert(after == quoted);
            lemma_byte_dot_skips(bytes, scalar.len() as int, quoted);
        }
        if first == '.' && !quoted {
            assert(name.take(0) =~= seq![]);
            assert(encode_utf8(name.take(0)) =~= seq![]);
            assert(bytes =~= encode_utf8(name.take(0)) + seq![DOT] + encode_utf8(rest));
        } else if let Some(at) = top_level_dot(rest, after) {
            let taken = name.take(at + 1);
            assert(taken.drop_first() =~= rest.take(at));
            assert(encode_utf8(taken) == scalar + encode_utf8(rest.take(at)));
            assert(rest.skip(at + 1) =~= name.skip(at + 2));
            assert(bytes =~= encode_utf8(taken) + seq![DOT] + encode_utf8(name.skip(at + 2)));
        }
    }
}

/// The schema, where one is given, and the table that a name names: they stand before and behind
/// the first dot outside of quotes.
pub open spec fn table_of(raw: Seq<char>) -> (Option<Seq<char>>, Seq<char>) {
    match top_level_dot(raw, false) {
        Some(dot) => (Some(normalized(raw.take(dot))), normalized(raw.skip(dot + 1))),
        None => (None, normalized(raw)),
    }
}

/// A character of one byte ends behind that byte.
proof fn lemma_boundary_behind_ascii(bytes: Seq<u8>)
    requires
        valid_utf8(bytes),
        bytes.len() > 0,
        bytes[0] < 0x80,
    ensures
        is_char_boundary(bytes, 1),
{
    reveal_with_fuel(is_char_boundary, 2);
    vstd::utf8::utf8_byte_ranges_bitwise(bytes[0]);
    is_char_boundary_start_end_of_seq(vstd::utf8::pop_first_scalar(bytes));
}

/// The texts before and behind the first dot of a name, and their bytes.
proof fn lemma_split_at_dot(raw: Seq<char>, dot: int, schema: Seq<char>, table: Seq<char>)
    requires
        0 <= dot < encode_utf8(raw).len(),
        is_top_level_dot(encode_utf8(raw), dot),
        forall|i: int| 0 <= i < dot ==> !is_top_level_dot(encode_utf8(raw), i),
        encode_utf8(schema) == encode_utf8(raw).take(dot),
        encode_utf8(table) == encode_utf8(raw).skip(dot + 1),
    ensures
        top_level_dot(raw, false) matches Some(at) && schema == raw.take(at) && table == raw.skip(
            at + 1,
        ),
{
    let bytes = encode_utf8(raw);
    assert(bytes.skip(0) =~= bytes);
    lemma_dot_of_bytes(raw, false);
    lemma_byte_dot(bytes, 0, Some(dot));
    let at = top_level_dot(raw, false)->0;
    assert(bytes.take(dot) =~= encode_utf8(raw.take(at)));
    assert(bytes.skip(dot + 1) =~= encode_utf8(raw.skip(at + 1)));
    encode_utf8_decode_utf8(schema);
    encode_utf8_decode_utf8(table);
    encode_utf8_decode_utf8(raw.take(at));
    encode_utf8_decode_utf8(raw.skip(at + 1));
}

/// Reads the name of a table, which may stand behind that of its schema.
pub fn parse_table_name(raw: &str) -> (result: (Option<SmolStr>, SmolStr))
    ensures
        optional_text(result.0) == table_of(raw@).0,
        smol_text(result.1) == table_of(raw@).1,
{
    let ghost bytes = encode_utf8(raw@);
    match split_top_level_dot(raw) {
        Some(dot) => {
            proof {
                encode_utf8_valid_utf8(raw@);
                is_char_boundary_iff_not_is_continuation_byte(bytes, dot as int);
            }
            let (schema, dotted) = raw.split_at(dot);
            proof {
                assert(dotted.spec_bytes() =~= bytes.skip(dot as int));
                encode_utf8_valid_utf8(dotted@);
                lemma_boundary_behind_ascii(dotted.spec_bytes());
            }
            let (_, table) = dotted.split_at(1);
            proof {
                assert(schema.spec_bytes() =~= bytes.take(dot as int));
                assert(table.spec_bytes() =~= bytes.skip(dot + 1));
                lemma_split_at_dot(raw@, dot as int, schema@, table@);
            }
            (Some(normalize_name_from_sql(schema)), normalize_name_from_sql(table))
        },
        None => {
            proof {
                assert(bytes.skip(0) =~= bytes);
                lemma_byte_dot(bytes, 0, None);
                lemma_dot_of_bytes(raw@, false);
            }
            (None, normalize_name_from_sql(raw))
        },
    }
}

}
