//! What holds of names and texts that are written in quotes.
use crate::sql::command::value_text;
use crate::sql::grammar::OptionValueView;
use crate::sql::names::{normalized, table_of, top_level_dot, undoubled};
use crate::text::lower;
use vstd::prelude::*;

verus! {

/// A text with each quote in it doubled.
pub open spec fn doubled(text: Seq<char>, quote: char) -> Seq<char>
    decreases text.len(),
{
    if text.len() == 0 {
        seq![]
    } else if text[0] == quote {
        seq![quote, quote] + doubled(text.skip(1), quote)
    } else {
        seq![text[0]] + doubled(text.skip(1), quote)
    }
}

/// A text within quotes.
pub open spec fn in_quotes(text: Seq<char>, quote: char) -> Seq<char> {
    seq![quote] + doubled(text, quote) + seq![quote]
}

/// What is doubled reads as it was.
proof fn lemma_doubled(text: Seq<char>, quote: char)
    ensures
        undoubled(doubled(text, quote), quote) == text,
    decreases text.len(),
{
    if text.len() > 0 {
        let rest = text.skip(1);
        let written = doubled(text, quote);
        lemma_doubled(rest, quote);
        if text[0] == quote {
            assert(written.skip(2) =~= doubled(rest, quote));
        } else {
            assert(written.skip(1) =~= doubled(rest, quote));
        }
        assert(seq![text[0]] + rest =~= text);
    }
}

/// Every name can be written: a name within double quotes, with each of its own quotes doubled,
/// is that name.
pub proof fn law_quoted_name_reads_back(name: Seq<char>)
    ensures
        normalized(in_quotes(name, '"')) == name,
{
    let written = in_quotes(name, '"');
    assert(written.subrange(1, written.len() - 1) =~= doubled(name, '"'));
    lemma_doubled(name, '"');
}

/// Every value can be written: a text within single quotes, with each of its own quotes doubled,
/// says that text.
pub proof fn law_quoted_text_reads_back(text: Seq<char>)
    ensures
        OptionValueView::SingleQuoted(in_quotes(text, '\'')).wf(),
        value_text(OptionValueView::SingleQuoted(in_quotes(text, '\''))) == text,
{
    let written = in_quotes(text, '\'');
    assert(written.subrange(1, written.len() - 1) =~= doubled(text, '\''));
    lemma_doubled(text, '\'');
}

/// No dot within quotes counts.
proof fn lemma_dot_behind(name: Seq<char>, rest: Seq<char>)
    ensures
        top_level_dot(doubled(name, '"') + seq!['"'] + rest, true) == match top_level_dot(
            rest,
            false,
        ) {
            Some(at) => Some(at + doubled(name, '"').len() + 1),
            None => None,
        },
    decreases name.len(),
{
    let tail = name.skip(1);
    let written = doubled(name, '"') + seq!['"'] + rest;
    if name.len() == 0 {
        assert(written.skip(1) =~= rest);
    } else {
        lemma_dot_behind(tail, rest);
        let next = doubled(tail, '"') + seq!['"'] + rest;
        if name[0] == '"' {
            assert(written.skip(1).skip(1) =~= next);
            assert(written.skip(1)[0] == '"');
            assert(top_level_dot(written.skip(1), false) == match top_level_dot(next, true) {
                Some(at) => Some(at + 1),
                None => None,
            });
        } else {
            assert(written.skip(1) =~= next);
        }
    }
}

/// The name of a table within quotes names that table, and with the name of a schema within quotes
/// and a dot before it that table of that schema, whatever dots and quotes the names hold.
pub proof fn law_quoted_table_reads_back(schema: Seq<char>, table: Seq<char>)
    ensures
        table_of(in_quotes(table, '"')) == (None::<Seq<char>>, table),
        table_of(in_quotes(schema, '"') + "."@ + in_quotes(table, '"')) == (Some(schema), table),
{
    reveal_strlit(".");
    law_quoted_name_reads_back(schema);
    law_quoted_name_reads_back(table);
    let alone = in_quotes(table, '"');
    lemma_dot_behind(table, seq![]);
    assert(alone.skip(1) =~= doubled(table, '"') + seq!['"'] + Seq::<char>::empty());
    assert(top_level_dot(alone, false) is None);
    let before = in_quotes(schema, '"');
    let rest = "."@ + alone;
    let whole = before + "."@ + alone;
    lemma_dot_behind(schema, rest);
    assert(whole.skip(1) =~= doubled(schema, '"') + seq!['"'] + rest);
    assert(rest[0] == '.');
    assert(top_level_dot(rest, false) == Some(0int));
    assert(top_level_dot(whole, false) == Some(before.len() as int));
    assert(whole.take(before.len() as int) =~= before);
    assert(whole.skip(before.len() as int + 1) =~= alone);
}

/// Whether a character stands in a text.
pub open spec fn holds(text: Seq<char>, ch: char) -> bool {
    exists|i: int| 0 <= i < text.len() && #[trigger] text[i] == ch
}

proof fn lemma_no_dot(text: Seq<char>, rest: Seq<char>)
    requires
        !holds(text, '"'),
        !holds(text, '.'),
    ensures
        top_level_dot(text + rest, false) == match top_level_dot(rest, false) {
            Some(at) => Some(at + text.len()),
            None => None,
        },
    decreases text.len(),
{
    if text.len() == 0 {
        assert(text + rest =~= rest);
    } else {
        let tail = text.skip(1);
        assert(text[0] != '"' && text[0] != '.') by {
            assert(text[0] == text[0]);
        }
        assert forall|i: int| 0 <= i < tail.len() implies #[trigger] tail[i] != '"' && tail[i]
            != '.' by {
            assert(tail[i] == text[i + 1]);
        }
        lemma_no_dot(tail, rest);
        assert((text + rest).skip(1) =~= tail + rest);
    }
}

/// A name without quotes is known in lower case; so is a table, and with the name of a schema and a
/// dot before it, it is that table of that schema. The first dot counts.
pub proof fn law_plain_names_are_in_lower_case(schema: Seq<char>, table: Seq<char>)
    requires
        !holds(schema, '"'),
        !holds(schema, '.'),
        !holds(table, '"'),
    ensures
        normalized(table) == lower(table),
        table_of(schema) == (None::<Seq<char>>, lower(schema)),
        table_of(schema + "."@ + table) == (Some(lower(schema)), lower(table)),
{
    reveal_strlit(".");
    let dot = "."@;
    let rest = dot + table;
    let whole = schema + dot + table;
    assert(whole =~= schema + rest);
    lemma_no_dot(schema, rest);
    assert(rest[0] == '.');
    assert(top_level_dot(rest, false) == Some(0int));
    assert(whole.take(schema.len() as int) =~= schema);
    assert(whole.skip(schema.len() as int + 1) =~= table);
    assert(schema + Seq::<char>::empty() =~= schema);
    lemma_no_dot(schema, seq![]);
    if table.len() > 0 {
        assert(table[0] != '"') by {
            assert(table[0] == table[0]);
        }
    }
    if schema.len() > 0 {
        assert(schema[0] != '"') by {
            assert(schema[0] == schema[0]);
        }
    }
}

/// A quote that is not doubled, and any other character, stands for itself, and two quotes side by
/// side stand for one, from the first to the last.
pub proof fn law_doubled_quotes_are_one(quote: char, ch: char, rest: Seq<char>)
    ensures
        undoubled(seq![quote, quote] + rest, quote) == seq![quote] + undoubled(rest, quote),
        ch != quote ==> undoubled(seq![ch] + rest, quote) == seq![ch] + undoubled(rest, quote),
        rest.len() == 0 || rest[0] != quote ==> undoubled(seq![quote] + rest, quote)
            == seq![quote] + undoubled(rest, quote),
        undoubled(seq![], quote) == Seq::<char>::empty(),
{
    assert((seq![quote, quote] + rest).skip(2) =~= rest);
    assert((seq![ch] + rest).skip(1) =~= rest);
    assert((seq![quote] + rest).skip(1) =~= rest);
    if rest.len() > 0 {
        assert((seq![quote] + rest)[1] == rest[0]);
    }
}

}
