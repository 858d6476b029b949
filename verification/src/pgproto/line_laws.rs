//! Where the lines of a stream end, byte by byte.
use crate::ascii::{escaped_at, lemma_escaped_at_prefix, lemma_escaped_at_suffix};
use crate::errors::{PgErrorCode, PgErrorView};
use crate::pgproto::record::{
    ends_record, ends_with_cr, first_end, is_mark, last_in, next_in, open_record_len, style_at,
    Cut, EolStyle,
};
use crate::pgproto::stream::{complete_records, lemma_first_end, lemma_is_first_end, open_part};
use vstd::prelude::*;

verus! {

/// Whether a text can be a line, read from its start: it is made of bytes that are neither a line
/// feed nor a carriage return nor a backslash, and of backslashes with one more byte behind each.
pub open spec fn is_line_text(text: Seq<u8>) -> bool
    decreases text.len(),
{
    if text.len() == 0 {
        true
    } else if text[0] == 0x0a || text[0] == 0x0d {
        false
    } else if text[0] == 0x5c {
        text.len() >= 2 && is_line_text(text.skip(2))
    } else {
        is_line_text(text.skip(1))
    }
}

proof fn lemma_line_text(text: Seq<u8>, from: int)
    requires
        0 <= from <= text.len(),
        is_line_text(text.skip(from)),
        !escaped_at(text, from),
    ensures
        forall|at: int| from <= at < text.len() ==> !is_mark(text, at),
        !escaped_at(text, text.len() as int),
    decreases text.len() - from,
{
    if from < text.len() {
        let rest = text.skip(from);
        assert(rest[0] == text[from]);
        if text[from] == 0x5c {
            assert(rest.skip(2) =~= text.skip(from + 2));
            assert(escaped_at(text, from + 1));
            assert(!escaped_at(text, from + 2));
            lemma_line_text(text, from + 2);
        } else {
            assert(rest.skip(1) =~= text.skip(from + 1));
            lemma_line_text(text, from + 1);
        }
    }
}

/// In what stands behind a line, no mark stands within the line.
proof fn lemma_line_in_front(line: Seq<u8>, back: Seq<u8>)
    requires
        is_line_text(line),
    ensures
        forall|at: int| 0 <= at < line.len() ==> !is_mark(line + back, at),
        !escaped_at(line + back, line.len() as int),
{
    let data = line + back;
    assert(line.skip(0) =~= line);
    lemma_line_text(line, 0);
    assert forall|at: int| 0 <= at < line.len() implies !is_mark(data, at) by {
        assert(data.take(at) =~= line.take(at));
        lemma_escaped_at_prefix(line, data, at);
        assert(!is_mark(line, at));
    }
    assert(data.take(line.len() as int) =~= line.take(line.len() as int));
    lemma_escaped_at_prefix(line, data, line.len() as int);
}

/// Whether a line that ends in the way `found` is taken in a stream whose lines end in the way
/// `style`: its record is `line`, and `rest` is left.
pub open spec fn is_taken(
    result: Result<Option<Cut>, PgErrorView>,
    line: Seq<u8>,
    rest: Seq<u8>,
    style: EolStyle,
    found: EolStyle,
) -> bool {
    if style == EolStyle::Unknown || style == found {
        result matches Ok(Some(cut)) && cut.record == line && cut.rest == rest && cut.style
            == found
    } else {
        result == Err::<Option<Cut>, PgErrorView>(
            PgErrorView::Pedantic(
                PgErrorCode::BadCopyFileFormat,
                "COPY data has mixed line endings: expected "@ + style_name(style)
                    + " but found "@ + style_name(found),
            ),
        )
    }
}

/// How the ways in which lines end are called.
pub open spec fn style_name(style: EolStyle) -> Seq<char> {
    match style {
        EolStyle::Unknown => "unknown"@,
        EolStyle::Lf => "LF"@,
        EolStyle::Cr => "CR"@,
        EolStyle::CrLf => "CRLF"@,
    }
}

proof fn lemma_line_ends(line: Seq<u8>, back: Seq<u8>)
    requires
        is_line_text(line),
        back.len() > 0,
        back[0] == 0x0a || (back[0] == 0x0d && back.len() > 1),
    ensures
        first_end(line + back, 0) == Some(line.len() as int),
        (line + back).take(line.len() as int) == line,
        style_at(line + back, line.len() as int) == if back[0] == 0x0a {
            EolStyle::Lf
        } else if back[1] == 0x0a {
            EolStyle::CrLf
        } else {
            EolStyle::Cr
        },
{
    let data = line + back;
    lemma_line_in_front(line, back);
    assert(data[line.len() as int] == back[0]);
    assert forall|at: int| 0 <= at < line.len() implies !ends_record(data, at) by {
        assert(!is_mark(data, at));
    }
    lemma_is_first_end(data, 0, line.len() as int);
    assert(data.take(line.len() as int) =~= line);
}

/// A line ends at its first line feed or carriage return that is not escaped. A line feed ends it
/// alone, and so does a carriage return with any other byte behind it, which stays; a carriage
/// return and a line feed end it together. All lines of a stream must end in the same way.
pub proof fn law_line_ends_at_its_first_mark(
    line: Seq<u8>,
    rest: Seq<u8>,
    style: EolStyle,
)
    requires
        is_line_text(line),
    ensures
        is_taken(next_in(line + seq![0x0a] + rest, style), line, rest, style, EolStyle::Lf),
        is_taken(
            next_in(line + seq![0x0d, 0x0a] + rest, style),
            line,
            rest,
            style,
            EolStyle::CrLf,
        ),
        rest.len() > 0 && rest[0] != 0x0a ==> is_taken(
            next_in(line + seq![0x0d] + rest, style),
            line,
            rest,
            style,
            EolStyle::Cr,
        ),
{
    let len = line.len() as int;
    let lf = seq![0x0au8] + rest;
    let crlf = seq![0x0du8, 0x0au8] + rest;
    let cr = seq![0x0du8] + rest;
    lemma_line_ends(line, lf);
    assert(line + seq![0x0au8] + rest =~= line + lf);
    assert((line + lf).skip(len + 1) =~= rest);
    lemma_line_ends(line, crlf);
    assert(line + seq![0x0du8, 0x0au8] + rest =~= line + crlf);
    assert((line + crlf).skip(len + 2) =~= rest);
    if rest.len() > 0 && rest[0] != 0x0a {
        lemma_line_ends(line, cr);
        assert(line + seq![0x0du8] + rest =~= line + cr);
        assert((line + cr).skip(len + 1) =~= rest);
    }
}

proof fn lemma_line_is_open(line: Seq<u8>, back: Seq<u8>)
    requires
        is_line_text(line),
        back =~= seq![] || back =~= seq![0x5cu8] || back =~= seq![0x0du8],
    ensures
        first_end(line + back, 0) is None,
        ends_with_cr(line + back) == (back =~= seq![0x0du8]),
        complete_records(line + back) == Seq::<Seq<u8>>::empty(),
        open_part(line + back) == line + back,
{
    let data = line + back;
    lemma_line_in_front(line, back);
    assert forall|at: int| 0 <= at < data.len() implies !ends_record(data, at) by {
        if at < line.len() {
            assert(!is_mark(data, at));
        } else {
            assert(data[at] == back[0]);
        }
    }
    lemma_first_end(data, 0);
    if data.len() > 0 {
        if back.len() > 0 {
            assert(data.last() == back[0]);
        } else {
            assert(!is_mark(data, data.len() - 1));
        }
    }
}

/// A line that nothing ends is not taken yet, nor is one that ends in a carriage return or a
/// backslash, for the byte behind it decides. The length of what is open leaves out the carriage
/// return.
pub proof fn law_open_line_waits(line: Seq<u8>, style: EolStyle)
    requires
        is_line_text(line),
    ensures
        next_in(line, style) == Ok::<Option<Cut>, PgErrorView>(None),
        next_in(line.push(0x0d), style) == Ok::<Option<Cut>, PgErrorView>(None),
        next_in(line.push(0x5c), style) == Ok::<Option<Cut>, PgErrorView>(None),
        open_record_len(line) == line.len(),
        open_record_len(line.push(0x0d)) == line.len(),
        open_record_len(line.push(0x5c)) == line.len() + 1,
{
    assert(line + Seq::<u8>::empty() =~= line);
    assert(line + seq![0x0du8] =~= line.push(0x0d));
    assert(line + seq![0x5cu8] =~= line.push(0x5c));
    lemma_line_is_open(line, seq![]);
    lemma_line_is_open(line, seq![0x0du8]);
    lemma_line_is_open(line, seq![0x5cu8]);
    assert(seq![0x5cu8][0] != seq![0x0du8][0]);
    assert(seq![0x5cu8] != seq![0x0du8]);
    assert(Seq::<u8>::empty().len() != seq![0x0du8].len());
}

/// At the end of a stream what is left is the last record, without the carriage return that ends
/// it, where there is one; nothing left is no record.
pub proof fn law_last_line_needs_no_end(line: Seq<u8>, style: EolStyle)
    requires
        is_line_text(line),
    ensures
        last_in(seq![], style) == Ok::<Option<Cut>, PgErrorView>(None),
        line.len() > 0 ==> (last_in(line, style) matches Ok(Some(cut)) && cut.record == line
            && cut.rest == Seq::<u8>::empty() && cut.style == style),
        last_in(line.push(0x5c), style) matches Ok(Some(cut)) && cut.record == line.push(0x5c)
            && cut.rest == Seq::<u8>::empty() && cut.style == style,
        is_taken(
            last_in(line.push(0x0d), style),
            line,
            Seq::<u8>::empty(),
            style,
            EolStyle::Cr,
        ),
{
    assert(line + Seq::<u8>::empty() =~= line);
    assert(line + seq![0x0du8] =~= line.push(0x0d));
    assert(line + seq![0x5cu8] =~= line.push(0x5c));
    lemma_line_is_open(line, seq![]);
    lemma_line_is_open(line, seq![0x0du8]);
    lemma_line_is_open(line, seq![0x5cu8]);
    assert(seq![0x5cu8][0] != seq![0x0du8][0]);
    assert(seq![0x5cu8] != seq![0x0du8]);
    assert(Seq::<u8>::empty().len() != seq![0x0du8].len());
    assert(line.push(0x0d).drop_last() =~= line);
}

/// The records of a stream are those of its lines, in order: a line and what ends it, then the
/// records of what stands behind it. What nothing ends is open.
pub proof fn law_records_are_those_of_the_lines(line: Seq<u8>, rest: Seq<u8>)
    requires
        is_line_text(line),
    ensures
        complete_records(line + seq![0x0a] + rest) == seq![line] + complete_records(rest),
        complete_records(line + seq![0x0d, 0x0a] + rest) == seq![line] + complete_records(rest),
        rest.len() > 0 && rest[0] != 0x0a ==> complete_records(line + seq![0x0d] + rest)
            == seq![line] + complete_records(rest),
        complete_records(line) == Seq::<Seq<u8>>::empty(),
        open_part(line) == line,
        open_part(line + seq![0x0a] + rest) == open_part(rest),
{
    let len = line.len() as int;
    let lf = seq![0x0au8] + rest;
    let crlf = seq![0x0du8, 0x0au8] + rest;
    let cr = seq![0x0du8] + rest;
    lemma_line_ends(line, lf);
    assert(line + seq![0x0au8] + rest =~= line + lf);
    assert((line + lf).skip(len + 1) =~= rest);
    lemma_line_ends(line, crlf);
    assert(line + seq![0x0du8, 0x0au8] + rest =~= line + crlf);
    assert((line + crlf).skip(len + 2) =~= rest);
    if rest.len() > 0 && rest[0] != 0x0a {
        lemma_line_ends(line, cr);
        assert(line + seq![0x0du8] + rest =~= line + cr);
        assert((line + cr).skip(len + 1) =~= rest);
    }
    assert(line + Seq::<u8>::empty() =~= line);
    lemma_line_is_open(line, seq![]);
}

}
