//! What holds of every row: its fields make it up, and a row that is written field by field is
//! read back as it was.
use crate::ascii::{
    escaped_at, lemma_escaped_at_prefix, lemma_escaped_at_suffix, BACKSLASH, CARRIAGE_RETURN,
    LINE_FEED,
};
use crate::errors::PgErrorView;
use crate::pgproto::record::is_mark;
use crate::pgproto::row::{
    closed_fields, decoded, escape_sequence, field_start, field_values, is_separator, raw_fields,
    record_values,
};
use vstd::prelude::*;

verus! {

/// Fields with a delimiter between each two.
pub open spec fn joined(fields: Seq<Seq<u8>>, delimiter: u8) -> Seq<u8>
    decreases fields.len(),
{
    if fields.len() == 0 {
        seq![]
    } else if fields.len() == 1 {
        fields[0]
    } else {
        joined(fields.drop_last(), delimiter).push(delimiter) + fields.last()
    }
}

proof fn lemma_field_start_bound(record: Seq<u8>, delimiter: u8, end: int)
    requires
        0 <= end,
    ensures
        0 <= field_start(record, delimiter, end) <= end,
    decreases end,
{
    if end > 0 {
        lemma_field_start_bound(record, delimiter, end - 1);
    }
}

proof fn lemma_closed_fields_joined(record: Seq<u8>, delimiter: u8, end: int)
    requires
        0 <= end <= record.len(),
    ensures
        joined(
            closed_fields(record, delimiter, end).push(
                record.subrange(field_start(record, delimiter, end), end),
            ),
            delimiter,
        ) == record.take(end),
    decreases end,
{
    lemma_field_start_bound(record, delimiter, end);
    let start = field_start(record, delimiter, end);
    let fields = closed_fields(record, delimiter, end).push(record.subrange(start, end));
    if end == 0 {
        assert(joined(fields, delimiter) =~= record.take(end));
    } else {
        let before = field_start(record, delimiter, end - 1);
        let open = record.subrange(before, end - 1);
        let closed = closed_fields(record, delimiter, end - 1);
        lemma_field_start_bound(record, delimiter, end - 1);
        lemma_closed_fields_joined(record, delimiter, end - 1);
        if is_separator(record, delimiter, end - 1) {
            assert(fields.drop_last() =~= closed.push(open));
            assert(joined(fields, delimiter) =~= record.take(end - 1).push(delimiter)
                + record.subrange(start, end));
            assert(joined(fields, delimiter) =~= record.take(end));
        } else {
            assert(fields.drop_last() =~= closed.push(open).drop_last());
            assert(record.subrange(start, end) =~= open.push(record[end - 1]));
            assert(joined(fields, delimiter) =~= joined(closed.push(open), delimiter).push(
                record[end - 1],
            ));
            assert(joined(fields, delimiter) =~= record.take(end));
        }
    }
}

/// No byte of a record is lost: its fields with a delimiter between each two make it up.
pub proof fn law_fields_make_up_the_record(record: Seq<u8>, delimiter: u8)
    ensures
        joined(raw_fields(record, delimiter), delimiter) == record,
{
    lemma_closed_fields_joined(record, delimiter, record.len() as int);
    assert(record.take(record.len() as int) =~= record);
}

/// Whether no byte of a field separates fields.
pub open spec fn unseparated(field: Seq<u8>, delimiter: u8) -> bool {
    forall|at: int| 0 <= at < field.len() ==> !is_separator(field, delimiter, at)
}

proof fn lemma_field_start_unseparated(record: Seq<u8>, delimiter: u8, end: int)
    requires
        0 <= end <= record.len(),
    ensures
        ({
            let start = field_start(record, delimiter, end);
            &&& delimiter == BACKSLASH || !escaped_at(record, start)
            &&& forall|at: int| start <= at < end ==> !is_separator(record, delimiter, at)
        }),
    decreases end,
{
    if end > 0 {
        lemma_field_start_unseparated(record, delimiter, end - 1);
    }
}

proof fn lemma_subrange_unseparated(record: Seq<u8>, delimiter: u8, start: int, end: int)
    requires
        0 <= start <= end <= record.len(),
        delimiter == BACKSLASH || !escaped_at(record, start),
        forall|at: int| start <= at < end ==> !is_separator(record, delimiter, at),
    ensures
        unseparated(record.subrange(start, end), delimiter),
{
    let field = record.subrange(start, end);
    assert forall|at: int| 0 <= at < field.len() implies !is_separator(field, delimiter, at) by {
        assert(!is_separator(record, delimiter, start + at));
        if delimiter != BACKSLASH {
            lemma_escaped_at_suffix(record, start, start + at);
            assert(record.skip(start).take(at) =~= field.take(at));
            lemma_escaped_at_prefix(record.skip(start), field, at);
        }
    }
}

proof fn lemma_closed_fields_unseparated(record: Seq<u8>, delimiter: u8, end: int)
    requires
        0 <= end <= record.len(),
    ensures
        forall|i: int|
            0 <= i < closed_fields(record, delimiter, end).len() ==> unseparated(
                #[trigger] closed_fields(record, delimiter, end)[i],
                delimiter,
            ),
    decreases end,
{
    if end > 0 {
        lemma_closed_fields_unseparated(record, delimiter, end - 1);
        lemma_field_start_bound(record, delimiter, end - 1);
        lemma_field_start_unseparated(record, delimiter, end - 1);
        lemma_subrange_unseparated(
            record,
            delimiter,
            field_start(record, delimiter, end - 1),
            end - 1,
        );
        let before = closed_fields(record, delimiter, end - 1);
        assert forall|i: int| 0 <= i < closed_fields(record, delimiter, end).len() implies
            unseparated(#[trigger] closed_fields(record, delimiter, end)[i], delimiter) by {
            if i < before.len() {
                assert(unseparated(before[i], delimiter));
            }
        }
    }
}

/// A record is cut at every separator: none stands in a field.
pub proof fn law_fields_hold_no_separator(record: Seq<u8>, delimiter: u8)
    ensures
        forall|i: int|
            0 <= i < raw_fields(record, delimiter).len() ==> unseparated(
                #[trigger] raw_fields(record, delimiter)[i],
                delimiter,
            ),
{
    let end = record.len() as int;
    lemma_closed_fields_unseparated(record, delimiter, end);
    lemma_field_start_bound(record, delimiter, end);
    lemma_field_start_unseparated(record, delimiter, end);
    lemma_subrange_unseparated(record, delimiter, field_start(record, delimiter, end), end);
}

/// Whether a field can stand between two delimiters: no byte of it separates fields, and it does
/// not end inside an escape sequence.
pub open spec fn self_contained(field: Seq<u8>, delimiter: u8) -> bool {
    unseparated(field, delimiter) && !escaped_at(field, field.len() as int)
}

/// What stands behind a text that does not end inside an escape sequence is escaped as it is alone.
proof fn lemma_escaped_at_concat(front: Seq<u8>, back: Seq<u8>, at: int)
    requires
        !escaped_at(front, front.len() as int),
        0 <= at <= back.len(),
    ensures
        escaped_at(front + back, front.len() + at) == escaped_at(back, at),
{
    let all = front + back;
    assert(all.take(front.len() as int) =~= front.take(front.len() as int));
    lemma_escaped_at_prefix(all, front, front.len() as int);
    lemma_escaped_at_suffix(all, front.len() as int, front.len() + at);
    assert(all.skip(front.len() as int) =~= back);
}

proof fn lemma_self_contained_concat(front: Seq<u8>, back: Seq<u8>, delimiter: u8)
    requires
        delimiter != BACKSLASH,
        self_contained(front, delimiter),
        self_contained(back, delimiter),
    ensures
        self_contained(front + back, delimiter),
{
    let all = front + back;
    assert forall|at: int| 0 <= at < all.len() implies !is_separator(all, delimiter, at) by {
        if at < front.len() {
            assert(all.take(at) =~= front.take(at));
            lemma_escaped_at_prefix(all, front, at);
            assert(!is_separator(front, delimiter, at));
        } else {
            lemma_escaped_at_concat(front, back, at - front.len());
            assert(!is_separator(back, delimiter, at - front.len()));
        }
    }
    lemma_escaped_at_concat(front, back, back.len() as int);
}

/// What is cut out of a record depends on the bytes before the cut alone.
proof fn lemma_fields_prefix(left: Seq<u8>, right: Seq<u8>, delimiter: u8, end: int)
    requires
        0 <= end <= left.len(),
        end <= right.len(),
        left.take(end) == right.take(end),
    ensures
        field_start(left, delimiter, end) == field_start(right, delimiter, end),
        closed_fields(left, delimiter, end) == closed_fields(right, delimiter, end),
    decreases end,
{
    if end > 0 {
        assert(left.take(end - 1) =~= left.take(end).take(end - 1));
        assert(right.take(end - 1) =~= right.take(end).take(end - 1));
        lemma_fields_prefix(left, right, delimiter, end - 1);
        lemma_escaped_at_prefix(left, right, end - 1);
        assert(left[end - 1] == left.take(end)[end - 1]);
        assert(right[end - 1] == right.take(end)[end - 1]);
        let start = field_start(left, delimiter, end - 1);
        lemma_field_start_bound(left, delimiter, end - 1);
        assert(left.subrange(start, end - 1) =~= left.take(end).subrange(start, end - 1));
        assert(right.subrange(start, end - 1) =~= right.take(end).subrange(start, end - 1));
    }
}

/// Bytes that separate nothing belong to the field that is open before them.
proof fn lemma_fields_stay(record: Seq<u8>, delimiter: u8, from: int, end: int)
    requires
        0 <= from <= end <= record.len(),
        forall|at: int| from <= at < end ==> !is_separator(record, delimiter, at),
    ensures
        field_start(record, delimiter, end) == field_start(record, delimiter, from),
        closed_fields(record, delimiter, end) == closed_fields(record, delimiter, from),
    decreases end - from,
{
    if from < end {
        lemma_fields_stay(record, delimiter, from, end - 1);
    }
}

/// Fields that can stand between delimiters are found again in the record that they make up.
pub proof fn law_joined_fields_are_found_again(fields: Seq<Seq<u8>>, delimiter: u8)
    requires
        delimiter != BACKSLASH,
        fields.len() > 0,
        forall|i: int| 0 <= i < fields.len() ==> self_contained(#[trigger] fields[i], delimiter),
    ensures
        raw_fields(joined(fields, delimiter), delimiter) == fields,
        !escaped_at(joined(fields, delimiter), joined(fields, delimiter).len() as int),
    decreases fields.len(),
{
    let record = joined(fields, delimiter);
    assert(self_contained(fields.last(), delimiter));
    if fields.len() == 1 {
        lemma_fields_stay(record, delimiter, 0, record.len() as int);
        assert(record.subrange(0, record.len() as int) =~= record);
        assert(raw_fields(record, delimiter) =~= fields);
    } else {
        let front = joined(fields.drop_last(), delimiter);
        let last = fields.last();
        let head = front.push(delimiter);
        let cut = front.len() as int;
        assert forall|i: int| 0 <= i < fields.drop_last().len() implies self_contained(
            #[trigger] fields.drop_last()[i],
            delimiter,
        ) by {
            assert(self_contained(fields[i], delimiter));
        }
        law_joined_fields_are_found_again(fields.drop_last(), delimiter);
        assert(record.take(cut) =~= front.take(cut));
        lemma_fields_prefix(record, front, delimiter, cut);
        lemma_escaped_at_prefix(record, front, cut);
        assert(is_separator(record, delimiter, cut));
        let start = field_start(record, delimiter, cut);
        lemma_field_start_bound(record, delimiter, cut);
        assert(record.subrange(start, cut) =~= front.subrange(start, cut));
        assert(closed_fields(record, delimiter, cut + 1) =~= raw_fields(front, delimiter));
        assert(head.take(cut + 1) =~= record.take(cut + 1));
        lemma_escaped_at_prefix(record, head, cut + 1);
        assert(!escaped_at(head, head.len() as int));
        assert forall|at: int| cut + 1 <= at < record.len() implies !is_separator(
            record,
            delimiter,
            at,
        ) by {
            lemma_escaped_at_concat(head, last, at - cut - 1);
            assert(!is_separator(last, delimiter, at - cut - 1));
        }
        lemma_fields_stay(record, delimiter, cut + 1, record.len() as int);
        lemma_escaped_at_concat(head, last, last.len() as int);
        assert(record.subrange(cut + 1, record.len() as int) =~= last);
        assert(raw_fields(record, delimiter) =~= fields);
    }
}

/// A byte as it is written in a field: what has a meaning of its own is escaped.
pub open spec fn written_byte(byte: u8, delimiter: u8) -> Seq<u8> {
    if byte == LINE_FEED {
        seq![BACKSLASH, 0x6e]
    } else if byte == CARRIAGE_RETURN {
        seq![BACKSLASH, 0x72]
    } else if byte == BACKSLASH || byte == delimiter {
        seq![BACKSLASH, byte]
    } else {
        seq![byte]
    }
}

/// A value as it is written in a field.
pub open spec fn written(value: Seq<u8>, delimiter: u8) -> Seq<u8>
    decreases value.len(),
{
    if value.len() == 0 {
        seq![]
    } else {
        written_byte(value[0], delimiter) + written(value.skip(1), delimiter)
    }
}

/// Whether a delimiter has no meaning behind a backslash: it is not the backslash itself, none of
/// the letters b, f, n, r, t, v and x, and none of the digits 0 to 7.
pub open spec fn plain_delimiter(delimiter: u8) -> bool {
    &&& delimiter != 0x5c
    &&& delimiter != 0x62
    &&& delimiter != 0x66
    &&& delimiter != 0x6e
    &&& delimiter != 0x72
    &&& delimiter != 0x74
    &&& delimiter != 0x76
    &&& delimiter != 0x78
    &&& !(0x30 <= delimiter <= 0x37)
}

/// A value that is written as a field is read back as it was.
pub proof fn law_written_value_reads_back(value: Seq<u8>, delimiter: u8)
    requires
        plain_delimiter(delimiter),
    ensures
        decoded(written(value, delimiter)) == Ok::<Seq<u8>, PgErrorView>(value),
    decreases value.len(),
{
    let text = written(value, delimiter);
    if value.len() == 0 {
        assert(value =~= seq![]);
    } else {
        let rest = written(value.skip(1), delimiter);
        let first = written_byte(value[0], delimiter);
        law_written_value_reads_back(value.skip(1), delimiter);
        assert(text.skip(first.len() as int) =~= rest);
        assert(seq![value[0]] + value.skip(1) =~= value);
        if first.len() == 2 {
            assert(escape_sequence(text) == Ok::<(u8, int), PgErrorView>((value[0], 2)));
        }
    }
}

/// Whether no line ends in a text.
pub open spec fn unmarked(text: Seq<u8>) -> bool {
    forall|at: int| 0 <= at < text.len() ==> !is_mark(text, at)
}

/// A written value can stand between two delimiters, and no line ends in it.
pub proof fn law_written_value_is_self_contained(value: Seq<u8>, delimiter: u8)
    requires
        plain_delimiter(delimiter),
    ensures
        self_contained(written(value, delimiter), delimiter),
        unmarked(written(value, delimiter)),
    decreases value.len(),
{
    if value.len() > 0 {
        let first = written_byte(value[0], delimiter);
        let rest = written(value.skip(1), delimiter);
        law_written_value_is_self_contained(value.skip(1), delimiter);
        reveal_with_fuel(escaped_at, 3);
        assert(self_contained(first, delimiter));
        lemma_self_contained_concat(first, rest, delimiter);
        let text = first + rest;
        assert forall|at: int| 0 <= at < text.len() implies !is_mark(text, at) by {
            if at >= first.len() {
                lemma_escaped_at_concat(first, rest, at - first.len());
                assert(!is_mark(rest, at - first.len()));
            }
        }
    }
}

/// The field that a value, or no value, is written as.
pub open spec fn written_field(
    value: Option<Seq<u8>>,
    delimiter: u8,
    null_marker: Seq<u8>,
) -> Seq<u8> {
    match value {
        None => null_marker,
        Some(value) => written(value, delimiter),
    }
}

/// The fields that the values of a row are written as.
pub open spec fn written_fields(
    values: Seq<Option<Seq<u8>>>,
    delimiter: u8,
    null_marker: Seq<u8>,
) -> Seq<Seq<u8>> {
    values.map_values(|value: Option<Seq<u8>>| written_field(value, delimiter, null_marker))
}

proof fn lemma_written_fields_read_back(
    values: Seq<Option<Seq<u8>>>,
    delimiter: u8,
    null_marker: Seq<u8>,
)
    requires
        plain_delimiter(delimiter),
        forall|i: int|
            0 <= i < values.len() ==> (#[trigger] values[i] matches Some(value) ==> written(
                value,
                delimiter,
            ) != null_marker),
    ensures
        field_values(written_fields(values, delimiter, null_marker), null_marker) == Ok::<
            Seq<Option<Seq<u8>>>,
            PgErrorView,
        >(values),
    decreases values.len(),
{
    let fields = written_fields(values, delimiter, null_marker);
    if values.len() == 0 {
        assert(values =~= seq![]);
    } else {
        assert(fields.drop_last() =~= written_fields(values.drop_last(), delimiter, null_marker));
        assert forall|i: int| 0 <= i < values.drop_last().len() implies (
        #[trigger] values.drop_last()[i] matches Some(value) ==> written(value, delimiter)
            != null_marker) by {
            assert(values.drop_last()[i] == values[i]);
        }
        lemma_written_fields_read_back(values.drop_last(), delimiter, null_marker);
        assert(values.last() == values[values.len() - 1]);
        match values.last() {
            None => {},
            Some(value) => law_written_value_reads_back(value, delimiter),
        }
        assert(values.drop_last().push(values.last()) =~= values);
    }
}

/// A row that is written field by field is read back as it was. The null marker must
/// be able to stand between two delimiters, and no value may be written as it is.
pub proof fn law_written_row_reads_back(
    values: Seq<Option<Seq<u8>>>,
    delimiter: u8,
    null_marker: Seq<u8>,
)
    requires
        plain_delimiter(delimiter),
        self_contained(null_marker, delimiter),
        values.len() > 0,
        forall|i: int|
            0 <= i < values.len() ==> (#[trigger] values[i] matches Some(value) ==> written(
                value,
                delimiter,
            ) != null_marker),
    ensures
        record_values(
            joined(written_fields(values, delimiter, null_marker), delimiter),
            delimiter,
            null_marker,
            values.len(),
        ) == Ok::<Seq<Option<Seq<u8>>>, PgErrorView>(values),
{
    let fields = written_fields(values, delimiter, null_marker);
    assert forall|i: int| 0 <= i < fields.len() implies self_contained(
        #[trigger] fields[i],
        delimiter,
    ) by {
        match values[i] {
            None => {},
            Some(value) => law_written_value_is_self_contained(value, delimiter),
        }
    }
    law_joined_fields_are_found_again(fields, delimiter);
    lemma_written_fields_read_back(values, delimiter, null_marker);
}

proof fn lemma_joined_unmarked(fields: Seq<Seq<u8>>, delimiter: u8)
    requires
        delimiter != BACKSLASH,
        delimiter != LINE_FEED,
        delimiter != CARRIAGE_RETURN,
        forall|i: int|
            0 <= i < fields.len() ==> self_contained(#[trigger] fields[i], delimiter) && unmarked(
                fields[i],
            ),
    ensures
        unmarked(joined(fields, delimiter)),
    decreases fields.len(),
{
    let record = joined(fields, delimiter);
    if fields.len() == 1 {
        assert(unmarked(fields[0]));
    } else if fields.len() > 1 {
        let front = joined(fields.drop_last(), delimiter);
        let head = front.push(delimiter);
        let last = fields.last();
        assert(self_contained(last, delimiter) && unmarked(last));
        assert forall|i: int| 0 <= i < fields.drop_last().len() implies self_contained(
            #[trigger] fields.drop_last()[i],
            delimiter,
        ) && unmarked(fields.drop_last()[i]) by {
            assert(self_contained(fields[i], delimiter));
        }
        lemma_joined_unmarked(fields.drop_last(), delimiter);
        assert(!escaped_at(head, head.len() as int));
        assert forall|at: int| 0 <= at < record.len() implies !is_mark(record, at) by {
            if at < front.len() {
                assert(record.take(at) =~= front.take(at));
                lemma_escaped_at_prefix(record, front, at);
                assert(!is_mark(front, at));
            } else if at >= head.len() {
                lemma_escaped_at_concat(head, last, at - head.len());
                assert(!is_mark(last, at - head.len()));
            }
        }
    }
}

/// No line ends inside a row that is written field by field, so that it is a single record.
pub proof fn law_written_row_is_one_line(
    values: Seq<Option<Seq<u8>>>,
    delimiter: u8,
    null_marker: Seq<u8>,
)
    requires
        plain_delimiter(delimiter),
        delimiter != LINE_FEED,
        delimiter != CARRIAGE_RETURN,
        self_contained(null_marker, delimiter),
        unmarked(null_marker),
    ensures
        unmarked(joined(written_fields(values, delimiter, null_marker), delimiter)),
{
    let fields = written_fields(values, delimiter, null_marker);
    assert forall|i: int| 0 <= i < fields.len() implies self_contained(
        #[trigger] fields[i],
        delimiter,
    ) && unmarked(fields[i]) by {
        match values[i] {
            None => {},
            Some(value) => law_written_value_is_self_contained(value, delimiter),
        }
    }
    lemma_joined_unmarked(fields, delimiter);
}

}
