//! What each byte of a field and of a record says, byte by byte.
use crate::ascii::{escaped_at, hex_digit, lemma_escaped_at_suffix};
use crate::errors::{PgErrorCode, PgErrorView};
use crate::pgproto::row::{
    closed_fields, decoded, field_start, field_value, field_values, is_separator, octal_run,
    pushed_value, raw_fields, record_values,
};
use crate::text::decimal;
use vstd::prelude::*;

verus! {

/// What is decoded with a byte before it.
pub open spec fn behind_byte(byte: u8, rest: Result<Seq<u8>, PgErrorView>) -> Result<
    Seq<u8>,
    PgErrorView,
> {
    match rest {
        Ok(value) => Ok(seq![byte] + value),
        Err(error) => Err(error),
    }
}

/// The answer to a record or a field that breaks the format.
pub open spec fn refused(reason: Seq<char>) -> Result<Seq<u8>, PgErrorView> {
    Err(PgErrorView::Pedantic(PgErrorCode::BadCopyFileFormat, reason))
}

/// A field decodes from its start: every byte but the backslash stands for itself, whatever stands
/// behind it, and an empty field decodes to nothing.
pub proof fn law_plain_byte_stands_for_itself(byte: u8, rest: Seq<u8>)
    requires
        byte != 0x5c,
    ensures
        decoded(seq![byte] + rest) == behind_byte(byte, decoded(rest)),
        decoded(seq![]) == Ok::<Seq<u8>, PgErrorView>(seq![]),
{
    assert((seq![byte] + rest).skip(1) =~= rest);
}

/// Behind a backslash, every byte but the letters b, f, n, r, t, v and x and the digits 0 to 7
/// stands for itself, whatever stands behind it; so does every delimiter that is none of these.
pub proof fn law_escaped_byte_stands_for_itself(byte: u8, rest: Seq<u8>)
    requires
        byte != 0x62,
        byte != 0x66,
        byte != 0x6e,
        byte != 0x72,
        byte != 0x74,
        byte != 0x76,
        byte != 0x78,
        !(0x30 <= byte <= 0x37),
    ensures
        decoded(seq![0x5c, byte] + rest) == behind_byte(byte, decoded(rest)),
        decoded(seq![0x5c, byte]) == Ok::<Seq<u8>, PgErrorView>(seq![byte]),
{
    assert((seq![0x5cu8, byte] + rest).skip(2) =~= rest);
    assert(seq![0x5cu8, byte].skip(2) =~= seq![]);
    assert(decoded(seq![0x5cu8, byte].skip(2)) == Ok::<Seq<u8>, PgErrorView>(seq![]));
    assert(seq![byte] + Seq::<u8>::empty() =~= seq![byte]);
}

/// Behind a backslash, the letters b, f, n, r, t and v stand for the control characters that they
/// name in C.
pub proof fn law_escaped_letters_stand_for_controls(rest: Seq<u8>)
    ensures
        decoded(seq![0x5c, 0x62] + rest) == behind_byte(0x08, decoded(rest)),
        decoded(seq![0x5c, 0x66] + rest) == behind_byte(0x0c, decoded(rest)),
        decoded(seq![0x5c, 0x6e] + rest) == behind_byte(0x0a, decoded(rest)),
        decoded(seq![0x5c, 0x72] + rest) == behind_byte(0x0d, decoded(rest)),
        decoded(seq![0x5c, 0x74] + rest) == behind_byte(0x09, decoded(rest)),
        decoded(seq![0x5c, 0x76] + rest) == behind_byte(0x0b, decoded(rest)),
{
    assert((seq![0x5cu8, 0x62u8] + rest).skip(2) =~= rest);
    assert((seq![0x5cu8, 0x66u8] + rest).skip(2) =~= rest);
    assert((seq![0x5cu8, 0x6eu8] + rest).skip(2) =~= rest);
    assert((seq![0x5cu8, 0x72u8] + rest).skip(2) =~= rest);
    assert((seq![0x5cu8, 0x74u8] + rest).skip(2) =~= rest);
    assert((seq![0x5cu8, 0x76u8] + rest).skip(2) =~= rest);
}

/// Whether a byte is a hexadecimal digit worth `value`.
pub open spec fn is_hex_of(byte: u8, value: int) -> bool {
    ||| 0 <= value < 10 && byte == 0x30 + value
    ||| 10 <= value < 16 && (byte == 0x61 + value - 10 || byte == 0x41 + value - 10)
}

/// Whether a byte is a hexadecimal digit.
pub open spec fn is_hex(byte: u8) -> bool {
    0x30 <= byte <= 0x39 || 0x61 <= byte <= 0x66 || 0x41 <= byte <= 0x46
}

/// The hexadecimal digits are 0 to 9 and a to f, in upper and lower case, worth 0 to 15.
pub proof fn law_hexadecimal_digits(byte: u8)
    ensures
        hex_digit(byte) matches Some(value) ==> is_hex_of(byte, value as int),
        hex_digit(byte) is Some == is_hex(byte),
{
}

/// Behind a backslash and an x, one or two hexadecimal digits say a byte; a third does not count.
pub proof fn law_hexadecimal_escape_says_a_byte(
    first: u8,
    high: int,
    second: u8,
    low: int,
    rest: Seq<u8>,
)
    requires
        is_hex_of(first, high),
        is_hex_of(second, low),
    ensures
        decoded(seq![0x5c, 0x78, first, second] + rest) == behind_byte(
            (16 * high + low) as u8,
            decoded(rest),
        ),
        rest.len() == 0 || !is_hex(rest[0]) ==> decoded(seq![0x5c, 0x78, first] + rest)
            == behind_byte(high as u8, decoded(rest)),
{
    let two = seq![0x5cu8, 0x78u8, first, second] + rest;
    let one = seq![0x5cu8, 0x78u8, first] + rest;
    assert(two.skip(4) =~= rest);
    assert(one.skip(3) =~= rest);
    if rest.len() > 0 {
        assert(one[3] == rest[0]);
    }
}

/// Behind a backslash and an x there must be a hexadecimal digit.
pub proof fn law_hexadecimal_escape_needs_a_digit(byte: u8, rest: Seq<u8>)
    requires
        !is_hex(byte),
    ensures
        decoded(seq![0x5c, 0x78]) == refused(
            "COPY data ended inside a hexadecimal escape sequence"@,
        ),
        decoded(seq![0x5c, 0x78, byte] + rest) == refused(
            "invalid COPY hexadecimal escape sequence: \\x"@.push(byte as char),
        ),
{
}

/// A number as a byte holds it: what is larger than the largest byte is that byte.
pub open spec fn as_byte(value: int) -> u8 {
    if value > 0xff {
        0xff
    } else {
        value as u8
    }
}

/// Behind a backslash, one to three octal digits say a byte, up to the largest; a fourth does not
/// count.
pub proof fn law_octal_escape_says_a_byte(first: int, second: int, third: int, rest: Seq<u8>)
    requires
        0 <= first < 8,
        0 <= second < 8,
        0 <= third < 8,
    ensures
        ({
            let a = (0x30 + first) as u8;
            let b = (0x30 + second) as u8;
            let c = (0x30 + third) as u8;
            let ends = rest.len() == 0 || !(0x30 <= rest[0] <= 0x37);
            &&& decoded(seq![0x5c, a, b, c] + rest) == behind_byte(
                as_byte(64 * first + 8 * second + third),
                decoded(rest),
            )
            &&& ends ==> decoded(seq![0x5c, a, b] + rest) == behind_byte(
                as_byte(8 * first + second),
                decoded(rest),
            )
            &&& ends ==> decoded(seq![0x5c, a] + rest) == behind_byte(
                as_byte(first),
                decoded(rest),
            )
        }),
{
    let a = (0x30 + first) as u8;
    let b = (0x30 + second) as u8;
    let c = (0x30 + third) as u8;
    let three = seq![0x5cu8, a, b, c] + rest;
    let two = seq![0x5cu8, a, b] + rest;
    let one = seq![0x5cu8, a] + rest;
    assert(three.skip(4) =~= rest);
    assert(two.skip(3) =~= rest);
    assert(one.skip(2) =~= rest);
    assert(octal_run(three.skip(1)).1 == 3);
    if rest.len() > 0 {
        assert(two.skip(1)[2] == rest[0]);
        assert(one.skip(1)[1] == rest[0]);
    }
}

/// A backslash that nothing stands behind is refused.
pub proof fn law_lone_backslash_is_refused()
    ensures
        decoded(seq![0x5c]) == refused("COPY data ended inside an escape sequence"@),
{
}

/// A byte is escaped exactly where an odd number of backslashes stands right before it.
pub proof fn law_escaped_behind_odd_backslashes(data: Seq<u8>, from: int, at: int)
    requires
        0 <= from <= at <= data.len(),
        from == 0 || data[from - 1] != 0x5c,
        forall|i: int| from <= i < at ==> data[i] == 0x5c,
    ensures
        escaped_at(data, at) == ((at - from) % 2 == 1),
    decreases at - from,
{
    if from < at {
        law_escaped_behind_odd_backslashes(data, from, at - 1);
    }
}

/// Whether a text can be a field, read from its start: it is made of bytes that are neither the
/// delimiter nor a backslash, and of backslashes with one more byte behind each. Where the
/// delimiter is the backslash, every other byte stands alone.
pub open spec fn is_field_text(text: Seq<u8>, delimiter: u8) -> bool
    decreases text.len(),
{
    if text.len() == 0 {
        true
    } else if text[0] == delimiter {
        false
    } else if text[0] == 0x5c {
        text.len() >= 2 && is_field_text(text.skip(2), delimiter)
    } else {
        is_field_text(text.skip(1), delimiter)
    }
}

proof fn lemma_field_text(text: Seq<u8>, delimiter: u8, from: int)
    requires
        0 <= from <= text.len(),
        is_field_text(text.skip(from), delimiter),
        delimiter == 0x5c || !escaped_at(text, from),
    ensures
        forall|at: int| from <= at < text.len() ==> !is_separator(text, delimiter, at),
        delimiter == 0x5c || !escaped_at(text, text.len() as int),
    decreases text.len() - from,
{
    if from < text.len() {
        let rest = text.skip(from);
        assert(rest[0] == text[from]);
        if text[from] == 0x5c && delimiter != 0x5c {
            assert(rest.skip(2) =~= text.skip(from + 2));
            assert(escaped_at(text, from + 1));
            assert(!escaped_at(text, from + 2));
            lemma_field_text(text, delimiter, from + 2);
        } else {
            assert(rest.skip(1) =~= text.skip(from + 1));
            lemma_field_text(text, delimiter, from + 1);
        }
    }
}

proof fn lemma_nothing_closed(record: Seq<u8>, delimiter: u8, end: int)
    requires
        0 <= end <= record.len(),
        forall|at: int| 0 <= at < end ==> !is_separator(record, delimiter, at),
    ensures
        field_start(record, delimiter, end) == 0,
        closed_fields(record, delimiter, end) == Seq::<Seq<u8>>::empty(),
    decreases end,
{
    if end > 0 {
        lemma_nothing_closed(record, delimiter, end - 1);
    }
}

proof fn lemma_separators_in_front(front: Seq<u8>, back: Seq<u8>, delimiter: u8, at: int)
    requires
        0 <= at < front.len(),
    ensures
        is_separator(front + back, delimiter, at) == is_separator(front, delimiter, at),
{
    assert((front + back).take(at) =~= front.take(at));
    crate::ascii::lemma_escaped_at_prefix(front, front + back, at);
}

proof fn lemma_fields_behind(field: Seq<u8>, delimiter: u8, rest: Seq<u8>, at: int)
    requires
        is_field_text(field, delimiter),
        0 <= at <= rest.len(),
    ensures
        ({
            let record = field + seq![delimiter] + rest;
            let cut = field.len() + 1;
            &&& closed_fields(record, delimiter, cut + at) == seq![field] + closed_fields(
                rest,
                delimiter,
                at,
            )
            &&& field_start(record, delimiter, cut + at) == cut + field_start(rest, delimiter, at)
            &&& 0 <= field_start(rest, delimiter, at) <= at
        }),
    decreases at,
{
    let record = field + seq![delimiter] + rest;
    let cut = field.len() + 1;
    assert(field.skip(0) =~= field);
    lemma_field_text(field, delimiter, 0);
    assert(record =~= field + (seq![delimiter] + rest));
    assert(record.take(field.len() as int) =~= field.take(field.len() as int));
    crate::ascii::lemma_escaped_at_prefix(field, record, field.len() as int);
    if at == 0 {
        assert forall|i: int| 0 <= i < field.len() implies !is_separator(record, delimiter, i) by {
            lemma_separators_in_front(field, seq![delimiter] + rest, delimiter, i);
        }
        lemma_nothing_closed(record, delimiter, field.len() as int);
        assert(record.subrange(0, field.len() as int) =~= field);
        assert(closed_fields(record, delimiter, cut as int) =~= seq![field] + closed_fields(
            rest,
            delimiter,
            0,
        ));
    } else {
        lemma_fields_behind(field, delimiter, rest, at - 1);
        if delimiter != 0x5c {
            lemma_escaped_at_suffix(record, cut as int, cut + at - 1);
            assert(record.skip(cut as int) =~= rest);
        }
        let start = field_start(rest, delimiter, at - 1);
        assert(record.subrange(cut + start, cut + at - 1) =~= rest.subrange(start, at - 1));
        assert(closed_fields(record, delimiter, cut + at) =~= seq![field] + closed_fields(
            rest,
            delimiter,
            at,
        ));
    }
}

/// A record is cut at its first delimiter that is not escaped: what stands before it is a field,
/// and the fields of what stands behind it follow. A record without one is a single field, a
/// backslash at its end included.
pub proof fn law_record_is_cut_at_delimiters(field: Seq<u8>, delimiter: u8, rest: Seq<u8>)
    requires
        is_field_text(field, delimiter),
    ensures
        raw_fields(field + seq![delimiter] + rest, delimiter) == seq![field] + raw_fields(
            rest,
            delimiter,
        ),
        raw_fields(field, delimiter) == seq![field],
        delimiter != 0x5c ==> raw_fields(field.push(0x5c), delimiter) == seq![field.push(0x5c)],
{
    let record = field + seq![delimiter] + rest;
    let cut = field.len() + 1;
    let len = rest.len() as int;
    lemma_fields_behind(field, delimiter, rest, len);
    let start = field_start(rest, delimiter, len);
    assert(record.subrange(cut + start, record.len() as int) =~= rest.subrange(start, len));
    assert(raw_fields(record, delimiter) =~= seq![field] + raw_fields(rest, delimiter));
    assert(field.skip(0) =~= field);
    lemma_field_text(field, delimiter, 0);
    lemma_nothing_closed(field, delimiter, field.len() as int);
    assert(field.subrange(0, field.len() as int) =~= field);
    assert(raw_fields(field, delimiter) =~= seq![field]);
    if delimiter != 0x5c {
        let open = field.push(0x5c);
        assert(open =~= field + seq![0x5cu8]);
        assert forall|at: int| 0 <= at < open.len() implies !is_separator(open, delimiter, at) by {
            if at < field.len() {
                lemma_separators_in_front(field, seq![0x5cu8], delimiter, at);
            }
        }
        lemma_nothing_closed(open, delimiter, open.len() as int);
        assert(open.subrange(0, open.len() as int) =~= open);
        assert(raw_fields(open, delimiter) =~= seq![open]);
    }
}

/// Whether a value is that of a field: none where the field is the null marker as it is written,
/// else what the field decodes to.
pub open spec fn is_value_of(value: Option<Seq<u8>>, raw: Seq<u8>, null_marker: Seq<u8>) -> bool {
    match value {
        None => raw == null_marker,
        Some(bytes) => raw != null_marker && decoded(raw) == Ok::<Seq<u8>, PgErrorView>(bytes),
    }
}

proof fn lemma_field_values(raws: Seq<Seq<u8>>, null_marker: Seq<u8>)
    ensures
        match field_values(raws, null_marker) {
            Ok(values) => values.len() == raws.len() && forall|i: int|
                0 <= i < raws.len() ==> is_value_of(#[trigger] values[i], raws[i], null_marker),
            Err(error) => exists|i: int|
                {
                    &&& 0 <= i < raws.len()
                    &&& #[trigger] raws[i] != null_marker
                    &&& decoded(raws[i]) == Err::<Seq<u8>, PgErrorView>(error)
                    &&& forall|j: int|
                        0 <= j < i ==> #[trigger] raws[j] == null_marker || decoded(raws[j]) is Ok
                },
        },
    decreases raws.len(),
{
    if raws.len() > 0 {
        let fewer = raws.drop_last();
        lemma_field_values(fewer, null_marker);
        match field_values(fewer, null_marker) {
            Err(error) => {
                let i = choose|i: int|
                    {
                        &&& 0 <= i < fewer.len()
                        &&& #[trigger] fewer[i] != null_marker
                        &&& decoded(fewer[i]) == Err::<Seq<u8>, PgErrorView>(error)
                        &&& forall|j: int|
                            0 <= j < i ==> #[trigger] fewer[j] == null_marker || decoded(
                                fewer[j],
                            ) is Ok
                    };
                assert(raws[i] == fewer[i]);
                assert forall|j: int| 0 <= j < i implies #[trigger] raws[j] == null_marker
                    || decoded(raws[j]) is Ok by {
                    assert(fewer[j] == raws[j]);
                }
            },
            Ok(values) => match field_value(raws.last(), null_marker) {
                Err(error) => {
                    let last = raws.len() - 1;
                    assert(raws[last] != null_marker);
                    assert forall|j: int| 0 <= j < last implies #[trigger] raws[j] == null_marker
                        || decoded(raws[j]) is Ok by {
                        assert(is_value_of(values[j], fewer[j], null_marker));
                    }
                },
                Ok(value) => {
                    let all = values.push(value);
                    assert forall|i: int| 0 <= i < raws.len() implies is_value_of(
                        #[trigger] all[i],
                        raws[i],
                        null_marker,
                    ) by {
                        if i < fewer.len() {
                            assert(is_value_of(values[i], fewer[i], null_marker));
                        }
                    }
                },
            },
        }
    }
}

/// A record has as many values as it has fields, and the value at each place is that of the field
/// there: none where the field is the null marker as it is written, before any escape is read, and
/// else what the field decodes to. It is a row exactly where these are as many as were expected
/// and each field that is no null marker decodes. The first field that does not decode is what the
/// record is refused for; otherwise it is the number of its fields.
pub proof fn law_values_are_those_of_the_fields(
    record: Seq<u8>,
    delimiter: u8,
    null_marker: Seq<u8>,
    field_count: nat,
)
    ensures
        ({
            let raws = raw_fields(record, delimiter);
            match record_values(record, delimiter, null_marker, field_count) {
                Ok(values) => {
                    &&& raws.len() == field_count
                    &&& values.len() == field_count
                    &&& forall|i: int|
                        0 <= i < field_count ==> is_value_of(
                            #[trigger] values[i],
                            raws[i],
                            null_marker,
                        )
                },
                Err(error) => {
                    ||| exists|i: int|
                        {
                            &&& 0 <= i < raws.len()
                            &&& #[trigger] raws[i] != null_marker
                            &&& decoded(raws[i]) == Err::<Seq<u8>, PgErrorView>(error)
                            &&& forall|j: int|
                                0 <= j < i ==> #[trigger] raws[j] == null_marker || decoded(
                                    raws[j],
                                ) is Ok
                        }
                    ||| raws.len() != field_count && error == PgErrorView::Pedantic(
                        PgErrorCode::BadCopyFileFormat,
                        "COPY row has "@ + decimal(raws.len()) + " columns but expected "@
                            + decimal(field_count),
                    ) && forall|j: int|
                        0 <= j < raws.len() ==> #[trigger] raws[j] == null_marker || decoded(
                            raws[j],
                        ) is Ok
                },
            }
        }),
{
    let raws = raw_fields(record, delimiter);
    lemma_field_values(raws, null_marker);
    if let Ok(values) = field_values(raws, null_marker) {
        assert forall|j: int| 0 <= j < raws.len() implies #[trigger] raws[j] == null_marker
            || decoded(raws[j]) is Ok by {
            assert(is_value_of(values[j], raws[j], null_marker));
        }
    }
}

/// A field that is pushed is none where it is the null marker, whether it is decoded or not; a
/// field that is not decoded is pushed as it is written.
pub proof fn law_pushed_field_is_null_or_said(raw: Seq<u8>, null_marker: Seq<u8>)
    ensures
        pushed_value(null_marker, null_marker, true) == Ok::<Option<Seq<u8>>, PgErrorView>(None),
        pushed_value(null_marker, null_marker, false) == Ok::<Option<Seq<u8>>, PgErrorView>(None),
        raw != null_marker ==> pushed_value(raw, null_marker, false) == Ok::<
            Option<Seq<u8>>,
            PgErrorView,
        >(Some(raw)),
        raw != null_marker ==> match decoded(raw) {
            Ok(value) => pushed_value(raw, null_marker, true) == Ok::<
                Option<Seq<u8>>,
                PgErrorView,
            >(Some(value)),
            Err(error) => pushed_value(raw, null_marker, true) == Err::<
                Option<Seq<u8>>,
                PgErrorView,
            >(error),
        },
{
}

}
