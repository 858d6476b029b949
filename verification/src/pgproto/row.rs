//! Rows of the text format: a record is cut into fields at its delimiters, and each field is
//! freed of its escape sequences.
use crate::ascii::{
    escaped_at, hex_digit, hex_value, same_bytes, BACKSLASH, BACKSPACE, CARRIAGE_RETURN, FORM_FEED,
    LINE_FEED, TAB, VERTICAL_TAB,
};
use crate::errors::{bad_copy_format, PgErrorCode, PgErrorView, PgResult};
use crate::text::{concat3, decimal, decimal_text};
use std::borrow::Cow;
use vstd::prelude::*;

verus! {

/// The answer to data that breaks the format.
pub open spec fn bad_format(reason: Seq<char>) -> PgErrorView {
    PgErrorView::Pedantic(PgErrorCode::BadCopyFileFormat, reason)
}

/// The smaller of a number and the largest byte.
pub open spec fn saturated(value: int) -> int {
    if value > 255 {
        255
    } else {
        value
    }
}

/// Whether a byte is an octal digit.
pub open spec fn is_octal(byte: u8) -> bool {
    0x30 <= byte <= 0x37
}

/// The byte that an escape sequence of a letter stands for; a byte without a meaning of its own
/// stands for itself.
pub open spec fn letter_escape(byte: u8) -> u8 {
    if byte == 0x62 {
        BACKSPACE
    } else if byte == 0x66 {
        FORM_FEED
    } else if byte == 0x6e {
        LINE_FEED
    } else if byte == 0x72 {
        CARRIAGE_RETURN
    } else if byte == 0x74 {
        TAB
    } else if byte == 0x76 {
        VERTICAL_TAB
    } else {
        byte
    }
}

/// The value of the octal digits at the start of `digits`, three at most, and how many they are.
/// A value that no byte holds is brought down to the largest byte.
pub open spec fn octal_run(digits: Seq<u8>) -> (int, int)
    recommends
        digits.len() > 0,
        is_octal(digits[0]),
{
    let first = digits[0] - 0x30;
    if digits.len() < 2 || !is_octal(digits[1]) {
        (first, 1)
    } else {
        let second = saturated(saturated(first * 8) + (digits[1] - 0x30));
        if digits.len() < 3 || !is_octal(digits[2]) {
            (second, 2)
        } else {
            (saturated(saturated(second * 8) + (digits[2] - 0x30)), 3)
        }
    }
}

/// The byte that the escape sequence at the start of `raw` stands for, and its length. `raw`
/// starts with a backslash.
pub open spec fn escape_sequence(raw: Seq<u8>) -> Result<(u8, int), PgErrorView> {
    if raw.len() < 2 {
        Err(bad_format("COPY data ended inside an escape sequence"@))
    } else if raw[1] == 0x78 {
        if raw.len() < 3 {
            Err(bad_format("COPY data ended inside a hexadecimal escape sequence"@))
        } else {
            match hex_digit(raw[2]) {
                None => Err(
                    bad_format(
                        "invalid COPY hexadecimal escape sequence: \\x"@.push(raw[2] as char),
                    ),
                ),
                Some(high) => if raw.len() > 3 && hex_digit(raw[3]) is Some {
                    Ok(((high * 16 + hex_digit(raw[3])->0) as u8, 4))
                } else {
                    Ok((high, 3))
                },
            }
        }
    } else if is_octal(raw[1]) {
        let (value, count) = octal_run(raw.skip(1));
        Ok((value as u8, 1 + count))
    } else {
        Ok((letter_escape(raw[1]), 2))
    }
}

/// A field with each of its escape sequences replaced by the byte that it stands for, or the
/// first thing that is wrong with one.
pub open spec fn decoded(raw: Seq<u8>) -> Result<Seq<u8>, PgErrorView>
    decreases raw.len(),
{
    if raw.len() == 0 {
        Ok(seq![])
    } else if raw[0] != BACKSLASH {
        match decoded(raw.skip(1)) {
            Ok(rest) => Ok(seq![raw[0]] + rest),
            Err(error) => Err(error),
        }
    } else {
        match escape_sequence(raw) {
            Err(error) => Err(error),
            Ok((byte, length)) => match decoded(raw.skip(length)) {
                Ok(rest) => Ok(seq![byte] + rest),
                Err(error) => Err(error),
            },
        }
    }
}

/// Whether the byte at `at` separates two fields: a delimiter that is not escaped. Where the
/// delimiter is the backslash, nothing can be escaped.
pub open spec fn is_separator(record: Seq<u8>, delimiter: u8, at: int) -> bool {
    record[at] == delimiter && (delimiter == BACKSLASH || !escaped_at(record, at))
}

/// Where the field starts that the end of `record[..end]` belongs to.
pub open spec fn field_start(record: Seq<u8>, delimiter: u8, end: int) -> int
    decreases end,
{
    if end <= 0 {
        0
    } else if is_separator(record, delimiter, end - 1) {
        end
    } else {
        field_start(record, delimiter, end - 1)
    }
}

/// The fields of `record[..end]` that a separator ends, as they are written.
pub open spec fn closed_fields(record: Seq<u8>, delimiter: u8, end: int) -> Seq<Seq<u8>>
    decreases end,
{
    if end <= 0 {
        seq![]
    } else if is_separator(record, delimiter, end - 1) {
        closed_fields(record, delimiter, end - 1).push(
            record.subrange(field_start(record, delimiter, end - 1), end - 1),
        )
    } else {
        closed_fields(record, delimiter, end - 1)
    }
}

/// The fields of a record as they are written: what stands between the separators.
pub open spec fn raw_fields(record: Seq<u8>, delimiter: u8) -> Seq<Seq<u8>> {
    closed_fields(record, delimiter, record.len() as int).push(
        record.subrange(field_start(record, delimiter, record.len() as int), record.len() as int),
    )
}

/// The value of a field: no value where it is the null marker as it is written, else the decoded
/// field.
pub open spec fn field_value(raw: Seq<u8>, null_marker: Seq<u8>) -> Result<
    Option<Seq<u8>>,
    PgErrorView,
> {
    if raw == null_marker {
        Ok(None)
    } else {
        match decoded(raw) {
            Ok(value) => Ok(Some(value)),
            Err(error) => Err(error),
        }
    }
}

/// The value that a field is pushed with, where `has_escape` says whether it is to be decoded.
pub open spec fn pushed_value(raw: Seq<u8>, null_marker: Seq<u8>, has_escape: bool) -> Result<
    Option<Seq<u8>>,
    PgErrorView,
> {
    if has_escape {
        field_value(raw, null_marker)
    } else if raw == null_marker {
        Ok(None)
    } else {
        Ok(Some(raw))
    }
}

/// The values of a list of fields, or what is wrong with the first that has none.
pub open spec fn field_values(raws: Seq<Seq<u8>>, null_marker: Seq<u8>) -> Result<
    Seq<Option<Seq<u8>>>,
    PgErrorView,
>
    decreases raws.len(),
{
    if raws.len() == 0 {
        Ok(seq![])
    } else {
        match field_values(raws.drop_last(), null_marker) {
            Err(error) => Err(error),
            Ok(values) => match field_value(raws.last(), null_marker) {
                Err(error) => Err(error),
                Ok(value) => Ok(values.push(value)),
            },
        }
    }
}

/// The values of the fields of a record of `field_count` fields.
pub open spec fn record_values(
    record: Seq<u8>,
    delimiter: u8,
    null_marker: Seq<u8>,
    field_count: nat,
) -> Result<Seq<Option<Seq<u8>>>, PgErrorView> {
    match field_values(raw_fields(record, delimiter), null_marker) {
        Err(error) => Err(error),
        Ok(values) => if values.len() != field_count {
            Err(
                bad_format(
                    "COPY row has "@ + decimal(values.len()) + " columns but expected "@ + decimal(
                        field_count,
                    ),
                ),
            )
        } else {
            Ok(values)
        },
    }
}

/// The bytes of a field.
pub open spec fn cow_value(field: Option<Cow<'_, [u8]>>) -> Option<Seq<u8>> {
    match field {
        Some(value) => Some(value@),
        None => None,
    }
}

/// The bytes of each field of a list.
pub open spec fn cow_values(fields: Seq<Option<Cow<'_, [u8]>>>) -> Seq<Option<Seq<u8>>> {
    fields.map_values(|field: Option<Cow<'_, [u8]>>| cow_value(field))
}

/// Appends an octal digit to a value, up to the largest byte.
fn append_octal(value: u8, digit: u8) -> (result: u8)
    requires
        digit < 8,
    ensures
        result == saturated(saturated(value * 8) + digit),
{
    let shifted: u16 = if value > 31 {
        255
    } else {
        value as u16 * 8
    };
    let sum: u16 = shifted + digit as u16;
    if sum > 255 {
        255
    } else {
        sum as u8
    }
}

/// Cuts records into fields.
#[derive(Clone, Debug)]
pub struct TextRowParser {
    pub delimiter: u8,
    pub null_marker: Vec<u8>,
    pub field_count: usize,
}

impl TextRowParser {
    /// A parser of rows of `field_count` fields.
    pub fn new(delimiter: u8, null_marker: Vec<u8>, field_count: usize) -> (parser: Self)
        ensures
            parser.delimiter == delimiter,
            parser.null_marker@ == null_marker@,
            parser.field_count == field_count,
    {
        TextRowParser { delimiter, null_marker, field_count }
    }

    /// Frees a field of its escape sequences.
    pub fn decode_text_field(&self, raw: &[u8]) -> (result: PgResult<Vec<u8>>)
        ensures
            match decoded(raw@) {
                Ok(value) => result matches Ok(bytes) && bytes@ == value,
                Err(error) => result matches Err(answer) && answer@ == error,
            },
    {
        let mut bytes: Vec<u8> = Vec::with_capacity(raw.len());
        let mut idx: usize = 0;
        assert(raw@.skip(0) =~= raw@);
        while idx < raw.len()
            invariant
                idx <= raw@.len(),
                match decoded(raw@.skip(idx as int)) {
                    Ok(rest) => decoded(raw@) matches Ok(value) && value == bytes@ + rest,
                    Err(error) => decoded(raw@) == Err::<Seq<u8>, PgErrorView>(error),
                },
            decreases raw@.len() - idx,
        {
            let ghost tail = raw@.skip(idx as int);
            let ghost before = bytes@;
            let byte = raw[idx];
            if byte != BACKSLASH {
                bytes.push(byte);
                idx += 1;
                assert(tail.skip(1) =~= raw@.skip(idx as int));
                assert(forall|rest: Seq<u8>| before + (seq![byte] + rest) =~= bytes@ + rest);
                continue ;
            }
            idx += 1;
            if idx == raw.len() {
                return Err(
                    bad_copy_format("COPY data ended inside an escape sequence".to_owned()),
                );
            }
            let escaped = raw[idx];
            assert(escaped == tail[1]);
            let decoded_byte: u8 = match escaped {
                0x62 => {
                    idx += 1;
                    BACKSPACE
                },
                0x66 => {
                    idx += 1;
                    FORM_FEED
                },
                0x6e => {
                    idx += 1;
                    LINE_FEED
                },
                0x72 => {
                    idx += 1;
                    CARRIAGE_RETURN
                },
                0x74 => {
                    idx += 1;
                    TAB
                },
                0x76 => {
                    idx += 1;
                    VERTICAL_TAB
                },
                0x78 => {
                    if idx + 1 == raw.len() {
                        return Err(
                            bad_copy_format(
                                "COPY data ended inside a hexadecimal escape sequence".to_owned(),
                            ),
                        );
                    }
                    let first = raw[idx + 1];
                    assert(first == tail[2]);
                    match hex_value(first) {
                        None => {
                            let mut reason =
                                "invalid COPY hexadecimal escape sequence: \\x".to_owned();
                            reason.push(first as char);
                            return Err(bad_copy_format(reason));
                        },
                        Some(high) => {
                            idx += 2;
                            let mut value: u8 = high;
                            if idx < raw.len() {
                                assert(raw@[idx as int] == tail[3]);
                                if let Some(low) = hex_value(raw[idx]) {
                                    value = value * 16 + low;
                                    idx += 1;
                                }
                            }
                            value
                        },
                    }
                },
                0x30..=0x37 => {
                    let ghost digits = tail.skip(1);
                    let mut value: u8 = escaped - 0x30;
                    let mut count: usize = 1;
                    let ghost start = idx;
                    idx += 1;
                    while count < 3 && idx < raw.len() && 0x30 <= raw[idx] && raw[idx] <= 0x37
                        invariant
                            1 <= count <= 3,
                            idx == start + count,
                            start + count <= raw@.len(),
                            digits == raw@.skip(start as int),
                            is_octal(digits[0]),
                            count == 1 ==> value == digits[0] - 0x30,
                            count >= 2 ==> is_octal(digits[1]),
                            count == 2 ==> value == saturated(
                                saturated((digits[0] - 0x30) * 8) + (digits[1] - 0x30),
                            ),
                            count == 3 ==> is_octal(digits[2]) && octal_run(digits) == (
                                value as int,
                                3int,
                            ),
                        decreases 3 - count,
                    {
                        assert(raw@[idx as int] == digits[count as int]);
                        value = append_octal(value, raw[idx] - 0x30);
                        idx += 1;
                        count += 1;
                    }
                    assert(idx < raw@.len() ==> raw@[idx as int] == digits[count as int]);
                    assert(octal_run(digits) == (value as int, count as int));
                    value
                },
                other => {
                    idx += 1;
                    other
                },
            };
            assert(escape_sequence(tail) == Ok::<(u8, int), PgErrorView>(
                (decoded_byte, idx - (raw@.len() - tail.len())),
            ));
            bytes.push(decoded_byte);
            assert(tail.skip(idx - (raw@.len() - tail.len())) =~= raw@.skip(idx as int));
            assert(forall|rest: Seq<u8>| before + (seq![decoded_byte] + rest) =~= bytes@ + rest);
        }
        assert(raw@.skip(idx as int) =~= seq![]);
        assert(bytes@ + Seq::<u8>::empty() =~= bytes@);
        Ok(bytes)
    }

    /// Adds the field `record[start..end]` to `fields`. It is decoded where `has_escape` says that
    /// it holds an escape sequence.
    pub fn push_field<'a>(
        &self,
        record: &'a [u8],
        start: usize,
        end: usize,
        has_escape: bool,
        fields: &mut Vec<Option<Cow<'a, [u8]>>>,
    ) -> (result: PgResult<()>)
        requires
            start <= end <= record@.len(),
        ensures
            match pushed_value(
                record@.subrange(start as int, end as int),
                self.null_marker@,
                has_escape,
            ) {
                Ok(value) => result is Ok && cow_values(final(fields)@) == cow_values(
                    old(fields)@,
                ).push(value),
                Err(error) => result matches Err(answer) && answer@ == error && final(fields)@
                    == old(fields)@,
            },
    {
        let raw = &record[start..end];
        if same_bytes(raw, self.null_marker.as_slice()) {
            fields.push(None);
        } else if has_escape {
            match self.decode_text_field(raw) {
                Ok(value) => fields.push(Some(Cow::Owned(value))),
                Err(error) => return Err(error),
            }
        } else {
            fields.push(Some(Cow::Borrowed(raw)));
        }
        assert(cow_values(fields@) =~= cow_values(old(fields)@).push(cow_value(fields@.last())));
        Ok(())
    }

    /// Cuts a record into its fields.
    pub fn split_fields<'a>(&self, record: &'a [u8]) -> (result: PgResult<
        Vec<Option<Cow<'a, [u8]>>>,
    >)
        ensures
            match field_values(raw_fields(record@, self.delimiter), self.null_marker@) {
                Ok(values) => result matches Ok(fields) && cow_values(fields@) == values,
                Err(error) => result matches Err(answer) && answer@ == error,
            },
    {
        let mut fields: Vec<Option<Cow<'a, [u8]>>> = Vec::with_capacity(self.field_count);
        let mut start: usize = 0;
        let mut escaped = false;
        let mut has_escape = false;
        let mut idx: usize = 0;
        let ghost delimiter = self.delimiter;
        assert(cow_values(fields@) =~= seq![]);
        assert(!record@.subrange(0, 0).contains(BACKSLASH));
        while idx < record.len()
            invariant
                idx <= record@.len(),
                start <= idx,
                delimiter == self.delimiter,
                start == field_start(record@, delimiter, idx as int),
                escaped == (delimiter != BACKSLASH && escaped_at(record@, idx as int)),
                has_escape == record@.subrange(start as int, idx as int).contains(BACKSLASH),
                field_values(closed_fields(record@, delimiter, idx as int), self.null_marker@)
                    == Ok::<Seq<Option<Seq<u8>>>, PgErrorView>(cow_values(fields@)),
                escaped ==> has_escape,
            decreases record@.len() - idx,
        {
            let byte = record[idx];
            let ghost closed = closed_fields(record@, delimiter, idx as int);
            let ghost raw = record@.subrange(start as int, idx as int);
            if !escaped && byte == self.delimiter {
                assert(closed_fields(record@, delimiter, idx + 1) == closed.push(raw));
                assert(closed.push(raw).drop_last() =~= closed);
                proof {
                    lemma_pushed_value(raw, self.null_marker@, has_escape);
                }
                match self.push_field(record, start, idx, has_escape, &mut fields) {
                    Ok(()) => {},
                    Err(error) => {
                        proof {
                            lemma_closed_fields_prefix(
                                record@,
                                delimiter,
                                idx + 1,
                                record@.len() as int,
                            );
                            assert(closed.push(raw) =~= raw_fields(record@, delimiter).take(
                                closed.push(raw).len() as int,
                            ));
                            lemma_field_values_error(
                                closed.push(raw),
                                raw_fields(record@, delimiter),
                                self.null_marker@,
                            );
                        }
                        return Err(error);
                    },
                }
                start = idx + 1;
                has_escape = false;
                idx += 1;
                assert(!record@.subrange(start as int, idx as int).contains(BACKSLASH));
                continue ;
            }
            assert(record@.subrange(start as int, idx + 1) =~= raw.push(byte));
            if escaped {
                escaped = false;
                assert(raw.push(byte).contains(BACKSLASH)) by {
                    let at = choose|at: int| 0 <= at < raw.len() && raw[at] == BACKSLASH;
                    assert(raw.push(byte)[at] == BACKSLASH);
                }
            } else if byte == BACKSLASH {
                escaped = true;
                has_escape = true;
                assert(raw.push(byte)[raw.len() as int] == BACKSLASH);
            } else {
                assert(has_escape == raw.push(byte).contains(BACKSLASH)) by {
                    if has_escape {
                        let at = choose|at: int| 0 <= at < raw.len() && raw[at] == BACKSLASH;
                        assert(raw.push(byte)[at] == BACKSLASH);
                    } else if raw.push(byte).contains(BACKSLASH) {
                        let at = choose|at: int|
                            0 <= at < raw.push(byte).len() && raw.push(byte)[at] == BACKSLASH;
                        assert(raw[at] == BACKSLASH);
                    }
                }
            }
            idx += 1;
        }
        let ghost closed = closed_fields(record@, delimiter, record@.len() as int);
        let ghost raw = record@.subrange(start as int, record@.len() as int);
        assert(raw_fields(record@, delimiter) == closed.push(raw));
        assert(closed.push(raw).drop_last() =~= closed);
        proof {
            lemma_pushed_value(raw, self.null_marker@, has_escape);
        }
        match self.push_field(record, start, record.len(), has_escape, &mut fields) {
            Ok(()) => Ok(fields),
            Err(error) => Err(error),
        }
    }

    /// Cuts a record into its fields, and checks that there are as many as a row has.
    pub fn parse_record<'a>(&self, record: &'a [u8]) -> (result: PgResult<
        Vec<Option<Cow<'a, [u8]>>>,
    >)
        ensures
            match record_values(
                record@,
                self.delimiter,
                self.null_marker@,
                self.field_count as nat,
            ) {
                Ok(values) => result matches Ok(fields) && cow_values(fields@) == values,
                Err(error) => result matches Err(answer) && answer@ == error,
            },
    {
        let fields = match self.split_fields(record) {
            Ok(fields) => fields,
            Err(error) => return Err(error),
        };
        if fields.len() != self.field_count {
            let found = decimal_text(fields.len() as u64);
            let expected = decimal_text(self.field_count as u64);
            let reason = concat3("COPY row has ", found.as_str(), " columns but expected ").concat(
                expected.as_str(),
            );
            return Err(bad_copy_format(reason));
        }
        Ok(fields)
    }
}

/// A field without a backslash stands for itself.
pub proof fn lemma_decoded_plain(raw: Seq<u8>)
    requires
        !raw.contains(BACKSLASH),
    ensures
        decoded(raw) == Ok::<Seq<u8>, PgErrorView>(raw),
    decreases raw.len(),
{
    if raw.len() > 0 {
        assert(raw[0] != BACKSLASH);
        assert forall|at: int| 0 <= at < raw.skip(1).len() implies raw.skip(1)[at] != BACKSLASH by {
            assert(raw[at + 1] != BACKSLASH);
        }
        lemma_decoded_plain(raw.skip(1));
        assert(seq![raw[0]] + raw.skip(1) =~= raw);
    } else {
        assert(raw =~= seq![]);
    }
}

/// A field that is decoded exactly where it holds a backslash is pushed with its value.
proof fn lemma_pushed_value(raw: Seq<u8>, null_marker: Seq<u8>, has_escape: bool)
    requires
        has_escape == raw.contains(BACKSLASH),
    ensures
        pushed_value(raw, null_marker, has_escape) == field_value(raw, null_marker),
{
    if !has_escape {
        lemma_decoded_plain(raw);
    }
}

/// What a separator has ended stays ended.
proof fn lemma_closed_fields_prefix(record: Seq<u8>, delimiter: u8, end: int, later: int)
    requires
        0 <= end <= later,
    ensures
        closed_fields(record, delimiter, end).len() <= closed_fields(
            record,
            delimiter,
            later,
        ).len(),
        closed_fields(record, delimiter, end) == closed_fields(record, delimiter, later).take(
            closed_fields(record, delimiter, end).len() as int,
        ),
    decreases later,
{
    let early = closed_fields(record, delimiter, end);
    let late = closed_fields(record, delimiter, later);
    if end < later {
        lemma_closed_fields_prefix(record, delimiter, end, later - 1);
        assert(early =~= late.take(early.len() as int));
    } else {
        assert(early =~= late.take(early.len() as int));
    }
}

/// The first field without a value decides for the whole list.
proof fn lemma_field_values_error(front: Seq<Seq<u8>>, raws: Seq<Seq<u8>>, null_marker: Seq<u8>)
    requires
        front.len() <= raws.len(),
        front == raws.take(front.len() as int),
        field_values(front, null_marker) is Err,
    ensures
        field_values(raws, null_marker) == field_values(front, null_marker),
    decreases raws.len(),
{
    if front.len() < raws.len() {
        assert(front =~= raws.drop_last().take(front.len() as int));
        lemma_field_values_error(front, raws.drop_last(), null_marker);
    } else {
        assert(front =~= raws);
    }
}

}
