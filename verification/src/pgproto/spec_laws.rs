//! What an accepted COPY keeps of its command, and what a session for it starts with.
use crate::errors::{PgErrorView, SbroadErrorView};
use crate::pgproto::decoding_laws::{
    is_field_text, is_value_of, law_record_is_cut_at_delimiters,
    law_values_are_those_of_the_fields,
};
use crate::pgproto::row::{raw_fields, record_values};
use crate::pgproto::session::{fields_of, CopyFieldView};
use crate::pgproto::spec::{accepted, delimiter_byte, format_name, CopySpec, CopySpecView};
use crate::pgproto::start::{started_settings, type_oid, type_oids};
use crate::sql::command::format_of;
use crate::sql::option_laws::law_format_names;
use crate::sql::statement::{
    CopyFormat, CopyOptionsView, CopyStatementView, CopyTableTargetView,
};
use crate::storage::target::PreparedCopyTarget;
use crate::text::{lower, smol_text};
use postgres_types::Type;
use vstd::prelude::*;
use vstd::utf8::{encode_utf8, encode_utf8_decode_utf8, is_ascii_chars, is_ascii_chars_encode_utf8};

verus! {

/// Whether a delimiter can be taken: it is not given, or a single byte.
pub open spec fn can_delimit(delimiter: Option<Seq<char>>) -> bool {
    delimiter matches Some(text) ==> encode_utf8(text).len() == 1
}

/// A COPY is accepted exactly where it reads rows, in the text format, with a delimiter of one
/// byte or none given. What is accepted has the table, the columns and the header of the command.
pub proof fn law_accepted_copy_is_that_of_the_command(
    table: CopyTableTargetView,
    options: CopyOptionsView,
)
    ensures
        accepted(CopyStatementView::From { table, options }) is Ok <==> options.format
            == CopyFormat::Text && can_delimit(options.delimiter),
        accepted(CopyStatementView::To { table, options }) is Err,
        accepted(CopyStatementView::From { table, options }) matches Ok(spec) ==> spec.table
            == table && spec.header == options.header,
{
}

/// The delimiter of an accepted COPY is the byte that was given, and the tab where none was.
pub proof fn law_delimiter_is_the_given_byte(
    table: CopyTableTargetView,
    options: CopyOptionsView,
)
    ensures
        accepted(CopyStatementView::From { table, options }) matches Ok(spec) ==> match
            options.delimiter {
            Some(text) => encode_utf8(text) == seq![spec.delimiter],
            None => spec.delimiter == 0x09,
        },
{
    if let Some(text) = options.delimiter {
        if encode_utf8(text).len() == 1 {
            assert(encode_utf8(text) =~= seq![encode_utf8(text)[0]]);
        }
    }
}

/// Every ASCII character can be the delimiter, and is the byte of its number; nothing that is
/// longer than one byte can, nor nothing at all.
pub proof fn law_ascii_characters_delimit(ch: char, text: Seq<char>)
    requires
        (ch as u32) < 0x80,
    ensures
        delimiter_byte(seq![ch]) == Ok::<u8, PgErrorView>(ch as u8),
        encode_utf8(text).len() != 1 ==> delimiter_byte(text) == Err::<u8, PgErrorView>(
            PgErrorView::FeatureNotSupported("COPY delimiter must be a single-byte character"@),
        ),
        delimiter_byte(seq![]) is Err,
{
    assert(is_ascii_chars(seq![ch]));
    is_ascii_chars_encode_utf8(seq![ch]);
    assert(encode_utf8(seq![]).len() == 0);
}

/// The null marker of an accepted COPY is the UTF-8 of the text that was given, whatever it is, the
/// empty one included; where none was given, it is a backslash and an N.
pub proof fn law_null_marker_is_the_given_text(
    table: CopyTableTargetView,
    options: CopyOptionsView,
)
    ensures
        accepted(CopyStatementView::From { table, options }) matches Ok(spec) ==> match
            options.null_string {
            Some(text) => spec.null_marker == encode_utf8(text),
            None => spec.null_marker == seq![0x5cu8, 0x4eu8],
        },
{
    reveal_strlit("\\N");
    assert(is_ascii_chars("\\N"@));
    is_ascii_chars_encode_utf8("\\N"@);
    assert(encode_utf8("\\N"@) =~= seq![0x5cu8, 0x4eu8]);
}

/// Different texts for null are different null markers: two commands that are accepted with the
/// same marker were given the same text.
pub proof fn law_different_null_texts_are_different_markers(
    left: CopyOptionsView,
    right: CopyOptionsView,
    table: CopyTableTargetView,
)
    requires
        accepted(CopyStatementView::From { table, options: left }) is Ok,
        accepted(CopyStatementView::From { table, options: right }) is Ok,
        left.null_string is Some,
        right.null_string is Some,
        accepted(CopyStatementView::From { table, options: left })->Ok_0.null_marker == accepted(
            CopyStatementView::From { table, options: right },
        )->Ok_0.null_marker,
    ensures
        left.null_string == right.null_string,
{
    law_null_marker_is_the_given_text(table, left);
    law_null_marker_is_the_given_text(table, right);
    encode_utf8_decode_utf8(left.null_string->0);
    encode_utf8_decode_utf8(right.null_string->0);
}

/// Under an accepted COPY that was given a text for null, a field that is written as that text is
/// null, at whatever place of the row; with the empty text, an empty field is.
pub proof fn law_field_of_the_given_text_is_null(
    table: CopyTableTargetView,
    options: CopyOptionsView,
    record: Seq<u8>,
    field_count: nat,
    at: int,
)
    requires
        accepted(CopyStatementView::From { table, options }) is Ok,
        options.null_string is Some,
    ensures
        ({
            let spec = accepted(CopyStatementView::From { table, options })->Ok_0;
            let raws = raw_fields(record, spec.delimiter);
            record_values(record, spec.delimiter, spec.null_marker, field_count) matches Ok(values)
                ==> 0 <= at < raws.len() ==> (values[at] is None <==> raws[at] == encode_utf8(
                options.null_string->0,
            ))
        }),
        ({
            let spec = accepted(CopyStatementView::From { table, options })->Ok_0;
            options.null_string->0.len() == 0 ==> record_values(
                seq![],
                spec.delimiter,
                spec.null_marker,
                1,
            ) == Ok::<Seq<Option<Seq<u8>>>, PgErrorView>(seq![None::<Seq<u8>>])
        }),
{
    let spec = accepted(CopyStatementView::From { table, options })->Ok_0;
    law_null_marker_is_the_given_text(table, options);
    law_values_are_those_of_the_fields(record, spec.delimiter, spec.null_marker, field_count);
    if let Ok(values) = record_values(record, spec.delimiter, spec.null_marker, field_count) {
        if 0 <= at < raw_fields(record, spec.delimiter).len() {
            assert(is_value_of(
                values[at],
                raw_fields(record, spec.delimiter)[at],
                spec.null_marker,
            ));
        }
    }
    if options.null_string->0.len() == 0 {
        let empty = Seq::<u8>::empty();
        assert(spec.null_marker =~= empty);
        law_record_is_cut_at_delimiters(empty, spec.delimiter, empty);
        law_values_are_those_of_the_fields(empty, spec.delimiter, spec.null_marker, 1);
        let raws = raw_fields(empty, spec.delimiter);
        assert(raws == seq![empty]);
        assert(raws[0] == spec.null_marker);
        let values = record_values(empty, spec.delimiter, spec.null_marker, 1)->Ok_0;
        assert(is_value_of(values[0], raws[0], spec.null_marker));
        assert(values =~= seq![None::<Seq<u8>>]);
    }
}

/// What a COPY is refused with: rows that would go to the client, or a format that is not text.
pub proof fn law_unsupported_copies_are_told(
    table: CopyTableTargetView,
    options: CopyOptionsView,
)
    ensures
        accepted(CopyStatementView::To { table, options }) == Err::<CopySpecView, PgErrorView>(
            PgErrorView::FeatureNotSupported("COPY TO is not supported"@),
        ),
        options.format == CopyFormat::Csv ==> accepted(CopyStatementView::From { table, options })
            == Err::<CopySpecView, PgErrorView>(
            PgErrorView::FeatureNotSupported(
                "COPY format "@ + "csv"@ + " is not supported"@,
            ),
        ),
        options.format == CopyFormat::Binary ==> accepted(
            CopyStatementView::From { table, options },
        ) == Err::<CopySpecView, PgErrorView>(
            PgErrorView::FeatureNotSupported(
                "COPY format "@ + "binary"@ + " is not supported"@,
            ),
        ),
        options.format == CopyFormat::Text && !can_delimit(options.delimiter) ==> accepted(
            CopyStatementView::From { table, options },
        ) == Err::<CopySpecView, PgErrorView>(
            PgErrorView::FeatureNotSupported("COPY delimiter must be a single-byte character"@),
        ),
{
}

/// A session for an accepted COPY reads rows as the command says, names the table that was found,
/// and expects a field for each of its columns, of the type of that column. It writes batches of at
/// most a thousand and twenty-four rows and a mebibyte, and takes records of at most a mebibyte.
pub proof fn law_session_starts_as_accepted<V, C>(
    spec: CopySpec,
    target: PreparedCopyTarget<V, C>,
    at: int,
)
    ensures
        ({
            let settings = started_settings(spec, target);
            &&& settings.delimiter == spec.delimiter
            &&& settings.null_marker == spec.null_marker@
            &&& settings.header == spec.header
            &&& settings.table_name == smol_text(target.table_name)
            &&& settings.field_oids.len() == target.field_types@.len()
            &&& 0 <= at < target.field_types@.len() ==> settings.field_oids[at] == type_oid(
                target.field_types@[at],
            )
            &&& settings.batch_size == 1024
            &&& settings.batch_byte_limit == 1048576
            &&& settings.record_byte_limit == 1048576
        }),
{
}

/// The fields of a record have its values, in their places, and each the type of the column at its
/// place.
pub proof fn law_fields_have_the_types_of_their_columns<V, C>(
    spec: CopySpec,
    target: PreparedCopyTarget<V, C>,
    record: Seq<u8>,
    at: int,
)
    ensures
        ({
            let values = record_values(
                record,
                spec.delimiter,
                spec.null_marker@,
                target.field_types@.len(),
            );
            match fields_of(started_settings(spec, target), record) {
                Ok(fields) => {
                    &&& values is Ok
                    &&& fields.len() == target.field_types@.len()
                    &&& 0 <= at < fields.len() ==> fields[at] == (CopyFieldView {
                        value: values->Ok_0[at],
                        oid: type_oid(target.field_types@[at]),
                    })
                },
                Err(error) => values == Err::<Seq<Option<Seq<u8>>>, PgErrorView>(error),
            }
        }),
{
    law_values_are_those_of_the_fields(
        record,
        spec.delimiter,
        spec.null_marker@,
        target.field_types@.len(),
    );
    assert(type_oids(target.field_types@).len() == target.field_types@.len());
}

/// An accepted COPY is seen as what it holds, field by field.
pub proof fn law_accepted_copy_is_seen_as_it_is(spec: CopySpec, at: int)
    ensures
        spec@.delimiter == spec.delimiter,
        spec@.null_marker == spec.null_marker@,
        spec@.header == spec.header,
        spec@.table.table_name == smol_text(spec.table_name),
        match spec.schema_name {
            Some(name) => spec@.table.schema_name == Some(smol_text(name)),
            None => spec@.table.schema_name is None,
        },
        spec@.table.columns.len() == spec.columns@.len(),
        0 <= at < spec.columns@.len() ==> spec@.table.columns[at] == smol_text(spec.columns@[at]),
{
}

/// The name of a format reads back as that format, so that no two have the same name, and stands in
/// lower case.
pub proof fn law_format_names_read_back(format: CopyFormat)
    ensures
        format_of(format_name(format)) == Ok::<CopyFormat, SbroadErrorView>(format),
        lower(format_name(format)) == format_name(format),
{
    reveal_strlit("text");
    reveal_strlit("csv");
    reveal_strlit("binary");
    assert(lower("text"@) =~= "text"@);
    assert(lower("csv"@) =~= "csv"@);
    assert(lower("binary"@) =~= "binary"@);
    law_format_names(format_name(format));
}

}
