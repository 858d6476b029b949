//! What a COPY command comes down to once it is accepted.
use crate::ascii::TAB;
use crate::errors::{PgError, PgErrorView, PgResult};
use crate::sql::statement::{CopyFormat, CopyStatement, CopyStatementView, CopyTableTargetView};
use crate::text::{concat3, optional_text, smol, smol_text, texts};
use smol_str::SmolStr;
use vstd::prelude::*;
use vstd::string::StrSliceExecFns;
use vstd::utf8::encode_utf8;

verus! {

/// How many rows a batch holds where nothing else is asked for.
pub const DEFAULT_COPY_BATCH_SIZE: usize = 1024;

/// How many bytes a batch holds.
pub const DEFAULT_COPY_BATCH_BYTES: usize = 1048576;

/// How many bytes a record holds.
pub const DEFAULT_COPY_RECORD_BYTES: usize = 1048576;

/// The answer to a delimiter of any other length than one byte.
pub open spec fn delimiter_refused() -> PgErrorView {
    PgErrorView::FeatureNotSupported("COPY delimiter must be a single-byte character"@)
}

/// The byte that a delimiter is.
pub open spec fn delimiter_byte(delimiter: Seq<char>) -> Result<u8, PgErrorView> {
    if encode_utf8(delimiter).len() == 1 {
        Ok(encode_utf8(delimiter)[0])
    } else {
        Err(delimiter_refused())
    }
}

/// Reads a delimiter, which is a single byte.
pub fn parse_copy_delimiter(delimiter: &str) -> (result: PgResult<u8>)
    ensures
        match delimiter_byte(delimiter@) {
            Ok(byte) => result matches Ok(found) && found == byte,
            Err(error) => result matches Err(answer) && answer@ == error,
        },
{
    let bytes = delimiter.as_bytes();
    if bytes.len() != 1 {
        return Err(
            PgError::FeatureNotSupported(smol("COPY delimiter must be a single-byte character")),
        );
    }
    Ok(bytes[0])
}

/// The name of a format.
pub open spec fn format_name(format: CopyFormat) -> Seq<char> {
    match format {
        CopyFormat::Text => "text"@,
        CopyFormat::Csv => "csv"@,
        CopyFormat::Binary => "binary"@,
    }
}

/// The name of a format.
pub fn copy_format_name(format: CopyFormat) -> (name: &'static str)
    ensures
        name@ == format_name(format),
{
    match format {
        CopyFormat::Text => "text",
        CopyFormat::Csv => "csv",
        CopyFormat::Binary => "binary",
    }
}

/// The number of rows of a batch: what was asked for, which must not be zero, or the default.
pub fn resolve_copy_batch_size(batch_size: Option<usize>) -> (result: PgResult<usize>)
    ensures
        match batch_size {
            None => result matches Ok(size) && size == DEFAULT_COPY_BATCH_SIZE,
            Some(0) => result matches Err(answer) && answer@ == PgErrorView::FeatureNotSupported(
                "COPY batch_size must be greater than zero"@,
            ),
            Some(asked) => result matches Ok(size) && size == asked,
        },
{
    let batch_size: usize = match batch_size {
        Some(batch_size) => batch_size,
        None => DEFAULT_COPY_BATCH_SIZE,
    };
    if batch_size == 0 {
        return Err(
            PgError::FeatureNotSupported(smol("COPY batch_size must be greater than zero")),
        );
    }
    Ok(batch_size)
}

/// An accepted COPY command: where the rows go, and how they are written.
#[derive(Clone, Debug)]
pub struct CopySpec {
    pub schema_name: Option<SmolStr>,
    pub table_name: SmolStr,
    pub columns: Vec<SmolStr>,
    pub delimiter: u8,
    pub null_marker: Vec<u8>,
    pub header: bool,
}

/// An accepted command with its texts as sequences of characters.
#[verifier::ext_equal]
pub struct CopySpecView {
    pub table: CopyTableTargetView,
    pub delimiter: u8,
    pub null_marker: Seq<u8>,
    pub header: bool,
}

impl View for CopySpec {
    type V = CopySpecView;

    open spec fn view(&self) -> CopySpecView {
        CopySpecView {
            table: CopyTableTargetView {
                schema_name: optional_text(self.schema_name),
                table_name: smol_text(self.table_name),
                columns: texts(self.columns@),
            },
            delimiter: self.delimiter,
            null_marker: self.null_marker@,
            header: self.header,
        }
    }
}

/// What the client is to be answered, or how its rows are to be read. Rows are read in the text
/// format alone; without a delimiter it is the tab, without a null marker `\N`.
pub open spec fn accepted(statement: CopyStatementView) -> Result<CopySpecView, PgErrorView> {
    match statement {
        CopyStatementView::To { table, options } => Err(
            PgErrorView::FeatureNotSupported("COPY TO is not supported"@),
        ),
        CopyStatementView::From { table, options } => if options.format != CopyFormat::Text {
            Err(
                PgErrorView::FeatureNotSupported(
                    "COPY format "@ + format_name(options.format) + " is not supported"@,
                ),
            )
        } else {
            let delimiter = match options.delimiter {
                None => Ok(TAB),
                Some(delimiter) => delimiter_byte(delimiter),
            };
            match delimiter {
                Err(error) => Err(error),
                Ok(delimiter) => Ok(
                    CopySpecView {
                        table,
                        delimiter,
                        null_marker: match options.null_string {
                            None => encode_utf8("\\N"@),
                            Some(null_string) => encode_utf8(null_string),
                        },
                        header: options.header,
                    },
                ),
            }
        },
    }
}

impl CopySpec {
    /// Accepts a command, or says why it is not supported.
    pub fn try_from_statement(statement: CopyStatement) -> (result: PgResult<Self>)
        ensures
            match accepted(statement@) {
                Ok(spec) => result matches Ok(found) && found@ == spec,
                Err(error) => result matches Err(answer) && answer@ == error,
            },
    {
        let copy_from = match statement {
            CopyStatement::From(copy_from) => copy_from,
            CopyStatement::To(_) => {
                return Err(PgError::FeatureNotSupported(smol("COPY TO is not supported")));
            },
        };
        if copy_from.options.format != CopyFormat::Text {
            let reason = concat3(
                "COPY format ",
                copy_format_name(copy_from.options.format),
                " is not supported",
            );
            return Err(PgError::FeatureNotSupported(smol(reason.as_str())));
        }
        let delimiter: u8 = match &copy_from.options.delimiter {
            Some(delimiter) => match parse_copy_delimiter(delimiter.as_str()) {
                Ok(byte) => byte,
                Err(error) => return Err(error),
            },
            None => TAB,
        };
        let null_marker: Vec<u8> = match &copy_from.options.null_string {
            Some(null_string) => null_string.as_str().as_bytes_vec(),
            None => "\\N".as_bytes_vec(),
        };
        Ok(
            CopySpec {
                schema_name: copy_from.table.schema_name,
                table_name: copy_from.table.table_name,
                columns: copy_from.table.columns,
                delimiter,
                null_marker,
                header: copy_from.options.header,
            },
        )
    }
}

/// An accepted COPY command with its text, and whether that is audited and logged.
#[derive(Clone, Debug)]
pub struct PreparedCopy {
    pub spec: CopySpec,
    pub query_text: SmolStr,
    pub audit_enabled: bool,
    pub sql_log_enabled: bool,
}

impl PreparedCopy {
    /// Accepts a command. Whether it is audited is for the audit policy to say, which may fail;
    /// whether it is logged is a setting, which may be without a value.
    pub fn try_from_statement(
        statement: CopyStatement,
        query_text: &str,
        audit_enabled: PgResult<bool>,
        sql_log: Option<bool>,
        default_sql_log: bool,
    ) -> (result: PgResult<Self>)
        ensures
            match accepted(statement@) {
                Err(error) => result matches Err(answer) && answer@ == error,
                Ok(spec) => match audit_enabled {
                    Err(error) => result matches Err(answer) && answer@ == error@,
                    Ok(audit_enabled) => {
                        &&& result matches Ok(prepared)
                        &&& prepared.spec@ == spec
                        &&& smol_text(prepared.query_text) == query_text@
                        &&& prepared.audit_enabled == audit_enabled
                        &&& prepared.sql_log_enabled == match sql_log {
                            Some(enabled) => enabled,
                            None => default_sql_log,
                        }
                    },
                },
            },
    {
        let spec = match CopySpec::try_from_statement(statement) {
            Ok(spec) => spec,
            Err(error) => return Err(error),
        };
        let audit_enabled = match audit_enabled {
            Ok(audit_enabled) => audit_enabled,
            Err(error) => return Err(error),
        };
        let sql_log_enabled = match sql_log {
            Some(enabled) => enabled,
            None => default_sql_log,
        };
        Ok(PreparedCopy { spec, query_text: smol(query_text), audit_enabled, sql_log_enabled })
    }

    /// The text of the command, where it is audited.
    pub fn query_for_audit(&self) -> (query: Option<&str>)
        ensures
            self.audit_enabled ==> (query matches Some(text) && text@ == smol_text(
                self.query_text,
            )),
            !self.audit_enabled ==> query is None,
    {
        if self.audit_enabled {
            Some(self.query_text.as_str())
        } else {
            None
        }
    }

    /// The text of the command, where it is logged.
    pub fn query_for_logging(&self) -> (query: Option<&str>)
        ensures
            self.sql_log_enabled ==> (query matches Some(text) && text@ == smol_text(
                self.query_text,
            )),
            !self.sql_log_enabled ==> query is None,
    {
        if self.sql_log_enabled {
            Some(self.query_text.as_str())
        } else {
            None
        }
    }

    /// The accepted command.
    pub fn spec(&self) -> (spec: &CopySpec)
        ensures
            *spec == self.spec,
    {
        &self.spec
    }
}

}
