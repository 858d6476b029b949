//! The statement: what a COPY command asks for.
use crate::text::{optional_text, smol_text, texts};
use smol_str::SmolStr;
use vstd::prelude::*;

verus! {

/// How the rows are written on the wire.
#[derive(Clone, Copy, Debug, PartialEq, Eq, Structural)]
pub enum CopyFormat {
    Text,
    Csv,
    Binary,
}

/// The options of a COPY command. What is `None` was not given.
#[derive(Clone, Debug, PartialEq, Eq)]
pub struct CopyOptions {
    pub format: CopyFormat,
    pub delimiter: Option<String>,
    pub null_string: Option<String>,
    pub header: bool,
    pub batch_size: Option<usize>,
}

/// The characters of an optional string.
pub open spec fn optional_string(text: Option<String>) -> Option<Seq<char>> {
    match text {
        Some(text) => Some(text@),
        None => None,
    }
}

/// The options with their texts as sequences of characters.
#[verifier::ext_equal]
pub struct CopyOptionsView {
    pub format: CopyFormat,
    pub delimiter: Option<Seq<char>>,
    pub null_string: Option<Seq<char>>,
    pub header: bool,
    pub batch_size: Option<usize>,
}

impl View for CopyOptions {
    type V = CopyOptionsView;

    open spec fn view(&self) -> CopyOptionsView {
        CopyOptionsView {
            format: self.format,
            delimiter: optional_string(self.delimiter),
            null_string: optional_string(self.null_string),
            header: self.header,
            batch_size: self.batch_size,
        }
    }
}

/// The options of a command that gives none.
pub open spec fn default_options() -> CopyOptionsView {
    CopyOptionsView {
        format: CopyFormat::Text,
        delimiter: None,
        null_string: None,
        header: false,
        batch_size: None,
    }
}

impl Default for CopyOptions {
    fn default() -> (options: Self)
        ensures
            options@ == default_options(),
    {
        CopyOptions {
            format: CopyFormat::Text,
            delimiter: None,
            null_string: None,
            header: false,
            batch_size: None,
        }
    }
}

/// The table and the columns that a command names.
#[derive(Clone, Debug, PartialEq, Eq)]
pub struct CopyTableTarget {
    pub schema_name: Option<SmolStr>,
    pub table_name: SmolStr,
    pub columns: Vec<SmolStr>,
}

/// The table and the columns with their names as sequences of characters.
#[verifier::ext_equal]
pub struct CopyTableTargetView {
    pub schema_name: Option<Seq<char>>,
    pub table_name: Seq<char>,
    pub columns: Seq<Seq<char>>,
}

impl View for CopyTableTarget {
    type V = CopyTableTargetView;

    open spec fn view(&self) -> CopyTableTargetView {
        CopyTableTargetView {
            schema_name: optional_text(self.schema_name),
            table_name: smol_text(self.table_name),
            columns: texts(self.columns@),
        }
    }
}

/// A command that reads rows from the client.
#[derive(Clone, Debug, PartialEq, Eq)]
pub struct CopyFrom {
    pub table: CopyTableTarget,
    pub options: CopyOptions,
}

/// A command that sends rows to the client.
#[derive(Clone, Debug, PartialEq, Eq)]
pub struct CopyTo {
    pub table: CopyTableTarget,
    pub options: CopyOptions,
}

/// A COPY command.
#[derive(Clone, Debug, PartialEq, Eq)]
pub enum CopyStatement {
    From(CopyFrom),
    To(CopyTo),
}

/// A COPY command with its texts as sequences of characters.
#[verifier::ext_equal]
pub enum CopyStatementView {
    From { table: CopyTableTargetView, options: CopyOptionsView },
    To { table: CopyTableTargetView, options: CopyOptionsView },
}

impl View for CopyStatement {
    type V = CopyStatementView;

    open spec fn view(&self) -> CopyStatementView {
        match *self {
            CopyStatement::From(copy) => CopyStatementView::From {
                table: copy.table@,
                options: copy.options@,
            },
            CopyStatement::To(copy) => CopyStatementView::To {
                table: copy.table@,
                options: copy.options@,
            },
        }
    }
}

}
