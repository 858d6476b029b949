//! The SQL side of COPY.
pub mod command;
pub mod grammar;
pub mod grammar_laws;
pub mod laws;
pub mod lexer;
pub mod lexer_laws;
pub mod names;
pub mod option_laws;
pub mod statement;
pub mod written;
