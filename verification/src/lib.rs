//! The server side of PostgreSQL's `COPY ... FROM STDIN`.
pub mod ascii;
pub mod buffer;
pub mod error_laws;
pub mod errors;
pub mod pgproto;
pub mod sql;
pub mod storage;
pub mod text;
pub mod tuples;
