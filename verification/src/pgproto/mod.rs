//! The PostgreSQL wire protocol's side of COPY.
pub mod copy_in;
pub mod decoding_laws;
pub mod line_laws;
pub mod message_laws;
pub mod record;
pub mod row;
pub mod row_laws;
pub mod session;
pub mod session_laws;
pub mod spec;
pub mod spec_laws;
pub mod start;
pub mod step_laws;
pub mod stream;
