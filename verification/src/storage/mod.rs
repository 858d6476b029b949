//! Where the rows of a COPY go.
pub mod direct_insert;
pub mod insert_laws;
pub mod pending;
pub mod target;
pub mod target_laws;
