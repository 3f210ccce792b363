//! Read-path decoding core for a single-file, page-based database format:
//! the variable-length integer codec, the per-row serial-type/column
//! decoder, and the two-pass catalog builder that turns decoded schema
//! rows into a table/column/index graph.

pub mod error;
pub mod varint;
pub mod record;
pub mod sqlite_schema;
