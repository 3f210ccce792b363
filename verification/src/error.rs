use vstd::prelude::*;

verus! {

/// Which of the five fixed schema-row positions failed to decode.
#[derive(Debug, Clone, Copy, PartialEq, Eq, Structural)]
pub enum SchemaField {
    Kind,
    Name,
    TblName,
    Rootpage,
    Sql,
}

/// Every failure the decoding core can report. Decode-level errors abort
/// the single record in question; `SchemaParseError` and `OrphanIndex`
/// abort catalog construction entirely.
#[derive(Debug, Clone, Copy, PartialEq, Eq, Structural)]
pub enum Error {
    /// A varint ran past the end of its input before terminating.
    TruncatedVarint,
    /// A serial-type code of 10 or 11, which the format reserves.
    InvalidSerialType,
    /// A record header whose declared size disagrees with its varints.
    TruncatedHeader,
    /// A column value would read past the end of the payload.
    PayloadTooShort,
    /// The named position of a schema row held the wrong kind of value.
    InvalidSchemaShape(SchemaField),
    /// DDL text failed to parse where a table or index command was expected.
    SchemaParseError,
    /// An index row names a table that no schema row created.
    OrphanIndex,
}

} // verus!
