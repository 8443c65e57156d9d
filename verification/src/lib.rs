//! Conversion of origin-destination flow tables into a dense, binary matrix
//! container.
//!
//! The pipeline runs strictly forward: delimited text is split into records,
//! the records are read as flow triples, the zone identifiers are resolved
//! into an ordered list, the triples are assembled into a dense square matrix
//! and the matrix is laid out as a byte stream with a fixed header.
//!
//! Numbers with a fractional part never appear here as such: a value is
//! carried as the bit pattern of its IEEE-754 single-precision encoding.

pub mod matrix;
pub mod mtx;
pub mod order;
pub mod output;
pub mod reader;
pub mod records;
pub mod text;
pub mod zones;

