//! What can go wrong while reading a record file.

use vstd::prelude::*;

verus! {

/// Why a single field was rejected.
#[derive(Debug, Clone, Copy, PartialEq, Eq, Structural)]
pub enum DecodeError {
    /// The field is absent, surplus, not a base-10 number, or too large for
    /// its width.
    FieldDecodeError,
    /// The classification is none of the known labels.
    InvalidClassification,
    /// The flag is none of the accepted spellings of a boolean.
    MalformedBoolean,
}

/// A rejected field together with its position on the line, counted from 1.
#[derive(Debug, Clone, Copy, PartialEq, Eq, Structural)]
pub struct LineError {
    pub field: usize,
    pub kind: DecodeError,
}

/// Why a whole file was rejected.
#[derive(Debug, Clone, Copy, PartialEq, Eq, Structural)]
pub enum ParseError {
    /// The first line is absent or differs from the required one.
    HeaderMismatch,
    /// The last line is absent or differs from the required one.
    FooterMismatch,
    /// A data line did not decode; `line` counts from 1, header included.
    Line { line: usize, error: LineError },
}

} // verus!
