//! Typed reading and writing of province definition files: one record per
//! line, fields separated by `;`, behind a fixed first line.
//!
//! - [`text`] cuts text into lines and lines into fields, and states how
//!   splitting and joining undo each other.
//! - [`decimal`], [`ascii`], [`unicode`] and [`field`] decode single fields.
//! - [`record`] reads a whole file for any record type that says how one of
//!   its lines decodes.
//! - [`kind`], [`definition`] and [`order`] hold the province definition
//!   itself: its classification, its line of text in both directions, and
//!   the order in which definitions are grouped.
//! - [`error`] lists what a file can be rejected for.

pub mod ascii;
pub mod decimal;
pub mod definition;
pub mod error;
pub mod field;
pub mod kind;
pub mod order;
pub mod record;
pub mod text;
pub mod unicode;

pub use definition::{parse_definitions, Definition, DefinitionView, HEADER_LINE};
pub use error::{DecodeError, LineError, ParseError};
pub use kind::DefinitionKind;
pub use record::{parse_lines, parse_text, ParseCsv, DELIMITER};
