//! The ways in which a result document can fail to parse.
use crate::fields::Field;
use vstd::prelude::*;

verus! {

/// A column whose cell every entry must have.
#[derive(Clone, Copy, Debug, PartialEq, Eq, Structural)]
pub enum RequiredField {
    Position,
    Name,
    Vehicle,
}

/// Why a text is not a value of the expected grammar.
#[derive(Clone, Debug, PartialEq, Eq)]
pub enum ValueError {
    /// The text is not a clock-style duration that fits in `u64` milliseconds.
    MalformedDuration(String),
    /// The text is not an integer of `i32`'s range.
    MalformedInteger(String),
}

/// Why the cell of a body row could not be read.
#[derive(Clone, Debug, PartialEq, Eq)]
pub enum CellError {
    /// The cell of a time column is not a clock-style duration; the column's
    /// role and the offending text.
    MalformedDuration(Field, String),
    /// The cell of a numeric column is not an integer of the column's range;
    /// the column's role and the offending text.
    MalformedInteger(Field, String),
    /// A body row lacks a cell that every entry needs.
    MissingField(RequiredField),
}

/// Why a document produced no race.
#[derive(Clone, Debug, PartialEq, Eq)]
pub enum ParseError {
    /// The document is beyond what the HTML parser takes.
    DocumentTooLarge,
    /// No table carries the score-table identifier.
    TableNotFound,
    /// The track or the mode heading row is missing or empty.
    HeadingNotFound,
    /// The row that names the columns is missing.
    ColumnsNotFound,
    /// The mode heading matches none of the known formats.
    UnrecognizedMode(String),
    /// The failure of the body row at the given index, counted from zero.
    InRow(usize, CellError),
}

} // verus!
