//! The roles of a score table's columns, read from its header row.
use crate::text::same_text;
use vstd::prelude::*;

verus! {

/// What a column of the score table holds.
#[derive(Clone, Copy, Debug, PartialEq, Eq, Structural)]
pub enum Field {
    /// The unnamed column that marks a locked frame rate with `*`.
    FpsLocked,
    Position,
    Name,
    Vehicle,
    Time,
    BestLap,
    Lap,
    Ping,
    Fps,
    /// A column that this parser does not read.
    Ignored,
}

/// The role of a column by its trimmed header text.
pub open spec fn field_of(h: Seq<char>) -> Field {
    if h.len() == 0 {
        Field::FpsLocked
    } else if h == "Pos"@ {
        Field::Position
    } else if h == "Name"@ {
        Field::Name
    } else if h == "Vehicle"@ {
        Field::Vehicle
    } else if h == "Time"@ {
        Field::Time
    } else if h == "BestLap"@ {
        Field::BestLap
    } else if h == "Lap"@ {
        Field::Lap
    } else if h == "PING"@ {
        Field::Ping
    } else if h == "FPS"@ {
        Field::Fps
    } else {
        Field::Ignored
    }
}

/// The role of a column by its trimmed header text; unknown headers are
/// ignored rather than refused.
pub fn classify(h: &str) -> (r: Field)
    ensures
        r == field_of(h@),
{
    if h.unicode_len() == 0 {
        Field::FpsLocked
    } else if same_text(h, "Pos") {
        Field::Position
    } else if same_text(h, "Name") {
        Field::Name
    } else if same_text(h, "Vehicle") {
        Field::Vehicle
    } else if same_text(h, "Time") {
        Field::Time
    } else if same_text(h, "BestLap") {
        Field::BestLap
    } else if same_text(h, "Lap") {
        Field::Lap
    } else if same_text(h, "PING") {
        Field::Ping
    } else if same_text(h, "FPS") {
        Field::Fps
    } else {
        Field::Ignored
    }
}

/// The role of each column, in column order.
pub fn classify_columns(headers: &Vec<String>) -> (r: Vec<Field>)
    ensures
        r@.len() == headers@.len(),
        forall|i: int| 0 <= i < headers@.len() ==> r@[i] == field_of(#[trigger] headers@[i]@),
{
    let mut r: Vec<Field> = Vec::new();
    let mut i: usize = 0;
    while i < headers.len()
        invariant
            i <= headers@.len(),
            r@.len() == i,
            forall|j: int| 0 <= j < i ==> r@[j] == field_of(#[trigger] headers@[j]@),
        decreases headers@.len() - i,
    {
        r.push(classify(headers[i].as_str()));
        i = i + 1;
    }
    r
}

} // verus!
