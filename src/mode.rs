//! The race format named in the second heading of a score table.
use crate::error::ParseError;
use crate::text::{as_i32, has_prefix, integer_of, parse_integer, same_text, starts_with};
use vstd::prelude::*;

verus! {

/// How a race is limited.
#[derive(Clone, Copy, Debug, PartialEq, Eq, Structural)]
pub enum Mode {
    /// A fixed number of laps.
    Laps(i32),
    /// A fixed number of minutes.
    Minutes(i32),
    /// No count: a rally or a point-to-point race.
    Open,
}

/// The count that follows `prefix` at the start of `s`, if `s` is of that form.
pub open spec fn count_after(s: Seq<char>, prefix: Seq<char>) -> Option<i32> {
    if starts_with(s, prefix) {
        as_i32(integer_of(s.skip(prefix.len() as int)))
    } else {
        None
    }
}

/// The mode that a heading names, if it names one.
pub open spec fn mode_of(s: Seq<char>) -> Option<Mode> {
    if count_after(s, "Laps: "@) is Some {
        Some(Mode::Laps(count_after(s, "Laps: "@)->0))
    } else if count_after(s, "Minutes: "@) is Some {
        Some(Mode::Minutes(count_after(s, "Minutes: "@)->0))
    } else if s == "Rally"@ || s == "Point-to-Point"@ {
        Some(Mode::Open)
    } else {
        None
    }
}

/// The count that follows `prefix` at the start of `s`.
fn count_after_prefix(s: &str, prefix: &str) -> (r: Option<i32>)
    ensures
        r == count_after(s@, prefix@),
{
    if !has_prefix(s, prefix) {
        return None;
    }
    let rest = s.substring_char(prefix.unicode_len(), s.unicode_len());
    proof {
        assert(rest@ =~= s@.skip(prefix@.len() as int));
    }
    match parse_integer(rest) {
        Ok(v) => Some(v),
        Err(_) => None,
    }
}

/// Reads the mode heading of a score table: `Laps: n`, `Minutes: n`,
/// `Rally` or `Point-to-Point`.
pub fn parse_mode(s: &str) -> (r: Result<Mode, ParseError>)
    ensures
        match mode_of(s@) {
            Some(m) => r == Ok::<Mode, ParseError>(m),
            None => r matches Err(ParseError::UnrecognizedMode(t)) && t@ == s@,
        },
{
    if let Some(n) = count_after_prefix(s, "Laps: ") {
        Ok(Mode::Laps(n))
    } else if let Some(n) = count_after_prefix(s, "Minutes: ") {
        Ok(Mode::Minutes(n))
    } else if same_text(s, "Rally") || same_text(s, "Point-to-Point") {
        Ok(Mode::Open)
    } else {
        Err(ParseError::UnrecognizedMode(s.to_owned()))
    }
}

} // verus!
