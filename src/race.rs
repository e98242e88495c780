//! A parsed race, and the reading of a score table's rows into one.
use crate::error::ParseError;
use crate::fields::{classify_columns, field_of, Field};
use crate::mode::{mode_of, parse_mode, Mode};
use crate::row::{interpret_row, opt_text, row_outcome, texts, CellFault, Entrant, EntrantView};
use vstd::prelude::*;

verus! {

/// A race as read from its result document.
#[derive(Clone, Debug, PartialEq, Eq)]
pub struct Race {
    pub track: String,
    pub mode: Mode,
    /// The entries in document order.
    pub entrants: Vec<Entrant>,
}

impl Race {
    /// The lap count, where the race is limited by laps.
    pub fn laps(&self) -> (r: Option<i32>)
        ensures
            r == crate::ingest::laps_of(self.mode),
    {
        match self.mode {
            Mode::Laps(n) => Some(n),
            _ => None,
        }
    }

    /// The minute count, where the race is limited by time.
    pub fn minutes(&self) -> (r: Option<i32>)
        ensures
            r == crate::ingest::minutes_of(self.mode),
    {
        match self.mode {
            Mode::Minutes(n) => Some(n),
            _ => None,
        }
    }
}

pub struct RaceView {
    pub track: Seq<char>,
    pub mode: Mode,
    pub entrants: Seq<EntrantView>,
}

pub open spec fn entrants_view(es: Seq<Entrant>) -> Seq<EntrantView> {
    es.map_values(|e: Entrant| e@)
}

impl View for Race {
    type V = RaceView;

    open spec fn view(&self) -> RaceView {
        RaceView { track: self.track@, mode: self.mode, entrants: entrants_view(self.entrants@) }
    }
}

/// A parse failure as a mathematical value.
pub enum ParseFault {
    DocumentTooLarge,
    TableNotFound,
    HeadingNotFound,
    ColumnsNotFound,
    UnrecognizedMode(Seq<char>),
    InRow(int, CellFault),
}

impl View for ParseError {
    type V = ParseFault;

    open spec fn view(&self) -> ParseFault {
        match self {
            ParseError::DocumentTooLarge => ParseFault::DocumentTooLarge,
            ParseError::TableNotFound => ParseFault::TableNotFound,
            ParseError::HeadingNotFound => ParseFault::HeadingNotFound,
            ParseError::ColumnsNotFound => ParseFault::ColumnsNotFound,
            ParseError::UnrecognizedMode(s) => ParseFault::UnrecognizedMode(s@),
            ParseError::InRow(k, e) => ParseFault::InRow(*k as int, e@),
        }
    }
}

/// The outcome of a parse as a mathematical value.
pub open spec fn outcome_view(r: Result<Race, ParseError>) -> Result<RaceView, ParseFault> {
    match r {
        Ok(race) => Ok(race@),
        Err(e) => Err(e@),
    }
}

/// One row of a score table, its texts trimmed: the text that opens its
/// first header cell, the full text of each header cell, and the text that
/// opens each data cell (empty where there is none).
#[derive(Clone, Debug, PartialEq, Eq)]
pub struct ScoreRow {
    pub heading: Option<String>,
    pub columns: Vec<String>,
    pub cells: Vec<String>,
}

pub struct ScoreRowView {
    pub heading: Option<Seq<char>>,
    pub columns: Seq<Seq<char>>,
    pub cells: Seq<Seq<char>>,
}

impl View for ScoreRow {
    type V = ScoreRowView;

    open spec fn view(&self) -> ScoreRowView {
        ScoreRowView {
            heading: opt_text(self.heading),
            columns: texts(self.columns@),
            cells: texts(self.cells@),
        }
    }
}

pub open spec fn rows_view(rows: Seq<ScoreRow>) -> Seq<ScoreRowView> {
    rows.map_values(|r: ScoreRow| r@)
}

/// The non-empty heading of a row, if it has one.
pub open spec fn heading_of(row: ScoreRowView) -> Option<Seq<char>> {
    match row.heading {
        Some(h) => if h.len() > 0 {
            Some(h)
        } else {
            None
        },
        None => None,
    }
}

/// The body rows in order, the leader's time carried from each row to the
/// next; the first failing row ends it, with its index.
pub open spec fn read_body(rows: Seq<Seq<Seq<char>>>, fields: Seq<Field>, leader: u64) -> Result<
    Seq<EntrantView>,
    (int, CellFault),
>
    decreases rows.len(),
{
    if rows.len() == 0 {
        Ok(Seq::empty())
    } else {
        match row_outcome(rows[0], fields, leader) {
            Ok((e, next)) => match read_body(rows.drop_first(), fields, next) {
                Ok(es) => Ok(seq![e] + es),
                Err((k, f)) => Err((k + 1, f)),
            },
            Err(f) => Err((0, f)),
        }
    }
}

/// The race that the rows of a score table give: the track heading, the mode
/// heading, the column row, then the body rows.
pub open spec fn race_of_rows(rows: Seq<ScoreRowView>) -> Result<RaceView, ParseFault> {
    if rows.len() < 2 || heading_of(rows[0]) is None || heading_of(rows[1]) is None {
        Err(ParseFault::HeadingNotFound)
    } else if mode_of(heading_of(rows[1])->0) is None {
        Err(ParseFault::UnrecognizedMode(heading_of(rows[1])->0))
    } else if rows.len() < 3 {
        Err(ParseFault::ColumnsNotFound)
    } else {
        match read_body(
            rows.skip(3).map_values(|r: ScoreRowView| r.cells),
            rows[2].columns.map_values(|c: Seq<char>| field_of(c)),
            0,
        ) {
            Ok(es) => Ok(
                RaceView {
                    track: heading_of(rows[0])->0,
                    mode: mode_of(heading_of(rows[1])->0)->0,
                    entrants: es,
                },
            ),
            Err((k, f)) => Err(ParseFault::InRow(k, f)),
        }
    }
}

/// The non-empty heading of a row, if it has one.
fn row_heading(row: &ScoreRow) -> (r: Option<&str>)
    ensures
        match heading_of(row@) {
            Some(h) => r is Some && r->0@ == h,
            None => r is None,
        },
{
    match &row.heading {
        Some(h) => if h.as_str().unicode_len() > 0 {
            Some(h.as_str())
        } else {
            None
        },
        None => None,
    }
}

/// Reads the body rows `rows[3..]` in order under the given column roles.
fn read_body_rows(rows: &Vec<ScoreRow>, fields: &Vec<Field>) -> (r: Result<Vec<Entrant>, ParseError>)
    requires
        rows@.len() >= 3,
    ensures
        match read_body(
            rows_view(rows@).skip(3).map_values(|r: ScoreRowView| r.cells),
            fields@,
            0,
        ) {
            Ok(es) => r is Ok && entrants_view(r->Ok_0@) == es,
            Err((k, f)) => r is Err && r->Err_0@ == ParseFault::InRow(k, f),
        },
{
    let ghost body = rows_view(rows@).skip(3).map_values(|r: ScoreRowView| r.cells);
    let ghost goal = read_body(body, fields@, 0);
    let mut entrants: Vec<Entrant> = Vec::new();
    let mut leader: u64 = 0;
    let mut i: usize = 3;
    proof {
        assert(body.skip(0) =~= body);
        assert(entrants_view(entrants@) =~= Seq::<EntrantView>::empty());
    }
    while i < rows.len()
        invariant
            3 <= i <= rows@.len(),
            body == rows_view(rows@).skip(3).map_values(|r: ScoreRowView| r.cells),
            goal == read_body(body, fields@, 0),
            goal == match read_body(body.skip(i - 3), fields@, leader) {
                Ok(rest) => Ok(entrants_view(entrants@) + rest),
                Err((k, f)) => Err((k + (i - 3), f)),
            },
        decreases rows@.len() - i,
    {
        let ghost k = i - 3;
        proof {
            assert(body.skip(k)[0] == texts(rows@[i as int].cells@));
            assert(body.skip(k).drop_first() =~= body.skip(k + 1));
        }
        match interpret_row(&rows[i].cells, fields, &mut leader) {
            Ok(e) => {
                let ghost before = entrants_view(entrants@);
                entrants.push(e);
                proof {
                    assert(entrants_view(entrants@) =~= before + seq![e@]);
                    match read_body(body.skip(k + 1), fields@, leader) {
                        Ok(rest) => {
                            assert(before + (seq![e@] + rest) =~= (before + seq![e@]) + rest);
                        },
                        Err(_) => {},
                    }
                }
            },
            Err(e) => {
                return Err(ParseError::InRow(i - 3, e));
            },
        }
        i = i + 1;
    }
    proof {
        assert(entrants_view(entrants@) + Seq::<EntrantView>::empty() =~= entrants_view(entrants@));
    }
    Ok(entrants)
}

/// Reads the rows of a score table: the track heading, the mode heading, the
/// row that names the columns, then one entry for each body row, in order.
pub fn race_from_rows(rows: &Vec<ScoreRow>) -> (r: Result<Race, ParseError>)
    ensures
        outcome_view(r) == race_of_rows(rows_view(rows@)),
{
    if rows.len() < 2 {
        return Err(ParseError::HeadingNotFound);
    }
    let track = match row_heading(&rows[0]) {
        Some(t) => t,
        None => return Err(ParseError::HeadingNotFound),
    };
    let mode_text = match row_heading(&rows[1]) {
        Some(t) => t,
        None => return Err(ParseError::HeadingNotFound),
    };
    let mode = parse_mode(mode_text)?;
    if rows.len() < 3 {
        return Err(ParseError::ColumnsNotFound);
    }
    let fields = classify_columns(&rows[2].columns);
    proof {
        assert(fields@ =~= rows_view(rows@)[2].columns.map_values(|c: Seq<char>| field_of(c)));
    }
    let entrants = read_body_rows(rows, &fields)?;
    Ok(Race { track: track.to_owned(), mode, entrants })
}

} // verus!
