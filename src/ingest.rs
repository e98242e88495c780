//! The rows that storing a parsed race writes.
use crate::mode::Mode;
use crate::race::{Race, RaceView};
use crate::row::{Entrant, EntrantView, Reason};
use vstd::prelude::*;

verus! {

/// A calendar date.
#[derive(Clone, Copy, Debug, PartialEq, Eq, Structural)]
pub struct Date {
    pub year: i32,
    pub month: u32,
    pub day: u32,
}

/// Whether a year of the Gregorian calendar is a leap year.
pub open spec fn is_leap_year(year: int) -> bool {
    let a = if year < 0 {
        -year
    } else {
        year
    };
    a % 4 == 0 && (a % 100 != 0 || a % 400 == 0)
}

/// The number of days of a month, from one to twelve.
pub open spec fn days_in_month(year: int, month: int) -> int {
    if month == 2 {
        if is_leap_year(year) {
            29
        } else {
            28
        }
    } else if month == 4 || month == 6 || month == 9 || month == 11 {
        30
    } else {
        31
    }
}

/// Whether a date names a day of the calendar.
pub open spec fn valid_date(d: Date) -> bool {
    1 <= d.month <= 12 && 1 <= d.day <= days_in_month(d.year as int, d.month as int)
}

impl Date {
    /// Whether the date names a day of the calendar.
    pub fn is_valid(&self) -> (r: bool)
        ensures
            r == valid_date(*self),
    {
        let a: u64 = if self.year < 0 {
            (0 - (self.year as i64)) as u64
        } else {
            self.year as u64
        };
        let leap = a % 4 == 0 && (a % 100 != 0 || a % 400 == 0);
        let days: u32 = if self.month == 2 {
            if leap {
                29
            } else {
                28
            }
        } else if self.month == 4 || self.month == 6 || self.month == 9 || self.month == 11 {
            30
        } else {
            31
        };
        1 <= self.month && self.month <= 12 && 1 <= self.day && self.day <= days
    }
}

/// The row of the races table.
#[derive(Clone, Debug, PartialEq, Eq)]
pub struct RaceRecord {
    pub id: i32,
    pub date: Date,
    pub track: String,
    pub laps: Option<i32>,
    pub minutes: Option<i32>,
}

pub struct RaceRecordView {
    pub id: i32,
    pub date: Date,
    pub track: Seq<char>,
    pub laps: Option<i32>,
    pub minutes: Option<i32>,
}

impl View for RaceRecord {
    type V = RaceRecordView;

    open spec fn view(&self) -> RaceRecordView {
        RaceRecordView {
            id: self.id,
            date: self.date,
            track: self.track@,
            laps: self.laps,
            minutes: self.minutes,
        }
    }
}

/// The columns of an entry's row besides its key. Times are in milliseconds.
#[derive(Clone, Debug, PartialEq, Eq)]
pub struct EntryRow {
    pub position: i32,
    pub vehicle: String,
    pub time: Option<i32>,
    pub best_lap: Option<i32>,
    pub lap: Option<i32>,
    pub reason: Option<Reason>,
    pub ping: Option<i32>,
    pub fps: Option<i32>,
    pub fps_locked: bool,
}

pub struct EntryRowView {
    pub position: i32,
    pub vehicle: Seq<char>,
    pub time: Option<i32>,
    pub best_lap: Option<i32>,
    pub lap: Option<i32>,
    pub reason: Option<Reason>,
    pub ping: Option<i32>,
    pub fps: Option<i32>,
    pub fps_locked: bool,
}

impl View for EntryRow {
    type V = EntryRowView;

    open spec fn view(&self) -> EntryRowView {
        EntryRowView {
            position: self.position,
            vehicle: self.vehicle@,
            time: self.time,
            best_lap: self.best_lap,
            lap: self.lap,
            reason: self.reason,
            ping: self.ping,
            fps: self.fps,
            fps_locked: self.fps_locked,
        }
    }
}

/// An entry to store: the competitor's name, which the store resolves to an
/// id, and the row.
#[derive(Clone, Debug, PartialEq, Eq)]
pub struct PlannedEntry {
    pub name: String,
    pub row: EntryRow,
}

/// Everything that storing one race writes.
#[derive(Clone, Debug, PartialEq, Eq)]
pub struct Plan {
    pub race: RaceRecord,
    pub entries: Vec<PlannedEntry>,
}

pub struct PlanView {
    pub race: RaceRecordView,
    pub names: Seq<Seq<char>>,
    pub rows: Seq<EntryRowView>,
}

impl View for Plan {
    type V = PlanView;

    open spec fn view(&self) -> PlanView {
        PlanView {
            race: self.race@,
            names: self.entries@.map_values(|e: PlannedEntry| e.name@),
            rows: self.entries@.map_values(|e: PlannedEntry| e.row@),
        }
    }
}

/// The lap count of a mode, stored in its own column.
pub open spec fn laps_of(m: Mode) -> Option<i32> {
    match m {
        Mode::Laps(n) => Some(n),
        _ => None,
    }
}

/// The minute count of a mode, stored in its own column.
pub open spec fn minutes_of(m: Mode) -> Option<i32> {
    match m {
        Mode::Minutes(n) => Some(n),
        _ => None,
    }
}

/// A duration that fits the integer columns of the store.
pub open spec fn fits_column(t: Option<u64>) -> bool {
    t is None || t->0 <= i32::MAX
}

pub open spec fn as_column(t: Option<u64>) -> Option<i32> {
    match t {
        Some(v) => Some(v as i32),
        None => None,
    }
}

/// Whether an entry's times fit the store's columns.
pub open spec fn storable(e: EntrantView) -> bool {
    fits_column(e.time) && fits_column(e.best_lap)
}

/// The row that stores an entry.
pub open spec fn row_of(e: EntrantView) -> EntryRowView {
    EntryRowView {
        position: e.position,
        vehicle: e.vehicle,
        time: as_column(e.time),
        best_lap: as_column(e.best_lap),
        lap: e.lap,
        reason: e.reason,
        ping: e.ping,
        fps: e.fps,
        fps_locked: e.fps_locked,
    }
}

/// The row of the races table for a race with the given id and date.
pub open spec fn race_record_of(id: i32, date: Date, race: RaceView) -> RaceRecordView {
    RaceRecordView {
        id,
        date,
        track: race.track,
        laps: laps_of(race.mode),
        minutes: minutes_of(race.mode),
    }
}

/// The plan that stores a race whose entries are all storable.
pub open spec fn plan_of(id: i32, date: Date, race: RaceView) -> PlanView {
    PlanView {
        race: race_record_of(id, date, race),
        names: race.entrants.map_values(|e: EntrantView| e.name),
        rows: race.entrants.map_values(|e: EntrantView| row_of(e)),
    }
}

/// The code that stands for a non-finish reason in stored rows.
pub open spec fn reason_code_of(r: Reason) -> i32 {
    match r {
        Reason::DidNotStart => 1,
        Reason::DidNotFinish => 2,
        Reason::Disqualified => 3,
    }
}

/// The code that stands for a non-finish reason in stored rows: 1, 2 and 3
/// for did not start, did not finish and disqualified.
pub fn reason_code(r: Reason) -> (c: i32)
    ensures
        c == reason_code_of(r),
{
    match r {
        Reason::DidNotStart => 1,
        Reason::DidNotFinish => 2,
        Reason::Disqualified => 3,
    }
}

/// The reason that a stored code stands for.
pub fn reason_from_code(c: i32) -> (r: Option<Reason>)
    ensures
        match r {
            Some(x) => reason_code_of(x) == c,
            None => c < 1 || c > 3,
        },
{
    if c == 1 {
        Some(Reason::DidNotStart)
    } else if c == 2 {
        Some(Reason::DidNotFinish)
    } else if c == 3 {
        Some(Reason::Disqualified)
    } else {
        None
    }
}

fn column(t: Option<u64>) -> (r: Option<Option<i32>>)
    ensures
        match r {
            Some(c) => fits_column(t) && c == as_column(t),
            None => !fits_column(t),
        },
{
    match t {
        Some(v) => if v <= i32::MAX as u64 {
            Some(Some(v as i32))
        } else {
            None
        },
        None => Some(None),
    }
}

/// The row that stores an entry, where its times fit the columns.
pub fn entry_row(e: &Entrant) -> (r: Option<EntryRow>)
    ensures
        match r {
            Some(row) => storable(e@) && row@ == row_of(e@),
            None => !storable(e@),
        },
{
    let time = column(e.time)?;
    let best_lap = column(e.best_lap)?;
    Some(
        EntryRow {
            position: e.position,
            vehicle: e.vehicle.clone(),
            time,
            best_lap,
            lap: e.lap,
            reason: e.reason,
            ping: e.ping,
            fps: e.fps,
            fps_locked: e.fps_locked,
        },
    )
}

/// The rows that store `race` under the given id and date. Fails with the
/// index of the first entry whose time does not fit the store's columns.
pub fn plan(id: i32, date: Date, race: &Race) -> (r: Result<Plan, usize>)
    ensures
        match r {
            Ok(p) => (forall|k: int|
                0 <= k < race.entrants@.len() ==> storable(#[trigger] race.entrants@[k]@)) && p@
                == plan_of(id, date, race@),
            Err(k) => k < race.entrants@.len() && !storable(race.entrants@[k as int]@) && forall|
                j: int,
            | 0 <= j < k ==> storable(#[trigger] race.entrants@[j]@),
        },
{
    let laps = match race.mode {
        Mode::Laps(n) => Some(n),
        _ => None,
    };
    let minutes = match race.mode {
        Mode::Minutes(n) => Some(n),
        _ => None,
    };
    let record = RaceRecord { id, date, track: race.track.clone(), laps, minutes };
    let mut entries: Vec<PlannedEntry> = Vec::new();
    let mut i: usize = 0;
    while i < race.entrants.len()
        invariant
            i <= race.entrants@.len(),
            entries@.len() == i,
            forall|j: int| 0 <= j < i ==> storable(#[trigger] race.entrants@[j]@),
            forall|j: int|
                0 <= j < i ==> (#[trigger] entries@[j]).name@ == race.entrants@[j].name@
                    && entries@[j].row@ == row_of(race.entrants@[j]@),
        decreases race.entrants@.len() - i,
    {
        let e = &race.entrants[i];
        match entry_row(e) {
            Some(row) => {
                entries.push(PlannedEntry { name: e.name.clone(), row });
            },
            None => return Err(i),
        }
        i = i + 1;
    }
    let p = Plan { race: record, entries };
    proof {
        assert(p@.names =~= plan_of(id, date, race@).names);
        assert(p@.rows =~= plan_of(id, date, race@).rows);
    }
    Ok(p)
}

} // verus!
