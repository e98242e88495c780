//! Reading one body row of a score table into a competitor's entry.
use crate::error::{CellError, RequiredField};
use crate::fields::Field;
use crate::text::{as_i32, as_u64, duration_of, integer_of, parse_duration, parse_integer, same_text};
use vstd::prelude::*;

verus! {

/// Why a competitor has no finishing time.
#[derive(Clone, Copy, Debug, PartialEq, Eq, Structural)]
pub enum Reason {
    DidNotStart,
    DidNotFinish,
    Disqualified,
}

/// One competitor's result in one race. Times are in milliseconds.
#[derive(Clone, Debug, PartialEq, Eq)]
pub struct Entrant {
    pub position: i32,
    pub name: String,
    pub vehicle: String,
    pub time: Option<u64>,
    pub best_lap: Option<u64>,
    pub lap: Option<i32>,
    pub reason: Option<Reason>,
    pub ping: Option<i32>,
    pub fps: Option<i32>,
    pub fps_locked: bool,
}

/// An entry as a mathematical value.
pub struct EntrantView {
    pub position: i32,
    pub name: Seq<char>,
    pub vehicle: Seq<char>,
    pub time: Option<u64>,
    pub best_lap: Option<u64>,
    pub lap: Option<i32>,
    pub reason: Option<Reason>,
    pub ping: Option<i32>,
    pub fps: Option<i32>,
    pub fps_locked: bool,
}

impl View for Entrant {
    type V = EntrantView;

    open spec fn view(&self) -> EntrantView {
        EntrantView {
            position: self.position,
            name: self.name@,
            vehicle: self.vehicle@,
            time: self.time,
            best_lap: self.best_lap,
            lap: self.lap,
            reason: self.reason,
            ping: self.ping,
            fps: self.fps,
            fps_locked: self.fps_locked,
        }
    }
}

/// A cell failure as a mathematical value.
pub enum CellFault {
    MalformedDuration(Field, Seq<char>),
    MalformedInteger(Field, Seq<char>),
    MissingField(RequiredField),
}

impl View for CellError {
    type V = CellFault;

    open spec fn view(&self) -> CellFault {
        match self {
            CellError::MalformedDuration(f, s) => CellFault::MalformedDuration(*f, s@),
            CellError::MalformedInteger(f, s) => CellFault::MalformedInteger(*f, s@),
            CellError::MissingField(f) => CellFault::MissingField(*f),
        }
    }
}

/// What has been read of a row so far, and the leader's time.
pub struct RowState {
    pub fps_locked: bool,
    pub position: Option<i32>,
    pub name: Option<Seq<char>>,
    pub vehicle: Option<Seq<char>>,
    pub time: Option<u64>,
    pub best_lap: Option<u64>,
    pub lap: Option<i32>,
    pub reason: Option<Reason>,
    pub ping: Option<i32>,
    pub fps: Option<i32>,
    pub leader: u64,
}

/// Nothing read yet.
pub open spec fn blank_row(leader: u64) -> RowState {
    RowState {
        fps_locked: false,
        position: None,
        name: None,
        vehicle: None,
        time: None,
        best_lap: None,
        lap: None,
        reason: None,
        ping: None,
        fps: None,
        leader,
    }
}

/// The non-finish reason that a time cell names, if it names one.
pub open spec fn reason_of(cell: Seq<char>) -> Option<Reason> {
    if cell == "DNS"@ {
        Some(Reason::DidNotStart)
    } else if cell == "DNF"@ {
        Some(Reason::DidNotFinish)
    } else if cell == "DSQ"@ {
        Some(Reason::Disqualified)
    } else {
        None
    }
}

/// A time cell: a non-finish marker, nothing, an offset `+...` from the
/// leader's time, or an absolute time that becomes the leader's time. An
/// offset whose sum with the leader's time leaves `u64` is refused as
/// malformed.
pub open spec fn read_time(st: RowState, cell: Seq<char>) -> Result<RowState, CellFault> {
    if reason_of(cell) is Some {
        Ok(RowState { reason: reason_of(cell), ..st })
    } else if cell.len() == 0 {
        Ok(st)
    } else if cell[0] == '+' {
        let off = as_u64(duration_of(cell.drop_first()));
        if off is Some && st.leader + off->0 <= u64::MAX {
            Ok(RowState { time: Some((st.leader + off->0) as u64), ..st })
        } else {
            Err(CellFault::MalformedDuration(Field::Time, cell.drop_first()))
        }
    } else {
        match as_u64(duration_of(cell)) {
            Some(v) => Ok(RowState { time: Some(v), leader: v, ..st }),
            None => Err(CellFault::MalformedDuration(Field::Time, cell)),
        }
    }
}

/// An integer cell of a column with role `f`.
pub open spec fn read_integer(f: Field, cell: Seq<char>) -> Result<i32, CellFault> {
    match as_i32(integer_of(cell)) {
        Some(v) => Ok(v),
        None => Err(CellFault::MalformedInteger(f, cell)),
    }
}

/// Reading one cell under the role of its column. A position is a positive
/// integer.
pub open spec fn step(st: RowState, cell: Seq<char>, f: Field) -> Result<RowState, CellFault> {
    match f {
        Field::FpsLocked => Ok(RowState { fps_locked: cell == "*"@, ..st }),
        Field::Position => if cell.len() == 0 {
            Err(CellFault::MissingField(RequiredField::Position))
        } else {
            match read_integer(Field::Position, cell) {
                Ok(v) => if v > 0 {
                    Ok(RowState { position: Some(v), ..st })
                } else {
                    Err(CellFault::MalformedInteger(Field::Position, cell))
                },
                Err(e) => Err(e),
            }
        },
        Field::Name => if cell.len() == 0 {
            Err(CellFault::MissingField(RequiredField::Name))
        } else {
            Ok(RowState { name: Some(cell), ..st })
        },
        Field::Vehicle => if cell.len() == 0 {
            Err(CellFault::MissingField(RequiredField::Vehicle))
        } else {
            Ok(RowState { vehicle: Some(cell), ..st })
        },
        Field::Time => read_time(st, cell),
        Field::BestLap => if cell.len() == 0 {
            Ok(st)
        } else {
            match as_u64(duration_of(cell)) {
                Some(v) => Ok(RowState { best_lap: Some(v), ..st }),
                None => Err(CellFault::MalformedDuration(Field::BestLap, cell)),
            }
        },
        Field::Lap => if cell == "-"@ {
            Ok(st)
        } else {
            match read_integer(Field::Lap, cell) {
                Ok(v) => Ok(RowState { lap: Some(v), ..st }),
                Err(e) => Err(e),
            }
        },
        Field::Ping => match read_integer(Field::Ping, cell) {
            Ok(v) => Ok(RowState { ping: Some(v), ..st }),
            Err(e) => Err(e),
        },
        Field::Fps => match read_integer(Field::Fps, cell) {
            Ok(v) => Ok(RowState { fps: Some(v), ..st }),
            Err(e) => Err(e),
        },
        Field::Ignored => Ok(st),
    }
}

/// Reading the cells in order, each under the column in the same place,
/// as far as both go; the first failure ends it.
pub open spec fn read_cells(st: RowState, cells: Seq<Seq<char>>, fields: Seq<Field>) -> Result<
    RowState,
    CellFault,
>
    decreases cells.len(),
{
    if cells.len() == 0 || fields.len() == 0 {
        Ok(st)
    } else {
        match step(st, cells[0], fields[0]) {
            Ok(next) => read_cells(next, cells.drop_first(), fields.drop_first()),
            Err(e) => Err(e),
        }
    }
}

/// The entry that a fully read row gives, once its required fields are there.
pub open spec fn finish(st: RowState) -> Result<EntrantView, CellFault> {
    if st.position is None {
        Err(CellFault::MissingField(RequiredField::Position))
    } else if st.name is None {
        Err(CellFault::MissingField(RequiredField::Name))
    } else if st.vehicle is None {
        Err(CellFault::MissingField(RequiredField::Vehicle))
    } else {
        Ok(
            EntrantView {
                position: st.position->0,
                name: st.name->0,
                vehicle: st.vehicle->0,
                time: st.time,
                best_lap: st.best_lap,
                lap: st.lap,
                reason: st.reason,
                ping: st.ping,
                fps: st.fps,
                fps_locked: st.fps_locked,
            },
        )
    }
}

/// A row's entry and the leader's time after it, from the leader's time before it.
pub open spec fn row_outcome(cells: Seq<Seq<char>>, fields: Seq<Field>, leader: u64) -> Result<
    (EntrantView, u64),
    CellFault,
> {
    match read_cells(blank_row(leader), cells, fields) {
        Ok(st) => match finish(st) {
            Ok(e) => Ok((e, st.leader)),
            Err(e) => Err(e),
        },
        Err(e) => Err(e),
    }
}

/// The texts of a row's cells.
pub open spec fn texts(cells: Seq<String>) -> Seq<Seq<char>> {
    cells.map_values(|c: String| c@)
}

/// Reading a row is reading its first `k` cells, then the rest.
proof fn lemma_read_split(st: RowState, cells: Seq<Seq<char>>, fields: Seq<Field>, k: int)
    requires
        0 <= k <= cells.len(),
        k <= fields.len(),
    ensures
        read_cells(st, cells, fields) == match read_cells(st, cells.take(k), fields.take(k)) {
            Ok(m) => read_cells(m, cells.skip(k), fields.skip(k)),
            Err(e) => Err(e),
        },
    decreases k,
{
    if k == 0 {
        assert(cells.skip(0) =~= cells);
        assert(fields.skip(0) =~= fields);
    } else {
        assert(cells.take(k)[0] == cells[0]);
        assert(fields.take(k)[0] == fields[0]);
        if let Ok(next) = step(st, cells[0], fields[0]) {
            lemma_read_split(next, cells.drop_first(), fields.drop_first(), k - 1);
            assert(cells.take(k).drop_first() =~= cells.drop_first().take(k - 1));
            assert(fields.take(k).drop_first() =~= fields.drop_first().take(k - 1));
            assert(cells.drop_first().skip(k - 1) =~= cells.skip(k));
            assert(fields.drop_first().skip(k - 1) =~= fields.skip(k));
        }
    }
}

/// Columns other than the time column leave time and reason as they are.
proof fn lemma_read_without_time(st: RowState, cells: Seq<Seq<char>>, fields: Seq<Field>)
    requires
        forall|i: int| 0 <= i < fields.len() ==> fields[i] != Field::Time,
    ensures
        read_cells(st, cells, fields) matches Ok(m) ==> m.time == st.time && m.reason
            == st.reason,
    decreases cells.len(),
{
    if cells.len() > 0 && fields.len() > 0 {
        assert(fields[0] != Field::Time);
        if let Ok(next) = step(st, cells[0], fields[0]) {
            assert(forall|i: int|
                0 <= i < fields.drop_first().len() ==> fields.drop_first()[i] == fields[i + 1]);
            lemma_read_without_time(next, cells.drop_first(), fields.drop_first());
        }
    }
}

/// A time cell sets a non-finish reason or a time, never both.
pub proof fn law_time_cell_sets_one(st: RowState, cell: Seq<char>)
    ensures
        read_time(st, cell) matches Ok(next) ==> next.reason == st.reason || next.time
            == st.time,
{
}

/// In a row with a single time column, the entry has a non-finish reason
/// exactly where that column's cell holds a marker, and then no time; a cell
/// that holds a time gives a time and no reason.
pub proof fn law_reason_excludes_time(
    cells: Seq<Seq<char>>,
    fields: Seq<Field>,
    leader: u64,
    k: int,
)
    requires
        0 <= k < cells.len(),
        k < fields.len(),
        fields[k] == Field::Time,
        forall|i: int| 0 <= i < fields.len() && i != k ==> fields[i] != Field::Time,
    ensures
        row_outcome(cells, fields, leader) matches Ok((e, _)) ==> {
            &&& e.reason == reason_of(cells[k])
            &&& reason_of(cells[k]) is Some ==> e.time is None
            &&& reason_of(cells[k]) is None && cells[k].len() > 0 ==> e.time is Some
        },
{
    let blank = blank_row(leader);
    lemma_read_split(blank, cells, fields, k);
    assert forall|i: int| 0 <= i < fields.take(k).len() implies fields.take(k)[i] != Field::Time by {
        assert(fields.take(k)[i] == fields[i]);
    }
    lemma_read_without_time(blank, cells.take(k), fields.take(k));
    if let Ok(m) = read_cells(blank, cells.take(k), fields.take(k)) {
        let rest = cells.skip(k);
        let cols = fields.skip(k);
        assert(rest[0] == cells[k] && cols[0] == Field::Time);
        if let Ok(m2) = step(m, rest[0], cols[0]) {
            assert forall|i: int| 0 <= i < cols.drop_first().len() implies cols.drop_first()[i]
                != Field::Time by {
                assert(cols.drop_first()[i] == fields[k + 1 + i]);
            }
            lemma_read_without_time(m2, rest.drop_first(), cols.drop_first());
        }
    }
}

/// What has been read of a row so far.
struct PartialRow {
    fps_locked: bool,
    position: Option<i32>,
    name: Option<String>,
    vehicle: Option<String>,
    time: Option<u64>,
    best_lap: Option<u64>,
    lap: Option<i32>,
    reason: Option<Reason>,
    ping: Option<i32>,
    fps: Option<i32>,
    leader: u64,
}

/// The text of an optional string.
pub open spec fn opt_text(o: Option<String>) -> Option<Seq<char>> {
    match o {
        Some(s) => Some(s@),
        None => None,
    }
}

impl View for PartialRow {
    type V = RowState;

    closed spec fn view(&self) -> RowState {
        RowState {
            fps_locked: self.fps_locked,
            position: self.position,
            name: opt_text(self.name),
            vehicle: opt_text(self.vehicle),
            time: self.time,
            best_lap: self.best_lap,
            lap: self.lap,
            reason: self.reason,
            ping: self.ping,
            fps: self.fps,
            leader: self.leader,
        }
    }
}

/// Reads an integer cell of a column with role `f`.
fn integer_cell(f: Field, cell: &str) -> (r: Result<i32, CellError>)
    ensures
        match read_integer(f, cell@) {
            Ok(v) => r == Ok::<i32, CellError>(v),
            Err(e) => r is Err && r->Err_0@ == e,
        },
{
    match parse_integer(cell) {
        Ok(v) => Ok(v),
        Err(_) => Err(CellError::MalformedInteger(f, cell.to_owned())),
    }
}

/// Reads a duration cell of a column with role `f`.
fn duration_cell(f: Field, cell: &str) -> (r: Result<u64, CellError>)
    ensures
        match as_u64(duration_of(cell@)) {
            Some(v) => r == Ok::<u64, CellError>(v),
            None => r is Err && r->Err_0@ == CellFault::MalformedDuration(f, cell@),
        },
{
    match parse_duration(cell) {
        Ok(v) => Ok(v),
        Err(_) => Err(CellError::MalformedDuration(f, cell.to_owned())),
    }
}

/// Reads a time cell into `st`.
fn apply_time(st: &mut PartialRow, cell: &str) -> (r: Result<(), CellError>)
    ensures
        match read_time(old(st)@, cell@) {
            Ok(next) => r is Ok && final(st)@ == next,
            Err(e) => r is Err && r->Err_0@ == e,
        },
{
    if same_text(cell, "DNS") {
        st.reason = Some(Reason::DidNotStart);
        Ok(())
    } else if same_text(cell, "DNF") {
        st.reason = Some(Reason::DidNotFinish);
        Ok(())
    } else if same_text(cell, "DSQ") {
        st.reason = Some(Reason::Disqualified);
        Ok(())
    } else if cell.unicode_len() == 0 {
        Ok(())
    } else if cell.get_char(0) == '+' {
        let rest = cell.substring_char(1, cell.unicode_len());
        proof {
            assert(rest@ =~= cell@.drop_first());
        }
        let off = duration_cell(Field::Time, rest)?;
        if off <= u64::MAX - st.leader {
            st.time = Some(st.leader + off);
            Ok(())
        } else {
            Err(CellError::MalformedDuration(Field::Time, rest.to_owned()))
        }
    } else {
        let t = duration_cell(Field::Time, cell)?;
        st.time = Some(t);
        st.leader = t;
        Ok(())
    }
}

/// Reads one cell under the role of its column into `st`.
fn apply(st: &mut PartialRow, cell: &str, f: Field) -> (r: Result<(), CellError>)
    ensures
        match step(old(st)@, cell@, f) {
            Ok(next) => r is Ok && final(st)@ == next,
            Err(e) => r is Err && r->Err_0@ == e,
        },
{
    match f {
        Field::FpsLocked => {
            st.fps_locked = same_text(cell, "*");
        },
        Field::Position => {
            if cell.unicode_len() == 0 {
                return Err(CellError::MissingField(RequiredField::Position));
            }
            let p = integer_cell(Field::Position, cell)?;
            if p <= 0 {
                return Err(CellError::MalformedInteger(Field::Position, cell.to_owned()));
            }
            st.position = Some(p);
        },
        Field::Name => {
            if cell.unicode_len() == 0 {
                return Err(CellError::MissingField(RequiredField::Name));
            }
            st.name = Some(cell.to_owned());
        },
        Field::Vehicle => {
            if cell.unicode_len() == 0 {
                return Err(CellError::MissingField(RequiredField::Vehicle));
            }
            st.vehicle = Some(cell.to_owned());
        },
        Field::Time => {
            return apply_time(st, cell);
        },
        Field::BestLap => {
            if cell.unicode_len() != 0 {
                st.best_lap = Some(duration_cell(Field::BestLap, cell)?);
            }
        },
        Field::Lap => {
            if !same_text(cell, "-") {
                st.lap = Some(integer_cell(Field::Lap, cell)?);
            }
        },
        Field::Ping => {
            st.ping = Some(integer_cell(Field::Ping, cell)?);
        },
        Field::Fps => {
            st.fps = Some(integer_cell(Field::Fps, cell)?);
        },
        Field::Ignored => {},
    }
    Ok(())
}

/// Reads one body row: each cell under the column in the same place, as far
/// as both go. An absolute time becomes the leader's time; an offset
/// `+...` is counted from it. On failure the leader's time is kept.
pub fn interpret_row(cells: &Vec<String>, fields: &Vec<Field>, leader: &mut u64) -> (r: Result<
    Entrant,
    CellError,
>)
    ensures
        match row_outcome(texts(cells@), fields@, *old(leader)) {
            Ok((e, next)) => r is Ok && r->Ok_0@ == e && *final(leader) == next,
            Err(e) => r is Err && r->Err_0@ == e && *final(leader) == *old(leader),
        },
{
    let mut st = PartialRow {
        fps_locked: false,
        position: None,
        name: None,
        vehicle: None,
        time: None,
        best_lap: None,
        lap: None,
        reason: None,
        ping: None,
        fps: None,
        leader: *leader,
    };
    let ghost all = texts(cells@);
    let ghost goal = read_cells(blank_row(*leader), all, fields@);
    proof {
        assert(all.skip(0) =~= all);
        assert(fields@.skip(0) =~= fields@);
        assert(st@ == blank_row(*leader));
    }
    let mut i: usize = 0;
    while i < cells.len() && i < fields.len()
        invariant
            i <= cells@.len(),
            i <= fields@.len(),
            all == texts(cells@),
            *leader == *old(leader),
            goal == read_cells(blank_row(*old(leader)), all, fields@),
            read_cells(st@, all.skip(i as int), fields@.skip(i as int)) == goal,
        decreases cells@.len() - i,
    {
        proof {
            assert(all.skip(i as int)[0] == cells@[i as int]@);
            assert(all.skip(i as int).drop_first() =~= all.skip(i + 1));
            assert(fields@.skip(i as int).drop_first() =~= fields@.skip(i + 1));
        }
        let ghost before = st@;
        let res = apply(&mut st, cells[i].as_str(), fields[i]);
        if let Err(e) = res {
            proof {
                assert(all.skip(i as int).len() > 0 && fields@.skip(i as int).len() > 0);
                assert(step(before, all.skip(i as int)[0], fields@.skip(i as int)[0]) == Err::<
                    RowState,
                    CellFault,
                >(e@));
                assert(goal == Err::<RowState, CellFault>(e@));
            }
            return Err(e);
        }
        i = i + 1;
    }
    proof {
        assert(all.skip(i as int).len() == 0 || fields@.skip(i as int).len() == 0);
    }
    let position = match st.position {
        Some(p) => p,
        None => return Err(CellError::MissingField(RequiredField::Position)),
    };
    let name = match st.name {
        Some(n) => n,
        None => return Err(CellError::MissingField(RequiredField::Name)),
    };
    let vehicle = match st.vehicle {
        Some(v) => v,
        None => return Err(CellError::MissingField(RequiredField::Vehicle)),
    };
    *leader = st.leader;
    Ok(
        Entrant {
            position,
            name,
            vehicle,
            time: st.time,
            best_lap: st.best_lap,
            lap: st.lap,
            reason: st.reason,
            ping: st.ping,
            fps: st.fps,
            fps_locked: st.fps_locked,
        },
    )
}

} // verus!
