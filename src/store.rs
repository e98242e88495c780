//! A store that holds the three tables in memory: races, competitors and
//! entries, with the keys that the relational store enforces.
use crate::document::{parse_race, parsed};
use crate::error::ParseError;
use crate::ingest::{
    laps_of, minutes_of, plan, plan_of, race_record_of, row_of, storable, valid_date, Date, EntryRow,
    EntryRowView, Plan, PlanView, RaceRecord, RaceRecordView,
};
use crate::race::{ParseFault, RaceView};
use crate::text::same_text;
use vstd::prelude::*;

verus! {

/// A stored entry, keyed by race id and competitor id.
#[derive(Clone, Debug, PartialEq, Eq)]
pub struct StoredEntry {
    pub race_id: i32,
    pub competitor_id: i32,
    pub row: EntryRow,
}

pub struct StoredEntryView {
    pub race_id: i32,
    pub competitor_id: i32,
    pub row: EntryRowView,
}

impl View for StoredEntry {
    type V = StoredEntryView;

    open spec fn view(&self) -> StoredEntryView {
        StoredEntryView { race_id: self.race_id, competitor_id: self.competitor_id, row: self.row@ }
    }
}

/// The tables. A competitor's id is its place in `competitors`, from one.
pub struct StoreView {
    pub races: Seq<RaceRecordView>,
    pub competitors: Seq<Seq<char>>,
    pub entries: Seq<StoredEntryView>,
}

/// Why the store refused a race; it is then left as it was.
#[derive(Clone, Debug, PartialEq, Eq)]
pub enum StoreError {
    /// A race with this id is stored already.
    RaceExists(i32),
    /// This competitor appears twice in the race.
    RepeatedCompetitor(String),
    /// The competitor ids would run out.
    Full,
}

/// Why a result document was not stored; nothing is then stored.
#[derive(Clone, Debug, PartialEq, Eq)]
pub enum IngestError {
    /// The document did not parse.
    Parse(ParseError),
    /// The time of the entry at this index does not fit the store's columns.
    TimeOutOfRange(usize),
    /// The store refused the race.
    Store(StoreError),
}

pub enum StoreFault {
    RaceExists,
    RepeatedCompetitor,
    Full,
}

pub open spec fn has_race(s: StoreView, id: i32) -> bool {
    exists|i: int| 0 <= i < s.races.len() && s.races[i].id == id
}

/// The id of a stored competitor's name.
pub open spec fn id_in(competitors: Seq<Seq<char>>, name: Seq<char>) -> int {
    (choose|i: int| 0 <= i < competitors.len() && competitors[i] == name) + 1
}

/// The competitors after a get-or-insert of `name`.
pub open spec fn get_or_insert(competitors: Seq<Seq<char>>, name: Seq<char>) -> Seq<Seq<char>> {
    if competitors.contains(name) {
        competitors
    } else {
        competitors.push(name)
    }
}

/// The competitors after a get-or-insert of each name in turn.
pub open spec fn add_names(competitors: Seq<Seq<char>>, names: Seq<Seq<char>>) -> Seq<Seq<char>>
    decreases names.len(),
{
    if names.len() == 0 {
        competitors
    } else {
        get_or_insert(add_names(competitors, names.drop_last()), names.last())
    }
}

/// Whether `name` appears at two places of `names`.
pub open spec fn repeated(names: Seq<Seq<char>>, name: Seq<char>) -> bool {
    exists|i: int, j: int| 0 <= i < j < names.len() && names[i] == name && names[j] == name
}

pub open spec fn has_repeat(names: Seq<Seq<char>>) -> bool {
    exists|i: int, j: int| 0 <= i < j < names.len() && names[i] == names[j]
}

/// The entries that a plan adds, once its names are resolved in `competitors`.
pub open spec fn new_entries(p: PlanView, competitors: Seq<Seq<char>>) -> Seq<StoredEntryView> {
    Seq::new(
        p.names.len(),
        |k: int|
            StoredEntryView {
                race_id: p.race.id,
                competitor_id: id_in(competitors, p.names[k]) as i32,
                row: p.rows[k],
            },
    )
}

/// Storing a plan in one transaction: the race row, a get-or-insert of each
/// competitor's name, and one entry row per competitor; or nothing at all.
pub open spec fn ingest_outcome(s: StoreView, p: PlanView) -> Result<StoreView, StoreFault> {
    if has_race(s, p.race.id) {
        Err(StoreFault::RaceExists)
    } else if has_repeat(p.names) {
        Err(StoreFault::RepeatedCompetitor)
    } else if s.competitors.len() + p.names.len() > i32::MAX {
        Err(StoreFault::Full)
    } else {
        let competitors = add_names(s.competitors, p.names);
        Ok(
            StoreView {
                races: s.races.push(p.race),
                competitors,
                entries: s.entries + new_entries(p, competitors),
            },
        )
    }
}

pub open spec fn fault_of(e: StoreError) -> StoreFault {
    match e {
        StoreError::RaceExists(_) => StoreFault::RaceExists,
        StoreError::RepeatedCompetitor(_) => StoreFault::RepeatedCompetitor,
        StoreError::Full => StoreFault::Full,
    }
}

/// The keys that the tables hold to, and the races' dates are days of the
/// calendar.
pub open spec fn well_formed(s: StoreView) -> bool {
    &&& forall|i: int| 0 <= i < s.races.len() ==> valid_date((#[trigger] s.races[i]).date)
    &&& forall|i: int, j: int|
        0 <= i < j < s.races.len() ==> (#[trigger] s.races[i]).id != (#[trigger] s.races[j]).id
    &&& s.competitors.no_duplicates()
    &&& s.competitors.len() <= i32::MAX
    &&& forall|i: int|
        0 <= i < s.entries.len() ==> has_race(s, (#[trigger] s.entries[i]).race_id) && 1
            <= s.entries[i].competitor_id <= s.competitors.len()
    &&& forall|i: int, j: int|
        0 <= i < j < s.entries.len() ==> ((#[trigger] s.entries[i]).race_id, s.entries[i].competitor_id)
            != ((#[trigger] s.entries[j]).race_id, s.entries[j].competitor_id)
}

/// The tables, held in memory.
pub struct Store {
    races: Vec<RaceRecord>,
    competitors: Vec<String>,
    entries: Vec<StoredEntry>,
}

impl View for Store {
    type V = StoreView;

    closed spec fn view(&self) -> StoreView {
        StoreView {
            races: self.races@.map_values(|r: RaceRecord| r@),
            competitors: self.competitors@.map_values(|c: String| c@),
            entries: self.entries@.map_values(|e: StoredEntry| e@),
        }
    }
}

proof fn lemma_add_names(c: Seq<Seq<char>>, ns: Seq<Seq<char>>)
    ensures
        c.len() <= add_names(c, ns).len() <= c.len() + ns.len(),
        forall|i: int| 0 <= i < c.len() ==> add_names(c, ns)[i] == c[i],
        forall|k: int| 0 <= k < ns.len() ==> add_names(c, ns).contains(#[trigger] ns[k]),
        c.no_duplicates() ==> add_names(c, ns).no_duplicates(),
    decreases ns.len(),
{
    if ns.len() > 0 {
        let prev = add_names(c, ns.drop_last());
        lemma_add_names(c, ns.drop_last());
        let next = get_or_insert(prev, ns.last());
        assert(next == add_names(c, ns));
        if !prev.contains(ns.last()) {
            assert(next[prev.len() as int] == ns.last());
        }
        assert(next.contains(ns.last()));
        assert forall|k: int| 0 <= k < ns.len() implies next.contains(#[trigger] ns[k]) by {
            if k < ns.len() - 1 {
                assert(ns.drop_last()[k] == ns[k]);
                let i = choose|i: int| 0 <= i < prev.len() && prev[i] == ns[k];
                assert(next[i] == ns[k]);
            }
        }
    }
}

/// Resolving a prefix of the names gives a prefix of the competitors.
proof fn lemma_prefix_names(c: Seq<Seq<char>>, ns: Seq<Seq<char>>, m: int)
    requires
        0 <= m <= ns.len(),
    ensures
        add_names(c, ns.take(m)).len() <= add_names(c, ns).len(),
        forall|i: int|
            0 <= i < add_names(c, ns.take(m)).len() ==> add_names(c, ns)[i] == add_names(
                c,
                ns.take(m),
            )[i],
    decreases ns.len(),
{
    if m == ns.len() {
        assert(ns.take(m) =~= ns);
    } else {
        assert(ns.take(m) =~= ns.drop_last().take(m));
        lemma_prefix_names(c, ns.drop_last(), m);
    }
}

proof fn lemma_id_in(c: Seq<Seq<char>>, n: Seq<char>)
    requires
        c.contains(n),
    ensures
        1 <= id_in(c, n) <= c.len(),
        c[id_in(c, n) - 1] == n,
{
}

/// The id of a name is the same in a store that extends this one.
proof fn lemma_id_stable(small: Seq<Seq<char>>, big: Seq<Seq<char>>, n: Seq<char>)
    requires
        small.len() <= big.len(),
        forall|i: int| 0 <= i < small.len() ==> big[i] == small[i],
        big.no_duplicates(),
        small.contains(n),
    ensures
        id_in(small, n) == id_in(big, n),
{
    lemma_id_in(small, n);
    let i = id_in(small, n) - 1;
    assert(big[i] == n);
    assert(big.contains(n));
    lemma_id_in(big, n);
}

proof fn lemma_ingest_well_formed(s: StoreView, p: PlanView)
    requires
        well_formed(s),
        valid_date(p.race.date),
        p.rows.len() == p.names.len(),
        ingest_outcome(s, p) is Ok,
    ensures
        well_formed(ingest_outcome(s, p)->Ok_0),
{
    let t = ingest_outcome(s, p)->Ok_0;
    let comps = add_names(s.competitors, p.names);
    let added = new_entries(p, comps);
    lemma_add_names(s.competitors, p.names);
    assert(t.races.last().id == p.race.id);
    assert forall|i: int, j: int| 0 <= i < j < t.races.len() implies (#[trigger] t.races[i]).id
        != (#[trigger] t.races[j]).id by {
        if j == t.races.len() - 1 {
            assert(s.races[i] == t.races[i]);
        }
    }
    assert forall|i: int| 0 <= i < s.races.len() implies t.races[i] == s.races[i] by {}
    assert forall|k: int| 0 <= k < added.len() implies 1 <= (#[trigger] added[k]).competitor_id
        <= comps.len() && comps[added[k].competitor_id - 1] == p.names[k] by {
        lemma_id_in(comps, p.names[k]);
    }
    assert forall|i: int| 0 <= i < t.entries.len() implies has_race(
        t,
        (#[trigger] t.entries[i]).race_id,
    ) && 1 <= t.entries[i].competitor_id <= t.competitors.len() by {
        if i < s.entries.len() {
            assert(t.entries[i] == s.entries[i]);
            let r = choose|r: int| 0 <= r < s.races.len() && s.races[r].id == s.entries[i].race_id;
            assert(t.races[r] == s.races[r]);
        } else {
            assert(t.entries[i] == added[i - s.entries.len()]);
            assert(t.races[s.races.len() as int].id == p.race.id);
        }
    }
    assert forall|i: int, j: int| 0 <= i < j < t.entries.len() implies ((
    #[trigger] t.entries[i]).race_id, t.entries[i].competitor_id) != ((
    #[trigger] t.entries[j]).race_id, t.entries[j].competitor_id) by {
        let m = s.entries.len() as int;
        if j < m {
            assert(t.entries[i] == s.entries[i] && t.entries[j] == s.entries[j]);
        } else if i < m {
            assert(t.entries[i] == s.entries[i]);
            assert(t.entries[j] == added[j - m]);
            if s.entries[i].race_id == p.race.id {
                assert(has_race(s, p.race.id));
            }
        } else {
            assert(t.entries[i] == added[i - m] && t.entries[j] == added[j - m]);
            assert(p.names[i - m] != p.names[j - m]);
        }
    }
}

/// Two races that both name a competitor, stored one after the other, leave
/// one competitor with that name, and the entries of both races carry its id.
pub proof fn law_competitor_resolved_once(
    s: StoreView,
    p1: PlanView,
    p2: PlanView,
    name: Seq<char>,
)
    requires
        well_formed(s),
        valid_date(p1.race.date),
        valid_date(p2.race.date),
        p1.rows.len() == p1.names.len(),
        p2.rows.len() == p2.names.len(),
        ingest_outcome(s, p1) is Ok,
        ingest_outcome(ingest_outcome(s, p1)->Ok_0, p2) is Ok,
        p1.names.contains(name),
        p2.names.contains(name),
    ensures
        ({
            let t = ingest_outcome(ingest_outcome(s, p1)->Ok_0, p2)->Ok_0;
            let c = id_in(t.competitors, name);
            &&& t.competitors.contains(name)
            &&& forall|i: int, j: int|
                0 <= i < t.competitors.len() && 0 <= j < t.competitors.len() && t.competitors[i]
                    == name && t.competitors[j] == name ==> i == j
            &&& exists|i: int|
                0 <= i < t.entries.len() && t.entries[i].race_id == p1.race.id
                    && t.entries[i].competitor_id == c
            &&& exists|j: int|
                0 <= j < t.entries.len() && t.entries[j].race_id == p2.race.id
                    && t.entries[j].competitor_id == c
        }),
{
    let s1 = ingest_outcome(s, p1)->Ok_0;
    let t = ingest_outcome(s1, p2)->Ok_0;
    lemma_ingest_well_formed(s, p1);
    lemma_ingest_well_formed(s1, p2);
    lemma_add_names(s.competitors, p1.names);
    lemma_add_names(s1.competitors, p2.names);
    let k1 = choose|k: int| 0 <= k < p1.names.len() && p1.names[k] == name;
    let k2 = choose|k: int| 0 <= k < p2.names.len() && p2.names[k] == name;
    assert(s1.competitors.contains(p1.names[k1]));
    assert(t.competitors.contains(p2.names[k2]));
    lemma_id_in(s1.competitors, name);
    lemma_id_in(t.competitors, name);
    lemma_id_stable(s1.competitors, t.competitors, name);
    let c = id_in(t.competitors, name);
    let i = s.entries.len() + k1;
    assert(s1.entries[i] == new_entries(p1, s1.competitors)[k1]);
    assert(t.entries[i] == s1.entries[i]);
    assert(t.entries[i].competitor_id == c);
    let j = s1.entries.len() + k2;
    assert(t.entries[j] == new_entries(p2, t.competitors)[k2]);
    assert(t.entries[j].competitor_id == c);
    assert forall|a: int, b: int|
        0 <= a < t.competitors.len() && 0 <= b < t.competitors.len() && t.competitors[a] == name
            && t.competitors[b] == name implies a == b by {
        assert(t.competitors.no_duplicates());
    }
}

/// Storing a race of N entries adds one race row, whose lap and minute counts
/// are those of the race's mode and never both set, and exactly N entry rows:
/// those under the race's id, each keyed by its own competitor's id.
pub proof fn law_round_trip(s: StoreView, id: i32, date: Date, race: RaceView)
    requires
        well_formed(s),
        valid_date(date),
        ingest_outcome(s, plan_of(id, date, race)) is Ok,
    ensures
        ({
            let t = ingest_outcome(s, plan_of(id, date, race))->Ok_0;
            let n = s.entries.len();
            &&& t.races.len() == s.races.len() + 1
            &&& t.races.last() == race_record_of(id, date, race)
            &&& t.races.last().laps == laps_of(race.mode)
            &&& t.races.last().minutes == minutes_of(race.mode)
            &&& !(t.races.last().laps is Some && t.races.last().minutes is Some)
            &&& t.entries.len() == n + race.entrants.len()
            &&& forall|i: int| 0 <= i < t.entries.len() ==> (t.entries[i].race_id == id <==> i >= n)
            &&& forall|k: int|
                0 <= k < race.entrants.len() ==> {
                    let e = #[trigger] t.entries[n + k];
                    &&& 1 <= e.competitor_id <= t.competitors.len()
                    &&& t.competitors[e.competitor_id - 1] == race.entrants[k].name
                    &&& e.row == row_of(race.entrants[k])
                }
        }),
{
    let p = plan_of(id, date, race);
    let t = ingest_outcome(s, p)->Ok_0;
    let n = s.entries.len();
    lemma_ingest_well_formed(s, p);
    lemma_add_names(s.competitors, p.names);
    assert forall|i: int| 0 <= i < t.entries.len() implies (t.entries[i].race_id == id <==> i
        >= n) by {
        if i < n {
            assert(t.entries[i] == s.entries[i]);
            assert(has_race(s, s.entries[i].race_id));
        } else {
            assert(t.entries[i] == new_entries(p, t.competitors)[i - n]);
        }
    }
    assert forall|k: int| 0 <= k < race.entrants.len() implies {
        let e = #[trigger] t.entries[n + k];
        &&& 1 <= e.competitor_id <= t.competitors.len()
        &&& t.competitors[e.competitor_id - 1] == race.entrants[k].name
        &&& e.row == row_of(race.entrants[k])
    } by {
        assert(t.entries[n + k] == new_entries(p, t.competitors)[k]);
        assert(p.names[k] == race.entrants[k].name);
        lemma_id_in(t.competitors, p.names[k]);
    }
}

fn copy_race(r: &RaceRecord) -> (c: RaceRecord)
    ensures
        c@ == r@,
{
    RaceRecord {
        id: r.id,
        date: r.date,
        track: r.track.clone(),
        laps: r.laps,
        minutes: r.minutes,
    }
}

fn copy_row(r: &EntryRow) -> (c: EntryRow)
    ensures
        c@ == r@,
{
    EntryRow {
        position: r.position,
        vehicle: r.vehicle.clone(),
        time: r.time,
        best_lap: r.best_lap,
        lap: r.lap,
        reason: r.reason,
        ping: r.ping,
        fps: r.fps,
        fps_locked: r.fps_locked,
    }
}

impl Store {
    /// A store with empty tables.
    pub fn new() -> (s: Store)
        ensures
            well_formed(s@),
            s@.races.len() == 0,
            s@.competitors.len() == 0,
            s@.entries.len() == 0,
    {
        let s = Store { races: Vec::new(), competitors: Vec::new(), entries: Vec::new() };
        proof {
            assert(s@.competitors =~= Seq::<Seq<char>>::empty());
        }
        s
    }

    /// The id of the competitor with this name, if one is stored.
    pub fn competitor_id(&self, name: &str) -> (r: Option<i32>)
        requires
            well_formed(self@),
        ensures
            match r {
                Some(id) => self@.competitors.contains(name@) && id == id_in(self@.competitors, name@),
                None => !self@.competitors.contains(name@),
            },
    {
        let ghost c = self@.competitors;
        let mut i: usize = 0;
        while i < self.competitors.len()
            invariant
                i <= self.competitors@.len(),
                c == self@.competitors,
                c.no_duplicates(),
                c.len() <= i32::MAX,
                forall|j: int| 0 <= j < i ==> c[j] != name@,
            decreases self.competitors@.len() - i,
        {
            if same_text(self.competitors[i].as_str(), name) {
                proof {
                    assert(c[i as int] == name@);
                    lemma_id_in(c, name@);
                    let k = id_in(c, name@) - 1;
                    if k != i {
                        assert(c[k] == c[i as int]);
                    }
                }
                return Some((i + 1) as i32);
            }
            i = i + 1;
        }
        None
    }

    /// The number of stored races.
    pub fn race_count(&self) -> (n: usize)
        ensures
            n == self@.races.len(),
    {
        self.races.len()
    }

    /// The number of stored competitors.
    pub fn competitor_count(&self) -> (n: usize)
        ensures
            n == self@.competitors.len(),
    {
        self.competitors.len()
    }

    /// The number of stored entries.
    pub fn entry_count(&self) -> (n: usize)
        ensures
            n == self@.entries.len(),
    {
        self.entries.len()
    }

    /// The stored race with this id.
    pub fn race(&self, id: i32) -> (r: Option<&RaceRecord>)
        ensures
            match r {
                Some(race) => race.id == id && self@.races.contains(race@),
                None => !has_race(self@, id),
            },
    {
        let mut i: usize = 0;
        while i < self.races.len()
            invariant
                i <= self.races@.len(),
                forall|j: int| 0 <= j < i ==> self@.races[j].id != id,
            decreases self.races@.len() - i,
        {
            if self.races[i].id == id {
                proof {
                    assert(self@.races[i as int] == self.races@[i as int]@);
                }
                return Some(&self.races[i]);
            }
            i = i + 1;
        }
        None
    }

    /// The stored entry of this competitor in this race.
    pub fn entry(&self, race_id: i32, competitor_id: i32) -> (r: Option<&StoredEntry>)
        ensures
            match r {
                Some(e) => e.race_id == race_id && e.competitor_id == competitor_id
                    && self@.entries.contains(e@),
                None => forall|j: int|
                    0 <= j < self@.entries.len() ==> !((#[trigger] self@.entries[j]).race_id
                        == race_id && self@.entries[j].competitor_id == competitor_id),
            },
    {
        let mut i: usize = 0;
        while i < self.entries.len()
            invariant
                i <= self.entries@.len(),
                forall|j: int|
                    0 <= j < i ==> !((#[trigger] self@.entries[j]).race_id == race_id
                        && self@.entries[j].competitor_id == competitor_id),
            decreases self.entries@.len() - i,
        {
            if self.entries[i].race_id == race_id && self.entries[i].competitor_id == competitor_id {
                proof {
                    assert(self@.entries[i as int] == self.entries@[i as int]@);
                }
                return Some(&self.entries[i]);
            }
            i = i + 1;
        }
        None
    }

    /// Parses a result document and stores the race under the given id and
    /// date, with its entries and any new competitors, in one transaction.
    /// On any failure, of the parse or of the store, nothing is stored.
    pub fn add_race(&mut self, id: i32, date: Date, text: &str) -> (r: Result<(), IngestError>)
        requires
            well_formed(old(self)@),
            valid_date(date),
        ensures
            well_formed(final(self)@),
            r is Err ==> final(self)@ == old(self)@,
            r is Ok ==> parsed(text) is Ok && {
                let race = parsed(text)->Ok_0;
                let stored = final(self)@.races.last();
                &&& final(self)@.races.len() == old(self)@.races.len() + 1
                &&& stored == race_record_of(id, date, race)
                &&& stored.laps == laps_of(race.mode)
                &&& stored.minutes == minutes_of(race.mode)
                &&& !(stored.laps is Some && stored.minutes is Some)
                &&& final(self)@.entries.len() == old(self)@.entries.len() + race.entrants.len()
            },
            match parsed(text) {
                Err(f) => r matches Err(IngestError::Parse(e)) && e@ == f,
                Ok(race) => if forall|k: int|
                    0 <= k < race.entrants.len() ==> storable(#[trigger] race.entrants[k]) {
                    match ingest_outcome(old(self)@, plan_of(id, date, race)) {
                        Ok(s) => r is Ok && final(self)@ == s,
                        Err(f) => r matches Err(IngestError::Store(e)) && fault_of(e) == f,
                    }
                } else {
                    r matches Err(IngestError::TimeOutOfRange(k)) && k < race.entrants.len()
                        && !storable(race.entrants[k as int])
                },
            },
    {
        let race = match parse_race(text) {
            Ok(race) => race,
            Err(e) => return Err(IngestError::Parse(e)),
        };
        let p = match plan(id, date, &race) {
            Ok(p) => p,
            Err(k) => {
                proof {
                    assert(race@.entrants[k as int] == race.entrants@[k as int]@);
                    assert(parsed(text) == Ok::<RaceView, ParseFault>(race@));
                }
                return Err(IngestError::TimeOutOfRange(k));
            },
        };
        proof {
            assert(race@.entrants =~= crate::race::entrants_view(race.entrants@));
            assert forall|k: int| 0 <= k < race@.entrants.len() implies storable(
                #[trigger] race@.entrants[k],
            ) by {
                assert(race@.entrants[k] == race.entrants@[k]@);
            }
        }
        let ghost before = self@;
        match self.ingest(&p) {
            Ok(()) => {
                proof {
                    law_round_trip(before, id, date, race@);
                }
                Ok(())
            },
            Err(e) => Err(IngestError::Store(e)),
        }
    }

    /// The id of a competitor's name, inserting the name where it is new.
    fn resolve(&mut self, name: &String) -> (id: i32)
        requires
            old(self)@.competitors.no_duplicates(),
            old(self)@.competitors.len() < i32::MAX,
        ensures
            final(self)@.competitors == get_or_insert(old(self)@.competitors, name@),
            final(self)@.races == old(self)@.races,
            final(self)@.entries == old(self)@.entries,
            id == id_in(final(self)@.competitors, name@),
    {
        let ghost c = self@.competitors;
        let mut i: usize = 0;
        while i < self.competitors.len()
            invariant
                i <= self.competitors@.len(),
                c == self@.competitors,
                c.no_duplicates(),
                c.len() < i32::MAX,
                c.len() == self.competitors@.len(),
                forall|j: int| 0 <= j < i ==> c[j] != name@,
            decreases self.competitors@.len() - i,
        {
            if same_text(self.competitors[i].as_str(), name.as_str()) {
                proof {
                    assert(c[i as int] == name@);
                    assert(c.contains(name@));
                    lemma_id_in(c, name@);
                    let k = id_in(c, name@) - 1;
                    if k != i {
                        assert(c[k] == c[i as int]);
                    }
                }
                return (i + 1) as i32;
            }
            i = i + 1;
        }
        self.competitors.push(name.clone());
        proof {
            let d = self@.competitors;
            assert(d =~= c.push(name@));
            assert(!c.contains(name@));
            assert(d[c.len() as int] == name@);
            lemma_id_in(d, name@);
            let k = id_in(d, name@) - 1;
            if k < c.len() {
                assert(d[k] == c[k]);
            }
        }
        self.competitors.len() as i32
    }

    /// Stores a race in one transaction: the race row, a get-or-insert of
    /// each competitor's name, and one entry row per competitor. On failure
    /// nothing is stored.
    pub fn ingest(&mut self, p: &Plan) -> (r: Result<(), StoreError>)
        requires
            well_formed(old(self)@),
            valid_date(p.race.date),
        ensures
            well_formed(final(self)@),
            match ingest_outcome(old(self)@, p@) {
                Ok(s) => r is Ok && final(self)@ == s,
                Err(f) => r is Err && fault_of(r->Err_0) == f && final(self)@ == old(self)@,
            },
            r matches Err(StoreError::RaceExists(id)) ==> id == p.race.id,
            r matches Err(StoreError::RepeatedCompetitor(n)) ==> repeated(p@.names, n@),
    {
        let ghost s0 = self@;
        let ghost pv = p@;
        let id = p.race.id;
        let mut i: usize = 0;
        while i < self.races.len()
            invariant
                s0 == old(self)@,
                pv == p@,
                well_formed(s0),
                i <= self.races@.len(),
                self@ == s0,
                id == p.race.id,
                pv.race.id == id,
                forall|j: int| 0 <= j < i ==> s0.races[j].id != id,
            decreases self.races@.len() - i,
        {
            if self.races[i].id == id {
                proof {
                    assert(s0.races[i as int].id == id);
                    assert(has_race(s0, id));
                }
                return Err(StoreError::RaceExists(id));
            }
            i = i + 1;
        }
        proof {
            assert(!has_race(s0, pv.race.id));
        }
        let n = p.entries.len();
        let mut a: usize = 0;
        while a < n
            invariant
                s0 == old(self)@,
                pv == p@,
                well_formed(s0),
                n == pv.names.len(),
                n == p.entries@.len(),
                !has_race(s0, pv.race.id),
                a <= n,
                self@ == s0,
                forall|x: int, y: int| 0 <= x < a && x < y < n ==> pv.names[x] != pv.names[y],
            decreases n - a,
        {
            let mut b: usize = a + 1;
            while b < n
                invariant
                    s0 == old(self)@,
                    pv == p@,
                    well_formed(s0),
                    n == pv.names.len(),
                    n == p.entries@.len(),
                    !has_race(s0, pv.race.id),
                    a < n,
                    a + 1 <= b <= n,
                    self@ == s0,
                    forall|x: int, y: int| 0 <= x < a && x < y < n ==> pv.names[x] != pv.names[y],
                    forall|y: int| a < y < b ==> pv.names[a as int] != pv.names[y],
                decreases n - b,
            {
                if same_text(p.entries[a].name.as_str(), p.entries[b].name.as_str()) {
                    let name = p.entries[a].name.clone();
                    proof {
                        assert(pv.names[a as int] == name@ && pv.names[b as int] == name@);
                        assert(has_repeat(pv.names));
                    }
                    return Err(StoreError::RepeatedCompetitor(name));
                }
                b = b + 1;
            }
            a = a + 1;
        }
        if n as u64 > i32::MAX as u64 || self.competitors.len() as u64 > i32::MAX as u64 - n as u64 {
            return Err(StoreError::Full);
        }
        let ghost comps = add_names(s0.competitors, pv.names);
        let ghost added = new_entries(pv, comps);
        proof {
            lemma_add_names(s0.competitors, pv.names);
            assert(pv.names.take(0) =~= Seq::<Seq<char>>::empty());
            assert(s0.entries + added.take(0) =~= s0.entries);
        }
        self.races.push(copy_race(&p.race));
        proof {
            assert(self@.races =~= s0.races.push(pv.race));
        }
        let mut k: usize = 0;
        while k < n
            invariant
                s0 == old(self)@,
                pv == p@,
                well_formed(s0),
                n == pv.names.len(),
                n == pv.rows.len(),
                n == p.entries@.len(),
                k <= n,
                id == pv.race.id,
                s0.competitors.len() + n <= i32::MAX,
                s0.competitors.no_duplicates(),
                comps == add_names(s0.competitors, pv.names),
                added == new_entries(pv, comps),
                comps.no_duplicates(),
                forall|x: int| 0 <= x < n ==> comps.contains(#[trigger] pv.names[x]),
                self@.races == s0.races.push(pv.race),
                self@.competitors == add_names(s0.competitors, pv.names.take(k as int)),
                self@.entries == s0.entries + added.take(k as int),
            decreases n - k,
        {
            let ghost before = self@.competitors;
            proof {
                lemma_add_names(s0.competitors, pv.names.take(k as int));
            }
            let cid = self.resolve(&p.entries[k].name);
            proof {
                let next = pv.names.take(k + 1);
                assert(next.drop_last() =~= pv.names.take(k as int));
                assert(next.last() == pv.names[k as int]);
                assert(self@.competitors == add_names(s0.competitors, next));
                lemma_add_names(s0.competitors, next);
                assert(next[k as int] == pv.names[k as int]);
                assert(self@.competitors.contains(pv.names[k as int]));
                lemma_prefix_names(s0.competitors, pv.names, k + 1);
                lemma_id_stable(self@.competitors, comps, pv.names[k as int]);
            }
            let entry = StoredEntry { race_id: id, competitor_id: cid, row: copy_row(&p.entries[k].row) };
            let ghost old_entries = self@.entries;
            self.entries.push(entry);
            proof {
                assert(self@.entries =~= old_entries.push(entry@));
                assert(entry@ == added[k as int]);
                assert(added.take(k + 1) =~= added.take(k as int).push(added[k as int]));
                assert(s0.entries + added.take(k + 1) =~= (s0.entries + added.take(k as int)).push(
                    added[k as int],
                ));
            }
            k = k + 1;
        }
        proof {
            assert(pv.names.take(n as int) =~= pv.names);
            assert(added.take(n as int) =~= added);
            lemma_ingest_well_formed(s0, pv);
        }
        Ok(())
    }
}

} // verus!
