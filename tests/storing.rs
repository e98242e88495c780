use phc_stats::error::{CellError, ParseError, RequiredField};
use phc_stats::ingest::{plan, reason_code, reason_from_code, Date};
use phc_stats::fields::Field;
use phc_stats::mode::Mode;
use phc_stats::race::Race;
use phc_stats::row::{Entrant, Reason};
use phc_stats::store::{IngestError, Store, StoreError};

fn date() -> Date {
    Date { year: 2019, month: 6, day: 1 }
}

fn document(mode: &str, rows: &[(&str, &str, &str)]) -> String {
    let mut doc = String::from("<table id=\"scoreTable\"><tr><th>Oval</th></tr>");
    doc.push_str(&format!("<tr><th>{}</th></tr>", mode));
    doc.push_str("<tr><th>Pos</th><th>Name</th><th>Vehicle</th><th>Time</th></tr>");
    for (pos, name, time) in rows {
        doc.push_str(&format!(
            "<tr><td>{}</td><td>{}</td><td>Car</td><td>{}</td></tr>",
            pos, name, time
        ));
    }
    doc.push_str("</table>");
    doc
}

#[test]
fn competitor_resolved_once() {
    let mut store = Store::new();
    let first = document("Laps: 5", &[("1", "Alice", "1:00.000"), ("2", "Bob", "+0:01.000")]);
    let second = document("Rally", &[("1", "Carol", "2:00.000"), ("2", "Alice", "+0:03.000")]);
    store.add_race(1, date(), &first).unwrap();
    store.add_race(2, date(), &second).unwrap();
    assert_eq!(store.competitor_count(), 3);
    let alice = store.competitor_id("Alice").unwrap();
    assert_eq!(store.entry(1, alice).unwrap().row.time, Some(60_000));
    assert_eq!(store.entry(2, alice).unwrap().row.time, Some(123_000));
    assert_eq!(store.entry_count(), 4);
}

#[test]
fn round_trip_counts() {
    let mut store = Store::new();
    let doc = document(
        "Minutes: 20",
        &[("1", "A", "1:00.000"), ("2", "B", "+0:01.000"), ("3", "C", "DNS")],
    );
    store.add_race(9, date(), &doc).unwrap();
    assert_eq!(store.entry_count(), 3);
    assert_eq!(store.race_count(), 1);
    let race = store.race(9).unwrap();
    assert_eq!((race.laps, race.minutes), (None, Some(20)));
    assert_eq!(race.track, "Oval");
    assert_eq!(race.date, date());
    let c = store.competitor_id("C").unwrap();
    let entry = store.entry(9, c).unwrap();
    assert_eq!((entry.row.time, entry.row.reason), (None, Some(Reason::DidNotStart)));
    assert!(store.race(10).is_none());
}

#[test]
fn failed_row_stores_nothing() {
    let mut store = Store::new();
    let doc = document(
        "Laps: 5",
        &[("1", "A", "1:00.000"), ("2", "B", "+0:01.000"), ("x", "C", "+0:02.000"), ("4", "D", "DNF"), ("5", "E", "DSQ")],
    );
    assert_eq!(
        store.add_race(1, date(), &doc),
        Err(IngestError::Parse(ParseError::InRow(
            2,
            CellError::MalformedInteger(Field::Position, "x".to_string())
        )))
    );
    assert_eq!(store.race_count(), 0);
    assert_eq!(store.competitor_count(), 0);
    assert_eq!(store.entry_count(), 0);
}

#[test]
fn race_id_taken() {
    let mut store = Store::new();
    let doc = document("Laps: 5", &[("1", "A", "1:00.000")]);
    store.add_race(1, date(), &doc).unwrap();
    let other = document("Laps: 5", &[("1", "New", "1:00.000")]);
    assert_eq!(
        store.add_race(1, date(), &other),
        Err(IngestError::Store(StoreError::RaceExists(1)))
    );
    assert_eq!(store.competitor_count(), 1);
    assert!(store.competitor_id("New").is_none());
    assert_eq!(store.entry_count(), 1);
}

#[test]
fn competitor_twice_in_race() {
    let mut store = Store::new();
    let doc = document("Laps: 5", &[("1", "A", "1:00.000"), ("2", "A", "+0:01.000")]);
    assert_eq!(
        store.add_race(1, date(), &doc),
        Err(IngestError::Store(StoreError::RepeatedCompetitor("A".to_string())))
    );
    assert_eq!((store.race_count(), store.competitor_count(), store.entry_count()), (0, 0, 0));
}

#[test]
fn time_beyond_columns() {
    let mut store = Store::new();
    let doc = document("Laps: 5", &[("1", "A", "1:00.000"), ("2", "B", "600:00:00.000")]);
    assert_eq!(store.add_race(1, date(), &doc), Err(IngestError::TimeOutOfRange(1)));
    assert_eq!(store.race_count(), 0);
}

#[test]
fn missing_heading_document() {
    let mut store = Store::new();
    assert_eq!(
        store.add_race(1, date(), "<table id=\"scoreTable\"></table>"),
        Err(IngestError::Parse(ParseError::HeadingNotFound))
    );
    let doc = "<table id=\"scoreTable\"><tr><th>T</th></tr><tr><th>Rally</th></tr><tr><th>Pos</th><th>Name</th></tr><tr><td>1</td><td>A</td></tr></table>";
    assert_eq!(
        store.add_race(1, date(), doc),
        Err(IngestError::Parse(ParseError::InRow(0, CellError::MissingField(RequiredField::Vehicle))))
    );
}

#[test]
fn plan_rows() {
    let race = Race {
        track: "Oval".to_string(),
        mode: Mode::Laps(4),
        entrants: vec![Entrant {
            position: 1,
            name: "A".to_string(),
            vehicle: "Car".to_string(),
            time: Some(61_000),
            best_lap: Some(15_000),
            lap: Some(4),
            reason: None,
            ping: Some(10),
            fps: Some(60),
            fps_locked: true,
        }],
    };
    let p = plan(3, date(), &race).unwrap();
    assert_eq!((p.race.id, p.race.laps, p.race.minutes), (3, Some(4), None));
    assert_eq!(p.entries[0].name, "A");
    assert_eq!((p.entries[0].row.time, p.entries[0].row.best_lap), (Some(61_000), Some(15_000)));
}

#[test]
fn reason_codes() {
    assert_eq!(reason_code(Reason::DidNotStart), 1);
    assert_eq!(reason_code(Reason::DidNotFinish), 2);
    assert_eq!(reason_code(Reason::Disqualified), 3);
    assert_eq!(reason_from_code(2), Some(Reason::DidNotFinish));
    assert_eq!(reason_from_code(0), None);
}

#[test]
fn calendar_dates() {
    assert!(Date { year: 2019, month: 6, day: 30 }.is_valid());
    assert!(!Date { year: 2019, month: 6, day: 31 }.is_valid());
    assert!(!Date { year: 2019, month: 13, day: 1 }.is_valid());
    assert!(!Date { year: 2019, month: 0, day: 1 }.is_valid());
    assert!(!Date { year: 2019, month: 1, day: 0 }.is_valid());
    assert!(Date { year: 2020, month: 2, day: 29 }.is_valid());
    assert!(!Date { year: 1900, month: 2, day: 29 }.is_valid());
    assert!(Date { year: 2000, month: 2, day: 29 }.is_valid());
    assert!(Date { year: -4, month: 2, day: 29 }.is_valid());
    assert!(!Date { year: -100, month: 2, day: 29 }.is_valid());
}
