use phc_stats::error::{CellError, ParseError, RequiredField, ValueError};
use phc_stats::fields::{classify, classify_columns, Field};
use phc_stats::mode::{parse_mode, Mode};
use phc_stats::race::{race_from_rows, ScoreRow};
use phc_stats::row::{interpret_row, Reason};
use phc_stats::text::{parse_duration, parse_integer};
use phc_stats::document::{parser_limits_hold, race_from_raw_rows, RawHead, RawRow, MAX_START_TAGS};
use phc_stats::parse_race;

fn strings(v: &[&str]) -> Vec<String> {
    v.iter().map(|s| s.to_string()).collect()
}

#[test]
fn duration_short_form() {
    assert_eq!(parse_duration("1:02.345"), Ok(62345));
    assert_eq!(parse_duration("0:00.000"), Ok(0));
    assert_eq!(parse_duration("125:00.001"), Ok(7_500_001));
}

#[test]
fn duration_long_form() {
    assert_eq!(parse_duration("1:00:00.000"), Ok(3_600_000));
    assert_eq!(parse_duration("2:03:04.005"), Ok(7_384_005));
}

#[test]
fn duration_malformed() {
    assert_eq!(
        parse_duration("bogus"),
        Err(ValueError::MalformedDuration("bogus".to_string()))
    );
    for bad in ["", "1:02", "1.02:345", "1:02.", ":02.345", "1:0a.345", "1:02:03:04.5", "-1:02.345"] {
        assert_eq!(
            parse_duration(bad),
            Err(ValueError::MalformedDuration(bad.to_string()))
        );
    }
}

#[test]
fn duration_too_large() {
    let s = "99999999999999999999:00.000";
    assert_eq!(parse_duration(s), Err(ValueError::MalformedDuration(s.to_string())));
}

#[test]
fn integers() {
    assert_eq!(parse_integer("42"), Ok(42));
    assert_eq!(parse_integer("-7"), Ok(-7));
    assert_eq!(parse_integer("+7"), Ok(7));
    assert_eq!(parse_integer("2147483647"), Ok(i32::MAX));
    assert_eq!(parse_integer("-2147483648"), Ok(i32::MIN));
    for bad in ["", "-", "2147483648", "1.5", "12a", " 1"] {
        assert_eq!(parse_integer(bad), Err(ValueError::MalformedInteger(bad.to_string())));
    }
}

#[test]
fn modes() {
    assert_eq!(parse_mode("Laps: 25"), Ok(Mode::Laps(25)));
    assert_eq!(parse_mode("Minutes: 10"), Ok(Mode::Minutes(10)));
    assert_eq!(parse_mode("Rally"), Ok(Mode::Open));
    assert_eq!(parse_mode("Point-to-Point"), Ok(Mode::Open));
    assert_eq!(
        parse_mode("Sprint"),
        Err(ParseError::UnrecognizedMode("Sprint".to_string()))
    );
    assert_eq!(
        parse_mode("Laps: many"),
        Err(ParseError::UnrecognizedMode("Laps: many".to_string()))
    );
}

#[test]
fn column_roles() {
    assert_eq!(classify(""), Field::FpsLocked);
    assert_eq!(classify("Pos"), Field::Position);
    assert_eq!(classify("PING"), Field::Ping);
    assert_eq!(classify("Ping"), Field::Ignored);
    assert_eq!(
        classify_columns(&strings(&["", "Pos", "Name", "Vehicle", "Time", "BestLap", "Lap", "PING", "FPS", "Team"])),
        vec![
            Field::FpsLocked,
            Field::Position,
            Field::Name,
            Field::Vehicle,
            Field::Time,
            Field::BestLap,
            Field::Lap,
            Field::Ping,
            Field::Fps,
            Field::Ignored
        ]
    );
}

#[test]
fn leader_time_propagates() {
    let fields = vec![Field::Position, Field::Name, Field::Vehicle, Field::Time];
    let mut leader: u64 = 0;
    let first = interpret_row(&strings(&["1", "Alice", "Car", "1:40.000"]), &fields, &mut leader).unwrap();
    assert_eq!(first.time, Some(100_000));
    assert_eq!(leader, 100_000);
    let second = interpret_row(&strings(&["2", "Bob", "Car", "+0:02.500"]), &fields, &mut leader).unwrap();
    assert_eq!(second.time, Some(102_500));
    assert_eq!(leader, 100_000);
}

#[test]
fn markers_give_reason_and_no_time() {
    let fields = vec![Field::Position, Field::Name, Field::Vehicle, Field::Time];
    let mut leader: u64 = 5;
    for (cell, reason) in [("DNS", Reason::DidNotStart), ("DNF", Reason::DidNotFinish), ("DSQ", Reason::Disqualified)] {
        let e = interpret_row(&strings(&["4", "Dan", "Car", cell]), &fields, &mut leader).unwrap();
        assert_eq!(e.reason, Some(reason));
        assert_eq!(e.time, None);
    }
    assert_eq!(leader, 5);
    let e = interpret_row(&strings(&["4", "Dan", "Car", ""]), &fields, &mut leader).unwrap();
    assert_eq!((e.reason, e.time), (None, None));
}

#[test]
fn row_fields() {
    let fields = vec![
        Field::FpsLocked,
        Field::Position,
        Field::Name,
        Field::Vehicle,
        Field::BestLap,
        Field::Lap,
        Field::Ping,
        Field::Fps,
        Field::Ignored,
    ];
    let mut leader: u64 = 0;
    let e = interpret_row(&strings(&["*", "3", "Eve", "Kart", "0:31.250", "-", "20", "60", "zzz"]), &fields, &mut leader).unwrap();
    assert!(e.fps_locked);
    assert_eq!(e.position, 3);
    assert_eq!(e.name, "Eve");
    assert_eq!(e.vehicle, "Kart");
    assert_eq!(e.best_lap, Some(31_250));
    assert_eq!(e.lap, None);
    assert_eq!(e.ping, Some(20));
    assert_eq!(e.fps, Some(60));
    let e = interpret_row(&strings(&["", "3", "Eve", "Kart", "", "12", "20", "60"]), &fields, &mut leader).unwrap();
    assert!(!e.fps_locked);
    assert_eq!(e.best_lap, None);
    assert_eq!(e.lap, Some(12));
}

#[test]
fn row_failures() {
    let fields = vec![Field::Position, Field::Name, Field::Vehicle, Field::Time];
    let mut leader: u64 = 7;
    assert_eq!(
        interpret_row(&strings(&["1", "Alice"]), &fields, &mut leader),
        Err(CellError::MissingField(RequiredField::Vehicle))
    );
    assert_eq!(
        interpret_row(&strings(&["", "Alice", "Car", ""]), &fields, &mut leader),
        Err(CellError::MissingField(RequiredField::Position))
    );
    assert_eq!(
        interpret_row(&strings(&["x", "Alice", "Car", ""]), &fields, &mut leader),
        Err(CellError::MalformedInteger(Field::Position, "x".to_string()))
    );
    assert_eq!(
        interpret_row(&strings(&["1", "Alice", "Car", "+soon"]), &fields, &mut leader),
        Err(CellError::MalformedDuration(Field::Time, "soon".to_string()))
    );
    assert_eq!(
        interpret_row(&strings(&["1", "Alice", "Car", "9:99"]), &fields, &mut leader),
        Err(CellError::MalformedDuration(Field::Time, "9:99".to_string()))
    );
    assert_eq!(leader, 7);
}

fn score_row(heading: Option<&str>, columns: &[&str], cells: &[&str]) -> ScoreRow {
    ScoreRow {
        heading: heading.map(|h| h.to_string()),
        columns: strings(columns),
        cells: strings(cells),
    }
}

#[test]
fn rows_to_race() {
    let rows = vec![
        score_row(Some("Speedway"), &["Speedway"], &[]),
        score_row(Some("Minutes: 10"), &["Minutes: 10"], &[]),
        score_row(Some("Pos"), &["Pos", "Name", "Vehicle", "Time"], &[]),
        score_row(None, &[], &["1", "Alice", "Car", "1:40.000"]),
        score_row(None, &[], &["2", "Bob", "Car", "+0:02.500"]),
    ];
    let race = race_from_rows(&rows).unwrap();
    assert_eq!(race.track, "Speedway");
    assert_eq!(race.mode, Mode::Minutes(10));
    assert_eq!(race.laps(), None);
    assert_eq!(race.minutes(), Some(10));
    assert_eq!(race.entrants.len(), 2);
    assert_eq!(race.entrants[1].time, Some(102_500));
}

#[test]
fn rows_structure_errors() {
    let track = score_row(Some("Speedway"), &[], &[]);
    let mode = score_row(Some("Rally"), &[], &[]);
    assert_eq!(race_from_rows(&vec![track.clone()]), Err(ParseError::HeadingNotFound));
    assert_eq!(
        race_from_rows(&vec![track.clone(), score_row(Some(""), &[], &[])]),
        Err(ParseError::HeadingNotFound)
    );
    assert_eq!(
        race_from_rows(&vec![track.clone(), mode.clone()]),
        Err(ParseError::ColumnsNotFound)
    );
    let rows = vec![
        track,
        mode,
        score_row(None, &["Pos", "Name", "Vehicle"], &[]),
        score_row(None, &[], &["1", "A", "V"]),
        score_row(None, &[], &["2", "B"]),
    ];
    assert_eq!(
        race_from_rows(&rows),
        Err(ParseError::InRow(1, CellError::MissingField(RequiredField::Vehicle)))
    );
}

const DOCUMENT: &str = "<html><body><p>Results</p><table id=\"scoreTable\">\
<tr><th colspan=\"9\">  Speedway \n</th></tr>\
<tr><th colspan=\"9\">Laps: 3</th></tr>\
<tr><th></th><th>Pos</th><th> Name </th><th>Vehicle</th><th>Time</th><th>BestLap</th><th>Lap</th><th>PING</th><th>FPS</th><th>Team</th></tr>\
<tr><td>*</td><td>1</td><td>Alice</td><td>Car A</td><td>1:40.000</td><td>0:31.500</td><td>3</td><td>20</td><td>60</td><td>Red</td></tr>\
<tr><td> </td><td>2</td><td> Bob </td><td>Car B</td><td>+0:02.500</td><td>0:32.000</td><td>3</td><td>40</td><td>59</td><td></td></tr>\
<tr><td></td><td>3</td><td>Carol</td><td>Car C</td><td>DNF</td><td></td><td>-</td><td>35</td><td>58</td><td></td></tr>\
</table></body></html>";

#[test]
fn document_to_race() {
    let race = parse_race(DOCUMENT).unwrap();
    assert_eq!(race.track, "Speedway");
    assert_eq!(race.mode, Mode::Laps(3));
    assert_eq!(race.laps(), Some(3));
    assert_eq!(race.entrants.len(), 3);
    let a = &race.entrants[0];
    assert!(a.fps_locked);
    assert_eq!((a.position, a.name.as_str(), a.vehicle.as_str()), (1, "Alice", "Car A"));
    assert_eq!((a.time, a.best_lap, a.lap, a.ping, a.fps), (Some(100_000), Some(31_500), Some(3), Some(20), Some(60)));
    let b = &race.entrants[1];
    assert!(!b.fps_locked);
    assert_eq!(b.name, "Bob");
    assert_eq!(b.time, Some(102_500));
    let c = &race.entrants[2];
    assert_eq!((c.reason, c.time, c.best_lap, c.lap), (Some(Reason::DidNotFinish), None, None, None));
}

#[test]
fn document_without_table() {
    assert_eq!(
        parse_race("<table id=\"other\"><tr><th>x</th></tr></table>"),
        Err(ParseError::TableNotFound)
    );
    assert_eq!(parse_race(""), Err(ParseError::TableNotFound));
}

#[test]
fn document_with_bad_mode() {
    let doc = "<table id=\"scoreTable\"><tr><th>Track</th></tr><tr><th>Sprint</th></tr></table>";
    assert_eq!(
        parse_race(doc),
        Err(ParseError::UnrecognizedMode("Sprint".to_string()))
    );
    let doc = "<table id=\"scoreTable\"><tr><th>Track</th></tr></table>";
    assert_eq!(parse_race(doc), Err(ParseError::HeadingNotFound));
}

#[test]
fn table_without_body_rows() {
    let doc = "<table id=\"scoreTable\"><tr><th>Track</th></tr><tr><th>Point-to-Point</th></tr><tr><th>Pos</th></tr></table>";
    let race = parse_race(doc).unwrap();
    assert_eq!(race.track, "Track");
    assert_eq!(race.mode, Mode::Open);
    assert_eq!((race.laps(), race.minutes()), (None, None));
    assert!(race.entrants.is_empty());
}

#[test]
fn offset_beyond_range() {
    let fields = vec![Field::Position, Field::Name, Field::Vehicle, Field::Time];
    let mut leader: u64 = u64::MAX - 1;
    assert_eq!(
        interpret_row(&strings(&["2", "Bob", "Car", "+0:00.002"]), &fields, &mut leader),
        Err(CellError::MalformedDuration(Field::Time, "0:00.002".to_string()))
    );
    let e = interpret_row(&strings(&["2", "Bob", "Car", "+0:00.001"]), &fields, &mut leader).unwrap();
    assert_eq!(e.time, Some(u64::MAX));
    assert_eq!(leader, u64::MAX - 1);
}

#[test]
fn absolute_time_resets_leader() {
    let fields = vec![Field::Position, Field::Name, Field::Vehicle, Field::Time];
    let mut leader: u64 = 0;
    interpret_row(&strings(&["1", "A", "Car", "1:00.000"]), &fields, &mut leader).unwrap();
    interpret_row(&strings(&["2", "B", "Car", "1:30.000"]), &fields, &mut leader).unwrap();
    let c = interpret_row(&strings(&["3", "C", "Car", "+0:01.000"]), &fields, &mut leader).unwrap();
    assert_eq!(c.time, Some(91_000));
}

#[test]
fn malformed_cells_name_their_column() {
    let fields = vec![Field::Position, Field::Name, Field::Vehicle, Field::BestLap, Field::Lap, Field::Ping, Field::Fps];
    let mut leader: u64 = 0;
    let cases = [
        (["1", "A", "V", "fast", "1", "1", "1"], CellError::MalformedDuration(Field::BestLap, "fast".to_string())),
        (["1", "A", "V", "", "one", "1", "1"], CellError::MalformedInteger(Field::Lap, "one".to_string())),
        (["1", "A", "V", "", "1", "", "1"], CellError::MalformedInteger(Field::Ping, "".to_string())),
        (["1", "A", "V", "", "1", "1", "6O"], CellError::MalformedInteger(Field::Fps, "6O".to_string())),
    ];
    for (cells, err) in cases {
        assert_eq!(interpret_row(&strings(&cells), &fields, &mut leader), Err(err));
    }
}

#[test]
fn unicode_white_space_is_trimmed() {
    let doc = "<table id=\"scoreTable\"><tr><th>\u{3000}Ring\u{a0}</th></tr><tr><th>\tRally\u{2003}</th></tr>\
<tr><th>\u{2028}Pos </th><th>Name</th><th>Vehicle</th></tr>\
<tr><td>\u{85}7\u{202f}</td><td>\u{1680}Zed</td><td>Van\u{205f}</td></tr></table>";
    let race = parse_race(doc).unwrap();
    assert_eq!(race.track, "Ring");
    assert_eq!(race.mode, Mode::Open);
    assert_eq!(race.entrants[0].position, 7);
    assert_eq!(race.entrants[0].name, "Zed");
    assert_eq!(race.entrants[0].vehicle, "Van");
}

#[test]
fn position_must_be_positive() {
    let fields = vec![Field::Position, Field::Name, Field::Vehicle];
    let mut leader: u64 = 0;
    for bad in ["0", "-3"] {
        assert_eq!(
            interpret_row(&strings(&[bad, "A", "V"]), &fields, &mut leader),
            Err(CellError::MalformedInteger(Field::Position, bad.to_string()))
        );
    }
}

fn raw_row(heads: &[(Option<&str>, &str)], cells: &[Option<&str>]) -> RawRow {
    RawRow {
        heads: heads
            .iter()
            .map(|(first, text)| RawHead { first: first.map(|f| f.to_string()), text: text.to_string() })
            .collect(),
        cells: cells.iter().map(|c| c.map(|t| t.to_string())).collect(),
    }
}

#[test]
fn raw_rows_to_race() {
    let rows = vec![
        raw_row(&[(Some(" Oval\n"), " Oval\n")], &[]),
        raw_row(&[(Some("Laps: 7 "), "Laps: 7 ")], &[]),
        raw_row(&[(None, " "), (Some(" Pos"), "  Pos "), (None, "Name"), (None, "Vehicle")], &[]),
        raw_row(&[], &[Some(" * "), Some("1"), Some(" Ann "), None]),
    ];
    assert_eq!(
        race_from_raw_rows(&rows),
        Err(ParseError::InRow(0, CellError::MissingField(RequiredField::Vehicle)))
    );
    let mut rows = rows;
    rows[3] = raw_row(&[], &[Some(" * "), Some("1"), Some(" Ann "), Some("\tBus")]);
    let race = race_from_raw_rows(&rows).unwrap();
    assert_eq!(race.track, "Oval");
    assert_eq!(race.mode, Mode::Laps(7));
    let e = &race.entrants[0];
    assert!(e.fps_locked);
    assert_eq!((e.position, e.name.as_str(), e.vehicle.as_str()), (1, "Ann", "Bus"));
    rows[0] = raw_row(&[(None, "Oval")], &[]);
    assert_eq!(race_from_raw_rows(&rows), Err(ParseError::HeadingNotFound));
}

fn start_tags(doc: &str) -> usize {
    let b = doc.as_bytes();
    (0..b.len()).filter(|&i| b[i] == b'<' && i + 1 < b.len() && b[i + 1].is_ascii_alphabetic()).count()
}

fn nested_document(depth: usize) -> String {
    let mut doc = String::from("<table id=\"scoreTable\"><tr><th>Deep");
    for _ in 0..depth {
        doc.push_str("<div>");
    }
    doc.push_str("x</th></tr><tr><th>Rally</th></tr><tr><th>Pos</th></tr></table>");
    doc
}

#[test]
fn deepest_admitted_nesting_parses() {
    let fixed = start_tags(&nested_document(0));
    let doc = nested_document(MAX_START_TAGS - fixed);
    assert_eq!(start_tags(&doc), MAX_START_TAGS);
    assert!(parser_limits_hold(&doc));
    let race = parse_race(&doc).unwrap();
    assert_eq!(race.track, "Deep");
    assert!(race.entrants.is_empty());
}

#[test]
fn too_many_tags_refused() {
    let doc = nested_document(MAX_START_TAGS);
    assert!(start_tags(&doc) > MAX_START_TAGS);
    assert!(!parser_limits_hold(&doc));
    let closing = "</div>".repeat(5000) + "< 3 <!-- x --> <?x>";
    assert!(parser_limits_hold(&closing));
    assert_eq!(parse_race(&doc), Err(ParseError::DocumentTooLarge));
    assert!(parser_limits_hold(""));
}

