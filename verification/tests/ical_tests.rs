use hockey_reminder::ical::{escape_quotes, parse_dt, split_home_away, split_location_address, Ical};
use hockey_reminder::time::CivilDateTime;

fn civil(year: i64, month: u8, day: u8, hour: u8, minute: u8, second: u8) -> CivilDateTime {
    CivilDateTime { year, month, day, hour, minute, second }
}

const HEADER: &str = "Type,Game Type,Title (Optional),Away,Home,Date,Time,Duration,Location (Optional),Address (Optional),Notes (Optional)\n";

#[test]
fn to_csv_emits_header_and_filters_by_cutoff() {
    let ics = "BEGIN:VCALENDAR\nBEGIN:VEVENT\nSUMMARY:Home vs Away\nDTSTART:20250102T030000Z\nDTEND:20250102T040000Z\nLOCATION:Rink X\\nAddr\nEND:VEVENT\nEND:VCALENDAR\n";
    let generator = Ical::from_ics(ics);
    let cutoff_after = civil(2025, 1, 3, 0, 0, 0);
    let cutoff_before = civil(2025, 1, 1, 0, 0, 0);

    let csv_after = generator.to_bench_app_csv(&cutoff_after).expect("csv generation");
    assert!(csv_after.lines().count() == 1, "should contain only header when after cutoff: {}", csv_after);
    assert_eq!(csv_after, HEADER);

    let csv_before = generator.to_bench_app_csv(&cutoff_before).expect("csv generation");
    assert!(csv_before.lines().count() == 2, "should contain header + one row: {}", csv_before);
}

#[test]
fn to_csv_renders_exact_row() {
    let ics = "BEGIN:VCALENDAR\nBEGIN:VEVENT\nSUMMARY:Home vs Away\nDTSTART:20250102T030000Z\nDTEND:20250102T040000Z\nLOCATION:Rink X\\nAddr\nEND:VEVENT\nEND:VCALENDAR\n";
    let generator = Ical::from_ics(ics);
    let csv = generator.to_bench_app_csv(&civil(2025, 1, 1, 0, 0, 0)).expect("csv generation");
    let expected_row = "\"GAME\",\"REGULAR\",\"\",\"Away\",\"Home\",\"2/1/2025\",\"03:00 AM\",\"1:00\",\"Rink X\",\"Addr\",\"\"\n";
    let expected = format!("{}{}", HEADER, expected_row);
    assert_eq!(csv, expected);
}

#[test]
fn discord_message_reports_latest_or_none() {
    let ics = "BEGIN:VCALENDAR\nBEGIN:VEVENT\nSUMMARY:Home vs Away\nDTSTART:20250102T030000Z\nEND:VEVENT\nBEGIN:VEVENT\nSUMMARY:Another vs Team\nDTSTART:20250105T030000Z\nEND:VEVENT\nEND:VCALENDAR\n";
    let generator = Ical::from_ics(ics);
    let cutoff = civil(2025, 1, 1, 0, 0, 0);
    let msg = generator.discord_message(&cutoff).unwrap();
    assert!(msg.contains("2025-01-05"), "msg was: {}", msg);

    // Cutoff after all -> no upcoming
    let cutoff2 = civil(2025, 12, 31, 0, 0, 0);
    let msg2 = generator.discord_message(&cutoff2).unwrap();
    assert!(msg2.contains("No upcoming games"), "msg was: {}", msg2);
}

#[test]
fn to_csv_skips_unreadable_start() {
    // One event with a garbled start, one sound event: the malformed
    // record is skipped and the rest of the export stands.
    let ics = "BEGIN:VCALENDAR\nBEGIN:VEVENT\nSUMMARY:Home vs Away\nDTSTART:garbled\nEND:VEVENT\nBEGIN:VEVENT\nSUMMARY:Home vs Away\nDTSTART:20250102T030000Z\nEND:VEVENT\nEND:VCALENDAR\n";
    let generator = Ical::from_ics(ics);
    let csv = generator.to_bench_app_csv(&civil(2025, 1, 1, 0, 0, 0)).expect("csv generation");
    assert_eq!(csv.lines().count(), 2, "header + the one sound row: {}", csv);
    assert!(csv.contains("\"Away\",\"Home\""), "csv was: {}", csv);
}

#[test]
fn csv_without_calendar_reports_no_ics() {
    let generator = Ical { events: None };
    let err = generator.to_bench_app_csv(&civil(2025, 1, 1, 0, 0, 0)).unwrap_err();
    assert_eq!(err, "No ICS available");
    let err2 = generator.discord_message(&civil(2025, 1, 1, 0, 0, 0)).unwrap_err();
    assert_eq!(err2, "No ICS available");
}

fn chars(s: &str) -> Vec<char> {
    s.chars().collect()
}

#[test]
fn parse_dt_accepts_compact_forms() {
    let c = parse_dt(&chars("20250102T030405Z")).expect("seconds form");
    assert_eq!((c.year, c.month, c.day, c.hour, c.minute, c.second), (2025, 1, 2, 3, 4, 5));
    let c2 = parse_dt(&chars("20250102T0304")).expect("minutes form");
    assert_eq!((c2.year, c2.month, c2.day, c2.hour, c2.minute, c2.second), (2025, 1, 2, 3, 4, 0));
    let c3 = parse_dt(&chars("20250102")).expect("date form");
    assert_eq!((c3.hour, c3.minute, c3.second), (0, 0, 0));
}

#[test]
fn parse_dt_rejects_bad_forms() {
    assert!(parse_dt(&chars("")).is_none());
    assert!(parse_dt(&chars("Z")).is_none());
    assert!(parse_dt(&chars("20251302T030405")).is_none(), "month 13");
    assert!(parse_dt(&chars("20250230T030405")).is_none(), "Feb 30");
    assert!(parse_dt(&chars("20250102T250405")).is_none(), "hour 25");
    assert!(parse_dt(&chars("2025-01-02")).is_none(), "separated date");
}

#[test]
fn split_home_away_reads_matchups() {
    assert_eq!(split_home_away("Home vs Away"), ("Home".to_string(), "Away".to_string()));
    // away-at-home convention
    assert_eq!(split_home_away("Away @ Home"), ("Home".to_string(), "Away".to_string()));
    // prefix before " - " is dropped when the rest looks like a matchup
    assert_eq!(
        split_home_away("Kraken Hockey League Game - Flippers vs Sticks"),
        ("Flippers".to_string(), "Sticks".to_string())
    );
    // a " - " whose remainder has no matchup token keeps the whole title
    assert_eq!(split_home_away("Notes - none"), (String::new(), String::new()));
    assert_eq!(split_home_away("no matchup here"), (String::new(), String::new()));
}

#[test]
fn split_location_splits_on_first_break() {
    assert_eq!(
        split_location_address("Rink X\n123 Main St"),
        ("Rink X".to_string(), "123 Main St".to_string())
    );
    assert_eq!(
        split_location_address("Rink X\\n123 Main St"),
        ("Rink X".to_string(), "123 Main St".to_string())
    );
    assert_eq!(split_location_address("  Rink X  "), ("Rink X".to_string(), String::new()));
}

#[test]
fn escape_quotes_passes_quotes_through() {
    assert_eq!(escape_quotes("say \"hi\""), "say \"hi\"");
    assert_eq!(escape_quotes(""), "");
}
