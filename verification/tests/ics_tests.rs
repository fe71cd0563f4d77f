use cal_pipeline::ics::{build_calendar, esc, make_uid, to_ics_dt, trim_str, unesc};
use cal_pipeline::model::{BuildInput, EventIn};

fn event(start: &str, end: &str, summary: &str) -> EventIn {
    EventIn {
        start: start.to_string(),
        end: end.to_string(),
        summary: summary.to_string(),
        location: None,
        uid: None,
        rrule: None,
        exdates: Vec::new(),
        recurrence_id: None,
    }
}

#[test]
fn escapes_reserved_characters() {
    assert_eq!(esc("a,b"), "a\\,b");
    assert_eq!(esc("a;b"), "a\\;b");
    assert_eq!(esc("a\\b"), "a\\\\b");
    assert_eq!(esc("a\nb"), "a\\nb");
    assert_eq!(esc("plain"), "plain");
}

#[test]
fn escaping_round_trips_through_a_conforming_reader() {
    let original = "a,b;c\\d\ne";
    let escaped = esc(original);
    assert_eq!(unesc(&escaped), original);
}

#[test]
fn escaping_round_trips_the_four_reserved_characters_alone() {
    let original = ",;\\\n";
    let escaped = esc(original);
    assert_eq!(escaped, "\\,\\;\\\\\\n");
    assert_eq!(unesc(&escaped), original);
}

#[test]
fn normalizes_timestamps_to_basic_utc_form() {
    assert_eq!(to_ics_dt("2025-09-01T08:00:00Z"), "20250901T080000Z");
    assert_eq!(to_ics_dt("2025-09-01T08:00:00+01:00"), "20250901T080000Z");
    assert_eq!(to_ics_dt("20250901"), "20250901T000000Z");
}

#[test]
fn derived_identifier_is_stable_and_hashed() {
    let a = make_uid("a", "b", "c");
    assert_eq!(a, "e71fa2190541574b@ics");
    assert_eq!(make_uid("a", "b", "c"), a);
}

#[test]
fn trims_whitespace_from_rule_text() {
    assert_eq!(trim_str("  FREQ=WEEKLY \n"), "FREQ=WEEKLY");
}

#[test]
fn builds_a_minimal_calendar_document() {
    let input = BuildInput {
        calendar_name: Some("Mon agenda".to_string()),
        timezone: None,
        events: vec![event("2025-09-01T08:00:00Z", "2025-09-01T10:00:00Z", "UM5IN003 - SDED")],
    };
    let ics = build_calendar(&input);
    assert!(ics.starts_with("BEGIN:VCALENDAR\r\n"));
    assert!(ics.ends_with("END:VCALENDAR\r\n"));
    assert!(ics.contains("X-WR-CALNAME:Mon agenda\r\n"));
    assert!(ics.contains("X-WR-TIMEZONE:Europe/Paris\r\n"));
    assert!(ics.contains("DTSTART:20250901T080000Z\r\n"));
    assert!(ics.contains("DTEND:20250901T100000Z\r\n"));
    assert!(ics.contains("SUMMARY:UM5IN003 - SDED\r\n"));
    assert!(ics.contains("BEGIN:VEVENT\r\n"));
    assert!(ics.contains("END:VEVENT\r\n"));
}

#[test]
fn override_marker_excludes_rule_and_exclusions() {
    let mut ev = event("2025-09-01T08:00:00Z", "2025-09-01T10:00:00Z", "S");
    ev.rrule = Some("FREQ=WEEKLY".to_string());
    ev.exdates = vec!["2025-09-08T08:00:00Z".to_string()];
    ev.recurrence_id = Some("2025-09-15T08:00:00Z".to_string());
    let input = BuildInput { calendar_name: None, timezone: None, events: vec![ev] };
    let ics = build_calendar(&input);
    assert!(ics.contains("RECURRENCE-ID:20250915T080000Z\r\n"));
    assert!(!ics.contains("RRULE:"));
    assert!(!ics.contains("EXDATE:"));
}

#[test]
fn base_occurrence_keeps_rule_and_exclusions() {
    let mut ev = event("2025-09-01T08:00:00Z", "2025-09-01T10:00:00Z", "S");
    ev.rrule = Some(" FREQ=WEEKLY;UNTIL=20251215T080000Z ".to_string());
    ev.exdates = vec!["2025-09-08T08:00:00Z".to_string()];
    let input = BuildInput { calendar_name: None, timezone: None, events: vec![ev] };
    let ics = build_calendar(&input);
    assert!(ics.contains("RRULE:FREQ=WEEKLY;UNTIL=20251215T080000Z\r\n"));
    assert!(ics.contains("EXDATE:20250908T080000Z\r\n"));
    assert!(!ics.contains("RECURRENCE-ID:"));
}
