use cal_pipeline::aggregate::{build_bundle, build_rows, classify_session, update_index, IndexEntry};
use cal_pipeline::model::Course;
use cal_pipeline::feed::{
    exdates_exec, get_prop, get_props, parse_ical_events, session_included, PropEvent, SessionRec,
};
use cal_pipeline::rrule::parse_rrule;
use cal_pipeline::timefmt::{academic_year_window, clamp_instant, normalize_dt, now_utc_secs};

const NOW: i64 = 1759276800;

fn rec(start_secs: i64, rrule: Option<&str>, until: Option<i64>, rid: Option<&str>) -> SessionRec {
    SessionRec {
        uid: "u".to_string(),
        summary: "s".to_string(),
        location: None,
        start_secs,
        start: "x".to_string(),
        end: "y".to_string(),
        rrule: rrule.map(|s| s.to_string()),
        until_secs: until,
        exdates: Vec::new(),
        recurrence_id: rid.map(|s| s.to_string()),
    }
}

#[test]
fn window_includes_session_at_the_start_instant() {
    assert!(session_included(&rec(1000, None, None, None), 1000, 2000));
}

#[test]
fn window_excludes_session_one_second_before_start() {
    assert!(!session_included(&rec(999, None, None, None), 1000, 2000));
}

#[test]
fn window_excludes_series_ending_one_second_before_start() {
    assert!(!session_included(&rec(0, Some("FREQ=WEEKLY"), Some(999), None), 1000, 2000));
}

#[test]
fn window_includes_series_ending_at_the_start_instant() {
    assert!(session_included(&rec(0, Some("FREQ=WEEKLY"), Some(1000), None), 1000, 2000));
}

#[test]
fn window_keeps_unbounded_series() {
    assert!(session_included(&rec(0, Some("FREQ=WEEKLY"), None, None), 1000, 2000));
}

#[test]
fn window_judges_override_by_its_start() {
    assert!(session_included(&rec(1500, None, None, Some("r")), 1000, 2000));
    assert!(!session_included(&rec(2500, None, None, Some("r")), 1000, 2000));
}

#[test]
fn academic_year_window_is_september_to_august_home_time() {
    let (ws, we) = academic_year_window(NOW).unwrap();
    assert_eq!(ws, 1756677600);
    assert_eq!(we, 1788213599);
    assert!(ws <= we);
}

#[test]
fn normalization_handles_the_three_shapes() {
    let (t, iso) = normalize_dt("2025-09-01T08:00:00+00:00", NOW);
    assert_eq!(t, 1756713600);
    assert_eq!(iso, "2025-09-01T08:00:00+00:00");
    let (t2, _iso2) = normalize_dt("20250901T100000", NOW);
    assert_eq!(t2, 1756713600 - 8 * 3600 + 10 * 3600 - 2 * 3600);
    let (t3, _iso3) = normalize_dt("20250901", NOW);
    assert_eq!(t3, 1756677600);
    let (t4, _iso4) = normalize_dt("garbage", NOW);
    assert_eq!(t4, NOW);
}

#[test]
fn z_suffixed_basic_timestamps_denote_utc() {
    let (t, iso) = normalize_dt("20240901T130000Z", NOW);
    assert_eq!(t, 1725195600);
    assert_eq!(iso, "2024-09-01T13:00:00+00:00");
}

#[test]
fn clock_clamp_keeps_sane_instants() {
    assert_eq!(clamp_instant(NOW), NOW);
    let live = clamp_instant(now_utc_secs());
    assert!(live >= 0);
}

#[test]
fn parses_a_recurrence_rule() {
    let r = parse_rrule("FREQ=weekly;INTERVAL=2;COUNT=10;BYDAY=FR,MO;UNTIL=20251215T080000Z", NOW);
    assert_eq!(r.freq.as_deref(), Some("WEEKLY"));
    assert_eq!(r.interval, 2);
    assert_eq!(r.count, Some(10));
    assert_eq!(r.byday, vec![0u8, 4u8]);
    assert_eq!(r.until_secs, Some(1765785600));
    assert!(r.until_iso.is_some());
}

#[test]
fn rule_defaults_are_kept() {
    let r = parse_rrule("FREQ=WEEKLY;INTERVAL=0;COUNT=abc", NOW);
    assert_eq!(r.interval, 1);
    assert_eq!(r.count, None);
    assert!(r.until_secs.is_none());
}

#[test]
fn reads_properties_case_insensitively() {
    let ev = PropEvent {
        props: vec![
            ("summary".to_string(), Some("T".to_string())),
            ("EXDATE".to_string(), Some("20250908T080000Z".to_string())),
            ("exdate".to_string(), Some("20250915T080000Z".to_string())),
        ],
    };
    assert_eq!(get_prop(&ev, "SUMMARY").as_deref(), Some("T"));
    assert_eq!(get_prop(&ev, "UID"), None);
    assert_eq!(get_props(&ev, "EXDATE").len(), 2);
}

#[test]
fn exclusion_lists_are_split_sorted_and_deduplicated() {
    let vals = vec![
        "20250915T080000Z, 20250908T080000Z".to_string(),
        "20250908T080000Z".to_string(),
    ];
    let out = exdates_exec(&vals, NOW);
    assert_eq!(out.len(), 2);
    assert!(out[0] < out[1]);
}

#[test]
fn parses_a_feed_document_into_sessions() {
    let ics = b"BEGIN:VCALENDAR\r\nVERSION:2.0\r\nBEGIN:VEVENT\r\nUID:1\r\nSUMMARY:UM5IN003 - SDED - TME2\r\nDTSTART:20251006T080000\r\nDTEND:20251006T100000\r\nEND:VEVENT\r\nEND:VCALENDAR\r\n";
    let events = parse_ical_events(ics);
    assert_eq!(events.len(), 1);
    assert_eq!(get_prop(&events[0], "SUMMARY").as_deref(), Some("UM5IN003 - SDED - TME2"));
    let (ws, we) = academic_year_window(NOW).unwrap();
    let rows = build_rows(events, NOW, ws, we);
    assert_eq!(rows.len(), 1);
    assert_eq!(rows[0].code, "003");
    assert_eq!(rows[0].kind.as_deref(), Some("TME"));
    assert_eq!(rows[0].group.as_deref(), Some("2"));
}

#[test]
fn missing_identifiers_are_replaced_by_fresh_ones() {
    let ics = b"BEGIN:VCALENDAR\r\nBEGIN:VEVENT\r\nSUMMARY:UM5IN003 - SDED - TME2\r\nDTSTART:20251006T080000\r\nDTEND:20251006T100000\r\nEND:VEVENT\r\nEND:VCALENDAR\r\n";
    let events = parse_ical_events(ics);
    let (ws, we) = academic_year_window(NOW).unwrap();
    let rows = build_rows(events, NOW, ws, we);
    assert_eq!(rows.len(), 1);
    let uid = rows[0].event.uid.as_deref().unwrap();
    assert_eq!(uid.chars().count(), 36);
}

#[test]
fn aggregates_rows_into_named_sorted_courses() {
    let ics = b"BEGIN:VCALENDAR\r\nBEGIN:VEVENT\r\nUID:1\r\nSUMMARY:UM5IN003 - SDED - TME2\r\nDTSTART:20251006T080000\r\nDTEND:20251006T100000\r\nEND:VEVENT\r\nBEGIN:VEVENT\r\nUID:2\r\nSUMMARY:UM5IN003 - Cours\r\nDTSTART:20251007T080000\r\nDTEND:20251007T100000\r\nEND:VEVENT\r\nBEGIN:VEVENT\r\nUID:3\r\nSUMMARY:UM5IN002 - ALGAV - TD1\r\nDTSTART:20251008T080000\r\nDTEND:20251008T100000\r\nEND:VEVENT\r\nEND:VCALENDAR\r\n";
    let events = parse_ical_events(ics);
    let (ws, we) = academic_year_window(NOW).unwrap();
    let rows = build_rows(events, NOW, ws, we);
    let bundle = build_bundle(&rows, "M1", "DAC", NOW);
    assert_eq!(bundle.master_year, "M1");
    assert_eq!(bundle.parcours, "DAC");
    assert_eq!(bundle.courses.len(), 2);
    // sorted by name: ALGAV before SDED; the weighted vote prefers SDED over
    // the generic placeholder even though each occurs once
    assert_eq!(bundle.courses[0].name, "ALGAV");
    assert_eq!(bundle.courses[0].code, "002");
    assert_eq!(bundle.courses[1].name, "SDED");
    assert_eq!(bundle.courses[1].code, "003");
    assert!(!bundle.courses[1].special);
    assert_eq!(bundle.courses[1].variants.len(), 2);
    // variants come out in (group, type) key order: the shared one first
    assert_eq!(bundle.courses[1].variants[0].group, None);
    assert_eq!(bundle.courses[1].variants[1].group.as_deref(), Some("2"));
    assert_eq!(bundle.courses[1].groups, vec!["2".to_string()]);
}

#[test]
fn classifies_one_session_record() {
    let row = classify_session(rec_with_summary("UM5IN003 - SDED - TME2"));
    assert_eq!(row.code, "003");
    assert_eq!(row.event.uid.as_deref(), Some("u"));
}

fn rec_with_summary(summary: &str) -> SessionRec {
    SessionRec {
        uid: "u".to_string(),
        summary: summary.to_string(),
        location: None,
        start_secs: 0,
        start: "x".to_string(),
        end: "y".to_string(),
        rrule: None,
        until_secs: None,
        exdates: Vec::new(),
        recurrence_id: None,
    }
}

#[test]
fn index_merges_per_code_and_source_only() {
    let course = |name: &str, code: &str, special: bool, groups: Vec<&str>| Course {
        name: name.to_string(),
        code: code.to_string(),
        special,
        groups: groups.into_iter().map(|g| g.to_string()).collect(),
        variants: Vec::new(),
    };
    let entries: Vec<IndexEntry> = Vec::new();
    let src_a = "M1_DAC".to_string();
    let entries = update_index(
        entries,
        &vec![
            course("Cours", "003", false, vec!["1"]),
            course("Rentree", "special", true, vec![]),
        ],
        &src_a,
    );
    assert_eq!(entries.len(), 1);
    assert_eq!(entries[0].name, "Cours");
    // a later non-generic name replaces the placeholder; groups are united
    let entries = update_index(entries, &vec![course("SDED", "003", false, vec!["2"])], &src_a);
    assert_eq!(entries.len(), 1);
    assert_eq!(entries[0].name, "SDED");
    assert_eq!(entries[0].groups, vec!["1".to_string(), "2".to_string()]);
    // the same code from another source stays a separate entry
    let src_b = "M1_STL".to_string();
    let entries = update_index(entries, &vec![course("SDED", "003", false, vec!["1"])], &src_b);
    assert_eq!(entries.len(), 2);
    assert_eq!(entries[1].source, "M1_STL");
}
