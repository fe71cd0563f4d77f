use cal_pipeline::model::{
    Bundle, BuildInput, Course, CourseVariant, EventIn, NamedBundle, SelectionItem,
    SelectionRequest,
};
use cal_pipeline::ics::build_calendar;
use cal_pipeline::select::select_events;

fn ev(summary: &str) -> EventIn {
    EventIn {
        start: "2025-09-01T08:00:00Z".to_string(),
        end: "2025-09-01T10:00:00Z".to_string(),
        summary: summary.to_string(),
        location: None,
        uid: Some(format!("{}-uid", summary)),
        rrule: None,
        exdates: Vec::new(),
        recurrence_id: None,
    }
}

fn variant(group: Option<&str>, kind: Option<&str>, summaries: &[&str]) -> CourseVariant {
    CourseVariant {
        group: group.map(|g| g.to_string()),
        kind: kind.map(|k| k.to_string()),
        events: summaries.iter().map(|s| ev(s)).collect(),
    }
}

fn fixture() -> Vec<NamedBundle> {
    let algo = Course {
        name: "ALGO".to_string(),
        code: "045".to_string(),
        special: false,
        groups: vec!["1".to_string(), "2".to_string()],
        variants: vec![
            variant(Some("1"), Some("TD"), &["td1"]),
            variant(Some("2"), Some("TD"), &["td2"]),
            variant(None, Some("CM"), &["cm"]),
        ],
    };
    let special = Course {
        name: "Rentree".to_string(),
        code: "special".to_string(),
        special: true,
        groups: Vec::new(),
        variants: vec![variant(None, None, &["reunion"])],
    };
    vec![NamedBundle {
        source: "M1_DAC".to_string(),
        bundle: Bundle {
            master_year: "M1".to_string(),
            parcours: "DAC".to_string(),
            courses: vec![algo, special],
            updated_at: "2025-10-01T00:00:00+00:00".to_string(),
        },
    }]
}

fn request(group: Option<&str>, master_year: Option<&str>) -> SelectionRequest {
    SelectionRequest {
        calendar_name: Some("Sel".to_string()),
        timezone: None,
        master_year: master_year.map(|s| s.to_string()),
        parcours: None,
        items: vec![SelectionItem {
            code: "045".to_string(),
            group: group.map(|s| s.to_string()),
            source: "M1_DAC".to_string(),
        }],
        bundles: fixture(),
    }
}

fn summaries(evs: &[EventIn]) -> Vec<String> {
    evs.iter().map(|e| e.summary.clone()).collect()
}

#[test]
fn selection_without_group_takes_every_variant() {
    let out = select_events(&request(None, Some("M2")));
    assert_eq!(summaries(&out), vec!["td1", "td2", "cm"]);
}

#[test]
fn selection_with_group_keeps_that_group_and_shared_variants() {
    let out = select_events(&request(Some("1"), Some("M2")));
    assert_eq!(summaries(&out), vec!["td1", "cm"]);
}

#[test]
fn selection_matches_codes_case_insensitively() {
    let mut req = request(None, Some("M2"));
    req.items[0].code = "045".to_string();
    req.bundles[0].bundle.courses[0].code = "045".to_string();
    let out = select_events(&req);
    assert_eq!(out.len(), 3);
}

#[test]
fn selection_appends_special_courses_under_their_canonical_name() {
    let out = select_events(&request(Some("1"), Some("M1")));
    assert_eq!(summaries(&out), vec!["td1", "cm", "Rentree"]);
}

#[test]
fn selection_filters_specials_by_cohort() {
    let out = select_events(&request(Some("1"), Some("M2")));
    assert_eq!(summaries(&out), vec!["td1", "cm"]);
}

#[test]
fn unknown_source_or_code_selects_nothing() {
    let mut req = request(None, Some("M2"));
    req.items[0].source = "M2_STL".to_string();
    assert!(select_events(&req).is_empty());
    let mut req2 = request(None, Some("M2"));
    req2.items[0].code = "999".to_string();
    assert!(select_events(&req2).is_empty());
}

#[test]
fn selection_feeds_the_calendar_builder() {
    let req = request(None, None);
    let events = select_events(&req);
    let ics = build_calendar(&BuildInput {
        calendar_name: req.calendar_name.clone(),
        timezone: req.timezone.clone(),
        events,
    });
    assert!(ics.contains("SUMMARY:td1\r\n"));
    assert!(ics.contains("SUMMARY:Rentree\r\n"));
    assert!(ics.contains("UID:td1-uid\r\n"));
}
