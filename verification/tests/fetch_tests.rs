use cal_pipeline::fetch::{
    classify_status, fallback_validator, feed_url, record_fetch, response_outcome, should_write_feed,
    FetchOutcome, StatusClass, ValidatorStore,
};

#[test]
fn classifies_terminal_statuses() {
    assert_eq!(classify_status(200), StatusClass::Success);
    assert_eq!(classify_status(304), StatusClass::NotModified);
}

#[test]
fn classifies_permanent_failures() {
    assert_eq!(classify_status(404), StatusClass::Permanent);
    assert_eq!(classify_status(401), StatusClass::Permanent);
    assert_eq!(classify_status(403), StatusClass::Permanent);
    assert_eq!(classify_status(418), StatusClass::Permanent);
    assert_eq!(classify_status(201), StatusClass::Permanent);
}

#[test]
fn classifies_transient_failures() {
    assert_eq!(classify_status(429), StatusClass::Transient);
    assert_eq!(classify_status(502), StatusClass::Transient);
    assert_eq!(classify_status(503), StatusClass::Transient);
    assert_eq!(classify_status(504), StatusClass::Transient);
    assert_eq!(classify_status(500), StatusClass::Transient);
    assert_eq!(classify_status(599), StatusClass::Transient);
}

#[test]
fn not_modified_reports_no_change() {
    let outcome = response_outcome(304, Vec::new(), None);
    assert!(matches!(outcome, FetchOutcome::Unchanged));
    assert!(!should_write_feed(&outcome));
}

#[test]
fn fresh_content_is_written() {
    let outcome = response_outcome(200, b"BEGIN:VCALENDAR".to_vec(), Some("\"tag\"".to_string()));
    assert!(should_write_feed(&outcome));
}

#[test]
fn unchanged_run_leaves_store_untouched() {
    let mut store = ValidatorStore::new();
    store.insert("https://example.invalid/a", "\"tag-a\"".to_string());
    store.insert("https://example.invalid/b", "\"tag-b\"".to_string());
    let before: Vec<(String, String)> = store.entries().clone();
    let unchanged = response_outcome(304, Vec::new(), None);
    record_fetch(&mut store, "https://example.invalid/a", &unchanged);
    record_fetch(&mut store, "https://example.invalid/b", &unchanged);
    let failed = response_outcome(500, Vec::new(), None);
    record_fetch(&mut store, "https://example.invalid/a", &failed);
    assert_eq!(store.entries(), &before);
    assert_eq!(store.get("https://example.invalid/a").map(|s| s.as_str()), Some("\"tag-a\""));
}

#[test]
fn fresh_fetch_stores_origin_validator() {
    let mut store = ValidatorStore::new();
    let fresh = response_outcome(200, b"body".to_vec(), Some("\"etag\"".to_string()));
    record_fetch(&mut store, "u", &fresh);
    assert_eq!(store.get("u").map(|s| s.as_str()), Some("\"etag\""));
    assert_eq!(store.len(), 1);
}

#[test]
fn fresh_fetch_without_validator_stores_content_hash() {
    let mut store = ValidatorStore::new();
    let fresh = response_outcome(200, b"body".to_vec(), None);
    record_fetch(&mut store, "u", &fresh);
    let stored = store.get("u").unwrap().clone();
    assert_eq!(stored, fallback_validator(&b"body".to_vec()));
    assert!(stored.starts_with("W/\""));
    assert!(stored.ends_with('"'));
    assert_eq!(stored.len(), 4 + 64);
    let again = response_outcome(200, b"body".to_vec(), None);
    record_fetch(&mut store, "u", &again);
    assert_eq!(store.get("u").unwrap(), &stored);
    assert_eq!(store.len(), 1);
}

#[test]
fn builds_the_feed_address_from_the_template() {
    assert_eq!(
        feed_url("M1", "DAC"),
        "https://cal.ufr-info-p6.jussieu.fr/caldav.php/DAC/M1_DAC/"
    );
}
