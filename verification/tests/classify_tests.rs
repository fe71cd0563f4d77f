use cal_pipeline::classify::parse_summary;

#[test]
fn classifier_lab_title() {
    let c = parse_summary("UM5IN003 - SDED - TME2");
    assert_eq!(c.code, "003");
    assert_eq!(c.kind.as_deref(), Some("TME"));
    assert_eq!(c.group.as_deref(), Some("2"));
    assert_eq!(c.name, "SDED");
}

#[test]
fn classifier_english_taught_override() {
    let c = parse_summary("UM5IN045 - ALGO - CM (en anglais)");
    assert_eq!(c.code, "045");
    assert_eq!(c.kind.as_deref(), Some("CM"));
    assert_eq!(c.group.as_deref(), Some("anglais"));
    assert_eq!(c.name, "ALGO");
    assert!(!c.name.to_lowercase().ends_with("anglais"));
}

#[test]
fn numeric_code_wins_over_the_oip_family() {
    let c = parse_summary("UM5IN010 - OIP - TD1");
    assert_eq!(c.code, "010");
    assert_eq!(c.kind.as_deref(), Some("TD"));
}

#[test]
fn hyphen_token_that_is_a_group_marker_is_not_the_name() {
    let c = parse_summary("UM5IN003 - Gr2 - SDED");
    assert_eq!(c.code, "003");
    assert_eq!(c.name, "SDED");
    assert_eq!(c.group.as_deref(), Some("2"));
}

#[test]
fn classifier_oip_family() {
    let c = parse_summary("Reunion OIP - presentation");
    assert_eq!(c.code, "OIP");
    assert_eq!(c.name, "OIP");
}

#[test]
fn classifier_english_course_family() {
    let c = parse_summary("Anglais - niveau 2");
    assert_eq!(c.code, "Anglais");
    assert_eq!(c.name, "Anglais");
}

#[test]
fn classifier_special_activity() {
    let c = parse_summary("Rentree generale");
    assert_eq!(c.code, "special");
    assert_eq!(c.name, "Rentree generale");
}

#[test]
fn classifier_course_word_means_lecture_session() {
    let c = parse_summary("UM4IN512 - PSCR - Cours");
    assert_eq!(c.code, "512");
    assert_eq!(c.kind.as_deref(), Some("CS"));
    assert_eq!(c.name, "PSCR");
}

#[test]
fn classifier_session_number_is_exam() {
    let c = parse_summary("UM5IN020 - MLBDA - Session 2");
    assert_eq!(c.code, "020");
    assert_eq!(c.kind.as_deref(), Some("EXAM"));
}

#[test]
fn classifier_group_marker_pattern() {
    let c = parse_summary("UM5IN103 - NOYAU - TD Gr 2");
    assert_eq!(c.code, "103");
    assert_eq!(c.kind.as_deref(), Some("TD"));
    assert_eq!(c.group.as_deref(), Some("2"));
}

#[test]
fn classifier_exam_word_fallback() {
    let c = parse_summary("UM5IN777 - RESEAU - examen final");
    assert_eq!(c.kind.as_deref(), Some("EXAM"));
}

#[test]
fn classifier_tutorial_with_group_digits() {
    let c = parse_summary("4IN503 - ALGAV - TD1");
    assert_eq!(c.code, "503");
    assert_eq!(c.kind.as_deref(), Some("TD"));
    assert_eq!(c.group.as_deref(), Some("1"));
    assert_eq!(c.name, "ALGAV");
}

#[test]
fn classifier_subtype_wins_over_keyword() {
    let c = parse_summary("UM5IN670 - PPAR - CS TD 3");
    assert_eq!(c.kind.as_deref(), Some("TD"));
    assert_eq!(c.group.as_deref(), Some("3"));
}

#[test]
fn classifier_fused_type_suffix() {
    let c = parse_summary("UM5IN888 - THING - AnglaisCS");
    assert_eq!(c.kind.as_deref(), Some("CS"));
}
