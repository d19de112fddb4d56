use orbit_core::error::OrbitError;
use orbit_core::json::JsonValue;
use orbit_core::session_log::{
    append, list, log_path, parse_since, resolve, SessionLogEntry, SessionLogKind, Timestamp,
};

fn at(secs: i64) -> Timestamp {
    Timestamp { secs, nanos: 0 }
}

#[test]
fn append_list_resolve_round_trip() {
    let mut entries: Vec<SessionLogEntry> = Vec::new();

    let status = append(
        &mut entries,
        SessionLogKind::Status,
        "drained nothing".into(),
        vec![],
        vec![],
        at(100),
    )
    .expect("status");
    assert_eq!(status.id, "SL-0001");
    assert_eq!(status.kind, SessionLogKind::Status);

    let later = append(
        &mut entries,
        SessionLogKind::CheckLater,
        "recheck ORB-1 after CI".into(),
        vec!["ORB-1".into()],
        vec![],
        at(101),
    )
    .expect("check_later");
    assert_eq!(later.id, "SL-0002");
    assert!(later.resolved_at.is_none());

    let note = append(
        &mut entries,
        SessionLogKind::Note,
        "tycho owns the canary".into(),
        vec![],
        vec![],
        at(102),
    )
    .expect("note");
    assert_eq!(note.id, "SL-0003");

    let unresolved = list(&entries, None, true, None);
    assert_eq!(unresolved.len(), 1);
    assert_eq!(unresolved[0].id, "SL-0002");

    let only_notes = list(&entries, Some(SessionLogKind::Note), false, None);
    assert_eq!(only_notes.len(), 1);
    assert_eq!(only_notes[0].id, "SL-0003");

    let resolved = resolve(&mut entries, "SL-0002", at(200)).expect("resolve");
    assert!(resolved.resolved_at.is_some());
    assert!(list(&entries, None, true, None).is_empty());

    let err = resolve(&mut entries, "SL-0001", at(201)).expect_err("status cannot resolve");
    assert!(err.message().contains("check_later"));
    let err = resolve(&mut entries, "SL-0002", at(202)).expect_err("already resolved");
    assert!(err.message().contains("already resolved"));
}

#[test]
fn blank_body_is_refused_and_log_unchanged() {
    let mut entries: Vec<SessionLogEntry> = Vec::new();
    let err = append(&mut entries, SessionLogKind::Note, "   ".into(), vec![], vec![], at(1))
        .expect_err("blank body");
    assert_eq!(err, OrbitError::InvalidInput("session-log body must be non-empty".into()));
    assert!(entries.is_empty());
}

#[test]
fn body_is_trimmed_and_ids_continue_after_the_largest() {
    let mut entries: Vec<SessionLogEntry> = Vec::new();
    let first = append(&mut entries, SessionLogKind::Note, "  hello \n".into(), vec![], vec![], at(5))
        .expect("first");
    assert_eq!(first.body, "hello");
    assert_eq!(first.at, at(5));
    entries[0].id = "SL-0041".into();
    let next = append(&mut entries, SessionLogKind::Note, "next".into(), vec![], vec![], at(6))
        .expect("next");
    assert_eq!(next.id, "SL-0042");
}

#[test]
fn resolving_an_unknown_id_is_refused() {
    let mut entries: Vec<SessionLogEntry> = Vec::new();
    let err = resolve(&mut entries, "SL-0009", at(1)).expect_err("unknown");
    assert!(err.message().contains("SL-0009"));
}

#[test]
fn list_since_keeps_entries_at_or_after_the_bound() {
    let mut entries: Vec<SessionLogEntry> = Vec::new();
    append(&mut entries, SessionLogKind::Note, "a".into(), vec![], vec![], at(10)).unwrap();
    append(&mut entries, SessionLogKind::Note, "b".into(), vec![], vec![], at(20)).unwrap();
    let recent = list(&entries, None, false, Some(at(20)));
    assert_eq!(recent.len(), 1);
    assert_eq!(recent[0].body, "b");
}

#[test]
fn session_log_lives_beside_the_orbit_dir() {
    assert_eq!(log_path("/repo/.orbit"), "/repo/.orbit/session-log.jsonl");
    assert_eq!(log_path("/repo/.orbit/"), "/repo/.orbit/session-log.jsonl");
}

#[test]
fn kinds_parse_by_name() {
    assert_eq!(SessionLogKind::parse("check_later").unwrap(), SessionLogKind::CheckLater);
    assert!(SessionLogKind::parse("bogus").is_err());
}

#[test]
fn since_must_be_an_rfc3339_string() {
    let input = JsonValue::Object(vec![("since".into(), JsonValue::Str("2024-01-02T03:04:05Z".into()))]);
    let since = parse_since(&input).expect("valid since").expect("present");
    assert_eq!(since, Timestamp { secs: 1704164645, nanos: 0 });

    let bad = JsonValue::Object(vec![("since".into(), JsonValue::Str("yesterday".into()))]);
    let err = parse_since(&bad).expect_err("not rfc3339");
    assert!(err.message().starts_with("since must be RFC3339: "));

    let wrong = JsonValue::Object(vec![("since".into(), JsonValue::UInt(3))]);
    assert_eq!(
        parse_since(&wrong).expect_err("not a string"),
        OrbitError::InvalidInput("since must be an RFC3339 string".into())
    );
    assert_eq!(parse_since(&JsonValue::Object(vec![])).unwrap(), None);
}
