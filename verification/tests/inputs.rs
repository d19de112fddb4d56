use orbit_core::commands::{spawn_error, split_argv};
use orbit_core::crew::singular_task_id_from_input;
use orbit_core::error::OrbitError;
use orbit_core::hub::text_or_current;
use orbit_core::identity::{actor_model_identity, duel_family_key};
use orbit_core::json::JsonValue;
use orbit_core::locks::{parse_task_lock_reservation_scope, ParsedSelector, SelectorKind, TaskLockReservationScope};
use orbit_core::publish::audit_failure_message;
use orbit_core::session_log::{
    parse_id_list, parse_kind, parse_optional_kind, required_body, required_id, SessionLogKind,
};

fn obj(fields: Vec<(&str, JsonValue)>) -> JsonValue {
    JsonValue::Object(fields.into_iter().map(|(k, v)| (k.to_string(), v)).collect())
}

fn text(s: &str) -> JsonValue {
    JsonValue::Str(s.to_string())
}

fn strings(v: &[&str]) -> Vec<String> {
    v.iter().map(|s| s.to_string()).collect()
}

#[test]
fn argv_splits_into_program_and_arguments() {
    let (program, args) = split_argv(strings(&["git", "status", "--short"])).unwrap();
    assert_eq!(program, "git");
    assert_eq!(args, strings(&["status", "--short"]));
    let (program, args) = split_argv(strings(&["ls"])).unwrap();
    assert_eq!(program, "ls");
    assert!(args.is_empty());
    assert_eq!(
        split_argv(vec![]).unwrap_err(),
        OrbitError::InvalidInput("`argv` must not be empty".to_string())
    );
}

#[test]
fn spawn_errors_name_program_and_directory() {
    assert_eq!(
        spawn_error("cargo", "/repo", "No such file or directory"),
        OrbitError::Execution("spawn 'cargo' in '/repo': No such file or directory".to_string())
    );
}

#[test]
fn singular_task_id_prefers_task_id_then_task_object_then_single_list_item() {
    let input = obj(vec![
        ("task_id", text("  ORB-1 ")),
        ("task", obj(vec![("id", text("ORB-2"))])),
    ]);
    assert_eq!(singular_task_id_from_input(&input), Some("ORB-1".to_string()));
    let input = obj(vec![("task_id", text("  ")), ("task", obj(vec![("id", text("ORB-2"))]))]);
    assert_eq!(singular_task_id_from_input(&input), Some("ORB-2".to_string()));
    let input = obj(vec![("task_ids", JsonValue::Array(vec![text("ORB-3")]))]);
    assert_eq!(singular_task_id_from_input(&input), Some("ORB-3".to_string()));
    let input = obj(vec![("task_ids", JsonValue::Array(vec![text("ORB-3"), text("ORB-4")]))]);
    assert_eq!(singular_task_id_from_input(&input), None);
    assert_eq!(singular_task_id_from_input(&obj(vec![])), None);
}

#[test]
fn duel_family_keys_are_trimmed_and_lowercased() {
    assert_eq!(duel_family_key("  Codex "), "codex");
    assert_eq!(duel_family_key("GROK"), "grok");
    assert_eq!(duel_family_key(""), "");
}

#[test]
fn only_agents_carry_an_actor_model_identity() {
    assert_eq!(actor_model_identity(true, " gpt-5 "), Some("gpt-5".to_string()));
    assert_eq!(actor_model_identity(true, "   "), None);
    assert_eq!(actor_model_identity(false, "gpt-5"), None);
}

#[test]
fn update_text_falls_back_to_the_current_value() {
    assert_eq!(text_or_current(Some("new plan"), "old plan"), "new plan");
    assert_eq!(text_or_current(Some(""), "old plan"), "");
    assert_eq!(text_or_current(None, "old plan"), "old plan");
}

#[test]
fn audit_failures_are_appended_to_the_publication_error() {
    assert_eq!(
        audit_failure_message("push rejected", "disk full"),
        "push rejected; additionally failed to record auto-publish audit: disk full"
    );
}

#[test]
fn session_log_kind_fields_parse_or_explain() {
    assert_eq!(parse_kind(&obj(vec![("kind", text(" note "))])).unwrap(), SessionLogKind::Note);
    assert_eq!(
        parse_kind(&obj(vec![])).unwrap_err(),
        OrbitError::InvalidInput("kind is required".to_string())
    );
    assert_eq!(
        parse_kind(&obj(vec![("kind", text("todo"))])).unwrap_err(),
        OrbitError::InvalidInput(
            "unknown session-log kind `todo` (expected status, note, or check_later)".to_string()
        )
    );
    assert_eq!(parse_optional_kind(&obj(vec![])).unwrap(), None);
    assert_eq!(parse_optional_kind(&obj(vec![("kind", JsonValue::Null)])).unwrap(), None);
    assert_eq!(
        parse_optional_kind(&obj(vec![("kind", text("check_later"))])).unwrap(),
        Some(SessionLogKind::CheckLater)
    );
    assert_eq!(
        parse_optional_kind(&obj(vec![("kind", JsonValue::UInt(3))])).unwrap_err(),
        OrbitError::InvalidInput("kind must be a string".to_string())
    );
}

#[test]
fn session_log_id_lists_and_required_strings() {
    let input = obj(vec![("task_ids", JsonValue::Array(vec![text(" ORB-1 "), text("ORB-2")]))]);
    assert_eq!(parse_id_list(&input, "task_ids").unwrap(), strings(&["ORB-1", "ORB-2"]));
    assert!(parse_id_list(&input, "learning_ids").unwrap().is_empty());
    let blank = obj(vec![("task_ids", JsonValue::Array(vec![text("  ")]))]);
    assert_eq!(
        parse_id_list(&blank, "task_ids").unwrap_err(),
        OrbitError::InvalidInput("task_ids must be an array of strings".to_string())
    );
    let scalar = obj(vec![("task_ids", text("ORB-1"))]);
    assert!(parse_id_list(&scalar, "task_ids").is_err());

    assert_eq!(required_body(&obj(vec![("body", text(" as given "))])).unwrap(), " as given ");
    assert_eq!(
        required_body(&obj(vec![])).unwrap_err(),
        OrbitError::InvalidInput("body is required".to_string())
    );
    assert_eq!(required_id(&obj(vec![("id", text("SL-0007"))])).unwrap(), "SL-0007");
    assert_eq!(
        required_id(&obj(vec![("id", JsonValue::UInt(7))])).unwrap_err(),
        OrbitError::InvalidInput("id is required".to_string())
    );
}

#[test]
fn a_reservation_names_tasks_or_files_but_not_both() {
    let both = parse_task_lock_reservation_scope(Some(strings(&["ORB-1"])), Some(vec![]));
    assert_eq!(
        both.unwrap_err(),
        OrbitError::InvalidInput("exactly one of 'task_ids' or 'files' must be provided".to_string())
    );
    assert!(parse_task_lock_reservation_scope(None, None).is_err());
    match parse_task_lock_reservation_scope(Some(strings(&["ORB-2", "ORB-1", "ORB-2"])), None).unwrap() {
        TaskLockReservationScope::TaskIds(ids) => assert_eq!(ids, strings(&["ORB-1", "ORB-2"])),
        other => panic!("unexpected scope {other:?}"),
    }
    let files = vec![
        ParsedSelector::Parsed { kind: SelectorKind::File, canonical: "file:b.rs".into() },
        ParsedSelector::Parsed { kind: SelectorKind::Dir, canonical: "dir:a".into() },
    ];
    match parse_task_lock_reservation_scope(None, Some(files)).unwrap() {
        TaskLockReservationScope::Files(files) => assert_eq!(files, strings(&["dir:a", "file:b.rs"])),
        other => panic!("unexpected scope {other:?}"),
    }
}
