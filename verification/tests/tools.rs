use orbit_core::audit::{
    audit_run_id, authorization_exit_code, coordination_audit_row, authorization_record, coordination_exit_code,
    env_step_index, execution_id_prefix, insert_field, redactions_flagged, sanitize_free_text_field,
    sanitize_path_field, ArtifactRedactionKind, ArtifactRedactionReport, AuditEventStatus,
};
use orbit_core::commands::{guard_path, required_argv};
use orbit_core::error::OrbitError;
use orbit_core::friction::{
    check_record_update, list_bound, optional_usize, page_bounds, parse_month_bounds, title_change,
    TitleChange,
};
use orbit_core::json::JsonValue;
use orbit_core::run_audit::json_with_step_id;
use orbit_core::search::check_search_params;
use orbit_core::session_log::Timestamp;

fn with(field: &str, v: JsonValue) -> JsonValue {
    JsonValue::Object(vec![(field.to_string(), v)])
}

#[test]
fn shell_string_argv_is_rejected() {
    let err = required_argv(&with("argv", JsonValue::Str("echo hello".into()))).unwrap_err();
    assert_eq!(
        err,
        OrbitError::InvalidInput(
            "`argv` must be a JSON array of argument strings, never a shell string; command execution never interprets shell syntax".into()
        )
    );
}

#[test]
fn empty_argv_is_rejected() {
    let err = required_argv(&with("argv", JsonValue::Array(vec![]))).unwrap_err();
    assert_eq!(
        err,
        OrbitError::InvalidInput("`argv` must not be empty; it must name at least the program to run".into())
    );
    let missing = required_argv(&JsonValue::Object(vec![])).unwrap_err();
    assert_eq!(
        missing,
        OrbitError::InvalidInput(
            "missing `argv`; pass the command as a JSON array of argument strings, e.g. [\"git\", \"status\"]".into()
        )
    );
}

#[test]
fn argv_entries_are_trimmed_non_empty_strings() {
    let argv = JsonValue::Array(vec![JsonValue::Str(" git ".into()), JsonValue::Str("status".into())]);
    assert_eq!(required_argv(&with("argv", argv)).unwrap(), vec!["git", "status"]);
    let bad = JsonValue::Array(vec![JsonValue::Str("git".into()), JsonValue::UInt(1)]);
    assert_eq!(
        required_argv(&with("argv", bad)).unwrap_err(),
        OrbitError::InvalidInput("`argv` entries must be non-empty strings".into())
    );
    assert_eq!(
        required_argv(&with("argv", JsonValue::Bool(true))).unwrap_err(),
        OrbitError::InvalidInput("`argv` must be a JSON array of argument strings".into())
    );
}

#[test]
fn run_guards_refuse_ids_that_escape_their_directory() {
    assert_eq!(guard_path("/ws/.orbit/state", "run-7").unwrap(), "/ws/.orbit/state/run-guards/run-7.lock");
    for bad in ["", "a/b", "a\\b", "..", "x..y"] {
        let err = guard_path("/ws/.orbit/state", bad).unwrap_err();
        assert_eq!(
            err,
            OrbitError::InvalidInput(format!(
                "refusing to derive a run-claim guard path for suspicious run id `{bad}`"
            ))
        );
    }
}

#[test]
fn month_filters_span_the_whole_month() {
    let (start, end) = parse_month_bounds("2024-02").unwrap();
    assert_eq!(start, Timestamp { secs: 1706745600, nanos: 0 });
    assert_eq!(end, Timestamp { secs: 1709251199, nanos: 999_999_999 });
    let (start, end) = parse_month_bounds("2023-12").unwrap();
    assert_eq!(start.secs, 1701388800);
    assert_eq!(end.secs, 1704067199);
    let (start, _) = parse_month_bounds("1969-12").unwrap();
    assert_eq!(start.secs, -2678400);
}

#[test]
fn month_filters_must_be_well_formed() {
    assert_eq!(
        parse_month_bounds("2024-2").unwrap_err(),
        OrbitError::InvalidInput("`month` must be in YYYY-MM format, got '2024-2'".into())
    );
    assert_eq!(
        parse_month_bounds("2024-13").unwrap_err(),
        OrbitError::InvalidInput("`month` component must be 01-12, got '2024-13'".into())
    );
    assert!(parse_month_bounds("2024/01").is_err());
    assert!(parse_month_bounds("2024-00").is_err());
}

#[test]
fn paging_numbers_accept_numbers_and_numeric_strings() {
    assert_eq!(optional_usize(&with("limit", JsonValue::UInt(5)), "limit").unwrap(), Some(5));
    assert_eq!(optional_usize(&with("limit", JsonValue::Str(" 7 ".into())), "limit").unwrap(), Some(7));
    assert_eq!(optional_usize(&with("limit", JsonValue::Null), "limit").unwrap(), None);
    assert_eq!(optional_usize(&JsonValue::Object(vec![]), "limit").unwrap(), None);
    assert_eq!(
        optional_usize(&with("limit", JsonValue::Int(-1)), "limit").unwrap_err(),
        OrbitError::InvalidInput("`limit` must be a non-negative integer".into())
    );
    assert!(optional_usize(&with("offset", JsonValue::Str("x".into())), "offset").is_err());
    assert_eq!(page_bounds(10, 3, Some(4)), (3, 7));
    assert_eq!(page_bounds(10, 8, Some(4)), (8, 10));
    assert_eq!(page_bounds(10, 12, None), (10, 10));
    assert_eq!(page_bounds(10, 0, Some(usize::MAX)), (0, 10));
}

#[test]
fn explicit_bounds_win_over_the_month() {
    let month = Some(Timestamp { secs: 1, nanos: 0 });
    assert_eq!(list_bound("from", None, month).unwrap(), month);
    assert_eq!(
        list_bound("from", Some("2024-01-01T00:00:00Z"), month).unwrap(),
        Some(Timestamp { secs: 1704067200, nanos: 0 })
    );
    let err = list_bound("to", Some("soon"), month).unwrap_err();
    assert!(err.message().starts_with("`to` must be RFC3339: "));
}

#[test]
fn update_still_requires_at_least_one_mutable_field() {
    assert_eq!(title_change(None), TitleChange::Keep);
    assert_eq!(title_change(Some("  ")), TitleChange::Clear);
    assert_eq!(title_change(Some("New")), TitleChange::Replace);
    assert!(check_record_update(false, false, false, TitleChange::Clear).is_ok());
    assert_eq!(
        check_record_update(false, false, false, TitleChange::Keep).unwrap_err(),
        OrbitError::InvalidInput("orbit.friction.update requires `status`, `tags`, `body`, or `title`".into())
    );
}

#[test]
fn search_tool_rejects_legacy_related_param() {
    let error = check_search_params(&with("related", JsonValue::Str("ORB-00001".into())))
        .expect_err("legacy related parameter should be rejected");
    assert!(error.message().contains("unknown parameter `related`"));
}

#[test]
fn search_tool_rejects_retired_field_and_embedding_model_params() {
    let field = JsonValue::Object(vec![
        ("query".into(), JsonValue::Str("anything".into())),
        ("field".into(), JsonValue::Str("title".into())),
    ]);
    let field_error = check_search_params(&field).expect_err("field parameter should be retired");
    assert!(field_error.message().contains("unknown parameter `field`"));

    let model = JsonValue::Object(vec![
        ("query".into(), JsonValue::Str("anything".into())),
        ("embedding_model".into(), JsonValue::Str("bge-small".into())),
    ]);
    let model_error = check_search_params(&model).expect_err("embedding_model parameter should be retired");
    assert!(model_error.message().contains("unknown parameter `embedding_model`"));
    assert!(check_search_params(&with("query", JsonValue::Str("anything".into()))).is_ok());
}

#[test]
fn audit_records_carry_their_status_and_run() {
    assert_eq!(coordination_exit_code(AuditEventStatus::Denied), 1);
    assert_eq!(coordination_exit_code(AuditEventStatus::Failure), 0);
    assert_eq!(authorization_exit_code(AuditEventStatus::Failure), 1);
    assert_eq!(execution_id_prefix("task.locks.reserve.granted"), "audit-task-locks-reserve-granted");
    let payload = with("owner_run_id", JsonValue::Str("  run-3 ".into()));
    assert_eq!(audit_run_id(&payload, Some("run-env")), Some("run-3".into()));
    assert_eq!(audit_run_id(&with("owner_run_id", JsonValue::Str(" ".into())), Some("run-env")), Some("run-env".into()));
    assert_eq!(audit_run_id(&JsonValue::Null, Some("")), None);
    assert_eq!(env_step_index(Some("12")), Some(12));
    assert_eq!(env_step_index(Some("x")), None);
    let denied = authorization_record(false, false, "missing capability");
    assert_eq!(denied.map(|(s, m)| (s, m)), Some((AuditEventStatus::Denied, "missing capability".into())));
    assert!(authorization_record(true, false, "").is_none());
    assert_eq!(
        authorization_record(true, true, "").map(|(s, m)| (s, m)),
        Some((AuditEventStatus::Success, "authorized through the operator override".into()))
    );
}

#[test]
fn redaction_reports_name_the_changed_fields() {
    let err = sanitize_free_text_field("body", "ghp_x", "ghp_x".into(), "[REDACTED]", "[REDACTED]".into(), true)
        .unwrap_err();
    assert_eq!(
        err,
        OrbitError::SensitiveInput(
            "`body` is a complete credential token; remove it or embed only non-sensitive context".into()
        )
    );
    let field = sanitize_free_text_field("body", "a KEY=1 /home/u", "a KEY=*** /home/u".into(), "a KEY=*** /home/u", "a KEY=*** ~".into(), false)
        .unwrap();
    assert_eq!(field.kinds, vec![ArtifactRedactionKind::Env, ArtifactRedactionKind::HomeDir]);
    let mut report = ArtifactRedactionReport::new();
    assert_eq!(report.absorb(field), "a KEY=*** ~");
    let untouched = sanitize_path_field("path", "docs/a.md", "docs/a.md".into());
    assert_eq!(report.absorb(untouched), "docs/a.md");
    assert_eq!(report.fields.len(), 1);
    assert!(report.applied());
    assert_eq!(ArtifactRedactionKind::HomeDir.as_str(), "home_dir");

    let flagged = redactions_flagged(with("id", JsonValue::Str("L-1".into())), &report);
    match flagged.get("redactions_applied") {
        Some(JsonValue::Bool(true)) => {}
        other => panic!("{other:?}"),
    }
    let mut obj = JsonValue::Object(vec![("a".into(), JsonValue::UInt(1)), ("b".into(), JsonValue::UInt(2))]);
    insert_field(&mut obj, "a", JsonValue::UInt(9));
    match &obj {
        JsonValue::Object(fields) => {
            assert_eq!(fields.len(), 2);
            assert_eq!(fields[0].0, "a");
        }
        other => panic!("{other:?}"),
    }
}

#[test]
fn step_ids_are_added_only_where_missing() {
    let raw = with("event_id", JsonValue::Str("e1".into()));
    let tagged = json_with_step_id(raw, Some("plan"));
    match tagged.get("step_id") {
        Some(JsonValue::Str(s)) => assert_eq!(s, "plan"),
        other => panic!("{other:?}"),
    }
    let own = with("step_id", JsonValue::Str("own".into()));
    match json_with_step_id(own, Some("plan")).get("step_id") {
        Some(JsonValue::Str(s)) => assert_eq!(s, "own"),
        other => panic!("{other:?}"),
    }
}

#[test]
fn coordination_rows_copy_the_event_and_run_as_admin() {
    let payload = JsonValue::Object(vec![("owner_run_id".to_string(), JsonValue::Str(" run-7 ".into()))]);
    let row = coordination_audit_row("task.locks.reserve.denied", "orbit.task.locks.reserve", "reservation", None, Some("ORB-1"), AuditEventStatus::Denied, payload, Some("run-env"));
    assert_eq!(row.execution_id_prefix, "audit-task-locks-reserve-denied");
    assert_eq!(row.role, "admin");
    assert_eq!(row.exit_code, 1);
    assert_eq!(row.job_run_id.as_deref(), Some("run-7"));
    assert_eq!(row.task_id.as_deref(), Some("ORB-1"));
    assert_eq!(row.target_id, None);
    let row = coordination_audit_row("workspace.claim", "orbit.workspace.claim", "workspace", Some("ws"), None, AuditEventStatus::Success, JsonValue::Object(vec![]), Some("run-env"));
    assert_eq!(row.exit_code, 0);
    assert_eq!(row.job_run_id.as_deref(), Some("run-env"));
}
