use orbit_core::error::OrbitError;
use orbit_core::hub::{
    automation_update_decision, check_task_update_merged, check_friction_update, check_show_request, friction_record_json,
    implementer_candidate, shape_show_fields, strip_private_friction_paths, frictions_closed_by_update, managed_workspace_selector,
    ResolvesLink, check_task_update, clearable, friction_model,
    has_non_status_mutation, implied_implemented_by, implied_planned_by, parse_show_field,
    select_listed_tasks, status_name, transition_target, transition_update, trusted_run_id,
    ShowField, TaskListRow,
};
use orbit_core::json::{get_str, JsonValue};
use orbit_core::locks::TaskStatus;

fn obj(fields: Vec<(&str, JsonValue)>) -> JsonValue {
    JsonValue::Object(fields.into_iter().map(|(k, v)| (k.to_string(), v)).collect())
}

#[test]
fn status_only_updates_are_not_content_changes() {
    assert!(!has_non_status_mutation(&obj(vec![("id", JsonValue::Str("ORB-1".into())), ("status", JsonValue::Str("backlog".into()))])));
    assert!(has_non_status_mutation(&obj(vec![("artifact", JsonValue::Null)])));
}

#[test]
fn archived_tasks_can_only_be_restored_to_backlog() {
    assert!(check_task_update("ORB-1", TaskStatus::Archived, Some(TaskStatus::Backlog), false, Ok(()), "", "").is_ok());
    assert_eq!(
        check_task_update("ORB-1", TaskStatus::Archived, Some(TaskStatus::Backlog), true, Ok(()), "", "").unwrap_err(),
        OrbitError::InvalidInput("task ORB-1 is archived and cannot be modified; restore it to backlog first".into())
    );
}

#[test]
fn done_is_terminal() {
    assert_eq!(
        check_task_update("ORB-2", TaskStatus::Done, None, true, Ok(()), "p", "s").unwrap_err(),
        OrbitError::InvalidInput("task ORB-2 is done and cannot be modified; done is terminal".into())
    );
    assert!(check_task_update("ORB-2", TaskStatus::Done, None, false, Ok(()), "", "").is_ok());
}

#[test]
fn entering_progress_needs_a_plan_and_review_needs_a_summary() {
    assert_eq!(
        check_task_update("ORB-3", TaskStatus::Backlog, Some(TaskStatus::InProgress), false, Ok(()), "  ", "").unwrap_err(),
        OrbitError::InvalidInput("task 'ORB-3' requires a non-empty plan before entering in-progress".into())
    );
    assert_eq!(
        check_task_update("ORB-3", TaskStatus::InProgress, Some(TaskStatus::Review), false, Ok(()), "plan", "\n").unwrap_err(),
        OrbitError::InvalidInput(
            "task 'ORB-3' requires non-empty execution_summary before transitioning in-progress -> review".into()
        )
    );
    assert_eq!(
        check_task_update("ORB-3", TaskStatus::Backlog, Some(TaskStatus::Done), false, Err("backlog -> done".into()), "", "")
            .unwrap_err(),
        OrbitError::TaskStatusTransition("backlog -> done".into())
    );
}

#[test]
fn attribution_defaults_to_the_actor() {
    assert_eq!(implied_planned_by(None, true, "codex"), Some(Some("codex".into())));
    assert_eq!(implied_planned_by(Some(None), true, "codex"), Some(None));
    assert_eq!(implied_implemented_by(None, Some(TaskStatus::Review), "codex"), Some(Some("codex".into())));
    assert_eq!(implied_implemented_by(None, Some(TaskStatus::Backlog), "codex"), None);
    assert_eq!(clearable(Some("  ")), Some(None));
    assert_eq!(clearable(Some(" open ")), Some(Some("open".into())));
    assert_eq!(clearable(None), None);
}

#[test]
fn start_and_approve_move_tasks_forward() {
    assert_eq!(transition_target("ORB-4", TaskStatus::Someday, true, "plan").unwrap(), TaskStatus::InProgress);
    assert_eq!(
        transition_target("ORB-4", TaskStatus::Review, true, "plan").unwrap_err(),
        OrbitError::InvalidInput(
            "task 'ORB-4' is in status 'review'; start requires proposed, backlog, someday, or blocked".into()
        )
    );
    assert_eq!(transition_target("ORB-4", TaskStatus::Proposed, false, "").unwrap(), TaskStatus::Backlog);
    assert_eq!(transition_target("ORB-4", TaskStatus::Review, false, "").unwrap(), TaskStatus::Done);
    assert_eq!(
        transition_target("ORB-4", TaskStatus::InProgress, false, "").unwrap_err(),
        OrbitError::InvalidInput("task 'ORB-4' is in status 'in_progress'; approve requires proposed or review".into())
    );
    assert_eq!(status_name(TaskStatus::InProgress), "in_progress");
}

#[test]
fn transition_updates_carry_the_note_as_comment() {
    let update = transition_update("ORB-5", TaskStatus::Done, Some("ship it"), Some("ignored"), Some("beta"));
    assert_eq!(get_str(&update, "id").map(String::as_str), Some("ORB-5"));
    assert_eq!(get_str(&update, "status").map(String::as_str), Some("done"));
    assert_eq!(get_str(&update, "comment").map(String::as_str), Some("ship it"));
    assert_eq!(get_str(&update, "crew").map(String::as_str), Some("beta"));
    let bare = transition_update("ORB-5", TaskStatus::Backlog, None, None, None);
    assert!(bare.get("comment").is_none());
    assert!(bare.get("crew").is_none());
}

#[test]
fn show_refuses_local_context_and_unknown_fields() {
    let err = check_show_request(&obj(vec![("withContext", JsonValue::Bool(true))])).unwrap_err();
    assert_eq!(
        err,
        OrbitError::InvalidInput("checkoutless hub execution cannot provide `with_context` local-derived enrichment".into())
    );
    assert!(check_show_request(&obj(vec![("with_context", JsonValue::Str("yes".into())), ("withContext", JsonValue::Bool(true))])).is_ok());
    assert_eq!(parse_show_field("resolved_dependencies").unwrap(), ShowField::ResolvedDependencies);
    assert_eq!(
        parse_show_field("owner").unwrap_err(),
        OrbitError::InvalidInput("unknown field selector `owner`".into())
    );
}

#[test]
fn friction_tools_demand_a_model_and_a_change() {
    assert_eq!(friction_model(Some(" codex ")).unwrap(), " codex ");
    assert_eq!(friction_model(Some("  ")).unwrap_err(), OrbitError::InvalidInput("orbit.friction.add requires `model`".into()));
    assert!(friction_model(None).is_err());
    assert!(check_friction_update(false, true, false).is_ok());
    assert_eq!(
        check_friction_update(false, false, false).unwrap_err(),
        OrbitError::InvalidInput("orbit.friction.update requires `status`, `tags`, or `body`".into())
    );
}

#[test]
fn only_a_managed_context_vouches_for_a_run_id() {
    assert_eq!(trusted_run_id(Some(" true "), Some(" run-1 ")), Some("run-1".into()));
    assert_eq!(trusted_run_id(Some("yes"), Some("run-1")), None);
    assert_eq!(trusted_run_id(Some("1"), Some("  ")), None);
    assert_eq!(trusted_run_id(None, Some("run-1")), None);
}

#[test]
fn listing_keeps_order_and_takes_the_newest_matches() {
    let row = |status, task_type: &str, tags, ready| TaskListRow {
        status,
        task_type: task_type.into(),
        matches_tags: tags,
        dependencies_ready: ready,
    };
    let rows = vec![
        row(TaskStatus::Backlog, "feature", true, false),
        row(TaskStatus::Done, "feature", true, true),
        row(TaskStatus::Backlog, "bug", true, true),
        row(TaskStatus::Backlog, "feature", false, true),
        row(TaskStatus::Backlog, "feature", true, true),
    ];
    assert_eq!(select_listed_tasks(&rows, Some(TaskStatus::Backlog), None, None, 10), vec![0, 2, 4]);
    assert_eq!(select_listed_tasks(&rows, Some(TaskStatus::Backlog), Some("feature"), Some(true), 10), vec![4]);
    assert_eq!(select_listed_tasks(&rows, None, None, None, 2), vec![0, 1]);
}

#[test]
fn completing_a_task_closes_the_frictions_it_resolves() {
    let link = |resolves: bool, target: &str, ok: bool| ResolvesLink {
        resolves,
        target: target.to_string(),
        target_is_friction: ok,
    };
    let links = vec![
        link(true, "FR-2", true),
        link(false, "ORB-9", false),
        link(true, "not-a-friction", false),
        link(true, "FR-1", true),
    ];
    assert_eq!(
        frictions_closed_by_update(TaskStatus::Review, TaskStatus::Done, &links),
        vec!["FR-2".to_string(), "FR-1".to_string()]
    );
    assert!(frictions_closed_by_update(TaskStatus::Done, TaskStatus::Done, &links).is_empty());
    assert!(frictions_closed_by_update(TaskStatus::InProgress, TaskStatus::Review, &links).is_empty());
}

#[test]
fn a_workspace_selector_binds_only_inside_a_managed_run() {
    assert_eq!(
        managed_workspace_selector(Some(" true "), Some("run-1"), Some(" ws-a ")),
        Some("ws-a".to_string())
    );
    assert_eq!(managed_workspace_selector(Some("1"), Some("run-1"), Some("  ")), None);
    assert_eq!(managed_workspace_selector(Some("yes"), Some("run-1"), Some("ws-a")), None);
    assert_eq!(managed_workspace_selector(Some("TRUE"), Some(" "), Some("ws-a")), None);
    assert_eq!(managed_workspace_selector(None, Some("run-1"), Some("ws-a")), None);
}

fn text(v: &str) -> JsonValue {
    JsonValue::Str(v.to_string())
}

#[test]
fn hub_friction_responses_drop_private_paths() {
    let record = obj(vec![("id", text("F1")), ("path", text("/home/me/.orbit/frictions/F1.md")), ("body", text("b"))]);
    let listed = JsonValue::Array(vec![record, JsonValue::Array(vec![obj(vec![("path", text("p"))])]), text("path")]);
    match strip_private_friction_paths(listed) {
        JsonValue::Array(items) => {
            assert_eq!(get_str(&items[0], "path"), None);
            assert_eq!(get_str(&items[0], "id").map(String::as_str), Some("F1"));
            match &items[1] {
                JsonValue::Array(inner) => assert_eq!(get_str(&inner[0], "path"), None),
                other => panic!("unexpected {other:?}"),
            }
            match &items[2] {
                JsonValue::Str(v) => assert_eq!(v, "path"),
                other => panic!("unexpected {other:?}"),
            }
        }
        other => panic!("unexpected {other:?}"),
    }
    let shown = strip_private_friction_paths(obj(vec![("path", text("p")), ("title", text("t"))]));
    assert_eq!(get_str(&shown, "path"), None);
    assert_eq!(get_str(&shown, "title").map(String::as_str), Some("t"));
}

#[test]
fn friction_records_carry_path_and_effective_title() {
    let v = friction_record_json(obj(vec![("id", text("F2026-05-007")), ("title", JsonValue::Null)]), "frictions/2026-05/F007.md", "Derived".to_string());
    assert_eq!(get_str(&v, "path").map(String::as_str), Some("frictions/2026-05/F007.md"));
    assert_eq!(get_str(&v, "title").map(String::as_str), Some("Derived"));
    assert_eq!(get_str(&v, "id").map(String::as_str), Some("F2026-05-007"));
}

#[test]
fn one_selected_field_is_bare_and_several_form_an_object() {
    let one = shape_show_fields(vec![("plan".to_string(), text("do it"))]);
    match one {
        JsonValue::Str(v) => assert_eq!(v, "do it"),
        other => panic!("unexpected {other:?}"),
    }
    let several = shape_show_fields(vec![
        ("plan".to_string(), text("do it")),
        ("tags".to_string(), JsonValue::Array(vec![text("a")])),
    ]);
    assert_eq!(get_str(&several, "plan").map(String::as_str), Some("do it"));
    match &several {
        JsonValue::Object(fields) => assert_eq!(fields.len(), 2),
        other => panic!("unexpected {other:?}"),
    }
    match shape_show_fields(vec![]) {
        JsonValue::Object(fields) => assert!(fields.is_empty()),
        other => panic!("unexpected {other:?}"),
    }
}

#[test]
fn automation_updates_gate_friction_and_plan_and_attribute() {
    let refused = automation_update_decision("ORB-1", TaskStatus::Backlog, Some(TaskStatus::Friction), false, Ok(()), false, None, None, "system", None);
    assert_eq!(
        refused.unwrap_err(),
        OrbitError::InvalidInput("status 'friction' can only be set at creation; task 'ORB-1' is currently 'backlog'".to_string())
    );
    let plan_error = OrbitError::InvalidInput("needs a plan".to_string());
    assert_eq!(
        automation_update_decision("ORB-1", TaskStatus::Backlog, Some(TaskStatus::InProgress), true, Err(plan_error.clone()), false, None, None, "system", None).unwrap_err(),
        plan_error
    );
    let (planned, implemented) = automation_update_decision("ORB-1", TaskStatus::InProgress, Some(TaskStatus::Review), true, Err(plan_error), true, None, Some("gpt-5"), "system", Some("codex".to_string())).unwrap();
    assert_eq!(planned, Some(Some("gpt-5".to_string())));
    assert_eq!(implemented, Some(Some("codex".to_string())));
    let (planned, implemented) = automation_update_decision("ORB-1", TaskStatus::Backlog, Some(TaskStatus::InProgress), false, Ok(()), false, Some("x"), None, "system", Some("codex".to_string())).unwrap();
    assert_eq!(planned, None);
    assert_eq!(implemented, None);
    assert_eq!(implementer_candidate(None, None, None, None, "system"), "system");
    assert_eq!(implementer_candidate(Some("old"), Some("m"), None, None, "system"), "old");
    assert_eq!(implementer_candidate(None, None, Some("label"), Some("rt"), "system"), "label");
}

#[test]
fn lifecycle_gates_read_the_update_values_before_the_stored_ones() {
    let plan_err = check_task_update_merged("ORB-1", TaskStatus::Backlog, Some(TaskStatus::InProgress), false, Ok(()), Some("  "), "stored plan", None, "");
    assert_eq!(
        plan_err.unwrap_err(),
        OrbitError::InvalidInput("task 'ORB-1' requires a non-empty plan before entering in-progress".into())
    );
    assert!(check_task_update_merged("ORB-1", TaskStatus::Backlog, Some(TaskStatus::InProgress), false, Ok(()), None, "stored plan", None, "").is_ok());
    assert!(check_task_update_merged("ORB-1", TaskStatus::InProgress, Some(TaskStatus::Review), false, Ok(()), None, "", Some("done it"), "").is_ok());
    assert!(check_task_update_merged("ORB-1", TaskStatus::InProgress, Some(TaskStatus::Review), false, Ok(()), None, "", None, " ").is_err());
}
