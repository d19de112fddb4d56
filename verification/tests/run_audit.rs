use orbit_core::error::OrbitError;
use orbit_core::json::JsonValue;
use orbit_core::run_audit::{
    check_blob_ref, collect_run_audit_events, collect_run_audit_steps, collect_run_cli_invocations,
    collect_run_provider_processes, enclosing_step_id, attach_liveness, cli_output_text, liveness_probes,
};

fn obj(fields: Vec<(&str, JsonValue)>) -> JsonValue {
    JsonValue::Object(fields.into_iter().map(|(k, v)| (k.to_string(), v)).collect())
}

fn s(v: &str) -> JsonValue {
    JsonValue::Str(v.to_string())
}

fn trail() -> Vec<JsonValue> {
    vec![
        obj(vec![("event_id", s("e1")), ("body_kind", s("step_started")), ("step_id", s("plan")), ("ts", s("2024-05-01T00:00:00Z"))]),
        obj(vec![("event_id", s("e2")), ("parent_event_id", s("e1")), ("body_kind", s("cli_invocation_process")), ("pid", JsonValue::UInt(41)), ("provider", s("codex"))]),
        obj(vec![("event_id", s("e3")), ("parent_event_id", s("e2")), ("body_kind", s("cli_invocation_process")), ("pid", JsonValue::UInt(42))]),
        obj(vec![("event_id", s("e4")), ("parent_event_id", s("e1")), ("body_kind", s("cli_invocation_finished")), ("exit_code", JsonValue::Int(-1)), ("timed_out", JsonValue::Bool(true)), ("stdout_blob_ref", s("ab12"))]),
        obj(vec![("event_id", s("e5")), ("body_kind", s("step_finished")), ("step_id", s("plan")), ("outcome", s("success")), ("ts", s("2024-05-01T00:01:00Z"))]),
        obj(vec![("body_kind", s("noise"))]),
        obj(vec![("event_id", s("e6")), ("body_kind", s("step_started")), ("step_id", s("review"))]),
        obj(vec![("event_id", s("e7")), ("body_kind", s("step_denied")), ("step_id", s("review")), ("reason", s("policy"))]),
    ]
}

#[test]
fn events_find_their_enclosing_step_through_parents() {
    let ps = trail();
    let events = collect_run_audit_events(&ps);
    assert_eq!(events.len(), 7);
    assert_eq!(events[2].event_id, "e3");
    assert_eq!(events[2].step_id.as_deref(), Some("plan"));
    assert_eq!(events[0].timestamp.map(|t| t.secs), Some(1714521600));
    assert_eq!(events[1].timestamp, None);
}

#[test]
fn parent_cycles_end_without_a_step() {
    let ps = vec![
        obj(vec![("event_id", s("a")), ("parent_event_id", s("b"))]),
        obj(vec![("event_id", s("b")), ("parent_event_id", s("a"))]),
    ];
    assert_eq!(enclosing_step_id(&ps, &ps[0]), None);
    let orphan = obj(vec![("event_id", s("c")), ("parent_event_id", s("missing"))]);
    assert_eq!(enclosing_step_id(&ps, &orphan), None);
}

#[test]
fn steps_record_their_outcomes_in_start_order() {
    let ps = trail();
    let events = collect_run_audit_events(&ps);
    let steps = collect_run_audit_steps(&ps, &events);
    assert_eq!(steps.len(), 2);
    assert_eq!(steps[0].step_id, "plan");
    assert_eq!(steps[0].state.as_deref(), Some("success"));
    assert_eq!(steps[0].finished_at.map(|t| t.secs), Some(1714521660));
    assert_eq!(steps[1].step_index, 1);
    assert_eq!(steps[1].state.as_deref(), Some("failed"));
    assert_eq!(steps[1].outcome.as_deref(), Some("denied"));
    assert_eq!(steps[1].error_message.as_deref(), Some("policy"));
}

#[test]
fn provider_exits_close_the_newest_open_process_of_their_step() {
    let ps = trail();
    let events = collect_run_audit_events(&ps);
    let steps = collect_run_audit_steps(&ps, &events);
    let procs = collect_run_provider_processes(&ps, &events, &steps, "run-9");
    assert_eq!(procs.len(), 2);
    assert_eq!(procs[0].pid, 41);
    assert!(!procs[0].finished);
    assert_eq!(procs[0].provider.as_deref(), Some("codex"));
    assert_eq!(procs[0].run_id, "run-9");
    assert_eq!(procs[1].pid, 42);
    assert!(procs[1].finished);
    assert_eq!(procs[1].exit_code, Some(-1));
    assert!(procs[1].timed_out);
    assert_eq!(procs[1].step_index, Some(0));

    let invocations = collect_run_cli_invocations(&ps, &events, &steps, "run-9");
    assert_eq!(invocations.len(), 1);
    assert_eq!(invocations[0].event_id, "e4");
    assert_eq!(invocations[0].stdout_blob_ref.as_deref(), Some("ab12"));
}

#[test]
fn blob_references_must_be_real() {
    assert!(check_blob_ref("ab12").is_ok());
    assert_eq!(check_blob_ref("x").unwrap_err(), OrbitError::Store("invalid audit blob reference 'x'".into()));
    assert!(check_blob_ref("error: upload failed").is_err());
}

#[derive(Debug, Clone, Copy, PartialEq)]
enum Liveness {
    Alive,
    Exited,
}

#[test]
fn only_unfinished_processes_are_probed_and_carry_the_probe_answer() {
    let ps = trail();
    let events = collect_run_audit_events(&ps);
    let steps = collect_run_audit_steps(&ps, &events);
    let procs = collect_run_provider_processes(&ps, &events, &steps, "run-9");
    let probes = liveness_probes(&procs);
    assert_eq!(probes, vec![(41, None)]);
    let probed = attach_liveness(procs, &vec![Liveness::Alive], Liveness::Exited);
    assert_eq!(probed.len(), 2);
    assert_eq!(probed[0].process.pid, 41);
    assert_eq!(probed[0].liveness, Liveness::Alive);
    assert_eq!(probed[1].process.pid, 42);
    assert_eq!(probed[1].liveness, Liveness::Exited);
}

#[test]
fn cli_output_is_the_blob_text_or_empty() {
    assert_eq!(cli_output_text(Some("sha256:ab"), Some("hello".to_string())), "hello");
    assert_eq!(cli_output_text(Some("sha256:ab"), None), "");
    assert_eq!(cli_output_text(Some("error: blob write failed"), Some("x".to_string())), "");
    assert_eq!(cli_output_text(Some("a"), Some("x".to_string())), "");
    assert_eq!(cli_output_text(None, Some("x".to_string())), "");
}
