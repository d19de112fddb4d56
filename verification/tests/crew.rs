use orbit_core::crew::{
    configured_crew_registry_projection, crew_override_from_input, crew_projection_plan,
    select_crew_for_task, select_crew_name, task_crew_from_bundle, task_crew_read,
    task_ids_for_crew_resolution, Crew, CrewAssignment, CrewProjectionPlan, ProviderSource,
    ResolvedCrewProjection, TaskCrewRead,
};
use orbit_core::error::OrbitError;
use orbit_core::json::JsonValue;

fn crew(name: &str, model: &str) -> Crew {
    Crew {
        name: name.into(),
        assignment: CrewAssignment { provider: "codex".into(), model: model.into() },
        description: None,
        tags: vec![],
    }
}

fn configured() -> Vec<Crew> {
    vec![crew("primary", "default-model"), crew("beta", "beta-model"), crew("gamma", "gamma-model")]
}

fn run_input(crew_override: Option<&str>, task_ids: &[&str]) -> JsonValue {
    let mut fields = Vec::new();
    if let Some(c) = crew_override {
        fields.push(("crew".to_string(), JsonValue::Str(c.to_string())));
    }
    fields.push((
        "task_ids".to_string(),
        JsonValue::Array(task_ids.iter().map(|id| JsonValue::Str(id.to_string())).collect()),
    ));
    JsonValue::Object(fields)
}

/// The run-input crew resolution: override, else the bundle's unanimous
/// task crew, else the workspace default; `tasks` holds each stored task's
/// crew.
fn resolve_for_run_input(input: &JsonValue, tasks: &[(&str, Option<&str>)]) -> Result<Crew, OrbitError> {
    let ids = task_ids_for_crew_resolution(input);
    let found: Vec<Option<String>> = ids
        .iter()
        .filter_map(|id| tasks.iter().find(|(t, _)| t == id).map(|(_, c)| c.map(str::to_string)))
        .collect();
    let task_crew = if found.is_empty() { None } else { task_crew_from_bundle(&found)? };
    let explicit = crew_override_from_input(input);
    let name = select_crew_for_task(explicit.as_deref(), task_crew.as_deref(), Some("primary"))?;
    Ok(configured().into_iter().find(|c| c.name == name).expect("configured crew"))
}

#[test]
fn run_input_task_ids_singleton_resolves_task_crew() {
    let crew = resolve_for_run_input(&run_input(None, &["ORB-1"]), &[("ORB-1", Some("beta"))]).expect("resolve crew");
    assert_eq!(crew.name, "beta");
    assert_eq!(crew.assignment.model, "beta-model");
    assert_eq!(crew.assignment.provider, "codex");
}

#[test]
fn explicit_crew_override_wins_over_singleton_task_ids_task_crew() {
    let crew = resolve_for_run_input(&run_input(Some("gamma"), &["ORB-1"]), &[("ORB-1", Some("beta"))])
        .expect("resolve crew");
    assert_eq!(crew.name, "gamma");
    assert_eq!(crew.assignment.model, "gamma-model");
}

#[test]
fn custom_prefix_task_ids_resolve_task_crew() {
    let crew = resolve_for_run_input(&run_input(None, &["DAN-10001"]), &[("DAN-10001", Some("beta"))])
        .expect("resolve crew");
    assert_eq!(crew.name, "beta");
    assert_eq!(crew.assignment.model, "beta-model");
}

#[test]
fn missing_task_ids_fall_back_to_default_crew() {
    let crew = resolve_for_run_input(&run_input(None, &["DAN-10002", "T-crew"]), &[])
        .expect("missing fixture ids must not fail crew resolution");
    assert_eq!(crew.name, "primary");
    assert_eq!(crew.assignment.model, "default-model");
}

#[test]
fn multi_task_ids_with_the_same_crew_use_that_crew() {
    let crew = resolve_for_run_input(
        &run_input(None, &["ORB-1", "ORB-2"]),
        &[("ORB-1", Some("beta")), ("ORB-2", Some("beta"))],
    )
    .expect("unanimous task crew");
    assert_eq!(crew.name, "beta");
    assert_eq!(crew.assignment.model, "beta-model");
}

#[test]
fn multi_task_ids_without_crew_fall_back_to_default_crew() {
    let crew = resolve_for_run_input(&run_input(None, &["ORB-1", "ORB-2"]), &[("ORB-1", None), ("ORB-2", None)])
        .expect("unset task crews use the workspace default");
    assert_eq!(crew.name, "primary");
    assert_eq!(crew.assignment.model, "default-model");
}

#[test]
fn mixed_task_crews_fail_closed_instead_of_inheriting_default() {
    let error = resolve_for_run_input(
        &run_input(None, &["ORB-1", "ORB-2"]),
        &[("ORB-1", Some("beta")), ("ORB-2", Some("gamma"))],
    )
    .expect_err("mixed crews must fail closed");
    let message = error.message();
    assert!(
        message.contains("mixes crews") && message.contains("workflow.default_crew"),
        "unexpected mixed-crew error: {message}"
    );
}

#[test]
fn mixed_set_and_unset_task_crews_fail_closed() {
    let error = resolve_for_run_input(
        &run_input(None, &["ORB-1", "ORB-2"]),
        &[("ORB-1", Some("beta")), ("ORB-2", None)],
    )
    .expect_err("set vs unset is a mixed bundle");
    let message = error.message();
    assert!(message.contains("mixes crews"), "unexpected mixed-crew error: {message}");
}

#[test]
fn select_crew_name_precedence_and_environment_default() {
    struct Row {
        name: &'static str,
        explicit: Option<&'static str>,
        task: Option<&'static str>,
        workspace: Option<&'static str>,
        env: Option<&'static str>,
        system: Option<&'static str>,
        expect: Option<(&'static str, ProviderSource)>,
    }

    let rows = [
        Row {
            name: "explicit beats all (env ignored)",
            explicit: Some("gamma"),
            task: Some("beta"),
            workspace: Some("primary"),
            env: Some("gemini"),
            system: Some("grok"),
            expect: Some(("gamma", ProviderSource::Explicit)),
        },
        Row {
            name: "task beats workspace+env",
            explicit: None,
            task: Some("beta"),
            workspace: Some("primary"),
            env: Some("gemini"),
            system: Some("grok"),
            expect: Some(("beta", ProviderSource::TaskConfig)),
        },
        Row {
            name: "workspace beats env (unchanged by env)",
            explicit: None,
            task: None,
            workspace: Some("primary"),
            env: Some("gemini"),
            system: Some("grok"),
            expect: Some(("primary", ProviderSource::WorkspaceDefault)),
        },
        Row {
            name: "env applies when otherwise-defaulted (grok)",
            explicit: None,
            task: None,
            workspace: None,
            env: Some("grok"),
            system: Some("grok"),
            expect: Some(("grok", ProviderSource::EnvironmentDefault)),
        },
        Row {
            name: "env applies when otherwise-defaulted (gemini)",
            explicit: None,
            task: None,
            workspace: None,
            env: Some("gemini"),
            system: Some("grok"),
            expect: Some(("gemini", ProviderSource::EnvironmentDefault)),
        },
        Row {
            name: "system default when nothing else",
            explicit: None,
            task: None,
            workspace: None,
            env: None,
            system: Some("grok"),
            expect: Some(("grok", ProviderSource::SystemDefault)),
        },
        Row {
            name: "whitespace at a tier is skipped",
            explicit: Some("   "),
            task: None,
            workspace: None,
            env: Some("codex"),
            system: Some("grok"),
            expect: Some(("codex", ProviderSource::EnvironmentDefault)),
        },
        Row {
            name: "nothing selected",
            explicit: None,
            task: None,
            workspace: None,
            env: None,
            system: None,
            expect: None,
        },
    ];

    for row in rows {
        let got = select_crew_name(row.explicit, row.task, row.workspace, row.env, row.system);
        let got = got.as_ref().map(|(name, source)| (name.as_str(), *source));
        assert_eq!(got, row.expect, "{}", row.name);
    }
}

#[test]
fn resolve_crew_for_task_reads_env_default_but_workspace_crew_wins() {
    let got = select_crew_name(None, None, Some("primary"), Some("grok"), None);
    assert_eq!(got, Some(("primary".to_string(), ProviderSource::WorkspaceDefault)));
}

#[test]
fn selected_names_are_trimmed() {
    let got = select_crew_name(Some("  beta \n"), None, None, None, None);
    assert_eq!(got, Some(("beta".to_string(), ProviderSource::Explicit)));
}

#[test]
fn no_crew_anywhere_is_an_error() {
    let err = select_crew_for_task(None, Some(" "), None).expect_err("nothing selected");
    assert_eq!(
        err,
        OrbitError::InvalidInput("no crew selected; set [workflow].default_crew, task.crew, or pass crew".into())
    );
}

#[test]
fn registry_projection_is_sorted_and_marks_the_default() {
    let projection = configured_crew_registry_projection(&configured(), Some("primary"));
    let names: Vec<&str> = projection.crews.iter().map(|c| c.name.as_str()).collect();
    assert_eq!(names, ["beta", "gamma", "primary"]);
    let defaults: Vec<bool> = projection.crews.iter().map(|c| c.is_default).collect();
    assert_eq!(defaults, [false, false, true]);
    assert_eq!(projection.default_crew.as_deref(), Some("primary"));
}

#[test]
fn a_persisted_run_crew_wins_the_projection_plan() {
    let plan = crew_projection_plan(Some("beta".into()), Some("beta-model".into()), Some("gamma"), None);
    assert_eq!(
        plan,
        CrewProjectionPlan::FromRun(ResolvedCrewProjection { name: "beta".into(), model: "beta-model".into() })
    );
    assert_eq!(crew_projection_plan(Some("beta".into()), None, None, None), CrewProjectionPlan::Absent);
    assert_eq!(crew_projection_plan(None, None, None, Some("primary")), CrewProjectionPlan::Resolve);
}

#[test]
fn a_failed_projection_still_renders_the_task() {
    let read = task_crew_read(Err(OrbitError::Store("crew `x` is not configured".into())));
    assert_eq!(read, TaskCrewRead::Unresolved { reason: "crew `x` is not configured".into() });
    assert_eq!(task_crew_read(Ok(None)), TaskCrewRead::Absent);
}
