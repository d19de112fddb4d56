use orbit_core::error::OrbitError;
use orbit_core::roots::{
    choose_workspace_id, config_needs_write, context_repo_root, initialized_root_tier, InitializedTier, config_path, cwd_fallback_root, external_tools_to_load,
    file_name, find_orbit_dir_walk_up, has_explicit_root_override, is_initialized_orbit_root,
    rebind_candidate, resolve_explicit_root, workspace_slug, ExplicitRootMode, OrbitRuntimeRoots,
    ResolvedOrbitRoots, RootLayout, StoredTool, WalkStep, WorkspaceIdChoice,
};

fn layout(is_dir: bool, config: bool, resources: bool, tasks: bool, state: bool) -> RootLayout {
    RootLayout {
        is_dir,
        has_config_file: config,
        has_resources_dir: resources,
        has_tasks_dir: tasks,
        has_state_dir: state,
    }
}

#[test]
fn explicit_root_pins_the_global_root_to_the_workspace() {
    let resolved = ResolvedOrbitRoots::pinned("/custom/.orbit");
    let roots = OrbitRuntimeRoots::from_resolved(resolved, true, "/home/u/.orbit");
    assert_eq!(roots.global_root, "/custom/.orbit");
    assert_eq!(roots.local_root, "/custom/.orbit");
    let resolved = ResolvedOrbitRoots::new("/repo/.orbit".into(), "/wt/.orbit".into());
    let roots = OrbitRuntimeRoots::from_resolved(resolved, false, "/home/u/.orbit");
    assert_eq!(roots.global_root, "/home/u/.orbit");
    assert_eq!(roots.shared_root, "/repo/.orbit");
    assert_eq!(roots.local_root, "/wt/.orbit");
    assert!(has_explicit_root_override(false, Some(" /x ")));
    assert!(!has_explicit_root_override(false, Some("  ")));
}

#[test]
fn initialized_roots_need_config_or_the_three_directories() {
    assert!(is_initialized_orbit_root(layout(true, true, false, false, false)));
    assert!(is_initialized_orbit_root(layout(true, false, true, true, true)));
    assert!(!is_initialized_orbit_root(layout(true, false, true, true, false)));
    assert!(!is_initialized_orbit_root(layout(false, true, true, true, true)));
}

#[test]
fn explicit_roots_prefer_their_orbit_child() {
    let ok = layout(true, true, false, false, false);
    let none = layout(false, false, false, false, false);
    assert_eq!(
        resolve_explicit_root("/repo", ExplicitRootMode::RequireInitialized, ok, ok).unwrap(),
        "/repo/.orbit"
    );
    assert_eq!(
        resolve_explicit_root("/repo/.orbit", ExplicitRootMode::RequireInitialized, none, ok).unwrap(),
        "/repo/.orbit"
    );
    assert_eq!(
        resolve_explicit_root("/nowhere", ExplicitRootMode::RequireInitialized, none, none).unwrap_err(),
        OrbitError::InvalidInput(
            "/nowhere is not an Orbit workspace; run `orbit workspace init` first or pass `--root <path/to/.orbit>`".into()
        )
    );
    assert_eq!(
        resolve_explicit_root("/nowhere", ExplicitRootMode::AllowUninitialized, none, none).unwrap(),
        "/nowhere"
    );
}

#[test]
fn the_walk_stops_at_boundaries_and_skips_the_global_root() {
    let step = |has, global, boundary| WalkStep { has_orbit_dir: has, orbit_dir_is_global: global, is_boundary: boundary };
    assert_eq!(find_orbit_dir_walk_up(&vec![step(false, false, false), step(true, false, false)]), Some(1));
    assert_eq!(find_orbit_dir_walk_up(&vec![step(false, false, true), step(true, false, false)]), None);
    assert_eq!(find_orbit_dir_walk_up(&vec![step(true, true, false), step(true, false, true)]), Some(1));
    assert_eq!(find_orbit_dir_walk_up(&vec![]), None);
    assert_eq!(
        cwd_fallback_root("/home/u/.orbit", true).unwrap_err(),
        OrbitError::InvalidInput(
            "/home/u/.orbit is the global Orbit root, not a workspace; run `orbit workspace init` from inside a project directory or pass `--root <path/to/.orbit>`".into()
        )
    );
    assert_eq!(cwd_fallback_root("/p/.orbit", false).unwrap().shared_root, "/p/.orbit");
}

#[test]
fn slugs_come_from_the_repository_directory_name() {
    assert_eq!(workspace_slug("/home/u/orbit"), "orbit");
    assert_eq!(workspace_slug("/home/u/orbit/"), "orbit");
    assert_eq!(workspace_slug("/home/u/orbit/."), "orbit");
    assert_eq!(workspace_slug("/"), "workspace");
    assert_eq!(workspace_slug("/home/.."), "workspace");
    assert_eq!(workspace_slug("/home/  "), "workspace");
    assert_eq!(file_name("a/b.txt").as_deref(), Some("b.txt"));
    assert_eq!(file_name(""), None);
}

#[test]
fn workspace_ids_come_from_config_then_binding_then_rebind() {
    match choose_workspace_id(Some("ws_a"), Some("ws_a")).unwrap() {
        WorkspaceIdChoice::Known(id) => assert_eq!(id, "ws_a"),
        other => panic!("{other:?}"),
    }
    assert_eq!(
        choose_workspace_id(Some("ws_a"), Some("ws_b")).unwrap_err(),
        OrbitError::WorkspaceError("workspace binding id 'ws_b' does not match configured workspace id 'ws_a'".into())
    );
    match choose_workspace_id(None, None).unwrap() {
        WorkspaceIdChoice::Rebind => {}
        other => panic!("{other:?}"),
    }
    assert_eq!(rebind_candidate(&vec![], "/r/.orbit").unwrap(), None);
    assert_eq!(rebind_candidate(&vec!["ws_1".into()], "/r/.orbit").unwrap(), Some("ws_1".into()));
    assert!(rebind_candidate(&vec!["ws_1".into(), "ws_2".into()], "/r/.orbit").is_err());
    assert!(config_needs_write(None, "ws_1"));
    assert!(!config_needs_write(Some("ws_1"), "ws_1"));
    assert_eq!(config_path("/r/.orbit", "/home/.orbit", true), "/r/.orbit/config.toml");
    assert_eq!(config_path("/home/.orbit", "/home/.orbit", true), "/home/.orbit/config.toml");
    assert_eq!(config_path("/r/.orbit", "/home/.orbit", false), "/home/.orbit/config.toml");
}

#[test]
fn only_new_enabled_external_tools_are_loaded() {
    let tool = |name: &str, builtin, enabled| StoredTool { name: name.into(), builtin, enabled };
    let tools = vec![
        tool("lint", false, true),
        tool("shell", true, true),
        tool("fmt", false, false),
        tool("lint", false, true),
        tool("orbit.task.add", false, true),
        tool("deploy", false, true),
    ];
    assert_eq!(external_tools_to_load(&tools, &vec!["orbit.task.add".into()]), vec![0, 5]);
}

#[test]
fn initialized_lookups_answer_only_workspaces_in_tier_order() {
    let ready = layout(true, true, false, false, false);
    let bare = layout(true, false, true, false, false);
    assert_eq!(initialized_root_tier(true, None, Some(ready), None, None), Some(InitializedTier::ExplicitRoot));
    assert_eq!(initialized_root_tier(false, Some(" /ws "), Some(ready), None, None), Some(InitializedTier::OrbitRootEnv));
    assert_eq!(initialized_root_tier(false, Some("  "), Some(ready), None, None), Some(InitializedTier::GitWorktreeMain));
    assert_eq!(initialized_root_tier(false, None, Some(bare), Some(ready), Some(ready)), Some(InitializedTier::PathOverride));
    assert_eq!(initialized_root_tier(false, None, Some(bare), Some(bare), Some(ready)), Some(InitializedTier::WalkUp));
    assert_eq!(initialized_root_tier(false, None, Some(bare), None, Some(bare)), None);
    assert!(resolve_explicit_root("/tmp/empty", ExplicitRootMode::RequireInitialized, bare, bare).is_err());
}

#[test]
fn the_repo_root_comes_from_the_binding_or_the_workspace_parent() {
    assert_eq!(context_repo_root(Some("/src/app"), "/elsewhere/.orbit"), "/src/app");
    assert_eq!(context_repo_root(None, "/src/app/.orbit"), "/src/app");
    assert_eq!(context_repo_root(None, "/"), "/");
}
