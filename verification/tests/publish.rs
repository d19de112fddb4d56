use orbit_core::error::OrbitError;
use orbit_core::json::JsonValue;
use orbit_core::publish::{
    adr_body_path, adr_doc_candidates, comment_records, holds_comment, adr_doc_path, audit_status, build_publish_plan,
    commit_actor, commit_retry_delay_ms, existing_adr_paths, find_worktree_for_branch,
    git_common_dir, git_identity_env, is_auto_publish_action, learning_comments_path,
    learning_doc_path, lock_retry_delay_ms, next_push_step, pre_action_adr_id, push_outcome,
    push_step_args, sanitize_commit_summary, summary_from_text, sync_action, validate_artifact_path,
    ArtifactAction, GitCommandOutput, GitFailure, PublishStage, PushDecision, PushStep, SyncAction,
};

fn obj(fields: &[(&str, JsonValue)]) -> JsonValue {
    JsonValue::Object(fields.iter().map(|(k, v)| (k.to_string(), copy(v))).collect())
}

fn copy(v: &JsonValue) -> JsonValue {
    match v {
        JsonValue::Null => JsonValue::Null,
        JsonValue::Bool(b) => JsonValue::Bool(*b),
        JsonValue::UInt(n) => JsonValue::UInt(*n),
        JsonValue::Int(n) => JsonValue::Int(*n),
        JsonValue::Float => JsonValue::Float,
        JsonValue::Str(s) => JsonValue::Str(s.clone()),
        JsonValue::Array(items) => JsonValue::Array(items.iter().map(copy).collect()),
        JsonValue::Object(fields) => JsonValue::Object(fields.iter().map(|(k, v)| (k.clone(), copy(v))).collect()),
    }
}

fn s(v: &str) -> JsonValue {
    JsonValue::Str(v.to_string())
}

fn output(code: i32, stdout: &str, stderr: &str) -> GitCommandOutput {
    GitCommandOutput { code, stdout: stdout.into(), stderr: stderr.into() }
}

#[test]
fn artifact_paths_follow_the_bundle_layout() {
    assert_eq!(adr_doc_path("accepted", "ADR-0003"), ".orbit/adrs/accepted/ADR-0003/adr.yaml");
    assert_eq!(adr_body_path("accepted", "ADR-0003"), ".orbit/adrs/accepted/ADR-0003/body.md");
    assert_eq!(learning_doc_path("L-0007"), ".orbit/learnings/L-0007/learning.yaml");
    assert_eq!(learning_comments_path("L-0007"), ".orbit/learnings/L-0007/comments.jsonl");
}

#[test]
fn commit_summary_collapses_whitespace_and_is_capped() {
    assert_eq!(sanitize_commit_summary("  Use\tSQLite \n for   state  "), "Use SQLite for state");
    assert_eq!(sanitize_commit_summary(" \n\t "), "artifact update");
    let long = "x".repeat(120);
    assert_eq!(sanitize_commit_summary(&long).chars().count(), 96);
}

#[test]
fn summary_comes_from_the_first_non_blank_line() {
    assert_eq!(summary_from_text(Some("\n  \n  second line \nthird"), "L-1"), "second line");
    assert_eq!(summary_from_text(Some("  \n\t"), "L-1"), "L-1");
    assert_eq!(summary_from_text(None, "L-1"), "L-1");
}

#[test]
fn only_relative_artifact_paths_are_published() {
    assert!(validate_artifact_path(".orbit/learnings/L-1/learning.yaml").is_ok());
    assert_eq!(
        validate_artifact_path("/etc/passwd").unwrap_err(),
        OrbitError::Execution("refusing to auto-publish unsafe artifact path '/etc/passwd'".into())
    );
    assert!(validate_artifact_path(".orbit/adrs/../../secret").is_err());
    assert!(validate_artifact_path(".orbit/adrs/..hidden/adr.yaml").is_ok());
    assert_eq!(
        validate_artifact_path("src/lib.rs").unwrap_err(),
        OrbitError::Execution("refusing to auto-publish non-artifact path 'src/lib.rs'".into())
    );
}

#[test]
fn learning_supersede_and_comments_publish_expected_paths() {
    let response = obj(&[
        ("old", obj(&[("id", s("L-0001"))])),
        ("new", obj(&[("id", s("L-0002"))])),
    ]);
    let plan = build_publish_plan(
        ArtifactAction::LearningSupersede,
        &response,
        &obj(&[]),
        &vec![],
        &vec![],
        None,
    )
    .expect("plan");
    assert_eq!(plan.tool_name, "orbit.learning.supersede");
    assert_eq!(
        plan.paths,
        vec![".orbit/learnings/L-0001/learning.yaml", ".orbit/learnings/L-0002/learning.yaml"]
    );
    assert_eq!(plan.commit_message, "docs: Supersede learning L-0001 — with L-0002");

    let comment = build_publish_plan(
        ArtifactAction::LearningCommentAdd,
        &obj(&[("id", s("C-1")), ("learning_id", s("L-0002"))]),
        &obj(&[("body", s("\nLooks right\nmore"))]),
        &vec![],
        &vec![],
        None,
    )
    .expect("comment plan");
    assert_eq!(comment.paths, vec![".orbit/learnings/L-0002/comments.jsonl"]);
    assert_eq!(comment.commit_message, "docs: Add learning comment C-1 — Looks right");

    let deleted = build_publish_plan(
        ArtifactAction::LearningCommentDelete,
        &obj(&[("id", s("C-1"))]),
        &obj(&[]),
        &vec![],
        &vec![],
        Some("L-0002"),
    )
    .expect("delete plan");
    assert_eq!(deleted.paths, vec![".orbit/learnings/L-0002/comments.jsonl"]);
    let unknown = build_publish_plan(
        ArtifactAction::LearningCommentDelete,
        &obj(&[("id", s("C-1"))]),
        &obj(&[]),
        &vec![],
        &vec![],
        None,
    )
    .unwrap_err();
    assert_eq!(
        unknown,
        OrbitError::Execution("auto-publish could not resolve parent learning for comment C-1".into())
    );
}

#[test]
fn adr_supersede_publishes_old_and_new_bundles() {
    let old_paths = existing_adr_paths("ADR-0001", &vec![false, false, true, false]);
    let new_paths = existing_adr_paths("ADR-0002", &vec![false, true, false, false]);
    let mut found = old_paths.clone();
    found.extend(new_paths);
    let plan = build_publish_plan(
        ArtifactAction::AdrSupersede,
        &obj(&[("id", s("ADR-0001"))]),
        &obj(&[("new_id", s("ADR-0002"))]),
        &vec![],
        &found,
        None,
    )
    .expect("plan");
    assert_eq!(
        plan.paths,
        vec![
            ".orbit/adrs/accepted/ADR-0002/adr.yaml",
            ".orbit/adrs/accepted/ADR-0002/body.md",
            ".orbit/adrs/superseded/ADR-0001/adr.yaml",
            ".orbit/adrs/superseded/ADR-0001/body.md",
        ]
    );
    assert_eq!(plan.commit_message, "docs: Supersede ADR ADR-0001 — with ADR-0002");
    let nothing = build_publish_plan(
        ArtifactAction::AdrSupersede,
        &obj(&[("id", s("ADR-0001"))]),
        &obj(&[]),
        &vec![],
        &vec![],
        None,
    )
    .unwrap_err();
    assert_eq!(
        nothing,
        OrbitError::Execution("auto-publish found no artifact paths for orbit.adr.supersede".into())
    );
}

#[test]
fn adr_status_update_commits_moved_bundle_paths() {
    let pre = existing_adr_paths("ADR-0004", &vec![true, false, false, false]);
    let plan = build_publish_plan(
        ArtifactAction::AdrUpdate,
        &obj(&[("id", s("ADR-0004")), ("status", s("accepted")), ("title", s("Adopt  Verus"))]),
        &obj(&[("id", s("ADR-0004"))]),
        &pre,
        &vec![],
        None,
    )
    .expect("plan");
    assert_eq!(
        plan.paths,
        vec![
            ".orbit/adrs/accepted/ADR-0004/adr.yaml",
            ".orbit/adrs/accepted/ADR-0004/body.md",
            ".orbit/adrs/proposed/ADR-0004/adr.yaml",
            ".orbit/adrs/proposed/ADR-0004/body.md",
        ]
    );
    assert_eq!(plan.commit_message, "docs: Update ADR ADR-0004 — Adopt Verus");
    assert_eq!(plan.artifact_id, "ADR-0004");
}

#[test]
fn a_response_without_its_id_is_refused() {
    let err = build_publish_plan(ArtifactAction::LearningAdd, &obj(&[]), &obj(&[]), &vec![], &vec![], None)
        .unwrap_err();
    assert_eq!(err, OrbitError::Execution("auto-publish response missing `id`".into()));
    assert!(!is_auto_publish_action(ArtifactAction::Other));
    assert!(is_auto_publish_action(ArtifactAction::AdrAdd));
}

#[test]
fn adr_candidates_cover_every_status_directory() {
    assert_eq!(
        adr_doc_candidates("ADR-9"),
        vec![
            ".orbit/adrs/proposed/ADR-9/adr.yaml",
            ".orbit/adrs/accepted/ADR-9/adr.yaml",
            ".orbit/adrs/superseded/ADR-9/adr.yaml",
            ".orbit/adrs/deleted/ADR-9/adr.yaml",
        ]
    );
    let input = obj(&[("old", s("ADR-1")), ("oldId", s("ADR-2"))]);
    assert_eq!(pre_action_adr_id(ArtifactAction::AdrSupersede, &input).as_deref(), Some("ADR-1"));
    let present_not_string = obj(&[("old_id", JsonValue::UInt(3)), ("old", s("ADR-1"))]);
    assert_eq!(pre_action_adr_id(ArtifactAction::AdrSupersede, &present_not_string), None);
}

#[test]
fn git_output_summary_prefers_stderr_then_stdout_then_status() {
    assert_eq!(output(1, "out", "  err \n").summary(), "err");
    assert_eq!(output(1, " out ", " ").summary(), "out");
    assert_eq!(output(128, "", "").summary(), "git exited with status 128");
    assert_eq!(output(-3, "", "").summary(), "git exited with status -3");
}

#[test]
fn non_fast_forward_push_fetches_rebases_and_retries_once() {
    let refused = output(1, "", " ! [rejected] agent-main -> agent-main (Fetch first)");
    assert!(refused.is_non_fast_forward());
    match next_push_step(PushStep::Push, &refused, "agent-main") {
        PushDecision::Run(PushStep::Fetch) => {}
        other => panic!("expected a fetch, got {other:?}"),
    }
    match next_push_step(PushStep::Fetch, &output(0, "", ""), "agent-main") {
        PushDecision::Run(PushStep::Rebase) => {}
        other => panic!("expected a rebase, got {other:?}"),
    }
    match next_push_step(PushStep::Rebase, &output(0, "", ""), "agent-main") {
        PushDecision::Run(PushStep::PushAfterRebase) => {}
        other => panic!("expected the retry, got {other:?}"),
    }
    match next_push_step(PushStep::PushAfterRebase, &refused, "agent-main") {
        PushDecision::Failed(OrbitError::Execution(m)) => assert!(m.contains("failed after one rebase retry")),
        other => panic!("expected a failure, got {other:?}"),
    }
    match next_push_step(PushStep::ReadHead, &output(0, "abc123\n", ""), "agent-main") {
        PushDecision::Pushed(Some(head)) => assert_eq!(head, "abc123"),
        other => panic!("expected the head, got {other:?}"),
    }
    assert_eq!(push_step_args(PushStep::Rebase, "agent-main"), vec!["rebase", "origin/agent-main"]);
}

#[test]
fn rebase_conflict_preserves_local_commit_and_reports_branch() {
    match next_push_step(PushStep::Rebase, &output(1, "", "CONFLICT (content)"), "agent-main") {
        PushDecision::AbortRebase(OrbitError::Execution(m)) => assert_eq!(
            m,
            "auto-publish rebase onto origin/agent-main failed for branch 'agent-main'; local commit is preserved: CONFLICT (content)"
        ),
        other => panic!("expected an abort, got {other:?}"),
    }
}

#[test]
fn remote_rejection_leaves_local_commit_unpushed() {
    match next_push_step(PushStep::Push, &output(1, "", "remote: hook declined"), "agent-main") {
        PushDecision::Failed(OrbitError::Execution(m)) => {
            assert_eq!(m, "auto-publish push to origin/agent-main failed: remote: hook declined")
        }
        other => panic!("expected a failure, got {other:?}"),
    }
    assert_eq!(push_outcome(Some(PublishStage::Push)), "committed_only");
    assert_eq!(push_outcome(Some(PublishStage::Commit)), "failed");
    assert_eq!(push_outcome(None), "pushed");
    assert_eq!(audit_status("pushed"), (true, 0));
    assert_eq!(audit_status("committed_only"), (false, 1));
}

#[test]
fn missing_base_branch_worktree_returns_error_after_writing_artifact() {
    let listing = output(
        0,
        "worktree /repo\nHEAD abc\nbranch refs/heads/main\n\nworktree /repo-agent\nHEAD def\nbranch refs/heads/agent-main\n",
        "",
    );
    assert_eq!(find_worktree_for_branch(&listing, "agent-main").unwrap(), "/repo-agent");
    assert_eq!(find_worktree_for_branch(&listing, "main").unwrap(), "/repo");
    assert_eq!(
        find_worktree_for_branch(&listing, "release").unwrap_err(),
        OrbitError::Execution("auto-publish target branch 'release' is not checked out in any worktree".into())
    );
}

#[test]
fn index_lock_failures_are_retried_with_doubling_pauses() {
    let locked = GitFailure { phase: "git add".into(), output: output(128, "", "fatal: Unable to create '/r/.git/index.lock'") };
    assert!(locked.is_index_lock());
    assert_eq!(commit_retry_delay_ms(0, true), Some(50));
    assert_eq!(commit_retry_delay_ms(3, true), Some(400));
    assert_eq!(commit_retry_delay_ms(4, true), None);
    assert_eq!(commit_retry_delay_ms(0, false), None);
    assert_eq!(lock_retry_delay_ms(0), Some(50));
    assert_eq!(lock_retry_delay_ms(18), Some(950));
    assert_eq!(lock_retry_delay_ms(19), None);
    assert_eq!(
        locked.into_orbit_error(),
        OrbitError::Execution("auto-publish git add failed: fatal: Unable to create '/r/.git/index.lock'".into())
    );
    let plain = GitFailure::message("git diff", "auto-publish staged no changes for artifact paths");
    assert!(!plain.is_index_lock());
}

#[test]
fn identity_and_common_dir_follow_the_actor_and_worktree() {
    let env = git_identity_env("  ");
    assert_eq!(env[0], ("GIT_AUTHOR_NAME".to_string(), "agent".to_string()));
    assert_eq!(env[1], ("GIT_AUTHOR_EMAIL".to_string(), "agent@orbit.local".to_string()));
    assert_eq!(commit_actor(Some("  "), Some("codex"), "operator"), "operator");
    assert_eq!(commit_actor(None, Some(" codex "), "operator"), "codex");
    assert_eq!(git_common_dir(&output(0, ".git\n", ""), "/repo").unwrap(), "/repo/.git");
    assert_eq!(git_common_dir(&output(0, "/abs/.git", ""), "/repo").unwrap(), "/abs/.git");
    assert!(git_common_dir(&output(0, "  ", ""), "/repo").is_err());
    assert_eq!(sync_action(false, false, true), SyncAction::Remove);
    assert_eq!(sync_action(true, true, true), SyncAction::Skip);
}

#[test]
fn comment_records_are_trimmed_nonblank_lines() {
    let raw = "  {\"id\":\"c1\"}  \r\n\n   \n{\"id\":\"c2\"}";
    assert_eq!(comment_records(raw), vec!["{\"id\":\"c1\"}".to_string(), "{\"id\":\"c2\"}".to_string()]);
    assert!(comment_records("").is_empty());
}

#[test]
fn a_learning_holds_a_comment_by_id() {
    let records = vec![
        obj(&[("id", JsonValue::Str("c1".into()))]),
        obj(&[("id", JsonValue::UInt(2))]),
        obj(&[("body", JsonValue::Str("c3".into()))]),
    ];
    assert!(holds_comment(&records, "c1"));
    assert!(!holds_comment(&records, "2"));
    assert!(!holds_comment(&records, "c3"));
    assert!(!holds_comment(&vec![], "c1"));
}
