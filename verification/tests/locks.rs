use orbit_core::error::OrbitError;
use orbit_core::locks::{
    first_task_id, merge_task_lock_conflicts, parse_file_lock_selectors, parse_task_id_list,
    lock_context_files_for_task, lock_holders, locked_files, ask_store_to_reserve, reserve_response, task_lock_conflicts,
    ReserveResponse, ReserveResult, reservation_ttl_seconds, task_holds_locks,
    task_is_descendant_of, task_is_epic, task_lock_status_rank,
    validate_reservation_id_form, LockTask, ParsedSelector, SelectorKind, TaskLockConflict,
    TaskLockHolder, TaskStatus,
};
use orbit_core::session_log::Timestamp;

fn conflict(file: &str, held_by: TaskLockHolder, id: &str) -> TaskLockConflict {
    TaskLockConflict { file: file.into(), held_by, held_by_id: id.into() }
}

fn task(id: &str, parent: Option<&str>) -> LockTask {
    LockTask {
        id: id.into(),
        parent_id: parent.map(str::to_string),
        tags: vec![],
        status: TaskStatus::InProgress,
        created_at: Timestamp { secs: 0, nanos: 0 },
        context_files: vec![],
    }
}

#[test]
fn reservation_ids_must_look_like_reservations() {
    assert!(validate_reservation_id_form("reservation-1717").is_ok());
    assert_eq!(
        validate_reservation_id_form("ORB-12").unwrap_err(),
        OrbitError::InvalidInput(
            "`reservation_id` must have the form `reservation-<id>` (see `orbit task locks list --json`); got `ORB-12`, which does not look like a reservation id".into()
        )
    );
}

#[test]
fn reservation_lifetimes_default_and_are_bounded() {
    assert_eq!(reservation_ttl_seconds(None).unwrap(), 1800);
    assert_eq!(reservation_ttl_seconds(Some(7200)).unwrap(), 7200);
    assert!(reservation_ttl_seconds(Some(0)).is_err());
    assert_eq!(
        reservation_ttl_seconds(Some(7201)).unwrap_err(),
        OrbitError::InvalidInput("`ttl_seconds` must be between 1 and 7200 seconds".into())
    );
}

#[test]
fn task_id_lists_are_distinct_and_ordered() {
    let ids = parse_task_id_list(vec!["ORB-3".into(), "ORB-1".into(), "ORB-3".into()]).unwrap();
    assert_eq!(ids, vec!["ORB-1", "ORB-3"]);
    assert!(parse_task_id_list(vec![]).is_err());
    assert_eq!(first_task_id(&ids).as_deref(), Some("ORB-1"));
    assert_eq!(first_task_id(&vec![]), None);
}

#[test]
fn only_file_and_dir_selectors_lock() {
    let parsed = |kind, text: &str| ParsedSelector::Parsed { kind, canonical: text.into() };
    let ok = parse_file_lock_selectors(&vec![
        parsed(SelectorKind::Dir, "dir:src"),
        parsed(SelectorKind::File, "file:a.rs"),
        parsed(SelectorKind::Dir, "dir:src"),
    ])
    .unwrap();
    assert_eq!(ok, vec!["dir:src", "file:a.rs"]);
    let err = parse_file_lock_selectors(&vec![parsed(SelectorKind::Symbol, "symbol:x")]).unwrap_err();
    assert!(err.message().contains("not supported for task locks"));
    let err = parse_file_lock_selectors(&vec![ParsedSelector::Invalid { error: "bad prefix".into() }]).unwrap_err();
    assert!(err.message().ends_with(": bad prefix"));
    assert!(parse_file_lock_selectors(&vec![]).is_err());
}

#[test]
fn merged_conflicts_are_ordered_and_distinct() {
    let merged = merge_task_lock_conflicts(
        vec![conflict("file:b", TaskLockHolder::Reservation, "reservation-2"), conflict("file:a", TaskLockHolder::Task, "ORB-2")],
        vec![conflict("file:b", TaskLockHolder::Task, "ORB-9"), conflict("file:a", TaskLockHolder::Task, "ORB-2")],
    );
    let keys: Vec<(String, TaskLockHolder, String)> =
        merged.iter().map(|c| (c.file.clone(), c.held_by, c.held_by_id.clone())).collect();
    assert_eq!(
        keys,
        vec![
            ("file:a".to_string(), TaskLockHolder::Task, "ORB-2".to_string()),
            ("file:b".to_string(), TaskLockHolder::Task, "ORB-9".to_string()),
            ("file:b".to_string(), TaskLockHolder::Reservation, "reservation-2".to_string()),
        ]
    );
}

#[test]
fn active_work_holds_locks_in_progress_first() {
    assert!(task_holds_locks(TaskStatus::InProgress));
    assert!(task_holds_locks(TaskStatus::Review));
    assert!(!task_holds_locks(TaskStatus::Backlog));
    assert!(task_lock_status_rank(TaskStatus::InProgress) < task_lock_status_rank(TaskStatus::Review));
    assert_eq!(task_lock_status_rank(TaskStatus::Done), 2);
}

#[test]
fn descendants_are_found_through_parents_but_not_cycles() {
    let tasks = vec![task("EPIC", None), task("A", Some("EPIC")), task("B", Some("A")), task("C", Some("D")), task("D", Some("C"))];
    assert!(task_is_descendant_of(&tasks[2], "EPIC", &tasks));
    assert!(!task_is_descendant_of(&tasks[0], "B", &tasks));
    assert!(!task_is_descendant_of(&tasks[3], "EPIC", &tasks));
}

fn strings(v: &[&str]) -> Vec<String> {
    v.iter().map(|s| s.to_string()).collect()
}

#[test]
fn an_epic_root_owns_its_descendants_files() {
    let mut epic = task("EPIC", None);
    epic.tags = strings(&["epic"]);
    epic.context_files = strings(&["file:z.rs", "file:a.rs"]);
    let mut child = task("A", Some("EPIC"));
    child.context_files = strings(&["dir:src", "file:a.rs"]);
    let mut grandchild = task("B", Some("A"));
    grandchild.context_files = strings(&["file:m.rs"]);
    let mut other = task("C", None);
    other.context_files = strings(&["file:other.rs"]);
    let tasks = vec![epic.clone(), child.clone(), grandchild, other];
    assert!(task_is_epic(&tasks[0]));
    assert_eq!(
        lock_context_files_for_task(&tasks[0], &tasks),
        strings(&["dir:src", "file:a.rs", "file:m.rs", "file:z.rs"])
    );
    assert_eq!(lock_context_files_for_task(&child, &tasks), strings(&["dir:src", "file:a.rs"]));
    let mut plain = epic;
    plain.tags = vec![];
    assert_eq!(lock_context_files_for_task(&plain, &tasks), strings(&["file:a.rs", "file:z.rs"]));
}

#[test]
fn lock_holders_sort_in_progress_first_then_oldest_then_by_id() {
    let at = |secs: i64| Timestamp { secs, nanos: 0 };
    let mut tasks = vec![
        task("R-OLD", None),
        task("P-NEW", None),
        task("DONE", None),
        task("P-OLD-B", None),
        task("P-OLD-A", None),
        task("SKIP", None),
    ];
    tasks[0].status = TaskStatus::Review;
    tasks[0].created_at = at(1);
    tasks[1].created_at = at(9);
    tasks[2].status = TaskStatus::Done;
    tasks[3].created_at = at(5);
    tasks[4].created_at = at(5);
    tasks[5].created_at = at(0);
    let order = lock_holders(&tasks, &strings(&["SKIP"]));
    let ids: Vec<&str> = order.iter().map(|&i| tasks[i].id.as_str()).collect();
    assert_eq!(ids, vec!["P-OLD-A", "P-OLD-B", "P-NEW", "R-OLD"]);
    assert_eq!(lock_holders(&tasks, &vec![]).len(), 5);
}

#[test]
fn locked_files_union_surfaces_and_reservations() {
    let surfaces = vec![strings(&["file:b", "file:a"]), strings(&["file:c"])];
    let reserved = vec![strings(&["file:a", "dir:d"])];
    assert_eq!(locked_files(&surfaces, &reserved), strings(&["dir:d", "file:a", "file:b", "file:c"]));
    assert!(locked_files(&vec![], &vec![]).is_empty());
}

fn result(reserved: bool, id: Option<&str>, conflicts: Vec<TaskLockConflict>) -> ReserveResult {
    ReserveResult {
        reserved,
        reservation_id: id.map(str::to_string),
        expires_at: Some("2026-01-01T00:30:00Z".to_string()),
        reserved_files: strings(&["file:a.rs"]),
        conflicts,
    }
}

#[test]
fn reservation_answers_grant_or_report_every_conflict() {
    match reserve_response(vec![], result(true, Some("reservation-1"), vec![])).unwrap() {
        ReserveResponse::Granted { reservation_id, expires_at, reserved_files } => {
            assert_eq!(reservation_id, "reservation-1");
            assert_eq!(expires_at.as_deref(), Some("2026-01-01T00:30:00Z"));
            assert_eq!(reserved_files, strings(&["file:a.rs"]));
        }
        other => panic!("unexpected {other:?}"),
    }
    assert_eq!(
        reserve_response(vec![], result(true, None, vec![])).unwrap_err(),
        OrbitError::Execution("reservation grant is missing reservation_id".to_string())
    );
    let prior = vec![conflict("file:b.rs", TaskLockHolder::Task, "ORB-2")];
    let store = vec![
        conflict("file:a.rs", TaskLockHolder::Reservation, "reservation-9"),
        conflict("file:b.rs", TaskLockHolder::Task, "ORB-2"),
    ];
    match reserve_response(prior, result(false, None, store)).unwrap() {
        ReserveResponse::Denied { conflicts } => {
            let ids: Vec<(&str, &str)> =
                conflicts.iter().map(|c| (c.file.as_str(), c.held_by_id.as_str())).collect();
            assert_eq!(ids, vec![("file:a.rs", "reservation-9"), ("file:b.rs", "ORB-2")]);
        }
        other => panic!("unexpected {other:?}"),
    }
}

#[test]
fn conflicts_list_requested_files_held_by_active_tasks_outside_the_bundle() {
    let mut tasks = vec![task("ORB-2", None), task("ORB-1", None), task("ORB-3", None), task("ORB-4", None)];
    tasks[2].status = TaskStatus::Done;
    tasks[3].status = TaskStatus::Review;
    let requested = strings(&["dir:src", "file:a.rs"]);
    let overlapping = vec![
        strings(&["file:a.rs", "dir:src"]),
        strings(&["file:a.rs", "file:not-requested.rs"]),
        strings(&["file:a.rs"]),
        strings(&["dir:src"]),
    ];
    let conflicts = task_lock_conflicts(&tasks, &strings(&["ORB-4"]), &requested, &overlapping);
    let pairs: Vec<(&str, &str)> = conflicts.iter().map(|c| (c.file.as_str(), c.held_by_id.as_str())).collect();
    assert_eq!(pairs, vec![("dir:src", "ORB-2"), ("file:a.rs", "ORB-1"), ("file:a.rs", "ORB-2")]);
    assert!(conflicts.iter().all(|c| c.held_by == TaskLockHolder::Task));
    assert!(task_lock_conflicts(&tasks, &vec![], &vec![], &overlapping).is_empty());
}

#[test]
fn a_task_conflict_refuses_the_reservation_whatever_the_store_says() {
    let prior = vec![conflict("file:a.rs", TaskLockHolder::Task, "ORB-7")];
    assert!(!ask_store_to_reserve(&prior));
    assert!(ask_store_to_reserve(&vec![]));
    match reserve_response(prior, result(true, Some("reservation-1"), vec![])).unwrap() {
        ReserveResponse::Denied { conflicts } => {
            assert_eq!(conflicts.len(), 1);
            assert_eq!(conflicts[0].held_by_id, "ORB-7");
        }
        other => panic!("unexpected {other:?}"),
    }
}
