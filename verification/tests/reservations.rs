use orbit_core::locks::TaskStatus;
use orbit_core::reservations::{
    classify_stale_task_reservation, failed_run_error_context, finalize_actions,
    is_workflow_failure_state, list_stale_task_reservations, owned_reservation_released,
    task_is_blockable_on_run_failure, tasks_to_block, ActiveTaskReservation, JobRunState, OwnerRunFacts, RunStep,
};

fn run(id: &str, label: &str, terminal: bool, orphaned: bool) -> OwnerRunFacts {
    OwnerRunFacts { run_id: id.into(), state_label: label.into(), terminal, orphaned }
}

fn reservation(id: &str, tasks: &[&str], owner: Option<&str>) -> ActiveTaskReservation {
    ActiveTaskReservation {
        reservation_id: id.into(),
        task_ids: tasks.iter().map(|t| t.to_string()).collect(),
        owner_run_id: owner.map(str::to_string),
    }
}

#[test]
fn owned_reservations_go_stale_with_their_run() {
    let runs = vec![run("run-1", "succeeded", true, false), run("run-2", "running", false, true), run("run-3", "running", false, false)];
    let statuses = vec![];
    assert_eq!(
        classify_stale_task_reservation(&reservation("reservation-1", &[], Some("run-1")), &runs, &statuses).as_deref(),
        Some("owner run run-1 is terminal (succeeded)")
    );
    assert_eq!(
        classify_stale_task_reservation(&reservation("reservation-2", &[], Some("run-2")), &runs, &statuses).as_deref(),
        Some("owner run run-2 is conclusively orphaned (running)")
    );
    assert_eq!(
        classify_stale_task_reservation(&reservation("reservation-3", &[], Some("run-9")), &runs, &statuses).as_deref(),
        Some("owner run run-9 is absent")
    );
    assert_eq!(classify_stale_task_reservation(&reservation("reservation-4", &[], Some("run-3")), &runs, &statuses), None);
}

#[test]
fn unowned_reservations_go_stale_only_when_every_task_is_done() {
    let statuses = vec![("ORB-1".to_string(), TaskStatus::Done), ("ORB-2".to_string(), TaskStatus::Done), ("ORB-3".to_string(), TaskStatus::Review)];
    let all_done = reservation("reservation-1", &["ORB-1", "ORB-2"], None);
    let mixed = reservation("reservation-2", &["ORB-1", "ORB-3"], None);
    let empty = reservation("reservation-3", &[], None);
    assert_eq!(
        classify_stale_task_reservation(&all_done, &vec![], &statuses).as_deref(),
        Some("unowned reservation references only terminal done task(s): ORB-1, ORB-2")
    );
    assert_eq!(classify_stale_task_reservation(&mixed, &vec![], &statuses), None);
    assert_eq!(classify_stale_task_reservation(&empty, &vec![], &statuses), None);
    let stale = list_stale_task_reservations(&vec![all_done, mixed, empty], &vec![], &statuses);
    assert_eq!(stale.len(), 1);
    assert_eq!(stale[0].reservation_id, "reservation-1");
}

#[test]
fn finalizing_blocks_tasks_only_on_the_first_failure() {
    let first = finalize_actions(Some(JobRunState::Running), JobRunState::Failed);
    assert!(first.release_reservations && first.block_coupled_tasks && !first.record_conflict);
    let replay = finalize_actions(Some(JobRunState::Failed), JobRunState::Failed);
    assert!(!replay.block_coupled_tasks && !replay.record_conflict);
    let conflict = finalize_actions(Some(JobRunState::Succeeded), JobRunState::Failed);
    assert!(conflict.record_conflict && !conflict.block_coupled_tasks);
    let still_running = finalize_actions(None, JobRunState::Running);
    assert!(!still_running.release_reservations);
    assert!(is_workflow_failure_state(JobRunState::Timeout));
    assert!(!is_workflow_failure_state(JobRunState::Succeeded));
    assert!(task_is_blockable_on_run_failure(TaskStatus::InProgress));
    assert!(!task_is_blockable_on_run_failure(TaskStatus::Done));
}

#[test]
fn the_failure_note_comes_from_the_last_errored_step() {
    let steps = vec![
        RunStep { error_code: Some("E1".into()), error_message: Some("first".into()) },
        RunStep { error_code: None, error_message: Some("second".into()) },
        RunStep { error_code: None, error_message: None },
    ];
    assert_eq!(failed_run_error_context(&steps), (None, Some("second".into())));
    assert_eq!(failed_run_error_context(&vec![]), (None, None));
    assert!(owned_reservation_released(None, false));
    assert!(!owned_reservation_released(Some(false), false));
    assert!(owned_reservation_released(Some(false), true));
}

#[test]
fn a_failed_run_blocks_only_its_open_tasks() {
    let coupled = vec![
        ("ORB-1".to_string(), TaskStatus::InProgress),
        ("ORB-2".to_string(), TaskStatus::Review),
        ("ORB-3".to_string(), TaskStatus::Backlog),
        ("ORB-4".to_string(), TaskStatus::Blocked),
        ("ORB-5".to_string(), TaskStatus::Done),
    ];
    assert_eq!(tasks_to_block(&coupled), vec!["ORB-1".to_string(), "ORB-3".to_string()]);
    assert!(tasks_to_block(&vec![]).is_empty());
}
