//! Rules of the checkout-independent coordination executor: when a task
//! may be updated or moved along its lifecycle, who is recorded as its
//! planner and implementer, and what the friction tools demand.
use vstd::prelude::*;

use crate::error::OrbitError;
use crate::json::{JsonValue, json_get};
use crate::locks::TaskStatus;
use crate::text::{copy_string, opt_view, push_str, str_eq, trim, trimmed};

verus! {

/// The name a status is written with.
pub open spec fn status_name_spec(s: TaskStatus) -> Seq<char> {
    match s {
        TaskStatus::Proposed => "proposed"@,
        TaskStatus::Backlog => "backlog"@,
        TaskStatus::InProgress => "in_progress"@,
        TaskStatus::Review => "review"@,
        TaskStatus::Done => "done"@,
        TaskStatus::Blocked => "blocked"@,
        TaskStatus::Rejected => "rejected"@,
        TaskStatus::Archived => "archived"@,
        TaskStatus::Someday => "someday"@,
        TaskStatus::Friction => "friction"@,
    }
}

pub fn status_name(s: TaskStatus) -> (r: &'static str)
    ensures
        r@ == status_name_spec(s),
{
    match s {
        TaskStatus::Proposed => "proposed",
        TaskStatus::Backlog => "backlog",
        TaskStatus::InProgress => "in_progress",
        TaskStatus::Review => "review",
        TaskStatus::Done => "done",
        TaskStatus::Blocked => "blocked",
        TaskStatus::Rejected => "rejected",
        TaskStatus::Archived => "archived",
        TaskStatus::Someday => "someday",
        TaskStatus::Friction => "friction",
    }
}

/// The task fields other than status that an update may change.
pub open spec fn content_field(k: int) -> Seq<char> {
    if k == 0 {
        "title"@
    } else if k == 1 {
        "description"@
    } else if k == 2 {
        "acceptance_criteria"@
    } else if k == 3 {
        "dependencies"@
    } else if k == 4 {
        "relations"@
    } else if k == 5 {
        "tags"@
    } else if k == 6 {
        "plan"@
    } else if k == 7 {
        "execution_summary"@
    } else if k == 8 {
        "type"@
    } else if k == 9 {
        "source_task_id"@
    } else if k == 10 {
        "planned_by"@
    } else if k == 11 {
        "implemented_by"@
    } else if k == 12 {
        "pr_status"@
    } else if k == 13 {
        "job_run_id"@
    } else if k == 14 {
        "crew"@
    } else if k == 15 {
        "context_files"@
    } else if k == 16 {
        "context"@
    } else if k == 17 {
        "artifacts"@
    } else {
        "artifact"@
    }
}

fn content_field_name(k: usize) -> (r: &'static str)
    requires
        k < 19,
    ensures
        r@ == content_field(k as int),
{
    if k == 0 {
        "title"
    } else if k == 1 {
        "description"
    } else if k == 2 {
        "acceptance_criteria"
    } else if k == 3 {
        "dependencies"
    } else if k == 4 {
        "relations"
    } else if k == 5 {
        "tags"
    } else if k == 6 {
        "plan"
    } else if k == 7 {
        "execution_summary"
    } else if k == 8 {
        "type"
    } else if k == 9 {
        "source_task_id"
    } else if k == 10 {
        "planned_by"
    } else if k == 11 {
        "implemented_by"
    } else if k == 12 {
        "pr_status"
    } else if k == 13 {
        "job_run_id"
    } else if k == 14 {
        "crew"
    } else if k == 15 {
        "context_files"
    } else if k == 16 {
        "context"
    } else if k == 17 {
        "artifacts"
    } else {
        "artifact"
    }
}

/// The update names at least one field besides the status.
pub open spec fn changes_content(input: JsonValue) -> bool {
    exists|k: int| 0 <= k < 19 && (#[trigger] json_get(input, content_field(k))) is Some
}

/// Every task field besides the status counts as a content change: an
/// update names one of title, description, acceptance_criteria,
/// dependencies, relations, tags, plan, execution_summary, type,
/// source_task_id, planned_by, implemented_by, pr_status, job_run_id, crew,
/// context_files, context, artifacts or artifact exactly when it changes
/// content.
pub proof fn law_content_fields(input: JsonValue)
    ensures
        changes_content(input) <==> (json_get(input, "title"@) is Some || json_get(input, "description"@) is Some
            || json_get(input, "acceptance_criteria"@) is Some || json_get(input, "dependencies"@) is Some
            || json_get(input, "relations"@) is Some || json_get(input, "tags"@) is Some || json_get(
            input,
            "plan"@,
        ) is Some || json_get(input, "execution_summary"@) is Some || json_get(input, "type"@) is Some
            || json_get(input, "source_task_id"@) is Some || json_get(input, "planned_by"@) is Some
            || json_get(input, "implemented_by"@) is Some || json_get(input, "pr_status"@) is Some
            || json_get(input, "job_run_id"@) is Some || json_get(input, "crew"@) is Some || json_get(
            input,
            "context_files"@,
        ) is Some || json_get(input, "context"@) is Some || json_get(input, "artifacts"@) is Some
            || json_get(input, "artifact"@) is Some),
{
    let names = seq![
        "title"@, "description"@, "acceptance_criteria"@, "dependencies"@, "relations"@, "tags"@,
        "plan"@, "execution_summary"@, "type"@, "source_task_id"@, "planned_by"@, "implemented_by"@,
        "pr_status"@, "job_run_id"@, "crew"@, "context_files"@, "context"@, "artifacts"@,
        "artifact"@,
    ];
    assert forall|k: int| 0 <= k < 19 implies content_field(k) == names[k] by {}
    assert(json_get(input, content_field(0)) == json_get(input, "title"@));
    assert(json_get(input, content_field(1)) == json_get(input, "description"@));
    assert(json_get(input, content_field(2)) == json_get(input, "acceptance_criteria"@));
    assert(json_get(input, content_field(3)) == json_get(input, "dependencies"@));
    assert(json_get(input, content_field(4)) == json_get(input, "relations"@));
    assert(json_get(input, content_field(5)) == json_get(input, "tags"@));
    assert(json_get(input, content_field(6)) == json_get(input, "plan"@));
    assert(json_get(input, content_field(7)) == json_get(input, "execution_summary"@));
    assert(json_get(input, content_field(8)) == json_get(input, "type"@));
    assert(json_get(input, content_field(9)) == json_get(input, "source_task_id"@));
    assert(json_get(input, content_field(10)) == json_get(input, "planned_by"@));
    assert(json_get(input, content_field(11)) == json_get(input, "implemented_by"@));
    assert(json_get(input, content_field(12)) == json_get(input, "pr_status"@));
    assert(json_get(input, content_field(13)) == json_get(input, "job_run_id"@));
    assert(json_get(input, content_field(14)) == json_get(input, "crew"@));
    assert(json_get(input, content_field(15)) == json_get(input, "context_files"@));
    assert(json_get(input, content_field(16)) == json_get(input, "context"@));
    assert(json_get(input, content_field(17)) == json_get(input, "artifacts"@));
    assert(json_get(input, content_field(18)) == json_get(input, "artifact"@));
}

pub fn has_non_status_mutation(input: &JsonValue) -> (b: bool)
    ensures
        b == changes_content(*input),
{
    let mut k: usize = 0;
    while k < 19
        invariant
            k <= 19,
            forall|j: int| 0 <= j < k ==> (#[trigger] json_get(*input, content_field(j))) is None,
        decreases 19 - k,
    {
        if input.get(content_field_name(k)).is_some() {
            assert(json_get(*input, content_field(k as int)) is Some);
            return true;
        }
        k += 1;
    }
    false
}

/// Why an update of task `id` is refused, if it is: a tuple of whether the
/// lifecycle refused the status change and the message.
///
/// An archived task may only be restored to backlog, with nothing else
/// changed; a done task cannot change at all; a status change must be one
/// the lifecycle allows (`transition`); entering in-progress needs a plan,
/// and leaving in-progress for review needs an execution summary (`plan`
/// and `summary` are the values the task will have).
pub open spec fn update_refusal(
    id: Seq<char>,
    current: TaskStatus,
    target: Option<TaskStatus>,
    content: bool,
    transition: Result<(), Seq<char>>,
    plan: Seq<char>,
    summary: Seq<char>,
) -> Option<(bool, Seq<char>)> {
    let unarchiving = current == TaskStatus::Archived && target == Some(TaskStatus::Backlog)
        && !content;
    if current == TaskStatus::Archived && !unarchiving {
        Some((false, "task "@ + id + " is archived and cannot be modified; restore it to backlog first"@))
    } else if current == TaskStatus::Done && (target is Some || content) {
        Some((false, "task "@ + id + " is done and cannot be modified; done is terminal"@))
    } else {
        match target {
            None => None,
            Some(t) => match transition {
                Err(m) => Some((true, m)),
                Ok(()) => if t == TaskStatus::InProgress && current != TaskStatus::InProgress
                    && trim(plan).len() == 0 {
                    Some(
                        (
                            false,
                            "task '"@ + id + "' requires a non-empty plan before entering in-progress"@,
                        ),
                    )
                } else if current == TaskStatus::InProgress && t == TaskStatus::Review && trim(
                    summary,
                ).len() == 0 {
                    Some(
                        (
                            false,
                            "task '"@ + id
                                + "' requires non-empty execution_summary before transitioning in-progress -> review"@,
                        ),
                    )
                } else {
                    None
                },
            },
        }
    }
}

fn message3(a: &str, b: &str, c: &str) -> (r: String)
    ensures
        r@ == a@ + b@ + c@,
{
    let mut m = copy_string(a);
    push_str(&mut m, b);
    push_str(&mut m, c);
    m
}

/// Checks an update of task `id` against its lifecycle; `transition` is
/// the lifecycle's verdict on the status change, `plan` and `summary` the
/// plan and execution summary the task will have.
pub fn check_task_update(
    id: &str,
    current: TaskStatus,
    target: Option<TaskStatus>,
    content: bool,
    transition: Result<(), String>,
    plan: &str,
    summary: &str,
) -> (r: Result<(), OrbitError>)
    ensures
        match update_refusal(
            id@,
            current,
            target,
            content,
            match transition {
                Ok(()) => Ok(()),
                Err(m) => Err(m@),
            },
            plan@,
            summary@,
        ) {
            None => r is Ok,
            Some((true, m)) => r matches Err(OrbitError::TaskStatusTransition(x)) && x@ == m,
            Some((false, m)) => r matches Err(OrbitError::InvalidInput(x)) && x@ == m,
        },
{
    let unarchiving = current == TaskStatus::Archived && target == Some(TaskStatus::Backlog)
        && !content;
    if current == TaskStatus::Archived && !unarchiving {
        return Err(
            OrbitError::InvalidInput(
                message3(
                    "task ",
                    id,
                    " is archived and cannot be modified; restore it to backlog first",
                ),
            ),
        );
    }
    if current == TaskStatus::Done && (target.is_some() || content) {
        return Err(
            OrbitError::InvalidInput(
                message3("task ", id, " is done and cannot be modified; done is terminal"),
            ),
        );
    }
    match target {
        None => Ok(()),
        Some(t) => {
            match transition {
                Err(m) => {
                    return Err(OrbitError::TaskStatusTransition(m));
                },
                Ok(()) => {},
            }
            let plan_blank = trimmed(plan).as_str().is_empty();
            if t == TaskStatus::InProgress && current != TaskStatus::InProgress && plan_blank {
                return Err(
                    OrbitError::InvalidInput(
                        message3(
                            "task '",
                            id,
                            "' requires a non-empty plan before entering in-progress",
                        ),
                    ),
                );
            }
            let summary_blank = trimmed(summary).as_str().is_empty();
            if current == TaskStatus::InProgress && t == TaskStatus::Review && summary_blank {
                return Err(
                    OrbitError::InvalidInput(
                        message3(
                            "task '",
                            id,
                            "' requires non-empty execution_summary before transitioning in-progress -> review",
                        ),
                    ),
                );
            }
            Ok(())
        },
    }
}

/// A done task can never be changed, and an archived one only restored.
pub proof fn law_done_is_terminal(
    id: Seq<char>,
    target: Option<TaskStatus>,
    content: bool,
    transition: Result<(), Seq<char>>,
    plan: Seq<char>,
    summary: Seq<char>,
)
    requires
        target is Some || content,
    ensures
        update_refusal(id, TaskStatus::Done, target, content, transition, plan, summary) is Some,
        target != Some(TaskStatus::Backlog) ==> update_refusal(
            id,
            TaskStatus::Archived,
            target,
            content,
            transition,
            plan,
            summary,
        ) is Some,
{
}

/// The plan or execution summary a task will have after an update: the
/// update's value when it sets one, else the stored one.
pub open spec fn merged_text(update: Option<Seq<char>>, stored: Seq<char>) -> Seq<char> {
    match update {
        Some(v) => v,
        None => stored,
    }
}

/// Checks an update of task `id` against its lifecycle, with the plan and
/// execution summary gates reading the update's values where it sets them
/// and the stored ones otherwise.
pub fn check_task_update_merged(
    id: &str,
    current: TaskStatus,
    target: Option<TaskStatus>,
    content: bool,
    transition: Result<(), String>,
    update_plan: Option<&str>,
    stored_plan: &str,
    update_summary: Option<&str>,
    stored_summary: &str,
) -> (r: Result<(), OrbitError>)
    ensures
        match update_refusal(
            id@,
            current,
            target,
            content,
            match transition {
                Ok(()) => Ok(()),
                Err(m) => Err(m@),
            },
            merged_text(opt_view(update_plan), stored_plan@),
            merged_text(opt_view(update_summary), stored_summary@),
        ) {
            None => r is Ok,
            Some((true, m)) => r matches Err(OrbitError::TaskStatusTransition(x)) && x@ == m,
            Some((false, m)) => r matches Err(OrbitError::InvalidInput(x)) && x@ == m,
        },
{
    let plan = text_or_current(update_plan, stored_plan);
    let summary = text_or_current(update_summary, stored_summary);
    check_task_update(id, current, target, content, transition, plan.as_str(), summary.as_str())
}

/// The text of a field the update may set, else the task's current value.
pub fn text_or_current(value: Option<&str>, current: &str) -> (r: String)
    ensures
        r@ == match value {
            Some(v) => v@,
            None => current@,
        },
{
    match value {
        Some(v) => copy_string(v),
        None => copy_string(current),
    }
}

/// A clearable text field: absent stays absent; a blank value clears it;
/// anything else is set, trimmed.
pub open spec fn clearable_spec(value: Option<Seq<char>>) -> Option<Option<Seq<char>>> {
    match value {
        None => None,
        Some(v) => if trim(v).len() == 0 {
            Some(None)
        } else {
            Some(Some(trim(v)))
        },
    }
}

pub open spec fn nested_view(v: Option<Option<String>>) -> Option<Option<Seq<char>>> {
    match v {
        None => None,
        Some(None) => Some(None),
        Some(Some(s)) => Some(Some(s@)),
    }
}

pub fn clearable(value: Option<&str>) -> (r: Option<Option<String>>)
    ensures
        nested_view(r) == clearable_spec(opt_view(value)),
{
    match value {
        None => None,
        Some(v) => {
            let t = trimmed(v);
            if t.as_str().is_empty() {
                Some(None)
            } else {
                Some(Some(t))
            }
        },
    }
}

/// The planner recorded by an update: the one given, else the actor when
/// the update sets a plan.
pub fn implied_planned_by(explicit: Option<Option<String>>, sets_plan: bool, actor: &str) -> (r:
    Option<Option<String>>)
    ensures
        explicit is Some ==> r == explicit,
        explicit is None ==> if sets_plan {
            r matches Some(Some(a)) && a@ == actor@
        } else {
            r is None
        },
{
    match explicit {
        Some(v) => Some(v),
        None => if sets_plan {
            Some(Some(copy_string(actor)))
        } else {
            None
        },
    }
}

/// The implementer recorded by an update: the one given, else the actor
/// when the update moves the task to review or done.
pub fn implied_implemented_by(
    explicit: Option<Option<String>>,
    target: Option<TaskStatus>,
    actor: &str,
) -> (r: Option<Option<String>>)
    ensures
        explicit is Some ==> r == explicit,
        explicit is None ==> if target == Some(TaskStatus::Review) || target == Some(
            TaskStatus::Done,
        ) {
            r matches Some(Some(a)) && a@ == actor@
        } else {
            r is None
        },
{
    match explicit {
        Some(v) => Some(v),
        None => match target {
            Some(TaskStatus::Review) | Some(TaskStatus::Done) => Some(Some(copy_string(actor))),
            _ => None,
        },
    }
}

/// Where `task start` or `task approve` moves a task, or why it cannot.
pub open spec fn transition_target_spec(id: Seq<char>, current: TaskStatus, start: bool, plan: Seq<char>) -> Result<
    TaskStatus,
    Seq<char>,
> {
    if start {
        if !(current == TaskStatus::Proposed || current == TaskStatus::Backlog || current
            == TaskStatus::Someday || current == TaskStatus::Blocked) {
            Err(
                "task '"@ + id + "' is in status '"@ + status_name_spec(current)
                    + "'; start requires proposed, backlog, someday, or blocked"@,
            )
        } else if trim(plan).len() == 0 {
            Err("task '"@ + id + "' requires a non-empty plan before entering in-progress"@)
        } else {
            Ok(TaskStatus::InProgress)
        }
    } else {
        match current {
            TaskStatus::Proposed => Ok(TaskStatus::Backlog),
            TaskStatus::Review => Ok(TaskStatus::Done),
            _ => Err(
                "task '"@ + id + "' is in status '"@ + status_name_spec(current)
                    + "'; approve requires proposed or review"@,
            ),
        }
    }
}

pub fn transition_target(id: &str, current: TaskStatus, start: bool, plan: &str) -> (r: Result<
    TaskStatus,
    OrbitError,
>)
    ensures
        match transition_target_spec(id@, current, start, plan@) {
            Ok(t) => r == Ok::<TaskStatus, OrbitError>(t),
            Err(m) => r matches Err(OrbitError::InvalidInput(x)) && x@ == m,
        },
{
    if start {
        if !(current == TaskStatus::Proposed || current == TaskStatus::Backlog || current
            == TaskStatus::Someday || current == TaskStatus::Blocked) {
            let mut m = message3("task '", id, "' is in status '");
            push_str(&mut m, status_name(current));
            push_str(&mut m, "'; start requires proposed, backlog, someday, or blocked");
            return Err(OrbitError::InvalidInput(m));
        }
        if trimmed(plan).as_str().is_empty() {
            return Err(
                OrbitError::InvalidInput(
                    message3("task '", id, "' requires a non-empty plan before entering in-progress"),
                ),
            );
        }
        Ok(TaskStatus::InProgress)
    } else {
        match current {
            TaskStatus::Proposed => Ok(TaskStatus::Backlog),
            TaskStatus::Review => Ok(TaskStatus::Done),
            _ => {
                let mut m = message3("task '", id, "' is in status '");
                push_str(&mut m, status_name(current));
                push_str(&mut m, "'; approve requires proposed or review");
                Err(OrbitError::InvalidInput(m))
            },
        }
    }
}

/// Start succeeds from every startable status (proposed, backlog, someday,
/// blocked) when the plan is not blank, and always lands in progress; from
/// any other status it is refused.
pub proof fn law_start_from_startable_statuses(id: Seq<char>, current: TaskStatus, plan: Seq<char>)
    ensures
        (current == TaskStatus::Proposed || current == TaskStatus::Backlog || current == TaskStatus::Someday
            || current == TaskStatus::Blocked) && trim(plan).len() > 0 ==> transition_target_spec(
            id,
            current,
            true,
            plan,
        ) == Ok::<TaskStatus, Seq<char>>(TaskStatus::InProgress),
        !(current == TaskStatus::Proposed || current == TaskStatus::Backlog || current
            == TaskStatus::Someday || current == TaskStatus::Blocked) ==> transition_target_spec(
            id,
            current,
            true,
            plan,
        ) is Err,
{
}

/// Starting and approving only move a task forward: start always lands in
/// progress, approve takes proposed to backlog and review to done.
pub proof fn law_transitions_move_forward(id: Seq<char>, current: TaskStatus, plan: Seq<char>)
    ensures
        transition_target_spec(id, current, true, plan) is Ok ==> transition_target_spec(
            id,
            current,
            true,
            plan,
        ) == Ok::<TaskStatus, Seq<char>>(TaskStatus::InProgress),
        transition_target_spec(id, current, false, plan) is Ok ==> (current == TaskStatus::Proposed
            && transition_target_spec(id, current, false, plan) == Ok::<TaskStatus, Seq<char>>(
            TaskStatus::Backlog,
        )) || (current == TaskStatus::Review && transition_target_spec(id, current, false, plan)
            == Ok::<TaskStatus, Seq<char>>(TaskStatus::Done)),
{
}

/// The update a start or approve issues: the id, the new status, the note
/// (else the comment) as a comment, and the crew when given.
pub fn transition_update(
    id: &str,
    target: TaskStatus,
    note: Option<&str>,
    comment: Option<&str>,
    crew: Option<&str>,
) -> (r: JsonValue)
    ensures
        crate::json::str_field(r, "id"@) == Some(id@),
        crate::json::str_field(r, "status"@) == Some(status_name_spec(target)),
        crate::json::str_field(r, "comment"@) == match note {
            Some(n) => Some(n@),
            None => opt_view(comment),
        },
        json_get(r, "comment"@) is Some <==> (note is Some || comment is Some),
        crate::json::str_field(r, "crew"@) == opt_view(crew),
        json_get(r, "crew"@) is Some <==> crew is Some,
{
    let mut fields: Vec<(String, JsonValue)> = Vec::new();
    fields.push((copy_string("id"), JsonValue::Str(copy_string(id))));
    fields.push((copy_string("status"), JsonValue::Str(copy_string(status_name(target)))));
    let chosen = match note {
        Some(n) => Some(n),
        None => comment,
    };
    match chosen {
        Some(c) => {
            fields.push((copy_string("comment"), JsonValue::Str(copy_string(c))));
        },
        None => {},
    }
    match crew {
        Some(c) => {
            fields.push((copy_string("crew"), JsonValue::Str(copy_string(c))));
        },
        None => {},
    }
    proof {
        reveal_strlit("id");
        reveal_strlit("status");
        reveal_strlit("comment");
        reveal_strlit("crew");
        let f = fields@;
        assert("id"@ != "status"@ && "id"@ != "comment"@ && "id"@ != "crew"@) by {
            assert("id"@.len() != "status"@.len());
            assert("id"@.len() != "comment"@.len());
            assert("id"@.len() != "crew"@.len());
        }
        assert("status"@ != "comment"@ && "status"@ != "crew"@ && "comment"@ != "crew"@) by {
            assert("status"@.len() != "comment"@.len());
            assert("status"@.len() != "crew"@.len());
            assert("comment"@.len() != "crew"@.len());
        }
        if chosen is Some {
            assert(f[2].0@ == "comment"@);
            if crew is Some {
                assert(f[3].0@ == "crew"@);
            }
        } else if crew is Some {
            assert(f[2].0@ == "crew"@);
        }
        assert(f[0].0@ == "id"@);
        assert(f[1].0@ == "status"@);
        assert(crate::json::field_from(f, "id"@, 0) == Some(f[0].1));
        assert(crate::json::field_from(f, "status"@, 1) == Some(f[1].1));
        assert(crate::json::field_from(f, "status"@, 0) == Some(f[1].1));
        if f.len() > 2 {
            assert(crate::json::field_from(f, "comment"@, 2) == Some(f[2].1) || crate::json::field_from(f, "comment"@, 2) == crate::json::field_from(f, "comment"@, 3));
        }
        if chosen is Some {
            assert(crate::json::field_from(f, "comment"@, 2) == Some(f[2].1));
            if crew is Some {
                assert(crate::json::field_from(f, "crew"@, 3) == Some(f[3].1));
                assert(crate::json::field_from(f, "crew"@, 2) == Some(f[3].1));
            } else {
                assert(crate::json::field_from(f, "crew"@, 3) is None);
                assert(crate::json::field_from(f, "crew"@, 2) is None);
            }
        } else {
            if crew is Some {
                assert(crate::json::field_from(f, "crew"@, 2) == Some(f[2].1));
                assert(crate::json::field_from(f, "comment"@, 3) is None);
                assert(crate::json::field_from(f, "comment"@, 2) is None);
            } else {
                assert(crate::json::field_from(f, "comment"@, 2) is None);
                assert(crate::json::field_from(f, "crew"@, 2) is None);
            }
        }
        assert(crate::json::field_from(f, "comment"@, 1) == crate::json::field_from(f, "comment"@, 2));
        assert(crate::json::field_from(f, "comment"@, 0) == crate::json::field_from(f, "comment"@, 2));
        assert(crate::json::field_from(f, "crew"@, 1) == crate::json::field_from(f, "crew"@, 2));
        assert(crate::json::field_from(f, "crew"@, 0) == crate::json::field_from(f, "crew"@, 2));
    }
    JsonValue::Object(fields)
}

/// `with_context` (else `withContext`, when the first is absent) is `true`.
pub open spec fn context_requested_spec(input: JsonValue) -> bool {
    let v = match json_get(input, "with_context"@) {
        Some(v) => Some(v),
        None => json_get(input, "withContext"@),
    };
    v == Some(JsonValue::Bool(true))
}

/// A show request that asks for local-derived context, which a checkoutless
/// executor cannot provide, is refused.
pub fn check_show_request(input: &JsonValue) -> (r: Result<(), OrbitError>)
    ensures
        context_requested_spec(*input) ==> (r matches Err(OrbitError::InvalidInput(m)) && m@
            == "checkoutless hub execution cannot provide `with_context` local-derived enrichment"@),
        !context_requested_spec(*input) ==> r is Ok,
{
    let v = match input.get("with_context") {
        Some(v) => Some(v),
        None => input.get("withContext"),
    };
    let requested = match v {
        Some(JsonValue::Bool(b)) => *b,
        _ => false,
    };
    if requested {
        Err(
            OrbitError::InvalidInput(
                copy_string(
                    "checkoutless hub execution cannot provide `with_context` local-derived enrichment",
                ),
            ),
        )
    } else {
        Ok(())
    }
}

/// The task fields a show request can select.
#[derive(Debug, Clone, Copy, PartialEq, Eq, Structural)]
pub enum ShowField {
    Comments,
    History,
    Artifacts,
    Plan,
    ExecutionSummary,
    Description,
    AcceptanceCriteria,
    Dependencies,
    ResolvedDependencies,
    Tags,
    ContextFiles,
}

pub open spec fn show_field_spec(name: Seq<char>) -> Option<ShowField> {
    if name == "comments"@ {
        Some(ShowField::Comments)
    } else if name == "history"@ {
        Some(ShowField::History)
    } else if name == "artifacts"@ {
        Some(ShowField::Artifacts)
    } else if name == "plan"@ {
        Some(ShowField::Plan)
    } else if name == "execution_summary"@ {
        Some(ShowField::ExecutionSummary)
    } else if name == "description"@ {
        Some(ShowField::Description)
    } else if name == "acceptance_criteria"@ {
        Some(ShowField::AcceptanceCriteria)
    } else if name == "dependencies"@ {
        Some(ShowField::Dependencies)
    } else if name == "resolved_dependencies"@ {
        Some(ShowField::ResolvedDependencies)
    } else if name == "tags"@ {
        Some(ShowField::Tags)
    } else if name == "context_files"@ {
        Some(ShowField::ContextFiles)
    } else {
        None
    }
}

/// The field a selector names, or the unknown-selector error.
pub fn parse_show_field(name: &str) -> (r: Result<ShowField, OrbitError>)
    ensures
        match show_field_spec(name@) {
            Some(f) => r == Ok::<ShowField, OrbitError>(f),
            None => r matches Err(OrbitError::InvalidInput(m)) && m@ == "unknown field selector `"@
                + name@ + "`"@,
        },
{
    if str_eq(name, "comments") {
        Ok(ShowField::Comments)
    } else if str_eq(name, "history") {
        Ok(ShowField::History)
    } else if str_eq(name, "artifacts") {
        Ok(ShowField::Artifacts)
    } else if str_eq(name, "plan") {
        Ok(ShowField::Plan)
    } else if str_eq(name, "execution_summary") {
        Ok(ShowField::ExecutionSummary)
    } else if str_eq(name, "description") {
        Ok(ShowField::Description)
    } else if str_eq(name, "acceptance_criteria") {
        Ok(ShowField::AcceptanceCriteria)
    } else if str_eq(name, "dependencies") {
        Ok(ShowField::Dependencies)
    } else if str_eq(name, "resolved_dependencies") {
        Ok(ShowField::ResolvedDependencies)
    } else if str_eq(name, "tags") {
        Ok(ShowField::Tags)
    } else if str_eq(name, "context_files") {
        Ok(ShowField::ContextFiles)
    } else {
        Err(OrbitError::InvalidInput(message3("unknown field selector `", name, "`")))
    }
}

/// The value last given for field `k` among the selected fields.
pub open spec fn last_selected(sel: Seq<(String, JsonValue)>, k: Seq<char>) -> Option<JsonValue>
    decreases sel.len(),
{
    if sel.len() == 0 {
        None
    } else if sel.last().0@ == k {
        Some(sel.last().1)
    } else {
        last_selected(sel.drop_last(), k)
    }
}

/// What a show request with field selectors answers, given each selected
/// field with its value: one field gives its bare value; any other number
/// gives an object keyed by exactly the selected fields.
pub fn shape_show_fields(selected: Vec<(String, JsonValue)>) -> (r: JsonValue)
    ensures
        selected@.len() == 1 ==> r == selected@[0].1,
        selected@.len() != 1 ==> (r is Object && forall|k: Seq<char>|
            json_get(r, k) == last_selected(selected@, k)),
{
    let ghost sel = selected@;
    let mut selected = selected;
    if selected.len() == 1 {
        let (_, v) = selected.remove(0);
        return v;
    }
    let mut out = JsonValue::Object(Vec::new());
    let n = selected.len();
    let mut i: usize = 0;
    while i < n
        invariant
            n == sel.len(),
            i <= n,
            selected@ == sel.subrange(i as int, n as int),
            out is Object,
            forall|k: Seq<char>| json_get(out, k) == last_selected(sel.subrange(0, i as int), k),
        decreases n - i,
    {
        let (name, value) = selected.remove(0);
        assert((name, value) == sel[i as int]);
        assert(selected@ =~= sel.subrange(i + 1, n as int));
        assert(sel.subrange(0, i + 1).drop_last() =~= sel.subrange(0, i as int));
        crate::audit::insert_field(&mut out, name.as_str(), value);
        i += 1;
    }
    assert(sel.subrange(0, n as int) =~= sel);
    out
}

/// Adding a friction record needs a model that is not blank; it is kept as
/// given.
pub fn friction_model(model: Option<&str>) -> (r: Result<String, OrbitError>)
    ensures
        match model {
            Some(m) => trim(m@).len() > 0 ==> (r matches Ok(x) && x@ == m@),
            None => true,
        },
        (model is None || trim(model->0@).len() == 0) ==> (r matches Err(OrbitError::InvalidInput(e))
            && e@ == "orbit.friction.add requires `model`"@),
{
    match model {
        Some(m) => {
            if !trimmed(m).as_str().is_empty() {
                return Ok(copy_string(m));
            }
        },
        None => {},
    }
    Err(OrbitError::InvalidInput(copy_string("orbit.friction.add requires `model`")))
}

/// A friction update must change its status, tags or body.
pub fn check_friction_update(has_status: bool, has_tags: bool, has_body: bool) -> (r: Result<
    (),
    OrbitError,
>)
    ensures
        (has_status || has_tags || has_body) ==> r is Ok,
        !(has_status || has_tags || has_body) ==> (r matches Err(OrbitError::InvalidInput(m)) && m@
            == "orbit.friction.update requires `status`, `tags`, or `body`"@),
{
    if !has_status && !has_tags && !has_body {
        Err(
            OrbitError::InvalidInput(
                copy_string("orbit.friction.update requires `status`, `tags`, or `body`"),
            ),
        )
    } else {
        Ok(())
    }
}

/// The run id a managed run context vouches for: only when the managed flag
/// is `1`, `true` or `TRUE` (trimmed), and the run id is not blank.
pub open spec fn trusted_run_id_spec(managed: Option<Seq<char>>, run_id: Option<Seq<char>>) -> Option<Seq<char>> {
    let flag = match managed {
        Some(m) => trim(m) == "1"@ || trim(m) == "true"@ || trim(m) == "TRUE"@,
        None => false,
    };
    if !flag {
        None
    } else {
        crate::text::non_blank(run_id)
    }
}

pub fn trusted_run_id(managed: Option<&str>, run_id: Option<&str>) -> (r: Option<String>)
    ensures
        match trusted_run_id_spec(opt_view(managed), opt_view(run_id)) {
            Some(id) => r matches Some(x) && x@ == id,
            None => r is None,
        },
{
    let flag = match managed {
        Some(m) => {
            let t = trimmed(m);
            str_eq(t.as_str(), "1") || str_eq(t.as_str(), "true") || str_eq(t.as_str(), "TRUE")
        },
        None => false,
    };
    if !flag {
        return None;
    }
    crate::text::non_blank_owned(run_id)
}

/// The logical workspace a managed child is bound to: its non-blank
/// workspace selector, honored only inside a trusted managed run context.
pub fn managed_workspace_selector(managed: Option<&str>, run_id: Option<&str>, workspace: Option<&str>) -> (r:
    Option<String>)
    ensures
        crate::text::opt_string_view(r) == if trusted_run_id_spec(opt_view(managed), opt_view(run_id)) is Some {
            crate::text::non_blank(opt_view(workspace))
        } else {
            None
        },
{
    match trusted_run_id(managed, run_id) {
        Some(_) => crate::text::non_blank_owned(workspace),
        None => None,
    }
}

/// What a listing reads of a task.
#[derive(Debug)]
pub struct TaskListRow {
    pub status: TaskStatus,
    pub task_type: String,
    /// The task carries every requested tag.
    pub matches_tags: bool,
    /// Every dependency of the task is done.
    pub dependencies_ready: bool,
}

/// The task passes the listing's filters.
pub open spec fn listed_row(
    row: TaskListRow,
    status: Option<TaskStatus>,
    task_type: Option<Seq<char>>,
    ready: Option<bool>,
) -> bool {
    &&& (status matches Some(s) ==> row.status == s)
    &&& (task_type matches Some(t) ==> row.task_type@ == t)
    &&& row.matches_tags
    &&& (ready == Some(true) ==> row.dependencies_ready)
}

/// The positions of the rows that pass the filters, in order, from `i` on.
pub open spec fn listed_from(
    rows: Seq<TaskListRow>,
    status: Option<TaskStatus>,
    task_type: Option<Seq<char>>,
    ready: Option<bool>,
    i: int,
) -> Seq<usize>
    decreases rows.len() - i,
{
    if i < 0 || i >= rows.len() {
        Seq::empty()
    } else if listed_row(rows[i], status, task_type, ready) {
        seq![i as usize] + listed_from(rows, status, task_type, ready, i + 1)
    } else {
        listed_from(rows, status, task_type, ready, i + 1)
    }
}

/// The positions of the first `limit` tasks, newest first as `rows` are,
/// that pass the status, type, tag and readiness filters.
pub fn select_listed_tasks(
    rows: &Vec<TaskListRow>,
    status: Option<TaskStatus>,
    task_type: Option<&str>,
    ready: Option<bool>,
    limit: usize,
) -> (r: Vec<usize>)
    requires
        rows.len() < usize::MAX,
    ensures
        ({
            let all = listed_from(rows@, status, opt_view(task_type), ready, 0);
            r@ == if all.len() <= limit {
                all
            } else {
                all.take(limit as int)
            }
        }),
{
    let ghost all = listed_from(rows@, status, opt_view(task_type), ready, 0);
    let mut r: Vec<usize> = Vec::new();
    let mut i: usize = 0;
    while i < rows.len() && r.len() < limit
        invariant
            i <= rows.len(),
            r.len() <= limit,
            all == listed_from(rows@, status, opt_view(task_type), ready, 0),
            r@ + listed_from(rows@, status, opt_view(task_type), ready, i as int) == all,
        decreases rows.len() - i,
    {
        let row = &rows[i];
        let pass_status = match status {
            Some(s) => row.status == s,
            None => true,
        };
        let pass_type = match task_type {
            Some(t) => str_eq(row.task_type.as_str(), t),
            None => true,
        };
        let pass_ready = match ready {
            Some(true) => row.dependencies_ready,
            _ => true,
        };
        if pass_status && pass_type && row.matches_tags && pass_ready {
            let ghost before = r@;
            let ghost rest = listed_from(rows@, status, opt_view(task_type), ready, i + 1);
            assert(listed_row(rows@[i as int], status, opt_view(task_type), ready));
            r.push(i);
            assert(before + (seq![i] + rest) =~= r@ + rest);
        } else {
            assert(!listed_row(rows@[i as int], status, opt_view(task_type), ready));
        }
        i += 1;
    }
    proof {
        let rest = listed_from(rows@, status, opt_view(task_type), ready, i as int);
        if r.len() < limit {
            assert(rest =~= Seq::<usize>::empty());
            assert(r@ =~= all);
        } else {
            assert(all.take(limit as int) =~= r@);
        }
    }
    r
}

/// A relation of a task as the completion side effect reads it: whether
/// it is a `resolves` relation, and whether its target is a well-formed
/// friction id.
#[derive(Debug, Clone)]
pub struct ResolvesLink {
    pub resolves: bool,
    pub target: String,
    pub target_is_friction: bool,
}

/// The frictions closed by `links`, in order.
pub open spec fn resolved_targets(links: Seq<ResolvesLink>) -> Seq<Seq<char>>
    decreases links.len(),
{
    if links.len() == 0 {
        Seq::empty()
    } else {
        let rest = resolved_targets(links.drop_last());
        let l = links.last();
        if l.resolves && l.target_is_friction {
            rest.push(l.target@)
        } else {
            rest
        }
    }
}

/// The frictions a task update closes: on entering `done` (and only then),
/// every friction the task `resolves`.
pub open spec fn frictions_closed_spec(before: TaskStatus, after: TaskStatus, links: Seq<ResolvesLink>) -> Seq<
    Seq<char>,
> {
    if after == TaskStatus::Done && before != TaskStatus::Done {
        resolved_targets(links)
    } else {
        Seq::empty()
    }
}

pub fn frictions_closed_by_update(before: TaskStatus, after: TaskStatus, links: &Vec<ResolvesLink>) -> (r: Vec<
    String,
>)
    ensures
        r@.map_values(|s: String| s@) == frictions_closed_spec(before, after, links@),
{
    let mut out: Vec<String> = Vec::new();
    if after != TaskStatus::Done || before == TaskStatus::Done {
        assert(out@.map_values(|s: String| s@) =~= Seq::<Seq<char>>::empty());
        return out;
    }
    let mut i: usize = 0;
    while i < links.len()
        invariant
            i <= links.len(),
            out@.map_values(|s: String| s@) == resolved_targets(links@.subrange(0, i as int)),
        decreases links.len() - i,
    {
        let ghost before_out = out@;
        assert(links@.subrange(0, i + 1).drop_last() =~= links@.subrange(0, i as int));
        if links[i].resolves && links[i].target_is_friction {
            out.push(copy_string(links[i].target.as_str()));
            assert(out@.map_values(|s: String| s@) =~= before_out.map_values(|s: String| s@).push(
                links@[i as int].target@,
            ));
        }
        i += 1;
    }
    assert(links@.subrange(0, links.len() as int) =~= links@);
    out
}

/// Completing a task closes its resolved frictions once: an update of a
/// task that was already done closes nothing.
pub proof fn law_frictions_close_only_on_completion(before: TaskStatus, after: TaskStatus, links: Seq<ResolvesLink>)
    ensures
        before == TaskStatus::Done ==> frictions_closed_spec(before, after, links).len() == 0,
        after != TaskStatus::Done ==> frictions_closed_spec(before, after, links).len() == 0,
{
}

/// The fields of an object without those named `path`, in order.
pub open spec fn without_path(f: Seq<(String, JsonValue)>) -> Seq<(String, JsonValue)>
    decreases f.len(),
{
    if f.len() == 0 {
        Seq::empty()
    } else {
        let rest = without_path(f.drop_last());
        if f.last().0@ == "path"@ {
            rest
        } else {
            rest.push(f.last())
        }
    }
}

/// `b` is `a` with the private `path` of every friction record removed: an
/// object loses its `path` fields, an array has each item stripped, and
/// anything else is kept.
pub open spec fn paths_stripped(a: JsonValue, b: JsonValue) -> bool
    decreases a,
{
    match a {
        JsonValue::Object(f) => b matches JsonValue::Object(g) && g@ == without_path(f@),
        JsonValue::Array(items) => b matches JsonValue::Array(out) && out@.len() == items@.len()
            && forall|k: int| 0 <= k < items@.len() ==> paths_stripped(#[trigger] items@[k], out@[k]),
        _ => b == a,
    }
}

/// A response with the private `path` of each friction record removed, as
/// the hub serves list and show results.
pub fn strip_private_friction_paths(value: JsonValue) -> (r: JsonValue)
    ensures
        paths_stripped(value, r),
    decreases value,
{
    let ghost whole = value;
    match value {
        JsonValue::Object(fields) => {
            let ghost f = fields@;
            let mut fields = fields;
            let mut out: Vec<(String, JsonValue)> = Vec::new();
            let mut i: usize = 0;
            let n = fields.len();
            while i < n
                invariant
                    n == f.len(),
                    i <= n,
                    fields@ == f.subrange(i as int, n as int),
                    out@ == without_path(f.subrange(0, i as int)),
                decreases n - i,
            {
                let entry = fields.remove(0);
                assert(entry == f[i as int]);
                assert(f.subrange(0, i + 1).drop_last() =~= f.subrange(0, i as int));
                assert(fields@ =~= f.subrange(i + 1, n as int));
                if !str_eq(entry.0.as_str(), "path") {
                    let ghost before = out@;
                    out.push(entry);
                    assert(out@ =~= before.push(f[i as int]));
                }
                i += 1;
            }
            assert(f.subrange(0, n as int) =~= f);
            JsonValue::Object(out)
        },
        JsonValue::Array(items) => {
            let ghost it = items@;
            let ghost v0 = items;
            assert(whole == JsonValue::Array(v0));
            let mut items = items;
            let mut out: Vec<JsonValue> = Vec::new();
            let mut i: usize = 0;
            let n = items.len();
            while i < n
                invariant
                    n == it.len(),
                    i <= n,
                    items@ == it.subrange(i as int, n as int),
                    whole == JsonValue::Array(v0),
                    whole == value,
                    v0@ == it,
                    out@.len() == i,
                    forall|k: int| 0 <= k < i ==> paths_stripped(#[trigger] it[k], out@[k]),
                decreases n - i,
            {
                let item = items.remove(0);
                assert(item == it[i as int]);
                assert(items@ =~= it.subrange(i + 1, n as int));
                assert(decreases_to!(whole => item)) by {
                    assert(whole->Array_0 == v0);
                    assert(decreases_to!(whole => whole->Array_0));
                    assert(decreases_to!(v0 => v0@));
                    assert(decreases_to!(v0@ => v0@[i as int]));
                }
                let stripped = strip_private_friction_paths(item);
                out.push(stripped);
                i += 1;
            }
            JsonValue::Array(out)
        },
        other => other,
    }
}

proof fn lemma_without_path(f: Seq<(String, JsonValue)>)
    ensures
        forall|j: int| 0 <= j < without_path(f).len() ==> (#[trigger] without_path(f)[j]).0@ != "path"@,
    decreases f.len(),
{
    if f.len() > 0 {
        lemma_without_path(f.drop_last());
        let rest = without_path(f.drop_last());
        if f.last().0@ != "path"@ {
            assert forall|j: int| 0 <= j < rest.push(f.last()).len() implies (#[trigger] rest.push(f.last())[j]).0@
                != "path"@ by {
                if j < rest.len() {
                    assert(rest.push(f.last())[j] == rest[j]);
                }
            }
        }
    }
}

proof fn lemma_no_field_found(f: Seq<(String, JsonValue)>, key: Seq<char>, i: int)
    requires
        forall|j: int| 0 <= j < f.len() ==> (#[trigger] f[j]).0@ != key,
    ensures
        crate::json::field_from(f, key, i) is None,
    decreases f.len() - i,
{
    if 0 <= i < f.len() {
        lemma_no_field_found(f, key, i + 1);
    }
}

/// What the hub serves of friction records carries no private `path`: a
/// stripped object has no field of that name, nor does any object item of
/// a stripped list.
pub proof fn law_stripped_responses_are_path_free(a: JsonValue, b: JsonValue)
    requires
        paths_stripped(a, b),
    ensures
        a is Object ==> b is Object && json_get(b, "path"@) is None,
        a is Array ==> (b matches JsonValue::Array(out) && forall|k: int|
            0 <= k < out@.len() && (#[trigger] out@[k]) is Object ==> json_get(out@[k], "path"@) is None),
{
    match a {
        JsonValue::Object(f) => {
            lemma_without_path(f@);
            let g = b->Object_0;
            lemma_no_field_found(g@, "path"@, 0);
        },
        JsonValue::Array(items) => {
            let out = b->Array_0;
            assert forall|k: int| 0 <= k < out@.len() && (#[trigger] out@[k]) is Object implies json_get(
                out@[k],
                "path"@,
            ) is None by {
                assert(paths_stripped(items@[k], out@[k]));
                if items@[k] is Object {
                    lemma_without_path(items@[k]->Object_0@);
                    lemma_no_field_found(out@[k]->Object_0@, "path"@, 0);
                }
            }
        },
        _ => {},
    }
}

/// A friction record as the tools answer it: the serialized record with
/// its file `path` and its effective `title` set (the title the record
/// states, else the one derived from its body).
pub fn friction_record_json(record: JsonValue, path: &str, title: String) -> (r: JsonValue)
    ensures
        match record {
            JsonValue::Object(_) => {
                &&& r is Object
                &&& json_get(r, "path"@) matches Some(JsonValue::Str(p)) && p@ == path@
                &&& json_get(r, "title"@) == Some(JsonValue::Str(title))
                &&& forall|k: Seq<char>| k != "path"@ && k != "title"@ ==> json_get(r, k) == json_get(record, k)
            },
            _ => r == record,
        },
{
    let mut value = record;
    let p = copy_string(path);
    proof {
        reveal_strlit("path");
        reveal_strlit("title");
        assert("path"@ != "title"@) by {
            assert("path"@[0] != "title"@[0]);
        }
    }
    crate::audit::insert_field(&mut value, "path", JsonValue::Str(p));
    crate::audit::insert_field(&mut value, "title", JsonValue::Str(title));
    value
}

/// The label an automation update's implementer is normalized from: the
/// task's existing implementer, else the first of the update's model, its
/// explicit attribution label, the runtime's model identity and the system
/// label.
pub open spec fn implementer_candidate_spec(
    existing: Option<Seq<char>>,
    model: Option<Seq<char>>,
    explicit_label: Option<Seq<char>>,
    runtime_identity: Option<Seq<char>>,
    system_label: Seq<char>,
) -> Seq<char> {
    match existing {
        Some(e) => e,
        None => match model {
            Some(m) => m,
            None => match explicit_label {
                Some(x) => x,
                None => match runtime_identity {
                    Some(r) => r,
                    None => system_label,
                },
            },
        },
    }
}

pub fn implementer_candidate(
    existing: Option<&str>,
    model: Option<&str>,
    explicit_label: Option<&str>,
    runtime_identity: Option<&str>,
    system_label: &str,
) -> (r: String)
    ensures
        r@ == implementer_candidate_spec(
            opt_view(existing),
            opt_view(model),
            opt_view(explicit_label),
            opt_view(runtime_identity),
            system_label@,
        ),
{
    let chosen = match existing {
        Some(e) => e,
        None => match model {
            Some(m) => m,
            None => match explicit_label {
                Some(x) => x,
                None => match runtime_identity {
                    Some(r) => r,
                    None => system_label,
                },
            },
        },
    };
    copy_string(chosen)
}

pub open spec fn friction_gate_message(task_id: Seq<char>, current: TaskStatus) -> Seq<char> {
    "status 'friction' can only be set at creation; task '"@ + task_id + "' is currently '"@
        + status_name_spec(current) + "'"@
}

/// Moving a task to `friction` after its creation.
pub open spec fn friction_gate(current: TaskStatus, target: Option<TaskStatus>) -> bool {
    target == Some(TaskStatus::Friction) && current != TaskStatus::Friction
}

/// Who is recorded as planner: the explicit attribution label, else the
/// runtime's model identity, else the system label.
pub open spec fn planner_label(explicit_label: Option<Seq<char>>, runtime_identity: Option<Seq<char>>, system_label: Seq<char>) -> Seq<char> {
    match explicit_label {
        Some(x) => x,
        None => match runtime_identity {
            Some(rt) => rt,
            None => system_label,
        },
    }
}

/// Only a move to review or done records an implementer.
pub open spec fn records_implementer(target: Option<TaskStatus>) -> bool {
    target == Some(TaskStatus::Review) || target == Some(TaskStatus::Done)
}

/// What an automation update of a task records, or why it is refused:
/// `friction` can only be set at creation; entering `in_progress` from a
/// status whose transition needs a plan (`plan_gate_applies`) is refused
/// with the task layer's plan check (`plan_check`) when that fails. The
/// planner is recorded exactly when the update sets a plan (its explicit
/// attribution label, else the runtime's model identity, else the system
/// label); the implementer (`implementer`, the normalized candidate) is
/// recorded only when the update moves the task to review or done.
pub fn automation_update_decision(
    task_id: &str,
    current: TaskStatus,
    target: Option<TaskStatus>,
    plan_gate_applies: bool,
    plan_check: Result<(), OrbitError>,
    sets_plan: bool,
    explicit_label: Option<&str>,
    runtime_identity: Option<&str>,
    system_label: &str,
    implementer: Option<String>,
) -> (r: Result<(Option<Option<String>>, Option<Option<String>>), OrbitError>)
    ensures
        friction_gate(current, target) ==> (r matches Err(OrbitError::InvalidInput(m)) && m@
            == friction_gate_message(task_id@, current)),
        !friction_gate(current, target) && target == Some(TaskStatus::InProgress) && plan_gate_applies
            && plan_check is Err ==> r == Err::<(Option<Option<String>>, Option<Option<String>>), OrbitError>(
            plan_check->Err_0,
        ),
        !friction_gate(current, target) && !(target == Some(TaskStatus::InProgress) && plan_gate_applies
            && plan_check is Err) ==> r is Ok,
        r matches Ok((planned_by, implemented_by)) ==> nested_view(planned_by) == (if sets_plan {
            Some(Some(planner_label(opt_view(explicit_label), opt_view(runtime_identity), system_label@)))
        } else {
            None
        }) && nested_view(implemented_by) == (if records_implementer(target) {
            match crate::text::opt_string_view(implementer) {
                Some(i) => Some(Some(i)),
                None => None,
            }
        } else {
            None
        }),
{
    if target == Some(TaskStatus::Friction) && current != TaskStatus::Friction {
        let mut m = copy_string("status 'friction' can only be set at creation; task '");
        push_str(&mut m, task_id);
        push_str(&mut m, "' is currently '");
        push_str(&mut m, status_name(current));
        push_str(&mut m, "'");
        return Err(OrbitError::InvalidInput(m));
    }
    if target == Some(TaskStatus::InProgress) && plan_gate_applies {
        match plan_check {
            Err(e) => {
                return Err(e);
            },
            Ok(()) => {},
        }
    }
    let planned_by = if sets_plan {
        let label = match explicit_label {
            Some(x) => x,
            None => match runtime_identity {
                Some(rt) => rt,
                None => system_label,
            },
        };
        Some(Some(copy_string(label)))
    } else {
        None
    };
    let implemented_by = if target == Some(TaskStatus::Review) || target == Some(TaskStatus::Done) {
        match implementer {
            Some(i) => Some(Some(i)),
            None => None,
        }
    } else {
        None
    };
    Ok((planned_by, implemented_by))
}

} // verus!
