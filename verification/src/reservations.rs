//! Stale reservation detection and the run-terminalization couplings.
use vstd::prelude::*;

use crate::locks::TaskStatus;
use crate::session_log::copy_strings;
use crate::text::{copy_string, opt_string_view, opt_view, push_str, str_eq, strings_view};

verus! {

/// The state of a job run.
#[derive(Debug, Clone, Copy, PartialEq, Eq, Structural)]
pub enum JobRunState {
    Pending,
    Running,
    Succeeded,
    Failed,
    Timeout,
    Cancelled,
    Interrupted,
}

pub open spec fn terminal(state: JobRunState) -> bool {
    !(state == JobRunState::Pending || state == JobRunState::Running)
}

impl JobRunState {
    /// Whether the run has finished, successfully or not.
    pub fn is_terminal(&self) -> (b: bool)
        ensures
            b == terminal(*self),
    {
        !(*self == JobRunState::Pending || *self == JobRunState::Running)
    }
}

/// Terminal states that strand a coupled task: failed, timed out, cancelled.
/// An interrupted run is resumable, so its tasks stay in progress.
pub open spec fn workflow_failure(state: JobRunState) -> bool {
    state == JobRunState::Failed || state == JobRunState::Timeout || state
        == JobRunState::Cancelled
}

pub fn is_workflow_failure_state(state: JobRunState) -> (b: bool)
    ensures
        b == workflow_failure(state),
        b == (state == JobRunState::Failed || state == JobRunState::Timeout || state
            == JobRunState::Cancelled),
{
    state == JobRunState::Failed || state == JobRunState::Timeout || state
        == JobRunState::Cancelled
}

/// Task statuses a failed run leaves alone: done, review, blocked,
/// rejected and archived.
pub open spec fn blockable(status: TaskStatus) -> bool {
    !(status == TaskStatus::Done || status == TaskStatus::Review || status == TaskStatus::Blocked
        || status == TaskStatus::Rejected || status == TaskStatus::Archived)
}

pub fn task_is_blockable_on_run_failure(status: TaskStatus) -> (b: bool)
    ensures
        b == blockable(status),
{
    !(status == TaskStatus::Done || status == TaskStatus::Review || status == TaskStatus::Blocked
        || status == TaskStatus::Rejected || status == TaskStatus::Archived)
}

/// The ids of the tasks coupled to a failed run that get blocked, in order.
pub open spec fn blocked_ids(coupled: Seq<(String, TaskStatus)>) -> Seq<Seq<char>>
    decreases coupled.len(),
{
    if coupled.len() == 0 {
        Seq::empty()
    } else {
        let rest = blocked_ids(coupled.drop_last());
        if blockable(coupled.last().1) {
            rest.push(coupled.last().0@)
        } else {
            rest
        }
    }
}

/// Which of the tasks coupled to a terminally failed run are moved to
/// `blocked`: every one not already done, in review, blocked, rejected or
/// archived.
pub fn tasks_to_block(coupled: &Vec<(String, TaskStatus)>) -> (r: Vec<String>)
    ensures
        strings_view(r@) == blocked_ids(coupled@),
{
    let mut out: Vec<String> = Vec::new();
    let mut i: usize = 0;
    while i < coupled.len()
        invariant
            i <= coupled.len(),
            strings_view(out@) == blocked_ids(coupled@.subrange(0, i as int)),
        decreases coupled.len() - i,
    {
        let ghost before = strings_view(out@);
        assert(coupled@.subrange(0, i + 1).drop_last() =~= coupled@.subrange(0, i as int));
        if task_is_blockable_on_run_failure(coupled[i].1) {
            out.push(copy_string(coupled[i].0.as_str()));
            assert(strings_view(out@) =~= before.push(coupled@[i as int].0@));
        }
        i += 1;
    }
    assert(coupled@.subrange(0, coupled.len() as int) =~= coupled@);
    out
}

/// What finalizing a run does besides recording its state.
#[derive(Debug, Clone, Copy, PartialEq, Eq, Structural)]
pub struct FinalizeActions {
    /// The run was already terminal in a different state: record the conflict.
    pub record_conflict: bool,
    /// The run is now terminal: release its task reservations.
    pub release_reservations: bool,
    /// This is the first terminalization, into a failure: block coupled tasks.
    pub block_coupled_tasks: bool,
}

/// Decides the side effects of finalizing a run into `state` when it was
/// in `prior` (`None` when the run is unknown).
pub fn finalize_actions(prior: Option<JobRunState>, state: JobRunState) -> (r: FinalizeActions)
    ensures
        r.record_conflict == (prior matches Some(p) && terminal(p) && p != state),
        r.release_reservations == terminal(state),
        r.block_coupled_tasks == (terminal(state) && !(prior matches Some(p) && terminal(p))
            && workflow_failure(state)),
        state == JobRunState::Interrupted ==> !r.block_coupled_tasks,
{
    let was_terminal_before = match prior {
        Some(p) => p.is_terminal(),
        None => false,
    };
    let record_conflict = match prior {
        Some(p) => p.is_terminal() && p != state,
        None => false,
    };
    let now_terminal = state.is_terminal();
    FinalizeActions {
        record_conflict,
        release_reservations: now_terminal,
        block_coupled_tasks: now_terminal && !was_terminal_before && is_workflow_failure_state(
            state,
        ),
    }
}

/// Finalizing blocks coupled tasks exactly on the first terminalization
/// into failed, timed out or cancelled; an interrupted run is resumable and
/// never blocks, nor does any non-failure state.
pub proof fn law_only_failures_block(prior: Option<JobRunState>, state: JobRunState)
    ensures
        (terminal(state) && !(prior matches Some(p) && terminal(p)) && workflow_failure(state)) <==> ((
        state == JobRunState::Failed || state == JobRunState::Timeout || state
            == JobRunState::Cancelled) && !(prior matches Some(p) && p != JobRunState::Pending && p
            != JobRunState::Running)),
        !(terminal(JobRunState::Interrupted) && workflow_failure(JobRunState::Interrupted)),
        !workflow_failure(JobRunState::Succeeded),
        terminal(JobRunState::Interrupted),
{
}

/// Replaying a terminalization never blocks tasks again.
pub proof fn law_finalize_replay_does_not_block(first: JobRunState, second: JobRunState)
    requires
        terminal(first),
    ensures
        !(terminal(second) && !(Some(first) matches Some(p) && terminal(p)) && workflow_failure(
            second,
        )),
{
}

/// One step of a run, as the failure note reads it.
#[derive(Debug, Clone)]
pub struct RunStep {
    pub error_code: Option<String>,
    pub error_message: Option<String>,
}

/// The index of the last step at or before `i - 1` that carries an error.
pub open spec fn last_errored(steps: Seq<RunStep>, i: int) -> Option<int>
    decreases i,
{
    if i <= 0 || i > steps.len() {
        None
    } else if steps[i - 1].error_code is Some || steps[i - 1].error_message is Some {
        Some(i - 1)
    } else {
        last_errored(steps, i - 1)
    }
}

/// `(error_code, error_message)` of the run's most recent errored step.
pub fn failed_run_error_context(steps: &Vec<RunStep>) -> (r: (Option<String>, Option<String>))
    ensures
        match last_errored(steps@, steps@.len() as int) {
            Some(k) => opt_string_view(r.0) == opt_string_view(steps@[k].error_code)
                && opt_string_view(r.1) == opt_string_view(steps@[k].error_message),
            None => r.0 is None && r.1 is None,
        },
{
    let mut i: usize = steps.len();
    while i > 0
        invariant
            i <= steps.len(),
            last_errored(steps@, i as int) == last_errored(steps@, steps@.len() as int),
        decreases i,
    {
        let step = &steps[i - 1];
        if step.error_code.is_some() || step.error_message.is_some() {
            let code = match &step.error_code {
                Some(c) => Some(copy_string(c.as_str())),
                None => None,
            };
            let message = match &step.error_message {
                Some(m) => Some(copy_string(m.as_str())),
                None => None,
            };
            return (code, message);
        }
        i -= 1;
    }
    (None, None)
}

/// What is known of a reservation's owner run.
#[derive(Debug, Clone)]
pub struct OwnerRunFacts {
    pub run_id: String,
    /// The run state's display text.
    pub state_label: String,
    pub terminal: bool,
    /// The orphan-run classifier names this run (running or pending).
    pub orphaned: bool,
}

/// An active reservation as the store reports it.
#[derive(Debug, Clone)]
pub struct ActiveTaskReservation {
    pub reservation_id: String,
    pub task_ids: Vec<String>,
    pub owner_run_id: Option<String>,
}

/// A task reservation that is provably no longer protecting live work.
#[derive(Debug, Clone, PartialEq, Eq)]
pub struct StaleTaskReservation {
    pub reservation_id: String,
    pub task_ids: Vec<String>,
    pub owner_run_id: Option<String>,
    pub reason: String,
}

/// The facts of the first run with id `id`.
pub open spec fn find_run(runs: Seq<OwnerRunFacts>, id: Seq<char>, i: int) -> Option<OwnerRunFacts>
    decreases runs.len() - i,
{
    if i < 0 || i >= runs.len() {
        None
    } else if runs[i].run_id@ == id {
        Some(runs[i])
    } else {
        find_run(runs, id, i + 1)
    }
}

/// The status of the first task with id `id`.
pub open spec fn find_status(statuses: Seq<(String, TaskStatus)>, id: Seq<char>, i: int) -> Option<
    TaskStatus,
>
    decreases statuses.len() - i,
{
    if i < 0 || i >= statuses.len() {
        None
    } else if statuses[i].0@ == id {
        Some(statuses[i].1)
    } else {
        find_status(statuses, id, i + 1)
    }
}

/// `parts.join(sep)`.
pub open spec fn joined(parts: Seq<Seq<char>>, sep: Seq<char>) -> Seq<char>
    decreases parts.len(),
{
    if parts.len() == 0 {
        Seq::empty()
    } else if parts.len() == 1 {
        parts[0]
    } else {
        joined(parts.drop_last(), sep) + sep + parts.last()
    }
}

/// Why a reservation is stale, or `None` when it may still protect work.
///
/// Owned: stale when the owner run is absent, terminal, or conclusively
/// orphaned. Unowned: stale only when it names tasks and every one is done.
pub open spec fn stale_reason(
    reservation_task_ids: Seq<Seq<char>>,
    owner_run_id: Option<Seq<char>>,
    runs: Seq<OwnerRunFacts>,
    statuses: Seq<(String, TaskStatus)>,
) -> Option<Seq<char>> {
    match owner_run_id {
        Some(id) => match find_run(runs, id, 0) {
            None => Some("owner run "@ + id + " is absent"@),
            Some(run) => if run.terminal {
                Some("owner run "@ + id + " is terminal ("@ + run.state_label@ + ")"@)
            } else if run.orphaned {
                Some("owner run "@ + id + " is conclusively orphaned ("@ + run.state_label@ + ")"@)
            } else {
                None
            },
        },
        None => if reservation_task_ids.len() == 0 {
            None
        } else if forall|k: int|
            0 <= k < reservation_task_ids.len() ==> find_status(
                statuses,
                #[trigger] reservation_task_ids[k],
                0,
            ) == Some(TaskStatus::Done) {
            Some(
                "unowned reservation references only terminal done task(s): "@ + joined(
                    reservation_task_ids,
                    ", "@,
                ),
            )
        } else {
            None
        },
    }
}

fn find_run_facts<'a>(runs: &'a Vec<OwnerRunFacts>, id: &str) -> (r: Option<&'a OwnerRunFacts>)
    ensures
        match find_run(runs@, id@, 0) {
            Some(f) => r is Some && *r->0 == f,
            None => r is None,
        },
{
    let mut i: usize = 0;
    while i < runs.len()
        invariant
            i <= runs.len(),
            find_run(runs@, id@, i as int) == find_run(runs@, id@, 0),
        decreases runs.len() - i,
    {
        if str_eq(runs[i].run_id.as_str(), id) {
            return Some(&runs[i]);
        }
        i += 1;
    }
    None
}

fn task_status_of(statuses: &Vec<(String, TaskStatus)>, id: &str) -> (r: Option<TaskStatus>)
    ensures
        r == find_status(statuses@, id@, 0),
{
    let mut i: usize = 0;
    while i < statuses.len()
        invariant
            i <= statuses.len(),
            find_status(statuses@, id@, i as int) == find_status(statuses@, id@, 0),
        decreases statuses.len() - i,
    {
        if str_eq(statuses[i].0.as_str(), id) {
            return Some(statuses[i].1);
        }
        i += 1;
    }
    None
}

fn join_strings(parts: &Vec<String>, sep: &str) -> (s: String)
    ensures
        s@ == joined(strings_view(parts@), sep@),
{
    let mut s = String::new();
    let mut i: usize = 0;
    while i < parts.len()
        invariant
            i <= parts.len(),
            s@ == joined(strings_view(parts@).subrange(0, i as int), sep@),
        decreases parts.len() - i,
    {
        let ghost prev = strings_view(parts@).subrange(0, i as int);
        let ghost next = strings_view(parts@).subrange(0, i + 1);
        assert(next.drop_last() =~= prev);
        if i > 0 {
            push_str(&mut s, sep);
        }
        push_str(&mut s, parts[i].as_str());
        proof {
            if i == 0 {
                assert(s@ =~= next[0]);
            }
        }
        i += 1;
    }
    assert(strings_view(parts@).subrange(0, parts.len() as int) =~= strings_view(parts@));
    s
}

fn owner_message(prefix: &str, id: &str, middle: &str, label: &str, suffix: &str) -> (m: String)
    ensures
        m@ == prefix@ + id@ + middle@ + label@ + suffix@,
{
    let mut m = String::new();
    push_str(&mut m, prefix);
    push_str(&mut m, id);
    push_str(&mut m, middle);
    push_str(&mut m, label);
    push_str(&mut m, suffix);
    m
}

/// Classifies one reservation, given the facts of the known runs and the
/// status of every task.
pub fn classify_stale_task_reservation(
    reservation: &ActiveTaskReservation,
    runs: &Vec<OwnerRunFacts>,
    statuses: &Vec<(String, TaskStatus)>,
) -> (r: Option<String>)
    ensures
        opt_string_view(r) == stale_reason(
            strings_view(reservation.task_ids@),
            opt_string_view(reservation.owner_run_id),
            runs@,
            statuses@,
        ),
{
    match &reservation.owner_run_id {
        Some(id) => {
            match find_run_facts(runs, id.as_str()) {
                None => {
                    let m = owner_message("owner run ", id.as_str(), " is absent", "", "");
                    assert(m@ =~= "owner run "@ + id@ + " is absent"@) by {
                        reveal_strlit("");
                    }
                    Some(m)
                },
                Some(run) => {
                    if run.terminal {
                        Some(
                            owner_message(
                                "owner run ",
                                id.as_str(),
                                " is terminal (",
                                run.state_label.as_str(),
                                ")",
                            ),
                        )
                    } else if run.orphaned {
                        Some(
                            owner_message(
                                "owner run ",
                                id.as_str(),
                                " is conclusively orphaned (",
                                run.state_label.as_str(),
                                ")",
                            ),
                        )
                    } else {
                        None
                    }
                },
            }
        },
        None => {
            let ids = &reservation.task_ids;
            if ids.len() == 0 {
                return None;
            }
            let ghost idv = strings_view(ids@);
            let mut i: usize = 0;
            while i < ids.len()
                invariant
                    i <= ids.len(),
                    ids.len() > 0,
                    reservation.owner_run_id is None,
                    *ids == reservation.task_ids,
                    idv == strings_view(ids@),
                    forall|k: int|
                        0 <= k < i ==> find_status(statuses@, #[trigger] idv[k], 0) == Some(
                            TaskStatus::Done,
                        ),
                decreases ids.len() - i,
            {
                let st = task_status_of(statuses, ids[i].as_str());
                assert(idv[i as int] == ids@[i as int]@);
                if st != Some(TaskStatus::Done) {
                    assert(find_status(statuses@, idv[i as int], 0) != Some(TaskStatus::Done));
                    return None;
                }
                i += 1;
            }
            let mut m = String::new();
            push_str(&mut m, "unowned reservation references only terminal done task(s): ");
            let j = join_strings(ids, ", ");
            push_str(&mut m, j.as_str());
            Some(m)
        },
    }
}

pub struct StaleTaskReservationView {
    pub reservation_id: Seq<char>,
    pub task_ids: Seq<Seq<char>>,
    pub owner_run_id: Option<Seq<char>>,
    pub reason: Seq<char>,
}

impl View for StaleTaskReservation {
    type V = StaleTaskReservationView;

    open spec fn view(&self) -> StaleTaskReservationView {
        StaleTaskReservationView {
            reservation_id: self.reservation_id@,
            task_ids: strings_view(self.task_ids@),
            owner_run_id: opt_string_view(self.owner_run_id),
            reason: self.reason@,
        }
    }
}

pub open spec fn stale_views(v: Seq<StaleTaskReservation>) -> Seq<StaleTaskReservationView> {
    v.map_values(|s: StaleTaskReservation| s@)
}

/// The stale reservations, in store order, each with its reason.
pub open spec fn stale_list(
    reservations: Seq<ActiveTaskReservation>,
    runs: Seq<OwnerRunFacts>,
    statuses: Seq<(String, TaskStatus)>,
) -> Seq<StaleTaskReservationView>
    decreases reservations.len(),
{
    if reservations.len() == 0 {
        Seq::empty()
    } else {
        let prev = stale_list(reservations.drop_last(), runs, statuses);
        let a = reservations.last();
        match stale_reason(
            strings_view(a.task_ids@),
            opt_string_view(a.owner_run_id),
            runs,
            statuses,
        ) {
            Some(reason) => prev.push(
                StaleTaskReservationView {
                    reservation_id: a.reservation_id@,
                    task_ids: strings_view(a.task_ids@),
                    owner_run_id: opt_string_view(a.owner_run_id),
                    reason,
                },
            ),
            None => prev,
        }
    }
}

/// The stale reservations among `reservations`, each with its reason.
pub fn list_stale_task_reservations(
    reservations: &Vec<ActiveTaskReservation>,
    runs: &Vec<OwnerRunFacts>,
    statuses: &Vec<(String, TaskStatus)>,
) -> (r: Vec<StaleTaskReservation>)
    ensures
        stale_views(r@) == stale_list(reservations@, runs@, statuses@),
{
    let mut out: Vec<StaleTaskReservation> = Vec::new();
    let mut i: usize = 0;
    while i < reservations.len()
        invariant
            i <= reservations.len(),
            stale_views(out@) == stale_list(reservations@.subrange(0, i as int), runs@, statuses@),
        decreases reservations.len() - i,
    {
        let a = &reservations[i];
        let ghost pre = reservations@.subrange(0, i as int);
        let ghost post = reservations@.subrange(0, i + 1);
        assert(post.drop_last() =~= pre);
        assert(post.last() == reservations@[i as int]);
        let ghost old_out = out@;
        match classify_stale_task_reservation(a, runs, statuses) {
            Some(reason) => {
                let entry = StaleTaskReservation {
                    reservation_id: copy_string(a.reservation_id.as_str()),
                    task_ids: copy_strings(&a.task_ids),
                    owner_run_id: match &a.owner_run_id {
                        Some(o) => Some(copy_string(o.as_str())),
                        None => None,
                    },
                    reason,
                };
                let ghost ev = entry@;
                out.push(entry);
                assert(stale_views(out@) =~= stale_views(old_out).push(ev));
            },
            None => {},
        }
        i += 1;
    }
    assert(reservations@.subrange(0, reservations.len() as int) =~= reservations@);
    out
}

/// Whether reconciling an owned reservation releases it: when its owner
/// run is absent or terminal, or when reconciling the live run found it stale.
pub fn owned_reservation_released(owner_run: Option<bool>, run_reconciled: bool) -> (b: bool)
    ensures
        b == match owner_run {
            None => true,
            Some(is_terminal) => is_terminal || run_reconciled,
        },
{
    match owner_run {
        None => true,
        Some(is_terminal) => is_terminal || run_reconciled,
    }
}

} // verus!
