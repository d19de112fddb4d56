//! Task reservation and file-lock rules.
use vstd::prelude::*;

use crate::error::OrbitError;
use crate::session_log::{Timestamp, timestamp_le, ts_le};
use crate::sorted::{insert_all, insert_unique, same_members, sorted_unique, strictly_sorted};
use crate::text::{
    copy_string, lemma_lex_transitive, lemma_lex_trichotomy, lex_lt, opt_string_view, push_str,
    starts_with, str_eq, str_lex_lt, str_starts_with, strings_view,
};

verus! {

/// The lifecycle status of a task.
#[derive(Debug, Clone, Copy, PartialEq, Eq, Structural)]
pub enum TaskStatus {
    Proposed,
    Backlog,
    InProgress,
    Review,
    Done,
    Blocked,
    Rejected,
    Archived,
    Someday,
    Friction,
}

/// Order of held tasks when listing locks: in-progress first, then review.
pub open spec fn status_rank(status: TaskStatus) -> u8 {
    match status {
        TaskStatus::InProgress => 0,
        TaskStatus::Review => 1,
        _ => 2,
    }
}

pub fn task_lock_status_rank(status: TaskStatus) -> (r: u8)
    ensures
        r == status_rank(status),
{
    match status {
        TaskStatus::InProgress => 0,
        TaskStatus::Review => 1,
        _ => 2,
    }
}

/// Whether a task holds its lock surface: only active work does.
pub open spec fn holds_locks(status: TaskStatus) -> bool {
    status == TaskStatus::InProgress || status == TaskStatus::Review
}

pub fn task_holds_locks(status: TaskStatus) -> (b: bool)
    ensures
        b == holds_locks(status),
        b == (status == TaskStatus::InProgress || status == TaskStatus::Review),
{
    status == TaskStatus::InProgress || status == TaskStatus::Review
}

pub open spec fn reservation_prefix() -> Seq<char> {
    "reservation-"@
}

pub open spec fn bad_reservation_id_message(id: Seq<char>) -> Seq<char> {
    "`reservation_id` must have the form `reservation-<id>` (see `orbit task locks list --json`); got `"@
        + id + "`, which does not look like a reservation id"@
}

/// Reservation ids are minted as `reservation-<nanos>`; anything else can
/// never name a stored reservation and is refused up front.
pub fn validate_reservation_id_form(reservation_id: &str) -> (r: Result<(), OrbitError>)
    ensures
        starts_with(reservation_id@, reservation_prefix()) ==> r is Ok,
        !starts_with(reservation_id@, reservation_prefix()) ==> (r matches Err(
            OrbitError::InvalidInput(m),
        ) && m@ == bad_reservation_id_message(reservation_id@)),
{
    if str_starts_with(reservation_id, "reservation-") {
        return Ok(());
    }
    let mut m = String::new();
    push_str(
        &mut m,
        "`reservation_id` must have the form `reservation-<id>` (see `orbit task locks list --json`); got `",
    );
    push_str(&mut m, reservation_id);
    push_str(&mut m, "`, which does not look like a reservation id");
    Err(OrbitError::InvalidInput(m))
}

/// The reservation lifetime: 1800 seconds unless given, and within 1..=7200.
pub fn reservation_ttl_seconds(requested: Option<u32>) -> (r: Result<u32, OrbitError>)
    ensures
        ({
            let ttl = match requested {
                Some(t) => t,
                None => 1800u32,
            };
            if 1 <= ttl && ttl <= 7200 {
                r == Ok::<u32, OrbitError>(ttl)
            } else {
                r matches Err(OrbitError::InvalidInput(m)) && m@
                    == "`ttl_seconds` must be between 1 and 7200 seconds"@
            }
        }),
{
    let ttl = match requested {
        Some(t) => t,
        None => 1800,
    };
    if 1 <= ttl && ttl <= 7200 {
        Ok(ttl)
    } else {
        Err(OrbitError::InvalidInput(copy_string("`ttl_seconds` must be between 1 and 7200 seconds")))
    }
}

/// The distinct task ids of a reservation request, in increasing order.
pub fn parse_task_id_list(task_ids: Vec<String>) -> (r: Result<Vec<String>, OrbitError>)
    ensures
        task_ids@.len() == 0 ==> (r matches Err(OrbitError::InvalidInput(m)) && m@
            == "`task_ids` must contain at least one task ID"@),
        task_ids@.len() > 0 ==> {
            &&& r is Ok
            &&& strictly_sorted(strings_view(r->Ok_0@))
            &&& same_members(strings_view(r->Ok_0@), strings_view(task_ids@))
        },
{
    let deduped = sorted_unique(&task_ids);
    if deduped.len() == 0 {
        proof {
            if task_ids@.len() > 0 {
                assert(strings_view(task_ids@)[0] == task_ids@[0]@);
                assert(strings_view(task_ids@).contains(task_ids@[0]@));
            }
        }
        return Err(
            OrbitError::InvalidInput(copy_string("`task_ids` must contain at least one task ID")),
        );
    }
    proof {
        assert(strings_view(deduped@)[0] == deduped@[0]@);
        assert(strings_view(deduped@).contains(deduped@[0]@));
    }
    Ok(deduped)
}

/// The kind of a parsed selector.
#[derive(Debug, Clone, Copy, PartialEq, Eq, Structural)]
pub enum SelectorKind {
    File,
    Dir,
    Symbol,
    Module,
    Command,
}

/// One `files` entry after selector parsing: its kind and canonical text,
/// or the parse error's text.
#[derive(Debug, Clone)]
pub enum ParsedSelector {
    Parsed { kind: SelectorKind, canonical: String },
    Invalid { error: String },
}

pub open spec fn selector_parse_message(error: Seq<char>) -> Seq<char> {
    "`files` entries must be canonical file or directory selectors using `file:` or `dir:`: "@
        + error
}

pub open spec fn unsupported_selector_message() -> Seq<char> {
    "`files` entries must be canonical file or directory selectors using `file:` or `dir:`; `symbol:`, `module:`, and `command:` selectors are not supported for task locks"@
}

pub open spec fn empty_files_message() -> Seq<char> {
    "`files` must contain at least one file or directory selector using `file:` or `dir:`"@
}

pub open spec fn is_lockable(p: ParsedSelector) -> bool {
    p matches ParsedSelector::Parsed { kind, .. } && (kind == SelectorKind::File || kind
        == SelectorKind::Dir)
}

pub open spec fn lockable_text(p: ParsedSelector) -> Seq<char> {
    match p {
        ParsedSelector::Parsed { canonical, .. } => canonical@,
        _ => Seq::empty(),
    }
}

/// The first entry that is not a file or directory selector, if any.
pub open spec fn first_rejected(entries: Seq<ParsedSelector>, i: int) -> Option<int>
    decreases entries.len() - i,
{
    if i < 0 || i >= entries.len() {
        None
    } else if !is_lockable(entries[i]) {
        Some(i)
    } else {
        first_rejected(entries, i + 1)
    }
}

/// What parsing the `files` entries gives: the first entry that is not a
/// `file:` or `dir:` selector is refused with its reason; an empty list is
/// refused; otherwise the canonical texts come back distinct and ordered.
pub open spec fn file_selectors_outcome(files: Seq<ParsedSelector>, r: Result<Vec<String>, OrbitError>) -> bool {
    match first_rejected(files, 0) {
        Some(i) => match files[i] {
            ParsedSelector::Invalid { error } => r matches Err(OrbitError::InvalidInput(m))
                && m@ == selector_parse_message(error@),
            _ => r matches Err(OrbitError::InvalidInput(m)) && m@
                == unsupported_selector_message(),
        },
        None => if files.len() == 0 {
            r matches Err(OrbitError::InvalidInput(m)) && m@ == empty_files_message()
        } else {
            &&& r is Ok
            &&& strictly_sorted(strings_view(r->Ok_0@))
            &&& forall|x: Seq<char>|
                strings_view(r->Ok_0@).contains(x) <==> exists|k: int|
                    0 <= k < files.len() && lockable_text(#[trigger] files[k]) == x
        },
    }
}

/// The file-lock selectors of a request: every entry must be a `file:` or
/// `dir:` selector; the canonical texts come back distinct and ordered.
pub fn parse_file_lock_selectors(files: &Vec<ParsedSelector>) -> (r: Result<Vec<String>, OrbitError>)
    ensures
        file_selectors_outcome(files@, r),
{
    let mut out: Vec<String> = Vec::new();
    let mut i: usize = 0;
    while i < files.len()
        invariant
            i <= files.len(),
            first_rejected(files@, i as int) == first_rejected(files@, 0),
            strictly_sorted(strings_view(out@)),
            forall|x: Seq<char>|
                strings_view(out@).contains(x) <==> exists|k: int|
                    0 <= k < i && lockable_text(#[trigger] files@[k]) == x,
            forall|k: int| 0 <= k < i ==> is_lockable(#[trigger] files@[k]),
        decreases files.len() - i,
    {
        match &files[i] {
            ParsedSelector::Invalid { error } => {
                let mut m = String::new();
                push_str(
                    &mut m,
                    "`files` entries must be canonical file or directory selectors using `file:` or `dir:`: ",
                );
                push_str(&mut m, error.as_str());
                return Err(OrbitError::InvalidInput(m));
            },
            ParsedSelector::Parsed { kind, canonical } => {
                if *kind != SelectorKind::File && *kind != SelectorKind::Dir {
                    return Err(OrbitError::InvalidInput(copy_string(
                        "`files` entries must be canonical file or directory selectors using `file:` or `dir:`; `symbol:`, `module:`, and `command:` selectors are not supported for task locks",
                    )));
                }
                let ghost before = strings_view(out@);
                insert_unique(&mut out, copy_string(canonical.as_str()));
                proof {
                    assert forall|x: Seq<char>| strings_view(out@).contains(x) <==> exists|k: int|
                        0 <= k < i + 1 && lockable_text(#[trigger] files@[k]) == x by {
                        if x == canonical@ {
                            assert(lockable_text(files@[i as int]) == x);
                        }
                        if exists|k: int| 0 <= k < i + 1 && lockable_text(#[trigger] files@[k]) == x {
                            let k = choose|k: int| 0 <= k < i + 1 && lockable_text(#[trigger] files@[k]) == x;
                            if k < i {
                            }
                        }
                    }
                }
            },
        }
        i += 1;
    }
    assert(first_rejected(files@, i as int) is None);
    if out.len() == 0 {
        proof {
            if files@.len() > 0 {
                assert(lockable_text(files@[0]) == lockable_text(files@[0]));
                assert(strings_view(out@).contains(lockable_text(files@[0])));
            }
        }
        return Err(OrbitError::InvalidInput(copy_string(
            "`files` must contain at least one file or directory selector using `file:` or `dir:`",
        )));
    }
    assert(strings_view(out@)[0] == out@[0]@);
    assert(strings_view(out@).contains(out@[0]@));
    Ok(out)
}

/// What a reservation request names: tasks, or files directly.
#[derive(Debug, Clone)]
pub enum TaskLockReservationScope {
    TaskIds(Vec<String>),
    Files(Vec<String>),
}

/// Exactly one of `task_ids` and `files` must be given.
pub fn parse_task_lock_reservation_scope(
    task_ids: Option<Vec<String>>,
    files: Option<Vec<ParsedSelector>>,
) -> (r: Result<TaskLockReservationScope, OrbitError>)
    ensures
        task_ids is Some == files is Some ==> (r matches Err(OrbitError::InvalidInput(m)) && m@
            == "exactly one of 'task_ids' or 'files' must be provided"@),
        task_ids is Some && files is None ==> match r {
            Ok(TaskLockReservationScope::TaskIds(ids)) => task_ids->0@.len() > 0 && strictly_sorted(
                strings_view(ids@),
            ) && same_members(strings_view(ids@), strings_view(task_ids->0@)),
            Ok(_) => false,
            Err(OrbitError::InvalidInput(m)) => task_ids->0@.len() == 0 && m@
                == "`task_ids` must contain at least one task ID"@,
            Err(_) => false,
        },
        task_ids is None && files is Some ==> match r {
            Ok(TaskLockReservationScope::Files(v)) => file_selectors_outcome(files->0@, Ok(v)),
            Ok(_) => false,
            Err(e) => file_selectors_outcome(files->0@, Err(e)),
        },
{
    match (task_ids, files) {
        (Some(ids), None) => match parse_task_id_list(ids) {
            Ok(v) => Ok(TaskLockReservationScope::TaskIds(v)),
            Err(e) => Err(e),
        },
        (None, Some(files)) => match parse_file_lock_selectors(&files) {
            Ok(v) => Ok(TaskLockReservationScope::Files(v)),
            Err(e) => Err(e),
        },
        _ => Err(
            OrbitError::InvalidInput(
                copy_string("exactly one of 'task_ids' or 'files' must be provided"),
            ),
        ),
    }
}

/// The first task id of a bundle, used to attribute audit events.
pub fn first_task_id(task_ids: &Vec<String>) -> (r: Option<String>)
    ensures
        opt_string_view(r) == if task_ids@.len() > 0 {
            Some(task_ids@[0]@)
        } else {
            None::<Seq<char>>
        },
{
    if task_ids.len() > 0 {
        Some(copy_string(task_ids[0].as_str()))
    } else {
        None
    }
}

/// What holds a conflicting file.
#[derive(Debug, Clone, Copy, PartialEq, Eq, Structural)]
pub enum TaskLockHolder {
    Task,
    Reservation,
}

pub open spec fn holder_rank(h: TaskLockHolder) -> int {
    match h {
        TaskLockHolder::Task => 0,
        TaskLockHolder::Reservation => 1,
    }
}

/// A requested file that an active task or reservation already holds.
#[derive(Debug, Clone)]
pub struct TaskLockConflict {
    pub file: String,
    pub held_by: TaskLockHolder,
    pub held_by_id: String,
}

pub struct TaskLockConflictView {
    pub file: Seq<char>,
    pub held_by: TaskLockHolder,
    pub held_by_id: Seq<char>,
}

impl View for TaskLockConflict {
    type V = TaskLockConflictView;

    open spec fn view(&self) -> TaskLockConflictView {
        TaskLockConflictView { file: self.file@, held_by: self.held_by, held_by_id: self.held_by_id@ }
    }
}

pub open spec fn conflicts_view(v: Seq<TaskLockConflict>) -> Seq<TaskLockConflictView> {
    v.map_values(|c: TaskLockConflict| c@)
}

/// Conflict order: by file, tasks before reservations, then by holder id.
pub open spec fn conflict_lt(a: TaskLockConflictView, b: TaskLockConflictView) -> bool {
    ||| lex_lt(a.file, b.file)
    ||| (a.file == b.file && holder_rank(a.held_by) < holder_rank(b.held_by))
    ||| (a.file == b.file && a.held_by == b.held_by && lex_lt(a.held_by_id, b.held_by_id))
}

proof fn lemma_conflict_trichotomy(a: TaskLockConflictView, b: TaskLockConflictView)
    ensures
        conflict_lt(a, b) || a == b || conflict_lt(b, a),
        !(conflict_lt(a, b) && conflict_lt(b, a)),
        conflict_lt(a, b) ==> a != b,
{
    lemma_lex_trichotomy(a.file, b.file);
    lemma_lex_trichotomy(a.held_by_id, b.held_by_id);
}

proof fn lemma_conflict_transitive(
    a: TaskLockConflictView,
    b: TaskLockConflictView,
    c: TaskLockConflictView,
)
    requires
        conflict_lt(a, b),
        conflict_lt(b, c),
    ensures
        conflict_lt(a, c),
{
    lemma_lex_trichotomy(a.file, b.file);
    lemma_lex_trichotomy(b.file, c.file);
    if lex_lt(a.file, b.file) && lex_lt(b.file, c.file) {
        lemma_lex_transitive(a.file, b.file, c.file);
    }
    if a.file == b.file && b.file == c.file && a.held_by == b.held_by && b.held_by == c.held_by {
        lemma_lex_transitive(a.held_by_id, b.held_by_id, c.held_by_id);
    }
}

/// Strictly increasing in conflict order, hence free of duplicates.
pub open spec fn conflicts_sorted(s: Seq<TaskLockConflictView>) -> bool {
    forall|i: int, j: int| 0 <= i < j < s.len() ==> conflict_lt(#[trigger] s[i], #[trigger] s[j])
}

fn conflict_less(a: &TaskLockConflict, b: &TaskLockConflict) -> (r: bool)
    ensures
        r == conflict_lt(a@, b@),
{
    if str_lex_lt(a.file.as_str(), b.file.as_str()) {
        return true;
    }
    if !str_eq(a.file.as_str(), b.file.as_str()) {
        return false;
    }
    let ra: u8 = match a.held_by {
        TaskLockHolder::Task => 0,
        TaskLockHolder::Reservation => 1,
    };
    let rb: u8 = match b.held_by {
        TaskLockHolder::Task => 0,
        TaskLockHolder::Reservation => 1,
    };
    if ra < rb {
        return true;
    }
    a.held_by == b.held_by && str_lex_lt(a.held_by_id.as_str(), b.held_by_id.as_str())
}

fn conflict_same(a: &TaskLockConflict, b: &TaskLockConflict) -> (r: bool)
    ensures
        r == (a@ == b@),
{
    str_eq(a.file.as_str(), b.file.as_str()) && a.held_by == b.held_by && str_eq(
        a.held_by_id.as_str(),
        b.held_by_id.as_str(),
    )
}

#[verifier::spinoff_prover]
#[verifier::rlimit(40)]
fn insert_conflict(out: &mut Vec<TaskLockConflict>, x: TaskLockConflict)
    requires
        conflicts_sorted(conflicts_view(old(out)@)),
    ensures
        conflicts_sorted(conflicts_view(final(out)@)),
        forall|y: TaskLockConflictView|
            conflicts_view(final(out)@).contains(y) <==> (conflicts_view(old(out)@).contains(y)
                || y == x@),
{
    let ghost s = conflicts_view(out@);
    let mut k: usize = 0;
    while k < out.len() && conflict_less(&out[k], &x)
        invariant
            k <= out.len(),
            s == conflicts_view(out@),
            forall|i: int| 0 <= i < k ==> conflict_lt(#[trigger] s[i], x@),
        decreases out.len() - k,
    {
        k += 1;
    }
    if k < out.len() && conflict_same(&out[k], &x) {
        assert(s[k as int] == x@);
        return;
    }
    proof {
        if k < out.len() {
            lemma_conflict_trichotomy(s[k as int], x@);
        }
    }
    let ghost xv = x@;
    out.insert(k, x);
    let ghost t = conflicts_view(out@);
    assert(t =~= s.insert(k as int, xv));
    proof {
        s.insert_ensures(k as int, xv);
        assert forall|i: int, j: int| 0 <= i < j < t.len() implies conflict_lt(
            #[trigger] t[i],
            #[trigger] t[j],
        ) by {
            if j < k {
                assert(t[i] == s[i] && t[j] == s[j]);
            } else if j == k {
                assert(t[i] == s[i]);
            } else if i < k {
                assert(t[i] == s[i] && t[j] == s[j - 1]);
                if j - 1 > k {
                    lemma_conflict_transitive(xv, s[k as int], s[j - 1]);
                }
                lemma_conflict_transitive(s[i], xv, s[j - 1]);
            } else if i == k {
                assert(t[j] == s[j - 1]);
                if j - 1 > k {
                    lemma_conflict_transitive(xv, s[k as int], s[j - 1]);
                }
            } else {
                assert(t[i] == s[i - 1]);
                assert(t[j] == s[j - 1]);
            }
        }
        assert forall|y: TaskLockConflictView| t.contains(y) <==> (s.contains(y) || y == xv) by {
            if t.contains(y) {
                let i = choose|i: int| 0 <= i < t.len() && t[i] == y;
                if i < k {
                    assert(s[i] == y);
                } else if i > k {
                    assert(s[i - 1] == y);
                }
            }
            if s.contains(y) {
                let i = choose|i: int| 0 <= i < s.len() && s[i] == y;
                if i < k {
                    assert(t[i] == y);
                } else {
                    assert(t[i + 1] == y);
                }
            }
            if y == xv {
                assert(t[k as int] == y);
            }
        }
    }
}

fn copy_conflict(c: &TaskLockConflict) -> (r: TaskLockConflict)
    ensures
        r@ == c@,
{
    TaskLockConflict {
        file: copy_string(c.file.as_str()),
        held_by: c.held_by,
        held_by_id: copy_string(c.held_by_id.as_str()),
    }
}

/// Both conflict lists merged: ordered by file, tasks before reservations,
/// then holder id, with duplicates removed.
pub fn merge_task_lock_conflicts(left: Vec<TaskLockConflict>, right: Vec<TaskLockConflict>) -> (r:
    Vec<TaskLockConflict>)
    ensures
        conflicts_sorted(conflicts_view(r@)),
        forall|y: TaskLockConflictView|
            conflicts_view(r@).contains(y) <==> (conflicts_view(left@).contains(y)
                || conflicts_view(right@).contains(y)),
{
    let mut out: Vec<TaskLockConflict> = Vec::new();
    let mut i: usize = 0;
    while i < left.len()
        invariant
            i <= left.len(),
            conflicts_sorted(conflicts_view(out@)),
            forall|y: TaskLockConflictView|
                conflicts_view(out@).contains(y) <==> conflicts_view(
                    left@.subrange(0, i as int),
                ).contains(y),
        decreases left.len() - i,
    {
        insert_conflict(&mut out, copy_conflict(&left[i]));
        proof {
            assert(conflicts_view(left@)[i as int] == left@[i as int]@);
            lemma_prefix_members(conflicts_view(left@), i as int);
            assert(conflicts_view(left@.subrange(0, i + 1)) =~= conflicts_view(left@).subrange(0, i + 1));
            assert(conflicts_view(left@.subrange(0, i as int)) =~= conflicts_view(left@).subrange(0, i as int));
        }
        i += 1;
    }
    assert(left@.subrange(0, left.len() as int) =~= left@);
    let mut j: usize = 0;
    while j < right.len()
        invariant
            j <= right.len(),
            conflicts_sorted(conflicts_view(out@)),
            forall|y: TaskLockConflictView|
                conflicts_view(out@).contains(y) <==> (conflicts_view(left@).contains(y)
                    || conflicts_view(right@.subrange(0, j as int)).contains(y)),
        decreases right.len() - j,
    {
        insert_conflict(&mut out, copy_conflict(&right[j]));
        proof {
            assert(conflicts_view(right@)[j as int] == right@[j as int]@);
            lemma_prefix_members(conflicts_view(right@), j as int);
            assert(conflicts_view(right@.subrange(0, j + 1)) =~= conflicts_view(right@).subrange(0, j + 1));
            assert(conflicts_view(right@.subrange(0, j as int)) =~= conflicts_view(right@).subrange(0, j as int));
        }
        j += 1;
    }
    assert(right@.subrange(0, right.len() as int) =~= right@);
    out
}

proof fn lemma_prefix_members<A>(s: Seq<A>, i: int)
    requires
        0 <= i < s.len(),
    ensures
        forall|y: A| s.subrange(0, i + 1).contains(y) <==> (s.subrange(0, i).contains(y) || y
            == s[i]),
{
    assert forall|y: A| s.subrange(0, i + 1).contains(y) <==> (s.subrange(0, i).contains(y) || y
        == s[i]) by {
        if s.subrange(0, i + 1).contains(y) {
            let t = s.subrange(0, i + 1);
            let k = choose|k: int| 0 <= k < t.len() && #[trigger] t[k] == y;
            if k < i {
                assert(s.subrange(0, i)[k] == y);
            }
        }
        if s.subrange(0, i).contains(y) {
            let t = s.subrange(0, i);
            let k = choose|k: int| 0 <= k < t.len() && #[trigger] t[k] == y;
            assert(s.subrange(0, i + 1)[k] == y);
        }
        if y == s[i] {
            assert(s.subrange(0, i + 1)[i] == y);
        }
    }
}

/// A task as lock-surface expansion reads it.
#[derive(Debug, Clone)]
pub struct LockTask {
    pub id: String,
    pub parent_id: Option<String>,
    pub tags: Vec<String>,
    pub status: TaskStatus,
    pub created_at: Timestamp,
    pub context_files: Vec<String>,
}

/// The first task of `tasks` at or after `i` whose id is `id`.
pub open spec fn find_task(tasks: Seq<LockTask>, id: Seq<char>, i: int) -> Option<LockTask>
    decreases tasks.len() - i,
{
    if i < 0 || i >= tasks.len() {
        None
    } else if tasks[i].id@ == id {
        Some(tasks[i])
    } else {
        find_task(tasks, id, i + 1)
    }
}

pub open spec fn is_epic(task: LockTask) -> bool {
    strings_view(task.tags@).contains("epic"@)
}

/// Whether walking up from `next` reaches `ancestor` within `hops` parent
/// links, stopping at a missing parent or a repeated id.
pub open spec fn reaches(
    tasks: Seq<LockTask>,
    next: Option<Seq<char>>,
    ancestor: Seq<char>,
    visited: Seq<Seq<char>>,
    hops: nat,
) -> bool
    decreases hops,
{
    if hops == 0 {
        false
    } else {
        match next {
            None => false,
            Some(p) => if p == ancestor {
                true
            } else if visited.contains(p) {
                false
            } else {
                match find_task(tasks, p, 0) {
                    None => false,
                    Some(parent) => reaches(
                        tasks,
                        opt_string_view(parent.parent_id),
                        ancestor,
                        visited.push(p),
                        (hops - 1) as nat,
                    ),
                }
            },
        }
    }
}

/// The parent-chain hop limit.
pub open spec fn max_hops() -> nat {
    32
}

/// `task` sits below `ancestor_id` on its parent chain (at most 32 links,
/// never through a cycle).
pub open spec fn is_descendant(tasks: Seq<LockTask>, task: LockTask, ancestor: Seq<char>) -> bool {
    reaches(tasks, opt_string_view(task.parent_id), ancestor, seq![task.id@], max_hops())
}

fn lookup_task<'a>(tasks: &'a Vec<LockTask>, id: &str) -> (r: Option<&'a LockTask>)
    ensures
        match find_task(tasks@, id@, 0) {
            Some(t) => r is Some && *r->0 == t,
            None => r is None,
        },
{
    let mut i: usize = 0;
    while i < tasks.len()
        invariant
            i <= tasks.len(),
            find_task(tasks@, id@, i as int) == find_task(tasks@, id@, 0),
        decreases tasks.len() - i,
    {
        if str_eq(tasks[i].id.as_str(), id) {
            return Some(&tasks[i]);
        }
        i += 1;
    }
    None
}

fn contains_string(v: &Vec<String>, x: &str) -> (b: bool)
    ensures
        b == strings_view(v@).contains(x@),
{
    let mut i: usize = 0;
    while i < v.len()
        invariant
            i <= v.len(),
            forall|k: int| 0 <= k < i ==> v@[k]@ != x@,
        decreases v.len() - i,
    {
        if str_eq(v[i].as_str(), x) {
            assert(strings_view(v@)[i as int] == x@);
            return true;
        }
        i += 1;
    }
    assert forall|k: int| 0 <= k < strings_view(v@).len() implies strings_view(v@)[k] != x@ by {
        assert(strings_view(v@)[k] == v@[k]@);
    }
    false
}

fn copy_opt(v: &Option<String>) -> (r: Option<String>)
    ensures
        opt_string_view(r) == opt_string_view(*v),
{
    match v {
        Some(s) => Some(copy_string(s.as_str())),
        None => None,
    }
}

/// Whether `task` is a descendant of `ancestor_id` in `tasks`.
pub fn task_is_descendant_of(task: &LockTask, ancestor_id: &str, tasks: &Vec<LockTask>) -> (b: bool)
    ensures
        b == is_descendant(tasks@, *task, ancestor_id@),
{
    let mut visited: Vec<String> = Vec::new();
    visited.push(copy_string(task.id.as_str()));
    assert(strings_view(visited@) =~= seq![task.id@]);
    let mut next = copy_opt(&task.parent_id);
    let mut hops: u32 = 32;
    while hops > 0
        invariant
            hops <= 32,
            reaches(tasks@, opt_string_view(next), ancestor_id@, strings_view(visited@), hops as nat)
                == is_descendant(tasks@, *task, ancestor_id@),
        decreases hops,
    {
        let parent_id = match next {
            None => {
                return false;
            },
            Some(p) => p,
        };
        if str_eq(parent_id.as_str(), ancestor_id) {
            return true;
        }
        if contains_string(&visited, parent_id.as_str()) {
            return false;
        }
        let parent = match lookup_task(tasks, parent_id.as_str()) {
            None => {
                return false;
            },
            Some(t) => t,
        };
        let ghost old_seq = strings_view(visited@);
        let ghost pv = parent_id@;
        visited.push(parent_id);
        assert(strings_view(visited@) =~= old_seq.push(pv));
        next = copy_opt(&parent.parent_id);
        hops -= 1;
    }
    false
}

/// Whether `task` carries the `epic` tag.
pub fn task_is_epic(task: &LockTask) -> (b: bool)
    ensures
        b == is_epic(*task),
{
    contains_string(&task.tags, "epic")
}

/// `x` lies in the lock surface of `task`: one of its own files, or, for
/// an epic, one of a descendant's files.
pub open spec fn in_lock_surface(tasks: Seq<LockTask>, task: LockTask, x: Seq<char>) -> bool {
    ||| strings_view(task.context_files@).contains(x)
    ||| (is_epic(task) && exists|k: int|
        0 <= k < tasks.len() && is_descendant(tasks, tasks[k], task.id@) && strings_view(
            (#[trigger] tasks[k]).context_files@,
        ).contains(x))
}

/// The effective lock surface of one task, distinct and ordered: an active
/// epic root owns the union of every descendant's files as well as its own.
pub fn lock_context_files_for_task(task: &LockTask, tasks: &Vec<LockTask>) -> (r: Vec<String>)
    ensures
        strictly_sorted(strings_view(r@)),
        forall|x: Seq<char>| #![trigger strings_view(r@).contains(x)]
            strings_view(r@).contains(x) <==> in_lock_surface(tasks@, *task, x),
{
    let mut files: Vec<String> = Vec::new();
    insert_all(&mut files, &task.context_files);
    if task_is_epic(task) {
        let mut i: usize = 0;
        while i < tasks.len()
            invariant
                i <= tasks.len(),
                is_epic(*task),
                strictly_sorted(strings_view(files@)),
                forall|x: Seq<char>| #![trigger strings_view(files@).contains(x)]
                    strings_view(files@).contains(x) <==> (strings_view(task.context_files@).contains(x)
                        || exists|k: int|
                        0 <= k < i && is_descendant(tasks@, tasks@[k], task.id@) && strings_view(
                            (#[trigger] tasks@[k]).context_files@,
                        ).contains(x)),
            decreases tasks.len() - i,
        {
            let ghost before = strings_view(files@);
            let below = task_is_descendant_of(&tasks[i], task.id.as_str(), tasks);
            if below {
                insert_all(&mut files, &tasks[i].context_files);
            }
            proof {
                assert forall|x: Seq<char>| #![trigger strings_view(files@).contains(x)]
                    strings_view(files@).contains(x) <==> (strings_view(task.context_files@).contains(x)
                        || exists|k: int|
                        0 <= k < i + 1 && is_descendant(tasks@, tasks@[k], task.id@) && strings_view(
                            (#[trigger] tasks@[k]).context_files@,
                        ).contains(x)) by {
                    if exists|k: int|
                        0 <= k < i + 1 && is_descendant(tasks@, tasks@[k], task.id@) && strings_view(
                            (#[trigger] tasks@[k]).context_files@,
                        ).contains(x) {
                        let k = choose|k: int|
                            0 <= k < i + 1 && is_descendant(tasks@, tasks@[k], task.id@) && strings_view(
                                (#[trigger] tasks@[k]).context_files@,
                            ).contains(x);
                        if k < i {
                            assert(before.contains(x));
                        }
                    }
                }
            }
            i += 1;
        }
    }
    files
}

/// Lock-holder order: in-progress before review, then oldest first, then
/// by id.
pub open spec fn holder_key_lt(a: LockTask, b: LockTask) -> bool {
    ||| status_rank(a.status) < status_rank(b.status)
    ||| (status_rank(a.status) == status_rank(b.status) && !ts_le(b.created_at, a.created_at))
    ||| (status_rank(a.status) == status_rank(b.status) && a.created_at == b.created_at && lex_lt(
        a.id@,
        b.id@,
    ))
}

pub open spec fn same_holder_key(a: LockTask, b: LockTask) -> bool {
    status_rank(a.status) == status_rank(b.status) && a.created_at == b.created_at && a.id@ == b.id@
}

/// Position `i` of `tasks` comes before position `j` in holder order; equal
/// keys keep their input order (the sort is stable).
pub open spec fn holder_before(tasks: Seq<LockTask>, i: int, j: int) -> bool {
    holder_key_lt(tasks[i], tasks[j]) || (same_holder_key(tasks[i], tasks[j]) && i < j)
}

/// A task that holds its lock surface and is not one of `exclude`.
pub open spec fn is_holder(tasks: Seq<LockTask>, exclude: Seq<Seq<char>>, i: int) -> bool {
    0 <= i < tasks.len() && holds_locks(tasks[i].status) && !exclude.contains(tasks[i].id@)
}

proof fn lemma_holder_key_total(a: LockTask, b: LockTask)
    ensures
        holder_key_lt(a, b) || same_holder_key(a, b) || holder_key_lt(b, a),
        !(holder_key_lt(a, b) && holder_key_lt(b, a)),
        !(holder_key_lt(a, b) && same_holder_key(a, b)),
{
    lemma_lex_trichotomy(a.id@, b.id@);
}

proof fn lemma_holder_key_transitive(a: LockTask, b: LockTask, c: LockTask)
    requires
        holder_key_lt(a, b) || same_holder_key(a, b),
        holder_key_lt(b, c) || same_holder_key(b, c),
        holder_key_lt(a, b) || holder_key_lt(b, c),
    ensures
        holder_key_lt(a, c),
{
    if status_rank(a.status) == status_rank(b.status) && status_rank(b.status) == status_rank(c.status)
        && a.created_at == b.created_at && b.created_at == c.created_at && lex_lt(a.id@, b.id@) && lex_lt(
        b.id@,
        c.id@,
    ) {
        lemma_lex_transitive(a.id@, b.id@, c.id@);
    }
}

proof fn lemma_holder_before_transitive(tasks: Seq<LockTask>, i: int, j: int, k: int)
    requires
        holder_before(tasks, i, j),
        holder_before(tasks, j, k),
    ensures
        holder_before(tasks, i, k),
{
    if !(same_holder_key(tasks[i], tasks[j]) && same_holder_key(tasks[j], tasks[k])) {
        lemma_holder_key_transitive(tasks[i], tasks[j], tasks[k]);
    }
}

fn holder_key_less(a: &LockTask, b: &LockTask) -> (r: bool)
    ensures
        r == holder_key_lt(*a, *b),
{
    let ra = task_lock_status_rank(a.status);
    let rb = task_lock_status_rank(b.status);
    if ra != rb {
        return ra < rb;
    }
    if !timestamp_le(b.created_at, a.created_at) {
        return true;
    }
    a.created_at == b.created_at && str_lex_lt(a.id.as_str(), b.id.as_str())
}

/// The positions of the tasks that hold locks, less those in `exclude`, in
/// holder order (a stable sort by status rank, creation time and id).
pub fn lock_holders(tasks: &Vec<LockTask>, exclude: &Vec<String>) -> (r: Vec<usize>)
    ensures
        forall|a: int| 0 <= a < r.len() ==> is_holder(tasks@, strings_view(exclude@), #[trigger] r@[a] as int),
        forall|i: int| is_holder(tasks@, strings_view(exclude@), i) ==> r@.contains(i as usize),
        forall|a: int, b: int|
            0 <= a < b < r.len() ==> holder_before(tasks@, #[trigger] r@[a] as int, #[trigger] r@[b] as int),
        forall|a: int|
            0 <= a < r.len() ==> (tasks@[#[trigger] r@[a] as int].status == TaskStatus::InProgress
                || tasks@[r@[a] as int].status == TaskStatus::Review),
{
    let ghost t = tasks@;
    let ghost ex = strings_view(exclude@);
    let mut out: Vec<usize> = Vec::new();
    let mut i: usize = 0;
    while i < tasks.len()
        invariant
            i <= tasks.len(),
            t == tasks@,
            ex == strings_view(exclude@),
            forall|a: int| 0 <= a < out.len() ==> is_holder(t, ex, #[trigger] out@[a] as int) && out@[a] < i,
            forall|m: int| 0 <= m < i && is_holder(t, ex, m) ==> out@.contains(m as usize),
            forall|a: int, b: int|
                0 <= a < b < out.len() ==> holder_before(t, #[trigger] out@[a] as int, #[trigger] out@[b] as int),
        decreases tasks.len() - i,
    {
        if task_holds_locks(tasks[i].status) && !contains_string(exclude, tasks[i].id.as_str()) {
            let mut k: usize = 0;
            while k < out.len() && !holder_key_less(&tasks[i], &tasks[out[k]])
                invariant
                    k <= out.len(),
                    i < tasks.len(),
                    t == tasks@,
                    forall|a: int| 0 <= a < out.len() ==> is_holder(t, ex, #[trigger] out@[a] as int) && out@[a] < i,
                    forall|a: int| 0 <= a < k ==> holder_before(t, #[trigger] out@[a] as int, i as int),
                decreases out.len() - k,
            {
                proof {
                    lemma_holder_key_total(t[i as int], t[out@[k as int] as int]);
                }
                k += 1;
            }
            let ghost before = out@;
            out.insert(k, i);
            proof {
                let s = out@;
                assert(s =~= before.insert(k as int, i));
                assert forall|a: int, b: int| 0 <= a < b < s.len() implies holder_before(
                    t,
                    #[trigger] s[a] as int,
                    #[trigger] s[b] as int,
                ) by {
                    if b < k {
                        assert(s[a] == before[a] && s[b] == before[b]);
                    } else if b == k {
                        assert(s[a] == before[a]);
                    } else if a < k {
                        assert(s[a] == before[a] && s[b] == before[b - 1]);
                        assert(holder_before(t, i as int, before[k as int] as int));
                        if b - 1 > k {
                            lemma_holder_before_transitive(t, i as int, before[k as int] as int, before[b - 1] as int);
                        }
                        lemma_holder_before_transitive(t, before[a] as int, i as int, before[b - 1] as int);
                    } else if a == k {
                        assert(s[b] == before[b - 1]);
                        assert(holder_before(t, i as int, before[k as int] as int));
                        if b - 1 > k {
                            lemma_holder_before_transitive(t, i as int, before[k as int] as int, before[b - 1] as int);
                        }
                    } else {
                        assert(s[a] == before[a - 1] && s[b] == before[b - 1]);
                    }
                }
                assert forall|m: int| 0 <= m < i + 1 && is_holder(t, ex, m) implies s.contains(m as usize) by {
                    if m == i {
                        assert(s[k as int] == i);
                    } else {
                        let a = choose|a: int| 0 <= a < before.len() && before[a] == m as usize;
                        if a < k {
                            assert(s[a] == before[a]);
                        } else {
                            assert(s[a + 1] == before[a]);
                        }
                    }
                }
            }
        }
        i += 1;
    }
    out
}

/// Every file locked by a holder's surface or an active reservation,
/// distinct and ordered.
pub fn locked_files(surfaces: &Vec<Vec<String>>, reservation_files: &Vec<Vec<String>>) -> (r: Vec<String>)
    ensures
        strictly_sorted(strings_view(r@)),
        forall|x: Seq<char>| #![trigger strings_view(r@).contains(x)]
            strings_view(r@).contains(x) <==> (exists|k: int|
                0 <= k < surfaces.len() && strings_view((#[trigger] surfaces@[k])@).contains(x))
                || (exists|k: int|
                0 <= k < reservation_files.len() && strings_view(
                    (#[trigger] reservation_files@[k])@,
                ).contains(x)),
{
    let mut out: Vec<String> = Vec::new();
    let mut i: usize = 0;
    while i < surfaces.len()
        invariant
            i <= surfaces.len(),
            strictly_sorted(strings_view(out@)),
            forall|x: Seq<char>| #![trigger strings_view(out@).contains(x)]
                strings_view(out@).contains(x) <==> exists|k: int|
                    0 <= k < i && strings_view((#[trigger] surfaces@[k])@).contains(x),
        decreases surfaces.len() - i,
    {
        let ghost before = strings_view(out@);
        insert_all(&mut out, &surfaces[i]);
        proof {
            assert forall|x: Seq<char>| #![trigger strings_view(out@).contains(x)]
                strings_view(out@).contains(x) <==> exists|k: int|
                    0 <= k < i + 1 && strings_view((#[trigger] surfaces@[k])@).contains(x) by {
                if exists|k: int| 0 <= k < i + 1 && strings_view((#[trigger] surfaces@[k])@).contains(x) {
                    let k = choose|k: int| 0 <= k < i + 1 && strings_view((#[trigger] surfaces@[k])@).contains(x);
                    if k < i {
                        assert(before.contains(x));
                    }
                }
            }
        }
        i += 1;
    }
    let mut j: usize = 0;
    while j < reservation_files.len()
        invariant
            j <= reservation_files.len(),
            strictly_sorted(strings_view(out@)),
            forall|x: Seq<char>| #![trigger strings_view(out@).contains(x)]
                strings_view(out@).contains(x) <==> (exists|k: int|
                    0 <= k < surfaces.len() && strings_view((#[trigger] surfaces@[k])@).contains(x))
                    || (exists|k: int|
                    0 <= k < j && strings_view((#[trigger] reservation_files@[k])@).contains(x)),
        decreases reservation_files.len() - j,
    {
        let ghost before = strings_view(out@);
        insert_all(&mut out, &reservation_files[j]);
        proof {
            assert forall|x: Seq<char>| #![trigger strings_view(out@).contains(x)]
                strings_view(out@).contains(x) <==> (exists|k: int|
                    0 <= k < surfaces.len() && strings_view((#[trigger] surfaces@[k])@).contains(x))
                    || (exists|k: int|
                    0 <= k < j + 1 && strings_view((#[trigger] reservation_files@[k])@).contains(x)) by {
                if exists|k: int| 0 <= k < j + 1 && strings_view((#[trigger] reservation_files@[k])@).contains(x) {
                    let k = choose|k: int| 0 <= k < j + 1 && strings_view((#[trigger] reservation_files@[k])@).contains(x);
                    if k < j {
                        assert(before.contains(x));
                    }
                }
            }
        }
        j += 1;
    }
    out
}

/// What the reservation store answered to a reserve or conflict check.
#[derive(Debug)]
pub struct ReserveResult {
    pub reserved: bool,
    pub reservation_id: Option<String>,
    pub expires_at: Option<String>,
    pub reserved_files: Vec<String>,
    pub conflicts: Vec<TaskLockConflict>,
}

/// The answer to a reservation request.
#[derive(Debug)]
pub enum ReserveResponse {
    Granted { reservation_id: String, expires_at: Option<String>, reserved_files: Vec<String> },
    Denied { conflicts: Vec<TaskLockConflict> },
}

/// Whether the reservation store is asked to reserve: only when no active
/// task outside the bundle holds a requested file. Otherwise the store is
/// only asked for its own conflicts, and the request is denied.
pub fn ask_store_to_reserve(prior: &Vec<TaskLockConflict>) -> (b: bool)
    ensures
        b == (prior@.len() == 0),
{
    prior.len() == 0
}

/// The answer to a reservation request, given the task-held conflicts found
/// first (`prior`) and the store's result. Any task-held conflict, or a store
/// that did not reserve, denies the request with every conflict, ordered and
/// distinct; otherwise the grant must carry its reservation id.
pub fn reserve_response(prior: Vec<TaskLockConflict>, result: ReserveResult) -> (r: Result<
    ReserveResponse,
    OrbitError,
>)
    ensures
        (prior@.len() > 0 || !result.reserved) ==> (r matches Ok(ReserveResponse::Denied { conflicts })
            && conflicts_sorted(conflicts_view(conflicts@)) && forall|y: TaskLockConflictView|
            conflicts_view(conflicts@).contains(y) <==> (conflicts_view(prior@).contains(y)
                || conflicts_view(result.conflicts@).contains(y))),
        prior@.len() == 0 && result.reserved && result.reservation_id is None ==> (r matches Err(
            OrbitError::Execution(m),
        ) && m@ == "reservation grant is missing reservation_id"@),
        prior@.len() == 0 && result.reserved && result.reservation_id is Some ==> (r matches Ok(
            ReserveResponse::Granted { reservation_id, expires_at, reserved_files },
        ) && reservation_id@ == result.reservation_id->0@ && opt_string_view(expires_at)
            == opt_string_view(result.expires_at) && strings_view(reserved_files@) == strings_view(
            result.reserved_files@,
        )),
{
    let ReserveResult { reserved, reservation_id, expires_at, reserved_files, conflicts } = result;
    if prior.len() > 0 || !reserved {
        let merged = merge_task_lock_conflicts(prior, conflicts);
        return Ok(ReserveResponse::Denied { conflicts: merged });
    }
    match reservation_id {
        Some(id) => Ok(ReserveResponse::Granted { reservation_id: id, expires_at, reserved_files }),
        None => Err(OrbitError::Execution(copy_string("reservation grant is missing reservation_id"))),
    }
}

/// The requested files found to overlap the lock surface of `tasks[i]`
/// (none past the end of `overlapping`).
pub open spec fn overlapping_files(overlapping: Seq<Vec<String>>, i: int) -> Seq<Seq<char>> {
    if 0 <= i < overlapping.len() {
        strings_view(overlapping[i]@)
    } else {
        Seq::empty()
    }
}

/// `y` is a conflict with an active task: a requested file that overlaps
/// the surface of a lock holder outside the bundle.
pub open spec fn task_conflict(
    tasks: Seq<LockTask>,
    bundle: Seq<Seq<char>>,
    requested: Seq<Seq<char>>,
    overlapping: Seq<Vec<String>>,
    y: TaskLockConflictView,
) -> bool {
    &&& y.held_by == TaskLockHolder::Task
    &&& requested.contains(y.file)
    &&& exists|i: int|
        is_holder(tasks, bundle, i) && #[trigger] tasks[i].id@ == y.held_by_id && overlapping_files(
            overlapping,
            i,
        ).contains(y.file)
}

/// The requested files that active tasks outside the bundle already hold,
/// ordered by file and then task id. `overlapping[i]` lists the requested
/// files that overlap the lock surface of `tasks[i]`, as the workspace's
/// path-overlap rule judges them.
pub fn task_lock_conflicts(
    tasks: &Vec<LockTask>,
    bundle_task_ids: &Vec<String>,
    requested_files: &Vec<String>,
    overlapping: &Vec<Vec<String>>,
) -> (r: Vec<TaskLockConflict>)
    ensures
        conflicts_sorted(conflicts_view(r@)),
        forall|y: TaskLockConflictView|
            conflicts_view(r@).contains(y) <==> task_conflict(
                tasks@,
                strings_view(bundle_task_ids@),
                strings_view(requested_files@),
                overlapping@,
                y,
            ),
{
    let ghost bundle = strings_view(bundle_task_ids@);
    let ghost requested = strings_view(requested_files@);
    let mut out: Vec<TaskLockConflict> = Vec::new();
    let mut i: usize = 0;
    while i < tasks.len()
        invariant
            i <= tasks.len(),
            bundle == strings_view(bundle_task_ids@),
            requested == strings_view(requested_files@),
            conflicts_sorted(conflicts_view(out@)),
            forall|y: TaskLockConflictView|
                conflicts_view(out@).contains(y) <==> (y.held_by == TaskLockHolder::Task
                    && requested.contains(y.file) && exists|k: int|
                    0 <= k < i && is_holder(tasks@, bundle, k) && #[trigger] tasks@[k].id@
                        == y.held_by_id && overlapping_files(overlapping@, k).contains(y.file)),
        decreases tasks.len() - i,
    {
        if i < overlapping.len() && task_holds_locks(tasks[i].status) && !contains_string(
            bundle_task_ids,
            tasks[i].id.as_str(),
        ) {
            let files = &overlapping[i];
            let ghost start = conflicts_view(out@);
            let mut j: usize = 0;
            while j < files.len()
                invariant
                    i < tasks.len(),
                    i < overlapping.len(),
                    files == overlapping@[i as int],
                    j <= files.len(),
                    requested == strings_view(requested_files@),
                    conflicts_sorted(conflicts_view(out@)),
                    forall|y: TaskLockConflictView|
                        #![trigger conflicts_view(out@).contains(y)]
                        conflicts_view(out@).contains(y) <==> (start.contains(y) || (y.held_by
                            == TaskLockHolder::Task && y.held_by_id == tasks@[i as int].id@
                            && requested.contains(y.file) && strings_view(files@.subrange(0, j as int)).contains(y.file))),
                decreases files.len() - j,
            {
                let ghost before = conflicts_view(out@);
                let ghost fj = files@[j as int]@;
                let ghost cv = TaskLockConflictView { file: fj, held_by: TaskLockHolder::Task, held_by_id: tasks@[i as int].id@ };
                let added = contains_string(requested_files, files[j].as_str());
                if added {
                    let c = TaskLockConflict {
                        file: copy_string(files[j].as_str()),
                        held_by: TaskLockHolder::Task,
                        held_by_id: copy_string(tasks[i].id.as_str()),
                    };
                    assert(c@ == cv);
                    insert_conflict(&mut out, c);
                }
                proof {
                    let p = strings_view(files@.subrange(0, j as int));
                    let q = strings_view(files@.subrange(0, j + 1));
                    assert(q =~= p.push(fj));
                    assert forall|x: Seq<char>| q.contains(x) <==> (p.contains(x) || x == fj) by {
                        if q.contains(x) {
                            let k = choose|k: int| 0 <= k < q.len() && q[k] == x;
                            if k < p.len() {
                                assert(p[k] == x);
                            }
                        }
                        if p.contains(x) {
                            let k = choose|k: int| 0 <= k < p.len() && p[k] == x;
                            assert(q[k] == x);
                        }
                        if x == fj {
                            assert(q[j as int] == x);
                        }
                    }
                    assert forall|y: TaskLockConflictView|
                        #![trigger conflicts_view(out@).contains(y)]
                        conflicts_view(out@).contains(y) <==> (start.contains(y) || (y.held_by
                            == TaskLockHolder::Task && y.held_by_id == tasks@[i as int].id@
                            && requested.contains(y.file) && strings_view(files@.subrange(0, j + 1)).contains(y.file))) by {
                        if y.held_by == TaskLockHolder::Task && y.held_by_id == tasks@[i as int].id@
                            && y.file == fj {
                            assert(y == cv);
                        }
                    }
                }
                j += 1;
            }
            proof {
                assert(files@.subrange(0, files.len() as int) =~= files@);
                assert(overlapping_files(overlapping@, i as int) == strings_view(files@));
                assert forall|y: TaskLockConflictView|
                    conflicts_view(out@).contains(y) <==> (y.held_by == TaskLockHolder::Task
                        && requested.contains(y.file) && exists|k: int|
                        0 <= k < i + 1 && is_holder(tasks@, bundle, k) && #[trigger] tasks@[k].id@
                            == y.held_by_id && overlapping_files(overlapping@, k).contains(y.file)) by {
                    if conflicts_view(out@).contains(y) && !start.contains(y) {
                        assert(is_holder(tasks@, bundle, i as int));
                        assert(tasks@[i as int].id@ == y.held_by_id);
                    }
                    if exists|k: int|
                        0 <= k < i + 1 && is_holder(tasks@, bundle, k) && #[trigger] tasks@[k].id@
                            == y.held_by_id && overlapping_files(overlapping@, k).contains(y.file) {
                        let k = choose|k: int|
                            0 <= k < i + 1 && is_holder(tasks@, bundle, k) && #[trigger] tasks@[k].id@
                                == y.held_by_id && overlapping_files(overlapping@, k).contains(y.file);
                        if k == i && y.held_by == TaskLockHolder::Task && requested.contains(y.file) {
                            assert(conflicts_view(out@).contains(y));
                        }
                    }
                }
            }
        } else {
            proof {
                assert forall|y: TaskLockConflictView|
                    conflicts_view(out@).contains(y) <==> (y.held_by == TaskLockHolder::Task
                        && requested.contains(y.file) && exists|k: int|
                        0 <= k < i + 1 && is_holder(tasks@, bundle, k) && #[trigger] tasks@[k].id@
                            == y.held_by_id && overlapping_files(overlapping@, k).contains(y.file)) by {
                    if exists|k: int|
                        0 <= k < i + 1 && is_holder(tasks@, bundle, k) && #[trigger] tasks@[k].id@
                            == y.held_by_id && overlapping_files(overlapping@, k).contains(y.file) {
                        let k = choose|k: int|
                            0 <= k < i + 1 && is_holder(tasks@, bundle, k) && #[trigger] tasks@[k].id@
                                == y.held_by_id && overlapping_files(overlapping@, k).contains(y.file);
                        assert(k != i);
                    }
                }
            }
        }
        i += 1;
    }
    proof {
        assert forall|y: TaskLockConflictView|
            conflicts_view(out@).contains(y) <==> task_conflict(tasks@, bundle, requested, overlapping@, y) by {
            if task_conflict(tasks@, bundle, requested, overlapping@, y) {
                let k = choose|k: int|
                    is_holder(tasks@, bundle, k) && #[trigger] tasks@[k].id@ == y.held_by_id
                        && overlapping_files(overlapping@, k).contains(y.file);
                assert(0 <= k < tasks.len());
            }
        }
    }
    out
}

/// A requested file that overlaps the surface of an active task outside
/// the bundle is reported as held by that task; a file that no active
/// holder overlaps is never reported as held by a task.
pub proof fn law_overlapping_requests_conflict(
    tasks: Seq<LockTask>,
    bundle: Seq<Seq<char>>,
    requested: Seq<Seq<char>>,
    overlapping: Seq<Vec<String>>,
    i: int,
    file: Seq<char>,
)
    requires
        is_holder(tasks, bundle, i),
        requested.contains(file),
    ensures
        overlapping_files(overlapping, i).contains(file) ==> task_conflict(
            tasks,
            bundle,
            requested,
            overlapping,
            TaskLockConflictView { file, held_by: TaskLockHolder::Task, held_by_id: tasks[i].id@ },
        ),
        (forall|k: int| is_holder(tasks, bundle, k) ==> !overlapping_files(overlapping, k).contains(file))
            ==> forall|id: Seq<char>|
            !task_conflict(
                tasks,
                bundle,
                requested,
                overlapping,
                TaskLockConflictView { file, held_by: TaskLockHolder::Task, held_by_id: id },
            ),
{
}

/// A reservation request that overlaps an active task outside its bundle is
/// refused up front: the task-held conflicts it meets are not empty, so the
/// store is not asked to reserve (`ask_store_to_reserve`) and the answer is a
/// denial (`reserve_response`), whatever the store says.
pub proof fn law_overlapping_reservations_are_refused(
    tasks: Seq<LockTask>,
    bundle: Seq<Seq<char>>,
    requested: Seq<Seq<char>>,
    overlapping: Seq<Vec<String>>,
    prior: Seq<TaskLockConflictView>,
    i: int,
    file: Seq<char>,
)
    requires
        is_holder(tasks, bundle, i),
        requested.contains(file),
        overlapping_files(overlapping, i).contains(file),
        forall|y: TaskLockConflictView| prior.contains(y) <==> task_conflict(tasks, bundle, requested, overlapping, y),
    ensures
        prior.len() > 0,
        prior.contains(TaskLockConflictView { file, held_by: TaskLockHolder::Task, held_by_id: tasks[i].id@ }),
{
    let y = TaskLockConflictView { file, held_by: TaskLockHolder::Task, held_by_id: tasks[i].id@ };
    assert(task_conflict(tasks, bundle, requested, overlapping, y));
    assert(prior.contains(y));
}

/// Only active work holds locks: a lock holder, and the holder named by any
/// task conflict, is in progress or in review; a task in any other status
/// (blocked, backlog, done, ...) never holds a lock nor yields a conflict.
pub proof fn law_only_active_tasks_hold_locks(
    tasks: Seq<LockTask>,
    bundle: Seq<Seq<char>>,
    requested: Seq<Seq<char>>,
    overlapping: Seq<Vec<String>>,
    i: int,
    y: TaskLockConflictView,
)
    ensures
        is_holder(tasks, bundle, i) ==> (tasks[i].status == TaskStatus::InProgress || tasks[i].status
            == TaskStatus::Review),
        0 <= i < tasks.len() && tasks[i].status != TaskStatus::InProgress && tasks[i].status
            != TaskStatus::Review ==> !is_holder(tasks, bundle, i),
        task_conflict(tasks, bundle, requested, overlapping, y) ==> exists|k: int|
            0 <= k < tasks.len() && #[trigger] tasks[k].id@ == y.held_by_id && (tasks[k].status
                == TaskStatus::InProgress || tasks[k].status == TaskStatus::Review),
        (forall|k: int|
            0 <= k < tasks.len() ==> (#[trigger] tasks[k]).status != TaskStatus::InProgress && tasks[k].status
                != TaskStatus::Review) ==> !task_conflict(tasks, bundle, requested, overlapping, y),
{
}

} // verus!
