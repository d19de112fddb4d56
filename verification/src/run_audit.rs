//! A run's audit trail, rebuilt from the envelope events it recorded: the
//! events in order with the step each belongs to, the steps with their
//! outcomes, and the provider processes the steps spawned.
use vstd::prelude::*;

use crate::json::{
    JsonValue, get_bool, get_i64, get_str, get_string, get_u64, json_bool, json_get, json_i64, json_u64,
    str_field,
};
use crate::error::OrbitError;
use crate::session_log::{Timestamp, parse_rfc3339, rfc3339_instant};
use crate::text::{copy_string, opt_string_view, push_str, str_eq, str_starts_with, strings_view};

verus! {

/// The `event_id` of a payload.
pub open spec fn event_id_of(p: JsonValue) -> Option<Seq<char>> {
    str_field(p, "event_id"@)
}

/// The last of the first `k` payloads whose event id is `id`: the payload an
/// id stands for when several share it.
pub open spec fn last_index(ps: Seq<JsonValue>, id: Seq<char>, k: int) -> Option<int>
    decreases k,
{
    if k <= 0 || k > ps.len() {
        None
    } else if event_id_of(ps[k - 1]) == Some(id) {
        Some(k - 1)
    } else {
        last_index(ps, id, k - 1)
    }
}

pub proof fn lemma_last_index(ps: Seq<JsonValue>, id: Seq<char>, k: int)
    ensures
        last_index(ps, id, k) matches Some(j) ==> 0 <= j < k && j < ps.len() && event_id_of(ps[j])
            == Some(id),
    decreases k,
{
    if k > 0 && k <= ps.len() && event_id_of(ps[k - 1]) != Some(id) {
        lemma_last_index(ps, id, k - 1);
    }
}

/// The payload that event id `id` stands for.
pub fn find_payload(ps: &Vec<JsonValue>, id: &str) -> (r: Option<usize>)
    ensures
        match last_index(ps@, id@, ps.len() as int) {
            Some(j) => r == Some(j as usize),
            None => r is None,
        },
{
    let mut k: usize = ps.len();
    while k > 0
        invariant
            k <= ps.len(),
            last_index(ps@, id@, k as int) == last_index(ps@, id@, ps.len() as int),
        decreases k,
    {
        match get_str(&ps[k - 1], "event_id") {
            Some(e) => {
                if str_eq(e.as_str(), id) {
                    return Some(k - 1);
                }
            },
            None => {},
        }
        k -= 1;
    }
    None
}

/// Following parent links from `next`, having visited `seen`: the step of
/// the first enclosing `step_started` event. A missing parent, or a parent
/// met twice, ends the walk without a step.
pub open spec fn parent_walk(ps: Seq<JsonValue>, next: Option<Seq<char>>, seen: Seq<Seq<char>>) -> Option<
    Seq<char>,
>
    decreases ps.len() + 1 - seen.len(),
{
    match next {
        None => None,
        Some(id) => if seen.contains(id) || seen.len() > ps.len() {
            None
        } else {
            match last_index(ps, id, ps.len() as int) {
                None => None,
                Some(k) => {
                    let parent = ps[k];
                    if str_field(parent, "body_kind"@) == Some("step_started"@) {
                        str_field(parent, "step_id"@)
                    } else {
                        parent_walk(ps, str_field(parent, "parent_event_id"@), seen.push(id))
                    }
                },
            }
        },
    }
}

/// The step an event belongs to: its own `step_id`, else that of the
/// nearest `step_started` event among its ancestors.
pub open spec fn enclosing_step(ps: Seq<JsonValue>, raw: JsonValue) -> Option<Seq<char>> {
    match str_field(raw, "step_id"@) {
        Some(s) => Some(s),
        None => parent_walk(ps, str_field(raw, "parent_event_id"@), Seq::empty()),
    }
}

/// Distinct ids that each name a payload are no more than the payloads, so
/// the bound on `seen` in `parent_walk` never cuts a walk short.
pub proof fn lemma_seen_bounded(ps: Seq<JsonValue>, seen: Seq<Seq<char>>)
    requires
        seen.no_duplicates(),
        forall|i: int| 0 <= i < seen.len() ==> (#[trigger] last_index(ps, seen[i], ps.len() as int)) is Some,
    ensures
        seen.len() <= ps.len(),
{
    let idx = Seq::new(seen.len(), |i: int| last_index(ps, seen[i], ps.len() as int)->0);
    assert forall|i: int, j: int| 0 <= i < idx.len() && 0 <= j < idx.len() && i != j implies idx[i]
        != idx[j] by {
        lemma_last_index(ps, seen[i], ps.len() as int);
        lemma_last_index(ps, seen[j], ps.len() as int);
        assert(last_index(ps, seen[i], ps.len() as int) is Some);
        assert(last_index(ps, seen[j], ps.len() as int) is Some);
        if idx[i] == idx[j] {
            assert(event_id_of(ps[idx[i]]) == Some(seen[i]));
            assert(event_id_of(ps[idx[j]]) == Some(seen[j]));
        }
    }
    assert(idx.no_duplicates());
    let range = Set::new(|k: int| 0 <= k < ps.len());
    assert(range =~= vstd::set_lib::set_int_range(0, ps.len() as int));
    vstd::set_lib::lemma_int_range(0, ps.len() as int);
    assert forall|k: int| idx.to_set().contains(k) implies range.contains(k) by {
        let i = choose|i: int| 0 <= i < idx.len() && idx[i] == k;
        lemma_last_index(ps, seen[i], ps.len() as int);
        assert(last_index(ps, seen[i], ps.len() as int) is Some);
    }
    vstd::set_lib::lemma_len_subset(idx.to_set(), range);
    idx.unique_seq_to_set();
}

/// The step an event payload belongs to.
pub fn enclosing_step_id(ps: &Vec<JsonValue>, raw: &JsonValue) -> (r: Option<String>)
    ensures
        opt_string_view(r) == enclosing_step(ps@, *raw),
{
    match get_string(raw, "step_id") {
        Some(s) => {
            return Some(s);
        },
        None => {},
    }
    let mut next: Option<String> = get_string(raw, "parent_event_id");
    let mut seen: Vec<String> = Vec::new();
    let ghost start = opt_string_view(next);
    assert(strings_view(seen@) =~= Seq::<Seq<char>>::empty());
    while seen.len() <= ps.len()
        invariant
            enclosing_step(ps@, *raw) == parent_walk(ps@, start, Seq::empty()),
            parent_walk(ps@, opt_string_view(next), strings_view(seen@)) == parent_walk(
                ps@,
                start,
                Seq::empty(),
            ),
            strings_view(seen@).no_duplicates(),
            forall|i: int|
                0 <= i < seen.len() ==> (#[trigger] last_index(ps@, strings_view(seen@)[i], ps.len() as int)) is Some,
        decreases ps.len() + 1 - seen.len(),
    {
        let id = match next {
            None => {
                return None;
            },
            Some(id) => id,
        };
        let mut k: usize = 0;
        let mut met = false;
        while k < seen.len()
            invariant
                k <= seen.len(),
                met <==> (exists|m: int| 0 <= m < k && strings_view(seen@)[m] == id@),
            decreases seen.len() - k,
        {
            if str_eq(seen[k].as_str(), id.as_str()) {
                assert(strings_view(seen@)[k as int] == id@);
                met = true;
            }
            k += 1;
        }
        if met {
            return None;
        }
        assert(!strings_view(seen@).contains(id@));
        let found = find_payload(ps, id.as_str());
        let j = match found {
            None => {
                return None;
            },
            Some(j) => j,
        };
        proof {
            lemma_last_index(ps@, id@, ps.len() as int);
        }
        let parent = &ps[j];
        let is_start = match get_str(parent, "body_kind") {
            Some(b) => str_eq(b.as_str(), "step_started"),
            None => false,
        };
        if is_start {
            return get_string(parent, "step_id");
        }
        let ghost before = strings_view(seen@);
        next = get_string(parent, "parent_event_id");
        seen.push(id);
        proof {
            let after = strings_view(seen@);
            assert(after =~= before.push(after[after.len() - 1]));
            assert forall|i: int, m: int| 0 <= i < after.len() && 0 <= m < after.len() && i != m implies after[i] != after[m] by {
                if i < before.len() && m < before.len() {
                    assert(after[i] == before[i] && after[m] == before[m]);
                } else if i < before.len() {
                    assert(before.contains(after[i]));
                } else {
                    assert(before.contains(after[m]));
                }
            }
            assert forall|i: int| 0 <= i < after.len() implies (#[trigger] last_index(ps@, after[i], ps.len() as int)) is Some by {
                if i < before.len() {
                    assert(after[i] == before[i]);
                }
            }
        }
    }
    proof {
        lemma_seen_bounded(ps@, strings_view(seen@));
    }
    None
}

pub proof fn lemma_last_index_found(ps: Seq<JsonValue>, id: Seq<char>, j: int, k: int)
    requires
        0 <= j < k <= ps.len(),
        event_id_of(ps[j]) == Some(id),
    ensures
        last_index(ps, id, k) is Some,
    decreases k,
{
    if event_id_of(ps[k - 1]) != Some(id) {
        lemma_last_index_found(ps, id, j, k - 1);
    }
}

/// The positions of the first `k` payloads that carry an event id.
pub open spec fn with_ids(ps: Seq<JsonValue>, k: int) -> Seq<int>
    decreases k,
{
    if k <= 0 || k > ps.len() {
        Seq::empty()
    } else if event_id_of(ps[k - 1]) is Some {
        with_ids(ps, k - 1).push(k - 1)
    } else {
        with_ids(ps, k - 1)
    }
}

/// The instant of the payload's `ts`, when it is an RFC 3339 time.
pub open spec fn ts_of(raw: JsonValue) -> Option<Timestamp> {
    match str_field(raw, "ts"@) {
        Some(t) => match rfc3339_instant(t) {
            Ok(p) => Some(Timestamp { secs: p.0, nanos: p.1 }),
            Err(_) => None,
        },
        None => None,
    }
}

/// One event of a run's audit trail.
#[derive(Debug)]
pub struct RunAuditEvent {
    /// The payload the event reads: the last one recorded under its id.
    pub payload: usize,
    pub event_id: String,
    pub parent_event_id: Option<String>,
    pub event_type: Option<String>,
    pub body_kind: Option<String>,
    pub timestamp: Option<Timestamp>,
    pub step_id: Option<String>,
}

/// `e` is the event that payload `j` lists.
pub open spec fn event_from(ps: Seq<JsonValue>, j: int, e: RunAuditEvent) -> bool {
    let id = event_id_of(ps[j])->0;
    let k = last_index(ps, id, ps.len() as int)->0;
    let raw = ps[k];
    &&& e.payload == k
    &&& e.event_id@ == id
    &&& opt_string_view(e.parent_event_id) == str_field(raw, "parent_event_id"@)
    &&& opt_string_view(e.event_type) == str_field(raw, "event_type"@)
    &&& opt_string_view(e.body_kind) == str_field(raw, "body_kind"@)
    &&& e.timestamp == ts_of(raw)
    &&& opt_string_view(e.step_id) == enclosing_step(ps, raw)
}

fn timestamp_field(raw: &JsonValue) -> (r: Option<Timestamp>)
    ensures
        r == ts_of(*raw),
{
    match get_str(raw, "ts") {
        Some(t) => match parse_rfc3339(t.as_str()) {
            Ok(p) => Some(Timestamp { secs: p.0, nanos: p.1 }),
            Err(_) => None,
        },
        None => None,
    }
}

/// The events of a run from its envelope payloads, oldest first: one per
/// payload that carries an event id, each reading the last payload recorded
/// under that id.
pub fn collect_run_audit_events(ps: &Vec<JsonValue>) -> (r: Vec<RunAuditEvent>)
    ensures
        r@.len() == with_ids(ps@, ps.len() as int).len(),
        forall|m: int|
            0 <= m < r@.len() ==> event_from(ps@, with_ids(ps@, ps.len() as int)[m], #[trigger] r@[m]),
{
    let mut r: Vec<RunAuditEvent> = Vec::new();
    let mut j: usize = 0;
    while j < ps.len()
        invariant
            j <= ps.len(),
            r@.len() == with_ids(ps@, j as int).len(),
            forall|m: int| 0 <= m < r@.len() ==> event_from(ps@, with_ids(ps@, j as int)[m], #[trigger] r@[m]),
        decreases ps.len() - j,
    {
        let ghost before = with_ids(ps@, j as int);
        match get_str(&ps[j], "event_id") {
            Some(id) => {
                proof {
                    lemma_last_index_found(ps@, id@, j as int, ps.len() as int);
                    lemma_last_index(ps@, id@, ps.len() as int);
                }
                let k = match find_payload(ps, id.as_str()) {
                    Some(k) => k,
                    None => {
                        assert(false);
                        0
                    },
                };
                let raw = &ps[k];
                let e = RunAuditEvent {
                    payload: k,
                    event_id: copy_string(id.as_str()),
                    parent_event_id: get_string(raw, "parent_event_id"),
                    event_type: get_string(raw, "event_type"),
                    body_kind: get_string(raw, "body_kind"),
                    timestamp: timestamp_field(raw),
                    step_id: enclosing_step_id(ps, raw),
                };
                assert(event_from(ps@, j as int, e));
                r.push(e);
                assert(with_ids(ps@, j + 1) == before.push(j as int));
            },
            None => {
                assert(with_ids(ps@, j + 1) == before);
            },
        }
        j += 1;
    }
    r
}

/// A step as the trail shows it: id, start, finish, state, outcome, error.
pub type StepView = (
    Seq<char>,
    Option<Timestamp>,
    Option<Timestamp>,
    Option<Seq<char>>,
    Option<Seq<char>>,
    Option<Seq<char>>,
);

/// The first step with id `id`.
pub open spec fn find_step(steps: Seq<StepView>, id: Seq<char>, i: int) -> Option<int>
    decreases steps.len() - i,
{
    if i < 0 || i >= steps.len() {
        None
    } else if steps[i].0 == id {
        Some(i)
    } else {
        find_step(steps, id, i + 1)
    }
}

pub proof fn lemma_find_step(steps: Seq<StepView>, id: Seq<char>, i: int)
    ensures
        find_step(steps, id, i) matches Some(k) ==> 0 <= k < steps.len() && steps[k].0 == id,
    decreases steps.len() - i,
{
    if 0 <= i < steps.len() && steps[i].0 != id {
        lemma_find_step(steps, id, i + 1);
    }
}

/// The steps after one more event of kind `kind`, payload `raw` and time
/// `ts`: a start opens a step unless its id is known; a finish, skip or
/// denial of a known step records when and how it ended.
pub open spec fn apply_step_event(
    steps: Seq<StepView>,
    kind: Option<Seq<char>>,
    raw: JsonValue,
    ts: Option<Timestamp>,
) -> Seq<StepView> {
    match str_field(raw, "step_id"@) {
        None => steps,
        Some(id) => if kind == Some("step_started"@) {
            if find_step(steps, id, 0) is Some {
                steps
            } else {
                steps.push((id, ts, None, None, None, None))
            }
        } else if kind == Some("step_finished"@) || kind == Some("step_skipped"@) || kind == Some(
            "step_denied"@,
        ) {
            match find_step(steps, id, 0) {
                None => steps,
                Some(i) => {
                    let st = steps[i];
                    let upd = if kind == Some("step_finished"@) {
                        let o = match str_field(raw, "outcome"@) {
                            Some(o) => o,
                            None => "finished"@,
                        };
                        (st.0, st.1, ts, Some(o), Some(o), str_field(raw, "error_message"@))
                    } else if kind == Some("step_skipped"@) {
                        (st.0, st.1, ts, Some("skipped"@), Some("skipped"@), str_field(raw, "reason"@))
                    } else {
                        (st.0, st.1, ts, Some("failed"@), Some("denied"@), str_field(raw, "reason"@))
                    };
                    steps.update(i, upd)
                },
            }
        } else {
            steps
        },
    }
}

/// The payload an event reads, when it is among `ps`.
pub open spec fn raw_of(ps: Seq<JsonValue>, e: RunAuditEvent) -> Option<JsonValue> {
    if e.payload < ps.len() {
        Some(ps[e.payload as int])
    } else {
        None
    }
}

/// The steps after the first `n` events.
pub open spec fn steps_after(ps: Seq<JsonValue>, events: Seq<RunAuditEvent>, n: int) -> Seq<StepView>
    decreases n,
{
    if n <= 0 || n > events.len() {
        Seq::empty()
    } else {
        let before = steps_after(ps, events, n - 1);
        let e = events[n - 1];
        match raw_of(ps, e) {
            None => before,
            Some(raw) => apply_step_event(before, opt_string_view(e.body_kind), raw, e.timestamp),
        }
    }
}

/// A step of a run.
#[derive(Debug)]
pub struct RunAuditStep {
    pub step_index: u32,
    pub step_id: String,
    pub started_at: Option<Timestamp>,
    pub finished_at: Option<Timestamp>,
    pub state: Option<String>,
    pub outcome: Option<String>,
    pub error_message: Option<String>,
}

pub open spec fn step_view(s: RunAuditStep) -> StepView {
    (
        s.step_id@,
        s.started_at,
        s.finished_at,
        opt_string_view(s.state),
        opt_string_view(s.outcome),
        opt_string_view(s.error_message),
    )
}

pub open spec fn steps_view(steps: Seq<RunAuditStep>) -> Seq<StepView> {
    steps.map_values(|s: RunAuditStep| step_view(s))
}

fn copy_opt(s: &Option<String>) -> (r: Option<String>)
    ensures
        opt_string_view(r) == opt_string_view(*s),
{
    match s {
        Some(v) => Some(copy_string(v.as_str())),
        None => None,
    }
}

fn step_position(steps: &Vec<RunAuditStep>, id: &str) -> (r: Option<usize>)
    ensures
        match find_step(steps_view(steps@), id@, 0) {
            Some(i) => r == Some(i as usize),
            None => r is None,
        },
{
    let mut i: usize = 0;
    while i < steps.len()
        invariant
            i <= steps.len(),
            find_step(steps_view(steps@), id@, i as int) == find_step(steps_view(steps@), id@, 0),
        decreases steps.len() - i,
    {
        if str_eq(steps[i].step_id.as_str(), id) {
            return Some(i);
        }
        i += 1;
    }
    None
}

/// The steps of a run from its events, in the order they started; each
/// step's index is its position.
#[verifier::spinoff_prover]
pub fn collect_run_audit_steps(ps: &Vec<JsonValue>, events: &Vec<RunAuditEvent>) -> (r: Vec<RunAuditStep>)
    ensures
        steps_view(r@) == steps_after(ps@, events@, events.len() as int),
        forall|i: int| 0 <= i < r@.len() ==> (#[trigger] r@[i]).step_index == #[verifier::truncate] (i as u32),
{
    let mut steps: Vec<RunAuditStep> = Vec::new();
    let mut n: usize = 0;
    while n < events.len()
        invariant
            n <= events.len(),
            steps_view(steps@) == steps_after(ps@, events@, n as int),
            forall|i: int| 0 <= i < steps@.len() ==> (#[trigger] steps@[i]).step_index == #[verifier::truncate] (i as u32),
        decreases events.len() - n,
    {
        let e = &events[n];
        let ghost before = steps_view(steps@);
        if e.payload < ps.len() {
            let raw = &ps[e.payload];
            match get_str(raw, "step_id") {
                None => {},
                Some(id) => {
                    let kind: &str = match &e.body_kind {
                        Some(k) => k.as_str(),
                        None => "",
                    };
                    let is_kind = e.body_kind.is_some();
                    if is_kind && str_eq(kind, "step_started") {
                        match step_position(&steps, id.as_str()) {
                            Some(_) => {},
                            None => {
                                let index = #[verifier::truncate] (steps.len() as u32);
                                steps.push(
                                    RunAuditStep {
                                        step_index: index,
                                        step_id: copy_string(id.as_str()),
                                        started_at: e.timestamp,
                                        finished_at: None,
                                        state: None,
                                        outcome: None,
                                        error_message: None,
                                    },
                                );
                                assert(steps_view(steps@) =~= before.push(
                                    (id@, e.timestamp, None, None, None, None),
                                ));
                            },
                        }
                    } else if is_kind && (str_eq(kind, "step_finished") || str_eq(kind, "step_skipped")
                        || str_eq(kind, "step_denied")) {
                        match step_position(&steps, id.as_str()) {
                            None => {},
                            Some(i) => {
                                let len_now = steps.len();
                                proof {
                                    lemma_find_step(before, id@, 0);
                                    let f = find_step(before, id@, 0);
                                    assert(f is Some);
                                    let x = f->0;
                                    assert(f == Some(x));
                                    assert(0 <= x < before.len());
                                    assert(before.len() == steps@.len());
                                    assert(x < len_now);
                                    assert(x as usize == i);
                                    assert(i as int == x);
                                    assert(find_step(before, id@, 0) == Some(i as int));
                                }
                                let old_step = &steps[i];
                                let (state, outcome, error) = if str_eq(kind, "step_finished") {
                                    let o = match get_str(raw, "outcome") {
                                        Some(o) => copy_string(o.as_str()),
                                        None => copy_string("finished"),
                                    };
                                    (Some(copy_string(o.as_str())), Some(o), get_string(raw, "error_message"))
                                } else if str_eq(kind, "step_skipped") {
                                    (
                                        Some(copy_string("skipped")),
                                        Some(copy_string("skipped")),
                                        get_string(raw, "reason"),
                                    )
                                } else {
                                    (
                                        Some(copy_string("failed")),
                                        Some(copy_string("denied")),
                                        get_string(raw, "reason"),
                                    )
                                };
                                let updated = RunAuditStep {
                                    step_index: old_step.step_index,
                                    step_id: copy_string(old_step.step_id.as_str()),
                                    started_at: old_step.started_at,
                                    finished_at: e.timestamp,
                                    state,
                                    outcome,
                                    error_message: error,
                                };
                                let ghost uv = step_view(updated);
                                assert(opt_string_view(e.body_kind) == Some(kind@));
                                assert(before[i as int] == step_view(steps@[i as int]));
                                steps.set(i, updated);
                                assert(steps_view(steps@) =~= before.update(i as int, uv));
                                assert(find_step(before, id@, 0) == Some(i as int));
                                assert(steps_view(steps@) =~= apply_step_event(
                                    before,
                                    opt_string_view(e.body_kind),
                                    *raw,
                                    e.timestamp,
                                ));
                            },
                        }
                    }
                },
            }
        }
        n += 1;
    }
    steps
}

/// The index of the last step named `id` among the first `k` steps.
pub open spec fn step_index_for(steps: Seq<RunAuditStep>, id: Option<Seq<char>>, k: int) -> Option<u32>
    decreases k,
{
    match id {
        None => None,
        Some(sid) => if k <= 0 || k > steps.len() {
            None
        } else if steps[k - 1].step_id@ == sid {
            Some(steps[k - 1].step_index)
        } else {
            step_index_for(steps, id, k - 1)
        },
    }
}

fn step_index_of(steps: &Vec<RunAuditStep>, id: &Option<String>) -> (r: Option<u32>)
    ensures
        r == step_index_for(steps@, opt_string_view(*id), steps.len() as int),
{
    let sid = match id {
        None => {
            return None;
        },
        Some(s) => s.as_str(),
    };
    let mut k: usize = steps.len();
    while k > 0
        invariant
            k <= steps.len(),
            opt_string_view(*id) == Some(sid@),
            step_index_for(steps@, Some(sid@), k as int) == step_index_for(
                steps@,
                Some(sid@),
                steps.len() as int,
            ),
        decreases k,
    {
        if str_eq(steps[k - 1].step_id.as_str(), sid) {
            return Some(steps[k - 1].step_index);
        }
        k -= 1;
    }
    None
}

/// A provider subprocess a step spawned, paired with the exit that closed
/// it when there was one.
#[derive(Debug)]
pub struct RunProviderProcess {
    pub run_id: String,
    pub event_id: String,
    pub ts: Option<Timestamp>,
    pub step_id: Option<String>,
    pub step_index: Option<u32>,
    pub provider: Option<String>,
    pub pid: u32,
    pub pid_start_time: Option<String>,
    pub finished: bool,
    pub exit_code: Option<i64>,
    pub timed_out: bool,
    pub duration_ms: Option<u64>,
}

pub struct ProcessView {
    pub run_id: Seq<char>,
    pub event_id: Seq<char>,
    pub ts: Option<Timestamp>,
    pub step_id: Option<Seq<char>>,
    pub step_index: Option<u32>,
    pub provider: Option<Seq<char>>,
    pub pid: u32,
    pub pid_start_time: Option<Seq<char>>,
    pub finished: bool,
    pub exit_code: Option<i64>,
    pub timed_out: bool,
    pub duration_ms: Option<u64>,
}

pub open spec fn process_view(p: RunProviderProcess) -> ProcessView {
    ProcessView {
        run_id: p.run_id@,
        event_id: p.event_id@,
        ts: p.ts,
        step_id: opt_string_view(p.step_id),
        step_index: p.step_index,
        provider: opt_string_view(p.provider),
        pid: p.pid,
        pid_start_time: opt_string_view(p.pid_start_time),
        finished: p.finished,
        exit_code: p.exit_code,
        timed_out: p.timed_out,
        duration_ms: p.duration_ms,
    }
}

pub open spec fn processes_view(ps: Seq<RunProviderProcess>) -> Seq<ProcessView> {
    ps.map_values(|p: RunProviderProcess| process_view(p))
}

/// The run a payload names, else `run_id`.
pub open spec fn run_of(raw: JsonValue, run_id: Seq<char>) -> Seq<char> {
    match str_field(raw, "run_id"@) {
        Some(r) => r,
        None => run_id,
    }
}

/// The newest record among the first `k` that is still open in step `step`.
pub open spec fn open_record(recs: Seq<ProcessView>, step: Option<Seq<char>>, k: int) -> Option<int>
    decreases k,
{
    if k <= 0 || k > recs.len() {
        None
    } else if !recs[k - 1].finished && recs[k - 1].step_id == step {
        Some(k - 1)
    } else {
        open_record(recs, step, k - 1)
    }
}

pub proof fn lemma_open_record(recs: Seq<ProcessView>, step: Option<Seq<char>>, k: int)
    ensures
        open_record(recs, step, k) matches Some(i) ==> 0 <= i < k && i < recs.len()
            && !recs[i].finished && recs[i].step_id == step,
    decreases k,
{
    if 0 < k <= recs.len() && !(!recs[k - 1].finished && recs[k - 1].step_id == step) {
        lemma_open_record(recs, step, k - 1);
    }
}

/// The records after one more event: a process event with a pid that fits
/// opens a record; a finish event closes the newest open record of its
/// step, recording exit code, timeout and duration.
pub open spec fn apply_process_event(
    recs: Seq<ProcessView>,
    e: RunAuditEvent,
    raw: JsonValue,
    steps: Seq<RunAuditStep>,
    run_id: Seq<char>,
) -> Seq<ProcessView> {
    let kind = opt_string_view(e.body_kind);
    if kind == Some("cli_invocation_process"@) {
        match json_u64(json_get(raw, "pid"@)) {
            Some(pid) => if pid <= u32::MAX {
                recs.push(
                    ProcessView {
                        run_id: run_of(raw, run_id),
                        event_id: e.event_id@,
                        ts: e.timestamp,
                        step_id: opt_string_view(e.step_id),
                        step_index: step_index_for(steps, opt_string_view(e.step_id), steps.len() as int),
                        provider: str_field(raw, "provider"@),
                        pid: pid as u32,
                        pid_start_time: str_field(raw, "pid_start_time"@),
                        finished: false,
                        exit_code: None,
                        timed_out: false,
                        duration_ms: None,
                    },
                )
            } else {
                recs
            },
            None => recs,
        }
    } else if kind == Some("cli_invocation_finished"@) {
        match open_record(recs, opt_string_view(e.step_id), recs.len() as int) {
            None => recs,
            Some(i) => recs.update(
                i,
                ProcessView {
                    finished: true,
                    exit_code: json_i64(json_get(raw, "exit_code"@)),
                    timed_out: match json_bool(json_get(raw, "timed_out"@)) {
                        Some(b) => b,
                        None => false,
                    },
                    duration_ms: json_u64(json_get(raw, "duration_ms"@)),
                    ..recs[i]
                },
            ),
        }
    } else {
        recs
    }
}

/// The records after the first `n` events.
pub open spec fn processes_after(
    ps: Seq<JsonValue>,
    events: Seq<RunAuditEvent>,
    steps: Seq<RunAuditStep>,
    run_id: Seq<char>,
    n: int,
) -> Seq<ProcessView>
    decreases n,
{
    if n <= 0 || n > events.len() {
        Seq::empty()
    } else {
        let before = processes_after(ps, events, steps, run_id, n - 1);
        match raw_of(ps, events[n - 1]) {
            None => before,
            Some(raw) => apply_process_event(before, events[n - 1], raw, steps, run_id),
        }
    }
}

fn opt_copy_string(s: &Option<String>) -> (r: Option<String>)
    ensures
        opt_string_view(r) == opt_string_view(*s),
{
    match s {
        Some(v) => Some(copy_string(v.as_str())),
        None => None,
    }
}

fn kind_is(kind: &Option<String>, name: &str) -> (b: bool)
    ensures
        b == (opt_string_view(*kind) == Some(name@)),
{
    match kind {
        Some(k) => str_eq(k.as_str(), name),
        None => false,
    }
}

fn same_step(a: &Option<String>, b: &Option<String>) -> (r: bool)
    ensures
        r == (opt_string_view(*a) == opt_string_view(*b)),
{
    match (a, b) {
        (Some(x), Some(y)) => str_eq(x.as_str(), y.as_str()),
        (None, None) => true,
        _ => false,
    }
}

/// The provider subprocesses of run `run_id`, oldest first, each paired
/// with the exit event that closed it; a record left open is a process
/// that had not exited when the trail was last written.
pub fn collect_run_provider_processes(
    ps: &Vec<JsonValue>,
    events: &Vec<RunAuditEvent>,
    steps: &Vec<RunAuditStep>,
    run_id: &str,
) -> (r: Vec<RunProviderProcess>)
    ensures
        processes_view(r@) == processes_after(ps@, events@, steps@, run_id@, events.len() as int),
{
    let mut recs: Vec<RunProviderProcess> = Vec::new();
    let mut n: usize = 0;
    while n < events.len()
        invariant
            n <= events.len(),
            processes_view(recs@) == processes_after(ps@, events@, steps@, run_id@, n as int),
        decreases events.len() - n,
    {
        let e = &events[n];
        let ghost before = processes_view(recs@);
        if e.payload < ps.len() {
            let raw = &ps[e.payload];
            if kind_is(&e.body_kind, "cli_invocation_process") {
                match get_u64(raw, "pid") {
                    Some(pid) => {
                        if pid <= u32::MAX as u64 {
                            let run = match get_str(raw, "run_id") {
                                Some(v) => copy_string(v.as_str()),
                                None => copy_string(run_id),
                            };
                            let rec = RunProviderProcess {
                                run_id: run,
                                event_id: copy_string(e.event_id.as_str()),
                                ts: e.timestamp,
                                step_id: opt_copy_string(&e.step_id),
                                step_index: step_index_of(steps, &e.step_id),
                                provider: get_string(raw, "provider"),
                                pid: pid as u32,
                                pid_start_time: get_string(raw, "pid_start_time"),
                                finished: false,
                                exit_code: None,
                                timed_out: false,
                                duration_ms: None,
                            };
                            recs.push(rec);
                            assert(processes_view(recs@) =~= before.push(process_view(rec)));
                        }
                    },
                    None => {},
                }
            } else if kind_is(&e.body_kind, "cli_invocation_finished") {
                let mut k: usize = recs.len();
                let mut found: Option<usize> = None;
                while k > 0
                    invariant_except_break
                        found is None,
                    invariant
                        k <= recs.len(),
                        before == processes_view(recs@),
                        open_record(before, opt_string_view(e.step_id), k as int) == open_record(
                            before,
                            opt_string_view(e.step_id),
                            recs.len() as int,
                        ),
                    ensures
                        match open_record(before, opt_string_view(e.step_id), recs.len() as int) {
                            Some(i) => found == Some(i as usize),
                            None => found is None,
                        },
                    decreases k,
                {
                    if !recs[k - 1].finished && same_step(&recs[k - 1].step_id, &e.step_id) {
                        found = Some(k - 1);
                        break;
                    }
                    k -= 1;
                }
                match found {
                    None => {},
                    Some(i) => {
                        proof {
                            lemma_open_record(before, opt_string_view(e.step_id), recs.len() as int);
                        }
                        let old = &recs[i];
                        let closed = RunProviderProcess {
                            run_id: copy_string(old.run_id.as_str()),
                            event_id: copy_string(old.event_id.as_str()),
                            ts: old.ts,
                            step_id: opt_copy_string(&old.step_id),
                            step_index: old.step_index,
                            provider: opt_copy_string(&old.provider),
                            pid: old.pid,
                            pid_start_time: opt_copy_string(&old.pid_start_time),
                            finished: true,
                            exit_code: get_i64(raw, "exit_code"),
                            timed_out: match get_bool(raw, "timed_out") {
                                Some(b) => b,
                                None => false,
                            },
                            duration_ms: get_u64(raw, "duration_ms"),
                        };
                        let ghost cv = process_view(closed);
                        recs.set(i, closed);
                        assert(processes_view(recs@) =~= before.update(i as int, cv));
                    },
                }
            }
        }
        n += 1;
    }
    recs
}

/// How many of `recs` had not reported an exit.
pub open spec fn unfinished_count(recs: Seq<RunProviderProcess>) -> nat
    decreases recs.len(),
{
    if recs.len() == 0 {
        0
    } else {
        unfinished_count(recs.drop_last()) + if recs.last().finished {
            0nat
        } else {
            1nat
        }
    }
}

/// The position of record `i` among the unfinished records before it.
pub open spec fn probe_rank(recs: Seq<RunProviderProcess>, i: int) -> nat {
    unfinished_count(recs.subrange(0, i))
}

proof fn lemma_unfinished_step(recs: Seq<RunProviderProcess>, i: int)
    requires
        0 <= i < recs.len(),
    ensures
        probe_rank(recs, i + 1) == probe_rank(recs, i) + if recs[i].finished {
            0nat
        } else {
            1nat
        },
{
    assert(recs.subrange(0, i + 1).drop_last() =~= recs.subrange(0, i));
}

/// What the liveness probe is asked, once per record that has not reported
/// an exit and never for a finished one: its pid and recorded start time,
/// in record order.
#[verifier::spinoff_prover]
#[verifier::rlimit(80)]
pub fn liveness_probes(recs: &Vec<RunProviderProcess>) -> (r: Vec<(u32, Option<String>)>)
    ensures
        r@.len() == unfinished_count(recs@),
        forall|i: int|
            0 <= i < recs@.len() && !(#[trigger] recs@[i]).finished ==> probe_rank(recs@, i) < r@.len()
                && r@[probe_rank(recs@, i) as int].0 == recs@[i].pid && opt_string_view(
                r@[probe_rank(recs@, i) as int].1,
            ) == opt_string_view(recs@[i].pid_start_time),
{
    let mut out: Vec<(u32, Option<String>)> = Vec::new();
    let mut i: usize = 0;
    assert(recs@.subrange(0, 0) =~= Seq::<RunProviderProcess>::empty());
    while i < recs.len()
        invariant
            i <= recs.len(),
            out@.len() == probe_rank(recs@, i as int),
            forall|j: int|
                0 <= j < i && !(#[trigger] recs@[j]).finished ==> probe_rank(recs@, j) < out@.len()
                    && out@[probe_rank(recs@, j) as int].0 == recs@[j].pid && opt_string_view(
                    out@[probe_rank(recs@, j) as int].1,
                ) == opt_string_view(recs@[j].pid_start_time),
        decreases recs.len() - i,
    {
        proof {
            lemma_unfinished_step(recs@, i as int);
        }
        let ghost before = out@;
        if !recs[i].finished {
            let start = opt_copy_string(&recs[i].pid_start_time);
            out.push((recs[i].pid, start));
            proof {
                assert forall|j: int|
                    0 <= j < i + 1 && !(#[trigger] recs@[j]).finished implies probe_rank(recs@, j) < out@.len()
                        && out@[probe_rank(recs@, j) as int].0 == recs@[j].pid && opt_string_view(
                        out@[probe_rank(recs@, j) as int].1,
                    ) == opt_string_view(recs@[j].pid_start_time) by {
                    if j < i {
                        assert(out@[probe_rank(recs@, j) as int] == before[probe_rank(recs@, j) as int]);
                    }
                }
            }
        }
        i += 1;
    }
    assert(recs@.subrange(0, recs.len() as int) =~= recs@);
    out
}

/// A provider process with its liveness verdict.
#[derive(Debug)]
pub struct ProbedProcess<L> {
    pub process: RunProviderProcess,
    pub liveness: L,
}

/// Pairs each record with its liveness: `exited` for one that reported an
/// exit, else the probe's answer for it (`answers` in the order of
/// `liveness_probes`).
pub fn attach_liveness<L: Copy>(recs: Vec<RunProviderProcess>, answers: &Vec<L>, exited: L) -> (r: Vec<
    ProbedProcess<L>,
>)
    requires
        answers@.len() == unfinished_count(recs@),
    ensures
        r@.len() == recs@.len(),
        forall|i: int|
            0 <= i < r@.len() ==> process_view((#[trigger] r@[i]).process) == process_view(recs@[i])
                && r@[i].liveness == if recs@[i].finished {
                exited
            } else {
                answers@[probe_rank(recs@, i) as int]
            },
{
    let ghost all = recs@;
    let mut recs = recs;
    let n = recs.len();
    let mut out: Vec<ProbedProcess<L>> = Vec::new();
    let mut k: usize = 0;
    let mut i: usize = 0;
    let alen = answers.len();
    assert(all.subrange(0, 0) =~= Seq::<RunProviderProcess>::empty());
    while i < n
        invariant
            alen == answers@.len(),
            n == all.len(),
            i <= n,
            recs@ == all.subrange(i as int, n as int),
            k == probe_rank(all, i as int),
            answers@.len() == unfinished_count(all),
            out@.len() == i,
            forall|j: int|
                0 <= j < i ==> process_view((#[trigger] out@[j]).process) == process_view(all[j])
                    && out@[j].liveness == if all[j].finished {
                    exited
                } else {
                    answers@[probe_rank(all, j) as int]
                },
        decreases n - i,
    {
        proof {
            lemma_unfinished_step(all, i as int);
            lemma_rank_bound(all, i as int + 1);
        }
        let rec = recs.remove(0);
        assert(rec == all[i as int]);
        assert(recs@ =~= all.subrange(i + 1, n as int));
        if rec.finished {
            out.push(ProbedProcess { process: rec, liveness: exited });
        } else {
            assert(k + 1 <= alen);
            let l = answers[k];
            out.push(ProbedProcess { process: rec, liveness: l });
            k += 1;
        }
        i += 1;
    }
    out
}

proof fn lemma_rank_bound(recs: Seq<RunProviderProcess>, i: int)
    requires
        0 <= i <= recs.len(),
    ensures
        probe_rank(recs, i) <= unfinished_count(recs),
    decreases recs.len() - i,
{
    if i < recs.len() {
        lemma_unfinished_step(recs, i);
        lemma_rank_bound(recs, i + 1);
    } else {
        assert(recs.subrange(0, i) =~= recs);
    }
}

/// A CLI invocation of a run: a finished provider call with the blob
/// references of what it printed.
#[derive(Debug)]
pub struct RunCliInvocation {
    pub run_id: String,
    pub event_id: String,
    pub ts: Option<Timestamp>,
    pub step_id: Option<String>,
    pub step_index: Option<u32>,
    pub provider: Option<String>,
    pub stdout_blob_ref: Option<String>,
    pub stderr_blob_ref: Option<String>,
    pub exit_code: Option<i64>,
    pub timed_out: bool,
    pub duration_ms: Option<u64>,
}

/// `inv` records finish event `e`, whose payload is `raw`.
pub open spec fn invocation_from(
    inv: RunCliInvocation,
    e: RunAuditEvent,
    raw: JsonValue,
    steps: Seq<RunAuditStep>,
    run_id: Seq<char>,
) -> bool {
    &&& inv.run_id@ == run_of(raw, run_id)
    &&& inv.event_id@ == e.event_id@
    &&& inv.ts == e.timestamp
    &&& opt_string_view(inv.step_id) == opt_string_view(e.step_id)
    &&& inv.step_index == step_index_for(steps, opt_string_view(e.step_id), steps.len() as int)
    &&& opt_string_view(inv.provider) == str_field(raw, "provider"@)
    &&& opt_string_view(inv.stdout_blob_ref) == str_field(raw, "stdout_blob_ref"@)
    &&& opt_string_view(inv.stderr_blob_ref) == str_field(raw, "stderr_blob_ref"@)
    &&& inv.exit_code == json_i64(json_get(raw, "exit_code"@))
    &&& inv.timed_out == match json_bool(json_get(raw, "timed_out"@)) {
        Some(b) => b,
        None => false,
    }
    &&& inv.duration_ms == json_u64(json_get(raw, "duration_ms"@))
}

/// The positions of the first `n` events that are finished CLI
/// invocations with a payload.
pub open spec fn finished_events(ps: Seq<JsonValue>, events: Seq<RunAuditEvent>, n: int) -> Seq<int>
    decreases n,
{
    if n <= 0 || n > events.len() {
        Seq::empty()
    } else if raw_of(ps, events[n - 1]) is Some && opt_string_view(events[n - 1].body_kind) == Some(
        "cli_invocation_finished"@,
    ) {
        finished_events(ps, events, n - 1).push(n - 1)
    } else {
        finished_events(ps, events, n - 1)
    }
}

/// The CLI invocations of run `run_id`, one per finish event, in order.
pub fn collect_run_cli_invocations(
    ps: &Vec<JsonValue>,
    events: &Vec<RunAuditEvent>,
    steps: &Vec<RunAuditStep>,
    run_id: &str,
) -> (r: Vec<RunCliInvocation>)
    ensures
        r@.len() == finished_events(ps@, events@, events.len() as int).len(),
        forall|m: int|
            0 <= m < r@.len() ==> {
                let j = finished_events(ps@, events@, events.len() as int)[m];
                invocation_from(#[trigger] r@[m], events@[j], raw_of(ps@, events@[j])->0, steps@, run_id@)
            },
{
    let mut r: Vec<RunCliInvocation> = Vec::new();
    let mut n: usize = 0;
    while n < events.len()
        invariant
            n <= events.len(),
            r@.len() == finished_events(ps@, events@, n as int).len(),
            forall|m: int|
                0 <= m < r@.len() ==> {
                    let j = finished_events(ps@, events@, n as int)[m];
                    invocation_from(#[trigger] r@[m], events@[j], raw_of(ps@, events@[j])->0, steps@, run_id@)
                },
        decreases events.len() - n,
    {
        let e = &events[n];
        let ghost before = finished_events(ps@, events@, n as int);
        if e.payload < ps.len() && kind_is(&e.body_kind, "cli_invocation_finished") {
            let raw = &ps[e.payload];
            let run = match get_str(raw, "run_id") {
                Some(v) => copy_string(v.as_str()),
                None => copy_string(run_id),
            };
            let inv = RunCliInvocation {
                run_id: run,
                event_id: copy_string(e.event_id.as_str()),
                ts: e.timestamp,
                step_id: opt_copy_string(&e.step_id),
                step_index: step_index_of(steps, &e.step_id),
                provider: get_string(raw, "provider"),
                stdout_blob_ref: get_string(raw, "stdout_blob_ref"),
                stderr_blob_ref: get_string(raw, "stderr_blob_ref"),
                exit_code: get_i64(raw, "exit_code"),
                timed_out: match get_bool(raw, "timed_out") {
                    Some(b) => b,
                    None => false,
                },
                duration_ms: get_u64(raw, "duration_ms"),
            };
            assert(invocation_from(inv, events@[n as int], raw_of(ps@, events@[n as int])->0, steps@, run_id@));
            r.push(inv);
            assert(finished_events(ps@, events@, n + 1) == before.push(n as int));
        } else {
            assert(finished_events(ps@, events@, n + 1) == before);
        }
        n += 1;
    }
    r
}

/// A blob reference is read only when it has at least two bytes and is not
/// an `error:` marker.
pub fn check_blob_ref(blob_ref: &str) -> (r: Result<(), OrbitError>)
    ensures
        (blob_ref.len() < 2 || crate::text::starts_with(blob_ref@, "error:"@)) ==> (r matches Err(
            OrbitError::Store(m),
        ) && m@ == "invalid audit blob reference '"@ + blob_ref@ + "'"@),
        !(blob_ref.len() < 2 || crate::text::starts_with(blob_ref@, "error:"@)) ==> r is Ok,
{
    if blob_ref.len() < 2 || str_starts_with(blob_ref, "error:") {
        let mut m = copy_string("invalid audit blob reference '");
        push_str(&mut m, blob_ref);
        push_str(&mut m, "'");
        return Err(OrbitError::Store(m));
    }
    Ok(())
}

/// The text a CLI invocation printed on one stream: the referenced blob's
/// text (`read`, as the blob store returned it) when the reference is well
/// formed and the blob could be read; otherwise empty. A missing, malformed
/// or unreadable blob never fails the listing.
pub fn cli_output_text(blob_ref: Option<&str>, read: Option<String>) -> (r: String)
    ensures
        r@ == match blob_ref {
            None => Seq::<char>::empty(),
            Some(b) => if b.len() < 2 || crate::text::starts_with(b@, "error:"@) {
                Seq::<char>::empty()
            } else {
                match read {
                    Some(t) => t@,
                    None => Seq::<char>::empty(),
                }
            },
        },
{
    match blob_ref {
        None => String::new(),
        Some(b) => match check_blob_ref(b) {
            Err(_) => String::new(),
            Ok(()) => match read {
                Some(t) => t,
                None => String::new(),
            },
        },
    }
}

/// An event's payload with its enclosing step recorded as `step_id` when
/// the payload is an object that names none.
pub fn json_with_step_id(raw: JsonValue, step_id: Option<&str>) -> (r: JsonValue)
    ensures
        match step_id {
            Some(s) => if json_get(raw, "step_id"@) is None && raw is Object {
                &&& r is Object
                &&& str_field(r, "step_id"@) == Some(s@)
                &&& forall|k: Seq<char>| k != "step_id"@ ==> json_get(r, k) == json_get(raw, k)
            } else {
                r == raw
            },
            None => r == raw,
        },
{
    let mut v = raw;
    match step_id {
        Some(s) => {
            if v.get("step_id").is_none() {
                crate::audit::insert_field(&mut v, "step_id", JsonValue::Str(copy_string(s)));
            }
        },
        None => {},
    }
    v
}

} // verus!
