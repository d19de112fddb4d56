//! Orchestrator accounting: attribution of invocations to buckets, the
//! accounting window, and normalized token totals.
use vstd::prelude::*;

use crate::error::OrbitError;
use crate::session_log::{Timestamp, ts_le, timestamp_le};
use crate::sorted::{insert_unique, strictly_sorted};
use crate::text::{copy_string, opt_string_view, str_eq, strings_view};

verus! {

/// Which population an invocation is charged to.
#[derive(Debug, Clone, Copy, PartialEq, Eq, Structural)]
pub enum OrchestratorMetricsBucketKind {
    Orchestrator,
    Shared,
    Unattributed,
    Missing,
}

/// The bucket an invocation is charged to.
#[derive(Debug, Clone, PartialEq, Eq)]
pub struct BucketKey {
    pub kind: OrchestratorMetricsBucketKind,
    pub orchestrator: Option<String>,
}

/// The orchestrator of the first task with id `id`: `None` when no such
/// task exists, `Some(None)` when it has no orchestrator.
pub open spec fn lookup_owner(tasks: Seq<(String, Option<String>)>, id: Seq<char>, i: int) -> Option<
    Option<Seq<char>>,
>
    decreases tasks.len() - i,
{
    if i < 0 || i >= tasks.len() {
        None
    } else if tasks[i].0@ == id {
        Some(opt_string_view(tasks[i].1))
    } else {
        lookup_owner(tasks, id, i + 1)
    }
}

/// Attribution: no task ids is unattributed; any missing task wins over an
/// unattributed one, which wins over named owners; a single named owner
/// is charged, several are shared.
pub open spec fn classify_spec(ids: Seq<Seq<char>>, tasks: Seq<(String, Option<String>)>) -> (
    OrchestratorMetricsBucketKind,
    Option<Seq<char>>,
) {
    if ids.len() == 0 {
        (OrchestratorMetricsBucketKind::Unattributed, None)
    } else if exists|k: int| 0 <= k < ids.len() && lookup_owner(tasks, #[trigger] ids[k], 0) is None {
        (OrchestratorMetricsBucketKind::Missing, None)
    } else if exists|k: int|
        0 <= k < ids.len() && lookup_owner(tasks, #[trigger] ids[k], 0) == Some(
            None::<Seq<char>>,
        ) {
        (OrchestratorMetricsBucketKind::Unattributed, None)
    } else {
        let o = lookup_owner(tasks, ids[0], 0)->0->0;
        if forall|k: int|
            0 <= k < ids.len() ==> lookup_owner(tasks, #[trigger] ids[k], 0) == Some(
                Some(o),
            ) {
            (OrchestratorMetricsBucketKind::Orchestrator, Some(o))
        } else {
            (OrchestratorMetricsBucketKind::Shared, None)
        }
    }
}

fn owner_of<'a>(tasks: &'a Vec<(String, Option<String>)>, id: &str) -> (r: Option<&'a Option<String>>)
    ensures
        match lookup_owner(tasks@, id@, 0) {
            Some(o) => r is Some && opt_string_view(*r->0) == o,
            None => r is None,
        },
{
    let mut i: usize = 0;
    while i < tasks.len()
        invariant
            i <= tasks.len(),
            lookup_owner(tasks@, id@, i as int) == lookup_owner(tasks@, id@, 0),
        decreases tasks.len() - i,
    {
        if str_eq(tasks[i].0.as_str(), id) {
            return Some(&tasks[i].1);
        }
        i += 1;
    }
    None
}

/// The bucket of an invocation linked to `task_ids`, given every task's
/// orchestrator.
pub fn classify_invocation(task_ids: &Vec<String>, task_orchestrators: &Vec<(String, Option<String>)>) -> (r:
    BucketKey)
    ensures
        (r.kind, opt_string_view(r.orchestrator)) == classify_spec(
            strings_view(task_ids@),
            task_orchestrators@,
        ),
{
    let ghost ids = strings_view(task_ids@);
    let ghost tasks = task_orchestrators@;
    if task_ids.len() == 0 {
        return BucketKey { kind: OrchestratorMetricsBucketKind::Unattributed, orchestrator: None };
    }
    let mut i: usize = 0;
    while i < task_ids.len()
        invariant
            i <= task_ids.len(),
            ids == strings_view(task_ids@),
            tasks == task_orchestrators@,
            forall|k: int| 0 <= k < i ==> lookup_owner(tasks, #[trigger] ids[k], 0) is Some,
        decreases task_ids.len() - i,
    {
        assert(ids[i as int] == task_ids@[i as int]@);
        if owner_of(task_orchestrators, task_ids[i].as_str()).is_none() {
            return BucketKey { kind: OrchestratorMetricsBucketKind::Missing, orchestrator: None };
        }
        i += 1;
    }
    let mut j: usize = 0;
    while j < task_ids.len()
        invariant
            j <= task_ids.len(),
            ids == strings_view(task_ids@),
            tasks == task_orchestrators@,
            forall|k: int| 0 <= k < ids.len() ==> lookup_owner(tasks, #[trigger] ids[k], 0) is Some,
            forall|k: int| 0 <= k < j ==> lookup_owner(tasks, #[trigger] ids[k], 0) != Some(None::<Seq<char>>),
        decreases task_ids.len() - j,
    {
        assert(ids[j as int] == task_ids@[j as int]@);
        match owner_of(task_orchestrators, task_ids[j].as_str()) {
            Some(None) => {
                return BucketKey {
                    kind: OrchestratorMetricsBucketKind::Unattributed,
                    orchestrator: None,
                };
            },
            _ => {},
        }
        j += 1;
    }
    assert(ids[0] == task_ids@[0]@);
    let first: &String = match owner_of(task_orchestrators, task_ids[0].as_str()) {
        Some(Some(o)) => o,
        _ => {
            assert(false);
            return BucketKey { kind: OrchestratorMetricsBucketKind::Shared, orchestrator: None };
        },
    };
    let ghost o = first@;
    let mut k: usize = 1;
    while k < task_ids.len()
        invariant
            1 <= k <= task_ids.len(),
            ids == strings_view(task_ids@),
            tasks == task_orchestrators@,
            o == first@,
            lookup_owner(tasks, ids[0], 0) == Some(Some(o)),
            forall|m: int| 0 <= m < k ==> lookup_owner(tasks, #[trigger] ids[m], 0) == Some(Some(o)),
            forall|m: int| 0 <= m < ids.len() ==> lookup_owner(tasks, #[trigger] ids[m], 0) is Some,
            forall|m: int| 0 <= m < ids.len() ==> lookup_owner(tasks, #[trigger] ids[m], 0) != Some(None::<Seq<char>>),
        decreases task_ids.len() - k,
    {
        assert(ids[k as int] == task_ids@[k as int]@);
        match owner_of(task_orchestrators, task_ids[k].as_str()) {
            Some(Some(other)) => {
                if !str_eq(other.as_str(), first.as_str()) {
                    assert(lookup_owner(tasks, ids[k as int], 0) != Some(Some(o)));
                    return BucketKey { kind: OrchestratorMetricsBucketKind::Shared, orchestrator: None };
                }
            },
            _ => {
                assert(false);
            },
        }
        k += 1;
    }
    BucketKey {
        kind: OrchestratorMetricsBucketKind::Orchestrator,
        orchestrator: Some(copy_string(first.as_str())),
    }
}

/// A bucket never charges a named orchestrator when a linked task is
/// missing or has no orchestrator.
pub proof fn law_incomplete_ownership_never_charges(
    ids: Seq<Seq<char>>,
    tasks: Seq<(String, Option<String>)>,
    k: int,
)
    requires
        0 <= k < ids.len(),
        lookup_owner(tasks, ids[k], 0) is None || lookup_owner(tasks, ids[k], 0) == Some(
            None::<Seq<char>>,
        ),
    ensures
        classify_spec(ids, tasks).0 != OrchestratorMetricsBucketKind::Orchestrator,
        classify_spec(ids, tasks).1 is None,
{
}

pub open spec fn ts_lt(a: Timestamp, b: Timestamp) -> bool {
    !ts_le(b, a)
}

/// The effective exclusive upper cutoff: `until`, but never later than
/// `as_of`; the window `since <= ts < cutoff` must not be empty.
pub open spec fn window_spec(since: Option<Timestamp>, until: Option<Timestamp>, as_of: Timestamp) -> Result<
    Timestamp,
    Seq<char>,
> {
    if since is Some && until is Some && ts_le(until->0, since->0) {
        Err("since must be earlier than until"@)
    } else {
        let cutoff = match until {
            Some(u) => if ts_le(u, as_of) {
                u
            } else {
                as_of
            },
            None => as_of,
        };
        if since is Some && ts_le(cutoff, since->0) {
            Err("since must be earlier than the effective upper cutoff"@)
        } else {
            Ok(cutoff)
        }
    }
}

pub fn effective_window(since: Option<Timestamp>, until: Option<Timestamp>, as_of: Timestamp) -> (r:
    Result<Timestamp, OrbitError>)
    ensures
        match window_spec(since, until, as_of) {
            Ok(t) => r == Ok::<Timestamp, OrbitError>(t),
            Err(m) => r matches Err(OrbitError::InvalidInput(x)) && x@ == m,
        },
{
    if let (Some(s), Some(u)) = (since, until) {
        if timestamp_le(u, s) {
            return Err(OrbitError::InvalidInput(copy_string("since must be earlier than until")));
        }
    }
    let cutoff = match until {
        Some(u) => if timestamp_le(u, as_of) {
            u
        } else {
            as_of
        },
        None => as_of,
    };
    if let Some(s) = since {
        if timestamp_le(cutoff, s) {
            return Err(
                OrbitError::InvalidInput(
                    copy_string("since must be earlier than the effective upper cutoff"),
                ),
            );
        }
    }
    Ok(cutoff)
}

/// The effective cutoff is never later than `as_of` nor than `until`, and
/// `since` lies strictly before it.
pub proof fn law_window_is_bounded(since: Option<Timestamp>, until: Option<Timestamp>, as_of: Timestamp)
    requires
        window_spec(since, until, as_of) is Ok,
    ensures
        ts_le(window_spec(since, until, as_of)->Ok_0, as_of),
        until matches Some(u) ==> ts_le(window_spec(since, until, as_of)->Ok_0, u),
        since matches Some(s) ==> ts_lt(s, window_spec(since, until, as_of)->Ok_0),
{
}

/// Token counts of one invocation.
#[derive(Debug, Clone, Copy, PartialEq, Eq, Structural)]
pub struct TokenUsage {
    pub input: u64,
    pub cache_read: u64,
    pub cache_create: u64,
    pub cache_create_1h: u64,
    pub output: u64,
}

/// Normalized token totals of a population of invocations.
#[derive(Debug, Clone, Copy, PartialEq, Eq, Structural)]
pub struct NormalizedTokenSummary {
    pub invocation_count: u64,
    pub covered_invocation_count: u64,
    pub unknown_input_basis_or_model_count: u64,
    pub uncached_input_tokens: u64,
    pub cache_read_tokens: u64,
    pub cache_create_tokens: u64,
    pub cache_create_1h_tokens: u64,
    pub output_tokens: u64,
    pub normalized_token_total: u64,
    pub linked_task_count: u64,
}

pub open spec fn sat(a: int, b: int) -> u64 {
    if a + b > u64::MAX {
        u64::MAX
    } else {
        (a + b) as u64
    }
}

/// The summary after adding one covered invocation's normalized usage.
pub open spec fn with_usage(s: NormalizedTokenSummary, u: TokenUsage) -> NormalizedTokenSummary {
    NormalizedTokenSummary {
        covered_invocation_count: sat(s.covered_invocation_count as int, 1),
        uncached_input_tokens: sat(s.uncached_input_tokens as int, u.input as int),
        cache_read_tokens: sat(s.cache_read_tokens as int, u.cache_read as int),
        cache_create_tokens: sat(s.cache_create_tokens as int, u.cache_create as int),
        cache_create_1h_tokens: sat(s.cache_create_1h_tokens as int, u.cache_create_1h as int),
        output_tokens: sat(s.output_tokens as int, u.output as int),
        normalized_token_total: sat(
            sat(
                sat(
                    sat(sat(s.normalized_token_total as int, u.input as int) as int, u.cache_read as int) as int,
                    u.cache_create as int,
                ) as int,
                u.cache_create_1h as int,
            ) as int,
            u.output as int,
        ),
        ..s
    }
}

/// The summary after adding one invocation whose usage normalized to
/// `normalized` (`None`: unknown model or input basis).
pub open spec fn with_invocation(s: NormalizedTokenSummary, normalized: Option<TokenUsage>) -> NormalizedTokenSummary {
    let counted = NormalizedTokenSummary { invocation_count: sat(s.invocation_count as int, 1), ..s };
    match normalized {
        None => NormalizedTokenSummary {
            unknown_input_basis_or_model_count: sat(counted.unknown_input_basis_or_model_count as int, 1),
            ..counted
        },
        Some(u) => with_usage(counted, u),
    }
}

fn sat_add(a: u64, b: u64) -> (r: u64)
    ensures
        r == sat(a as int, b as int),
{
    a.saturating_add(b)
}

/// Accumulates normalized tokens and the distinct linked tasks.
#[derive(Debug)]
pub struct TokenAccumulator {
    linked_task_ids: Vec<String>,
    summary: NormalizedTokenSummary,
}

impl TokenAccumulator {
    /// Distinct, ordered linked task ids.
    pub closed spec fn wf(&self) -> bool {
        strictly_sorted(strings_view(self.linked_task_ids@))
    }

    pub closed spec fn linked(&self) -> Set<Seq<char>> {
        strings_view(self.linked_task_ids@).to_set()
    }

    pub closed spec fn totals(&self) -> NormalizedTokenSummary {
        self.summary
    }

    pub fn new() -> (r: TokenAccumulator)
        ensures
            r.wf(),
            r.linked() == Set::<Seq<char>>::empty(),
            r.totals() == (NormalizedTokenSummary {
                invocation_count: 0,
                covered_invocation_count: 0,
                unknown_input_basis_or_model_count: 0,
                uncached_input_tokens: 0,
                cache_read_tokens: 0,
                cache_create_tokens: 0,
                cache_create_1h_tokens: 0,
                output_tokens: 0,
                normalized_token_total: 0,
                linked_task_count: 0,
            }),
    {
        let r = TokenAccumulator {
            linked_task_ids: Vec::new(),
            summary: NormalizedTokenSummary {
                invocation_count: 0,
                covered_invocation_count: 0,
                unknown_input_basis_or_model_count: 0,
                uncached_input_tokens: 0,
                cache_read_tokens: 0,
                cache_create_tokens: 0,
                cache_create_1h_tokens: 0,
                output_tokens: 0,
                normalized_token_total: 0,
                linked_task_count: 0,
            },
        };
        assert(r.linked() =~= Set::<Seq<char>>::empty());
        r
    }

    /// Adds one covered invocation's normalized usage (saturating).
    pub fn add_usage(&mut self, usage: &TokenUsage)
        ensures
            final(self).totals() == with_usage(old(self).totals(), *usage),
            final(self).linked() == old(self).linked(),
            final(self).wf() == old(self).wf(),
    {
        let s = self.summary;
        let total = sat_add(
            sat_add(
                sat_add(sat_add(sat_add(s.normalized_token_total, usage.input), usage.cache_read), usage.cache_create),
                usage.cache_create_1h,
            ),
            usage.output,
        );
        self.summary = NormalizedTokenSummary {
            covered_invocation_count: sat_add(s.covered_invocation_count, 1),
            uncached_input_tokens: sat_add(s.uncached_input_tokens, usage.input),
            cache_read_tokens: sat_add(s.cache_read_tokens, usage.cache_read),
            cache_create_tokens: sat_add(s.cache_create_tokens, usage.cache_create),
            cache_create_1h_tokens: sat_add(s.cache_create_1h_tokens, usage.cache_create_1h),
            output_tokens: sat_add(s.output_tokens, usage.output),
            normalized_token_total: total,
            ..s
        };
    }

    /// Adds one invocation linked to `task_ids` whose usage normalized to
    /// `normalized` (`None` when its model or input basis is unknown).
    pub fn add(&mut self, task_ids: &Vec<String>, normalized: Option<TokenUsage>)
        requires
            old(self).wf(),
        ensures
            final(self).wf(),
            final(self).totals() == with_invocation(old(self).totals(), normalized),
            final(self).linked() == old(self).linked().union(strings_view(task_ids@).to_set()),
    {
        self.summary.invocation_count = sat_add(self.summary.invocation_count, 1);
        let ghost start = strings_view(self.linked_task_ids@).to_set();
        let mut i: usize = 0;
        while i < task_ids.len()
            invariant
                i <= task_ids.len(),
                strictly_sorted(strings_view(self.linked_task_ids@)),
                strings_view(self.linked_task_ids@).to_set() == start.union(
                    strings_view(task_ids@.subrange(0, i as int)).to_set(),
                ),
                self.summary == (NormalizedTokenSummary {
                    invocation_count: sat(old(self).summary.invocation_count as int, 1),
                    ..old(self).summary
                }),
            decreases task_ids.len() - i,
        {
            let ghost before = strings_view(self.linked_task_ids@);
            let item = copy_string(task_ids[i].as_str());
            assert(item@ == task_ids@[i as int]@);
            insert_unique(&mut self.linked_task_ids, item);
            proof {
                let after = strings_view(self.linked_task_ids@);
                let p = strings_view(task_ids@.subrange(0, i as int));
                let q = strings_view(task_ids@.subrange(0, i + 1));
                assert(q =~= p.push(task_ids@[i as int]@));
                assert forall|y: Seq<char>| after.contains(y) <==> (start.contains(y) || q.contains(y)) by {
                    assert(before.to_set().contains(y) == before.contains(y));
                    assert(p.to_set().contains(y) == p.contains(y));
                    if q.contains(y) && y != task_ids@[i as int]@ {
                        let j = choose|j: int| 0 <= j < q.len() && q[j] == y;
                        assert(j < p.len());
                        assert(p[j] == y);
                    }
                    if p.contains(y) {
                        let j = choose|j: int| 0 <= j < p.len() && p[j] == y;
                        assert(q[j] == y);
                    }
                    if y == task_ids@[i as int]@ {
                        assert(q[i as int] == y);
                    }
                }
                assert(after.to_set() =~= start.union(q.to_set()));
            }
            i += 1;
        }
        assert(task_ids@.subrange(0, task_ids.len() as int) =~= task_ids@);
        match normalized {
            None => {
                self.summary.unknown_input_basis_or_model_count = sat_add(
                    self.summary.unknown_input_basis_or_model_count,
                    1,
                );
            },
            Some(u) => {
                self.add_usage(&u);
            },
        }
    }

    /// The totals with the number of distinct linked tasks.
    pub fn finish(&self) -> (r: NormalizedTokenSummary)
        requires
            self.wf(),
        ensures
            r == (NormalizedTokenSummary { linked_task_count: r.linked_task_count, ..self.totals() }),
            r.linked_task_count as int == self.linked().len(),
    {
        proof {
            let s = strings_view(self.linked_task_ids@);
            assert(s.no_duplicates()) by {
                assert forall|i: int, j: int| 0 <= i < s.len() && 0 <= j < s.len() && i != j implies s[i] != s[j] by {
                    if i < j {
                        crate::text::lemma_lex_trichotomy(s[i], s[j]);
                    } else {
                        crate::text::lemma_lex_trichotomy(s[j], s[i]);
                    }
                }
            }
            s.unique_seq_to_set();
        }
        let mut r = self.summary;
        r.linked_task_count = self.linked_task_ids.len() as u64;
        r
    }
}

} // verus!
