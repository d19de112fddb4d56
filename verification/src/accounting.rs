//! Orchestrator invocation accounting: every invocation is charged to its
//! bucket, and each bucket accumulates raw token and pricing counts, its
//! linked tasks, normalized tokens and a per-model breakdown.
use vstd::prelude::*;

use crate::invocation::{
    BucketKey, NormalizedTokenSummary, OrchestratorMetricsBucketKind, TokenAccumulator, TokenUsage,
    classify_invocation, classify_spec, sat, with_invocation,
};
use crate::sorted::strictly_sorted;
use crate::text::{
    copy_string, lemma_lex_transitive, lemma_lex_trichotomy, lex_lt, opt_string_view, str_eq,
    str_lex_lt, strings_view,
};

verus! {

/// One managed invocation as accounting reads it. `normalized` is what
/// normalizing `usage` for `model` at the invocation's time gave (`None`
/// when the model's input basis is unknown); the two flags say whether a
/// valid provider cost and a valid derived cost were recorded.
#[derive(Debug)]
pub struct InvocationFact {
    pub task_ids: Vec<String>,
    pub model: Option<String>,
    pub usage: TokenUsage,
    pub normalized: Option<TokenUsage>,
    pub provider_priced: bool,
    pub derived_priced: bool,
}

/// The normalized usage that counts for `fact`: none without a model.
pub open spec fn fact_normalized(fact: InvocationFact) -> Option<TokenUsage> {
    if fact.model is Some {
        fact.normalized
    } else {
        None
    }
}

/// The integer counters of a bucket.
#[derive(Debug, Clone, Copy, PartialEq, Eq, Structural)]
pub struct BucketCounts {
    pub invocation_count: u64,
    pub input_tokens: u64,
    pub cache_read_tokens: u64,
    pub cache_create_tokens: u64,
    pub cache_create_1h_tokens: u64,
    pub output_tokens: u64,
    pub provider_cost_count: u64,
    pub derived_cost_count: u64,
    pub comparable_cost_count: u64,
    pub missing_provider_count: u64,
    pub unpriced_derived_count: u64,
}

pub open spec fn zero_counts() -> BucketCounts {
    BucketCounts {
        invocation_count: 0,
        input_tokens: 0,
        cache_read_tokens: 0,
        cache_create_tokens: 0,
        cache_create_1h_tokens: 0,
        output_tokens: 0,
        provider_cost_count: 0,
        derived_cost_count: 0,
        comparable_cost_count: 0,
        missing_provider_count: 0,
        unpriced_derived_count: 0,
    }
}

/// The counters after one more invocation (all sums saturate).
pub open spec fn with_fact_counts(c: BucketCounts, usage: TokenUsage, provider: bool, derived: bool) -> BucketCounts {
    BucketCounts {
        invocation_count: sat(c.invocation_count as int, 1),
        input_tokens: sat(c.input_tokens as int, usage.input as int),
        cache_read_tokens: sat(c.cache_read_tokens as int, usage.cache_read as int),
        cache_create_tokens: sat(c.cache_create_tokens as int, usage.cache_create as int),
        cache_create_1h_tokens: sat(c.cache_create_1h_tokens as int, usage.cache_create_1h as int),
        output_tokens: sat(c.output_tokens as int, usage.output as int),
        provider_cost_count: if provider {
            sat(c.provider_cost_count as int, 1)
        } else {
            c.provider_cost_count
        },
        missing_provider_count: if provider {
            c.missing_provider_count
        } else {
            sat(c.missing_provider_count as int, 1)
        },
        derived_cost_count: if derived {
            sat(c.derived_cost_count as int, 1)
        } else {
            c.derived_cost_count
        },
        unpriced_derived_count: if derived {
            c.unpriced_derived_count
        } else {
            sat(c.unpriced_derived_count as int, 1)
        },
        comparable_cost_count: if provider && derived {
            sat(c.comparable_cost_count as int, 1)
        } else {
            c.comparable_cost_count
        },
    }
}

fn sat_add(a: u64, b: u64) -> (r: u64)
    ensures
        r == sat(a as int, b as int),
{
    a.saturating_add(b)
}

fn add_fact_counts(c: BucketCounts, usage: TokenUsage, provider: bool, derived: bool) -> (r: BucketCounts)
    ensures
        r == with_fact_counts(c, usage, provider, derived),
{
    BucketCounts {
        invocation_count: sat_add(c.invocation_count, 1),
        input_tokens: sat_add(c.input_tokens, usage.input),
        cache_read_tokens: sat_add(c.cache_read_tokens, usage.cache_read),
        cache_create_tokens: sat_add(c.cache_create_tokens, usage.cache_create),
        cache_create_1h_tokens: sat_add(c.cache_create_1h_tokens, usage.cache_create_1h),
        output_tokens: sat_add(c.output_tokens, usage.output),
        provider_cost_count: if provider {
            sat_add(c.provider_cost_count, 1)
        } else {
            c.provider_cost_count
        },
        missing_provider_count: if provider {
            c.missing_provider_count
        } else {
            sat_add(c.missing_provider_count, 1)
        },
        derived_cost_count: if derived {
            sat_add(c.derived_cost_count, 1)
        } else {
            c.derived_cost_count
        },
        unpriced_derived_count: if derived {
            c.unpriced_derived_count
        } else {
            sat_add(c.unpriced_derived_count, 1)
        },
        comparable_cost_count: if provider && derived {
            sat_add(c.comparable_cost_count, 1)
        } else {
            c.comparable_cost_count
        },
    }
}

/// A model's accumulated tokens: its name, its totals and its linked tasks.
pub type ModelEntry = (Seq<char>, NormalizedTokenSummary, Set<Seq<char>>);

struct ModelTokens {
    model: String,
    tokens: TokenAccumulator,
}

spec fn model_entry(m: ModelTokens) -> ModelEntry {
    (m.model@, m.tokens.totals(), m.tokens.linked())
}

spec fn model_entries(s: Seq<ModelTokens>) -> Seq<ModelEntry> {
    s.map_values(|m: ModelTokens| model_entry(m))
}

pub open spec fn model_names(s: Seq<ModelEntry>) -> Seq<Seq<char>> {
    s.map_values(|e: ModelEntry| e.0)
}

spec fn models_wf(s: Seq<ModelTokens>) -> bool {
    &&& strictly_sorted(model_names(model_entries(s)))
    &&& forall|i: int| 0 <= i < s.len() ==> (#[trigger] s[i]).tokens.wf()
}

/// The summary of no invocation at all.
pub open spec fn empty_summary() -> NormalizedTokenSummary {
    NormalizedTokenSummary {
        invocation_count: 0,
        covered_invocation_count: 0,
        unknown_input_basis_or_model_count: 0,
        uncached_input_tokens: 0,
        cache_read_tokens: 0,
        cache_create_tokens: 0,
        cache_create_1h_tokens: 0,
        output_tokens: 0,
        normalized_token_total: 0,
        linked_task_count: 0,
    }
}

/// The first position at or after `i` whose name is not below `m`: where
/// `m` sits, or belongs, in a sorted list.
pub open spec fn model_slot(s: Seq<ModelEntry>, m: Seq<char>, i: int) -> int
    decreases s.len() - i,
{
    if i < 0 || i >= s.len() {
        s.len() as int
    } else if lex_lt(s[i].0, m) {
        model_slot(s, m, i + 1)
    } else {
        i
    }
}

/// The per-model breakdown after a covered invocation of model `m` linked
/// to `ids` with normalized usage `u`: `m`'s entry is updated in place, or
/// a fresh entry is inserted where the order puts it.
pub open spec fn upsert_model(s: Seq<ModelEntry>, m: Seq<char>, u: TokenUsage, ids: Set<Seq<char>>) -> Seq<
    ModelEntry,
> {
    let k = model_slot(s, m, 0);
    if 0 <= k < s.len() && s[k].0 == m {
        s.update(k, (m, with_invocation(s[k].1, Some(u)), s[k].2.union(ids)))
    } else {
        s.insert(k, (m, with_invocation(empty_summary(), Some(u)), ids))
    }
}

proof fn lemma_model_slot_bounds(s: Seq<ModelEntry>, m: Seq<char>, i: int)
    requires
        0 <= i <= s.len(),
    ensures
        i <= model_slot(s, m, i) <= s.len(),
        forall|j: int| i <= j < model_slot(s, m, i) ==> lex_lt(#[trigger] s[j].0, m),
        model_slot(s, m, i) < s.len() ==> !lex_lt(s[model_slot(s, m, i)].0, m),
    decreases s.len() - i,
{
    if i < s.len() && lex_lt(s[i].0, m) {
        lemma_model_slot_bounds(s, m, i + 1);
    }
}

fn upsert_model_tokens(models: &mut Vec<ModelTokens>, model: &str, task_ids: &Vec<String>, usage: TokenUsage)
    requires
        models_wf(old(models)@),
    ensures
        models_wf(final(models)@),
        model_entries(final(models)@) == upsert_model(
            model_entries(old(models)@),
            model@,
            usage,
            strings_view(task_ids@).to_set(),
        ),
{
    let ghost s = model_entries(models@);
    let ghost ids = strings_view(task_ids@).to_set();
    let mut k: usize = 0;
    while k < models.len() && str_lex_lt(models[k].model.as_str(), model)
        invariant
            k <= models.len(),
            s == model_entries(models@),
            models_wf(models@),
            model_slot(s, model@, k as int) == model_slot(s, model@, 0),
        decreases models.len() - k,
    {
        assert(s[k as int].0 == models@[k as int].model@);
        k += 1;
    }
    proof {
        if k < models.len() {
            assert(s[k as int].0 == models@[k as int].model@);
        }
        lemma_model_slot_bounds(s, model@, 0);
    }
    if k < models.len() && str_eq(models[k].model.as_str(), model) {
        let mut entry = models.remove(k);
        assert(entry.tokens.wf());
        entry.tokens.add(task_ids, Some(usage));
        let ghost e = model_entry(entry);
        models.insert(k, entry);
        proof {
            assert(model_entries(models@) =~= s.update(k as int, e));
            assert(model_names(model_entries(models@)) =~= model_names(s));
        }
    } else {
        let mut tokens = TokenAccumulator::new();
        tokens.add(task_ids, Some(usage));
        let entry = ModelTokens { model: copy_string(model), tokens };
        let ghost e = model_entry(entry);
        assert(tokens.linked() =~= ids);
        models.insert(k, entry);
        proof {
            let t = model_entries(models@);
            assert(t =~= s.insert(k as int, e));
            let ns = model_names(s);
            let nt = model_names(t);
            assert forall|i: int, j: int| 0 <= i < j < nt.len() implies lex_lt(#[trigger] nt[i], #[trigger] nt[j]) by {
                if k < s.len() {
                    lemma_lex_trichotomy(ns[k as int], model@);
                }
                if j < k {
                    assert(nt[i] == ns[i] && nt[j] == ns[j]);
                } else if j == k {
                    assert(nt[i] == ns[i]);
                } else if i < k {
                    assert(nt[i] == ns[i] && nt[j] == ns[j - 1]);
                    if j - 1 > k {
                        lemma_lex_transitive(model@, ns[k as int], ns[j - 1]);
                    }
                    lemma_lex_transitive(ns[i], model@, ns[j - 1]);
                } else if i == k {
                    assert(nt[j] == ns[j - 1]);
                    if j - 1 > k {
                        lemma_lex_transitive(model@, ns[k as int], ns[j - 1]);
                    }
                } else {
                    assert(nt[i] == ns[i - 1]);
                    assert(nt[j] == ns[j - 1]);
                }
            }
        }
    }
}

/// What a bucket has accumulated: its counters, the distinct linked tasks,
/// the normalized token totals and the per-model breakdown in model order.
pub struct BucketState {
    pub counts: BucketCounts,
    pub linked: Set<Seq<char>>,
    pub normalized: NormalizedTokenSummary,
    pub models: Seq<ModelEntry>,
}

pub open spec fn empty_state() -> BucketState {
    BucketState {
        counts: zero_counts(),
        linked: Set::empty(),
        normalized: empty_summary(),
        models: Seq::empty(),
    }
}

/// The bucket after one more invocation.
pub open spec fn after_fact(st: BucketState, fact: InvocationFact) -> BucketState {
    let ids = strings_view(fact.task_ids@).to_set();
    BucketState {
        counts: with_fact_counts(st.counts, fact.usage, fact.provider_priced, fact.derived_priced),
        linked: st.linked.union(ids),
        normalized: with_invocation(st.normalized, fact_normalized(fact)),
        models: match (fact.model, fact.normalized) {
            (Some(m), Some(u)) => upsert_model(st.models, m@, u, ids),
            _ => st.models,
        },
    }
}

/// Accumulates the invocations charged to one bucket.
pub struct BucketAccumulator {
    counts: BucketCounts,
    normalized_tokens: TokenAccumulator,
    models: Vec<ModelTokens>,
}

impl BucketAccumulator {
    /// Linked tasks distinct and ordered; models in strictly increasing
    /// name order.
    pub closed spec fn wf(&self) -> bool {
        self.normalized_tokens.wf() && models_wf(self.models@)
    }

    pub closed spec fn state(&self) -> BucketState {
        BucketState {
            counts: self.counts,
            linked: self.normalized_tokens.linked(),
            normalized: self.normalized_tokens.totals(),
            models: model_entries(self.models@),
        }
    }

    pub fn new() -> (r: BucketAccumulator)
        ensures
            r.wf(),
            r.state() == empty_state(),
            strictly_sorted(model_names(r.state().models)),
    {
        let r = BucketAccumulator {
            counts: BucketCounts {
                invocation_count: 0,
                input_tokens: 0,
                cache_read_tokens: 0,
                cache_create_tokens: 0,
                cache_create_1h_tokens: 0,
                output_tokens: 0,
                provider_cost_count: 0,
                derived_cost_count: 0,
                comparable_cost_count: 0,
                missing_provider_count: 0,
                unpriced_derived_count: 0,
            },
            normalized_tokens: TokenAccumulator::new(),
            models: Vec::new(),
        };
        assert(model_entries(r.models@) =~= Seq::<ModelEntry>::empty());
        r
    }

    /// Charges one invocation to this bucket.
    pub fn add(&mut self, fact: &InvocationFact)
        requires
            old(self).wf(),
        ensures
            final(self).wf(),
            final(self).state() == after_fact(old(self).state(), *fact),
            strictly_sorted(model_names(final(self).state().models)),
    {
        self.counts = add_fact_counts(self.counts, fact.usage, fact.provider_priced, fact.derived_priced);
        let normalized = match &fact.model {
            Some(_) => fact.normalized,
            None => None,
        };
        self.normalized_tokens.add(&fact.task_ids, normalized);
        match (&fact.model, fact.normalized) {
            (Some(m), Some(u)) => {
                upsert_model_tokens(&mut self.models, m.as_str(), &fact.task_ids, u);
            },
            _ => {},
        }
    }

    /// The bucket's report under `kind` and `orchestrator`.
    pub fn finish(&self, kind: OrchestratorMetricsBucketKind, orchestrator: Option<String>) -> (r: BucketSummary)
        requires
            self.wf(),
        ensures
            summary_matches(r, kind, opt_string_view(orchestrator), self.state()),
            strictly_sorted(model_names(self.state().models)),
    {
        let normalized_tokens = self.normalized_tokens.finish();
        let mut models: Vec<ModelSummary> = Vec::new();
        let ghost st = self.state();
        let mut i: usize = 0;
        while i < self.models.len()
            invariant
                i <= self.models.len(),
                st == self.state(),
                models_wf(self.models@),
                models.len() == i,
                forall|j: int|
                    0 <= j < i ==> model_summary_matches(#[trigger] models@[j], st.models[j]),
            decreases self.models.len() - i,
        {
            assert(self.models@[i as int].tokens.wf());
            let tokens = self.models[i].tokens.finish();
            let model = copy_string(self.models[i].model.as_str());
            models.push(ModelSummary { model, tokens });
            i += 1;
        }
        BucketSummary {
            kind,
            orchestrator,
            counts: self.counts,
            linked_task_count: normalized_tokens.linked_task_count,
            normalized_tokens,
            models,
        }
    }
}


/// `s` with its linked task count set to the number of linked tasks.
pub open spec fn finished(s: NormalizedTokenSummary, linked: Set<Seq<char>>) -> NormalizedTokenSummary {
    NormalizedTokenSummary { linked_task_count: linked.len() as u64, ..s }
}

/// One model's normalized tokens in a bucket report.
#[derive(Debug)]
pub struct ModelSummary {
    pub model: String,
    pub tokens: NormalizedTokenSummary,
}

pub open spec fn model_summary_matches(r: ModelSummary, e: ModelEntry) -> bool {
    r.model@ == e.0 && r.tokens == finished(e.1, e.2) && r.tokens.linked_task_count == e.2.len()
}

/// The integer part of a bucket's report.
#[derive(Debug)]
pub struct BucketSummary {
    pub kind: OrchestratorMetricsBucketKind,
    pub orchestrator: Option<String>,
    pub counts: BucketCounts,
    pub linked_task_count: u64,
    pub normalized_tokens: NormalizedTokenSummary,
    pub models: Vec<ModelSummary>,
}

/// `r` reports the bucket `(kind, orchestrator)` whose accumulated state is
/// `st`.
pub open spec fn summary_matches(
    r: BucketSummary,
    kind: OrchestratorMetricsBucketKind,
    orchestrator: Option<Seq<char>>,
    st: BucketState,
) -> bool {
    &&& r.kind == kind
    &&& opt_string_view(r.orchestrator) == orchestrator
    &&& r.counts == st.counts
    &&& r.linked_task_count == st.linked.len()
    &&& r.normalized_tokens == finished(st.normalized, st.linked)
    &&& r.models.len() == st.models.len()
    &&& forall|i: int| 0 <= i < r.models.len() ==> model_summary_matches(#[trigger] r.models@[i], st.models[i])
}

/// A bucket key as contracts read it: the kind and the orchestrator.
pub type KeyView = (OrchestratorMetricsBucketKind, Option<Seq<char>>);

pub open spec fn key_view(k: BucketKey) -> KeyView {
    (k.kind, opt_string_view(k.orchestrator))
}

pub open spec fn kind_rank(k: OrchestratorMetricsBucketKind) -> int {
    match k {
        OrchestratorMetricsBucketKind::Orchestrator => 0,
        OrchestratorMetricsBucketKind::Shared => 1,
        OrchestratorMetricsBucketKind::Unattributed => 2,
        OrchestratorMetricsBucketKind::Missing => 3,
    }
}

/// Bucket order: by kind, then no orchestrator before any, then by name.
pub open spec fn key_lt(a: KeyView, b: KeyView) -> bool {
    ||| kind_rank(a.0) < kind_rank(b.0)
    ||| (a.0 == b.0 && a.1 is None && b.1 is Some)
    ||| (a.0 == b.0 && a.1 is Some && b.1 is Some && lex_lt(a.1->0, b.1->0))
}

proof fn lemma_key_trichotomy(a: KeyView, b: KeyView)
    ensures
        key_lt(a, b) || a == b || key_lt(b, a),
        !(key_lt(a, b) && key_lt(b, a)),
        key_lt(a, b) ==> a != b,
{
    if a.1 is Some && b.1 is Some {
        lemma_lex_trichotomy(a.1->0, b.1->0);
    }
}

proof fn lemma_key_transitive(a: KeyView, b: KeyView, c: KeyView)
    requires
        key_lt(a, b),
        key_lt(b, c),
    ensures
        key_lt(a, c),
{
    if a.1 is Some && b.1 is Some && c.1 is Some {
        if a.0 == b.0 && b.0 == c.0 && lex_lt(a.1->0, b.1->0) && lex_lt(b.1->0, c.1->0) {
            lemma_lex_transitive(a.1->0, b.1->0, c.1->0);
        }
    }
}

fn kind_rank_of(k: OrchestratorMetricsBucketKind) -> (r: u8)
    ensures
        r == kind_rank(k),
{
    match k {
        OrchestratorMetricsBucketKind::Orchestrator => 0,
        OrchestratorMetricsBucketKind::Shared => 1,
        OrchestratorMetricsBucketKind::Unattributed => 2,
        OrchestratorMetricsBucketKind::Missing => 3,
    }
}

fn key_less(a: &BucketKey, b: &BucketKey) -> (r: bool)
    ensures
        r == key_lt(key_view(*a), key_view(*b)),
{
    let ra = kind_rank_of(a.kind);
    let rb = kind_rank_of(b.kind);
    if ra != rb {
        return ra < rb;
    }
    assert(a.kind == b.kind);
    match (&a.orchestrator, &b.orchestrator) {
        (None, Some(_)) => true,
        (Some(x), Some(y)) => str_lex_lt(x.as_str(), y.as_str()),
        _ => false,
    }
}

fn key_same(a: &BucketKey, b: &BucketKey) -> (r: bool)
    ensures
        r == (key_view(*a) == key_view(*b)),
{
    if a.kind != b.kind {
        return false;
    }
    match (&a.orchestrator, &b.orchestrator) {
        (None, None) => true,
        (Some(x), Some(y)) => str_eq(x.as_str(), y.as_str()),
        _ => false,
    }
}

/// The buckets so far, each with its key, in bucket order.
pub type Grouping = Seq<(KeyView, BucketState)>;

/// The first position at or after `i` whose key is not below `k`.
pub open spec fn bucket_slot(g: Grouping, k: KeyView, i: int) -> int
    decreases g.len() - i,
{
    if i < 0 || i >= g.len() {
        g.len() as int
    } else if key_lt(g[i].0, k) {
        bucket_slot(g, k, i + 1)
    } else {
        i
    }
}

proof fn lemma_bucket_slot_bounds(g: Grouping, k: KeyView, i: int)
    requires
        0 <= i <= g.len(),
    ensures
        i <= bucket_slot(g, k, i) <= g.len(),
        forall|j: int| i <= j < bucket_slot(g, k, i) ==> key_lt(#[trigger] g[j].0, k),
        bucket_slot(g, k, i) < g.len() ==> !key_lt(g[bucket_slot(g, k, i)].0, k),
    decreases g.len() - i,
{
    if i < g.len() && key_lt(g[i].0, k) {
        lemma_bucket_slot_bounds(g, k, i + 1);
    }
}

/// The grouping after charging `fact` to the bucket keyed `k`.
pub open spec fn upsert_bucket(g: Grouping, k: KeyView, fact: InvocationFact) -> Grouping {
    let i = bucket_slot(g, k, 0);
    if 0 <= i < g.len() && g[i].0 == k {
        g.update(i, (k, after_fact(g[i].1, fact)))
    } else {
        g.insert(i, (k, after_fact(empty_state(), fact)))
    }
}

/// The bucket `fact` is charged to.
pub open spec fn fact_key(fact: InvocationFact, tasks: Seq<(String, Option<String>)>) -> KeyView {
    classify_spec(strings_view(fact.task_ids@), tasks)
}

/// Every invocation of `facts`, in order, charged to its bucket.
pub open spec fn grouped(facts: Seq<InvocationFact>, tasks: Seq<(String, Option<String>)>) -> Grouping
    decreases facts.len(),
{
    if facts.len() == 0 {
        Seq::empty()
    } else {
        upsert_bucket(grouped(facts.drop_last(), tasks), fact_key(facts.last(), tasks), facts.last())
    }
}

/// The normalized tokens and linked tasks of all of `facts`.
pub open spec fn overall(facts: Seq<InvocationFact>) -> (NormalizedTokenSummary, Set<Seq<char>>)
    decreases facts.len(),
{
    if facts.len() == 0 {
        (empty_summary(), Set::empty())
    } else {
        let p = overall(facts.drop_last());
        (
            with_invocation(p.0, fact_normalized(facts.last())),
            p.1.union(strings_view(facts.last().task_ids@).to_set()),
        )
    }
}

pub open spec fn keys_sorted(g: Grouping) -> bool {
    forall|i: int, j: int| 0 <= i < j < g.len() ==> key_lt(#[trigger] g[i].0, #[trigger] g[j].0)
}

struct KeyedBucket {
    key: BucketKey,
    acc: BucketAccumulator,
}

spec fn keyed_view(s: Seq<KeyedBucket>) -> Grouping {
    s.map_values(|b: KeyedBucket| (key_view(b.key), b.acc.state()))
}

spec fn keyed_wf(s: Seq<KeyedBucket>) -> bool {
    &&& keys_sorted(keyed_view(s))
    &&& forall|i: int| 0 <= i < s.len() ==> (#[trigger] s[i]).acc.wf()
}

/// The integer part of the orchestrator accounting report.
#[derive(Debug)]
pub struct OrchestratorTotals {
    pub buckets: Vec<BucketSummary>,
    pub normalized_tokens: NormalizedTokenSummary,
}

proof fn lemma_insert_keeps_sorted(g: Grouping, k: int, e: (KeyView, BucketState))
    requires
        keys_sorted(g),
        0 <= k <= g.len(),
        forall|j: int| 0 <= j < k ==> key_lt(#[trigger] g[j].0, e.0),
        k < g.len() ==> key_lt(e.0, g[k].0),
    ensures
        keys_sorted(g.insert(k, e)),
{
    let t = g.insert(k, e);
    assert forall|i: int, j: int| 0 <= i < j < t.len() implies key_lt(#[trigger] t[i].0, #[trigger] t[j].0) by {
        if j < k {
            assert(t[i] == g[i] && t[j] == g[j]);
        } else if j == k {
            assert(t[i] == g[i]);
        } else if i < k {
            assert(t[i] == g[i] && t[j] == g[j - 1]);
            if j - 1 > k {
                lemma_key_transitive(e.0, g[k].0, g[j - 1].0);
            }
            lemma_key_transitive(g[i].0, e.0, g[j - 1].0);
        } else if i == k {
            assert(t[j] == g[j - 1]);
            if j - 1 > k {
                lemma_key_transitive(e.0, g[k].0, g[j - 1].0);
            }
        } else {
            assert(t[i] == g[i - 1]);
            assert(t[j] == g[j - 1]);
        }
    }
}

/// Charges every invocation to its bucket (see `classify_invocation`) and
/// reports the buckets in bucket order, with the normalized tokens of all
/// invocations.
pub fn orchestrator_totals(facts: &Vec<InvocationFact>, task_orchestrators: &Vec<(String, Option<String>)>) -> (r:
    OrchestratorTotals)
    ensures
        r.buckets.len() == grouped(facts@, task_orchestrators@).len(),
        forall|i: int|
            0 <= i < r.buckets.len() ==> summary_matches(
                #[trigger] r.buckets@[i],
                grouped(facts@, task_orchestrators@)[i].0.0,
                grouped(facts@, task_orchestrators@)[i].0.1,
                grouped(facts@, task_orchestrators@)[i].1,
            ),
        keys_sorted(grouped(facts@, task_orchestrators@)),
        forall|i: int|
            0 <= i < r.buckets.len() ==> strictly_sorted(
                model_names(#[trigger] grouped(facts@, task_orchestrators@)[i].1.models),
            ),
        r.normalized_tokens == finished(overall(facts@).0, overall(facts@).1),
{
    let ghost tasks = task_orchestrators@;
    let mut buckets: Vec<KeyedBucket> = Vec::new();
    let mut all = TokenAccumulator::new();
    assert(keyed_view(buckets@) =~= grouped(facts@.subrange(0, 0), tasks));
    let mut i: usize = 0;
    while i < facts.len()
        invariant
            i <= facts.len(),
            tasks == task_orchestrators@,
            keyed_wf(buckets@),
            keyed_view(buckets@) == grouped(facts@.subrange(0, i as int), tasks),
            all.wf(),
            (all.totals(), all.linked()) == overall(facts@.subrange(0, i as int)),
        decreases facts.len() - i,
    {
        let fact = &facts[i];
        let ghost prefix = facts@.subrange(0, i + 1);
        assert(prefix.drop_last() =~= facts@.subrange(0, i as int));
        assert(prefix.last() == *fact);
        let normalized = match &fact.model {
            Some(_) => fact.normalized,
            None => None,
        };
        all.add(&fact.task_ids, normalized);
        let key = classify_invocation(&fact.task_ids, task_orchestrators);
        let ghost g = keyed_view(buckets@);
        let ghost kv = key_view(key);
        assert(kv == fact_key(*fact, tasks));
        let mut k: usize = 0;
        while k < buckets.len() && key_less(&buckets[k].key, &key)
            invariant
                k <= buckets.len(),
                g == keyed_view(buckets@),
                keyed_wf(buckets@),
                kv == key_view(key),
                bucket_slot(g, kv, k as int) == bucket_slot(g, kv, 0),
            decreases buckets.len() - k,
        {
            assert(g[k as int].0 == key_view(buckets@[k as int].key));
            k += 1;
        }
        proof {
            if k < buckets.len() {
                assert(g[k as int].0 == key_view(buckets@[k as int].key));
            }
            lemma_bucket_slot_bounds(g, kv, 0);
        }
        if k < buckets.len() && key_same(&buckets[k].key, &key) {
            let mut entry = buckets.remove(k);
            assert(entry.acc.wf());
            entry.acc.add(fact);
            let ghost e = (key_view(entry.key), entry.acc.state());
            buckets.insert(k, entry);
            proof {
                assert(keyed_view(buckets@) =~= g.update(k as int, e));
                assert forall|a: int, b: int| 0 <= a < b < keyed_view(buckets@).len() implies key_lt(
                    #[trigger] keyed_view(buckets@)[a].0,
                    #[trigger] keyed_view(buckets@)[b].0,
                ) by {
                    assert(keyed_view(buckets@)[a].0 == g[a].0);
                    assert(keyed_view(buckets@)[b].0 == g[b].0);
                }
            }
        } else {
            let mut acc = BucketAccumulator::new();
            acc.add(fact);
            let entry = KeyedBucket { key, acc };
            let ghost e = (kv, entry.acc.state());
            buckets.insert(k, entry);
            proof {
                if k < g.len() {
                    lemma_key_trichotomy(g[k as int].0, kv);
                }
                lemma_insert_keeps_sorted(g, k as int, e);
                assert(keyed_view(buckets@) =~= g.insert(k as int, e));
            }
        }
        i += 1;
    }
    assert(facts@.subrange(0, facts.len() as int) =~= facts@);
    let ghost g = keyed_view(buckets@);
    let mut out: Vec<BucketSummary> = Vec::new();
    let mut j: usize = 0;
    while j < buckets.len()
        invariant
            j <= buckets.len(),
            g == keyed_view(buckets@),
            keyed_wf(buckets@),
            out.len() == j,
            forall|m: int| 0 <= m < j ==> summary_matches(#[trigger] out@[m], g[m].0.0, g[m].0.1, g[m].1),
            forall|m: int| 0 <= m < j ==> strictly_sorted(model_names(#[trigger] g[m].1.models)),
        decreases buckets.len() - j,
    {
        assert(buckets@[j as int].acc.wf());
        let orchestrator = match &buckets[j].key.orchestrator {
            Some(o) => Some(copy_string(o.as_str())),
            None => None,
        };
        let summary = buckets[j].acc.finish(buckets[j].key.kind, orchestrator);
        out.push(summary);
        j += 1;
    }
    OrchestratorTotals { buckets: out, normalized_tokens: all.finish() }
}

/// The invocations counted over all buckets.
pub open spec fn total_invocations(g: Grouping) -> int
    decreases g.len(),
{
    if g.len() == 0 {
        0
    } else {
        total_invocations(g.drop_last()) + g.last().1.counts.invocation_count
    }
}

proof fn lemma_total_update(g: Grouping, i: int, e: (KeyView, BucketState))
    requires
        0 <= i < g.len(),
    ensures
        total_invocations(g.update(i, e)) == total_invocations(g) - g[i].1.counts.invocation_count
            + e.1.counts.invocation_count,
    decreases g.len(),
{
    let u = g.update(i, e);
    if i < g.len() - 1 {
        assert(u.drop_last() =~= g.drop_last().update(i, e));
        lemma_total_update(g.drop_last(), i, e);
    } else {
        assert(u.drop_last() =~= g.drop_last());
    }
}

proof fn lemma_total_insert(g: Grouping, i: int, e: (KeyView, BucketState))
    requires
        0 <= i <= g.len(),
    ensures
        total_invocations(g.insert(i, e)) == total_invocations(g) + e.1.counts.invocation_count,
    decreases g.len(),
{
    let u = g.insert(i, e);
    if i < g.len() {
        assert(u.drop_last() =~= g.drop_last().insert(i, e));
        lemma_total_insert(g.drop_last(), i, e);
    } else {
        assert(u.drop_last() =~= g);
    }
}

proof fn lemma_total_nonneg(g: Grouping)
    ensures
        total_invocations(g) >= 0,
    decreases g.len(),
{
    if g.len() > 0 {
        lemma_total_nonneg(g.drop_last());
    }
}

proof fn lemma_count_within_total(g: Grouping, i: int)
    requires
        0 <= i < g.len(),
    ensures
        g[i].1.counts.invocation_count <= total_invocations(g),
    decreases g.len(),
{
    lemma_total_nonneg(g.drop_last());
    if i < g.len() - 1 {
        lemma_count_within_total(g.drop_last(), i);
    }
}

/// Every invocation is charged to exactly one bucket: the bucket counts add
/// up to the number of invocations, as does the overall normalized count
/// (while no count saturates).
pub proof fn law_every_invocation_counted_once(facts: Seq<InvocationFact>, tasks: Seq<(String, Option<String>)>)
    requires
        facts.len() <= u64::MAX,
    ensures
        total_invocations(grouped(facts, tasks)) == facts.len(),
        overall(facts).0.invocation_count == facts.len(),
    decreases facts.len(),
{
    if facts.len() > 0 {
        let prefix = facts.drop_last();
        law_every_invocation_counted_once(prefix, tasks);
        let g = grouped(prefix, tasks);
        let k = fact_key(facts.last(), tasks);
        let i = bucket_slot(g, k, 0);
        lemma_bucket_slot_bounds(g, k, 0);
        if 0 <= i < g.len() && g[i].0 == k {
            lemma_count_within_total(g, i);
            lemma_total_update(g, i, (k, after_fact(g[i].1, facts.last())));
        } else {
            lemma_total_insert(g, i, (k, after_fact(empty_state(), facts.last())));
        }
    }
}

/// Every invocation is either priced by its provider or counted missing,
/// and either derived-priced or counted unpriced; a comparable invocation
/// has both prices.
pub open spec fn counters_consistent(c: BucketCounts) -> bool {
    &&& c.provider_cost_count + c.missing_provider_count == c.invocation_count
    &&& c.derived_cost_count + c.unpriced_derived_count == c.invocation_count
    &&& c.comparable_cost_count <= c.provider_cost_count
    &&& c.comparable_cost_count <= c.derived_cost_count
}

/// A fresh bucket's counters are consistent, and charging one more
/// invocation keeps them so (while the invocation count has room): the
/// invocation count grows by one, the comparable count grows exactly when
/// both prices are valid, and each token total grows by the invocation's
/// tokens, saturating.
pub proof fn law_counters_stay_consistent(c: BucketCounts, usage: TokenUsage, provider: bool, derived: bool)
    requires
        counters_consistent(c),
        c.invocation_count < u64::MAX,
    ensures
        counters_consistent(zero_counts()),
        counters_consistent(with_fact_counts(c, usage, provider, derived)),
        with_fact_counts(c, usage, provider, derived).invocation_count == c.invocation_count + 1,
        with_fact_counts(c, usage, provider, derived).comparable_cost_count == c.comparable_cost_count
            + if provider && derived {
            1int
        } else {
            0int
        },
        with_fact_counts(c, usage, provider, derived).input_tokens == sat(c.input_tokens as int, usage.input as int),
        with_fact_counts(c, usage, provider, derived).output_tokens == sat(c.output_tokens as int, usage.output as int),
{
}

} // verus!
