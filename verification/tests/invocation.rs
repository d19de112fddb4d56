use orbit_core::accounting::{orchestrator_totals, BucketAccumulator, BucketSummary, InvocationFact};
use orbit_core::invocation::{
    classify_invocation, effective_window, BucketKey, OrchestratorMetricsBucketKind, TokenAccumulator,
    TokenUsage,
};
use orbit_core::session_log::Timestamp;

fn tasks() -> Vec<(String, Option<String>)> {
    vec![
        ("ORB-1".into(), Some("alpha".into())),
        ("ORB-2".into(), Some("alpha".into())),
        ("ORB-3".into(), Some("beta".into())),
        ("ORB-4".into(), None),
    ]
}

fn ids(v: &[&str]) -> Vec<String> {
    v.iter().map(|s| s.to_string()).collect()
}

const PRICED_MODEL: &str = "priced-model";
const UNPRICED_MODEL: &str = "unpriced-model";

fn fact(task_ids: Vec<String>, model: &str, provider_priced: bool) -> InvocationFact {
    let usage = TokenUsage { input: 10, cache_read: 2, cache_create: 3, cache_create_1h: 4, output: 5 };
    let priced = model == PRICED_MODEL;
    InvocationFact {
        task_ids,
        model: Some(model.to_string()),
        usage,
        normalized: if priced { Some(usage) } else { None },
        provider_priced,
        derived_priced: priced,
    }
}

fn bucket<'a>(
    buckets: &'a [BucketSummary],
    kind: OrchestratorMetricsBucketKind,
    orchestrator: Option<&str>,
) -> &'a BucketSummary {
    buckets
        .iter()
        .find(|b| b.kind == kind && b.orchestrator.as_deref() == orchestrator)
        .expect("metrics bucket")
}

#[test]
fn orchestrator_accounting_classifies_conservatively_and_reconciles_every_population() {
    let invocations = [
        ids(&["ORB-1", "ORB-1"]),
        ids(&["ORB-1", "ORB-2"]),
        ids(&["ORB-1", "ORB-3"]),
        ids(&[]),
        ids(&["ORB-4"]),
        ids(&["ORB-1", "ORB-4"]),
        ids(&["ORB-MISSING"]),
        ids(&["ORB-1", "ORB-MISSING-TOO"]),
    ];
    let keys: Vec<BucketKey> = invocations.iter().map(|t| classify_invocation(t, &tasks())).collect();
    let count = |kind, orchestrator: Option<&str>| {
        keys.iter().filter(|k| k.kind == kind && k.orchestrator.as_deref() == orchestrator).count()
    };
    assert_eq!(count(OrchestratorMetricsBucketKind::Orchestrator, Some("alpha")), 2);
    assert_eq!(count(OrchestratorMetricsBucketKind::Shared, None), 1);
    assert_eq!(count(OrchestratorMetricsBucketKind::Unattributed, None), 3);
    assert_eq!(count(OrchestratorMetricsBucketKind::Missing, None), 2);

    // Provider costs 1.0, none, 2.0, none, 3.0, -1.0 (invalid), 4.0, none.
    let facts = vec![
        fact(invocations[0].clone(), PRICED_MODEL, true),
        fact(invocations[1].clone(), PRICED_MODEL, false),
        fact(invocations[2].clone(), UNPRICED_MODEL, true),
        fact(invocations[3].clone(), UNPRICED_MODEL, false),
        fact(invocations[4].clone(), PRICED_MODEL, true),
        fact(invocations[5].clone(), PRICED_MODEL, false),
        fact(invocations[6].clone(), PRICED_MODEL, true),
        fact(invocations[7].clone(), UNPRICED_MODEL, false),
    ];
    let metrics = orchestrator_totals(&facts, &tasks());
    let buckets = &metrics.buckets;
    assert_eq!(buckets.len(), 4);
    assert_eq!(
        bucket(buckets, OrchestratorMetricsBucketKind::Orchestrator, Some("alpha")).counts.invocation_count,
        2,
        "duplicate and same-owner task links charge alpha once per invocation"
    );
    assert_eq!(bucket(buckets, OrchestratorMetricsBucketKind::Shared, None).counts.invocation_count, 1);
    assert_eq!(
        bucket(buckets, OrchestratorMetricsBucketKind::Unattributed, None).counts.invocation_count,
        3,
        "no tasks and partial unattribution stay unattributed"
    );
    assert_eq!(
        bucket(buckets, OrchestratorMetricsBucketKind::Missing, None).counts.invocation_count,
        2,
        "a missing task takes precedence over a known owner"
    );
    let sum = |f: fn(&BucketSummary) -> u64| buckets.iter().map(f).sum::<u64>();
    assert_eq!(sum(|b| b.counts.invocation_count), 8);
    assert_eq!(sum(|b| b.counts.input_tokens), 80);
    assert_eq!(sum(|b| b.counts.cache_read_tokens), 16);
    assert_eq!(sum(|b| b.counts.cache_create_tokens), 24);
    assert_eq!(sum(|b| b.counts.cache_create_1h_tokens), 32);
    assert_eq!(sum(|b| b.counts.output_tokens), 40);
    let normalized = &metrics.normalized_tokens;
    assert_eq!(normalized.invocation_count, 8);
    assert_eq!(normalized.covered_invocation_count, 5);
    assert_eq!(normalized.unknown_input_basis_or_model_count, 3);
    assert_eq!(normalized.uncached_input_tokens, 50);
    assert_eq!(normalized.cache_read_tokens, 10);
    assert_eq!(normalized.cache_create_tokens, 15);
    assert_eq!(normalized.cache_create_1h_tokens, 20);
    assert_eq!(normalized.output_tokens, 25);
    assert_eq!(normalized.normalized_token_total, 120);
    assert_eq!(sum(|b| b.counts.provider_cost_count + b.counts.missing_provider_count), 8);
    assert_eq!(sum(|b| b.counts.derived_cost_count + b.counts.unpriced_derived_count), 8);
    assert_eq!(
        sum(|b| b.counts.comparable_cost_count),
        3,
        "only invocations with both valid costs enter comparable sums"
    );
    assert_eq!(
        sum(|b| b.counts.provider_cost_count),
        4,
        "provider-only and both-cost rows contribute provider cost"
    );
    assert_eq!(
        sum(|b| b.counts.derived_cost_count),
        5,
        "derived-only and both-cost rows contribute derived cost"
    );
}

#[test]
fn orchestrator_accounting_treats_invalid_gross_price_inputs_as_unpriced() {
    let usage = TokenUsage { input: 1, cache_read: 2, cache_create: 3, cache_create_1h: 4, output: 5 };
    let facts = vec![InvocationFact {
        task_ids: Vec::new(),
        model: Some("gpt-5.6-sol-2026-07-20".to_string()),
        usage,
        normalized: None,
        provider_priced: true,
        derived_priced: false,
    }];
    let metrics = orchestrator_totals(&facts, &tasks());
    let unattributed = bucket(&metrics.buckets, OrchestratorMetricsBucketKind::Unattributed, None);
    assert_eq!(unattributed.counts.provider_cost_count, 1);
    assert_eq!(unattributed.counts.derived_cost_count, 0);
    assert_eq!(unattributed.counts.unpriced_derived_count, 1);
    assert_eq!(unattributed.counts.comparable_cost_count, 0);
}

#[test]
fn buckets_come_out_in_key_order_with_models_by_name() {
    let facts = vec![
        fact(ids(&["ORB-4"]), PRICED_MODEL, false),
        fact(ids(&["ORB-3"]), PRICED_MODEL, false),
        fact(ids(&["ORB-MISSING"]), PRICED_MODEL, false),
        fact(ids(&["ORB-1"]), PRICED_MODEL, false),
        fact(ids(&["ORB-1", "ORB-3"]), PRICED_MODEL, false),
    ];
    let metrics = orchestrator_totals(&facts, &tasks());
    let order: Vec<(OrchestratorMetricsBucketKind, Option<String>)> =
        metrics.buckets.iter().map(|b| (b.kind, b.orchestrator.clone())).collect();
    assert_eq!(
        order,
        vec![
            (OrchestratorMetricsBucketKind::Orchestrator, Some("alpha".to_string())),
            (OrchestratorMetricsBucketKind::Orchestrator, Some("beta".to_string())),
            (OrchestratorMetricsBucketKind::Shared, None),
            (OrchestratorMetricsBucketKind::Unattributed, None),
            (OrchestratorMetricsBucketKind::Missing, None),
        ]
    );

    let mut acc = BucketAccumulator::new();
    let usage = TokenUsage { input: 1, cache_read: 0, cache_create: 0, cache_create_1h: 0, output: 1 };
    for (model, task) in [("zeta", "ORB-1"), ("alpha", "ORB-2"), ("zeta", "ORB-3"), ("mid", "ORB-2")] {
        acc.add(&InvocationFact {
            task_ids: ids(&[task]),
            model: Some(model.to_string()),
            usage,
            normalized: Some(usage),
            provider_priced: false,
            derived_priced: false,
        });
    }
    acc.add(&InvocationFact {
        task_ids: ids(&["ORB-9"]),
        model: None,
        usage,
        normalized: Some(usage),
        provider_priced: true,
        derived_priced: true,
    });
    let summary = acc.finish(OrchestratorMetricsBucketKind::Shared, None);
    let models: Vec<(&str, u64, u64)> = summary
        .models
        .iter()
        .map(|m| (m.model.as_str(), m.tokens.invocation_count, m.tokens.linked_task_count))
        .collect();
    assert_eq!(models, vec![("alpha", 1, 1), ("mid", 1, 1), ("zeta", 2, 2)]);
    assert_eq!(summary.counts.invocation_count, 5);
    assert_eq!(summary.counts.comparable_cost_count, 1);
    assert_eq!(summary.counts.missing_provider_count, 4);
    assert_eq!(summary.linked_task_count, 4);
    assert_eq!(summary.normalized_tokens.covered_invocation_count, 4);
    assert_eq!(summary.normalized_tokens.unknown_input_basis_or_model_count, 1);
    assert_eq!(summary.normalized_tokens.normalized_token_total, 8);
}

#[test]
fn orchestrator_accounting_rejects_inverted_or_empty_effective_windows() {
    let now = Timestamp { secs: 1_700_000_000, nanos: 0 };
    let before = Timestamp { secs: 1_699_999_999, nanos: 0 };
    assert!(effective_window(Some(now), Some(before), now).is_err());
    let future = Timestamp { secs: 1_700_000_060, nanos: 0 };
    let later = Timestamp { secs: 1_700_000_120, nanos: 0 };
    assert!(
        effective_window(Some(future), Some(later), now).is_err(),
        "future requests still use as_of as the effective cutoff"
    );
    assert_eq!(effective_window(None, Some(later), now).unwrap(), now);
    assert_eq!(effective_window(Some(before), None, now).unwrap(), now);
    assert_eq!(effective_window(None, Some(before), now).unwrap(), before);
}

#[test]
fn token_totals_saturate_and_count_distinct_tasks() {
    let mut acc = TokenAccumulator::new();
    let usage = TokenUsage { input: 10, cache_read: 5, cache_create: 1, cache_create_1h: 2, output: 3 };
    acc.add(&ids(&["ORB-2", "ORB-1"]), Some(usage));
    acc.add(&ids(&["ORB-1"]), None);
    let big = TokenUsage { input: u64::MAX, cache_read: 0, cache_create: 0, cache_create_1h: 0, output: 0 };
    acc.add(&ids(&[]), Some(big));
    let summary = acc.finish();
    assert_eq!(summary.invocation_count, 3);
    assert_eq!(summary.covered_invocation_count, 2);
    assert_eq!(summary.unknown_input_basis_or_model_count, 1);
    assert_eq!(summary.uncached_input_tokens, u64::MAX);
    assert_eq!(summary.normalized_token_total, u64::MAX);
    assert_eq!(summary.output_tokens, 3);
    assert_eq!(summary.linked_task_count, 2);
}

#[test]
fn bucket_price_counters_stay_consistent() {
    let facts = vec![
        fact(ids(&["ORB-1"]), PRICED_MODEL, true),
        fact(ids(&["ORB-1"]), UNPRICED_MODEL, true),
        fact(ids(&["ORB-2"]), PRICED_MODEL, false),
        fact(ids(&[]), UNPRICED_MODEL, false),
    ];
    for b in orchestrator_totals(&facts, &tasks()).buckets {
        let c = b.counts;
        assert_eq!(c.provider_cost_count + c.missing_provider_count, c.invocation_count);
        assert_eq!(c.derived_cost_count + c.unpriced_derived_count, c.invocation_count);
        assert!(c.comparable_cost_count <= c.provider_cost_count.min(c.derived_cost_count));
    }
}
