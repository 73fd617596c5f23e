//! Reads across the nodes: consistency, limits, who is asked, and what the answers amount to.

use std::collections::BTreeMap;

use tsink_cluster::query::{
    ClusterReadConsistency, ClusterReadPartialResponsePolicy, ReadFanoutError, ReadMergeLimits,
    ReadPlanOwnerMode, ReadPolicy, ReadResourceGuardrails,
};
use tsink_cluster::query_fanout::{
    acknowledge_shards, AcquireOutcome, ReadFanoutExecutor, FANOUT_OPERATION_LIST_METRICS,
    FANOUT_OPERATION_SELECT_SERIES, READ_RESOURCE_GLOBAL_MERGED_POINTS,
    READ_RESOURCE_GLOBAL_QUERY_SLOTS,
};
use tsink_cluster::query_metrics::{
    read_fanout_labeled_metrics_snapshot, read_fanout_metrics_snapshot, ReadFanoutMetrics,
    FANOUT_REMOTE_REQUEST_LATENCY_BUCKETS_SECONDS,
};
use tsink_cluster::query_points::{
    batch_ranges, gather_points, judge_batch, judge_single, series_asked_of, BatchStep,
    MergedPoints, ReadPlanTarget, SeriesRequest,
};
use tsink_cluster::ring::{ShardRing, ShardRingSnapshot, CURRENT_RING_HASH_VERSION};
use tsink_cluster::rpc_client::RpcError;
use tsink_cluster::rpc_types::{DataPoint, Label, MetricSeries, PointValue};

const NODES: [&str; 3] = ["node-a", "node-b", "node-c"];

fn ring(shard_count: u32, replicas: usize) -> ShardRing {
    let assignments = (0..shard_count as usize)
        .map(|shard| {
            (0..replicas)
                .map(|replica| NODES[(shard + replica) % NODES.len()].to_string())
                .collect()
        })
        .collect();
    ShardRing::from_snapshot(ShardRingSnapshot {
        hash_version: CURRENT_RING_HASH_VERSION,
        shard_count,
        replication_factor: replicas as u16,
        virtual_nodes_per_node: 128,
        assignments,
    })
    .expect("ring should build")
}

fn limits() -> ReadMergeLimits {
    ReadMergeLimits {
        max_series: 1_000,
        max_points_per_series: 10_000,
        max_total_points: 1_000_000,
    }
}

fn executor_with(
    consistency: ClusterReadConsistency,
    policy: ClusterReadPartialResponsePolicy,
    limits: ReadMergeLimits,
    guardrails: ReadResourceGuardrails,
) -> ReadFanoutExecutor {
    ReadFanoutExecutor::new(
        "node-a".to_string(),
        ring(64, 3),
        4,
        consistency,
        policy,
        Ok(limits),
        guardrails,
    )
    .expect("fanout executor should build")
}

fn executor(consistency: ClusterReadConsistency) -> ReadFanoutExecutor {
    executor_with(
        consistency,
        ClusterReadPartialResponsePolicy::Allow,
        limits(),
        ReadResourceGuardrails::default(),
    )
}

fn series_request(candidate: u64, series_id: u64) -> SeriesRequest {
    SeriesRequest {
        identity: format!("consistency_metric{{candidate={candidate:08}}}"),
        display: format!("consistency_metric{{candidate=\"{candidate}\"}}"),
        series_id,
        series: MetricSeries {
            name: "consistency_metric".to_string(),
            labels: vec![Label {
                name: "candidate".to_string(),
                value: candidate.to_string(),
            }],
        },
    }
}

fn targets(names: &[&str]) -> Vec<ReadPlanTarget> {
    names
        .iter()
        .map(|name| ReadPlanTarget {
            node_id: name.to_string(),
            endpoint: format!("{name}.example:9300"),
            shards: Vec::new(),
        })
        .collect()
}

#[test]
fn strict_mode_requires_full_consistency() {
    assert!(ReadPolicy::new(ClusterReadConsistency::Strict).requires_full_consistency());
    assert!(!ReadPolicy::new(ClusterReadConsistency::Eventual).requires_full_consistency());
}

#[test]
fn policies_ask_for_their_share_of_the_replicas() {
    let quorum = ReadPolicy::new(ClusterReadConsistency::Quorum);
    assert_eq!(quorum.required_acks(0), 1);
    assert_eq!(quorum.required_acks(3), 2);
    assert_eq!(quorum.required_acks(4), 3);
    assert_eq!(quorum.mode(), ClusterReadConsistency::Quorum);
    let strict = ReadPolicy::new(ClusterReadConsistency::Strict);
    assert_eq!(strict.required_acks(3), 3);
    let eventual = ReadPolicy::new(ClusterReadConsistency::Eventual);
    assert_eq!(eventual.required_acks(3), 1);
    assert_eq!(
        eventual.metadata_owner_mode(),
        ReadPlanOwnerMode::PrimaryOnly
    );
    assert_eq!(strict.points_owner_mode(), ReadPlanOwnerMode::AllReplicas);
}

#[test]
fn rejects_zero_fanout_concurrency() {
    let err = ReadFanoutExecutor::new(
        "node-a".to_string(),
        ring(64, 1),
        0,
        ClusterReadConsistency::Eventual,
        ClusterReadPartialResponsePolicy::Allow,
        Ok(limits()),
        ReadResourceGuardrails::default(),
    )
    .expect_err("zero concurrency should fail");
    assert!(err.contains("fanout concurrency"));
}

#[test]
fn rejects_invalid_resource_guardrails() {
    let err = ReadResourceGuardrails {
        max_inflight_queries: 0,
        max_inflight_merged_points: 1,
        acquire_timeout_ms: 1,
    }
    .validate()
    .expect_err("zero in-flight query limit should fail");
    assert!(err.contains("max in-flight queries"));

    let err = ReadResourceGuardrails {
        max_inflight_queries: 1,
        max_inflight_merged_points: 0,
        acquire_timeout_ms: 1,
    }
    .validate()
    .expect_err("zero in-flight merged points should fail");
    assert!(err.contains("max in-flight merged points"));

    let err = ReadResourceGuardrails {
        max_inflight_queries: 1,
        max_inflight_merged_points: u32::MAX as usize + 1,
        acquire_timeout_ms: 1,
    }
    .validate()
    .expect_err("too many in-flight merged points should fail");
    assert_eq!(
        err,
        "read max in-flight merged points must be <= 4294967295, got 4294967296"
    );
}

#[test]
fn wrong_settings_are_refused_one_after_the_other() {
    let build = |concurrency, merge: Result<ReadMergeLimits, String>, guardrails| {
        ReadFanoutExecutor::new(
            "node-a".to_string(),
            ring(64, 1),
            concurrency,
            ClusterReadConsistency::Eventual,
            ClusterReadPartialResponsePolicy::Allow,
            merge,
            guardrails,
        )
    };
    let broken = ReadResourceGuardrails {
        max_inflight_queries: 0,
        ..ReadResourceGuardrails::default()
    };
    assert_eq!(
        build(1, Err("no series allowed".to_string()), broken).expect_err("limits come first"),
        "no series allowed"
    );
    assert!(build(1, Ok(limits()), broken).is_err());
}

#[test]
fn select_points_fails_when_global_merged_points_limit_is_exceeded() {
    let executor = executor_with(
        ClusterReadConsistency::Eventual,
        ClusterReadPartialResponsePolicy::Allow,
        ReadMergeLimits {
            max_series: 16,
            max_points_per_series: 100,
            max_total_points: 100,
        },
        ReadResourceGuardrails {
            max_inflight_queries: 1,
            max_inflight_merged_points: 32,
            acquire_timeout_ms: 10,
        },
    );
    let mut metrics = ReadFanoutMetrics::new();
    let budget = executor.points_budget_estimate(1);
    let err = executor
        .begin_acquire(&mut metrics, budget)
        .expect_err("global merged points limit should fail request");
    match err {
        ReadFanoutError::ResourceLimitExceeded {
            resource,
            requested,
            limit,
            retryable,
        } => {
            assert_eq!(resource, READ_RESOURCE_GLOBAL_MERGED_POINTS);
            assert_eq!(requested, 100);
            assert_eq!(limit, 32);
            assert!(!retryable);
        }
        other => panic!("unexpected error: {other:?}"),
    }
    assert_eq!(
        read_fanout_metrics_snapshot(&metrics).resource_rejections_total,
        1
    );
}

#[test]
fn global_query_slot_timeout_returns_retryable_resource_limit_error() {
    let executor = executor_with(
        ClusterReadConsistency::Eventual,
        ClusterReadPartialResponsePolicy::Allow,
        limits(),
        ReadResourceGuardrails {
            max_inflight_queries: 1,
            max_inflight_merged_points: 100,
            acquire_timeout_ms: 5,
        },
    );
    let mut metrics = ReadFanoutMetrics::new();
    let requested = executor
        .begin_acquire(&mut metrics, 1)
        .expect("first lease should begin");
    executor
        .judge_query_slot(&mut metrics, AcquireOutcome::Granted)
        .expect("first lease should get its slot");
    executor
        .judge_merged_points(&mut metrics, requested, AcquireOutcome::Granted, 7)
        .expect("first lease should get its points");
    let held = read_fanout_metrics_snapshot(&metrics);
    assert_eq!(held.resource_active_queries, 1);
    assert_eq!(held.resource_active_merged_points, 1);
    assert_eq!(held.resource_acquire_wait_nanos_total, 7);

    let err = executor
        .judge_query_slot(&mut metrics, AcquireOutcome::TimedOut)
        .expect_err("second lease should fail while query slot is held");
    assert!(err.retryable());
    match err {
        ReadFanoutError::ResourceLimitExceeded {
            resource,
            requested,
            limit,
            retryable,
        } => {
            assert_eq!(resource, READ_RESOURCE_GLOBAL_QUERY_SLOTS);
            assert_eq!(requested, 1);
            assert_eq!(limit, 1);
            assert!(retryable);
        }
        other => panic!("unexpected error: {other:?}"),
    }

    metrics.track_resource_released(requested as u64);
    let after = read_fanout_metrics_snapshot(&metrics);
    assert_eq!(after.resource_active_queries, 0);
    assert_eq!(after.resource_active_merged_points, 0);
    assert_eq!(after.resource_rejections_total, 1);
}

#[test]
fn closed_resources_are_refused_for_good() {
    let executor = executor(ClusterReadConsistency::Eventual);
    let mut metrics = ReadFanoutMetrics::new();
    let slot = executor
        .judge_query_slot(&mut metrics, AcquireOutcome::Closed)
        .expect_err("a closed slot is refused");
    assert!(!slot.retryable());
    let points = executor
        .judge_merged_points(&mut metrics, 5, AcquireOutcome::Closed, 0)
        .expect_err("closed points are refused");
    assert!(!points.retryable());
    let waited = executor
        .judge_merged_points(&mut metrics, 5, AcquireOutcome::TimedOut, 0)
        .expect_err("points that did not come in time are refused");
    assert!(waited.message().contains("retry later"));
}

#[test]
fn budgets_are_estimated_within_the_limits() {
    let executor = executor(ClusterReadConsistency::Eventual);
    assert_eq!(executor.metadata_budget_estimate(), 1_000);
    assert_eq!(executor.points_budget_estimate(0), 1);
    assert_eq!(executor.points_budget_estimate(3), 30_000);
    assert_eq!(executor.points_budget_estimate(usize::MAX), 1_000_000);
}

#[test]
fn eventual_mode_prefers_primary_replica() {
    let executor = executor(ClusterReadConsistency::Eventual);
    let owners = executor
        .owners_for_series(64 + 1, ReadPlanOwnerMode::PrimaryOnly)
        .expect("owners should resolve");
    assert_eq!(owners, vec!["node-b".to_string()]);
    let all = executor
        .owners_for_series(64 + 1, ReadPlanOwnerMode::AllReplicas)
        .expect("owners should resolve");
    assert_eq!(
        all,
        vec![
            "node-b".to_string(),
            "node-c".to_string(),
            "node-a".to_string()
        ]
    );

    let planned = executor
        .plan_points(vec![series_request(0, 1)])
        .expect("points should be planned");
    assert_eq!(planned.len(), 1);
    assert_eq!(planned[0].owners, vec!["node-b".to_string()]);
    assert!(series_asked_of(&planned, "node-a").is_empty());
    let assigned = executor
        .assign_targets(&planned, &targets(&["node-b"]))
        .expect("the owner should be asked");
    assert_eq!(assigned.len(), 1);
    assert_eq!(assigned[0].node_id, "node-b");
    assert_eq!(assigned[0].endpoint, "node-b.example:9300");
}

#[test]
fn eventual_mode_batches_multiple_series_for_same_owner() {
    let executor = executor(ClusterReadConsistency::Eventual);
    let planned = executor
        .plan_points(vec![
            series_request(2, 4),
            series_request(1, 1),
            series_request(2, 4),
        ])
        .expect("points should be planned");
    assert_eq!(planned.len(), 2);
    assert_eq!(planned[0].request.series_id, 1);
    let assigned = executor
        .assign_targets(&planned, &targets(&["node-b", "node-b", "node-c"]))
        .expect("the owner should be asked");
    assert_eq!(assigned.len(), 1);
    assert_eq!(assigned[0].series, vec![0, 1]);
    assert_eq!(batch_ranges(assigned[0].series.len()), vec![(0, 2)]);
}

#[test]
fn series_are_asked_for_in_portions() {
    assert_eq!(batch_ranges(0), Vec::new());
    assert_eq!(batch_ranges(128), vec![(0, 128)]);
    assert_eq!(
        batch_ranges(300),
        vec![(0, 128), (128, 256), (256, 300)]
    );
}

#[test]
fn an_owner_without_endpoint_is_named() {
    let executor = executor(ClusterReadConsistency::Quorum);
    let planned = executor
        .plan_points(vec![series_request(0, 1)])
        .expect("points should be planned");
    let err = executor
        .assign_targets(&planned, &targets(&["node-a"]))
        .expect_err("an owner that cannot be reached is an error");
    assert!(!err.retryable());
    assert_eq!(
        err.message(),
        "read fanout failed: owner node 'node-b' has no known endpoint"
    );
}

fn http_error(status: u16) -> RpcError {
    RpcError::HttpStatus {
        endpoint: "node-b.example:9300".to_string(),
        path: "/internal/v1/select_batch".to_string(),
        status,
        message: "not found".to_string(),
        retryable: false,
    }
}

#[test]
fn eventual_mode_falls_back_to_legacy_select_when_peer_lacks_batch_endpoint() {
    assert!(matches!(
        judge_batch("node-b", "node-b.example:9300", 1, Err(http_error(404))),
        BatchStep::AskSingly
    ));
    assert!(judge_single("node-b", "node-b.example:9300", Ok(())).is_ok());
    assert!(matches!(
        judge_batch("node-b", "node-b.example:9300", 3, Ok(())),
        BatchStep::Take
    ));
    match judge_batch("node-b", "node-b.example:9300", 3, Err(http_error(500))) {
        BatchStep::Fail(error) => {
            assert!(error.message().starts_with(
                "remote select_batch failed for 3 series on node 'node-b' (node-b.example:9300): "
            ));
        }
        other => panic!("unexpected step: {other:?}"),
    }
    match judge_single("node-b", "node-b.example:9300", Err(http_error(404))) {
        Err(ReadFanoutError::RemoteSelectBatch { series_count, .. }) => assert_eq!(series_count, 1),
        other => panic!("unexpected outcome: {other:?}"),
    }
}

#[test]
fn quorum_mode_succeeds_when_primary_is_unavailable() {
    let executor = executor(ClusterReadConsistency::Quorum);
    let planned = executor
        .plan_points(vec![series_request(0, 1)])
        .expect("points should be planned");
    let identity = planned[0].request.identity.clone();
    assert_eq!(planned[0].requirement.required_acks, 2);
    let metadata = executor
        .conclude_points(&planned, &vec![vec![identity.clone()], vec![identity]])
        .expect("two of three replicas are enough");
    assert!(!metadata.partial_response);
    assert!(metadata.warnings.is_empty());
}

#[test]
fn strict_mode_fails_when_any_replica_is_unavailable() {
    let executor = executor(ClusterReadConsistency::Strict);
    let planned = executor
        .plan_points(vec![series_request(0, 1)])
        .expect("points should be planned");
    let identity = planned[0].request.identity.clone();
    let err = executor
        .conclude_points(&planned, &vec![vec![identity.clone()], vec![identity]])
        .expect_err("strict mode should fail when one replica is down");
    match err {
        ReadFanoutError::ConsistencyUnmet {
            mode,
            required_acks,
            acknowledged_acks,
            total_replicas,
            target,
            ..
        } => {
            assert_eq!(mode, ClusterReadConsistency::Strict);
            assert_eq!(required_acks, 3);
            assert_eq!(acknowledged_acks, 2);
            assert_eq!(total_replicas, 3);
            assert_eq!(target, "series consistency_metric{candidate=\"0\"}");
        }
        other => panic!("unexpected error: {other:?}"),
    }
}

#[test]
fn eventual_mode_returns_partial_metadata_when_primary_is_unavailable() {
    let executor = executor(ClusterReadConsistency::Eventual);
    let planned = executor
        .plan_points(vec![series_request(0, 1)])
        .expect("points should be planned");
    let metadata = executor
        .conclude_points(&planned, &Vec::new())
        .expect("partial answers are allowed");
    assert!(metadata.partial_response);
    assert_eq!(metadata.consistency, ClusterReadConsistency::Eventual);
    assert_eq!(
        metadata.partial_response_policy,
        ClusterReadPartialResponsePolicy::Allow
    );
    assert!(metadata
        .warnings
        .iter()
        .any(|warning| warning.contains("mode=eventual")));
    assert_eq!(
        metadata.warnings,
        vec![
            "partial read for select_points on series consistency_metric{candidate=\"0\"}: \
             mode=eventual, required_acks=1, acknowledged_acks=0, total_replicas=1"
                .to_string()
        ]
    );
}

#[test]
fn eventual_mode_fails_when_partial_policy_is_deny() {
    let executor = executor(ClusterReadConsistency::Eventual)
        .with_partial_response_policy(ClusterReadPartialResponsePolicy::Deny);
    let planned = executor
        .plan_points(vec![series_request(0, 1)])
        .expect("points should be planned");
    let err = executor
        .conclude_points(&planned, &Vec::new())
        .expect_err("deny policy should reject partial response");
    assert!(err.retryable());
    match err {
        ReadFanoutError::ConsistencyUnmet {
            mode,
            required_acks,
            acknowledged_acks,
            total_replicas,
            ..
        } => {
            assert_eq!(mode, ClusterReadConsistency::Eventual);
            assert_eq!(required_acks, 1);
            assert_eq!(acknowledged_acks, 0);
            assert_eq!(total_replicas, 1);
        }
        other => panic!("unexpected error: {other:?}"),
    }
}

#[test]
fn too_many_series_are_refused() {
    let executor = executor_with(
        ClusterReadConsistency::Eventual,
        ClusterReadPartialResponsePolicy::Allow,
        ReadMergeLimits {
            max_series: 1,
            ..limits()
        },
        ReadResourceGuardrails::default(),
    );
    let err = executor
        .plan_points(vec![series_request(0, 1), series_request(1, 2)])
        .expect_err("series limit should be enforced");
    match err {
        ReadFanoutError::MergeLimitExceeded { message } => {
            assert!(message.contains("series limit exceeded"));
        }
        other => panic!("unexpected error: {other:?}"),
    }
}

#[test]
fn shards_are_answered_for_or_missed() {
    let executor = executor(ClusterReadConsistency::Quorum);
    let requirements = executor
        .shard_requirements(&vec![10, 9, 10], ReadPlanOwnerMode::AllReplicas)
        .expect("requirements should resolve");
    assert_eq!(requirements.len(), 2);
    let whole = executor
        .conclude_shards(
            FANOUT_OPERATION_SELECT_SERIES,
            &requirements,
            &vec![vec![9, 10], vec![9, 10]],
        )
        .expect("two answers are a quorum");
    assert!(!whole.partial_response);

    let partial = executor
        .conclude_shards(
            FANOUT_OPERATION_LIST_METRICS,
            &requirements,
            &vec![vec![9, 10], vec![9]],
        )
        .expect("partial answers are allowed");
    assert_eq!(
        partial.warnings,
        vec![
            "partial read for list_metrics on shard 10: mode=quorum, required_acks=2, \
             acknowledged_acks=1, total_replicas=3"
                .to_string()
        ]
    );

    let strict = executor.with_read_consistency(ClusterReadConsistency::Strict);
    let err = strict
        .conclude_shards(FANOUT_OPERATION_LIST_METRICS, &requirements, &Vec::new())
        .expect_err("strict reads are whole or fail");
    assert!(err
        .message()
        .starts_with("read consistency unmet for list_metrics on shard 10: mode=strict"));

    let missing = executor
        .shard_requirements(&vec![1, 64, 65], ReadPlanOwnerMode::AllReplicas)
        .expect_err("a shard that the ring does not have has no owner");
    assert_eq!(
        missing.message(),
        "read fanout failed: shard 64 has no owner"
    );
}

#[test]
fn answers_add_up() {
    let mut acks: BTreeMap<u32, usize> = BTreeMap::new();
    acknowledge_shards(&mut acks, &vec![3, 1]);
    acknowledge_shards(&mut acks, &vec![3]);
    assert_eq!(acks.get(&3), Some(&2));
    assert_eq!(acks.get(&1), Some(&1));
    assert_eq!(acks.get(&2), None);
}

#[test]
fn executors_keep_their_settings() {
    let executor = executor(ClusterReadConsistency::Quorum);
    assert_eq!(executor.local_node_id(), "node-a");
    assert_eq!(
        executor.read_consistency_mode(),
        ClusterReadConsistency::Quorum
    );
    assert_eq!(
        executor.read_partial_response_policy(),
        ClusterReadPartialResponsePolicy::Allow
    );
    assert_eq!(
        executor.resource_guardrails(),
        ReadResourceGuardrails::default()
    );
    assert_eq!(executor.fanout_concurrency(), 4);
    let moved = executor.reconfigured_for_topology(ring(2, 1));
    assert_eq!(
        moved
            .owners_for_series(3, ReadPlanOwnerMode::AllReplicas)
            .expect("owners should resolve"),
        vec!["node-b".to_string()]
    );
}

#[test]
fn reads_are_counted_by_operation_and_by_node() {
    let mut metrics = ReadFanoutMetrics::new();
    metrics.track_fanout_operation_start("select_points");
    metrics.track_fanout_operation_start("list_metrics");
    metrics.track_fanout_operation_start("list_metrics");
    metrics.track_fanout_operation_complete("list_metrics", 40, true);
    metrics.track_fanout_operation_complete("select_points", 2, false);
    metrics.track_remote_request("node-b", "select_batch", 10_000_000, false);
    metrics.track_remote_request("node-a", "select_batch", 2_000_000_000, true);
    metrics.track_remote_request("node-b", "select_batch", 1, true);

    let totals = read_fanout_metrics_snapshot(&metrics);
    assert_eq!(totals.requests_total, 3);
    assert_eq!(totals.failures_total, 1);
    assert_eq!(totals.duration_nanos_total, 42);
    assert_eq!(totals.remote_requests_total, 3);
    assert_eq!(totals.remote_failures_total, 2);

    let labeled = read_fanout_labeled_metrics_snapshot(&metrics);
    assert_eq!(labeled.operations.len(), 2);
    assert_eq!(labeled.operations[0].operation, "list_metrics");
    assert_eq!(labeled.operations[0].requests_total, 2);
    assert_eq!(labeled.operations[0].failures_total, 1);
    assert_eq!(labeled.operations[1].failures_total, 0);
    assert_eq!(labeled.peers.len(), 2);
    assert_eq!(labeled.peers[0].node_id, "node-a");
    assert_eq!(
        labeled.peers[0].remote_request_duration_buckets,
        vec![0; FANOUT_REMOTE_REQUEST_LATENCY_BUCKETS_SECONDS.len()]
    );
    assert_eq!(labeled.peers[1].remote_requests_total, 2);
    assert_eq!(labeled.peers[1].remote_failures_total, 1);
    assert_eq!(labeled.peers[1].remote_request_duration_count, 2);
    assert_eq!(
        labeled.peers[1].remote_request_duration_nanos_total,
        10_000_001
    );
    assert_eq!(
        labeled.peers[1].remote_request_duration_buckets,
        vec![1, 1, 2, 2, 2, 2, 2, 2]
    );
}

#[test]
fn read_errors_have_their_words() {
    let cases = [
        (
            ReadFanoutError::InvalidRequest {
                message: "bad".to_string(),
            },
            "bad",
            false,
        ),
        (
            ReadFanoutError::LocalSelectSeries {
                message: "io".to_string(),
            },
            "local select_series failed: io",
            true,
        ),
        (
            ReadFanoutError::LocalListMetrics {
                message: "io".to_string(),
            },
            "local list_metrics failed: io",
            true,
        ),
        (
            ReadFanoutError::LocalSelectBatch {
                series_count: 12,
                message: "io".to_string(),
            },
            "local select_batch failed for 12 series: io",
            true,
        ),
        (
            ReadFanoutError::TaskJoin {
                message: "cancelled".to_string(),
            },
            "read fanout task failed: cancelled",
            true,
        ),
        (
            ReadFanoutError::ResourceLimitExceeded {
                resource: READ_RESOURCE_GLOBAL_MERGED_POINTS,
                requested: 7,
                limit: 5,
                retryable: false,
            },
            "read fanout request exceeds configured global_inflight_merged_points limit: \
             requested 7, max 5",
            false,
        ),
    ];
    for (error, words, retryable) in cases {
        assert_eq!(error.message(), words);
        assert_eq!(error.retryable(), retryable);
    }
    let remote = ReadFanoutError::RemoteListMetrics {
        node_id: "node-b".to_string(),
        endpoint: "node-b.example:9300".to_string(),
        source: http_error(503),
    };
    assert!(!remote.retryable());
    assert!(remote
        .message()
        .starts_with("remote list_metrics failed for node 'node-b' (node-b.example:9300): "));
    let series = ReadFanoutError::RemoteSelectSeries {
        node_id: "node-b".to_string(),
        endpoint: "node-b.example:9300".to_string(),
        source: RpcError::Timeout {
            endpoint: "node-b.example:9300".to_string(),
            path: "/internal/v1/select_series".to_string(),
        },
    };
    assert!(series.retryable());
}

#[test]
fn every_series_is_answered_once_and_in_order() {
    let executor = executor(ClusterReadConsistency::Eventual);
    let requests = vec![
        series_request(1, 2),
        series_request(0, 1),
        series_request(1, 2),
    ];
    let planned = executor
        .plan_points(requests)
        .expect("points should be planned");
    assert_eq!(planned.len(), 2);
    let point = DataPoint {
        timestamp: 7,
        value: PointValue::Number { bits: 1 },
    };
    let merged = vec![MergedPoints {
        identity: planned[1].request.identity.clone(),
        points: vec![point],
    }];
    let answer = gather_points(&planned, &merged);
    assert_eq!(answer.len(), 2);
    assert_eq!(answer[0].series, planned[0].request.series);
    assert!(answer[0].points.is_empty());
    assert_eq!(answer[1].series, planned[1].request.series);
    assert_eq!(answer[1].points, vec![point]);
}
