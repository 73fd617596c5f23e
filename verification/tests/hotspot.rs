//! Where the load lies, and what is hottest.

use tsink_cluster::control::{
    ControlState, ShardHandoffPhase, ShardHandoffProgress, ShardOwnershipTransition,
};
use tsink_cluster::hotspot::{
    hotspot_tracker_snapshot, record_ingest_rows, record_query_plan, record_repair_mismatch,
    record_repair_rows_inserted, record_tenant_query, HotspotTracker,
};
use tsink_cluster::hotspot_loads::{
    rank_shards, rank_tenants, shard_loads, tenant_loads, HeatScore, ShardLoad, DEFAULT_TOP_N,
};
use tsink_cluster::membership::{ClusterNode, MembershipView};
use tsink_cluster::ring::{ShardRing, ShardRingSnapshot, CURRENT_RING_HASH_VERSION};
use tsink_cluster::rpc_types::{DataPoint, Label, MetricSeries, PointValue, Row};

fn tracker() -> HotspotTracker {
    HotspotTracker::new("__tenant__".to_string(), "default".to_string())
}

fn label(name: &str, value: &str) -> Label {
    Label {
        name: name.to_string(),
        value: value.to_string(),
    }
}

fn row(tenant: Option<&str>) -> Row {
    let mut labels = vec![label("job", "api")];
    if let Some(tenant) = tenant {
        labels.push(label("__tenant__", tenant));
    }
    Row {
        metric: "up".to_string(),
        labels,
        data_point: DataPoint {
            timestamp: 1,
            value: PointValue::Number { bits: 0 },
        },
    }
}

fn series(tenant: Option<&str>) -> MetricSeries {
    let row = row(tenant);
    MetricSeries {
        name: row.metric,
        labels: row.labels,
    }
}

fn ring() -> ShardRing {
    ShardRing::from_snapshot(ShardRingSnapshot {
        hash_version: CURRENT_RING_HASH_VERSION,
        shard_count: 8,
        replication_factor: 1,
        virtual_nodes_per_node: 1,
        assignments: vec![vec!["node-a".to_string()]; 8],
    })
    .expect("ring should build")
}

fn state_moving(shard: u32, phase: ShardHandoffPhase, pending_rows: u64) -> ControlState {
    let membership = MembershipView {
        local_node_id: "node-a".to_string(),
        nodes: vec![ClusterNode {
            id: "node-a".to_string(),
            endpoint: "127.0.0.1:9301".to_string(),
        }],
    };
    let mut state = ControlState::from_runtime(&membership, &ring());
    state.transitions.push(ShardOwnershipTransition {
        shard,
        from_node_id: "node-a".to_string(),
        to_node_id: "node-b".to_string(),
        activation_ring_version: 2,
        handoff: ShardHandoffProgress {
            phase,
            pending_rows,
            ..ShardHandoffProgress::default()
        },
    });
    state
}

#[test]
fn rows_count_for_their_tenant_and_shard() {
    let mut tracker = tracker();
    record_ingest_rows(
        &mut tracker,
        Some(&ring()),
        &vec![row(Some("team-a")), row(None), row(Some("team-a"))],
        &vec![9, 3, 1],
    );
    record_ingest_rows(&mut tracker, None, &vec![row(None)], &vec![3]);
    let snapshot = hotspot_tracker_snapshot(&tracker);
    assert_eq!(snapshot.shards.len(), 2);
    assert_eq!(snapshot.shards[0].shard, 1);
    assert_eq!(snapshot.shards[0].ingest_rows_total, 2);
    assert_eq!(snapshot.shards[1].shard, 3);
    assert_eq!(snapshot.shards[1].ingest_rows_total, 1);
    assert_eq!(snapshot.tenants.len(), 2);
    assert_eq!(snapshot.tenants[0].tenant_id, "default");
    assert_eq!(snapshot.tenants[0].ingest_rows_total, 2);
    assert_eq!(snapshot.tenants[1].ingest_rows_total, 2);
    assert!(snapshot.generated_unix_ms > 0);
}

#[test]
fn queries_and_repairs_are_counted() {
    let mut tracker = tracker();
    record_query_plan(&mut tracker, &vec![5, 2, 5]);
    record_tenant_query(&mut tracker, "  ", 0, 10);
    record_tenant_query(&mut tracker, " team-a ", 3, u64::MAX);
    record_tenant_query(&mut tracker, "team-a", 1, 1);
    record_repair_mismatch(&mut tracker, 2, 4, 6);
    record_repair_rows_inserted(&mut tracker, 2, &vec![row(Some("team-a")), row(None)]);
    record_repair_rows_inserted(&mut tracker, 7, &Vec::new());
    let snapshot = hotspot_tracker_snapshot(&tracker);
    assert_eq!(snapshot.shards.len(), 2);
    let two = snapshot.shards[0];
    assert_eq!(two.shard, 2);
    assert_eq!(two.query_requests_total, 1);
    assert_eq!(two.repair_mismatches_total, 1);
    assert_eq!(two.repair_series_gap_total, 4);
    assert_eq!(two.repair_point_gap_total, 6);
    assert_eq!(two.repair_rows_inserted_total, 2);
    let five = snapshot.shards[1];
    assert_eq!(five.query_requests_total, 2);
    assert_eq!(five.query_shard_hits_total, 2);
    let default = &snapshot.tenants[0];
    assert_eq!(default.query_requests_total, 1);
    assert_eq!(default.query_units_total, 10);
    assert_eq!(default.repair_rows_inserted_total, 1);
    let team = &snapshot.tenants[1];
    assert_eq!(team.query_requests_total, 4);
    assert_eq!(team.query_units_total, u64::MAX);
}

#[test]
fn loads_bring_everything_together() {
    let mut tracker = tracker();
    record_query_plan(&mut tracker, &vec![5]);
    record_repair_mismatch(&mut tracker, 5, 1, 30);
    let state = state_moving(6, ShardHandoffPhase::Cutover, 70);
    let loads = shard_loads(&tracker, Some(&ring()), &vec![1, 9, 5], Some(&state));
    let shards: Vec<u32> = loads.shards.iter().map(|load| load.shard).collect();
    assert_eq!(shards, vec![1, 5, 6]);
    assert_eq!(loads.slots, 3);
    assert_eq!(loads.shards[0].storage_series, 2);
    assert_eq!(loads.shards[2].handoff_pending_rows, 70);
    assert_eq!(loads.total_ingest, 0);
    assert_eq!(loads.total_query, 1);
    assert_eq!(loads.total_storage, 3);
    assert_eq!(loads.total_repair, 100);

    let done = state_moving(6, ShardHandoffPhase::Completed, 70);
    let without = shard_loads(&tracker, None, &vec![1, 9, 5], Some(&done));
    assert_eq!(without.shards.len(), 1);
    let nothing = shard_loads(&self::tracker(), None, &Vec::new(), None);
    assert_eq!(nothing.slots, 1);
    assert!(nothing.shards.is_empty());
}

#[test]
fn tenants_are_loaded_with_what_they_store() {
    let mut tracker = tracker();
    record_tenant_query(&mut tracker, "team-b", 2, 8);
    let loads = tenant_loads(
        &tracker,
        &vec![series(Some("team-a")), series(None), series(Some("team-a"))],
    );
    let names: Vec<&str> = loads
        .tenants
        .iter()
        .map(|load| load.tenant_id.as_str())
        .collect();
    assert_eq!(names, vec!["default", "team-a", "team-b"]);
    assert_eq!(loads.tenants[1].usage.storage_series, 2);
    assert_eq!(loads.total_storage, 3);
    assert_eq!(loads.total_query_requests, 2);
    assert_eq!(loads.total_query_units, 8);

    let score = |pressure_rank, skewed| HeatScore {
        pressure_rank,
        skewed,
    };
    let scores = vec![score(1, true), score(5, false), score(5, true)];
    let (hot, skewed) = rank_tenants(&tracker, None, &loads.tenants, &scores, DEFAULT_TOP_N);
    let order: Vec<usize> = hot.iter().map(|tenant| tenant.index).collect();
    assert_eq!(order, vec![1, 2, 0]);
    assert_eq!(skewed, 2);
    let (only, skewed) = rank_tenants(
        &tracker,
        Some(" team-a "),
        &loads.tenants,
        &scores,
        DEFAULT_TOP_N,
    );
    assert_eq!(only.len(), 1);
    assert_eq!(only[0].tenant_id, "team-a");
    assert_eq!(skewed, 0);
}

#[test]
fn the_hottest_shards_come_first() {
    let load = |shard, handoff_pending_rows| ShardLoad {
        shard,
        ingest_rows_total: 0,
        query_shard_hits_total: 0,
        storage_series: 0,
        repair_mismatches_total: 0,
        repair_series_gap_total: 0,
        repair_point_gap_total: 0,
        repair_rows_inserted_total: 0,
        handoff_pending_rows,
    };
    let loads = vec![load(1, 0), load(2, 9), load(3, 0), load(4, 0)];
    let score = |pressure_rank, skewed| HeatScore {
        pressure_rank,
        skewed,
    };
    let scores = vec![
        score(10, false),
        score(70, true),
        score(70, true),
        score(2, false),
    ];
    let (hot, skewed) = rank_shards(&loads, &scores, 3);
    let order: Vec<u32> = hot.iter().map(|shard| shard.shard).collect();
    assert_eq!(order, vec![2, 3, 1]);
    assert_eq!(skewed, 2);
    assert!(!hot[0].recommend_move);
    assert!(hot[1].recommend_move);
    assert!(!hot[2].recommend_move);
    assert_eq!(hot[2].index, 0);
}

#[test]
fn no_shard_or_tenant_is_reported_twice() {
    let mut tracker = tracker();
    let rows = vec![row(Some("b")), row(Some("a")), row(Some("b")), row(None)];
    record_ingest_rows(&mut tracker, Some(&ring()), &rows, &vec![1, 9, 2, 3]);
    let loads = shard_loads(&tracker, Some(&ring()), &vec![1, 1, 5], None);
    let scores = loads
        .shards
        .iter()
        .map(|load| HeatScore {
            pressure_rank: load.ingest_rows_total,
            skewed: false,
        })
        .collect();
    let (all, _) = rank_shards(&loads.shards, &scores, 10);
    let shards = all.iter().map(|hot| hot.shard).collect::<Vec<_>>();
    assert_eq!(shards, vec![1, 2, 3, 5]);
    let (few, _) = rank_shards(&loads.shards, &scores, 2);
    assert_eq!(few.as_slice(), &all[..2]);

    let loads = tenant_loads(&tracker, &vec![series(Some("a")), series(Some("c"))]);
    let scores = loads
        .tenants
        .iter()
        .map(|load| HeatScore {
            pressure_rank: load.usage.ingest_rows_total,
            skewed: false,
        })
        .collect();
    let (all, _) = rank_tenants(&tracker, None, &loads.tenants, &scores, 10);
    let names = all
        .iter()
        .map(|hot| hot.tenant_id.as_str())
        .collect::<Vec<_>>();
    assert_eq!(names, vec!["b", "a", "default", "c"]);
    let (few, _) = rank_tenants(&tracker, None, &loads.tenants, &scores, 1);
    assert_eq!(few.as_slice(), &all[..1]);
}
