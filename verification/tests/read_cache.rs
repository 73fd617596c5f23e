//! Remembered reads, and reads that are put together for a query.

use tsink_cluster::query::{
    ClusterReadConsistency, ClusterReadPartialResponsePolicy, ReadFanoutError,
    ReadFanoutResponseMetadata,
};
use tsink_cluster::read_cache::{
    effective_ring_version, map_read_fanout_error, order_found, order_points, record_metadata,
    select_with_options_error, DistributedStorageCache, DistributedStorageCacheConfig, FoundSeries,
    SelectAllCacheKey, SelectPointsCacheKey, SeriesSelectionCacheKey, StorageReadError,
};
use tsink_cluster::rpc_types::{
    DataPoint, Label, MetricSeries, PointValue, SeriesMatcher, SeriesMatcherOp, SeriesSelection,
};

fn label(name: &str, value: &str) -> Label {
    Label {
        name: name.to_string(),
        value: value.to_string(),
    }
}

fn point(timestamp: i64, value: f64) -> DataPoint {
    DataPoint {
        timestamp,
        value: PointValue::Number {
            bits: value.to_bits(),
        },
    }
}

#[test]
fn select_all_uses_cache_on_repeat_queries() {
    let mut cache = DistributedStorageCache::new(DistributedStorageCacheConfig::default());
    let key = || SelectAllCacheKey::new("up", 1_700_000_000_000, 1_700_000_002_000);
    assert!(cache.read_all(&key()).is_none());
    cache.keep_all(
        key(),
        vec![FoundSeries {
            labels: vec![label("job", "prom")],
            points: vec![point(1_700_000_000_000, 1.0), point(1_700_000_001_000, 2.0)],
        }],
    );

    let second = cache.read_all(&key()).expect("the read is remembered");
    assert_eq!(second.len(), 1);
    assert_eq!(second[0].points.len(), 2);

    let snapshot = cache.cache_snapshot();
    assert_eq!(snapshot.select_all_misses, 1);
    assert_eq!(snapshot.select_all_hits, 1);
}

#[test]
fn cache_config_can_disable_select_points_cache() {
    let mut cache = DistributedStorageCache::new(DistributedStorageCacheConfig {
        cache_select_series: true,
        cache_select_points: false,
        cache_select_all: true,
    });
    let labels = vec![label("job", "prom")];
    let key = || SelectPointsCacheKey::new("up", &labels, 1_700_000_000_000, 1_700_000_001_000);
    for _ in 0..2 {
        assert!(cache.read_points(&key()).is_none());
        cache.keep_points(key(), vec![point(1_700_000_000_000, 1.0)]);
    }
    let snapshot = cache.cache_snapshot();
    assert_eq!(snapshot.select_points_hits, 0);
    assert_eq!(snapshot.select_points_misses, 0);
}

#[test]
fn the_order_of_labels_does_not_matter() {
    let mut cache = DistributedStorageCache::new(DistributedStorageCacheConfig::default());
    let one_way = vec![label("job", "prom"), label("env", "prod")];
    let other_way = vec![label("env", "prod"), label("job", "prom")];
    cache.keep_points(
        SelectPointsCacheKey::new("up", &one_way, 0, 9),
        vec![point(1, 1.0)],
    );
    assert_eq!(
        cache.read_points(&SelectPointsCacheKey::new("up", &other_way, 0, 9)),
        Some(&vec![point(1, 1.0)])
    );
    for other in [
        SelectPointsCacheKey::new("down", &other_way, 0, 9),
        SelectPointsCacheKey::new("up", &other_way, 1, 9),
        SelectPointsCacheKey::new("up", &other_way, 0, 8),
        SelectPointsCacheKey::new("up", &Vec::new(), 0, 9),
    ] {
        assert!(cache.read_points(&other).is_none());
    }
    assert_eq!(cache.cache_snapshot().select_points_hits, 1);
}

#[test]
fn the_order_of_matchers_does_not_matter() {
    let matcher = |name: &str, op| SeriesMatcher {
        name: name.to_string(),
        op,
        value: "x".to_string(),
    };
    let selection = |matchers| SeriesSelection {
        metric: Some("up".to_string()),
        matchers,
        start: Some(1),
        end: None,
    };
    let mut cache = DistributedStorageCache::new(DistributedStorageCacheConfig::default());
    let first = selection(vec![
        matcher("job", SeriesMatcherOp::NotEqual),
        matcher("job", SeriesMatcherOp::Equal),
        matcher("env", SeriesMatcherOp::RegexMatch),
    ]);
    let second = selection(vec![
        matcher("env", SeriesMatcherOp::RegexMatch),
        matcher("job", SeriesMatcherOp::Equal),
        matcher("job", SeriesMatcherOp::NotEqual),
    ]);
    let third = selection(vec![
        matcher("env", SeriesMatcherOp::RegexNoMatch),
        matcher("job", SeriesMatcherOp::Equal),
        matcher("job", SeriesMatcherOp::NotEqual),
    ]);
    cache.keep_series(
        SeriesSelectionCacheKey::from_selection(&first),
        vec![MetricSeries {
            name: "up".to_string(),
            labels: Vec::new(),
        }],
    );
    assert!(cache
        .read_series(&SeriesSelectionCacheKey::from_selection(&second))
        .is_some());
    assert!(cache
        .read_series(&SeriesSelectionCacheKey::from_selection(&third))
        .is_none());
    cache.invalidate_cache();
    assert!(cache
        .read_series(&SeriesSelectionCacheKey::from_selection(&second))
        .is_none());
    assert_eq!(cache.cache_snapshot().select_series_hits, 1);
    assert_eq!(cache.cache_snapshot().select_series_misses, 1);
}

#[test]
fn found_series_are_ordered_and_empty_ones_dropped() {
    let found = |name: &str, points| FoundSeries {
        labels: vec![label("job", name)],
        points,
    };
    let ordered = order_found(vec![
        found("b", vec![point(1, 1.0)]),
        found("c", Vec::new()),
        found("a", vec![point(2, 1.0)]),
        FoundSeries {
            labels: Vec::new(),
            points: vec![point(3, 1.0)],
        },
    ]);
    let names: Vec<Option<&str>> = ordered
        .iter()
        .map(|series| series.labels.first().map(|label| label.value.as_str()))
        .collect();
    assert_eq!(names, vec![None, Some("a"), Some("b")]);

    assert_eq!(
        order_points(vec![point(5, 1.0), point(-1, 2.0), point(5, 3.0)]),
        vec![point(-1, 2.0), point(5, 1.0), point(5, 3.0)]
    );
}

fn metadata(partial_response: bool, warnings: &[&str]) -> ReadFanoutResponseMetadata {
    ReadFanoutResponseMetadata {
        consistency: ClusterReadConsistency::Quorum,
        partial_response_policy: ClusterReadPartialResponsePolicy::Allow,
        partial_response,
        warnings: warnings.iter().map(|text| text.to_string()).collect(),
    }
}

#[test]
fn warnings_are_kept_once_and_in_order() {
    let all = record_metadata(metadata(false, &["b"]), &metadata(true, &["c", "b", "a", "c"]));
    assert!(all.partial_response);
    assert_eq!(all.warnings, vec!["a", "b", "c"]);
    let still = record_metadata(all, &metadata(false, &[]));
    assert!(still.partial_response);
    assert_eq!(still.consistency, ClusterReadConsistency::Quorum);
}

#[test]
fn failed_reads_are_told_to_the_query() {
    assert_eq!(
        map_read_fanout_error(ReadFanoutError::MergeLimitExceeded {
            message: "too many".to_string()
        }),
        StorageReadError::InvalidConfiguration("too many".to_string())
    );
    assert_eq!(
        map_read_fanout_error(ReadFanoutError::InvalidRequest {
            message: "nonsense".to_string()
        }),
        StorageReadError::InvalidConfiguration("nonsense".to_string())
    );
    assert_eq!(
        map_read_fanout_error(ReadFanoutError::MissingShardOwners { shard: 3 }),
        StorageReadError::Other(
            "distributed read fanout failed: read fanout failed: shard 3 has no owner".to_string()
        )
    );
    assert!(matches!(
        select_with_options_error(),
        StorageReadError::InvalidConfiguration(_)
    ));
    assert_eq!(effective_ring_version(0), 1);
    assert_eq!(effective_ring_version(7), 7);
}

#[test]
fn another_configuration_keeps_what_is_remembered() {
    let mut cache = DistributedStorageCache::new(DistributedStorageCacheConfig::default());
    let key = || SelectAllCacheKey::new("up", 1, 2);
    cache.keep_all(key(), Vec::new());
    cache.set_config(DistributedStorageCacheConfig {
        cache_select_series: true,
        cache_select_points: true,
        cache_select_all: false,
    });
    assert!(cache.read_all(&key()).is_none());
    cache.set_config(DistributedStorageCacheConfig::default());
    assert!(cache.read_all(&key()).is_some());
}
