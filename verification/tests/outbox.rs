//! Writes that wait for a peer.

use tsink_cluster::lists::Copied;
use tsink_cluster::outbox::{
    holds_record, outbox_metrics_snapshot, prepare_replica_write, HintedHandoffOutbox,
    LoadedRecord, OutboxEnqueueError, OutboxEntry, OutboxLogRecord, OutboxMetricsSnapshot,
    ReplayVerdict,
};
use tsink_cluster::outbox_config::OutboxConfig;
use tsink_cluster::rpc_types::{DataPoint, Label, PointValue, Row};

const ENTRY_BYTES: u64 = 400;
const ACK_BYTES: u64 = 30;

fn unix_timestamp_millis() -> u64 {
    std::time::SystemTime::now()
        .duration_since(std::time::UNIX_EPOCH)
        .map(|elapsed| elapsed.as_millis() as u64)
        .unwrap_or(0)
}

fn sample_rows() -> Vec<Row> {
    let row = |timestamp, value: f64| Row {
        metric: "outbox_metric".to_string(),
        labels: vec![Label {
            name: "job".to_string(),
            value: "api".to_string(),
        }],
        data_point: DataPoint {
            timestamp,
            value: PointValue::Number {
                bits: value.to_bits(),
            },
        },
    };
    vec![row(1_700_000_000_000, 1.0), row(1_700_000_000_100, 2.0)]
}

fn config() -> OutboxConfig {
    OutboxConfig {
        max_entries: 8,
        max_bytes: 8 * 1024 * 1024,
        max_peer_bytes: 8 * 1024 * 1024,
        max_log_bytes: 8 * 1024 * 1024,
        replay_interval_secs: 1,
        replay_batch_size: 8,
        max_backoff_secs: 1,
        max_record_bytes: 1024 * 1024,
        cleanup_interval_secs: 1,
        cleanup_min_stale_records: 1,
        stalled_peer_age_secs: 1,
        stalled_peer_min_entries: 1,
        stalled_peer_min_bytes: 1,
    }
}

/// A log, as far as an outbox reads and writes it.
struct Log {
    records: Vec<OutboxLogRecord>,
}

impl Log {
    fn new() -> Self {
        Log {
            records: Vec::new(),
        }
    }

    fn bytes(&self) -> u64 {
        self.records
            .iter()
            .map(|record| match record {
                OutboxLogRecord::Put { .. } => ENTRY_BYTES,
                OutboxLogRecord::Ack { .. } => ACK_BYTES,
            })
            .sum()
    }

    fn load(&self) -> (Vec<LoadedRecord>, u64) {
        let records = self
            .records
            .iter()
            .map(|record| match record {
                OutboxLogRecord::Put { entry } => LoadedRecord {
                    record: OutboxLogRecord::Put {
                        entry: entry.copied(),
                    },
                    encoded_bytes: ENTRY_BYTES,
                },
                OutboxLogRecord::Ack { id } => LoadedRecord {
                    record: OutboxLogRecord::Ack { id: *id },
                    encoded_bytes: ACK_BYTES,
                },
            })
            .collect();
        (records, self.bytes())
    }

    fn put(&mut self, entry: &OutboxEntry) -> Result<u64, String> {
        self.records.push(OutboxLogRecord::Put {
            entry: entry.copied(),
        });
        Ok(ENTRY_BYTES)
    }

    fn ack(&mut self, id: u64) -> Result<u64, String> {
        self.records.push(OutboxLogRecord::Ack { id });
        Ok(ACK_BYTES)
    }

    fn compact(&mut self, outbox: &HintedHandoffOutbox) -> Result<u64, String> {
        self.records = outbox
            .pending()
            .iter()
            .map(|entry| OutboxLogRecord::Put {
                entry: entry.copied(),
            })
            .collect();
        Ok(self.bytes())
    }
}

fn open_with(config: OutboxConfig, log: &Log) -> HintedHandoffOutbox {
    open_after(config, log, OutboxMetricsSnapshot::default())
}

fn open_after(
    config: OutboxConfig,
    log: &Log,
    former: OutboxMetricsSnapshot,
) -> HintedHandoffOutbox {
    HintedHandoffOutbox::open("outbox.log".to_string(), config, Ok(log.load()), former)
        .expect("outbox should open")
}

fn enqueue_at(
    outbox: &mut HintedHandoffOutbox,
    log: &mut Log,
    node_id: &str,
    key: &str,
    now_ms: u64,
) -> Result<u64, OutboxEnqueueError> {
    let entry = prepare_replica_write(
        node_id,
        "127.0.0.1:9302",
        key,
        Ok(()),
        1,
        &Vec::new(),
        &sample_rows(),
        now_ms,
    )?;
    let entry = outbox.reserve(entry, ENTRY_BYTES)?;
    let id = entry.id;
    let written = log.put(&entry);
    outbox.finish_enqueue(entry, written)?;
    Ok(id)
}

fn enqueue(
    outbox: &mut HintedHandoffOutbox,
    log: &mut Log,
    key: &str,
) -> Result<u64, OutboxEnqueueError> {
    enqueue_at(outbox, log, "node-b", key, unix_timestamp_millis())
}

#[test]
fn enqueue_persists_across_restart() {
    let mut log = Log::new();
    let mut outbox = open_with(config(), &log);
    enqueue(&mut outbox, &mut log, "tsink:test:outbox:1").expect("enqueue should succeed");
    let backlog = outbox.backlog_snapshot();
    assert_eq!(backlog.queued_entries, 1);
    assert!(backlog.queued_bytes > 0);

    let reopened = open_with(config(), &log);
    let backlog = reopened.backlog_snapshot();
    assert_eq!(backlog.queued_entries, 1);
    assert!(backlog.queued_bytes > 0);
    let peers = reopened.peer_backlog_snapshot();
    assert_eq!(peers.len(), 1);
    assert_eq!(peers[0].node_id, "node-b");
    assert_eq!(peers[0].queued_entries, 1);
    assert_eq!(reopened.pending()[0].rows.len(), 2);
    assert_eq!(
        reopened.pending()[0].rows[1].data_point.value,
        PointValue::Number {
            bits: 2.0_f64.to_bits()
        }
    );
}

#[test]
fn enqueue_rejects_when_entry_limit_is_reached() {
    let mut log = Log::new();
    let mut outbox = open_with(
        OutboxConfig {
            max_entries: 1,
            ..config()
        },
        &log,
    );
    enqueue(&mut outbox, &mut log, "tsink:test:outbox:1").expect("first enqueue should succeed");
    let err = enqueue(&mut outbox, &mut log, "tsink:test:outbox:2")
        .expect_err("second enqueue should fail");
    assert!(matches!(err, OutboxEnqueueError::TotalEntriesLimit { .. }));
    assert_eq!(outbox_metrics_snapshot(&outbox).enqueue_rejected_total, 1);
    assert_eq!(log.records.len(), 1);
}

#[test]
fn enqueue_rejects_what_is_too_large() {
    let mut log = Log::new();
    let mut small = open_with(
        OutboxConfig {
            max_record_bytes: ENTRY_BYTES - 1,
            ..config()
        },
        &log,
    );
    assert!(matches!(
        enqueue(&mut small, &mut log, "tsink:test:1"),
        Err(OutboxEnqueueError::RecordTooLarge { bytes, .. }) if bytes == ENTRY_BYTES
    ));

    let mut full = open_with(
        OutboxConfig {
            max_bytes: 2 * ENTRY_BYTES - 1,
            max_peer_bytes: 2 * ENTRY_BYTES - 1,
            max_record_bytes: 2 * ENTRY_BYTES - 1,
            ..config()
        },
        &log,
    );
    enqueue(&mut full, &mut log, "tsink:test:2").expect("there is room for one");
    assert!(matches!(
        enqueue(&mut full, &mut log, "tsink:test:3"),
        Err(OutboxEnqueueError::TotalBytesLimit { .. })
    ));

    let empty = Log::new();
    let mut peer_full = open_with(
        OutboxConfig {
            max_peer_bytes: 2 * ENTRY_BYTES - 1,
            max_record_bytes: 2 * ENTRY_BYTES - 1,
            ..config()
        },
        &empty,
    );
    let mut log = Log::new();
    enqueue(&mut peer_full, &mut log, "tsink:test:4").expect("there is room for one");
    let err = enqueue(&mut peer_full, &mut log, "tsink:test:5").expect_err("the peer is full");
    assert!(matches!(err, OutboxEnqueueError::PeerBytesLimit { .. }));
    assert!(err.message().contains("node-b"));
    enqueue_at(&mut peer_full, &mut log, "node-c", "tsink:test:6", 1)
        .expect("another peer has room");
}

#[test]
fn enqueue_reports_a_bad_key_and_a_failed_write() {
    let refused = prepare_replica_write(
        "node-b",
        "127.0.0.1:9302",
        "",
        Err("key is empty".to_string()),
        1,
        &Vec::new(),
        &sample_rows(),
        1,
    )
    .expect_err("a bad key is refused");
    assert!(!refused.retryable());
    assert!(refused.message().contains("key is empty"));

    let log = Log::new();
    let mut outbox = open_with(config(), &log);
    let entry = prepare_replica_write(
        "node-b",
        "127.0.0.1:9302",
        "tsink:test:1",
        Ok(()),
        0,
        &vec!["b".to_string(), "a".to_string(), "b".to_string()],
        &sample_rows(),
        1,
    )
    .expect("the write should be put together");
    assert_eq!(entry.ring_version, 1);
    assert_eq!(
        entry.required_capabilities,
        vec!["a".to_string(), "b".to_string()]
    );
    let entry = outbox
        .reserve(entry, ENTRY_BYTES)
        .expect("there should be room");
    let err = outbox
        .finish_enqueue(entry, Err("disk full".to_string()))
        .expect_err("a failed write is an error");
    assert!(err.retryable());
    assert_eq!(outbox.backlog_snapshot().queued_entries, 0);
    assert_eq!(
        outbox_metrics_snapshot(&outbox).persistence_failures_total,
        1
    );
}

#[test]
fn replay_due_once_drains_successful_entries() {
    let mut log = Log::new();
    let mut outbox = open_with(config(), &log);
    let id = enqueue(&mut outbox, &mut log, "tsink:test:outbox:1").expect("enqueue should succeed");
    assert_eq!(outbox.backlog_snapshot().queued_entries, 1);

    let due = outbox.take_due_entries_at(unix_timestamp_millis());
    assert_eq!(due.len(), 1);
    for entry in &due {
        outbox.count_replay_attempt();
        let request = entry.replay_request();
        assert_eq!(
            request.idempotency_key.as_deref(),
            Some("tsink:test:outbox:1")
        );
        let verdict = outbox.judge_replay(entry, &Ok(request.rows.len()));
        assert!(matches!(verdict, ReplayVerdict::Done));
        assert!(outbox.is_pending(id));
        let written = log.ack(entry.id);
        let acked = outbox.ack_entry(entry.id, written);
        outbox.count_acknowledged(&acked);
        acked.expect("the acknowledgement should be noted");
    }
    assert_eq!(outbox.backlog_snapshot().queued_entries, 0);
    assert_eq!(outbox.backlog_snapshot().queued_bytes, 0);
    assert!(outbox.peer_backlog_snapshot().is_empty());
    let metrics = outbox_metrics_snapshot(&outbox);
    assert_eq!(metrics.replay_attempts_total, 1);
    assert_eq!(metrics.replay_success_total, 1);
    assert_eq!(open_with(config(), &log).backlog_snapshot().queued_entries, 0);
}

#[test]
fn a_failed_replay_is_put_off_longer_each_time() {
    let mut log = Log::new();
    let mut outbox = open_with(
        OutboxConfig {
            max_backoff_secs: 5,
            ..config()
        },
        &log,
    );
    enqueue_at(&mut outbox, &mut log, "node-b", "tsink:test:1", 1_000).expect("enqueue");
    let mut now_ms = 1_000;
    for wait_ms in [1_000, 2_000, 4_000, 5_000, 5_000] {
        let due = outbox.take_due_entries_at(now_ms);
        assert_eq!(due.len(), 1);
        match outbox.judge_replay(&due[0], &Ok(1)) {
            ReplayVerdict::Defer { reason } => {
                assert_eq!(reason, "replayed ingest inserted 1 rows but expected 2");
            }
            other => panic!("unexpected outcome: {other:?}"),
        }
        let next = outbox.defer_entry(&due[0], now_ms);
        assert_eq!(next.next_attempt_unix_ms, now_ms + wait_ms);
        let written = log.put(&next);
        outbox
            .reschedule_entry(next, written)
            .expect("the write should be put off");
        assert!(outbox.take_due_entries_at(now_ms + wait_ms - 1).is_empty());
        now_ms += wait_ms;
    }
    assert_eq!(outbox_metrics_snapshot(&outbox).replay_failures_total, 5);
    assert_eq!(open_with(config(), &log).pending()[0].attempts, 5);
}

#[test]
fn cleanup_compacts_stale_log_records_without_dropping_pending_entries() {
    let mut log = Log::new();
    let mut outbox = open_with(config(), &log);
    enqueue(&mut outbox, &mut log, "tsink:test:outbox:cleanup").expect("enqueue should succeed");

    let entry = outbox.pending()[0].copied();
    let next = outbox.defer_entry(&entry, unix_timestamp_millis());
    let written = log.put(&next);
    outbox
        .reschedule_entry(next, written)
        .expect("reschedule should succeed");

    let before_cleanup = outbox.backlog_snapshot();
    let metrics_before = outbox_metrics_snapshot(&outbox);
    assert_eq!(before_cleanup.queued_entries, 1);
    assert!(outbox.stale_record_count() > 0);

    assert!(outbox.begin_cleanup());
    let written = log.compact(&outbox);
    outbox
        .finish_cleanup(Some(written))
        .expect("cleanup should succeed");

    let after_cleanup = outbox.backlog_snapshot();
    let metrics_after = outbox_metrics_snapshot(&outbox);
    assert_eq!(after_cleanup.queued_entries, 1);
    assert!(after_cleanup.log_bytes <= before_cleanup.log_bytes);
    assert_eq!(outbox.stale_record_count(), 0);
    assert!(metrics_after.cleanup_runs_total > metrics_before.cleanup_runs_total);
    assert!(metrics_after.cleanup_compactions_total >= metrics_before.cleanup_compactions_total);
    assert_eq!(metrics_after.cleanup_reclaimed_bytes_total, ENTRY_BYTES);
    assert!(!outbox.begin_cleanup());

    assert_eq!(
        outbox.finish_cleanup(Some(Err("disk full".to_string()))),
        Err("disk full".to_string())
    );
    assert_eq!(outbox_metrics_snapshot(&outbox).cleanup_failures_total, 1);
}

#[test]
fn stalled_peer_snapshot_reports_stalled_backlog_with_context() {
    let mut log = Log::new();
    let mut outbox = open_with(config(), &log);
    let stale_age_ms = outbox.config().stalled_peer_age_secs.saturating_mul(1_000) + 1_000;
    enqueue_at(
        &mut outbox,
        &mut log,
        "node-b",
        "tsink:test:outbox:stalled",
        unix_timestamp_millis().saturating_sub(stale_age_ms),
    )
    .expect("enqueue should succeed");

    let stalled = outbox.stalled_peer_snapshot();
    assert_eq!(stalled.len(), 1);
    assert_eq!(stalled[0].node_id, "node-b");
    assert_eq!(stalled[0].queued_entries, 1);
    assert!(stalled[0].oldest_age_ms >= stale_age_ms);
    assert!(stalled[0].first_stalled_unix_ms > 0);

    let stalled_again = outbox.stalled_peer_snapshot();
    assert_eq!(stalled_again.len(), 1);
    assert_eq!(
        stalled_again[0].first_stalled_unix_ms,
        stalled[0].first_stalled_unix_ms
    );
    assert!(stalled_again[0].oldest_age_ms >= stale_age_ms);
}

#[test]
fn a_log_that_grew_too_long_is_written_anew() {
    let mut log = Log::new();
    let mut outbox = open_with(
        OutboxConfig {
            max_log_bytes: 1024 * 1024,
            ..config()
        },
        &log,
    );
    let id = enqueue(&mut outbox, &mut log, "tsink:test:1").expect("enqueue should succeed");
    assert!(!outbox.needs_compaction());
    let entry = outbox.pending()[0].copied();
    outbox
        .reschedule_entry(entry, Ok(2 * 1024 * 1024))
        .expect("the write should be put off");
    assert!(outbox.needs_compaction());
    outbox.note_compaction(&Err("disk full".to_string()));
    assert!(outbox.needs_compaction());
    let written = log.compact(&outbox);
    outbox
        .finish_compaction(written)
        .expect("the log should be written anew");
    assert!(!outbox.needs_compaction());
    assert!(outbox.is_pending(id));
    assert_eq!(outbox.backlog_snapshot().log_bytes, ENTRY_BYTES);
}

#[test]
fn a_reopened_outbox_goes_on_counting() {
    let mut outbox = open_with(config(), &Log::new());
    outbox.count_replay_attempt();
    outbox.count_replay_attempt();
    let former = outbox_metrics_snapshot(&outbox);
    assert_eq!(former.replay_attempts_total, 2);
    let mut reopened = open_after(config(), &Log::new(), former);
    assert_eq!(outbox_metrics_snapshot(&reopened), former);
    reopened.count_replay_attempt();
    assert_eq!(outbox_metrics_snapshot(&reopened).replay_attempts_total, 3);
}

#[test]
fn a_log_that_cannot_be_read_is_an_error() {
    assert_eq!(
        HintedHandoffOutbox::open(
            "outbox.log".to_string(),
            config(),
            Err("unreadable".to_string()),
            OutboxMetricsSnapshot::default()
        )
        .err(),
        Some("unreadable".to_string())
    );
    assert!(HintedHandoffOutbox::open(
        "outbox.log".to_string(),
        OutboxConfig {
            max_entries: 0,
            ..config()
        },
        Ok((Vec::new(), 0)),
        OutboxMetricsSnapshot::default()
    )
    .is_err());
    let outbox = open_with(config(), &Log::new());
    assert_eq!(outbox.outbox_path(), "outbox.log");
    assert!(holds_record("{}"));
    assert!(!holds_record("  "));
}
