//! The file of the control state: what is read from it and what is written to it.

use tsink_cluster::control::{ControlState, ShardHandoffPhase};
use tsink_cluster::control_store::{
    ControlStatePersistenceVersion, ControlStateStore, CONTROL_STATE_MAGIC,
};
use tsink_cluster::membership::{ClusterNode, MembershipView};
use tsink_cluster::ring::{ShardRing, ShardRingSnapshot, CURRENT_RING_HASH_VERSION};

const PATH: &str = "cluster/control-state.json";

fn sample_membership_and_ring() -> (MembershipView, ShardRing) {
    let membership = MembershipView {
        local_node_id: "node-a".to_string(),
        nodes: vec![
            ClusterNode {
                id: "node-a".to_string(),
                endpoint: "127.0.0.1:9301".to_string(),
            },
            ClusterNode {
                id: "node-b".to_string(),
                endpoint: "127.0.0.1:9302".to_string(),
            },
        ],
    };
    let owners = vec!["node-a".to_string(), "node-b".to_string()];
    let ring = ShardRing::from_snapshot(ShardRingSnapshot {
        hash_version: CURRENT_RING_HASH_VERSION,
        shard_count: 32,
        replication_factor: 2,
        virtual_nodes_per_node: 128,
        assignments: vec![owners; 32],
    })
    .expect("ring should build");
    (membership, ring)
}

fn file_of_version(version: &str) -> Vec<u8> {
    format!("{{\"magic\":\"{CONTROL_STATE_MAGIC}\",\"schemaVersion\":{version}}}\n").into_bytes()
}

fn undecoded() -> Result<ControlState, String> {
    Err("missing field `state`".to_string())
}

/// A file, as far as a store reads and writes it.
struct Disk {
    file: Option<ControlState>,
}

impl Disk {
    fn load(&self, store: &ControlStateStore) -> Result<Option<ControlState>, String> {
        match &self.file {
            Some(state) => store.load(Some(&file_of_version("1")), Ok(state.clone())),
            None => store.load(None, undecoded()),
        }
    }

    fn persist(&mut self, store: &mut ControlStateStore, state: &ControlState) {
        let on_disk = self.load(store);
        if store.persist(state, on_disk).expect("state should persist") {
            self.file = Some(state.clone());
            store.record_written(state);
        }
    }
}

#[test]
fn bootstrap_roundtrip_persists_and_recovers_state() {
    let mut disk = Disk { file: None };
    let mut store = ControlStateStore::open(PATH.to_string());
    let (membership, ring) = sample_membership_and_ring();

    let bootstrap = ControlState::from_runtime(&membership, &ring);
    let start = store
        .load_or_bootstrap(bootstrap.clone(), None, undecoded())
        .expect("bootstrap load should succeed");
    assert_eq!(start.state, bootstrap);
    assert!(start.persist);
    disk.persist(&mut store, &start.state);

    let reopened = ControlStateStore::open(PATH.to_string());
    assert_eq!(reopened.path(), PATH);
    let recovered = disk
        .load(&reopened)
        .expect("load should succeed")
        .expect("state should exist");
    assert_eq!(recovered, bootstrap);

    let again = reopened
        .load_or_bootstrap(
            bootstrap.clone(),
            Some(&file_of_version("1")),
            Ok(recovered),
        )
        .expect("load should succeed");
    assert_eq!(again.state, bootstrap);
    assert!(!again.persist);
}

#[test]
fn load_rejects_legacy_schema_v0() {
    let store = ControlStateStore::open(PATH.to_string());
    let err = store
        .load(Some(&file_of_version("0")), undecoded())
        .expect_err("legacy schema must fail");
    assert!(err.contains("unsupported control-state schema version 0"));
}

#[test]
fn load_rejects_unsupported_schema_version() {
    let store = ControlStateStore::open(PATH.to_string());
    let err = store
        .load(Some(&file_of_version("9")), undecoded())
        .expect_err("unsupported schema must fail");
    assert!(err.contains("unsupported control-state schema version"));
}

#[test]
fn load_rejects_corrupt_control_record() {
    let store = ControlStateStore::open(PATH.to_string());
    let err = store
        .load(Some(b"{not-json"), undecoded())
        .expect_err("corrupt json must fail");
    assert!(err.contains("failed to parse control-state file"));
}

#[test]
fn load_rejects_files_with_a_wrong_head() {
    let store = ControlStateStore::open(PATH.to_string());
    for file in [
        "{\"magic\":\"other\",\"schemaVersion\":1}".to_string(),
        "{\"schemaVersion\":1}".to_string(),
        format!("{{\"magic\":\"{CONTROL_STATE_MAGIC}\"}}"),
        format!("{{\"magic\":\"{CONTROL_STATE_MAGIC}\",\"schemaVersion\":\"1\"}}"),
        format!("{{\"magic\":\"{CONTROL_STATE_MAGIC}\",\"schemaVersion\":70000}}"),
        format!("{{\"magic\":\"{CONTROL_STATE_MAGIC}\",\"schemaVersion\":-1}}"),
        "[1]".to_string(),
    ] {
        assert!(
            store.load(Some(file.as_bytes()), undecoded()).is_err(),
            "{file}"
        );
    }
    let err = store
        .load(Some(&file_of_version("1")), undecoded())
        .expect_err("a state that cannot be decoded must fail");
    assert!(err.contains("missing field `state`"));
}

#[test]
fn shard_handoff_progress_persists_in_control_store() {
    let mut disk = Disk { file: None };
    let mut store = ControlStateStore::open(PATH.to_string());
    let (membership, ring) = sample_membership_and_ring();
    let mut state = ControlState::from_runtime(&membership, &ring);
    let activation_ring_version = state.ring_version.saturating_add(1);

    state
        .apply_begin_shard_handoff(0, "node-a", "node-b", activation_ring_version)
        .expect("begin handoff should succeed");
    state
        .apply_shard_handoff_progress(0, ShardHandoffPhase::Cutover, Some(75), Some(15), None)
        .expect("cutover should succeed");
    state
        .apply_shard_handoff_progress(0, ShardHandoffPhase::FinalSync, Some(90), Some(4), None)
        .expect("final sync should succeed");
    disk.persist(&mut store, &state);

    let recovered = disk
        .load(&store)
        .expect("load should succeed")
        .expect("state should exist");
    assert_eq!(recovered.ring_version, activation_ring_version);
    let snapshot = recovered.handoff_snapshot();
    assert_eq!(snapshot.total_shards, 1);
    assert_eq!(snapshot.final_sync_shards, 1);
    assert_eq!(snapshot.copied_rows_total, 90);
    assert_eq!(snapshot.pending_rows_total, 4);
}

fn stale_and_newer() -> (ControlState, ControlState) {
    let (membership, ring) = sample_membership_and_ring();
    let stale = ControlState::from_runtime(&membership, &ring);
    let mut newer = stale.clone();
    newer
        .apply_join_node("node-c", "127.0.0.1:9303")
        .expect("join should succeed");
    newer.applied_log_index = stale.applied_log_index.saturating_add(1);
    newer.applied_log_term = stale.applied_log_term.saturating_add(1);
    newer.updated_unix_ms = stale.updated_unix_ms.saturating_add(1);
    (stale, newer)
}

#[test]
fn concurrent_persist_keeps_newest_state() {
    for newer_first in [true, false] {
        let (stale, newer) = stale_and_newer();
        let mut disk = Disk { file: None };
        let mut store = ControlStateStore::open(PATH.to_string());
        disk.persist(&mut store, &stale);
        if newer_first {
            disk.persist(&mut store, &newer);
            disk.persist(&mut store, &stale);
        } else {
            disk.persist(&mut store, &stale);
            disk.persist(&mut store, &newer);
        }
        let recovered = disk
            .load(&store)
            .expect("load should succeed")
            .expect("state should exist");
        assert_eq!(recovered, newer);
    }
}

#[test]
fn a_store_learns_the_version_from_the_file() {
    let (stale, newer) = stale_and_newer();
    let mut store = ControlStateStore::open(PATH.to_string());
    assert_eq!(
        store.persist(&stale, Ok(Some(newer.clone()))),
        Ok(false)
    );
    let mut other = ControlStateStore::open(PATH.to_string());
    assert_eq!(other.replace(&stale, Ok(Some(newer.clone()))), Ok(true));
    let mut unreadable = ControlStateStore::open(PATH.to_string());
    assert_eq!(
        unreadable.persist(&stale, Err("unreadable".to_string())),
        Err("unreadable".to_string())
    );
    let mut broken = stale.clone();
    broken.ring_version = 0;
    assert!(store.persist(&broken, Ok(None)).is_err());
    assert!(ControlStatePersistenceVersion::of(&stale)
        .is_older_than(ControlStatePersistenceVersion::of(&newer)));
}
