//! Agreement on the control log: following, leading, failing over and recovering.

use tsink_cluster::consensus::{
    ControlConsensusConfig, ControlConsensusRuntime, ControlLogFileV1, ControlPeerLivenessStatus,
    PeerHeartbeatState, ProposeOutcome,
};
use tsink_cluster::consensus_leader::{report_replication, PeerPlan, ProposalReply, SyncNext};
use tsink_cluster::consensus_recovery::validate_log_file;
use tsink_cluster::control::{ControlState, ShardHandoffPhase};
use tsink_cluster::membership::{ClusterNode, MembershipView};
use tsink_cluster::ring::{ShardRing, ShardRingSnapshot, CURRENT_RING_HASH_VERSION};
use tsink_cluster::rpc_types::{
    InternalControlAppendRequest, InternalControlAppendResponse, InternalControlCommand,
    InternalControlInstallSnapshotRequest, InternalControlInstallSnapshotResponse,
    InternalControlLogEntry, SnapshotPayload,
};

fn unix_timestamp_millis() -> u64 {
    std::time::SystemTime::now()
        .duration_since(std::time::UNIX_EPOCH)
        .map(|elapsed| elapsed.as_millis() as u64)
        .unwrap_or(0)
}

fn membership_of(local: &str, local_endpoint: &str, others: &[&str]) -> MembershipView {
    let mut nodes = vec![ClusterNode {
        id: local.to_string(),
        endpoint: local_endpoint.to_string(),
    }];
    for other in others {
        let (id, endpoint) = other.split_once('@').expect("seed should name an endpoint");
        nodes.push(ClusterNode {
            id: id.to_string(),
            endpoint: endpoint.to_string(),
        });
    }
    nodes.sort_by(|left, right| left.id.cmp(&right.id));
    MembershipView {
        local_node_id: local.to_string(),
        nodes,
    }
}

fn ring_over(membership: &MembershipView) -> ShardRing {
    let owners = vec![
        membership.nodes[0].id.clone(),
        membership.nodes[1].id.clone(),
    ];
    ShardRing::from_snapshot(ShardRingSnapshot {
        hash_version: CURRENT_RING_HASH_VERSION,
        shard_count: 16,
        replication_factor: 2,
        virtual_nodes_per_node: 128,
        assignments: vec![owners; 16],
    })
    .expect("ring should build")
}

fn sample_membership_and_state() -> (MembershipView, ControlState) {
    let membership = membership_of("node-a", "127.0.0.1:9301", &["node-b@127.0.0.1:9302"]);
    let ring = ring_over(&membership);
    let state = ControlState::from_runtime(&membership, &ring);
    (membership, state)
}

fn open_runtime_led_by(
    node_id: &str,
    bind: &str,
    seeds: &[&str],
    state_file_stem: &str,
    snapshot_interval_entries: usize,
    leader: Option<&str>,
    last_contact_ms: u64,
) -> ControlConsensusRuntime {
    let membership = membership_of(node_id, bind, seeds);
    let ring = ring_over(&membership);
    let mut bootstrap_state = ControlState::from_runtime(&membership, &ring);
    bootstrap_state.leader_node_id = leader.map(str::to_string);
    ControlConsensusRuntime::open_at(
        &membership,
        bootstrap_state,
        Ok(None),
        format!("{state_file_stem}.control-log.json"),
        ControlConsensusConfig {
            snapshot_interval_entries,
            ..ControlConsensusConfig::default()
        },
        last_contact_ms,
    )
    .expect("runtime should open")
}

fn open_runtime_for_node(
    node_id: &str,
    bind: &str,
    seeds: &[&str],
    state_file_stem: &str,
    snapshot_interval_entries: usize,
) -> ControlConsensusRuntime {
    open_runtime_led_by(
        node_id,
        bind,
        seeds,
        state_file_stem,
        snapshot_interval_entries,
        None,
        unix_timestamp_millis(),
    )
}

/// Takes what has changed as written.
fn save(runtime: &mut ControlConsensusRuntime) {
    if runtime.unsaved_state() {
        runtime
            .note_state_saved()
            .expect("log should be cut off where it is due");
    }
    if runtime.unsaved_log() {
        runtime.note_log_saved();
    }
}

fn set_leader(leader_node_id: &str) -> InternalControlCommand {
    InternalControlCommand::SetLeader {
        leader_node_id: leader_node_id.to_string(),
    }
}

fn append_one(
    term: u64,
    leader_node_id: &str,
    index: u64,
    prev_log_term: u64,
    command: InternalControlCommand,
    leader_commit: u64,
) -> InternalControlAppendRequest {
    InternalControlAppendRequest {
        term,
        leader_node_id: leader_node_id.to_string(),
        prev_log_index: index - 1,
        prev_log_term,
        entries: vec![InternalControlLogEntry {
            index,
            term,
            command,
            created_unix_ms: index,
        }],
        leader_commit,
    }
}

#[test]
fn append_entries_commit_after_heartbeat() {
    let (membership, bootstrap_state) = sample_membership_and_state();

    let mut runtime = ControlConsensusRuntime::open(
        &membership,
        bootstrap_state,
        Ok(None),
        "control-log.json".to_string(),
        ControlConsensusConfig {
            snapshot_interval_entries: 64,
            ..ControlConsensusConfig::default()
        },
    )
    .expect("runtime should open");

    let append = InternalControlAppendRequest {
        term: 2,
        leader_node_id: "node-a".to_string(),
        prev_log_index: 0,
        prev_log_term: 0,
        entries: vec![InternalControlLogEntry {
            index: 1,
            term: 2,
            command: InternalControlCommand::SetLeader {
                leader_node_id: "node-a".to_string(),
            },
            created_unix_ms: 1,
        }],
        leader_commit: 0,
    };
    let response = runtime
        .handle_append_request(append)
        .expect("append should succeed");
    assert!(response.success);
    assert_eq!(response.match_index, 1);
    assert_eq!(runtime.current_state().applied_log_index, 0);

    let heartbeat = InternalControlAppendRequest {
        term: 2,
        leader_node_id: "node-a".to_string(),
        prev_log_index: 1,
        prev_log_term: 2,
        entries: Vec::new(),
        leader_commit: 1,
    };
    let heartbeat_response = runtime
        .handle_append_request(heartbeat)
        .expect("heartbeat should succeed");
    assert!(heartbeat_response.success);

    let state = runtime.current_state();
    assert_eq!(state.applied_log_index, 1);
    assert_eq!(state.applied_log_term, 2);
    assert_eq!(state.leader_node_id.as_deref(), Some("node-a"));
}

#[test]
fn append_handoff_commands_apply_state_transitions() {
    let (membership, bootstrap_state) = sample_membership_and_state();
    let initial_ring_version = bootstrap_state.ring_version;
    let activation_ring_version = initial_ring_version.saturating_add(1);
    let mut runtime = ControlConsensusRuntime::open(
        &membership,
        bootstrap_state,
        Ok(None),
        "control-log.json".to_string(),
        ControlConsensusConfig::default(),
    )
    .expect("runtime should open");

    let begin = runtime
        .handle_append_request(InternalControlAppendRequest {
            term: 2,
            leader_node_id: "node-a".to_string(),
            prev_log_index: 0,
            prev_log_term: 0,
            entries: vec![InternalControlLogEntry {
                index: 1,
                term: 2,
                command: InternalControlCommand::BeginShardHandoff {
                    shard: 0,
                    from_node_id: "node-a".to_string(),
                    to_node_id: "node-b".to_string(),
                    activation_ring_version,
                },
                created_unix_ms: 1,
            }],
            leader_commit: 1,
        })
        .expect("begin handoff append should succeed");
    assert!(begin.success);
    let after_begin = runtime.current_state();
    assert_eq!(after_begin.ring_version, initial_ring_version);
    let transition = after_begin
        .transitions
        .iter()
        .find(|transition| transition.shard == 0)
        .expect("shard transition should exist after begin");
    assert_eq!(transition.handoff.phase.as_str(), "warmup");
    assert_eq!(transition.handoff.copied_rows, 0);
    assert_eq!(transition.handoff.pending_rows, 0);

    let progress = runtime
        .handle_append_request(InternalControlAppendRequest {
            term: 3,
            leader_node_id: "node-a".to_string(),
            prev_log_index: 1,
            prev_log_term: 2,
            entries: vec![InternalControlLogEntry {
                index: 2,
                term: 3,
                command: InternalControlCommand::UpdateShardHandoff {
                    shard: 0,
                    phase: ShardHandoffPhase::Cutover,
                    copied_rows: Some(125),
                    pending_rows: Some(24),
                    last_error: None,
                },
                created_unix_ms: 2,
            }],
            leader_commit: 2,
        })
        .expect("handoff progress append should succeed");
    assert!(progress.success);
    let after_progress = runtime.current_state();
    assert_eq!(after_progress.ring_version, activation_ring_version);
    let transition = after_progress
        .transitions
        .iter()
        .find(|transition| transition.shard == 0)
        .expect("shard transition should exist after progress");
    assert_eq!(transition.handoff.phase.as_str(), "cutover");
    assert_eq!(transition.handoff.copied_rows, 125);
    assert_eq!(transition.handoff.pending_rows, 24);

    let final_sync = runtime
        .handle_append_request(InternalControlAppendRequest {
            term: 4,
            leader_node_id: "node-a".to_string(),
            prev_log_index: 2,
            prev_log_term: 3,
            entries: vec![InternalControlLogEntry {
                index: 3,
                term: 4,
                command: InternalControlCommand::UpdateShardHandoff {
                    shard: 0,
                    phase: ShardHandoffPhase::FinalSync,
                    copied_rows: Some(150),
                    pending_rows: Some(3),
                    last_error: None,
                },
                created_unix_ms: 3,
            }],
            leader_commit: 3,
        })
        .expect("handoff final-sync append should succeed");
    assert!(final_sync.success);
    let after_final_sync = runtime.current_state();
    let transition = after_final_sync
        .transitions
        .iter()
        .find(|transition| transition.shard == 0)
        .expect("shard transition should exist after final-sync");
    assert_eq!(transition.handoff.phase.as_str(), "final_sync");
    assert_eq!(transition.handoff.copied_rows, 150);
    assert_eq!(transition.handoff.pending_rows, 3);

    let complete = runtime
        .handle_append_request(InternalControlAppendRequest {
            term: 5,
            leader_node_id: "node-a".to_string(),
            prev_log_index: 3,
            prev_log_term: 4,
            entries: vec![InternalControlLogEntry {
                index: 4,
                term: 5,
                command: InternalControlCommand::CompleteShardHandoff { shard: 0 },
                created_unix_ms: 4,
            }],
            leader_commit: 4,
        })
        .expect("handoff completion append should succeed");
    assert!(complete.success);
    let after_complete = runtime.current_state();
    let transition = after_complete
        .transitions
        .iter()
        .find(|transition| transition.shard == 0)
        .expect("shard transition should exist after completion");
    assert_eq!(transition.handoff.phase.as_str(), "completed");
    assert_eq!(transition.handoff.copied_rows, 150);
    assert_eq!(transition.handoff.pending_rows, 0);
}

#[test]
fn append_membership_commands_apply_idempotent_state_transitions() {
    let (membership, bootstrap_state) = sample_membership_and_state();
    let mut runtime = ControlConsensusRuntime::open(
        &membership,
        bootstrap_state,
        Ok(None),
        "control-log.json".to_string(),
        ControlConsensusConfig::default(),
    )
    .expect("runtime should open");

    let join = runtime
        .handle_append_request(InternalControlAppendRequest {
            term: 2,
            leader_node_id: "node-a".to_string(),
            prev_log_index: 0,
            prev_log_term: 0,
            entries: vec![InternalControlLogEntry {
                index: 1,
                term: 2,
                command: InternalControlCommand::JoinNode {
                    node_id: "node-c".to_string(),
                    endpoint: "127.0.0.1:9303".to_string(),
                },
                created_unix_ms: 1,
            }],
            leader_commit: 1,
        })
        .expect("join append should succeed");
    assert!(join.success);
    let joined_state = runtime.current_state();
    assert_eq!(joined_state.membership_epoch, 2);
    assert_eq!(
        joined_state
            .node_record("node-c")
            .map(|node| node.status.as_str()),
        Some("joining")
    );

    let join_noop = runtime
        .handle_append_request(InternalControlAppendRequest {
            term: 3,
            leader_node_id: "node-a".to_string(),
            prev_log_index: 1,
            prev_log_term: 2,
            entries: vec![InternalControlLogEntry {
                index: 2,
                term: 3,
                command: InternalControlCommand::JoinNode {
                    node_id: "node-c".to_string(),
                    endpoint: "127.0.0.1:9303".to_string(),
                },
                created_unix_ms: 2,
            }],
            leader_commit: 2,
        })
        .expect("idempotent join append should succeed");
    assert!(join_noop.success);
    let join_noop_state = runtime.current_state();
    assert_eq!(join_noop_state.membership_epoch, 2);

    let leave = runtime
        .handle_append_request(InternalControlAppendRequest {
            term: 4,
            leader_node_id: "node-a".to_string(),
            prev_log_index: 2,
            prev_log_term: 3,
            entries: vec![InternalControlLogEntry {
                index: 3,
                term: 4,
                command: InternalControlCommand::LeaveNode {
                    node_id: "node-c".to_string(),
                },
                created_unix_ms: 3,
            }],
            leader_commit: 3,
        })
        .expect("leave append should succeed");
    assert!(leave.success);
    let leaving_state = runtime.current_state();
    assert_eq!(leaving_state.membership_epoch, 3);
    assert_eq!(
        leaving_state
            .node_record("node-c")
            .map(|node| node.status.as_str()),
        Some("leaving")
    );

    let recommission = runtime
        .handle_append_request(InternalControlAppendRequest {
            term: 5,
            leader_node_id: "node-a".to_string(),
            prev_log_index: 3,
            prev_log_term: 4,
            entries: vec![InternalControlLogEntry {
                index: 4,
                term: 5,
                command: InternalControlCommand::RecommissionNode {
                    node_id: "node-c".to_string(),
                    endpoint: None,
                },
                created_unix_ms: 4,
            }],
            leader_commit: 4,
        })
        .expect("recommission append should succeed");
    assert!(recommission.success);
    let recommissioned_state = runtime.current_state();
    assert_eq!(recommissioned_state.membership_epoch, 4);
    assert_eq!(
        recommissioned_state
            .node_record("node-c")
            .map(|node| node.status.as_str()),
        Some("active")
    );
}

#[test]
fn append_rejects_unknown_leader_node() {
    let (membership, bootstrap_state) = sample_membership_and_state();
    let mut runtime = ControlConsensusRuntime::open(
        &membership,
        bootstrap_state,
        Ok(None),
        "control-log.json".to_string(),
        ControlConsensusConfig::default(),
    )
    .expect("runtime should open");

    let response = runtime
        .handle_append_request(InternalControlAppendRequest {
            term: 1,
            leader_node_id: "unknown-node".to_string(),
            prev_log_index: 0,
            prev_log_term: 0,
            entries: Vec::new(),
            leader_commit: 0,
        })
        .expect("append should return");
    assert!(!response.success);
    assert_eq!(response.message.as_deref(), Some("unknown_leader_node"));
}

#[test]
fn append_rejects_conflicting_leader_for_same_term() {
    let (membership, bootstrap_state) = sample_membership_and_state();
    let mut runtime = ControlConsensusRuntime::open(
        &membership,
        bootstrap_state,
        Ok(None),
        "control-log.json".to_string(),
        ControlConsensusConfig::default(),
    )
    .expect("runtime should open");

    let first = runtime
        .handle_append_request(InternalControlAppendRequest {
            term: 2,
            leader_node_id: "node-a".to_string(),
            prev_log_index: 0,
            prev_log_term: 0,
            entries: vec![InternalControlLogEntry {
                index: 1,
                term: 2,
                command: InternalControlCommand::SetLeader {
                    leader_node_id: "node-a".to_string(),
                },
                created_unix_ms: 1,
            }],
            leader_commit: 1,
        })
        .expect("append should succeed");
    assert!(first.success);

    let conflicting = runtime
        .handle_append_request(InternalControlAppendRequest {
            term: 2,
            leader_node_id: "node-b".to_string(),
            prev_log_index: 1,
            prev_log_term: 2,
            entries: Vec::new(),
            leader_commit: 1,
        })
        .expect("append should return");
    assert!(!conflicting.success);
    assert_eq!(
        conflicting.message.as_deref(),
        Some("conflicting_leader_same_term")
    );
}

#[test]
fn higher_term_append_allows_leader_failover() {
    let (membership, bootstrap_state) = sample_membership_and_state();
    let mut runtime = ControlConsensusRuntime::open(
        &membership,
        bootstrap_state,
        Ok(None),
        "control-log.json".to_string(),
        ControlConsensusConfig::default(),
    )
    .expect("runtime should open");

    let set_node_a = runtime
        .handle_append_request(InternalControlAppendRequest {
            term: 2,
            leader_node_id: "node-a".to_string(),
            prev_log_index: 0,
            prev_log_term: 0,
            entries: vec![InternalControlLogEntry {
                index: 1,
                term: 2,
                command: InternalControlCommand::SetLeader {
                    leader_node_id: "node-a".to_string(),
                },
                created_unix_ms: 1,
            }],
            leader_commit: 1,
        })
        .expect("append should succeed");
    assert!(set_node_a.success);
    assert_eq!(
        runtime.current_state().leader_node_id.as_deref(),
        Some("node-a")
    );

    let takeover_append = runtime
        .handle_append_request(InternalControlAppendRequest {
            term: 3,
            leader_node_id: "node-b".to_string(),
            prev_log_index: 1,
            prev_log_term: 2,
            entries: vec![InternalControlLogEntry {
                index: 2,
                term: 3,
                command: InternalControlCommand::SetLeader {
                    leader_node_id: "node-b".to_string(),
                },
                created_unix_ms: 2,
            }],
            leader_commit: 2,
        })
        .expect("takeover append should succeed");
    assert!(takeover_append.success);
    assert_eq!(
        runtime.current_state().leader_node_id.as_deref(),
        Some("node-b")
    );

    let old_leader = runtime
        .handle_append_request(InternalControlAppendRequest {
            term: 3,
            leader_node_id: "node-a".to_string(),
            prev_log_index: 2,
            prev_log_term: 3,
            entries: Vec::new(),
            leader_commit: 2,
        })
        .expect("old leader heartbeat should return");
    assert!(!old_leader.success);
    assert_eq!(
        old_leader.message.as_deref(),
        Some("conflicting_leader_same_term")
    );
}

#[test]
fn committed_entries_are_compacted_at_snapshot_interval() {
    let (membership, bootstrap_state) = sample_membership_and_state();

    let mut runtime = ControlConsensusRuntime::open(
        &membership,
        bootstrap_state,
        Ok(None),
        "control-log.json".to_string(),
        ControlConsensusConfig {
            snapshot_interval_entries: 1,
            ..ControlConsensusConfig::default()
        },
    )
    .expect("runtime should open");

    let append = InternalControlAppendRequest {
        term: 2,
        leader_node_id: "node-a".to_string(),
        prev_log_index: 0,
        prev_log_term: 0,
        entries: vec![InternalControlLogEntry {
            index: 1,
            term: 2,
            command: InternalControlCommand::SetLeader {
                leader_node_id: "node-a".to_string(),
            },
            created_unix_ms: 1,
        }],
        leader_commit: 1,
    };
    let response = runtime
        .handle_append_request(append)
        .expect("append should succeed");
    assert!(response.success);
    save(&mut runtime);

    let (snapshot_index, snapshot_term, entries_len) = runtime.log_snapshot_position();
    assert_eq!(snapshot_index, 1);
    assert_eq!(snapshot_term, 2);
    assert_eq!(entries_len, 0);
}

#[test]
fn install_snapshot_rejects_stale_snapshot_index_without_rollback() {
    let mut runtime = open_runtime_for_node(
        "node-a",
        "127.0.0.1:9301",
        &["node-b@127.0.0.1:9302"],
        "stale-snapshot",
        64,
    );

    let set_node_a = runtime
        .handle_append_request(InternalControlAppendRequest {
            term: 2,
            leader_node_id: "node-a".to_string(),
            prev_log_index: 0,
            prev_log_term: 0,
            entries: vec![InternalControlLogEntry {
                index: 1,
                term: 2,
                command: InternalControlCommand::SetLeader {
                    leader_node_id: "node-a".to_string(),
                },
                created_unix_ms: 1,
            }],
            leader_commit: 1,
        })
        .expect("append should succeed");
    assert!(set_node_a.success);

    let set_node_b = runtime
        .handle_append_request(InternalControlAppendRequest {
            term: 3,
            leader_node_id: "node-b".to_string(),
            prev_log_index: 1,
            prev_log_term: 2,
            entries: vec![InternalControlLogEntry {
                index: 2,
                term: 3,
                command: InternalControlCommand::SetLeader {
                    leader_node_id: "node-b".to_string(),
                },
                created_unix_ms: 2,
            }],
            leader_commit: 2,
        })
        .expect("append should succeed");
    assert!(set_node_b.success);
    assert_eq!(
        runtime.current_state().leader_node_id.as_deref(),
        Some("node-b")
    );

    let mut stale_snapshot_state = runtime.current_state();
    stale_snapshot_state.leader_node_id = Some("node-a".to_string());
    stale_snapshot_state.applied_log_index = 1;
    stale_snapshot_state.applied_log_term = 2;

    let response = runtime
        .handle_install_snapshot_request(InternalControlInstallSnapshotRequest {
            term: 3,
            leader_node_id: "node-b".to_string(),
            snapshot_last_index: 1,
            snapshot_last_term: 2,
            state: SnapshotPayload::Decoded(stale_snapshot_state),
        })
        .expect("snapshot install should return");
    assert!(!response.success);
    assert_eq!(response.message.as_deref(), Some("stale_snapshot"));

    let state = runtime.current_state();
    assert_eq!(state.applied_log_index, 2);
    assert_eq!(state.applied_log_term, 3);
    assert_eq!(state.leader_node_id.as_deref(), Some("node-b"));
}

#[test]
fn membership_mutation_proposals_require_local_control_leader() {
    let join = InternalControlCommand::JoinNode {
        node_id: "node-c".to_string(),
        endpoint: "127.0.0.1:9303".to_string(),
    };
    let handoff = InternalControlCommand::BeginShardHandoff {
        shard: 0,
        from_node_id: "node-a".to_string(),
        to_node_id: "node-b".to_string(),
        activation_ring_version: 2,
    };
    let runtime = open_runtime_led_by(
        "node-a",
        "127.0.0.1:9301",
        &["node-b@127.0.0.1:9302"],
        "leader-check",
        64,
        Some("node-b"),
        unix_timestamp_millis(),
    );
    let err = runtime
        .validate_local_proposal(&join, unix_timestamp_millis())
        .expect_err("non-leader membership mutation should be rejected");
    assert!(err.contains("not the active control leader"));
    let handoff_err = runtime
        .validate_local_proposal(&handoff, unix_timestamp_millis())
        .expect_err("non-leader handoff mutation should be rejected");
    assert!(handoff_err.contains("not the active control leader"));

    let leading = open_runtime_led_by(
        "node-a",
        "127.0.0.1:9301",
        &["node-b@127.0.0.1:9302"],
        "leader-check",
        64,
        Some("node-a"),
        unix_timestamp_millis(),
    );
    leading
        .validate_local_proposal(&join, unix_timestamp_millis())
        .expect("leader membership mutation proposal should pass");
    leading
        .validate_local_proposal(&handoff, unix_timestamp_millis())
        .expect("leader handoff mutation proposal should pass");
}

#[test]
fn stale_leader_failover_candidate_is_deterministic() {
    let node_b_runtime = open_runtime_led_by(
        "node-b",
        "127.0.0.1:9302",
        &["node-a@127.0.0.1:9301", "node-c@127.0.0.1:9303"],
        "node-b",
        64,
        Some("node-a"),
        0,
    );
    let node_c_runtime = open_runtime_led_by(
        "node-c",
        "127.0.0.1:9303",
        &["node-a@127.0.0.1:9301", "node-b@127.0.0.1:9302"],
        "node-c",
        64,
        Some("node-a"),
        0,
    );

    let now_ms = unix_timestamp_millis();
    assert!(node_b_runtime.can_local_node_propose(now_ms));
    assert!(!node_c_runtime.can_local_node_propose(now_ms));
}

#[test]
fn stale_leader_failover_matrix_selects_single_non_leader_candidate() {
    let members = [
        (
            "node-a",
            "127.0.0.1:9301",
            ["node-b@127.0.0.1:9302", "node-c@127.0.0.1:9303"],
        ),
        (
            "node-b",
            "127.0.0.1:9302",
            ["node-a@127.0.0.1:9301", "node-c@127.0.0.1:9303"],
        ),
        (
            "node-c",
            "127.0.0.1:9303",
            ["node-a@127.0.0.1:9301", "node-b@127.0.0.1:9302"],
        ),
    ];
    let cases = [
        ("node-a", "node-b"),
        ("node-b", "node-c"),
        ("node-c", "node-a"),
    ];
    let now_ms = unix_timestamp_millis();

    for (stale_leader, expected_candidate) in cases {
        let mut eligible_non_leaders = Vec::new();
        for (node_id, bind, seeds) in &members {
            let runtime =
                open_runtime_led_by(node_id, bind, seeds, node_id, 64, Some(stale_leader), 0);
            if *node_id != stale_leader && runtime.can_local_node_propose(now_ms) {
                eligible_non_leaders.push(node_id.to_string());
            }
        }
        assert_eq!(
            eligible_non_leaders,
            vec![expected_candidate.to_string()],
            "expected exactly one failover candidate when stale leader is {stale_leader}"
        );
    }
}

#[test]
fn partition_failover_rejects_delayed_old_leader_and_converges_to_single_leader() {
    let mut node_a_runtime = open_runtime_for_node(
        "node-a",
        "127.0.0.1:9301",
        &["node-b@127.0.0.1:9302", "node-c@127.0.0.1:9303"],
        "node-a",
        64,
    );
    let mut node_b_runtime = open_runtime_for_node(
        "node-b",
        "127.0.0.1:9302",
        &["node-a@127.0.0.1:9301", "node-c@127.0.0.1:9303"],
        "node-b",
        64,
    );
    let mut node_c_runtime = open_runtime_for_node(
        "node-c",
        "127.0.0.1:9303",
        &["node-a@127.0.0.1:9301", "node-b@127.0.0.1:9302"],
        "node-c",
        64,
    );

    for runtime in [
        &mut node_a_runtime,
        &mut node_b_runtime,
        &mut node_c_runtime,
    ] {
        let response = runtime
            .handle_append_request(append_one(2, "node-a", 1, 0, set_leader("node-a"), 1))
            .expect("leader establish append should succeed");
        assert!(response.success);
        assert_eq!(
            runtime.current_state().leader_node_id.as_deref(),
            Some("node-a")
        );
    }

    for runtime in [&mut node_b_runtime, &mut node_c_runtime] {
        let response = runtime
            .handle_append_request(append_one(3, "node-b", 2, 2, set_leader("node-b"), 2))
            .expect("failover append should succeed on majority partition");
        assert!(response.success);
        assert_eq!(
            runtime.current_state().leader_node_id.as_deref(),
            Some("node-b")
        );
    }

    for runtime in [&mut node_b_runtime, &mut node_c_runtime] {
        let response = runtime
            .handle_append_request(InternalControlAppendRequest {
                term: 2,
                leader_node_id: "node-a".to_string(),
                prev_log_index: 1,
                prev_log_term: 2,
                entries: Vec::new(),
                leader_commit: 1,
            })
            .expect("delayed heartbeat should return");
        assert!(!response.success);
        assert_eq!(response.message.as_deref(), Some("stale_term"));
    }

    let catch_up_response = node_a_runtime
        .handle_append_request(append_one(3, "node-b", 2, 2, set_leader("node-b"), 2))
        .expect("recovery append to old leader should succeed");
    assert!(catch_up_response.success);

    for (node_id, runtime) in [
        ("node-a", &node_a_runtime),
        ("node-b", &node_b_runtime),
        ("node-c", &node_c_runtime),
    ] {
        let state = runtime.current_state();
        assert_eq!(
            state.leader_node_id.as_deref(),
            Some("node-b"),
            "node {node_id} did not converge to the surviving leader"
        );
        assert_eq!(
            state.applied_log_index, 2,
            "node {node_id} has stale log index"
        );
        assert_eq!(
            state.applied_log_term, 3,
            "node {node_id} has stale log term"
        );
    }
}

#[test]
fn minority_partition_set_leader_proposal_stays_pending_and_preserves_leader() {
    let mut runtime = open_runtime_led_by(
        "node-c",
        "127.0.0.1:9393",
        &["node-a@127.0.0.1:9391", "node-b@127.0.0.1:9392"],
        "node-c",
        64,
        Some("node-b"),
        0,
    );
    let proposal = runtime
        .begin_proposal(set_leader("node-c"))
        .expect("minority proposal should begin");
    let replies: Vec<ProposalReply> = proposal
        .peers
        .iter()
        .map(|peer| ProposalReply {
            node_id: peer.id.clone(),
            response: None,
        })
        .collect();
    let end = runtime
        .finish_proposal(&proposal, &replies)
        .expect("minority proposal should return pending");
    assert!(matches!(
        end.outcome,
        ProposeOutcome::Pending {
            required: 2,
            acknowledged: 1
        }
    ));
    assert!(!runtime.is_local_control_leader());
    assert_eq!(
        runtime.current_state().leader_node_id.as_deref(),
        Some("node-b")
    );
}

#[test]
fn peer_without_success_transitions_from_suspect_to_dead() {
    let runtime = open_runtime_for_node(
        "node-a",
        "127.0.0.1:9301",
        &["node-b@127.0.0.1:9302"],
        "node-a",
        64,
    );
    let now_ms = unix_timestamp_millis();
    let dead_ms = ControlConsensusConfig {
        snapshot_interval_entries: 64,
        ..ControlConsensusConfig::default()
    }
    .dead_timeout();

    let mut heartbeat = PeerHeartbeatState {
        last_success_unix_ms: None,
        last_failure_unix_ms: Some(now_ms.saturating_sub(dead_ms.saturating_sub(1))),
        consecutive_failures: 1,
    };
    assert_eq!(
        runtime.peer_liveness_status(&heartbeat, now_ms),
        ControlPeerLivenessStatus::Suspect
    );

    heartbeat.last_failure_unix_ms = Some(now_ms.saturating_sub(dead_ms));
    assert_eq!(
        runtime.peer_liveness_status(&heartbeat, now_ms),
        ControlPeerLivenessStatus::Dead
    );
}

#[test]
fn peer_liveness_recovers_to_healthy_after_successful_heartbeat() {
    let runtime = open_runtime_for_node(
        "node-a",
        "127.0.0.1:9301",
        &["node-b@127.0.0.1:9302"],
        "node-a",
        64,
    );
    let now_ms = unix_timestamp_millis();
    let heartbeat = PeerHeartbeatState {
        last_success_unix_ms: Some(now_ms),
        last_failure_unix_ms: Some(now_ms),
        consecutive_failures: 1,
    };
    assert_eq!(
        runtime.peer_liveness_status(&heartbeat, now_ms),
        ControlPeerLivenessStatus::Suspect
    );

    let recovered = PeerHeartbeatState {
        last_success_unix_ms: Some(now_ms),
        last_failure_unix_ms: Some(now_ms),
        consecutive_failures: 0,
    };
    assert_eq!(
        runtime.peer_liveness_status(&recovered, now_ms),
        ControlPeerLivenessStatus::Healthy
    );
}

#[test]
fn leader_liveness_snapshot_clamps_future_contact_age_under_clock_skew() {
    let lease_ms = ControlConsensusConfig::default().leader_lease_timeout();
    let future_contact_ms =
        unix_timestamp_millis().saturating_add(lease_ms.saturating_mul(4));
    let runtime = open_runtime_led_by(
        "node-a",
        "127.0.0.1:9301",
        &["node-b@127.0.0.1:9302"],
        "node-a",
        64,
        Some("node-b"),
        future_contact_ms,
    );

    let snapshot = runtime.liveness_snapshot();
    assert_eq!(snapshot.leader_node_id.as_deref(), Some("node-b"));
    assert_eq!(
        snapshot.leader_last_contact_unix_ms,
        Some(future_contact_ms)
    );
    assert_eq!(snapshot.leader_contact_age_ms, Some(0));
    assert!(!snapshot.leader_stale);
}

#[test]
fn install_snapshot_replaces_state_and_compacts_log() {
    let (membership, bootstrap_state) = sample_membership_and_state();
    let mut snapshot_state = bootstrap_state.clone();
    let mut runtime = ControlConsensusRuntime::open(
        &membership,
        bootstrap_state,
        Ok(None),
        "control-log.json".to_string(),
        ControlConsensusConfig::default(),
    )
    .expect("runtime should open");

    snapshot_state.leader_node_id = Some("node-a".to_string());
    snapshot_state.applied_log_index = 5;
    snapshot_state.applied_log_term = 7;

    let install = InternalControlInstallSnapshotRequest {
        term: 7,
        leader_node_id: "node-a".to_string(),
        snapshot_last_index: 5,
        snapshot_last_term: 7,
        state: SnapshotPayload::Decoded(snapshot_state),
    };
    let response = runtime
        .handle_install_snapshot_request(install)
        .expect("snapshot should install");
    assert!(response.success);
    assert_eq!(response.last_index, 5);

    let state = runtime.current_state();
    assert_eq!(state.applied_log_index, 5);
    assert_eq!(state.applied_log_term, 7);
    assert_eq!(state.leader_node_id.as_deref(), Some("node-a"));
}

#[test]
fn install_snapshot_refuses_a_state_that_could_not_be_decoded() {
    let mut runtime = open_runtime_for_node(
        "node-a",
        "127.0.0.1:9301",
        &["node-b@127.0.0.1:9302"],
        "undecodable",
        64,
    );
    let before = runtime.current_state();
    let outcome = runtime.handle_install_snapshot_request(InternalControlInstallSnapshotRequest {
        term: 7,
        leader_node_id: "node-b".to_string(),
        snapshot_last_index: 5,
        snapshot_last_term: 7,
        state: SnapshotPayload::Undecodable("missing field".to_string()),
    });
    assert_eq!(
        outcome.expect_err("a state that cannot be decoded is refused"),
        "failed to decode control snapshot payload: missing field"
    );
    assert_eq!(runtime.current_state(), before);
}

#[test]
fn append_rejection_uses_match_hint_for_peer_backtracking() {
    let mut runtime = open_runtime_for_node(
        "node-a",
        "127.0.0.1:9301",
        &["node-b@127.0.0.1:9302"],
        "leader",
        2,
    );
    let term = runtime.log_recovery_snapshot().current_term;
    let next = runtime
        .on_append_reply_at(
            "node-b",
            term,
            &Ok(InternalControlAppendResponse {
                term,
                success: true,
                match_index: 19,
                message: None,
            }),
            0,
            unix_timestamp_millis(),
        )
        .expect("reply should be taken in");
    assert_eq!(next, SyncNext::Done);

    let mismatch_response = InternalControlAppendResponse {
        term,
        success: false,
        match_index: 5,
        message: Some("prev_log_term_mismatch".to_string()),
    };
    let next_after_mismatch =
        runtime.peer_next_index_after_append_reject("node-b", &mismatch_response);
    assert_eq!(next_after_mismatch, 6);

    let snapshot_required_response = InternalControlAppendResponse {
        term,
        success: false,
        match_index: 11,
        message: Some("snapshot_required".to_string()),
    };
    let next_after_snapshot_required =
        runtime.peer_next_index_after_append_reject("node-b", &snapshot_required_response);
    assert_eq!(next_after_snapshot_required, 12);
}

#[test]
fn follower_catch_up_uses_snapshot_then_append() {
    let now_ms = unix_timestamp_millis();
    let mut leader = open_runtime_led_by(
        "node-a",
        "127.0.0.1:9301",
        &["node-b@127.0.0.1:9302"],
        "leader",
        2,
        Some("node-a"),
        now_ms,
    );
    let mut follower = open_runtime_for_node(
        "node-b",
        "127.0.0.1:9302",
        &["node-a@127.0.0.1:9301"],
        "follower",
        64,
    );

    for _ in 0..3 {
        let proposal = leader
            .begin_proposal(set_leader("node-a"))
            .expect("proposal should prepare");
        let replies = vec![ProposalReply {
            node_id: "node-b".to_string(),
            response: Some(InternalControlAppendResponse {
                term: proposal.term,
                success: true,
                match_index: proposal.index,
                message: None,
            }),
        }];
        let end = leader
            .finish_proposal(&proposal, &replies)
            .expect("committed entries should apply");
        save(&mut leader);
        assert_eq!(
            end.outcome,
            ProposeOutcome::Committed {
                index: proposal.index,
                term: proposal.term
            }
        );
    }
    let term = leader.log_recovery_snapshot().current_term;
    leader
        .on_append_reply_at(
            "node-b",
            term,
            &Ok(InternalControlAppendResponse {
                term,
                success: false,
                match_index: 0,
                message: Some("snapshot_required".to_string()),
            }),
            0,
            now_ms,
        )
        .expect("refusal should be taken in");

    let snapshot_response = match leader
        .build_peer_plan("node-b")
        .expect("snapshot plan should build")
    {
        PeerPlan::InstallSnapshot(request) => follower
            .handle_install_snapshot_request(request)
            .expect("snapshot install should return"),
        PeerPlan::Append(_) => panic!("expected snapshot plan for lagging follower"),
    };
    assert!(snapshot_response.success);
    leader
        .on_install_reply_at("node-b", term, &Ok(snapshot_response), 0, now_ms)
        .expect("snapshot reply should be taken in");

    let append_response = match leader
        .build_peer_plan("node-b")
        .expect("append plan should build")
    {
        PeerPlan::Append(request) => follower
            .handle_append_request(request)
            .expect("append should return"),
        PeerPlan::InstallSnapshot(_) => panic!("expected append plan after snapshot"),
    };
    assert!(append_response.success);

    let leader_state = leader.current_state();
    let follower_state = follower.current_state();
    assert_eq!(
        follower_state.applied_log_index,
        leader_state.applied_log_index
    );
    assert_eq!(
        follower_state.applied_log_term,
        leader_state.applied_log_term
    );
    assert_eq!(follower_state.leader_node_id, leader_state.leader_node_id);
}

#[test]
fn restore_recovery_snapshot_rehydrates_control_state_and_log() {
    let mut runtime = open_runtime_for_node(
        "node-a",
        "127.0.0.1:9301",
        &["node-b@127.0.0.1:9302"],
        "node-a",
        64,
    );

    let response = runtime
        .handle_append_request(append_one(2, "node-a", 1, 0, set_leader("node-a"), 1))
        .expect("leader append should succeed");
    assert!(response.success);

    let response = runtime
        .handle_append_request(append_one(
            3,
            "node-a",
            2,
            2,
            InternalControlCommand::JoinNode {
                node_id: "node-c".to_string(),
                endpoint: "127.0.0.1:9303".to_string(),
            },
            2,
        ))
        .expect("join append should succeed");
    assert!(response.success);

    let saved_state = runtime.current_state();
    let saved_log = runtime.log_recovery_snapshot();
    assert!(saved_state.node_record("node-c").is_some());
    assert_eq!(saved_log.commit_index, 2);

    let response = runtime
        .handle_append_request(append_one(
            4,
            "node-a",
            3,
            3,
            InternalControlCommand::LeaveNode {
                node_id: "node-c".to_string(),
            },
            3,
        ))
        .expect("leave append should succeed");
    assert!(response.success);
    let changed_state = runtime.current_state();
    assert_eq!(
        changed_state
            .node_record("node-c")
            .expect("node-c should exist")
            .status
            .as_str(),
        "leaving"
    );

    let restored_state = runtime
        .restore_recovery_snapshot(
            saved_state.clone(),
            {
                let bundle = runtime.recovery_snapshot_bundle();
                assert_eq!(bundle.1.commit_index, 3);
                tsink_cluster::consensus::ControlLogRecoverySnapshot {
                    current_term: saved_log.current_term,
                    commit_index: saved_log.commit_index,
                    snapshot_last_index: saved_log.snapshot_last_index,
                    snapshot_last_term: saved_log.snapshot_last_term,
                    entries: saved_log.entries.clone(),
                }
            },
            false,
        )
        .expect("restore should succeed");
    assert_eq!(restored_state, saved_state);
    assert_eq!(runtime.current_state(), saved_state);
    assert!(runtime.unsaved_state() && runtime.unsaved_log());
    save(&mut runtime);
    assert!(!runtime.unsaved_state() && !runtime.unsaved_log());

    let restored_log = runtime.log_recovery_snapshot();
    assert_eq!(restored_log.commit_index, saved_log.commit_index);
    assert_eq!(restored_log.entries, saved_log.entries);
}

#[test]
fn restore_recovery_snapshot_can_force_local_leader() {
    let mut runtime = open_runtime_for_node(
        "node-a",
        "127.0.0.1:9301",
        &["node-b@127.0.0.1:9302"],
        "node-a",
        64,
    );
    let mut recovered_state = runtime.current_state();
    recovered_state.leader_node_id = Some("node-b".to_string());
    recovered_state.updated_unix_ms = recovered_state.updated_unix_ms.saturating_add(1);
    recovered_state
        .validate()
        .expect("recovery state should validate");

    let log_snapshot = runtime.log_recovery_snapshot();
    let restored_state = runtime
        .restore_recovery_snapshot(recovered_state, log_snapshot, true)
        .expect("forced leader restore should succeed");
    assert_eq!(restored_state.leader_node_id.as_deref(), Some("node-a"));
    assert_eq!(
        runtime.current_state().leader_node_id.as_deref(),
        Some("node-a")
    );
}

#[test]
fn replicate_to_all_followers_collects_all_peer_failures() {
    let mut runtime = open_runtime_for_node(
        "node-a",
        "127.0.0.1:9301",
        &["node-b@127.0.0.1:9392", "node-c@127.0.0.1:9393"],
        "node-a",
        64,
    );
    let mut failures = Vec::new();
    for target in runtime.replication_targets() {
        let mut attempt = 0;
        let failure = loop {
            match runtime.on_append_reply_at(
                &target.id,
                1,
                &Err("connection refused".to_string()),
                attempt,
                unix_timestamp_millis(),
            ) {
                Ok(SyncNext::Again) => attempt += 1,
                Ok(SyncNext::Done) => panic!("an unreachable peer cannot be in step"),
                Err(message) => break message,
            }
        };
        failures.push(failure);
    }
    let err = report_replication(&failures)
        .expect_err("replication should fail for unreachable peers");
    assert!(
        err.contains("node-b"),
        "missing node-b failure context: {err}"
    );
    assert!(
        err.contains("node-c"),
        "missing node-c failure context: {err}"
    );
}

#[test]
fn a_restarted_node_has_its_log_and_state_again() {
    let mut runtime = open_runtime_for_node(
        "node-a",
        "127.0.0.1:9301",
        &["node-b@127.0.0.1:9302"],
        "restart",
        64,
    );
    for (term, index, prev) in [(2, 1, 0), (3, 2, 2)] {
        let response = runtime
            .handle_append_request(append_one(
                term,
                "node-b",
                index,
                prev,
                set_leader("node-b"),
                index,
            ))
            .expect("append should succeed");
        assert!(response.success);
    }
    let state = runtime.current_state();
    let file = runtime.log_file();
    validate_log_file(&file, "restart.control-log.json").expect("the log should be sound");

    let membership = membership_of("node-a", "127.0.0.1:9301", &["node-b@127.0.0.1:9302"]);
    let reopened = ControlConsensusRuntime::open(
        &membership,
        state.clone(),
        Ok(Some(file)),
        "restart.control-log.json".to_string(),
        ControlConsensusConfig::default(),
    )
    .expect("runtime should reopen");
    assert_eq!(reopened.current_state(), state);
    assert_eq!(
        reopened.log_recovery_snapshot(),
        runtime.log_recovery_snapshot()
    );
    assert_eq!(reopened.log_path(), "restart.control-log.json");
}

#[test]
fn a_log_of_another_kind_is_refused() {
    let runtime = open_runtime_for_node(
        "node-a",
        "127.0.0.1:9301",
        &["node-b@127.0.0.1:9302"],
        "kind",
        64,
    );
    let file = runtime.log_file();
    let foreign = ControlLogFileV1 {
        magic: "something-else".to_string(),
        ..file
    };
    assert!(validate_log_file(&foreign, "kind.control-log.json").is_err());
}

#[test]
fn settings_out_of_range_are_refused() {
    let good = ControlConsensusConfig::default();
    good.validate().expect("defaults should be valid");
    for bad in [
        ControlConsensusConfig {
            max_append_entries: 0,
            ..good
        },
        ControlConsensusConfig {
            snapshot_interval_entries: 0,
            ..good
        },
    ] {
        assert!(bad.validate().is_err());
    }
}

#[test]
fn an_outvoted_append_reply_raises_the_term() {
    let mut runtime = open_runtime_for_node(
        "node-a",
        "127.0.0.1:9301",
        &["node-b@127.0.0.1:9302"],
        "outvoted",
        64,
    );
    let next = runtime
        .on_append_reply_at(
            "node-b",
            1,
            &Ok(InternalControlAppendResponse {
                term: 9,
                success: false,
                match_index: 0,
                message: Some("stale_term".to_string()),
            }),
            0,
            1,
        )
        .expect("reply should be taken in");
    assert_eq!(next, SyncNext::Done);
    assert_eq!(runtime.log_recovery_snapshot().current_term, 9);
}

#[test]
fn a_refused_snapshot_ends_the_round() {
    let mut runtime = open_runtime_for_node(
        "node-a",
        "127.0.0.1:9301",
        &["node-b@127.0.0.1:9302"],
        "refused",
        64,
    );
    let refused = Ok(InternalControlInstallSnapshotResponse {
        term: 1,
        success: false,
        last_index: 0,
        message: Some("stale_snapshot".to_string()),
    });
    assert_eq!(
        runtime.on_install_reply_at("node-b", 1, &refused, 3, 1),
        Ok(SyncNext::Done)
    );
    let silent = Err("connection refused".to_string());
    assert_eq!(
        runtime.on_install_reply_at("node-b", 1, &silent, 2, 1),
        Ok(SyncNext::Again)
    );
    assert_eq!(
        runtime.on_install_reply_at("node-b", 1, &silent, 3, 1),
        Err("control snapshot RPC to node-b failed: connection refused".to_string())
    );
}

#[test]
fn answers_of_peers_leave_log_and_state_alone() {
    let mut runtime = open_runtime_for_node(
        "node-a",
        "127.0.0.1:9301",
        &["node-b@127.0.0.1:9302"],
        "answers",
        64,
    );
    let before = runtime.log_recovery_snapshot();
    let state = runtime.current_state();
    let replies = [
        Ok(InternalControlAppendResponse {
            term: before.current_term,
            success: true,
            match_index: 7,
            message: None,
        }),
        Err("connection refused".to_string()),
    ];
    for reply in replies {
        runtime
            .on_append_reply_at("node-b", before.current_term, &reply, 0, 1_000)
            .expect("reply should be taken in");
        let after = runtime.log_recovery_snapshot();
        assert_eq!(after.current_term, before.current_term);
        assert_eq!(after.commit_index, before.commit_index);
        assert_eq!(after.entries.len(), before.entries.len());
        assert_eq!(runtime.current_state(), state);
    }
}

#[test]
fn the_control_state_is_valid_after_each_committed_command() {
    let mut runtime = open_runtime_for_node(
        "node-a",
        "127.0.0.1:9301",
        &["node-b@127.0.0.1:9302"],
        "valid",
        64,
    );
    let commands = [
        set_leader("node-b"),
        InternalControlCommand::JoinNode {
            node_id: "node-c".to_string(),
            endpoint: "127.0.0.1:9303".to_string(),
        },
        InternalControlCommand::ActivateNode {
            node_id: "node-c".to_string(),
        },
        InternalControlCommand::LeaveNode {
            node_id: "node-c".to_string(),
        },
    ];
    for (place, command) in commands.into_iter().enumerate() {
        let index = place as u64 + 1;
        let response = runtime
            .handle_append_request(InternalControlAppendRequest {
                term: 1,
                leader_node_id: "node-b".to_string(),
                prev_log_index: index - 1,
                prev_log_term: if index == 1 { 0 } else { 1 },
                entries: vec![InternalControlLogEntry {
                    index,
                    term: 1,
                    command,
                    created_unix_ms: 1,
                }],
                leader_commit: index,
            })
            .expect("append should be answered");
        assert!(response.success);
        let state = runtime.current_state();
        assert_eq!(state.applied_log_index, index);
        assert_eq!(state.validate(), Ok(()));
    }
}

#[test]
fn the_log_is_kept_whole_until_the_control_state_is_written() {
    let membership = membership_of("node-a", "127.0.0.1:9301", &["node-b@127.0.0.1:9302"]);
    let older_state = ControlState::from_runtime(&membership, &ring_over(&membership));
    let mut runtime = open_runtime_for_node(
        "node-a",
        "127.0.0.1:9301",
        &["node-b@127.0.0.1:9302"],
        "unwritten",
        1,
    );
    save(&mut runtime);
    runtime
        .handle_append_request(append_one(2, "node-a", 1, 0, set_leader("node-a"), 1))
        .expect("append should be answered");
    assert!(runtime.unsaved_state() && runtime.unsaved_log());
    assert_eq!(runtime.log_snapshot_position(), (0, 0, 1));

    let restarted = ControlConsensusRuntime::open(
        &membership,
        older_state,
        Ok(Some(runtime.log_file())),
        runtime.log_path().to_string(),
        ControlConsensusConfig::default(),
    )
    .expect("a node should start from the older state and the whole log");
    assert_eq!(restarted.current_state().applied_log_index, 1);
    assert_eq!(
        restarted.current_state().leader_node_id.as_deref(),
        Some("node-a")
    );

    runtime
        .note_state_saved()
        .expect("log should be cut off");
    assert_eq!(runtime.log_snapshot_position(), (1, 2, 0));
    assert!(!runtime.unsaved_state() && runtime.unsaved_log());
}

#[test]
fn a_log_is_not_cut_off_after_a_write_that_failed() {
    let mut runtime = open_runtime_for_node(
        "node-a",
        "127.0.0.1:9301",
        &["node-b@127.0.0.1:9302"],
        "failed-write",
        1,
    );
    save(&mut runtime);
    runtime
        .handle_append_request(append_one(2, "node-a", 1, 0, set_leader("node-a"), 1))
        .expect("append should be answered");
    assert!(runtime.unsaved_state() && runtime.unsaved_log());
    runtime.note_write_failed();
    assert!(!runtime.unsaved_state() && !runtime.unsaved_log());
    assert_eq!(runtime.current_state().applied_log_index, 1);
    runtime
        .note_state_saved()
        .expect("nothing is cut off for a write that failed");
    assert_eq!(runtime.log_snapshot_position(), (0, 0, 1));
    assert!(!runtime.unsaved_log());

    runtime
        .handle_append_request(append_one(2, "node-a", 2, 2, set_leader("node-a"), 2))
        .expect("append should be answered");
    assert!(runtime.unsaved_state() && runtime.unsaved_log());
    runtime
        .note_state_saved()
        .expect("log should be cut off");
    assert_eq!(runtime.log_snapshot_position(), (2, 2, 0));
    assert!(!runtime.unsaved_state() && runtime.unsaved_log());
}

#[test]
fn a_running_node_saves_a_log_that_is_accepted() {
    let mut runtime = open_runtime_for_node(
        "node-a",
        "127.0.0.1:9301",
        &["node-b@127.0.0.1:9302"],
        "accepted",
        2,
    );
    let mut term_before = 0;
    for index in 1..6 {
        let term = index + 1;
        let request = append_one(term, "node-a", index, term_before, set_leader("node-a"), index);
        runtime
            .handle_append_request(request)
            .expect("append should be answered");
        save(&mut runtime);
        term_before = term;
        assert_eq!(validate_log_file(&runtime.log_file(), "here"), Ok(()));
        let (state, log) = runtime.recovery_snapshot_bundle();
        assert_eq!(state.validate(), Ok(()));
        assert!(log.current_term >= 1);
        assert!(log.entries.iter().all(|entry| entry.term > 0));
    }
}
