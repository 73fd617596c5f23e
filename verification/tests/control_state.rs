//! The state of a cluster, its changes, and who owns what.

use tsink_cluster::control::{
    ControlHandoffMutationOutcome, ControlMembershipMutationOutcome, ControlNodeRecord,
    ControlNodeStatus, ControlState, ShardHandoffPhase, ShardHandoffProgress,
    ShardOwnershipTransition,
};
use tsink_cluster::membership::{ClusterNode, MembershipView};
use tsink_cluster::ring::{ShardRing, ShardRingSnapshot, CURRENT_RING_HASH_VERSION};

fn sample_ring(shard_count: u32) -> ShardRing {
    let owners = vec!["node-a".to_string(), "node-b".to_string()];
    ShardRing::from_snapshot(ShardRingSnapshot {
        hash_version: CURRENT_RING_HASH_VERSION,
        shard_count,
        replication_factor: 2,
        virtual_nodes_per_node: 128,
        assignments: vec![owners; shard_count as usize],
    })
    .expect("ring should build")
}

fn sample_membership_and_ring() -> (MembershipView, ShardRing) {
    let membership = MembershipView {
        local_node_id: "node-a".to_string(),
        nodes: vec![
            ClusterNode {
                id: "node-a".to_string(),
                endpoint: "127.0.0.1:9301".to_string(),
            },
            ClusterNode {
                id: "node-b".to_string(),
                endpoint: "127.0.0.1:9302".to_string(),
            },
        ],
    };
    (membership, sample_ring(32))
}

#[test]
fn validate_rejects_ring_owner_missing_from_membership() {
    let (membership, ring) = sample_membership_and_ring();
    let mut state = ControlState::from_runtime(&membership, &ring);
    state.ring.assignments[0][0] = "node-z".to_string();
    let err = state.validate().expect_err("validation should fail");
    assert!(err.contains("not present in membership"));
}

#[test]
fn runtime_compatibility_rejects_ring_geometry_mismatch() {
    let (membership, ring) = sample_membership_and_ring();
    let state = ControlState::from_runtime(&membership, &ring);
    let mismatched_ring = sample_ring(64);
    let err = state
        .ensure_runtime_compatible(&membership, &mismatched_ring)
        .expect_err("runtime mismatch must fail");
    assert!(err.contains("shard_count"));
}

#[test]
fn runtime_compatibility_rejects_ring_hash_version_mismatch() {
    let (membership, ring) = sample_membership_and_ring();
    let mut state = ControlState::from_runtime(&membership, &ring);
    state.ring.hash_version = CURRENT_RING_HASH_VERSION.saturating_add(1);

    let err = state
        .ensure_runtime_compatible(&membership, &ring)
        .expect_err("ring hash version mismatch must fail");
    assert!(err.contains("hash_version"));
    assert!(err.contains("unsupported"));
    assert!(err.contains("xxh64_seed0"));
}

#[test]
fn runtime_compatibility_allows_additional_joined_nodes() {
    let (membership, ring) = sample_membership_and_ring();
    let mut state = ControlState::from_runtime(&membership, &ring);
    state
        .apply_join_node("node-c", "127.0.0.1:9303")
        .expect("join should apply");

    state
        .ensure_runtime_compatible(&membership, &ring)
        .expect("joined control membership should still be runtime-compatible");
}

#[test]
fn runtime_compatibility_rejects_local_node_endpoint_mismatch() {
    let (membership, ring) = sample_membership_and_ring();
    let mut state = ControlState::from_runtime(&membership, &ring);
    let node = state
        .nodes
        .iter_mut()
        .find(|node| node.id == "node-a")
        .expect("node-a should exist");
    node.endpoint = "127.0.0.1:9999".to_string();

    let err = state
        .ensure_runtime_compatible(&membership, &ring)
        .expect_err("local endpoint mismatch must fail");
    assert!(err.contains("endpoint mismatch for local node 'node-a'"));
}

#[test]
fn owners_for_shard_respects_transition_activation_barrier() {
    let state = ControlState {
        membership_epoch: 1,
        ring_version: 1,
        applied_log_index: 0,
        applied_log_term: 0,
        leader_node_id: None,
        nodes: vec![
            ControlNodeRecord {
                id: "node-a".to_string(),
                endpoint: "127.0.0.1:9301".to_string(),
                membership_generation: 1,
                status: ControlNodeStatus::Active,
            },
            ControlNodeRecord {
                id: "node-b".to_string(),
                endpoint: "127.0.0.1:9302".to_string(),
                membership_generation: 1,
                status: ControlNodeStatus::Active,
            },
        ],
        ring: ShardRingSnapshot {
            hash_version: CURRENT_RING_HASH_VERSION,
            shard_count: 1,
            replication_factor: 1,
            virtual_nodes_per_node: 1,
            assignments: vec![vec!["node-b".to_string()]],
        },
        transitions: vec![ShardOwnershipTransition {
            shard: 0,
            from_node_id: "node-a".to_string(),
            to_node_id: "node-b".to_string(),
            activation_ring_version: 2,
            handoff: ShardHandoffProgress::default(),
        }],
        updated_unix_ms: 1,
    };
    state.validate().expect("state should validate");

    let before_cutover = state.owners_for_shard_at_ring_version(0, 1);
    let after_cutover = state.owners_for_shard_at_ring_version(0, 2);
    assert_eq!(before_cutover, vec!["node-a".to_string()]);
    assert_eq!(after_cutover, vec!["node-b".to_string()]);
}

#[test]
fn node_is_owner_uses_effective_transition_owner() {
    let state = ControlState {
        membership_epoch: 1,
        ring_version: 1,
        applied_log_index: 0,
        applied_log_term: 0,
        leader_node_id: None,
        nodes: vec![
            ControlNodeRecord {
                id: "node-a".to_string(),
                endpoint: "127.0.0.1:9301".to_string(),
                membership_generation: 1,
                status: ControlNodeStatus::Active,
            },
            ControlNodeRecord {
                id: "node-b".to_string(),
                endpoint: "127.0.0.1:9302".to_string(),
                membership_generation: 1,
                status: ControlNodeStatus::Active,
            },
        ],
        ring: ShardRingSnapshot {
            hash_version: CURRENT_RING_HASH_VERSION,
            shard_count: 1,
            replication_factor: 1,
            virtual_nodes_per_node: 1,
            assignments: vec![vec!["node-b".to_string()]],
        },
        transitions: vec![ShardOwnershipTransition {
            shard: 0,
            from_node_id: "node-a".to_string(),
            to_node_id: "node-b".to_string(),
            activation_ring_version: 2,
            handoff: ShardHandoffProgress::default(),
        }],
        updated_unix_ms: 1,
    };
    state.validate().expect("state should validate");

    assert!(state.node_is_owner_for_shard_at_ring_version(0, "node-a", 1));
    assert!(!state.node_is_owner_for_shard_at_ring_version(0, "node-b", 1));
    assert!(!state.node_is_owner_for_shard_at_ring_version(0, "node-a", 2));
    assert!(state.node_is_owner_for_shard_at_ring_version(0, "node-b", 2));
}

#[test]
fn effective_ring_snapshot_uses_transition_owner_before_activation() {
    let state = ControlState {
        membership_epoch: 1,
        ring_version: 1,
        applied_log_index: 0,
        applied_log_term: 0,
        leader_node_id: None,
        nodes: vec![
            ControlNodeRecord {
                id: "node-a".to_string(),
                endpoint: "127.0.0.1:9301".to_string(),
                membership_generation: 1,
                status: ControlNodeStatus::Active,
            },
            ControlNodeRecord {
                id: "node-b".to_string(),
                endpoint: "127.0.0.1:9302".to_string(),
                membership_generation: 1,
                status: ControlNodeStatus::Active,
            },
        ],
        ring: ShardRingSnapshot {
            hash_version: CURRENT_RING_HASH_VERSION,
            shard_count: 1,
            replication_factor: 1,
            virtual_nodes_per_node: 1,
            assignments: vec![vec!["node-b".to_string()]],
        },
        transitions: vec![ShardOwnershipTransition {
            shard: 0,
            from_node_id: "node-a".to_string(),
            to_node_id: "node-b".to_string(),
            activation_ring_version: 2,
            handoff: ShardHandoffProgress::default(),
        }],
        updated_unix_ms: 1,
    };
    state.validate().expect("state should validate");

    let effective_before = state.effective_ring_snapshot_at_ring_version(1);
    let effective_after = state.effective_ring_snapshot_at_ring_version(2);
    assert_eq!(effective_before.assignments[0], vec!["node-a".to_string()]);
    assert_eq!(effective_after.assignments[0], vec!["node-b".to_string()]);
}

#[test]
fn membership_mutations_are_idempotent() {
    let (membership, ring) = sample_membership_and_ring();
    let mut state = ControlState::from_runtime(&membership, &ring);

    let join = state
        .apply_join_node("node-c", "127.0.0.1:9303")
        .expect("join should succeed");
    assert_eq!(join, ControlMembershipMutationOutcome::Applied);
    state.validate().expect("joined state should validate");
    let epoch_after_join = state.membership_epoch;
    assert_eq!(
        state.node_record("node-c").map(|node| node.status),
        Some(ControlNodeStatus::Joining)
    );

    let join_noop = state
        .apply_join_node("node-c", "127.0.0.1:9303")
        .expect("idempotent join should succeed");
    assert_eq!(join_noop, ControlMembershipMutationOutcome::Noop);
    assert_eq!(state.membership_epoch, epoch_after_join);

    let leave = state
        .apply_leave_node("node-c")
        .expect("leave should succeed");
    assert_eq!(leave, ControlMembershipMutationOutcome::Applied);
    state.validate().expect("leaving state should validate");
    let epoch_after_leave = state.membership_epoch;
    assert_eq!(
        state.node_record("node-c").map(|node| node.status),
        Some(ControlNodeStatus::Leaving)
    );

    let leave_noop = state
        .apply_leave_node("node-c")
        .expect("idempotent leave should succeed");
    assert_eq!(leave_noop, ControlMembershipMutationOutcome::Noop);
    assert_eq!(state.membership_epoch, epoch_after_leave);

    let recommission = state
        .apply_recommission_node("node-c", None)
        .expect("recommission should succeed");
    assert_eq!(recommission, ControlMembershipMutationOutcome::Applied);
    state
        .validate()
        .expect("recommissioned state should validate");
    let epoch_after_recommission = state.membership_epoch;
    assert_eq!(
        state.node_record("node-c").map(|node| node.status),
        Some(ControlNodeStatus::Active)
    );

    let recommission_noop = state
        .apply_recommission_node("node-c", None)
        .expect("idempotent recommission should succeed");
    assert_eq!(recommission_noop, ControlMembershipMutationOutcome::Noop);
    assert_eq!(state.membership_epoch, epoch_after_recommission);
}

#[test]
fn activate_and_remove_membership_transitions_are_supported() {
    let (membership, ring) = sample_membership_and_ring();
    let mut state = ControlState::from_runtime(&membership, &ring);

    state
        .apply_join_node("node-c", "127.0.0.1:9303")
        .expect("join should succeed");
    assert_eq!(
        state.node_record("node-c").map(|node| node.status),
        Some(ControlNodeStatus::Joining)
    );

    state
        .apply_activate_node("node-c")
        .expect("activate should succeed");
    assert_eq!(
        state.node_record("node-c").map(|node| node.status),
        Some(ControlNodeStatus::Active)
    );

    state
        .apply_leave_node("node-c")
        .expect("leave should succeed");
    state
        .apply_remove_node("node-c")
        .expect("remove should succeed when node owns no shards");
    assert_eq!(
        state.node_record("node-c").map(|node| node.status),
        Some(ControlNodeStatus::Removed)
    );
    state.validate().expect("state should remain valid");
}

#[test]
fn shard_handoff_state_machine_tracks_progress_and_resume() {
    let (membership, ring) = sample_membership_and_ring();
    let mut state = ControlState::from_runtime(&membership, &ring);
    let base_ring_version = state.ring_version;
    let activation_ring_version = base_ring_version.saturating_add(1);

    let begin = state
        .apply_begin_shard_handoff(0, "node-a", "node-b", activation_ring_version)
        .expect("begin handoff should succeed");
    assert_eq!(begin, ControlHandoffMutationOutcome::Applied);
    assert_eq!(state.ring_version, base_ring_version);

    let initial_snapshot = state.handoff_snapshot();
    assert_eq!(initial_snapshot.total_shards, 1);
    assert_eq!(initial_snapshot.warmup_shards, 1);
    assert_eq!(initial_snapshot.in_progress_shards, 1);

    state
        .apply_shard_handoff_progress(0, ShardHandoffPhase::Cutover, Some(120), Some(40), None)
        .expect("cutover should succeed");
    assert_eq!(state.ring_version, activation_ring_version);
    state
        .apply_shard_handoff_progress(
            0,
            ShardHandoffPhase::FinalSync,
            Some(180),
            Some(12),
            None,
        )
        .expect("final sync should succeed");
    state
        .apply_shard_handoff_progress(
            0,
            ShardHandoffPhase::Failed,
            Some(180),
            Some(12),
            Some("transient peer timeout".to_string()),
        )
        .expect("failed handoff state should be tracked");
    state
        .apply_shard_handoff_progress(0, ShardHandoffPhase::Warmup, None, None, None)
        .expect("failed handoff should be resumable");
    state
        .apply_shard_handoff_progress(0, ShardHandoffPhase::Cutover, Some(200), Some(8), None)
        .expect("resumed cutover should succeed");
    state
        .apply_shard_handoff_progress(0, ShardHandoffPhase::FinalSync, Some(225), Some(2), None)
        .expect("resumed final-sync should succeed");
    state
        .apply_complete_shard_handoff(0)
        .expect("completion should succeed");

    let snapshot = state.handoff_snapshot();
    assert_eq!(snapshot.total_shards, 1);
    assert_eq!(snapshot.completed_shards, 1);
    assert_eq!(snapshot.in_progress_shards, 0);
    assert_eq!(snapshot.resumed_shards, 1);
    assert_eq!(snapshot.copied_rows_total, 225);
    assert_eq!(snapshot.pending_rows_total, 0);
    assert_eq!(snapshot.shards[0].phase, ShardHandoffPhase::Completed);
    assert_eq!(snapshot.shards[0].resumed_count, 1);
    assert_eq!(state.ring_version, activation_ring_version);
}

#[test]
fn shard_handoff_rejects_invalid_phase_transition() {
    let (membership, ring) = sample_membership_and_ring();
    let mut state = ControlState::from_runtime(&membership, &ring);
    state
        .apply_begin_shard_handoff(0, "node-a", "node-b", state.ring_version.saturating_add(1))
        .expect("begin handoff should succeed");

    let err = state
        .apply_shard_handoff_progress(0, ShardHandoffPhase::Completed, None, None, None)
        .expect_err("warmup -> completed should be rejected");
    assert!(err.contains("invalid handoff phase transition"));
}

#[test]
fn begin_handoff_rejects_when_source_is_not_current_owner() {
    let (membership, ring) = sample_membership_and_ring();
    let mut state = ControlState::from_runtime(&membership, &ring);
    state
        .apply_join_node("node-c", "127.0.0.1:9303")
        .expect("join should succeed");

    let err = state
        .apply_begin_shard_handoff(0, "node-c", "node-a", state.ring_version.saturating_add(1))
        .expect_err("begin handoff should reject non-owner source node");
    assert!(err.contains("requires from_node_id 'node-c' to own shard 0"));
}

#[test]
fn begin_handoff_restarts_completed_shard_transition() {
    let (membership, ring) = sample_membership_and_ring();
    let mut state = ControlState::from_runtime(&membership, &ring);

    let first_activation = state.ring_version.saturating_add(1);
    state
        .apply_begin_shard_handoff(0, "node-a", "node-b", first_activation)
        .expect("first begin should succeed");
    state
        .apply_shard_handoff_progress(0, ShardHandoffPhase::Cutover, Some(10), Some(2), None)
        .expect("first cutover should succeed");
    state
        .apply_shard_handoff_progress(0, ShardHandoffPhase::FinalSync, Some(12), Some(0), None)
        .expect("first final sync should succeed");
    state
        .apply_complete_shard_handoff(0)
        .expect("first completion should succeed");

    let second_activation = state.ring_version.saturating_add(1);
    let outcome = state
        .apply_begin_shard_handoff(0, "node-b", "node-a", second_activation)
        .expect("second begin should replace completed transition");
    assert_eq!(outcome, ControlHandoffMutationOutcome::Applied);
    state.validate().expect("state should remain valid");

    let transition = state
        .transitions
        .iter()
        .find(|item| item.shard == 0)
        .expect("replacement transition should exist");
    assert_eq!(transition.from_node_id, "node-b");
    assert_eq!(transition.to_node_id, "node-a");
    assert_eq!(transition.activation_ring_version, second_activation);
    assert_eq!(transition.handoff.phase, ShardHandoffPhase::Warmup);
}

#[test]
fn ring_version_advance_prunes_older_completed_transitions() {
    let (membership, ring) = sample_membership_and_ring();
    let mut state = ControlState::from_runtime(&membership, &ring);

    let first_activation = state.ring_version.saturating_add(1);
    state
        .apply_begin_shard_handoff(0, "node-a", "node-b", first_activation)
        .expect("first begin should succeed");
    state
        .apply_shard_handoff_progress(0, ShardHandoffPhase::Cutover, Some(15), Some(3), None)
        .expect("first cutover should succeed");
    state
        .apply_shard_handoff_progress(0, ShardHandoffPhase::FinalSync, Some(18), Some(0), None)
        .expect("first final sync should succeed");
    state
        .apply_complete_shard_handoff(0)
        .expect("first completion should succeed");
    assert!(
        state.ring.assignments[0]
            .iter()
            .any(|owner| owner == "node-b"),
        "completed handoff should materialize new owner into the base ring"
    );
    assert!(state
        .transitions
        .iter()
        .any(|item| item.shard == 0 && item.handoff.phase == ShardHandoffPhase::Completed));

    let second_activation = state.ring_version.saturating_add(1);
    state
        .apply_begin_shard_handoff(1, "node-a", "node-b", second_activation)
        .expect("second begin should succeed");
    state
        .apply_shard_handoff_progress(1, ShardHandoffPhase::Cutover, Some(20), Some(5), None)
        .expect("second cutover should succeed");

    state.validate().expect("state should remain valid");
    assert_eq!(state.ring_version, second_activation);
    assert!(
        state.transitions.iter().all(|item| item.shard != 0),
        "older completed transition should be pruned"
    );
    assert!(state.node_is_owner_for_shard_at_ring_version(0, "node-b", state.ring_version));
}

#[test]
fn join_rejects_endpoint_mismatch_for_active_node() {
    let (membership, ring) = sample_membership_and_ring();
    let mut state = ControlState::from_runtime(&membership, &ring);
    let err = state
        .apply_join_node("node-a", "127.0.0.1:9999")
        .expect_err("join should reject endpoint mismatch for active node");
    assert!(err.contains("endpoint mismatch"));
}

#[test]
fn every_report_of_progress_keeps_the_state_valid() {
    let (membership, ring) = sample_membership_and_ring();
    let mut state = ControlState::from_runtime(&membership, &ring);
    state
        .apply_join_node("node-c", "127.0.0.1:9303")
        .expect("join should apply");
    let activation = state.ring_version.saturating_add(1);
    state
        .apply_begin_shard_handoff_at(3, "node-a", "node-c", activation, 1_000)
        .expect("begin should succeed");
    let reports = [
        (ShardHandoffPhase::Cutover, 1_100),
        (ShardHandoffPhase::Failed, 1_200),
        (ShardHandoffPhase::Warmup, 1_300),
        (ShardHandoffPhase::Cutover, 1_400),
        (ShardHandoffPhase::FinalSync, 1_500),
    ];
    for (phase, now_ms) in reports {
        state
            .apply_shard_handoff_progress_at(3, phase, Some(1), Some(1), None, now_ms)
            .expect("report should be taken");
        state.validate().expect("state should remain valid");
    }
    state
        .apply_complete_shard_handoff_at(3, 1_600)
        .expect("completion should succeed");
    state.validate().expect("state should remain valid");
    assert_eq!(
        state.ring.assignments[3],
        vec!["node-c".to_string(), "node-b".to_string()]
    );
}

#[test]
fn a_later_handoff_that_cuts_over_first_leaves_the_earlier_one_behind() {
    let (membership, ring) = sample_membership_and_ring();
    let mut state = ControlState::from_runtime(&membership, &ring);
    state
        .apply_join_node("node-c", "127.0.0.1:9303")
        .expect("join should apply");
    let version = state.ring_version;
    state
        .apply_begin_shard_handoff_at(0, "node-a", "node-c", version + 1, 1_000)
        .expect("first begin should succeed");
    state
        .apply_begin_shard_handoff_at(1, "node-a", "node-c", version + 2, 1_000)
        .expect("second begin should succeed");
    state
        .apply_shard_handoff_progress_at(1, ShardHandoffPhase::Cutover, None, None, None, 1_100)
        .expect("report should be taken");
    assert_eq!(state.ring_version, version + 2);
    state
        .validate()
        .expect_err("the earlier handoff is older than the ring");
}

#[test]
fn nodes_that_come_back_keep_the_state_valid() {
    let (membership, ring) = sample_membership_and_ring();
    let mut state = ControlState::from_runtime(&membership, &ring);
    state
        .apply_join_node("node-c", "127.0.0.1:9303")
        .expect("join should apply");
    state
        .apply_leave_node("node-c")
        .expect("leave should apply");
    state
        .apply_remove_node("node-c")
        .expect("remove should apply");
    assert_eq!(
        state.apply_join_node("node-c", "127.0.0.1:9304"),
        Ok(ControlMembershipMutationOutcome::Applied)
    );
    state.validate().expect("state should remain valid");
    assert_eq!(
        state.apply_recommission_node("node-c", Some(" 127.0.0.1:9305 ")),
        Ok(ControlMembershipMutationOutcome::Applied)
    );
    state.validate().expect("state should remain valid");
    assert_eq!(
        state.node_record("node-c").map(|node| node.endpoint.clone()),
        Some("127.0.0.1:9305".to_string())
    );
}

#[test]
fn a_node_taken_back_at_the_endpoint_of_another_is_found_out() {
    let (membership, ring) = sample_membership_and_ring();
    let mut state = ControlState::from_runtime(&membership, &ring);
    assert_eq!(
        state.apply_recommission_node("node-b", Some("127.0.0.1:9301")),
        Ok(ControlMembershipMutationOutcome::Applied)
    );
    state
        .validate()
        .expect_err("two members share an endpoint");
}

#[test]
fn the_first_state_fits_the_membership_and_the_ring() {
    let (mut membership, ring) = sample_membership_and_ring();
    membership.nodes.reverse();
    let state = ControlState::from_runtime(&membership, &ring);
    assert_eq!(state.ensure_runtime_compatible(&membership, &ring), Ok(()));
    assert_eq!((state.membership_epoch, state.ring_version), (1, 1));
    assert_eq!((state.applied_log_index, state.applied_log_term), (0, 0));
    assert!(state.leader_node_id.is_none() && state.transitions.is_empty());
    assert_eq!(state.ring, ring.snapshot());
    assert_eq!(state.nodes[0].id, "node-a");
    assert_eq!(state.nodes[1].id, "node-b");
    assert!(state
        .nodes
        .iter()
        .all(|node| node.membership_generation == 1 && node.status == ControlNodeStatus::Active));
}
