//! What a node goes on from when it starts or is restored: its log, and all of it that was committed.

use vstd::prelude::*;
use crate::consensus::{
    liveness_at, ConsensusView, ControlConsensusConfig, ControlPeerLivenessStatus, LogFileView,
    LogView, PeerLivenessView, CONTROL_LOG_MAGIC, CONTROL_LOG_SCHEMA_VERSION,
};
use crate::consensus_apply_laws::{entries_folded, law_committed_entries_are_applied_in_order};
use crate::consensus_recovery::{
    config_error, count_status, lemma_accepted_log, lemma_term_aside, log_entries_error, log_error,
    log_file_error, opened, peer_liveness, restore_error, restore_step, restored_state,
    restoring_node, starting_node, RECOVERY_LOG_NAME,
};
use crate::consensus_rules::{is_peer, last_index, lemma_replayed, peers_of, reconciled};
use crate::control::{ControlView, NodeView};
use crate::control_commands::pruned;
use crate::control_store::{
    header_error, known_version, load_result, version_less, version_of, writes,
    ControlStatePersistMode, ControlStatePersistenceVersion, CONTROL_STATE_MAGIC,
    CONTROL_STATE_SCHEMA_VERSION,
};
use crate::control_validity::state_error;
use crate::json::{member_value, parsed_json, JsonFieldView};
use crate::lists::{first_index, lemma_first_index};

verus! {

/// A log that can be used: it has a term, its entries follow the snapshot one by one and have terms, and
/// what is committed lies between the snapshot and the last entry.
pub open spec fn log_usable(log: LogView) -> bool {
    &&& log.current_term > 0
    &&& log.snapshot_last_index <= log.commit_index
    &&& forall|i: int|
        0 <= i < log.entries.len() ==> (#[trigger] log.entries[i]).index == log.snapshot_last_index
            + 1 + i && log.entries[i].term > 0
    &&& log.commit_index <= log.snapshot_last_index + log.entries.len()
}

proof fn lemma_entries(path: Seq<char>, log: LogView, n: nat)
    requires
        n <= log.entries.len(),
        log.snapshot_last_index + log.entries.len() < u64::MAX,
    ensures
        log_entries_error(path, log, n) is None <==> forall|i: int|
            0 <= i < n ==> (#[trigger] log.entries[i]).index == log.snapshot_last_index + 1 + i
                && log.entries[i].term > 0,
    decreases n,
{
    if n > 0 {
        lemma_entries(path, log, (n - 1) as nat);
        if log_entries_error(path, log, n) is None {
            assert forall|i: int| 0 <= i < n implies (#[trigger] log.entries[i]).index
                == log.snapshot_last_index + 1 + i && log.entries[i].term > 0 by {
                if i < n - 1 {
                    assert(log.entries[i].term > 0);
                }
            }
        }
        if forall|i: int|
            0 <= i < n ==> (#[trigger] log.entries[i]).index == log.snapshot_last_index + 1 + i
                && log.entries[i].term > 0 {
            assert(log.entries[n - 1].term > 0);
        }
    }
}

/// A log is accepted where it can be used, and refused otherwise.
pub proof fn law_which_logs_are_accepted(path: Seq<char>, log: LogView)
    requires
        log.snapshot_last_index + log.entries.len() < u64::MAX,
    ensures
        log_error(path, log) is None <==> log_usable(log),
{
    lemma_entries(path, log, log.entries.len());
    if log.entries.len() > 0 {
        assert(log.entries.last() == log.entries[log.entries.len() - 1]);
    }
}

/// A file that holds a log is accepted where it is of the kind and the version that are known, and its log
/// can be used.
pub proof fn law_which_log_files_are_accepted(path: Seq<char>, file: LogFileView)
    requires
        file.log.snapshot_last_index + file.log.entries.len() < u64::MAX,
    ensures
        log_file_error(path, file) is None <==> file.magic == CONTROL_LOG_MAGIC@
            && file.schema_version == CONTROL_LOG_SCHEMA_VERSION && log_usable(file.log),
{
    law_which_logs_are_accepted(path, file.log);
}

/// A node that starts has the entries of its log, and has applied all of them that are committed, one
/// after the other, from what its control state had applied. It is the node that it was started as.
pub proof fn law_started_node_has_applied_what_is_committed(
    local: Seq<char>,
    path: Seq<char>,
    state: ControlView,
    file: LogFileView,
    config: ControlConsensusConfig,
    now_ms: u64,
)
    requires
        file.log.snapshot_last_index + file.log.entries.len() < u64::MAX,
    ensures
        opened(local, path, state, Ok(Some(file)), config, now_ms) matches Ok(w) ==> {
            let log = file.log;
            &&& w.local_node_id == local
            &&& w.log_path == path
            &&& w.config == config
            &&& w.entries == log.entries
            &&& w.current_term == log.current_term
            &&& w.commit_index == log.commit_index
            &&& w.snapshot_last_index == log.snapshot_last_index
            &&& w.snapshot_last_term == log.snapshot_last_term
            &&& w.control == entries_folded(
                state,
                log.entries.subrange(
                    state.applied_log_index - log.snapshot_last_index,
                    log.commit_index - log.snapshot_last_index,
                ),
                now_ms,
            )
            &&& w.control.applied_log_index == log.commit_index
            &&& state_error(state) is None
            &&& config_error(config) is None
            &&& log_usable(log)
            &&& log.snapshot_last_index <= state.applied_log_index <= log.commit_index
        },
{
    let log = file.log;
    let v = starting_node(local, path, state, log, config, now_ms);
    if opened(local, path, state, Ok(Some(file)), config, now_ms) is Ok {
        law_which_logs_are_accepted(path, log);
        lemma_term_aside(path, log, 1, log.entries.len());
        lemma_accepted_log(path, v);
        law_committed_entries_are_applied_in_order(v, now_ms);
        if log.commit_index > state.applied_log_index {
            lemma_replayed(v, now_ms, (log.commit_index - state.applied_log_index) as nat);
        }
    }
}

/// A node without a log starts with an empty one, which goes on from what its control state had applied.
pub proof fn law_first_start(
    local: Seq<char>,
    path: Seq<char>,
    state: ControlView,
    config: ControlConsensusConfig,
    now_ms: u64,
)
    requires
        state_error(state) is None,
        config_error(config) is None,
    ensures
        opened(local, path, state, Ok(None), config, now_ms) matches Ok(w) && w.entries.len() == 0
            && w.control == state && w.commit_index == state.applied_log_index
            && w.snapshot_last_index == state.applied_log_index && w.snapshot_last_term
            == state.applied_log_term && w.current_term >= 1 && w.current_term
            >= state.applied_log_term,
{
}

/// A snapshot can be restored where it is valid, holds the node, and its log can be used and holds what
/// the state has applied.
pub proof fn law_which_snapshots_can_be_restored(local: Seq<char>, state: ControlView, log: LogView)
    requires
        log.snapshot_last_index + log.entries.len() < u64::MAX,
    ensures
        restore_error(local, state, log) is None <==> state_error(state) is None && (exists|i: int|
            0 <= i < state.nodes.len() && (#[trigger] state.nodes[i]).id == local) && log_usable(log)
            && log.snapshot_last_index <= state.applied_log_index <= log.commit_index,
{
    law_which_logs_are_accepted(RECOVERY_LOG_NAME@, log);
    let here = |node: NodeView| node.id == local;
    lemma_first_index(state.nodes, here);
    match first_index(state.nodes, here) {
        Some(i) => {
            assert(state.nodes[i].id == local);
        },
        None => {
            if exists|i: int| 0 <= i < state.nodes.len() && (#[trigger] state.nodes[i]).id == local {
                let i = choose|i: int|
                    0 <= i < state.nodes.len() && (#[trigger] state.nodes[i]).id == local;
                assert(!here(state.nodes[i]));
            }
        },
    }
}

/// A node keeps an index for each of its peers and for no other: the one that it knew, or the one behind
/// its last entry.
pub proof fn law_every_peer_has_its_index(v: ConsensusView, id: Seq<char>)
    requires
        last_index(v) < u64::MAX,
    ensures
        reconciled(v).peer_next_index.dom().contains(id) <==> is_peer(peers_of(v), id),
        reconciled(v).peer_heartbeat.dom().contains(id) <==> is_peer(peers_of(v), id),
        is_peer(peers_of(v), id) && v.peer_next_index.dom().contains(id) && v.peer_next_index[id] > 0
            ==> reconciled(v).peer_next_index[id] == v.peer_next_index[id],
        is_peer(peers_of(v), id) && !v.peer_next_index.dom().contains(id)
            ==> reconciled(v).peer_next_index[id] == last_index(v) + 1,
        is_peer(peers_of(v), id) && v.peer_heartbeat.dom().contains(id)
            ==> reconciled(v).peer_heartbeat[id] == v.peer_heartbeat[id],
        reconciled(v).entries == v.entries,
        reconciled(v).control == v.control,
        reconciled(v).commit_index == v.commit_index,
        reconciled(v).current_term == v.current_term,
{
}

/// How many peers are of a status is counted.
pub proof fn law_peers_of_a_status_are_counted(
    peers: Seq<PeerLivenessView>,
    status: ControlPeerLivenessStatus,
)
    ensures
        count_status(peers, status) == peers.filter(
            |peer: PeerLivenessView| peer.status == status,
        ).len(),
    decreases peers.len(),
{
    reveal(Seq::filter);
    if peers.len() > 0 {
        law_peers_of_a_status_are_counted(peers.drop_last(), status);
    }
}

/// What is told of a peer is what was noted of it.
pub proof fn law_peers_are_told_as_noted(v: ConsensusView, id: Seq<char>, now_ms: u64)
    ensures
        peer_liveness(v, id, now_ms).node_id == id,
        peer_liveness(v, id, now_ms).status == liveness_at(v.config, v.peer_heartbeat[id], now_ms),
        peer_liveness(v, id, now_ms).last_success_unix_ms
            == v.peer_heartbeat[id].last_success_unix_ms,
        peer_liveness(v, id, now_ms).last_failure_unix_ms
            == v.peer_heartbeat[id].last_failure_unix_ms,
        peer_liveness(v, id, now_ms).consecutive_failures
            == v.peer_heartbeat[id].consecutive_failures,
{
}

/// A state is newer than another by what it has applied before anything else, then by the term, the
/// epoch, the ring version and last the time.
pub proof fn law_what_makes_a_state_newer(a: ControlView, b: ControlView)
    ensures
        a.applied_log_index < b.applied_log_index ==> version_less(version_of(a), version_of(b)),
        a.applied_log_index == b.applied_log_index && a.applied_log_term < b.applied_log_term
            ==> version_less(version_of(a), version_of(b)),
        a.applied_log_index == b.applied_log_index && a.applied_log_term == b.applied_log_term
            && a.membership_epoch < b.membership_epoch ==> version_less(
            version_of(a),
            version_of(b),
        ),
        a.applied_log_index == b.applied_log_index && a.applied_log_term == b.applied_log_term
            && a.membership_epoch == b.membership_epoch && a.ring_version < b.ring_version
            ==> version_less(version_of(a), version_of(b)),
        a.applied_log_index == b.applied_log_index && a.applied_log_term == b.applied_log_term
            && a.membership_epoch == b.membership_epoch && a.ring_version == b.ring_version
            && a.updated_unix_ms < b.updated_unix_ms ==> version_less(version_of(a), version_of(b)),
        !version_less(version_of(a), version_of(a)),
        version_less(version_of(a), version_of(b)) ==> !version_less(version_of(b), version_of(a)),
{
}

/// A state is written over one that is known unless it is older; where none is known it is written. The
/// last one that was written counts before what the file holds.
pub proof fn law_when_a_state_is_written(
    s: ControlView,
    latest: Option<ControlStatePersistenceVersion>,
    on_disk: Option<ControlView>,
)
    ensures
        latest is None && on_disk is None ==> writes(
            s,
            ControlStatePersistMode::Monotonic,
            known_version(latest, on_disk),
        ),
        latest matches Some(version) ==> (writes(
            s,
            ControlStatePersistMode::Monotonic,
            known_version(latest, on_disk),
        ) <==> !version_less(version_of(s), version)),
        latest is None ==> (on_disk matches Some(old) ==> (writes(
            s,
            ControlStatePersistMode::Monotonic,
            known_version(latest, on_disk),
        ) <==> !version_less(version_of(s), version_of(old)))),
        writes(s, ControlStatePersistMode::ReplaceCurrent, known_version(latest, on_disk)),
{
}

/// A file that holds a control state is read where it is of the kind and the version that are known, its
/// state can be read, and the state, without the transitions that are over, is valid.
pub proof fn law_when_a_state_is_read(
    path: Seq<char>,
    bytes: Seq<u8>,
    decoded: Result<ControlView, Seq<char>>,
)
    ensures
        header_error(path, parsed_json(bytes)) is None <==> (parsed_json(bytes) matches Ok(document)
            && member_value(document, "magic"@) == Some(JsonFieldView::Text(CONTROL_STATE_MAGIC@))
            && member_value(document, "schemaVersion"@) == Some(
            JsonFieldView::Number(Some(CONTROL_STATE_SCHEMA_VERSION as u64)),
        )),
        load_result(path, None, decoded) == Ok::<Option<ControlView>, Seq<char>>(None),
        load_result(path, Some(bytes), decoded) is Ok <==> header_error(path, parsed_json(bytes))
            is None && (decoded matches Ok(state) && state_error(
            pruned(state),
        ) is None),
        load_result(path, Some(bytes), decoded) matches Ok(found) ==> (decoded matches Ok(state)
            && found == Some(pruned(state))),
{
}

/// A node that is restored has the entries of the log that was saved, and has applied all of them that are
/// committed, one after the other, from what the state that was saved had applied.
pub proof fn law_restored_node_has_applied_what_is_committed(
    v: ConsensusView,
    saved: ControlView,
    log: LogView,
    force_local_leader: bool,
    now_ms: u64,
)
    requires
        log.snapshot_last_index + log.entries.len() < u64::MAX,
    ensures
        restore_step(v, saved, log, force_local_leader, now_ms).1 is Ok ==> {
            let w = restore_step(v, saved, log, force_local_leader, now_ms).0;
            let state = restored_state(v.local_node_id, saved, force_local_leader, now_ms);
            &&& w.entries == log.entries
            &&& w.current_term >= log.current_term
            &&& w.commit_index == log.commit_index
            &&& w.snapshot_last_index == log.snapshot_last_index
            &&& w.snapshot_last_term == log.snapshot_last_term
            &&& w.local_node_id == v.local_node_id
            &&& w.config == v.config
            &&& w.control == entries_folded(
                state,
                log.entries.subrange(
                    state.applied_log_index - log.snapshot_last_index,
                    log.commit_index - log.snapshot_last_index,
                ),
                now_ms,
            )
            &&& w.control.applied_log_index == log.commit_index
            &&& w.current_term >= w.control.applied_log_term
            &&& w.unsaved_state
            &&& w.unsaved_log
        },
        restore_error(
            v.local_node_id,
            restored_state(v.local_node_id, saved, force_local_leader, now_ms),
            log,
        ) is Some ==> restore_step(v, saved, log, force_local_leader, now_ms).0 == v,
{
    let state = restored_state(v.local_node_id, saved, force_local_leader, now_ms);
    let w = restoring_node(v, state, log, now_ms);
    if restore_step(v, saved, log, force_local_leader, now_ms).1 is Ok {
        law_which_logs_are_accepted(RECOVERY_LOG_NAME@, log);
        lemma_term_aside(RECOVERY_LOG_NAME@, log, 1, log.entries.len());
        lemma_accepted_log(RECOVERY_LOG_NAME@, w);
        law_committed_entries_are_applied_in_order(w, now_ms);
        if log.commit_index > state.applied_log_index {
            lemma_replayed(w, now_ms, (log.commit_index - state.applied_log_index) as nat);
        }
    }
}

/// A state that is restored is the one that was saved; where the node is to lead, it names the node.
pub proof fn law_restored_state_is_the_saved_one(
    local: Seq<char>,
    saved: ControlView,
    force_local_leader: bool,
    now_ms: u64,
)
    ensures
        ({
            let state = restored_state(local, saved, force_local_leader, now_ms);
            &&& state.nodes == saved.nodes
            &&& state.ring == saved.ring
            &&& state.transitions == saved.transitions
            &&& state.membership_epoch == saved.membership_epoch
            &&& state.ring_version == saved.ring_version
            &&& state.applied_log_index == saved.applied_log_index
            &&& state.applied_log_term == saved.applied_log_term
            &&& state.leader_node_id == if force_local_leader {
                Some(local)
            } else {
                saved.leader_node_id
            }
        }),
{
}

} // verus!
