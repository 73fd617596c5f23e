//! What each operation on the control log makes of a node, and that the log stays in one piece.

use vstd::prelude::*;
use crate::consensus::{no_heartbeat, since, timeout_ms, ConsensusView, PeerHeartbeatState};
use crate::control::{
    bumped, ControlHandoffMutationOutcome, ControlMembershipMutationOutcome, ControlNodeStatus,
    ControlView, NodeView, ShardHandoffPhase,
};
use crate::control_commands::{
    activate_step, begin_step, join_step, leave_step, progress_step, recommission_step, remove_step,
};
use crate::control_ownership::{find_node, find_text};
use crate::control_validity::state_error;
use crate::membership::ClusterNodeView;
use crate::rpc_types::{
    AppendRequestView, AppendResponseView, CommandView, EntryView, InstallRequestView,
    InstallResponseView, PayloadView,
};
use crate::text::{decimal, text_less, trimmed};

verus! {

/// What a command that may change the control state leaves behind and answers.
pub type ControlStep = (ControlView, Result<(), Seq<char>>);

/// What an operation on a node leaves behind and answers.
pub type NodeStep<T> = (ConsensusView, Result<T, Seq<char>>);

/// The index of the entry at place `i` of a log that starts after `snapshot`.
pub open spec fn nth_index(snapshot: u64, i: int) -> u64 {
    if snapshot + 1 + i > u64::MAX {
        u64::MAX
    } else {
        (snapshot + 1 + i) as u64
    }
}

/// The index of the last entry, or of the snapshot where the log holds none.
pub open spec fn last_index(v: ConsensusView) -> u64 {
    if v.entries.len() == 0 {
        v.snapshot_last_index
    } else {
        v.entries.last().index
    }
}

/// Where the log holds the entry with an index.
pub open spec fn offset_of(v: ConsensusView, index: u64) -> Option<int> {
    if index <= v.snapshot_last_index {
        None
    } else if index - v.snapshot_last_index - 1 < v.entries.len() {
        Some(index - v.snapshot_last_index - 1)
    } else {
        None
    }
}

/// The term of the entry with an index, as far as the node knows it.
pub open spec fn term_at(v: ConsensusView, index: u64) -> Option<u64> {
    if index == 0 {
        Some(0)
    } else if index == v.snapshot_last_index {
        Some(v.snapshot_last_term)
    } else {
        match offset_of(v, index) {
            None => None,
            Some(i) => Some(v.entries[i].term),
        }
    }
}

/// The log goes on from the snapshot without gaps, and the snapshot holds what is committed alone.
pub open spec fn log_ordered(v: ConsensusView) -> bool {
    &&& forall|i: int|
        0 <= i < v.entries.len() ==> (#[trigger] v.entries[i]).index == nth_index(
            v.snapshot_last_index,
            i,
        )
    &&& v.snapshot_last_index <= v.commit_index
}

/// The log is ordered, it holds all that is committed, what is applied lies between the snapshot and
/// what is committed, and no term is zero.
pub open spec fn log_sound(v: ConsensusView) -> bool {
    &&& log_ordered(v)
    &&& v.current_term >= 1
    &&& forall|i: int| 0 <= i < v.entries.len() ==> (#[trigger] v.entries[i]).term > 0
    &&& v.snapshot_last_index <= v.control.applied_log_index <= v.commit_index <= last_index(v)
}

/// The nodes among the first that this one replicates to.
pub open spec fn peers_among(local: Seq<char>, nodes: Seq<NodeView>) -> Seq<ClusterNodeView>
    decreases nodes.len(),
{
    if nodes.len() == 0 {
        Seq::empty()
    } else {
        let before = peers_among(local, nodes.drop_last());
        let node = nodes.last();
        if node.id != local && node.status != ControlNodeStatus::Removed {
            before.push(ClusterNodeView { id: node.id, endpoint: node.endpoint })
        } else {
            before
        }
    }
}

/// The nodes that this one replicates to.
pub open spec fn peers_of(v: ConsensusView) -> Seq<ClusterNodeView> {
    peers_among(v.local_node_id, v.control.nodes)
}

/// Whether a node is a peer.
pub open spec fn is_peer(peers: Seq<ClusterNodeView>, id: Seq<char>) -> bool {
    exists|i: int| 0 <= i < peers.len() && (#[trigger] peers[i]).id == id
}

/// The nodes among the first that have a vote.
pub open spec fn voters_among(nodes: Seq<NodeView>) -> Seq<Seq<char>>
    decreases nodes.len(),
{
    if nodes.len() == 0 {
        Seq::empty()
    } else {
        let before = voters_among(nodes.drop_last());
        if nodes.last().status == ControlNodeStatus::Active {
            before.push(nodes.last().id)
        } else {
            before
        }
    }
}

/// The nodes that have a vote.
pub open spec fn voters_of(v: ConsensusView) -> Seq<Seq<char>> {
    voters_among(v.control.nodes)
}

/// How many nodes have to hold an entry before it is committed.
pub open spec fn quorum_of(v: ConsensusView) -> int {
    voters_of(v).len() as int / 2 + 1
}

/// The least of some texts.
pub open spec fn least_text(list: Seq<Seq<char>>) -> Seq<char>
    decreases list.len(),
{
    if list.len() == 0 {
        Seq::empty()
    } else if list.len() == 1 {
        list[0]
    } else {
        let least = least_text(list.drop_last());
        if text_less(list.last(), least) {
            list.last()
        } else {
            least
        }
    }
}

/// Whether a node belongs to the cluster.
pub open spec fn is_member(v: ConsensusView, id: Seq<char>) -> bool {
    exists|i: int|
        0 <= i < v.control.nodes.len() && (#[trigger] v.control.nodes[i]).status
            != ControlNodeStatus::Removed && v.control.nodes[i].id == id
}

/// Whether this node leads.
pub open spec fn leads(v: ConsensusView) -> bool {
    v.control.leader_node_id == Some(v.local_node_id)
}

/// Whether the leader has been silent for longer than its lease; a node that leads is not stale to
/// itself, and no leader is a stale one.
pub open spec fn leader_stale(v: ConsensusView, now_ms: u64) -> bool {
    match v.control.leader_node_id {
        None => true,
        Some(_) => !leads(v) && since(now_ms, v.last_leader_contact_unix_ms) >= timeout_ms(
            v.config.leader_lease_secs,
        ),
    }
}

/// The first node other than the leader, `offset` places or more after place `at` of the circle.
pub open spec fn next_other(
    voters: Seq<Seq<char>>,
    leader: Seq<char>,
    at: int,
    offset: int,
) -> Option<Seq<char>>
    decreases voters.len() + 1 - offset,
{
    if offset > voters.len() || voters.len() == 0 {
        None
    } else if voters[(at + offset) % (voters.len() as int)] != leader {
        Some(voters[(at + offset) % (voters.len() as int)])
    } else {
        next_other(voters, leader, at, offset + 1)
    }
}

/// The node that takes over from a leader: the one after it in the circle of those that vote.
pub open spec fn failover_candidate(voters: Seq<Seq<char>>, leader: Option<Seq<char>>) -> Option<
    Seq<char>,
> {
    if voters.len() == 0 {
        None
    } else {
        match leader {
            None => Some(voters[0]),
            Some(id) => if voters.len() == 1 {
                Some(voters[0])
            } else {
                match find_text(voters, id) {
                    None => None,
                    Some(at) => next_other(voters, id, at, 1),
                }
            },
        }
    }
}

/// Whether this node may propose itself as leader at `now_ms`.
pub open spec fn may_propose(v: ConsensusView, now_ms: u64) -> bool {
    if leads(v) {
        true
    } else {
        match v.control.leader_node_id {
            None => least_text(voters_of(v)) == v.local_node_id,
            Some(leader) => leader_stale(v, now_ms) && failover_candidate(
                voters_of(v),
                Some(leader),
            ) == Some(v.local_node_id),
        }
    }
}

/// The leader's name in a message.
pub open spec fn leader_name(v: ConsensusView) -> Seq<char> {
    match v.control.leader_node_id {
        None => "<none>"@,
        Some(leader) => leader,
    }
}

/// Why this node may not propose a command at `now_ms`.
pub open spec fn proposal_refusal(v: ConsensusView, command: CommandView, now_ms: u64) -> Option<
    Seq<char>,
> {
    match command {
        CommandView::SetLeader { leader_node_id } => if leader_node_id != v.local_node_id {
            Some(
                "local node '"@ + v.local_node_id + "' cannot propose set_leader for '"@
                    + leader_node_id + "'"@,
            )
        } else if may_propose(v, now_ms) {
            None
        } else {
            Some(
                "node '"@ + v.local_node_id
                    + "' is not eligible to propose control command; current leader is '"@
                    + leader_name(v) + "' and failover preconditions are not met"@,
            )
        },
        _ => if leads(v) {
            None
        } else {
            Some(
                "node '"@ + v.local_node_id
                    + "' is not the active control leader; current leader is '"@ + leader_name(v)
                    + "'"@,
            )
        },
    }
}

/// The heartbeats after a peer answered.
pub open spec fn after_success(
    heartbeats: Map<Seq<char>, PeerHeartbeatState>,
    id: Seq<char>,
    now_ms: u64,
) -> Map<Seq<char>, PeerHeartbeatState> {
    let before = heartbeat_of(heartbeats, id);
    heartbeats.insert(
        id,
        PeerHeartbeatState {
            last_success_unix_ms: Some(now_ms),
            last_failure_unix_ms: before.last_failure_unix_ms,
            consecutive_failures: 0,
        },
    )
}

/// The heartbeats after a peer failed to answer.
pub open spec fn after_failure(
    heartbeats: Map<Seq<char>, PeerHeartbeatState>,
    id: Seq<char>,
    now_ms: u64,
) -> Map<Seq<char>, PeerHeartbeatState> {
    let before = heartbeat_of(heartbeats, id);
    heartbeats.insert(
        id,
        PeerHeartbeatState {
            last_success_unix_ms: before.last_success_unix_ms,
            last_failure_unix_ms: Some(now_ms),
            consecutive_failures: bumped(before.consecutive_failures),
        },
    )
}

/// What is known of a peer's answers.
pub open spec fn heartbeat_of(
    heartbeats: Map<Seq<char>, PeerHeartbeatState>,
    id: Seq<char>,
) -> PeerHeartbeatState {
    if heartbeats.dom().contains(id) {
        heartbeats[id]
    } else {
        no_heartbeat()
    }
}

/// The next index of each peer: the one known, at least one, or `fresh` where none is.
pub open spec fn next_indexes(
    peers: Seq<ClusterNodeView>,
    known: Map<Seq<char>, u64>,
    fresh: u64,
) -> Map<Seq<char>, u64> {
    Map::new(
        |id: Seq<char>| is_peer(peers, id),
        |id: Seq<char>|
            {
                let next = if known.dom().contains(id) {
                    known[id]
                } else {
                    fresh
                };
                if next == 0 {
                    1u64
                } else {
                    next
                }
            },
    )
}

/// The heartbeats of the peers alone.
pub open spec fn heartbeats_kept(
    peers: Seq<ClusterNodeView>,
    known: Map<Seq<char>, PeerHeartbeatState>,
) -> Map<Seq<char>, PeerHeartbeatState> {
    Map::new(|id: Seq<char>| is_peer(peers, id), |id: Seq<char>| heartbeat_of(known, id))
}

/// The node with its peers brought in line with the membership.
pub open spec fn reconciled(v: ConsensusView) -> ConsensusView {
    ConsensusView {
        peer_next_index: next_indexes(peers_of(v), v.peer_next_index, bumped(last_index(v))),
        peer_heartbeat: heartbeats_kept(peers_of(v), v.peer_heartbeat),
        ..v
    }
}

/// Whether a membership command changed anything.
pub open spec fn membership_applied(
    step: (ControlView, Result<ControlMembershipMutationOutcome, Seq<char>>),
) -> (ControlView, Result<bool, Seq<char>>) {
    match step.1 {
        Err(message) => (step.0, Err(message)),
        Ok(outcome) => (step.0, Ok(outcome == ControlMembershipMutationOutcome::Applied)),
    }
}

/// Whether a handoff command changed anything.
pub open spec fn handoff_applied(
    step: (ControlView, Result<ControlHandoffMutationOutcome, Seq<char>>),
) -> (ControlView, Result<bool, Seq<char>>) {
    match step.1 {
        Err(message) => (step.0, Err(message)),
        Ok(outcome) => (step.0, Ok(outcome == ControlHandoffMutationOutcome::Applied)),
    }
}

/// What `set_leader` makes of the control state, and whether it changed anything.
pub open spec fn set_leader(s: ControlView, leader: Seq<char>) -> (
    ControlView,
    Result<bool, Seq<char>>,
) {
    if trimmed(leader).len() == 0 {
        (s, Err("control command set_leader has an empty leader_node_id"@))
    } else if find_node(s.nodes, leader) is None {
        (s, Err("control command set_leader references unknown node '"@ + leader + "'"@))
    } else {
        (
            ControlView { leader_node_id: Some(leader), ..s },
            Ok(s.leader_node_id != Some(leader)),
        )
    }
}

/// What a command makes of the control state, and whether it changed anything.
pub open spec fn command_effect(s: ControlView, command: CommandView, now_ms: u64) -> (
    ControlView,
    Result<bool, Seq<char>>,
) {
    match command {
        CommandView::SetLeader { leader_node_id } => set_leader(s, leader_node_id),
        CommandView::JoinNode { node_id, endpoint } => membership_applied(
            join_step(s, node_id, endpoint),
        ),
        CommandView::LeaveNode { node_id } => membership_applied(leave_step(s, node_id)),
        CommandView::RecommissionNode { node_id, endpoint } => membership_applied(
            recommission_step(s, node_id, endpoint),
        ),
        CommandView::ActivateNode { node_id } => membership_applied(activate_step(s, node_id)),
        CommandView::RemoveNode { node_id } => membership_applied(remove_step(s, node_id)),
        CommandView::BeginShardHandoff {
            shard,
            from_node_id,
            to_node_id,
            activation_ring_version,
        } => handoff_applied(
            begin_step(s, shard, from_node_id, to_node_id, activation_ring_version, now_ms),
        ),
        CommandView::UpdateShardHandoff { shard, phase, copied_rows, pending_rows, last_error } => {
            handoff_applied(
                progress_step(s, shard, phase, copied_rows, pending_rows, last_error, now_ms),
            )
        },
        CommandView::CompleteShardHandoff { shard } => handoff_applied(
            progress_step(s, shard, ShardHandoffPhase::Completed, None, Some(0), None, now_ms),
        ),
    }
}

/// What a committed entry makes of the control state. A command that is refused leaves the state
/// at the entry before; one that leads to an invalid state is reported.
pub open spec fn entry_applied(s: ControlView, entry: EntryView, now_ms: u64) -> ControlStep {
    match command_effect(s, entry.command, now_ms) {
        (next, Err(message)) => (next, Err(message)),
        (next, Ok(changed)) => {
            let done = ControlView {
                applied_log_index: entry.index,
                applied_log_term: entry.term,
                updated_unix_ms: if changed {
                    now_ms
                } else {
                    next.updated_unix_ms
                },
                ..next
            };
            match state_error(done) {
                Some(message) => (done, Err(message)),
                None => (done, Ok(())),
            }
        },
    }
}

/// The node after up to `n` committed entries are applied.
pub open spec fn replayed(v: ConsensusView, now_ms: u64, n: nat) -> NodeStep<()>
    decreases n,
{
    if n == 0 || v.control.applied_log_index >= v.commit_index {
        (v, Ok(()))
    } else {
        let next = bumped(v.control.applied_log_index);
        if next <= v.snapshot_last_index {
            (
                v,
                Err(
                    "cannot replay compacted control-log index "@ + decimal(next as nat)
                        + " (snapshot index "@ + decimal(v.snapshot_last_index as nat) + ")"@,
                ),
            )
        } else {
            match offset_of(v, next) {
                None => (
                    v,
                    Err("missing committed control-log entry at index "@ + decimal(next as nat)),
                ),
                Some(i) => match entry_applied(v.control, v.entries[i], now_ms) {
                    (control, Err(message)) => (ConsensusView { control, ..v }, Err(message)),
                    (control, Ok(_)) => replayed(
                        ConsensusView { control, ..v },
                        now_ms,
                        (n - 1) as nat,
                    ),
                },
            }
        }
    }
}

/// The node after its log was cut off behind what is committed, where that is long enough.
pub open spec fn compacted(v: ConsensusView) -> NodeStep<()> {
    let span = v.commit_index - v.snapshot_last_index;
    if v.commit_index <= v.snapshot_last_index || span < v.config.snapshot_interval_entries {
        (v, Ok(()))
    } else {
        match term_at(v, v.commit_index) {
            None => (
                v,
                Err(
                    "missing term for control-log snapshot at index "@ + decimal(
                        v.commit_index as nat,
                    ),
                ),
            ),
            Some(term) => if span > v.entries.len() {
                (
                    v,
                    Err(
                        "control-log compaction span "@ + decimal(span as nat)
                            + " exceeds in-memory log length "@ + decimal(v.entries.len()),
                    ),
                )
            } else {
                (
                    ConsensusView {
                        entries: v.entries.skip(span),
                        snapshot_last_index: v.commit_index,
                        snapshot_last_term: term,
                        ..v
                    },
                    Ok(()),
                )
            },
        }
    }
}

/// The node after every committed entry is applied. Its peers are brought in line, and where
/// anything was applied the control state has to be saved, after which the log may be cut off.
pub open spec fn committed_applied(v: ConsensusView, now_ms: u64) -> NodeStep<()> {
    let pending = v.commit_index - v.control.applied_log_index;
    if pending <= 0 {
        (reconciled(v), Ok(()))
    } else {
        match replayed(v, now_ms, pending as nat) {
            (w, Err(message)) => (w, Err(message)),
            (w, Ok(_)) => (
                ConsensusView { unsaved_state: true, compaction_due: true, ..reconciled(w) },
                Ok(()),
            ),
        }
    }
}

/// The node after its control state was written. Where that was because entries were applied, and
/// none waits to be applied, the log is cut off.
pub open spec fn state_noted(v: ConsensusView) -> NodeStep<()> {
    let w = ConsensusView { unsaved_state: false, ..v };
    if v.compaction_due && v.control.applied_log_index >= v.commit_index {
        match compacted(ConsensusView { compaction_due: false, ..w }) {
            (x, Err(message)) => (x, Err(message)),
            (x, Ok(_)) => (
                ConsensusView {
                    unsaved_log: v.unsaved_log || x.snapshot_last_index > v.snapshot_last_index,
                    ..x
                },
                Ok(()),
            ),
        }
    } else {
        (w, Ok(()))
    }
}

/// The node after something could not be written. Nothing is made up for: the control state is
/// written again, and the log cut off, after the next entry is applied, and the log is written again
/// with its next change.
pub open spec fn write_failed(v: ConsensusView) -> ConsensusView {
    ConsensusView { unsaved_state: false, unsaved_log: false, compaction_due: false, ..v }
}

/// An answer that refuses an append.
pub open spec fn append_refused(v: ConsensusView, match_index: u64, message: Seq<char>) -> NodeStep<
    AppendResponseView,
> {
    (v, Ok(append_refusal(v, match_index, message)))
}

/// An answer that refuses an append.
pub open spec fn append_refusal(v: ConsensusView, match_index: u64, message: Seq<char>) ->
    AppendResponseView {
    AppendResponseView {
        term: v.current_term,
        success: false,
        match_index,
        message: Some(message),
    }
}

/// The node after the leader of a term made contact.
pub open spec fn contacted(
    v: ConsensusView,
    leader: Seq<char>,
    term: u64,
    now_ms: u64,
) -> ConsensusView {
    ConsensusView {
        current_term: if term > v.current_term {
            term
        } else {
            v.current_term
        },
        last_leader_contact_unix_ms: now_ms,
        peer_heartbeat: if leader != v.local_node_id {
            after_success(v.peer_heartbeat, leader, now_ms)
        } else {
            v.peer_heartbeat
        },
        ..v
    }
}

/// Why a leader's message is refused before it is looked into, with the index to answer.
pub open spec fn leader_refusal(v: ConsensusView, leader: Seq<char>, term: u64) -> Option<
    (u64, Seq<char>),
> {
    if !is_member(v, leader) {
        Some((0, "unknown_leader_node"@))
    } else if term < v.current_term {
        Some((last_index(v), "stale_term"@))
    } else if term == v.current_term && v.control.leader_node_id is Some
        && v.control.leader_node_id != Some(leader) {
        Some((last_index(v), "conflicting_leader_same_term"@))
    } else {
        None
    }
}

/// What one entry of an append makes of the log, and the answer where it ends the append.
pub open spec fn entry_taken(v: ConsensusView, expected: u64, entry: EntryView) -> (
    ConsensusView,
    Option<Result<AppendResponseView, Seq<char>>>,
) {
    if entry.index != expected {
        (
            v,
            Some(
                Ok(
                    append_refusal(
                        v,
                        last_index(v),
                        "non_contiguous_entry_index: expected "@ + decimal(expected as nat)
                            + ", got "@ + decimal(entry.index as nat),
                    ),
                ),
            ),
        )
    } else if entry.term == 0 {
        (v, Some(Ok(append_refusal(v, last_index(v), "entry_term_must_be_positive"@))))
    } else if entry.index <= v.snapshot_last_index {
        let known = match term_at(v, entry.index) {
            Some(term) => term,
            None => 0,
        };
        if known != entry.term {
            (v, Some(Ok(append_refusal(v, v.snapshot_last_index, "snapshot_conflict"@))))
        } else {
            (v, None)
        }
    } else {
        match offset_of(v, entry.index) {
            Some(i) => {
                let existing = v.entries[i];
                if existing.term == entry.term && existing.command == entry.command {
                    (v, None)
                } else if entry.index <= v.commit_index {
                    (
                        v,
                        Some(
                            Err(
                                "cannot overwrite committed control-log entry at index "@ + decimal(
                                    entry.index as nat,
                                ),
                            ),
                        ),
                    )
                } else {
                    (ConsensusView { entries: v.entries.take(i).push(entry), ..v }, None)
                }
            },
            None => if entry.index != bumped(last_index(v)) {
                (v, Some(Ok(append_refusal(v, last_index(v), "entry_index_gap"@))))
            } else {
                (ConsensusView { entries: v.entries.push(entry), ..v }, None)
            },
        }
    }
}

/// What the first `n` entries of an append make of the log, and the answer where one ends it.
pub open spec fn entries_taken(
    v: ConsensusView,
    prev_log_index: u64,
    entries: Seq<EntryView>,
    n: nat,
) -> (ConsensusView, Option<Result<AppendResponseView, Seq<char>>>)
    decreases n,
{
    if n == 0 {
        (v, None)
    } else {
        match entries_taken(v, prev_log_index, entries, (n - 1) as nat) {
            (w, Some(answer)) => (w, Some(answer)),
            (w, None) => entry_taken(w, nth_index(prev_log_index, n - 1), entries[n - 1]),
        }
    }
}

/// The node after an append whose entries were all taken, with the leader's commit index.
pub open spec fn append_finished(v: ConsensusView, leader_commit: u64, now_ms: u64) -> NodeStep<
    AppendResponseView,
> {
    let last = last_index(v);
    let step = if leader_commit > v.commit_index {
        committed_applied(
            ConsensusView {
                commit_index: if leader_commit < last {
                    leader_commit
                } else {
                    last
                },
                ..v
            },
            now_ms,
        )
    } else {
        (v, Ok(()))
    };
    match step {
        (w, Err(message)) => (w, Err(message)),
        (w, Ok(_)) => (
            ConsensusView { unsaved_log: true, ..w },
            Ok(
                AppendResponseView {
                    term: w.current_term,
                    success: true,
                    match_index: last,
                    message: None,
                },
            ),
        ),
    }
}

/// What an append makes of a node that accepts its sender as leader.
pub open spec fn append_from_leader(v: ConsensusView, request: AppendRequestView, now_ms: u64) ->
    NodeStep<AppendResponseView> {
    if request.prev_log_index < v.snapshot_last_index {
        append_refused(v, v.snapshot_last_index, "snapshot_required"@)
    } else {
        match term_at(v, request.prev_log_index) {
            None => append_refused(v, last_index(v), "missing_prev_log_index"@),
            Some(term) => if term != request.prev_log_term {
                append_refused(v, last_index(v), "prev_log_term_mismatch"@)
            } else {
                match entries_taken(
                    v,
                    request.prev_log_index,
                    request.entries,
                    request.entries.len(),
                ) {
                    (w, Some(answer)) => (w, answer),
                    (w, None) => append_finished(w, request.leader_commit, now_ms),
                }
            },
        }
    }
}

/// What a request to append makes of a node, and what the node answers.
pub open spec fn append_step(v: ConsensusView, request: AppendRequestView, now_ms: u64) -> NodeStep<
    AppendResponseView,
> {
    let leader = trimmed(request.leader_node_id);
    if request.term == 0 {
        append_refused(v, 0, "append term must be greater than zero"@)
    } else if leader.len() == 0 {
        append_refused(v, 0, "leader_node_id must not be empty"@)
    } else {
        match leader_refusal(v, leader, request.term) {
            Some((index, message)) => append_refused(v, index, message),
            None => append_from_leader(contacted(v, leader, request.term, now_ms), request, now_ms),
        }
    }
}

/// An answer that refuses a snapshot.
pub open spec fn install_refused(v: ConsensusView, index: u64, message: Seq<char>) -> NodeStep<
    InstallResponseView,
> {
    (
        v,
        Ok(
            InstallResponseView {
                term: v.current_term,
                success: false,
                last_index: index,
                message: Some(message),
            },
        ),
    )
}

/// The control state that a snapshot stands for.
pub open spec fn snapshot_state(
    state: ControlView,
    request: InstallRequestView,
    now_ms: u64,
) -> ControlView {
    ControlView {
        applied_log_index: request.snapshot_last_index,
        applied_log_term: request.snapshot_last_term,
        updated_unix_ms: now_ms,
        leader_node_id: Some(trimmed(request.leader_node_id)),
        ..state
    }
}

/// The entries with an index above another.
pub open spec fn entries_above(entries: Seq<EntryView>, index: u64) -> Seq<EntryView>
    decreases entries.len(),
{
    if entries.len() == 0 {
        Seq::empty()
    } else {
        let before = entries_above(entries.drop_last(), index);
        if entries.last().index > index {
            before.push(entries.last())
        } else {
            before
        }
    }
}

/// What a snapshot makes of a node that accepts its sender as leader.
pub open spec fn install_from_leader(
    v: ConsensusView,
    request: InstallRequestView,
    state: ControlView,
) -> NodeStep<InstallResponseView> {
    let index = request.snapshot_last_index;
    if index < v.commit_index || index < v.control.applied_log_index {
        install_refused(v, last_index(v), "stale_snapshot"@)
    } else {
        let w = reconciled(
            ConsensusView {
                commit_index: index,
                snapshot_last_index: index,
                snapshot_last_term: request.snapshot_last_term,
                entries: entries_above(v.entries, index),
                control: state,
                ..v
            },
        );
        (
            ConsensusView { unsaved_state: true, unsaved_log: true, ..w },
            Ok(
                InstallResponseView {
                    term: w.current_term,
                    success: true,
                    last_index: last_index(w),
                    message: None,
                },
            ),
        )
    }
}

/// What a request to take over a snapshot makes of a node, and what the node answers.
pub open spec fn install_step(v: ConsensusView, request: InstallRequestView, now_ms: u64) -> NodeStep<
    InstallResponseView,
> {
    let leader = trimmed(request.leader_node_id);
    if request.term == 0 {
        install_refused(v, 0, "snapshot term must be greater than zero"@)
    } else if request.snapshot_last_index == 0 {
        install_refused(v, 0, "snapshot_last_index must be greater than zero"@)
    } else if leader.len() == 0 {
        install_refused(v, 0, "leader_node_id must not be empty"@)
    } else {
        match request.state {
            PayloadView::Undecodable(detail) => (
                v,
                Err("failed to decode control snapshot payload: "@ + detail),
            ),
            PayloadView::Decoded(sent) => {
                let state = snapshot_state(sent, request, now_ms);
                match state_error(state) {
                    Some(message) => (v, Err(message)),
                    None => match leader_refusal(v, leader, request.term) {
                        Some((index, message)) => install_refused(v, index, message),
                        None => install_from_leader(
                            contacted(v, leader, request.term, now_ms),
                            request,
                            state,
                        ),
                    },
                }
            },
        }
    }
}

/// No command changes what is applied before it is done.
proof fn lemma_effect_index(s: ControlView, command: CommandView, now_ms: u64)
    ensures
        command_effect(s, command, now_ms).0.applied_log_index == s.applied_log_index,
{
}

/// After an entry, what is applied stands at the entry or where it stood.
pub proof fn lemma_entry_applied_index(s: ControlView, entry: EntryView, now_ms: u64)
    ensures
        match entry_applied(s, entry, now_ms) {
            (next, Ok(_)) => next.applied_log_index == entry.index,
            (next, Err(_)) => next.applied_log_index == entry.index || next.applied_log_index
                == s.applied_log_index,
        },
{
    lemma_effect_index(s, entry.command, now_ms);
}

/// Nothing but the control state changes when entries are applied, and in a sound log all that are
/// asked for are found.
pub proof fn lemma_replayed(v: ConsensusView, now_ms: u64, n: nat)
    requires
        log_ordered(v),
    ensures
        log_ordered(replayed(v, now_ms, n).0),
        log_sound(v) ==> log_sound(replayed(v, now_ms, n).0),
        replayed(v, now_ms, n).0 == (ConsensusView {
            control: replayed(v, now_ms, n).0.control,
            ..v
        }),
        replayed(v, now_ms, n).0.control.applied_log_index >= v.control.applied_log_index,
        replayed(v, now_ms, n).1 is Ok && v.control.applied_log_index <= v.commit_index <= n
            + v.control.applied_log_index ==> replayed(v, now_ms, n).0.control.applied_log_index == v.commit_index,
    decreases n,
{
    if n > 0 && v.control.applied_log_index < v.commit_index {
        let next = bumped(v.control.applied_log_index);
        match offset_of(v, next) {
            None => {},
            Some(i) => {
                assert(v.entries[i].index == next);
                lemma_entry_applied_index(v.control, v.entries[i], now_ms);
                let control = entry_applied(v.control, v.entries[i], now_ms).0;
                let w = ConsensusView { control, ..v };
                if entry_applied(v.control, v.entries[i], now_ms).1 is Ok {
                    lemma_replayed(w, now_ms, (n - 1) as nat);
                }
            },
        }
    }
}

/// Cutting off the log keeps its end, and the term of the entry that it is cut off behind.
pub proof fn lemma_compacted(v: ConsensusView)
    requires
        log_ordered(v),
    ensures
        log_ordered(compacted(v).0),
        compacted(v).0.snapshot_last_index >= v.snapshot_last_index,
        compacted(v).0.entries == v.entries.skip(
            compacted(v).0.snapshot_last_index - v.snapshot_last_index,
        ),
        log_sound(v) && v.control.applied_log_index == v.commit_index ==> {
            &&& log_sound(compacted(v).0)
            &&& compacted(v).1 is Ok
            &&& last_index(compacted(v).0) == last_index(v)
            &&& term_at(compacted(v).0, v.commit_index) == term_at(v, v.commit_index)
        },
{
    let w = compacted(v).0;
    let span = v.commit_index - v.snapshot_last_index;
    assert(v.entries.skip(0) =~= v.entries);
    if v.entries.len() > 0 {
        assert(v.entries.last() == v.entries[v.entries.len() - 1]);
    }
    if span > 0 && v.commit_index <= last_index(v) {
        assert(offset_of(v, v.commit_index) == Some(span - 1));
        assert(v.entries[span - 1].index == v.commit_index);
    }
    if w != v {
        assert forall|i: int| 0 <= i < w.entries.len() implies (#[trigger] w.entries[i]).index
            == nth_index(w.snapshot_last_index, i) by {
            assert(w.entries[i] == v.entries[i + span]);
        }
        if w.entries.len() > 0 {
            assert(w.entries.last() == v.entries.last());
        }
    }
}

/// Applying what is committed keeps the log sound and in one piece, and the committed part of it.
pub proof fn lemma_committed_sound(v: ConsensusView, now_ms: u64)
    requires
        log_ordered(v),
    ensures
        log_ordered(committed_applied(v, now_ms).0),
        log_sound(v) ==> log_sound(committed_applied(v, now_ms).0),
        committed_applied(v, now_ms).0.commit_index == v.commit_index,
        committed_applied(v, now_ms).0.current_term == v.current_term,
        committed_applied(v, now_ms).1 is Ok && v.control.applied_log_index <= v.commit_index
            ==> committed_applied(v, now_ms).0.control.applied_log_index == v.commit_index,
        committed_applied(v, now_ms).0.entries == v.entries,
        committed_applied(v, now_ms).0.snapshot_last_index == v.snapshot_last_index,
        committed_applied(v, now_ms).0.snapshot_last_term == v.snapshot_last_term,
        committed_applied(v, now_ms).0.config == v.config,
{
    let pending = v.commit_index - v.control.applied_log_index;
    if pending > 0 {
        lemma_replayed(v, now_ms, pending as nat);
    }
}

/// That the control state was written keeps the log sound and its end, and cuts it off no further
/// than what is applied.
pub proof fn lemma_state_noted(v: ConsensusView)
    requires
        log_ordered(v),
    ensures
        log_ordered(state_noted(v).0),
        log_sound(v) ==> {
            &&& log_sound(state_noted(v).0)
            &&& state_noted(v).1 is Ok
            &&& last_index(state_noted(v).0) == last_index(v)
            &&& term_at(state_noted(v).0, v.commit_index) == term_at(v, v.commit_index)
        },
        state_noted(v).0.snapshot_last_index >= v.snapshot_last_index,
        state_noted(v).0.entries == v.entries.skip(
            state_noted(v).0.snapshot_last_index - v.snapshot_last_index,
        ),
{
    assert(v.entries.skip(0) =~= v.entries);
    lemma_compacted(ConsensusView { unsaved_state: false, compaction_due: false, ..v });
}

/// One entry of an append keeps the log sound and what is committed as it is.
pub proof fn lemma_entry_taken(v: ConsensusView, expected: u64, entry: EntryView)
    requires
        log_ordered(v),
    ensures
        log_ordered(entry_taken(v, expected, entry).0),
        log_sound(v) ==> log_sound(entry_taken(v, expected, entry).0),
        entry_taken(v, expected, entry).0 == (ConsensusView {
            entries: entry_taken(v, expected, entry).0.entries,
            ..v
        }),
        v.commit_index <= last_index(v) ==> v.commit_index <= last_index(
            entry_taken(v, expected, entry).0,
        ),
        v.commit_index <= last_index(v) ==> forall|i: int|
            0 <= i < v.commit_index - v.snapshot_last_index ==> i < entry_taken(
                v,
                expected,
                entry,
            ).0.entries.len() && #[trigger] entry_taken(v, expected, entry).0.entries[i]
                == v.entries[i],
{
    let w = entry_taken(v, expected, entry).0;
    if v.entries.len() > 0 {
        assert(v.entries.last() == v.entries[v.entries.len() - 1]);
    }
    if w.entries != v.entries {
        assert(w.entries.last() == entry);
        assert forall|i: int| 0 <= i < w.entries.len() implies (#[trigger] w.entries[i]).index
            == nth_index(w.snapshot_last_index, i) by {
            if i < w.entries.len() - 1 {
                assert(w.entries[i] == v.entries[i]);
            }
        }
    }
}

/// The entries of an append keep the log sound and what is committed as it is.
pub proof fn lemma_entries_taken(
    v: ConsensusView,
    prev_log_index: u64,
    entries: Seq<EntryView>,
    n: nat,
)
    requires
        log_ordered(v),
    ensures
        log_ordered(entries_taken(v, prev_log_index, entries, n).0),
        log_sound(v) ==> log_sound(entries_taken(v, prev_log_index, entries, n).0),
        entries_taken(v, prev_log_index, entries, n).0 == (ConsensusView {
            entries: entries_taken(v, prev_log_index, entries, n).0.entries,
            ..v
        }),
        v.commit_index <= last_index(v) ==> v.commit_index <= last_index(
            entries_taken(v, prev_log_index, entries, n).0,
        ),
        v.commit_index <= last_index(v) ==> forall|i: int|
            0 <= i < v.commit_index - v.snapshot_last_index ==> i < entries_taken(
                v,
                prev_log_index,
                entries,
                n,
            ).0.entries.len() && #[trigger] entries_taken(v, prev_log_index, entries, n).0.entries[i]
                == v.entries[i],
    decreases n,
{
    if v.entries.len() > 0 {
        assert(v.entries.last() == v.entries[v.entries.len() - 1]);
    }
    if n > 0 {
        lemma_entries_taken(v, prev_log_index, entries, (n - 1) as nat);
        let w = entries_taken(v, prev_log_index, entries, (n - 1) as nat).0;
        lemma_entry_taken(w, nth_index(prev_log_index, n - 1), entries[n - 1]);
        let u = entry_taken(w, nth_index(prev_log_index, n - 1), entries[n - 1]).0;
        if v.commit_index <= last_index(v) {
            assert forall|i: int| 0 <= i < v.commit_index - v.snapshot_last_index implies i
                < u.entries.len() && #[trigger] u.entries[i] == v.entries[i] by {
                assert(w.entries[i] == v.entries[i]);
            }
        }
    }
}

/// A request to append keeps the log sound.
pub proof fn lemma_append_sound(v: ConsensusView, request: AppendRequestView, now_ms: u64)
    requires
        log_ordered(v),
    ensures
        log_ordered(append_step(v, request, now_ms).0),
        log_sound(v) ==> log_sound(append_step(v, request, now_ms).0),
{
    let leader = trimmed(request.leader_node_id);
    let w = contacted(v, leader, request.term, now_ms);
    lemma_entries_taken(w, request.prev_log_index, request.entries, request.entries.len());
    let u = entries_taken(w, request.prev_log_index, request.entries, request.entries.len()).0;
    if request.leader_commit > u.commit_index {
        let last = last_index(u);
        let x = ConsensusView {
            commit_index: if request.leader_commit < last {
                request.leader_commit
            } else {
                last
            },
            ..u
        };
        lemma_committed_sound(x, now_ms);
    }
}

/// The entries above an index are the end of a sound log.
pub proof fn lemma_entries_above(v: ConsensusView, index: u64)
    requires
        log_ordered(v),
        index >= v.snapshot_last_index,
    ensures
        entries_above(v.entries, index).len() <= v.entries.len(),
        index >= last_index(v) ==> entries_above(v.entries, index).len() == 0,
        index < last_index(v) ==> entries_above(v.entries, index) == v.entries.skip(
            index - v.snapshot_last_index,
        ),
    decreases v.entries.len(),
{
    if v.entries.len() > 0 {
        assert(v.entries.last() == v.entries[v.entries.len() - 1]);
        lemma_above_prefix(v.entries, v.snapshot_last_index, index, v.entries.len());
        assert(v.entries.take(v.entries.len() as int) =~= v.entries);
    }
}

proof fn lemma_above_prefix(entries: Seq<EntryView>, snapshot: u64, index: u64, n: nat)
    requires
        n <= entries.len(),
        index >= snapshot,
        forall|i: int|
            0 <= i < entries.len() ==> (#[trigger] entries[i]).index == nth_index(snapshot, i),
    ensures
        entries_above(entries.take(n as int), index) =~= if index == u64::MAX || n <= index
            - snapshot {
            Seq::<EntryView>::empty()
        } else {
            entries.subrange(index - snapshot, n as int)
        },
    decreases n,
{
    let s = entries.take(n as int);
    if n > 0 {
        lemma_above_prefix(entries, snapshot, index, (n - 1) as nat);
        assert(s.drop_last() =~= entries.take(n - 1));
        assert(s.last() == entries[n - 1]);
        if index < u64::MAX && n > index - snapshot {
            if n - 1 <= index - snapshot {
                assert(entries.subrange(index - snapshot, n as int) =~= Seq::<EntryView>::empty().push(
                    s.last(),
                ));
            } else {
                assert(entries.subrange(index - snapshot, n as int) =~= entries.subrange(
                    index - snapshot,
                    n - 1,
                ).push(s.last()));
            }
        }
    }
}

/// A request to take over a snapshot keeps the log sound.
pub proof fn lemma_install_sound(v: ConsensusView, request: InstallRequestView, now_ms: u64)
    requires
        log_ordered(v),
    ensures
        log_ordered(install_step(v, request, now_ms).0),
        log_sound(v) ==> log_sound(install_step(v, request, now_ms).0),
{
    let leader = trimmed(request.leader_node_id);
    let w = contacted(v, leader, request.term, now_ms);
    let index = request.snapshot_last_index;
    if index >= w.commit_index {
        lemma_entries_above(w, index);
        let kept = entries_above(w.entries, index);
        if w.entries.len() > 0 {
            assert(w.entries.last() == w.entries[w.entries.len() - 1]);
        }
        assert forall|i: int| 0 <= i < kept.len() implies (#[trigger] kept[i]).index == nth_index(
            index,
            i,
        ) by {
            assert(kept[i] == w.entries[i + (index - w.snapshot_last_index)]);
        }
        if kept.len() > 0 {
            assert(kept.last() == kept[kept.len() - 1]);
        }
    }
}

} // verus!
