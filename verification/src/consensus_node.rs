//! A node of the control log as a follower: it answers its leader and applies what is committed.

use vstd::prelude::*;
use crate::clock::unix_timestamp_millis;
use crate::consensus::{ConsensusView, ControlConsensusRuntime, PeerHeartbeatState};
use crate::consensus_rules::{
    after_failure, after_success, append_finished, append_step, command_effect, committed_applied,
    compacted, contacted, entries_above, entries_taken, entry_applied, entry_taken, heartbeats_kept,
    install_step, is_member, is_peer, last_index, leader_refusal, leads, lemma_append_sound,
    lemma_committed_sound, lemma_entry_applied_index, lemma_install_sound, lemma_state_noted,
    log_ordered, next_indexes, nth_index, offset_of, peers_among, peers_of, quorum_of, reconciled,
    replayed, set_leader, state_noted, term_at, voters_among, voters_of, write_failed,
};
use crate::control::{
    ControlHandoffMutationOutcome, ControlMembershipMutationOutcome, ControlNodeStatus,
    ControlState,
};
use crate::control_ownership::locate_node;
use crate::lists::{group_views, views};
use crate::membership::{ClusterNode, ClusterNodeView};
use crate::rpc_types::{
    AppendResponseView, EntryView, InstallResponseView, InternalControlAppendRequest,
    InternalControlAppendResponse, InternalControlCommand, InternalControlInstallSnapshotRequest,
    InternalControlInstallSnapshotResponse, InternalControlLogEntry, SnapshotPayload,
};
use crate::text::{cat2, cat3, cat4, cat5, clone_opt, message_view, number, owned, same, trim};
use crate::text_map::TextMap;

verus! {

broadcast use group_views;

/// What an append was answered.
pub open spec fn append_view(result: Result<InternalControlAppendResponse, String>) -> Result<
    AppendResponseView,
    Seq<char>,
> {
    match result {
        Ok(response) => Ok(response@),
        Err(message) => Err(message@),
    }
}

/// What a snapshot was answered.
pub open spec fn install_view(result: Result<InternalControlInstallSnapshotResponse, String>) ->
    Result<InstallResponseView, Seq<char>> {
    match result {
        Ok(response) => Ok(response@),
        Err(message) => Err(message@),
    }
}

/// The larger of a number and one.
fn positive(n: u64) -> (res: u64)
    ensures
        res == if n == 0 {
            1
        } else {
            n
        },
{
    if n == 0 {
        1
    } else {
        n
    }
}

proof fn lemma_is_peer_push(peers: Seq<ClusterNodeView>, i: int, id: Seq<char>)
    requires
        0 <= i < peers.len(),
    ensures
        is_peer(peers.take(i + 1), id) == (is_peer(peers.take(i), id) || peers[i].id == id),
{
    let before = peers.take(i);
    let after = peers.take(i + 1);
    if is_peer(after, id) {
        let k = choose|k: int| 0 <= k < after.len() && (#[trigger] after[k]).id == id;
        if k < i {
            assert(before[k] == after[k]);
        }
    }
    if is_peer(before, id) {
        let k = choose|k: int| 0 <= k < before.len() && (#[trigger] before[k]).id == id;
        assert(after[k] == before[k]);
    }
    if peers[i].id == id {
        assert(after[i].id == id);
    }
}

proof fn lemma_is_peer_step(peers: Seq<ClusterNodeView>, i: int)
    requires
        0 <= i < peers.len(),
    ensures
        forall|id: Seq<char>|
            #[trigger] is_peer(peers.take(i + 1), id) == (is_peer(peers.take(i), id)
                || peers[i].id == id),
{
    assert forall|id: Seq<char>|
        #[trigger] is_peer(peers.take(i + 1), id) == (is_peer(peers.take(i), id) || peers[i].id
            == id) by {
        lemma_is_peer_push(peers, i, id);
    }
}

/// The next index of each peer.
pub(crate) fn next_index_map(peers: &Vec<ClusterNode>, known: &TextMap<u64>, fresh: u64) -> (res:
    TextMap<u64>)
    ensures
        res@ == next_indexes(views(peers@), known@, fresh),
{
    let ghost all = views(peers@);
    let mut map: TextMap<u64> = TextMap::new();
    assert(map@ =~= next_indexes(all.take(0), known@, fresh)) by {
        assert forall|id: Seq<char>| !is_peer(all.take(0), id) by {}
    }
    let mut i: usize = 0;
    while i < peers.len()
        invariant
            i <= peers.len(),
            all == views(peers@),
            map@ == next_indexes(all.take(i as int), known@, fresh),
        decreases peers.len() - i,
    {
        let id = peers[i].id.as_str();
        assert(all[i as int].id == id@);
        let next: u64 = match known.get(id) {
            Some(next) => *next,
            None => fresh,
        };
        proof {
            lemma_is_peer_step(all, i as int);
        }
        map.insert(owned(id), positive(next));
        assert(map@ =~= next_indexes(all.take(i + 1), known@, fresh));
        i += 1;
    }
    assert(all.take(i as int) =~= all);
    map
}

/// The heartbeats of the peers alone.
fn heartbeat_map(peers: &Vec<ClusterNode>, known: &TextMap<PeerHeartbeatState>) -> (res: TextMap<
    PeerHeartbeatState,
>)
    ensures
        res@ == heartbeats_kept(views(peers@), known@),
{
    let ghost all = views(peers@);
    let mut map: TextMap<PeerHeartbeatState> = TextMap::new();
    assert(map@ =~= heartbeats_kept(all.take(0), known@)) by {
        assert forall|id: Seq<char>| !is_peer(all.take(0), id) by {}
    }
    let mut i: usize = 0;
    while i < peers.len()
        invariant
            i <= peers.len(),
            all == views(peers@),
            map@ == heartbeats_kept(all.take(i as int), known@),
        decreases peers.len() - i,
    {
        let id = peers[i].id.as_str();
        assert(all[i as int].id == id@);
        let beat: PeerHeartbeatState = match known.get(id) {
            Some(beat) => *beat,
            None => PeerHeartbeatState::default(),
        };
        proof {
            lemma_is_peer_step(all, i as int);
        }
        map.insert(owned(id), beat);
        assert(map@ =~= heartbeats_kept(all.take(i + 1), known@));
        i += 1;
    }
    assert(all.take(i as int) =~= all);
    map
}

impl InternalControlAppendResponse {
    fn refusal(term: u64, match_index: u64, message: String) -> (res: Self)
        ensures
            res@ == (AppendResponseView {
                term,
                success: false,
                match_index,
                message: Some(message@),
            }),
    {
        InternalControlAppendResponse { term, success: false, match_index, message: Some(message) }
    }
}

impl InternalControlInstallSnapshotResponse {
    fn refusal(term: u64, last_index: u64, message: String) -> (res: Self)
        ensures
            res@ == (InstallResponseView {
                term,
                success: false,
                last_index,
                message: Some(message@),
            }),
    {
        InternalControlInstallSnapshotResponse {
            term,
            success: false,
            last_index,
            message: Some(message),
        }
    }
}

impl ControlState {
    /// Makes a node the leader, and says whether that changed anything.
    fn apply_set_leader(&mut self, leader_node_id: &str) -> (res: Result<bool, String>)
        ensures
            (final(self)@, message_view(res)) == set_leader(old(self)@, leader_node_id@),
    {
        if trim(leader_node_id).is_empty() {
            return Err(owned("control command set_leader has an empty leader_node_id"));
        }
        if locate_node(&self.nodes, leader_node_id).is_none() {
            return Err(
                cat3(
                    "control command set_leader references unknown node '",
                    leader_node_id,
                    "'",
                ),
            );
        }
        let known: bool = match &self.leader_node_id {
            Some(leader) => same(leader, leader_node_id),
            None => false,
        };
        if known {
            return Ok(false);
        }
        self.leader_node_id = Some(owned(leader_node_id));
        Ok(true)
    }

    /// Carries out a command, and says whether that changed anything.
    fn apply_effect(&mut self, command: &InternalControlCommand, now_ms: u64) -> (res: Result<
        bool,
        String,
    >)
        ensures
            (final(self)@, message_view(res)) == command_effect(old(self)@, command@, now_ms),
    {
        match command {
            InternalControlCommand::SetLeader { leader_node_id } => self.apply_set_leader(
                leader_node_id,
            ),
            InternalControlCommand::JoinNode { node_id, endpoint } => membership_changed(
                self.apply_join_node(node_id, endpoint),
            ),
            InternalControlCommand::LeaveNode { node_id } => membership_changed(
                self.apply_leave_node(node_id),
            ),
            InternalControlCommand::RecommissionNode { node_id, endpoint } => {
                let place: Option<&str> = match endpoint {
                    Some(text) => Some(text.as_str()),
                    None => None,
                };
                membership_changed(self.apply_recommission_node(node_id, place))
            },
            InternalControlCommand::ActivateNode { node_id } => membership_changed(
                self.apply_activate_node(node_id),
            ),
            InternalControlCommand::RemoveNode { node_id } => membership_changed(
                self.apply_remove_node(node_id),
            ),
            InternalControlCommand::BeginShardHandoff {
                shard,
                from_node_id,
                to_node_id,
                activation_ring_version,
            } => handoff_changed(
                self.apply_begin_shard_handoff_at(
                    *shard,
                    from_node_id,
                    to_node_id,
                    *activation_ring_version,
                    now_ms,
                ),
            ),
            InternalControlCommand::UpdateShardHandoff {
                shard,
                phase,
                copied_rows,
                pending_rows,
                last_error,
            } => handoff_changed(
                self.apply_shard_handoff_progress_at(
                    *shard,
                    *phase,
                    *copied_rows,
                    *pending_rows,
                    clone_opt(last_error),
                    now_ms,
                ),
            ),
            InternalControlCommand::CompleteShardHandoff { shard } => handoff_changed(
                self.apply_complete_shard_handoff_at(*shard, now_ms),
            ),
        }
    }

    /// Applies an entry of the control log.
    pub fn apply_entry(&mut self, entry: &InternalControlLogEntry, now_ms: u64) -> (res: Result<
        (),
        String,
    >)
        ensures
            (final(self)@, message_view(res)) == entry_applied(old(self)@, entry@, now_ms),
    {
        let changed = match self.apply_effect(&entry.command, now_ms) {
            Ok(changed) => changed,
            Err(message) => {
                return Err(message);
            },
        };
        self.applied_log_index = entry.index;
        self.applied_log_term = entry.term;
        if changed {
            self.updated_unix_ms = now_ms;
        }
        self.validate()
    }
}

fn membership_changed(outcome: Result<ControlMembershipMutationOutcome, String>) -> (res: Result<
    bool,
    String,
>)
    ensures
        match outcome {
            Ok(o) => res == Ok::<bool, String>(o == ControlMembershipMutationOutcome::Applied),
            Err(message) => res == Err::<bool, String>(message),
        },
{
    match outcome {
        Ok(o) => Ok(o == ControlMembershipMutationOutcome::Applied),
        Err(message) => Err(message),
    }
}

fn handoff_changed(outcome: Result<ControlHandoffMutationOutcome, String>) -> (res: Result<
    bool,
    String,
>)
    ensures
        match outcome {
            Ok(o) => res == Ok::<bool, String>(o == ControlHandoffMutationOutcome::Applied),
            Err(message) => res == Err::<bool, String>(message),
        },
{
    match outcome {
        Ok(o) => Ok(o == ControlHandoffMutationOutcome::Applied),
        Err(message) => Err(message),
    }
}

impl ControlConsensusRuntime {
    /// Where the control log is kept.
    pub fn log_path(&self) -> (res: &str)
        ensures
            res@ == self@.log_path,
    {
        self.log_path.as_str()
    }

    /// The control state as this node knows it.
    pub fn current_state(&self) -> (res: ControlState)
        ensures
            res@ == self@.control,
    {
        self.control_state.clone()
    }

    /// Whether this node leads.
    pub fn is_local_control_leader(&self) -> (res: bool)
        ensures
            res == leads(self@),
    {
        match &self.control_state.leader_node_id {
            Some(leader) => same(leader, &self.local_node_id),
            None => false,
        }
    }

    /// Whether the control state has to be written.
    pub fn unsaved_state(&self) -> (res: bool)
        ensures
            res == self@.unsaved_state,
    {
        self.unsaved_state
    }

    /// Whether the log has to be written.
    pub fn unsaved_log(&self) -> (res: bool)
        ensures
            res == self@.unsaved_log,
    {
        self.unsaved_log
    }

    /// Takes in that the control state was written, and cuts off the log where entries were applied
    /// and it is long enough. Until then what is applied stays in the log, so that a node that is
    /// started from an older control state can apply it again.
    pub fn note_state_saved(&mut self) -> (res: Result<(), String>)
        requires
            log_ordered(old(self)@),
        ensures
            (final(self)@, message_view(res)) == state_noted(old(self)@),
            log_ordered(final(self)@),
    {
        proof {
            lemma_state_noted(self@);
        }
        let before: u64 = self.snapshot_last_index;
        self.unsaved_state = false;
        if self.compaction_due && self.control_state.applied_log_index >= self.commit_index {
            self.compaction_due = false;
            match self.maybe_compact() {
                Ok(()) => {},
                Err(message) => {
                    return Err(message);
                },
            }
            if self.snapshot_last_index > before {
                self.unsaved_log = true;
            }
        }
        Ok(())
    }

    /// Takes in that the log was written.
    pub fn note_log_saved(&mut self)
        ensures
            final(self)@ == (ConsensusView { unsaved_log: false, ..old(self)@ }),
    {
        self.unsaved_log = false;
    }

    /// Takes in that the control state or the log could not be written. It is not tried again until
    /// more changes, and the log is not cut off for what was applied before.
    pub fn note_write_failed(&mut self)
        ensures
            final(self)@ == write_failed(old(self)@),
    {
        self.unsaved_state = false;
        self.unsaved_log = false;
        self.compaction_due = false;
    }

    /// The place of the snapshot that the log starts from, and how many entries follow it.
    pub fn log_snapshot_position(&self) -> (res: (u64, u64, usize))
        ensures
            res.0 == self@.snapshot_last_index,
            res.1 == self@.snapshot_last_term,
            res.2 == self@.entries.len(),
    {
        (self.snapshot_last_index, self.snapshot_last_term, self.entries.len())
    }

    pub(crate) fn last_log_index(&self) -> (res: u64)
        ensures
            res == last_index(self@),
    {
        if self.entries.len() == 0 {
            self.snapshot_last_index
        } else {
            self.entries[self.entries.len() - 1].index
        }
    }

    pub(crate) fn entry_offset(&self, index: u64) -> (res: Option<usize>)
        ensures
            match res {
                Some(i) => offset_of(self@, index) == Some(i as int) && i < self.entries.len(),
                None => offset_of(self@, index) is None,
            },
    {
        if index <= self.snapshot_last_index {
            return None;
        }
        let offset: u64 = index - self.snapshot_last_index - 1;
        if offset < self.entries.len() as u64 {
            Some(offset as usize)
        } else {
            None
        }
    }

    pub(crate) fn log_term_at(&self, index: u64) -> (res: Option<u64>)
        ensures
            res == term_at(self@, index),
    {
        if index == 0 {
            return Some(0);
        }
        if index == self.snapshot_last_index {
            return Some(self.snapshot_last_term);
        }
        match self.entry_offset(index) {
            None => None,
            Some(i) => Some(self.entries[i].term),
        }
    }

    pub(crate) fn control_peer_nodes(&self) -> (res: Vec<ClusterNode>)
        ensures
            views(res@) == peers_of(self@),
    {
        let mut peers: Vec<ClusterNode> = Vec::new();
        let ghost nodes = self@.control.nodes;
        let mut i: usize = 0;
        while i < self.control_state.nodes.len()
            invariant
                i <= self.control_state.nodes.len(),
                nodes == views(self.control_state.nodes@),
                views(peers@) == peers_among(self.local_node_id@, nodes.take(i as int)),
            decreases self.control_state.nodes.len() - i,
        {
            let node = &self.control_state.nodes[i];
            assert(nodes.take(i + 1).drop_last() =~= nodes.take(i as int));
            assert(nodes.take(i + 1).last() == node@);
            if !same(&node.id, &self.local_node_id) && node.status != ControlNodeStatus::Removed {
                peers.push(ClusterNode { id: node.id.clone(), endpoint: node.endpoint.clone() });
            }
            i += 1;
        }
        assert(nodes.take(i as int) =~= nodes);
        peers
    }

    pub(crate) fn control_voter_node_ids(&self) -> (res: Vec<String>)
        ensures
            views(res@) == voters_of(self@),
    {
        let mut voters: Vec<String> = Vec::new();
        let ghost nodes = self@.control.nodes;
        let mut i: usize = 0;
        while i < self.control_state.nodes.len()
            invariant
                i <= self.control_state.nodes.len(),
                nodes == views(self.control_state.nodes@),
                views(voters@) == voters_among(nodes.take(i as int)),
            decreases self.control_state.nodes.len() - i,
        {
            let node = &self.control_state.nodes[i];
            assert(nodes.take(i + 1).drop_last() =~= nodes.take(i as int));
            assert(nodes.take(i + 1).last() == node@);
            if node.status == ControlNodeStatus::Active {
                voters.push(node.id.clone());
            }
            i += 1;
        }
        assert(nodes.take(i as int) =~= nodes);
        voters
    }

    pub(crate) fn quorum_size(&self) -> (res: usize)
        ensures
            res == quorum_of(self@),
    {
        let voters = self.control_voter_node_ids();
        assert(views(voters@).len() == voters.len());
        voters.len() / 2 + 1
    }

    fn is_membership_node(&self, node_id: &str) -> (res: bool)
        ensures
            res == is_member(self@, node_id@),
    {
        let ghost nodes = self@.control.nodes;
        let mut i: usize = 0;
        while i < self.control_state.nodes.len()
            invariant
                i <= self.control_state.nodes.len(),
                nodes == views(self.control_state.nodes@),
                self@.control.nodes == nodes,
                forall|k: int|
                    0 <= k < i ==> !((#[trigger] nodes[k]).status != ControlNodeStatus::Removed
                        && nodes[k].id == node_id@),
            decreases self.control_state.nodes.len() - i,
        {
            let node = &self.control_state.nodes[i];
            assert(nodes[i as int] == node@);
            if node.status != ControlNodeStatus::Removed && same(&node.id, node_id) {
                assert(is_member(self@, node_id@));
                return true;
            }
            i += 1;
        }
        false
    }

    /// Brings the peers in line with the membership.
    pub(crate) fn reconcile_dynamic_peers(&mut self)
        ensures
            final(self)@ == reconciled(old(self)@),
    {
        let fresh: u64 = self.last_log_index().saturating_add(1);
        let peers = self.control_peer_nodes();
        let next_index = next_index_map(&peers, &self.peer_next_index, fresh);
        let heartbeat = heartbeat_map(&peers, &self.peer_heartbeat);
        self.peer_next_index = next_index;
        self.peer_heartbeat = heartbeat;
    }

    pub(crate) fn mark_peer_success(&mut self, node_id: &str, now_ms: u64)
        ensures
            final(self)@ == (ConsensusView {
                peer_heartbeat: after_success(old(self)@.peer_heartbeat, node_id@, now_ms),
                ..old(self)@
            }),
    {
        let before: PeerHeartbeatState = match self.peer_heartbeat.get(node_id) {
            Some(known) => *known,
            None => PeerHeartbeatState::default(),
        };
        self.peer_heartbeat.insert(
            owned(node_id),
            PeerHeartbeatState {
                last_success_unix_ms: Some(now_ms),
                last_failure_unix_ms: before.last_failure_unix_ms,
                consecutive_failures: 0,
            },
        );
    }

    pub(crate) fn mark_peer_failure(&mut self, node_id: &str, now_ms: u64)
        ensures
            final(self)@ == (ConsensusView {
                peer_heartbeat: after_failure(old(self)@.peer_heartbeat, node_id@, now_ms),
                ..old(self)@
            }),
    {
        let before: PeerHeartbeatState = match self.peer_heartbeat.get(node_id) {
            Some(known) => *known,
            None => PeerHeartbeatState::default(),
        };
        self.peer_heartbeat.insert(
            owned(node_id),
            PeerHeartbeatState {
                last_success_unix_ms: before.last_success_unix_ms,
                last_failure_unix_ms: Some(now_ms),
                consecutive_failures: before.consecutive_failures.saturating_add(1),
            },
        );
    }
}

impl ControlConsensusRuntime {
    /// Cuts off the log behind what is committed, where that is long enough.
    fn maybe_compact(&mut self) -> (res: Result<(), String>)
        ensures
            (final(self)@, message_view(res)) == compacted(old(self)@),
    {
        if self.commit_index <= self.snapshot_last_index {
            return Ok(());
        }
        let span: u64 = self.commit_index - self.snapshot_last_index;
        if span < self.config.snapshot_interval_entries as u64 {
            return Ok(());
        }
        let term: u64 = match self.log_term_at(self.commit_index) {
            Some(term) => term,
            None => {
                return Err(
                    cat2(
                        "missing term for control-log snapshot at index ",
                        &number(self.commit_index),
                    ),
                );
            },
        };
        if span > self.entries.len() as u64 {
            return Err(
                cat4(
                    "control-log compaction span ",
                    &number(span),
                    " exceeds in-memory log length ",
                    &number(self.entries.len() as u64),
                ),
            );
        }
        let kept = self.entries.split_off(span as usize);
        assert(views(kept@) =~= old(self)@.entries.skip(span as int));
        self.entries = kept;
        self.snapshot_last_index = self.commit_index;
        self.snapshot_last_term = term;
        Ok(())
    }

    /// Applies every committed entry that is not applied yet.
    #[verifier::rlimit(40)]
    pub(crate) fn apply_committed_entries(&mut self, now_ms: u64) -> (res: Result<(), String>)
        requires
            log_ordered(old(self)@),
        ensures
            (final(self)@, message_view(res)) == committed_applied(old(self)@, now_ms),
            log_ordered(final(self)@),
    {
        proof {
            lemma_committed_sound(self@, now_ms);
        }
        let ghost start = self@;
        let changed: bool = self.control_state.applied_log_index < self.commit_index;
        while self.control_state.applied_log_index < self.commit_index
            invariant
                log_ordered(self@),
                start == old(self)@,
                changed == (start.control.applied_log_index < start.commit_index),
                changed ==> replayed(
                    start,
                    now_ms,
                    (start.commit_index - start.control.applied_log_index) as nat,
                ) == replayed(
                    self@,
                    now_ms,
                    (self@.commit_index - self@.control.applied_log_index) as nat,
                ),
                !changed ==> self@ == start,
                log_ordered(committed_applied(start, now_ms).0),
            decreases self.commit_index - self.control_state.applied_log_index,
        {
            let next_index: u64 = self.control_state.applied_log_index.saturating_add(1);
            if next_index <= self.snapshot_last_index {
                return Err(
                    cat5(
                        "cannot replay compacted control-log index ",
                        &number(next_index),
                        " (snapshot index ",
                        &number(self.snapshot_last_index),
                        ")",
                    ),
                );
            }
            let offset: usize = match self.entry_offset(next_index) {
                Some(offset) => offset,
                None => {
                    return Err(
                        cat2("missing committed control-log entry at index ", &number(next_index)),
                    );
                },
            };
            let ghost before = self@;
            let entry = self.entries[offset].clone();
            assert(before.entries[offset as int] == entry@);
            proof {
                lemma_entry_applied_index(before.control, entry@, now_ms);
            }
            match self.control_state.apply_entry(&entry, now_ms) {
                Ok(()) => {},
                Err(message) => {
                    return Err(message);
                },
            }
            assert(self@ == (ConsensusView {
                control: entry_applied(before.control, entry@, now_ms).0,
                ..before
            }));
            assert(self@.control.applied_log_index == next_index);
        }
        self.reconcile_dynamic_peers();
        if changed {
            self.unsaved_state = true;
            self.compaction_due = true;
        }
        Ok(())
    }

    /// Notes that the leader of a term made contact.
    fn note_leader_contact(&mut self, leader: &str, term: u64, now_ms: u64)
        ensures
            final(self)@ == contacted(old(self)@, leader@, term, now_ms),
    {
        if term > self.current_term {
            self.current_term = term;
        }
        self.last_leader_contact_unix_ms = now_ms;
        if !same(leader, &self.local_node_id) {
            self.mark_peer_success(leader, now_ms);
        }
    }

    /// Says why a leader's message is refused before it is looked into.
    fn refuse_leader(&self, leader: &str, term: u64) -> (res: Option<(u64, &'static str)>)
        ensures
            match res {
                Some(refusal) => leader_refusal(self@, leader@, term) == Some(
                    (refusal.0, refusal.1@),
                ),
                None => leader_refusal(self@, leader@, term) is None,
            },
    {
        if !self.is_membership_node(leader) {
            return Some((0, "unknown_leader_node"));
        }
        if term < self.current_term {
            return Some((self.last_log_index(), "stale_term"));
        }
        if term == self.current_term {
            if let Some(known) = &self.control_state.leader_node_id {
                if !same(known, leader) {
                    return Some((self.last_log_index(), "conflicting_leader_same_term"));
                }
            }
        }
        None
    }

    /// Takes one entry of an append, and gives the answer where the entry ends the append.
    fn take_entry(&mut self, expected_index: u64, entry: InternalControlLogEntry) -> (res: Option<
        Result<InternalControlAppendResponse, String>,
    >)
        ensures
            final(self)@ == entry_taken(old(self)@, expected_index, entry@).0,
            match res {
                Some(answer) => entry_taken(old(self)@, expected_index, entry@).1 == Some(
                    append_view(answer),
                ),
                None => entry_taken(old(self)@, expected_index, entry@).1 is None,
            },
    {
        if entry.index != expected_index {
            return Some(
                Ok(
                    InternalControlAppendResponse::refusal(
                        self.current_term,
                        self.last_log_index(),
                        cat4(
                            "non_contiguous_entry_index: expected ",
                            &number(expected_index),
                            ", got ",
                            &number(entry.index),
                        ),
                    ),
                ),
            );
        }
        if entry.term == 0 {
            return Some(
                Ok(
                    InternalControlAppendResponse::refusal(
                        self.current_term,
                        self.last_log_index(),
                        owned("entry_term_must_be_positive"),
                    ),
                ),
            );
        }
        if entry.index <= self.snapshot_last_index {
            let known: u64 = match self.log_term_at(entry.index) {
                Some(term) => term,
                None => 0,
            };
            if known != entry.term {
                return Some(
                    Ok(
                        InternalControlAppendResponse::refusal(
                            self.current_term,
                            self.snapshot_last_index,
                            owned("snapshot_conflict"),
                        ),
                    ),
                );
            }
            return None;
        }
        match self.entry_offset(entry.index) {
            Some(offset) => {
                assert(self@.entries[offset as int] == self.entries@[offset as int]@);
                let existing = &self.entries[offset];
                if existing.term != entry.term || !existing.command.is_same(&entry.command) {
                    if entry.index <= self.commit_index {
                        return Some(
                            Err(
                                cat2(
                                    "cannot overwrite committed control-log entry at index ",
                                    &number(entry.index),
                                ),
                            ),
                        );
                    }
                    self.entries.truncate(offset);
                    assert(self.entries@ =~= old(self).entries@.take(offset as int));
                    self.entries.push(entry);
                }
            },
            None => {
                let last: u64 = self.last_log_index();
                if entry.index != last.saturating_add(1) {
                    return Some(
                        Ok(
                            InternalControlAppendResponse::refusal(
                                self.current_term,
                                last,
                                owned("entry_index_gap"),
                            ),
                        ),
                    );
                }
                self.entries.push(entry);
            },
        }
        None
    }

    /// Ends an append whose entries were all taken.
    fn finish_append(&mut self, leader_commit: u64, now_ms: u64) -> (res: Result<
        InternalControlAppendResponse,
        String,
    >)
        requires
            log_ordered(old(self)@),
        ensures
            (final(self)@, append_view(res)) == append_finished(old(self)@, leader_commit, now_ms),
    {
        let last: u64 = self.last_log_index();
        if leader_commit > self.commit_index {
            self.commit_index = if leader_commit < last {
                leader_commit
            } else {
                last
            };
            match self.apply_committed_entries(now_ms) {
                Ok(()) => {},
                Err(message) => {
                    return Err(message);
                },
            }
        }
        self.unsaved_log = true;
        Ok(
            InternalControlAppendResponse {
                term: self.current_term,
                success: true,
                match_index: last,
                message: None,
            },
        )
    }

    /// Answers a request to append at `now_ms`.
    pub fn handle_append_request_at(
        &mut self,
        request: InternalControlAppendRequest,
        now_ms: u64,
    ) -> (res: Result<InternalControlAppendResponse, String>)
        requires
            log_ordered(old(self)@),
        ensures
            (final(self)@, append_view(res)) == append_step(old(self)@, request@, now_ms),
            log_ordered(final(self)@),
    {
        proof {
            lemma_append_sound(self@, request@, now_ms);
        }
        let leader = trim(&request.leader_node_id);
        if request.term == 0 {
            return Ok(
                InternalControlAppendResponse::refusal(
                    self.current_term,
                    0,
                    owned("append term must be greater than zero"),
                ),
            );
        }
        if leader.is_empty() {
            return Ok(
                InternalControlAppendResponse::refusal(
                    self.current_term,
                    0,
                    owned("leader_node_id must not be empty"),
                ),
            );
        }
        if let Some(refusal) = self.refuse_leader(leader, request.term) {
            return Ok(
                InternalControlAppendResponse::refusal(
                    self.current_term,
                    refusal.0,
                    owned(refusal.1),
                ),
            );
        }
        self.note_leader_contact(leader, request.term, now_ms);
        if request.prev_log_index < self.snapshot_last_index {
            return Ok(
                InternalControlAppendResponse::refusal(
                    self.current_term,
                    self.snapshot_last_index,
                    owned("snapshot_required"),
                ),
            );
        }
        let local_prev_term: u64 = match self.log_term_at(request.prev_log_index) {
            Some(term) => term,
            None => {
                return Ok(
                    InternalControlAppendResponse::refusal(
                        self.current_term,
                        self.last_log_index(),
                        owned("missing_prev_log_index"),
                    ),
                );
            },
        };
        if local_prev_term != request.prev_log_term {
            return Ok(
                InternalControlAppendResponse::refusal(
                    self.current_term,
                    self.last_log_index(),
                    owned("prev_log_term_mismatch"),
                ),
            );
        }
        let ghost start = self@;
        let ghost sent = request@;
        let total: usize = request.entries.len();
        let mut expected_index: u64 = request.prev_log_index.saturating_add(1);
        let mut i: usize = 0;
        while i < total
            invariant
                i <= total,
                total == request.entries.len(),
                sent == request@,
                log_ordered(start),
                expected_index == nth_index(sent.prev_log_index, i as int),
                entries_taken(start, sent.prev_log_index, sent.entries, i as nat) == (
                    self@,
                    None::<Result<AppendResponseView, Seq<char>>>,
                ),
                append_step(old(self)@, sent, now_ms) == (match entries_taken(
                    start,
                    sent.prev_log_index,
                    sent.entries,
                    sent.entries.len(),
                ) {
                    (w, Some(answer)) => (w, answer),
                    (w, None) => append_finished(w, sent.leader_commit, now_ms),
                }),
                log_ordered(append_step(old(self)@, sent, now_ms).0),
            decreases total - i,
        {
            assert(sent.entries[i as int] == request.entries@[i as int]@);
            if let Some(answer) = self.take_entry(expected_index, request.entries[i].clone()) {
                proof {
                    lemma_stopped(
                        start,
                        sent.prev_log_index,
                        sent.entries,
                        (i + 1) as nat,
                        sent.entries.len(),
                    );
                }
                return answer;
            }
            expected_index = expected_index.saturating_add(1);
            i += 1;
        }
        assert(log_ordered(self@)) by {
            crate::consensus_rules::lemma_entries_taken(
                start,
                sent.prev_log_index,
                sent.entries,
                sent.entries.len(),
            );
        }
        self.finish_append(request.leader_commit, now_ms)
    }

    /// Answers a request to append now.
    pub fn handle_append_request(&mut self, request: InternalControlAppendRequest) -> (res: Result<
        InternalControlAppendResponse,
        String,
    >)
        requires
            log_ordered(old(self)@),
        ensures
            exists|now_ms: u64|
                (final(self)@, append_view(res)) == #[trigger] append_step(
                    old(self)@,
                    request@,
                    now_ms,
                ),
            log_ordered(final(self)@),
    {
        self.handle_append_request_at(request, unix_timestamp_millis())
    }

    /// Drops the entries up to an index.
    fn retain_entries_above(&mut self, index: u64)
        ensures
            final(self)@ == (ConsensusView {
                entries: entries_above(old(self)@.entries, index),
                ..old(self)@
            }),
    {
        let mut entries: Vec<InternalControlLogEntry> = Vec::new();
        std::mem::swap(&mut entries, &mut self.entries);
        let ghost all = old(self)@.entries;
        let mut kept: Vec<InternalControlLogEntry> = Vec::new();
        let mut i: usize = 0;
        while i < entries.len()
            invariant
                i <= entries.len(),
                all == views(entries@),
                views(kept@) == entries_above(all.take(i as int), index),
            decreases entries.len() - i,
        {
            assert(all.take(i + 1).drop_last() =~= all.take(i as int));
            assert(all.take(i + 1).last() == entries@[i as int]@);
            if entries[i].index > index {
                kept.push(entries[i].clone());
            }
            i += 1;
        }
        assert(all.take(i as int) =~= all);
        self.entries = kept;
    }

    /// Answers a request to take over a snapshot at `now_ms`.
    pub fn handle_install_snapshot_request_at(
        &mut self,
        request: InternalControlInstallSnapshotRequest,
        now_ms: u64,
    ) -> (res: Result<InternalControlInstallSnapshotResponse, String>)
        requires
            log_ordered(old(self)@),
        ensures
            (final(self)@, install_view(res)) == install_step(old(self)@, request@, now_ms),
            log_ordered(final(self)@),
    {
        proof {
            lemma_install_sound(self@, request@, now_ms);
        }
        let leader = trim(&request.leader_node_id);
        if request.term == 0 {
            return Ok(
                InternalControlInstallSnapshotResponse::refusal(
                    self.current_term,
                    0,
                    owned("snapshot term must be greater than zero"),
                ),
            );
        }
        if request.snapshot_last_index == 0 {
            return Ok(
                InternalControlInstallSnapshotResponse::refusal(
                    self.current_term,
                    0,
                    owned("snapshot_last_index must be greater than zero"),
                ),
            );
        }
        if leader.is_empty() {
            return Ok(
                InternalControlInstallSnapshotResponse::refusal(
                    self.current_term,
                    0,
                    owned("leader_node_id must not be empty"),
                ),
            );
        }
        let mut state = match &request.state {
            SnapshotPayload::Decoded(state) => state.clone(),
            SnapshotPayload::Undecodable(detail) => {
                return Err(cat2("failed to decode control snapshot payload: ", detail));
            },
        };
        state.applied_log_index = request.snapshot_last_index;
        state.applied_log_term = request.snapshot_last_term;
        state.updated_unix_ms = now_ms;
        state.leader_node_id = Some(owned(leader));
        match state.validate() {
            Ok(()) => {},
            Err(message) => {
                return Err(message);
            },
        }
        if let Some(refusal) = self.refuse_leader(leader, request.term) {
            return Ok(
                InternalControlInstallSnapshotResponse::refusal(
                    self.current_term,
                    refusal.0,
                    owned(refusal.1),
                ),
            );
        }
        self.note_leader_contact(leader, request.term, now_ms);
        if request.snapshot_last_index < self.commit_index || request.snapshot_last_index
            < self.control_state.applied_log_index {
            return Ok(
                InternalControlInstallSnapshotResponse::refusal(
                    self.current_term,
                    self.last_log_index(),
                    owned("stale_snapshot"),
                ),
            );
        }
        self.commit_index = request.snapshot_last_index;
        self.snapshot_last_index = request.snapshot_last_index;
        self.snapshot_last_term = request.snapshot_last_term;
        self.retain_entries_above(request.snapshot_last_index);
        self.control_state = state;
        self.reconcile_dynamic_peers();
        self.unsaved_state = true;
        self.unsaved_log = true;
        Ok(
            InternalControlInstallSnapshotResponse {
                term: self.current_term,
                success: true,
                last_index: self.last_log_index(),
                message: None,
            },
        )
    }

    /// Answers a request to take over a snapshot now.
    pub fn handle_install_snapshot_request(
        &mut self,
        request: InternalControlInstallSnapshotRequest,
    ) -> (res: Result<InternalControlInstallSnapshotResponse, String>)
        requires
            log_ordered(old(self)@),
        ensures
            exists|now_ms: u64|
                (final(self)@, install_view(res)) == #[trigger] install_step(
                    old(self)@,
                    request@,
                    now_ms,
                ),
            log_ordered(final(self)@),
    {
        self.handle_install_snapshot_request_at(request, unix_timestamp_millis())
    }
}

/// Once an entry ended an append, the entries after it change nothing.
proof fn lemma_stopped(
    v: ConsensusView,
    prev_log_index: u64,
    entries: Seq<EntryView>,
    m: nat,
    n: nat,
)
    requires
        m <= n,
        entries_taken(v, prev_log_index, entries, m).1 is Some,
    ensures
        entries_taken(v, prev_log_index, entries, n) == entries_taken(
            v,
            prev_log_index,
            entries,
            m,
        ),
    decreases n,
{
    if m < n {
        lemma_stopped(v, prev_log_index, entries, m, (n - 1) as nat);
    }
}

} // verus!
