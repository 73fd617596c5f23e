//! How a node of the control log starts, what it saves and restores, and how it sees its peers.

use vstd::prelude::*;
use crate::clock::unix_timestamp_millis;
use crate::consensus::{
    clone_entries, liveness_at, since, ConsensusView, ControlConsensusConfig,
    ControlConsensusRuntime, ControlLivenessSnapshot, ControlLogFileV1, ControlLogRecoverySnapshot,
    ControlPeerLivenessSnapshot, ControlPeerLivenessStatus, LogFileView, LogView,
    PeerHeartbeatState, PeerLivenessView, CONTROL_LOG_MAGIC, CONTROL_LOG_SCHEMA_VERSION,
};
use crate::consensus_node::next_index_map;
use crate::consensus_rules::{
    committed_applied, last_index, leader_stale, lemma_committed_sound, log_ordered, log_sound,
    next_indexes, nth_index, peers_of, reconciled, NodeStep,
};
use crate::control::{bumped, ControlState, ControlView};
use crate::control_ownership::{find_node, locate_node};
use crate::control_validity::state_error;
use crate::lists::{group_views, texts_ascending, views};
use crate::membership::MembershipView;
use crate::rpc_types::EntryView;
use crate::text::{cat3, cat4, cat5, cat6, clone_opt, decimal, number, opt_text, owned, same};
use crate::text_map::TextMap;

verus! {

broadcast use group_views;

/// The index of the last entry of a log.
pub open spec fn last_of(log: LogView) -> u64 {
    if log.entries.len() == 0 {
        log.snapshot_last_index
    } else {
        log.entries.last().index
    }
}

/// What is wrong with the entry at place `i` of a log.
pub open spec fn log_entry_error(path: Seq<char>, log: LogView, i: int) -> Option<Seq<char>> {
    let entry = log.entries[i];
    let expected = nth_index(log.snapshot_last_index, i);
    if entry.index != expected {
        Some(
            "control-log file "@ + path + " has non-contiguous entry index "@ + decimal(
                entry.index as nat,
            ) + ", expected "@ + decimal(expected as nat),
        )
    } else if entry.term == 0 {
        Some(
            "control-log file "@ + path + " has entry "@ + decimal(entry.index as nat)
                + " with term=0"@,
        )
    } else {
        None
    }
}

/// What is wrong with the first `n` entries of a log.
pub open spec fn log_entries_error(path: Seq<char>, log: LogView, n: nat) -> Option<Seq<char>>
    decreases n,
{
    if n == 0 {
        None
    } else {
        match log_entries_error(path, log, (n - 1) as nat) {
            Some(message) => Some(message),
            None => log_entry_error(path, log, n - 1),
        }
    }
}

/// What is wrong with a log.
pub open spec fn log_error(path: Seq<char>, log: LogView) -> Option<Seq<char>> {
    if log.current_term == 0 {
        Some("control-log file "@ + path + " has invalid current_term=0"@)
    } else if log.snapshot_last_index > log.commit_index {
        Some(
            "control-log file "@ + path + " has snapshot_last_index "@ + decimal(
                log.snapshot_last_index as nat,
            ) + " greater than commit_index "@ + decimal(log.commit_index as nat),
        )
    } else if log_entries_error(path, log, log.entries.len()) is Some {
        log_entries_error(path, log, log.entries.len())
    } else if log.commit_index > last_of(log) {
        Some(
            "control-log file "@ + path + " has commit_index "@ + decimal(log.commit_index as nat)
                + " beyond last log index "@ + decimal(last_of(log) as nat),
        )
    } else {
        None
    }
}

/// What is wrong with a log file.
pub open spec fn log_file_error(path: Seq<char>, file: LogFileView) -> Option<Seq<char>> {
    if file.magic != CONTROL_LOG_MAGIC@ {
        Some("control-log file "@ + path + " has unsupported magic '"@ + file.magic + "'"@)
    } else if file.schema_version != CONTROL_LOG_SCHEMA_VERSION {
        Some(
            "control-log file "@ + path + " has unsupported schema version "@ + decimal(
                file.schema_version as nat,
            ),
        )
    } else {
        log_error(path, file.log)
    }
}

/// Why some settings cannot be used.
pub open spec fn config_error(config: ControlConsensusConfig) -> Option<Seq<char>> {
    if config.max_append_entries == 0 {
        Some("cluster control max append entries must be greater than zero"@)
    } else if config.snapshot_interval_entries == 0 {
        Some("cluster control snapshot interval entries must be greater than zero"@)
    } else if config.dead_timeout_secs < config.suspect_timeout_secs {
        Some("cluster control dead timeout must be >= suspect timeout"@)
    } else if config.leader_lease_secs < config.tick_interval_secs {
        Some("cluster control leader lease must be >= tick interval"@)
    } else {
        None
    }
}

/// `n`, but at least one.
pub open spec fn term_or_one(n: u64) -> u64 {
    if n == 0 {
        1
    } else {
        n
    }
}

/// The log of a node that starts from a control state alone.
pub open spec fn fresh_log(state: ControlView) -> LogView {
    LogView {
        current_term: term_or_one(state.applied_log_term),
        commit_index: state.applied_log_index,
        snapshot_last_index: state.applied_log_index,
        snapshot_last_term: state.applied_log_term,
        entries: Seq::empty(),
    }
}

/// The node that a control state and a log make, before anything is applied.
pub open spec fn starting_node(
    local: Seq<char>,
    path: Seq<char>,
    state: ControlView,
    log: LogView,
    config: ControlConsensusConfig,
    now_ms: u64,
) -> ConsensusView {
    ConsensusView {
        local_node_id: local,
        log_path: path,
        config,
        current_term: term_or_one(log.current_term),
        commit_index: log.commit_index,
        snapshot_last_index: log.snapshot_last_index,
        snapshot_last_term: log.snapshot_last_term,
        last_leader_contact_unix_ms: now_ms,
        entries: log.entries,
        control: state,
        peer_next_index: Map::empty(),
        peer_heartbeat: Map::empty(),
        unsaved_state: false,
        unsaved_log: false,
        compaction_due: false,
    }
}

/// The node that starts from a control state and a log, once all that is committed is applied.
pub open spec fn opened_with(
    local: Seq<char>,
    path: Seq<char>,
    state: ControlView,
    log: LogView,
    config: ControlConsensusConfig,
    now_ms: u64,
) -> Result<ConsensusView, Seq<char>> {
    if state.applied_log_index < log.snapshot_last_index {
        Err(
            "control state applied_log_index "@ + decimal(state.applied_log_index as nat)
                + " is older than control-log snapshot index "@ + decimal(
                log.snapshot_last_index as nat,
            ),
        )
    } else if state.applied_log_index > log.commit_index {
        Err(
            "control state applied_log_index "@ + decimal(state.applied_log_index as nat)
                + " exceeds control-log commit index "@ + decimal(log.commit_index as nat),
        )
    } else {
        match committed_applied(starting_node(local, path, state, log, config, now_ms), now_ms) {
            (_, Err(message)) => Err(message),
            (w, Ok(_)) => Ok(ConsensusView { unsaved_log: true, ..reconciled(w) }),
        }
    }
}

/// The node that a control state and what stands in the log file make.
pub open spec fn opened(
    local: Seq<char>,
    path: Seq<char>,
    state: ControlView,
    persisted: Result<Option<LogFileView>, Seq<char>>,
    config: ControlConsensusConfig,
    now_ms: u64,
) -> Result<ConsensusView, Seq<char>> {
    if state_error(state) is Some {
        Err(state_error(state)->0)
    } else if config_error(config) is Some {
        Err(config_error(config)->0)
    } else {
        match persisted {
            Err(message) => Err(message),
            Ok(None) => match log_error(path, fresh_log(state)) {
                Some(message) => Err(message),
                None => opened_with(local, path, state, fresh_log(state), config, now_ms),
            },
            Ok(Some(file)) => match log_file_error(path, file) {
                Some(message) => Err(message),
                None => opened_with(local, path, state, file.log, config, now_ms),
            },
        }
    }
}

/// What the log file was found to hold.
pub open spec fn persisted_view(persisted: Result<Option<ControlLogFileV1>, String>) -> Result<
    Option<LogFileView>,
    Seq<char>,
> {
    match persisted {
        Ok(Some(file)) => Ok(Some(file@)),
        Ok(None) => Ok(None),
        Err(message) => Err(message@),
    }
}

/// What a start came to.
pub open spec fn opened_view(result: Result<ControlConsensusRuntime, String>) -> Result<
    ConsensusView,
    Seq<char>,
> {
    match result {
        Ok(node) => Ok(node@),
        Err(message) => Err(message@),
    }
}

/// What a restore came to.
pub open spec fn restored_view(result: Result<ControlState, String>) -> Result<
    ControlView,
    Seq<char>,
> {
    match result {
        Ok(state) => Ok(state@),
        Err(message) => Err(message@),
    }
}

/// The log of a node.
pub open spec fn log_of(v: ConsensusView) -> LogView {
    LogView {
        current_term: v.current_term,
        commit_index: v.commit_index,
        snapshot_last_index: v.snapshot_last_index,
        snapshot_last_term: v.snapshot_last_term,
        entries: v.entries,
    }
}

/// The name that a restored log has in messages.
pub const RECOVERY_LOG_NAME: &'static str = "<recovery-snapshot>";

/// The control state that is restored: as saved, or with this node in the lead.
pub open spec fn restored_state(
    local: Seq<char>,
    state: ControlView,
    force_local_leader: bool,
    now_ms: u64,
) -> ControlView {
    if force_local_leader {
        ControlView { leader_node_id: Some(local), updated_unix_ms: now_ms, ..state }
    } else {
        state
    }
}

/// Why a saved control state and log cannot be restored on a node.
pub open spec fn restore_error(local: Seq<char>, state: ControlView, log: LogView) -> Option<
    Seq<char>,
> {
    if state_error(state) is Some {
        state_error(state)
    } else if find_node(state.nodes, local) is None {
        Some(
            "control recovery snapshot membership does not include local node '"@ + local + "'"@,
        )
    } else if log_error(RECOVERY_LOG_NAME@, log) is Some {
        log_error(RECOVERY_LOG_NAME@, log)
    } else if state.applied_log_index < log.snapshot_last_index {
        Some(
            "control recovery state applied_log_index "@ + decimal(state.applied_log_index as nat)
                + " is older than log snapshot index "@ + decimal(log.snapshot_last_index as nat),
        )
    } else if state.applied_log_index > log.commit_index {
        Some(
            "control recovery state applied_log_index "@ + decimal(state.applied_log_index as nat)
                + " exceeds log commit index "@ + decimal(log.commit_index as nat),
        )
    } else {
        None
    }
}

/// The node with a saved control state and log in place of its own, before anything is applied.
pub open spec fn restoring_node(
    v: ConsensusView,
    state: ControlView,
    log: LogView,
    now_ms: u64,
) -> ConsensusView {
    let w = ConsensusView {
        current_term: term_or_one(log.current_term),
        commit_index: log.commit_index,
        snapshot_last_index: log.snapshot_last_index,
        snapshot_last_term: log.snapshot_last_term,
        entries: log.entries,
        control: state,
        last_leader_contact_unix_ms: now_ms,
        compaction_due: false,
        ..v
    };
    ConsensusView {
        peer_next_index: next_indexes(peers_of(w), Map::empty(), bumped(last_of(log))),
        ..w
    }
}

/// What restoring a saved control state and log makes of a node.
pub open spec fn restore_step(
    v: ConsensusView,
    saved: ControlView,
    log: LogView,
    force_local_leader: bool,
    now_ms: u64,
) -> NodeStep<ControlView> {
    let state = restored_state(v.local_node_id, saved, force_local_leader, now_ms);
    match restore_error(v.local_node_id, state, log) {
        Some(message) => (v, Err(message)),
        None => match committed_applied(restoring_node(v, state, log, now_ms), now_ms) {
            (w, Err(message)) => (w, Err(message)),
            (w, Ok(_)) => {
                let x = reconciled(w);
                (
                    ConsensusView {
                        current_term: if x.current_term < x.control.applied_log_term {
                            x.control.applied_log_term
                        } else {
                            x.current_term
                        },
                        unsaved_state: true,
                        unsaved_log: true,
                        ..x
                    },
                    Ok(x.control),
                )
            },
        },
    }
}

proof fn lemma_entries_error_stays(path: Seq<char>, log: LogView, m: nat, n: nat)
    requires
        m <= n,
        log_entries_error(path, log, m) is Some,
    ensures
        log_entries_error(path, log, n) == log_entries_error(path, log, m),
    decreases n,
{
    if m < n {
        lemma_entries_error_stays(path, log, m, (n - 1) as nat);
    }
}

proof fn lemma_entries_in_order(path: Seq<char>, log: LogView, n: nat, i: int)
    requires
        log_entries_error(path, log, n) is None,
        0 <= i < n,
    ensures
        log.entries[i].index == nth_index(log.snapshot_last_index, i),
        log.entries[i].term > 0,
    decreases n,
{
    if i < n - 1 {
        lemma_entries_in_order(path, log, (n - 1) as nat, i);
    }
}

/// A log without an error makes a sound node with a control state that fits it.
pub proof fn lemma_accepted_log(path: Seq<char>, v: ConsensusView)
    requires
        log_error(path, LogView { current_term: 1, ..log_of(v) }) is None,
        v.current_term >= 1,
        v.snapshot_last_index <= v.control.applied_log_index <= v.commit_index,
    ensures
        log_sound(v),
{
    let log = LogView { current_term: 1, ..log_of(v) };
    assert forall|i: int| 0 <= i < v.entries.len() implies (#[trigger] v.entries[i]).index
        == nth_index(v.snapshot_last_index, i) && v.entries[i].term > 0 by {
        lemma_entries_in_order(path, log, v.entries.len(), i);
    }
}

/// Only the term zero tells one term of a log from another.
pub proof fn lemma_term_aside(path: Seq<char>, log: LogView, term: u64, n: nat)
    ensures
        log_entries_error(path, log, n) == log_entries_error(
            path,
            LogView { current_term: term, ..log },
            n,
        ),
    decreases n,
{
    if n > 0 {
        lemma_term_aside(path, log, term, (n - 1) as nat);
    }
}

/// Checks a log.
fn validate_log(path: &str, log: &ControlLogRecoverySnapshot) -> (res: Result<(), String>)
    ensures
        message_result(res) == log_error(path@, log@),
{
    if log.current_term == 0 {
        return Err(cat3("control-log file ", path, " has invalid current_term=0"));
    }
    if log.snapshot_last_index > log.commit_index {
        return Err(
            cat6(
                "control-log file ",
                path,
                " has snapshot_last_index ",
                &number(log.snapshot_last_index),
                " greater than commit_index ",
                &number(log.commit_index),
            ),
        );
    }
    let mut expected: u64 = log.snapshot_last_index.saturating_add(1);
    let mut i: usize = 0;
    while i < log.entries.len()
        invariant
            i <= log.entries.len(),
            log.current_term != 0,
            log.snapshot_last_index <= log.commit_index,
            expected == nth_index(log.snapshot_last_index, i as int),
            log_entries_error(path@, log@, i as nat) is None,
        decreases log.entries.len() - i,
    {
        assert(log@.entries[i as int] == log.entries@[i as int]@);
        if log.entries[i].index != expected {
            proof {
                lemma_entries_error_stays(path@, log@, (i + 1) as nat, log@.entries.len());
            }
            return Err(
                cat6(
                    "control-log file ",
                    path,
                    " has non-contiguous entry index ",
                    &number(log.entries[i].index),
                    ", expected ",
                    &number(expected),
                ),
            );
        }
        if log.entries[i].term == 0 {
            proof {
                lemma_entries_error_stays(path@, log@, (i + 1) as nat, log@.entries.len());
            }
            return Err(
                cat5(
                    "control-log file ",
                    path,
                    " has entry ",
                    &number(log.entries[i].index),
                    " with term=0",
                ),
            );
        }
        expected = expected.saturating_add(1);
        i += 1;
    }
    let last: u64 = log.last_index();
    if log.commit_index > last {
        return Err(
            cat6(
                "control-log file ",
                path,
                " has commit_index ",
                &number(log.commit_index),
                " beyond last log index ",
                &number(last),
            ),
        );
    }
    Ok(())
}

impl ControlLogRecoverySnapshot {
    fn last_index(&self) -> (res: u64)
        ensures
            res == last_of(self@),
    {
        if self.entries.len() == 0 {
            self.snapshot_last_index
        } else {
            self.entries[self.entries.len() - 1].index
        }
    }
}

/// The message of a refusal.
pub open spec fn message_result(result: Result<(), String>) -> Option<Seq<char>> {
    match result {
        Ok(_) => None,
        Err(message) => Some(message@),
    }
}

/// Checks a log file.
pub fn validate_log_file(file: &ControlLogFileV1, path: &str) -> (res: Result<(), String>)
    ensures
        message_result(res) == log_file_error(path@, file@),
{
    if !same(&file.magic, CONTROL_LOG_MAGIC) {
        return Err(
            cat5("control-log file ", path, " has unsupported magic '", &file.magic, "'"),
        );
    }
    if file.schema_version != CONTROL_LOG_SCHEMA_VERSION {
        return Err(
            cat4(
                "control-log file ",
                path,
                " has unsupported schema version ",
                &number(file.schema_version as u64),
            ),
        );
    }
    validate_log(path, &file.log)
}

impl ControlConsensusConfig {
    /// Checks that the settings can be used.
    pub fn validate(&self) -> (res: Result<(), String>)
        ensures
            message_result(res) == config_error(*self),
    {
        if self.max_append_entries == 0 {
            return Err(owned("cluster control max append entries must be greater than zero"));
        }
        if self.snapshot_interval_entries == 0 {
            return Err(
                owned("cluster control snapshot interval entries must be greater than zero"),
            );
        }
        if self.dead_timeout_secs < self.suspect_timeout_secs {
            return Err(owned("cluster control dead timeout must be >= suspect timeout"));
        }
        if self.leader_lease_secs < self.tick_interval_secs {
            return Err(owned("cluster control leader lease must be >= tick interval"));
        }
        Ok(())
    }
}

/// How many of some peers answer in a way.
pub open spec fn count_status(
    peers: Seq<PeerLivenessView>,
    status: ControlPeerLivenessStatus,
) -> nat
    decreases peers.len(),
{
    if peers.len() == 0 {
        0
    } else {
        count_status(peers.drop_last(), status) + if peers.last().status == status {
            1nat
        } else {
            0nat
        }
    }
}

/// What is known at `now_ms` of a peer.
pub open spec fn peer_liveness(v: ConsensusView, id: Seq<char>, now_ms: u64) -> PeerLivenessView {
    let heartbeat = v.peer_heartbeat[id];
    PeerLivenessView {
        node_id: id,
        status: liveness_at(v.config, heartbeat, now_ms),
        last_success_unix_ms: heartbeat.last_success_unix_ms,
        last_failure_unix_ms: heartbeat.last_failure_unix_ms,
        consecutive_failures: heartbeat.consecutive_failures,
    }
}

/// The names of some peers.
pub open spec fn peer_names(peers: Seq<PeerLivenessView>) -> Seq<Seq<char>> {
    Seq::new(peers.len(), |i: int| peers[i].node_id)
}

/// A snapshot says how a node sees the cluster at `now_ms`: every peer once, in the order of their
/// names.
pub open spec fn liveness_holds(
    snapshot: ControlLivenessSnapshot,
    v: ConsensusView,
    now_ms: u64,
) -> bool {
    let peers = views(snapshot.peers@);
    &&& snapshot.local_node_id@ == v.local_node_id
    &&& snapshot.current_term == v.current_term
    &&& snapshot.commit_index == v.commit_index
    &&& opt_text(snapshot.leader_node_id) == v.control.leader_node_id
    &&& snapshot.leader_last_contact_unix_ms == match v.control.leader_node_id {
        Some(_) => Some(v.last_leader_contact_unix_ms),
        None => None,
    }
    &&& snapshot.leader_contact_age_ms == match v.control.leader_node_id {
        Some(_) => Some(since(now_ms, v.last_leader_contact_unix_ms)),
        None => None,
    }
    &&& snapshot.leader_stale == leader_stale(v, now_ms)
    &&& snapshot.suspect_peers == count_status(peers, ControlPeerLivenessStatus::Suspect)
    &&& snapshot.dead_peers == count_status(peers, ControlPeerLivenessStatus::Dead)
    &&& texts_ascending(peer_names(peers))
    &&& forall|id: Seq<char>|
        #[trigger] peer_names(peers).contains(id) <==> v.peer_heartbeat.dom().contains(id)
    &&& forall|i: int|
        0 <= i < peers.len() ==> #[trigger] peers[i] == peer_liveness(v, peers[i].node_id, now_ms)
}

impl ControlConsensusRuntime {
    /// How a peer answers at `now_ms`.
    pub fn peer_liveness_status(&self, heartbeat: &PeerHeartbeatState, now_ms: u64) -> (res:
        ControlPeerLivenessStatus)
        ensures
            res == liveness_at(self@.config, *heartbeat, now_ms),
    {
        let dead: u64 = self.config.dead_timeout();
        let suspect: u64 = self.config.suspect_timeout();
        match heartbeat.last_success_unix_ms {
            None => match heartbeat.last_failure_unix_ms {
                None => ControlPeerLivenessStatus::Unknown,
                Some(failure) => {
                    if now_ms.saturating_sub(failure) >= dead {
                        ControlPeerLivenessStatus::Dead
                    } else {
                        ControlPeerLivenessStatus::Suspect
                    }
                },
            },
            Some(success) => {
                let age: u64 = now_ms.saturating_sub(success);
                if age >= dead {
                    ControlPeerLivenessStatus::Dead
                } else if age >= suspect || heartbeat.consecutive_failures > 0 {
                    ControlPeerLivenessStatus::Suspect
                } else {
                    ControlPeerLivenessStatus::Healthy
                }
            },
        }
    }
}

impl ControlConsensusRuntime {
    /// Starts a node at `now_ms` from its control state and from what its log file was found to
    /// hold.
    pub fn open_at(
        membership: &MembershipView,
        bootstrap_state: ControlState,
        persisted: Result<Option<ControlLogFileV1>, String>,
        log_path: String,
        config: ControlConsensusConfig,
        now_ms: u64,
    ) -> (res: Result<Self, String>)
        ensures
            opened_view(res) == opened(
                membership.local_node_id@,
                log_path@,
                bootstrap_state@,
                persisted_view(persisted),
                config,
                now_ms,
            ),
            match res {
                Ok(node) => log_sound(node@) && log_ordered(node@),
                Err(_) => true,
            },
    {
        match bootstrap_state.validate() {
            Ok(()) => {},
            Err(message) => {
                return Err(message);
            },
        }
        match config.validate() {
            Ok(()) => {},
            Err(message) => {
                return Err(message);
            },
        }
        let log = match persisted {
            Err(message) => {
                return Err(message);
            },
            Ok(None) => {
                let log = ControlLogRecoverySnapshot {
                    current_term: if bootstrap_state.applied_log_term == 0 {
                        1
                    } else {
                        bootstrap_state.applied_log_term
                    },
                    commit_index: bootstrap_state.applied_log_index,
                    snapshot_last_index: bootstrap_state.applied_log_index,
                    snapshot_last_term: bootstrap_state.applied_log_term,
                    entries: Vec::new(),
                };
                assert(log@.entries =~= Seq::<EntryView>::empty());
                match validate_log(&log_path, &log) {
                    Ok(()) => {},
                    Err(message) => {
                        return Err(message);
                    },
                }
                log
            },
            Ok(Some(file)) => {
                match validate_log_file(&file, &log_path) {
                    Ok(()) => {},
                    Err(message) => {
                        return Err(message);
                    },
                }
                file.log
            },
        };
        if bootstrap_state.applied_log_index < log.snapshot_last_index {
            return Err(
                cat4(
                    "control state applied_log_index ",
                    &number(bootstrap_state.applied_log_index),
                    " is older than control-log snapshot index ",
                    &number(log.snapshot_last_index),
                ),
            );
        }
        if bootstrap_state.applied_log_index > log.commit_index {
            return Err(
                cat4(
                    "control state applied_log_index ",
                    &number(bootstrap_state.applied_log_index),
                    " exceeds control-log commit index ",
                    &number(log.commit_index),
                ),
            );
        }
        let ghost state = bootstrap_state@;
        let ghost held = log@;
        let ghost path = log_path@;
        let mut node = ControlConsensusRuntime {
            local_node_id: membership.local_node_id.clone(),
            log_path,
            config,
            current_term: if log.current_term == 0 {
                1
            } else {
                log.current_term
            },
            commit_index: log.commit_index,
            snapshot_last_index: log.snapshot_last_index,
            snapshot_last_term: log.snapshot_last_term,
            last_leader_contact_unix_ms: now_ms,
            entries: log.entries,
            control_state: bootstrap_state,
            peer_next_index: TextMap::new(),
            peer_heartbeat: TextMap::new(),
            unsaved_state: false,
            unsaved_log: false,
            compaction_due: false,
        };
        assert(node@ == starting_node(
            membership.local_node_id@,
            path,
            state,
            held,
            config,
            now_ms,
        ));
        proof {
            lemma_term_aside(path, held, 1, held.entries.len());
            lemma_accepted_log(path, node@);
            lemma_committed_sound(node@, now_ms);
        }
        match node.apply_committed_entries(now_ms) {
            Ok(()) => {},
            Err(message) => {
                return Err(message);
            },
        }
        node.reconcile_dynamic_peers();
        node.unsaved_log = true;
        Ok(node)
    }

    /// Starts a node now.
    pub fn open(
        membership: &MembershipView,
        bootstrap_state: ControlState,
        persisted: Result<Option<ControlLogFileV1>, String>,
        log_path: String,
        config: ControlConsensusConfig,
    ) -> (res: Result<Self, String>)
        ensures
            exists|now_ms: u64|
                opened_view(res) == #[trigger] opened(
                    membership.local_node_id@,
                    log_path@,
                    bootstrap_state@,
                    persisted_view(persisted),
                    config,
                    now_ms,
                ),
            match res {
                Ok(node) => log_sound(node@) && log_ordered(node@),
                Err(_) => true,
            },
    {
        ControlConsensusRuntime::open_at(
            membership,
            bootstrap_state,
            persisted,
            log_path,
            config,
            unix_timestamp_millis(),
        )
    }

    /// The log, as it is written to its file.
    pub fn log_file(&self) -> (res: ControlLogFileV1)
        ensures
            res@ == (LogFileView {
                magic: CONTROL_LOG_MAGIC@,
                schema_version: CONTROL_LOG_SCHEMA_VERSION,
                log: log_of(self@),
            }),
    {
        ControlLogFileV1 {
            magic: owned(CONTROL_LOG_MAGIC),
            schema_version: CONTROL_LOG_SCHEMA_VERSION,
            log: self.log_recovery_snapshot(),
        }
    }

    /// The control state and the log, to be saved together.
    pub fn recovery_snapshot_bundle(&self) -> (res: (ControlState, ControlLogRecoverySnapshot))
        ensures
            res.0@ == self@.control,
            res.1@ == log_of(self@),
    {
        (self.control_state.clone(), self.log_recovery_snapshot())
    }

    /// The log, to be saved.
    pub fn log_recovery_snapshot(&self) -> (res: ControlLogRecoverySnapshot)
        ensures
            res@ == log_of(self@),
    {
        ControlLogRecoverySnapshot {
            current_term: self.current_term,
            commit_index: self.commit_index,
            snapshot_last_index: self.snapshot_last_index,
            snapshot_last_term: self.snapshot_last_term,
            entries: clone_entries(&self.entries),
        }
    }

    /// Puts a saved control state and log in place of this node's own, at `now_ms`.
    pub fn restore_recovery_snapshot_at(
        &mut self,
        control_state: ControlState,
        log_snapshot: ControlLogRecoverySnapshot,
        force_local_leader: bool,
        now_ms: u64,
    ) -> (res: Result<ControlState, String>)
        requires
            log_ordered(old(self)@),
        ensures
            (final(self)@, restored_view(res)) == restore_step(
                old(self)@,
                control_state@,
                log_snapshot@,
                force_local_leader,
                now_ms,
            ),
            log_ordered(final(self)@),
    {
        let mut state = control_state;
        if force_local_leader {
            state.leader_node_id = Some(self.local_node_id.clone());
            state.updated_unix_ms = now_ms;
        }
        match state.validate() {
            Ok(()) => {},
            Err(message) => {
                return Err(message);
            },
        }
        if locate_node(&state.nodes, &self.local_node_id).is_none() {
            return Err(
                cat3(
                    "control recovery snapshot membership does not include local node '",
                    &self.local_node_id,
                    "'",
                ),
            );
        }
        match validate_log(RECOVERY_LOG_NAME, &log_snapshot) {
            Ok(()) => {},
            Err(message) => {
                return Err(message);
            },
        }
        if state.applied_log_index < log_snapshot.snapshot_last_index {
            return Err(
                cat4(
                    "control recovery state applied_log_index ",
                    &number(state.applied_log_index),
                    " is older than log snapshot index ",
                    &number(log_snapshot.snapshot_last_index),
                ),
            );
        }
        if state.applied_log_index > log_snapshot.commit_index {
            return Err(
                cat4(
                    "control recovery state applied_log_index ",
                    &number(state.applied_log_index),
                    " exceeds log commit index ",
                    &number(log_snapshot.commit_index),
                ),
            );
        }
        let ghost saved = state@;
        let ghost held = log_snapshot@;
        let fresh: u64 = log_snapshot.last_index().saturating_add(1);
        self.current_term = if log_snapshot.current_term == 0 {
            1
        } else {
            log_snapshot.current_term
        };
        self.commit_index = log_snapshot.commit_index;
        self.snapshot_last_index = log_snapshot.snapshot_last_index;
        self.snapshot_last_term = log_snapshot.snapshot_last_term;
        self.entries = log_snapshot.entries;
        self.control_state = state;
        self.last_leader_contact_unix_ms = now_ms;
        self.compaction_due = false;
        let none: TextMap<u64> = TextMap::new();
        self.peer_next_index = next_index_map(&self.control_peer_nodes(), &none, fresh);
        assert(self@ == restoring_node(old(self)@, saved, held, now_ms));
        proof {
            lemma_term_aside(RECOVERY_LOG_NAME@, held, 1, held.entries.len());
            lemma_accepted_log(RECOVERY_LOG_NAME@, self@);
            lemma_committed_sound(self@, now_ms);
        }
        match self.apply_committed_entries(now_ms) {
            Ok(()) => {},
            Err(message) => {
                return Err(message);
            },
        }
        self.reconcile_dynamic_peers();
        if self.current_term < self.control_state.applied_log_term {
            self.current_term = self.control_state.applied_log_term;
        }
        self.unsaved_state = true;
        self.unsaved_log = true;
        Ok(self.control_state.clone())
    }

    /// Puts a saved control state and log in place of this node's own, now.
    pub fn restore_recovery_snapshot(
        &mut self,
        control_state: ControlState,
        log_snapshot: ControlLogRecoverySnapshot,
        force_local_leader: bool,
    ) -> (res: Result<ControlState, String>)
        requires
            log_ordered(old(self)@),
        ensures
            exists|now_ms: u64|
                (final(self)@, restored_view(res)) == #[trigger] restore_step(
                    old(self)@,
                    control_state@,
                    log_snapshot@,
                    force_local_leader,
                    now_ms,
                ),
            log_ordered(final(self)@),
    {
        self.restore_recovery_snapshot_at(
            control_state,
            log_snapshot,
            force_local_leader,
            unix_timestamp_millis(),
        )
    }

    /// How this node sees the cluster at `now_ms`.
    pub fn liveness_snapshot_at(&self, now_ms: u64) -> (res: ControlLivenessSnapshot)
        ensures
            liveness_holds(res, self@, now_ms),
    {
        let count: usize = self.peer_heartbeat.len();
        let ghost keys = self.peer_heartbeat.keys();
        let mut peers: Vec<ControlPeerLivenessSnapshot> = Vec::new();
        let mut suspect: usize = 0;
        let mut dead: usize = 0;
        let mut i: usize = 0;
        while i < count
            invariant
                i <= count,
                count == keys.len(),
                keys == self.peer_heartbeat.keys(),
                peers.len() == i,
                suspect <= i,
                dead <= i,
                suspect == count_status(views(peers@), ControlPeerLivenessStatus::Suspect),
                dead == count_status(views(peers@), ControlPeerLivenessStatus::Dead),
                forall|k: int|
                    0 <= k < i ==> #[trigger] views(peers@)[k] == peer_liveness(
                        self@,
                        keys[k],
                        now_ms,
                    ),
            decreases count - i,
        {
            let name = self.peer_heartbeat.key_at(i);
            let heartbeat = self.peer_heartbeat.value_at(i);
            let status = self.peer_liveness_status(heartbeat, now_ms);
            if status == ControlPeerLivenessStatus::Suspect {
                suspect += 1;
            }
            if status == ControlPeerLivenessStatus::Dead {
                dead += 1;
            }
            let ghost before = views(peers@);
            let peer = ControlPeerLivenessSnapshot {
                node_id: owned(name),
                status,
                last_success_unix_ms: heartbeat.last_success_unix_ms,
                last_failure_unix_ms: heartbeat.last_failure_unix_ms,
                consecutive_failures: heartbeat.consecutive_failures,
            };
            assert(peer@ == peer_liveness(self@, keys[i as int], now_ms));
            peers.push(peer);
            assert(views(peers@).drop_last() =~= before);
            assert forall|k: int| 0 <= k < i + 1 implies #[trigger] views(peers@)[k]
                == peer_liveness(self@, keys[k], now_ms) by {
                if k < i {
                    assert(views(peers@)[k] == before[k]);
                }
            }
            i += 1;
        }
        assert(peer_names(views(peers@)) =~= keys);
        let known: bool = self.control_state.leader_node_id.is_some();
        let contact: u64 = self.last_leader_contact_unix_ms;
        ControlLivenessSnapshot {
            local_node_id: self.local_node_id.clone(),
            current_term: self.current_term,
            commit_index: self.commit_index,
            leader_node_id: clone_opt(&self.control_state.leader_node_id),
            leader_last_contact_unix_ms: if known {
                Some(contact)
            } else {
                None
            },
            leader_contact_age_ms: if known {
                Some(now_ms.saturating_sub(contact))
            } else {
                None
            },
            leader_stale: self.leader_is_stale(now_ms),
            suspect_peers: suspect,
            dead_peers: dead,
            peers,
        }
    }

    /// How this node sees the cluster now.
    pub fn liveness_snapshot(&self) -> (res: ControlLivenessSnapshot)
        ensures
            exists|now_ms: u64| #[trigger] liveness_holds(res, self@, now_ms),
    {
        self.liveness_snapshot_at(unix_timestamp_millis())
    }
}

} // verus!
