//! The control log of a cluster: its settings, its state, and who leads.

use vstd::prelude::*;
use crate::control::{ControlState, ControlView};
use crate::env::{control_setting, parse_env_u64, EnvValue};
use crate::lists::{group_views, views};
use crate::rpc_types::{EntryView, InternalControlLogEntry};
use crate::text_map::TextMap;

verus! {

broadcast use group_views;

pub const CONTROL_LOG_MAGIC: &'static str = "tsink-control-log";

pub const CONTROL_LOG_SCHEMA_VERSION: u16 = 1;

pub const CLUSTER_CONTROL_TICK_INTERVAL_SECS_ENV: &'static str =
    "TSINK_CLUSTER_CONTROL_TICK_INTERVAL_SECS";

pub const CLUSTER_CONTROL_MAX_APPEND_ENTRIES_ENV: &'static str =
    "TSINK_CLUSTER_CONTROL_MAX_APPEND_ENTRIES";

pub const CLUSTER_CONTROL_SNAPSHOT_INTERVAL_ENTRIES_ENV: &'static str =
    "TSINK_CLUSTER_CONTROL_SNAPSHOT_INTERVAL_ENTRIES";

pub const CLUSTER_CONTROL_SUSPECT_TIMEOUT_SECS_ENV: &'static str =
    "TSINK_CLUSTER_CONTROL_SUSPECT_TIMEOUT_SECS";

pub const CLUSTER_CONTROL_DEAD_TIMEOUT_SECS_ENV: &'static str =
    "TSINK_CLUSTER_CONTROL_DEAD_TIMEOUT_SECS";

pub const CLUSTER_CONTROL_LEADER_LEASE_SECS_ENV: &'static str =
    "TSINK_CLUSTER_CONTROL_LEADER_LEASE_SECS";

pub const DEFAULT_CONTROL_TICK_INTERVAL_SECS: u64 = 2;

pub const DEFAULT_CONTROL_MAX_APPEND_ENTRIES: usize = 64;

pub const DEFAULT_CONTROL_SNAPSHOT_INTERVAL_ENTRIES: usize = 128;

pub const DEFAULT_CONTROL_SUSPECT_TIMEOUT_SECS: u64 = 6;

pub const DEFAULT_CONTROL_DEAD_TIMEOUT_SECS: u64 = 20;

pub const DEFAULT_CONTROL_LEADER_LEASE_SECS: u64 = 6;

/// How often a peer is tried in one round of replication.
pub const CONTROL_SYNC_MAX_ATTEMPTS: usize = 4;

/// The settings of the control log.
#[derive(Debug, Clone, Copy, PartialEq, Eq, Structural)]
pub struct ControlConsensusConfig {
    pub tick_interval_secs: u64,
    pub max_append_entries: usize,
    pub snapshot_interval_entries: usize,
    pub suspect_timeout_secs: u64,
    pub dead_timeout_secs: u64,
    pub leader_lease_secs: u64,
}

/// The settings that hold where none are given.
pub open spec fn default_consensus_config() -> ControlConsensusConfig {
    ControlConsensusConfig {
        tick_interval_secs: DEFAULT_CONTROL_TICK_INTERVAL_SECS,
        max_append_entries: DEFAULT_CONTROL_MAX_APPEND_ENTRIES,
        snapshot_interval_entries: DEFAULT_CONTROL_SNAPSHOT_INTERVAL_ENTRIES,
        suspect_timeout_secs: DEFAULT_CONTROL_SUSPECT_TIMEOUT_SECS,
        dead_timeout_secs: DEFAULT_CONTROL_DEAD_TIMEOUT_SECS,
        leader_lease_secs: DEFAULT_CONTROL_LEADER_LEASE_SECS,
    }
}

impl Default for ControlConsensusConfig {
    fn default() -> (res: Self)
        ensures
            res == default_consensus_config(),
    {
        ControlConsensusConfig {
            tick_interval_secs: DEFAULT_CONTROL_TICK_INTERVAL_SECS,
            max_append_entries: DEFAULT_CONTROL_MAX_APPEND_ENTRIES,
            snapshot_interval_entries: DEFAULT_CONTROL_SNAPSHOT_INTERVAL_ENTRIES,
            suspect_timeout_secs: DEFAULT_CONTROL_SUSPECT_TIMEOUT_SECS,
            dead_timeout_secs: DEFAULT_CONTROL_DEAD_TIMEOUT_SECS,
            leader_lease_secs: DEFAULT_CONTROL_LEADER_LEASE_SECS,
        }
    }
}

/// What the environment variables of the control log were found to hold.
#[derive(Debug, PartialEq, Eq)]
pub struct ControlConsensusEnv {
    pub tick_interval_secs: EnvValue,
    pub max_append_entries: EnvValue,
    pub snapshot_interval_entries: EnvValue,
    pub suspect_timeout_secs: EnvValue,
    pub dead_timeout_secs: EnvValue,
    pub leader_lease_secs: EnvValue,
}

/// The settings that the environment asks for; the first one that is refused is reported.
pub open spec fn consensus_config_from(env: ControlConsensusEnv) -> Result<
    ControlConsensusConfig,
    Seq<char>,
> {
    let defaults = default_consensus_config();
    let tick = control_setting(
        CLUSTER_CONTROL_TICK_INTERVAL_SECS_ENV@,
        env.tick_interval_secs,
        defaults.tick_interval_secs,
        true,
    );
    let append = control_setting(
        CLUSTER_CONTROL_MAX_APPEND_ENTRIES_ENV@,
        env.max_append_entries,
        defaults.max_append_entries as u64,
        true,
    );
    let snapshot = control_setting(
        CLUSTER_CONTROL_SNAPSHOT_INTERVAL_ENTRIES_ENV@,
        env.snapshot_interval_entries,
        defaults.snapshot_interval_entries as u64,
        true,
    );
    let suspect = control_setting(
        CLUSTER_CONTROL_SUSPECT_TIMEOUT_SECS_ENV@,
        env.suspect_timeout_secs,
        defaults.suspect_timeout_secs,
        true,
    );
    let dead = control_setting(
        CLUSTER_CONTROL_DEAD_TIMEOUT_SECS_ENV@,
        env.dead_timeout_secs,
        defaults.dead_timeout_secs,
        true,
    );
    let lease = control_setting(
        CLUSTER_CONTROL_LEADER_LEASE_SECS_ENV@,
        env.leader_lease_secs,
        defaults.leader_lease_secs,
        true,
    );
    match (tick, append, snapshot, suspect, dead, lease) {
        (Err(message), _, _, _, _, _) => Err(message),
        (_, Err(message), _, _, _, _) => Err(message),
        (_, _, Err(message), _, _, _) => Err(message),
        (_, _, _, Err(message), _, _) => Err(message),
        (_, _, _, _, Err(message), _) => Err(message),
        (_, _, _, _, _, Err(message)) => Err(message),
        (Ok(a), Ok(b), Ok(c), Ok(d), Ok(e), Ok(f)) => Ok(
            ControlConsensusConfig {
                tick_interval_secs: a,
                max_append_entries: b as usize,
                snapshot_interval_entries: c as usize,
                suspect_timeout_secs: d,
                dead_timeout_secs: e,
                leader_lease_secs: f,
            },
        ),
    }
}

/// `n`, but at least one.
pub open spec fn at_least_one(n: u64) -> u64 {
    if n == 0 {
        1
    } else {
        n
    }
}

/// A time of `secs` seconds, but at least one, in milliseconds, of which the low 64 bits are kept.
pub open spec fn timeout_ms(secs: u64) -> u64 {
    vstd::wrapping::u64_specs::wrapping_mul(at_least_one(secs), 1000)
}

fn timeout_millis(secs: u64) -> (res: u64)
    ensures
        res == timeout_ms(secs),
{
    let positive: u64 = if secs == 0 {
        1
    } else {
        secs
    };
    positive.wrapping_mul(1000)
}

impl ControlConsensusConfig {
    /// The settings that the environment asks for.
    pub fn from_env(env: &ControlConsensusEnv) -> (res: Result<Self, String>)
        ensures
            crate::text::message_view(res) == consensus_config_from(*env),
    {
        let defaults = ControlConsensusConfig::default();
        let tick_interval_secs = parse_env_u64(
            CLUSTER_CONTROL_TICK_INTERVAL_SECS_ENV,
            &env.tick_interval_secs,
            defaults.tick_interval_secs,
            true,
        )?;
        let max_append_entries = parse_env_u64(
            CLUSTER_CONTROL_MAX_APPEND_ENTRIES_ENV,
            &env.max_append_entries,
            defaults.max_append_entries as u64,
            true,
        )?;
        let snapshot_interval_entries = parse_env_u64(
            CLUSTER_CONTROL_SNAPSHOT_INTERVAL_ENTRIES_ENV,
            &env.snapshot_interval_entries,
            defaults.snapshot_interval_entries as u64,
            true,
        )?;
        let suspect_timeout_secs = parse_env_u64(
            CLUSTER_CONTROL_SUSPECT_TIMEOUT_SECS_ENV,
            &env.suspect_timeout_secs,
            defaults.suspect_timeout_secs,
            true,
        )?;
        let dead_timeout_secs = parse_env_u64(
            CLUSTER_CONTROL_DEAD_TIMEOUT_SECS_ENV,
            &env.dead_timeout_secs,
            defaults.dead_timeout_secs,
            true,
        )?;
        let leader_lease_secs = parse_env_u64(
            CLUSTER_CONTROL_LEADER_LEASE_SECS_ENV,
            &env.leader_lease_secs,
            defaults.leader_lease_secs,
            true,
        )?;
        Ok(
            ControlConsensusConfig {
                tick_interval_secs,
                max_append_entries: max_append_entries as usize,
                snapshot_interval_entries: snapshot_interval_entries as usize,
                suspect_timeout_secs,
                dead_timeout_secs,
                leader_lease_secs,
            },
        )
    }

    /// The seconds between two rounds of replication.
    pub fn tick_interval(self) -> (res: u64)
        ensures
            res == at_least_one(self.tick_interval_secs),
    {
        if self.tick_interval_secs == 0 {
            1
        } else {
            self.tick_interval_secs
        }
    }

    /// The milliseconds of silence after which a peer is suspect.
    pub fn suspect_timeout(self) -> (res: u64)
        ensures
            res == timeout_ms(self.suspect_timeout_secs),
    {
        timeout_millis(self.suspect_timeout_secs)
    }

    /// The milliseconds of silence after which a peer counts as dead.
    pub fn dead_timeout(self) -> (res: u64)
        ensures
            res == timeout_ms(self.dead_timeout_secs),
    {
        timeout_millis(self.dead_timeout_secs)
    }

    /// The milliseconds of silence after which a leader may be replaced.
    pub fn leader_lease_timeout(self) -> (res: u64)
        ensures
            res == timeout_ms(self.leader_lease_secs),
    {
        timeout_millis(self.leader_lease_secs)
    }
}

/// What became of a proposal.
#[derive(Debug, Clone, Copy, PartialEq, Eq, Structural)]
pub enum ProposeOutcome {
    Committed { index: u64, term: u64 },
    Pending { required: usize, acknowledged: usize },
}

/// The control log as it is saved for recovery.
#[derive(Debug, PartialEq, Eq)]
pub struct ControlLogRecoverySnapshot {
    pub current_term: u64,
    pub commit_index: u64,
    pub snapshot_last_index: u64,
    pub snapshot_last_term: u64,
    pub entries: Vec<InternalControlLogEntry>,
}

/// What a saved control log holds.
pub struct LogView {
    pub current_term: u64,
    pub commit_index: u64,
    pub snapshot_last_index: u64,
    pub snapshot_last_term: u64,
    pub entries: Seq<EntryView>,
}

impl View for ControlLogRecoverySnapshot {
    type V = LogView;

    open spec fn view(&self) -> LogView {
        LogView {
            current_term: self.current_term,
            commit_index: self.commit_index,
            snapshot_last_index: self.snapshot_last_index,
            snapshot_last_term: self.snapshot_last_term,
            entries: views(self.entries@),
        }
    }
}

/// The control log as it stands in its file.
#[derive(Debug, PartialEq, Eq)]
pub struct ControlLogFileV1 {
    pub magic: String,
    pub schema_version: u16,
    pub log: ControlLogRecoverySnapshot,
}

/// What a [`ControlLogFileV1`] holds.
pub struct LogFileView {
    pub magic: Seq<char>,
    pub schema_version: u16,
    pub log: LogView,
}

impl View for ControlLogFileV1 {
    type V = LogFileView;

    open spec fn view(&self) -> LogFileView {
        LogFileView {
            magic: self.magic@,
            schema_version: self.schema_version,
            log: self.log@,
        }
    }
}

/// A copy of some log entries.
pub(crate) fn clone_entries(entries: &Vec<InternalControlLogEntry>) -> (res: Vec<
    InternalControlLogEntry,
>)
    ensures
        res@ == entries@,
{
    let mut out: Vec<InternalControlLogEntry> = Vec::new();
    let mut i: usize = 0;
    while i < entries.len()
        invariant
            i <= entries.len(),
            out@ == entries@.take(i as int),
        decreases entries.len() - i,
    {
        out.push(entries[i].clone());
        i += 1;
    }
    out
}

/// How a peer answers.
#[derive(Debug, Clone, Copy, PartialEq, Eq, Structural)]
pub enum ControlPeerLivenessStatus {
    Unknown,
    Healthy,
    Suspect,
    Dead,
}

/// The name of a liveness status.
pub open spec fn liveness_name(status: ControlPeerLivenessStatus) -> Seq<char> {
    match status {
        ControlPeerLivenessStatus::Unknown => "unknown"@,
        ControlPeerLivenessStatus::Healthy => "healthy"@,
        ControlPeerLivenessStatus::Suspect => "suspect"@,
        ControlPeerLivenessStatus::Dead => "dead"@,
    }
}

impl ControlPeerLivenessStatus {
    pub fn as_str(self) -> (res: &'static str)
        ensures
            res@ == liveness_name(self),
    {
        match self {
            ControlPeerLivenessStatus::Unknown => "unknown",
            ControlPeerLivenessStatus::Healthy => "healthy",
            ControlPeerLivenessStatus::Suspect => "suspect",
            ControlPeerLivenessStatus::Dead => "dead",
        }
    }
}

/// When a peer last answered and last failed to.
#[derive(Debug, Clone, Copy, PartialEq, Eq, Structural)]
pub struct PeerHeartbeatState {
    pub last_success_unix_ms: Option<u64>,
    pub last_failure_unix_ms: Option<u64>,
    pub consecutive_failures: u64,
}

/// The state of a peer that was never called.
pub open spec fn no_heartbeat() -> PeerHeartbeatState {
    PeerHeartbeatState {
        last_success_unix_ms: None,
        last_failure_unix_ms: None,
        consecutive_failures: 0,
    }
}

impl Default for PeerHeartbeatState {
    fn default() -> (res: Self)
        ensures
            res == no_heartbeat(),
    {
        PeerHeartbeatState {
            last_success_unix_ms: None,
            last_failure_unix_ms: None,
            consecutive_failures: 0,
        }
    }
}

/// `a - b`, or zero where `b` is larger.
pub open spec fn since(a: u64, b: u64) -> u64 {
    if a < b {
        0
    } else {
        (a - b) as u64
    }
}

/// How a peer answers at `now_ms`: dead after a long silence, suspect after a shorter one or a
/// failure, unknown before any call.
pub open spec fn liveness_at(
    config: ControlConsensusConfig,
    heartbeat: PeerHeartbeatState,
    now_ms: u64,
) -> ControlPeerLivenessStatus {
    let dead = timeout_ms(config.dead_timeout_secs);
    let suspect = timeout_ms(config.suspect_timeout_secs);
    match heartbeat.last_success_unix_ms {
        Some(success) => if since(now_ms, success) >= dead {
            ControlPeerLivenessStatus::Dead
        } else if since(now_ms, success) >= suspect || heartbeat.consecutive_failures > 0 {
            ControlPeerLivenessStatus::Suspect
        } else {
            ControlPeerLivenessStatus::Healthy
        },
        None => match heartbeat.last_failure_unix_ms {
            None => ControlPeerLivenessStatus::Unknown,
            Some(failure) => if since(now_ms, failure) >= dead {
                ControlPeerLivenessStatus::Dead
            } else {
                ControlPeerLivenessStatus::Suspect
            },
        },
    }
}

/// How a peer answers.
#[derive(Debug, PartialEq, Eq)]
pub struct ControlPeerLivenessSnapshot {
    pub node_id: String,
    pub status: ControlPeerLivenessStatus,
    pub last_success_unix_ms: Option<u64>,
    pub last_failure_unix_ms: Option<u64>,
    pub consecutive_failures: u64,
}

/// What a [`ControlPeerLivenessSnapshot`] holds.
pub struct PeerLivenessView {
    pub node_id: Seq<char>,
    pub status: ControlPeerLivenessStatus,
    pub last_success_unix_ms: Option<u64>,
    pub last_failure_unix_ms: Option<u64>,
    pub consecutive_failures: u64,
}

impl View for ControlPeerLivenessSnapshot {
    type V = PeerLivenessView;

    open spec fn view(&self) -> PeerLivenessView {
        PeerLivenessView {
            node_id: self.node_id@,
            status: self.status,
            last_success_unix_ms: self.last_success_unix_ms,
            last_failure_unix_ms: self.last_failure_unix_ms,
            consecutive_failures: self.consecutive_failures,
        }
    }
}

/// How this node sees the cluster.
#[derive(Debug, PartialEq, Eq)]
pub struct ControlLivenessSnapshot {
    pub local_node_id: String,
    pub current_term: u64,
    pub commit_index: u64,
    pub leader_node_id: Option<String>,
    pub leader_last_contact_unix_ms: Option<u64>,
    pub leader_contact_age_ms: Option<u64>,
    pub leader_stale: bool,
    pub suspect_peers: usize,
    pub dead_peers: usize,
    pub peers: Vec<ControlPeerLivenessSnapshot>,
}

impl ControlLivenessSnapshot {
    /// What a node sees that knows nothing of the cluster.
    pub fn empty(local_node_id: String) -> (res: Self)
        ensures
            res.local_node_id == local_node_id,
            res.current_term == 0,
            res.commit_index == 0,
            res.leader_node_id is None,
            res.leader_last_contact_unix_ms is None,
            res.leader_contact_age_ms is None,
            !res.leader_stale,
            res.suspect_peers == 0,
            res.dead_peers == 0,
            res.peers@.len() == 0,
    {
        ControlLivenessSnapshot {
            local_node_id,
            current_term: 0,
            commit_index: 0,
            leader_node_id: None,
            leader_last_contact_unix_ms: None,
            leader_contact_age_ms: None,
            leader_stale: false,
            suspect_peers: 0,
            dead_peers: 0,
            peers: Vec::new(),
        }
    }
}

/// A node that replicates the control log. `unsaved_state` and `unsaved_log` say what has to be
/// written before an answer is given; `compaction_due` says that the control state has to be written
/// because entries were applied, so that the log may be cut off once it is.
#[derive(Debug)]
pub struct ControlConsensusRuntime {
    pub(crate) local_node_id: String,
    pub(crate) log_path: String,
    pub(crate) config: ControlConsensusConfig,
    pub(crate) current_term: u64,
    pub(crate) commit_index: u64,
    pub(crate) snapshot_last_index: u64,
    pub(crate) snapshot_last_term: u64,
    pub(crate) last_leader_contact_unix_ms: u64,
    pub(crate) entries: Vec<InternalControlLogEntry>,
    pub(crate) control_state: ControlState,
    pub(crate) peer_next_index: TextMap<u64>,
    pub(crate) peer_heartbeat: TextMap<PeerHeartbeatState>,
    pub(crate) unsaved_state: bool,
    pub(crate) unsaved_log: bool,
    pub(crate) compaction_due: bool,
}

/// What a [`ControlConsensusRuntime`] holds.
pub struct ConsensusView {
    pub local_node_id: Seq<char>,
    pub log_path: Seq<char>,
    pub config: ControlConsensusConfig,
    pub current_term: u64,
    pub commit_index: u64,
    pub snapshot_last_index: u64,
    pub snapshot_last_term: u64,
    pub last_leader_contact_unix_ms: u64,
    pub entries: Seq<EntryView>,
    pub control: ControlView,
    pub peer_next_index: Map<Seq<char>, u64>,
    pub peer_heartbeat: Map<Seq<char>, PeerHeartbeatState>,
    pub unsaved_state: bool,
    pub unsaved_log: bool,
    pub compaction_due: bool,
}

impl View for ControlConsensusRuntime {
    type V = ConsensusView;

    open(crate) spec fn view(&self) -> ConsensusView {
        ConsensusView {
            local_node_id: self.local_node_id@,
            log_path: self.log_path@,
            config: self.config,
            current_term: self.current_term,
            commit_index: self.commit_index,
            snapshot_last_index: self.snapshot_last_index,
            snapshot_last_term: self.snapshot_last_term,
            last_leader_contact_unix_ms: self.last_leader_contact_unix_ms,
            entries: views(self.entries@),
            control: self.control_state@,
            peer_next_index: self.peer_next_index@,
            peer_heartbeat: self.peer_heartbeat@,
            unsaved_state: self.unsaved_state,
            unsaved_log: self.unsaved_log,
            compaction_due: self.compaction_due,
        }
    }
}

} // verus!
