//! The messages that nodes of a cluster exchange.

use vstd::prelude::*;
use crate::control::{ControlState, ControlView, ShardHandoffPhase};
use crate::lists::{views, Copied};
use crate::text::{clone_opt, opt_text, same, same_opt};

verus! {

pub const INTERNAL_RPC_PROTOCOL_VERSION: &'static str = "1";

pub const INTERNAL_RPC_VERSION_HEADER: &'static str = "x-tsink-rpc-version";

pub const INTERNAL_RPC_AUTH_HEADER: &'static str = "x-tsink-internal-auth";

pub const INTERNAL_RPC_NODE_ID_HEADER: &'static str = "x-tsink-node-id";

pub const INTERNAL_RPC_VERIFIED_NODE_ID_HEADER: &'static str = "x-tsink-verified-node-id";

pub const INTERNAL_RPC_CAPABILITIES_HEADER: &'static str = "x-tsink-peer-capabilities";

/// The most rows that one request to ingest may carry.
pub const MAX_INTERNAL_INGEST_ROWS: usize = 4_096;

pub const DEFAULT_INTERNAL_RING_VERSION: u64 = 1;

/// The ring version of a request that names none.
pub fn default_internal_ring_version() -> (res: u64)
    ensures
        res == DEFAULT_INTERNAL_RING_VERSION,
{
    DEFAULT_INTERNAL_RING_VERSION
}

/// A label of a series.
#[derive(Debug, PartialEq, Eq)]
pub struct Label {
    pub name: String,
    pub value: String,
}

/// What a [`Label`] holds.
pub struct LabelView {
    pub name: Seq<char>,
    pub value: Seq<char>,
}

impl View for Label {
    type V = LabelView;

    open spec fn view(&self) -> LabelView {
        LabelView { name: self.name@, value: self.value@ }
    }
}

impl Clone for Label {
    fn clone(&self) -> (res: Self)
        ensures
            res == *self,
    {
        Label { name: self.name.clone(), value: self.value.clone() }
    }
}

/// A copy of some labels.
pub(crate) fn clone_labels(labels: &Vec<Label>) -> (res: Vec<Label>)
    ensures
        res@ == labels@,
{
    let mut out: Vec<Label> = Vec::new();
    let mut i: usize = 0;
    while i < labels.len()
        invariant
            i <= labels.len(),
            out@ == labels@.take(i as int),
        decreases labels.len() - i,
    {
        out.push(labels[i].clone());
        i += 1;
    }
    out
}

/// A series of a metric.
#[derive(Debug, PartialEq, Eq)]
pub struct MetricSeries {
    pub name: String,
    pub labels: Vec<Label>,
}

/// What a [`MetricSeries`] holds.
pub struct SeriesView {
    pub name: Seq<char>,
    pub labels: Seq<LabelView>,
}

impl View for MetricSeries {
    type V = SeriesView;

    open spec fn view(&self) -> SeriesView {
        SeriesView { name: self.name@, labels: views(self.labels@) }
    }
}

impl Clone for MetricSeries {
    fn clone(&self) -> (res: Self)
        ensures
            res@ == self@,
            res.name == self.name,
            res.labels@ == self.labels@,
    {
        MetricSeries { name: self.name.clone(), labels: clone_labels(&self.labels) }
    }
}

/// The value of a point: a number, by the bits of its encoding, or a histogram, by the key under
/// which it is kept.
#[derive(Debug, Clone, Copy, PartialEq, Eq, Structural)]
pub enum PointValue {
    Number { bits: u64 },
    Histogram { key: u64 },
}

/// A point of a series.
#[derive(Debug, Clone, Copy, PartialEq, Eq, Structural)]
pub struct DataPoint {
    pub timestamp: i64,
    pub value: PointValue,
}

/// A point together with the series that it belongs to.
#[derive(Debug, PartialEq, Eq)]
pub struct Row {
    pub metric: String,
    pub labels: Vec<Label>,
    pub data_point: DataPoint,
}

/// A row as it is sent between nodes.
#[derive(Debug, PartialEq, Eq)]
pub struct InternalRow {
    pub metric: String,
    pub labels: Vec<Label>,
    pub data_point: DataPoint,
}

/// What an [`InternalRow`] holds.
pub struct RowView {
    pub metric: Seq<char>,
    pub labels: Seq<LabelView>,
    pub data_point: DataPoint,
}

impl View for InternalRow {
    type V = RowView;

    open spec fn view(&self) -> RowView {
        RowView { metric: self.metric@, labels: views(self.labels@), data_point: self.data_point }
    }
}

impl Copied for InternalRow {
    fn copied(&self) -> (res: Self) {
        InternalRow {
            metric: self.metric.clone(),
            labels: clone_labels(&self.labels),
            data_point: self.data_point,
        }
    }
}

impl View for Row {
    type V = RowView;

    open spec fn view(&self) -> RowView {
        RowView { metric: self.metric@, labels: views(self.labels@), data_point: self.data_point }
    }
}

impl InternalRow {
    /// The row as it is sent.
    pub fn from_row(row: &Row) -> (res: Self)
        ensures
            res.metric == row.metric,
            res.labels@ == row.labels@,
            res.data_point == row.data_point,
    {
        InternalRow {
            metric: row.metric.clone(),
            labels: clone_labels(&row.labels),
            data_point: row.data_point,
        }
    }

    /// The row that was sent.
    pub fn into_row(self) -> (res: Row)
        ensures
            res.metric == self.metric,
            res.labels == self.labels,
            res.data_point == self.data_point,
    {
        Row { metric: self.metric, labels: self.labels, data_point: self.data_point }
    }
}

/// The points of a series.
#[derive(Debug, PartialEq, Eq)]
pub struct SeriesPoints {
    pub series: MetricSeries,
    pub points: Vec<DataPoint>,
}

/// What a [`SeriesPoints`] holds.
pub struct SeriesPointsView {
    pub series: SeriesView,
    pub points: Seq<DataPoint>,
}

impl View for SeriesPoints {
    type V = SeriesPointsView;

    open spec fn view(&self) -> SeriesPointsView {
        SeriesPointsView { series: self.series@, points: self.points@ }
    }
}

/// Some of the shards of a ring.
#[derive(Debug, PartialEq, Eq)]
pub struct MetadataShardScope {
    pub shard_count: u32,
    pub shards: Vec<u32>,
}

/// How a matcher tests the value of a label.
#[derive(Debug, Clone, Copy, PartialEq, Eq, Structural)]
pub enum SeriesMatcherOp {
    Equal,
    NotEqual,
    RegexMatch,
    RegexNoMatch,
}

/// A test on a label.
#[derive(Debug, PartialEq, Eq)]
pub struct SeriesMatcher {
    pub name: String,
    pub op: SeriesMatcherOp,
    pub value: String,
}

/// Which series are asked for, and of what time.
#[derive(Debug, PartialEq, Eq)]
pub struct SeriesSelection {
    pub metric: Option<String>,
    pub matchers: Vec<SeriesMatcher>,
    pub start: Option<i64>,
    pub end: Option<i64>,
}

/// Rows to store.
#[derive(Debug, PartialEq, Eq)]
pub struct InternalIngestRowsRequest {
    pub ring_version: u64,
    pub idempotency_key: Option<String>,
    pub required_capabilities: Vec<String>,
    pub rows: Vec<InternalRow>,
}

/// How many rows were stored.
#[derive(Debug, PartialEq, Eq)]
pub struct InternalIngestRowsResponse {
    pub inserted_rows: usize,
}

/// An exemplar to store; its value is given by the bits of its encoding.
#[derive(Debug, PartialEq, Eq)]
pub struct InternalWriteExemplar {
    pub metric: String,
    pub series_labels: Vec<Label>,
    pub exemplar_labels: Vec<Label>,
    pub timestamp: i64,
    pub value_bits: u64,
}

/// What is known of a metric family.
#[derive(Debug, PartialEq, Eq)]
pub struct InternalMetricMetadataUpdate {
    pub metric_family_name: String,
    pub metric_type: i32,
    pub help: String,
    pub unit: String,
}

/// Rows, metadata and exemplars to store.
#[derive(Debug, PartialEq, Eq)]
pub struct InternalIngestWriteRequest {
    pub ring_version: u64,
    pub idempotency_key: Option<String>,
    pub tenant_id: Option<String>,
    pub required_capabilities: Vec<String>,
    pub rows: Vec<InternalRow>,
    pub metadata_updates: Vec<InternalMetricMetadataUpdate>,
    pub exemplars: Vec<InternalWriteExemplar>,
}

/// What became of rows, metadata and exemplars.
#[derive(Debug, PartialEq, Eq)]
pub struct InternalIngestWriteResponse {
    pub inserted_rows: usize,
    pub accepted_metadata_updates: usize,
    pub accepted_exemplars: usize,
    pub dropped_exemplars: usize,
}

/// A request for the points of a series.
#[derive(Debug, PartialEq, Eq)]
pub struct InternalSelectRequest {
    pub ring_version: u64,
    pub metric: String,
    pub labels: Vec<Label>,
    pub start: i64,
    pub end: i64,
}

/// The points of a series.
#[derive(Debug, PartialEq, Eq)]
pub struct InternalSelectResponse {
    pub points: Vec<DataPoint>,
}

/// A request for the points of several series.
#[derive(Debug, PartialEq, Eq)]
pub struct InternalSelectBatchRequest {
    pub ring_version: u64,
    pub selectors: Vec<MetricSeries>,
    pub start: i64,
    pub end: i64,
}

/// The points of several series.
#[derive(Debug, PartialEq, Eq)]
pub struct InternalSelectBatchResponse {
    pub series: Vec<SeriesPoints>,
}

/// A request for the series of a selection.
#[derive(Debug, PartialEq, Eq)]
pub struct InternalSelectSeriesRequest {
    pub ring_version: u64,
    pub shard_scope: Option<MetadataShardScope>,
    pub selection: SeriesSelection,
}

/// The series of a selection.
#[derive(Debug, PartialEq, Eq)]
pub struct InternalSelectSeriesResponse {
    pub series: Vec<MetricSeries>,
}

/// A request for all series of some shards.
#[derive(Debug, PartialEq, Eq)]
pub struct InternalListMetricsRequest {
    pub ring_version: u64,
    pub shard_scope: Option<MetadataShardScope>,
}

impl Default for InternalListMetricsRequest {
    fn default() -> (res: Self)
        ensures
            res.ring_version == DEFAULT_INTERNAL_RING_VERSION,
            res.shard_scope is None,
    {
        InternalListMetricsRequest {
            ring_version: default_internal_ring_version(),
            shard_scope: None,
        }
    }
}

/// All series of some shards.
#[derive(Debug, PartialEq, Eq)]
pub struct InternalListMetricsResponse {
    pub series: Vec<MetricSeries>,
}

/// A request to save the data to a path.
#[derive(Debug, PartialEq, Eq)]
pub struct InternalDataSnapshotRequest {
    pub path: String,
}

/// Where and how the data was saved.
#[derive(Debug, PartialEq, Eq)]
pub struct InternalDataSnapshotResponse {
    pub node_id: String,
    pub path: String,
    pub created_unix_ms: u64,
    pub duration_ms: u64,
    pub size_bytes: u64,
}

/// A request to restore data that was saved.
#[derive(Debug, PartialEq, Eq)]
pub struct InternalDataRestoreRequest {
    pub snapshot_path: String,
    pub data_path: String,
}

/// Where and how data was restored.
#[derive(Debug, PartialEq, Eq)]
pub struct InternalDataRestoreResponse {
    pub node_id: String,
    pub snapshot_path: String,
    pub data_path: String,
    pub restored_unix_ms: u64,
    pub duration_ms: u64,
}

/// A request for the digest of a shard in a window of time.
#[derive(Debug, PartialEq, Eq)]
pub struct InternalDigestWindowRequest {
    pub ring_version: u64,
    pub shard: u32,
    pub window_start: i64,
    pub window_end: i64,
}

/// The digest of a shard in a window of time.
#[derive(Debug, PartialEq, Eq)]
pub struct InternalDigestWindowResponse {
    pub shard: u32,
    pub ring_version: u64,
    pub window_start: i64,
    pub window_end: i64,
    pub series_count: u64,
    pub point_count: u64,
    pub fingerprint: u64,
}

/// A request for the rows of a shard in a window of time.
#[derive(Debug, PartialEq, Eq)]
pub struct InternalRepairBackfillRequest {
    pub ring_version: u64,
    pub shard: u32,
    pub window_start: i64,
    pub window_end: i64,
    pub max_series: Option<usize>,
    pub max_rows: Option<usize>,
    pub row_offset: Option<u64>,
}

/// The rows of a shard in a window of time.
#[derive(Debug, PartialEq, Eq)]
pub struct InternalRepairBackfillResponse {
    pub shard: u32,
    pub ring_version: u64,
    pub window_start: i64,
    pub window_end: i64,
    pub series_scanned: u64,
    pub rows_scanned: u64,
    pub truncated: bool,
    pub next_row_offset: Option<u64>,
    pub rows: Vec<InternalRow>,
}

/// A change of the control state.
#[allow(inconsistent_fields)]
#[derive(Debug, PartialEq, Eq)]
pub enum InternalControlCommand {
    SetLeader { leader_node_id: String },
    JoinNode { node_id: String, endpoint: String },
    LeaveNode { node_id: String },
    RecommissionNode { node_id: String, endpoint: Option<String> },
    ActivateNode { node_id: String },
    RemoveNode { node_id: String },
    BeginShardHandoff {
        shard: u32,
        from_node_id: String,
        to_node_id: String,
        activation_ring_version: u64,
    },
    UpdateShardHandoff {
        shard: u32,
        phase: ShardHandoffPhase,
        copied_rows: Option<u64>,
        pending_rows: Option<u64>,
        last_error: Option<String>,
    },
    CompleteShardHandoff { shard: u32 },
}

/// What an [`InternalControlCommand`] holds.
#[allow(inconsistent_fields)]
pub enum CommandView {
    SetLeader { leader_node_id: Seq<char> },
    JoinNode { node_id: Seq<char>, endpoint: Seq<char> },
    LeaveNode { node_id: Seq<char> },
    RecommissionNode { node_id: Seq<char>, endpoint: Option<Seq<char>> },
    ActivateNode { node_id: Seq<char> },
    RemoveNode { node_id: Seq<char> },
    BeginShardHandoff {
        shard: u32,
        from_node_id: Seq<char>,
        to_node_id: Seq<char>,
        activation_ring_version: u64,
    },
    UpdateShardHandoff {
        shard: u32,
        phase: ShardHandoffPhase,
        copied_rows: Option<u64>,
        pending_rows: Option<u64>,
        last_error: Option<Seq<char>>,
    },
    CompleteShardHandoff { shard: u32 },
}

impl View for InternalControlCommand {
    type V = CommandView;

    open spec fn view(&self) -> CommandView {
        match *self {
            InternalControlCommand::SetLeader { leader_node_id } => CommandView::SetLeader {
                leader_node_id: leader_node_id@,
            },
            InternalControlCommand::JoinNode { node_id, endpoint } => CommandView::JoinNode {
                node_id: node_id@,
                endpoint: endpoint@,
            },
            InternalControlCommand::LeaveNode { node_id } => CommandView::LeaveNode {
                node_id: node_id@,
            },
            InternalControlCommand::RecommissionNode { node_id, endpoint } => {
                CommandView::RecommissionNode { node_id: node_id@, endpoint: opt_text(endpoint) }
            },
            InternalControlCommand::ActivateNode { node_id } => CommandView::ActivateNode {
                node_id: node_id@,
            },
            InternalControlCommand::RemoveNode { node_id } => CommandView::RemoveNode {
                node_id: node_id@,
            },
            InternalControlCommand::BeginShardHandoff {
                shard,
                from_node_id,
                to_node_id,
                activation_ring_version,
            } => CommandView::BeginShardHandoff {
                shard,
                from_node_id: from_node_id@,
                to_node_id: to_node_id@,
                activation_ring_version,
            },
            InternalControlCommand::UpdateShardHandoff {
                shard,
                phase,
                copied_rows,
                pending_rows,
                last_error,
            } => CommandView::UpdateShardHandoff {
                shard,
                phase,
                copied_rows,
                pending_rows,
                last_error: opt_text(last_error),
            },
            InternalControlCommand::CompleteShardHandoff { shard } => {
                CommandView::CompleteShardHandoff { shard }
            },
        }
    }
}

impl Clone for InternalControlCommand {
    fn clone(&self) -> (res: Self)
        ensures
            res == *self,
    {
        match self {
            InternalControlCommand::SetLeader { leader_node_id } => {
                InternalControlCommand::SetLeader { leader_node_id: leader_node_id.clone() }
            },
            InternalControlCommand::JoinNode { node_id, endpoint } => {
                InternalControlCommand::JoinNode {
                    node_id: node_id.clone(),
                    endpoint: endpoint.clone(),
                }
            },
            InternalControlCommand::LeaveNode { node_id } => InternalControlCommand::LeaveNode {
                node_id: node_id.clone(),
            },
            InternalControlCommand::RecommissionNode { node_id, endpoint } => {
                InternalControlCommand::RecommissionNode {
                    node_id: node_id.clone(),
                    endpoint: clone_opt(endpoint),
                }
            },
            InternalControlCommand::ActivateNode { node_id } => {
                InternalControlCommand::ActivateNode { node_id: node_id.clone() }
            },
            InternalControlCommand::RemoveNode { node_id } => InternalControlCommand::RemoveNode {
                node_id: node_id.clone(),
            },
            InternalControlCommand::BeginShardHandoff {
                shard,
                from_node_id,
                to_node_id,
                activation_ring_version,
            } => InternalControlCommand::BeginShardHandoff {
                shard: *shard,
                from_node_id: from_node_id.clone(),
                to_node_id: to_node_id.clone(),
                activation_ring_version: *activation_ring_version,
            },
            InternalControlCommand::UpdateShardHandoff {
                shard,
                phase,
                copied_rows,
                pending_rows,
                last_error,
            } => InternalControlCommand::UpdateShardHandoff {
                shard: *shard,
                phase: *phase,
                copied_rows: *copied_rows,
                pending_rows: *pending_rows,
                last_error: clone_opt(last_error),
            },
            InternalControlCommand::CompleteShardHandoff { shard } => {
                InternalControlCommand::CompleteShardHandoff { shard: *shard }
            },
        }
    }
}

impl InternalControlCommand {
    /// Whether this is the same command as another.
    pub fn is_same(&self, other: &Self) -> (res: bool)
        ensures
            res == (self@ == other@),
    {
        match (self, other) {
            (
                InternalControlCommand::SetLeader { leader_node_id: a },
                InternalControlCommand::SetLeader { leader_node_id: b },
            ) => same(a, b),
            (
                InternalControlCommand::JoinNode { node_id: a, endpoint: x },
                InternalControlCommand::JoinNode { node_id: b, endpoint: y },
            ) => same(a, b) && same(x, y),
            (
                InternalControlCommand::LeaveNode { node_id: a },
                InternalControlCommand::LeaveNode { node_id: b },
            ) => same(a, b),
            (
                InternalControlCommand::RecommissionNode { node_id: a, endpoint: x },
                InternalControlCommand::RecommissionNode { node_id: b, endpoint: y },
            ) => same(a, b) && same_opt(x, y),
            (
                InternalControlCommand::ActivateNode { node_id: a },
                InternalControlCommand::ActivateNode { node_id: b },
            ) => same(a, b),
            (
                InternalControlCommand::RemoveNode { node_id: a },
                InternalControlCommand::RemoveNode { node_id: b },
            ) => same(a, b),
            (
                InternalControlCommand::BeginShardHandoff {
                    shard: a,
                    from_node_id: b,
                    to_node_id: c,
                    activation_ring_version: d,
                },
                InternalControlCommand::BeginShardHandoff {
                    shard: w,
                    from_node_id: x,
                    to_node_id: y,
                    activation_ring_version: z,
                },
            ) => *a == *w && same(b, x) && same(c, y) && *d == *z,
            (
                InternalControlCommand::UpdateShardHandoff {
                    shard: a,
                    phase: b,
                    copied_rows: c,
                    pending_rows: d,
                    last_error: e,
                },
                InternalControlCommand::UpdateShardHandoff {
                    shard: v,
                    phase: w,
                    copied_rows: x,
                    pending_rows: y,
                    last_error: z,
                },
            ) => *a == *v && *b == *w && same_rows(*c, *x) && same_rows(*d, *y) && same_opt(e, z),
            (
                InternalControlCommand::CompleteShardHandoff { shard: a },
                InternalControlCommand::CompleteShardHandoff { shard: b },
            ) => *a == *b,
            _ => false,
        }
    }
}

fn same_rows(a: Option<u64>, b: Option<u64>) -> (res: bool)
    ensures
        res == (a == b),
{
    match (a, b) {
        (Some(x), Some(y)) => x == y,
        (None, None) => true,
        _ => false,
    }
}

/// An entry of the control log.
#[derive(Debug, PartialEq, Eq)]
pub struct InternalControlLogEntry {
    pub index: u64,
    pub term: u64,
    pub command: InternalControlCommand,
    pub created_unix_ms: u64,
}

/// What an [`InternalControlLogEntry`] holds.
pub struct EntryView {
    pub index: u64,
    pub term: u64,
    pub command: CommandView,
    pub created_unix_ms: u64,
}

impl View for InternalControlLogEntry {
    type V = EntryView;

    open spec fn view(&self) -> EntryView {
        EntryView {
            index: self.index,
            term: self.term,
            command: self.command@,
            created_unix_ms: self.created_unix_ms,
        }
    }
}

impl Clone for InternalControlLogEntry {
    fn clone(&self) -> (res: Self)
        ensures
            res == *self,
    {
        InternalControlLogEntry {
            index: self.index,
            term: self.term,
            command: self.command.clone(),
            created_unix_ms: self.created_unix_ms,
        }
    }
}

/// A request of the leader to append entries to the control log.
#[derive(Debug, PartialEq, Eq)]
pub struct InternalControlAppendRequest {
    pub term: u64,
    pub leader_node_id: String,
    pub prev_log_index: u64,
    pub prev_log_term: u64,
    pub entries: Vec<InternalControlLogEntry>,
    pub leader_commit: u64,
}

/// What an [`InternalControlAppendRequest`] holds.
pub struct AppendRequestView {
    pub term: u64,
    pub leader_node_id: Seq<char>,
    pub prev_log_index: u64,
    pub prev_log_term: u64,
    pub entries: Seq<EntryView>,
    pub leader_commit: u64,
}

impl View for InternalControlAppendRequest {
    type V = AppendRequestView;

    open spec fn view(&self) -> AppendRequestView {
        AppendRequestView {
            term: self.term,
            leader_node_id: self.leader_node_id@,
            prev_log_index: self.prev_log_index,
            prev_log_term: self.prev_log_term,
            entries: views(self.entries@),
            leader_commit: self.leader_commit,
        }
    }
}

/// The answer to a request to append entries.
#[derive(Debug, PartialEq, Eq)]
pub struct InternalControlAppendResponse {
    pub term: u64,
    pub success: bool,
    pub match_index: u64,
    pub message: Option<String>,
}

/// What an [`InternalControlAppendResponse`] holds.
pub struct AppendResponseView {
    pub term: u64,
    pub success: bool,
    pub match_index: u64,
    pub message: Option<Seq<char>>,
}

impl View for InternalControlAppendResponse {
    type V = AppendResponseView;

    open spec fn view(&self) -> AppendResponseView {
        AppendResponseView {
            term: self.term,
            success: self.success,
            match_index: self.match_index,
            message: opt_text(self.message),
        }
    }
}

/// A request of the leader to take over its control state.
#[derive(Debug, PartialEq, Eq)]
pub struct InternalControlInstallSnapshotRequest {
    pub term: u64,
    pub leader_node_id: String,
    pub snapshot_last_index: u64,
    pub snapshot_last_term: u64,
    pub state: SnapshotPayload,
}

/// The control state that a request carries, or why it could not be decoded.
#[derive(Debug, PartialEq, Eq)]
pub enum SnapshotPayload {
    Decoded(ControlState),
    Undecodable(String),
}

/// What a [`SnapshotPayload`] holds.
pub enum PayloadView {
    Decoded(ControlView),
    Undecodable(Seq<char>),
}

impl View for SnapshotPayload {
    type V = PayloadView;

    open spec fn view(&self) -> PayloadView {
        match *self {
            SnapshotPayload::Decoded(state) => PayloadView::Decoded(state@),
            SnapshotPayload::Undecodable(detail) => PayloadView::Undecodable(detail@),
        }
    }
}

/// What an [`InternalControlInstallSnapshotRequest`] holds.
pub struct InstallRequestView {
    pub term: u64,
    pub leader_node_id: Seq<char>,
    pub snapshot_last_index: u64,
    pub snapshot_last_term: u64,
    pub state: PayloadView,
}

impl View for InternalControlInstallSnapshotRequest {
    type V = InstallRequestView;

    open spec fn view(&self) -> InstallRequestView {
        InstallRequestView {
            term: self.term,
            leader_node_id: self.leader_node_id@,
            snapshot_last_index: self.snapshot_last_index,
            snapshot_last_term: self.snapshot_last_term,
            state: self.state@,
        }
    }
}

/// The answer to a request to take over a control state.
#[derive(Debug, PartialEq, Eq)]
pub struct InternalControlInstallSnapshotResponse {
    pub term: u64,
    pub success: bool,
    pub last_index: u64,
    pub message: Option<String>,
}

/// What an [`InternalControlInstallSnapshotResponse`] holds.
pub struct InstallResponseView {
    pub term: u64,
    pub success: bool,
    pub last_index: u64,
    pub message: Option<Seq<char>>,
}

impl View for InternalControlInstallSnapshotResponse {
    type V = InstallResponseView;

    open spec fn view(&self) -> InstallResponseView {
        InstallResponseView {
            term: self.term,
            success: self.success,
            last_index: self.last_index,
            message: opt_text(self.message),
        }
    }
}

/// A request of a node to join the cluster.
#[derive(Debug, PartialEq, Eq)]
pub struct InternalControlAutoJoinRequest {
    pub node_id: String,
    pub endpoint: String,
}

/// The answer to a node that asked to join.
#[derive(Debug, PartialEq, Eq)]
pub struct InternalControlAutoJoinResponse {
    pub result: String,
    pub membership_epoch: u64,
    pub node_status: String,
    pub leader_node_id: Option<String>,
}

} // verus!
