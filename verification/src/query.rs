//! Reading across the nodes of a cluster: how many replicas have to answer, how much may be read at
//! a time, and what can go wrong.

use vstd::prelude::*;
use crate::lists::{group_views, views};
use crate::rpc_client::{rpc_message, rpc_retryable, RpcError, RpcErrorView};
use crate::text::{cat2, cat3, cat4, cat6, cat7, decimal, message_view, number, owned};

verus! {

broadcast use group_views;

/// How consistent a read has to be.
#[derive(Debug, Clone, Copy, PartialEq, Eq, Structural)]
pub enum ClusterReadConsistency {
    Eventual,
    Quorum,
    Strict,
}

/// The name of a consistency mode.
pub open spec fn consistency_name(mode: ClusterReadConsistency) -> Seq<char> {
    match mode {
        ClusterReadConsistency::Eventual => "eventual"@,
        ClusterReadConsistency::Quorum => "quorum"@,
        ClusterReadConsistency::Strict => "strict"@,
    }
}

impl ClusterReadConsistency {
    pub fn as_str(self) -> (res: &'static str)
        ensures
            res@ == consistency_name(self),
    {
        match self {
            ClusterReadConsistency::Eventual => "eventual",
            ClusterReadConsistency::Quorum => "quorum",
            ClusterReadConsistency::Strict => "strict",
        }
    }
}

/// Whether a read may answer with less than the replicas hold.
#[derive(Debug, Clone, Copy, PartialEq, Eq, Structural)]
pub enum ClusterReadPartialResponsePolicy {
    Allow,
    Deny,
}

/// Which owners of a shard are asked.
#[derive(Debug, Clone, Copy, PartialEq, Eq, Structural)]
pub enum ReadPlanOwnerMode {
    PrimaryOnly,
    AllReplicas,
}

/// How consistent reads are.
#[derive(Debug, Clone, Copy, PartialEq, Eq, Structural)]
pub struct ReadPolicy {
    mode: ClusterReadConsistency,
}

/// How many replicas out of `replicas` have to answer.
pub open spec fn acks_needed(mode: ClusterReadConsistency, replicas: nat) -> nat {
    let count: nat = if replicas == 0 {
        1
    } else {
        replicas
    };
    match mode {
        ClusterReadConsistency::Eventual => 1,
        ClusterReadConsistency::Quorum => count / 2 + 1,
        ClusterReadConsistency::Strict => count,
    }
}

/// Which owners are asked.
pub open spec fn owner_mode(mode: ClusterReadConsistency) -> ReadPlanOwnerMode {
    match mode {
        ClusterReadConsistency::Eventual => ReadPlanOwnerMode::PrimaryOnly,
        _ => ReadPlanOwnerMode::AllReplicas,
    }
}

impl View for ReadPolicy {
    type V = ClusterReadConsistency;

    closed spec fn view(&self) -> ClusterReadConsistency {
        self.mode
    }
}

impl ReadPolicy {
    pub fn new(mode: ClusterReadConsistency) -> (res: Self)
        ensures
            res@ == mode,
    {
        ReadPolicy { mode }
    }

    pub fn requires_full_consistency(self) -> (res: bool)
        ensures
            res == (self@ == ClusterReadConsistency::Strict),
    {
        matches!(self.mode, ClusterReadConsistency::Strict)
    }

    pub fn mode(self) -> (res: ClusterReadConsistency)
        ensures
            res == self@,
    {
        self.mode
    }

    /// How many replicas out of `replica_count` have to answer.
    pub fn required_acks(self, replica_count: usize) -> (res: usize)
        ensures
            res == acks_needed(self@, replica_count as nat),
    {
        let replicas: usize = if replica_count == 0 {
            1
        } else {
            replica_count
        };
        match self.mode {
            ClusterReadConsistency::Eventual => 1,
            ClusterReadConsistency::Quorum => replicas / 2 + 1,
            ClusterReadConsistency::Strict => replicas,
        }
    }

    /// Which owners are asked for metadata.
    pub fn metadata_owner_mode(self) -> (res: ReadPlanOwnerMode)
        ensures
            res == owner_mode(self@),
    {
        match self.mode {
            ClusterReadConsistency::Eventual => ReadPlanOwnerMode::PrimaryOnly,
            ClusterReadConsistency::Quorum => ReadPlanOwnerMode::AllReplicas,
            ClusterReadConsistency::Strict => ReadPlanOwnerMode::AllReplicas,
        }
    }

    /// Which owners are asked for points.
    pub fn points_owner_mode(self) -> (res: ReadPlanOwnerMode)
        ensures
            res == owner_mode(self@),
    {
        self.metadata_owner_mode()
    }
}

/// How a read came about: how consistent it is, and what is missing.
#[derive(Debug, PartialEq, Eq)]
pub struct ReadFanoutResponseMetadata {
    pub consistency: ClusterReadConsistency,
    pub partial_response_policy: ClusterReadPartialResponsePolicy,
    pub partial_response: bool,
    pub warnings: Vec<String>,
}

/// What a [`ReadFanoutResponseMetadata`] holds.
pub struct MetadataView {
    pub consistency: ClusterReadConsistency,
    pub partial_response_policy: ClusterReadPartialResponsePolicy,
    pub partial_response: bool,
    pub warnings: Seq<Seq<char>>,
}

impl View for ReadFanoutResponseMetadata {
    type V = MetadataView;

    open spec fn view(&self) -> MetadataView {
        MetadataView {
            consistency: self.consistency,
            partial_response_policy: self.partial_response_policy,
            partial_response: self.partial_response,
            warnings: views(self.warnings@),
        }
    }
}

/// The metadata of a read that lacks nothing.
pub open spec fn full_read(
    consistency: ClusterReadConsistency,
    partial_response_policy: ClusterReadPartialResponsePolicy,
) -> MetadataView {
    MetadataView {
        consistency,
        partial_response_policy,
        partial_response: false,
        warnings: Seq::empty(),
    }
}

impl ReadFanoutResponseMetadata {
    /// The metadata of a read that lacks nothing.
    pub fn success(
        consistency: ClusterReadConsistency,
        partial_response_policy: ClusterReadPartialResponsePolicy,
    ) -> (res: Self)
        ensures
            res@ == full_read(consistency, partial_response_policy),
    {
        let warnings: Vec<String> = Vec::new();
        assert(views(warnings@) =~= Seq::<Seq<char>>::empty());
        ReadFanoutResponseMetadata {
            consistency,
            partial_response_policy,
            partial_response: false,
            warnings,
        }
    }
}

/// What was read, and how that came about.
#[derive(Debug)]
pub struct ReadFanoutResponse<T> {
    pub value: T,
    pub metadata: ReadFanoutResponseMetadata,
}

pub const DEFAULT_READ_MAX_INFLIGHT_QUERIES: usize = 64;

pub const DEFAULT_READ_MAX_INFLIGHT_MERGED_POINTS: usize = 20_000_000;

pub const DEFAULT_READ_RESOURCE_ACQUIRE_TIMEOUT_MS: u64 = 25;

/// How much may be read at a time, and how long a read waits for its turn.
#[derive(Debug, Clone, Copy, PartialEq, Eq, Structural)]
pub struct ReadResourceGuardrails {
    pub max_inflight_queries: usize,
    pub max_inflight_merged_points: usize,
    pub acquire_timeout_ms: u64,
}

/// What is wrong with some guardrails, if anything is.
pub open spec fn guardrails_error(guardrails: ReadResourceGuardrails) -> Option<Seq<char>> {
    if guardrails.max_inflight_queries == 0 {
        Some("read max in-flight queries must be greater than zero"@)
    } else if guardrails.max_inflight_merged_points == 0 {
        Some("read max in-flight merged points must be greater than zero"@)
    } else if guardrails.max_inflight_merged_points > u32::MAX {
        Some(
            "read max in-flight merged points must be <= 4294967295, got "@ + decimal(
                guardrails.max_inflight_merged_points as nat,
            ),
        )
    } else {
        None
    }
}

/// The outcome of a check that may find a mistake.
pub open spec fn checked(error: Option<Seq<char>>) -> Result<(), Seq<char>> {
    match error {
        Some(message) => Err(message),
        None => Ok(()),
    }
}

impl ReadResourceGuardrails {
    pub fn validate(self) -> (res: Result<(), String>)
        ensures
            message_view(res) == checked(guardrails_error(self)),
    {
        if self.max_inflight_queries == 0 {
            return Err(owned("read max in-flight queries must be greater than zero"));
        }
        if self.max_inflight_merged_points == 0 {
            return Err(owned("read max in-flight merged points must be greater than zero"));
        }
        if self.max_inflight_merged_points as u64 > u32::MAX as u64 {
            return Err(
                cat2(
                    "read max in-flight merged points must be <= 4294967295, got ",
                    number(self.max_inflight_merged_points as u64).as_str(),
                ),
            );
        }
        Ok(())
    }
}

impl Default for ReadResourceGuardrails {
    fn default() -> (res: Self)
        ensures
            res == (ReadResourceGuardrails {
                max_inflight_queries: DEFAULT_READ_MAX_INFLIGHT_QUERIES,
                max_inflight_merged_points: DEFAULT_READ_MAX_INFLIGHT_MERGED_POINTS,
                acquire_timeout_ms: DEFAULT_READ_RESOURCE_ACQUIRE_TIMEOUT_MS,
            }),
    {
        ReadResourceGuardrails {
            max_inflight_queries: DEFAULT_READ_MAX_INFLIGHT_QUERIES,
            max_inflight_merged_points: DEFAULT_READ_MAX_INFLIGHT_MERGED_POINTS,
            acquire_timeout_ms: DEFAULT_READ_RESOURCE_ACQUIRE_TIMEOUT_MS,
        }
    }
}

/// How much a read may merge.
#[derive(Debug, Clone, Copy, PartialEq, Eq, Structural)]
pub struct ReadMergeLimits {
    pub max_series: usize,
    pub max_points_per_series: usize,
    pub max_total_points: usize,
}

/// Why a read across the nodes failed.
#[derive(Debug)]
pub enum ReadFanoutError {
    InvalidRequest { message: String },
    MissingShardOwners { shard: u32 },
    MissingOwnerEndpoint { node_id: String },
    LocalSelectSeries { message: String },
    LocalListMetrics { message: String },
    LocalSelectBatch { series_count: usize, message: String },
    RemoteSelectSeries { node_id: String, endpoint: String, source: RpcError },
    RemoteListMetrics { node_id: String, endpoint: String, source: RpcError },
    RemoteSelectBatch { node_id: String, endpoint: String, series_count: usize, source: RpcError },
    MergeLimitExceeded { message: String },
    ResourceLimitExceeded {
        resource: &'static str,
        requested: usize,
        limit: usize,
        retryable: bool,
    },
    ConsistencyUnmet {
        operation: String,
        mode: ClusterReadConsistency,
        target: String,
        required_acks: usize,
        acknowledged_acks: usize,
        total_replicas: usize,
    },
    TaskJoin { message: String },
}

/// What a [`ReadFanoutError`] holds.
pub enum FanoutErrorView {
    InvalidRequest { message: Seq<char> },
    MissingShardOwners { shard: u32 },
    MissingOwnerEndpoint { node_id: Seq<char> },
    LocalSelectSeries { message: Seq<char> },
    LocalListMetrics { message: Seq<char> },
    LocalSelectBatch { series_count: usize, message: Seq<char> },
    RemoteSelectSeries { node_id: Seq<char>, endpoint: Seq<char>, source: RpcErrorView },
    RemoteListMetrics { node_id: Seq<char>, endpoint: Seq<char>, source: RpcErrorView },
    RemoteSelectBatch {
        node_id: Seq<char>,
        endpoint: Seq<char>,
        series_count: usize,
        source: RpcErrorView,
    },
    MergeLimitExceeded { message: Seq<char> },
    ResourceLimitExceeded {
        resource: Seq<char>,
        requested: usize,
        limit: usize,
        retryable: bool,
    },
    ConsistencyUnmet {
        operation: Seq<char>,
        mode: ClusterReadConsistency,
        target: Seq<char>,
        required_acks: usize,
        acknowledged_acks: usize,
        total_replicas: usize,
    },
    TaskJoin { message: Seq<char> },
}

impl View for ReadFanoutError {
    type V = FanoutErrorView;

    open spec fn view(&self) -> FanoutErrorView {
        match *self {
            ReadFanoutError::InvalidRequest { message } => FanoutErrorView::InvalidRequest {
                message: message@,
            },
            ReadFanoutError::MissingShardOwners { shard } => FanoutErrorView::MissingShardOwners {
                shard,
            },
            ReadFanoutError::MissingOwnerEndpoint { node_id } => {
                FanoutErrorView::MissingOwnerEndpoint { node_id: node_id@ }
            },
            ReadFanoutError::LocalSelectSeries { message } => FanoutErrorView::LocalSelectSeries {
                message: message@,
            },
            ReadFanoutError::LocalListMetrics { message } => FanoutErrorView::LocalListMetrics {
                message: message@,
            },
            ReadFanoutError::LocalSelectBatch { series_count, message } => {
                FanoutErrorView::LocalSelectBatch { series_count, message: message@ }
            },
            ReadFanoutError::RemoteSelectSeries { node_id, endpoint, source } => {
                FanoutErrorView::RemoteSelectSeries {
                    node_id: node_id@,
                    endpoint: endpoint@,
                    source: source@,
                }
            },
            ReadFanoutError::RemoteListMetrics { node_id, endpoint, source } => {
                FanoutErrorView::RemoteListMetrics {
                    node_id: node_id@,
                    endpoint: endpoint@,
                    source: source@,
                }
            },
            ReadFanoutError::RemoteSelectBatch { node_id, endpoint, series_count, source } => {
                FanoutErrorView::RemoteSelectBatch {
                    node_id: node_id@,
                    endpoint: endpoint@,
                    series_count,
                    source: source@,
                }
            },
            ReadFanoutError::MergeLimitExceeded { message } => {
                FanoutErrorView::MergeLimitExceeded { message: message@ }
            },
            ReadFanoutError::ResourceLimitExceeded { resource, requested, limit, retryable } => {
                FanoutErrorView::ResourceLimitExceeded {
                    resource: resource@,
                    requested,
                    limit,
                    retryable,
                }
            },
            ReadFanoutError::ConsistencyUnmet {
                operation,
                mode,
                target,
                required_acks,
                acknowledged_acks,
                total_replicas,
            } => FanoutErrorView::ConsistencyUnmet {
                operation: operation@,
                mode,
                target: target@,
                required_acks,
                acknowledged_acks,
                total_replicas,
            },
            ReadFanoutError::TaskJoin { message } => FanoutErrorView::TaskJoin {
                message: message@,
            },
        }
    }
}

/// Whether trying again may help.
pub open spec fn fanout_retryable(error: FanoutErrorView) -> bool {
    match error {
        FanoutErrorView::InvalidRequest { .. } => false,
        FanoutErrorView::MissingShardOwners { .. } => false,
        FanoutErrorView::MissingOwnerEndpoint { .. } => false,
        FanoutErrorView::MergeLimitExceeded { .. } => false,
        FanoutErrorView::ResourceLimitExceeded { retryable, .. } => retryable,
        FanoutErrorView::RemoteSelectSeries { source, .. } => rpc_retryable(source),
        FanoutErrorView::RemoteListMetrics { source, .. } => rpc_retryable(source),
        FanoutErrorView::RemoteSelectBatch { source, .. } => rpc_retryable(source),
        _ => true,
    }
}

/// The counts of answers that a message gives.
pub open spec fn acks_text(required: usize, acknowledged: usize, total: usize) -> Seq<char> {
    ", required_acks="@ + decimal(required as nat) + ", acknowledged_acks="@ + decimal(
        acknowledged as nat,
    ) + ", total_replicas="@ + decimal(total as nat)
}

/// An error in words.
pub open spec fn fanout_message(error: FanoutErrorView) -> Seq<char> {
    match error {
        FanoutErrorView::InvalidRequest { message } => message,
        FanoutErrorView::MissingShardOwners { shard } => "read fanout failed: shard "@ + decimal(
            shard as nat,
        ) + " has no owner"@,
        FanoutErrorView::MissingOwnerEndpoint { node_id } => "read fanout failed: owner node '"@
            + node_id + "' has no known endpoint"@,
        FanoutErrorView::LocalSelectSeries { message } => "local select_series failed: "@ + message,
        FanoutErrorView::LocalListMetrics { message } => "local list_metrics failed: "@ + message,
        FanoutErrorView::LocalSelectBatch { series_count, message } => {
            "local select_batch failed for "@ + decimal(series_count as nat) + " series: "@
                + message
        },
        FanoutErrorView::RemoteSelectSeries { node_id, endpoint, source } => {
            "remote select_series failed for node '"@ + node_id + "' ("@ + endpoint + "): "@
                + rpc_message(source)
        },
        FanoutErrorView::RemoteListMetrics { node_id, endpoint, source } => {
            "remote list_metrics failed for node '"@ + node_id + "' ("@ + endpoint + "): "@
                + rpc_message(source)
        },
        FanoutErrorView::RemoteSelectBatch { node_id, endpoint, series_count, source } => {
            "remote select_batch failed for "@ + decimal(series_count as nat)
                + " series on node '"@ + node_id + "' ("@ + endpoint + "): "@ + rpc_message(source)
        },
        FanoutErrorView::MergeLimitExceeded { message } => message,
        FanoutErrorView::ResourceLimitExceeded { resource, requested, limit, retryable } => {
            if retryable {
                "read fanout saturated: "@ + resource + " limit "@ + decimal(limit as nat)
                    + " reached (requested "@ + decimal(requested as nat) + "), retry later"@
            } else {
                "read fanout request exceeds configured "@ + resource + " limit: requested "@
                    + decimal(requested as nat) + ", max "@ + decimal(limit as nat)
            }
        },
        FanoutErrorView::ConsistencyUnmet {
            operation,
            mode,
            target,
            required_acks,
            acknowledged_acks,
            total_replicas,
        } => "read consistency unmet for "@ + operation + " on "@ + target + ": mode="@
            + consistency_name(mode) + acks_text(required_acks, acknowledged_acks, total_replicas),
        FanoutErrorView::TaskJoin { message } => "read fanout task failed: "@ + message,
    }
}

/// The counts of answers in words.
pub(crate) fn acks_words(required: usize, acknowledged: usize, total: usize) -> (res: String)
    ensures
        res@ == acks_text(required, acknowledged, total),
{
    let head = cat4(
        ", required_acks=",
        number(required as u64).as_str(),
        ", acknowledged_acks=",
        number(acknowledged as u64).as_str(),
    );
    cat3(&head, ", total_replicas=", number(total as u64).as_str())
}

impl ReadFanoutError {
    /// Whether trying again may help.
    pub fn retryable(&self) -> (res: bool)
        ensures
            res == fanout_retryable(self@),
    {
        match self {
            ReadFanoutError::InvalidRequest { .. } => false,
            ReadFanoutError::MissingShardOwners { .. } => false,
            ReadFanoutError::MissingOwnerEndpoint { .. } => false,
            ReadFanoutError::MergeLimitExceeded { .. } => false,
            ReadFanoutError::ResourceLimitExceeded { retryable, .. } => *retryable,
            ReadFanoutError::TaskJoin { .. } => true,
            ReadFanoutError::ConsistencyUnmet { .. } => true,
            ReadFanoutError::LocalSelectSeries { .. } => true,
            ReadFanoutError::LocalListMetrics { .. } => true,
            ReadFanoutError::LocalSelectBatch { .. } => true,
            ReadFanoutError::RemoteSelectSeries { source, .. } => source.retryable(),
            ReadFanoutError::RemoteListMetrics { source, .. } => source.retryable(),
            ReadFanoutError::RemoteSelectBatch { source, .. } => source.retryable(),
        }
    }

    /// The error in words.
    pub fn message(&self) -> (res: String)
        ensures
            res@ == fanout_message(self@),
    {
        match self {
            ReadFanoutError::InvalidRequest { message } => message.clone(),
            ReadFanoutError::MissingShardOwners { shard } => cat3(
                "read fanout failed: shard ",
                number(*shard as u64).as_str(),
                " has no owner",
            ),
            ReadFanoutError::MissingOwnerEndpoint { node_id } => cat3(
                "read fanout failed: owner node '",
                node_id,
                "' has no known endpoint",
            ),
            ReadFanoutError::LocalSelectSeries { message } => cat2(
                "local select_series failed: ",
                message,
            ),
            ReadFanoutError::LocalListMetrics { message } => cat2(
                "local list_metrics failed: ",
                message,
            ),
            ReadFanoutError::LocalSelectBatch { series_count, message } => cat4(
                "local select_batch failed for ",
                number(*series_count as u64).as_str(),
                " series: ",
                message,
            ),
            ReadFanoutError::RemoteSelectSeries { node_id, endpoint, source } => cat6(
                "remote select_series failed for node '",
                node_id,
                "' (",
                endpoint,
                "): ",
                source.message().as_str(),
            ),
            ReadFanoutError::RemoteListMetrics { node_id, endpoint, source } => cat6(
                "remote list_metrics failed for node '",
                node_id,
                "' (",
                endpoint,
                "): ",
                source.message().as_str(),
            ),
            ReadFanoutError::RemoteSelectBatch { node_id, endpoint, series_count, source } => {
                let head = cat3(
                    "remote select_batch failed for ",
                    number(*series_count as u64).as_str(),
                    " series on node '",
                );
                cat6(
                    &head,
                    node_id,
                    "' (",
                    endpoint,
                    "): ",
                    source.message().as_str(),
                )
            },
            ReadFanoutError::MergeLimitExceeded { message } => message.clone(),
            ReadFanoutError::ResourceLimitExceeded { resource, requested, limit, retryable } => {
                if *retryable {
                    cat7(
                        "read fanout saturated: ",
                        resource,
                        " limit ",
                        number(*limit as u64).as_str(),
                        " reached (requested ",
                        number(*requested as u64).as_str(),
                        "), retry later",
                    )
                } else {
                    cat6(
                        "read fanout request exceeds configured ",
                        resource,
                        " limit: requested ",
                        number(*requested as u64).as_str(),
                        ", max ",
                        number(*limit as u64).as_str(),
                    )
                }
            },
            ReadFanoutError::ConsistencyUnmet {
                operation,
                mode,
                target,
                required_acks,
                acknowledged_acks,
                total_replicas,
            } => {
                let head = cat6(
                    "read consistency unmet for ",
                    operation,
                    " on ",
                    target,
                    ": mode=",
                    mode.as_str(),
                );
                cat2(&head, &acks_words(*required_acks, *acknowledged_acks, *total_replicas))
            },
            ReadFanoutError::TaskJoin { message } => cat2("read fanout task failed: ", message),
        }
    }
}

} // verus!
