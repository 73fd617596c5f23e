//! Reads across the nodes: who is asked for what, and what the answers amount to.

use std::collections::BTreeMap;
use vstd::prelude::*;
use crate::hotspot::shard_of;
use crate::lists::{
    group_views, ranked_sort, sort_ranked, views, Ranked,
};
use crate::query::{
    acks_needed, acks_text, acks_words, consistency_name, full_read, guardrails_error,
    ClusterReadConsistency, ClusterReadPartialResponsePolicy, FanoutErrorView,
    MetadataView, ReadFanoutError, ReadFanoutResponseMetadata, ReadMergeLimits, ReadPlanOwnerMode,
    ReadPolicy, ReadResourceGuardrails,
};
use crate::query_metrics::{
    lease_tracked, rejection_tracked, FanoutMetricsView, ReadFanoutMetrics,
};
use crate::ring::{RingView, ShardRing};
use crate::shard_map::{shard_order, shards_in_order};
use crate::text::{
    cat2, cat6, clone_texts, decimal, less, message_view, number, owned, text_less,
};

verus! {

broadcast use group_views;

pub const FANOUT_OPERATION_SELECT_SERIES: &'static str = "select_series";

pub const FANOUT_OPERATION_LIST_METRICS: &'static str = "list_metrics";

pub const FANOUT_OPERATION_SELECT_POINTS: &'static str = "select_points";

pub const FANOUT_REMOTE_OPERATION_SELECT_BATCH: &'static str = "select_batch";

pub const FANOUT_REMOTE_OPERATION_SELECT_LEGACY: &'static str = "select_legacy";

/// How many series are asked for at a time.
pub const REMOTE_SELECT_BATCH_SIZE: usize = 128;

pub const READ_RESOURCE_GLOBAL_QUERY_SLOTS: &'static str = "global_inflight_queries";

pub const READ_RESOURCE_GLOBAL_MERGED_POINTS: &'static str = "global_inflight_merged_points";

/// Decides who is asked for what, and what the answers amount to.
#[derive(Debug)]
pub struct ReadFanoutExecutor {
    pub(crate) local_node_id: String,
    pub(crate) ring: ShardRing,
    pub(crate) fanout_concurrency: usize,
    pub(crate) policy: ReadPolicy,
    pub(crate) partial_response_policy: ClusterReadPartialResponsePolicy,
    pub(crate) merge_limits: ReadMergeLimits,
    pub(crate) guardrails: ReadResourceGuardrails,
}

/// What a [`ReadFanoutExecutor`] holds.
pub struct ExecutorView {
    pub local_node_id: Seq<char>,
    pub ring: RingView,
    pub fanout_concurrency: usize,
    pub mode: ClusterReadConsistency,
    pub partial_response_policy: ClusterReadPartialResponsePolicy,
    pub merge_limits: ReadMergeLimits,
    pub guardrails: ReadResourceGuardrails,
}

impl View for ReadFanoutExecutor {
    type V = ExecutorView;

    open(crate) spec fn view(&self) -> ExecutorView {
        ExecutorView {
            local_node_id: self.local_node_id@,
            ring: self.ring@,
            fanout_concurrency: self.fanout_concurrency,
            mode: self.policy@,
            partial_response_policy: self.partial_response_policy,
            merge_limits: self.merge_limits,
            guardrails: self.guardrails,
        }
    }
}

/// How many replicas have to answer, out of how many.
#[derive(Debug, Clone, Copy, PartialEq, Eq, Structural)]
pub struct ReadRequirement {
    pub required_acks: usize,
    pub total_replicas: usize,
}

/// A shard or a series for which too few replicas answered.
#[derive(Debug, PartialEq, Eq)]
pub struct ReadConsistencyGap {
    pub operation: String,
    pub target: String,
    pub required_acks: usize,
    pub acknowledged_acks: usize,
    pub total_replicas: usize,
}

/// What a [`ReadConsistencyGap`] holds.
pub struct GapView {
    pub operation: Seq<char>,
    pub target: Seq<char>,
    pub required_acks: usize,
    pub acknowledged_acks: usize,
    pub total_replicas: usize,
}

impl View for ReadConsistencyGap {
    type V = GapView;

    open spec fn view(&self) -> GapView {
        GapView {
            operation: self.operation@,
            target: self.target@,
            required_acks: self.required_acks,
            acknowledged_acks: self.acknowledged_acks,
            total_replicas: self.total_replicas,
        }
    }
}

impl Ranked for ReadConsistencyGap {
    open spec fn before(a: GapView, b: GapView) -> bool {
        text_less(a.target, b.target)
    }

    fn precedes(&self, other: &ReadConsistencyGap) -> (res: bool) {
        less(&self.target, &other.target)
    }
}

/// An error of a read as plain values.
pub open spec fn fanout_view<T>(result: Result<T, ReadFanoutError>) -> Result<T, FanoutErrorView> {
    match result {
        Ok(value) => Ok(value),
        Err(error) => Err(error@),
    }
}

/// What [`ReadFanoutExecutor::new`] holds its settings to be wrong for, if it does. The merge limits
/// come as the outcome of their own check.
pub open spec fn executor_error(
    fanout_concurrency: usize,
    merge_limits: Result<ReadMergeLimits, Seq<char>>,
    guardrails: ReadResourceGuardrails,
) -> Option<Seq<char>> {
    if fanout_concurrency == 0 {
        Some("fanout concurrency must be greater than zero"@)
    } else {
        match merge_limits {
            Err(message) => Some(message),
            Ok(_) => guardrails_error(guardrails),
        }
    }
}

/// At least one.
pub open spec fn at_least_one(n: int) -> int {
    if n < 1 {
        1
    } else {
        n
    }
}

/// How many points a read of some series may have to merge.
pub open spec fn points_budget(limits: ReadMergeLimits, series_count: nat) -> int {
    let estimate = series_count * limits.max_points_per_series;
    at_least_one(
        if estimate < limits.max_total_points {
            estimate
        } else {
            limits.max_total_points as int
        },
    )
}

/// How waiting for a share of the resources ended.
#[derive(Debug, Clone, Copy, PartialEq, Eq, Structural)]
pub enum AcquireOutcome {
    Granted,
    Closed,
    TimedOut,
}

/// The error of a read that asks for more points than may be merged at a time.
pub open spec fn points_refused(
    guardrails: ReadResourceGuardrails,
    requested: usize,
    retryable: bool,
) -> FanoutErrorView {
    FanoutErrorView::ResourceLimitExceeded {
        resource: READ_RESOURCE_GLOBAL_MERGED_POINTS@,
        requested,
        limit: guardrails.max_inflight_merged_points,
        retryable,
    }
}

/// The error of a read that found no slot.
pub open spec fn slot_refused(guardrails: ReadResourceGuardrails, retryable: bool) -> FanoutErrorView {
    FanoutErrorView::ResourceLimitExceeded {
        resource: READ_RESOURCE_GLOBAL_QUERY_SLOTS@,
        requested: 1,
        limit: guardrails.max_inflight_queries,
        retryable,
    }
}

/// What follows from how waiting ended: a read that waited too long is turned away, and may try
/// again.
pub open spec fn waited(
    m: FanoutMetricsView,
    outcome: AcquireOutcome,
    refused_for_good: FanoutErrorView,
    refused_for_now: FanoutErrorView,
) -> (FanoutMetricsView, Result<(), FanoutErrorView>) {
    match outcome {
        AcquireOutcome::Granted => (m, Ok(())),
        AcquireOutcome::Closed => (m, Err(refused_for_good)),
        AcquireOutcome::TimedOut => (rejection_tracked(m), Err(refused_for_now)),
    }
}

/// The owners of a shard that are asked.
pub open spec fn asked_owners(
    ring: RingView,
    shard: u32,
    mode: ReadPlanOwnerMode,
) -> Result<Seq<Seq<char>>, FanoutErrorView> {
    if shard >= ring.assignments.len() || ring.assignments[shard as int].len() == 0 {
        Err(FanoutErrorView::MissingShardOwners { shard })
    } else {
        match mode {
            ReadPlanOwnerMode::AllReplicas => Ok(ring.assignments[shard as int]),
            ReadPlanOwnerMode::PrimaryOnly => Ok(seq![ring.assignments[shard as int][0]]),
        }
    }
}

/// How many replicas have to answer where `replicas` are asked.
pub open spec fn requirement(mode: ClusterReadConsistency, replicas: nat) -> ReadRequirement {
    ReadRequirement {
        required_acks: acks_needed(mode, replicas) as usize,
        total_replicas: replicas as usize,
    }
}

/// What some shards require, by shard, or the first one that has no owner.
pub open spec fn shards_required(
    ring: RingView,
    mode: ClusterReadConsistency,
    owners: ReadPlanOwnerMode,
    shards: Seq<u32>,
) -> Result<Map<u32, ReadRequirement>, FanoutErrorView>
    decreases shards.len(),
{
    if shards.len() == 0 {
        Ok(Map::empty())
    } else {
        match shards_required(ring, mode, owners, shards.drop_last()) {
            Err(error) => Err(error),
            Ok(map) => match asked_owners(ring, shards.last(), owners) {
                Err(error) => Err(error),
                Ok(asked) => Ok(map.insert(shards.last(), requirement(mode, asked.len()))),
            },
        }
    }
}

/// How often a shard was answered for.
pub open spec fn shard_acks(acks: Map<u32, usize>, shard: u32) -> usize {
    if acks.dom().contains(shard) {
        acks[shard]
    } else {
        0
    }
}

/// `n + 1`, or the largest value where that does not fit.
pub open spec fn one_more(n: usize) -> usize {
    if n == usize::MAX {
        n
    } else {
        (n + 1) as usize
    }
}

/// The answers after one more for each of some shards.
pub open spec fn shards_acknowledged(acks: Map<u32, usize>, shards: Seq<u32>) -> Map<u32, usize>
    decreases shards.len(),
{
    if shards.len() == 0 {
        acks
    } else {
        let before = shards_acknowledged(acks, shards.drop_last());
        before.insert(shards.last(), one_more(shard_acks(before, shards.last())))
    }
}

/// The gap of a shard, if it has one.
pub open spec fn shard_gap(
    operation: Seq<char>,
    shard: u32,
    requirement: ReadRequirement,
    acknowledged: usize,
) -> Option<GapView> {
    if acknowledged < requirement.required_acks {
        Some(
            GapView {
                operation,
                target: "shard "@ + decimal(shard as nat),
                required_acks: requirement.required_acks,
                acknowledged_acks: acknowledged,
                total_replicas: requirement.total_replicas,
            },
        )
    } else {
        None
    }
}

/// The gaps of some shards, in order.
pub open spec fn shard_gaps(
    operation: Seq<char>,
    requirements: Map<u32, ReadRequirement>,
    acks: Map<u32, usize>,
    shards: Seq<u32>,
) -> Seq<GapView>
    decreases shards.len(),
{
    if shards.len() == 0 {
        Seq::empty()
    } else {
        let before = shard_gaps(operation, requirements, acks, shards.drop_last());
        let last = shards.last();
        match shard_gap(operation, last, requirements[last], shard_acks(acks, last)) {
            Some(gap) => before.push(gap),
            None => before,
        }
    }
}

/// The warning for a gap.
pub open spec fn gap_warning(mode: ClusterReadConsistency, gap: GapView) -> Seq<char> {
    "partial read for "@ + gap.operation + " on "@ + gap.target + ": mode="@ + consistency_name(
        mode,
    ) + acks_text(gap.required_acks, gap.acknowledged_acks, gap.total_replicas)
}

/// The warnings for some gaps.
pub open spec fn gap_warnings(mode: ClusterReadConsistency, gaps: Seq<GapView>) -> Seq<Seq<char>> {
    Seq::new(gaps.len(), |i: int| gap_warning(mode, gaps[i]))
}

/// Whether too few answers are an error.
pub open spec fn gaps_forbidden(
    mode: ClusterReadConsistency,
    policy: ClusterReadPartialResponsePolicy,
) -> bool {
    mode == ClusterReadConsistency::Strict || policy == ClusterReadPartialResponsePolicy::Deny
}

/// What a read with some gaps amounts to: it lacks nothing where there are none; where gaps are
/// forbidden the first one by its name is the error; else every gap is a warning.
pub open spec fn gaps_evaluated(
    mode: ClusterReadConsistency,
    policy: ClusterReadPartialResponsePolicy,
    operation: Seq<char>,
    gaps: Seq<GapView>,
) -> Result<MetadataView, FanoutErrorView> {
    let sorted = ranked_sort::<ReadConsistencyGap>(gaps);
    if gaps.len() == 0 {
        Ok(full_read(mode, policy))
    } else if gaps_forbidden(mode, policy) {
        Err(
            FanoutErrorView::ConsistencyUnmet {
                operation,
                mode,
                target: sorted[0].target,
                required_acks: sorted[0].required_acks,
                acknowledged_acks: sorted[0].acknowledged_acks,
                total_replicas: sorted[0].total_replicas,
            },
        )
    } else {
        Ok(
            MetadataView {
                partial_response: true,
                warnings: gap_warnings(mode, sorted),
                ..full_read(mode, policy)
            },
        )
    }
}

/// The metadata of a read as plain values.
pub open spec fn metadata_view(
    result: Result<ReadFanoutResponseMetadata, ReadFanoutError>,
) -> Result<MetadataView, FanoutErrorView> {
    match result {
        Ok(metadata) => Ok(metadata@),
        Err(error) => Err(error@),
    }
}

impl ReadFanoutExecutor {
    /// An executor, unless its settings are wrong. The merge limits come as the outcome of their own
    /// check.
    pub fn new(
        local_node_id: String,
        ring: ShardRing,
        fanout_concurrency: usize,
        read_consistency: ClusterReadConsistency,
        partial_response_policy: ClusterReadPartialResponsePolicy,
        merge_limits: Result<ReadMergeLimits, String>,
        resource_guardrails: ReadResourceGuardrails,
    ) -> (res: Result<Self, String>)
        ensures
            match executor_error(
                fanout_concurrency,
                message_view(merge_limits),
                resource_guardrails,
            ) {
                Some(message) => res matches Err(text) && text@ == message,
                None => res matches Ok(executor) && executor@ == (ExecutorView {
                    local_node_id: local_node_id@,
                    ring: ring@,
                    fanout_concurrency,
                    mode: read_consistency,
                    partial_response_policy,
                    merge_limits: merge_limits->Ok_0,
                    guardrails: resource_guardrails,
                }),
            },
    {
        if fanout_concurrency == 0 {
            return Err(owned("fanout concurrency must be greater than zero"));
        }
        let limits = match merge_limits {
            Ok(limits) => limits,
            Err(message) => {
                return Err(message);
            },
        };
        match resource_guardrails.validate() {
            Err(message) => {
                return Err(message);
            },
            Ok(()) => {},
        }
        Ok(
            ReadFanoutExecutor {
                local_node_id,
                ring,
                fanout_concurrency,
                policy: ReadPolicy::new(read_consistency),
                partial_response_policy,
                merge_limits: limits,
                guardrails: resource_guardrails,
            },
        )
    }

    pub fn local_node_id(&self) -> (res: &str)
        ensures
            res@ == self@.local_node_id,
    {
        self.local_node_id.as_str()
    }

    pub fn read_consistency_mode(&self) -> (res: ClusterReadConsistency)
        ensures
            res == self@.mode,
    {
        self.policy.mode()
    }

    pub fn read_partial_response_policy(&self) -> (res: ClusterReadPartialResponsePolicy)
        ensures
            res == self@.partial_response_policy,
    {
        self.partial_response_policy
    }

    pub fn resource_guardrails(&self) -> (res: ReadResourceGuardrails)
        ensures
            res == self@.guardrails,
    {
        self.guardrails
    }

    /// How many nodes are asked at a time.
    pub fn fanout_concurrency(&self) -> (res: usize)
        ensures
            res == self@.fanout_concurrency,
    {
        self.fanout_concurrency
    }

    /// The same executor for another ring.
    pub fn reconfigured_for_topology(&self, ring: ShardRing) -> (res: Self)
        ensures
            res@ == (ExecutorView { ring: ring@, ..self@ }),
    {
        ReadFanoutExecutor {
            local_node_id: self.local_node_id.clone(),
            ring,
            fanout_concurrency: self.fanout_concurrency,
            policy: self.policy,
            partial_response_policy: self.partial_response_policy,
            merge_limits: self.merge_limits,
            guardrails: self.guardrails,
        }
    }

    pub fn with_partial_response_policy(
        &self,
        partial_response_policy: ClusterReadPartialResponsePolicy,
    ) -> (res: Self)
        ensures
            res@ == (ExecutorView { partial_response_policy, ..self@ }),
    {
        let mut copy = self.reconfigured_for_topology(self.ring.clone());
        copy.partial_response_policy = partial_response_policy;
        copy
    }

    pub fn with_read_consistency(&self, read_consistency: ClusterReadConsistency) -> (res: Self)
        ensures
            res@ == (ExecutorView { mode: read_consistency, ..self@ }),
    {
        let mut copy = self.reconfigured_for_topology(self.ring.clone());
        copy.policy = ReadPolicy::new(read_consistency);
        copy
    }

    /// How many points a read of metadata may have to merge.
    pub fn metadata_budget_estimate(&self) -> (res: usize)
        ensures
            res == at_least_one(self@.merge_limits.max_series as int),
    {
        if self.merge_limits.max_series < 1 {
            1
        } else {
            self.merge_limits.max_series
        }
    }

    /// How many points a read of some series may have to merge.
    pub fn points_budget_estimate(&self, series_count: usize) -> (res: usize)
        ensures
            res == points_budget(self@.merge_limits, series_count as nat),
    {
        let per_series: usize = self.merge_limits.max_points_per_series;
        let most: usize = self.merge_limits.max_total_points;
        let estimate: usize = match series_count.checked_mul(per_series) {
            Some(product) => product,
            None => usize::MAX,
        };
        let capped: usize = if estimate < most {
            estimate
        } else {
            most
        };
        if capped < 1 {
            1
        } else {
            capped
        }
    }

    /// Begins to ask for a share of the resources: the number of points to ask for, or the error of
    /// a read that can never have them.
    pub fn begin_acquire(&self, metrics: &mut ReadFanoutMetrics, merged_points_budget: usize) -> (res:
        Result<usize, ReadFanoutError>)
        ensures
            ({
                let requested = at_least_one(merged_points_budget as int) as usize;
                if requested > self@.guardrails.max_inflight_merged_points {
                    &&& final(metrics)@ == rejection_tracked(old(metrics)@)
                    &&& fanout_view(res) == Err::<usize, _>(
                        points_refused(self@.guardrails, requested, false),
                    )
                } else {
                    &&& final(metrics)@ == old(metrics)@
                    &&& fanout_view(res) == Ok::<_, FanoutErrorView>(requested)
                }
            }),
    {
        let requested: usize = if merged_points_budget < 1 {
            1
        } else {
            merged_points_budget
        };
        if requested > self.guardrails.max_inflight_merged_points {
            metrics.track_resource_rejection();
            return Err(
                ReadFanoutError::ResourceLimitExceeded {
                    resource: READ_RESOURCE_GLOBAL_MERGED_POINTS,
                    requested,
                    limit: self.guardrails.max_inflight_merged_points,
                    retryable: false,
                },
            );
        }
        Ok(requested)
    }

    /// What follows from how waiting for a slot ended.
    pub fn judge_query_slot(&self, metrics: &mut ReadFanoutMetrics, outcome: AcquireOutcome) -> (res:
        Result<(), ReadFanoutError>)
        ensures
            (final(metrics)@, fanout_view(res)) == waited(
                old(metrics)@,
                outcome,
                slot_refused(self@.guardrails, false),
                slot_refused(self@.guardrails, true),
            ),
    {
        match outcome {
            AcquireOutcome::Granted => Ok(()),
            AcquireOutcome::Closed => Err(
                ReadFanoutError::ResourceLimitExceeded {
                    resource: READ_RESOURCE_GLOBAL_QUERY_SLOTS,
                    requested: 1,
                    limit: self.guardrails.max_inflight_queries,
                    retryable: false,
                },
            ),
            AcquireOutcome::TimedOut => {
                metrics.track_resource_rejection();
                Err(
                    ReadFanoutError::ResourceLimitExceeded {
                        resource: READ_RESOURCE_GLOBAL_QUERY_SLOTS,
                        requested: 1,
                        limit: self.guardrails.max_inflight_queries,
                        retryable: true,
                    },
                )
            },
        }
    }

    /// What follows from how waiting for points ended. A read that has got them counts as active.
    pub fn judge_merged_points(
        &self,
        metrics: &mut ReadFanoutMetrics,
        requested: usize,
        outcome: AcquireOutcome,
        wait_nanos: u64,
    ) -> (res: Result<(), ReadFanoutError>)
        ensures
            outcome == AcquireOutcome::Granted ==> res is Ok && final(metrics)@ == lease_tracked(
                old(metrics)@,
                wait_nanos,
                requested as u64,
            ),
            outcome != AcquireOutcome::Granted ==> (final(metrics)@, fanout_view(res)) == waited(
                old(metrics)@,
                outcome,
                points_refused(self@.guardrails, requested, false),
                points_refused(self@.guardrails, requested, true),
            ),
    {
        match outcome {
            AcquireOutcome::Granted => {
                metrics.track_resource_acquired(wait_nanos, requested as u64);
                Ok(())
            },
            AcquireOutcome::Closed => Err(
                ReadFanoutError::ResourceLimitExceeded {
                    resource: READ_RESOURCE_GLOBAL_MERGED_POINTS,
                    requested,
                    limit: self.guardrails.max_inflight_merged_points,
                    retryable: false,
                },
            ),
            AcquireOutcome::TimedOut => {
                metrics.track_resource_rejection();
                Err(
                    ReadFanoutError::ResourceLimitExceeded {
                        resource: READ_RESOURCE_GLOBAL_MERGED_POINTS,
                        requested,
                        limit: self.guardrails.max_inflight_merged_points,
                        retryable: true,
                    },
                )
            },
        }
    }

    fn owners_asked(&self, shard: u32, owner_mode: ReadPlanOwnerMode) -> (res: Result<
        Vec<String>,
        ReadFanoutError,
    >)
        ensures
            match asked_owners(self@.ring, shard, owner_mode) {
                Ok(owners) => res matches Ok(list) && views(list@) == owners,
                Err(error) => res matches Err(e) && e@ == error,
            },
    {
        match self.ring.owners_for_shard(shard) {
            None => Err(ReadFanoutError::MissingShardOwners { shard }),
            Some(owners) => {
                assert(views(owners@).len() == owners.len());
                if owners.len() == 0 {
                    return Err(ReadFanoutError::MissingShardOwners { shard });
                }
                match owner_mode {
                    ReadPlanOwnerMode::AllReplicas => {
                        let all = clone_texts(owners);
                        assert(views(all@) =~= views(owners@));
                        Ok(all)
                    },
                    ReadPlanOwnerMode::PrimaryOnly => {
                        let mut one: Vec<String> = Vec::new();
                        one.push(owners[0].clone());
                        assert(views(one@) =~= seq![views(owners@)[0]]);
                        Ok(one)
                    },
                }
            },
        }
    }

    /// The owners of a series that are asked; the series is given by its number.
    pub fn owners_for_series(&self, series_id: u64, owner_mode: ReadPlanOwnerMode) -> (res: Result<
        Vec<String>,
        ReadFanoutError,
    >)
        ensures
            match asked_owners(self@.ring, shard_of(self@.ring, series_id), owner_mode) {
                Ok(owners) => res matches Ok(list) && views(list@) == owners,
                Err(error) => res matches Err(e) && e@ == error,
            },
    {
        let shard: u32 = self.ring.shard_for_series_id(series_id);
        self.owners_asked(shard, owner_mode)
    }

    /// What some shards require, by shard, or the first one that has no owner.
    pub fn shard_requirements(&self, shards: &Vec<u32>, owner_mode: ReadPlanOwnerMode) -> (res: Result<
        BTreeMap<u32, ReadRequirement>,
        ReadFanoutError,
    >)
        ensures
            match shards_required(self@.ring, self@.mode, owner_mode, shards@) {
                Ok(map) => res matches Ok(requirements) && requirements@ == map,
                Err(error) => res matches Err(e) && e@ == error,
            },
    {
        let ghost all = shards@;
        let ghost ring = self@.ring;
        let ghost mode = self@.mode;
        let mut requirements: BTreeMap<u32, ReadRequirement> = BTreeMap::new();
        let mut i: usize = 0;
        assert(all.take(0).len() == 0);
        while i < shards.len()
            invariant
                i <= shards.len(),
                all == shards@,
                ring == self@.ring,
                mode == self@.mode,
                shards_required(ring, mode, owner_mode, all.take(i as int)) == Ok::<
                    _,
                    FanoutErrorView,
                >(requirements@),
            decreases shards.len() - i,
        {
            assert(all.take(i + 1).drop_last() =~= all.take(i as int));
            assert(all.take(i + 1).last() == all[i as int]);
            let shard: u32 = shards[i];
            match self.owners_asked(shard, owner_mode) {
                Err(error) => {
                    proof {
                        lemma_required_stays(ring, mode, owner_mode, all, i + 1);
                    }
                    return Err(error);
                },
                Ok(owners) => {
                    assert(views(owners@).len() == owners.len());
                    requirements.insert(
                        shard,
                        ReadRequirement {
                            required_acks: self.policy.required_acks(owners.len()),
                            total_replicas: owners.len(),
                        },
                    );
                },
            }
            i += 1;
        }
        assert(all.take(i as int) =~= all);
        Ok(requirements)
    }
}

proof fn lemma_required_stays(
    ring: RingView,
    mode: ClusterReadConsistency,
    owners: ReadPlanOwnerMode,
    shards: Seq<u32>,
    n: int,
)
    requires
        0 <= n <= shards.len(),
        shards_required(ring, mode, owners, shards.take(n)) is Err,
    ensures
        shards_required(ring, mode, owners, shards) == shards_required(
            ring,
            mode,
            owners,
            shards.take(n),
        ),
    decreases shards.len() - n,
{
    if n < shards.len() {
        assert(shards.take(n + 1).drop_last() =~= shards.take(n));
        lemma_required_stays(ring, mode, owners, shards, n + 1);
    } else {
        assert(shards.take(n) =~= shards);
    }
}

/// Notes that some shards were answered for.
pub fn acknowledge_shards(acks: &mut BTreeMap<u32, usize>, shards: &Vec<u32>)
    ensures
        final(acks)@ == shards_acknowledged(old(acks)@, shards@),
{
    let ghost start = acks@;
    let ghost all = shards@;
    let mut i: usize = 0;
    assert(all.take(0).len() == 0);
    while i < shards.len()
        invariant
            i <= shards.len(),
            all == shards@,
            acks@ == shards_acknowledged(start, all.take(i as int)),
        decreases shards.len() - i,
    {
        assert(all.take(i + 1).drop_last() =~= all.take(i as int));
        assert(all.take(i + 1).last() == all[i as int]);
        let n: usize = match acks.get(&shards[i]) {
            Some(n) => *n,
            None => 0,
        };
        acks.insert(shards[i], n.saturating_add(1));
        i += 1;
    }
    assert(all.take(i as int) =~= all);
}

impl ReadFanoutExecutor {
    /// The shards for which too few replicas answered, in order.
    pub fn shard_consistency_gaps(
        &self,
        operation: &str,
        requirements: &BTreeMap<u32, ReadRequirement>,
        acknowledged_acks: &BTreeMap<u32, usize>,
    ) -> (res: Vec<ReadConsistencyGap>)
        ensures
            views(res@) == shard_gaps(
                operation@,
                requirements@,
                acknowledged_acks@,
                shard_order(requirements@.dom()),
            ),
    {
        let order = shards_in_order(requirements);
        let ghost all = order@;
        let ghost acks = acknowledged_acks@;
        let mut gaps: Vec<ReadConsistencyGap> = Vec::new();
        let mut i: usize = 0;
        assert(all.take(0).len() == 0);
        assert(views(gaps@) =~= Seq::<GapView>::empty());
        while i < order.len()
            invariant
                i <= order.len(),
                all == order@,
                forall|shard: u32| #[trigger]
                    all.contains(shard) <==> requirements@.dom().contains(shard),
                acks == acknowledged_acks@,
                views(gaps@) == shard_gaps(
                    operation@,
                    requirements@,
                    acks,
                    all.take(i as int),
                ),
            decreases order.len() - i,
        {
            assert(all.take(i + 1).drop_last() =~= all.take(i as int));
            assert(all.take(i + 1).last() == all[i as int]);
            let shard: u32 = order[i];
            assert(all.contains(shard));
            let requirement: ReadRequirement = match requirements.get(&shard) {
                Some(requirement) => *requirement,
                None => {
                    return gaps;
                },
            };
            let acknowledged: usize = match acknowledged_acks.get(&shard) {
                Some(n) => *n,
                None => 0,
            };
            if acknowledged < requirement.required_acks {
                gaps.push(
                    ReadConsistencyGap {
                        operation: owned(operation),
                        target: cat2("shard ", number(shard as u64).as_str()),
                        required_acks: requirement.required_acks,
                        acknowledged_acks: acknowledged,
                        total_replicas: requirement.total_replicas,
                    },
                );
            }
            i += 1;
        }
        assert(all.take(i as int) =~= all);
        gaps
    }

    /// What a read with some gaps amounts to.
    pub fn evaluate_consistency_gaps(
        &self,
        operation: &str,
        consistency_gaps: Vec<ReadConsistencyGap>,
    ) -> (res: Result<ReadFanoutResponseMetadata, ReadFanoutError>)
        ensures
            metadata_view(res) == gaps_evaluated(
                self@.mode,
                self@.partial_response_policy,
                operation@,
                views(consistency_gaps@),
            ),
    {
        let mode = self.policy.mode();
        let mut metadata = ReadFanoutResponseMetadata::success(mode, self.partial_response_policy);
        let ghost gaps = views(consistency_gaps@);
        assert(gaps.len() == consistency_gaps.len());
        if consistency_gaps.len() == 0 {
            return Ok(metadata);
        }
        let sorted = sort_ranked(consistency_gaps);
        let ghost ranked = views(sorted@);
        assert(ranked.len() == sorted.len());
        if self.policy.requires_full_consistency() || matches!(
            self.partial_response_policy,
            ClusterReadPartialResponsePolicy::Deny
        ) {
            assert(ranked[0] == sorted@[0]@);
            return Err(
                ReadFanoutError::ConsistencyUnmet {
                    operation: owned(operation),
                    mode,
                    target: sorted[0].target.clone(),
                    required_acks: sorted[0].required_acks,
                    acknowledged_acks: sorted[0].acknowledged_acks,
                    total_replicas: sorted[0].total_replicas,
                },
            );
        }
        let mut warnings: Vec<String> = Vec::new();
        let mut i: usize = 0;
        while i < sorted.len()
            invariant
                i <= sorted.len(),
                ranked == views(sorted@),
                ranked.len() == sorted.len(),
                views(warnings@) =~= gap_warnings(mode, ranked).take(i as int),
            decreases sorted.len() - i,
        {
            assert(ranked[i as int] == sorted@[i as int]@);
            let gap = &sorted[i];
            let head = cat6(
                "partial read for ",
                &gap.operation,
                " on ",
                &gap.target,
                ": mode=",
                mode.as_str(),
            );
            let warning = cat2(
                &head,
                &acks_words(gap.required_acks, gap.acknowledged_acks, gap.total_replicas),
            );
            let ghost before = views(warnings@);
            let ghost last = warning@;
            warnings.push(warning);
            assert(views(warnings@) =~= before.push(last));
            i += 1;
        }
        assert(views(warnings@) =~= gap_warnings(mode, ranked));
        metadata.partial_response = true;
        metadata.warnings = warnings;
        Ok(metadata)
    }

    /// What the answers to a question about some shards amount to: one list of shards for each
    /// replica that answered.
    pub fn conclude_shards(
        &self,
        operation: &str,
        requirements: &BTreeMap<u32, ReadRequirement>,
        answers: &Vec<Vec<u32>>,
    ) -> (res: Result<ReadFanoutResponseMetadata, ReadFanoutError>)
        ensures
            metadata_view(res) == gaps_evaluated(
                self@.mode,
                self@.partial_response_policy,
                operation@,
                shard_gaps(
                    operation@,
                    requirements@,
                    all_acknowledged(answers@),
                    shard_order(requirements@.dom()),
                ),
            ),
    {
        let ghost all = answers@;
        let mut acks: BTreeMap<u32, usize> = BTreeMap::new();
        let mut i: usize = 0;
        assert(all.take(0).len() == 0);
        while i < answers.len()
            invariant
                i <= answers.len(),
                all == answers@,
                acks@ == all_acknowledged(all.take(i as int)),
            decreases answers.len() - i,
        {
            assert(all.take(i + 1).drop_last() =~= all.take(i as int));
            assert(all.take(i + 1).last() == all[i as int]);
            acknowledge_shards(&mut acks, &answers[i]);
            i += 1;
        }
        assert(all.take(i as int) =~= all);
        let gaps = self.shard_consistency_gaps(operation, requirements, &acks);
        self.evaluate_consistency_gaps(operation, gaps)
    }
}

/// How often each shard was answered for.
pub open spec fn all_acknowledged(answers: Seq<Vec<u32>>) -> Map<u32, usize>
    decreases answers.len(),
{
    if answers.len() == 0 {
        Map::empty()
    } else {
        shards_acknowledged(all_acknowledged(answers.drop_last()), answers.last()@)
    }
}

} // verus!
