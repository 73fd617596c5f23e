//! What holds of reads across the nodes.

use vstd::prelude::*;
use crate::lists::{
    first_index, lemma_first_index, lemma_ranked_sort_elements, lemma_text_less_total,
    lemma_text_less_transitive, ranked_insert,
};
use crate::query::{
    acks_needed, fanout_retryable, full_read, owner_mode, ClusterReadConsistency,
    ClusterReadPartialResponsePolicy, ReadPlanOwnerMode,
};
use crate::query_fanout::{
    asked_owners, ExecutorView, gaps_evaluated, gaps_forbidden, requirement, shard_acks, shard_gaps,
    shards_acknowledged, shards_required, GapView, ReadConsistencyGap, ReadRequirement,
    REMOTE_SELECT_BATCH_SIZE,
};
use crate::query_metrics::{lease_tracked, release_tracked, FanoutMetricsView};
use crate::query_points::{
    asked_of, lemma_asked, points_gathered, points_planned, portion, request_is, series_acks,
    series_gaps, series_planned, unique_requests, MergedView, PlannedView, SeriesRequest,
    SeriesRequestView,
};
use crate::ring::RingView;
use crate::text::text_less;

verus! {

/// A read never asks for more answers than there are replicas, and always for one. A strict read
/// asks for all, and one by quorum for more than half.
pub proof fn law_answers_asked_for(replicas: nat)
    ensures
        acks_needed(ClusterReadConsistency::Eventual, replicas) == 1,
        1 <= acks_needed(ClusterReadConsistency::Quorum, replicas),
        replicas > 0 ==> acks_needed(ClusterReadConsistency::Quorum, replicas) <= replicas,
        2 * acks_needed(ClusterReadConsistency::Quorum, replicas) > replicas,
        replicas > 0 ==> acks_needed(ClusterReadConsistency::Strict, replicas) == replicas,
        acks_needed(ClusterReadConsistency::Quorum, replicas) <= acks_needed(
            ClusterReadConsistency::Strict,
            replicas,
        ),
{
}

/// What is required of the owners that are asked can be met by them.
pub proof fn law_requirements_can_be_met(
    ring: RingView,
    mode: ClusterReadConsistency,
    shard: u32,
)
    requires
        asked_owners(ring, shard, owner_mode(mode)) is Ok,
        asked_owners(ring, shard, owner_mode(mode))->Ok_0.len() <= usize::MAX,
    ensures
        ({
            let asked = asked_owners(ring, shard, owner_mode(mode))->Ok_0;
            let needed = requirement(mode, asked.len());
            &&& asked.len() > 0
            &&& 1 <= needed.required_acks <= needed.total_replicas
            &&& needed.total_replicas == asked.len()
        }),
{
}

/// Every shard that is asked about has its requirement, and nothing else has.
pub proof fn law_every_shard_has_its_requirement(
    ring: RingView,
    mode: ClusterReadConsistency,
    owners: ReadPlanOwnerMode,
    shards: Seq<u32>,
    shard: u32,
)
    requires
        shards_required(ring, mode, owners, shards) is Ok,
    ensures
        ({
            let map = shards_required(ring, mode, owners, shards)->Ok_0;
            &&& map.dom().contains(shard) <==> shards.contains(shard)
            &&& shards.contains(shard) ==> asked_owners(ring, shard, owners) is Ok && map[shard]
                == requirement(mode, asked_owners(ring, shard, owners)->Ok_0.len())
        }),
    decreases shards.len(),
{
    if shards.len() > 0 {
        let front = shards.drop_last();
        law_every_shard_has_its_requirement(ring, mode, owners, front, shard);
        if shards.contains(shard) {
            let k = choose|k: int| 0 <= k < shards.len() && shards[k] == shard;
            if k < front.len() {
                assert(front[k] == shard);
            }
        }
        if front.contains(shard) {
            let k = choose|k: int| 0 <= k < front.len() && front[k] == shard;
            assert(shards[k] == shard);
        }
        assert(shards[shards.len() - 1] == shards.last());
    }
}

/// There is no gap just where every shard was answered for often enough.
pub proof fn law_no_gap_where_all_answered(
    operation: Seq<char>,
    requirements: Map<u32, ReadRequirement>,
    acks: Map<u32, usize>,
    shards: Seq<u32>,
)
    ensures
        shard_gaps(operation, requirements, acks, shards).len() == 0 <==> forall|i: int|
            0 <= i < shards.len() ==> shard_acks(acks, #[trigger] shards[i])
                >= requirements[shards[i]].required_acks,
    decreases shards.len(),
{
    if shards.len() > 0 {
        let front = shards.drop_last();
        law_no_gap_where_all_answered(operation, requirements, acks, front);
        assert forall|i: int| 0 <= i < front.len() implies #[trigger] front[i] == shards[i] by {}
        assert(shards[shards.len() - 1] == shards.last());
        if shard_gaps(operation, requirements, acks, shards).len() == 0 {
            assert forall|i: int| 0 <= i < shards.len() implies shard_acks(
                acks,
                #[trigger] shards[i],
            ) >= requirements[shards[i]].required_acks by {
                if i < front.len() {
                    assert(front[i] == shards[i]);
                }
            }
        }
    }
}

/// More answers never leave a shard with fewer.
pub proof fn law_answers_never_hurt(acks: Map<u32, usize>, shards: Seq<u32>, shard: u32)
    ensures
        shard_acks(shards_acknowledged(acks, shards), shard) >= shard_acks(acks, shard),
        shards.contains(shard) && shard_acks(acks, shard) < usize::MAX ==> shard_acks(
            shards_acknowledged(acks, shards),
            shard,
        ) > shard_acks(acks, shard),
    decreases shards.len(),
{
    if shards.len() > 0 {
        let front = shards.drop_last();
        law_answers_never_hurt(acks, front, shard);
        if shards.contains(shard) && shards.last() != shard {
            let k = choose|k: int| 0 <= k < shards.len() && shards[k] == shard;
            assert(front[k] == shard);
        }
    }
}

/// A read that lacks answers is never passed off as whole: it is an error that may be retried where
/// gaps are forbidden, and else is marked as partial with one warning for each gap. A read that
/// lacks none is whole.
pub proof fn law_gaps_are_told(
    mode: ClusterReadConsistency,
    policy: ClusterReadPartialResponsePolicy,
    operation: Seq<char>,
    gaps: Seq<GapView>,
)
    ensures
        match gaps_evaluated(mode, policy, operation, gaps) {
            Ok(metadata) => {
                &&& metadata.consistency == mode
                &&& metadata.partial_response_policy == policy
                &&& metadata.partial_response == (gaps.len() > 0)
                &&& metadata.warnings.len() == gaps.len()
                &&& gaps.len() > 0 ==> !gaps_forbidden(mode, policy)
            },
            Err(error) => {
                &&& gaps.len() > 0
                &&& gaps_forbidden(mode, policy)
                &&& error is ConsistencyUnmet
                &&& fanout_retryable(error)
            },
        },
{
    lemma_ranked_sort_elements::<ReadConsistencyGap>(gaps);
}

/// A strict read, and one whose policy denies partial answers, is whole or fails.
pub proof fn law_strict_reads_are_whole(
    mode: ClusterReadConsistency,
    policy: ClusterReadPartialResponsePolicy,
    operation: Seq<char>,
    gaps: Seq<GapView>,
)
    requires
        mode == ClusterReadConsistency::Strict || policy == ClusterReadPartialResponsePolicy::Deny,
    ensures
        match gaps_evaluated(mode, policy, operation, gaps) {
            Ok(metadata) => metadata == full_read(mode, policy) && gaps.len() == 0,
            Err(_) => gaps.len() > 0,
        },
{
}

/// Every replica that is to be asked for a series is asked for it.
pub proof fn law_every_owner_is_asked(planned: Seq<PlannedView>, i: int, owner: Seq<char>)
    requires
        0 <= i < planned.len() <= usize::MAX,
        planned[i].owners.contains(owner),
    ensures
        asked_of(planned, owner).contains(i as usize),
{
    lemma_asked(planned, owner);
}

/// The portions follow one another without a gap, none holds more than fits, and every series is in
/// the one that its place falls into.
pub proof fn law_portions_cover_all(count: nat, portions: nat, place: int)
    requires
        portions * REMOTE_SELECT_BATCH_SIZE >= count,
        0 <= place < count,
    ensures
        ({
            let i = place / REMOTE_SELECT_BATCH_SIZE as int;
            &&& 0 <= i < portions
            &&& portion(count, i).0 <= place < portion(count, i).1
            &&& portion(count, i).1 - portion(count, i).0 <= REMOTE_SELECT_BATCH_SIZE
            &&& i + 1 < portions && portion(count, i + 1).0 < count ==> portion(count, i).1
                == portion(count, i + 1).0
        }),
{
}

spec fn identities_ascend(requests: Seq<SeriesRequestView>) -> bool {
    forall|i: int, j: int|
        0 <= i < j < requests.len() ==> text_less(
            (#[trigger] requests[i]).identity,
            (#[trigger] requests[j]).identity,
        )
}

proof fn lemma_request_placed(requests: Seq<SeriesRequestView>, fresh: SeriesRequestView)
    requires
        identities_ascend(requests),
        forall|i: int| 0 <= i < requests.len() ==> (#[trigger] requests[i]).identity != fresh.identity,
    ensures
        identities_ascend(ranked_insert::<SeriesRequest>(requests, fresh)),
        forall|x: SeriesRequestView| #[trigger]
            ranked_insert::<SeriesRequest>(requests, fresh).contains(x) <==> requests.contains(x) || x
                == fresh,
    decreases requests.len(),
{
    let out = ranked_insert::<SeriesRequest>(requests, fresh);
    if requests.len() > 0 && text_less(fresh.identity, requests.last().identity) {
        let front = requests.drop_last();
        let inner = ranked_insert::<SeriesRequest>(front, fresh);
        assert forall|i: int| 0 <= i < front.len() implies #[trigger] front[i] == requests[i] by {}
        lemma_request_placed(front, fresh);
        assert(out == inner.push(requests.last()));
        assert forall|a: int, b: int| 0 <= a < b < out.len() implies text_less(
            (#[trigger] out[a]).identity,
            (#[trigger] out[b]).identity,
        ) by {
            assert(out[a] == inner[a]);
            if b < inner.len() {
                assert(out[b] == inner[b]);
            } else {
                assert(inner.contains(inner[a]));
                if inner[a] != fresh {
                    let k = choose|k: int| 0 <= k < front.len() && front[k] == inner[a];
                    assert(requests[k] == inner[a]);
                    assert(text_less(
                        requests[k].identity,
                        requests[requests.len() - 1].identity,
                    ));
                }
            }
        }
        assert forall|x: SeriesRequestView| #[trigger] out.contains(x) <==> requests.contains(x) || x
            == fresh by {
            if out.contains(x) {
                let k = choose|k: int| 0 <= k < out.len() && out[k] == x;
                if k < inner.len() {
                    assert(inner[k] == x);
                    assert(inner.contains(x));
                    if x != fresh {
                        let m = choose|m: int| 0 <= m < front.len() && front[m] == x;
                        assert(requests[m] == x);
                    }
                } else {
                    assert(requests[requests.len() - 1] == x);
                }
            }
            if requests.contains(x) {
                let k = choose|k: int| 0 <= k < requests.len() && requests[k] == x;
                if k < front.len() {
                    assert(front[k] == x);
                    assert(inner.contains(x));
                    let m = choose|m: int| 0 <= m < inner.len() && inner[m] == x;
                    assert(out[m] == x);
                } else {
                    assert(out[inner.len() as int] == x);
                }
            }
            if x == fresh {
                assert(inner.contains(x));
                let m = choose|m: int| 0 <= m < inner.len() && inner[m] == x;
                assert(out[m] == x);
            }
        }
    } else {
        assert(out == requests.push(fresh));
        assert forall|a: int, b: int| 0 <= a < b < out.len() implies text_less(
            (#[trigger] out[a]).identity,
            (#[trigger] out[b]).identity,
        ) by {
            assert(out[a] == requests[a]);
            if b < requests.len() {
                assert(out[b] == requests[b]);
            } else {
                let last = requests[requests.len() - 1];
                lemma_text_less_total(last.identity, fresh.identity);
                if a < requests.len() - 1 {
                    lemma_text_less_transitive(
                        requests[a].identity,
                        last.identity,
                        fresh.identity,
                    );
                }
            }
        }
        assert forall|x: SeriesRequestView| #[trigger] out.contains(x) <==> requests.contains(x) || x
            == fresh by {
            if out.contains(x) {
                let k = choose|k: int| 0 <= k < out.len() && out[k] == x;
                if k < requests.len() {
                    assert(requests[k] == x);
                }
            }
            if requests.contains(x) {
                let k = choose|k: int| 0 <= k < requests.len() && requests[k] == x;
                assert(out[k] == x);
            }
            if x == fresh {
                assert(out[requests.len() as int] == x);
            }
        }
    }
}

/// Every series that is asked for is read, and none twice: the requests that are left are some of
/// those that were made, no two of them for one series, and each request has one for its series.
pub proof fn law_each_series_is_read_once(requests: Seq<SeriesRequestView>)
    ensures
        ({
            let unique = unique_requests(requests);
            &&& forall|i: int, j: int|
                0 <= i < j < unique.len() ==> text_less(
                    (#[trigger] unique[i]).identity,
                    (#[trigger] unique[j]).identity,
                )
            &&& forall|x: SeriesRequestView| #[trigger]
                unique.contains(x) ==> requests.contains(x)
            &&& forall|x: SeriesRequestView| #[trigger]
                requests.contains(x) ==> exists|i: int|
                    0 <= i < unique.len() && (#[trigger] unique[i]).identity == x.identity
        }),
    decreases requests.len(),
{
    let unique = unique_requests(requests);
    if requests.len() > 0 {
        let front = requests.drop_last();
        let before = unique_requests(front);
        let last = requests.last();
        law_each_series_is_read_once(front);
        lemma_first_index(before, request_is(last.identity));
        assert(identities_ascend(before));
        match first_index(before, request_is(last.identity)) {
            Some(_) => {},
            None => {
                assert forall|i: int| 0 <= i < before.len() implies (
                #[trigger] before[i]).identity != last.identity by {
                    assert(!request_is(last.identity)(before[i]));
                }
                lemma_request_placed(before, last);
                assert(unique.contains(last));
            },
        }
        assert forall|x: SeriesRequestView| #[trigger] unique.contains(x) implies requests.contains(
            x,
        ) by {
            if before.contains(x) {
                assert(front.contains(x));
                let k = choose|k: int| 0 <= k < front.len() && front[k] == x;
                assert(requests[k] == x);
            } else {
                assert(requests[requests.len() - 1] == x);
            }
        }
        assert forall|x: SeriesRequestView| #[trigger] requests.contains(x) implies exists|i: int|
            0 <= i < unique.len() && (#[trigger] unique[i]).identity == x.identity by {
            let k = choose|k: int| 0 <= k < requests.len() && requests[k] == x;
            if k < front.len() {
                assert(front[k] == x);
                assert(front.contains(x));
                let i = choose|i: int|
                    0 <= i < before.len() && (#[trigger] before[i]).identity == x.identity;
                assert(before.contains(before[i]));
                assert(unique.contains(before[i]));
                let m = choose|m: int| 0 <= m < unique.len() && unique[m] == before[i];
                assert(unique[m].identity == x.identity);
            } else {
                match first_index(before, request_is(last.identity)) {
                    Some(i) => {
                        assert(unique[i].identity == x.identity);
                    },
                    None => {
                        let m = choose|m: int| 0 <= m < unique.len() && unique[m] == last;
                        assert(unique[m].identity == x.identity);
                    },
                }
            }
        }
    }
}

/// A read that gives its share of the resources back leaves the counts of what is in use as they
/// were before it.
pub proof fn law_resources_come_back(v: FanoutMetricsView, wait_nanos: u64, merged_points: u64)
    ensures
        ({
            let after = release_tracked(lease_tracked(v, wait_nanos, merged_points), merged_points);
            &&& after.totals.resource_active_queries == v.totals.resource_active_queries
            &&& after.totals.resource_active_merged_points
                == v.totals.resource_active_merged_points
        }),
{
}

/// There is no gap just where every series was answered for often enough.
pub proof fn law_no_gap_where_all_series_answered(
    planned: Seq<PlannedView>,
    answers: Seq<Vec<String>>,
)
    ensures
        series_gaps(planned, answers).len() == 0 <==> forall|i: int|
            0 <= i < planned.len() ==> series_acks(
                answers,
                (#[trigger] planned[i]).request.identity,
            ) >= planned[i].requirement.required_acks,
    decreases planned.len(),
{
    if planned.len() > 0 {
        let front = planned.drop_last();
        law_no_gap_where_all_series_answered(front, answers);
        assert forall|i: int| 0 <= i < front.len() implies #[trigger] front[i] == planned[i] by {}
        assert(planned[planned.len() - 1] == planned.last());
        if series_gaps(planned, answers).len() == 0 {
            assert forall|i: int| 0 <= i < planned.len() implies series_acks(
                answers,
                (#[trigger] planned[i]).request.identity,
            ) >= planned[i].requirement.required_acks by {
                if i < front.len() {
                    assert(front[i] == planned[i]);
                }
            }
        }
    }
}

proof fn lemma_planned_for(
    ring: RingView,
    mode: ClusterReadConsistency,
    requests: Seq<SeriesRequestView>,
)
    ensures
        match series_planned(ring, mode, requests) {
            Ok(planned) => planned.len() == requests.len() && forall|i: int|
                0 <= i < planned.len() ==> (#[trigger] planned[i]).request == requests[i],
            Err(_) => true,
        },
    decreases requests.len(),
{
    if requests.len() > 0 {
        lemma_planned_for(ring, mode, requests.drop_last());
    }
}

/// A read of points that is planned is answered for every series that was asked for, once and in
/// the order of the plan, whatever was merged.
pub proof fn law_every_series_is_answered(
    v: ExecutorView,
    requests: Seq<SeriesRequestView>,
    merged: Seq<MergedView>,
)
    ensures
        match points_planned(v, requests) {
            Ok(planned) => {
                let unique = unique_requests(requests);
                let answer = points_gathered(planned, merged);
                &&& answer.len() == unique.len()
                &&& forall|i: int|
                    0 <= i < answer.len() ==> (#[trigger] answer[i]).series == unique[i].series
                &&& forall|x: SeriesRequestView| #[trigger]
                    requests.contains(x) ==> exists|i: int|
                        0 <= i < answer.len() && (#[trigger] unique[i]).identity == x.identity
            },
            Err(_) => true,
        },
{
    lemma_planned_for(v.ring, v.mode, unique_requests(requests));
    law_each_series_is_read_once(requests);
}

} // verus!
