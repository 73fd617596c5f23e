//! What a read across the nodes is for: the owners of what is asked for are asked, their answers are
//! counted, and what was merged of them is answered in full.

use vstd::prelude::*;
use crate::hotspot::shard_of;
use crate::lists::{
    first_index, lemma_first_index, lemma_first_index_is, lemma_ranked_sort_elements,
};
use crate::query::{
    consistency_name, guardrails_error, owner_mode, ClusterReadConsistency,
    ClusterReadPartialResponsePolicy, FanoutErrorView, ReadMergeLimits, ReadPlanOwnerMode,
    ReadResourceGuardrails,
};
use crate::query_fanout::{
    all_acknowledged, asked_owners, gap_warnings, gaps_evaluated, points_budget, requirement,
    shard_acks, shard_gaps, shards_acknowledged, shards_required, waited, AcquireOutcome,
    ExecutorView, GapView, ReadConsistencyGap, ReadRequirement,
};
use crate::query_laws::law_each_series_is_read_once;
use crate::query_points::{
    asked_of, assigned, batch_step, is_target, merged_for, named_in, noted, points_gathered,
    points_planned, request_is, series_acks, series_gaps, series_planned, single_step,
    unique_requests, unserved, AssignmentView, BatchStepView, MergedView, PlannedView,
    SeriesRequest, SeriesRequestView, TargetView,
};
use crate::lists::{ranked_sort, views};
use crate::query_metrics::FanoutMetricsView;
use crate::ring::RingView;
use crate::rpc_client::RpcErrorView;
use crate::text::decimal;

verus! {

/// A read answers every planned series, in the order of the plan, and each with all the points that were
/// merged for it: as many, each in its place. A series for which nothing was merged has no points.
pub proof fn law_merged_points_are_answered_in_full(
    planned: Seq<PlannedView>,
    merged: Seq<MergedView>,
    i: int,
)
    requires
        0 <= i < planned.len(),
    ensures
        points_gathered(planned, merged).len() == planned.len(),
        points_gathered(planned, merged)[i].series == planned[i].request.series,
        forall|m: int|
            0 <= m < merged.len() && (#[trigger] merged[m]).identity == planned[i].request.identity
                && (forall|k: int|
                0 <= k < m ==> (#[trigger] merged[k]).identity != planned[i].request.identity)
                ==> points_gathered(planned, merged)[i].points.len() == merged[m].points.len()
                && forall|j: int|
                0 <= j < merged[m].points.len() ==> #[trigger] points_gathered(
                    planned,
                    merged,
                )[i].points[j] == merged[m].points[j],
        (forall|m: int|
            0 <= m < merged.len() ==> (#[trigger] merged[m]).identity
                != planned[i].request.identity) ==> points_gathered(planned, merged)[i].points.len()
            == 0,
{
    let identity = planned[i].request.identity;
    lemma_first_index(merged, merged_for(identity));
    assert forall|m: int|
        0 <= m < merged.len() && (#[trigger] merged[m]).identity == identity && (forall|k: int|
            0 <= k < m ==> (#[trigger] merged[k]).identity != identity) implies points_gathered(
        planned,
        merged,
    )[i].points == merged[m].points by {
        lemma_first_index_is(merged, merged_for(identity), m);
    }
}

/// Where one list of points was merged for a planned series, the answer for the series is that list.
pub proof fn law_one_merged_list_is_the_answer(
    planned: Seq<PlannedView>,
    merged: Seq<MergedView>,
    i: int,
    m: int,
)
    requires
        0 <= i < planned.len(),
        0 <= m < merged.len(),
        merged[m].identity == planned[i].request.identity,
        forall|k: int|
            0 <= k < merged.len() && k != m ==> (#[trigger] merged[k]).identity
                != planned[i].request.identity,
    ensures
        points_gathered(planned, merged)[i].points == merged[m].points,
{
    lemma_first_index_is(merged, merged_for(planned[i].request.identity), m);
}

/// What is asked of the owners of a shard: of all of them, or of the first where any answer will do. A
/// shard without owners cannot be read.
pub proof fn law_who_is_asked(ring: RingView, shard: u32, mode: ClusterReadConsistency)
    ensures
        asked_owners(ring, shard, ReadPlanOwnerMode::AllReplicas) is Ok <==> shard
            < ring.assignments.len() && ring.assignments[shard as int].len() > 0,
        asked_owners(ring, shard, ReadPlanOwnerMode::PrimaryOnly) is Ok <==> shard
            < ring.assignments.len() && ring.assignments[shard as int].len() > 0,
        asked_owners(ring, shard, ReadPlanOwnerMode::AllReplicas) matches Ok(owners) ==> owners
            == ring.assignments[shard as int],
        asked_owners(ring, shard, ReadPlanOwnerMode::PrimaryOnly) matches Ok(owners) ==> owners.len()
            == 1 && owners[0] == ring.assignments[shard as int][0],
        owner_mode(mode) == ReadPlanOwnerMode::PrimaryOnly <==> mode
            == ClusterReadConsistency::Eventual,
{
}

/// How many answers a read of `replicas` owners requires: one, more than half and none to spare, or all.
pub proof fn law_how_many_answers_are_required(replicas: nat)
    requires
        0 < replicas <= usize::MAX,
    ensures
        requirement(ClusterReadConsistency::Eventual, replicas).required_acks == 1,
        requirement(ClusterReadConsistency::Strict, replicas).required_acks == replicas,
        2 * requirement(ClusterReadConsistency::Quorum, replicas).required_acks > replicas,
        2 * (requirement(ClusterReadConsistency::Quorum, replicas).required_acks - 1) <= replicas,
        requirement(ClusterReadConsistency::Eventual, replicas).total_replicas == replicas,
        requirement(ClusterReadConsistency::Strict, replicas).total_replicas == replicas,
        requirement(ClusterReadConsistency::Quorum, replicas).total_replicas == replicas,
{
}

proof fn lemma_planned(
    ring: RingView,
    mode: ClusterReadConsistency,
    requests: Seq<SeriesRequestView>,
)
    ensures
        match series_planned(ring, mode, requests) {
            Ok(planned) => planned.len() == requests.len() && forall|i: int|
                0 <= i < planned.len() ==> {
                    let p = #[trigger] planned[i];
                    &&& p.request == requests[i]
                    &&& asked_owners(
                        ring,
                        shard_of(ring, requests[i].series_id),
                        owner_mode(mode),
                    ) == Ok::<_, FanoutErrorView>(p.owners)
                    &&& p.requirement == requirement(mode, p.owners.len())
                },
            Err(_) => exists|i: int|
                0 <= i < requests.len() && asked_owners(
                    ring,
                    shard_of(ring, (#[trigger] requests[i]).series_id),
                    owner_mode(mode),
                ) is Err,
        },
    decreases requests.len(),
{
    if requests.len() > 0 {
        let front = requests.drop_last();
        lemma_planned(ring, mode, front);
        assert(requests.last() == requests[requests.len() - 1]);
        if series_planned(ring, mode, front) is Err {
            let i = choose|i: int|
                0 <= i < front.len() && asked_owners(
                    ring,
                    shard_of(ring, (#[trigger] front[i]).series_id),
                    owner_mode(mode),
                ) is Err;
            assert(requests[i] == front[i]);
        }
    }
}

/// A read of points is planned for each series once: the owners of the shard that the series falls into
/// are asked, all of them or the first one, and as many answers are required as the mode asks for. It is
/// refused where there are too many series or where a shard has no owner, and not otherwise.
pub proof fn law_points_are_planned_with_their_owners(
    v: ExecutorView,
    requests: Seq<SeriesRequestView>,
    i: int,
)
    requires
        v.ring.shard_count > 0,
        v.ring.assignments.len() == v.ring.shard_count,
        0 <= i < unique_requests(requests).len(),
    ensures
        unique_requests(requests).len() > v.merge_limits.max_series ==> points_planned(v, requests)
            is Err,
        unique_requests(requests).len() <= v.merge_limits.max_series && (forall|shard: int|
            0 <= shard < v.ring.assignments.len() ==> (
            #[trigger] v.ring.assignments[shard]).len() > 0) ==> points_planned(v, requests) is Ok,
        points_planned(v, requests) matches Ok(planned) ==> {
            let request = unique_requests(requests)[i];
            let row = v.ring.assignments[request.series_id as int % v.ring.shard_count as int];
            &&& planned.len() == unique_requests(requests).len()
            &&& planned[i].request == request
            &&& v.mode == ClusterReadConsistency::Eventual ==> planned[i].owners == seq![row[0]]
            &&& v.mode != ClusterReadConsistency::Eventual ==> planned[i].owners == row
            &&& v.mode == ClusterReadConsistency::Eventual
                ==> planned[i].requirement.required_acks == 1
            &&& v.mode == ClusterReadConsistency::Strict && row.len() <= usize::MAX
                ==> planned[i].requirement.required_acks == row.len()
            &&& v.mode == ClusterReadConsistency::Quorum && row.len() <= usize::MAX ==> 2
                * planned[i].requirement.required_acks > row.len() && 2 * (
            planned[i].requirement.required_acks - 1) <= row.len()
        },
{
    let unique = unique_requests(requests);
    lemma_planned(v.ring, v.mode, unique);
    assert forall|k: int| 0 <= k < unique.len() implies shard_of(
        v.ring,
        (#[trigger] unique[k]).series_id,
    ) == unique[k].series_id as int % v.ring.shard_count as int && shard_of(
        v.ring,
        unique[k].series_id,
    ) < v.ring.assignments.len() by {}
    if points_planned(v, requests) is Ok {
        let planned = points_planned(v, requests)->Ok_0;
        assert(planned[i].request == unique[i]);
    }
    if unique.len() <= v.merge_limits.max_series && series_planned(v.ring, v.mode, unique) is Err {
        let k = choose|k: int|
            0 <= k < unique.len() && asked_owners(
                v.ring,
                shard_of(v.ring, (#[trigger] unique[k]).series_id),
                owner_mode(v.mode),
            ) is Err;
        let shard = shard_of(v.ring, unique[k].series_id);
        assert(v.ring.assignments[shard as int].len() == 0);
    }
}

/// Of several requests for one series, the first is the one that is read.
pub proof fn law_first_request_is_kept(requests: Seq<SeriesRequestView>, i: int)
    requires
        0 <= i < requests.len(),
        forall|k: int| 0 <= k < i ==> (#[trigger] requests[k]).identity != requests[i].identity,
    ensures
        unique_requests(requests).contains(requests[i]),
    decreases requests.len(),
{
    let front = requests.drop_last();
    let before = unique_requests(front);
    let last = requests.last();
    law_each_series_is_read_once(front);
    law_each_series_is_read_once(requests);
    lemma_first_index(before, request_is(last.identity));
    if i < front.len() {
        assert(front[i] == requests[i]);
        law_first_request_is_kept(front, i);
        if first_index(before, request_is(last.identity)) is None {
            crate::lists::lemma_ranked_insert_elements::<SeriesRequest>(before, last);
            lemma_insert_keeps(before, last, requests[i]);
        }
    } else {
        match first_index(before, request_is(last.identity)) {
            Some(k) => {
                assert(before.contains(before[k]));
                let m = choose|m: int| 0 <= m < front.len() && front[m] == before[k];
                assert(requests[m].identity == last.identity);
            },
            None => {
                lemma_insert_keeps(before, last, last);
            },
        }
    }
}

proof fn lemma_insert_keeps(
    list: Seq<SeriesRequestView>,
    fresh: SeriesRequestView,
    x: SeriesRequestView,
)
    requires
        list.contains(x) || x == fresh,
    ensures
        crate::lists::ranked_insert::<SeriesRequest>(list, fresh).contains(x),
{
    broadcast use vstd::seq_lib::group_to_multiset_ensures;

    let out = crate::lists::ranked_insert::<SeriesRequest>(list, fresh);
    crate::lists::lemma_ranked_insert_elements::<SeriesRequest>(list, fresh);
    assert(out.to_multiset().count(x) > 0);
}

proof fn lemma_noted_places(list: Seq<usize>, owners: Seq<Seq<char>>, node: Seq<char>, place: usize)
    ensures
        forall|x: usize| #[trigger]
            noted(list, owners, node, place).contains(x) <==> list.contains(x) || x == place
                && owners.contains(node),
    decreases owners.len(),
{
    if owners.len() > 0 {
        let front = owners.drop_last();
        let before = noted(list, front, node, place);
        let out = noted(list, owners, node, place);
        lemma_noted_places(list, front, node, place);
        assert(owners.last() == owners[owners.len() - 1]);
        assert(owners.contains(node) <==> front.contains(node) || owners.last() == node) by {
            if owners.contains(node) {
                let k = choose|k: int| 0 <= k < owners.len() && owners[k] == node;
                if k < front.len() {
                    assert(front[k] == node);
                }
            }
            if front.contains(node) {
                let k = choose|k: int| 0 <= k < front.len() && front[k] == node;
                assert(owners[k] == node);
            }
        }
        assert forall|x: usize| #[trigger] out.contains(x) <==> list.contains(x) || x == place
            && owners.contains(node) by {
            if before.contains(x) {
                let k = choose|k: int| 0 <= k < before.len() && before[k] == x;
                assert(out[k] == x);
            }
            if out.contains(x) {
                let k = choose|k: int| 0 <= k < out.len() && out[k] == x;
                if k < before.len() {
                    assert(before[k] == x);
                }
            }
            if owners.last() == node {
                assert(out[out.len() - 1] == place);
            }
        }
    }
}

/// A node is asked for exactly the series that it is among the owners of.
pub proof fn law_owners_are_asked_for_their_series(
    planned: Seq<PlannedView>,
    node: Seq<char>,
    i: int,
)
    requires
        0 <= i < planned.len() <= usize::MAX,
    ensures
        asked_of(planned, node).contains(i as usize) <==> planned[i].owners.contains(node),
        forall|x: usize| #[trigger] asked_of(planned, node).contains(x) ==> x < planned.len(),
    decreases planned.len(),
{
    let front = planned.drop_last();
    let place = (planned.len() - 1) as usize;
    lemma_noted_places(asked_of(front, node), planned.last().owners, node, place);
    if front.len() > 0 {
        if i < front.len() {
            law_owners_are_asked_for_their_series(front, node, i);
            assert(front[i] == planned[i]);
        } else {
            law_owners_are_asked_for_their_series(front, node, 0);
        }
    }
}

/// Every other node that is asked for something is asked once, at its address, for all that it is asked
/// for, and no node is asked that need not be.
pub proof fn law_targets_are_asked_at_their_address(
    planned: Seq<PlannedView>,
    local: Seq<char>,
    targets: Seq<TargetView>,
)
    ensures
        forall|a: AssignmentView| #[trigger]
            assigned(planned, local, targets).contains(a) <==> {
                &&& a.node_id != local
                &&& a.series == asked_of(planned, a.node_id)
                &&& a.series.len() > 0
                &&& exists|k: int|
                    0 <= k < targets.len() && (#[trigger] targets[k]).node_id == a.node_id
                        && targets[k].endpoint == a.endpoint && forall|m: int|
                        0 <= m < k ==> (#[trigger] targets[m]).node_id != a.node_id
            },
        forall|i: int, j: int|
            0 <= i < j < assigned(planned, local, targets).len() ==> (#[trigger] assigned(
                planned,
                local,
                targets,
            )[i]).node_id != (#[trigger] assigned(planned, local, targets)[j]).node_id,
    decreases targets.len(),
{
    let out = assigned(planned, local, targets);
    if targets.len() > 0 {
        let front = targets.drop_last();
        let before = assigned(planned, local, front);
        let last = targets.last();
        law_targets_are_asked_at_their_address(planned, local, front);
        assert(last == targets[targets.len() - 1]);
        assert forall|a: AssignmentView| #[trigger] out.contains(a) <==> {
            &&& a.node_id != local
            &&& a.series == asked_of(planned, a.node_id)
            &&& a.series.len() > 0
            &&& exists|k: int|
                0 <= k < targets.len() && (#[trigger] targets[k]).node_id == a.node_id
                    && targets[k].endpoint == a.endpoint && forall|m: int|
                    0 <= m < k ==> (#[trigger] targets[m]).node_id != a.node_id
        } by {
            if before.contains(a) {
                let k = choose|k: int| 0 <= k < before.len() && before[k] == a;
                assert(out[k] == a);
                let t = choose|t: int|
                    0 <= t < front.len() && (#[trigger] front[t]).node_id == a.node_id
                        && front[t].endpoint == a.endpoint && forall|m: int|
                        0 <= m < t ==> (#[trigger] front[m]).node_id != a.node_id;
                assert(targets[t] == front[t]);
                assert forall|m: int| 0 <= m < t implies (#[trigger] targets[m]).node_id
                    != a.node_id by {
                    assert(front[m] == targets[m]);
                }
            }
            if out.contains(a) && !before.contains(a) {
                let k = choose|k: int| 0 <= k < out.len() && out[k] == a;
                if k < before.len() {
                    assert(before[k] == a);
                }
                assert(a.node_id == last.node_id && a.endpoint == last.endpoint);
                assert forall|m: int| 0 <= m < targets.len() - 1 implies (
                #[trigger] targets[m]).node_id != a.node_id by {
                    assert(front[m] == targets[m]);
                }
            }
            if a.node_id != local && a.series == asked_of(planned, a.node_id) && a.series.len() > 0
                && exists|k: int|
                0 <= k < targets.len() && (#[trigger] targets[k]).node_id == a.node_id
                    && targets[k].endpoint == a.endpoint && forall|m: int|
                    0 <= m < k ==> (#[trigger] targets[m]).node_id != a.node_id {
                let t = choose|t: int|
                    0 <= t < targets.len() && (#[trigger] targets[t]).node_id == a.node_id
                        && targets[t].endpoint == a.endpoint && forall|m: int|
                        0 <= m < t ==> (#[trigger] targets[m]).node_id != a.node_id;
                if t < front.len() {
                    assert(front[t] == targets[t]);
                    assert forall|m: int| 0 <= m < t implies (#[trigger] front[m]).node_id
                        != a.node_id by {
                        assert(front[m] == targets[m]);
                    }
                    assert(before.contains(a));
                } else {
                    assert(!is_target(front, last.node_id)) by {
                        if is_target(front, last.node_id) {
                            let m = choose|m: int|
                                0 <= m < front.len() && (#[trigger] front[m]).node_id
                                    == last.node_id;
                            assert(targets[m].node_id == a.node_id);
                        }
                    }
                    assert(out[out.len() - 1] == a);
                }
            }
        }
        assert forall|i: int, j: int| 0 <= i < j < out.len() implies (#[trigger] out[i]).node_id
            != (#[trigger] out[j]).node_id by {
            assert(out[i] == before[i]);
            if j < before.len() {
                assert(out[j] == before[j]);
            } else {
                assert(before.contains(before[i]));
                let t = choose|t: int|
                    0 <= t < front.len() && (#[trigger] front[t]).node_id == before[i].node_id
                        && front[t].endpoint == before[i].endpoint && forall|m: int|
                        0 <= m < t ==> (#[trigger] front[m]).node_id != before[i].node_id;
                assert(front[t].node_id == before[i].node_id);
            }
        }
    }
}

/// Tells the texts that are the same as a given one.
pub open spec fn is_text(text: Seq<char>) -> spec_fn(Seq<char>) -> bool {
    |other: Seq<char>| other == text
}

/// How often a text stands in some lists.
pub open spec fn times_named(answers: Seq<Vec<String>>, identity: Seq<char>) -> nat
    decreases answers.len(),
{
    if answers.len() == 0 {
        0
    } else {
        times_named(answers.drop_last(), identity) + views(answers.last()@).filter(
            is_text(identity),
        ).len()
    }
}

proof fn lemma_named_in(n: usize, list: Seq<Seq<char>>, identity: Seq<char>)
    requires
        n + list.len() <= usize::MAX,
    ensures
        named_in(n, list, identity) == n + list.filter(is_text(identity)).len(),
        list.filter(is_text(identity)).len() <= list.len(),
    decreases list.len(),
{
    reveal(Seq::filter);
    if list.len() > 0 {
        lemma_named_in(n, list.drop_last(), identity);
    }
}

/// How many texts some lists hold.
pub open spec fn names_held(answers: Seq<Vec<String>>) -> nat
    decreases answers.len(),
{
    if answers.len() == 0 {
        0
    } else {
        names_held(answers.drop_last()) + answers.last()@.len()
    }
}

/// Each answer for a series counts once.
pub proof fn law_answers_for_a_series_are_counted(answers: Seq<Vec<String>>, identity: Seq<char>)
    requires
        names_held(answers) <= usize::MAX,
    ensures
        series_acks(answers, identity) == times_named(answers, identity),
        times_named(answers, identity) <= names_held(answers),
    decreases answers.len(),
{
    if answers.len() > 0 {
        law_answers_for_a_series_are_counted(answers.drop_last(), identity);
        assert(views(answers.last()@).len() == answers.last()@.len());
        lemma_named_in(
            series_acks(answers.drop_last(), identity),
            views(answers.last()@),
            identity,
        );
    }
}

/// Each answer for a shard counts once, and for no other shard.
pub proof fn law_answers_for_a_shard_are_counted(acks: Map<u32, usize>, shards: Seq<u32>, shard: u32)
    requires
        shard_acks(acks, shard) + shards.len() <= usize::MAX,
    ensures
        shard_acks(shards_acknowledged(acks, shards), shard) == shard_acks(acks, shard)
            + shards.filter(|s: u32| s == shard).len(),
        shards.filter(|s: u32| s == shard).len() <= shards.len(),
    decreases shards.len(),
{
    reveal(Seq::filter);
    if shards.len() > 0 {
        law_answers_for_a_shard_are_counted(acks, shards.drop_last(), shard);
    }
}

/// The answers of all replicas are counted one after the other, from none.
pub proof fn law_all_answers_are_counted(answers: Seq<Vec<u32>>)
    ensures
        answers.len() == 0 ==> forall|shard: u32| shard_acks(
            #[trigger] all_acknowledged(answers),
            shard,
        ) == 0,
        answers.len() > 0 ==> all_acknowledged(answers) == shards_acknowledged(
            all_acknowledged(answers.drop_last()),
            answers.last()@,
        ),
{
}

/// The gaps of a read of points are the series, in the order of the plan, that were answered for less
/// often than is required, each with what was required and what was answered.
pub proof fn law_gaps_are_the_series_with_too_few_answers(
    planned: Seq<PlannedView>,
    answers: Seq<Vec<String>>,
)
    ensures
        series_gaps(planned, answers) == planned.filter(
            |p: PlannedView|
                series_acks(answers, p.request.identity) < p.requirement.required_acks,
        ).map_values(
            |p: PlannedView|
                GapView {
                    operation: "select_points"@,
                    target: "series "@ + p.request.display,
                    required_acks: p.requirement.required_acks,
                    acknowledged_acks: series_acks(answers, p.request.identity),
                    total_replicas: p.requirement.total_replicas,
                },
        ),
    decreases planned.len(),
{
    reveal(Seq::filter);
    let short = |p: PlannedView|
        series_acks(answers, p.request.identity) < p.requirement.required_acks;
    let told = |p: PlannedView|
        GapView {
            operation: "select_points"@,
            target: "series "@ + p.request.display,
            required_acks: p.requirement.required_acks,
            acknowledged_acks: series_acks(answers, p.request.identity),
            total_replicas: p.requirement.total_replicas,
        };
    if planned.len() > 0 {
        law_gaps_are_the_series_with_too_few_answers(planned.drop_last(), answers);
    }
    assert(series_gaps(planned, answers) =~= planned.filter(short).map_values(told));
}

/// The gaps of a read by shard are the shards that were answered for less often than is required.
pub proof fn law_gaps_are_the_shards_with_too_few_answers(
    operation: Seq<char>,
    requirements: Map<u32, ReadRequirement>,
    acks: Map<u32, usize>,
    shards: Seq<u32>,
)
    ensures
        shard_gaps(operation, requirements, acks, shards) == shards.filter(
            |s: u32| shard_acks(acks, s) < requirements[s].required_acks,
        ).map_values(
            |s: u32|
                GapView {
                    operation,
                    target: "shard "@ + decimal(s as nat),
                    required_acks: requirements[s].required_acks,
                    acknowledged_acks: shard_acks(acks, s),
                    total_replicas: requirements[s].total_replicas,
                },
        ),
    decreases shards.len(),
{
    reveal(Seq::filter);
    let short = |s: u32| shard_acks(acks, s) < requirements[s].required_acks;
    let told = |s: u32|
        GapView {
            operation,
            target: "shard "@ + decimal(s as nat),
            required_acks: requirements[s].required_acks,
            acknowledged_acks: shard_acks(acks, s),
            total_replicas: requirements[s].total_replicas,
        };
    if shards.len() > 0 {
        law_gaps_are_the_shards_with_too_few_answers(
            operation,
            requirements,
            acks,
            shards.drop_last(),
        );
    }
    assert(shard_gaps(operation, requirements, acks, shards) =~= shards.filter(short).map_values(
        told,
    ));
}

/// Every gap of a read that may have gaps is told in a warning of its own, and a read that may have none
/// fails with one of them.
pub proof fn law_each_gap_is_told(
    mode: ClusterReadConsistency,
    policy: ClusterReadPartialResponsePolicy,
    operation: Seq<char>,
    gaps: Seq<GapView>,
    i: int,
)
    requires
        0 <= i < gaps.len(),
    ensures
        mode != ClusterReadConsistency::Strict && policy != ClusterReadPartialResponsePolicy::Deny
            ==> (gaps_evaluated(mode, policy, operation, gaps) matches Ok(metadata)
            && metadata.partial_response && metadata.warnings.len() == gaps.len()
            && metadata.warnings.contains(
            "partial read for "@ + gaps[i].operation + " on "@ + gaps[i].target + ": mode="@
                + consistency_name(mode) + ", required_acks="@ + decimal(
                gaps[i].required_acks as nat,
            ) + ", acknowledged_acks="@ + decimal(gaps[i].acknowledged_acks as nat)
                + ", total_replicas="@ + decimal(gaps[i].total_replicas as nat),
        )),
        mode == ClusterReadConsistency::Strict || policy == ClusterReadPartialResponsePolicy::Deny
            ==> exists|k: int|
            0 <= k < gaps.len() && gaps_evaluated(mode, policy, operation, gaps) == Err::<
                crate::query::MetadataView,
                FanoutErrorView,
            >(
                FanoutErrorView::ConsistencyUnmet {
                    operation,
                    mode,
                    target: (#[trigger] gaps[k]).target,
                    required_acks: gaps[k].required_acks,
                    acknowledged_acks: gaps[k].acknowledged_acks,
                    total_replicas: gaps[k].total_replicas,
                },
            ),
{
    broadcast use vstd::seq_lib::group_to_multiset_ensures;

    let sorted = ranked_sort::<ReadConsistencyGap>(gaps);
    lemma_ranked_sort_elements::<ReadConsistencyGap>(gaps);
    assert(gaps.contains(gaps[i]));
    assert(sorted.to_multiset().count(gaps[i]) > 0);
    assert(sorted.contains(gaps[i]));
    let m = choose|m: int| 0 <= m < sorted.len() && sorted[m] == gaps[i];
    assert(sorted.contains(sorted[0]));
    assert(gaps.to_multiset().count(sorted[0]) > 0);
    let k = choose|k: int| 0 <= k < gaps.len() && gaps[k] == sorted[0];
    let told = gap_warnings(mode, sorted);
    let text = "partial read for "@ + gaps[i].operation + " on "@ + gaps[i].target + ": mode="@
        + consistency_name(mode) + ", required_acks="@ + decimal(gaps[i].required_acks as nat)
        + ", acknowledged_acks="@ + decimal(gaps[i].acknowledged_acks as nat)
        + ", total_replicas="@ + decimal(gaps[i].total_replicas as nat);
    assert(told[m] =~= text);
    assert(told.contains(text));
    assert(gaps[k].target == sorted[0].target);
}

/// A read asks for room for as many points as its series may have, up to what it may have in all, and
/// for one at least.
pub proof fn law_points_are_budgeted(limits: ReadMergeLimits, series_count: nat)
    ensures
        points_budget(limits, series_count) >= 1,
        limits.max_total_points >= 1 ==> points_budget(limits, series_count)
            <= limits.max_total_points,
        1 <= series_count * limits.max_points_per_series <= limits.max_total_points
            ==> points_budget(limits, series_count) == series_count * limits.max_points_per_series,
        series_count * limits.max_points_per_series > limits.max_total_points
            && limits.max_total_points >= 1 ==> points_budget(limits, series_count)
            == limits.max_total_points,
{
}

/// A node that cannot answer for many series at once is asked for them one by one; any other failure is
/// told with the node, its address and the number of series, and an answer is taken.
pub proof fn law_answers_to_batches(
    node_id: Seq<char>,
    endpoint: Seq<char>,
    series_count: usize,
    reply: Result<(), RpcErrorView>,
)
    ensures
        batch_step(node_id, endpoint, series_count, reply) is Take <==> reply is Ok,
        batch_step(node_id, endpoint, series_count, reply) is AskSingly <==> (reply matches Err(error)
            && (error matches RpcErrorView::HttpStatus { status, .. } && status == 404)),
        batch_step(node_id, endpoint, series_count, reply) matches BatchStepView::Fail(failure) ==> (
        reply matches Err(error) && failure == (FanoutErrorView::RemoteSelectBatch {
            node_id,
            endpoint,
            series_count,
            source: error,
        })),
{
}

/// A node cannot be reached where it owns something that is asked for, is not this node, and is not among
/// those whose address is known.
pub proof fn law_which_owners_cannot_be_reached(
    planned: Seq<PlannedView>,
    local: Seq<char>,
    targets: Seq<TargetView>,
    node: Seq<char>,
)
    requires
        planned.len() <= usize::MAX,
    ensures
        unserved(planned, local, targets, node) <==> node != local && (exists|i: int|
            0 <= i < planned.len() && (#[trigger] planned[i]).owners.contains(node)) && (forall|k: int|
            0 <= k < targets.len() ==> (#[trigger] targets[k]).node_id != node),
{
    let asked = asked_of(planned, node);
    if asked.len() > 0 {
        assert(asked.contains(asked[0]));
        assert(planned.len() > 0) by {
            if planned.len() == 0 {
                assert(asked =~= Seq::empty());
            }
        }
        law_owners_are_asked_for_their_series(planned, node, 0);
        let i = asked[0] as int;
        law_owners_are_asked_for_their_series(planned, node, i);
        assert(planned[i].owners.contains(node));
    }
    if exists|i: int| 0 <= i < planned.len() && (#[trigger] planned[i]).owners.contains(node) {
        let i = choose|i: int| 0 <= i < planned.len() && (#[trigger] planned[i]).owners.contains(node);
        law_owners_are_asked_for_their_series(planned, node, i);
        assert(asked.contains(i as usize));
    }
}

/// The limits on what reads may use at once hold where neither is zero and the points can be counted.
pub proof fn law_which_guardrails_hold(guardrails: ReadResourceGuardrails)
    ensures
        guardrails_error(guardrails) is None <==> guardrails.max_inflight_queries > 0 && 0
            < guardrails.max_inflight_merged_points <= u32::MAX,
{
}

/// A read that was given what it waited for goes on; one that waited too long is turned away for now,
/// which is counted; one that cannot be served any more is turned away for good.
pub proof fn law_how_waiting_ends(
    m: FanoutMetricsView,
    for_good: FanoutErrorView,
    for_now: FanoutErrorView,
)
    ensures
        waited(m, AcquireOutcome::Granted, for_good, for_now) == (
            m,
            Ok::<(), FanoutErrorView>(()),
        ),
        waited(m, AcquireOutcome::Closed, for_good, for_now) == (
            m,
            Err::<(), FanoutErrorView>(for_good),
        ),
        waited(m, AcquireOutcome::TimedOut, for_good, for_now).1 == Err::<(), FanoutErrorView>(
            for_now,
        ),
        m.totals.resource_rejections_total < u64::MAX ==> waited(
            m,
            AcquireOutcome::TimedOut,
            for_good,
            for_now,
        ).0.totals.resource_rejections_total == m.totals.resource_rejections_total + 1,
{
}

/// Every shard that is read has the requirement of its owners: as many answers as the mode asks for of
/// those that are asked.
pub proof fn law_shards_have_the_requirement_of_their_owners(
    ring: RingView,
    mode: ClusterReadConsistency,
    owners: ReadPlanOwnerMode,
    shards: Seq<u32>,
    i: int,
)
    requires
        0 <= i < shards.len(),
    ensures
        shards_required(ring, mode, owners, shards) matches Ok(map) ==> {
            let shard = shards[i];
            let asked: nat = match owners {
                ReadPlanOwnerMode::AllReplicas => ring.assignments[shard as int].len(),
                ReadPlanOwnerMode::PrimaryOnly => 1,
            };
            &&& shard < ring.assignments.len()
            &&& ring.assignments[shard as int].len() > 0
            &&& map.dom().contains(shard)
            &&& map[shard] == requirement(mode, asked)
        },
    decreases shards.len(),
{
    if shards_required(ring, mode, owners, shards) is Ok && i < shards.len() - 1 {
        law_shards_have_the_requirement_of_their_owners(ring, mode, owners, shards.drop_last(), i);
    }
}

/// A failure to answer for a single series is told as that of its node, and an answer is taken.
pub proof fn law_answers_for_single_series(
    node_id: Seq<char>,
    endpoint: Seq<char>,
    reply: Result<(), RpcErrorView>,
)
    ensures
        single_step(node_id, endpoint, reply) is Ok <==> reply is Ok,
        reply matches Err(error) ==> (single_step(node_id, endpoint, reply) matches Err(failure)
            && failure == (FanoutErrorView::RemoteSelectBatch {
            node_id,
            endpoint,
            series_count: 1,
            source: error,
        })),
{
}

} // verus!
