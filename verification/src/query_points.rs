//! Reads of points across the nodes: which series are read from which nodes, in what portions, and
//! what the answers amount to.

use vstd::prelude::*;
use crate::hotspot::shard_of;
use crate::lists::{
    first_index, group_views, insert_ranked, lemma_first_index, lemma_first_index_is, ranked_insert,
    views, Ranked,
};
use crate::query::{
    owner_mode, ClusterReadConsistency, FanoutErrorView, ReadFanoutError,
    ReadFanoutResponseMetadata,
};
use crate::query_fanout::{
    asked_owners, fanout_view, gaps_evaluated, metadata_view, one_more, requirement, ExecutorView,
    GapView, ReadConsistencyGap, ReadFanoutExecutor, ReadRequirement,
    FANOUT_OPERATION_SELECT_POINTS, REMOTE_SELECT_BATCH_SIZE,
};
use crate::ring::RingView;
use crate::rpc_client::{RpcError, RpcErrorView};
use crate::rpc_types::{DataPoint, MetricSeries, SeriesPoints, SeriesPointsView, SeriesView};
use crate::text::{cat2, cat4, decimal, less, number, owned, same, text_less};

verus! {

broadcast use group_views;

/// A series whose points are asked for: what it is told from others by, how it is shown, and its
/// number.
#[derive(Debug)]
pub struct SeriesRequest {
    pub identity: String,
    pub display: String,
    pub series_id: u64,
    pub series: MetricSeries,
}

/// What a [`SeriesRequest`] holds.
pub struct SeriesRequestView {
    pub identity: Seq<char>,
    pub display: Seq<char>,
    pub series_id: u64,
    pub series: SeriesView,
}

impl View for SeriesRequest {
    type V = SeriesRequestView;

    open spec fn view(&self) -> SeriesRequestView {
        SeriesRequestView {
            identity: self.identity@,
            display: self.display@,
            series_id: self.series_id,
            series: self.series@,
        }
    }
}

impl Ranked for SeriesRequest {
    open spec fn before(a: SeriesRequestView, b: SeriesRequestView) -> bool {
        text_less(a.identity, b.identity)
    }

    fn precedes(&self, other: &SeriesRequest) -> (res: bool) {
        less(&self.identity, &other.identity)
    }
}

/// A series whose points will be read, what that requires, and who is asked.
#[derive(Debug)]
pub struct PlannedSeries {
    pub request: SeriesRequest,
    pub requirement: ReadRequirement,
    pub owners: Vec<String>,
}

/// What a [`PlannedSeries`] holds.
pub struct PlannedView {
    pub request: SeriesRequestView,
    pub requirement: ReadRequirement,
    pub owners: Seq<Seq<char>>,
}

impl View for PlannedSeries {
    type V = PlannedView;

    open spec fn view(&self) -> PlannedView {
        PlannedView {
            request: self.request@,
            requirement: self.requirement,
            owners: views(self.owners@),
        }
    }
}

/// A node that may be asked.
#[derive(Debug, PartialEq, Eq)]
pub struct ReadPlanTarget {
    pub node_id: String,
    pub endpoint: String,
    pub shards: Vec<u32>,
}

/// What a [`ReadPlanTarget`] holds.
pub struct TargetView {
    pub node_id: Seq<char>,
    pub endpoint: Seq<char>,
    pub shards: Seq<u32>,
}

impl View for ReadPlanTarget {
    type V = TargetView;

    open spec fn view(&self) -> TargetView {
        TargetView { node_id: self.node_id@, endpoint: self.endpoint@, shards: self.shards@ }
    }
}

/// A node that is asked for some of the planned series, which are given by their places.
#[derive(Debug, PartialEq, Eq)]
pub struct NodeAssignment {
    pub node_id: String,
    pub endpoint: String,
    pub series: Vec<usize>,
}

/// What a [`NodeAssignment`] holds.
pub struct AssignmentView {
    pub node_id: Seq<char>,
    pub endpoint: Seq<char>,
    pub series: Seq<usize>,
}

impl View for NodeAssignment {
    type V = AssignmentView;

    open spec fn view(&self) -> AssignmentView {
        AssignmentView { node_id: self.node_id@, endpoint: self.endpoint@, series: self.series@ }
    }
}

/// Tells the requests for a series.
pub open spec fn request_is(identity: Seq<char>) -> spec_fn(SeriesRequestView) -> bool {
    |request: SeriesRequestView| request.identity == identity
}

/// The requests without repetition, the first one for each series, in the order of what they are
/// told apart by.
pub open spec fn unique_requests(requests: Seq<SeriesRequestView>) -> Seq<SeriesRequestView>
    decreases requests.len(),
{
    if requests.len() == 0 {
        Seq::empty()
    } else {
        let before = unique_requests(requests.drop_last());
        let last = requests.last();
        match first_index(before, request_is(last.identity)) {
            Some(_) => before,
            None => ranked_insert::<SeriesRequest>(before, last),
        }
    }
}

/// The error of a read of too many series.
pub open spec fn too_many_series(limit: usize, attempted: nat) -> FanoutErrorView {
    FanoutErrorView::MergeLimitExceeded {
        message: "read merge series limit exceeded: limit "@ + decimal(limit as nat)
            + ", attempted "@ + decimal(attempted),
    }
}

/// The plan for some series, or the first one whose shard has no owner.
pub open spec fn series_planned(
    ring: RingView,
    mode: ClusterReadConsistency,
    requests: Seq<SeriesRequestView>,
) -> Result<Seq<PlannedView>, FanoutErrorView>
    decreases requests.len(),
{
    if requests.len() == 0 {
        Ok(Seq::empty())
    } else {
        match series_planned(ring, mode, requests.drop_last()) {
            Err(error) => Err(error),
            Ok(before) => match asked_owners(
                ring,
                shard_of(ring, requests.last().series_id),
                owner_mode(mode),
            ) {
                Err(error) => Err(error),
                Ok(owners) => Ok(
                    before.push(
                        PlannedView {
                            request: requests.last(),
                            requirement: requirement(mode, owners.len()),
                            owners,
                        },
                    ),
                ),
            },
        }
    }
}

/// The plan of a read of points.
pub open spec fn points_planned(v: ExecutorView, requests: Seq<SeriesRequestView>) -> Result<
    Seq<PlannedView>,
    FanoutErrorView,
> {
    let unique = unique_requests(requests);
    if unique.len() > v.merge_limits.max_series {
        Err(too_many_series(v.merge_limits.max_series, unique.len()))
    } else {
        series_planned(v.ring, v.mode, unique)
    }
}

/// A list with a place put behind it once for every time that a node is among some owners.
pub open spec fn noted(list: Seq<usize>, owners: Seq<Seq<char>>, node: Seq<char>, place: usize) -> Seq<
    usize,
>
    decreases owners.len(),
{
    if owners.len() == 0 {
        list
    } else {
        let before = noted(list, owners.drop_last(), node, place);
        if owners.last() == node {
            before.push(place)
        } else {
            before
        }
    }
}

/// The places of the series that a node is asked for, in order.
pub open spec fn asked_of(planned: Seq<PlannedView>, node: Seq<char>) -> Seq<usize>
    decreases planned.len(),
{
    if planned.len() == 0 {
        Seq::empty()
    } else {
        noted(
            asked_of(planned.drop_last(), node),
            planned.last().owners,
            node,
            (planned.len() - 1) as usize,
        )
    }
}

proof fn lemma_planned_stays(
    ring: RingView,
    mode: ClusterReadConsistency,
    requests: Seq<SeriesRequestView>,
    n: int,
)
    requires
        0 <= n <= requests.len(),
        series_planned(ring, mode, requests.take(n)) is Err,
    ensures
        series_planned(ring, mode, requests) == series_planned(ring, mode, requests.take(n)),
    decreases requests.len() - n,
{
    if n < requests.len() {
        assert(requests.take(n + 1).drop_last() =~= requests.take(n));
        lemma_planned_stays(ring, mode, requests, n + 1);
    } else {
        assert(requests.take(n) =~= requests);
    }
}

/// A plan as plain values.
pub open spec fn plan_view(result: Result<Vec<PlannedSeries>, ReadFanoutError>) -> Result<
    Seq<PlannedView>,
    FanoutErrorView,
> {
    match result {
        Ok(planned) => Ok(views(planned@)),
        Err(error) => Err(error@),
    }
}

fn sort_requests(requests: Vec<SeriesRequest>) -> (res: Vec<SeriesRequest>)
    ensures
        views(res@) == unique_requests(views(requests@)),
{
    let ghost all = views(requests@);
    let mut rest = requests;
    let mut out: Vec<SeriesRequest> = Vec::new();
    let ghost mut done: int = 0;
    assert(all.take(0).len() == 0);
    assert(views(out@) =~= Seq::<SeriesRequestView>::empty());
    assert(all.skip(0) =~= all);
    while rest.len() > 0
        invariant
            0 <= done <= all.len(),
            rest.len() == all.len() - done,
            views(rest@) == all.skip(done),
            views(out@) == unique_requests(all.take(done)),
        decreases rest.len(),
    {
        let ghost before = views(rest@);
        proof {
            assert(before[0] == rest@[0]@);
            assert(all.skip(done)[0] == all[done]);
        }
        let request = rest.remove(0);
        assert(request@ == all[done]);
        assert(views(rest@) =~= all.skip(done + 1));
        assert(all.take(done + 1).drop_last() =~= all.take(done));
        assert(all.take(done + 1).last() == all[done]);
        let ghost found = views(out@);
        let ghost wanted = request_is(request.identity@);
        let mut at: usize = 0;
        while at < out.len() && !same(&out[at].identity, &request.identity)
            invariant
                at <= out.len(),
                found == views(out@),
                wanted == request_is(request.identity@),
                forall|k: int| 0 <= k < at ==> !wanted(#[trigger] found[k]),
            decreases out.len() - at,
        {
            assert(found[at as int] == out@[at as int]@);
            at += 1;
        }
        assert(found.len() == out.len());
        if at == out.len() {
            proof {
                lemma_first_index(found, wanted);
            }
            insert_ranked(&mut out, request);
        } else {
            assert(found[at as int] == out@[at as int]@);
            proof {
                lemma_first_index_is(found, wanted, at as int);
            }
        }
        proof {
            done = done + 1;
        }
    }
    assert(all.take(done) =~= all);
    out
}

impl ReadFanoutExecutor {
    /// Plans a read of points: each series once, with what it requires and who is asked.
    pub fn plan_points(&self, requests: Vec<SeriesRequest>) -> (res: Result<
        Vec<PlannedSeries>,
        ReadFanoutError,
    >)
        ensures
            plan_view(res) == points_planned(self@, views(requests@)),
    {
        let unique = sort_requests(requests);
        let ghost all = views(unique@);
        assert(all.len() == unique.len());
        if unique.len() > self.merge_limits.max_series {
            return Err(
                ReadFanoutError::MergeLimitExceeded {
                    message: cat4(
                        "read merge series limit exceeded: limit ",
                        number(self.merge_limits.max_series as u64).as_str(),
                        ", attempted ",
                        number(unique.len() as u64).as_str(),
                    ),
                },
            );
        }
        let ghost ring = self@.ring;
        let ghost mode = self@.mode;
        let owners_mode = self.policy.points_owner_mode();
        let mut rest = unique;
        let mut planned: Vec<PlannedSeries> = Vec::new();
        assert(all.take(0).len() == 0);
        assert(views(planned@) =~= Seq::<PlannedView>::empty());
        assert(all.skip(0) =~= all);
        while rest.len() > 0
            invariant
                rest.len() + planned.len() == all.len(),
                all == unique_requests(views(requests@)),
                all.len() <= self@.merge_limits.max_series,
                ring == self@.ring,
                mode == self@.mode,
                owners_mode == owner_mode(mode),
                views(rest@) == all.skip(planned.len() as int),
                series_planned(ring, mode, all.take(planned.len() as int)) == Ok::<
                    _,
                    FanoutErrorView,
                >(views(planned@)),
            decreases rest.len(),
        {
            let ghost n = planned.len() as int;
            let ghost before = views(rest@);
            proof {
                assert(before[0] == rest@[0]@);
                assert(all.skip(n)[0] == all[n]);
            }
            let request = rest.remove(0);
            assert(request@ == all[n]);
            assert(views(rest@) =~= all.skip(n + 1));
            assert(all.take(n + 1).drop_last() =~= all.take(n));
            assert(all.take(n + 1).last() == all[n]);
            match self.owners_for_series(request.series_id, owners_mode) {
                Err(error) => {
                    proof {
                        lemma_planned_stays(ring, mode, all, n + 1);
                    }
                    return Err(error);
                },
                Ok(owners) => {
                    assert(views(owners@).len() == owners.len());
                    let item = PlannedSeries {
                        request,
                        requirement: ReadRequirement {
                            required_acks: self.policy.required_acks(owners.len()),
                            total_replicas: owners.len(),
                        },
                        owners,
                    };
                    let ghost last = item@;
                    let ghost front = views(planned@);
                    planned.push(item);
                    assert(views(planned@) =~= front.push(last));
                },
            }
        }
        assert(all.take(planned.len() as int) =~= all);
        Ok(planned)
    }
}

/// The places of the series that a node is asked for, in order.
pub fn series_asked_of(planned: &Vec<PlannedSeries>, node_id: &str) -> (res: Vec<usize>)
    ensures
        res@ == asked_of(views(planned@), node_id@),
{
    let ghost all = views(planned@);
    let mut places: Vec<usize> = Vec::new();
    let mut i: usize = 0;
    assert(all.take(0).len() == 0);
    while i < planned.len()
        invariant
            i <= planned.len(),
            all == views(planned@),
            places@ == asked_of(all.take(i as int), node_id@),
        decreases planned.len() - i,
    {
        assert(all[i as int] == planned@[i as int]@);
        assert(all.take(i + 1).drop_last() =~= all.take(i as int));
        assert(all.take(i + 1).last() == all[i as int]);
        let ghost start = places@;
        let ghost owners = all[i as int].owners;
        assert(owners == views(planned@[i as int].owners@));
        let mut k: usize = 0;
        assert(owners.take(0).len() == 0);
        while k < planned[i].owners.len()
            invariant
                i < planned.len(),
                k <= planned@[i as int].owners.len(),
                owners == views(planned@[i as int].owners@),
                places@ == noted(start, owners.take(k as int), node_id@, i),
            decreases planned@[i as int].owners.len() - k,
        {
            assert(owners[k as int] == planned@[i as int].owners@[k as int]@);
            assert(owners.take(k + 1).drop_last() =~= owners.take(k as int));
            assert(owners.take(k + 1).last() == owners[k as int]);
            if same(&planned[i].owners[k], node_id) {
                places.push(i);
            }
            k += 1;
        }
        assert(owners.take(k as int) =~= owners);
        i += 1;
    }
    assert(all.take(i as int) =~= all);
    places
}

/// Whether a node is among some targets.
pub open spec fn is_target(targets: Seq<TargetView>, node: Seq<char>) -> bool {
    exists|i: int| 0 <= i < targets.len() && (#[trigger] targets[i]).node_id == node
}

/// Who is asked for which series: each target but the local node that is asked for any, once.
pub open spec fn assigned(
    planned: Seq<PlannedView>,
    local: Seq<char>,
    targets: Seq<TargetView>,
) -> Seq<AssignmentView>
    decreases targets.len(),
{
    if targets.len() == 0 {
        Seq::empty()
    } else {
        let before = assigned(planned, local, targets.drop_last());
        let last = targets.last();
        let series = asked_of(planned, last.node_id);
        if last.node_id == local || series.len() == 0 || is_target(
            targets.drop_last(),
            last.node_id,
        ) {
            before
        } else {
            before.push(
                AssignmentView { node_id: last.node_id, endpoint: last.endpoint, series },
            )
        }
    }
}

/// Whether a node other than the local one has to be asked and is no target.
pub open spec fn unserved(
    planned: Seq<PlannedView>,
    local: Seq<char>,
    targets: Seq<TargetView>,
    node: Seq<char>,
) -> bool {
    &&& asked_of(planned, node).len() > 0
    &&& node != local
    &&& !is_target(targets, node)
}

proof fn lemma_noted(list: Seq<usize>, owners: Seq<Seq<char>>, node: Seq<char>, place: usize)
    ensures
        noted(list, owners, node, place).len() >= list.len(),
        forall|i: int| 0 <= i < list.len() ==> noted(list, owners, node, place)[i] == list[i],
        noted(list, owners, node, place).len() > list.len() <==> owners.contains(node),
        noted(list, owners, node, place).len() > list.len() ==> noted(
            list,
            owners,
            node,
            place,
        ).last() == place,
    decreases owners.len(),
{
    if owners.len() > 0 {
        let front = owners.drop_last();
        lemma_noted(list, front, node, place);
        if owners.last() == node {
            assert(owners[owners.len() - 1] == node);
        } else {
            if owners.contains(node) {
                let k = choose|k: int| 0 <= k < owners.len() && owners[k] == node;
                assert(front[k] == node);
            }
            if front.contains(node) {
                let k = choose|k: int| 0 <= k < front.len() && front[k] == node;
                assert(owners[k] == node);
            }
        }
    }
}

/// A node is asked for something just where it is among the owners that are asked for a series.
pub proof fn lemma_asked(planned: Seq<PlannedView>, node: Seq<char>)
    ensures
        asked_of(planned, node).len() > 0 <==> exists|i: int|
            0 <= i < planned.len() && (#[trigger] planned[i]).owners.contains(node),
        forall|i: int|
            0 <= i < planned.len() && i <= usize::MAX && (
            #[trigger] planned[i]).owners.contains(node) ==> asked_of(planned, node).contains(
                i as usize,
            ),
    decreases planned.len(),
{
    if planned.len() > 0 {
        let front = planned.drop_last();
        let list = asked_of(front, node);
        let place = (planned.len() - 1) as usize;
        let out = asked_of(planned, node);
        lemma_asked(front, node);
        lemma_noted(list, planned.last().owners, node, place);
        assert forall|i: int|
            0 <= i < planned.len() && i <= usize::MAX && (
            #[trigger] planned[i]).owners.contains(node) implies out.contains(i as usize) by {
            if i < front.len() {
                assert(front[i] == planned[i]);
                let k = choose|k: int| 0 <= k < list.len() && list[k] == i as usize;
                assert(out[k] == i as usize);
            } else {
                assert(out[out.len() - 1] == place);
            }
        }
        if out.len() > 0 {
            if list.len() > 0 {
                let i = choose|i: int|
                    0 <= i < front.len() && (#[trigger] front[i]).owners.contains(node);
                assert(planned[i].owners.contains(node));
            } else {
                assert(planned[planned.len() - 1].owners.contains(node));
            }
        }
        if exists|i: int| 0 <= i < planned.len() && (#[trigger] planned[i]).owners.contains(node) {
            let i = choose|i: int|
                0 <= i < planned.len() && (#[trigger] planned[i]).owners.contains(node);
            if i < front.len() {
                assert(front[i].owners.contains(node));
            }
        }
    }
}

fn has_target(targets: &Vec<ReadPlanTarget>, count: usize, node_id: &str) -> (res: bool)
    requires
        count <= targets.len(),
    ensures
        res == is_target(views(targets@).take(count as int), node_id@),
{
    let ghost all = views(targets@).take(count as int);
    let mut i: usize = 0;
    while i < count
        invariant
            i <= count <= targets.len(),
            all == views(targets@).take(count as int),
            forall|k: int| 0 <= k < i ==> (#[trigger] all[k]).node_id != node_id@,
        decreases count - i,
    {
        assert(all[i as int] == targets@[i as int]@);
        if same(&targets[i].node_id, node_id) {
            return true;
        }
        i += 1;
    }
    false
}

impl ReadFanoutExecutor {
    /// Assigns the planned series to the targets that are asked for them, or names the first node by
    /// its name that has to be asked and is no target.
    pub fn assign_targets(&self, planned: &Vec<PlannedSeries>, targets: &Vec<ReadPlanTarget>) -> (res:
        Result<Vec<NodeAssignment>, ReadFanoutError>)
        ensures
            match res {
                Ok(list) => {
                    &&& views(list@) == assigned(
                        views(planned@),
                        self@.local_node_id,
                        views(targets@),
                    )
                    &&& forall|node: Seq<char>|
                        !#[trigger] unserved(
                            views(planned@),
                            self@.local_node_id,
                            views(targets@),
                            node,
                        )
                },
                Err(error) => {
                    &&& error is MissingOwnerEndpoint
                    &&& unserved(
                        views(planned@),
                        self@.local_node_id,
                        views(targets@),
                        error->MissingOwnerEndpoint_node_id@,
                    )
                    &&& forall|node: Seq<char>| #[trigger]
                        unserved(
                            views(planned@),
                            self@.local_node_id,
                            views(targets@),
                            node,
                        ) ==> !text_less(node, error->MissingOwnerEndpoint_node_id@)
                },
            },
    {
        let ghost plan = views(planned@);
        let ghost local = self@.local_node_id;
        let ghost all = views(targets@);
        let mut missing: Option<String> = None;
        let mut i: usize = 0;
        while i < planned.len()
            invariant
                i <= planned.len(),
                plan == views(planned@),
                local == self@.local_node_id,
                local == self.local_node_id@,
                all == views(targets@),
                match missing {
                    Some(name) => unserved(plan, local, all, name@) && (forall|j: int, k: int|
                        0 <= j < i && 0 <= k < (#[trigger] plan[j]).owners.len() && unserved(
                            plan,
                            local,
                            all,
                            #[trigger] plan[j].owners[k],
                        ) ==> !text_less(plan[j].owners[k], name@)),
                    None => forall|j: int, k: int|
                        0 <= j < i && 0 <= k < (#[trigger] plan[j]).owners.len() ==> !unserved(
                            plan,
                            local,
                            all,
                            #[trigger] plan[j].owners[k],
                        ),
                },
            decreases planned.len() - i,
        {
            assert(plan[i as int] == planned@[i as int]@);
            let ghost owners = plan[i as int].owners;
            assert(owners == views(planned@[i as int].owners@));
            let mut k: usize = 0;
            while k < planned[i].owners.len()
                invariant
                    i < planned.len(),
                    k <= planned@[i as int].owners.len(),
                    plan == views(planned@),
                    plan[i as int].owners == owners,
                    owners == views(planned@[i as int].owners@),
                    local == self@.local_node_id,
                    local == self.local_node_id@,
                    all == views(targets@),
                    match missing {
                        Some(name) => unserved(plan, local, all, name@) && (forall|j: int, m: int|
                            0 <= j < i && 0 <= m < (#[trigger] plan[j]).owners.len() && unserved(
                                plan,
                                local,
                                all,
                                #[trigger] plan[j].owners[m],
                            ) ==> !text_less(plan[j].owners[m], name@)) && (forall|m: int|
                            0 <= m < k && unserved(plan, local, all, #[trigger] owners[m])
                                ==> !text_less(owners[m], name@)),
                        None => (forall|j: int, m: int|
                            0 <= j < i && 0 <= m < (#[trigger] plan[j]).owners.len() ==> !unserved(
                                plan,
                                local,
                                all,
                                #[trigger] plan[j].owners[m],
                            )) && (forall|m: int|
                            0 <= m < k ==> !unserved(plan, local, all, #[trigger] owners[m])),
                    },
                decreases planned@[i as int].owners.len() - k,
            {
                let owner = &planned[i].owners[k];
                assert(owners[k as int] == owner@);
                assert(all.take(targets.len() as int) =~= all);
                proof {
                    assert(owners.contains(owner@)) by {
                        assert(owners[k as int] == owner@);
                    }
                    assert(plan[i as int].owners.contains(owner@));
                    lemma_asked(plan, owner@);
                }
                if !same(owner, &self.local_node_id) && !has_target(targets, targets.len(), owner) {
                    assert(unserved(plan, local, all, owner@));
                    let nearer = match &missing {
                        Some(name) => less(owner, name),
                        None => true,
                    };
                    if nearer {
                        let ghost previous = missing;
                        missing = Some(owner.clone());
                        proof {
                            crate::lists::lemma_text_less_irreflexive(owner@);
                            if previous is Some {
                                let name = previous->0@;
                                assert forall|j: int, m: int|
                                    0 <= j < i && 0 <= m < (#[trigger] plan[j]).owners.len()
                                        && unserved(
                                        plan,
                                        local,
                                        all,
                                        #[trigger] plan[j].owners[m],
                                    ) implies !text_less(plan[j].owners[m], owner@) by {
                                    if text_less(plan[j].owners[m], owner@) {
                                        crate::lists::lemma_text_less_transitive(
                                            plan[j].owners[m],
                                            owner@,
                                            name,
                                        );
                                    }
                                }
                                assert forall|m: int|
                                    0 <= m < k && unserved(
                                        plan,
                                        local,
                                        all,
                                        #[trigger] owners[m],
                                    ) implies !text_less(owners[m], owner@) by {
                                    if text_less(owners[m], owner@) {
                                        crate::lists::lemma_text_less_transitive(
                                            owners[m],
                                            owner@,
                                            name,
                                        );
                                    }
                                }
                            }
                        }
                    }
                }
                k += 1;
            }
            i += 1;
        }
        proof {
            assert forall|node: Seq<char>| #[trigger] unserved(plan, local, all, node) implies exists|
                j: int,
                k: int,
            |
                0 <= j < plan.len() && 0 <= k < (#[trigger] plan[j]).owners.len()
                    && #[trigger] plan[j].owners[k] == node by {
                lemma_asked(plan, node);
                let j = choose|j: int|
                    0 <= j < plan.len() && (#[trigger] plan[j]).owners.contains(node);
                let k = choose|k: int|
                    0 <= k < plan[j].owners.len() && plan[j].owners[k] == node;
                assert(plan[j].owners[k] == node);
            }
        }
        match missing {
            Some(node_id) => {
                return Err(ReadFanoutError::MissingOwnerEndpoint { node_id });
            },
            None => {},
        }
        let mut out: Vec<NodeAssignment> = Vec::new();
        let mut t: usize = 0;
        assert(all.take(0).len() == 0);
        assert(views(out@) =~= Seq::<AssignmentView>::empty());
        while t < targets.len()
            invariant
                t <= targets.len(),
                plan == views(planned@),
                local == self.local_node_id@,
                all == views(targets@),
                views(out@) == assigned(plan, local, all.take(t as int)),
            decreases targets.len() - t,
        {
            assert(all[t as int] == targets@[t as int]@);
            assert(all.take(t + 1).drop_last() =~= all.take(t as int));
            assert(all.take(t + 1).last() == all[t as int]);
            let node_id = &targets[t].node_id;
            let series = series_asked_of(planned, node_id);
            if !same(node_id, &self.local_node_id) && series.len() > 0 && !has_target(
                targets,
                t,
                node_id,
            ) {
                out.push(
                    NodeAssignment {
                        node_id: node_id.clone(),
                        endpoint: targets[t].endpoint.clone(),
                        series,
                    },
                );
            }
            t += 1;
        }
        assert(all.take(t as int) =~= all);
        Ok(out)
    }
}

/// Where a portion of `count` series begins and ends.
pub open spec fn portion(count: nat, i: int) -> (int, int) {
    let from = i * REMOTE_SELECT_BATCH_SIZE;
    let to = from + REMOTE_SELECT_BATCH_SIZE;
    (
        from,
        if to < count {
            to
        } else {
            count as int
        },
    )
}

/// The portions in which `count` series are asked for, each by where it begins and ends.
pub fn batch_ranges(count: usize) -> (res: Vec<(usize, usize)>)
    ensures
        forall|i: int|
            0 <= i < res@.len() ==> (#[trigger] res@[i]).0 == portion(count as nat, i).0 && res@[i].1
                == portion(count as nat, i).1 && res@[i].0 < res@[i].1,
        res@.len() * REMOTE_SELECT_BATCH_SIZE >= count,
{
    let mut out: Vec<(usize, usize)> = Vec::new();
    let mut from: usize = 0;
    while from < count
        invariant
            from <= count,
            from < count ==> from == out.len() * REMOTE_SELECT_BATCH_SIZE,
            from == count ==> out.len() * REMOTE_SELECT_BATCH_SIZE >= count,
            forall|i: int|
                0 <= i < out@.len() ==> (#[trigger] out@[i]).0 == portion(count as nat, i).0
                    && out@[i].1 == portion(count as nat, i).1 && out@[i].0 < out@[i].1,
        decreases count - from,
    {
        let to: usize = if count - from > REMOTE_SELECT_BATCH_SIZE {
            from + REMOTE_SELECT_BATCH_SIZE
        } else {
            count
        };
        out.push((from, to));
        from = to;
    }
    out
}

/// What follows from a node's answer to a question about many series at once.
#[derive(Debug)]
pub enum BatchStep {
    /// The answer is taken.
    Take,
    /// The node does not know the question: it is asked for each series alone.
    AskSingly,
    /// The read from the node failed.
    Fail(ReadFanoutError),
}

/// What a [`BatchStep`] holds.
pub enum BatchStepView {
    Take,
    AskSingly,
    Fail(FanoutErrorView),
}

impl View for BatchStep {
    type V = BatchStepView;

    open spec fn view(&self) -> BatchStepView {
        match *self {
            BatchStep::Take => BatchStepView::Take,
            BatchStep::AskSingly => BatchStepView::AskSingly,
            BatchStep::Fail(error) => BatchStepView::Fail(error@),
        }
    }
}

/// What follows from a node's answer to a question about many series at once.
pub open spec fn batch_step(
    node_id: Seq<char>,
    endpoint: Seq<char>,
    series_count: usize,
    reply: Result<(), RpcErrorView>,
) -> BatchStepView {
    match reply {
        Ok(_) => BatchStepView::Take,
        Err(error) => if error is HttpStatus && error->HttpStatus_status == 404 {
            BatchStepView::AskSingly
        } else {
            BatchStepView::Fail(
                FanoutErrorView::RemoteSelectBatch {
                    node_id,
                    endpoint,
                    series_count,
                    source: error,
                },
            )
        },
    }
}

/// What a node answered, as plain values.
pub open spec fn reply_view(reply: Result<(), RpcError>) -> Result<(), RpcErrorView> {
    match reply {
        Ok(_) => Ok(()),
        Err(error) => Err(error@),
    }
}

/// What follows from a node's answer to a question about many series at once.
pub fn judge_batch(
    node_id: &str,
    endpoint: &str,
    series_count: usize,
    reply: Result<(), RpcError>,
) -> (res: BatchStep)
    ensures
        res@ == batch_step(node_id@, endpoint@, series_count, reply_view(reply)),
{
    match reply {
        Ok(()) => BatchStep::Take,
        Err(error) => {
            let unknown = match &error {
                RpcError::HttpStatus { status, .. } => *status == 404,
                _ => false,
            };
            if unknown {
                BatchStep::AskSingly
            } else {
                BatchStep::Fail(
                    ReadFanoutError::RemoteSelectBatch {
                        node_id: owned(node_id),
                        endpoint: owned(endpoint),
                        series_count,
                        source: error,
                    },
                )
            }
        },
    }
}

/// What follows from a node's answer to a question about a single series: a failure is told with the node
/// and its address.
pub open spec fn single_step(
    node_id: Seq<char>,
    endpoint: Seq<char>,
    reply: Result<(), RpcErrorView>,
) -> Result<(), FanoutErrorView> {
    match reply {
        Ok(_) => Ok(()),
        Err(error) => Err(
            FanoutErrorView::RemoteSelectBatch { node_id, endpoint, series_count: 1, source: error },
        ),
    }
}

/// What follows from a node's answer to a question about a single series.
pub fn judge_single(node_id: &str, endpoint: &str, reply: Result<(), RpcError>) -> (res: Result<
    (),
    ReadFanoutError,
>)
    ensures
        fanout_view(res) == match reply_view(reply) {
            Ok(_) => Ok::<(), FanoutErrorView>(()),
            Err(error) => Err(
                FanoutErrorView::RemoteSelectBatch {
                    node_id: node_id@,
                    endpoint: endpoint@,
                    series_count: 1,
                    source: error,
                },
            ),
        },
        fanout_view(res) == single_step(node_id@, endpoint@, reply_view(reply)),
{
    match reply {
        Ok(()) => Ok(()),
        Err(error) => Err(
            ReadFanoutError::RemoteSelectBatch {
                node_id: owned(node_id),
                endpoint: owned(endpoint),
                series_count: 1,
                source: error,
            },
        ),
    }
}

/// A count with one more for every time that a series is in a list.
pub open spec fn named_in(n: usize, list: Seq<Seq<char>>, identity: Seq<char>) -> usize
    decreases list.len(),
{
    if list.len() == 0 {
        n
    } else {
        let before = named_in(n, list.drop_last(), identity);
        if list.last() == identity {
            one_more(before)
        } else {
            before
        }
    }
}

/// How often a series was answered for; each answer names the series that it holds.
pub open spec fn series_acks(answers: Seq<Vec<String>>, identity: Seq<char>) -> usize
    decreases answers.len(),
{
    if answers.len() == 0 {
        0
    } else {
        named_in(series_acks(answers.drop_last(), identity), views(answers.last()@), identity)
    }
}

/// The gaps of some series, in order.
pub open spec fn series_gaps(planned: Seq<PlannedView>, answers: Seq<Vec<String>>) -> Seq<GapView>
    decreases planned.len(),
{
    if planned.len() == 0 {
        Seq::empty()
    } else {
        let before = series_gaps(planned.drop_last(), answers);
        let last = planned.last();
        let acknowledged = series_acks(answers, last.request.identity);
        if acknowledged < last.requirement.required_acks {
            before.push(
                GapView {
                    operation: FANOUT_OPERATION_SELECT_POINTS@,
                    target: "series "@ + last.request.display,
                    required_acks: last.requirement.required_acks,
                    acknowledged_acks: acknowledged,
                    total_replicas: last.requirement.total_replicas,
                },
            )
        } else {
            before
        }
    }
}

/// How often a series was answered for.
fn count_acks(answers: &Vec<Vec<String>>, identity: &str) -> (res: usize)
    ensures
        res == series_acks(answers@, identity@),
{
    let ghost all = answers@;
    let mut n: usize = 0;
    let mut i: usize = 0;
    assert(all.take(0).len() == 0);
    while i < answers.len()
        invariant
            i <= answers.len(),
            all == answers@,
            n == series_acks(all.take(i as int), identity@),
        decreases answers.len() - i,
    {
        assert(all.take(i + 1).drop_last() =~= all.take(i as int));
        assert(all.take(i + 1).last() == all[i as int]);
        let ghost start = n;
        let ghost list = views(all[i as int]@);
        let mut k: usize = 0;
        assert(list.take(0).len() == 0);
        while k < answers[i].len()
            invariant
                i < answers.len(),
                k <= answers@[i as int].len(),
                list == views(answers@[i as int]@),
                n == named_in(start, list.take(k as int), identity@),
            decreases answers@[i as int].len() - k,
        {
            assert(list[k as int] == answers@[i as int]@[k as int]@);
            assert(list.take(k + 1).drop_last() =~= list.take(k as int));
            assert(list.take(k + 1).last() == list[k as int]);
            if same(&answers[i][k], identity) {
                n = n.saturating_add(1);
            }
            k += 1;
        }
        assert(list.take(k as int) =~= list);
        i += 1;
    }
    assert(all.take(i as int) =~= all);
    n
}

impl ReadFanoutExecutor {
    /// The series for which too few replicas answered, in order.
    pub fn series_consistency_gaps(&self, planned: &Vec<PlannedSeries>, answers: &Vec<Vec<String>>) -> (res:
        Vec<ReadConsistencyGap>)
        ensures
            views(res@) == series_gaps(views(planned@), answers@),
    {
        let ghost all = views(planned@);
        let mut gaps: Vec<ReadConsistencyGap> = Vec::new();
        let mut i: usize = 0;
        assert(all.take(0).len() == 0);
        assert(views(gaps@) =~= Seq::<GapView>::empty());
        while i < planned.len()
            invariant
                i <= planned.len(),
                all == views(planned@),
                views(gaps@) == series_gaps(all.take(i as int), answers@),
            decreases planned.len() - i,
        {
            assert(all[i as int] == planned@[i as int]@);
            assert(all.take(i + 1).drop_last() =~= all.take(i as int));
            assert(all.take(i + 1).last() == all[i as int]);
            let item = &planned[i];
            let acknowledged: usize = count_acks(answers, &item.request.identity);
            if acknowledged < item.requirement.required_acks {
                gaps.push(
                    ReadConsistencyGap {
                        operation: owned(FANOUT_OPERATION_SELECT_POINTS),
                        target: cat2("series ", &item.request.display),
                        required_acks: item.requirement.required_acks,
                        acknowledged_acks: acknowledged,
                        total_replicas: item.requirement.total_replicas,
                    },
                );
            }
            i += 1;
        }
        assert(all.take(i as int) =~= all);
        gaps
    }

    /// What the answers to a read of points amount to; each answer names the series that it holds.
    pub fn conclude_points(&self, planned: &Vec<PlannedSeries>, answers: &Vec<Vec<String>>) -> (res: Result<
        ReadFanoutResponseMetadata,
        ReadFanoutError,
    >)
        ensures
            metadata_view(res) == gaps_evaluated(
                self@.mode,
                self@.partial_response_policy,
                FANOUT_OPERATION_SELECT_POINTS@,
                series_gaps(views(planned@), answers@),
            ),
    {
        let gaps = self.series_consistency_gaps(planned, answers);
        self.evaluate_consistency_gaps(FANOUT_OPERATION_SELECT_POINTS, gaps)
    }
}

/// The points that were merged for a series.
#[derive(Debug, PartialEq, Eq)]
pub struct MergedPoints {
    pub identity: String,
    pub points: Vec<DataPoint>,
}

/// What a [`MergedPoints`] holds.
pub struct MergedView {
    pub identity: Seq<char>,
    pub points: Seq<DataPoint>,
}

impl View for MergedPoints {
    type V = MergedView;

    open spec fn view(&self) -> MergedView {
        MergedView { identity: self.identity@, points: self.points@ }
    }
}

/// Whether points were merged for a series.
pub open spec fn merged_for(identity: Seq<char>) -> spec_fn(MergedView) -> bool {
    |m: MergedView| m.identity == identity
}

/// The points that were merged for a series; none where nothing was.
pub open spec fn points_of(merged: Seq<MergedView>, identity: Seq<char>) -> Seq<DataPoint> {
    match first_index(merged, merged_for(identity)) {
        Some(i) => merged[i].points,
        None => Seq::empty(),
    }
}

/// The answer to a read of points: each planned series, with the points that were merged for it.
pub open spec fn points_gathered(planned: Seq<PlannedView>, merged: Seq<MergedView>) -> Seq<
    SeriesPointsView,
> {
    Seq::new(
        planned.len(),
        |i: int|
            SeriesPointsView {
                series: planned[i].request.series,
                points: points_of(merged, planned[i].request.identity),
            },
    )
}

fn copy_points(points: &Vec<DataPoint>) -> (res: Vec<DataPoint>)
    ensures
        res@ == points@,
{
    let mut out: Vec<DataPoint> = Vec::new();
    let mut i: usize = 0;
    while i < points.len()
        invariant
            i <= points.len(),
            out@ == points@.take(i as int),
        decreases points.len() - i,
    {
        out.push(points[i]);
        assert(out@ =~= points@.take(i + 1));
        i += 1;
    }
    assert(points@.take(i as int) =~= points@);
    out
}

/// The points that were merged for a series.
fn find_points(merged: &Vec<MergedPoints>, identity: &str) -> (res: Vec<DataPoint>)
    ensures
        res@ == points_of(views(merged@), identity@),
{
    let ghost all = views(merged@);
    let ghost wanted = merged_for(identity@);
    let mut i: usize = 0;
    while i < merged.len()
        invariant
            i <= merged.len(),
            all == views(merged@),
            wanted == merged_for(identity@),
            forall|j: int| 0 <= j < i ==> !wanted(#[trigger] all[j]),
        decreases merged.len() - i,
    {
        assert(all[i as int] == merged@[i as int]@);
        if same(&merged[i].identity, identity) {
            proof {
                lemma_first_index_is(all, wanted, i as int);
            }
            return copy_points(&merged[i].points);
        }
        i += 1;
    }
    proof {
        assert(all.len() == merged.len());
        lemma_first_index(all, wanted);
    }
    Vec::new()
}

/// Puts together the answer to a read of points from what was merged for its series.
pub fn gather_points(planned: &Vec<PlannedSeries>, merged: &Vec<MergedPoints>) -> (res: Vec<
    SeriesPoints,
>)
    ensures
        views(res@) == points_gathered(views(planned@), views(merged@)),
{
    let ghost all = views(planned@);
    let ghost answer = points_gathered(all, views(merged@));
    let mut out: Vec<SeriesPoints> = Vec::new();
    let mut i: usize = 0;
    assert(views(out@) =~= answer.take(0));
    while i < planned.len()
        invariant
            i <= planned.len(),
            all == views(planned@),
            answer == points_gathered(all, views(merged@)),
            views(out@) == answer.take(i as int),
        decreases planned.len() - i,
    {
        assert(all[i as int] == planned@[i as int]@);
        assert(all.len() == planned.len());
        let item = &planned[i];
        let ghost before = views(out@);
        out.push(
            SeriesPoints {
                series: item.request.series.clone(),
                points: find_points(merged, &item.request.identity),
            },
        );
        assert(views(out@) =~= before.push(answer[i as int]));
        assert(answer.take(i + 1) =~= answer.take(i as int).push(answer[i as int]));
        i += 1;
    }
    assert(all.len() == planned.len());
    assert(answer.take(i as int) =~= answer);
    out
}

} // verus!
