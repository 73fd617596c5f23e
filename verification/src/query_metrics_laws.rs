//! What is counted of reads: every one once, under its own operation and node.

use vstd::prelude::*;
use crate::lists::{
    first_index, lemma_first_index, lemma_first_index_is, lemma_ranked_insert_elements,
    lemma_ranked_insert_len, ranked_insert,
};
use crate::query_metrics::{
    buckets_counted, count_of, idle_peer, latency_bounds, lease_tracked, operation_completed,
    operation_started, peer_counted, peer_is, rejection_tracked, release_tracked, remote_tracked,
    FanoutMetricsView, PeerMetricsView, ReadFanoutMetricsSnapshot, ReadFanoutPeerMetricsSnapshot,
};

verus! {

/// An operation that starts is counted once, in all and under its name, and nothing else changes.
pub proof fn law_started_operation_is_counted(
    v: FanoutMetricsView,
    operation: Seq<char>,
    other: Seq<char>,
)
    requires
        v.totals.requests_total < u64::MAX,
        count_of(v.operation_requests, operation) < u64::MAX,
    ensures
        ({
            let w = operation_started(v, operation);
            &&& w.totals == (ReadFanoutMetricsSnapshot {
                requests_total: (v.totals.requests_total + 1) as u64,
                ..v.totals
            })
            &&& count_of(w.operation_requests, operation) == count_of(
                v.operation_requests,
                operation,
            ) + 1
            &&& other != operation ==> count_of(w.operation_requests, other) == count_of(
                v.operation_requests,
                other,
            )
            &&& w.operation_failures == v.operation_failures
            &&& w.peers == v.peers
        }),
{
}

/// An operation that ends adds its time; where it failed, the failure is counted once, in all and under
/// its name.
pub proof fn law_ended_operation_is_counted(
    v: FanoutMetricsView,
    operation: Seq<char>,
    duration_nanos: u64,
    failed: bool,
    other: Seq<char>,
)
    requires
        v.totals.failures_total < u64::MAX,
        v.totals.duration_nanos_total + duration_nanos <= u64::MAX,
        count_of(v.operation_failures, operation) < u64::MAX,
    ensures
        ({
            let w = operation_completed(v, operation, duration_nanos, failed);
            let once: int = if failed {
                1
            } else {
                0
            };
            &&& w.totals == (ReadFanoutMetricsSnapshot {
                failures_total: (v.totals.failures_total + once) as u64,
                duration_nanos_total: (v.totals.duration_nanos_total + duration_nanos) as u64,
                ..v.totals
            })
            &&& count_of(w.operation_failures, operation) == count_of(
                v.operation_failures,
                operation,
            ) + once
            &&& other != operation ==> count_of(w.operation_failures, other) == count_of(
                v.operation_failures,
                other,
            )
            &&& w.operation_requests == v.operation_requests
            &&& w.peers == v.peers
        }),
{
}

/// A call is counted in each bucket whose bound it does not exceed, and in no other; the bounds rise, so
/// a call that is in one bucket is in every later one.
pub proof fn law_latency_is_counted_in_its_buckets(buckets: Seq<u64>, duration_nanos: u64, i: int)
    requires
        0 <= i < buckets.len() == latency_bounds().len(),
        buckets[i] < u64::MAX,
    ensures
        buckets_counted(buckets, duration_nanos).len() == buckets.len(),
        duration_nanos <= latency_bounds()[i] ==> buckets_counted(buckets, duration_nanos)[i]
            == buckets[i] + 1,
        duration_nanos > latency_bounds()[i] ==> buckets_counted(buckets, duration_nanos)[i]
            == buckets[i],
        forall|a: int, b: int|
            0 <= a < b < latency_bounds().len() ==> (#[trigger] latency_bounds()[a]) < (
            #[trigger] latency_bounds()[b]),
{
}

/// What a call to a node adds to the counts of the node and the operation.
pub open spec fn call_added(
    before: PeerMetricsView,
    after: PeerMetricsView,
    duration_nanos: u64,
    failed: bool,
) -> bool {
    &&& after.node_id == before.node_id
    &&& after.operation == before.operation
    &&& after.remote_requests_total == before.remote_requests_total + 1
    &&& after.remote_failures_total == before.remote_failures_total + (if failed {
        1int
    } else {
        0
    })
    &&& after.remote_request_duration_nanos_total == before.remote_request_duration_nanos_total
        + duration_nanos
    &&& after.remote_request_duration_count == before.remote_request_duration_count + 1
}

/// A call to a node that was called before for the operation is added to what is counted of both, and
/// what is counted of others stays.
pub proof fn law_call_is_added_to_its_node(
    v: FanoutMetricsView,
    node_id: Seq<char>,
    operation: Seq<char>,
    duration_nanos: u64,
    failed: bool,
    i: int,
)
    requires
        0 <= i < v.peers.len(),
        v.peers[i].node_id == node_id,
        v.peers[i].operation == operation,
        forall|k: int|
            0 <= k < i ==> (#[trigger] v.peers[k]).node_id != node_id || v.peers[k].operation
                != operation,
        v.totals.remote_requests_total < u64::MAX,
        v.totals.remote_failures_total < u64::MAX,
        v.peers[i].remote_requests_total < u64::MAX,
        v.peers[i].remote_failures_total < u64::MAX,
        v.peers[i].remote_request_duration_count < u64::MAX,
        v.peers[i].remote_request_duration_nanos_total + duration_nanos <= u64::MAX,
    ensures
        ({
            let w = remote_tracked(v, node_id, operation, duration_nanos, failed);
            &&& w.totals == (ReadFanoutMetricsSnapshot {
                remote_requests_total: (v.totals.remote_requests_total + 1) as u64,
                remote_failures_total: (v.totals.remote_failures_total + (if failed {
                    1int
                } else {
                    0
                })) as u64,
                ..v.totals
            })
            &&& w.peers.len() == v.peers.len()
            &&& call_added(v.peers[i], w.peers[i], duration_nanos, failed)
            &&& forall|k: int|
                0 <= k < v.peers.len() && k != i ==> #[trigger] w.peers[k] == v.peers[k]
            &&& w.operation_requests == v.operation_requests
            &&& w.operation_failures == v.operation_failures
        }),
{
    lemma_first_index_is(v.peers, peer_is(node_id, operation), i);
}

/// A call to a node that was not called before for the operation starts its counts, and what is counted
/// of others stays.
pub proof fn law_first_call_starts_the_counts(
    v: FanoutMetricsView,
    node_id: Seq<char>,
    operation: Seq<char>,
    duration_nanos: u64,
    failed: bool,
)
    requires
        forall|k: int|
            0 <= k < v.peers.len() ==> (#[trigger] v.peers[k]).node_id != node_id
                || v.peers[k].operation != operation,
    ensures
        ({
            let w = remote_tracked(v, node_id, operation, duration_nanos, failed);
            &&& w.peers.len() == v.peers.len() + 1
            &&& forall|peer: PeerMetricsView|
                v.peers.contains(peer) ==> #[trigger] w.peers.contains(peer)
            &&& exists|k: int|
                0 <= k < w.peers.len() && (#[trigger] w.peers[k]).node_id == node_id
                    && w.peers[k].operation == operation && w.peers[k].remote_requests_total == 1
                    && w.peers[k].remote_failures_total == (if failed {
                    1int
                } else {
                    0
                }) && w.peers[k].remote_request_duration_count == 1
                    && w.peers[k].remote_request_duration_nanos_total == duration_nanos
        }),
{
    broadcast use vstd::seq_lib::group_to_multiset_ensures;

    lemma_first_index(v.peers, peer_is(node_id, operation));
    match first_index(v.peers, peer_is(node_id, operation)) {
        Some(k) => {
            assert(peer_is(node_id, operation)(v.peers[k]));
        },
        None => {},
    }
    let fresh = peer_counted(idle_peer(node_id, operation), duration_nanos, failed);
    let after = ranked_insert::<ReadFanoutPeerMetricsSnapshot>(v.peers, fresh);
    lemma_ranked_insert_elements::<ReadFanoutPeerMetricsSnapshot>(v.peers, fresh);
    assert(after.to_multiset().count(fresh) > 0);
    assert(after.contains(fresh));
    let k = choose|k: int| 0 <= k < after.len() && after[k] == fresh;
    assert(after[k].node_id == node_id);
    assert forall|peer: PeerMetricsView| v.peers.contains(peer) implies #[trigger] after.contains(
        peer,
    ) by {
        assert(v.peers.to_multiset().count(peer) > 0);
        assert(after.to_multiset().count(peer) > 0);
    }
    lemma_ranked_insert_len::<ReadFanoutPeerMetricsSnapshot>(v.peers, fresh);
    let w = remote_tracked(v, node_id, operation, duration_nanos, failed);
    assert(w.peers == after);
    assert(fresh.remote_request_duration_nanos_total == duration_nanos);
    assert(w.peers[k].node_id == node_id && w.peers[k].operation == operation);
}

/// A read that gets its room is active, with its points, until it gives the room back; then the counts
/// of what is active are what they were.
pub proof fn law_released_room_is_no_longer_active(
    v: FanoutMetricsView,
    wait_nanos: u64,
    merged_points: u64,
)
    requires
        v.totals.resource_active_queries < u64::MAX,
        v.totals.resource_active_merged_points + merged_points <= u64::MAX,
        v.totals.resource_acquire_wait_nanos_total + wait_nanos <= u64::MAX,
    ensures
        ({
            let held = lease_tracked(v, wait_nanos, merged_points);
            &&& held.totals == (ReadFanoutMetricsSnapshot {
                resource_acquire_wait_nanos_total: (v.totals.resource_acquire_wait_nanos_total
                    + wait_nanos) as u64,
                resource_active_queries: (v.totals.resource_active_queries + 1) as u64,
                resource_active_merged_points: (v.totals.resource_active_merged_points
                    + merged_points) as u64,
                ..v.totals
            })
            &&& release_tracked(held, merged_points).totals == (ReadFanoutMetricsSnapshot {
                resource_acquire_wait_nanos_total: (v.totals.resource_acquire_wait_nanos_total
                    + wait_nanos) as u64,
                ..v.totals
            })
            &&& held.peers == v.peers
            &&& release_tracked(held, merged_points).peers == v.peers
        }),
        v.totals.resource_rejections_total < u64::MAX ==> rejection_tracked(v).totals == (
        ReadFanoutMetricsSnapshot {
            resource_rejections_total: (v.totals.resource_rejections_total + 1) as u64,
            ..v.totals
        }),
{
}

} // verus!
