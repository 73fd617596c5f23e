//! Counts of the reads across the nodes: as a whole, by operation, and by node and operation.

use vstd::prelude::*;
use crate::control::{bumped, saturated};
use crate::lists::{
    first_index, group_views, insert_ranked, lemma_first_index, lemma_first_index_is, ranked_insert,
    texts_ascending, views, Ranked,
};
use crate::text::{less, owned, same, text_less};
use crate::text_map::TextMap;

verus! {

broadcast use group_views;

/// How many latencies are told apart.
pub const LATENCY_BUCKETS: usize = 8;

/// The upper bounds of the latencies that are told apart, in seconds.
pub const FANOUT_REMOTE_REQUEST_LATENCY_BUCKETS_SECONDS: [&'static str; 8] = [
    "0.001",
    "0.005",
    "0.01",
    "0.025",
    "0.05",
    "0.1",
    "0.25",
    "1",
];

/// The upper bounds of the latencies that are told apart, in nanoseconds.
pub open spec fn latency_bounds() -> Seq<u64> {
    seq![
        1_000_000u64,
        5_000_000,
        10_000_000,
        25_000_000,
        50_000_000,
        100_000_000,
        250_000_000,
        1_000_000_000,
    ]
}

/// The upper bound of a bucket of latencies, in nanoseconds.
fn latency_bound(bucket: usize) -> (res: u64)
    requires
        bucket < LATENCY_BUCKETS,
    ensures
        res == latency_bounds()[bucket as int],
{
    match bucket {
        0 => 1_000_000,
        1 => 5_000_000,
        2 => 10_000_000,
        3 => 25_000_000,
        4 => 50_000_000,
        5 => 100_000_000,
        6 => 250_000_000,
        _ => 1_000_000_000,
    }
}

/// Counts of reads as a whole.
#[derive(Debug, Clone, Copy, PartialEq, Eq, Structural)]
pub struct ReadFanoutMetricsSnapshot {
    pub requests_total: u64,
    pub failures_total: u64,
    pub duration_nanos_total: u64,
    pub remote_requests_total: u64,
    pub remote_failures_total: u64,
    pub resource_rejections_total: u64,
    pub resource_acquire_wait_nanos_total: u64,
    pub resource_active_queries: u64,
    pub resource_active_merged_points: u64,
}

/// Counts of an operation.
#[derive(Debug, PartialEq, Eq)]
pub struct ReadFanoutOperationMetricsSnapshot {
    pub operation: String,
    pub requests_total: u64,
    pub failures_total: u64,
}

/// What a [`ReadFanoutOperationMetricsSnapshot`] holds.
pub struct OperationMetricsView {
    pub operation: Seq<char>,
    pub requests_total: u64,
    pub failures_total: u64,
}

impl View for ReadFanoutOperationMetricsSnapshot {
    type V = OperationMetricsView;

    open spec fn view(&self) -> OperationMetricsView {
        OperationMetricsView {
            operation: self.operation@,
            requests_total: self.requests_total,
            failures_total: self.failures_total,
        }
    }
}

/// Counts of an operation on a node. A latency is counted in every bucket whose bound it does not
/// exceed.
#[derive(Debug, PartialEq, Eq)]
pub struct ReadFanoutPeerMetricsSnapshot {
    pub node_id: String,
    pub operation: String,
    pub remote_requests_total: u64,
    pub remote_failures_total: u64,
    pub remote_request_duration_nanos_total: u64,
    pub remote_request_duration_count: u64,
    pub remote_request_duration_buckets: Vec<u64>,
}

/// What a [`ReadFanoutPeerMetricsSnapshot`] holds.
pub struct PeerMetricsView {
    pub node_id: Seq<char>,
    pub operation: Seq<char>,
    pub remote_requests_total: u64,
    pub remote_failures_total: u64,
    pub remote_request_duration_nanos_total: u64,
    pub remote_request_duration_count: u64,
    pub remote_request_duration_buckets: Seq<u64>,
}

impl View for ReadFanoutPeerMetricsSnapshot {
    type V = PeerMetricsView;

    open spec fn view(&self) -> PeerMetricsView {
        PeerMetricsView {
            node_id: self.node_id@,
            operation: self.operation@,
            remote_requests_total: self.remote_requests_total,
            remote_failures_total: self.remote_failures_total,
            remote_request_duration_nanos_total: self.remote_request_duration_nanos_total,
            remote_request_duration_count: self.remote_request_duration_count,
            remote_request_duration_buckets: self.remote_request_duration_buckets@,
        }
    }
}

/// Whether one node and operation come before another.
pub open spec fn peer_before(a: PeerMetricsView, b: PeerMetricsView) -> bool {
    text_less(a.node_id, b.node_id) || (a.node_id == b.node_id && text_less(
        a.operation,
        b.operation,
    ))
}

impl Ranked for ReadFanoutPeerMetricsSnapshot {
    open spec fn before(a: PeerMetricsView, b: PeerMetricsView) -> bool {
        peer_before(a, b)
    }

    fn precedes(&self, other: &ReadFanoutPeerMetricsSnapshot) -> (res: bool) {
        less(&self.node_id, &other.node_id) || (same(&self.node_id, &other.node_id) && less(
            &self.operation,
            &other.operation,
        ))
    }
}

/// Counts by operation, and by node and operation.
#[derive(Debug, PartialEq, Eq)]
pub struct ReadFanoutLabeledMetricsSnapshot {
    pub operations: Vec<ReadFanoutOperationMetricsSnapshot>,
    pub peers: Vec<ReadFanoutPeerMetricsSnapshot>,
}

/// All counts of reads.
#[derive(Debug)]
pub struct ReadFanoutMetrics {
    totals: ReadFanoutMetricsSnapshot,
    operation_requests: TextMap<u64>,
    operation_failures: TextMap<u64>,
    peers: Vec<ReadFanoutPeerMetricsSnapshot>,
}

/// What a [`ReadFanoutMetrics`] holds.
pub struct FanoutMetricsView {
    pub totals: ReadFanoutMetricsSnapshot,
    pub operation_requests: Map<Seq<char>, u64>,
    pub operation_failures: Map<Seq<char>, u64>,
    pub peers: Seq<PeerMetricsView>,
}

impl View for ReadFanoutMetrics {
    type V = FanoutMetricsView;

    closed spec fn view(&self) -> FanoutMetricsView {
        FanoutMetricsView {
            totals: self.totals,
            operation_requests: self.operation_requests@,
            operation_failures: self.operation_failures@,
            peers: views(self.peers@),
        }
    }
}

/// A count after more events; it wraps round.
pub open spec fn counted(n: u64, events: u64) -> u64 {
    vstd::wrapping::u64_specs::wrapping_add(n, events)
}

/// What has been counted for a name.
pub open spec fn count_of(counts: Map<Seq<char>, u64>, name: Seq<char>) -> u64 {
    if counts.dom().contains(name) {
        counts[name]
    } else {
        0
    }
}

/// The counts with one more for a name.
pub open spec fn counted_for(counts: Map<Seq<char>, u64>, name: Seq<char>) -> Map<Seq<char>, u64> {
    counts.insert(name, bumped(count_of(counts, name)))
}

/// The counts after an operation starts.
pub open spec fn operation_started(v: FanoutMetricsView, operation: Seq<char>) -> FanoutMetricsView {
    FanoutMetricsView {
        totals: ReadFanoutMetricsSnapshot {
            requests_total: counted(v.totals.requests_total, 1),
            ..v.totals
        },
        operation_requests: counted_for(v.operation_requests, operation),
        ..v
    }
}

/// The counts after an operation ends.
pub open spec fn operation_completed(
    v: FanoutMetricsView,
    operation: Seq<char>,
    duration_nanos: u64,
    failed: bool,
) -> FanoutMetricsView {
    let totals = ReadFanoutMetricsSnapshot {
        duration_nanos_total: counted(v.totals.duration_nanos_total, duration_nanos),
        ..v.totals
    };
    if failed {
        FanoutMetricsView {
            totals: ReadFanoutMetricsSnapshot {
                failures_total: counted(totals.failures_total, 1),
                ..totals
            },
            operation_failures: counted_for(v.operation_failures, operation),
            ..v
        }
    } else {
        FanoutMetricsView { totals, ..v }
    }
}

/// Tells the counts of an operation on a node.
pub open spec fn peer_is(node_id: Seq<char>, operation: Seq<char>) -> spec_fn(
    PeerMetricsView,
) -> bool {
    |peer: PeerMetricsView| peer.node_id == node_id && peer.operation == operation
}

/// The counts of an operation that has not been done on a node.
pub open spec fn idle_peer(node_id: Seq<char>, operation: Seq<char>) -> PeerMetricsView {
    PeerMetricsView {
        node_id,
        operation,
        remote_requests_total: 0,
        remote_failures_total: 0,
        remote_request_duration_nanos_total: 0,
        remote_request_duration_count: 0,
        remote_request_duration_buckets: Seq::new(LATENCY_BUCKETS as nat, |i: int| 0u64),
    }
}

/// The buckets after a latency is counted.
pub open spec fn buckets_counted(buckets: Seq<u64>, duration_nanos: u64) -> Seq<u64> {
    Seq::new(
        buckets.len(),
        |i: int|
            if duration_nanos <= latency_bounds()[i] {
                bumped(buckets[i])
            } else {
                buckets[i]
            },
    )
}

/// The counts of an operation on a node after it was done once more.
pub open spec fn peer_counted(
    peer: PeerMetricsView,
    duration_nanos: u64,
    failed: bool,
) -> PeerMetricsView {
    PeerMetricsView {
        remote_requests_total: bumped(peer.remote_requests_total),
        remote_failures_total: if failed {
            bumped(peer.remote_failures_total)
        } else {
            peer.remote_failures_total
        },
        remote_request_duration_nanos_total: saturated(
            peer.remote_request_duration_nanos_total,
            duration_nanos,
        ),
        remote_request_duration_count: bumped(peer.remote_request_duration_count),
        remote_request_duration_buckets: buckets_counted(
            peer.remote_request_duration_buckets,
            duration_nanos,
        ),
        ..peer
    }
}

/// The counts of all nodes after one of them was asked.
pub open spec fn peers_counted(
    peers: Seq<PeerMetricsView>,
    node_id: Seq<char>,
    operation: Seq<char>,
    duration_nanos: u64,
    failed: bool,
) -> Seq<PeerMetricsView> {
    match first_index(peers, peer_is(node_id, operation)) {
        Some(i) => peers.update(i, peer_counted(peers[i], duration_nanos, failed)),
        None => ranked_insert::<ReadFanoutPeerMetricsSnapshot>(
            peers,
            peer_counted(idle_peer(node_id, operation), duration_nanos, failed),
        ),
    }
}

/// The counts after a node was asked.
pub open spec fn remote_tracked(
    v: FanoutMetricsView,
    node_id: Seq<char>,
    operation: Seq<char>,
    duration_nanos: u64,
    failed: bool,
) -> FanoutMetricsView {
    FanoutMetricsView {
        totals: ReadFanoutMetricsSnapshot {
            remote_requests_total: counted(v.totals.remote_requests_total, 1),
            remote_failures_total: if failed {
                counted(v.totals.remote_failures_total, 1)
            } else {
                v.totals.remote_failures_total
            },
            ..v.totals
        },
        peers: peers_counted(v.peers, node_id, operation, duration_nanos, failed),
        ..v
    }
}

/// Every node and operation has its buckets, and they are in order without repetition.
pub open spec fn peers_sound(peers: Seq<PeerMetricsView>) -> bool {
    &&& forall|i: int|
        0 <= i < peers.len() ==> (#[trigger] peers[i]).remote_request_duration_buckets.len()
            == LATENCY_BUCKETS
    &&& forall|i: int, j: int|
        0 <= i < j < peers.len() ==> peer_before(#[trigger] peers[i], #[trigger] peers[j])
}

/// The counts after a read was turned away.
pub open spec fn rejection_tracked(v: FanoutMetricsView) -> FanoutMetricsView {
    FanoutMetricsView {
        totals: ReadFanoutMetricsSnapshot {
            resource_rejections_total: counted(v.totals.resource_rejections_total, 1),
            ..v.totals
        },
        ..v
    }
}

/// The counts after a read got its share of the resources.
pub open spec fn lease_tracked(
    v: FanoutMetricsView,
    wait_nanos: u64,
    merged_points: u64,
) -> FanoutMetricsView {
    FanoutMetricsView {
        totals: ReadFanoutMetricsSnapshot {
            resource_acquire_wait_nanos_total: counted(
                v.totals.resource_acquire_wait_nanos_total,
                wait_nanos,
            ),
            resource_active_queries: counted(v.totals.resource_active_queries, 1),
            resource_active_merged_points: counted(
                v.totals.resource_active_merged_points,
                merged_points,
            ),
            ..v.totals
        },
        ..v
    }
}

/// A count after some events are taken back; it wraps round.
pub open spec fn uncounted(n: u64, events: u64) -> u64 {
    vstd::wrapping::u64_specs::wrapping_sub(n, events)
}

/// The counts after a read gave its share of the resources back.
pub open spec fn release_tracked(v: FanoutMetricsView, merged_points: u64) -> FanoutMetricsView {
    FanoutMetricsView {
        totals: ReadFanoutMetricsSnapshot {
            resource_active_queries: uncounted(v.totals.resource_active_queries, 1),
            resource_active_merged_points: uncounted(
                v.totals.resource_active_merged_points,
                merged_points,
            ),
            ..v.totals
        },
        ..v
    }
}

/// No reads.
pub open spec fn no_reads() -> ReadFanoutMetricsSnapshot {
    ReadFanoutMetricsSnapshot {
        requests_total: 0,
        failures_total: 0,
        duration_nanos_total: 0,
        remote_requests_total: 0,
        remote_failures_total: 0,
        resource_rejections_total: 0,
        resource_acquire_wait_nanos_total: 0,
        resource_active_queries: 0,
        resource_active_merged_points: 0,
    }
}

/// One more for a name.
fn count_name(counts: &mut TextMap<u64>, name: &str)
    ensures
        final(counts)@ == counted_for(old(counts)@, name@),
{
    let n: u64 = match counts.get(name) {
        Some(n) => *n,
        None => 0,
    };
    counts.insert(owned(name), n.saturating_add(1));
}

impl ReadFanoutPeerMetricsSnapshot {
    fn idle(node_id: &str, operation: &str) -> (res: Self)
        ensures
            res@ == idle_peer(node_id@, operation@),
    {
        let buckets: Vec<u64> = vec![0, 0, 0, 0, 0, 0, 0, 0];
        assert(buckets@ =~= Seq::new(LATENCY_BUCKETS as nat, |i: int| 0u64));
        ReadFanoutPeerMetricsSnapshot {
            node_id: owned(node_id),
            operation: owned(operation),
            remote_requests_total: 0,
            remote_failures_total: 0,
            remote_request_duration_nanos_total: 0,
            remote_request_duration_count: 0,
            remote_request_duration_buckets: buckets,
        }
    }

    fn copy(&self) -> (res: Self)
        ensures
            res@ == self@,
    {
        let mut buckets: Vec<u64> = Vec::new();
        let mut i: usize = 0;
        while i < self.remote_request_duration_buckets.len()
            invariant
                i <= self.remote_request_duration_buckets.len(),
                buckets@ == self.remote_request_duration_buckets@.take(i as int),
            decreases self.remote_request_duration_buckets.len() - i,
        {
            buckets.push(self.remote_request_duration_buckets[i]);
            i += 1;
        }
        assert(buckets@ =~= self.remote_request_duration_buckets@);
        ReadFanoutPeerMetricsSnapshot {
            node_id: self.node_id.clone(),
            operation: self.operation.clone(),
            remote_requests_total: self.remote_requests_total,
            remote_failures_total: self.remote_failures_total,
            remote_request_duration_nanos_total: self.remote_request_duration_nanos_total,
            remote_request_duration_count: self.remote_request_duration_count,
            remote_request_duration_buckets: buckets,
        }
    }

    fn counted(self, duration_nanos: u64, failed: bool) -> (res: Self)
        requires
            self@.remote_request_duration_buckets.len() == LATENCY_BUCKETS,
        ensures
            res@ == peer_counted(self@, duration_nanos, failed),
    {
        let ghost before = self.remote_request_duration_buckets@;
        let mut buckets: Vec<u64> = Vec::new();
        let mut i: usize = 0;
        while i < self.remote_request_duration_buckets.len()
            invariant
                i <= self.remote_request_duration_buckets.len(),
                before == self.remote_request_duration_buckets@,
                before.len() == LATENCY_BUCKETS,
                buckets@ == buckets_counted(before, duration_nanos).take(i as int),
            decreases self.remote_request_duration_buckets.len() - i,
        {
            let n: u64 = self.remote_request_duration_buckets[i];
            if duration_nanos <= latency_bound(i) {
                buckets.push(n.saturating_add(1));
            } else {
                buckets.push(n);
            }
            assert(buckets@ =~= buckets_counted(before, duration_nanos).take(i + 1));
            i += 1;
        }
        assert(buckets@ =~= buckets_counted(before, duration_nanos));
        ReadFanoutPeerMetricsSnapshot {
            node_id: self.node_id,
            operation: self.operation,
            remote_requests_total: self.remote_requests_total.saturating_add(1),
            remote_failures_total: if failed {
                self.remote_failures_total.saturating_add(1)
            } else {
                self.remote_failures_total
            },
            remote_request_duration_nanos_total: self.remote_request_duration_nanos_total.saturating_add(
                duration_nanos,
            ),
            remote_request_duration_count: self.remote_request_duration_count.saturating_add(1),
            remote_request_duration_buckets: buckets,
        }
    }
}

impl ReadFanoutMetrics {
    /// No reads.
    pub fn new() -> (res: Self)
        ensures
            res@ == (FanoutMetricsView {
                totals: no_reads(),
                operation_requests: Map::empty(),
                operation_failures: Map::empty(),
                peers: Seq::empty(),
            }),
            peers_sound(res@.peers),
    {
        let peers: Vec<ReadFanoutPeerMetricsSnapshot> = Vec::new();
        assert(views(peers@) =~= Seq::<PeerMetricsView>::empty());
        ReadFanoutMetrics {
            totals: ReadFanoutMetricsSnapshot {
                requests_total: 0,
                failures_total: 0,
                duration_nanos_total: 0,
                remote_requests_total: 0,
                remote_failures_total: 0,
                resource_rejections_total: 0,
                resource_acquire_wait_nanos_total: 0,
                resource_active_queries: 0,
                resource_active_merged_points: 0,
            },
            operation_requests: TextMap::new(),
            operation_failures: TextMap::new(),
            peers,
        }
    }

    /// Counts an operation that starts.
    pub fn track_fanout_operation_start(&mut self, operation: &str)
        ensures
            final(self)@ == operation_started(old(self)@, operation@),
    {
        self.totals.requests_total = self.totals.requests_total.wrapping_add(1);
        count_name(&mut self.operation_requests, operation);
    }

    /// Counts an operation that ends.
    pub fn track_fanout_operation_complete(
        &mut self,
        operation: &str,
        duration_nanos: u64,
        failed: bool,
    )
        ensures
            final(self)@ == operation_completed(
                old(self)@,
                operation@,
                duration_nanos,
                failed,
            ),
    {
        self.totals.duration_nanos_total = self.totals.duration_nanos_total.wrapping_add(
            duration_nanos,
        );
        if failed {
            self.totals.failures_total = self.totals.failures_total.wrapping_add(1);
            count_name(&mut self.operation_failures, operation);
        }
    }

    /// Counts a node that was asked.
    pub fn track_remote_request(
        &mut self,
        node_id: &str,
        operation: &str,
        duration_nanos: u64,
        failed: bool,
    )
        requires
            peers_sound(old(self)@.peers),
        ensures
            final(self)@ == remote_tracked(
                old(self)@,
                node_id@,
                operation@,
                duration_nanos,
                failed,
            ),
            peers_sound(final(self)@.peers),
    {
        let ghost start = self@;
        let ghost peers = views(self.peers@);
        let ghost wanted = peer_is(node_id@, operation@);
        self.totals.remote_requests_total = self.totals.remote_requests_total.wrapping_add(1);
        if failed {
            self.totals.remote_failures_total = self.totals.remote_failures_total.wrapping_add(1);
        }
        let ghost counted_totals = self@;
        let mut at: usize = 0;
        while at < self.peers.len() && !(same(&self.peers[at].node_id, node_id) && same(
            &self.peers[at].operation,
            operation,
        ))
            invariant
                at <= self.peers.len(),
                self@ == counted_totals,
                peers == views(self.peers@),
                wanted == peer_is(node_id@, operation@),
                forall|k: int| 0 <= k < at ==> !wanted(#[trigger] peers[k]),
            decreases self.peers.len() - at,
        {
            assert(peers[at as int] == self.peers@[at as int]@);
            at += 1;
        }
        proof {
            lemma_peers_counted(peers, node_id@, operation@, duration_nanos, failed);
        }
        if at < self.peers.len() {
            assert(peers[at as int] == self.peers@[at as int]@);
            proof {
                lemma_first_index_is(peers, wanted, at as int);
            }
            let peer = self.peers[at].copy();
            let next = peer.counted(duration_nanos, failed);
            self.peers.set(at, next);
            assert(views(self.peers@) =~= peers.update(
                at as int,
                peer_counted(peers[at as int], duration_nanos, failed),
            ));
        } else {
            proof {
                lemma_first_index(peers, wanted);
                assert(first_index(peers, wanted) is None);
            }
            let idle = ReadFanoutPeerMetricsSnapshot::idle(node_id, operation);
            let next = idle.counted(duration_nanos, failed);
            insert_ranked(&mut self.peers, next);
        }
    }

    /// Counts a read that was turned away.
    pub fn track_resource_rejection(&mut self)
        ensures
            final(self)@ == rejection_tracked(old(self)@),
    {
        self.totals.resource_rejections_total = self.totals.resource_rejections_total.wrapping_add(
            1,
        );
    }

    /// Counts a read that got its share of the resources after a wait.
    pub fn track_resource_acquired(&mut self, wait_nanos: u64, merged_points: u64)
        ensures
            final(self)@ == lease_tracked(old(self)@, wait_nanos, merged_points),
    {
        self.totals.resource_acquire_wait_nanos_total =
        self.totals.resource_acquire_wait_nanos_total.wrapping_add(wait_nanos);
        self.totals.resource_active_queries = self.totals.resource_active_queries.wrapping_add(1);
        self.totals.resource_active_merged_points =
        self.totals.resource_active_merged_points.wrapping_add(merged_points);
    }

    /// Counts a read that gave its share of the resources back.
    pub fn track_resource_released(&mut self, merged_points: u64)
        ensures
            final(self)@ == release_tracked(old(self)@, merged_points),
    {
        self.totals.resource_active_queries = self.totals.resource_active_queries.wrapping_sub(1);
        self.totals.resource_active_merged_points =
        self.totals.resource_active_merged_points.wrapping_sub(merged_points);
    }
}

proof fn lemma_peers_counted(
    peers: Seq<PeerMetricsView>,
    node_id: Seq<char>,
    operation: Seq<char>,
    duration_nanos: u64,
    failed: bool,
)
    requires
        peers_sound(peers),
    ensures
        peers_sound(peers_counted(peers, node_id, operation, duration_nanos, failed)),
{
    let wanted = peer_is(node_id, operation);
    lemma_first_index(peers, wanted);
    match first_index(peers, wanted) {
        Some(i) => {
            let out = peers.update(i, peer_counted(peers[i], duration_nanos, failed));
            assert forall|a: int, b: int| 0 <= a < b < out.len() implies peer_before(
                #[trigger] out[a],
                #[trigger] out[b],
            ) by {
                assert(peer_before(peers[a], peers[b]));
            }
        },
        None => {
            let fresh = peer_counted(idle_peer(node_id, operation), duration_nanos, failed);
            lemma_peer_placed(peers, fresh);
        },
    }
}

proof fn lemma_peer_total(a: PeerMetricsView, b: PeerMetricsView)
    ensures
        peer_before(a, b) || peer_before(b, a) || (a.node_id == b.node_id && a.operation
            == b.operation),
{
    crate::lists::lemma_text_less_total(a.node_id, b.node_id);
    crate::lists::lemma_text_less_total(a.operation, b.operation);
}

proof fn lemma_peer_transitive(a: PeerMetricsView, b: PeerMetricsView, c: PeerMetricsView)
    requires
        peer_before(a, b),
        peer_before(b, c),
    ensures
        peer_before(a, c),
{
    if text_less(a.node_id, b.node_id) && text_less(b.node_id, c.node_id) {
        crate::lists::lemma_text_less_transitive(a.node_id, b.node_id, c.node_id);
    }
    if text_less(a.operation, b.operation) && text_less(b.operation, c.operation) {
        crate::lists::lemma_text_less_transitive(a.operation, b.operation, c.operation);
    }
}

proof fn lemma_peer_placed(peers: Seq<PeerMetricsView>, fresh: PeerMetricsView)
    requires
        peers_sound(peers),
        fresh.remote_request_duration_buckets.len() == LATENCY_BUCKETS,
        forall|i: int|
            0 <= i < peers.len() ==> !((#[trigger] peers[i]).node_id == fresh.node_id
                && peers[i].operation == fresh.operation),
    ensures
        peers_sound(ranked_insert::<ReadFanoutPeerMetricsSnapshot>(peers, fresh)),
        forall|i: int|
            0 <= i < ranked_insert::<ReadFanoutPeerMetricsSnapshot>(peers, fresh).len() ==> (
            #[trigger] ranked_insert::<ReadFanoutPeerMetricsSnapshot>(peers, fresh)[i]) == fresh
                || peers.contains(
                ranked_insert::<ReadFanoutPeerMetricsSnapshot>(peers, fresh)[i],
            ),
    decreases peers.len(),
{
    let out = ranked_insert::<ReadFanoutPeerMetricsSnapshot>(peers, fresh);
    if peers.len() > 0 && peer_before(fresh, peers.last()) {
        let front = peers.drop_last();
        let inner = ranked_insert::<ReadFanoutPeerMetricsSnapshot>(front, fresh);
        assert forall|i: int| 0 <= i < front.len() implies #[trigger] front[i] == peers[i] by {}
        lemma_peer_placed(front, fresh);
        assert(out == inner.push(peers.last()));
        assert forall|a: int, b: int| 0 <= a < b < out.len() implies peer_before(
            #[trigger] out[a],
            #[trigger] out[b],
        ) by {
            assert(out[a] == inner[a]);
            if b < inner.len() {
                assert(out[b] == inner[b]);
            } else if inner[a] != fresh {
                let k = choose|k: int| 0 <= k < front.len() && front[k] == inner[a];
                assert(peers[k] == inner[a]);
                assert(peer_before(peers[k], peers[peers.len() - 1]));
            }
        }
        assert forall|i: int| 0 <= i < out.len() implies (#[trigger] out[i]) == fresh
            || peers.contains(out[i]) by {
            if i < inner.len() {
                assert(out[i] == inner[i]);
                if inner[i] != fresh {
                    let k = choose|k: int| 0 <= k < front.len() && front[k] == inner[i];
                    assert(peers[k] == out[i]);
                }
            } else {
                assert(out[i] == peers[peers.len() - 1]);
            }
        }
        assert forall|i: int| 0 <= i < out.len() implies (
        #[trigger] out[i]).remote_request_duration_buckets.len() == LATENCY_BUCKETS by {
            if out[i] != fresh {
                let k = choose|k: int| 0 <= k < peers.len() && peers[k] == out[i];
                assert(peers[k].remote_request_duration_buckets.len() == LATENCY_BUCKETS);
            }
        }
    } else {
        assert(out == peers.push(fresh));
        assert forall|a: int, b: int| 0 <= a < b < out.len() implies peer_before(
            #[trigger] out[a],
            #[trigger] out[b],
        ) by {
            assert(out[a] == peers[a]);
            if b < peers.len() {
                assert(out[b] == peers[b]);
            } else {
                let last = peers[peers.len() - 1];
                lemma_peer_total(last, fresh);
                if a < peers.len() - 1 {
                    lemma_peer_transitive(peers[a], last, fresh);
                }
            }
        }
        assert forall|i: int| 0 <= i < out.len() implies (#[trigger] out[i]) == fresh
            || peers.contains(out[i]) by {
            if i < peers.len() {
                assert(out[i] == peers[i]);
            }
        }
    }
}

/// The counts of reads as a whole.
pub fn read_fanout_metrics_snapshot(metrics: &ReadFanoutMetrics) -> (res: ReadFanoutMetricsSnapshot)
    ensures
        res == metrics@.totals,
{
    metrics.totals
}

/// The names of some operations.
pub open spec fn operation_names(operations: Seq<OperationMetricsView>) -> Seq<Seq<char>> {
    Seq::new(operations.len(), |i: int| operations[i].operation)
}

/// The counts by operation, in the order of their names, and by node and operation.
pub fn read_fanout_labeled_metrics_snapshot(metrics: &ReadFanoutMetrics) -> (res:
    ReadFanoutLabeledMetricsSnapshot)
    ensures
        texts_ascending(operation_names(views(res.operations@))),
        forall|name: Seq<char>| #[trigger]
            operation_names(views(res.operations@)).contains(name)
                <==> metrics@.operation_requests.dom().contains(name),
        forall|i: int|
            0 <= i < res.operations@.len() ==> (#[trigger] views(res.operations@)[i])
                == (OperationMetricsView {
                operation: res.operations@[i].operation@,
                requests_total: metrics@.operation_requests[res.operations@[i].operation@],
                failures_total: count_of(
                    metrics@.operation_failures,
                    res.operations@[i].operation@,
                ),
            }),
        views(res.peers@) == metrics@.peers,
{
    let count: usize = metrics.operation_requests.len();
    let ghost names = metrics.operation_requests.keys();
    let mut operations: Vec<ReadFanoutOperationMetricsSnapshot> = Vec::new();
    let mut i: usize = 0;
    while i < count
        invariant
            i <= count,
            count == names.len(),
            names == metrics.operation_requests.keys(),
            operations.len() == i,
            forall|k: int|
                0 <= k < i ==> (#[trigger] operations@[k])@ == (OperationMetricsView {
                    operation: names[k],
                    requests_total: metrics@.operation_requests[names[k]],
                    failures_total: count_of(metrics@.operation_failures, names[k]),
                }),
        decreases count - i,
    {
        let operation = owned(metrics.operation_requests.key_at(i));
        let failures_total: u64 = match metrics.operation_failures.get(&operation) {
            Some(n) => *n,
            None => 0,
        };
        operations.push(
            ReadFanoutOperationMetricsSnapshot {
                operation,
                requests_total: *metrics.operation_requests.value_at(i),
                failures_total,
            },
        );
        i += 1;
    }
    assert forall|k: int| 0 <= k < operations@.len() implies #[trigger] views(operations@)[k]
        == operations@[k]@ by {}
    assert(operation_names(views(operations@)) =~= names);
    let mut peers: Vec<ReadFanoutPeerMetricsSnapshot> = Vec::new();
    let ghost all = views(metrics.peers@);
    let mut p: usize = 0;
    while p < metrics.peers.len()
        invariant
            p <= metrics.peers.len(),
            all == views(metrics.peers@),
            views(peers@) =~= all.take(p as int),
        decreases metrics.peers.len() - p,
    {
        assert(all[p as int] == metrics.peers@[p as int]@);
        let peer = metrics.peers[p].copy();
        let ghost before = views(peers@);
        let ghost last = peer@;
        peers.push(peer);
        assert(views(peers@) =~= before.push(last));
        p += 1;
    }
    assert(views(peers@) =~= all);
    ReadFanoutLabeledMetricsSnapshot { operations, peers }
}

} // verus!
