//! Where the load of a cluster lies: what each shard and each tenant has been asked for.

use std::collections::BTreeMap;
use vstd::prelude::*;
use crate::clock::unix_timestamp_millis;
use crate::control::{bumped, saturated};
use crate::lists::{
    first_index, group_views, lemma_first_index, lemma_first_index_is, texts_ascending, views,
};
use crate::ring::{RingView, ShardRing};
use crate::rpc_types::{Label, LabelView, Row, RowView};
use crate::shard_map::{shards_ascending, shards_in_order};
use crate::text::{owned, same, trim, trimmed};
use crate::text_map::TextMap;

verus! {

broadcast use group_views;

/// What a shard has been asked for.
#[derive(Debug, Clone, Copy, PartialEq, Eq, Structural)]
pub struct HotspotShardCountersSnapshot {
    pub shard: u32,
    pub ingest_rows_total: u64,
    pub query_requests_total: u64,
    pub query_shard_hits_total: u64,
    pub repair_mismatches_total: u64,
    pub repair_series_gap_total: u64,
    pub repair_point_gap_total: u64,
    pub repair_rows_inserted_total: u64,
}

/// What a tenant has asked for.
#[derive(Debug, PartialEq, Eq)]
pub struct HotspotTenantCountersSnapshot {
    pub tenant_id: String,
    pub ingest_rows_total: u64,
    pub query_requests_total: u64,
    pub query_units_total: u64,
    pub repair_rows_inserted_total: u64,
}

/// What a tenant has asked for.
#[derive(Debug, Clone, Copy, PartialEq, Eq, Structural)]
pub struct HotspotTenantCounters {
    pub ingest_rows_total: u64,
    pub query_requests_total: u64,
    pub query_units_total: u64,
    pub repair_rows_inserted_total: u64,
}

/// What all shards and tenants have been asked for and have asked for, at some time.
#[derive(Debug, PartialEq, Eq)]
pub struct HotspotTrackerSnapshot {
    pub generated_unix_ms: u64,
    pub shards: Vec<HotspotShardCountersSnapshot>,
    pub tenants: Vec<HotspotTenantCountersSnapshot>,
}

/// Counts what shards and tenants are asked for and ask for. A row belongs to the tenant that its
/// tenant label names, or else to the default one.
#[derive(Debug)]
pub struct HotspotTracker {
    pub(crate) tenant_label: String,
    pub(crate) default_tenant_id: String,
    pub(crate) shards: BTreeMap<u32, HotspotShardCountersSnapshot>,
    pub(crate) tenants: TextMap<HotspotTenantCounters>,
}

/// What a [`HotspotTracker`] holds.
pub struct TrackerView {
    pub tenant_label: Seq<char>,
    pub default_tenant_id: Seq<char>,
    pub shards: Map<u32, HotspotShardCountersSnapshot>,
    pub tenants: Map<Seq<char>, HotspotTenantCounters>,
}

impl View for HotspotTracker {
    type V = TrackerView;

    open(crate) spec fn view(&self) -> TrackerView {
        TrackerView {
            tenant_label: self.tenant_label@,
            default_tenant_id: self.default_tenant_id@,
            shards: self.shards@,
            tenants: self.tenants@,
        }
    }
}

/// A shard that has not been asked for anything.
pub open spec fn idle_shard(shard: u32) -> HotspotShardCountersSnapshot {
    HotspotShardCountersSnapshot {
        shard,
        ingest_rows_total: 0,
        query_requests_total: 0,
        query_shard_hits_total: 0,
        repair_mismatches_total: 0,
        repair_series_gap_total: 0,
        repair_point_gap_total: 0,
        repair_rows_inserted_total: 0,
    }
}

/// A tenant that has not asked for anything.
pub open spec fn idle_tenant() -> HotspotTenantCounters {
    HotspotTenantCounters {
        ingest_rows_total: 0,
        query_requests_total: 0,
        query_units_total: 0,
        repair_rows_inserted_total: 0,
    }
}

/// What is counted for a shard.
pub open spec fn shard_counted(v: TrackerView, shard: u32) -> HotspotShardCountersSnapshot {
    if v.shards.dom().contains(shard) {
        v.shards[shard]
    } else {
        idle_shard(shard)
    }
}

/// What is counted for a tenant.
pub open spec fn tenant_counted(v: TrackerView, tenant: Seq<char>) -> HotspotTenantCounters {
    if v.tenants.dom().contains(tenant) {
        v.tenants[tenant]
    } else {
        idle_tenant()
    }
}

/// The counts with those of a shard replaced.
pub open spec fn with_shard(v: TrackerView, counters: HotspotShardCountersSnapshot) -> TrackerView {
    TrackerView { shards: v.shards.insert(counters.shard, counters), ..v }
}

/// The counts with those of a tenant replaced.
pub open spec fn with_tenant(
    v: TrackerView,
    tenant: Seq<char>,
    counters: HotspotTenantCounters,
) -> TrackerView {
    TrackerView { tenants: v.tenants.insert(tenant, counters), ..v }
}

/// Tells the labels with a name.
pub open spec fn label_named(name: Seq<char>) -> spec_fn(LabelView) -> bool {
    |label: LabelView| label.name == name
}

/// The tenant that some labels name.
pub open spec fn tenant_of(v: TrackerView, labels: Seq<LabelView>) -> Seq<char> {
    match first_index(labels, label_named(v.tenant_label)) {
        Some(i) => labels[i].value,
        None => v.default_tenant_id,
    }
}

/// A tenant's name without white space at its ends, or the default tenant where nothing is left.
pub open spec fn normal_tenant(v: TrackerView, tenant: Seq<char>) -> Seq<char> {
    if trimmed(tenant).len() == 0 {
        v.default_tenant_id
    } else {
        trimmed(tenant)
    }
}

/// The shard of a series on a ring.
pub open spec fn shard_of(ring: RingView, series_id: u64) -> u32 {
    (series_id as int % ring.shard_count as int) as u32
}

/// The counts after a row is stored.
pub open spec fn row_counted(
    v: TrackerView,
    ring: Option<RingView>,
    labels: Seq<LabelView>,
    series_id: u64,
) -> TrackerView {
    let tenant = tenant_of(v, labels);
    let before = tenant_counted(v, tenant);
    let w = with_tenant(
        v,
        tenant,
        HotspotTenantCounters { ingest_rows_total: bumped(before.ingest_rows_total), ..before },
    );
    match ring {
        None => w,
        Some(ring) => {
            let counters = shard_counted(w, shard_of(ring, series_id));
            with_shard(
                w,
                HotspotShardCountersSnapshot {
                    ingest_rows_total: bumped(counters.ingest_rows_total),
                    ..counters
                },
            )
        },
    }
}

/// The counts after the first `n` of some rows are stored; each row comes with the number of its
/// series.
pub open spec fn rows_counted(
    v: TrackerView,
    ring: Option<RingView>,
    rows: Seq<RowView>,
    series_ids: Seq<u64>,
    n: nat,
) -> TrackerView
    decreases n,
{
    if n == 0 {
        v
    } else {
        row_counted(
            rows_counted(v, ring, rows, series_ids, (n - 1) as nat),
            ring,
            rows[n - 1].labels,
            series_ids[n - 1],
        )
    }
}

/// The counts after a query asked some shards.
pub open spec fn plan_counted(v: TrackerView, shards: Seq<u32>) -> TrackerView
    decreases shards.len(),
{
    if shards.len() == 0 {
        v
    } else {
        let before = plan_counted(v, shards.drop_last());
        let counters = shard_counted(before, shards.last());
        with_shard(
            before,
            HotspotShardCountersSnapshot {
                query_shard_hits_total: bumped(counters.query_shard_hits_total),
                query_requests_total: bumped(counters.query_requests_total),
                ..counters
            },
        )
    }
}

/// The counts after a tenant asked for something: at least one request.
pub open spec fn tenant_query_counted(
    v: TrackerView,
    tenant: Seq<char>,
    requests: u64,
    units: u64,
) -> TrackerView {
    let id = normal_tenant(v, tenant);
    let before = tenant_counted(v, id);
    with_tenant(
        v,
        id,
        HotspotTenantCounters {
            query_requests_total: saturated(
                before.query_requests_total,
                if requests == 0 {
                    1
                } else {
                    requests
                },
            ),
            query_units_total: saturated(before.query_units_total, units),
            ..before
        },
    )
}

/// The counts after replicas of a shard were found to differ.
pub open spec fn mismatch_counted(
    v: TrackerView,
    shard: u32,
    series_gap: u64,
    point_gap: u64,
) -> TrackerView {
    let before = shard_counted(v, shard);
    with_shard(
        v,
        HotspotShardCountersSnapshot {
            repair_mismatches_total: bumped(before.repair_mismatches_total),
            repair_series_gap_total: saturated(before.repair_series_gap_total, series_gap),
            repair_point_gap_total: saturated(before.repair_point_gap_total, point_gap),
            ..before
        },
    )
}

/// The counts of the tenants after the first `n` of some rows were repaired.
pub open spec fn repairs_counted(v: TrackerView, rows: Seq<RowView>, n: nat) -> TrackerView
    decreases n,
{
    if n == 0 {
        v
    } else {
        let before = repairs_counted(v, rows, (n - 1) as nat);
        let tenant = tenant_of(before, rows[n - 1].labels);
        let counters = tenant_counted(before, tenant);
        with_tenant(
            before,
            tenant,
            HotspotTenantCounters {
                repair_rows_inserted_total: bumped(counters.repair_rows_inserted_total),
                ..counters
            },
        )
    }
}

/// The counts after some rows of a shard were repaired.
pub open spec fn repair_counted(v: TrackerView, shard: u32, rows: Seq<RowView>) -> TrackerView {
    if rows.len() == 0 {
        v
    } else {
        let before = shard_counted(v, shard);
        repairs_counted(
            with_shard(
                v,
                HotspotShardCountersSnapshot {
                    repair_rows_inserted_total: saturated(
                        before.repair_rows_inserted_total,
                        rows.len() as u64,
                    ),
                    ..before
                },
            ),
            rows,
            rows.len(),
        )
    }
}

/// What a [`HotspotTenantCountersSnapshot`] says of a tenant.
pub open spec fn tenant_snapshot_says(
    snapshot: HotspotTenantCountersSnapshot,
    counters: HotspotTenantCounters,
) -> bool {
    &&& snapshot.ingest_rows_total == counters.ingest_rows_total
    &&& snapshot.query_requests_total == counters.query_requests_total
    &&& snapshot.query_units_total == counters.query_units_total
    &&& snapshot.repair_rows_inserted_total == counters.repair_rows_inserted_total
}

/// The names of some tenants.
pub open spec fn tenant_names(tenants: Seq<HotspotTenantCountersSnapshot>) -> Seq<Seq<char>> {
    Seq::new(tenants.len(), |i: int| tenants[i].tenant_id@)
}

/// The numbers of some shards.
pub open spec fn shard_numbers(shards: Seq<HotspotShardCountersSnapshot>) -> Seq<u32> {
    Seq::new(shards.len(), |i: int| shards[i].shard)
}

/// Every shard is counted under its own number.
pub open spec fn tracker_sound(v: TrackerView) -> bool {
    forall|shard: u32| #[trigger] v.shards.dom().contains(shard) ==> v.shards[shard].shard == shard
}

/// A snapshot lists every shard and every tenant that anything is counted for, in order.
pub open spec fn snapshot_holds(snapshot: HotspotTrackerSnapshot, v: TrackerView) -> bool {
    let shards = snapshot.shards@;
    let tenants = snapshot.tenants@;
    &&& shards_ascending(shard_numbers(shards))
    &&& forall|shard: u32| #[trigger]
        shard_numbers(shards).contains(shard) <==> v.shards.dom().contains(shard)
    &&& forall|i: int| 0 <= i < shards.len() ==> #[trigger] shards[i] == v.shards[shards[i].shard]
    &&& texts_ascending(tenant_names(tenants))
    &&& forall|tenant: Seq<char>| #[trigger]
        tenant_names(tenants).contains(tenant) <==> v.tenants.dom().contains(tenant)
    &&& forall|i: int|
        0 <= i < tenants.len() ==> tenant_snapshot_says(
            #[trigger] tenants[i],
            v.tenants[tenants[i].tenant_id@],
        )
}

/// The ring that rows go by, if there is one.
pub open spec fn opt_ring(ring: Option<&ShardRing>) -> Option<RingView> {
    match ring {
        Some(ring) => Some(ring@),
        None => None,
    }
}

impl HotspotTracker {
    /// A tracker that has counted nothing.
    pub fn new(tenant_label: String, default_tenant_id: String) -> (res: Self)
        ensures
            res@ == (TrackerView {
                tenant_label: tenant_label@,
                default_tenant_id: default_tenant_id@,
                shards: Map::empty(),
                tenants: Map::empty(),
            }),
            tracker_sound(res@),
    {
        HotspotTracker {
            tenant_label,
            default_tenant_id,
            shards: BTreeMap::new(),
            tenants: TextMap::new(),
        }
    }

    pub(crate) fn shard_counters(&self, shard: u32) -> (res: HotspotShardCountersSnapshot)
        ensures
            res == shard_counted(self@, shard),
    {
        match self.shards.get(&shard) {
            Some(counters) => *counters,
            None => HotspotShardCountersSnapshot {
                shard,
                ingest_rows_total: 0,
                query_requests_total: 0,
                query_shard_hits_total: 0,
                repair_mismatches_total: 0,
                repair_series_gap_total: 0,
                repair_point_gap_total: 0,
                repair_rows_inserted_total: 0,
            },
        }
    }

    pub(crate) fn tenant_counters(&self, tenant: &str) -> (res: HotspotTenantCounters)
        ensures
            res == tenant_counted(self@, tenant@),
    {
        match self.tenants.get(tenant) {
            Some(counters) => *counters,
            None => HotspotTenantCounters {
                ingest_rows_total: 0,
                query_requests_total: 0,
                query_units_total: 0,
                repair_rows_inserted_total: 0,
            },
        }
    }

    /// The tenant that some labels name.
    pub fn tenant_id_from_labels(&self, labels: &Vec<Label>) -> (res: String)
        ensures
            res@ == tenant_of(self@, views(labels@)),
    {
        let ghost all = views(labels@);
        let ghost wanted = self@.tenant_label;
        let mut i: usize = 0;
        while i < labels.len()
            invariant
                i <= labels.len(),
                all == views(labels@),
                wanted == self@.tenant_label,
                wanted == self.tenant_label@,
                forall|k: int| 0 <= k < i ==> !label_named(wanted)(#[trigger] all[k]),
            decreases labels.len() - i,
        {
            assert(all[i as int] == labels@[i as int]@);
            if same(&labels[i].name, &self.tenant_label) {
                proof {
                    lemma_first_index_is(all, label_named(wanted), i as int);
                }
                return labels[i].value.clone();
            }
            i += 1;
        }
        proof {
            lemma_first_index(all, label_named(wanted));
        }
        self.default_tenant_id.clone()
    }

    /// A tenant's name without white space at its ends, or the default tenant where nothing is left.
    pub fn normalize_tenant_id(&self, tenant_id: &str) -> (res: String)
        ensures
            res@ == normal_tenant(self@, tenant_id@),
    {
        let id = trim(tenant_id);
        if id.is_empty() {
            self.default_tenant_id.clone()
        } else {
            owned(id)
        }
    }

    fn put_shard(&mut self, counters: HotspotShardCountersSnapshot)
        ensures
            final(self)@ == with_shard(old(self)@, counters),
    {
        self.shards.insert(counters.shard, counters);
    }

    fn put_tenant(&mut self, tenant: String, counters: HotspotTenantCounters)
        ensures
            final(self)@ == with_tenant(old(self)@, tenant@, counters),
    {
        self.tenants.insert(tenant, counters);
    }
}

/// Counts rows that are stored; each comes with the number of its series.
pub fn record_ingest_rows(
    tracker: &mut HotspotTracker,
    ring: Option<&ShardRing>,
    rows: &Vec<Row>,
    series_ids: &Vec<u64>,
)
    requires
        rows.len() == series_ids.len(),
        tracker_sound(old(tracker)@),
    ensures
        final(tracker)@ == rows_counted(
            old(tracker)@,
            opt_ring(ring),
            views(rows@),
            series_ids@,
            rows@.len(),
        ),
        tracker_sound(final(tracker)@),
{
    let ghost start = tracker@;
    let ghost all = views(rows@);
    let mut i: usize = 0;
    while i < rows.len()
        invariant
            i <= rows.len(),
            rows.len() == series_ids.len(),
            all == views(rows@),
            start == old(tracker)@,
            tracker_sound(tracker@),
            tracker@ == rows_counted(start, opt_ring(ring), all, series_ids@, i as nat),
        decreases rows.len() - i,
    {
        assert(all[i as int] == rows@[i as int]@);
        let tenant = tracker.tenant_id_from_labels(&rows[i].labels);
        let mut counters = tracker.tenant_counters(&tenant);
        counters.ingest_rows_total = counters.ingest_rows_total.saturating_add(1);
        tracker.put_tenant(tenant, counters);
        if let Some(ring) = ring {
            let shard: u32 = ring.shard_for_series_id(series_ids[i]);
            let mut counters = tracker.shard_counters(shard);
            counters.ingest_rows_total = counters.ingest_rows_total.saturating_add(1);
            tracker.put_shard(counters);
        }
        i += 1;
    }
}

/// Counts a query that asks some shards.
pub fn record_query_plan(tracker: &mut HotspotTracker, candidate_shards: &Vec<u32>)
    requires
        tracker_sound(old(tracker)@),
    ensures
        final(tracker)@ == plan_counted(old(tracker)@, candidate_shards@),
        tracker_sound(final(tracker)@),
{
    let ghost start = tracker@;
    let ghost all = candidate_shards@;
    let mut i: usize = 0;
    while i < candidate_shards.len()
        invariant
            i <= candidate_shards.len(),
            all == candidate_shards@,
            start == old(tracker)@,
            tracker_sound(tracker@),
            tracker@ == plan_counted(start, all.take(i as int)),
        decreases candidate_shards.len() - i,
    {
        assert(all.take(i + 1).drop_last() =~= all.take(i as int));
        assert(all.take(i + 1).last() == candidate_shards@[i as int]);
        let mut counters = tracker.shard_counters(candidate_shards[i]);
        counters.query_shard_hits_total = counters.query_shard_hits_total.saturating_add(1);
        counters.query_requests_total = counters.query_requests_total.saturating_add(1);
        tracker.put_shard(counters);
        i += 1;
    }
    assert(all.take(i as int) =~= all);
}

/// Counts what a tenant asks for.
pub fn record_tenant_query(tracker: &mut HotspotTracker, tenant_id: &str, requests: u64, units: u64)
    requires
        tracker_sound(old(tracker)@),
    ensures
        final(tracker)@ == tenant_query_counted(old(tracker)@, tenant_id@, requests, units),
        tracker_sound(final(tracker)@),
{
    let id = tracker.normalize_tenant_id(tenant_id);
    let mut counters = tracker.tenant_counters(&id);
    let asked: u64 = if requests == 0 {
        1
    } else {
        requests
    };
    counters.query_requests_total = counters.query_requests_total.saturating_add(asked);
    counters.query_units_total = counters.query_units_total.saturating_add(units);
    tracker.put_tenant(id, counters);
}

/// Counts replicas of a shard that differ.
pub fn record_repair_mismatch(
    tracker: &mut HotspotTracker,
    shard: u32,
    series_gap: u64,
    point_gap: u64,
)
    requires
        tracker_sound(old(tracker)@),
    ensures
        final(tracker)@ == mismatch_counted(old(tracker)@, shard, series_gap, point_gap),
        tracker_sound(final(tracker)@),
{
    let mut counters = tracker.shard_counters(shard);
    counters.repair_mismatches_total = counters.repair_mismatches_total.saturating_add(1);
    counters.repair_series_gap_total = counters.repair_series_gap_total.saturating_add(series_gap);
    counters.repair_point_gap_total = counters.repair_point_gap_total.saturating_add(point_gap);
    tracker.put_shard(counters);
}

/// Counts rows of a shard that were repaired.
pub fn record_repair_rows_inserted(tracker: &mut HotspotTracker, shard: u32, rows: &Vec<Row>)
    requires
        tracker_sound(old(tracker)@),
    ensures
        final(tracker)@ == repair_counted(old(tracker)@, shard, views(rows@)),
        tracker_sound(final(tracker)@),
{
    let ghost all = views(rows@);
    assert(all.len() == rows.len());
    if rows.len() == 0 {
        return;
    }
    let mut counters = tracker.shard_counters(shard);
    counters.repair_rows_inserted_total = counters.repair_rows_inserted_total.saturating_add(
        rows.len() as u64,
    );
    tracker.put_shard(counters);
    let ghost start = tracker@;
    let mut i: usize = 0;
    while i < rows.len()
        invariant
            i <= rows.len(),
            all == views(rows@),
            tracker_sound(tracker@),
            repair_counted(old(tracker)@, shard, all) == repairs_counted(start, all, all.len()),
            tracker@ == repairs_counted(start, all, i as nat),
        decreases rows.len() - i,
    {
        assert(all[i as int] == rows@[i as int]@);
        let tenant = tracker.tenant_id_from_labels(&rows[i].labels);
        let mut counters = tracker.tenant_counters(&tenant);
        counters.repair_rows_inserted_total = counters.repair_rows_inserted_total.saturating_add(1);
        tracker.put_tenant(tenant, counters);
        i += 1;
    }
}

/// All counts at `now_ms`.
pub fn hotspot_tracker_snapshot_at(tracker: &HotspotTracker, now_ms: u64) -> (res:
    HotspotTrackerSnapshot)
    requires
        tracker_sound(tracker@),
    ensures
        res.generated_unix_ms == now_ms,
        snapshot_holds(res, tracker@),
{
    let order = shards_in_order(&tracker.shards);
    let ghost numbers = order@;
    let mut shards: Vec<HotspotShardCountersSnapshot> = Vec::new();
    let mut i: usize = 0;
    while i < order.len()
        invariant
            i <= order.len(),
            numbers == order@,
            forall|shard: u32| #[trigger]
                numbers.contains(shard) <==> tracker@.shards.dom().contains(shard),
            tracker_sound(tracker@),
            shards.len() == i,
            forall|k: int|
                0 <= k < i ==> (#[trigger] shards@[k]) == tracker@.shards[numbers[k]]
                    && shards@[k].shard == numbers[k],
        decreases order.len() - i,
    {
        let shard: u32 = order[i];
        assert(numbers.contains(shard));
        shards.push(tracker.shard_counters(shard));
        i += 1;
    }
    assert(shard_numbers(shards@) =~= numbers);
    let total: usize = tracker.tenants.len();
    let ghost names = tracker.tenants.keys();
    let mut tenants: Vec<HotspotTenantCountersSnapshot> = Vec::new();
    let mut t: usize = 0;
    while t < total
        invariant
            t <= total,
            total == names.len(),
            names == tracker.tenants.keys(),
            tenants.len() == t,
            forall|k: int|
                0 <= k < t ==> (#[trigger] tenants@[k]).tenant_id@ == names[k]
                    && tenant_snapshot_says(tenants@[k], tracker@.tenants[names[k]]),
        decreases total - t,
    {
        let counters: HotspotTenantCounters = *tracker.tenants.value_at(t);
        tenants.push(
            HotspotTenantCountersSnapshot {
                tenant_id: owned(tracker.tenants.key_at(t)),
                ingest_rows_total: counters.ingest_rows_total,
                query_requests_total: counters.query_requests_total,
                query_units_total: counters.query_units_total,
                repair_rows_inserted_total: counters.repair_rows_inserted_total,
            },
        );
        t += 1;
    }
    assert(tenant_names(tenants@) =~= names);
    HotspotTrackerSnapshot { generated_unix_ms: now_ms, shards, tenants }
}

/// All counts now.
pub fn hotspot_tracker_snapshot(tracker: &HotspotTracker) -> (res: HotspotTrackerSnapshot)
    requires
        tracker_sound(tracker@),
    ensures
        snapshot_holds(res, tracker@),
{
    hotspot_tracker_snapshot_at(tracker, unix_timestamp_millis())
}

} // verus!
