//! What load lies on the shards and tenants of a cluster, and which of them are the hottest.

use std::collections::{BTreeMap, BTreeSet};
use vstd::prelude::*;
use vstd::wrapping::u64_specs::wrapping_add;
use crate::control::{phase_terminal, saturated, ControlState, TransitionView};
use crate::hotspot::{
    normal_tenant, opt_ring, shard_counted, shard_of, tenant_counted, tenant_of, HotspotTracker,
    TrackerView,
};
use crate::lists::{group_views, ranked_sort, sort_ranked, texts_ascending, views, Ranked};
use crate::ring::{RingView, ShardRing};
use crate::rpc_types::{MetricSeries, SeriesView};
use crate::shard_map::{set_in_order, shards_ascending, shards_in_order};
use crate::text::{less, opt_str, owned, same, text_less};
use crate::text_map::TextMap;

verus! {

broadcast use group_views;

/// How many shards and tenants are reported where no number is asked for.
pub const DEFAULT_TOP_N: usize = 8;

/// The load of a shard.
#[derive(Debug, Clone, Copy, PartialEq, Eq, Structural)]
pub struct ShardLoad {
    pub shard: u32,
    pub ingest_rows_total: u64,
    pub query_shard_hits_total: u64,
    pub storage_series: u64,
    pub repair_mismatches_total: u64,
    pub repair_series_gap_total: u64,
    pub repair_point_gap_total: u64,
    pub repair_rows_inserted_total: u64,
    pub handoff_pending_rows: u64,
}

/// The loads of all shards that have any, with their sums. A sum that does not fit wraps round.
#[derive(Debug, PartialEq, Eq)]
pub struct ShardLoads {
    pub shards: Vec<ShardLoad>,
    pub slots: usize,
    pub total_ingest: u64,
    pub total_query: u64,
    pub total_storage: u64,
    pub total_repair: u64,
}

/// What a tenant uses.
#[derive(Debug, Clone, Copy, PartialEq, Eq, Structural)]
pub struct TenantUsage {
    pub ingest_rows_total: u64,
    pub query_requests_total: u64,
    pub query_units_total: u64,
    pub storage_series: u64,
    pub repair_rows_inserted_total: u64,
}

/// The load of a tenant.
#[derive(Debug, PartialEq, Eq)]
pub struct TenantLoad {
    pub tenant_id: String,
    pub usage: TenantUsage,
}

/// What a [`TenantLoad`] holds.
pub struct TenantLoadView {
    pub tenant_id: Seq<char>,
    pub usage: TenantUsage,
}

impl View for TenantLoad {
    type V = TenantLoadView;

    open spec fn view(&self) -> TenantLoadView {
        TenantLoadView { tenant_id: self.tenant_id@, usage: self.usage }
    }
}

/// The loads of all tenants that have any, with their sums. A sum that does not fit wraps round.
#[derive(Debug, PartialEq, Eq)]
pub struct TenantLoads {
    pub tenants: Vec<TenantLoad>,
    pub slots: usize,
    pub total_ingest: u64,
    pub total_query_requests: u64,
    pub total_query_units: u64,
    pub total_storage: u64,
    pub total_repair: u64,
}

/// The value of a key, if it has one.
pub open spec fn value_of<K, V>(map: Map<K, V>, key: K) -> Option<V> {
    if map.dom().contains(key) {
        Some(map[key])
    } else {
        None
    }
}

/// How many series are stored on a shard.
pub open spec fn series_on(ring: Option<RingView>, series_ids: Seq<u64>, shard: u32) -> nat
    decreases series_ids.len(),
{
    if series_ids.len() == 0 {
        0
    } else {
        match ring {
            Some(ring_view) => {
                let before = series_on(ring, series_ids.drop_last(), shard);
                if shard_of(ring_view, series_ids.last()) == shard {
                    before + 1
                } else {
                    before
                }
            },
            None => 0,
        }
    }
}

/// How many rows are still to be handed over on a shard by the handoffs under way, if there are any.
pub open spec fn pending_on(transitions: Seq<TransitionView>, shard: u32) -> Option<u64>
    decreases transitions.len(),
{
    if transitions.len() == 0 {
        None
    } else {
        let before = pending_on(transitions.drop_last(), shard);
        let last = transitions.last();
        if last.shard == shard && !phase_terminal(last.handoff.phase) {
            Some(saturated(or_zero(before), last.handoff.pending_rows))
        } else {
            before
        }
    }
}

/// A count, or zero where nothing was counted.
pub open spec fn or_zero(count: Option<u64>) -> u64 {
    match count {
        Some(n) => n,
        None => 0,
    }
}

/// The moves of shards that a control state knows of.
pub open spec fn transitions_of(state: Option<&ControlState>) -> Seq<TransitionView> {
    match state {
        Some(state) => state@.transitions,
        None => Seq::empty(),
    }
}

/// The load of a shard.
pub open spec fn shard_load(
    v: TrackerView,
    ring: Option<RingView>,
    series_ids: Seq<u64>,
    transitions: Seq<TransitionView>,
    shard: u32,
) -> ShardLoad {
    let counters = shard_counted(v, shard);
    ShardLoad {
        shard,
        ingest_rows_total: counters.ingest_rows_total,
        query_shard_hits_total: counters.query_shard_hits_total,
        storage_series: series_on(ring, series_ids, shard) as u64,
        repair_mismatches_total: counters.repair_mismatches_total,
        repair_series_gap_total: counters.repair_series_gap_total,
        repair_point_gap_total: counters.repair_point_gap_total,
        repair_rows_inserted_total: counters.repair_rows_inserted_total,
        handoff_pending_rows: or_zero(pending_on(transitions, shard)),
    }
}

/// Whether anything is known of a shard: a count, a stored series or a handoff under way.
pub open spec fn shard_known(
    v: TrackerView,
    ring: Option<RingView>,
    series_ids: Seq<u64>,
    transitions: Seq<TransitionView>,
    shard: u32,
) -> bool {
    ||| v.shards.dom().contains(shard)
    ||| series_on(ring, series_ids, shard) > 0
    ||| pending_on(transitions, shard) is Some
}

/// The sum of a part of each element, modulo 2^64.
pub open spec fn sum_of<A>(s: Seq<A>, part: spec_fn(A) -> u64) -> u64
    decreases s.len(),
{
    if s.len() == 0 {
        0
    } else {
        wrapping_add(sum_of(s.drop_last(), part), part(s.last()))
    }
}

pub open spec fn shard_ingest() -> spec_fn(ShardLoad) -> u64 {
    |load: ShardLoad| load.ingest_rows_total
}

pub open spec fn shard_query() -> spec_fn(ShardLoad) -> u64 {
    |load: ShardLoad| load.query_shard_hits_total
}

pub open spec fn shard_storage() -> spec_fn(ShardLoad) -> u64 {
    |load: ShardLoad| load.storage_series
}

pub open spec fn shard_handoff() -> spec_fn(ShardLoad) -> u64 {
    |load: ShardLoad| load.handoff_pending_rows
}

pub open spec fn shard_gap() -> spec_fn(ShardLoad) -> u64 {
    |load: ShardLoad| load.repair_point_gap_total
}

pub open spec fn shard_repaired() -> spec_fn(ShardLoad) -> u64 {
    |load: ShardLoad| load.repair_rows_inserted_total
}

/// The numbers of some shards.
pub open spec fn load_numbers(loads: Seq<ShardLoad>) -> Seq<u32> {
    Seq::new(loads.len(), |i: int| loads[i].shard)
}

/// Whether some loads are those of all shards of which anything is known, in the order of the
/// shards.
pub open spec fn are_shard_loads(
    loads: Seq<ShardLoad>,
    v: TrackerView,
    ring: Option<RingView>,
    series_ids: Seq<u64>,
    transitions: Seq<TransitionView>,
) -> bool {
    &&& shards_ascending(load_numbers(loads))
    &&& forall|shard: u32| #[trigger]
        load_numbers(loads).contains(shard) <==> shard_known(
            v,
            ring,
            series_ids,
            transitions,
            shard,
        )
    &&& forall|i: int|
        0 <= i < loads.len() ==> #[trigger] loads[i] == shard_load(
            v,
            ring,
            series_ids,
            transitions,
            loads[i].shard,
        )
}

/// At least one.
pub open spec fn slots_of(len: nat) -> nat {
    if len == 0 {
        1
    } else {
        len
    }
}

/// Adds the shards of a map to a set of shards.
fn add_shards<V>(known: &mut BTreeSet<u32>, from: &BTreeMap<u32, V>)
    ensures
        forall|shard: u32| #[trigger]
            final(known)@.contains(shard) <==> old(known)@.contains(shard)
                || from@.dom().contains(shard),
{
    let order = shards_in_order(from);
    let ghost numbers = order@;
    let ghost before = known@;
    let mut i: usize = 0;
    while i < order.len()
        invariant
            i <= order.len(),
            numbers == order@,
            forall|shard: u32| #[trigger]
                known@.contains(shard) <==> before.contains(shard) || numbers.take(
                    i as int,
                ).contains(shard),
        decreases order.len() - i,
    {
        let shard: u32 = order[i];
        known.insert(shard);
        assert(numbers.take(i + 1) =~= numbers.take(i as int).push(shard));
        assert forall|s: u32| #[trigger]
            known@.contains(s) <==> before.contains(s) || numbers.take(i + 1).contains(s) by {
            let head = numbers.take(i as int);
            assert(head.push(shard).contains(s) <==> head.contains(s) || s == shard) by {
                if head.contains(s) {
                    let k = choose|k: int| 0 <= k < head.len() && head[k] == s;
                    assert(head.push(shard)[k] == s);
                }
                assert(head.push(shard)[head.len() as int] == shard);
            }
        }
        i += 1;
    }
    assert(numbers.take(i as int) =~= numbers);
}

/// How many of some series are stored on each shard.
fn count_series(ring: Option<&ShardRing>, series_ids: &Vec<u64>) -> (res: BTreeMap<u32, u64>)
    ensures
        forall|shard: u32|
            (#[trigger] value_of(res@, shard)) == (if series_on(
                opt_ring(ring),
                series_ids@,
                shard,
            ) == 0 {
                None
            } else {
                Some(series_on(opt_ring(ring), series_ids@, shard) as u64)
            }),
        forall|shard: u32| series_on(opt_ring(ring), series_ids@, shard) <= u64::MAX,
{
    let mut counts: BTreeMap<u32, u64> = BTreeMap::new();
    let ghost all = series_ids@;
    let ghost place = opt_ring(ring);
    match ring {
        None => {
            assert(forall|shard: u32| #[trigger] series_on(place, all, shard) == 0);
        },
        Some(ring) => {
            let mut i: usize = 0;
            assert(all.take(0).len() == 0);
            while i < series_ids.len()
                invariant
                    i <= series_ids.len(),
                    all == series_ids@,
                    place == Some(ring@),
                    forall|shard: u32| #[trigger] series_on(place, all.take(i as int), shard) <= i,
                    forall|shard: u32|
                        (#[trigger] value_of(counts@, shard)) == (if series_on(
                            place,
                            all.take(i as int),
                            shard,
                        ) == 0 {
                            None
                        } else {
                            Some(series_on(place, all.take(i as int), shard) as u64)
                        }),
                decreases series_ids.len() - i,
            {
                let ghost before = counts@;
                let ghost head = all.take(i as int);
                assert(all.take(i + 1).drop_last() =~= head);
                assert(all.take(i + 1).last() == all[i as int]);
                let shard: u32 = ring.shard_for_series_id(series_ids[i]);
                assert(shard == shard_of(ring@, all[i as int]));
                let n: u64 = match counts.get(&shard) {
                    Some(n) => *n,
                    None => 0,
                };
                assert(value_of(before, shard) is Some ==> value_of(before, shard) == Some(n));
                assert(n == series_on(place, head, shard));
                counts.insert(shard, n + 1);
                assert forall|s: u32| (#[trigger] value_of(counts@, s)) == (if series_on(
                    place,
                    all.take(i + 1),
                    s,
                ) == 0 {
                    None
                } else {
                    Some(series_on(place, all.take(i + 1), s) as u64)
                }) by {
                    assert(value_of(before, s) == (if series_on(place, head, s) == 0 {
                        None
                    } else {
                        Some(series_on(place, head, s) as u64)
                    }));
                }
                assert forall|s: u32| #[trigger] series_on(place, all.take(i + 1), s) <= i + 1 by {
                    assert(series_on(place, head, s) <= i);
                }
                i += 1;
            }
            assert(all.take(i as int) =~= all);
        },
    }
    counts
}

/// How many rows are still to be handed over on each shard that is being moved.
fn count_pending(state: Option<&ControlState>) -> (res: BTreeMap<u32, u64>)
    ensures
        forall|shard: u32| #[trigger]
            value_of(res@, shard) == pending_on(transitions_of(state), shard),
{
    let mut counts: BTreeMap<u32, u64> = BTreeMap::new();
    if let Some(state) = state {
        let ghost all = state@.transitions;
        let mut i: usize = 0;
        assert(all.take(0).len() == 0);
        while i < state.transitions.len()
            invariant
                i <= state.transitions.len(),
                all == views(state.transitions@),
                forall|shard: u32| #[trigger]
                    value_of(counts@, shard) == pending_on(all.take(i as int), shard),
            decreases state.transitions.len() - i,
        {
            let ghost before = counts@;
            let ghost head = all.take(i as int);
            assert(all.take(i + 1).drop_last() =~= head);
            assert(all.take(i + 1).last() == all[i as int]);
            assert(all[i as int] == state.transitions@[i as int]@);
            let transition = &state.transitions[i];
            if transition.handoff.phase.is_active() {
                let n: u64 = match counts.get(&transition.shard) {
                    Some(n) => *n,
                    None => 0,
                };
                assert(n == or_zero(value_of(before, transition.shard)));
                counts.insert(
                    transition.shard,
                    n.saturating_add(transition.handoff.pending_rows),
                );
            }
            assert forall|s: u32| #[trigger] value_of(counts@, s) == pending_on(
                all.take(i + 1),
                s,
            ) by {
                assert(value_of(before, s) == pending_on(head, s));
            }
            i += 1;
        }
        assert(all.take(i as int) =~= all);
    }
    counts
}

/// The loads of all shards of which anything is known, in the order of the shards. Each stored
/// series is given by its number.
pub fn shard_loads(
    tracker: &HotspotTracker,
    ring: Option<&ShardRing>,
    series_ids: &Vec<u64>,
    control_state: Option<&ControlState>,
) -> (res: ShardLoads)
    ensures
        are_shard_loads(
            res.shards@,
            tracker@,
            opt_ring(ring),
            series_ids@,
            transitions_of(control_state),
        ),
        res.slots == slots_of(res.shards@.len()),
        res.total_ingest == sum_of(res.shards@, shard_ingest()),
        res.total_query == sum_of(res.shards@, shard_query()),
        res.total_storage == sum_of(res.shards@, shard_storage()),
        res.total_repair == saturated(
            saturated(sum_of(res.shards@, shard_handoff()), sum_of(res.shards@, shard_gap())),
            sum_of(res.shards@, shard_repaired()),
        ),
{
    let ghost place = opt_ring(ring);
    let ghost moves = transitions_of(control_state);
    let stored = count_series(ring, series_ids);
    let pending = count_pending(control_state);
    let mut known: BTreeSet<u32> = BTreeSet::new();
    add_shards(&mut known, &tracker.shards);
    add_shards(&mut known, &stored);
    add_shards(&mut known, &pending);
    assert forall|shard: u32| #[trigger] known@.contains(shard) <==> shard_known(
        tracker@,
        place,
        series_ids@,
        moves,
        shard,
    ) by {
        assert(stored@.dom().contains(shard) <==> value_of(stored@, shard) is Some);
        assert(pending@.dom().contains(shard) <==> value_of(pending@, shard) is Some);
    }
    let order = set_in_order(&known);
    let ghost numbers = order@;
    let mut shards: Vec<ShardLoad> = Vec::new();
    let mut ingest: u64 = 0;
    let mut query: u64 = 0;
    let mut storage: u64 = 0;
    let mut handoff: u64 = 0;
    let mut gap: u64 = 0;
    let mut repaired: u64 = 0;
    let mut i: usize = 0;
    while i < order.len()
        invariant
            i <= order.len(),
            numbers == order@,
            shards.len() == i,
            place == opt_ring(ring),
            forall|shard: u32|
                (#[trigger] value_of(stored@, shard)) == (if series_on(place, series_ids@, shard)
                    == 0 {
                    None
                } else {
                    Some(series_on(place, series_ids@, shard) as u64)
                }),
            forall|shard: u32| #[trigger]
                value_of(pending@, shard) == pending_on(moves, shard),
            forall|k: int|
                0 <= k < i ==> (#[trigger] shards@[k]) == shard_load(
                    tracker@,
                    place,
                    series_ids@,
                    moves,
                    numbers[k],
                ),
            ingest == sum_of(shards@, shard_ingest()),
            query == sum_of(shards@, shard_query()),
            storage == sum_of(shards@, shard_storage()),
            handoff == sum_of(shards@, shard_handoff()),
            gap == sum_of(shards@, shard_gap()),
            repaired == sum_of(shards@, shard_repaired()),
        decreases order.len() - i,
    {
        let shard: u32 = order[i];
        let counters = tracker.shard_counters(shard);
        let storage_series: u64 = match stored.get(&shard) {
            Some(n) => *n,
            None => 0,
        };
        let handoff_pending_rows: u64 = match pending.get(&shard) {
            Some(n) => *n,
            None => 0,
        };
        assert(storage_series == or_zero(value_of(stored@, shard)));
        assert(handoff_pending_rows == or_zero(value_of(pending@, shard)));
        let load = ShardLoad {
            shard,
            ingest_rows_total: counters.ingest_rows_total,
            query_shard_hits_total: counters.query_shard_hits_total,
            storage_series,
            repair_mismatches_total: counters.repair_mismatches_total,
            repair_series_gap_total: counters.repair_series_gap_total,
            repair_point_gap_total: counters.repair_point_gap_total,
            repair_rows_inserted_total: counters.repair_rows_inserted_total,
            handoff_pending_rows,
        };
        let ghost before = shards@;
        shards.push(load);
        assert(shards@.drop_last() =~= before);
        assert(shards@.last() == load);
        ingest = ingest.wrapping_add(load.ingest_rows_total);
        query = query.wrapping_add(load.query_shard_hits_total);
        storage = storage.wrapping_add(load.storage_series);
        handoff = handoff.wrapping_add(load.handoff_pending_rows);
        gap = gap.wrapping_add(load.repair_point_gap_total);
        repaired = repaired.wrapping_add(load.repair_rows_inserted_total);
        i += 1;
    }
    assert(load_numbers(shards@) =~= numbers);
    let slots: usize = if shards.len() == 0 {
        1
    } else {
        shards.len()
    };
    ShardLoads {
        shards,
        slots,
        total_ingest: ingest,
        total_query: query,
        total_storage: storage,
        total_repair: handoff.saturating_add(gap).saturating_add(repaired),
    }
}

/// How many series a tenant stores.
pub open spec fn series_of(v: TrackerView, metrics: Seq<SeriesView>, tenant: Seq<char>) -> nat
    decreases metrics.len(),
{
    if metrics.len() == 0 {
        0
    } else {
        let before = series_of(v, metrics.drop_last(), tenant);
        if tenant_of(v, metrics.last().labels) == tenant {
            before + 1
        } else {
            before
        }
    }
}

/// What a tenant uses.
pub open spec fn tenant_usage(
    v: TrackerView,
    metrics: Seq<SeriesView>,
    tenant: Seq<char>,
) -> TenantUsage {
    let counters = tenant_counted(v, tenant);
    TenantUsage {
        ingest_rows_total: counters.ingest_rows_total,
        query_requests_total: counters.query_requests_total,
        query_units_total: counters.query_units_total,
        storage_series: series_of(v, metrics, tenant) as u64,
        repair_rows_inserted_total: counters.repair_rows_inserted_total,
    }
}

/// Whether anything is known of a tenant: a count or a stored series.
pub open spec fn tenant_known(v: TrackerView, metrics: Seq<SeriesView>, tenant: Seq<char>) -> bool {
    ||| v.tenants.dom().contains(tenant)
    ||| series_of(v, metrics, tenant) > 0
}

pub open spec fn tenant_ingest() -> spec_fn(TenantLoadView) -> u64 {
    |load: TenantLoadView| load.usage.ingest_rows_total
}

pub open spec fn tenant_requests() -> spec_fn(TenantLoadView) -> u64 {
    |load: TenantLoadView| load.usage.query_requests_total
}

pub open spec fn tenant_units() -> spec_fn(TenantLoadView) -> u64 {
    |load: TenantLoadView| load.usage.query_units_total
}

pub open spec fn tenant_storage() -> spec_fn(TenantLoadView) -> u64 {
    |load: TenantLoadView| load.usage.storage_series
}

pub open spec fn tenant_repaired() -> spec_fn(TenantLoadView) -> u64 {
    |load: TenantLoadView| load.usage.repair_rows_inserted_total
}

/// The names of some tenants.
pub open spec fn load_names(loads: Seq<TenantLoadView>) -> Seq<Seq<char>> {
    Seq::new(loads.len(), |i: int| loads[i].tenant_id)
}

/// Adds the tenants of a map to a set of tenants.
fn add_tenants<V>(known: &mut TextMap<bool>, from: &TextMap<V>)
    ensures
        forall|tenant: Seq<char>| #[trigger]
            final(known)@.dom().contains(tenant) <==> old(known)@.dom().contains(tenant)
                || from@.dom().contains(tenant),
{
    let count: usize = from.len();
    let ghost names = from.keys();
    let ghost before = known@;
    let mut i: usize = 0;
    while i < count
        invariant
            i <= count,
            count == names.len(),
            names == from.keys(),
            forall|tenant: Seq<char>| #[trigger]
                known@.dom().contains(tenant) <==> before.dom().contains(tenant) || names.take(
                    i as int,
                ).contains(tenant),
        decreases count - i,
    {
        let tenant = owned(from.key_at(i));
        let ghost name = tenant@;
        known.insert(tenant, true);
        assert(names.take(i + 1) =~= names.take(i as int).push(name));
        assert forall|s: Seq<char>| #[trigger]
            known@.dom().contains(s) <==> before.dom().contains(s) || names.take(i + 1).contains(
                s,
            ) by {
            let head = names.take(i as int);
            assert(head.push(name).contains(s) <==> head.contains(s) || s == name) by {
                if head.contains(s) {
                    let k = choose|k: int| 0 <= k < head.len() && head[k] == s;
                    assert(head.push(name)[k] == s);
                }
                assert(head.push(name)[head.len() as int] == name);
            }
        }
        i += 1;
    }
    assert(names.take(i as int) =~= names);
}

/// How many of some series belong to each tenant.
fn count_tenant_series(tracker: &HotspotTracker, metrics: &Vec<MetricSeries>) -> (res: TextMap<u64>)
    ensures
        forall|tenant: Seq<char>|
            (#[trigger] value_of(res@, tenant)) == (if series_of(
                tracker@,
                views(metrics@),
                tenant,
            ) == 0 {
                None
            } else {
                Some(series_of(tracker@, views(metrics@), tenant) as u64)
            }),
{
    let mut counts: TextMap<u64> = TextMap::new();
    let ghost all = views(metrics@);
    let ghost v = tracker@;
    let mut i: usize = 0;
    assert(all.take(0).len() == 0);
    while i < metrics.len()
        invariant
            i <= metrics.len(),
            all == views(metrics@),
            v == tracker@,
            forall|tenant: Seq<char>| #[trigger] series_of(v, all.take(i as int), tenant) <= i,
            forall|tenant: Seq<char>|
                (#[trigger] value_of(counts@, tenant)) == (if series_of(
                    v,
                    all.take(i as int),
                    tenant,
                ) == 0 {
                    None
                } else {
                    Some(series_of(v, all.take(i as int), tenant) as u64)
                }),
        decreases metrics.len() - i,
    {
        let ghost before = counts@;
        let ghost head = all.take(i as int);
        assert(all.take(i + 1).drop_last() =~= head);
        assert(all.take(i + 1).last() == all[i as int]);
        assert(all[i as int] == metrics@[i as int]@);
        let tenant = tracker.tenant_id_from_labels(&metrics[i].labels);
        let ghost name = tenant@;
        let n: u64 = match counts.get(&tenant) {
            Some(n) => *n,
            None => 0,
        };
        assert(value_of(before, name) is Some ==> value_of(before, name) == Some(n));
        assert(n == series_of(v, head, name));
        counts.insert(tenant, n + 1);
        assert forall|s: Seq<char>| (#[trigger] value_of(counts@, s)) == (if series_of(
            v,
            all.take(i + 1),
            s,
        ) == 0 {
            None
        } else {
            Some(series_of(v, all.take(i + 1), s) as u64)
        }) by {
            assert(value_of(before, s) == (if series_of(v, head, s) == 0 {
                None
            } else {
                Some(series_of(v, head, s) as u64)
            }));
        }
        assert forall|s: Seq<char>| #[trigger] series_of(v, all.take(i + 1), s) <= i + 1 by {
            assert(series_of(v, head, s) <= i);
        }
        i += 1;
    }
    assert(all.take(i as int) =~= all);
    counts
}

/// Whether some loads are those of all tenants of which anything is known, in the order of their
/// names.
pub open spec fn are_tenant_loads(
    loads: Seq<TenantLoadView>,
    v: TrackerView,
    metrics: Seq<SeriesView>,
) -> bool {
    &&& texts_ascending(load_names(loads))
    &&& forall|tenant: Seq<char>| #[trigger]
        load_names(loads).contains(tenant) <==> tenant_known(v, metrics, tenant)
    &&& forall|i: int|
        0 <= i < loads.len() ==> (#[trigger] loads[i]).usage == tenant_usage(
            v,
            metrics,
            loads[i].tenant_id,
        )
}

/// The loads of all tenants of which anything is known, in the order of their names.
pub fn tenant_loads(tracker: &HotspotTracker, metrics: &Vec<MetricSeries>) -> (res: TenantLoads)
    ensures
        are_tenant_loads(views(res.tenants@), tracker@, views(metrics@)),
        res.slots == slots_of(res.tenants@.len()),
        res.total_ingest == sum_of(views(res.tenants@), tenant_ingest()),
        res.total_query_requests == sum_of(views(res.tenants@), tenant_requests()),
        res.total_query_units == sum_of(views(res.tenants@), tenant_units()),
        res.total_storage == sum_of(views(res.tenants@), tenant_storage()),
        res.total_repair == sum_of(views(res.tenants@), tenant_repaired()),
{
    let ghost series = views(metrics@);
    let stored = count_tenant_series(tracker, metrics);
    let mut known: TextMap<bool> = TextMap::new();
    add_tenants(&mut known, &tracker.tenants);
    add_tenants(&mut known, &stored);
    assert forall|tenant: Seq<char>| #[trigger] known@.dom().contains(tenant) <==> tenant_known(
        tracker@,
        series,
        tenant,
    ) by {
        assert(stored@.dom().contains(tenant) <==> value_of(stored@, tenant) is Some);
    }
    let count: usize = known.len();
    let ghost names = known.keys();
    let mut tenants: Vec<TenantLoad> = Vec::new();
    let mut ingest: u64 = 0;
    let mut requests: u64 = 0;
    let mut units: u64 = 0;
    let mut storage: u64 = 0;
    let mut repaired: u64 = 0;
    let mut i: usize = 0;
    while i < count
        invariant
            i <= count,
            count == names.len(),
            names == known.keys(),
            tenants.len() == i,
            series == views(metrics@),
            forall|tenant: Seq<char>|
                (#[trigger] value_of(stored@, tenant)) == (if series_of(tracker@, series, tenant)
                    == 0 {
                    None
                } else {
                    Some(series_of(tracker@, series, tenant) as u64)
                }),
            forall|k: int|
                0 <= k < i ==> (#[trigger] tenants@[k]).tenant_id@ == names[k] && tenants@[k].usage
                    == tenant_usage(tracker@, series, names[k]),
            ingest == sum_of(views(tenants@), tenant_ingest()),
            requests == sum_of(views(tenants@), tenant_requests()),
            units == sum_of(views(tenants@), tenant_units()),
            storage == sum_of(views(tenants@), tenant_storage()),
            repaired == sum_of(views(tenants@), tenant_repaired()),
        decreases count - i,
    {
        let tenant_id = owned(known.key_at(i));
        let counters = tracker.tenant_counters(&tenant_id);
        let storage_series: u64 = match stored.get(&tenant_id) {
            Some(n) => *n,
            None => 0,
        };
        assert(storage_series == or_zero(value_of(stored@, tenant_id@)));
        let usage = TenantUsage {
            ingest_rows_total: counters.ingest_rows_total,
            query_requests_total: counters.query_requests_total,
            query_units_total: counters.query_units_total,
            storage_series,
            repair_rows_inserted_total: counters.repair_rows_inserted_total,
        };
        let ghost before = views(tenants@);
        let load = TenantLoad { tenant_id, usage };
        let ghost last = load@;
        tenants.push(load);
        assert(views(tenants@) =~= before.push(last));
        assert(views(tenants@).drop_last() =~= before);
        assert(views(tenants@).last() == last);
        ingest = ingest.wrapping_add(usage.ingest_rows_total);
        requests = requests.wrapping_add(usage.query_requests_total);
        units = units.wrapping_add(usage.query_units_total);
        storage = storage.wrapping_add(usage.storage_series);
        repaired = repaired.wrapping_add(usage.repair_rows_inserted_total);
        i += 1;
    }
    assert(load_names(views(tenants@)) =~= names);
    assert forall|k: int| 0 <= k < views(tenants@).len() implies (
    #[trigger] views(tenants@)[k]).usage == tenant_usage(
        tracker@,
        series,
        views(tenants@)[k].tenant_id,
    ) by {
        assert(views(tenants@)[k] == tenants@[k]@);
    }
    let slots: usize = if tenants.len() == 0 {
        1
    } else {
        tenants.len()
    };
    TenantLoads {
        tenants,
        slots,
        total_ingest: ingest,
        total_query_requests: requests,
        total_query_units: units,
        total_storage: storage,
        total_repair: repaired,
    }
}

/// Whether a tenant is asked for: every one is where none is named.
pub open spec fn tenant_in_scope(v: TrackerView, scope: Option<Seq<char>>, tenant: Seq<char>) -> bool {
    match scope {
        Some(name) => normal_tenant(v, name) == tenant,
        None => true,
    }
}

/// The places of the tenants that are asked for, in order.
pub open spec fn scoped(
    v: TrackerView,
    scope: Option<Seq<char>>,
    tenants: Seq<TenantLoadView>,
) -> Seq<int>
    decreases tenants.len(),
{
    if tenants.len() == 0 {
        Seq::empty()
    } else {
        let before = scoped(v, scope, tenants.drop_last());
        if tenant_in_scope(v, scope, tenants.last().tenant_id) {
            before.push(tenants.len() - 1)
        } else {
            before
        }
    }
}

/// How hot a shard or a tenant is: its rank by pressure, and whether it bears more than its share.
#[derive(Debug, Clone, Copy, PartialEq, Eq, Structural)]
pub struct HeatScore {
    pub pressure_rank: u64,
    pub skewed: bool,
}

/// A shard in the order of heat, by its place among the loads.
#[derive(Debug, Clone, Copy, PartialEq, Eq, Structural)]
pub struct HotShard {
    pub index: usize,
    pub shard: u32,
    pub pressure_rank: u64,
    pub recommend_move: bool,
}

impl View for HotShard {
    type V = HotShard;

    open spec fn view(&self) -> HotShard {
        *self
    }
}

impl Ranked for HotShard {
    open spec fn before(a: HotShard, b: HotShard) -> bool {
        a.pressure_rank > b.pressure_rank || (a.pressure_rank == b.pressure_rank && a.shard
            < b.shard)
    }

    fn precedes(&self, other: &HotShard) -> (res: bool) {
        self.pressure_rank > other.pressure_rank || (self.pressure_rank == other.pressure_rank
            && self.shard < other.shard)
    }
}

/// A tenant in the order of heat, by its place among the loads.
#[derive(Debug, PartialEq, Eq)]
pub struct HotTenant {
    pub index: usize,
    pub tenant_id: String,
    pub pressure_rank: u64,
}

/// What a [`HotTenant`] holds.
pub struct HotTenantView {
    pub index: usize,
    pub tenant_id: Seq<char>,
    pub pressure_rank: u64,
}

impl View for HotTenant {
    type V = HotTenantView;

    open spec fn view(&self) -> HotTenantView {
        HotTenantView {
            index: self.index,
            tenant_id: self.tenant_id@,
            pressure_rank: self.pressure_rank,
        }
    }
}

impl Ranked for HotTenant {
    open spec fn before(a: HotTenantView, b: HotTenantView) -> bool {
        a.pressure_rank > b.pressure_rank || (a.pressure_rank == b.pressure_rank && text_less(
            a.tenant_id,
            b.tenant_id,
        ))
    }

    fn precedes(&self, other: &HotTenant) -> (res: bool) {
        self.pressure_rank > other.pressure_rank || (self.pressure_rank == other.pressure_rank
            && less(&self.tenant_id, &other.tenant_id))
    }
}

/// How many of some scores are skewed.
pub open spec fn skewed_count(scores: Seq<HeatScore>) -> nat
    decreases scores.len(),
{
    if scores.len() == 0 {
        0
    } else {
        skewed_count(scores.drop_last()) + if scores.last().skewed {
            1nat
        } else {
            0
        }
    }
}

/// A shard with its score. Moving it is recommended where it bears more than its share and no rows
/// of it are being handed over.
pub open spec fn scored_shard(loads: Seq<ShardLoad>, scores: Seq<HeatScore>, i: int) -> HotShard {
    HotShard {
        index: i as usize,
        shard: loads[i].shard,
        pressure_rank: scores[i].pressure_rank,
        recommend_move: scores[i].skewed && loads[i].handoff_pending_rows == 0,
    }
}

/// All shards with their scores.
pub open spec fn scored_shards(loads: Seq<ShardLoad>, scores: Seq<HeatScore>) -> Seq<HotShard> {
    Seq::new(loads.len(), |i: int| scored_shard(loads, scores, i))
}

/// The first elements of a sequence, at most `n`.
pub open spec fn top<A>(s: Seq<A>, n: nat) -> Seq<A> {
    if n < s.len() {
        s.take(n as int)
    } else {
        s
    }
}

/// The hottest shards first, at most `top_n`, and how many shards bear more than their share.
pub fn rank_shards(loads: &Vec<ShardLoad>, scores: &Vec<HeatScore>, top_n: usize) -> (res: (
    Vec<HotShard>,
    usize,
))
    requires
        loads.len() == scores.len(),
    ensures
        res.0@ == top(ranked_sort::<HotShard>(scored_shards(loads@, scores@)), top_n as nat),
        res.1 == skewed_count(scores@),
{
    let mut hot: Vec<HotShard> = Vec::new();
    let mut skewed: usize = 0;
    let mut i: usize = 0;
    assert(scores@.take(0).len() == 0);
    while i < loads.len()
        invariant
            i <= loads.len(),
            loads.len() == scores.len(),
            hot@ == scored_shards(loads@, scores@).take(i as int),
            skewed <= i,
            skewed == skewed_count(scores@.take(i as int)),
        decreases loads.len() - i,
    {
        assert(scores@.take(i + 1).drop_last() =~= scores@.take(i as int));
        assert(scores@.take(i + 1).last() == scores@[i as int]);
        hot.push(
            HotShard {
                index: i,
                shard: loads[i].shard,
                pressure_rank: scores[i].pressure_rank,
                recommend_move: scores[i].skewed && loads[i].handoff_pending_rows == 0,
            },
        );
        if scores[i].skewed {
            skewed += 1;
        }
        i += 1;
    }
    assert(scores@.take(i as int) =~= scores@);
    assert(views(hot@) =~= scored_shards(loads@, scores@));
    let mut sorted = sort_ranked(hot);
    assert(views(sorted@) =~= sorted@);
    if top_n < sorted.len() {
        sorted.truncate(top_n);
    }
    (sorted, skewed)
}

/// A tenant with its score.
pub open spec fn scored_tenant(
    tenants: Seq<TenantLoadView>,
    scores: Seq<HeatScore>,
    i: int,
) -> HotTenantView {
    HotTenantView {
        index: i as usize,
        tenant_id: tenants[i].tenant_id,
        pressure_rank: scores[i].pressure_rank,
    }
}

/// The tenants at some places with their scores.
pub open spec fn scored_tenants(
    tenants: Seq<TenantLoadView>,
    scores: Seq<HeatScore>,
    places: Seq<int>,
) -> Seq<HotTenantView> {
    Seq::new(places.len(), |k: int| scored_tenant(tenants, scores, places[k]))
}

/// The scores at some places.
pub open spec fn scores_at(scores: Seq<HeatScore>, places: Seq<int>) -> Seq<HeatScore> {
    Seq::new(places.len(), |k: int| scores[places[k]])
}

/// The hottest tenants that are asked for first, at most `top_n`, and how many of those that are
/// asked for bear more than their share.
pub fn rank_tenants(
    tracker: &HotspotTracker,
    tenant_scope: Option<&str>,
    tenants: &Vec<TenantLoad>,
    scores: &Vec<HeatScore>,
    top_n: usize,
) -> (res: (Vec<HotTenant>, usize))
    requires
        tenants.len() == scores.len(),
    ensures
        ({
            let places = scoped(tracker@, opt_str(tenant_scope), views(tenants@));
            &&& views(res.0@) == top(
                ranked_sort::<HotTenant>(scored_tenants(views(tenants@), scores@, places)),
                top_n as nat,
            )
            &&& res.1 == skewed_count(scores_at(scores@, places))
        }),
{
    let ghost v = tracker@;
    let ghost scope = opt_str(tenant_scope);
    let ghost all = views(tenants@);
    let wanted: Option<String> = match tenant_scope {
        Some(name) => Some(tracker.normalize_tenant_id(name)),
        None => None,
    };
    let mut hot: Vec<HotTenant> = Vec::new();
    let mut skewed: usize = 0;
    let mut i: usize = 0;
    assert(all.take(0).len() == 0);
    assert(views(hot@) =~= scored_tenants(all, scores@, scoped(v, scope, all.take(0))));
    while i < tenants.len()
        invariant
            i <= tenants.len(),
            tenants.len() == scores.len(),
            all == views(tenants@),
            match scope {
                Some(name) => wanted matches Some(text) && text@ == normal_tenant(v, name),
                None => wanted is None,
            },
            views(hot@) == scored_tenants(all, scores@, scoped(v, scope, all.take(i as int))),
            skewed <= i,
            skewed == skewed_count(scores_at(scores@, scoped(v, scope, all.take(i as int)))),
        decreases tenants.len() - i,
    {
        let ghost places = scoped(v, scope, all.take(i as int));
        let ghost next = scoped(v, scope, all.take(i + 1));
        assert(all.take(i + 1).drop_last() =~= all.take(i as int));
        assert(all.take(i + 1).last() == all[i as int]);
        assert(all[i as int] == tenants@[i as int]@);
        let keep = match &wanted {
            Some(name) => same(name, &tenants[i].tenant_id),
            None => true,
        };
        assert(keep == tenant_in_scope(v, scope, all[i as int].tenant_id));
        if keep {
            assert(next == places.push(i as int));
            let ghost before = views(hot@);
            let item = HotTenant {
                index: i,
                tenant_id: tenants[i].tenant_id.clone(),
                pressure_rank: scores[i].pressure_rank,
            };
            let ghost last = item@;
            hot.push(item);
            assert(views(hot@) =~= before.push(last));
            assert(last == scored_tenant(all, scores@, i as int));
            assert(views(hot@) =~= scored_tenants(all, scores@, next));
            assert(scores_at(scores@, next).drop_last() =~= scores_at(scores@, places));
            assert(scores_at(scores@, next).last() == scores@[i as int]);
            if scores[i].skewed {
                skewed += 1;
            }
        } else {
            assert(next == places);
        }
        i += 1;
    }
    assert(all.take(i as int) =~= all);
    let mut sorted = sort_ranked(hot);
    assert(views(sorted@).len() == sorted.len());
    if top_n < sorted.len() {
        sorted.truncate(top_n);
        assert(views(sorted@) =~= ranked_sort::<HotTenant>(
            scored_tenants(all, scores@, scoped(v, scope, all)),
        ).take(top_n as int));
    }
    (sorted, skewed)
}

} // verus!
