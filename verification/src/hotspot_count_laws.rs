//! What is counted of shards and tenants: every row, request and repair once, for the shard and the
//! tenant that it belongs to.

use vstd::prelude::*;
use crate::control::{phase_terminal, TransitionView};
use crate::hotspot::{
    label_named, mismatch_counted, normal_tenant, plan_counted, repair_counted, repairs_counted,
    rows_counted, shard_counted, tenant_counted, tenant_of, tenant_query_counted, tracker_sound,
    with_shard, TrackerView,
};
use crate::hotspot_loads::{
    or_zero, pending_on, scoped, scored_shards, series_of, series_on, shard_gap, shard_handoff,
    shard_ingest, shard_load, shard_query, shard_repaired, shard_storage, skewed_count, sum_of,
    tenant_ingest, tenant_repaired, tenant_requests, tenant_storage, tenant_units, tenant_usage,
    HeatScore, ShardLoad, TenantLoadView,
};
use crate::lists::{first_index, lemma_first_index, lemma_first_index_is};
use crate::ring::RingView;
use crate::rpc_types::{LabelView, RowView, SeriesView};
use crate::text::trimmed;

verus! {

/// A row belongs to the tenant that its first label of the agreed name says, and to the default tenant
/// where it has no such label.
pub proof fn law_tenant_of_a_row(v: TrackerView, labels: Seq<LabelView>, i: int)
    ensures
        0 <= i < labels.len() && labels[i].name == v.tenant_label && (forall|k: int|
            0 <= k < i ==> (#[trigger] labels[k]).name != v.tenant_label) ==> tenant_of(v, labels)
            == labels[i].value,
        (forall|k: int| 0 <= k < labels.len() ==> (#[trigger] labels[k]).name != v.tenant_label)
            ==> tenant_of(v, labels) == v.default_tenant_id,
{
    let named = label_named(v.tenant_label);
    lemma_first_index(labels, named);
    if 0 <= i < labels.len() && labels[i].name == v.tenant_label && (forall|k: int|
        0 <= k < i ==> (#[trigger] labels[k]).name != v.tenant_label) {
        lemma_first_index_is(labels, named, i);
    }
    if forall|k: int| 0 <= k < labels.len() ==> (#[trigger] labels[k]).name != v.tenant_label {
        match first_index(labels, named) {
            Some(k) => {
                assert(labels[k].name == v.tenant_label);
            },
            None => {},
        }
    }
}

/// Tells the rows of a tenant.
pub open spec fn row_of(v: TrackerView, tenant: Seq<char>) -> spec_fn(RowView) -> bool {
    |row: RowView| tenant_of(v, row.labels) == tenant
}

/// Tells the series of a shard.
pub open spec fn falls_into(ring: RingView, shard: u32) -> spec_fn(u64) -> bool {
    |series_id: u64| series_id as int % ring.shard_count as int == shard
}

/// Rows that come in are counted, each once for its tenant and once for the shard of its series, and
/// nothing else changes.
pub proof fn law_rows_are_counted(
    v: TrackerView,
    ring: RingView,
    rows: Seq<RowView>,
    series_ids: Seq<u64>,
    n: nat,
    shard: u32,
    tenant: Seq<char>,
)
    requires
        tracker_sound(v),
        ring.shard_count > 0,
        n <= rows.len(),
        n <= series_ids.len(),
        shard_counted(v, shard).ingest_rows_total + n <= u64::MAX,
        tenant_counted(v, tenant).ingest_rows_total + n <= u64::MAX,
    ensures
        ({
            let w = rows_counted(v, Some(ring), rows, series_ids, n);
            let before = shard_counted(v, shard);
            let after = shard_counted(w, shard);
            let was = tenant_counted(v, tenant);
            let is = tenant_counted(w, tenant);
            &&& after.ingest_rows_total == before.ingest_rows_total + series_ids.take(
                n as int,
            ).filter(falls_into(ring, shard)).len()
            &&& after.shard == shard
            &&& after.query_requests_total == before.query_requests_total
            &&& after.query_shard_hits_total == before.query_shard_hits_total
            &&& after.repair_mismatches_total == before.repair_mismatches_total
            &&& after.repair_rows_inserted_total == before.repair_rows_inserted_total
            &&& is.ingest_rows_total == was.ingest_rows_total + rows.take(n as int).filter(
                row_of(v, tenant),
            ).len()
            &&& is.query_requests_total == was.query_requests_total
            &&& is.query_units_total == was.query_units_total
            &&& is.repair_rows_inserted_total == was.repair_rows_inserted_total
            &&& w.tenant_label == v.tenant_label
            &&& w.default_tenant_id == v.default_tenant_id
            &&& tracker_sound(w)
            &&& series_ids.take(n as int).filter(falls_into(ring, shard)).len() <= n
            &&& rows.take(n as int).filter(row_of(v, tenant)).len() <= n
        }),
    decreases n,
{
    reveal(Seq::filter);
    if n > 0 {
        law_rows_are_counted(v, ring, rows, series_ids, (n - 1) as nat, shard, tenant);
        assert(rows.take(n as int).drop_last() =~= rows.take(n - 1));
        assert(series_ids.take(n as int).drop_last() =~= series_ids.take(n - 1));
        let w = rows_counted(v, Some(ring), rows, series_ids, (n - 1) as nat);
        assert(tenant_of(w, rows[n - 1].labels) == tenant_of(v, rows[n - 1].labels));
    } else {
        assert(rows.take(0) =~= Seq::empty());
        assert(series_ids.take(0) =~= Seq::empty());
    }
}

/// Every shard of a plan is hit and asked once for each time that the plan names it, and no other.
pub proof fn law_plans_are_counted(v: TrackerView, shards: Seq<u32>, shard: u32)
    requires
        tracker_sound(v),
        shard_counted(v, shard).query_shard_hits_total + shards.len() <= u64::MAX,
        shard_counted(v, shard).query_requests_total + shards.len() <= u64::MAX,
    ensures
        ({
            let w = plan_counted(v, shards);
            let before = shard_counted(v, shard);
            let after = shard_counted(w, shard);
            let times = shards.filter(|s: u32| s == shard).len();
            &&& after.query_shard_hits_total == before.query_shard_hits_total + times
            &&& after.query_requests_total == before.query_requests_total + times
            &&& after.ingest_rows_total == before.ingest_rows_total
            &&& after.repair_rows_inserted_total == before.repair_rows_inserted_total
            &&& after.repair_mismatches_total == before.repair_mismatches_total
            &&& w.tenants == v.tenants
            &&& tracker_sound(w)
            &&& times <= shards.len()
        }),
    decreases shards.len(),
{
    reveal(Seq::filter);
    if shards.len() > 0 {
        law_plans_are_counted(v, shards.drop_last(), shard);
    }
}

/// A query is counted for the tenant that it names: its requests, at least one, and its units, and
/// nothing else.
pub proof fn law_queries_are_counted(
    v: TrackerView,
    tenant: Seq<char>,
    requests: u64,
    units: u64,
    other: Seq<char>,
)
    requires
        tenant_counted(v, normal_tenant(v, tenant)).query_requests_total + requests + 1 <= u64::MAX,
        tenant_counted(v, normal_tenant(v, tenant)).query_units_total + units <= u64::MAX,
    ensures
        ({
            let id = if trimmed(tenant).len() > 0 {
                trimmed(tenant)
            } else {
                v.default_tenant_id
            };
            let w = tenant_query_counted(v, tenant, requests, units);
            let was = tenant_counted(v, id);
            let is = tenant_counted(w, id);
            &&& requests > 0 ==> is.query_requests_total == was.query_requests_total + requests
            &&& requests == 0 ==> is.query_requests_total == was.query_requests_total + 1
            &&& is.query_units_total == was.query_units_total + units
            &&& is.ingest_rows_total == was.ingest_rows_total
            &&& is.repair_rows_inserted_total == was.repair_rows_inserted_total
            &&& other != id ==> tenant_counted(w, other) == tenant_counted(v, other)
            &&& w.shards == v.shards
        }),
{
}

/// A mismatch is counted for its shard, with the series and the points that are missing, and for no
/// other.
pub proof fn law_mismatches_are_counted(
    v: TrackerView,
    shard: u32,
    series_gap: u64,
    point_gap: u64,
    other: u32,
)
    requires
        tracker_sound(v),
        shard_counted(v, shard).repair_mismatches_total < u64::MAX,
        shard_counted(v, shard).repair_series_gap_total + series_gap <= u64::MAX,
        shard_counted(v, shard).repair_point_gap_total + point_gap <= u64::MAX,
    ensures
        ({
            let w = mismatch_counted(v, shard, series_gap, point_gap);
            let before = shard_counted(v, shard);
            let after = shard_counted(w, shard);
            &&& after.repair_mismatches_total == before.repair_mismatches_total + 1
            &&& after.repair_series_gap_total == before.repair_series_gap_total + series_gap
            &&& after.repair_point_gap_total == before.repair_point_gap_total + point_gap
            &&& after.ingest_rows_total == before.ingest_rows_total
            &&& after.query_requests_total == before.query_requests_total
            &&& after.query_shard_hits_total == before.query_shard_hits_total
            &&& after.repair_rows_inserted_total == before.repair_rows_inserted_total
            &&& other != shard ==> shard_counted(w, other) == shard_counted(v, other)
            &&& w.tenants == v.tenants
        }),
{
}

proof fn lemma_repairs(v: TrackerView, rows: Seq<RowView>, n: nat, tenant: Seq<char>)
    requires
        n <= rows.len(),
        tenant_counted(v, tenant).repair_rows_inserted_total + n <= u64::MAX,
    ensures
        ({
            let w = repairs_counted(v, rows, n);
            let was = tenant_counted(v, tenant);
            let is = tenant_counted(w, tenant);
            &&& is.repair_rows_inserted_total == was.repair_rows_inserted_total + rows.take(
                n as int,
            ).filter(row_of(v, tenant)).len()
            &&& is.ingest_rows_total == was.ingest_rows_total
            &&& is.query_requests_total == was.query_requests_total
            &&& is.query_units_total == was.query_units_total
            &&& w.shards == v.shards
            &&& w.tenant_label == v.tenant_label
            &&& w.default_tenant_id == v.default_tenant_id
            &&& rows.take(n as int).filter(row_of(v, tenant)).len() <= n
        }),
    decreases n,
{
    reveal(Seq::filter);
    if n > 0 {
        lemma_repairs(v, rows, (n - 1) as nat, tenant);
        assert(rows.take(n as int).drop_last() =~= rows.take(n - 1));
        let w = repairs_counted(v, rows, (n - 1) as nat);
        assert(tenant_of(w, rows[n - 1].labels) == tenant_of(v, rows[n - 1].labels));
    } else {
        assert(rows.take(0) =~= Seq::empty());
    }
}

/// Rows that a repair put in are counted, all of them for the shard and each for its tenant.
pub proof fn law_repairs_are_counted(
    v: TrackerView,
    shard: u32,
    rows: Seq<RowView>,
    tenant: Seq<char>,
    other: u32,
)
    requires
        tracker_sound(v),
        shard_counted(v, shard).repair_rows_inserted_total + rows.len() <= u64::MAX,
        tenant_counted(v, tenant).repair_rows_inserted_total + rows.len() <= u64::MAX,
    ensures
        ({
            let w = repair_counted(v, shard, rows);
            let before = shard_counted(v, shard);
            let after = shard_counted(w, shard);
            let was = tenant_counted(v, tenant);
            let is = tenant_counted(w, tenant);
            &&& after.repair_rows_inserted_total == before.repair_rows_inserted_total + rows.len()
            &&& after.ingest_rows_total == before.ingest_rows_total
            &&& after.query_requests_total == before.query_requests_total
            &&& after.repair_mismatches_total == before.repair_mismatches_total
            &&& is.repair_rows_inserted_total == was.repair_rows_inserted_total + rows.filter(
                row_of(v, tenant),
            ).len()
            &&& is.ingest_rows_total == was.ingest_rows_total
            &&& other != shard ==> shard_counted(w, other) == shard_counted(v, other)
        }),
{
    reveal(Seq::filter);
    if rows.len() > 0 {
        let before = shard_counted(v, shard);
        let w = with_shard(
            v,
            crate::hotspot::HotspotShardCountersSnapshot {
                repair_rows_inserted_total: (before.repair_rows_inserted_total + rows.len()) as u64,
                ..before
            },
        );
        lemma_repairs(w, rows, rows.len(), tenant);
        assert(rows.take(rows.len() as int) =~= rows);
        lemma_same_rows(v, w, rows, tenant);
    }
}

proof fn lemma_same_rows(v: TrackerView, w: TrackerView, rows: Seq<RowView>, tenant: Seq<char>)
    requires
        w.tenant_label == v.tenant_label,
        w.default_tenant_id == v.default_tenant_id,
    ensures
        rows.filter(row_of(w, tenant)) == rows.filter(row_of(v, tenant)),
    decreases rows.len(),
{
    reveal(Seq::filter);
    if rows.len() > 0 {
        lemma_same_rows(v, w, rows.drop_last(), tenant);
    }
}

/// The load of a shard says how many of the series fall into it.
pub proof fn law_series_of_a_shard_are_counted(ring: RingView, series_ids: Seq<u64>, shard: u32)
    requires
        ring.shard_count > 0,
    ensures
        series_on(Some(ring), series_ids, shard) == series_ids.filter(falls_into(ring, shard)).len(),
    decreases series_ids.len(),
{
    reveal(Seq::filter);
    if series_ids.len() > 0 {
        law_series_of_a_shard_are_counted(ring, series_ids.drop_last(), shard);
    }
}

/// The rows that the handoffs of a shard under way have yet to move.
pub open spec fn pending_total(transitions: Seq<TransitionView>, shard: u32) -> nat
    decreases transitions.len(),
{
    if transitions.len() == 0 {
        0
    } else {
        let last = transitions.last();
        pending_total(transitions.drop_last(), shard) + if last.shard == shard && !phase_terminal(
            last.handoff.phase,
        ) {
            last.handoff.pending_rows as nat
        } else {
            0
        }
    }
}

/// The load of a shard says how many rows are yet to be moved by handoffs that are not over, of all of
/// them together.
pub proof fn law_pending_rows_of_a_shard_are_added_up(
    transitions: Seq<TransitionView>,
    shard: u32,
)
    requires
        pending_total(transitions, shard) <= u64::MAX,
    ensures
        or_zero(pending_on(transitions, shard)) == pending_total(transitions, shard),
        pending_on(transitions, shard) is Some <==> exists|i: int|
            0 <= i < transitions.len() && (#[trigger] transitions[i]).shard == shard
                && !phase_terminal(transitions[i].handoff.phase),
    decreases transitions.len(),
{
    if transitions.len() > 0 {
        let front = transitions.drop_last();
        law_pending_rows_of_a_shard_are_added_up(front, shard);
        assert(transitions.last() == transitions[transitions.len() - 1]);
        if pending_on(front, shard) is Some {
            let i = choose|i: int|
                0 <= i < front.len() && (#[trigger] front[i]).shard == shard && !phase_terminal(
                    front[i].handoff.phase,
                );
            assert(transitions[i] == front[i]);
        }
        if exists|i: int|
            0 <= i < transitions.len() && (#[trigger] transitions[i]).shard == shard
                && !phase_terminal(transitions[i].handoff.phase) {
            let i = choose|i: int|
                0 <= i < transitions.len() && (#[trigger] transitions[i]).shard == shard
                    && !phase_terminal(transitions[i].handoff.phase);
            if i < front.len() {
                assert(front[i] == transitions[i]);
            }
        }
    }
}

/// The load of a shard is what was counted for it, and that of a tenant what was counted for the tenant.
pub proof fn law_loads_are_what_was_counted(
    v: TrackerView,
    ring: RingView,
    series_ids: Seq<u64>,
    transitions: Seq<TransitionView>,
    shard: u32,
    metrics: Seq<SeriesView>,
    tenant: Seq<char>,
)
    requires
        series_ids.len() <= u64::MAX,
        metrics.len() <= u64::MAX,
        ring.shard_count > 0,
        pending_total(transitions, shard) <= u64::MAX,
    ensures
        ({
            let load = shard_load(v, Some(ring), series_ids, transitions, shard);
            let counted = shard_counted(v, shard);
            &&& load.shard == shard
            &&& load.ingest_rows_total == counted.ingest_rows_total
            &&& load.query_shard_hits_total == counted.query_shard_hits_total
            &&& load.storage_series == series_ids.filter(falls_into(ring, shard)).len()
            &&& load.repair_mismatches_total == counted.repair_mismatches_total
            &&& load.repair_series_gap_total == counted.repair_series_gap_total
            &&& load.repair_point_gap_total == counted.repair_point_gap_total
            &&& load.repair_rows_inserted_total == counted.repair_rows_inserted_total
            &&& load.handoff_pending_rows == pending_total(transitions, shard)
        }),
        ({
            let usage = tenant_usage(v, metrics, tenant);
            let counted = tenant_counted(v, tenant);
            &&& usage.ingest_rows_total == counted.ingest_rows_total
            &&& usage.query_requests_total == counted.query_requests_total
            &&& usage.query_units_total == counted.query_units_total
            &&& usage.storage_series == metrics.filter(
                |series: SeriesView| tenant_of(v, series.labels) == tenant,
            ).len()
            &&& usage.repair_rows_inserted_total == counted.repair_rows_inserted_total
        }),
{
    law_series_of_a_shard_are_counted(ring, series_ids, shard);
    law_pending_rows_of_a_shard_are_added_up(transitions, shard);
    lemma_filter_short(series_ids, falls_into(ring, shard));
    lemma_series_of(v, metrics, tenant);
    lemma_filter_short(metrics, |series: SeriesView| tenant_of(v, series.labels) == tenant);
}

proof fn lemma_filter_short<A>(s: Seq<A>, p: spec_fn(A) -> bool)
    ensures
        s.filter(p).len() <= s.len(),
    decreases s.len(),
{
    reveal(Seq::filter);
    if s.len() > 0 {
        lemma_filter_short(s.drop_last(), p);
    }
}

proof fn lemma_series_of(v: TrackerView, metrics: Seq<SeriesView>, tenant: Seq<char>)
    ensures
        series_of(v, metrics, tenant) == metrics.filter(
            |series: SeriesView| tenant_of(v, series.labels) == tenant,
        ).len(),
    decreases metrics.len(),
{
    reveal(Seq::filter);
    if metrics.len() > 0 {
        lemma_series_of(v, metrics.drop_last(), tenant);
    }
}

/// The tenants that a report is about are those that are asked for, in their order: all of them, or the
/// one that is named.
pub proof fn law_report_is_about_the_tenants_asked_for(
    v: TrackerView,
    scope: Option<Seq<char>>,
    tenants: Seq<TenantLoadView>,
)
    ensures
        forall|i: int| #[trigger]
            scoped(v, scope, tenants).contains(i) <==> 0 <= i < tenants.len() && (scope is None
                || tenants[i].tenant_id == (if trimmed(scope->0).len() > 0 {
                trimmed(scope->0)
            } else {
                v.default_tenant_id
            })),
        forall|a: int, b: int|
            0 <= a < b < scoped(v, scope, tenants).len() ==> (#[trigger] scoped(v, scope, tenants)[a])
                < (#[trigger] scoped(v, scope, tenants)[b]),
    decreases tenants.len(),
{
    let out = scoped(v, scope, tenants);
    if tenants.len() > 0 {
        let front = tenants.drop_last();
        let before = scoped(v, scope, front);
        law_report_is_about_the_tenants_asked_for(v, scope, front);
        assert forall|i: int| #[trigger] out.contains(i) <==> 0 <= i < tenants.len() && (scope is None
            || tenants[i].tenant_id == (if trimmed(scope->0).len() > 0 {
            trimmed(scope->0)
        } else {
            v.default_tenant_id
        })) by {
            if before.contains(i) {
                let k = choose|k: int| 0 <= k < before.len() && before[k] == i;
                assert(out[k] == i);
                assert(tenants[i] == front[i]);
            }
            if out.contains(i) && !before.contains(i) {
                let k = choose|k: int| 0 <= k < out.len() && out[k] == i;
                if k < before.len() {
                    assert(before[k] == i);
                }
            }
            if 0 <= i < front.len() {
                assert(tenants[i] == front[i]);
            }
            if i == tenants.len() - 1 && out.len() > before.len() {
                assert(out[out.len() - 1] == i);
            }
        }
        assert forall|a: int, b: int| 0 <= a < b < out.len() implies (#[trigger] out[a]) < (
        #[trigger] out[b]) by {
            assert(out[a] == before[a]);
            assert(before.contains(before[a]));
            if b < before.len() {
                assert(out[b] == before[b]);
            }
        }
    }
}

/// A shard keeps its place and its rank in the report; a move is recommended for one that is skewed and
/// has nothing left to hand over.
pub proof fn law_shards_are_scored(loads: Seq<ShardLoad>, scores: Seq<HeatScore>, i: int)
    requires
        0 <= i < loads.len() <= usize::MAX,
        loads.len() == scores.len(),
    ensures
        scored_shards(loads, scores).len() == loads.len(),
        scored_shards(loads, scores)[i].index == i,
        scored_shards(loads, scores)[i].shard == loads[i].shard,
        scored_shards(loads, scores)[i].pressure_rank == scores[i].pressure_rank,
        scored_shards(loads, scores)[i].recommend_move <==> scores[i].skewed
            && loads[i].handoff_pending_rows == 0,
{
}

/// The skewed are counted.
pub proof fn law_skewed_are_counted(scores: Seq<HeatScore>)
    ensures
        skewed_count(scores) == scores.filter(|score: HeatScore| score.skewed).len(),
    decreases scores.len(),
{
    reveal(Seq::filter);
    if scores.len() > 0 {
        law_skewed_are_counted(scores.drop_last());
    }
}

/// The sum of a number that every load has.
pub open spec fn total_of<A>(loads: Seq<A>, part: spec_fn(A) -> u64) -> nat
    decreases loads.len(),
{
    if loads.len() == 0 {
        0
    } else {
        total_of(loads.drop_last(), part) + part(loads.last()) as nat
    }
}

/// What is added up of all loads is their sum, where it fits.
pub proof fn law_sums_are_sums<A>(loads: Seq<A>, part: spec_fn(A) -> u64)
    requires
        total_of(loads, part) <= u64::MAX,
    ensures
        sum_of(loads, part) == total_of(loads, part),
    decreases loads.len(),
{
    if loads.len() > 0 {
        law_sums_are_sums(loads.drop_last(), part);
    }
}

/// Each total is of its own number.
pub proof fn law_totals_are_of_their_own_numbers(load: ShardLoad, tenant: TenantLoadView)
    ensures
        shard_ingest()(load) == load.ingest_rows_total,
        shard_query()(load) == load.query_shard_hits_total,
        shard_storage()(load) == load.storage_series,
        shard_handoff()(load) == load.handoff_pending_rows,
        shard_gap()(load) == load.repair_point_gap_total,
        shard_repaired()(load) == load.repair_rows_inserted_total,
        tenant_ingest()(tenant) == tenant.usage.ingest_rows_total,
        tenant_requests()(tenant) == tenant.usage.query_requests_total,
        tenant_units()(tenant) == tenant.usage.query_units_total,
        tenant_storage()(tenant) == tenant.usage.storage_series,
        tenant_repaired()(tenant) == tenant.usage.repair_rows_inserted_total,
{
}

} // verus!
