//! What holds of the counts of load and of the order of heat.

use vstd::prelude::*;
use crate::control::TransitionView;
use crate::hotspot::{
    mismatch_counted, plan_counted, repair_counted, repairs_counted, row_counted, rows_counted,
    shard_counted, shard_of, tenant_counted, tenant_of, tenant_query_counted, tracker_sound,
    HotspotShardCountersSnapshot, HotspotTenantCounters, TrackerView,
};
use crate::hotspot_loads::{
    are_shard_loads, are_tenant_loads, load_names, load_numbers, scoped, scored_shards,
    scored_tenants, shard_known, tenant_in_scope, tenant_known, top, HeatScore, HotShard, HotTenant,
    HotTenantView, ShardLoad, TenantLoadView,
};
use crate::lists::{
    lemma_ranked_sort_elements, lemma_ranked_sort_in_order, lemma_ranked_sort_keys,
    lemma_text_less_irreflexive, lemma_text_less_total, lemma_text_less_transitive, ranked_in_order,
    ranked_sort, ranks_consistently, Ranked,
};
use crate::ring::RingView;
use crate::rpc_types::{LabelView, RowView, SeriesView};
use crate::text::text_less;

verus! {

/// Every shard was asked as often as it was hit.
pub open spec fn hits_match(v: TrackerView) -> bool {
    forall|shard: u32| #[trigger]
        v.shards.dom().contains(shard) ==> v.shards[shard].query_requests_total
            == v.shards[shard].query_shard_hits_total
}

/// No count of a shard is lower.
pub open spec fn shard_grew(
    a: HotspotShardCountersSnapshot,
    b: HotspotShardCountersSnapshot,
) -> bool {
    &&& a.ingest_rows_total <= b.ingest_rows_total
    &&& a.query_requests_total <= b.query_requests_total
    &&& a.query_shard_hits_total <= b.query_shard_hits_total
    &&& a.repair_mismatches_total <= b.repair_mismatches_total
    &&& a.repair_series_gap_total <= b.repair_series_gap_total
    &&& a.repair_point_gap_total <= b.repair_point_gap_total
    &&& a.repair_rows_inserted_total <= b.repair_rows_inserted_total
}

/// No count of a tenant is lower.
pub open spec fn tenant_grew(a: HotspotTenantCounters, b: HotspotTenantCounters) -> bool {
    &&& a.ingest_rows_total <= b.ingest_rows_total
    &&& a.query_requests_total <= b.query_requests_total
    &&& a.query_units_total <= b.query_units_total
    &&& a.repair_rows_inserted_total <= b.repair_rows_inserted_total
}

/// No count is lower, and nothing that was counted is forgotten.
pub open spec fn grew(a: TrackerView, b: TrackerView) -> bool {
    &&& forall|shard: u32| #[trigger]
        a.shards.dom().contains(shard) ==> b.shards.dom().contains(shard) && shard_grew(
            a.shards[shard],
            b.shards[shard],
        )
    &&& forall|tenant: Seq<char>| #[trigger]
        a.tenants.dom().contains(tenant) ==> b.tenants.dom().contains(tenant) && tenant_grew(
            a.tenants[tenant],
            b.tenants[tenant],
        )
}

proof fn lemma_rows_step(
    v: TrackerView,
    ring: Option<RingView>,
    rows: Seq<RowView>,
    series_ids: Seq<u64>,
    n: nat,
)
    requires
        tracker_sound(v),
    ensures
        grew(v, rows_counted(v, ring, rows, series_ids, n)),
        tracker_sound(rows_counted(v, ring, rows, series_ids, n)),
        hits_match(v) ==> hits_match(rows_counted(v, ring, rows, series_ids, n)),
    decreases n,
{
    if n > 0 {
        lemma_rows_step(v, ring, rows, series_ids, (n - 1) as nat);
        let before = rows_counted(v, ring, rows, series_ids, (n - 1) as nat);
        let after = rows_counted(v, ring, rows, series_ids, n);
        assert(after == row_counted(before, ring, rows[n - 1].labels, series_ids[n - 1]));
        assert(grew(before, after));
    }
}

proof fn lemma_plan_step(v: TrackerView, shards: Seq<u32>)
    requires
        tracker_sound(v),
    ensures
        grew(v, plan_counted(v, shards)),
        tracker_sound(plan_counted(v, shards)),
        hits_match(v) ==> hits_match(plan_counted(v, shards)),
    decreases shards.len(),
{
    if shards.len() > 0 {
        lemma_plan_step(v, shards.drop_last());
    }
}

proof fn lemma_repairs_step(v: TrackerView, rows: Seq<RowView>, n: nat)
    ensures
        grew(v, repairs_counted(v, rows, n)),
        repairs_counted(v, rows, n).shards == v.shards,
    decreases n,
{
    if n > 0 {
        lemma_repairs_step(v, rows, (n - 1) as nat);
    }
}

/// Counting never lowers a count and never forgets a shard or a tenant.
pub proof fn law_counts_never_fall(
    v: TrackerView,
    ring: Option<RingView>,
    rows: Seq<RowView>,
    series_ids: Seq<u64>,
    shards: Seq<u32>,
    shard: u32,
    tenant: Seq<char>,
    a: u64,
    b: u64,
)
    requires
        tracker_sound(v),
    ensures
        grew(v, rows_counted(v, ring, rows, series_ids, rows.len())),
        grew(v, plan_counted(v, shards)),
        grew(v, tenant_query_counted(v, tenant, a, b)),
        grew(v, mismatch_counted(v, shard, a, b)),
        grew(v, repair_counted(v, shard, rows)),
{
    lemma_rows_step(v, ring, rows, series_ids, rows.len());
    lemma_plan_step(v, shards);
    if rows.len() > 0 {
        let counters = shard_counted(v, shard);
        let w = crate::hotspot::with_shard(
            v,
            HotspotShardCountersSnapshot {
                repair_rows_inserted_total: crate::control::saturated(
                    counters.repair_rows_inserted_total,
                    rows.len() as u64,
                ),
                ..counters
            },
        );
        assert(grew(v, w));
        lemma_repairs_step(w, rows, rows.len());
    }
}

/// Every shard is asked as often as it is hit, whatever is counted.
pub proof fn law_requests_match_hits(
    v: TrackerView,
    ring: Option<RingView>,
    rows: Seq<RowView>,
    series_ids: Seq<u64>,
    shards: Seq<u32>,
    shard: u32,
    tenant: Seq<char>,
    a: u64,
    b: u64,
)
    requires
        tracker_sound(v),
        hits_match(v),
    ensures
        hits_match(rows_counted(v, ring, rows, series_ids, rows.len())),
        hits_match(plan_counted(v, shards)),
        hits_match(tenant_query_counted(v, tenant, a, b)),
        hits_match(mismatch_counted(v, shard, a, b)),
        hits_match(repair_counted(v, shard, rows)),
{
    lemma_rows_step(v, ring, rows, series_ids, rows.len());
    lemma_plan_step(v, shards);
    if rows.len() > 0 {
        let counters = shard_counted(v, shard);
        let w = crate::hotspot::with_shard(
            v,
            HotspotShardCountersSnapshot {
                repair_rows_inserted_total: crate::control::saturated(
                    counters.repair_rows_inserted_total,
                    rows.len() as u64,
                ),
                ..counters
            },
        );
        lemma_repairs_step(w, rows, rows.len());
    }
}

/// A row is counted for the tenant that it names and, where there is a ring, for the shard of its
/// series, and for nothing else.
pub proof fn law_row_counts_once(
    v: TrackerView,
    ring: RingView,
    labels: Seq<LabelView>,
    series_id: u64,
    shard: u32,
    tenant: Seq<char>,
)
    requires
        tracker_sound(v),
    ensures
        ({
            let w = row_counted(v, Some(ring), labels, series_id);
            let own_tenant = tenant_of(v, labels);
            let own_shard = shard_of(ring, series_id);
            &&& tenant_counted(v, own_tenant).ingest_rows_total < u64::MAX ==> tenant_counted(
                w,
                own_tenant,
            ).ingest_rows_total == tenant_counted(v, own_tenant).ingest_rows_total + 1
            &&& shard_counted(v, own_shard).ingest_rows_total < u64::MAX ==> shard_counted(
                w,
                own_shard,
            ).ingest_rows_total == shard_counted(v, own_shard).ingest_rows_total + 1
            &&& tenant != own_tenant ==> tenant_counted(w, tenant) == tenant_counted(v, tenant)
            &&& shard != own_shard ==> shard_counted(w, shard) == shard_counted(v, shard)
        }),
{
}

/// The hottest shards are reported first, one shard before another of the same heat by its number;
/// every shard is ranked once; and no shard that is left out comes before one that is reported.
pub proof fn law_hottest_shards_first(loads: Seq<ShardLoad>, scores: Seq<HeatScore>, top_n: nat)
    ensures
        ({
            let sorted = ranked_sort::<HotShard>(scored_shards(loads, scores));
            let hot = top(sorted, top_n);
            &&& sorted.to_multiset() == scored_shards(loads, scores).to_multiset()
            &&& hot.len() <= top_n
            &&& ranked_in_order::<HotShard>(hot)
            &&& forall|i: int, j: int|
                0 <= i < hot.len() && hot.len() <= j < sorted.len() ==> !HotShard::before(
                    #[trigger] sorted[j],
                    #[trigger] hot[i],
                )
        }),
{
    let sorted = ranked_sort::<HotShard>(scored_shards(loads, scores));
    let hot = top(sorted, top_n);
    lemma_ranked_sort_elements::<HotShard>(scored_shards(loads, scores));
    lemma_ranked_sort_in_order::<HotShard>(scored_shards(loads, scores));
    assert forall|i: int| 0 <= i < hot.len() implies #[trigger] hot[i] == sorted[i] by {}
}

proof fn lemma_tenants_rank()
    ensures
        ranks_consistently::<HotTenant>(),
{
    assert forall|a: HotTenantView, b: HotTenantView| #[trigger] HotTenant::before(a, b) implies
        !HotTenant::before(b, a) by {
        lemma_text_less_total(a.tenant_id, b.tenant_id);
    }
    assert forall|a: HotTenantView, b: HotTenantView, c: HotTenantView|
        !(#[trigger] HotTenant::before(b, a)) && !(#[trigger] HotTenant::before(c, b)) implies
        !HotTenant::before(c, a) by {
        if HotTenant::before(c, a) {
            lemma_text_less_total(a.tenant_id, b.tenant_id);
            lemma_text_less_total(b.tenant_id, c.tenant_id);
            if a.pressure_rank == b.pressure_rank && b.pressure_rank == c.pressure_rank {
                if text_less(a.tenant_id, b.tenant_id) {
                    lemma_text_less_transitive(c.tenant_id, a.tenant_id, b.tenant_id);
                }
            }
        }
    }
}

/// The hottest tenants are reported first, one tenant before another of the same heat by its name;
/// every tenant that is asked for is ranked once; and none that is left out comes before one that
/// is reported.
pub proof fn law_hottest_tenants_first(
    tenants: Seq<TenantLoadView>,
    scores: Seq<HeatScore>,
    places: Seq<int>,
    top_n: nat,
)
    ensures
        ({
            let sorted = ranked_sort::<HotTenant>(scored_tenants(tenants, scores, places));
            let hot = top(sorted, top_n);
            &&& sorted.to_multiset() == scored_tenants(tenants, scores, places).to_multiset()
            &&& hot.len() <= top_n
            &&& ranked_in_order::<HotTenant>(hot)
            &&& forall|i: int, j: int|
                0 <= i < hot.len() && hot.len() <= j < sorted.len() ==> !HotTenant::before(
                    #[trigger] sorted[j],
                    #[trigger] hot[i],
                )
        }),
{
    let sorted = ranked_sort::<HotTenant>(scored_tenants(tenants, scores, places));
    let hot = top(sorted, top_n);
    lemma_tenants_rank();
    lemma_ranked_sort_elements::<HotTenant>(scored_tenants(tenants, scores, places));
    lemma_ranked_sort_in_order::<HotTenant>(scored_tenants(tenants, scores, places));
    assert forall|i: int| 0 <= i < hot.len() implies #[trigger] hot[i] == sorted[i] by {}
}

/// The numbers of some shards in the order of heat.
pub open spec fn hot_numbers(hot: Seq<HotShard>) -> Seq<u32> {
    Seq::new(hot.len(), |i: int| hot[i].shard)
}

/// The names of some tenants in the order of heat.
pub open spec fn hot_names(hot: Seq<HotTenantView>) -> Seq<Seq<char>> {
    Seq::new(hot.len(), |i: int| hot[i].tenant_id)
}

/// Of the loads of all shards, no shard is reported twice and only shards of which anything is known
/// are; with room for all, each of them is. A smaller limit gives the first of what a larger one
/// gives.
pub proof fn law_each_shard_is_reported_once(
    loads: Seq<ShardLoad>,
    v: TrackerView,
    ring: Option<RingView>,
    series_ids: Seq<u64>,
    transitions: Seq<TransitionView>,
    scores: Seq<HeatScore>,
    n: nat,
    m: nat,
)
    requires
        are_shard_loads(loads, v, ring, series_ids, transitions),
        n <= m,
    ensures
        ({
            let sorted = ranked_sort::<HotShard>(scored_shards(loads, scores));
            let hot = top(sorted, m);
            &&& hot_numbers(hot).no_duplicates()
            &&& forall|shard: u32| #[trigger]
                hot_numbers(hot).contains(shard) ==> shard_known(
                    v,
                    ring,
                    series_ids,
                    transitions,
                    shard,
                )
            &&& loads.len() <= m ==> forall|shard: u32| #[trigger]
                shard_known(v, ring, series_ids, transitions, shard) ==> hot_numbers(hot).contains(
                    shard,
                )
            &&& top(sorted, n) == top(hot, n)
        }),
{
    let all = scored_shards(loads, scores);
    let sorted = ranked_sort::<HotShard>(all);
    let hot = top(sorted, m);
    let numbers = load_numbers(loads);
    let key = |x: HotShard| x.shard;
    assert forall|i: int, j: int| 0 <= i < j < all.len() implies key(#[trigger] all[i]) != key(
        #[trigger] all[j],
    ) by {
        assert(numbers[i] < numbers[j]);
    }
    lemma_ranked_sort_keys::<HotShard, u32>(all, key);
    lemma_ranked_sort_elements::<HotShard>(all);
    assert forall|i: int, j: int| 0 <= i < hot.len() && 0 <= j < hot.len() && i != j implies
        hot_numbers(hot)[i] != hot_numbers(hot)[j] by {
        assert(hot[i] == sorted[i] && hot[j] == sorted[j]);
        if i < j {
            assert(key(sorted[i]) != key(sorted[j]));
        } else {
            assert(key(sorted[j]) != key(sorted[i]));
        }
    }
    assert forall|shard: u32| #[trigger] hot_numbers(hot).contains(shard) implies shard_known(
        v,
        ring,
        series_ids,
        transitions,
        shard,
    ) by {
        let i = choose|i: int| 0 <= i < hot.len() && hot_numbers(hot)[i] == shard;
        assert(sorted.contains(sorted[i]));
        let k = choose|k: int| 0 <= k < all.len() && all[k] == sorted[i];
        assert(numbers[k] == shard);
        assert(numbers.contains(shard));
    }
    if loads.len() <= m {
        assert forall|shard: u32| #[trigger]
            shard_known(v, ring, series_ids, transitions, shard) implies hot_numbers(hot).contains(
            shard,
        ) by {
            assert(numbers.contains(shard));
            let k = choose|k: int| 0 <= k < numbers.len() && numbers[k] == shard;
            assert(all.contains(all[k]));
            assert(sorted.contains(all[k]));
            let i = choose|i: int| 0 <= i < sorted.len() && sorted[i] == all[k];
            assert(hot_numbers(hot)[i] == shard);
        }
    }
    assert(top(sorted, n) =~= top(hot, n));
}

proof fn lemma_scoped_places(
    v: TrackerView,
    scope: Option<Seq<char>>,
    tenants: Seq<TenantLoadView>,
)
    ensures
        ({
            let places = scoped(v, scope, tenants);
            &&& forall|k: int| 0 <= k < places.len() ==> 0 <= #[trigger] places[k] < tenants.len()
            &&& forall|i: int, j: int|
                0 <= i < j < places.len() ==> #[trigger] places[i] < #[trigger] places[j]
            &&& forall|x: int|
                0 <= x < tenants.len() && tenant_in_scope(
                    v,
                    scope,
                    (#[trigger] tenants[x]).tenant_id,
                ) ==> places.contains(x)
            &&& forall|k: int|
                0 <= k < places.len() ==> tenant_in_scope(
                    v,
                    scope,
                    tenants[#[trigger] places[k]].tenant_id,
                )
        }),
    decreases tenants.len(),
{
    if tenants.len() > 0 {
        let head = tenants.drop_last();
        lemma_scoped_places(v, scope, head);
        let before = scoped(v, scope, head);
        let places = scoped(v, scope, tenants);
        assert forall|k: int| 0 <= k < places.len() implies 0 <= #[trigger] places[k]
            < tenants.len() && tenant_in_scope(v, scope, tenants[places[k]].tenant_id) by {
            if k < before.len() {
                assert(places[k] == before[k]);
                assert(head[before[k]] == tenants[before[k]]);
            }
        }
        assert forall|x: int|
            0 <= x < tenants.len() && tenant_in_scope(
                v,
                scope,
                (#[trigger] tenants[x]).tenant_id,
            ) implies places.contains(x) by {
            if x < head.len() {
                assert(head[x] == tenants[x]);
                assert(before.contains(x));
                let k = choose|k: int| 0 <= k < before.len() && before[k] == x;
                assert(places[k] == x);
            } else {
                assert(places[before.len() as int] == x);
            }
        }
    }
}

/// Of the loads of all tenants, no tenant is reported twice, and only tenants that are asked for and
/// of which anything is known are; with room for all, each of them is. A smaller limit gives the
/// first of what a larger one gives.
pub proof fn law_each_tenant_is_reported_once(
    loads: Seq<TenantLoadView>,
    v: TrackerView,
    metrics: Seq<SeriesView>,
    scope: Option<Seq<char>>,
    scores: Seq<HeatScore>,
    n: nat,
    m: nat,
)
    requires
        are_tenant_loads(loads, v, metrics),
        n <= m,
    ensures
        ({
            let places = scoped(v, scope, loads);
            let sorted = ranked_sort::<HotTenant>(scored_tenants(loads, scores, places));
            let hot = top(sorted, m);
            &&& hot_names(hot).no_duplicates()
            &&& forall|tenant: Seq<char>| #[trigger]
                hot_names(hot).contains(tenant) ==> tenant_known(v, metrics, tenant)
                    && tenant_in_scope(v, scope, tenant)
            &&& loads.len() <= m ==> forall|tenant: Seq<char>| #[trigger]
                tenant_known(v, metrics, tenant) && tenant_in_scope(v, scope, tenant)
                    ==> hot_names(hot).contains(tenant)
            &&& top(sorted, n) == top(hot, n)
        }),
{
    let places = scoped(v, scope, loads);
    let all = scored_tenants(loads, scores, places);
    let sorted = ranked_sort::<HotTenant>(all);
    let hot = top(sorted, m);
    let names = load_names(loads);
    let key = |x: HotTenantView| x.tenant_id;
    lemma_scoped_places(v, scope, loads);
    assert forall|i: int, j: int| 0 <= i < j < all.len() implies key(#[trigger] all[i]) != key(
        #[trigger] all[j],
    ) by {
        assert(places[i] < places[j]);
        assert(text_less(names[places[i]], names[places[j]]));
        lemma_text_less_total(names[places[i]], names[places[j]]);
        lemma_text_less_irreflexive(names[places[i]]);
    }
    lemma_ranked_sort_keys::<HotTenant, Seq<char>>(all, key);
    lemma_ranked_sort_elements::<HotTenant>(all);
    assert forall|i: int, j: int| 0 <= i < hot.len() && 0 <= j < hot.len() && i != j implies
        hot_names(hot)[i] != hot_names(hot)[j] by {
        assert(hot[i] == sorted[i] && hot[j] == sorted[j]);
        if i < j {
            assert(key(sorted[i]) != key(sorted[j]));
        } else {
            assert(key(sorted[j]) != key(sorted[i]));
        }
    }
    assert forall|tenant: Seq<char>| #[trigger] hot_names(hot).contains(tenant) implies
        tenant_known(v, metrics, tenant) && tenant_in_scope(v, scope, tenant) by {
        let i = choose|i: int| 0 <= i < hot.len() && hot_names(hot)[i] == tenant;
        assert(sorted.contains(sorted[i]));
        let k = choose|k: int| 0 <= k < all.len() && all[k] == sorted[i];
        assert(names[places[k]] == tenant);
        assert(names.contains(tenant));
    }
    if loads.len() <= m {
        lemma_places_len(v, scope, loads);
        assert forall|tenant: Seq<char>| #[trigger]
            tenant_known(v, metrics, tenant) && tenant_in_scope(v, scope, tenant) implies
            hot_names(hot).contains(tenant) by {
            assert(names.contains(tenant));
            let x = choose|x: int| 0 <= x < names.len() && names[x] == tenant;
            assert(loads[x].tenant_id == tenant);
            assert(places.contains(x));
            let k = choose|k: int| 0 <= k < places.len() && places[k] == x;
            assert(all.contains(all[k]));
            assert(sorted.contains(all[k]));
            let i = choose|i: int| 0 <= i < sorted.len() && sorted[i] == all[k];
            assert(hot_names(hot)[i] == tenant);
        }
    }
    assert(top(sorted, n) =~= top(hot, n));
}

proof fn lemma_places_len(v: TrackerView, scope: Option<Seq<char>>, tenants: Seq<TenantLoadView>)
    ensures
        scoped(v, scope, tenants).len() <= tenants.len(),
    decreases tenants.len(),
{
    if tenants.len() > 0 {
        lemma_places_len(v, scope, tenants.drop_last());
    }
}

} // verus!
