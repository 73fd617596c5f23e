//! Reads are told apart by all that they ask for, and what they find is kept whole and in order.

use vstd::prelude::*;
use crate::lists::{
    lemma_ranked_sort_elements, lemma_ranked_sort_in_order, ranked_sort, ranks_consistently, Ranked,
};
use crate::query::FanoutErrorView;
use crate::read_cache::{
    all_kept, all_looked_up, matcher_key, matcher_keys, points_kept, points_key, points_looked_up,
    selection_key, series_kept, series_looked_up, storage_error, with_points, AllKeyView, CacheView,
    DistributedStorageCacheSnapshot, FoundSeries, FoundView, PointsKeyView, SelectionKeyView,
    SeriesMatcherCacheKey, StorageErrorView,
};
use crate::rpc_types::{DataPoint, Label, LabelView, MetricSeries, SeriesSelection};
use crate::text::opt_text;

verus! {

/// Two reads of points are taken for one where they are of the same metric, the same labels and the same
/// time, and only there.
pub proof fn law_reads_of_points_are_told_apart(
    metric: Seq<char>,
    labels: Seq<LabelView>,
    start: i64,
    end: i64,
    other_metric: Seq<char>,
    other_labels: Seq<LabelView>,
    other_start: i64,
    other_end: i64,
)
    requires
        points_key(metric, labels, start, end) == points_key(
            other_metric,
            other_labels,
            other_start,
            other_end,
        ),
    ensures
        metric == other_metric,
        labels.to_multiset() == other_labels.to_multiset(),
        start == other_start,
        end == other_end,
{
    lemma_ranked_sort_elements::<Label>(labels);
    lemma_ranked_sort_elements::<Label>(other_labels);
}

/// Two selections of series are taken for one only where they are of the same metric, the same time and
/// the same tests, each with its label, its kind and its value.
pub proof fn law_selections_are_told_apart(a: SeriesSelection, b: SeriesSelection)
    requires
        selection_key(a) == selection_key(b),
    ensures
        opt_text(a.metric) == opt_text(b.metric),
        a.start == b.start,
        a.end == b.end,
        a.matchers@.len() == b.matchers@.len(),
        forall|i: int|
            0 <= i < a.matchers@.len() ==> exists|k: int|
                0 <= k < b.matchers@.len() && (#[trigger] b.matchers@[k]).name@ == (
                #[trigger] a.matchers@[i]).name@ && b.matchers@[k].op == a.matchers@[i].op
                    && b.matchers@[k].value@ == a.matchers@[i].value@,
{
    broadcast use vstd::seq_lib::group_to_multiset_ensures;

    let ours = matcher_keys(a.matchers@);
    let theirs = matcher_keys(b.matchers@);
    lemma_ranked_sort_elements::<SeriesMatcherCacheKey>(ours);
    lemma_ranked_sort_elements::<SeriesMatcherCacheKey>(theirs);
    assert(ours.to_multiset() == theirs.to_multiset());
    assert(ours.len() == ours.to_multiset().len());
    assert(theirs.len() == theirs.to_multiset().len());
    assert forall|i: int| 0 <= i < a.matchers@.len() implies exists|k: int|
        0 <= k < b.matchers@.len() && (#[trigger] b.matchers@[k]).name@ == (
        #[trigger] a.matchers@[i]).name@ && b.matchers@[k].op == a.matchers@[i].op
            && b.matchers@[k].value@ == a.matchers@[i].value@ by {
        assert(ours.contains(ours[i]));
        assert(theirs.to_multiset().count(ours[i]) > 0);
        assert(theirs.contains(ours[i]));
        let k = choose|k: int| 0 <= k < theirs.len() && theirs[k] == ours[i];
        assert(matcher_key(b.matchers@[k]) == matcher_key(a.matchers@[i]));
        assert(b.matchers@[k].name@ == a.matchers@[i].name@);
    }
}

/// A lookup that finds something is counted as a hit of its kind, and what is kept after a lookup that
/// found nothing as a miss of its kind; no other count changes.
pub proof fn law_hits_and_misses_are_counted(
    v: CacheView,
    points_of: PointsKeyView,
    points: Vec<DataPoint>,
    series_of: SelectionKeyView,
    series: Vec<MetricSeries>,
    all_of: AllKeyView,
    found: Vec<FoundSeries>,
)
    requires
        v.snapshot.select_series_hits < u64::MAX,
        v.snapshot.select_series_misses < u64::MAX,
        v.snapshot.select_points_hits < u64::MAX,
        v.snapshot.select_points_misses < u64::MAX,
        v.snapshot.select_all_hits < u64::MAX,
        v.snapshot.select_all_misses < u64::MAX,
    ensures
        v.config.cache_select_points && v.select_points.dom().contains(points_of)
            ==> points_looked_up(v, points_of).snapshot == (DistributedStorageCacheSnapshot {
            select_points_hits: (v.snapshot.select_points_hits + 1) as u64,
            ..v.snapshot
        }),
        !v.select_points.dom().contains(points_of) ==> points_looked_up(v, points_of) == v,
        v.config.cache_select_points ==> points_kept(v, points_of, points).snapshot == (
        DistributedStorageCacheSnapshot {
            select_points_misses: (v.snapshot.select_points_misses + 1) as u64,
            ..v.snapshot
        }),
        v.config.cache_select_series && v.select_series.dom().contains(series_of)
            ==> series_looked_up(v, series_of).snapshot == (DistributedStorageCacheSnapshot {
            select_series_hits: (v.snapshot.select_series_hits + 1) as u64,
            ..v.snapshot
        }),
        !v.select_series.dom().contains(series_of) ==> series_looked_up(v, series_of) == v,
        v.config.cache_select_series ==> series_kept(v, series_of, series).snapshot == (
        DistributedStorageCacheSnapshot {
            select_series_misses: (v.snapshot.select_series_misses + 1) as u64,
            ..v.snapshot
        }),
        v.config.cache_select_all && v.select_all.dom().contains(all_of) ==> all_looked_up(
            v,
            all_of,
        ).snapshot == (DistributedStorageCacheSnapshot {
            select_all_hits: (v.snapshot.select_all_hits + 1) as u64,
            ..v.snapshot
        }),
        !v.select_all.dom().contains(all_of) ==> all_looked_up(v, all_of) == v,
        v.config.cache_select_all ==> all_kept(v, all_of, found).snapshot == (
        DistributedStorageCacheSnapshot {
            select_all_misses: (v.snapshot.select_all_misses + 1) as u64,
            ..v.snapshot
        }),
{
}

/// Of what was found, every series that has points is there, each as often as it was found, and none
/// without points.
pub proof fn law_series_with_points_are_kept(found: Seq<FoundView>)
    ensures
        with_points(found) == found.filter(|one: FoundView| one.points.len() > 0),
        ranked_sort::<FoundSeries>(with_points(found)).to_multiset() == found.filter(
            |one: FoundView| one.points.len() > 0,
        ).to_multiset(),
    decreases found.len(),
{
    reveal(Seq::filter);
    if found.len() > 0 {
        law_series_with_points_are_kept(found.drop_last());
    }
    lemma_ranked_sort_elements::<FoundSeries>(with_points(found));
}

/// Points that are put in order are all still there, as often as before, and none comes before an
/// earlier one.
pub proof fn law_points_are_put_in_order(points: Seq<DataPoint>)
    ensures
        ranked_sort::<DataPoint>(points).to_multiset() == points.to_multiset(),
        forall|i: int, j: int|
            0 <= i < j < ranked_sort::<DataPoint>(points).len() ==> (
            #[trigger] ranked_sort::<DataPoint>(points)[i]).timestamp <= (
            #[trigger] ranked_sort::<DataPoint>(points)[j]).timestamp,
{
    lemma_ranked_sort_elements::<DataPoint>(points);
    assert(ranks_consistently::<DataPoint>());
    lemma_ranked_sort_in_order::<DataPoint>(points);
    let sorted = ranked_sort::<DataPoint>(points);
    assert forall|i: int, j: int| 0 <= i < j < sorted.len() implies (#[trigger] sorted[i]).timestamp
        <= (#[trigger] sorted[j]).timestamp by {
        assert(!DataPoint::before(sorted[j], sorted[i]));
    }
}

/// A read that asked for too much or for what cannot be asked is a fault of the request, in its own
/// words; any other failure of a read is not.
pub proof fn law_faults_of_the_request(error: FanoutErrorView)
    ensures
        storage_error(error) is InvalidConfiguration <==> error is InvalidRequest
            || error is MergeLimitExceeded,
        error matches FanoutErrorView::InvalidRequest { message } ==> storage_error(error)
            == StorageErrorView::InvalidConfiguration(message),
        error matches FanoutErrorView::MergeLimitExceeded { message } ==> storage_error(error)
            == StorageErrorView::InvalidConfiguration(message),
{
}

} // verus!
