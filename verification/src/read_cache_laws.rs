//! What holds of remembered reads and of reads that are put together.

use vstd::prelude::*;
use crate::lists::{
    lemma_ranked_sort_elements, lemma_ranked_sort_unique, lemma_text_less_total,
    lemma_text_less_transitive, ranked_sort, ranks_consistently, ranks_totally, Ranked,
};
use crate::query::MetadataView;
use crate::read_cache::{
    all_kept, all_looked_up, forgotten, matcher_keys, points_kept, points_key, points_looked_up,
    recorded, selection_key, series_kept, series_looked_up, united, AllKeyView, CacheView,
    FoundSeries, MatcherKeyView, PointsKeyView, SelectionKeyView, SeriesMatcherCacheKey,
};
use crate::rpc_types::{DataPoint, Label, LabelView, MetricSeries, SeriesSelection};
use crate::text::{opt_text, text_less};

verus! {

/// What was remembered last for a read is what is found for it; nothing else that is remembered
/// changes.
pub proof fn law_what_was_kept_is_found(
    v: CacheView,
    points_of: PointsKeyView,
    other_points_of: PointsKeyView,
    points: Vec<DataPoint>,
    series_of: SelectionKeyView,
    other_series_of: SelectionKeyView,
    series: Vec<MetricSeries>,
    all_of: AllKeyView,
    other_all_of: AllKeyView,
    found: Vec<FoundSeries>,
)
    ensures
        v.config.cache_select_points ==> points_kept(v, points_of, points).select_points[points_of]
            == points && points_kept(v, points_of, points).select_points.dom().contains(points_of),
        other_points_of != points_of && v.select_points.dom().contains(other_points_of)
            ==> points_kept(v, points_of, points).select_points[other_points_of]
            == v.select_points[other_points_of],
        v.config.cache_select_series ==> series_kept(v, series_of, series).select_series[series_of]
            == series && series_kept(v, series_of, series).select_series.dom().contains(series_of),
        other_series_of != series_of && v.select_series.dom().contains(other_series_of)
            ==> series_kept(v, series_of, series).select_series[other_series_of]
            == v.select_series[other_series_of],
        v.config.cache_select_all ==> all_kept(v, all_of, found).select_all[all_of] == found
            && all_kept(v, all_of, found).select_all.dom().contains(all_of),
        other_all_of != all_of && v.select_all.dom().contains(other_all_of) ==> all_kept(
            v,
            all_of,
            found,
        ).select_all[other_all_of] == v.select_all[other_all_of],
{
}

/// Looking up changes nothing that is remembered.
pub proof fn law_lookups_keep_everything(
    v: CacheView,
    points_of: PointsKeyView,
    series_of: SelectionKeyView,
    all_of: AllKeyView,
)
    ensures
        points_looked_up(v, points_of).select_points == v.select_points,
        points_looked_up(v, points_of).select_series == v.select_series,
        points_looked_up(v, points_of).select_all == v.select_all,
        series_looked_up(v, series_of).select_points == v.select_points,
        series_looked_up(v, series_of).select_series == v.select_series,
        series_looked_up(v, series_of).select_all == v.select_all,
        all_looked_up(v, all_of).select_points == v.select_points,
        all_looked_up(v, all_of).select_series == v.select_series,
        all_looked_up(v, all_of).select_all == v.select_all,
{
}

/// Where remembering is switched off, nothing is remembered and nothing is counted.
pub proof fn law_switched_off_is_off(
    v: CacheView,
    points_of: PointsKeyView,
    points: Vec<DataPoint>,
    series_of: SelectionKeyView,
    series: Vec<MetricSeries>,
    all_of: AllKeyView,
    found: Vec<FoundSeries>,
)
    ensures
        !v.config.cache_select_points ==> points_looked_up(v, points_of) == v && points_kept(
            v,
            points_of,
            points,
        ) == v,
        !v.config.cache_select_series ==> series_looked_up(v, series_of) == v && series_kept(
            v,
            series_of,
            series,
        ) == v,
        !v.config.cache_select_all ==> all_looked_up(v, all_of) == v && all_kept(v, all_of, found)
            == v,
{
}

/// After everything was forgotten nothing is found, and the counts stay.
pub proof fn law_forgotten_is_gone(
    v: CacheView,
    points_of: PointsKeyView,
    series_of: SelectionKeyView,
    all_of: AllKeyView,
)
    ensures
        !forgotten(v).select_points.dom().contains(points_of),
        !forgotten(v).select_series.dom().contains(series_of),
        !forgotten(v).select_all.dom().contains(all_of),
        forgotten(v).snapshot == v.snapshot,
        forgotten(v).config == v.config,
{
}

proof fn lemma_labels_rank()
    ensures
        ranks_consistently::<Label>(),
        ranks_totally::<Label>(),
{
    assert forall|a: LabelView, b: LabelView| #[trigger] Label::before(a, b) implies !Label::before(
        b,
        a,
    ) by {
        lemma_text_less_total(a.name, b.name);
        lemma_text_less_total(a.value, b.value);
    }
    assert forall|a: LabelView, b: LabelView| a == b || #[trigger] Label::before(a, b)
        || Label::before(b, a) by {
        lemma_text_less_total(a.name, b.name);
        lemma_text_less_total(a.value, b.value);
    }
    assert forall|a: LabelView, b: LabelView, c: LabelView|
        !(#[trigger] Label::before(b, a)) && !(#[trigger] Label::before(c, b)) implies
        !Label::before(c, a) by {
        lemma_text_less_total(a.name, b.name);
        lemma_text_less_total(b.name, c.name);
        lemma_text_less_total(a.name, c.name);
        lemma_text_less_total(a.value, b.value);
        lemma_text_less_total(b.value, c.value);
        lemma_text_less_total(a.value, c.value);
        if text_less(a.name, b.name) && text_less(b.name, c.name) {
            lemma_text_less_transitive(a.name, b.name, c.name);
        }
        if text_less(a.value, b.value) && text_less(b.value, c.value) {
            lemma_text_less_transitive(a.value, b.value, c.value);
        }
    }
}

/// The order in which labels are given does not matter for what is remembered.
pub proof fn law_label_order_does_not_matter(
    metric: Seq<char>,
    a: Seq<LabelView>,
    b: Seq<LabelView>,
    start: i64,
    end: i64,
)
    requires
        a.to_multiset() == b.to_multiset(),
    ensures
        points_key(metric, a, start, end) == points_key(metric, b, start, end),
{
    lemma_labels_rank();
    lemma_ranked_sort_unique::<Label>(a, b);
}

proof fn lemma_matchers_rank()
    ensures
        ranks_consistently::<SeriesMatcherCacheKey>(),
        ranks_totally::<SeriesMatcherCacheKey>(),
{
    assert forall|a: MatcherKeyView, b: MatcherKeyView| #[trigger]
        SeriesMatcherCacheKey::before(a, b) implies !SeriesMatcherCacheKey::before(b, a) by {
        lemma_text_less_total(a.name, b.name);
        lemma_text_less_total(a.value, b.value);
    }
    assert forall|a: MatcherKeyView, b: MatcherKeyView| a == b || #[trigger]
        SeriesMatcherCacheKey::before(a, b) || SeriesMatcherCacheKey::before(b, a) by {
        lemma_text_less_total(a.name, b.name);
        lemma_text_less_total(a.value, b.value);
    }
    assert forall|a: MatcherKeyView, b: MatcherKeyView, c: MatcherKeyView|
        !(#[trigger] SeriesMatcherCacheKey::before(b, a)) && !(
        #[trigger] SeriesMatcherCacheKey::before(c, b)) implies !SeriesMatcherCacheKey::before(c, a) by {
        lemma_text_less_total(a.name, b.name);
        lemma_text_less_total(b.name, c.name);
        lemma_text_less_total(a.name, c.name);
        lemma_text_less_total(a.value, b.value);
        lemma_text_less_total(b.value, c.value);
        lemma_text_less_total(a.value, c.value);
        if text_less(a.name, b.name) && text_less(b.name, c.name) {
            lemma_text_less_transitive(a.name, b.name, c.name);
        }
        if text_less(a.value, b.value) && text_less(b.value, c.value) {
            lemma_text_less_transitive(a.value, b.value, c.value);
        }
    }
}

/// The order in which the tests of a selection are given does not matter for what is remembered.
pub proof fn law_matcher_order_does_not_matter(a: SeriesSelection, b: SeriesSelection)
    requires
        opt_text(a.metric) == opt_text(b.metric),
        a.start == b.start,
        a.end == b.end,
        matcher_keys(a.matchers@).to_multiset() == matcher_keys(b.matchers@).to_multiset(),
    ensures
        selection_key(a) == selection_key(b),
{
    lemma_matchers_rank();
    lemma_ranked_sort_unique::<SeriesMatcherCacheKey>(
        matcher_keys(a.matchers@),
        matcher_keys(b.matchers@),
    );
}

proof fn lemma_united(list: Seq<Seq<char>>, more: Seq<Seq<char>>)
    requires
        list.no_duplicates(),
    ensures
        united(list, more).no_duplicates(),
        forall|x: Seq<char>| #[trigger]
            united(list, more).contains(x) <==> list.contains(x) || more.contains(x),
    decreases more.len(),
{
    if more.len() > 0 {
        let front = more.drop_last();
        let before = united(list, front);
        let out = united(list, more);
        let last = more.last();
        lemma_united(list, front);
        assert forall|x: Seq<char>| #[trigger] more.contains(x) <==> front.contains(x) || x
            == last by {
            if more.contains(x) {
                let k = choose|k: int| 0 <= k < more.len() && more[k] == x;
                if k < front.len() {
                    assert(front[k] == x);
                }
            }
            if front.contains(x) {
                let k = choose|k: int| 0 <= k < front.len() && front[k] == x;
                assert(more[k] == x);
            }
            assert(more[more.len() - 1] == last);
        }
        if !before.contains(last) {
            assert forall|x: Seq<char>| #[trigger] out.contains(x) <==> before.contains(x) || x
                == last by {
                if out.contains(x) {
                    let k = choose|k: int| 0 <= k < out.len() && out[k] == x;
                    if k < before.len() {
                        assert(before[k] == x);
                    }
                }
                if before.contains(x) {
                    let k = choose|k: int| 0 <= k < before.len() && before[k] == x;
                    assert(out[k] == x);
                }
                assert(out[before.len() as int] == last);
            }
            assert(out.no_duplicates()) by {
                assert forall|i: int, j: int|
                    0 <= i < out.len() && 0 <= j < out.len() && i != j implies out[i] != out[j] by {
                    if i < before.len() {
                        assert(before.contains(before[i]));
                    }
                    if j < before.len() {
                        assert(before.contains(before[j]));
                    }
                }
            }
        }
    }
}

/// A query that is put together from several reads is partial where one of them is, and has each of
/// their warnings.
pub proof fn law_no_warning_is_lost(current: MetadataView, metadata: MetadataView, warning: Seq<char>)
    requires
        current.warnings.no_duplicates(),
    ensures
        recorded(current, metadata).partial_response == (current.partial_response
            || metadata.partial_response),
        recorded(current, metadata).warnings.contains(warning) <==> current.warnings.contains(
            warning,
        ) || metadata.warnings.contains(warning),
        recorded(current, metadata).warnings.no_duplicates(),
{
    broadcast use vstd::seq_lib::group_to_multiset_ensures;

    let all = united(current.warnings, metadata.warnings);
    let sorted = ranked_sort::<String>(all);
    lemma_united(current.warnings, metadata.warnings);
    lemma_ranked_sort_elements::<String>(all);
    assert(sorted.to_multiset().count(warning) == all.to_multiset().count(warning));
    all.lemma_multiset_has_no_duplicates();
    sorted.lemma_multiset_has_no_duplicates_conv();
}

} // verus!
