//! What reads across the nodes have found before, and how reads are put together for a query.

use vstd::prelude::*;
use crate::control::bumped;
use crate::lists::{group_views, ranked_sort, sort_ranked, views, Ranked};
use crate::query::{
    fanout_message, FanoutErrorView, MetadataView, ReadFanoutError, ReadFanoutResponseMetadata,
};
use crate::rpc_types::{
    DataPoint, Label, LabelView, MetricSeries, SeriesMatcher, SeriesMatcherOp, SeriesSelection,
};
use crate::text::{
    cat2, clone_opt, contains_text, less, opt_text, owned, same, same_opt, text_less,
};

verus! {

broadcast use group_views;

/// Which reads are remembered.
#[derive(Debug, Clone, Copy, PartialEq, Eq, Structural)]
pub struct DistributedStorageCacheConfig {
    pub cache_select_series: bool,
    pub cache_select_points: bool,
    pub cache_select_all: bool,
}

impl Default for DistributedStorageCacheConfig {
    fn default() -> (res: Self)
        ensures
            res.cache_select_series,
            res.cache_select_points,
            res.cache_select_all,
    {
        DistributedStorageCacheConfig {
            cache_select_series: true,
            cache_select_points: true,
            cache_select_all: true,
        }
    }
}

/// How often a read was remembered, and how often not.
#[derive(Debug, Clone, Copy, PartialEq, Eq, Structural)]
pub struct DistributedStorageCacheSnapshot {
    pub select_series_hits: u64,
    pub select_series_misses: u64,
    pub select_points_hits: u64,
    pub select_points_misses: u64,
    pub select_all_hits: u64,
    pub select_all_misses: u64,
}

/// No reads.
pub open spec fn no_lookups() -> DistributedStorageCacheSnapshot {
    DistributedStorageCacheSnapshot {
        select_series_hits: 0,
        select_series_misses: 0,
        select_points_hits: 0,
        select_points_misses: 0,
        select_all_hits: 0,
        select_all_misses: 0,
    }
}

impl Default for DistributedStorageCacheSnapshot {
    fn default() -> (res: Self)
        ensures
            res == no_lookups(),
    {
        DistributedStorageCacheSnapshot {
            select_series_hits: 0,
            select_series_misses: 0,
            select_points_hits: 0,
            select_points_misses: 0,
            select_all_hits: 0,
            select_all_misses: 0,
        }
    }
}

impl Ranked for Label {
    open spec fn before(a: LabelView, b: LabelView) -> bool {
        text_less(a.name, b.name) || (a.name == b.name && text_less(a.value, b.value))
    }

    fn precedes(&self, other: &Label) -> (res: bool) {
        less(&self.name, &other.name) || (same(&self.name, &other.name) && less(
            &self.value,
            &other.value,
        ))
    }
}

/// What a remembered read is found by.
pub trait CacheKey: View + Sized {
    /// Whether two keys stand for the same read.
    fn matches(&self, other: &Self) -> (res: bool)
        ensures
            res == (self@ == other@),
    ;
}

/// The time and the metric of a read of all its series.
#[derive(Debug)]
pub struct SelectAllCacheKey {
    pub metric: String,
    pub start: i64,
    pub end: i64,
}

/// What a [`SelectAllCacheKey`] holds.
pub struct AllKeyView {
    pub metric: Seq<char>,
    pub start: i64,
    pub end: i64,
}

impl View for SelectAllCacheKey {
    type V = AllKeyView;

    open spec fn view(&self) -> AllKeyView {
        AllKeyView { metric: self.metric@, start: self.start, end: self.end }
    }
}

impl CacheKey for SelectAllCacheKey {
    fn matches(&self, other: &Self) -> (res: bool) {
        same(&self.metric, &other.metric) && self.start == other.start && self.end == other.end
    }
}

impl SelectAllCacheKey {
    pub fn new(metric: &str, start: i64, end: i64) -> (res: Self)
        ensures
            res@ == (AllKeyView { metric: metric@, start, end }),
    {
        SelectAllCacheKey { metric: owned(metric), start, end }
    }
}

/// The time and the series of a read of its points; the labels are in order.
#[derive(Debug)]
pub struct SelectPointsCacheKey {
    metric: String,
    labels: Vec<Label>,
    start: i64,
    end: i64,
}

/// What a [`SelectPointsCacheKey`] holds.
#[verifier::ext_equal]
pub struct PointsKeyView {
    pub metric: Seq<char>,
    pub labels: Seq<LabelView>,
    pub start: i64,
    pub end: i64,
}

impl View for SelectPointsCacheKey {
    type V = PointsKeyView;

    closed spec fn view(&self) -> PointsKeyView {
        PointsKeyView {
            metric: self.metric@,
            labels: views(self.labels@),
            start: self.start,
            end: self.end,
        }
    }
}

/// The key of a read of points.
pub open spec fn points_key(
    metric: Seq<char>,
    labels: Seq<LabelView>,
    start: i64,
    end: i64,
) -> PointsKeyView {
    PointsKeyView { metric, labels: ranked_sort::<Label>(labels), start, end }
}

fn same_labels(a: &Vec<Label>, b: &Vec<Label>) -> (res: bool)
    ensures
        res == (views(a@) == views(b@)),
{
    let ghost left = views(a@);
    let ghost right = views(b@);
    assert(left.len() == a.len() && right.len() == b.len());
    if a.len() != b.len() {
        return false;
    }
    let mut i: usize = 0;
    while i < a.len()
        invariant
            i <= a.len() == b.len(),
            left == views(a@),
            right == views(b@),
            forall|k: int| 0 <= k < i ==> #[trigger] left[k] == right[k],
        decreases a.len() - i,
    {
        assert(left[i as int] == a@[i as int]@);
        assert(right[i as int] == b@[i as int]@);
        if !(same(&a[i].name, &b[i].name) && same(&a[i].value, &b[i].value)) {
            return false;
        }
        i += 1;
    }
    assert(left =~= right);
    true
}

fn copy_labels(labels: &Vec<Label>) -> (res: Vec<Label>)
    ensures
        views(res@) == views(labels@),
{
    let ghost all = views(labels@);
    let mut out: Vec<Label> = Vec::new();
    let mut i: usize = 0;
    while i < labels.len()
        invariant
            i <= labels.len(),
            all == views(labels@),
            views(out@) =~= all.take(i as int),
        decreases labels.len() - i,
    {
        assert(all[i as int] == labels@[i as int]@);
        let label = labels[i].clone();
        let ghost before = views(out@);
        let ghost last = label@;
        out.push(label);
        assert(views(out@) =~= before.push(last));
        i += 1;
    }
    assert(views(out@) =~= all);
    out
}

impl CacheKey for SelectPointsCacheKey {
    fn matches(&self, other: &Self) -> (res: bool) {
        let res = same(&self.metric, &other.metric) && same_labels(&self.labels, &other.labels)
            && self.start == other.start && self.end == other.end;
        res
    }
}

impl SelectPointsCacheKey {
    /// The key of a read of points: the order of the labels does not matter.
    pub fn new(metric: &str, labels: &Vec<Label>, start: i64, end: i64) -> (res: Self)
        ensures
            res@ == points_key(metric@, views(labels@), start, end),
    {
        let sorted = sort_ranked(copy_labels(labels));
        SelectPointsCacheKey { metric: owned(metric), labels: sorted, start, end }
    }
}

/// A test on a label, as part of a key.
#[derive(Debug)]
pub struct SeriesMatcherCacheKey {
    name: String,
    op: u8,
    value: String,
}

/// What a [`SeriesMatcherCacheKey`] holds.
pub struct MatcherKeyView {
    pub name: Seq<char>,
    pub op: u8,
    pub value: Seq<char>,
}

impl View for SeriesMatcherCacheKey {
    type V = MatcherKeyView;

    closed spec fn view(&self) -> MatcherKeyView {
        MatcherKeyView { name: self.name@, op: self.op, value: self.value@ }
    }
}

impl Ranked for SeriesMatcherCacheKey {
    open spec fn before(a: MatcherKeyView, b: MatcherKeyView) -> bool {
        ||| text_less(a.name, b.name)
        ||| a.name == b.name && a.op < b.op
        ||| a.name == b.name && a.op == b.op && text_less(a.value, b.value)
    }

    fn precedes(&self, other: &SeriesMatcherCacheKey) -> (res: bool) {
        if less(&self.name, &other.name) {
            return true;
        }
        if !same(&self.name, &other.name) {
            return false;
        }
        self.op < other.op || (self.op == other.op && less(&self.value, &other.value))
    }
}

/// The number of a test.
pub open spec fn op_code(op: SeriesMatcherOp) -> u8 {
    match op {
        SeriesMatcherOp::Equal => 0,
        SeriesMatcherOp::NotEqual => 1,
        SeriesMatcherOp::RegexMatch => 2,
        SeriesMatcherOp::RegexNoMatch => 3,
    }
}

fn matcher_op_code(op: SeriesMatcherOp) -> (res: u8)
    ensures
        res == op_code(op),
{
    match op {
        SeriesMatcherOp::Equal => 0,
        SeriesMatcherOp::NotEqual => 1,
        SeriesMatcherOp::RegexMatch => 2,
        SeriesMatcherOp::RegexNoMatch => 3,
    }
}

/// A test on a label, as part of a key.
pub open spec fn matcher_key(matcher: SeriesMatcher) -> MatcherKeyView {
    MatcherKeyView { name: matcher.name@, op: op_code(matcher.op), value: matcher.value@ }
}

/// Some tests on labels, as part of a key.
pub open spec fn matcher_keys(matchers: Seq<SeriesMatcher>) -> Seq<MatcherKeyView> {
    Seq::new(matchers.len(), |i: int| matcher_key(matchers[i]))
}

/// What a read of series selects; the tests are in order.
#[derive(Debug)]
pub struct SeriesSelectionCacheKey {
    metric: Option<String>,
    matchers: Vec<SeriesMatcherCacheKey>,
    start: Option<i64>,
    end: Option<i64>,
}

/// What a [`SeriesSelectionCacheKey`] holds.
pub struct SelectionKeyView {
    pub metric: Option<Seq<char>>,
    pub matchers: Seq<MatcherKeyView>,
    pub start: Option<i64>,
    pub end: Option<i64>,
}

impl View for SeriesSelectionCacheKey {
    type V = SelectionKeyView;

    closed spec fn view(&self) -> SelectionKeyView {
        SelectionKeyView {
            metric: opt_text(self.metric),
            matchers: views(self.matchers@),
            start: self.start,
            end: self.end,
        }
    }
}

/// The key of a read of series.
pub open spec fn selection_key(selection: SeriesSelection) -> SelectionKeyView {
    SelectionKeyView {
        metric: opt_text(selection.metric),
        matchers: ranked_sort::<SeriesMatcherCacheKey>(matcher_keys(selection.matchers@)),
        start: selection.start,
        end: selection.end,
    }
}

fn same_matchers(a: &Vec<SeriesMatcherCacheKey>, b: &Vec<SeriesMatcherCacheKey>) -> (res: bool)
    ensures
        res == (views(a@) == views(b@)),
{
    let ghost left = views(a@);
    let ghost right = views(b@);
    assert(left.len() == a.len() && right.len() == b.len());
    if a.len() != b.len() {
        return false;
    }
    let mut i: usize = 0;
    while i < a.len()
        invariant
            i <= a.len() == b.len(),
            left == views(a@),
            right == views(b@),
            forall|k: int| 0 <= k < i ==> #[trigger] left[k] == right[k],
        decreases a.len() - i,
    {
        assert(left[i as int] == a@[i as int]@);
        assert(right[i as int] == b@[i as int]@);
        if !(same(&a[i].name, &b[i].name) && a[i].op == b[i].op && same(&a[i].value, &b[i].value)) {
            return false;
        }
        i += 1;
    }
    assert(left =~= right);
    true
}

fn same_time(a: Option<i64>, b: Option<i64>) -> (res: bool)
    ensures
        res == (a == b),
{
    match (a, b) {
        (Some(x), Some(y)) => x == y,
        (None, None) => true,
        _ => false,
    }
}

impl CacheKey for SeriesSelectionCacheKey {
    fn matches(&self, other: &Self) -> (res: bool) {
        same_opt(&self.metric, &other.metric) && same_matchers(&self.matchers, &other.matchers)
            && same_time(self.start, other.start) && same_time(self.end, other.end)
    }
}

impl SeriesSelectionCacheKey {
    /// The key of a read of series: the order of the tests does not matter.
    pub fn from_selection(selection: &SeriesSelection) -> (res: Self)
        ensures
            res@ == selection_key(*selection),
    {
        let ghost all = matcher_keys(selection.matchers@);
        let mut matchers: Vec<SeriesMatcherCacheKey> = Vec::new();
        let mut i: usize = 0;
        while i < selection.matchers.len()
            invariant
                i <= selection.matchers.len(),
                all == matcher_keys(selection.matchers@),
                views(matchers@) =~= all.take(i as int),
            decreases selection.matchers.len() - i,
        {
            let matcher = &selection.matchers[i];
            let key = SeriesMatcherCacheKey {
                name: matcher.name.clone(),
                op: matcher_op_code(matcher.op),
                value: matcher.value.clone(),
            };
            let ghost before = views(matchers@);
            let ghost last = key@;
            assert(last == all[i as int]);
            matchers.push(key);
            assert(views(matchers@) =~= before.push(last));
            i += 1;
        }
        assert(views(matchers@) =~= all);
        SeriesSelectionCacheKey {
            metric: clone_opt(&selection.metric),
            matchers: sort_ranked(matchers),
            start: selection.start,
            end: selection.end,
        }
    }
}

#[derive(Debug)]
struct Remembered<K, V> {
    key: K,
    value: V,
}

/// Values that are found by their keys.
#[derive(Debug)]
pub struct KeyedCache<K: CacheKey, V> {
    entries: Vec<Remembered<K, V>>,
}

spec fn remembered_keys<K: CacheKey, V>(entries: Seq<Remembered<K, V>>) -> Seq<K::V> {
    Seq::new(entries.len(), |i: int| entries[i].key@)
}

spec fn remembered<K: CacheKey, V>(entries: Seq<Remembered<K, V>>) -> Map<K::V, V> {
    Map::new(
        |key: K::V| remembered_keys(entries).contains(key),
        |key: K::V| entries[remembered_keys(entries).index_of(key)].value,
    )
}

impl<K: CacheKey, V> View for KeyedCache<K, V> {
    type V = Map<K::V, V>;

    closed spec fn view(&self) -> Map<K::V, V> {
        remembered(self.entries@)
    }
}

impl<K: CacheKey, V> KeyedCache<K, V> {
    #[verifier::type_invariant]
    spec fn distinct(self) -> bool {
        remembered_keys(self.entries@).no_duplicates()
    }

    /// Nothing.
    pub fn new() -> (res: Self)
        ensures
            res@ == Map::<K::V, V>::empty(),
    {
        let res = KeyedCache { entries: Vec::new() };
        assert(res@ =~= Map::<K::V, V>::empty());
        res
    }

    fn locate(&self, key: &K) -> (res: Option<usize>)
        ensures
            match res {
                Some(i) => i < self.entries.len() && self.entries@[i as int].key@ == key@
                    && self@.dom().contains(key@) && self@[key@] == self.entries@[i as int].value,
                None => !self@.dom().contains(key@),
            },
    {
        proof {
            use_type_invariant(self);
        }
        let ghost keys = remembered_keys(self.entries@);
        let mut i: usize = 0;
        while i < self.entries.len()
            invariant
                i <= self.entries.len(),
                keys == remembered_keys(self.entries@),
                keys.no_duplicates(),
                forall|k: int| 0 <= k < i ==> #[trigger] keys[k] != key@,
            decreases self.entries.len() - i,
        {
            if self.entries[i].key.matches(key) {
                assert(keys[i as int] == key@);
                assert(keys.index_of(key@) == i);
                return Some(i);
            }
            assert(keys[i as int] == self.entries@[i as int].key@);
            i += 1;
        }
        None
    }

    /// The value of a key, if there is one.
    pub fn get(&self, key: &K) -> (res: Option<&V>)
        ensures
            match res {
                Some(value) => self@.dom().contains(key@) && *value == self@[key@],
                None => !self@.dom().contains(key@),
            },
    {
        match self.locate(key) {
            Some(i) => Some(&self.entries[i].value),
            None => None,
        }
    }

    /// Gives a key a value.
    pub fn insert(&mut self, key: K, value: V)
        ensures
            final(self)@ == old(self)@.insert(key@, value),
    {
        proof {
            use_type_invariant(&*self);
        }
        let at = self.locate(&key);
        let ghost before = self.entries@;
        let ghost old_keys = remembered_keys(before);
        let ghost name = key@;
        let mut entries: Vec<Remembered<K, V>> = Vec::new();
        std::mem::swap(&mut entries, &mut self.entries);
        match at {
            Some(i) => {
                entries.set(i, Remembered { key, value });
                assert(remembered_keys(entries@) =~= old_keys);
                assert(remembered(entries@) =~= remembered(before).insert(name, value)) by {
                    assert forall|k: K::V| remembered(entries@).dom().contains(k) implies
                        #[trigger] remembered(entries@)[k] == remembered(before).insert(
                        name,
                        value,
                    )[k] by {
                        let p = old_keys.index_of(k);
                        assert(old_keys[p] == k);
                        if k != name {
                            assert(p != i);
                        } else {
                            assert(old_keys[i as int] == name);
                            assert(p == i);
                        }
                    }
                    assert(old_keys[i as int] == name);
                }
            },
            None => {
                entries.push(Remembered { key, value });
                let ghost keys = remembered_keys(entries@);
                proof {
                    assert(keys =~= old_keys.push(name));
                    assert(!old_keys.contains(name));
                    assert(keys.no_duplicates()) by {
                        assert forall|a: int, b: int|
                            0 <= a < keys.len() && 0 <= b < keys.len() && a != b implies keys[a]
                            != keys[b] by {
                            if a < old_keys.len() && b == old_keys.len() {
                                assert(old_keys.contains(old_keys[a]));
                            }
                            if b < old_keys.len() && a == old_keys.len() {
                                assert(old_keys.contains(old_keys[b]));
                            }
                        }
                    }
                    assert forall|k: K::V| #[trigger] keys.contains(k) <==> old_keys.contains(k)
                        || k == name by {
                        if old_keys.contains(k) {
                            let p = old_keys.index_of(k);
                            assert(keys[p] == k);
                        }
                        assert(keys[old_keys.len() as int] == name);
                    }
                    assert(remembered(entries@) =~= remembered(before).insert(name, value)) by {
                        assert forall|k: K::V| remembered(entries@).dom().contains(k) implies
                            #[trigger] remembered(entries@)[k] == remembered(before).insert(
                            name,
                            value,
                        )[k] by {
                            let p = keys.index_of(k);
                            assert(keys[p] == k);
                            if k != name {
                                assert(old_keys[p] == k);
                                let q = old_keys.index_of(k);
                                assert(old_keys[q] == k);
                                assert(p == q);
                            } else {
                                assert(keys[old_keys.len() as int] == name);
                                assert(p == old_keys.len());
                            }
                        }
                    }
                }
            },
        }
        self.entries = entries;
    }

    /// Forgets everything.
    pub fn clear(&mut self)
        ensures
            final(self)@ == Map::<K::V, V>::empty(),
    {
        self.entries = Vec::new();
        assert(self@ =~= Map::<K::V, V>::empty());
    }
}

/// The series of a read of all series of a metric, with their points.
#[derive(Debug)]
pub struct FoundSeries {
    pub labels: Vec<Label>,
    pub points: Vec<DataPoint>,
}

/// What a [`FoundSeries`] holds.
pub struct FoundView {
    pub labels: Seq<LabelView>,
    pub points: Seq<DataPoint>,
}

impl View for FoundSeries {
    type V = FoundView;

    open spec fn view(&self) -> FoundView {
        FoundView { labels: views(self.labels@), points: self.points@ }
    }
}

/// Whether one list of labels comes before another, as words in a dictionary.
pub open spec fn labels_less(a: Seq<LabelView>, b: Seq<LabelView>) -> bool
    decreases a.len(),
{
    if b.len() == 0 {
        false
    } else if a.len() == 0 {
        true
    } else if a[0] == b[0] {
        labels_less(a.drop_first(), b.drop_first())
    } else {
        Label::before(a[0], b[0])
    }
}

fn labels_precede(a: &Vec<Label>, b: &Vec<Label>) -> (res: bool)
    ensures
        res == labels_less(views(a@), views(b@)),
{
    let ghost left = views(a@);
    let ghost right = views(b@);
    assert(left.len() == a.len() && right.len() == b.len());
    assert(left.skip(0) =~= left && right.skip(0) =~= right);
    let mut i: usize = 0;
    while i < a.len() && i < b.len()
        invariant
            i <= a.len(),
            i <= b.len(),
            left == views(a@),
            right == views(b@),
            left.len() == a.len(),
            right.len() == b.len(),
            labels_less(left, right) == labels_less(left.skip(i as int), right.skip(i as int)),
        decreases a.len() - i,
    {
        assert(left[i as int] == a@[i as int]@);
        assert(right[i as int] == b@[i as int]@);
        assert(left.skip(i as int)[0] == left[i as int]);
        assert(right.skip(i as int)[0] == right[i as int]);
        if !(same(&a[i].name, &b[i].name) && same(&a[i].value, &b[i].value)) {
            return a[i].precedes(&b[i]);
        }
        assert(left.skip(i as int).drop_first() =~= left.skip(i + 1));
        assert(right.skip(i as int).drop_first() =~= right.skip(i + 1));
        i += 1;
    }
    i < b.len()
}

impl Ranked for FoundSeries {
    open spec fn before(a: FoundView, b: FoundView) -> bool {
        labels_less(a.labels, b.labels)
    }

    fn precedes(&self, other: &FoundSeries) -> (res: bool) {
        labels_precede(&self.labels, &other.labels)
    }
}

/// The series that have points.
pub open spec fn with_points(found: Seq<FoundView>) -> Seq<FoundView>
    decreases found.len(),
{
    if found.len() == 0 {
        found
    } else {
        let before = with_points(found.drop_last());
        if found.last().points.len() == 0 {
            before
        } else {
            before.push(found.last())
        }
    }
}

/// The series that have points, in the order of their labels.
pub fn order_found(found: Vec<FoundSeries>) -> (res: Vec<FoundSeries>)
    ensures
        views(res@) == ranked_sort::<FoundSeries>(with_points(views(found@))),
{
    let ghost all = views(found@);
    let mut rest = found;
    let mut kept: Vec<FoundSeries> = Vec::new();
    let ghost mut done: int = 0;
    assert(all.take(0) =~= Seq::<FoundView>::empty());
    assert(views(kept@) =~= Seq::<FoundView>::empty());
    assert(all.skip(0) =~= all);
    while rest.len() > 0
        invariant
            0 <= done <= all.len(),
            rest.len() == all.len() - done,
            views(rest@) == all.skip(done),
            views(kept@) == with_points(all.take(done)),
        decreases rest.len(),
    {
        let ghost before = views(rest@);
        proof {
            assert(before[0] == rest@[0]@);
            assert(all.skip(done)[0] == all[done]);
        }
        let item = rest.remove(0);
        assert(item@ == all[done]);
        assert(views(rest@) =~= all.skip(done + 1));
        assert(all.take(done + 1).drop_last() =~= all.take(done));
        assert(all.take(done + 1).last() == all[done]);
        if item.points.len() > 0 {
            kept.push(item);
        }
        proof {
            done = done + 1;
        }
    }
    assert(all.take(done) =~= all);
    sort_ranked(kept)
}

impl View for DataPoint {
    type V = DataPoint;

    open spec fn view(&self) -> DataPoint {
        *self
    }
}

impl Ranked for DataPoint {
    open spec fn before(a: DataPoint, b: DataPoint) -> bool {
        a.timestamp < b.timestamp
    }

    fn precedes(&self, other: &DataPoint) -> (res: bool) {
        self.timestamp < other.timestamp
    }
}

/// The points in the order of time; points of the same time keep their order.
pub fn order_points(points: Vec<DataPoint>) -> (res: Vec<DataPoint>)
    ensures
        res@ == ranked_sort::<DataPoint>(points@),
{
    assert(views(points@) =~= points@);
    let sorted = sort_ranked(points);
    assert(views(sorted@) =~= sorted@);
    sorted
}

/// What reads across the nodes have found before.
#[derive(Debug)]
pub struct DistributedStorageCache {
    config: DistributedStorageCacheConfig,
    select_series: KeyedCache<SeriesSelectionCacheKey, Vec<MetricSeries>>,
    select_points: KeyedCache<SelectPointsCacheKey, Vec<DataPoint>>,
    select_all: KeyedCache<SelectAllCacheKey, Vec<FoundSeries>>,
    snapshot: DistributedStorageCacheSnapshot,
}

/// What a [`DistributedStorageCache`] holds.
pub struct CacheView {
    pub config: DistributedStorageCacheConfig,
    pub select_series: Map<SelectionKeyView, Vec<MetricSeries>>,
    pub select_points: Map<PointsKeyView, Vec<DataPoint>>,
    pub select_all: Map<AllKeyView, Vec<FoundSeries>>,
    pub snapshot: DistributedStorageCacheSnapshot,
}

impl View for DistributedStorageCache {
    type V = CacheView;

    closed spec fn view(&self) -> CacheView {
        CacheView {
            config: self.config,
            select_series: self.select_series@,
            select_points: self.select_points@,
            select_all: self.select_all@,
            snapshot: self.snapshot,
        }
    }
}

/// The cache after a read of series was looked up.
pub open spec fn series_looked_up(v: CacheView, key: SelectionKeyView) -> CacheView {
    if v.config.cache_select_series && v.select_series.dom().contains(key) {
        CacheView {
            snapshot: DistributedStorageCacheSnapshot {
                select_series_hits: bumped(v.snapshot.select_series_hits),
                ..v.snapshot
            },
            ..v
        }
    } else {
        v
    }
}

/// The cache after a read of series was done.
pub open spec fn series_kept(v: CacheView, key: SelectionKeyView, value: Vec<MetricSeries>) -> CacheView {
    if v.config.cache_select_series {
        CacheView {
            select_series: v.select_series.insert(key, value),
            snapshot: DistributedStorageCacheSnapshot {
                select_series_misses: bumped(v.snapshot.select_series_misses),
                ..v.snapshot
            },
            ..v
        }
    } else {
        v
    }
}

/// The cache after a read of points was looked up.
pub open spec fn points_looked_up(v: CacheView, key: PointsKeyView) -> CacheView {
    if v.config.cache_select_points && v.select_points.dom().contains(key) {
        CacheView {
            snapshot: DistributedStorageCacheSnapshot {
                select_points_hits: bumped(v.snapshot.select_points_hits),
                ..v.snapshot
            },
            ..v
        }
    } else {
        v
    }
}

/// The cache after a read of points was done.
pub open spec fn points_kept(v: CacheView, key: PointsKeyView, value: Vec<DataPoint>) -> CacheView {
    if v.config.cache_select_points {
        CacheView {
            select_points: v.select_points.insert(key, value),
            snapshot: DistributedStorageCacheSnapshot {
                select_points_misses: bumped(v.snapshot.select_points_misses),
                ..v.snapshot
            },
            ..v
        }
    } else {
        v
    }
}

/// The cache after a read of all series of a metric was looked up.
pub open spec fn all_looked_up(v: CacheView, key: AllKeyView) -> CacheView {
    if v.config.cache_select_all && v.select_all.dom().contains(key) {
        CacheView {
            snapshot: DistributedStorageCacheSnapshot {
                select_all_hits: bumped(v.snapshot.select_all_hits),
                ..v.snapshot
            },
            ..v
        }
    } else {
        v
    }
}

/// The cache after a read of all series of a metric was done.
pub open spec fn all_kept(v: CacheView, key: AllKeyView, value: Vec<FoundSeries>) -> CacheView {
    if v.config.cache_select_all {
        CacheView {
            select_all: v.select_all.insert(key, value),
            snapshot: DistributedStorageCacheSnapshot {
                select_all_misses: bumped(v.snapshot.select_all_misses),
                ..v.snapshot
            },
            ..v
        }
    } else {
        v
    }
}

/// The cache after everything that it remembers was forgotten.
pub open spec fn forgotten(v: CacheView) -> CacheView {
    CacheView {
        select_series: Map::empty(),
        select_points: Map::empty(),
        select_all: Map::empty(),
        ..v
    }
}

impl DistributedStorageCache {
    /// Nothing is remembered yet.
    pub fn new(config: DistributedStorageCacheConfig) -> (res: Self)
        ensures
            res@ == (CacheView {
                config,
                select_series: Map::empty(),
                select_points: Map::empty(),
                select_all: Map::empty(),
                snapshot: no_lookups(),
            }),
    {
        DistributedStorageCache {
            config,
            select_series: KeyedCache::new(),
            select_points: KeyedCache::new(),
            select_all: KeyedCache::new(),
            snapshot: DistributedStorageCacheSnapshot::default(),
        }
    }

    /// Remembers from now on as another configuration says; what is remembered stays.
    pub fn set_config(&mut self, config: DistributedStorageCacheConfig)
        ensures
            final(self)@ == (CacheView { config, ..old(self)@ }),
    {
        self.config = config;
    }

    pub fn cache_snapshot(&self) -> (res: DistributedStorageCacheSnapshot)
        ensures
            res == self@.snapshot,
    {
        self.snapshot
    }

    /// The series that a read found before, if they are remembered.
    pub fn read_series(&mut self, key: &SeriesSelectionCacheKey) -> (res: Option<&Vec<MetricSeries>>)
        ensures
            final(self)@ == series_looked_up(old(self)@, key@),
            match res {
                Some(series) => old(self)@.config.cache_select_series
                    && old(self)@.select_series.dom().contains(key@) && *series
                    == old(self)@.select_series[key@],
                None => !(old(self)@.config.cache_select_series
                    && old(self)@.select_series.dom().contains(key@)),
            },
    {
        if !self.config.cache_select_series {
            return None;
        }
        match self.select_series.get(key) {
            None => None,
            Some(series) => {
                self.snapshot.select_series_hits = self.snapshot.select_series_hits.saturating_add(
                    1,
                );
                Some(series)
            },
        }
    }

    /// Remembers the series that a read found.
    pub fn keep_series(&mut self, key: SeriesSelectionCacheKey, series: Vec<MetricSeries>)
        ensures
            final(self)@ == series_kept(old(self)@, key@, series),
    {
        if self.config.cache_select_series {
            self.snapshot.select_series_misses = self.snapshot.select_series_misses.saturating_add(
                1,
            );
            self.select_series.insert(key, series);
        }
    }

    /// The points that a read found before, if they are remembered.
    pub fn read_points(&mut self, key: &SelectPointsCacheKey) -> (res: Option<&Vec<DataPoint>>)
        ensures
            final(self)@ == points_looked_up(old(self)@, key@),
            match res {
                Some(points) => old(self)@.config.cache_select_points
                    && old(self)@.select_points.dom().contains(key@) && *points
                    == old(self)@.select_points[key@],
                None => !(old(self)@.config.cache_select_points
                    && old(self)@.select_points.dom().contains(key@)),
            },
    {
        if !self.config.cache_select_points {
            return None;
        }
        match self.select_points.get(key) {
            None => None,
            Some(points) => {
                self.snapshot.select_points_hits = self.snapshot.select_points_hits.saturating_add(
                    1,
                );
                Some(points)
            },
        }
    }

    /// Remembers the points that a read found.
    pub fn keep_points(&mut self, key: SelectPointsCacheKey, points: Vec<DataPoint>)
        ensures
            final(self)@ == points_kept(old(self)@, key@, points),
    {
        if self.config.cache_select_points {
            self.snapshot.select_points_misses = self.snapshot.select_points_misses.saturating_add(
                1,
            );
            self.select_points.insert(key, points);
        }
    }

    /// All series of a metric that a read found before, if they are remembered.
    pub fn read_all(&mut self, key: &SelectAllCacheKey) -> (res: Option<&Vec<FoundSeries>>)
        ensures
            final(self)@ == all_looked_up(old(self)@, key@),
            match res {
                Some(found) => old(self)@.config.cache_select_all
                    && old(self)@.select_all.dom().contains(key@) && *found
                    == old(self)@.select_all[key@],
                None => !(old(self)@.config.cache_select_all
                    && old(self)@.select_all.dom().contains(key@)),
            },
    {
        if !self.config.cache_select_all {
            return None;
        }
        match self.select_all.get(key) {
            None => None,
            Some(found) => {
                self.snapshot.select_all_hits = self.snapshot.select_all_hits.saturating_add(1);
                Some(found)
            },
        }
    }

    /// Remembers all series of a metric that a read found.
    pub fn keep_all(&mut self, key: SelectAllCacheKey, found: Vec<FoundSeries>)
        ensures
            final(self)@ == all_kept(old(self)@, key@, found),
    {
        if self.config.cache_select_all {
            self.snapshot.select_all_misses = self.snapshot.select_all_misses.saturating_add(1);
            self.select_all.insert(key, found);
        }
    }

    /// Forgets everything that is remembered.
    pub fn invalidate_cache(&mut self)
        ensures
            final(self)@ == forgotten(old(self)@),
    {
        self.select_series.clear();
        self.select_points.clear();
        self.select_all.clear();
    }
}

/// A list with those of some texts behind it that it does not hold yet.
pub open spec fn united(list: Seq<Seq<char>>, more: Seq<Seq<char>>) -> Seq<Seq<char>>
    decreases more.len(),
{
    if more.len() == 0 {
        list
    } else {
        let before = united(list, more.drop_last());
        if before.contains(more.last()) {
            before
        } else {
            before.push(more.last())
        }
    }
}

/// The metadata of some reads together with those of another one.
pub open spec fn recorded(current: MetadataView, metadata: MetadataView) -> MetadataView {
    MetadataView {
        partial_response: current.partial_response || metadata.partial_response,
        warnings: ranked_sort::<String>(united(current.warnings, metadata.warnings)),
        ..current
    }
}

/// Adds the metadata of a read to those of the reads before it: each warning once, in order.
pub fn record_metadata(
    current: ReadFanoutResponseMetadata,
    metadata: &ReadFanoutResponseMetadata,
) -> (res: ReadFanoutResponseMetadata)
    ensures
        res@ == recorded(current@, metadata@),
{
    let ghost more = views(metadata.warnings@);
    let ghost start = views(current.warnings@);
    let mut warnings: Vec<String> = current.warnings;
    let mut i: usize = 0;
    assert(more.take(0).len() == 0);
    while i < metadata.warnings.len()
        invariant
            i <= metadata.warnings.len(),
            more == views(metadata.warnings@),
            views(warnings@) == united(start, more.take(i as int)),
        decreases metadata.warnings.len() - i,
    {
        assert(more[i as int] == metadata.warnings@[i as int]@);
        assert(more.take(i + 1).drop_last() =~= more.take(i as int));
        assert(more.take(i + 1).last() == more[i as int]);
        if !contains_text(&warnings, &metadata.warnings[i]) {
            warnings.push(metadata.warnings[i].clone());
        }
        i += 1;
    }
    assert(more.take(i as int) =~= more);
    ReadFanoutResponseMetadata {
        consistency: current.consistency,
        partial_response_policy: current.partial_response_policy,
        partial_response: current.partial_response || metadata.partial_response,
        warnings: sort_ranked(warnings),
    }
}

/// How a failed read is told to a query.
#[derive(Debug, PartialEq, Eq)]
pub enum StorageReadError {
    InvalidConfiguration(String),
    Other(String),
}

/// What a [`StorageReadError`] holds.
pub enum StorageErrorView {
    InvalidConfiguration(Seq<char>),
    Other(Seq<char>),
}

impl View for StorageReadError {
    type V = StorageErrorView;

    open spec fn view(&self) -> StorageErrorView {
        match *self {
            StorageReadError::InvalidConfiguration(message) => {
                StorageErrorView::InvalidConfiguration(message@)
            },
            StorageReadError::Other(message) => StorageErrorView::Other(message@),
        }
    }
}

/// How a failed read is told to a query: a read that asks for too much or for nonsense is a mistake
/// of the query.
pub open spec fn storage_error(error: FanoutErrorView) -> StorageErrorView {
    match error {
        FanoutErrorView::InvalidRequest { message } => StorageErrorView::InvalidConfiguration(
            message,
        ),
        FanoutErrorView::MergeLimitExceeded { message } => StorageErrorView::InvalidConfiguration(
            message,
        ),
        _ => StorageErrorView::Other("distributed read fanout failed: "@ + fanout_message(error)),
    }
}

/// How a failed read is told to a query.
pub fn map_read_fanout_error(error: ReadFanoutError) -> (res: StorageReadError)
    ensures
        res@ == storage_error(error@),
{
    match error {
        ReadFanoutError::InvalidRequest { message } => StorageReadError::InvalidConfiguration(
            message,
        ),
        ReadFanoutError::MergeLimitExceeded { message } => StorageReadError::InvalidConfiguration(
            message,
        ),
        other => StorageReadError::Other(
            cat2("distributed read fanout failed: ", other.message().as_str()),
        ),
    }
}

/// What a query that goes by options of its own is answered: such queries are not served.
pub fn select_with_options_error() -> (res: StorageReadError)
    ensures
        res@ == StorageErrorView::InvalidConfiguration(
            "select_with_options is not supported by distributed PromQL storage adapter"@,
        ),
{
    StorageReadError::InvalidConfiguration(
        owned("select_with_options is not supported by distributed PromQL storage adapter"),
    )
}

/// The version of the ring that reads go by: never less than the first.
pub fn effective_ring_version(ring_version: u64) -> (res: u64)
    ensures
        res == (if ring_version == 0 {
            1
        } else {
            ring_version
        }),
{
    if ring_version == 0 {
        1
    } else {
        ring_version
    }
}

} // verus!
