//! Sequences of views, and stable sorting by a strict order.

use vstd::prelude::*;
use crate::text::{less, text_less};

verus! {

/// The views of the elements of `s`, in order.
pub open spec fn views<T: View>(s: Seq<T>) -> Seq<T::V> {
    Seq::new(s.len(), |i: int| s[i]@)
}

pub broadcast proof fn lemma_views_push<T: View>(s: Seq<T>, x: T)
    ensures
        #[trigger] views(s.push(x)) == views(s).push(x@),
{
    assert(views(s.push(x)) =~= views(s).push(x@));
}

pub broadcast proof fn lemma_views_update<T: View>(s: Seq<T>, i: int, x: T)
    requires
        0 <= i < s.len(),
    ensures
        #[trigger] views(s.update(i, x)) == views(s).update(i, x@),
{
    assert(views(s.update(i, x)) =~= views(s).update(i, x@));
}

pub broadcast proof fn lemma_views_insert<T: View>(s: Seq<T>, i: int, x: T)
    requires
        0 <= i <= s.len(),
    ensures
        #[trigger] views(s.insert(i, x)) == views(s).insert(i, x@),
{
    assert(views(s.insert(i, x)) =~= views(s).insert(i, x@));
}

pub broadcast proof fn lemma_views_remove<T: View>(s: Seq<T>, i: int)
    requires
        0 <= i < s.len(),
    ensures
        #[trigger] views(s.remove(i)) == views(s).remove(i),
{
    assert(views(s.remove(i)) =~= views(s).remove(i));
}

pub broadcast proof fn lemma_views_take<T: View>(s: Seq<T>, n: int)
    requires
        0 <= n <= s.len(),
    ensures
        #[trigger] views(s.take(n)) == views(s).take(n),
{
    assert(views(s.take(n)) =~= views(s).take(n));
}

pub broadcast group group_views {
    lemma_views_push,
    lemma_views_update,
    lemma_views_insert,
    lemma_views_remove,
    lemma_views_take,
}

/// The least index of an element of `s` that satisfies `p`.
pub open spec fn first_index<V>(s: Seq<V>, p: spec_fn(V) -> bool) -> Option<int>
    decreases s.len(),
{
    if s.len() == 0 {
        None
    } else {
        match first_index(s.drop_last(), p) {
            Some(i) => Some(i),
            None => if p(s.last()) {
                Some(s.len() - 1)
            } else {
                None
            },
        }
    }
}

/// What [`first_index`] finds is the first match, and it finds one where there is one.
pub broadcast proof fn lemma_first_index<V>(s: Seq<V>, p: spec_fn(V) -> bool)
    ensures
        match #[trigger] first_index(s, p) {
            Some(i) => 0 <= i < s.len() && p(s[i]) && (forall|j: int|
                0 <= j < i ==> !p(#[trigger] s[j])),
            None => forall|j: int| 0 <= j < s.len() ==> !p(#[trigger] s[j]),
        },
    decreases s.len(),
{
    if s.len() > 0 {
        lemma_first_index(s.drop_last(), p);
        assert forall|j: int| 0 <= j < s.len() - 1 implies #[trigger] s[j] == s.drop_last()[j] by {}
        match first_index(s.drop_last(), p) {
            Some(i) => {
                assert(s[i] == s.drop_last()[i]);
            },
            None => {},
        }
    }
}

/// An index that matches with no match before it is the one that [`first_index`] finds.
pub proof fn lemma_first_index_is<V>(s: Seq<V>, p: spec_fn(V) -> bool, i: int)
    requires
        0 <= i < s.len(),
        p(s[i]),
        forall|j: int| 0 <= j < i ==> !p(#[trigger] s[j]),
    ensures
        first_index(s, p) == Some(i),
{
    lemma_first_index(s, p);
    match first_index(s, p) {
        Some(k) => {
            assert(p(s[k]));
            assert(k < i ==> !p(s[k]));
            assert(i < k ==> !p(s[i]));
        },
        None => {
            assert(!p(s[i]));
        },
    }
}

/// A type whose values can be copied so that the views agree.
pub trait Copied: View + Sized {
    fn copied(&self) -> (res: Self)
        ensures
            res@ == self@,
    ;
}

/// A copy of a list.
pub(crate) fn copy_list<T: Copied>(list: &Vec<T>) -> (res: Vec<T>)
    ensures
        views(res@) == views(list@),
{
    let mut out: Vec<T> = Vec::new();
    let mut i: usize = 0;
    while i < list.len()
        invariant
            i <= list.len(),
            views(out@) =~= views(list@).take(i as int),
        decreases list.len() - i,
    {
        let item = list[i].copied();
        let ghost before = views(out@);
        out.push(item);
        assert(views(out@) =~= before.push(item@)) by {
            lemma_views_push(out@.drop_last(), item);
            assert(out@.drop_last().push(item) =~= out@);
        }
        i += 1;
    }
    assert(views(list@).take(i as int) =~= views(list@));
    out
}

/// A type whose values are put in order by their views.
pub trait Ranked: View + Sized {
    /// Whether `a` comes strictly before `b`.
    spec fn before(a: Self::V, b: Self::V) -> bool;

    /// Decides [`Ranked::before`].
    fn precedes(&self, other: &Self) -> (res: bool)
        ensures
            res == Self::before(self@, other@),
    ;
}

/// `s` with `x` put behind the last element that `x` does not come before.
pub open spec fn ranked_insert<T: Ranked>(s: Seq<T::V>, x: T::V) -> Seq<T::V>
    decreases s.len(),
{
    if s.len() > 0 && T::before(x, s.last()) {
        ranked_insert::<T>(s.drop_last(), x).push(s.last())
    } else {
        s.push(x)
    }
}

/// `s` sorted stably by [`Ranked::before`].
pub open spec fn ranked_sort<T: Ranked>(s: Seq<T::V>) -> Seq<T::V>
    decreases s.len(),
{
    if s.len() == 0 {
        s
    } else {
        ranked_insert::<T>(ranked_sort::<T>(s.drop_last()), s.last())
    }
}

/// Puts `x` behind the last element that it does not come before.
pub(crate) fn insert_ranked<T: Ranked>(list: &mut Vec<T>, x: T)
    ensures
        views(final(list)@) == ranked_insert::<T>(views(old(list)@), x@),
{
    let mut at: usize = list.len();
    assert(views(list@).take(at as int) =~= views(list@));
    assert(ranked_insert::<T>(views(list@), x@) =~= ranked_insert::<T>(
        views(list@).take(at as int),
        x@,
    ) + views(list@).skip(at as int));
    while at > 0 && x.precedes(&list[at - 1])
        invariant
            at <= list.len(),
            ranked_insert::<T>(views(list@), x@) == ranked_insert::<T>(
                views(list@).take(at as int),
                x@,
            ) + views(list@).skip(at as int),
        decreases at,
    {
        let ghost v = views(list@);
        let ghost head = v.take(at as int);
        assert(head.last() == list@[at - 1]@);
        assert(head.drop_last() =~= v.take(at - 1));
        assert(ranked_insert::<T>(head, x@) == ranked_insert::<T>(v.take(at - 1), x@).push(
            head.last(),
        ));
        assert(ranked_insert::<T>(v.take(at - 1), x@).push(head.last()) + v.skip(at as int)
            =~= ranked_insert::<T>(v.take(at - 1), x@) + v.skip(at - 1));
        at -= 1;
    }
    let ghost before = views(list@);
    proof {
        let head = before.take(at as int);
        if at > 0 {
            assert(head.last() == list@[at - 1]@);
        }
        assert(ranked_insert::<T>(head, x@) == head.push(x@));
        lemma_views_insert(list@, at as int, x);
        assert(before.insert(at as int, x@) =~= head.push(x@) + before.skip(at as int));
    }
    list.insert(at, x);
}

/// The elements of `list` in a stable order.
pub(crate) fn sort_ranked<T: Ranked>(list: Vec<T>) -> (res: Vec<T>)
    ensures
        views(res@) == ranked_sort::<T>(views(list@)),
        res.len() == list.len(),
{
    let ghost all = views(list@);
    let mut rest = list;
    let mut out: Vec<T> = Vec::new();
    assert(all.take(0) =~= views(out@));
    while rest.len() > 0
        invariant
            rest.len() + out.len() == all.len(),
            views(rest@) == all.skip(out.len() as int),
            views(out@) == ranked_sort::<T>(all.take(out.len() as int)),
        decreases rest.len(),
    {
        let ghost n = out.len() as int;
        let ghost before = views(rest@);
        proof {
            lemma_views_remove(rest@, 0);
            assert(before[0] == rest@[0]@);
            assert(all.skip(n)[0] == all[n]);
        }
        let x = rest.remove(0);
        assert(x@ == all[n]);
        assert(views(rest@) =~= all.skip(n + 1));
        assert(all.take(n + 1).drop_last() =~= all.take(n));
        assert(all.take(n + 1).last() == all[n]);
        let ghost sorted = views(out@);
        insert_ranked(&mut out, x);
        proof {
            lemma_ranked_insert_len::<T>(sorted, x@);
            assert(views(out@).len() == n + 1);
        }
    }
    assert(all.take(out.len() as int) =~= all);
    out
}

pub proof fn lemma_ranked_insert_len<T: Ranked>(s: Seq<T::V>, x: T::V)
    ensures
        ranked_insert::<T>(s, x).len() == s.len() + 1,
    decreases s.len(),
{
    if s.len() > 0 && T::before(x, s.last()) {
        lemma_ranked_insert_len::<T>(s.drop_last(), x);
    }
}

impl Ranked for String {
    open spec fn before(a: Seq<char>, b: Seq<char>) -> bool {
        text_less(a, b)
    }

    fn precedes(&self, other: &String) -> (res: bool) {
        less(self, other)
    }
}

/// A character sequence is not before itself.
pub proof fn lemma_text_less_irreflexive(a: Seq<char>)
    ensures
        !text_less(a, a),
    decreases a.len(),
{
    if a.len() > 0 {
        lemma_text_less_irreflexive(a.drop_first());
    }
}

/// The order of character sequences is transitive.
pub proof fn lemma_text_less_transitive(a: Seq<char>, b: Seq<char>, c: Seq<char>)
    requires
        text_less(a, b),
        text_less(b, c),
    ensures
        text_less(a, c),
    decreases a.len(),
{
    if a.len() > 0 && a[0] == b[0] && b[0] == c[0] {
        lemma_text_less_transitive(a.drop_first(), b.drop_first(), c.drop_first());
    }
}

/// Of two different character sequences one comes before the other.
pub proof fn lemma_text_less_total(a: Seq<char>, b: Seq<char>)
    ensures
        a == b || text_less(a, b) || text_less(b, a),
        !(text_less(a, b) && text_less(b, a)),
    decreases a.len(),
{
    if a.len() > 0 && b.len() > 0 && a[0] == b[0] {
        lemma_text_less_total(a.drop_first(), b.drop_first());
        if a.drop_first() == b.drop_first() {
            assert(a =~= seq![a[0]] + a.drop_first());
            assert(b =~= seq![b[0]] + b.drop_first());
        }
    } else if a.len() == 0 && b.len() == 0 {
        assert(a =~= b);
    }
}

/// Whether `s` is in ascending order, equal neighbours allowed.
pub open spec fn texts_sorted(s: Seq<Seq<char>>) -> bool {
    forall|i: int, j: int| 0 <= i < j < s.len() ==> !text_less(#[trigger] s[j], #[trigger] s[i])
}

/// Whether `s` is in strictly ascending order.
pub open spec fn texts_ascending(s: Seq<Seq<char>>) -> bool {
    forall|i: int, j: int| 0 <= i < j < s.len() ==> text_less(#[trigger] s[i], #[trigger] s[j])
}

pub proof fn lemma_ranked_insert_elements<T: Ranked>(s: Seq<T::V>, x: T::V)
    ensures
        ranked_insert::<T>(s, x).to_multiset() == s.to_multiset().insert(x),
    decreases s.len(),
{
    broadcast use vstd::seq_lib::group_to_multiset_ensures;

    if s.len() > 0 && T::before(x, s.last()) {
        lemma_ranked_insert_elements::<T>(s.drop_last(), x);
        assert(s =~= s.drop_last().push(s.last()));
        assert(s.to_multiset() =~= s.drop_last().to_multiset().insert(s.last()));
        assert(ranked_insert::<T>(s, x).to_multiset() =~= s.to_multiset().insert(x));
    }
}

/// Sorting keeps every element as often as it was there.
pub proof fn lemma_ranked_sort_elements<T: Ranked>(s: Seq<T::V>)
    ensures
        ranked_sort::<T>(s).to_multiset() == s.to_multiset(),
        ranked_sort::<T>(s).len() == s.len(),
    decreases s.len(),
{
    broadcast use vstd::seq_lib::group_to_multiset_ensures;

    if s.len() > 0 {
        lemma_ranked_sort_elements::<T>(s.drop_last());
        lemma_ranked_insert_elements::<T>(ranked_sort::<T>(s.drop_last()), s.last());
        lemma_ranked_insert_len::<T>(ranked_sort::<T>(s.drop_last()), s.last());
        assert(s =~= s.drop_last().push(s.last()));
    }
}

/// No element comes before an earlier one.
pub open spec fn ranked_in_order<T: Ranked>(s: Seq<T::V>) -> bool {
    forall|i: int, j: int| 0 <= i < j < s.len() ==> !T::before(#[trigger] s[j], #[trigger] s[i])
}

/// Sorting keeps exactly the elements that were there, and elements that differ by a key still do.
pub proof fn lemma_ranked_sort_keys<T: Ranked, K>(s: Seq<T::V>, key: spec_fn(T::V) -> K)
    requires
        forall|i: int, j: int|
            0 <= i < j < s.len() ==> key(#[trigger] s[i]) != key(#[trigger] s[j]),
    ensures
        forall|i: int, j: int|
            0 <= i < j < ranked_sort::<T>(s).len() ==> key(#[trigger] ranked_sort::<T>(s)[i])
                != key(#[trigger] ranked_sort::<T>(s)[j]),
        forall|x: T::V| #[trigger] ranked_sort::<T>(s).contains(x) <==> s.contains(x),
{
    broadcast use vstd::seq_lib::group_to_multiset_ensures;

    let sorted = ranked_sort::<T>(s);
    lemma_ranked_sort_elements::<T>(s);
    assert forall|x: T::V| #[trigger] sorted.contains(x) <==> s.contains(x) by {
        assert(sorted.contains(x) <==> sorted.to_multiset().count(x) > 0);
        assert(s.contains(x) <==> s.to_multiset().count(x) > 0);
    }
    assert(s.no_duplicates()) by {
        assert forall|x: int, y: int| 0 <= x < s.len() && 0 <= y < s.len() && x != y implies s[x]
            != s[y] by {
            if x < y {
                assert(key(s[x]) != key(s[y]));
            } else {
                assert(key(s[y]) != key(s[x]));
            }
        }
    }
    s.lemma_multiset_has_no_duplicates();
    sorted.lemma_multiset_has_no_duplicates_conv();
    assert forall|i: int, j: int| 0 <= i < j < sorted.len() implies key(#[trigger] sorted[i])
        != key(#[trigger] sorted[j]) by {
        assert(sorted.contains(sorted[i]) && sorted.contains(sorted[j]));
        let a = choose|k: int| 0 <= k < s.len() && s[k] == sorted[i];
        let b = choose|k: int| 0 <= k < s.len() && s[k] == sorted[j];
        assert(sorted[i] != sorted[j]);
        if a < b {
            assert(key(s[a]) != key(s[b]));
        } else {
            assert(key(s[b]) != key(s[a]));
        }
    }
}

/// The order is strict, and not coming before is transitive.
pub open spec fn ranks_consistently<T: Ranked>() -> bool {
    &&& forall|a: T::V, b: T::V| #[trigger] T::before(a, b) ==> !T::before(b, a)
    &&& forall|a: T::V, b: T::V, c: T::V|
        !(#[trigger] T::before(b, a)) && !(#[trigger] T::before(c, b)) ==> !T::before(c, a)
}

pub proof fn lemma_ranked_insert_in_order<T: Ranked>(s: Seq<T::V>, x: T::V)
    requires
        ranks_consistently::<T>(),
        ranked_in_order::<T>(s),
    ensures
        ranked_in_order::<T>(ranked_insert::<T>(s, x)),
        forall|i: int|
            0 <= i < ranked_insert::<T>(s, x).len() ==> (#[trigger] ranked_insert::<T>(s, x)[i])
                == x || s.contains(ranked_insert::<T>(s, x)[i]),
    decreases s.len(),
{
    let out = ranked_insert::<T>(s, x);
    if s.len() > 0 && T::before(x, s.last()) {
        let front = s.drop_last();
        let inner = ranked_insert::<T>(front, x);
        assert forall|i: int, j: int| 0 <= i < j < front.len() implies !T::before(
            #[trigger] front[j],
            #[trigger] front[i],
        ) by {
            assert(front[i] == s[i] && front[j] == s[j]);
        }
        lemma_ranked_insert_in_order::<T>(front, x);
        assert(out == inner.push(s.last()));
        assert forall|i: int| 0 <= i < inner.len() implies (#[trigger] inner[i]) == x
            || s.contains(inner[i]) && !T::before(s.last(), inner[i]) by {
            if inner[i] != x {
                let k = choose|k: int| 0 <= k < front.len() && front[k] == inner[i];
                assert(s[k] == inner[i]);
                assert(s[s.len() - 1] == s.last());
            }
        }
        assert forall|i: int, j: int| 0 <= i < j < out.len() implies !T::before(
            #[trigger] out[j],
            #[trigger] out[i],
        ) by {
            assert(out[i] == inner[i]);
            if j < inner.len() {
                assert(out[j] == inner[j]);
            } else {
                assert(out[j] == s.last());
            }
        }
        assert forall|i: int| 0 <= i < out.len() implies (#[trigger] out[i]) == x || s.contains(
            out[i],
        ) by {
            if i < inner.len() {
                assert(out[i] == inner[i]);
            } else {
                assert(out[i] == s[s.len() - 1]);
            }
        }
    } else {
        assert(out == s.push(x));
        assert forall|i: int, j: int| 0 <= i < j < out.len() implies !T::before(
            #[trigger] out[j],
            #[trigger] out[i],
        ) by {
            assert(out[i] == s[i]);
            if j < s.len() {
                assert(out[j] == s[j]);
            } else {
                let last = s[s.len() - 1];
                assert(s.last() == last);
                if i < s.len() - 1 {
                    assert(!T::before(last, s[i]));
                    assert(!T::before(x, last));
                }
            }
        }
        assert forall|i: int| 0 <= i < out.len() implies (#[trigger] out[i]) == x || s.contains(
            out[i],
        ) by {
            if i < s.len() {
                assert(out[i] == s[i]);
            }
        }
    }
}

/// Sorting puts the elements in order.
pub proof fn lemma_ranked_sort_in_order<T: Ranked>(s: Seq<T::V>)
    requires
        ranks_consistently::<T>(),
    ensures
        ranked_in_order::<T>(ranked_sort::<T>(s)),
    decreases s.len(),
{
    if s.len() > 0 {
        lemma_ranked_sort_in_order::<T>(s.drop_last());
        lemma_ranked_insert_in_order::<T>(ranked_sort::<T>(s.drop_last()), s.last());
    }
}

proof fn lemma_text_insert_sorted(s: Seq<Seq<char>>, x: Seq<char>)
    requires
        texts_sorted(s),
    ensures
        texts_sorted(ranked_insert::<String>(s, x)),
        forall|y: Seq<char>| #[trigger]
            ranked_insert::<String>(s, x).contains(y) ==> y == x || s.contains(y),
    decreases s.len(),
{
    let out = ranked_insert::<String>(s, x);
    if s.len() > 0 && text_less(x, s.last()) {
        let head = s.drop_last();
        lemma_text_insert_sorted(head, x);
        let inner = ranked_insert::<String>(head, x);
        assert forall|i: int, j: int| 0 <= i < j < out.len() implies !text_less(
            #[trigger] out[j],
            #[trigger] out[i],
        ) by {
            assert(out[i] == inner[i]);
            if j < inner.len() {
                assert(!text_less(inner[j], inner[i]));
            } else {
                assert(inner.contains(inner[i]));
                if out[i] == x {
                    lemma_text_less_total(x, s.last());
                } else {
                    assert(head.contains(out[i]));
                    let k = choose|k: int| 0 <= k < head.len() && head[k] == out[i];
                    assert(head[k] == s[k]);
                    assert(!text_less(s[s.len() - 1], s[k]));
                }
            }
        }
        assert forall|y: Seq<char>| out.contains(y) implies y == x || s.contains(y) by {
            let k = choose|k: int| 0 <= k < out.len() && out[k] == y;
            if k == inner.len() {
                assert(s[s.len() - 1] == y);
            } else {
                assert(inner.contains(y));
                if y != x {
                    let m = choose|m: int| 0 <= m < head.len() && head[m] == y;
                    assert(s[m] == y);
                }
            }
        }
    } else {
        assert forall|i: int, j: int| 0 <= i < j < out.len() implies !text_less(
            #[trigger] out[j],
            #[trigger] out[i],
        ) by {
            if j == s.len() {
                if i < s.len() - 1 {
                    assert(!text_less(s[s.len() - 1], s[i]));
                    if text_less(x, s[i]) {
                        lemma_text_less_total(x, s.last());
                        lemma_text_less_total(s[i], s.last());
                        if x == s.last() {
                        } else if s[i] == s.last() {
                        } else {
                            lemma_text_less_transitive(x, s[i], s.last());
                        }
                    }
                }
            }
        }
        assert forall|y: Seq<char>| out.contains(y) implies y == x || s.contains(y) by {
            let k = choose|k: int| 0 <= k < out.len() && out[k] == y;
            if k < s.len() {
                assert(s[k] == y);
            }
        }
    }
}

/// Sorted texts are in ascending order.
pub proof fn lemma_text_sort_sorted(s: Seq<Seq<char>>)
    ensures
        texts_sorted(ranked_sort::<String>(s)),
    decreases s.len(),
{
    if s.len() > 0 {
        lemma_text_sort_sorted(s.drop_last());
        lemma_text_insert_sorted(ranked_sort::<String>(s.drop_last()), s.last());
    }
}

/// Two sorted sequences of texts with the same elements are the same.
proof fn lemma_sorted_unique(a: Seq<Seq<char>>, b: Seq<Seq<char>>)
    requires
        texts_sorted(a),
        texts_sorted(b),
        a.to_multiset() == b.to_multiset(),
    ensures
        a == b,
    decreases a.len(),
{
    broadcast use vstd::seq_lib::group_to_multiset_ensures;

    assert(a.to_multiset().len() == a.len());
    assert(b.to_multiset().len() == b.len());
    if a.len() == 0 {
        assert(a =~= b);
    } else {
        let x = a.last();
        let y = b.last();
        assert(a.contains(x) && b.contains(y));
        assert(a.to_multiset().count(x) > 0 && b.to_multiset().count(y) > 0);
        assert(b.contains(x) && a.contains(y));
        let i = choose|i: int| 0 <= i < b.len() && b[i] == x;
        let j = choose|j: int| 0 <= j < a.len() && a[j] == y;
        if x != y {
            assert(!text_less(b[b.len() - 1], b[i]));
            assert(!text_less(a[a.len() - 1], a[j]));
            lemma_text_less_total(x, y);
        }
        assert(a.drop_last() =~= a.remove(a.len() - 1));
        assert(b.drop_last() =~= b.remove(b.len() - 1));
        assert(a.drop_last().to_multiset() =~= a.to_multiset().remove(x));
        assert(b.drop_last().to_multiset() =~= b.to_multiset().remove(y));
        lemma_sorted_unique(a.drop_last(), b.drop_last());
        assert(a =~= a.drop_last().push(x));
        assert(b =~= b.drop_last().push(y));
    }
}

/// Sorting texts gives the same result whatever order they come in.
pub proof fn lemma_text_sort_unique(a: Seq<Seq<char>>, b: Seq<Seq<char>>)
    requires
        a.to_multiset() == b.to_multiset(),
    ensures
        ranked_sort::<String>(a) == ranked_sort::<String>(b),
{
    lemma_ranked_sort_elements::<String>(a);
    lemma_ranked_sort_elements::<String>(b);
    lemma_text_sort_sorted(a);
    lemma_text_sort_sorted(b);
    lemma_sorted_unique(ranked_sort::<String>(a), ranked_sort::<String>(b));
}

/// Elements of which neither comes before the other are the same.
pub open spec fn ranks_totally<T: Ranked>() -> bool {
    forall|a: T::V, b: T::V| a == b || #[trigger] T::before(a, b) || T::before(b, a)
}

proof fn lemma_in_order_unique<T: Ranked>(a: Seq<T::V>, b: Seq<T::V>)
    requires
        ranks_totally::<T>(),
        ranked_in_order::<T>(a),
        ranked_in_order::<T>(b),
        a.to_multiset() == b.to_multiset(),
    ensures
        a == b,
    decreases a.len(),
{
    broadcast use vstd::seq_lib::group_to_multiset_ensures;

    assert(a.to_multiset().len() == a.len());
    assert(b.to_multiset().len() == b.len());
    if a.len() == 0 {
        assert(a =~= b);
    } else {
        let x = a.last();
        let y = b.last();
        assert(a.contains(x) && b.contains(y));
        assert(a.to_multiset().count(x) > 0 && b.to_multiset().count(y) > 0);
        assert(b.contains(x) && a.contains(y));
        let i = choose|i: int| 0 <= i < b.len() && b[i] == x;
        let j = choose|j: int| 0 <= j < a.len() && a[j] == y;
        if x != y {
            assert(!T::before(b[b.len() - 1], b[i]));
            assert(!T::before(a[a.len() - 1], a[j]));
            assert(T::before(x, y) || T::before(y, x));
        }
        assert(a.drop_last() =~= a.remove(a.len() - 1));
        assert(b.drop_last() =~= b.remove(b.len() - 1));
        assert(a.drop_last().to_multiset() =~= a.to_multiset().remove(x));
        assert(b.drop_last().to_multiset() =~= b.to_multiset().remove(y));
        assert forall|p: int, q: int| 0 <= p < q < a.drop_last().len() implies !T::before(
            #[trigger] a.drop_last()[q],
            #[trigger] a.drop_last()[p],
        ) by {
            assert(!T::before(a[q], a[p]));
        }
        assert forall|p: int, q: int| 0 <= p < q < b.drop_last().len() implies !T::before(
            #[trigger] b.drop_last()[q],
            #[trigger] b.drop_last()[p],
        ) by {
            assert(!T::before(b[q], b[p]));
        }
        lemma_in_order_unique::<T>(a.drop_last(), b.drop_last());
        assert(a =~= a.drop_last().push(x));
        assert(b =~= b.drop_last().push(y));
    }
}

/// Sorting gives the same result whatever order the elements come in.
pub proof fn lemma_ranked_sort_unique<T: Ranked>(a: Seq<T::V>, b: Seq<T::V>)
    requires
        ranks_consistently::<T>(),
        ranks_totally::<T>(),
        a.to_multiset() == b.to_multiset(),
    ensures
        ranked_sort::<T>(a) == ranked_sort::<T>(b),
{
    lemma_ranked_sort_elements::<T>(a);
    lemma_ranked_sort_elements::<T>(b);
    lemma_ranked_sort_in_order::<T>(a);
    lemma_ranked_sort_in_order::<T>(b);
    lemma_in_order_unique::<T>(ranked_sort::<T>(a), ranked_sort::<T>(b));
}

} // verus!
