//! Taking texts apart: pieces between separators, lines, words and numerals.

use vstd::prelude::*;
use vstd::string::*;
use vstd::utf8::{decode_utf8, valid_utf8};
use crate::lists::{
    group_views, insert_ranked, lemma_ranked_insert_elements, lemma_text_less_irreflexive,
    lemma_text_less_total, lemma_text_less_transitive, ranked_insert, texts_ascending, views,
};
use crate::text::{contains_text, is_space, owned, text_less, trim, trimmed};

verus! {

broadcast use group_views;

/// `String::push` puts a character at the end.
pub assume_specification[ String::push ](s: &mut String, ch: char)
    ensures
        final(s)@ == old(s)@.push(ch),
;

/// `char::is_whitespace` tells the characters with the Unicode property `White_Space`.
pub assume_specification[ char::is_whitespace ](c: char) -> (res: bool)
    ensures
        res == is_space(c),
;

/// The text that a sequence of bytes encodes in UTF-8, where it does.
pub open spec fn utf8_text(bytes: Seq<u8>) -> Option<Seq<char>> {
    if valid_utf8(bytes) {
        Some(decode_utf8(bytes))
    } else {
        None
    }
}

/// `std::str::from_utf8` succeeds exactly on valid UTF-8 and gives the text that the bytes encode.
#[verifier::external_body]
pub(crate) fn text_from_utf8(bytes: &[u8]) -> (res: Option<&str>)
    ensures
        match res {
            Some(text) => utf8_text(bytes@) == Some(text@),
            None => utf8_text(bytes@) is None,
        },
{
    std::str::from_utf8(bytes).ok()
}

/// The characters of `s`.
pub(crate) fn chars_of(s: &str) -> (res: Vec<char>)
    ensures
        res@ == s@,
{
    let mut out: Vec<char> = Vec::new();
    for c in it: s.chars()
        invariant
            out@ == it.seq().take(it.index() as int),
            it.seq() == s@,
    {
        out.push(c);
    }
    assert(out@ =~= s@);
    out
}

/// The text of some characters.
pub(crate) fn text_of(chars: &Vec<char>, from: usize, to: usize) -> (res: String)
    requires
        from <= to <= chars.len(),
    ensures
        res@ == chars@.subrange(from as int, to as int),
{
    let mut out = String::new();
    let mut i: usize = from;
    while i < to
        invariant
            from <= i <= to <= chars.len(),
            out@ == chars@.subrange(from as int, i as int),
        decreases to - i,
    {
        out.push(chars[i]);
        assert(chars@.subrange(from as int, i + 1) =~= chars@.subrange(from as int, i as int).push(
            chars@[i as int],
        ));
        i += 1;
    }
    out
}

/// The pieces of `s` between the separators `c`: one more than there are separators.
pub open spec fn pieces(s: Seq<char>, c: char) -> Seq<Seq<char>>
    decreases s.len(),
{
    if s.len() == 0 {
        seq![Seq::empty()]
    } else {
        let before = pieces(s.drop_last(), c);
        if s.last() == c {
            before.push(Seq::empty())
        } else {
            before.drop_last().push(before.last().push(s.last()))
        }
    }
}

pub(crate) proof fn lemma_pieces_len(s: Seq<char>, c: char)
    ensures
        pieces(s, c).len() > 0,
    decreases s.len(),
{
    if s.len() > 0 {
        lemma_pieces_len(s.drop_last(), c);
    }
}

pub(crate) proof fn lemma_unsplit(s: Seq<char>, c: char)
    requires
        forall|i: int| 0 <= i < s.len() ==> #[trigger] s[i] != c,
    ensures
        pieces(s, c).len() == 1,
    decreases s.len(),
{
    if s.len() > 0 {
        let front = s.drop_last();
        assert forall|i: int| 0 <= i < front.len() implies #[trigger] front[i] != c by {
            assert(front[i] == s[i]);
        }
        lemma_unsplit(front, c);
    }
}

/// Splits a text at a separator.
pub(crate) fn split_char(s: &str, c: char) -> (res: Vec<String>)
    ensures
        views(res@) == pieces(s@, c),
{
    let mut done: Vec<String> = Vec::new();
    let mut current = String::new();
    let chars = chars_of(s);
    let mut i: usize = 0;
    assert(views(done@).push(current@) =~= pieces(s@.take(0), c));
    while i < chars.len()
        invariant
            i <= chars.len(),
            chars@ == s@,
            views(done@).push(current@) == pieces(s@.take(i as int), c),
        decreases chars.len() - i,
    {
        let ghost before = pieces(s@.take(i as int), c);
        proof {
            assert(s@.take(i + 1).drop_last() =~= s@.take(i as int));
            assert(s@.take(i + 1).last() == chars@[i as int]);
            assert(before.drop_last() =~= views(done@));
            assert(before.last() == current@);
        }
        if chars[i] == c {
            done.push(current);
            current = String::new();
            assert(views(done@).push(current@) =~= before.push(Seq::empty()));
        } else {
            current.push(chars[i]);
        }
        i += 1;
    }
    assert(s@.take(i as int) =~= s@);
    done.push(current);
    done
}

/// The lines of `s`, which are ended by a carriage return and a line feed.
pub open spec fn crlf_lines(s: Seq<char>) -> Seq<Seq<char>>
    decreases s.len(),
{
    if s.len() == 0 {
        seq![Seq::empty()]
    } else if s.len() >= 2 && s[s.len() - 2] == '\r' && s.last() == '\n' {
        crlf_lines(s.take(s.len() - 2)).push(Seq::empty())
    } else {
        let before = crlf_lines(s.drop_last());
        before.drop_last().push(before.last().push(s.last()))
    }
}

/// Splits a text into lines ended by a carriage return and a line feed.
pub(crate) fn split_crlf(s: &str) -> (res: Vec<String>)
    ensures
        views(res@) == crlf_lines(s@),
        res.len() > 0,
{
    let mut done: Vec<String> = Vec::new();
    let mut current = String::new();
    let chars = chars_of(s);
    let mut i: usize = 0;
    assert(views(done@).push(current@) =~= crlf_lines(s@.take(0)));
    while i < chars.len()
        invariant
            i <= chars.len(),
            chars@ == s@,
            views(done@).push(current@) == crlf_lines(s@.take(i as int)),
            0 < i < chars.len() && s@[i - 1] == '\r' ==> s@[i as int] != '\n',
        decreases chars.len() - i,
    {
        let ghost before = crlf_lines(s@.take(i as int));
        proof {
            assert(before.drop_last() =~= views(done@));
            assert(before.last() == current@);
        }
        if chars[i] == '\r' && i + 1 < chars.len() && chars[i + 1] == '\n' {
            proof {
                let two = s@.take(i + 2);
                assert(two.take(two.len() - 2) =~= s@.take(i as int));
                assert(two[two.len() - 2] == '\r' && two.last() == '\n');
            }
            done.push(current);
            current = String::new();
            assert(views(done@).push(current@) =~= before.push(Seq::empty()));
            i += 2;
        } else {
            proof {
                let one = s@.take(i + 1);
                assert(one.drop_last() =~= s@.take(i as int));
                assert(one.last() == s@[i as int]);
                if one.len() >= 2 {
                    assert(one[one.len() - 2] == s@[i - 1]);
                }
            }
            current.push(chars[i]);
            i += 1;
        }
    }
    assert(s@.take(i as int) =~= s@);
    done.push(current);
    done
}

/// The words of `s`: its longest runs of characters that are no white space, given the run that the
/// last characters form.
pub open spec fn words_and_rest(s: Seq<char>) -> (Seq<Seq<char>>, Seq<char>)
    decreases s.len(),
{
    if s.len() == 0 {
        (Seq::empty(), Seq::empty())
    } else {
        let (words, rest) = words_and_rest(s.drop_last());
        if !is_space(s.last()) {
            (words, rest.push(s.last()))
        } else if rest.len() == 0 {
            (words, rest)
        } else {
            (words.push(rest), Seq::empty())
        }
    }
}

/// The words of `s`: its longest runs of characters that are no white space.
pub open spec fn words(s: Seq<char>) -> Seq<Seq<char>> {
    let (done, rest) = words_and_rest(s);
    if rest.len() == 0 {
        done
    } else {
        done.push(rest)
    }
}

/// Splits a text into words.
pub(crate) fn split_words(s: &str) -> (res: Vec<String>)
    ensures
        views(res@) == words(s@),
{
    let mut done: Vec<String> = Vec::new();
    let mut current = String::new();
    let chars = chars_of(s);
    let mut i: usize = 0;
    assert(views(done@) =~= Seq::<Seq<char>>::empty());
    while i < chars.len()
        invariant
            i <= chars.len(),
            chars@ == s@,
            words_and_rest(s@.take(i as int)) == (views(done@), current@),
        decreases chars.len() - i,
    {
        proof {
            assert(s@.take(i + 1).drop_last() =~= s@.take(i as int));
            assert(s@.take(i + 1).last() == chars@[i as int]);
        }
        if !chars[i].is_whitespace() {
            current.push(chars[i]);
        } else if !current.as_str().is_empty() {
            done.push(current);
            current = String::new();
        }
        i += 1;
    }
    assert(s@.take(i as int) =~= s@);
    if !current.as_str().is_empty() {
        done.push(current);
    }
    done
}

/// The value of a sequence of decimal digits, where all are digits.
pub open spec fn digits_value(s: Seq<char>) -> Option<nat>
    decreases s.len(),
{
    if s.len() == 0 {
        Some(0)
    } else {
        match digits_value(s.drop_last()) {
            Some(n) => if '0' <= s.last() <= '9' {
                Some((n * 10 + (s.last() as u32 - '0' as u32)) as nat)
            } else {
                None
            },
            None => None,
        }
    }
}

/// The number that a numeral stands for: digits, at least one, possibly after a plus sign, and of a
/// value not above `max`.
pub open spec fn numeral_value(s: Seq<char>, max: nat) -> Option<nat> {
    let digits = if s.len() > 0 && s[0] == '+' {
        s.drop_first()
    } else {
        s
    };
    if digits.len() == 0 {
        None
    } else {
        match digits_value(digits) {
            Some(n) => if n <= max {
                Some(n)
            } else {
                None
            },
            None => None,
        }
    }
}

proof fn lemma_digits_prefix(s: Seq<char>, n: int)
    requires
        0 <= n <= s.len(),
        digits_value(s) is Some,
    ensures
        digits_value(s.take(n)) is Some,
        digits_value(s.take(n))->0 <= digits_value(s)->0,
    decreases s.len(),
{
    if n < s.len() {
        lemma_digits_prefix(s.drop_last(), n);
        assert(s.drop_last().take(n) =~= s.take(n));
    } else {
        assert(s.take(n) =~= s);
    }
}

/// Reads a numeral, unless its value is above `max`.
pub(crate) fn parse_numeral(s: &str, max: u64) -> (res: Option<u64>)
    ensures
        match res {
            Some(n) => numeral_value(s@, max as nat) == Some(n as nat),
            None => numeral_value(s@, max as nat) is None,
        },
{
    let chars = chars_of(s);
    let from: usize = if chars.len() > 0 && chars[0] == '+' {
        1
    } else {
        0
    };
    let ghost digits = s@.skip(from as int);
    assert(digits == if s@.len() > 0 && s@[0] == '+' {
        s@.drop_first()
    } else {
        s@
    });
    if from == chars.len() {
        return None;
    }
    let mut value: u64 = 0;
    let mut i: usize = from;
    assert(digits.take(0) =~= Seq::<char>::empty());
    while i < chars.len()
        invariant
            from <= i <= chars.len(),
            from <= 1,
            from < chars.len(),
            chars@ == s@,
            digits == s@.skip(from as int),
            digits == (if s@.len() > 0 && s@[0] == '+' {
                s@.drop_first()
            } else {
                s@
            }),
            digits_value(digits.take(i - from)) == Some(value as nat),
            value <= max,
        decreases chars.len() - i,
    {
        let c = chars[i];
        proof {
            let one = digits.take(i + 1 - from);
            assert(one.drop_last() =~= digits.take(i - from));
            assert(one.last() == c);
            if digits_value(digits) is Some {
                lemma_digits_prefix(digits, i + 1 - from);
            }
        }
        if c < '0' || c > '9' {
            return None;
        }
        let d: u64 = (c as u32 - '0' as u32) as u64;
        if value > (u64::MAX - d) / 10 || value * 10 + d > max {
            return None;
        }
        value = value * 10 + d;
        i += 1;
    }
    assert(digits.take(i - from) =~= digits);
    Some(value)
}

/// The texts one after another with a separator between them.
pub open spec fn joined(list: Seq<Seq<char>>, separator: Seq<char>) -> Seq<char>
    decreases list.len(),
{
    if list.len() == 0 {
        Seq::empty()
    } else if list.len() == 1 {
        list[0]
    } else {
        joined(list.drop_last(), separator) + separator + list.last()
    }
}

/// Puts the texts one after another with a separator between them.
pub(crate) fn join_texts(list: &Vec<String>, separator: &str) -> (res: String)
    ensures
        res@ == joined(views(list@), separator@),
{
    let ghost all = views(list@);
    let mut out = String::new();
    let mut i: usize = 0;
    while i < list.len()
        invariant
            i <= list.len(),
            all == views(list@),
            out@ == joined(all.take(i as int), separator@),
        decreases list.len() - i,
    {
        assert(all.take(i + 1).drop_last() =~= all.take(i as int));
        assert(all.take(i + 1).last() == list@[i as int]@);
        if i == 0 {
            out = list[0].clone();
        } else {
            out = out.concat(separator).concat(&list[i]);
        }
        i += 1;
    }
    assert(all.take(i as int) =~= all);
    out
}

/// The texts without white space at their ends, in ascending order and once each, but for empty ones.
pub open spec fn normal_list(list: Seq<Seq<char>>) -> Seq<Seq<char>>
    decreases list.len(),
{
    if list.len() == 0 {
        list
    } else {
        let before = normal_list(list.drop_last());
        let item = trimmed(list.last());
        if item.len() == 0 || before.contains(item) {
            before
        } else {
            ranked_insert::<String>(before, item)
        }
    }
}

/// Trims, sorts and deduplicates texts and drops empty ones.
pub(crate) fn normalize_list(list: &Vec<String>) -> (res: Vec<String>)
    ensures
        views(res@) == normal_list(views(list@)),
{
    let ghost all = views(list@);
    let mut out: Vec<String> = Vec::new();
    let mut i: usize = 0;
    assert(views(out@) =~= normal_list(all.take(0)));
    while i < list.len()
        invariant
            i <= list.len(),
            all == views(list@),
            views(out@) == normal_list(all.take(i as int)),
        decreases list.len() - i,
    {
        assert(all.take(i + 1).drop_last() =~= all.take(i as int));
        assert(all.take(i + 1).last() == list@[i as int]@);
        let item = trim(&list[i]);
        if !item.is_empty() && !contains_text(&out, item) {
            insert_ranked(&mut out, owned(item));
        }
        i += 1;
    }
    assert(all.take(i as int) =~= all);
    out
}

proof fn lemma_insert_contains(s: Seq<Seq<char>>, x: Seq<char>, y: Seq<char>)
    ensures
        ranked_insert::<String>(s, x).contains(y) == (y == x || s.contains(y)),
{
    broadcast use vstd::seq_lib::group_to_multiset_ensures;

    lemma_ranked_insert_elements::<String>(s, x);
    assert(ranked_insert::<String>(s, x).contains(y) <==> ranked_insert::<String>(
        s,
        x,
    ).to_multiset().count(y) > 0);
    assert(s.contains(y) <==> s.to_multiset().count(y) > 0);
}

proof fn lemma_insert_ascending(s: Seq<Seq<char>>, x: Seq<char>)
    requires
        texts_ascending(s),
        !s.contains(x),
    ensures
        texts_ascending(ranked_insert::<String>(s, x)),
    decreases s.len(),
{
    let out = ranked_insert::<String>(s, x);
    if s.len() > 0 && text_less(x, s.last()) {
        let head = s.drop_last();
        assert(!head.contains(x)) by {
            if head.contains(x) {
                let k = choose|k: int| 0 <= k < head.len() && head[k] == x;
                assert(s[k] == x);
            }
        }
        assert(texts_ascending(head));
        lemma_insert_ascending(head, x);
        let inner = ranked_insert::<String>(head, x);
        assert forall|i: int, j: int| 0 <= i < j < out.len() implies text_less(
            #[trigger] out[i],
            #[trigger] out[j],
        ) by {
            assert(out[i] == inner[i]);
            if j < inner.len() {
                assert(text_less(inner[i], inner[j]));
            } else {
                assert(inner.contains(inner[i]));
                lemma_insert_contains(head, x, inner[i]);
                if inner[i] != x {
                    let k = choose|k: int| 0 <= k < head.len() && head[k] == inner[i];
                    assert(s[k] == inner[i]);
                    assert(text_less(s[k], s[s.len() - 1]));
                }
            }
        }
    } else {
        assert forall|i: int, j: int| 0 <= i < j < out.len() implies text_less(
            #[trigger] out[i],
            #[trigger] out[j],
        ) by {
            if j == s.len() {
                lemma_text_less_total(x, s.last());
                assert(s.contains(s.last()));
                assert(text_less(s.last(), x));
                if i < s.len() - 1 {
                    assert(text_less(s[i], s[s.len() - 1]));
                    lemma_text_less_transitive(s[i], s.last(), x);
                }
            }
        }
    }
}

/// A normalised list is in strictly ascending order and holds exactly the trimmed texts that are not
/// empty.
pub proof fn law_normal_list(list: Seq<Seq<char>>)
    ensures
        texts_ascending(normal_list(list)),
        forall|x: Seq<char>| #[trigger]
            normal_list(list).contains(x) <==> x.len() > 0 && exists|i: int|
                0 <= i < list.len() && trimmed(#[trigger] list[i]) == x,
    decreases list.len(),
{
    if list.len() > 0 {
        let head = list.drop_last();
        let before = normal_list(head);
        let item = trimmed(list.last());
        law_normal_list(head);
        if item.len() > 0 && !before.contains(item) {
            lemma_insert_ascending(before, item);
        }
        assert forall|x: Seq<char>| #[trigger]
            normal_list(list).contains(x) <==> x.len() > 0 && exists|i: int|
                0 <= i < list.len() && trimmed(#[trigger] list[i]) == x by {
            lemma_insert_contains(before, item, x);
            if before.contains(x) {
                let i = choose|i: int| 0 <= i < head.len() && trimmed(#[trigger] head[i]) == x;
                assert(trimmed(list[i]) == x);
            }
            if x == item {
                assert(trimmed(list[list.len() - 1]) == x);
            }
            if x.len() > 0 && (exists|i: int| 0 <= i < list.len() && trimmed(#[trigger] list[i]) == x) {
                let i = choose|i: int| 0 <= i < list.len() && trimmed(#[trigger] list[i]) == x;
                if i < head.len() {
                    assert(trimmed(head[i]) == x);
                }
            }
        }
    }
}

/// Two strictly ascending lists with the same texts are the same list.
pub proof fn lemma_ascending_unique(a: Seq<Seq<char>>, b: Seq<Seq<char>>)
    requires
        texts_ascending(a),
        texts_ascending(b),
        forall|x: Seq<char>| #[trigger] a.contains(x) <==> b.contains(x),
    ensures
        a == b,
    decreases a.len(),
{
    if a.len() == 0 {
        if b.len() > 0 {
            assert(b.contains(b[0]));
            assert(a.contains(b[0]));
        }
        assert(a =~= b);
    } else {
        assert(a.contains(a.last()));
        assert(b.contains(a.last()));
        assert(b.contains(b.last()));
        assert(a.contains(b.last()));
        let i = choose|i: int| 0 <= i < b.len() && b[i] == a.last();
        let j = choose|j: int| 0 <= j < a.len() && a[j] == b.last();
        if a.last() != b.last() {
            assert(text_less(b[i], b[b.len() - 1]));
            assert(text_less(a[j], a[a.len() - 1]));
            lemma_text_less_total(a.last(), b.last());
        }
        let x = a.drop_last();
        let y = b.drop_last();
        assert forall|t: Seq<char>| #[trigger] x.contains(t) <==> y.contains(t) by {
            if x.contains(t) {
                let k = choose|k: int| 0 <= k < x.len() && x[k] == t;
                assert(a[k] == t);
                assert(a.contains(t));
                let m = choose|m: int| 0 <= m < b.len() && b[m] == t;
                assert(text_less(a[k], a[a.len() - 1]));
                lemma_text_less_irreflexive(t);
                assert(m < b.len() - 1);
                assert(y[m] == t);
            }
            if y.contains(t) {
                let k = choose|k: int| 0 <= k < y.len() && y[k] == t;
                assert(b[k] == t);
                assert(b.contains(t));
                assert(a.contains(t));
                let m = choose|m: int| 0 <= m < a.len() && a[m] == t;
                assert(text_less(b[k], b[b.len() - 1]));
                lemma_text_less_irreflexive(t);
                assert(m < a.len() - 1);
                assert(x[m] == t);
            }
        }
        lemma_ascending_unique(x, y);
        assert(a =~= x.push(a.last()));
        assert(b =~= y.push(b.last()));
    }
}

} // verus!
