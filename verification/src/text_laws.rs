//! What splitting, joining and reading texts give back.

use vstd::prelude::*;
use crate::parsing::{
    crlf_lines, digits_value, joined, numeral_value, pieces, words, words_and_rest,
};
use crate::text::{decimal, digit_text, is_space, lowered, trim_end, trim_start, trimmed};

verus! {

proof fn lemma_joined_push(list: Seq<Seq<char>>, separator: Seq<char>, last: Seq<char>)
    requires
        list.len() > 0,
    ensures
        joined(list.push(last), separator) == joined(list, separator) + separator + last,
{
    assert(list.push(last).drop_last() =~= list);
}

proof fn lemma_joined_grow(list: Seq<Seq<char>>, separator: Seq<char>, c: char)
    requires
        list.len() > 0,
    ensures
        joined(list.drop_last().push(list.last().push(c)), separator) == joined(
            list,
            separator,
        ).push(c),
{
    let longer = list.drop_last().push(list.last().push(c));
    if list.len() == 1 {
        assert(longer[0] == list[0].push(c));
    } else {
        assert(longer.drop_last() =~= list.drop_last());
        assert(joined(longer, separator) =~= joined(list, separator).push(c));
    }
}

/// The pieces of a text, put together again with the separator between them, are the text, and no
/// piece holds the separator.
pub proof fn law_pieces_make_the_text(s: Seq<char>, c: char)
    ensures
        joined(pieces(s, c), seq![c]) == s,
        pieces(s, c).len() > 0,
        forall|i: int| 0 <= i < pieces(s, c).len() ==> !(#[trigger] pieces(s, c)[i]).contains(c),
    decreases s.len(),
{
    if s.len() > 0 {
        let front = s.drop_last();
        let before = pieces(front, c);
        law_pieces_make_the_text(front, c);
        let out = pieces(s, c);
        assert(s =~= front.push(s.last()));
        if s.last() == c {
            lemma_joined_push(before, seq![c], Seq::empty());
            assert(joined(out, seq![c]) =~= s);
        } else {
            lemma_joined_grow(before, seq![c], s.last());
        }
        assert forall|i: int| 0 <= i < out.len() implies !(#[trigger] out[i]).contains(c) by {
            if i < before.len() - 1 || s.last() == c && i < before.len() {
                assert(out[i] == before[i]);
            } else if s.last() != c {
                let grown = before.last().push(s.last());
                assert(out[i] == grown);
                if grown.contains(c) {
                    let k = choose|k: int| 0 <= k < grown.len() && grown[k] == c;
                    assert(before.last()[k] == c);
                    assert(before[before.len() - 1].contains(c));
                }
            }
        }
    } else {
        assert(joined(pieces(s, c), seq![c]) =~= s);
    }
}

/// The lines of a text, put together again with line ends between them, are the text.
pub proof fn law_lines_make_the_text(s: Seq<char>)
    ensures
        joined(crlf_lines(s), seq!['\r', '\n']) == s,
        crlf_lines(s).len() > 0,
    decreases s.len(),
{
    let end = seq!['\r', '\n'];
    if s.len() == 0 {
        assert(joined(crlf_lines(s), end) =~= s);
    } else if s.len() >= 2 && s[s.len() - 2] == '\r' && s.last() == '\n' {
        let front = s.take(s.len() - 2);
        law_lines_make_the_text(front);
        lemma_joined_push(crlf_lines(front), end, Seq::empty());
        assert(joined(crlf_lines(s), end) =~= s);
    } else {
        law_lines_make_the_text(s.drop_last());
        lemma_joined_grow(crlf_lines(s.drop_last()), end, s.last());
        assert(s =~= s.drop_last().push(s.last()));
    }
}

/// The characters of a text that are not white space.
pub open spec fn inked(s: Seq<char>) -> Seq<char> {
    s.filter(|c: char| !is_space(c))
}

proof fn lemma_flat_push(list: Seq<Seq<char>>, last: Seq<char>)
    ensures
        joined(list.push(last), Seq::empty()) == joined(list, Seq::empty()) + last,
{
    if list.len() > 0 {
        lemma_joined_push(list, Seq::empty(), last);
        assert(joined(list, Seq::empty()) + Seq::<char>::empty() =~= joined(list, Seq::empty()));
    } else {
        assert(joined(list, Seq::empty()) + last =~= last);
    }
}

proof fn lemma_words(s: Seq<char>)
    ensures
        joined(words_and_rest(s).0, Seq::empty()) + words_and_rest(s).1 == inked(s),
        forall|i: int, k: int|
            0 <= i < words_and_rest(s).0.len() && 0 <= k < words_and_rest(s).0[i].len()
                ==> !is_space(#[trigger] words_and_rest(s).0[i][k]),
        forall|i: int|
            0 <= i < words_and_rest(s).0.len() ==> (#[trigger] words_and_rest(s).0[i]).len() > 0,
        forall|k: int|
            0 <= k < words_and_rest(s).1.len() ==> !is_space(#[trigger] words_and_rest(s).1[k]),
    decreases s.len(),
{
    reveal(Seq::filter);
    let (done, rest) = words_and_rest(s);
    if s.len() > 0 {
        let front = s.drop_last();
        let (before, tail) = words_and_rest(front);
        lemma_words(front);
        if !is_space(s.last()) {
            assert(joined(done, Seq::empty()) + rest =~= (joined(before, Seq::empty()) + tail).push(
                s.last(),
            ));
        } else if tail.len() > 0 {
            lemma_flat_push(before, tail);
            assert(joined(done, Seq::empty()) + rest =~= joined(before, Seq::empty()) + tail);
        }
        assert forall|i: int, k: int| 0 <= i < done.len() && 0 <= k < done[i].len() implies
            !is_space(#[trigger] done[i][k]) by {
            if i < before.len() {
                assert(done[i] == before[i]);
                assert(!is_space(before[i][k]));
            } else {
                assert(done[i] == tail);
            }
        }
    } else {
        assert(joined(done, Seq::empty()) + rest =~= inked(s));
    }
}

/// The words of a text hold all its characters but white space, in their order; no word is empty and
/// none holds white space.
pub proof fn law_words_hold_the_text(s: Seq<char>)
    ensures
        joined(words(s), Seq::empty()) == inked(s),
        forall|i: int, k: int|
            0 <= i < words(s).len() && 0 <= k < words(s)[i].len() ==> !is_space(
                #[trigger] words(s)[i][k],
            ),
        forall|i: int| 0 <= i < words(s).len() ==> (#[trigger] words(s)[i]).len() > 0,
{
    lemma_words(s);
    let (done, rest) = words_and_rest(s);
    if rest.len() == 0 {
        assert(joined(done, Seq::empty()) + rest =~= joined(done, Seq::empty()));
    } else {
        lemma_flat_push(done, rest);
    }
    assert forall|i: int, k: int| 0 <= i < words(s).len() && 0 <= k < words(s)[i].len() implies
        !is_space(#[trigger] words(s)[i][k]) by {
        if i < done.len() {
            assert(words(s)[i] == done[i]);
            assert(!is_space(done[i][k]));
        }
    }
}

/// White space alone.
pub open spec fn blank(s: Seq<char>) -> bool {
    forall|i: int| 0 <= i < s.len() ==> is_space(#[trigger] s[i])
}

proof fn lemma_start(s: Seq<char>)
    ensures
        blank(s.take(s.len() - trim_start(s).len())),
        trim_start(s).len() <= s.len(),
        s == s.take(s.len() - trim_start(s).len()) + trim_start(s),
    decreases s.len(),
{
    let cut = s.take(s.len() - trim_start(s).len());
    if s.len() > 0 && is_space(s[0]) {
        let rest = s.drop_first();
        lemma_start(rest);
        let inner = rest.take(rest.len() - trim_start(rest).len());
        assert(cut =~= seq![s[0]] + inner);
        assert(s =~= seq![s[0]] + rest);
        assert(cut + trim_start(s) =~= seq![s[0]] + (inner + trim_start(rest)));
        assert forall|i: int| 0 <= i < cut.len() implies is_space(#[trigger] cut[i]) by {
            if i > 0 {
                assert(cut[i] == inner[i - 1]);
            }
        }
    } else {
        assert(s =~= cut + trim_start(s));
    }
}

proof fn lemma_end(s: Seq<char>)
    ensures
        blank(s.skip(trim_end(s).len() as int)),
        trim_end(s).len() <= s.len(),
        s == trim_end(s) + s.skip(trim_end(s).len() as int),
    decreases s.len(),
{
    let cut = s.skip(trim_end(s).len() as int);
    if s.len() > 0 && is_space(s.last()) {
        let rest = s.drop_last();
        lemma_end(rest);
        let inner = rest.skip(trim_end(rest).len() as int);
        assert(cut =~= inner.push(s.last()));
        assert(s =~= rest.push(s.last()));
        assert(trim_end(s) + cut =~= (trim_end(rest) + inner).push(s.last()));
        assert forall|i: int| 0 <= i < cut.len() implies is_space(#[trigger] cut[i]) by {
            if i < inner.len() {
                assert(cut[i] == inner[i]);
            }
        }
    } else {
        assert(s =~= trim_end(s) + cut);
    }
}

/// Trimming takes white space off the ends and nothing else: there is white space in front, the trimmed
/// text, and white space behind.
pub proof fn law_trimming_takes_white_space_off(s: Seq<char>)
    ensures
        exists|front: Seq<char>, back: Seq<char>|
            blank(front) && blank(back) && s == #[trigger] (front + trimmed(s) + back),
        trimmed(s).len() > 0 ==> !is_space(trimmed(s)[0]) && !is_space(trimmed(s).last()),
{
    lemma_start(s);
    let rest = trim_start(s);
    lemma_end(rest);
    let front = s.take(s.len() - rest.len());
    let back = rest.skip(trim_end(rest).len() as int);
    assert(s =~= front + trimmed(s) + back);
    lemma_ends(s);
}

proof fn lemma_ends(s: Seq<char>)
    ensures
        trimmed(s).len() > 0 ==> !is_space(trimmed(s)[0]) && !is_space(trimmed(s).last()),
{
    lemma_first_kept(s);
    lemma_last_kept(trim_start(s));
}

proof fn lemma_first_kept(s: Seq<char>)
    ensures
        trim_start(s).len() > 0 ==> !is_space(trim_start(s)[0]),
    decreases s.len(),
{
    if s.len() > 0 && is_space(s[0]) {
        lemma_first_kept(s.drop_first());
    }
}

proof fn lemma_last_kept(s: Seq<char>)
    ensures
        trim_end(s).len() > 0 ==> !is_space(trim_end(s).last()) && trim_end(s)[0] == s[0],
    decreases s.len(),
{
    if s.len() > 0 && is_space(s.last()) {
        lemma_last_kept(s.drop_last());
    }
}

/// Lower case changes the capital letters of the alphabet alone, and no length.
pub proof fn law_lower_case(s: Seq<char>, i: int)
    requires
        0 <= i < s.len(),
    ensures
        lowered(s).len() == s.len(),
        'A' <= s[i] <= 'Z' ==> lowered(s)[i] as u32 == s[i] as u32 + 32,
        !('A' <= s[i] <= 'Z') ==> lowered(s)[i] == s[i],
{
}

proof fn lemma_digit(d: nat)
    requires
        d < 10,
    ensures
        digit_text(d).len() == 1,
        '0' <= digit_text(d)[0] <= '9',
        digit_text(d)[0] as u32 == '0' as u32 + d,
{
    reveal_strlit("0");
    reveal_strlit("1");
    reveal_strlit("2");
    reveal_strlit("3");
    reveal_strlit("4");
    reveal_strlit("5");
    reveal_strlit("6");
    reveal_strlit("7");
    reveal_strlit("8");
    reveal_strlit("9");
}

/// A number that is written down is read back.
pub proof fn law_numbers_are_read_back(n: nat, max: nat)
    requires
        n <= max,
    ensures
        digits_value(decimal(n)) == Some(n),
        numeral_value(decimal(n), max) == Some(n),
        decimal(n).len() > 0,
    decreases n,
{
    if n < 10 {
        lemma_digit(n);
        let text = decimal(n);
        assert(text.drop_last() =~= Seq::<char>::empty());
        assert(digits_value(text.drop_last()) == Some(0nat));
    } else {
        law_numbers_are_read_back(n / 10, max);
        lemma_digit(n % 10);
        let text = decimal(n);
        assert(text.drop_last() =~= decimal(n / 10));
        assert(text.last() == digit_text(n % 10)[0]);
        assert(n / 10 * 10 + n % 10 == n);
        assert(text[0] == decimal(n / 10)[0]);
    }
    lemma_first_digit(n);
}

proof fn lemma_first_digit(n: nat)
    ensures
        decimal(n).len() > 0,
        '0' <= decimal(n)[0] <= '9',
    decreases n,
{
    if n < 10 {
        lemma_digit(n);
    } else {
        lemma_first_digit(n / 10);
    }
}

} // verus!
