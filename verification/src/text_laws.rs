//! What trimming, splitting, joining and writing numbers promise, over all
//! texts.

use vstd::prelude::*;

use crate::text::{
    contains, decimal, digit, find, is_digit, is_number, is_trimmed, is_white_space, join,
    lemma_find, lemma_find_from, minutes_seconds, occurs_at, signed_decimal, strip_end, strip_start,
    trim_end, trim_start, trimmed, two_digits, value_of, word_len, words,
};

verus! {

/// Whether a text is one word: there, and without white space.
pub open spec fn is_word(w: Seq<char>) -> bool {
    w.len() > 0 && forall|i: int| 0 <= i < w.len() ==> !is_white_space(#[trigger] w[i])
}

/// Whether all of a text is white space.
pub open spec fn is_blank(s: Seq<char>) -> bool {
    forall|i: int| 0 <= i < s.len() ==> is_white_space(#[trigger] s[i])
}

/// The first part of a joined list stands before all the others.
pub proof fn lemma_join_front(first: Seq<char>, rest: Seq<Seq<char>>, sep: Seq<char>)
    requires
        rest.len() > 0,
    ensures
        join(seq![first] + rest, sep) == first + sep + join(rest, sep),
    decreases rest.len(),
{
    let all = seq![first] + rest;
    assert(all.last() == rest.last());
    assert(all.drop_last() =~= seq![first] + rest.drop_last());
    if rest.len() == 1 {
        assert(all.drop_last() =~= seq![first]);
        assert(join(all.drop_last(), sep) == first);
        assert(all.drop_last().len() == 1);
    } else {
        lemma_join_front(first, rest.drop_last(), sep);
        assert(first + sep + join(rest.drop_last(), sep) + sep + rest.last() =~= first + sep
            + join(rest, sep));
    }
}

proof fn lemma_word_len_of(w: Seq<char>, rest: Seq<char>)
    requires
        forall|i: int| 0 <= i < w.len() ==> !is_white_space(#[trigger] w[i]),
        rest.len() > 0 ==> is_white_space(rest[0]),
    ensures
        word_len(w + rest) == w.len(),
    decreases w.len(),
{
    let s = w + rest;
    if w.len() == 0 {
        assert(s =~= rest);
    } else {
        assert(s.first() == w[0]);
        assert(s.drop_first() =~= w.drop_first() + rest);
        assert forall|i: int| 0 <= i < w.drop_first().len() implies !is_white_space(
            #[trigger] w.drop_first()[i],
        ) by {
            assert(w[i + 1] == w.drop_first()[i]);
        }
        lemma_word_len_of(w.drop_first(), rest);
    }
}

/// A word, and then a space, are followed by the words of what is left.
proof fn lemma_words_front(w: Seq<char>, rest: Seq<char>)
    requires
        is_word(w),
    ensures
        words(w) == seq![w],
        words(w + " "@ + rest) == seq![w] + words(rest),
{
    reveal_strlit(" ");
    let empty = Seq::<char>::empty();
    assert(w + empty =~= w);
    lemma_word_len_of(w, empty);
    assert(w.take(w.len() as int) =~= w);
    assert(w.skip(w.len() as int) =~= empty);
    assert(!is_white_space(w[0]));
    assert(words(empty) =~= Seq::<Seq<char>>::empty());
    assert(seq![w] + words(empty) =~= seq![w]);
    let s = w + " "@ + rest;
    assert(s =~= w + (" "@ + rest));
    assert(is_white_space((" "@ + rest)[0]));
    lemma_word_len_of(w, " "@ + rest);
    assert(s.take(w.len() as int) =~= w);
    assert(s.skip(w.len() as int) =~= " "@ + rest);
    assert((" "@ + rest).drop_first() =~= rest);
    assert(words(" "@ + rest) == words(rest));
    assert(s.first() == w[0]);
    assert(words(s) == seq![s.take(word_len(s) as int)] + words(s.skip(word_len(s) as int)));
}

/// Words joined by spaces are the words of the text they make.
pub proof fn law_joined_words_are_its_words(ws: Seq<Seq<char>>)
    requires
        forall|i: int| 0 <= i < ws.len() ==> is_word(#[trigger] ws[i]),
    ensures
        words(join(ws, " "@)) == ws,
    decreases ws.len(),
{
    if ws.len() == 0 {
        assert(words(join(ws, " "@)) =~= ws);
    } else if ws.len() == 1 {
        lemma_words_front(ws[0], Seq::empty());
        assert(seq![ws[0]] =~= ws);
    } else {
        let rest = ws.drop_first();
        assert forall|i: int| 0 <= i < rest.len() implies is_word(#[trigger] rest[i]) by {
            assert(rest[i] == ws[i + 1]);
        }
        law_joined_words_are_its_words(rest);
        assert(seq![ws[0]] + rest =~= ws);
        lemma_join_front(ws[0], rest, " "@);
        lemma_words_front(ws[0], join(rest, " "@));
    }
}

/// Joined words have no white space at either end.
pub proof fn lemma_joined_words_are_trimmed(ws: Seq<Seq<char>>)
    requires
        ws.len() > 0,
        forall|i: int| 0 <= i < ws.len() ==> is_word(#[trigger] ws[i]),
    ensures
        is_trimmed(join(ws, " "@)),
        join(ws, " "@).len() > 0,
        join(ws, " "@).first() == ws[0].first(),
        join(ws, " "@).last() == ws.last().last(),
    decreases ws.len(),
{
    assert(is_word(ws[0]));
    assert(is_word(ws[ws.len() - 1]));
    let n = ws[ws.len() - 1];
    assert(!is_white_space(n[n.len() - 1]));
    assert(!is_white_space(ws[0][0]));
    if ws.len() > 1 {
        let init = ws.drop_last();
        assert forall|i: int| 0 <= i < init.len() implies is_word(#[trigger] init[i]) by {
            assert(init[i] == ws[i]);
        }
        lemma_joined_words_are_trimmed(init);
        let j = join(ws, " "@);
        assert(j == join(init, " "@) + " "@ + ws.last());
        assert(j[0] == join(init, " "@)[0]);
        assert(j.last() == ws.last().last());
    }
}

/// White space around a text is trimmed off, and nothing else.
pub proof fn law_trimming_takes_the_white_space_around(
    before: Seq<char>,
    s: Seq<char>,
    after: Seq<char>,
)
    requires
        is_blank(before),
        is_blank(after),
        is_trimmed(s),
    ensures
        trimmed(before + s + after) == s,
    decreases before.len() + after.len(),
{
    let whole = before + s + after;
    if before.len() > 0 {
        assert(is_white_space(before[0]));
        assert(whole.first() == before[0]);
        assert(whole.drop_first() =~= before.drop_first() + s + after);
        assert forall|i: int| 0 <= i < before.drop_first().len() implies is_white_space(
            #[trigger] before.drop_first()[i],
        ) by {
            assert(before[i + 1] == before.drop_first()[i]);
        }
        law_trimming_takes_the_white_space_around(before.drop_first(), s, after);
    } else if s.len() == 0 {
        assert(whole =~= after);
        lemma_blank_trimmed(after);
        assert(trimmed(whole) =~= s);
    } else {
        assert(whole.first() == s.first());
        assert(trim_start(whole) == whole);
        lemma_trim_end_blank(s, after);
        assert(whole =~= s + after);
    }
}

proof fn lemma_blank_trimmed(s: Seq<char>)
    requires
        is_blank(s),
    ensures
        trimmed(s).len() == 0,
    decreases s.len(),
{
    if s.len() > 0 {
        assert(is_white_space(s[0]));
        assert forall|i: int| 0 <= i < s.drop_first().len() implies is_white_space(
            #[trigger] s.drop_first()[i],
        ) by {
            assert(s[i + 1] == s.drop_first()[i]);
        }
        lemma_blank_trimmed(s.drop_first());
    }
}

proof fn lemma_trim_end_blank(s: Seq<char>, after: Seq<char>)
    requires
        s.len() > 0,
        !is_white_space(s.last()),
        is_blank(after),
    ensures
        trim_end(s + after) == s,
    decreases after.len(),
{
    let whole = s + after;
    if after.len() > 0 {
        assert(is_white_space(after[after.len() - 1]));
        assert(whole.drop_last() =~= s + after.drop_last());
        assert forall|i: int| 0 <= i < after.drop_last().len() implies is_white_space(
            #[trigger] after.drop_last()[i],
        ) by {
            assert(after[i] == after.drop_last()[i]);
        }
        lemma_trim_end_blank(s, after.drop_last());
    } else {
        assert(whole =~= s);
    }
}

/// A needle without spaces that stands at the end of a text behind a space, and
/// nowhere before it, is found there.
pub proof fn lemma_found_at_the_end(head: Seq<char>, needle: Seq<char>)
    requires
        needle.len() > 0,
        !needle.contains(' '),
        !contains(head, needle),
    ensures
        find(head + " "@ + needle, needle) == Some(head.len() as int + 1),
{
    reveal_strlit(" ");
    let n = head + " "@ + needle;
    let at = head.len() as int + 1;
    lemma_find(n, needle);
    lemma_find_from(n, needle, 0);
    assert(n.subrange(at, at + needle.len()) =~= needle);
    assert(occurs_at(n, needle, at));
    assert forall|j: int| 0 <= j < at implies !occurs_at(n, needle, j) by {
        if occurs_at(n, needle, j) {
            if j + needle.len() <= head.len() {
                assert(head.subrange(j, j + needle.len()) =~= n.subrange(j, j + needle.len()));
                assert(occurs_at(head, needle, j));
            } else {
                let k = head.len() - j;
                assert(n.subrange(j, j + needle.len())[k] == n[head.len() as int]);
                assert(needle[k] == ' ');
            }
        }
    }
}

/// A number written in decimal is digits, and reads back as the number.
pub proof fn law_decimal_reads_back(n: nat)
    ensures
        is_number(decimal(n)),
        value_of(decimal(n)) == n,
        n >= 10 ==> decimal(n)[0] != '0',
        n > 0 ==> decimal(n)[0] != '0',
    decreases n,
{
    let d = decimal(n);
    assert(forall|k: int| 0 <= k < 10 ==> is_digit(#[trigger] digit(k)) && digit(k) as int == 48
        + k);
    if n >= 10 {
        law_decimal_reads_back(n / 10);
        let init = decimal(n / 10);
        assert(d.drop_last() =~= init);
        assert forall|i: int| 0 <= i < d.len() implies is_digit(#[trigger] d[i]) by {
            if i < init.len() {
                assert(d[i] == init[i]);
            }
        }
        assert(d[0] == init[0]);
    } else {
        assert(d.drop_last() =~= Seq::<char>::empty());
        assert(value_of(d.drop_last()) == 0);
    }
}

/// Two numbers that are written alike are the same.
pub proof fn law_decimal_tells_numbers_apart(a: nat, b: nat)
    requires
        decimal(a) == decimal(b),
    ensures
        a == b,
{
    law_decimal_reads_back(a);
    law_decimal_reads_back(b);
}

/// A length is written as its whole minutes, a colon and two digits for the
/// seconds that are left over.
pub proof fn law_length_reads_in_minutes_and_seconds(ms: nat)
    ensures
        ({
            let t = minutes_seconds(ms);
            let n = t.len() as int;
            &&& n >= 4
            &&& t[n - 3] == ':'
            &&& is_number(t.take(n - 3)) && is_number(t.skip(n - 2))
            &&& value_of(t.skip(n - 2)) < 60
            &&& 60 * value_of(t.take(n - 3)) + value_of(t.skip(n - 2)) == ms / 1000
        }),
{
    reveal_strlit(":");
    let minutes = ms / 1000 / 60;
    let seconds = ms / 1000 % 60;
    law_decimal_reads_back(minutes);
    law_decimal_reads_back(seconds);
    let t = minutes_seconds(ms);
    let n = t.len() as int;
    let tail = two_digits(seconds);
    assert(tail.len() == 2) by {
        if seconds >= 10 {
            assert(decimal(seconds / 10).len() == 1);
        }
    }
    assert(t.take(n - 3) =~= decimal(minutes));
    assert(t.skip(n - 2) =~= tail);
    if seconds < 10 {
        assert(tail.drop_last() =~= seq!['0']);
        assert(seq!['0'].drop_last() =~= Seq::<char>::empty());
        assert(decimal(seconds).drop_last() =~= Seq::<char>::empty());
        assert(value_of(seq!['0']) == 10 * value_of(seq!['0'].drop_last()) + (seq!['0'].last() as int
            - '0' as int));
        assert(value_of(tail) == 10 * value_of(tail.drop_last()) + (tail.last() as int - '0' as int));
        assert(tail.last() == decimal(seconds).last());
        assert(is_digit(decimal(seconds)[0]));
        assert(is_number(tail)) by {
            assert(tail[0] == '0' && tail[1] == decimal(seconds)[0]);
        }
    }
}

/// White space is the space, the tab and the line breaks, and the other spaces
/// and breaks of Unicode; nothing else is.
pub proof fn law_what_is_white_space(c: char)
    ensures
        is_white_space(c) <==> {
            ||| c == ' ' || c == '\t' || c == '\n' || c == '\r' || c == '\u{b}' || c == '\u{c}'
            ||| c == '\u{85}' || c == '\u{a0}' || c == '\u{1680}' || c == '\u{3000}'
            ||| '\u{2000}' <= c <= '\u{200a}'
            ||| c == '\u{2028}' || c == '\u{2029}' || c == '\u{202f}' || c == '\u{205f}'
        },
{
}

/// A signed number is written as its size, behind a minus sign exactly when it is
/// below zero.
pub proof fn law_signed_number_reads_back(n: int)
    ensures
        n >= 0 ==> is_number(signed_decimal(n)) && value_of(signed_decimal(n)) == n,
        n < 0 ==> signed_decimal(n)[0] == '-' && is_number(signed_decimal(n).drop_first())
            && value_of(signed_decimal(n).drop_first()) == -n,
{
    if n >= 0 {
        law_decimal_reads_back(n as nat);
    } else {
        law_decimal_reads_back((-n) as nat);
        assert(signed_decimal(n).drop_first() =~= decimal((-n) as nat));
    }
}

/// Stripping takes a run of a sign off one end, and nothing else.
pub proof fn law_stripping_takes_the_run(s: Seq<char>, c: char)
    ensures
        strip_start(seq![c] + s, c) == strip_start(s, c),
        s.len() == 0 || s[0] != c ==> strip_start(s, c) == s,
        strip_end(s.push(c), c) == strip_end(s, c),
        s.len() == 0 || s.last() != c ==> strip_end(s, c) == s,
{
    assert((seq![c] + s).drop_first() =~= s);
    assert((seq![c] + s).first() == c);
    assert(s.push(c).drop_last() =~= s);
}

} // verus!
