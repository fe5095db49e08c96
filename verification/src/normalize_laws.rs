//! What normalizing and comparing texts promise, over all texts.

use vstd::prelude::*;

use crate::normalize::{
    alphanumeric, ascii_normal, edit_similarity, fold_ascii, fold_chars, is_ascii_alphanumeric,
    is_normal_char, is_spaced, lowercase, normalized, significant, similarity, token_list,
    token_similarity,
};
use crate::text::{
    ascii_lower, join, lemma_trimmed, lower_ascii, trim_end, trim_start, trimmed, words,
};
use crate::unit::nearest;
use crate::wordset::{lemma_word_set, shared};

verus! {

/// Folding goes on alike from texts that fold alike.
proof fn lemma_fold_goes_on(a: Seq<char>, b: Seq<char>, more: Seq<char>)
    requires
        fold_chars(a) == fold_chars(b),
    ensures
        fold_chars(a + more) == fold_chars(b + more),
    decreases more.len(),
{
    if more.len() == 0 {
        assert(a + more =~= a);
        assert(b + more =~= b);
    } else {
        lemma_fold_goes_on(a, b, more.drop_last());
        assert((a + more).drop_last() =~= a + more.drop_last());
        assert((b + more).drop_last() =~= b + more.drop_last());
    }
}

/// A combining mark makes no difference wherever it stands in a decomposed
/// text: an accent does not count.
pub proof fn law_combining_marks_vanish(before: Seq<char>, mark: char, after: Seq<char>)
    requires
        '\u{0300}' <= mark <= '\u{036f}',
    ensures
        fold_chars(before.push(mark) + after) == fold_chars(before + after),
{
    assert(before.push(mark).drop_last() =~= before);
    lemma_fold_goes_on(before.push(mark), before, after);
}

/// Anything that is no letter, no number, no mark and no ampersand counts as the
/// space would, wherever it stands in a decomposed text: typographic quotes and
/// dashes too.
pub proof fn law_punctuation_counts_as_a_space(before: Seq<char>, c: char, after: Seq<char>)
    requires
        !('\u{0300}' <= c <= '\u{036f}'),
        c != '&',
        !alphanumeric(c),
        !alphanumeric(' '),
        !alphanumeric('\''),
        !alphanumeric('"'),
        !alphanumeric('-'),
    ensures
        fold_chars(before.push(c) + after) == fold_chars(before.push(' ') + after),
{
    assert(before.push(c).drop_last() =~= before);
    assert(before.push(' ').drop_last() =~= before);
    lemma_fold_goes_on(before.push(c), before.push(' '), after);
}

/// Two letters with one lower-case form count the same, wherever they stand in a
/// decomposed text: capitals do not count.
pub proof fn law_letters_count_by_their_lower_case(
    before: Seq<char>,
    c: char,
    d: char,
    after: Seq<char>,
)
    requires
        is_letter(c),
        is_letter(d),
        lowercase(c) == lowercase(d),
    ensures
        fold_chars(before.push(c) + after) == fold_chars(before.push(d) + after),
        fold_chars(before.push(c)).out == fold_chars(before).out + lowercase(c),
{
    assert(before.push(c).drop_last() =~= before);
    assert(before.push(d).drop_last() =~= before);
    lemma_fold_goes_on(before.push(c), before.push(d), after);
}

/// Whether a character of a decomposed text is a letter or a number as it
/// stands.
pub open spec fn is_letter(c: char) -> bool {
    alphanumeric(c) && !('\u{0300}' <= c <= '\u{036f}') && c != '&' && c != '\u{2018}' && c
        != '\u{2019}' && c != '\u{02bc}' && c != '\u{201c}' && c != '\u{201d}' && c != '\u{2013}' && c
        != '\u{2014}' && c != '\u{2212}'
}

/// The ampersand reads "and", a word of its own.
pub proof fn law_ampersand_reads_and(before: Seq<char>)
    ensures
        ({
            let out = fold_chars(before).out;
            let after = fold_chars(before.push('&'));
            after.at_gap && (after.out == out + "and "@ || after.out == out + " and "@)
        }),
        !fold_chars(before).at_gap ==> fold_chars(before.push('&')).out == fold_chars(before).out
            + " and "@,
{
    reveal_strlit("and ");
    reveal_strlit(" and ");
    assert(before.push('&').drop_last() =~= before);
    let out = fold_chars(before).out;
    assert(out.push(' ') + "and "@ =~= out + " and "@);
}

/// A text of ASCII letters and digits alone has its lower-case form as its normal
/// form: no letter is lost, none is added and none changes its place.
pub proof fn law_letters_and_digits_are_kept(w: Seq<char>)
    requires
        forall|i: int| 0 <= i < w.len() ==> is_ascii_alphanumeric(#[trigger] w[i]),
    ensures
        ascii_normal(w) == lower_ascii(w),
{
    lemma_fold_word(w);
    let low = lower_ascii(w);
    if low.len() > 0 {
        assert(is_ascii_alphanumeric(w[0]));
        assert(is_ascii_alphanumeric(w[w.len() - 1]));
    }
    lemma_trimmed(low);
}

proof fn lemma_fold_word(w: Seq<char>)
    requires
        forall|i: int| 0 <= i < w.len() ==> is_ascii_alphanumeric(#[trigger] w[i]),
    ensures
        fold_ascii(w).out == lower_ascii(w),
    decreases w.len(),
{
    if w.len() > 0 {
        assert forall|i: int| 0 <= i < w.drop_last().len() implies is_ascii_alphanumeric(
            #[trigger] w.drop_last()[i],
        ) by {
            assert(w[i] == w.drop_last()[i]);
        }
        lemma_fold_word(w.drop_last());
        assert(is_ascii_alphanumeric(w[w.len() - 1]));
        assert(lower_ascii(w) =~= lower_ascii(w.drop_last()).push(ascii_lower(w.last())));
    } else {
        assert(lower_ascii(w) =~= fold_ascii(w).out);
    }
}

proof fn lemma_fold_after_gap(a: Seq<char>, b: Seq<char>)
    requires
        fold_ascii(a).at_gap,
    ensures
        fold_ascii(a + b).out == fold_ascii(a).out + fold_ascii(b).out,
        fold_ascii(a + b).at_gap == fold_ascii(b).at_gap,
    decreases b.len(),
{
    if b.len() == 0 {
        assert(a + b =~= a);
        assert(fold_ascii(a).out + fold_ascii(b).out =~= fold_ascii(a).out);
    } else {
        reveal_strlit("and ");
        lemma_fold_after_gap(a, b.drop_last());
        assert((a + b).drop_last() =~= a + b.drop_last());
        assert(fold_ascii(a + b).out =~= fold_ascii(a).out + fold_ascii(b).out);
    }
}

/// The folded text starts with no space, ends with at most one, and the gap is
/// open exactly where it does.
proof fn lemma_folded(s: Seq<char>)
    ensures
        is_spaced(fold_ascii(s).out),
        fold_ascii(s).at_gap == (fold_ascii(s).out.len() == 0 || fold_ascii(s).out.last() == ' '),
    decreases s.len(),
{
    if s.len() > 0 {
        reveal_strlit("and ");
        lemma_folded(s.drop_last());
        let before = fold_ascii(s.drop_last());
        if s.last() == '&' {
            let gap = if before.at_gap {
                before.out
            } else {
                before.out.push(' ')
            };
            assert(is_spaced(gap));
            assert(fold_ascii(s).out =~= gap + seq!['a', 'n', 'd', ' ']);
        }
    }
}

proof fn lemma_spaced_trim(s: Seq<char>)
    requires
        is_spaced(s),
    ensures
        trimmed(s) == if s.len() > 0 && s.last() == ' ' {
            s.drop_last()
        } else {
            s
        },
{
    if s.len() > 0 {
        assert(is_normal_char(s[0]) && s[0] != ' ');
        assert(trim_start(s) == s);
        assert(is_normal_char(s[s.len() - 1]));
        if s.last() == ' ' {
            let t = s.drop_last();
            assert(s[s.len() - 1] == ' ');
            assert(is_normal_char(s[s.len() - 2]));
            assert(t.last() == s[s.len() - 2]);
            assert(trim_end(t) == t);
        }
    }
}

/// Between two passages of an ASCII text, anything but a letter, a digit or an
/// ampersand is one space.
pub proof fn law_words_stay_apart(before: Seq<char>, c: char, after: Seq<char>)
    requires
        !is_ascii_alphanumeric(c),
        c != '&',
        ascii_normal(before).len() > 0,
        ascii_normal(after).len() > 0,
    ensures
        ascii_normal(before.push(c) + after) == ascii_normal(before) + " "@ + ascii_normal(after),
{
    reveal_strlit(" ");
    let x = before.push(c);
    assert(x.drop_last() =~= before);
    lemma_folded(before);
    lemma_folded(x);
    lemma_folded(after);
    lemma_folded(x + after);
    lemma_fold_after_gap(x, after);
    lemma_spaced_trim(fold_ascii(before).out);
    lemma_spaced_trim(fold_ascii(after).out);
    lemma_spaced_trim(fold_ascii(x + after).out);
    assert(fold_ascii(x).out =~= ascii_normal(before) + " "@);
    assert(ascii_normal(x + after) =~= ascii_normal(before) + " "@ + ascii_normal(after));
}

/// Between two passages of an ASCII text, an ampersand reads "and".
pub proof fn law_ampersand_joins_passages(before: Seq<char>, after: Seq<char>)
    requires
        ascii_normal(before).len() > 0,
        ascii_normal(after).len() > 0,
    ensures
        ascii_normal(before.push('&') + after) == ascii_normal(before) + " and "@ + ascii_normal(
            after,
        ),
{
    reveal_strlit("and ");
    reveal_strlit(" and ");
    let x = before.push('&');
    assert(x.drop_last() =~= before);
    lemma_folded(before);
    lemma_folded(after);
    lemma_folded(x + after);
    lemma_fold_after_gap(x, after);
    lemma_spaced_trim(fold_ascii(before).out);
    lemma_spaced_trim(fold_ascii(after).out);
    lemma_spaced_trim(fold_ascii(x + after).out);
    assert(fold_ascii(x).out =~= ascii_normal(before) + " and "@);
    assert(ascii_normal(x + after) =~= ascii_normal(before) + " and "@ + ascii_normal(after));
}

/// Whether a word says nothing about whom a text names.
pub open spec fn is_connective(w: Seq<char>) -> bool {
    seq![
        "feat"@,
        "featuring"@,
        "ft"@,
        "with"@,
        "and"@,
        "vs"@,
        "versus"@,
        "pres"@,
        "presents"@,
        "the"@,
        "a"@,
    ].contains(w)
}

/// The tokens of a text are the words of its normal form that are no
/// connectives, each of them once.
pub proof fn law_tokens_are_the_identifying_words(a: Seq<char>, w: Seq<char>)
    ensures
        token_list(a).contains(w) <==> words(normalized(a)).contains(w) && !is_connective(w),
        token_list(a).no_duplicates(),
{
    let all = words(normalized(a));
    lemma_word_set(significant(all));
    let p = |w: Seq<char>| !crate::normalize::is_stop_word(w);
    let list = seq![
        "feat"@,
        "featuring"@,
        "ft"@,
        "with"@,
        "and"@,
        "vs"@,
        "versus"@,
        "pres"@,
        "presents"@,
        "the"@,
        "a"@,
    ];
    assert(list[0] == "feat"@ && list[1] == "featuring"@ && list[2] == "ft"@ && list[3]
        == "with"@ && list[4] == "and"@ && list[5] == "vs"@ && list[6] == "versus"@ && list[7]
        == "pres"@ && list[8] == "presents"@ && list[9] == "the"@ && list[10] == "a"@);
    assert(is_connective(w) == !p(w));
    lemma_filtered(all, p, w);
}

/// Filtering keeps what passes the test, and nothing else.
pub proof fn lemma_filtered(s: Seq<Seq<char>>, p: spec_fn(Seq<char>) -> bool, w: Seq<char>)
    ensures
        s.filter(p).contains(w) <==> s.contains(w) && p(w),
    decreases s.len(),
{
    reveal(Seq::filter);
    if s.len() > 0 {
        let init = s.drop_last();
        let kept = init.filter(p);
        lemma_filtered(init, p, w);
        if s.contains(w) {
            let i = choose|i: int| 0 <= i < s.len() && s[i] == w;
            if i < init.len() {
                assert(init[i] == w);
            }
        }
        if init.contains(w) {
            let i = choose|i: int| 0 <= i < init.len() && init[i] == w;
            assert(s[i] == w);
        }
        assert(s[s.len() - 1] == s.last());
        let all = s.filter(p);
        if kept.contains(w) {
            let k = choose|k: int| 0 <= k < kept.len() && kept[k] == w;
            assert(all[k] == w);
        }
        if all.contains(w) {
            let k = choose|k: int| 0 <= k < all.len() && all[k] == w;
            if k < kept.len() {
                assert(kept[k] == w);
            }
        }
        if p(s.last()) {
            assert(all[kept.len() as int] == s.last());
        }
    }
}

/// How many words two token lists have in common is the size of what they share.
proof fn lemma_shared_size(a: Seq<Seq<char>>, b: Seq<Seq<char>>)
    requires
        a.no_duplicates(),
    ensures
        a.to_set().intersect(b.to_set()).finite(),
        shared(a, b) == a.to_set().intersect(b.to_set()).len(),
    decreases a.len(),
{
    if a.len() == 0 {
        assert(a.to_set().intersect(b.to_set()) =~= Set::<Seq<char>>::empty());
    } else {
        let init = a.drop_last();
        assert forall|i: int, j: int|
            0 <= i < init.len() && 0 <= j < init.len() && i != j implies init[i] != init[j] by {
            assert(a[i] != a[j]);
        }
        lemma_shared_size(init, b);
        let w = a.last();
        assert(!init.contains(w)) by {
            if init.contains(w) {
                let i = choose|i: int| 0 <= i < init.len() && init[i] == w;
                assert(a[i] != a[a.len() - 1]);
            }
        }
        assert forall|x: Seq<char>| #[trigger] a.contains(x) <==> init.contains(x) || x == w by {
            if a.contains(x) {
                let i = choose|i: int| 0 <= i < a.len() && a[i] == x;
                if i < init.len() {
                    assert(init[i] == x);
                }
            }
            if init.contains(x) {
                let i = choose|i: int| 0 <= i < init.len() && init[i] == x;
                assert(a[i] == x);
            }
            assert(a[a.len() - 1] == w);
        }
        let before = init.to_set().intersect(b.to_set());
        let after = a.to_set().intersect(b.to_set());
        if b.contains(w) {
            assert(after =~= before.insert(w));
        } else {
            assert(after =~= before);
        }
    }
}

/// How alike two texts are by their tokens: as much as the largest of three
/// says, and no more. Twice the tokens in common to the tokens of both; 0.92
/// when one side has none that the other lacks; and 0.95 of the edit similarity
/// of the tokens in order. A text without tokens is like no other.
pub proof fn law_token_similarity_is_the_largest_sign(a: Seq<char>, b: Seq<char>)
    ensures
        ({
            let ta = token_list(a);
            let tb = token_list(b);
            let common = ta.to_set().intersect(tb.to_set()).len() as int;
            let edit = edit_similarity(join(ta, " "@), join(tb, " "@));
            let s = token_similarity(a, b);
            let by_tokens = nearest(2 * common * 1_000_000_000, (ta.len() + tb.len()) as int);
            let by_edit = nearest(95 * edit, 100);
            let within = common == ta.len() || common == tb.len();
            &&& ta.len() == 0 || tb.len() == 0 ==> s == 0
            &&& ta.len() > 0 && tb.len() > 0 ==> {
                &&& s >= by_tokens || s == 1_000_000_000
                &&& s >= by_edit || s == 1_000_000_000
                &&& within ==> s >= 920_000_000
                &&& s == by_tokens || s == by_edit || s == 1_000_000_000 || (within && s
                    == 920_000_000)
                &&& s == 1_000_000_000 ==> by_tokens >= 1_000_000_000 || by_edit >= 1_000_000_000
            }
        }),
{
    reveal(token_similarity);
    let ta = token_list(a);
    let tb = token_list(b);
    lemma_word_set(significant(words(normalized(a))));
    lemma_word_set(significant(words(normalized(b))));
    lemma_shared_size(ta, tb);
    lemma_shared_bound(ta, tb);
    if ta.len() > 0 && tb.len() > 0 {
        let common = shared(ta, tb) as int;
        assert(2 * common * 1_000_000_000 >= 0);
        let n = (ta.len() + tb.len()) as int;
        assert(nearest(2 * common * 1_000_000_000, n) >= 0) by (nonlinear_arith)
            requires
                nearest(2 * common * 1_000_000_000, n) == (2 * (2 * common * 1_000_000_000) + n) / (2
                    * n),
                n > 0,
                common >= 0,
        ;
    }
}

proof fn lemma_shared_bound(a: Seq<Seq<char>>, b: Seq<Seq<char>>)
    requires
        a.no_duplicates(),
        b.no_duplicates(),
    ensures
        shared(a, b) <= a.len(),
        shared(a, b) <= b.len(),
{
    lemma_shared_size(a, b);
    a.unique_seq_to_set();
    b.unique_seq_to_set();
    vstd::set_lib::lemma_len_subset(a.to_set().intersect(b.to_set()), a.to_set());
    vstd::set_lib::lemma_len_subset(a.to_set().intersect(b.to_set()), b.to_set());
}

/// How alike two texts are: not at all when either has no normal form, wholly
/// when they have the same, and else six parts edit similarity of the normal
/// forms to four parts token similarity, to the nearest part.
pub proof fn law_similarity_blends_spelling_and_words(a: Seq<char>, b: Seq<char>)
    ensures
        ({
            let na = normalized(a);
            let nb = normalized(b);
            let s = similarity(a, b);
            let parts = 60 * edit_similarity(na, nb) + 40 * token_similarity(a, b);
            &&& na.len() == 0 || nb.len() == 0 ==> s == 0
            &&& na.len() > 0 && na == nb ==> s == 1_000_000_000
            &&& na.len() > 0 && nb.len() > 0 && na != nb ==> parts - 50 <= 100 * s <= parts + 50
        }),
{
    reveal(similarity);
    let parts = 60 * edit_similarity(normalized(a), normalized(b)) + 40 * token_similarity(a, b);
    assert(nearest(parts, 100) == (2 * parts + 100) / 200);
}

} // verus!
