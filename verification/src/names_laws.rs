//! What splitting an artist field promises of names that are known.

use vstd::prelude::*;

use crate::text::{
    contains, is_trimmed, lemma_find, lemma_find_from, lemma_trimmed, lower_ascii, occurs_at,
    strip_end, strip_start,
};
use crate::title::{
    artist_names, clean_name, clean_names, separators, split_apart, split_by_all, split_each,
};

verus! {

/// What can stand between two names.
pub open spec fn between_names() -> Seq<Seq<char>> {
    seq![
        " feat. "@,
        " feat "@,
        " ft. "@,
        " ft "@,
        " featuring "@,
        " with "@,
        " vs. "@,
        " vs "@,
        " x "@,
        " pres. "@,
        " presents "@,
        ","@,
        ";"@,
        " & "@,
        " and "@,
        "/"@,
    ]
}

/// Whether a text is one name: it is there, has no white space and no dash at
/// either end, and holds nothing that can stand between names, capitals or not.
pub open spec fn is_one_name(s: Seq<char>) -> bool {
    &&& s.len() > 0
    &&& is_trimmed(s)
    &&& s.first() != '-'
    &&& s.last() != '-'
    &&& forall|k: int|
        0 <= k < between_names().len() ==> !contains(lower_ascii(s), #[trigger] between_names()[k])
}

proof fn lemma_between()
    ensures
        separators() == between_names(),
        between_names().len() == 16,
        forall|k: int| 0 <= k < between_names().len() ==> (#[trigger] between_names()[k]).len() > 0,
{
    reveal_strlit(" feat. ");
    reveal_strlit(" feat ");
    reveal_strlit(" ft. ");
    reveal_strlit(" ft ");
    reveal_strlit(" featuring ");
    reveal_strlit(" with ");
    reveal_strlit(" vs. ");
    reveal_strlit(" vs ");
    reveal_strlit(" x ");
    reveal_strlit(" pres. ");
    reveal_strlit(" presents ");
    reveal_strlit(",");
    reveal_strlit(";");
    reveal_strlit(" & ");
    reveal_strlit(" and ");
    reveal_strlit("/");
    assert(separators() =~= between_names());
}

/// Names are split at these, and at nothing else.
pub proof fn law_what_stands_between_names()
    ensures
        separators() == between_names(),
{
    lemma_between();
}

proof fn lemma_unsplit(s: Seq<char>, sep: Seq<char>)
    requires
        sep.len() > 0,
        !contains(lower_ascii(s), sep),
    ensures
        split_apart(s, sep) == seq![s],
{
    lemma_find(lower_ascii(s), sep);
}

proof fn lemma_each_one(s: Seq<char>, sep: Seq<char>)
    ensures
        split_each(seq![s], sep) == split_apart(s, sep),
{
    let one = seq![s];
    assert(one.drop_last() =~= Seq::<Seq<char>>::empty());
    assert(split_each(one.drop_last(), sep) =~= Seq::<Seq<char>>::empty());
    assert(split_each(one, sep) =~= split_apart(s, sep));
}

proof fn lemma_each_two(a: Seq<char>, b: Seq<char>, sep: Seq<char>)
    requires
        sep.len() > 0,
        !contains(lower_ascii(a), sep),
        !contains(lower_ascii(b), sep),
    ensures
        split_each(seq![a, b], sep) == seq![a, b],
{
    let two = seq![a, b];
    assert(two.drop_last() =~= seq![a]);
    lemma_each_one(a, sep);
    lemma_unsplit(a, sep);
    lemma_unsplit(b, sep);
    assert(split_each(two, sep) =~= seq![a, b]);
}

proof fn lemma_unsplit_by(s: Seq<char>, n: int)
    requires
        0 <= n <= separators().len(),
        forall|k: int| 0 <= k < n ==> !contains(lower_ascii(s), #[trigger] between_names()[k]),
    ensures
        split_by_all(seq![s], separators().take(n)) == seq![s],
    decreases n,
{
    lemma_between();
    let seps = separators().take(n);
    if n > 0 {
        lemma_unsplit_by(s, n - 1);
        assert(seps.drop_last() =~= separators().take(n - 1));
        assert(seps.last() == between_names()[n - 1]);
        lemma_each_one(s, seps.last());
        lemma_unsplit(s, seps.last());
    }
}

proof fn lemma_cleaned(parts: Seq<Seq<char>>)
    requires
        forall|i: int| 0 <= i < parts.len() ==> is_one_name(#[trigger] parts[i]),
    ensures
        clean_names(parts) == parts,
    decreases parts.len(),
{
    if parts.len() > 0 {
        let init = parts.drop_last();
        assert forall|i: int| 0 <= i < init.len() implies is_one_name(#[trigger] init[i]) by {
            assert(init[i] == parts[i]);
        }
        lemma_cleaned(init);
        let s = parts[parts.len() - 1];
        assert(is_one_name(s));
        lemma_trimmed(s);
        assert(strip_start(s, '-') == s);
        assert(strip_end(s, '-') == s);
        assert(clean_name(s) == s);
        assert(init.push(s) =~= parts);
    } else {
        assert(clean_names(parts) =~= parts);
    }
}

/// One name is credited as it is: nothing in it is split, a dash in its middle
/// neither.
pub proof fn law_one_name_is_credited_whole(s: Seq<char>)
    requires
        is_one_name(s),
    ensures
        artist_names(s) == seq![s],
{
    lemma_between();
    let n = separators().len() as int;
    lemma_unsplit_by(s, n);
    assert(separators().take(n) =~= separators());
    lemma_cleaned(seq![s]);
}

/// Two names with one of the separators between them, capitals or not, are both
/// credited, in their order.
pub proof fn law_two_names_are_both_credited(
    first: Seq<char>,
    separator: Seq<char>,
    second: Seq<char>,
    rank: int,
)
    requires
        is_one_name(first),
        is_one_name(second),
        0 <= rank < between_names().len(),
        lower_ascii(separator) == between_names()[rank],
        forall|j: int|
            0 <= j < first.len() ==> !occurs_at(
                lower_ascii(first + separator + second),
                between_names()[rank],
                j,
            ),
        forall|k: int|
            0 <= k < rank ==> !contains(
                lower_ascii(first + separator + second),
                #[trigger] between_names()[k],
            ),
    ensures
        artist_names(first + separator + second) == seq![first, second],
{
    lemma_between();
    let whole = first + separator + second;
    let sep = between_names()[rank];
    let low = lower_ascii(whole);
    assert(lower_ascii(separator).len() == separator.len());
    lemma_unsplit_by(whole, rank);
    let at = first.len() as int;
    assert(low.subrange(at, at + sep.len()) =~= lower_ascii(separator));
    assert(occurs_at(low, sep, at));
    lemma_find_from(low, sep, 0);
    lemma_find(low, sep);
    assert(whole.take(at) =~= first);
    assert(whole.skip(at + sep.len()) =~= second);
    lemma_unsplit(second, sep);
    assert(split_apart(whole, sep) =~= seq![first, second]);
    lemma_each_one(whole, sep);
    let upto = separators().take(rank + 1);
    assert(upto.drop_last() =~= separators().take(rank));
    assert(upto.last() == sep);
    assert(split_by_all(seq![whole], upto) == seq![first, second]);
    lemma_two_stay(whole, first, second, rank + 1, separators().len() as int);
    assert(separators().take(separators().len() as int) =~= separators());
    lemma_cleaned(seq![first, second]);
}

proof fn lemma_two_stay(whole: Seq<char>, first: Seq<char>, second: Seq<char>, from: int, to: int)
    requires
        0 <= from <= to <= separators().len(),
        is_one_name(first),
        is_one_name(second),
        split_by_all(seq![whole], separators().take(from)) == seq![first, second],
    ensures
        split_by_all(seq![whole], separators().take(to)) == seq![first, second],
    decreases to - from,
{
    lemma_between();
    if from < to {
        lemma_two_stay(whole, first, second, from, to - 1);
        let seps = separators().take(to);
        assert(seps.drop_last() =~= separators().take(to - 1));
        assert(seps.last() == between_names()[to - 1]);
        lemma_each_two(first, second, seps.last());
    }
}

} // verus!
