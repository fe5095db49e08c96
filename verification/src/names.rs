//! What splitting an artist field into names keeps, and what it leaves out.

use vstd::prelude::*;

use crate::text::{
    contains, find, is_trimmed, is_white_space, lemma_find, lemma_find_from, lemma_trimmed,
    lower_ascii, occurs_at, strip_end, strip_start, trim_end, trim_start, trimmed,
};
use crate::title::{
    artist_names, clean_name, clean_names, separators, split_apart, split_by_all, split_each,
};

verus! {

/// Whether a text holds one of the separators, capitals or not.
pub open spec fn holds_separator(s: Seq<char>) -> bool {
    exists|k: int|
        0 <= k < separators().len() && contains(lower_ascii(s), #[trigger] separators()[k])
}

/// Whether a text is made of separators, white space and dashes.
pub open spec fn is_filler(g: Seq<char>) -> bool
    decreases g.len(),
{
    ||| g.len() == 0
    ||| (is_white_space(g[0]) || g[0] == '-') && is_filler(g.skip(1))
    ||| exists|k: int|
        0 <= k < separators().len() && separators()[k].len() > 0 && occurs_at(
            lower_ascii(g),
            #[trigger] separators()[k],
            0,
        ) && is_filler(g.skip(separators()[k].len() as int))
}

/// Whether the names lie in `s` in their order, apart, with nothing around them
/// but separators, white space and dashes.
pub open spec fn woven(s: Seq<char>, names: Seq<Seq<char>>) -> bool
    decreases names.len(),
{
    if names.len() == 0 {
        is_filler(s)
    } else {
        exists|a: int, b: int|
            #![trigger s.subrange(a, b)]
            0 <= a <= b <= s.len() && s.subrange(a, b) == names.last() && woven(
                s.take(a),
                names.drop_last(),
            ) && is_filler(s.skip(b))
    }
}

proof fn lemma_separators()
    ensures
        separators().len() == 16,
        forall|k: int| 0 <= k < separators().len() ==> (#[trigger] separators()[k]).len() > 0,
{
    reveal_strlit(" feat. ");
    reveal_strlit(" feat ");
    reveal_strlit(" ft. ");
    reveal_strlit(" ft ");
    reveal_strlit(" featuring ");
    reveal_strlit(" with ");
    reveal_strlit(" vs. ");
    reveal_strlit(" vs ");
    reveal_strlit(" x ");
    reveal_strlit(" pres. ");
    reveal_strlit(" presents ");
    reveal_strlit(",");
    reveal_strlit(";");
    reveal_strlit(" & ");
    reveal_strlit(" and ");
    reveal_strlit("/");
}

/// What stands in a part, in lower case, stands in the whole.
proof fn lemma_part_holds(s: Seq<char>, part: Seq<char>, needle: Seq<char>)
    requires
        contains(s, part),
        contains(lower_ascii(part), needle),
    ensures
        contains(lower_ascii(s), needle),
{
    let i = choose|i: int| occurs_at(s, part, i);
    let j = choose|j: int| occurs_at(lower_ascii(part), needle, j);
    assert forall|k: int| 0 <= k < part.len() implies s[i + k] == #[trigger] part[k] by {
        assert(s.subrange(i, i + part.len())[k] == part[k]);
    }
    assert(lower_ascii(s).subrange(i + j, i + j + needle.len()) =~= lower_ascii(part).subrange(
        j,
        j + needle.len(),
    ));
    assert(occurs_at(lower_ascii(s), needle, i + j));
}

proof fn lemma_part_of_part(s: Seq<char>, t: Seq<char>, u: Seq<char>)
    requires
        contains(s, t),
        contains(t, u),
    ensures
        contains(s, u),
{
    let i = choose|i: int| occurs_at(s, t, i);
    let j = choose|j: int| occurs_at(t, u, j);
    assert(s.subrange(i + j, i + j + u.len()) =~= t.subrange(j, j + u.len()));
    assert(occurs_at(s, u, i + j));
}

/// The pieces between the places of a separator lie in the text, and none of
/// them holds it.
proof fn lemma_split_apart(s: Seq<char>, sep: Seq<char>, k: int)
    requires
        sep.len() > 0,
        0 <= k < split_apart(s, sep).len(),
    ensures
        contains(s, split_apart(s, sep)[k]),
        !contains(lower_ascii(split_apart(s, sep)[k]), sep),
    decreases s.len(),
{
    let low = lower_ascii(s);
    lemma_find(low, sep);
    lemma_find_from(low, sep, 0);
    match find(low, sep) {
        None => {
            assert(s.subrange(0, s.len() as int) =~= s);
            assert(occurs_at(s, s, 0));
        },
        Some(i) => {
            let rest = s.skip(i + sep.len());
            let piece = split_apart(s, sep)[k];
            if k == 0 {
                assert(s.subrange(0, i) =~= s.take(i));
                assert(occurs_at(s, s.take(i), 0));
                if contains(lower_ascii(s.take(i)), sep) {
                    let j = choose|j: int| occurs_at(lower_ascii(s.take(i)), sep, j);
                    assert(low.subrange(j, j + sep.len()) =~= lower_ascii(s.take(i)).subrange(
                        j,
                        j + sep.len(),
                    ));
                    assert(occurs_at(low, sep, j));
                }
            } else {
                lemma_split_apart(rest, sep, k - 1);
                assert(s.subrange(i + sep.len(), s.len() as int) =~= rest);
                assert(occurs_at(s, rest, i + sep.len()));
                lemma_part_of_part(s, rest, piece);
            }
        },
    }
}

/// Every piece lies in a part, and holds no separator at which it was split.
proof fn lemma_split_each(parts: Seq<Seq<char>>, sep: Seq<char>, k: int) -> (j: int)
    requires
        sep.len() > 0,
        0 <= k < split_each(parts, sep).len(),
    ensures
        0 <= j < parts.len(),
        contains(parts[j], split_each(parts, sep)[k]),
        !contains(lower_ascii(split_each(parts, sep)[k]), sep),
    decreases parts.len(),
{
    let before = split_each(parts.drop_last(), sep);
    if k < before.len() {
        lemma_split_each(parts.drop_last(), sep, k)
    } else {
        lemma_split_apart(parts.last(), sep, k - before.len());
        parts.len() - 1
    }
}

proof fn lemma_split_by_all(input: Seq<char>, seps: Seq<Seq<char>>, k: int)
    requires
        forall|i: int| 0 <= i < seps.len() ==> (#[trigger] seps[i]).len() > 0,
        0 <= k < split_by_all(seq![input], seps).len(),
    ensures
        contains(input, split_by_all(seq![input], seps)[k]),
        forall|i: int|
            0 <= i < seps.len() ==> !contains(
                lower_ascii(split_by_all(seq![input], seps)[k]),
                #[trigger] seps[i],
            ),
    decreases seps.len(),
{
    if seps.len() == 0 {
        assert(input.subrange(0, input.len() as int) =~= input);
        assert(occurs_at(input, input, 0));
    } else {
        let init = seps.drop_last();
        let parts = split_by_all(seq![input], init);
        let piece = split_by_all(seq![input], seps)[k];
        let j = lemma_split_each(parts, seps.last(), k);
        assert forall|i: int| 0 <= i < init.len() implies (#[trigger] init[i]).len() > 0 by {
            assert(init[i] == seps[i]);
        }
        lemma_split_by_all(input, init, j);
        lemma_part_of_part(input, parts[j], piece);
        assert forall|i: int| 0 <= i < seps.len() implies !contains(
            lower_ascii(piece),
            #[trigger] seps[i],
        ) by {
            if i < init.len() {
                assert(init[i] == seps[i]);
                if contains(lower_ascii(piece), seps[i]) {
                    lemma_part_holds(parts[j], piece, seps[i]);
                }
            }
        }
    }
}

/// Whether a text is made of white space and dashes.
spec fn is_blank(g: Seq<char>) -> bool {
    forall|i: int| 0 <= i < g.len() ==> is_white_space(#[trigger] g[i]) || g[i] == '-'
}

/// Whether `t` is what is left of `s` without white space and dashes around it.
spec fn is_core(s: Seq<char>, t: Seq<char>, a: int) -> bool {
    &&& 0 <= a <= a + t.len() <= s.len()
    &&& s.subrange(a, a + t.len()) == t
    &&& is_blank(s.take(a))
    &&& is_blank(s.skip(a + t.len()))
}

proof fn lemma_core_of_core(s: Seq<char>, t: Seq<char>, u: Seq<char>, a: int, b: int)
    requires
        is_core(s, t, a),
        is_core(t, u, b),
    ensures
        is_core(s, u, a + b),
{
    assert forall|k: int| 0 <= k < t.len() implies s[a + k] == #[trigger] t[k] by {
        assert(s.subrange(a, a + t.len())[k] == t[k]);
    }
    assert(s.subrange(a + b, a + b + u.len()) =~= t.subrange(b, b + u.len()));
    let front = s.take(a + b);
    assert forall|i: int| 0 <= i < a + b implies is_white_space(#[trigger] front[i]) || front[i]
        == '-' by {
        if i < a {
            assert(s.take(a)[i] == s[i]);
        } else {
            assert(t.take(b)[i - a] == t[i - a]);
            assert(s[a + (i - a)] == t[i - a]);
        }
    }
    let end = a + b + u.len();
    assert forall|i: int| 0 <= i < s.skip(end).len() implies is_white_space(
        #[trigger] s.skip(end)[i],
    ) || s.skip(end)[i] == '-' by {
        let p = end + i;
        if p < a + t.len() {
            assert(t.skip(b + u.len())[p - a - b - u.len()] == t[p - a]);
            assert(s[a + (p - a)] == t[p - a]);
        } else {
            assert(s.skip(a + t.len())[p - a - t.len()] == s[p]);
        }
    }
}

proof fn lemma_trim_start_core(s: Seq<char>) -> (a: int)
    ensures
        is_core(s, trim_start(s), a),
    decreases s.len(),
{
    if s.len() > 0 && is_white_space(s.first()) {
        let rest = s.drop_first();
        let b = lemma_trim_start_core(rest);
        assert(s.subrange(1, s.len() as int) =~= rest);
        assert(is_core(s, rest, 1));
        lemma_core_of_core(s, rest, trim_start(rest), 1, b);
        1 + b
    } else {
        assert(s.subrange(0, s.len() as int) =~= s);
        0
    }
}

proof fn lemma_trim_end_core(s: Seq<char>)
    ensures
        is_core(s, trim_end(s), 0),
    decreases s.len(),
{
    if s.len() > 0 && is_white_space(s.last()) {
        let rest = s.drop_last();
        lemma_trim_end_core(rest);
        assert(s.subrange(0, rest.len() as int) =~= rest);
        assert(is_core(s, rest, 0));
        lemma_core_of_core(s, rest, trim_end(rest), 0, 0);
    } else {
        assert(s.subrange(0, s.len() as int) =~= s);
    }
}

proof fn lemma_strip_start_core(s: Seq<char>) -> (a: int)
    ensures
        is_core(s, strip_start(s, '-'), a),
    decreases s.len(),
{
    if s.len() > 0 && s.first() == '-' {
        let rest = s.drop_first();
        let b = lemma_strip_start_core(rest);
        assert(s.subrange(1, s.len() as int) =~= rest);
        assert(is_core(s, rest, 1));
        lemma_core_of_core(s, rest, strip_start(rest, '-'), 1, b);
        1 + b
    } else {
        assert(s.subrange(0, s.len() as int) =~= s);
        0
    }
}

proof fn lemma_strip_end_core(s: Seq<char>)
    ensures
        is_core(s, strip_end(s, '-'), 0),
    decreases s.len(),
{
    if s.len() > 0 && s.last() == '-' {
        let rest = s.drop_last();
        lemma_strip_end_core(rest);
        assert(s.subrange(0, rest.len() as int) =~= rest);
        assert(is_core(s, rest, 0));
        lemma_core_of_core(s, rest, strip_end(rest, '-'), 0, 0);
    } else {
        assert(s.subrange(0, s.len() as int) =~= s);
    }
}

proof fn lemma_trimmed_core(s: Seq<char>) -> (a: int)
    ensures
        is_core(s, trimmed(s), a),
{
    let a = lemma_trim_start_core(s);
    lemma_trim_end_core(trim_start(s));
    lemma_core_of_core(s, trim_start(s), trimmed(s), a, 0);
    a
}

proof fn lemma_clean_name_core(p: Seq<char>) -> (a: int)
    ensures
        is_core(p, clean_name(p), a),
{
    let t = trimmed(p);
    let u = strip_start(t, '-');
    let v = strip_end(u, '-');
    let a = lemma_trimmed_core(p);
    let b = lemma_strip_start_core(t);
    lemma_core_of_core(p, t, u, a, b);
    lemma_strip_end_core(u);
    lemma_core_of_core(p, u, v, a + b, 0);
    let c = lemma_trimmed_core(v);
    lemma_core_of_core(p, v, clean_name(p), a + b, c);
    a + b + c
}

/// Every name is what is left of a part, and is not empty.
proof fn lemma_clean_names(parts: Seq<Seq<char>>, k: int) -> (j: int)
    requires
        0 <= k < clean_names(parts).len(),
    ensures
        0 <= j < parts.len(),
        clean_names(parts)[k] == clean_name(parts[j]),
        clean_names(parts)[k].len() > 0,
    decreases parts.len(),
{
    let before = clean_names(parts.drop_last());
    if k < before.len() {
        lemma_clean_names(parts.drop_last(), k)
    } else {
        parts.len() - 1
    }
}

/// A name is not empty, has no white space at either end, lies in the field,
/// and holds none of the separators, capitals or not.
pub proof fn law_names_hold_no_separator(input: Seq<char>, i: int)
    requires
        0 <= i < artist_names(input).len(),
    ensures
        artist_names(input)[i].len() > 0,
        is_trimmed(artist_names(input)[i]),
        contains(input, artist_names(input)[i]),
        !holds_separator(artist_names(input)[i]),
{
    lemma_separators();
    let parts = split_by_all(seq![input], separators());
    let name = artist_names(input)[i];
    let j = lemma_clean_names(parts, i);
    lemma_split_by_all(input, separators(), j);
    let a = lemma_clean_name_core(parts[j]);
    assert(occurs_at(parts[j], name, a));
    lemma_part_of_part(input, parts[j], name);
    lemma_trimmed(strip_end(strip_start(trimmed(parts[j]), '-'), '-'));
    if holds_separator(name) {
        let k = choose|k: int|
            0 <= k < separators().len() && contains(lower_ascii(name), #[trigger] separators()[k]);
        lemma_part_holds(parts[j], name, separators()[k]);
    }
}

proof fn lemma_split_name(name: Seq<char>, seps: Seq<Seq<char>>)
    requires
        forall|i: int| 0 <= i < seps.len() ==> (#[trigger] seps[i]).len() > 0,
        forall|i: int| 0 <= i < seps.len() ==> !contains(lower_ascii(name), #[trigger] seps[i]),
    ensures
        split_by_all(seq![name], seps) == seq![name],
    decreases seps.len(),
{
    if seps.len() > 0 {
        let init = seps.drop_last();
        assert forall|i: int| 0 <= i < init.len() implies (#[trigger] init[i]).len() > 0
            && !contains(lower_ascii(name), init[i]) by {
            assert(init[i] == seps[i]);
        }
        lemma_split_name(name, init);
        let sep = seps[seps.len() - 1];
        lemma_find(lower_ascii(name), sep);
        let one = seq![name];
        assert(one.drop_last() =~= Seq::<Seq<char>>::empty());
        assert(split_each(one.drop_last(), sep) =~= Seq::<Seq<char>>::empty());
        assert(split_apart(name, sep) == seq![name]);
        assert(split_each(one, sep) =~= seq![name]);
    }
}

/// Splitting a name again gives it alone, unless it begins or ends with a dash,
/// as in "- -a": every round takes off one layer of them.
pub proof fn law_splitting_a_name_gives_it_alone(input: Seq<char>, i: int)
    requires
        0 <= i < artist_names(input).len(),
        artist_names(input)[i].first() != '-',
        artist_names(input)[i].last() != '-',
    ensures
        artist_names(artist_names(input)[i]) == seq![artist_names(input)[i]],
{
    let name = artist_names(input)[i];
    law_names_hold_no_separator(input, i);
    lemma_separators();
    assert forall|k: int| 0 <= k < separators().len() implies !contains(
        lower_ascii(name),
        #[trigger] separators()[k],
    ) by {}
    lemma_split_name(name, separators());
    lemma_trimmed(name);
    assert(clean_name(name) == name);
    let one = seq![name];
    assert(one.drop_last() =~= Seq::<Seq<char>>::empty());
    assert(clean_names(one.drop_last()) =~= Seq::<Seq<char>>::empty());
    assert(clean_names(one) =~= seq![name]);
}

/// A field without dashes gives names that splitting leaves alone.
pub proof fn law_splitting_twice_changes_nothing(input: Seq<char>, i: int)
    requires
        !input.contains('-'),
        0 <= i < artist_names(input).len(),
    ensures
        artist_names(artist_names(input)[i]) == seq![artist_names(input)[i]],
{
    let name = artist_names(input)[i];
    law_names_hold_no_separator(input, i);
    let at = choose|at: int| occurs_at(input, name, at);
    assert(input.subrange(at, at + name.len())[0] == name[0]);
    assert(input.subrange(at, at + name.len())[name.len() - 1] == name[name.len() - 1]);
    law_splitting_a_name_gives_it_alone(input, i);
}

proof fn lemma_filler_add(a: Seq<char>, b: Seq<char>)
    requires
        is_filler(a),
        is_filler(b),
    ensures
        is_filler(a + b),
    decreases a.len(),
{
    if a.len() == 0 {
        assert(a + b =~= b);
    } else if (is_white_space(a[0]) || a[0] == '-') && is_filler(a.skip(1)) {
        lemma_filler_add(a.skip(1), b);
        assert((a + b).skip(1) =~= a.skip(1) + b);
    } else {
        let k = choose|k: int|
            0 <= k < separators().len() && separators()[k].len() > 0 && occurs_at(
                lower_ascii(a),
                #[trigger] separators()[k],
                0,
            ) && is_filler(a.skip(separators()[k].len() as int));
        let sep = separators()[k];
        let n = sep.len() as int;
        lemma_filler_add(a.skip(n), b);
        assert((a + b).skip(n) =~= a.skip(n) + b);
        assert(lower_ascii(a + b).subrange(0, n) =~= lower_ascii(a).subrange(0, n));
        assert(occurs_at(lower_ascii(a + b), separators()[k], 0));
    }
}

proof fn lemma_blank_is_filler(g: Seq<char>)
    requires
        is_blank(g),
    ensures
        is_filler(g),
    decreases g.len(),
{
    if g.len() > 0 {
        assert(is_white_space(g[0]) || g[0] == '-');
        assert forall|i: int| 0 <= i < g.skip(1).len() implies is_white_space(
            #[trigger] g.skip(1)[i],
        ) || g.skip(1)[i] == '-' by {
            assert(g.skip(1)[i] == g[i + 1]);
        }
        lemma_blank_is_filler(g.skip(1));
    }
}

proof fn lemma_woven_add(
    s: Seq<char>,
    front: Seq<Seq<char>>,
    t: Seq<char>,
    back: Seq<Seq<char>>,
)
    requires
        woven(s, front),
        woven(t, back),
    ensures
        woven(s + t, front + back),
    decreases back.len(),
{
    let whole = s + t;
    let names = front + back;
    if back.len() > 0 {
        let (a, b) = choose|a: int, b: int|
            #![trigger t.subrange(a, b)]
            0 <= a <= b <= t.len() && t.subrange(a, b) == back.last() && woven(
                t.take(a),
                back.drop_last(),
            ) && is_filler(t.skip(b));
        lemma_woven_add(s, front, t.take(a), back.drop_last());
        assert(whole.subrange(s.len() + a, s.len() + b) =~= t.subrange(a, b));
        assert(whole.take(s.len() + a) =~= s + t.take(a));
        assert(whole.skip(s.len() + b) =~= t.skip(b));
        assert(names.drop_last() =~= front + back.drop_last());
        assert(names.last() == back.last());
    } else if front.len() > 0 {
        let (a, b) = choose|a: int, b: int|
            #![trigger s.subrange(a, b)]
            0 <= a <= b <= s.len() && s.subrange(a, b) == front.last() && woven(
                s.take(a),
                front.drop_last(),
            ) && is_filler(s.skip(b));
        lemma_filler_add(s.skip(b), t);
        assert(whole.subrange(a, b) =~= s.subrange(a, b));
        assert(whole.take(a) =~= s.take(a));
        assert(whole.skip(b) =~= s.skip(b) + t);
        assert(names =~= front);
    } else {
        lemma_filler_add(s, t);
        assert(names =~= Seq::<Seq<char>>::empty());
    }
}

proof fn lemma_woven_one(s: Seq<char>)
    ensures
        woven(s, seq![s]),
{
    let one = seq![s];
    assert(s.subrange(0, s.len() as int) =~= s);
    assert(one.drop_last() =~= Seq::<Seq<char>>::empty());
    assert(s.take(0).len() == 0);
    assert(s.skip(s.len() as int).len() == 0);
    assert(woven(s.take(0), one.drop_last()));
}

proof fn lemma_separator_is_filler(g: Seq<char>, k: int)
    requires
        0 <= k < separators().len(),
        separators()[k].len() > 0,
        lower_ascii(g) == separators()[k],
    ensures
        is_filler(g),
{
    let n = separators()[k].len() as int;
    assert(lower_ascii(g).len() == g.len());
    assert(lower_ascii(g).subrange(0, n) =~= lower_ascii(g));
    assert(occurs_at(lower_ascii(g), separators()[k], 0));
    assert(g.skip(n).len() == 0);
    assert(is_filler(g.skip(n)));
}

/// A text cut in three, a name, a filler and more names.
proof fn lemma_woven_cut(
    head: Seq<char>,
    mid: Seq<char>,
    rest: Seq<char>,
    names: Seq<Seq<char>>,
)
    requires
        is_filler(mid),
        woven(rest, names),
    ensures
        woven(head + (mid + rest), seq![head] + names),
{
    let none = Seq::<Seq<char>>::empty();
    lemma_woven_one(head);
    assert(woven(mid, none));
    lemma_woven_add(mid, none, rest, names);
    assert(none + names =~= names);
    lemma_woven_add(head, seq![head], mid + rest, names);
}

proof fn lemma_woven_split(s: Seq<char>, k: int)
    requires
        0 <= k < separators().len(),
    ensures
        woven(s, split_apart(s, separators()[k])),
    decreases s.len(),
{
    lemma_separators();
    let sep = separators()[k];
    let low = lower_ascii(s);
    lemma_find(low, sep);
    lemma_find_from(low, sep, 0);
    match find(low, sep) {
        None => {
            lemma_woven_one(s);
        },
        Some(i) => {
            let n = sep.len() as int;
            let mid = s.subrange(i, i + n);
            let rest = s.skip(i + n);
            lemma_woven_split(rest, k);
            assert(lower_ascii(mid) =~= low.subrange(i, i + n));
            lemma_separator_is_filler(mid, k);
            lemma_woven_cut(s.take(i), mid, rest, split_apart(rest, sep));
            assert(s.take(i) + (mid + rest) =~= s);
        },
    }
}

/// Names that are woven into each part are woven into the whole.
proof fn lemma_woven_part(
    s: Seq<char>,
    parts: Seq<Seq<char>>,
    front: Seq<Seq<char>>,
    back: Seq<Seq<char>>,
    a: int,
    b: int,
)
    requires
        parts.len() > 0,
        0 <= a <= b <= s.len(),
        s.subrange(a, b) == parts.last(),
        is_filler(s.skip(b)),
        woven(s.take(a), front),
        woven(parts.last(), back),
    ensures
        woven(s, front + back),
{
    let none = Seq::<Seq<char>>::empty();
    assert(woven(s.skip(b), none));
    lemma_woven_add(s.take(a), front, parts.last(), back);
    lemma_woven_add(s.take(a) + parts.last(), front + back, s.skip(b), none);
    assert(s.take(a) + parts.last() + s.skip(b) =~= s);
    assert(front + back + none =~= front + back);
}

proof fn lemma_woven_split_each(s: Seq<char>, parts: Seq<Seq<char>>, k: int)
    requires
        0 <= k < separators().len(),
        woven(s, parts),
    ensures
        woven(s, split_each(parts, separators()[k])),
    decreases parts.len(),
{
    if parts.len() > 0 {
        let sep = separators()[k];
        let (a, b) = choose|a: int, b: int|
            #![trigger s.subrange(a, b)]
            0 <= a <= b <= s.len() && s.subrange(a, b) == parts.last() && woven(
                s.take(a),
                parts.drop_last(),
            ) && is_filler(s.skip(b));
        lemma_woven_split_each(s.take(a), parts.drop_last(), k);
        lemma_woven_split(parts.last(), k);
        lemma_woven_part(
            s,
            parts,
            split_each(parts.drop_last(), sep),
            split_apart(parts.last(), sep),
            a,
            b,
        );
    }
}

proof fn lemma_woven_split_by_all(s: Seq<char>, n: int)
    requires
        0 <= n <= separators().len(),
    ensures
        woven(s, split_by_all(seq![s], separators().take(n))),
    decreases n,
{
    let seps = separators().take(n);
    if n > 0 {
        lemma_woven_split_by_all(s, n - 1);
        assert(seps.drop_last() =~= separators().take(n - 1));
        assert(seps.last() == separators()[n - 1]);
        lemma_woven_split_each(s, split_by_all(seq![s], seps.drop_last()), n - 1);
    } else {
        lemma_woven_one(s);
    }
}

proof fn lemma_woven_clean(s: Seq<char>, parts: Seq<Seq<char>>)
    requires
        woven(s, parts),
    ensures
        woven(s, clean_names(parts)),
    decreases parts.len(),
{
    if parts.len() > 0 {
        let (a, b) = choose|a: int, b: int|
            #![trigger s.subrange(a, b)]
            0 <= a <= b <= s.len() && s.subrange(a, b) == parts.last() && woven(
                s.take(a),
                parts.drop_last(),
            ) && is_filler(s.skip(b));
        let part = parts.last();
        let name = clean_name(part);
        let front = clean_names(parts.drop_last());
        let none = Seq::<Seq<char>>::empty();
        lemma_woven_clean(s.take(a), parts.drop_last());
        let c = lemma_clean_name_core(part);
        let d = c + name.len();
        lemma_blank_is_filler(part.take(c));
        lemma_blank_is_filler(part.skip(d));
        if name.len() == 0 {
            lemma_filler_add(part.take(c), part.skip(d));
            assert(part.take(c) + part.skip(d) =~= part);
            assert(woven(part, none));
            lemma_woven_part(s, parts, front, none, a, b);
            assert(front + none =~= front);
        } else {
            let one = seq![name];
            assert(one.drop_last() =~= none);
            assert(part.subrange(c, d) == name);
            assert(woven(part.take(c), one.drop_last()));
            assert(woven(part, one));
            lemma_woven_part(s, parts, front, one, a, b);
            assert(front + one =~= front.push(name));
        }
    }
}

/// The names lie in the field in their order, apart, and nothing is left out but
/// separators, and the white space and dashes around the names.
pub proof fn law_only_separators_are_left_out(input: Seq<char>)
    ensures
        woven(input, artist_names(input)),
{
    let seps = separators();
    lemma_woven_split_by_all(input, seps.len() as int);
    assert(seps.take(seps.len() as int) =~= seps);
    lemma_woven_clean(input, split_by_all(seq![input], seps));
}

} // verus!
