//! What taking titles apart promises, over all titles.

use vstd::prelude::*;

use crate::normalize::{normalized, MixKind};
use crate::text::{
    contains, find, is_trimmed, is_white_space, join, lemma_find, lemma_find_from,
    lemma_rfind_below, lemma_trimmed, lower_ascii, occurs_at, rfind, strip_end, trimmed, words,
};
use crate::text_laws::{
    is_blank, is_word, law_joined_words_are_its_words, law_trimming_takes_the_white_space_around,
    lemma_found_at_the_end, lemma_joined_words_are_trimmed,
};
use crate::title::{
    artist_names, finished_base, first_cut, guest_clause, inline_markers, is_noise, names_version,
    opens_with, parsed_title, read_dash, read_segment, read_segments, remixer_before, remixer_name,
    scan, segments_of, version_of, with_kept, Draft, ParsedTitle, TitleView,
};

verus! {

/// Whether a word beside a remixer's name is a qualifier and no part of it.
pub open spec fn is_qualifier(w: Seq<char>) -> bool {
    w == "extended"@ || w == "club"@ || w == "dub"@ || w == "official"@ || w == "the"@ || w
        == "vocal"@ || w == "instrumental"@
}

/// Whether words can be somebody's name as they stand: none is a qualifier, and
/// the last is no dangling "s" of a possessive.
pub open spec fn is_name(ws: Seq<Seq<char>>) -> bool {
    &&& ws.len() > 0
    &&& forall|i: int| 0 <= i < ws.len() ==> is_word(#[trigger] ws[i]) && !is_qualifier(ws[i])
    &&& ws.len() > 1 ==> ws.last() != "s"@
}

proof fn lemma_filter_all(s: Seq<Seq<char>>, p: spec_fn(Seq<char>) -> bool)
    requires
        forall|i: int| 0 <= i < s.len() ==> p(#[trigger] s[i]),
    ensures
        s.filter(p) == s,
    decreases s.len(),
{
    reveal(Seq::filter);
    if s.len() > 0 {
        assert forall|i: int| 0 <= i < s.drop_last().len() implies p(#[trigger] s.drop_last()[i]) by {
            assert(s[i] == s.drop_last()[i]);
        }
        lemma_filter_all(s.drop_last(), p);
        assert(p(s[s.len() - 1]));
        assert(s.drop_last().push(s.last()) =~= s);
    } else {
        assert(s.filter(p) =~= s);
    }
}

proof fn lemma_filter_none(s: Seq<Seq<char>>, p: spec_fn(Seq<char>) -> bool)
    requires
        forall|i: int| 0 <= i < s.len() ==> !p(#[trigger] s[i]),
    ensures
        s.filter(p).len() == 0,
    decreases s.len(),
{
    reveal(Seq::filter);
    if s.len() > 0 {
        assert forall|i: int| 0 <= i < s.drop_last().len() implies !p(
            #[trigger] s.drop_last()[i],
        ) by {
            assert(s[i] == s.drop_last()[i]);
        }
        lemma_filter_none(s.drop_last(), p);
        assert(!p(s[s.len() - 1]));
    }
}

/// A remixer is named as they are written: words that are a name name it.
pub proof fn law_remixer_is_named_in_full(ws: Seq<Seq<char>>)
    requires
        is_name(ws),
    ensures
        remixer_name(join(ws, " "@)) == Some(join(ws, " "@)),
{
    assert forall|i: int| 0 <= i < ws.len() implies is_word(#[trigger] ws[i]) by {}
    law_joined_words_are_its_words(ws);
    lemma_joined_words_are_trimmed(ws);
    lemma_filter_all(ws, |w: Seq<char>| !is_noise(w));
    lemma_trimmed(join(ws, " "@));
}

/// A qualifier beside a name, wherever it stands, is no part of it.
pub proof fn law_qualifiers_are_no_part_of_a_name(
    before: Seq<Seq<char>>,
    qualifier: Seq<char>,
    after: Seq<Seq<char>>,
)
    requires
        is_qualifier(qualifier),
        forall|i: int| 0 <= i < before.len() ==> is_word(#[trigger] before[i]),
        forall|i: int| 0 <= i < after.len() ==> is_word(#[trigger] after[i]),
    ensures
        remixer_name(join(before + seq![qualifier] + after, " "@)) == remixer_name(
            join(before + after, " "@),
        ),
{
    lemma_qualifier_is_word(qualifier);
    let with = before + seq![qualifier] + after;
    let without = before + after;
    assert forall|i: int| 0 <= i < with.len() implies is_word(#[trigger] with[i]) by {
        if i < before.len() {
            assert(with[i] == before[i]);
        } else if i > before.len() {
            assert(with[i] == after[i - before.len() - 1]);
        }
    }
    assert forall|i: int| 0 <= i < without.len() implies is_word(#[trigger] without[i]) by {
        if i < before.len() {
            assert(without[i] == before[i]);
        } else {
            assert(without[i] == after[i - before.len()]);
        }
    }
    law_joined_words_are_its_words(with);
    law_joined_words_are_its_words(without);
    let p = |w: Seq<char>| !is_noise(w);
    Seq::filter_distributes_over_add(before + seq![qualifier], after, p);
    Seq::filter_distributes_over_add(before, seq![qualifier], p);
    Seq::filter_distributes_over_add(before, after, p);
    lemma_filter_none(seq![qualifier], p);
    assert(seq![qualifier].filter(p) =~= Seq::<Seq<char>>::empty());
    assert(before.filter(p) + seq![qualifier].filter(p) =~= before.filter(p));
}

proof fn lemma_qualifier_is_word(w: Seq<char>)
    requires
        is_qualifier(w),
    ensures
        is_word(w),
{
    reveal_strlit("extended");
    reveal_strlit("club");
    reveal_strlit("dub");
    reveal_strlit("official");
    reveal_strlit("the");
    reveal_strlit("vocal");
    reveal_strlit("instrumental");
}

/// The "s" that a possessive leaves behind is no part of the name.
pub proof fn law_possessive_is_no_part_of_a_name(ws: Seq<Seq<char>>)
    requires
        is_name(ws),
        ws.last() != "s"@,
    ensures
        remixer_name(join(ws.push("s"@), " "@)) == Some(join(ws, " "@)),
{
    reveal_strlit("s");
    reveal_strlit("extended");
    reveal_strlit("club");
    reveal_strlit("dub");
    reveal_strlit("official");
    reveal_strlit("the");
    reveal_strlit("vocal");
    reveal_strlit("instrumental");
    let all = ws.push("s"@);
    assert("s"@.len() == 1);
    assert(is_word("s"@)) by {
        assert("s"@[0] == 's');
    }
    assert forall|i: int| 0 <= i < all.len() implies is_word(#[trigger] all[i]) && !is_noise(all[i]) by {
        if i < ws.len() {
            assert(all[i] == ws[i]);
        } else {
            assert("extended"@.len() == 8 && "club"@.len() == 4 && "dub"@.len() == 3
                && "official"@.len() == 8 && "the"@.len() == 3 && "vocal"@.len() == 5
                && "instrumental"@.len() == 12);
        }
    }
    law_joined_words_are_its_words(all);
    lemma_filter_all(all, |w: Seq<char>| !is_noise(w));
    assert(all.drop_last() =~= ws);
    lemma_joined_words_are_trimmed(ws);
    lemma_trimmed(join(ws, " "@));
}

/// Qualifiers alone name nobody.
pub proof fn law_qualifiers_alone_name_nobody(ws: Seq<Seq<char>>)
    requires
        forall|i: int| 0 <= i < ws.len() ==> is_qualifier(#[trigger] ws[i]),
    ensures
        remixer_name(join(ws, " "@)) is None,
{
    assert forall|i: int| 0 <= i < ws.len() implies is_word(#[trigger] ws[i]) by {
        lemma_qualifier_is_word(ws[i]);
    }
    law_joined_words_are_its_words(ws);
    lemma_filter_none(ws, |w: Seq<char>| !is_noise(w));
    lemma_trimmed(Seq::<char>::empty());
}

/// The words that name a version, those that count for more before those that
/// count for less.
pub open spec fn version_words() -> Seq<Seq<char>> {
    seq![
        "remix"@,
        "rmx"@,
        "remake"@,
        "rework"@,
        "refix"@,
        "bootleg"@,
        "mashup"@,
        "flip"@,
        "radio"@,
        "short edit"@,
        "vip"@,
        "extended"@,
        "instrumental"@,
        "acapella"@,
        "a cappella"@,
        "dub"@,
        "club"@,
        "original"@,
        "edit"@,
    ]
}

/// Whether a normal form holds any of the words from one rank to another.
pub open spec fn mentions_any(n: Seq<char>, from: int, to: int) -> bool {
    exists|k: int| from <= k < to && contains(n, #[trigger] version_words()[k])
}

proof fn lemma_mentions_all(n: Seq<char>)
    ensures
        mentions_any(n, 0, 2) <==> contains(n, "remix"@) || contains(n, "rmx"@),
        mentions_any(n, 0, 5) <==> mentions_any(n, 0, 2) || contains(n, "remake"@) || contains(
            n,
            "rework"@,
        ) || contains(n, "refix"@),
        mentions_any(n, 0, 8) <==> mentions_any(n, 0, 5) || contains(n, "bootleg"@) || contains(
            n,
            "mashup"@,
        ) || contains(n, "flip"@),
        mentions_any(n, 0, 10) <==> mentions_any(n, 0, 8) || contains(n, "radio"@) || contains(
            n,
            "short edit"@,
        ),
        mentions_any(n, 0, 11) <==> mentions_any(n, 0, 10) || contains(n, "vip"@),
        mentions_any(n, 0, 12) <==> mentions_any(n, 0, 11) || contains(n, "extended"@),
        mentions_any(n, 0, 13) <==> mentions_any(n, 0, 12) || contains(n, "instrumental"@),
        mentions_any(n, 0, 15) <==> mentions_any(n, 0, 13) || contains(n, "acapella"@) || contains(
            n,
            "a cappella"@,
        ),
        mentions_any(n, 0, 16) <==> mentions_any(n, 0, 15) || contains(n, "dub"@),
        mentions_any(n, 0, 17) <==> mentions_any(n, 0, 16) || contains(n, "club"@),
        mentions_any(n, 0, 18) <==> mentions_any(n, 0, 17) || contains(n, "original"@),
        mentions_any(n, 0, 19) <==> mentions_any(n, 0, 18) || contains(n, "edit"@),
{
    lemma_mentions_upto(n, 2);
    lemma_mentions_upto(n, 1);
    lemma_mentions_upto(n, 3);
    lemma_mentions_upto(n, 4);
    lemma_mentions_upto(n, 5);
    lemma_mentions_upto(n, 6);
    lemma_mentions_upto(n, 7);
    lemma_mentions_upto(n, 8);
    lemma_mentions_upto(n, 9);
    lemma_mentions_upto(n, 10);
    lemma_mentions_upto(n, 11);
    lemma_mentions_upto(n, 12);
    lemma_mentions_upto(n, 13);
    lemma_mentions_upto(n, 14);
    lemma_mentions_upto(n, 15);
    lemma_mentions_upto(n, 16);
    lemma_mentions_upto(n, 17);
    lemma_mentions_upto(n, 18);
    lemma_mentions_upto(n, 19);
}

proof fn lemma_mentions_upto(n: Seq<char>, to: int)
    requires
        0 < to <= version_words().len(),
    ensures
        mentions_any(n, 0, to) <==> mentions_any(n, 0, to - 1) || contains(
            n,
            version_words()[to - 1],
        ),
        !mentions_any(n, 0, 0),
{
    if mentions_any(n, 0, to) {
        let k = choose|k: int| 0 <= k < to && contains(n, #[trigger] version_words()[k]);
        if k < to - 1 {
            assert(contains(n, version_words()[k]));
        }
    }
    if mentions_any(n, 0, to - 1) {
        let k = choose|k: int| 0 <= k < to - 1 && contains(n, #[trigger] version_words()[k]);
        assert(contains(n, version_words()[k]));
    }
}

/// The kind of version that a segment names is settled by the words in it, and
/// by nothing else. A remix is one whatever else is said; a rework unless it is a
/// remix; a bootleg, a mashup or a flip is an edit unless it is one of those; a
/// radio version only where it says radio or short edit; and a plain edit is one
/// only where nothing else is said. A segment without any of the words names no
/// version, unless it is "mix" or "version" alone.
pub proof fn law_kind_is_in_the_words(n: Seq<char>)
    ensures
        ({
            let v = version_of(n);
            let kind = (v->0).0;
            let bare = n == "mix"@ || n == "version"@;
            &&& v is Some <==> mentions_any(n, 0, 19) || bare
            &&& v is Some ==> {
                &&& kind is Remix <==> mentions_any(n, 0, 2)
                &&& kind is Rework <==> !mentions_any(n, 0, 2) && mentions_any(n, 0, 5)
                &&& kind is Edit <==> !mentions_any(n, 0, 5) && mentions_any(n, 0, 8) || (
                !mentions_any(n, 0, 18) && contains(n, "edit"@))
                &&& kind is Radio <==> !mentions_any(n, 0, 8) && (contains(n, "radio"@) || contains(
                    n,
                    "short edit"@,
                ))
                &&& kind is Vip <==> !mentions_any(n, 0, 10) && contains(n, "vip"@)
                &&& kind is Extended <==> !mentions_any(n, 0, 11) && contains(n, "extended"@)
                &&& kind is Instrumental <==> !mentions_any(n, 0, 12) && contains(
                    n,
                    "instrumental"@,
                )
                &&& kind is Acapella <==> !mentions_any(n, 0, 13) && (contains(n, "acapella"@)
                    || contains(n, "a cappella"@))
                &&& kind is Dub <==> !mentions_any(n, 0, 15) && contains(n, "dub"@)
                &&& kind is Club <==> !mentions_any(n, 0, 16) && contains(n, "club"@)
                &&& kind is Original <==> !mentions_any(n, 0, 17) && contains(n, "original"@) || (
                !mentions_any(n, 0, 19) && bare)
                &&& !(kind is Unlabelled)
            }
        }),
{
    lemma_mentions_all(n);
    if n.len() == 0 {
        lemma_nothing_in_nothing(n);
    }
}

proof fn lemma_nothing_in_nothing(n: Seq<char>)
    requires
        n.len() == 0,
    ensures
        !mentions_any(n, 0, 19),
        n != "mix"@,
        n != "version"@,
{
    reveal_strlit("remix");
    reveal_strlit("rmx");
    reveal_strlit("remake");
    reveal_strlit("rework");
    reveal_strlit("refix");
    reveal_strlit("bootleg");
    reveal_strlit("mashup");
    reveal_strlit("flip");
    reveal_strlit("radio");
    reveal_strlit("short edit");
    reveal_strlit("vip");
    reveal_strlit("extended");
    reveal_strlit("instrumental");
    reveal_strlit("acapella");
    reveal_strlit("a cappella");
    reveal_strlit("dub");
    reveal_strlit("club");
    reveal_strlit("original");
    reveal_strlit("edit");
    reveal_strlit("mix");
    reveal_strlit("version");
    assert("mix"@.len() == 3 && "version"@.len() == 7);
    assert forall|k: int| 0 <= k < 19 implies !contains(n, #[trigger] version_words()[k]) by {
        assert(version_words()[k].len() > 0);
    }
}

/// Only someone else's cut names its maker.
pub proof fn law_only_derivatives_name_a_maker(n: Seq<char>)
    ensures
        version_of(n) matches Some((kind, maker)) ==> maker is Some ==> kind is Remix
            || kind is Rework || kind is Edit || kind is Vip,
{
}

/// The kind of the version that somebody makes, by the word behind the name.
pub open spec fn made_kind(word: Seq<char>) -> Option<MixKind> {
    if word == "remix"@ || word == "rmx"@ {
        Some(MixKind::Remix)
    } else if word == "remake"@ || word == "rework"@ || word == "refix"@ {
        Some(MixKind::Rework)
    } else if word == "bootleg"@ || word == "mashup"@ || word == "flip"@ || word == "edit"@ {
        Some(MixKind::Edit)
    } else if word == "vip"@ {
        Some(MixKind::Vip)
    } else {
        None
    }
}

proof fn lemma_made_word(word: Seq<char>)
    requires
        made_kind(word) is Some,
    ensures
        word.len() > 0,
        !word.contains(' '),
        is_word(word),
{
    reveal_strlit("remix");
    reveal_strlit("rmx");
    reveal_strlit("remake");
    reveal_strlit("rework");
    reveal_strlit("refix");
    reveal_strlit("bootleg");
    reveal_strlit("mashup");
    reveal_strlit("flip");
    reveal_strlit("edit");
    reveal_strlit("vip");
}

/// Whoever is named before such a word made the version, and what stands before
/// the word is all that names them: "dave lee edit" is an edit by "dave lee", and
/// so for every name and each of the words, as long as no other word that names
/// a version is there.
pub proof fn law_version_names_its_maker(ws: Seq<Seq<char>>, word: Seq<char>)
    requires
        is_name(ws),
        made_kind(word) is Some,
        forall|k: int|
            0 <= k < version_words().len() && version_words()[k] != word ==> !contains(
                join(ws, " "@) + " "@ + word,
                #[trigger] version_words()[k],
            ),
        !contains(join(ws, " "@), word),
    ensures
        version_of(join(ws, " "@) + " "@ + word) == Some(
            (made_kind(word)->0, Some(join(ws, " "@))),
        ),
{
    let name = join(ws, " "@);
    let n = name + " "@ + word;
    lemma_made_word(word);
    lemma_maker_before(ws, word);
    let at = name.len() as int + 1;
    reveal_strlit(" ");
    assert(n.subrange(at, at + word.len()) =~= word);
    assert(occurs_at(n, word, at));
    assert(contains(n, word));
    lemma_words_differ();
    let v = version_words();
    assert(v[0] == "remix"@ && v[1] == "rmx"@ && v[2] == "remake"@ && v[3] == "rework"@ && v[4]
        == "refix"@ && v[5] == "bootleg"@ && v[6] == "mashup"@ && v[7] == "flip"@ && v[8]
        == "radio"@ && v[9] == "short edit"@ && v[10] == "vip"@ && v[11] == "extended"@ && v[12]
        == "instrumental"@ && v[13] == "acapella"@ && v[14] == "a cappella"@ && v[15] == "dub"@
        && v[16] == "club"@ && v[17] == "original"@ && v[18] == "edit"@);
    assert(n.len() > 0);
}

/// The words that name a version all differ.
proof fn lemma_words_differ()
    ensures
        forall|j: int, k: int|
            0 <= j < k < version_words().len() ==> #[trigger] version_words()[j]
                != #[trigger] version_words()[k],
{
    reveal_strlit("remix");
    reveal_strlit("rmx");
    reveal_strlit("remake");
    reveal_strlit("rework");
    reveal_strlit("refix");
    reveal_strlit("bootleg");
    reveal_strlit("mashup");
    reveal_strlit("flip");
    reveal_strlit("radio");
    reveal_strlit("short edit");
    reveal_strlit("vip");
    reveal_strlit("extended");
    reveal_strlit("instrumental");
    reveal_strlit("acapella");
    reveal_strlit("a cappella");
    reveal_strlit("dub");
    reveal_strlit("club");
    reveal_strlit("original");
    reveal_strlit("edit");
    let v = version_words();
    // By their lengths, and where these agree by one letter.
    assert(v[0][0] == 'r' && v[0][2] == 'm' && v[0][3] == 'i' && v[0].len() == 5);
    assert(v[1][0] == 'r' && v[1].len() == 3);
    assert(v[2][2] == 'm' && v[2].len() == 6);
    assert(v[3][2] == 'w' && v[3].len() == 6);
    assert(v[4][2] == 'f' && v[4].len() == 5);
    assert(v[5].len() == 7);
    assert(v[6][0] == 'm' && v[6].len() == 6);
    assert(v[7][0] == 'f' && v[7].len() == 4);
    assert(v[8][1] == 'a' && v[8].len() == 5);
    assert(v[0][1] == 'e' && v[4][1] == 'e');
    assert(v[9][0] == 's' && v[9].len() == 10);
    assert(v[10][0] == 'v' && v[10].len() == 3);
    assert(v[11][0] == 'e' && v[11].len() == 8);
    assert(v[12].len() == 12);
    assert(v[13][0] == 'a' && v[13].len() == 8);
    assert(v[14][0] == 'a' && v[14].len() == 10);
    assert(v[15][0] == 'd' && v[15].len() == 3);
    assert(v[16][0] == 'c' && v[16].len() == 4);
    assert(v[17][0] == 'o' && v[17].len() == 8);
    assert(v[18][0] == 'e' && v[18].len() == 4);
}

proof fn lemma_maker_before(ws: Seq<Seq<char>>, word: Seq<char>)
    requires
        is_name(ws),
        word.len() > 0,
        !word.contains(' '),
        !contains(join(ws, " "@), word),
    ensures
        remixer_before(join(ws, " "@) + " "@ + word, word) == Some(join(ws, " "@)),
{
    reveal_strlit(" ");
    let name = join(ws, " "@);
    let n = name + " "@ + word;
    lemma_found_at_the_end(name, word);
    assert forall|i: int| 0 <= i < ws.len() implies is_word(#[trigger] ws[i]) by {}
    lemma_joined_words_are_trimmed(ws);
    let empty = Seq::<char>::empty();
    assert(is_blank(empty));
    assert(is_blank(" "@)) by {
        assert(" "@[0] == ' ');
    }
    assert(n.take(name.len() as int + 1) =~= empty + name + " "@);
    law_trimming_takes_the_white_space_around(empty, name, " "@);
    law_remixer_is_named_in_full(ws);
}

/// The maker of a version stands before the word that names it, wherever that is:
/// nothing behind the first such word plays a part.
pub proof fn law_maker_stands_before_the_word(n: Seq<char>, m: Seq<char>, word: Seq<char>, i: int)
    requires
        made_kind(word) is Some,
        occurs_at(n, word, i),
        occurs_at(m, word, i),
        n.take(i) == m.take(i),
        forall|j: int| 0 <= j < i ==> !occurs_at(n, word, j) && !occurs_at(m, word, j),
    ensures
        remixer_before(n, word) == remixer_before(m, word),
        remixer_before(n, word) == remixer_name(trimmed(n.take(i))),
{
    lemma_find_from(n, word, 0);
    lemma_find_from(m, word, 0);
}

/// Of the words that name a version the one that counts most decides, and who
/// stands before the first such word made it: "dave lee extended remix" is a remix
/// by "dave lee".
pub proof fn law_foremost_word_decides(n: Seq<char>, rank: int, i: int)
    requires
        0 <= rank < version_words().len(),
        made_kind(version_words()[rank]) is Some,
        occurs_at(n, version_words()[rank], i),
        forall|j: int| 0 <= j < i ==> !occurs_at(n, version_words()[rank], j),
        forall|k: int| 0 <= k < rank ==> !contains(n, #[trigger] version_words()[k]),
    ensures
        version_of(n) == Some(
            (made_kind(version_words()[rank])->0, remixer_name(trimmed(n.take(i)))),
        ),
{
    let word = version_words()[rank];
    lemma_made_word(word);
    lemma_find_from(n, word, 0);
    assert(contains(n, word));
    lemma_words_differ();
    let v = version_words();
    assert(v[0] == "remix"@ && v[1] == "rmx"@ && v[2] == "remake"@ && v[3] == "rework"@ && v[4]
        == "refix"@ && v[5] == "bootleg"@ && v[6] == "mashup"@ && v[7] == "flip"@ && v[8]
        == "radio"@ && v[9] == "short edit"@ && v[10] == "vip"@ && v[11] == "extended"@ && v[12]
        == "instrumental"@ && v[13] == "acapella"@ && v[14] == "a cappella"@ && v[15] == "dub"@
        && v[16] == "club"@ && v[17] == "original"@ && v[18] == "edit"@);
    assert(n.len() > 0);
}

/// Whether a text holds no bracket.
pub open spec fn has_no_brackets(s: Seq<char>) -> bool {
    forall|i: int|
        0 <= i < s.len() ==> #[trigger] s[i] != '(' && s[i] != '[' && s[i] != ')' && s[i] != ']'
}

proof fn lemma_scan_on(s: Seq<char>, more: Seq<char>)
    requires
        has_no_brackets(more),
    ensures
        scan(s + more).segments == scan(s).segments,
        scan(s + more).depth == scan(s).depth,
        scan(s).depth == 0 ==> scan(s + more).remainder == scan(s).remainder + more && scan(
            s + more,
        ).current == scan(s).current,
        scan(s).depth > 0 ==> scan(s + more).remainder == scan(s).remainder && scan(
            s + more,
        ).current == scan(s).current + more,
    decreases more.len(),
{
    if more.len() == 0 {
        assert(s + more =~= s);
        assert(scan(s).remainder + more =~= scan(s).remainder);
        assert(scan(s).current + more =~= scan(s).current);
    } else {
        let init = more.drop_last();
        assert forall|i: int| 0 <= i < init.len() implies #[trigger] init[i] != '(' && init[i] != '['
            && init[i] != ')' && init[i] != ']' by {
            assert(init[i] == more[i]);
        }
        lemma_scan_on(s, init);
        assert((s + more).drop_last() =~= s + init);
        assert(more[more.len() - 1] == more.last());
        assert(scan(s).remainder + more =~= (scan(s).remainder + init).push(more.last()));
        assert(scan(s).current + more =~= (scan(s).current + init).push(more.last()));
    }
}

proof fn lemma_scan_plain(s: Seq<char>)
    requires
        has_no_brackets(s),
    ensures
        scan(s).segments.len() == 0,
        scan(s).depth == 0,
        scan(s).remainder == s,
        segments_of(s) == Seq::<Seq<char>>::empty(),
{
    let empty = Seq::<char>::empty();
    lemma_scan_on(empty, s);
    assert(empty + s =~= s);
    assert(scan(empty).remainder + s =~= s);
    assert(segments_of(s) =~= Seq::<Seq<char>>::empty());
}

/// A name, a space, and one segment in brackets.
pub open spec fn bracketed(name: Seq<char>, open: char, segment: Seq<char>, close: char) -> Seq<char> {
    name + " "@ + seq![open] + segment + seq![close]
}

proof fn lemma_scan_bracketed(name: Seq<char>, open: char, segment: Seq<char>, close: char)
    requires
        has_no_brackets(name),
        has_no_brackets(segment),
        is_trimmed(segment),
        open == '(' || open == '[',
        close == ')' || close == ']',
    ensures
        segments_of(bracketed(name, open, segment, close)) == seq![segment],
        scan(bracketed(name, open, segment, close)).remainder == name + " "@,
{
    reveal_strlit(" ");
    let spaced = name + " "@;
    assert forall|i: int| 0 <= i < spaced.len() implies #[trigger] spaced[i] != '(' && spaced[i]
        != '[' && spaced[i] != ')' && spaced[i] != ']' by {
        if i < name.len() {
            assert(spaced[i] == name[i]);
        }
    }
    lemma_scan_plain(spaced);
    let opened = spaced + seq![open];
    assert(opened.drop_last() =~= spaced);
    assert(scan(opened).depth == 1);
    let inside = opened + segment;
    lemma_scan_on(opened, segment);
    assert(scan(inside).current =~= segment);
    let raw = bracketed(name, open, segment, close);
    assert(raw.drop_last() =~= inside);
    lemma_trimmed(segment);
    assert(scan(raw).segments =~= seq![segment]);
}

/// Whether a text is a name of a song and nothing more: it holds no bracket, no
/// dash that sets a part off, and no guest, and neither starts nor ends with
/// white space, nor ends with a dash.
pub open spec fn is_song_name(s: Seq<char>) -> bool {
    is_plain_part(s) && !contains(s, " - "@)
}

/// Whether a text can be the part of a title outside its brackets: it holds no
/// bracket and no guest, and neither starts nor ends with white space, nor ends
/// with a dash.
pub open spec fn is_plain_part(s: Seq<char>) -> bool {
    &&& s.len() > 0
    &&& is_trimmed(s)
    &&& s.last() != '-'
    &&& has_no_brackets(s)
    &&& !contains(lower_ascii(s), " feat. "@)
    &&& !contains(lower_ascii(s), " feat "@)
    &&& !contains(lower_ascii(s), " ft. "@)
    &&& !contains(lower_ascii(s), " ft "@)
    &&& !contains(lower_ascii(s), " featuring "@)
}

proof fn lemma_no_cut(s: Seq<char>)
    requires
        !contains(lower_ascii(s), " feat. "@),
        !contains(lower_ascii(s), " feat "@),
        !contains(lower_ascii(s), " ft. "@),
        !contains(lower_ascii(s), " ft "@),
        !contains(lower_ascii(s), " featuring "@),
    ensures
        first_cut(s, inline_markers()) is None,
{
    let m = inline_markers();
    let low = lower_ascii(s);
    lemma_find(low, " feat. "@);
    lemma_find(low, " feat "@);
    lemma_find(low, " ft. "@);
    lemma_find(low, " ft "@);
    lemma_find(low, " featuring "@);
    let m1 = m.drop_first();
    let m2 = m1.drop_first();
    let m3 = m2.drop_first();
    let m4 = m3.drop_first();
    assert(m.first() == " feat. "@);
    assert(m1.first() == " feat "@);
    assert(m2.first() == " ft. "@);
    assert(m3.first() == " ft "@);
    assert(m4.first() == " featuring "@);
    assert(m4.drop_first().len() == 0);
    assert(first_cut(s, m4.drop_first()) is None);
    assert(first_cut(s, m4) is None);
    assert(first_cut(s, m3) is None);
    assert(first_cut(s, m2) is None);
    assert(first_cut(s, m1) is None);
}

proof fn lemma_no_dash(s: Seq<char>)
    requires
        !contains(s, " - "@),
    ensures
        rfind(s, " - "@) is None,
{
    lemma_rfind_below(s, " - "@, s.len() as int + 1);
    if rfind(s, " - "@) is Some {
        assert(occurs_at(s, " - "@, rfind(s, " - "@)->0));
    }
}

proof fn lemma_finished(s: Seq<char>, raw: Seq<char>)
    requires
        s.len() > 0,
        is_trimmed(s),
        s.last() != '-',
    ensures
        finished_base(s, raw) == s,
{
    lemma_trimmed(s);
    assert(strip_end(s, '-') == s);
}

proof fn lemma_trim_space(s: Seq<char>)
    requires
        is_trimmed(s),
    ensures
        trimmed(s + " "@) == s,
{
    reveal_strlit(" ");
    let empty = Seq::<char>::empty();
    assert(is_blank(empty));
    assert(is_blank(" "@)) by {
        assert(" "@[0] == ' ');
    }
    law_trimming_takes_the_white_space_around(empty, s, " "@);
    assert(empty + s + " "@ =~= s + " "@);
}

/// The name of a song is its own base title: nothing is taken from it, and it
/// names no version, no remixer and no guest.
pub proof fn law_song_name_is_its_own_base(name: Seq<char>)
    requires
        is_song_name(name),
    ensures
        ({
            let p = parsed_title(name);
            &&& p.base == name
            &&& p.kind is Unlabelled
            &&& p.remixer is None
            &&& p.mix_raw is None
            &&& p.featured.len() == 0
        }),
{
    reveal(parsed_title);
    lemma_scan_plain(name);
    lemma_trimmed(name);
    lemma_no_dash(name);
    lemma_no_cut(name);
    lemma_finished(name, name);
}

/// A version in brackets behind the name of a song becomes the version of the
/// title, as it is written, and leaves its name alone, dashes in it included.
pub proof fn law_bracketed_version_is_split_off(
    name: Seq<char>,
    open: char,
    segment: Seq<char>,
    close: char,
)
    requires
        is_plain_part(name),
        open == '(' || open == '[',
        close == ')' || close == ']',
        has_no_brackets(segment),
        is_trimmed(segment),
        guest_clause(segment) is None,
        version_of(normalized(segment)) is Some,
    ensures
        ({
            let p = parsed_title(bracketed(name, open, segment, close));
            let v = version_of(normalized(segment))->0;
            &&& p.base == name
            &&& p.kind == v.0
            &&& p.remixer == v.1
            &&& p.mix_raw == Some(segment)
            &&& p.featured.len() == 0
        }),
{
    reveal(parsed_title);
    let raw = bracketed(name, open, segment, close);
    lemma_scan_bracketed(name, open, segment, close);
    lemma_trim_space(name);
    assert(seq![segment].drop_last() =~= Seq::<Seq<char>>::empty());
    assert(read_segments(seq![segment]) == read_segment(
        read_segments(Seq::empty()),
        segment,
    ));
    crate::title::law_named_version_is_one(normalized(segment));
    lemma_no_cut(name);
    lemma_finished(name, raw);
}

/// Guests in brackets behind the name of a song are credited, and leave its name
/// alone.
pub proof fn law_bracketed_guests_are_split_off(
    name: Seq<char>,
    open: char,
    segment: Seq<char>,
    close: char,
)
    requires
        is_song_name(name),
        open == '(' || open == '[',
        close == ')' || close == ']',
        has_no_brackets(segment),
        is_trimmed(segment),
        guest_clause(segment) is Some,
    ensures
        ({
            let p = parsed_title(bracketed(name, open, segment, close));
            &&& p.base == name
            &&& p.kind is Unlabelled
            &&& p.remixer is None
            &&& p.mix_raw is None
            &&& p.featured == artist_names(guest_clause(segment)->0)
        }),
{
    reveal(parsed_title);
    let raw = bracketed(name, open, segment, close);
    lemma_scan_bracketed(name, open, segment, close);
    lemma_trim_space(name);
    assert(seq![segment].drop_last() =~= Seq::<Seq<char>>::empty());
    assert(read_segments(seq![segment]) == read_segment(
        read_segments(Seq::empty()),
        segment,
    ));
    let names = artist_names(guest_clause(segment)->0);
    assert(Seq::<Seq<char>>::empty() + names =~= names);
    lemma_no_dash(name);
    lemma_no_cut(name);
    lemma_finished(name, raw);
}

/// Anything else in brackets behind the name of a song is part of the name.
pub proof fn law_other_brackets_are_part_of_the_name(
    name: Seq<char>,
    open: char,
    segment: Seq<char>,
    close: char,
)
    requires
        is_song_name(name),
        open == '(' || open == '[',
        close == ')' || close == ']',
        has_no_brackets(segment),
        is_trimmed(segment),
        guest_clause(segment) is None,
        version_of(normalized(segment)) is None,
    ensures
        ({
            let p = parsed_title(bracketed(name, open, segment, close));
            &&& p.base == name + " ("@ + segment + ")"@
            &&& p.kind is Unlabelled
            &&& p.remixer is None
            &&& p.mix_raw is None
            &&& p.featured.len() == 0
        }),
{
    reveal(parsed_title);
    reveal_strlit(" (");
    reveal_strlit(")");
    let raw = bracketed(name, open, segment, close);
    lemma_scan_bracketed(name, open, segment, close);
    lemma_trim_space(name);
    assert(seq![segment].drop_last() =~= Seq::<Seq<char>>::empty());
    assert(read_segments(seq![segment]) == read_segment(
        read_segments(Seq::empty()),
        segment,
    ));
    let kept = Seq::<Seq<char>>::empty().push(segment);
    assert(kept.drop_last() =~= Seq::<Seq<char>>::empty());
    lemma_no_dash(name);
    lemma_no_cut(name);
    let base = name + " ("@ + segment + ")"@;
    assert(with_kept(name, Seq::<Seq<char>>::empty()) == name);
    assert(with_kept(name, kept) == with_kept(name, kept.drop_last()) + " ("@ + kept.last()
        + ")"@);
    assert(base[0] == name[0]);
    assert(base.last() == ')');
    lemma_finished(base, raw);
}

#[verifier::spinoff_prover]
proof fn lemma_last_dash(name: Seq<char>, tail: Seq<char>)
    requires
        !contains(" "@ + tail, " - "@),
    ensures
        rfind(name + " - "@ + tail, " - "@) == Some(name.len() as int),
{
    reveal_strlit(" - ");
    reveal_strlit(" ");
    let dash = " - "@;
    let raw = name + dash + tail;
    let at = name.len() as int;
    lemma_rfind_below(raw, dash, raw.len() as int + 1);
    assert(raw.subrange(at, at + 3) =~= dash);
    assert(occurs_at(raw, dash, at));
    let i = rfind(raw, dash)->0;
    if i > at {
        let found = raw.subrange(i, i + 3);
        assert(found[0] == raw[i] && found[1] == raw[i + 1] && found[2] == raw[i + 2]);
        assert(raw[at + 1] == '-');
        assert(i >= at + 2);
        let spaced = " "@ + tail;
        let k = i - at - 2;
        assert(spaced[k] == raw[i] && spaced[k + 1] == raw[i + 1] && spaced[k + 2] == raw[i + 2]);
        assert(spaced.subrange(k, k + 3) =~= dash);
        assert(occurs_at(spaced, dash, k));
    }
}

/// A version behind a dash, with no brackets, becomes the version of the title,
/// as it is written, and leaves the name alone.
pub proof fn law_dashed_version_is_split_off(name: Seq<char>, tail: Seq<char>)
    requires
        is_song_name(name),
        has_no_brackets(tail),
        is_trimmed(tail),
        tail.len() > 0,
        !contains(" "@ + tail, " - "@),
        version_of(normalized(tail)) is Some,
    ensures
        ({
            let p = parsed_title(name + " - "@ + tail);
            let v = version_of(normalized(tail))->0;
            &&& p.base == name
            &&& p.kind == v.0
            &&& p.remixer == v.1
            &&& p.mix_raw == Some(tail)
            &&& p.featured.len() == 0
        }),
{
    reveal(parsed_title);
    reveal_strlit(" - ");
    reveal_strlit(" ");
    let dash = " - "@;
    let raw = name + dash + tail;
    assert forall|i: int| 0 <= i < raw.len() implies #[trigger] raw[i] != '(' && raw[i] != '['
        && raw[i] != ')' && raw[i] != ']' by {
        if i < name.len() {
            assert(raw[i] == name[i]);
        } else if i >= name.len() + 3 {
            assert(raw[i] == tail[i - name.len() - 3]);
        }
    }
    lemma_scan_plain(raw);
    assert(raw.first() == name.first());
    assert(raw.last() == tail.last());
    lemma_trimmed(raw);
    let at = name.len() as int;
    lemma_last_dash(name, tail);
    assert(raw.skip(at + 3) =~= tail);
    assert(raw.take(at) =~= name);
    lemma_trimmed(tail);
    lemma_trimmed(name);
    lemma_no_cut(name);
    lemma_finished(name, raw);
}

/// Guests that a title names behind its song, without brackets, are credited and
/// leave it: everything before the marker is the song, everything behind it the
/// guests.
pub proof fn law_inline_guests_are_split_off(raw: Seq<char>, rank: int, i: int)
    requires
        0 <= rank < inline_words().len(),
        has_no_brackets(raw),
        is_trimmed(raw),
        !contains(raw, " - "@),
        occurs_at(lower_ascii(raw), inline_words()[rank], i),
        forall|j: int| 0 <= j < i ==> !occurs_at(lower_ascii(raw), inline_words()[rank], j),
        forall|k: int| 0 <= k < rank ==> !contains(lower_ascii(raw), #[trigger] inline_words()[k]),
    ensures
        ({
            let p = parsed_title(raw);
            let song = trimmed(raw.take(i));
            &&& p.featured == artist_names(raw.skip(i + inline_words()[rank].len()))
            &&& p.kind is Unlabelled
            &&& song.len() > 0 && song.last() != '-' ==> p.base == song
        }),
{
    reveal(parsed_title);
    lemma_scan_plain(raw);
    lemma_trimmed(raw);
    lemma_no_dash(raw);
    let low = lower_ascii(raw);
    let m = inline_markers();
    assert(m =~= inline_words());
    lemma_find_from(low, m[rank], 0);
    lemma_cut_at(raw, m, rank, i);
    let song = trimmed(raw.take(i));
    lemma_trimmed(raw.take(i));
    if song.len() > 0 && song.last() != '-' {
        lemma_finished(song, raw);
    }
    let names = artist_names(raw.skip(i + inline_words()[rank].len()));
    assert(Seq::<Seq<char>>::empty() + names =~= names);
}

/// What introduces a guest in the middle of a title, the longer marker first.
pub open spec fn inline_words() -> Seq<Seq<char>> {
    seq![" feat. "@, " feat "@, " ft. "@, " ft "@, " featuring "@]
}

proof fn lemma_cut_at(s: Seq<char>, markers: Seq<Seq<char>>, rank: int, i: int)
    requires
        0 <= rank < markers.len(),
        find(lower_ascii(s), markers[rank]) == Some(i),
        forall|k: int| 0 <= k < rank ==> !contains(lower_ascii(s), #[trigger] markers[k]),
    ensures
        first_cut(s, markers) == Some((s.take(i), s.skip(i + markers[rank].len()))),
    decreases rank,
{
    if rank > 0 {
        assert(!contains(lower_ascii(s), markers[0]));
        lemma_find(lower_ascii(s), markers[0]);
        let rest = markers.drop_first();
        assert forall|k: int| 0 <= k < rank - 1 implies !contains(
            lower_ascii(s),
            #[trigger] rest[k],
        ) by {
            assert(rest[k] == markers[k + 1]);
        }
        assert(rest[rank - 1] == markers[rank]);
        lemma_cut_at(s, rest, rank - 1, i);
    }
}

/// What opens a guest clause.
pub open spec fn is_guest_word(w: Seq<char>) -> bool {
    w == "feat."@ || w == "feat"@ || w == "featuring"@ || w == "ft."@ || w == "ft"@ || w == "with"@
}

/// A segment that opens with a word for guests, capitals or not, and then white
/// space, names the guests that follow.
pub proof fn law_guest_clause_names_its_guests(word: Seq<char>, space: char, guests: Seq<char>)
    requires
        is_guest_word(lower_ascii(word)),
        is_white_space(space),
        is_trimmed(guests),
        guests.len() > 0,
    ensures
        guest_clause(word + seq![space] + guests) == Some(guests),
{
    reveal_strlit("feat.");
    reveal_strlit("feat");
    reveal_strlit("featuring");
    reveal_strlit("ft.");
    reveal_strlit("ft");
    reveal_strlit("with");
    let t = word + seq![space] + guests;
    let low = lower_ascii(word);
    assert(low.len() == word.len());
    assert(word.len() >= 2);
    assert(low[0] == 'f' || low[0] == 'w');
    assert(!is_white_space(word[0])) by {
        assert(crate::text::ascii_lower(word[0]) == low[0]);
    }
    assert(t.first() == word[0]);
    assert(t.last() == guests.last());
    lemma_trimmed(t);
    assert(t[word.len() as int] == space);
    assert(lower_ascii(t.take(word.len() as int)) =~= low);
    assert(opens_with(t, low));
    let empty = Seq::<char>::empty();
    assert(is_blank(empty));
    assert(is_blank(seq![space]));
    law_trimming_takes_the_white_space_around(seq![space], guests, empty);
    assert(t.skip(word.len() as int) =~= seq![space] + guests + empty);
    // No other of the words opens it: behind that word there is no white space.
    assert forall|k: int| 0 <= k < word.len() implies !is_white_space(#[trigger] t[k]) by {
        assert(crate::text::ascii_lower(word[k]) == low[k]);
        assert(!is_white_space(low[k]));
    }
    lemma_one_guest_word(t, word.len() as int, "feat."@);
    lemma_one_guest_word(t, word.len() as int, "feat"@);
    lemma_one_guest_word(t, word.len() as int, "featuring"@);
    lemma_one_guest_word(t, word.len() as int, "ft."@);
    lemma_one_guest_word(t, word.len() as int, "ft"@);
    lemma_one_guest_word(t, word.len() as int, "with"@);
}

proof fn lemma_one_guest_word(t: Seq<char>, n: int, marker: Seq<char>)
    requires
        0 < n < t.len(),
        is_white_space(t[n]),
        forall|k: int| 0 <= k < n ==> !is_white_space(#[trigger] t[k]),
        is_guest_word(marker),
    ensures
        opens_with(t, marker) ==> marker.len() == n && lower_ascii(t.take(n)) == marker,
{
    reveal_strlit("feat.");
    reveal_strlit("feat");
    reveal_strlit("featuring");
    reveal_strlit("ft.");
    reveal_strlit("ft");
    reveal_strlit("with");
    if opens_with(t, marker) {
        let m = marker.len() as int;
        if m > n {
            let low = lower_ascii(t.take(m));
            assert(low[n] == crate::text::ascii_lower(t[n]));
            assert(is_white_space(low[n]));
            assert(!is_white_space(marker[n]));
        }
    }
}

/// A segment names guests only where it opens with one of the words for them,
/// capitals or not, and then white space.
pub proof fn law_guests_need_their_word(segment: Seq<char>)
    requires
        guest_clause(segment) is Some,
    ensures
        exists|n: int|
            0 < n < trimmed(segment).len() && is_white_space(#[trigger] trimmed(segment)[n])
                && is_guest_word(lower_ascii(trimmed(segment).take(n))) && guest_clause(segment)
                == Some(trimmed(trimmed(segment).skip(n))),
{
    reveal_strlit("feat.");
    reveal_strlit("feat");
    reveal_strlit("featuring");
    reveal_strlit("ft.");
    reveal_strlit("ft");
    reveal_strlit("with");
    let t = trimmed(segment);
    let m: Seq<char> = if opens_with(t, "feat."@) {
        "feat."@
    } else if opens_with(t, "feat"@) {
        "feat"@
    } else if opens_with(t, "featuring"@) {
        "featuring"@
    } else if opens_with(t, "ft."@) {
        "ft."@
    } else if opens_with(t, "ft"@) {
        "ft"@
    } else {
        "with"@
    };
    assert(opens_with(t, m));
    assert(is_white_space(t[m.len() as int]));
}

/// The normal forms go with what they are the normal forms of, and the title is
/// kept as it was.
pub proof fn law_normal_forms_go_along(raw: Seq<char>)
    ensures
        ({
            let p = parsed_title(raw);
            &&& p.raw == raw
            &&& p.base_norm == normalized(p.base)
            &&& p.remixer is Some <==> p.remixer_norm is Some
            &&& p.remixer matches Some(r) ==> p.remixer_norm == Some(normalized(r))
        }),
{
    reveal(parsed_title);
}

/// Whether a segment names a version and who made it.
pub open spec fn names_maker(segment: Seq<char>) -> bool {
    names_version(segment) && (version_of(normalized(segment))->0).1 is Some
}

proof fn lemma_last_maker(segments: Seq<Seq<char>>, i: int)
    requires
        0 <= i < segments.len(),
        names_maker(segments[i]),
        forall|j: int| i < j < segments.len() ==> !names_maker(#[trigger] segments[j]),
    ensures
        read_segments(segments).remixer == (version_of(normalized(segments[i]))->0).1,
        !(read_segments(segments).kind is Unlabelled),
    decreases segments.len(),
{
    crate::title::law_named_version_is_one(normalized(segments.last()));
    if i < segments.len() - 1 {
        let init = segments.drop_last();
        assert(!names_maker(segments[segments.len() - 1]));
        assert(init[i] == segments[i]);
        assert forall|j: int| i < j < init.len() implies !names_maker(#[trigger] init[j]) by {
            assert(init[j] == segments[j]);
        }
        lemma_last_maker(init, i);
    }
}

/// The remixer of a title is the last that its brackets name: a segment behind it
/// that names a version and nobody takes nothing away.
pub proof fn law_last_maker_is_the_remixer(raw: Seq<char>, i: int)
    requires
        0 <= i < segments_of(raw).len(),
        names_maker(segments_of(raw)[i]),
        forall|j: int|
            i < j < segments_of(raw).len() ==> !names_maker(#[trigger] segments_of(raw)[j]),
    ensures
        parsed_title(raw).remixer == (version_of(normalized(segments_of(raw)[i]))->0).1,
{
    reveal(parsed_title);
    lemma_last_maker(segments_of(raw), i);
}

/// How a version is called: by who made it and what it is, where somebody else
/// cut the record; by what it is, else; and by a dash where nothing is said.
pub proof fn law_version_is_called_by_maker_and_kind(v: TitleView)
    ensures
        ({
            let label = ParsedTitle::label(v);
            let made = v.kind is Remix || v.kind is Rework || v.kind is Edit || v.kind is Vip;
            &&& v.kind is Unlabelled ==> label == "-"@
            &&& !made && !(v.kind is Unlabelled) ==> label == v.kind.label()
            &&& made && v.remixer is None ==> label == v.kind.label()
            &&& made && v.remixer is Some ==> label == v.remixer->0 + " "@ + v.kind.label()
        }),
{
}

/// No two kinds are called alike, and only the lack of a version has no name.
pub proof fn law_kinds_are_called_apart(a: MixKind, b: MixKind)
    ensures
        a.label() == b.label() ==> a == b,
        a is Unlabelled <==> a.label().len() == 0,
{
    reveal_strlit("");
    reveal_strlit("original");
    reveal_strlit("extended");
    reveal_strlit("radio");
    reveal_strlit("club");
    reveal_strlit("dub");
    reveal_strlit("instrumental");
    reveal_strlit("acapella");
    reveal_strlit("edit");
    reveal_strlit("vip");
    reveal_strlit("remix");
    reveal_strlit("rework");
    assert(""@.len() == 0);
    assert("original"@.len() == 8 && "original"@[0] == 'o');
    assert("extended"@.len() == 8 && "extended"@[0] == 'e');
    assert("acapella"@.len() == 8 && "acapella"@[0] == 'a');
    assert("radio"@.len() == 5 && "radio"@[1] == 'a');
    assert("remix"@.len() == 5 && "remix"@[1] == 'e');
    assert("club"@.len() == 4 && "club"@[0] == 'c');
    assert("edit"@.len() == 4 && "edit"@[0] == 'e');
    assert("dub"@.len() == 3 && "dub"@[0] == 'd');
    assert("vip"@.len() == 3 && "vip"@[0] == 'v');
    assert("rework"@.len() == 6);
    assert("instrumental"@.len() == 12);
}

/// Guests in brackets do not hide a version behind a dash: both are read, and the
/// name is left alone.
pub proof fn law_dashed_version_beside_guests(
    name: Seq<char>,
    tail: Seq<char>,
    open: char,
    segment: Seq<char>,
    close: char,
)
    requires
        is_song_name(name),
        has_no_brackets(tail),
        is_trimmed(tail),
        tail.len() > 0,
        !contains(" "@ + tail, " - "@),
        version_of(normalized(tail)) is Some,
        open == '(' || open == '[',
        close == ')' || close == ']',
        has_no_brackets(segment),
        is_trimmed(segment),
        guest_clause(segment) is Some,
    ensures
        ({
            let p = parsed_title(bracketed(name + " - "@ + tail, open, segment, close));
            let v = version_of(normalized(tail))->0;
            &&& p.base == name
            &&& p.kind == v.0
            &&& p.remixer == v.1
            &&& p.mix_raw == Some(tail)
            &&& p.featured == artist_names(guest_clause(segment)->0)
        }),
{
    reveal(parsed_title);
    reveal_strlit(" - ");
    let part = name + " - "@ + tail;
    let raw = bracketed(part, open, segment, close);
    assert forall|i: int| 0 <= i < part.len() implies #[trigger] part[i] != '(' && part[i] != '['
        && part[i] != ')' && part[i] != ']' by {
        if i < name.len() {
            assert(part[i] == name[i]);
        } else if i >= name.len() + 3 {
            assert(part[i] == tail[i - name.len() - 3]);
        }
    }
    assert(part.first() == name.first());
    assert(part.last() == tail.last());
    lemma_scan_bracketed(part, open, segment, close);
    lemma_trim_space(part);
    assert(seq![segment].drop_last() =~= Seq::<Seq<char>>::empty());
    assert(read_segments(seq![segment]) == read_segment(
        read_segments(Seq::empty()),
        segment,
    ));
    let names = artist_names(guest_clause(segment)->0);
    assert(Seq::<Seq<char>>::empty() + names =~= names);
    let at = name.len() as int;
    lemma_last_dash(name, tail);
    assert(part.skip(at + 3) =~= tail);
    assert(part.take(at) =~= name);
    lemma_trimmed(tail);
    lemma_trimmed(name);
    lemma_no_cut(name);
    lemma_finished(name, raw);
}

proof fn lemma_outside(s: Seq<char>)
    ensures
        scan(s).depth == 0 ==> scan(s).current.len() == 0,
    decreases s.len(),
{
    if s.len() > 0 {
        lemma_outside(s.drop_last());
    }
}

proof fn lemma_scan_adds(a: Seq<char>, b: Seq<char>)
    requires
        scan(a).depth == 0,
    ensures
        scan(a + b).segments == scan(a).segments + scan(b).segments,
        scan(a + b).remainder == scan(a).remainder + scan(b).remainder,
        scan(a + b).depth == scan(b).depth,
        scan(a + b).current == scan(b).current,
    decreases b.len(),
{
    lemma_outside(a);
    if b.len() == 0 {
        assert(a + b =~= a);
        assert(scan(a).segments + scan(b).segments =~= scan(a).segments);
        assert(scan(a).remainder + scan(b).remainder =~= scan(a).remainder);
        assert(scan(a).current =~= scan(b).current);
    } else {
        lemma_scan_adds(a, b.drop_last());
        assert((a + b).drop_last() =~= a + b.drop_last());
        assert(scan(a + b).segments =~= scan(a).segments + scan(b).segments);
        assert(scan(a + b).remainder =~= scan(a).remainder + scan(b).remainder);
    }
}

/// The brackets of a title are read one after another: what stands in brackets in
/// two passages is what stands in brackets in the whole, and so is what stands
/// outside them.
pub proof fn law_brackets_are_read_in_order(a: Seq<char>, b: Seq<char>)
    requires
        scan(a).depth == 0,
    ensures
        segments_of(a + b) == segments_of(a) + segments_of(b),
        scan(a + b).remainder == scan(a).remainder + scan(b).remainder,
{
    lemma_scan_adds(a, b);
    assert(segments_of(a) == scan(a).segments);
    assert(segments_of(a + b) =~= segments_of(a) + segments_of(b));
}

/// A bracket that is never closed holds all that follows.
pub proof fn law_open_bracket_holds_the_rest(name: Seq<char>, open: char, segment: Seq<char>)
    requires
        has_no_brackets(name),
        has_no_brackets(segment),
        is_trimmed(segment),
        segment.len() > 0,
        open == '(' || open == '[',
    ensures
        segments_of(name + seq![open] + segment) == seq![segment],
        scan(name + seq![open] + segment).remainder == name,
{
    lemma_scan_plain(name);
    let opened = name + seq![open];
    assert(opened.drop_last() =~= name);
    lemma_scan_on(opened, segment);
    lemma_trimmed(segment);
    assert(scan(opened + segment).current =~= segment);
    assert(segments_of(opened + segment) =~= seq![segment]);
}

/// A bracket within a bracket is part of the segment that it stands in.
pub proof fn law_inner_bracket_stays_inside(
    before: Seq<char>,
    open: char,
    inner: Seq<char>,
    close: char,
    after: Seq<char>,
)
    requires
        has_no_brackets(before),
        has_no_brackets(inner),
        has_no_brackets(after),
        open == '(' || open == '[',
        close == ')' || close == ']',
        is_trimmed(before + seq![open] + inner + seq![close] + after),
    ensures
        segments_of(
            seq!['('] + (before + seq![open] + inner + seq![close] + after) + seq![')'],
        ) == seq![before + seq![open] + inner + seq![close] + after],
{
    let whole = before + seq![open] + inner + seq![close] + after;
    let s0 = seq!['('];
    let none = Seq::<char>::empty();
    assert(s0.drop_last() =~= none);
    assert(scan(none).depth == 0 && scan(none).segments.len() == 0);
    assert(scan(s0).depth == 1 && scan(s0).current.len() == 0);
    let s1 = s0 + before;
    lemma_scan_on(s0, before);
    let s2 = s1 + seq![open];
    assert(s2.drop_last() =~= s1);
    let s3 = s2 + inner;
    lemma_scan_on(s2, inner);
    let s4 = s3 + seq![close];
    assert(s4.drop_last() =~= s3);
    assert(scan(s4).depth == 1);
    let s5 = s4 + after;
    lemma_scan_on(s4, after);
    assert(scan(s5).current =~= whole);
    let s6 = s5 + seq![')'];
    assert(s6.drop_last() =~= s5);
    assert(s6 =~= seq!['('] + whole + seq![')']);
    lemma_trimmed(whole);
    assert(scan(s5).segments == scan(s0).segments);
    assert(segments_of(s6) =~= seq![whole]);
}

proof fn lemma_credited_from(segments: Seq<Seq<char>>, k: int)
    requires
        0 <= k < read_segments(segments).featured.len(),
    ensures
        exists|i: int|
            0 <= i < segments.len() && guest_clause(#[trigger] segments[i]) is Some
                && artist_names(guest_clause(segments[i])->0).contains(
                read_segments(segments).featured[k],
            ),
    decreases segments.len(),
{
    if segments.len() > 0 {
        let init = segments.drop_last();
        let before = read_segments(init).featured;
        let all = read_segments(segments).featured;
        if k < before.len() {
            lemma_credited_from(init, k);
            assert(all[k] == before[k]);
            let i = choose|i: int|
                0 <= i < init.len() && guest_clause(#[trigger] init[i]) is Some && artist_names(
                    guest_clause(init[i])->0,
                ).contains(before[k]);
            assert(segments[i] == init[i]);
        } else {
            let i = segments.len() - 1;
            let names = artist_names(guest_clause(segments[i])->0);
            assert(names[k - before.len()] == all[k]);
        }
    }
}

/// Nobody is credited who is not named as a guest: in a clause in brackets, or
/// behind a marker in the title.
pub proof fn law_only_guests_are_credited(raw: Seq<char>, k: int)
    requires
        0 <= k < parsed_title(raw).featured.len(),
    ensures
        ({
            let name = parsed_title(raw).featured[k];
            ||| exists|i: int|
                0 <= i < segments_of(raw).len() && guest_clause(#[trigger] segments_of(raw)[i])
                    is Some && artist_names(guest_clause(segments_of(raw)[i])->0).contains(name)
            ||| exists|at: int|
                0 < at <= scan(raw).remainder.len() && artist_names(
                    #[trigger] trimmed(scan(raw).remainder).skip(at),
                ).contains(name)
            ||| exists|at: int, cut: int|
                0 < at && artist_names(
                    #[trigger] trimmed(trimmed(scan(raw).remainder).take(cut)).skip(at),
                ).contains(name)
        }),
{
    reveal(parsed_title);
    let first = Draft {
        base: trimmed(scan(raw).remainder),
        reading: read_segments(segments_of(raw)),
    };
    let second = read_dash(first);
    let all = parsed_title(raw).featured;
    let before = first.reading.featured;
    lemma_trimmed(scan(raw).remainder);
    if k < before.len() {
        assert(all[k] == before[k]);
        lemma_credited_from(segments_of(raw), k);
    } else {
        lemma_inline_words();
        assert forall|k: int| 0 <= k < inline_markers().len() implies inline_words().contains(
            #[trigger] inline_markers()[k],
        ) by {}
        lemma_cut_is_ahead(second.base, inline_markers());
        let (head, tail) = first_cut(second.base, inline_markers())->0;
        let names = artist_names(tail);
        assert(all[k] == names[k - before.len()]);
        let at = second.base.len() - tail.len();
        assert(tail == second.base.skip(at));
    }
}

proof fn lemma_cut_is_ahead(base: Seq<char>, markers: Seq<Seq<char>>)
    requires
        forall|k: int| 0 <= k < markers.len() ==> inline_words().contains(#[trigger] markers[k]),
    ensures
        first_cut(base, markers) matches Some((head, tail)) ==> tail.len() < base.len() && tail
            == base.skip(base.len() - tail.len()),
    decreases markers.len(),
{
    if markers.len() > 0 {
        lemma_find(lower_ascii(base), markers.first());
        assert(inline_words().contains(markers[0]));
        lemma_inline_words();
        let rest = markers.drop_first();
        assert forall|k: int| 0 <= k < rest.len() implies inline_words().contains(
            #[trigger] rest[k],
        ) by {
            assert(rest[k] == markers[k + 1]);
        }
        lemma_cut_is_ahead(base, rest);
        match find(lower_ascii(base), markers.first()) {
            Some(i) => {
                let tail = base.skip(i + markers.first().len());
                assert(base.skip(base.len() - tail.len()) =~= tail);
            },
            None => {},
        }
    }
}

proof fn lemma_inline_words()
    ensures
        forall|k: int| 0 <= k < inline_words().len() ==> (#[trigger] inline_words()[k]).len() > 0,
        forall|m: Seq<char>| #[trigger] inline_words().contains(m) ==> m.len() > 0,
        inline_markers() == inline_words(),
{
    reveal_strlit(" feat. ");
    reveal_strlit(" feat ");
    reveal_strlit(" ft. ");
    reveal_strlit(" ft ");
    reveal_strlit(" featuring ");
    assert(inline_markers() =~= inline_words());
}

/// A title that is nothing but a version in brackets keeps its whole text for a
/// name: there is always something to compare.
pub proof fn law_bare_version_keeps_its_text(open: char, segment: Seq<char>, close: char)
    requires
        open == '(' || open == '[',
        close == ')' || close == ']',
        has_no_brackets(segment),
        is_trimmed(segment),
        guest_clause(segment) is None,
        version_of(normalized(segment)) is Some,
    ensures
        ({
            let raw = seq![open] + segment + seq![close];
            let p = parsed_title(raw);
            &&& p.base == raw
            &&& p.kind == (version_of(normalized(segment))->0).0
            &&& p.remixer == (version_of(normalized(segment))->0).1
        }),
{
    reveal(parsed_title);
    let raw = seq![open] + segment + seq![close];
    let none = Seq::<char>::empty();
    let s0 = seq![open];
    assert(s0.drop_last() =~= none);
    assert(scan(none).depth == 0 && scan(none).segments.len() == 0);
    assert(scan(s0).depth == 1 && scan(s0).current.len() == 0);
    lemma_scan_on(s0, segment);
    assert(scan(s0 + segment).current =~= segment);
    assert(raw.drop_last() =~= s0 + segment);
    lemma_trimmed(segment);
    assert(segments_of(raw) =~= seq![segment]);
    assert(scan(raw).remainder =~= none);
    lemma_trimmed(none);
    assert(seq![segment].drop_last() =~= Seq::<Seq<char>>::empty());
    assert(read_segments(seq![segment]) == read_segment(
        read_segments(Seq::empty()),
        segment,
    ));
    crate::title::law_named_version_is_one(normalized(segment));
    lemma_nothing_to_cut(none);
    lemma_no_cut(none);
    assert(with_kept(none, Seq::<Seq<char>>::empty()) == none);
    assert(raw.first() == open && raw.last() == close);
    lemma_trimmed(raw);
}

proof fn lemma_nothing_to_cut(s: Seq<char>)
    requires
        s.len() == 0,
    ensures
        !contains(lower_ascii(s), " feat. "@),
        !contains(lower_ascii(s), " feat "@),
        !contains(lower_ascii(s), " ft. "@),
        !contains(lower_ascii(s), " ft "@),
        !contains(lower_ascii(s), " featuring "@),
{
    reveal_strlit(" feat. ");
    reveal_strlit(" feat ");
    reveal_strlit(" ft. ");
    reveal_strlit(" ft ");
    reveal_strlit(" featuring ");
}

/// A dash that a title ends with is no part of its name.
pub proof fn law_trailing_dash_is_dropped(name: Seq<char>)
    requires
        is_song_name(name),
        !contains(lower_ascii(name + " -"@), " feat. "@),
        !contains(lower_ascii(name + " -"@), " feat "@),
        !contains(lower_ascii(name + " -"@), " ft. "@),
        !contains(lower_ascii(name + " -"@), " ft "@),
        !contains(lower_ascii(name + " -"@), " featuring "@),
    ensures
        parsed_title(name + " -"@).base == name,
        parsed_title(name + " -"@).kind is Unlabelled,
{
    reveal(parsed_title);
    reveal_strlit(" -");
    reveal_strlit(" ");
    reveal_strlit(" - ");
    let raw = name + " -"@;
    assert forall|i: int| 0 <= i < raw.len() implies #[trigger] raw[i] != '(' && raw[i] != '['
        && raw[i] != ')' && raw[i] != ']' by {
        if i < name.len() {
            assert(raw[i] == name[i]);
        }
    }
    lemma_scan_plain(raw);
    assert(raw.first() == name.first() && raw.last() == '-');
    lemma_trimmed(raw);
    if contains(raw, " - "@) {
        let i = choose|i: int| occurs_at(raw, " - "@, i);
        let found = raw.subrange(i, i + 3);
        assert(found[0] == raw[i] && found[1] == raw[i + 1] && found[2] == raw[i + 2]);
        assert(i + 2 <= name.len());
        if i + 2 == name.len() {
            assert(name.last() == raw[i + 1]);
        } else {
            assert(name.subrange(i, i + 3) =~= found);
            assert(occurs_at(name, " - "@, i));
        }
    }
    lemma_no_dash(raw);
    lemma_no_cut(raw);
    let spaced = name + " "@;
    assert(raw.drop_last() =~= spaced);
    assert(strip_end(raw, '-') == strip_end(spaced, '-'));
    assert(spaced.last() == ' ');
    assert(strip_end(spaced, '-') == spaced);
    lemma_trim_space(name);
    assert(with_kept(raw, Seq::<Seq<char>>::empty()) == raw);
}

} // verus!
