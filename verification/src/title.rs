//! Artist fields and titles taken apart.

use vstd::prelude::*;
use vstd::slice::{slice_subrange, slice_to_vec};

use crate::normalize::{
    ascii_normal, is_ascii_text, law_normalizing_twice_changes_nothing, normalize, normalized,
    MixKind,
};
use crate::text::{
    chars_of, contains, extend, find, has, index_of, is_trimmed, is_white_space, join, join_chars,
    last_index_of, lemma_find, lemma_trimmed, lemma_trimmed_keeps, lemma_trimmed_last, lower_ascii,
    lower_chars, occurs_at, opt_view, reads, rfind, same, seqs, split_words, string_of, strip_end,
    strip_leading, strip_start, strip_trailing, trim, trimmed, views, white_space, words,
};

verus! {

broadcast use {crate::text::lemma_seqs_push, crate::text::lemma_views_push};

/// `s` split at every place where `sep` stands, capitals or not.
pub open spec fn split_apart(s: Seq<char>, sep: Seq<char>) -> Seq<Seq<char>>
    decreases s.len(),
{
    if sep.len() == 0 {
        seq![s]
    } else {
        proof {
            lemma_find(lower_ascii(s), sep);
        }
        match find(lower_ascii(s), sep) {
            None => seq![s],
            Some(i) => seq![s.take(i)] + split_apart(s.skip(i + sep.len()), sep),
        }
    }
}

/// The slice split at every place where `sep` stands, capitals or not.
pub fn split_off(s: &[char], sep: &[char]) -> (r: Vec<Vec<char>>)
    requires
        sep@.len() > 0,
    ensures
        seqs(r@) == split_apart(s@, sep@),
{
    let n: usize = s.len();
    let mut r: Vec<Vec<char>> = Vec::new();
    let mut start: usize = 0;
    assert(s@.skip(0) =~= s@);
    assert(seqs(r@) + split_apart(s@, sep@) =~= split_apart(s@, sep@));
    loop
        invariant
            sep@.len() > 0,
            start <= n == s.len(),
            seqs(r@) + split_apart(s@.skip(start as int), sep@) == split_apart(s@, sep@),
        decreases n - start,
    {
        let rest = slice_subrange(s, start, n);
        assert(rest@ =~= s@.skip(start as int));
        let lower = lower_chars(rest);
        match index_of(lower.as_slice(), sep) {
            None => {
                let ghost before = seqs(r@);
                r.push(slice_to_vec(rest));
                assert(before + seq![rest@] =~= seqs(r@));
                return r;
            },
            Some(i) => {
                let ghost before = seqs(r@);
                r.push(slice_to_vec(slice_subrange(rest, 0, i)));
                proof {
                    assert(rest@.subrange(0, i as int) =~= rest@.take(i as int));
                    assert(rest@.skip(i + sep@.len()) =~= s@.skip(start + i + sep@.len()));
                    let tail = split_apart(s@.skip(start + i + sep@.len()), sep@);
                    assert(before + (seq![rest@.take(i as int)] + tail) =~= before.push(
                        rest@.take(i as int),
                    ) + tail);
                }
                start = start + i + sep.len();
            },
        }
    }
}

/// Every part split at `sep`.
pub open spec fn split_each(parts: Seq<Seq<char>>, sep: Seq<char>) -> Seq<Seq<char>>
    decreases parts.len(),
{
    if parts.len() == 0 {
        Seq::empty()
    } else {
        split_each(parts.drop_last(), sep) + split_apart(parts.last(), sep)
    }
}

/// Appends the parts of one list to another.
fn append_parts(r: &mut Vec<Vec<char>>, more: Vec<Vec<char>>)
    ensures
        seqs(final(r)@) == seqs(old(r)@) + seqs(more@),
{
    let mut i: usize = 0;
    assert(seqs(old(r)@) + seqs(more@).take(0) =~= seqs(old(r)@));
    while i < more.len()
        invariant
            i <= more.len(),
            seqs(r@) == seqs(old(r)@) + seqs(more@).take(i as int),
        decreases more.len() - i,
    {
        r.push(slice_to_vec(more[i].as_slice()));
        i = i + 1;
        assert(seqs(r@) =~= seqs(old(r)@) + seqs(more@).take(i as int));
    }
    assert(seqs(more@).take(more@.len() as int) =~= seqs(more@));
}

fn split_parts(parts: &Vec<Vec<char>>, sep: &[char]) -> (r: Vec<Vec<char>>)
    requires
        sep@.len() > 0,
    ensures
        seqs(r@) == split_each(seqs(parts@), sep@),
{
    let mut r: Vec<Vec<char>> = Vec::new();
    let mut i: usize = 0;
    assert(seqs(r@) =~= Seq::<Seq<char>>::empty());
    while i < parts.len()
        invariant
            sep@.len() > 0,
            i <= parts.len(),
            seqs(r@) == split_each(seqs(parts@).take(i as int), sep@),
        decreases parts.len() - i,
    {
        let more = split_off(parts[i].as_slice(), sep);
        append_parts(&mut r, more);
        i = i + 1;
        assert(seqs(parts@).take(i as int).drop_last() =~= seqs(parts@).take(i - 1));
    }
    assert(seqs(parts@).take(parts@.len() as int) =~= seqs(parts@));
    r
}

/// What stands between the names in an artist field, in the order in which the
/// field is split.
pub open spec fn separators() -> Seq<Seq<char>> {
    seq![
        " feat. "@,
        " feat "@,
        " ft. "@,
        " ft "@,
        " featuring "@,
        " with "@,
        " vs. "@,
        " vs "@,
        " x "@,
        " pres. "@,
        " presents "@,
        ","@,
        ";"@,
        " & "@,
        " and "@,
        "/"@,
    ]
}

fn separator_list() -> (r: Vec<&'static str>)
    ensures
        r@.map_values(|s: &'static str| s@) == separators(),
        forall|i: int| 0 <= i < r@.len() ==> #[trigger] r@[i]@.len() > 0,
{
    let r: Vec<&'static str> = vec![
        " feat. ",
        " feat ",
        " ft. ",
        " ft ",
        " featuring ",
        " with ",
        " vs. ",
        " vs ",
        " x ",
        " pres. ",
        " presents ",
        ",",
        ";",
        " & ",
        " and ",
        "/",
    ];
    proof {
        reveal_strlit(" feat. ");
        reveal_strlit(" feat ");
        reveal_strlit(" ft. ");
        reveal_strlit(" ft ");
        reveal_strlit(" featuring ");
        reveal_strlit(" with ");
        reveal_strlit(" vs. ");
        reveal_strlit(" vs ");
        reveal_strlit(" x ");
        reveal_strlit(" pres. ");
        reveal_strlit(" presents ");
        reveal_strlit(",");
        reveal_strlit(";");
        reveal_strlit(" & ");
        reveal_strlit(" and ");
        reveal_strlit("/");
        assert(r@.map_values(|s: &'static str| s@) =~= separators());
    }
    r
}

/// The parts split at each separator in turn.
pub open spec fn split_by_all(parts: Seq<Seq<char>>, seps: Seq<Seq<char>>) -> Seq<Seq<char>>
    decreases seps.len(),
{
    if seps.len() == 0 {
        parts
    } else {
        split_each(split_by_all(parts, seps.drop_last()), seps.last())
    }
}

/// A name without the white space and dashes around it.
pub open spec fn clean_name(p: Seq<char>) -> Seq<char> {
    trimmed(strip_end(strip_start(trimmed(p), '-'), '-'))
}

/// The parts cleaned, without those that come out empty.
pub open spec fn clean_names(parts: Seq<Seq<char>>) -> Seq<Seq<char>>
    decreases parts.len(),
{
    if parts.len() == 0 {
        Seq::empty()
    } else {
        let rest = clean_names(parts.drop_last());
        let name = clean_name(parts.last());
        if name.len() == 0 {
            rest
        } else {
            rest.push(name)
        }
    }
}

/// The individual names that an artist field credits.
pub open spec fn artist_names(input: Seq<char>) -> Seq<Seq<char>> {
    clean_names(split_by_all(seq![input], separators()))
}

fn split_names(input: &[char]) -> (r: Vec<String>)
    ensures
        views(r@) == artist_names(input@),
{
    let seps = separator_list();
    let ghost list = separators();
    let mut parts: Vec<Vec<char>> = Vec::new();
    parts.push(slice_to_vec(input));
    assert(seqs(parts@) =~= seq![input@]);
    let mut i: usize = 0;
    assert(list.take(0) =~= Seq::<Seq<char>>::empty());
    while i < seps.len()
        invariant
            i <= seps.len(),
            list == separators(),
            seps@.map_values(|s: &'static str| s@) == list,
            forall|j: int| 0 <= j < seps@.len() ==> #[trigger] seps@[j]@.len() > 0,
            seqs(parts@) == split_by_all(seq![input@], list.take(i as int)),
        decreases seps.len() - i,
    {
        let sep = chars_of(seps[i]);
        proof {
            assert(list[i as int] == seps@.map_values(|s: &'static str| s@)[i as int]);
            assert(list.take(i + 1).drop_last() =~= list.take(i as int));
        }
        parts = split_parts(&parts, sep.as_slice());
        i = i + 1;
    }
    assert(list.take(list.len() as int) =~= list);
    let mut r: Vec<String> = Vec::new();
    let mut k: usize = 0;
    assert(views(r@) =~= Seq::<Seq<char>>::empty());
    while k < parts.len()
        invariant
            k <= parts.len(),
            views(r@) == clean_names(seqs(parts@).take(k as int)),
        decreases parts.len() - k,
    {
        let name = trim(strip_trailing(strip_leading(trim(parts[k].as_slice()), '-'), '-'));
        k = k + 1;
        assert(seqs(parts@).take(k as int).drop_last() =~= seqs(parts@).take(k - 1));
        if name.len() > 0 {
            r.push(string_of(name));
        }
    }
    assert(seqs(parts@).take(parts@.len() as int) =~= seqs(parts@));
    r
}

/// Split a tag's artist field into individual credited names. Used for search
/// queries and display; scoring uses token sets instead, because band names
/// like "Above & Beyond" must not be split apart during comparison.
pub fn split_artists(input: &str) -> (r: Vec<String>)
    ensures
        views(r@) == artist_names(input@),
{
    let chars = chars_of(input);
    split_names(chars.as_slice())
}

/// Qualifiers that may stand beside a remixer's name.
pub open spec fn is_noise(w: Seq<char>) -> bool {
    ||| w == "extended"@
    ||| w == "club"@
    ||| w == "dub"@
    ||| w == "official"@
    ||| w == "the"@
    ||| w == "vocal"@
    ||| w == "instrumental"@
}

fn noise(w: &[char]) -> (r: bool)
    ensures
        r == is_noise(w@),
{
    reads(w, "extended") || reads(w, "club") || reads(w, "dub") || reads(w, "official") || reads(
        w,
        "the",
    ) || reads(w, "vocal") || reads(w, "instrumental")
}

/// The words of a remixer's name: what is left of `prefix` without qualifiers
/// and without the dangling "s" of a possessive.
pub open spec fn name_words(prefix: Seq<char>) -> Seq<Seq<char>> {
    let kept = words(prefix).filter(|w: Seq<char>| !is_noise(w));
    if kept.len() > 1 && kept.last() == "s"@ {
        kept.drop_last()
    } else {
        kept
    }
}

/// The remixer that `prefix` names, if it names one.
pub open spec fn remixer_name(prefix: Seq<char>) -> Option<Seq<char>> {
    let joined = trimmed(join(name_words(prefix), " "@));
    if joined.len() == 0 {
        None
    } else {
        Some(joined)
    }
}

/// Turn "someone's" / "someone" into a comparable remixer name, dropping
/// leftover qualifiers like "extended".
fn clean_remixer(prefix: &[char]) -> (r: Option<String>)
    ensures
        opt_view(r) == remixer_name(prefix@),
{
    let all = split_words(prefix);
    let ghost ws = seqs(all@);
    let mut kept: Vec<Vec<char>> = Vec::new();
    let mut i: usize = 0;
    proof {
        reveal(Seq::filter);
        assert(seqs(kept@) =~= Seq::<Seq<char>>::empty());
        assert(ws.take(0) =~= Seq::<Seq<char>>::empty());
    }
    while i < all.len()
        invariant
            i <= all.len(),
            ws == seqs(all@),
            seqs(kept@) == ws.take(i as int).filter(|w: Seq<char>| !is_noise(w)),
        decreases all.len() - i,
    {
        proof {
            reveal(Seq::filter);
            assert(ws.take(i + 1).drop_last() =~= ws.take(i as int));
            assert(ws.take(i + 1).last() == all@[i as int]@);
        }
        if !noise(all[i].as_slice()) {
            kept.push(slice_to_vec(all[i].as_slice()));
        }
        i = i + 1;
    }
    assert(ws.take(all@.len() as int) =~= ws);

    // `prefix` has already been normalized, so the possessive in "Beyer's" is
    // now a dangling "s" token rather than an apostrophe.
    let ghost full = seqs(kept@);
    if kept.len() > 1 && reads(kept[kept.len() - 1].as_slice(), "s") {
        kept.pop();
        assert(seqs(kept@) =~= full.drop_last());
    }
    assert(seqs(kept@) == name_words(prefix@));
    let space = chars_of(" ");
    let joined = join_chars(&kept, space.as_slice());
    let name = trim(joined.as_slice());
    if name.len() == 0 {
        None
    } else {
        Some(string_of(name))
    }
}

/// The remixer named before the first place where `needle` stands in `n`.
pub open spec fn remixer_before(n: Seq<char>, needle: Seq<char>) -> Option<Seq<char>> {
    match find(n, needle) {
        Some(i) => remixer_name(trimmed(n.take(i))),
        None => None,
    }
}

/// The version that a normalized segment names, and who made it; none when the
/// segment is part of the song's name. The order of the tests matters: "radio
/// edit" is a radio version and not an edit, "extended remix" is a remix.
pub open spec fn version_of(n: Seq<char>) -> Option<(MixKind, Option<Seq<char>>)> {
    if n.len() == 0 {
        None
    } else if contains(n, "remix"@) {
        Some((MixKind::Remix, remixer_before(n, "remix"@)))
    } else if contains(n, "rmx"@) {
        Some((MixKind::Remix, remixer_before(n, "rmx"@)))
    } else if contains(n, "remake"@) {
        Some((MixKind::Rework, remixer_before(n, "remake"@)))
    } else if contains(n, "rework"@) {
        Some((MixKind::Rework, remixer_before(n, "rework"@)))
    } else if contains(n, "refix"@) {
        Some((MixKind::Rework, remixer_before(n, "refix"@)))
    } else if contains(n, "bootleg"@) {
        Some((MixKind::Edit, remixer_before(n, "bootleg"@)))
    } else if contains(n, "mashup"@) {
        Some((MixKind::Edit, remixer_before(n, "mashup"@)))
    } else if contains(n, "flip"@) {
        Some((MixKind::Edit, remixer_before(n, "flip"@)))
    } else if contains(n, "radio"@) || contains(n, "short edit"@) {
        Some((MixKind::Radio, None))
    } else if contains(n, "vip"@) {
        Some((MixKind::Vip, remixer_before(n, "vip"@)))
    } else if contains(n, "extended"@) {
        Some((MixKind::Extended, None))
    } else if contains(n, "instrumental"@) {
        Some((MixKind::Instrumental, None))
    } else if contains(n, "acapella"@) || contains(n, "a cappella"@) {
        Some((MixKind::Acapella, None))
    } else if contains(n, "dub"@) {
        Some((MixKind::Dub, None))
    } else if contains(n, "club"@) {
        Some((MixKind::Club, None))
    } else if contains(n, "original"@) {
        Some((MixKind::Original, None))
    } else if contains(n, "edit"@) {
        Some((MixKind::Edit, remixer_before(n, "edit"@)))
    } else if n == "mix"@ || n == "version"@ {
        Some((MixKind::Original, None))
    } else {
        None
    }
}

/// What a classified segment says.
pub open spec fn version_view(
    v: Option<(MixKind, Option<String>)>,
) -> Option<(MixKind, Option<Seq<char>>)> {
    match v {
        Some((kind, remixer)) => Some((kind, opt_view(remixer))),
        None => None,
    }
}

/// The version found when `needle` stands in `n`, with the remixer before it.
fn derived(n: &[char], needle: &str, kind: MixKind) -> (r: Option<(MixKind, Option<String>)>)
    ensures
        version_view(r) == if contains(n@, needle@) {
            Some((kind, remixer_before(n@, needle@)))
        } else {
            None
        },
{
    let needle = chars_of(needle);
    proof {
        lemma_find(n@, needle@);
    }
    match index_of(n, needle.as_slice()) {
        Some(i) => {
            let prefix = slice_subrange(n, 0, i);
            assert(prefix@ =~= n@.take(i as int));
            Some((kind, clean_remixer(trim(prefix))))
        },
        None => None,
    }
}

fn mentions(n: &[char], needle: &str) -> (r: bool)
    ensures
        r == contains(n@, needle@),
{
    let needle = chars_of(needle);
    has(n, needle.as_slice())
}

/// Classify a bracketed segment. Returns `None` when the segment is part of the
/// song's actual name (e.g. "(Reprise)") rather than a version marker.
pub fn classify_segment(segment: &str) -> (r: Option<(MixKind, Option<String>)>)
    ensures
        version_view(r) == version_of(normalized(segment@)),
        is_ascii_text(segment@) ==> version_view(r) == version_of(ascii_normal(segment@)),
{
    let norm = normalize(segment);
    let chars = chars_of(norm.as_str());
    classify_normalized(chars.as_slice())
}

/// The version that a segment names, once it is normalized.
pub fn classify_normalized(n: &[char]) -> (r: Option<(MixKind, Option<String>)>)
    ensures
        version_view(r) == version_of(n@),
{
    if n.len() == 0 {
        return None;
    }
    let found = derived(n, "remix", MixKind::Remix);
    if found.is_some() {
        return found;
    }
    let found = derived(n, "rmx", MixKind::Remix);
    if found.is_some() {
        return found;
    }
    let found = derived(n, "remake", MixKind::Rework);
    if found.is_some() {
        return found;
    }
    let found = derived(n, "rework", MixKind::Rework);
    if found.is_some() {
        return found;
    }
    let found = derived(n, "refix", MixKind::Rework);
    if found.is_some() {
        return found;
    }
    let found = derived(n, "bootleg", MixKind::Edit);
    if found.is_some() {
        return found;
    }
    let found = derived(n, "mashup", MixKind::Edit);
    if found.is_some() {
        return found;
    }
    let found = derived(n, "flip", MixKind::Edit);
    if found.is_some() {
        return found;
    }
    if mentions(n, "radio") || mentions(n, "short edit") {
        return Some((MixKind::Radio, None));
    }
    let found = derived(n, "vip", MixKind::Vip);
    if found.is_some() {
        return found;
    }
    if mentions(n, "extended") {
        return Some((MixKind::Extended, None));
    }
    if mentions(n, "instrumental") {
        return Some((MixKind::Instrumental, None));
    }
    if mentions(n, "acapella") || mentions(n, "a cappella") {
        return Some((MixKind::Acapella, None));
    }
    if mentions(n, "dub") {
        return Some((MixKind::Dub, None));
    }
    if mentions(n, "club") {
        return Some((MixKind::Club, None));
    }
    if mentions(n, "original") {
        return Some((MixKind::Original, None));
    }
    let found = derived(n, "edit", MixKind::Edit);
    if found.is_some() {
        return found;
    }
    // A bare "(Mix)" / "(Version)" carries no information but is not part of
    // the song name either.
    if reads(n, "mix") || reads(n, "version") {
        return Some((MixKind::Original, None));
    }
    None
}

/// Whether `t` opens with the marker, capitals or not, and then white space.
pub open spec fn opens_with(t: Seq<char>, marker: Seq<char>) -> bool {
    &&& t.len() > marker.len()
    &&& lower_ascii(t.take(marker.len() as int)) == marker
    &&& is_white_space(t[marker.len() as int])
}

/// The guests that a segment names, when it is a guest clause.
pub open spec fn guest_clause(segment: Seq<char>) -> Option<Seq<char>> {
    let t = trimmed(segment);
    if opens_with(t, "feat."@) {
        Some(trimmed(t.skip("feat."@.len() as int)))
    } else if opens_with(t, "feat"@) {
        Some(trimmed(t.skip("feat"@.len() as int)))
    } else if opens_with(t, "featuring"@) {
        Some(trimmed(t.skip("featuring"@.len() as int)))
    } else if opens_with(t, "ft."@) {
        Some(trimmed(t.skip("ft."@.len() as int)))
    } else if opens_with(t, "ft"@) {
        Some(trimmed(t.skip("ft"@.len() as int)))
    } else if opens_with(t, "with"@) {
        Some(trimmed(t.skip("with"@.len() as int)))
    } else {
        None
    }
}

/// What an optional slice holds.
pub open spec fn opt_slice(o: Option<&[char]>) -> Option<Seq<char>> {
    match o {
        Some(s) => Some(s@),
        None => None,
    }
}

/// What follows the marker, when the slice opens with it.
fn after_marker<'a>(t: &'a [char], marker: &str) -> (r: Option<&'a [char]>)
    ensures
        opt_slice(r) == if opens_with(t@, marker@) {
            Some(trimmed(t@.skip(marker@.len() as int)))
        } else {
            None
        },
{
    let m = chars_of(marker);
    let n: usize = m.len();
    if t.len() <= n {
        return None;
    }
    let head = lower_chars(slice_subrange(t, 0, n));
    assert(t@.subrange(0, n as int) =~= t@.take(n as int));
    if same(head.as_slice(), m.as_slice()) && white_space(t[n]) {
        let tail = slice_subrange(t, n, t.len());
        assert(tail@ =~= t@.skip(n as int));
        Some(trim(tail))
    } else {
        None
    }
}

/// Remove a leading "feat." / "ft." / "featuring" / "with" marker, returning
/// just the guest names. Returns `None` when the segment is not a guest clause.
pub fn strip_feature_marker<'a>(segment: &'a [char]) -> (r: Option<&'a [char]>)
    ensures
        opt_slice(r) == guest_clause(segment@),
{
    let t = trim(segment);
    let found = after_marker(t, "feat.");
    if found.is_some() {
        return found;
    }
    let found = after_marker(t, "feat");
    if found.is_some() {
        return found;
    }
    let found = after_marker(t, "featuring");
    if found.is_some() {
        return found;
    }
    let found = after_marker(t, "ft.");
    if found.is_some() {
        return found;
    }
    let found = after_marker(t, "ft");
    if found.is_some() {
        return found;
    }
    after_marker(t, "with")
}

/// A title being read: the segments closed so far, the text outside brackets,
/// how deep in brackets the reading is, and the segment being read.
pub struct Scan {
    pub segments: Seq<Seq<char>>,
    pub remainder: Seq<char>,
    pub depth: nat,
    pub current: Seq<char>,
}

pub open spec fn is_opening(c: char) -> bool {
    c == '(' || c == '['
}

pub open spec fn is_closing(c: char) -> bool {
    c == ')' || c == ']'
}

/// One more character of a title read.
pub open spec fn scan_char(st: Scan, c: char) -> Scan {
    if is_opening(c) {
        Scan {
            depth: st.depth + 1,
            current: if st.depth == 0 {
                Seq::empty()
            } else {
                st.current.push(c)
            },
            ..st
        }
    } else if is_closing(c) && st.depth == 1 {
        Scan {
            depth: 0,
            segments: st.segments.push(trimmed(st.current)),
            current: Seq::empty(),
            ..st
        }
    } else if is_closing(c) && st.depth > 1 {
        Scan { depth: (st.depth - 1) as nat, current: st.current.push(c), ..st }
    } else if st.depth == 0 {
        Scan { remainder: st.remainder.push(c), ..st }
    } else {
        Scan { current: st.current.push(c), ..st }
    }
}

/// A title read from its start.
pub open spec fn scan(s: Seq<char>) -> Scan
    decreases s.len(),
{
    if s.len() == 0 {
        Scan {
            segments: Seq::empty(),
            remainder: Seq::empty(),
            depth: 0,
            current: Seq::empty(),
        }
    } else {
        scan_char(scan(s.drop_last()), s.last())
    }
}

/// The bracketed segments of a title. The tail after a bracket that is never
/// closed counts as one.
pub open spec fn segments_of(title: Seq<char>) -> Seq<Seq<char>> {
    let end = scan(title);
    if end.depth > 0 && trimmed(end.current).len() > 0 {
        end.segments.push(trimmed(end.current))
    } else {
        end.segments
    }
}

/// Pull out `(...)` and `[...]` segments along with the text between them.
pub fn bracket_segments(title: &[char]) -> (r: (Vec<Vec<char>>, Vec<char>))
    ensures
        seqs(r.0@) == segments_of(title@),
        r.1@ == scan(title@).remainder,
{
    let mut segments: Vec<Vec<char>> = Vec::new();
    let mut remainder: Vec<char> = Vec::new();
    let mut depth: usize = 0;
    let mut current: Vec<char> = Vec::new();
    let mut i: usize = 0;
    assert(seqs(segments@) =~= Seq::<Seq<char>>::empty());
    while i < title.len()
        invariant
            i <= title.len(),
            depth <= i,
            seqs(segments@) == scan(title@.take(i as int)).segments,
            remainder@ == scan(title@.take(i as int)).remainder,
            depth == scan(title@.take(i as int)).depth,
            current@ == scan(title@.take(i as int)).current,
        decreases title.len() - i,
    {
        let c = title[i];
        i = i + 1;
        assert(title@.take(i as int).drop_last() =~= title@.take(i - 1));
        if c == '(' || c == '[' {
            if depth == 0 {
                current.clear();
            } else {
                current.push(c);
            }
            depth = depth + 1;
        } else if c == ')' || c == ']' {
            if depth > 0 {
                depth = depth - 1;
                if depth == 0 {
                    segments.push(slice_to_vec(trim(current.as_slice())));
                    current.clear();
                } else {
                    current.push(c);
                }
            } else {
                remainder.push(c);
            }
        } else if depth == 0 {
            remainder.push(c);
        } else {
            current.push(c);
        }
    }
    assert(title@.take(title@.len() as int) =~= title@);
    let tail = trim(current.as_slice());
    if depth > 0 && tail.len() > 0 {
        // Unbalanced bracket — treat the tail as a segment anyway.
        segments.push(slice_to_vec(tail));
    }
    (segments, remainder)
}

/// A title split into the part that identifies the song and the part that
/// identifies *which version of it* this is.
#[derive(Debug)]
pub struct ParsedTitle {
    pub raw: String,
    /// Title with mix descriptor and featured-artist clauses removed.
    pub base: String,
    pub base_norm: String,
    pub kind: MixKind,
    /// Who made the derivative version, when the descriptor names them.
    pub remixer: Option<String>,
    pub remixer_norm: Option<String>,
    /// Featured artists lifted out of the title, e.g. "(feat. Someone)".
    pub featured: Vec<String>,
    pub mix_raw: Option<String>,
}

/// What a parsed title says.
#[verifier::ext_equal]
pub struct TitleView {
    pub raw: Seq<char>,
    pub base: Seq<char>,
    pub base_norm: Seq<char>,
    pub kind: MixKind,
    pub remixer: Option<Seq<char>>,
    pub remixer_norm: Option<Seq<char>>,
    pub featured: Seq<Seq<char>>,
    pub mix_raw: Option<Seq<char>>,
}

impl View for ParsedTitle {
    type V = TitleView;

    open spec fn view(&self) -> TitleView {
        TitleView {
            raw: self.raw@,
            base: self.base@,
            base_norm: self.base_norm@,
            kind: self.kind,
            remixer: opt_view(self.remixer),
            remixer_norm: opt_view(self.remixer_norm),
            featured: views(self.featured@),
            mix_raw: opt_view(self.mix_raw),
        }
    }
}

/// What the segments of a title have said so far.
#[verifier::ext_equal]
pub struct Reading {
    pub kind: MixKind,
    pub remixer: Option<Seq<char>>,
    pub mix_raw: Option<Seq<char>>,
    pub featured: Seq<Seq<char>>,
    pub kept: Seq<Seq<char>>,
}

/// One more segment read: a guest clause credits its guests, a version marker
/// sets the version, and anything else belongs to the name of the song.
pub open spec fn read_segment(st: Reading, segment: Seq<char>) -> Reading {
    match guest_clause(segment) {
        Some(guests) => Reading { featured: st.featured + artist_names(guests), ..st },
        None => match version_of(normalized(segment)) {
            Some((kind, remixer)) => Reading {
                kind,
                remixer: if remixer is Some {
                    remixer
                } else {
                    st.remixer
                },
                mix_raw: Some(segment),
                ..st
            },
            None => Reading { kept: st.kept.push(segment), ..st },
        },
    }
}

/// The segments of a title read in order.
pub open spec fn read_segments(segments: Seq<Seq<char>>) -> Reading
    decreases segments.len(),
{
    if segments.len() == 0 {
        Reading {
            kind: MixKind::Unlabelled,
            remixer: None,
            mix_raw: None,
            featured: Seq::empty(),
            kept: Seq::empty(),
        }
    } else {
        read_segment(read_segments(segments.drop_last()), segments.last())
    }
}

/// A title outside its brackets, and what has been read of it.
#[verifier::ext_equal]
pub struct Draft {
    pub base: Seq<char>,
    pub reading: Reading,
}

/// "Title - Extended Mix" with no brackets: when no segment named a version,
/// what follows the last dash may.
pub open spec fn read_dash(d: Draft) -> Draft {
    match rfind(d.base, " - "@) {
        Some(i) if d.reading.kind == MixKind::Unlabelled => {
            let tail = trimmed(d.base.skip(i + " - "@.len()));
            match version_of(normalized(tail)) {
                Some((kind, remixer)) => Draft {
                    base: trimmed(d.base.take(i)),
                    reading: Reading { kind, remixer, mix_raw: Some(tail), ..d.reading },
                },
                None => d,
            }
        },
        _ => d,
    }
}

/// What introduces a guest in the middle of a title.
pub open spec fn inline_markers() -> Seq<Seq<char>> {
    seq![" feat. "@, " feat "@, " ft. "@, " ft "@, " featuring "@]
}

/// What stands before and after the first of the markers that stands in
/// `base`, capitals or not.
pub open spec fn first_cut(base: Seq<char>, markers: Seq<Seq<char>>) -> Option<
    (Seq<char>, Seq<char>),
>
    decreases markers.len(),
{
    if markers.len() == 0 {
        None
    } else {
        match find(lower_ascii(base), markers.first()) {
            Some(i) => Some((base.take(i), base.skip(i + markers.first().len()))),
            None => first_cut(base, markers.drop_first()),
        }
    }
}

/// "Title feat. Someone": the guests leave the title.
pub open spec fn read_inline(d: Draft) -> Draft {
    match first_cut(d.base, inline_markers()) {
        Some((head, tail)) => Draft {
            base: trimmed(head),
            reading: Reading { featured: d.reading.featured + artist_names(tail), ..d.reading },
        },
        None => d,
    }
}

/// The segments back in brackets, after the base.
pub open spec fn with_kept(base: Seq<char>, kept: Seq<Seq<char>>) -> Seq<char>
    decreases kept.len(),
{
    if kept.len() == 0 {
        base
    } else {
        with_kept(base, kept.drop_last()) + " ("@ + kept.last() + ")"@
    }
}

/// The base title: never empty unless the whole title is blank.
pub open spec fn finished_base(base: Seq<char>, raw: Seq<char>) -> Seq<char> {
    let b = trimmed(strip_end(trimmed(base), '-'));
    if b.len() == 0 {
        trimmed(raw)
    } else {
        b
    }
}

/// The title outside its brackets, read to the end.
pub open spec fn read_title(raw: Seq<char>) -> Draft {
    read_inline(
        read_dash(
            Draft {
                base: trimmed(scan(raw).remainder),
                reading: read_segments(segments_of(raw)),
            },
        ),
    )
}

/// What a raw title says.
#[verifier::opaque]
pub open spec fn parsed_title(raw: Seq<char>) -> TitleView {
    let d = read_title(raw);
    let base = finished_base(with_kept(d.base, d.reading.kept), raw);
    TitleView {
        raw,
        base,
        base_norm: normalized(base),
        kind: d.reading.kind,
        remixer: d.reading.remixer,
        remixer_norm: match d.reading.remixer {
            Some(r) => Some(normalized(r)),
            None => None,
        },
        featured: d.reading.featured,
        mix_raw: d.reading.mix_raw,
    }
}

/// Appends the strings of one list to another.
pub fn append_strings(r: &mut Vec<String>, more: Vec<String>)
    ensures
        views(final(r)@) == views(old(r)@) + views(more@),
{
    let mut i: usize = 0;
    assert(views(old(r)@) + views(more@).take(0) =~= views(old(r)@));
    while i < more.len()
        invariant
            i <= more.len(),
            views(r@) == views(old(r)@) + views(more@).take(i as int),
        decreases more.len() - i,
    {
        r.push(more[i].clone());
        i = i + 1;
        assert(views(r@) =~= views(old(r)@) + views(more@).take(i as int));
    }
    assert(views(more@).take(more@.len() as int) =~= views(more@));
}

fn inline_marker_list() -> (r: Vec<&'static str>)
    ensures
        r@.map_values(|s: &'static str| s@) == inline_markers(),
{
    let r: Vec<&'static str> = vec![" feat. ", " feat ", " ft. ", " ft ", " featuring "];
    assert(r@.map_values(|s: &'static str| s@) =~= inline_markers());
    r
}

/// Cuts the base at the first of the markers that stands in it.
fn cut_inline(base: &[char]) -> (r: Option<(Vec<char>, Vec<char>)>)
    ensures
        r is Some <==> first_cut(base@, inline_markers()) is Some,
        r matches Some((head, tail)) ==> first_cut(base@, inline_markers()) == Some(
            (head@, tail@),
        ),
{
    let markers = inline_marker_list();
    let ghost list = inline_markers();
    let lower = lower_chars(base);
    let mut i: usize = 0;
    assert(list.skip(0) =~= list);
    while i < markers.len()
        invariant
            i <= markers.len(),
            list == inline_markers(),
            markers@.map_values(|s: &'static str| s@) == list,
            lower@ == lower_ascii(base@),
            first_cut(base@, list) == first_cut(base@, list.skip(i as int)),
        decreases markers.len() - i,
    {
        let m = chars_of(markers[i]);
        proof {
            assert(list[i as int] == markers@.map_values(|s: &'static str| s@)[i as int]);
            assert(list.skip(i as int).first() == m@);
            assert(list.skip(i as int).drop_first() =~= list.skip(i + 1));
        }
        match index_of(lower.as_slice(), m.as_slice()) {
            Some(k) => {
                let n: usize = base.len();
                let head = slice_subrange(base, 0, k);
                let tail = slice_subrange(base, k + m.len(), n);
                assert(head@ =~= base@.take(k as int));
                assert(tail@ =~= base@.skip(k + m@.len()));
                return Some((slice_to_vec(head), slice_to_vec(tail)));
            },
            None => {},
        }
        i = i + 1;
    }
    assert(list.skip(list.len() as int) =~= Seq::<Seq<char>>::empty());
    None
}

/// Parse a track title into base name + version information.
pub fn parse_title(raw: &str) -> (r: ParsedTitle)
    ensures
        r@ == parsed_title(raw@),
{
    let raw_chars = chars_of(raw);
    let (segments, remainder) = bracket_segments(raw_chars.as_slice());
    let ghost segs = seqs(segments@);

    let mut kind: MixKind = MixKind::Unlabelled;
    let mut remixer: Option<String> = None;
    let mut mix_raw: Option<String> = None;
    let mut featured: Vec<String> = Vec::new();
    let mut kept: Vec<Vec<char>> = Vec::new();
    let mut i: usize = 0;
    assert(views(featured@) =~= Seq::<Seq<char>>::empty());
    assert(seqs(kept@) =~= Seq::<Seq<char>>::empty());
    while i < segments.len()
        invariant
            i <= segments.len(),
            segs == seqs(segments@),
            (Reading {
                kind,
                remixer: opt_view(remixer),
                mix_raw: opt_view(mix_raw),
                featured: views(featured@),
                kept: seqs(kept@),
            }) == read_segments(segs.take(i as int)),
        decreases segments.len() - i,
    {
        let segment = segments[i].as_slice();
        proof {
            assert(segs.take(i + 1).drop_last() =~= segs.take(i as int));
            assert(segs.take(i + 1).last() == segment@);
        }
        i = i + 1;
        match strip_feature_marker(segment) {
            Some(guests) => {
                append_strings(&mut featured, split_names(guests));
            },
            None => {
                let text = string_of(segment);
                match classify_segment(text.as_str()) {
                    Some((k, r)) => {
                        kind = k;
                        if r.is_some() {
                            remixer = r;
                        }
                        mix_raw = Some(text);
                    },
                    None => {
                        kept.push(slice_to_vec(segment));
                    },
                }
            },
        }
    }
    assert(segs.take(segs.len() as int) =~= segs);
    let ghost first = Draft {
        base: trimmed(scan(raw@).remainder),
        reading: read_segments(segments_of(raw@)),
    };

    let mut base: Vec<char> = slice_to_vec(trim(remainder.as_slice()));

    // Beatport and some stores use "Title - Extended Mix" with no brackets.
    if kind == MixKind::Unlabelled {
        let dash = chars_of(" - ");
        match last_index_of(base.as_slice(), dash.as_slice()) {
            Some(idx) => {
                let n: usize = base.len();
                let head = slice_subrange(base.as_slice(), 0, idx);
                let rest = slice_subrange(base.as_slice(), idx + dash.len(), n);
                assert(head@ =~= base@.take(idx as int));
                assert(rest@ =~= base@.skip(idx + dash@.len()));
                let tail = string_of(trim(rest));
                match classify_segment(tail.as_str()) {
                    Some((k, r)) => {
                        kind = k;
                        remixer = r;
                        mix_raw = Some(tail);
                        base = slice_to_vec(trim(head));
                    },
                    None => {},
                }
            },
            None => {},
        }
    }
    let ghost second = read_dash(first);
    assert(second.base == base@);
    assert(second.reading.kind == kind);

    // Inline "feat." in the main title, e.g. "Title feat. Someone".
    match cut_inline(base.as_slice()) {
        Some((head, tail)) => {
            append_strings(&mut featured, split_names(tail.as_slice()));
            base = slice_to_vec(trim(head.as_slice()));
        },
        None => {},
    }
    let ghost third = read_inline(second);
    assert(third == read_title(raw@));
    assert(third.base == base@);
    assert(third.reading.featured == views(featured@));

    let ghost cut = base@;
    let mut k: usize = 0;
    assert(seqs(kept@).take(0) =~= Seq::<Seq<char>>::empty());
    while k < kept.len()
        invariant
            k <= kept.len(),
            base@ == with_kept(cut, seqs(kept@).take(k as int)),
        decreases kept.len() - k,
    {
        let open = chars_of(" (");
        extend(&mut base, open.as_slice());
        extend(&mut base, kept[k].as_slice());
        let close = chars_of(")");
        extend(&mut base, close.as_slice());
        k = k + 1;
        assert(seqs(kept@).take(k as int).drop_last() =~= seqs(kept@).take(k - 1));
    }
    assert(seqs(kept@).take(kept@.len() as int) =~= seqs(kept@));

    let stripped = trim(strip_trailing(trim(base.as_slice()), '-'));
    let base = if stripped.len() == 0 {
        string_of(trim(raw_chars.as_slice()))
    } else {
        string_of(stripped)
    };

    let remixer_norm: Option<String> = match &remixer {
        Some(r) => Some(normalize(r.as_str())),
        None => None,
    };
    let r = ParsedTitle {
        raw: string_of(raw_chars.as_slice()),
        base_norm: normalize(base.as_str()),
        base,
        kind,
        remixer_norm,
        remixer,
        featured,
        mix_raw,
    };
    reveal(parsed_title);
    assert(r@ =~= parsed_title(raw@));
    r
}

impl ParsedTitle {
    /// A short name for the version: "adam beyer remix", "extended", or "-".
    pub open spec fn label(v: TitleView) -> Seq<char> {
        match v.remixer {
            Some(r) if v.kind.derivative() => r + " "@ + v.kind.label(),
            _ => if v.kind == MixKind::Unlabelled {
                "-"@
            } else {
                v.kind.label()
            },
        }
    }

    pub fn descriptor_label(&self) -> (r: String)
        ensures
            r@ == Self::label(self@),
    {
        match &self.remixer {
            Some(remixer) => {
                if self.kind.is_derivative() {
                    let mut label = remixer.clone();
                    label.append(" ");
                    label.append(self.kind.as_str());
                    return label;
                }
            },
            None => {},
        }
        if self.kind == MixKind::Unlabelled {
            "-".to_string()
        } else {
            self.kind.as_str().to_string()
        }
    }
}

/// Whether a bracketed segment names a version of the song.
pub open spec fn names_version(segment: Seq<char>) -> bool {
    guest_clause(segment) is None && version_of(normalized(segment)) is Some
}

/// Whether a bracketed segment is part of the name of the song.
pub open spec fn is_part_of_name(segment: Seq<char>) -> bool {
    guest_clause(segment) is None && version_of(normalized(segment)) is None
}

/// A segment that names a version names one, never the lack of one. It names a
/// remixer only where someone else cut the record, and then with a name. One
/// that normalizes to nothing names no version.
pub proof fn law_named_version_is_one(n: Seq<char>)
    ensures
        version_of(n) matches Some((kind, remixer)) ==> {
            &&& kind != MixKind::Unlabelled
            &&& remixer matches Some(name) ==> kind.derivative() && name.len() > 0
        },
        n.len() == 0 ==> version_of(n) is None,
{
}

/// An ASCII segment names the version that its normal form names.
pub proof fn law_normal_form_names_the_same_version(segment: Seq<char>)
    requires
        is_ascii_text(segment),
    ensures
        version_of(ascii_normal(ascii_normal(segment))) == version_of(ascii_normal(segment)),
{
    law_normalizing_twice_changes_nothing(segment);
}

proof fn lemma_last_version(segments: Seq<Seq<char>>, i: int)
    requires
        0 <= i < segments.len(),
        names_version(segments[i]),
        forall|j: int| i < j < segments.len() ==> !names_version(#[trigger] segments[j]),
    ensures
        read_segments(segments).kind == (version_of(normalized(segments[i]))->0).0,
        read_segments(segments).mix_raw == Some(segments[i]),
    decreases segments.len(),
{
    if i < segments.len() - 1 {
        let init = segments.drop_last();
        assert(!names_version(segments[segments.len() - 1]));
        assert(init[i] == segments[i]);
        assert forall|j: int| i < j < init.len() implies !names_version(#[trigger] init[j]) by {
            assert(init[j] == segments[j]);
        }
        lemma_last_version(init, i);
    }
}

/// A mix descriptor is parsed into a field, never stripped and thrown away:
/// the last bracketed segment that names a version gives its kind and is kept
/// as it was written.
pub proof fn law_descriptor_is_parsed_not_stripped(raw: Seq<char>, i: int)
    requires
        0 <= i < segments_of(raw).len(),
        names_version(segments_of(raw)[i]),
        forall|j: int|
            i < j < segments_of(raw).len() ==> !names_version(#[trigger] segments_of(raw)[j]),
    ensures
        parsed_title(raw).kind == (version_of(normalized(segments_of(raw)[i]))->0).0,
        parsed_title(raw).kind != MixKind::Unlabelled,
        parsed_title(raw).mix_raw == Some(segments_of(raw)[i]),
{
    reveal(parsed_title);
    lemma_last_version(segments_of(raw), i);
}

proof fn lemma_unlabelled(segments: Seq<Seq<char>>)
    ensures
        read_segments(segments).kind == MixKind::Unlabelled <==> read_segments(segments).mix_raw
            is None,
        read_segments(segments).kind == MixKind::Unlabelled ==> read_segments(segments).remixer
            is None,
    decreases segments.len(),
{
    if segments.len() > 0 {
        lemma_unlabelled(segments.drop_last());
    }
}

/// A title is unlabelled exactly when no descriptor was found in it, and then
/// it names no remixer.
pub proof fn law_unlabelled_has_no_descriptor(raw: Seq<char>)
    ensures
        parsed_title(raw).kind == MixKind::Unlabelled <==> parsed_title(raw).mix_raw is None,
        parsed_title(raw).kind == MixKind::Unlabelled ==> parsed_title(raw).remixer is None,
{
    reveal(parsed_title);
    lemma_unlabelled(segments_of(raw));
}

proof fn lemma_kept(segments: Seq<Seq<char>>, i: int)
    requires
        0 <= i < segments.len(),
        is_part_of_name(segments[i]),
    ensures
        read_segments(segments).kept.contains(segments[i]),
    decreases segments.len(),
{
    let init = segments.drop_last();
    let before = read_segments(init).kept;
    let after = read_segments(segments).kept;
    if i < init.len() {
        lemma_kept(init, i);
        let k = choose|k: int| 0 <= k < before.len() && before[k] == init[i];
        assert(after[k] == before[k]);
    } else {
        assert(after[before.len() as int] == segments[i]);
    }
}

proof fn lemma_with_kept(base: Seq<char>, kept: Seq<Seq<char>>, k: int)
    requires
        0 <= k < kept.len(),
    ensures
        contains(with_kept(base, kept), "("@ + kept[k] + ")"@),
        with_kept(base, kept).last() == ')',
        with_kept(base, kept).len() > 0,
    decreases kept.len(),
{
    reveal_strlit("(");
    reveal_strlit(" (");
    reveal_strlit(")");
    let before = with_kept(base, kept.drop_last());
    let r = with_kept(base, kept);
    let needle = "("@ + kept[k] + ")"@;
    if k == kept.len() - 1 {
        let i: int = before.len() as int + 1;
        assert(r.subrange(i, i + needle.len()) =~= needle);
        assert(occurs_at(r, needle, i));
    } else {
        lemma_with_kept(base, kept.drop_last(), k);
        let i = choose|i: int| occurs_at(before, needle, i);
        assert(r.subrange(i, i + needle.len()) =~= before.subrange(i, i + needle.len()));
        assert(occurs_at(r, needle, i));
    }
}

/// A bracketed segment that is part of the song's name stays in the base
/// title, in round brackets.
pub proof fn law_other_brackets_stay_in_the_base(raw: Seq<char>, i: int)
    requires
        0 <= i < segments_of(raw).len(),
        is_part_of_name(segments_of(raw)[i]),
    ensures
        contains(parsed_title(raw).base, "("@ + segments_of(raw)[i] + ")"@),
{
    reveal(parsed_title);
    reveal_strlit("(");
    reveal_strlit(")");
    let d = read_title(raw);
    let kept = d.reading.kept;
    let segment = segments_of(raw)[i];
    lemma_kept(segments_of(raw), i);
    assert(kept == read_segments(segments_of(raw)).kept);
    let k = choose|k: int| 0 <= k < kept.len() && kept[k] == segment;
    lemma_with_kept(d.base, kept, k);
    let whole = with_kept(d.base, kept);
    let needle = "("@ + segment + ")"@;
    lemma_trimmed_keeps(whole, needle);
    let t = trimmed(whole);
    lemma_trimmed(whole);
    assert(t.len() > 0);
    lemma_trimmed_last(whole);
    assert(strip_end(t, '-') == t);
    lemma_trimmed(t);
}

/// The base title has no white space at its ends, and something is left of it
/// unless the whole title is blank.
pub proof fn law_base_is_trimmed_and_never_lost(raw: Seq<char>)
    ensures
        is_trimmed(parsed_title(raw).base),
        trimmed(raw).len() > 0 ==> parsed_title(raw).base.len() > 0,
{
    reveal(parsed_title);
    let d = read_title(raw);
    lemma_trimmed(raw);
    lemma_trimmed(strip_end(trimmed(with_kept(d.base, d.reading.kept)), '-'));
}

proof fn lemma_credited(segments: Seq<Seq<char>>, i: int, name: Seq<char>)
    requires
        0 <= i < segments.len(),
        guest_clause(segments[i]) is Some,
        artist_names(guest_clause(segments[i])->0).contains(name),
    ensures
        read_segments(segments).featured.contains(name),
    decreases segments.len(),
{
    let init = segments.drop_last();
    let before = read_segments(init).featured;
    let after = read_segments(segments).featured;
    if i < init.len() {
        lemma_credited(init, i, name);
        let k = choose|k: int| 0 <= k < before.len() && before[k] == name;
        assert(after[k] == name);
    } else {
        let names = artist_names(guest_clause(segments[i])->0);
        let k = choose|k: int| 0 <= k < names.len() && names[k] == name;
        assert(after[before.len() + k] == name);
    }
}

/// Every guest that a bracketed clause names is credited.
pub proof fn law_guests_are_credited(raw: Seq<char>, i: int, name: Seq<char>)
    requires
        0 <= i < segments_of(raw).len(),
        guest_clause(segments_of(raw)[i]) is Some,
        artist_names(guest_clause(segments_of(raw)[i])->0).contains(name),
    ensures
        parsed_title(raw).featured.contains(name),
{
    reveal(parsed_title);
    lemma_credited(segments_of(raw), i, name);
    let featured = read_segments(segments_of(raw)).featured;
    let k = choose|k: int| 0 <= k < featured.len() && featured[k] == name;
    assert(parsed_title(raw).featured[k] == name);
}

} // verus!
