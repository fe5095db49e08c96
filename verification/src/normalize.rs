//! String normalization and mix-descriptor parsing.
//!
//! The rule that drives this module: a mix descriptor is *parsed into a field*,
//! never stripped and thrown away. "Track (Extended Mix)" and "Track (Radio
//! Edit)" are different recordings, and a matcher that discards the descriptor
//! reports 100% confidence on the wrong one.

use unicode_normalization::UnicodeNormalization;
use vstd::prelude::*;
use vstd::slice::slice_to_vec;

use crate::tags::ascii_upper;
use crate::text::{
    ascii_lower, chars_of, extend, is_trimmed, is_white_space, join, join_chars, lemma_trimmed,
    reads, same_str, seqs, split_words, string_of, trim, trim_end, trim_start, trimmed, views,
    words,
};
use crate::unit::{
    lemma_nearest_bound, lemma_share_of_bits, nearest, round_div, share_from_bits, share_of_bits,
    ONE,
};
use crate::wordset::{
    count_shared, insert_word, lemma_contained_len, lemma_shared_all, lemma_word_set, shared,
    word_set,
};

pub use crate::title::{parse_title, split_artists, ParsedTitle};

verus! {

broadcast use {crate::text::lemma_seqs_push, crate::text::lemma_views_push};

/// What kind of version a mix descriptor names.
#[derive(Debug, Clone, Copy, PartialEq, Eq, Structural)]
pub enum MixKind {
    /// No descriptor present at all.
    Unlabelled,
    Original,
    Extended,
    Radio,
    Club,
    Dub,
    Instrumental,
    Acapella,
    /// Edits, bootlegs, mashups, flips — someone else's cut of the record.
    Edit,
    Vip,
    Remix,
    Rework,
}

impl MixKind {
    /// The lower-case name of the kind; empty when there is no descriptor.
    pub open spec fn label(self) -> Seq<char> {
        match self {
            MixKind::Unlabelled => ""@,
            MixKind::Original => "original"@,
            MixKind::Extended => "extended"@,
            MixKind::Radio => "radio"@,
            MixKind::Club => "club"@,
            MixKind::Dub => "dub"@,
            MixKind::Instrumental => "instrumental"@,
            MixKind::Acapella => "acapella"@,
            MixKind::Edit => "edit"@,
            MixKind::Vip => "vip"@,
            MixKind::Remix => "remix"@,
            MixKind::Rework => "rework"@,
        }
    }

    /// Whether someone else cut the record.
    pub open spec fn derivative(self) -> bool {
        self == MixKind::Remix || self == MixKind::Rework || self == MixKind::Edit || self
            == MixKind::Vip
    }

    /// Whether the descriptor names the full-length club version.
    pub open spec fn long_form(self) -> bool {
        self == MixKind::Extended || self == MixKind::Club
    }

    /// Whether the descriptor names the shortened broadcast version.
    pub open spec fn short_form(self) -> bool {
        self == MixKind::Radio
    }

    pub fn as_str(self) -> (r: &'static str)
        ensures
            r@ == self.label(),
    {
        match self {
            MixKind::Unlabelled => "",
            MixKind::Original => "original",
            MixKind::Extended => "extended",
            MixKind::Radio => "radio",
            MixKind::Club => "club",
            MixKind::Dub => "dub",
            MixKind::Instrumental => "instrumental",
            MixKind::Acapella => "acapella",
            MixKind::Edit => "edit",
            MixKind::Vip => "vip",
            MixKind::Remix => "remix",
            MixKind::Rework => "rework",
        }
    }

    /// True when the descriptor implies a different performer/producer cut the
    /// record, not just a different length of the same recording.
    pub fn is_derivative(self) -> (r: bool)
        ensures
            r == self.derivative(),
    {
        matches!(self, MixKind::Remix | MixKind::Rework | MixKind::Edit | MixKind::Vip)
    }

    /// Descriptors that mean "the full-length club version".
    pub fn is_long_form(self) -> (r: bool)
        ensures
            r == self.long_form(),
    {
        matches!(self, MixKind::Extended | MixKind::Club)
    }

    /// Descriptors that mean "the shortened broadcast version".
    pub fn is_short_form(self) -> (r: bool)
        ensures
            r == self.short_form(),
    {
        matches!(self, MixKind::Radio)
    }
}

/// Whether every character is one of the first 128.
pub open spec fn is_ascii_text(s: Seq<char>) -> bool {
    forall|i: int| 0 <= i < s.len() ==> #[trigger] s[i] < '\u{80}'
}

/// The characters of a text in Unicode Normalization Form KD.
pub uninterp spec fn nfkd(s: Seq<char>) -> Seq<char>;

/// `UnicodeNormalization::nfkd` of `unicode-normalization`: the compatibility
/// decomposition of the text, which depends on the text alone. ASCII never
/// decomposes.
#[verifier::external_body]
fn decompose(input: &str) -> (r: Vec<char>)
    ensures
        r@ == nfkd(input@),
        is_ascii_text(input@) ==> r@ == input@,
{
    input.nfkd().collect()
}

/// Whether a character is a letter or a number.
pub uninterp spec fn alphanumeric(c: char) -> bool;

/// `char::is_alphanumeric`: the Unicode property, which depends on the
/// character alone. In ASCII it holds of the letters and the digits.
pub assume_specification[ char::is_alphanumeric ](c: char) -> (r: bool)
    ensures
        r == alphanumeric(c),
        c < '\u{80}' ==> r == ('a' <= c <= 'z' || 'A' <= c <= 'Z' || '0' <= c <= '9'),
;

/// The lower-case mapping of a character.
pub uninterp spec fn lowercase(c: char) -> Seq<char>;

/// `char::to_lowercase`: the lower-case mapping of the character, one or more
/// characters that depend on it alone. An ASCII character maps to one
/// character, its ASCII lower-case form.
#[verifier::external_body]
fn lowercase_of(c: char) -> (r: Vec<char>)
    ensures
        r@ == lowercase(c),
        r@.len() >= 1,
        c < '\u{80}' ==> r@ == seq![ascii_lower(c)],
{
    c.to_lowercase().collect()
}

/// A combining mark of the kind that decomposition splits off a letter.
pub open spec fn is_combining(c: char) -> bool {
    '\u{0300}' <= c <= '\u{036f}'
}

/// Typographic quotes and dashes in their plain form.
pub open spec fn plain(c: char) -> char {
    if c == '\u{2018}' || c == '\u{2019}' || c == '\u{02bc}' {
        '\''
    } else if c == '\u{201c}' || c == '\u{201d}' {
        '"'
    } else if c == '\u{2013}' || c == '\u{2014}' || c == '\u{2212}' {
        '-'
    } else {
        c
    }
}

/// What has been written so far, and whether the next word may start without a
/// space before it.
pub struct Folding {
    pub out: Seq<char>,
    pub at_gap: bool,
}

/// One more character folded in: marks vanish, an ampersand reads "and",
/// letters and numbers are lowered, and a run of anything else is one space.
pub open spec fn fold_char(st: Folding, c: char) -> Folding {
    if is_combining(c) {
        st
    } else if plain(c) == '&' {
        let gap = if st.at_gap {
            st.out
        } else {
            st.out.push(' ')
        };
        Folding { out: gap + "and "@, at_gap: true }
    } else if alphanumeric(plain(c)) {
        Folding { out: st.out + lowercase(plain(c)), at_gap: false }
    } else if !st.at_gap {
        Folding { out: st.out.push(' '), at_gap: true }
    } else {
        st
    }
}

/// All of `s` folded, from an empty start.
pub open spec fn fold_chars(s: Seq<char>) -> Folding
    decreases s.len(),
{
    if s.len() == 0 {
        Folding { out: Seq::empty(), at_gap: true }
    } else {
        fold_char(fold_chars(s.drop_last()), s.last())
    }
}

/// `input` in lower case, without diacritics and punctuation, its words apart
/// by single spaces.
pub open spec fn normalized(input: Seq<char>) -> Seq<char> {
    trimmed(fold_chars(nfkd(input)).out)
}

/// Whether a character is an ASCII letter or digit.
pub open spec fn is_ascii_alphanumeric(c: char) -> bool {
    'a' <= c <= 'z' || 'A' <= c <= 'Z' || '0' <= c <= '9'
}

/// One more ASCII character folded in.
pub open spec fn fold_ascii_char(st: Folding, c: char) -> Folding {
    if c == '&' {
        let gap = if st.at_gap {
            st.out
        } else {
            st.out.push(' ')
        };
        Folding { out: gap + "and "@, at_gap: true }
    } else if is_ascii_alphanumeric(c) {
        Folding { out: st.out.push(ascii_lower(c)), at_gap: false }
    } else if !st.at_gap {
        Folding { out: st.out.push(' '), at_gap: true }
    } else {
        st
    }
}

/// All of an ASCII text folded, from an empty start.
pub open spec fn fold_ascii(s: Seq<char>) -> Folding
    decreases s.len(),
{
    if s.len() == 0 {
        Folding { out: Seq::empty(), at_gap: true }
    } else {
        fold_ascii_char(fold_ascii(s.drop_last()), s.last())
    }
}

/// An ASCII text in lower case and without punctuation, its words apart by
/// single spaces.
pub open spec fn ascii_normal(input: Seq<char>) -> Seq<char> {
    trimmed(fold_ascii(input).out)
}

/// Typographic quotes and dashes in their plain form.
fn plain_of(c: char) -> (r: char)
    ensures
        r == plain(c),
{
    match c {
        '\u{2018}' | '\u{2019}' | '\u{02bc}' => '\'',
        '\u{201c}' | '\u{201d}' => '"',
        '\u{2013}' | '\u{2014}' | '\u{2212}' => '-',
        other => other,
    }
}

/// Lowercase, strip diacritics and punctuation, collapse whitespace.
pub fn normalize(input: &str) -> (r: String)
    ensures
        r@ == normalized(input@),
        is_ascii_text(input@) ==> r@ == ascii_normal(input@),
{
    let chars = decompose(input);
    fold_decomposed(chars.as_slice())
}

/// The rest of [`normalize`], once the text is decomposed.
pub fn fold_decomposed(chars: &[char]) -> (r: String)
    ensures
        r@ == trimmed(fold_chars(chars@).out),
        is_ascii_text(chars@) ==> r@ == ascii_normal(chars@),
{
    let mut out: Vec<char> = Vec::new();
    let mut at_gap: bool = true;
    let mut i: usize = 0;
    while i < chars.len()
        invariant
            i <= chars.len(),
            out@ == fold_chars(chars@.take(i as int)).out,
            at_gap == fold_chars(chars@.take(i as int)).at_gap,
            is_ascii_text(chars@) ==> out@ == fold_ascii(chars@.take(i as int)).out,
            is_ascii_text(chars@) ==> at_gap == fold_ascii(chars@.take(i as int)).at_gap,
        decreases chars.len() - i,
    {
        let c = chars[i];
        i = i + 1;
        assert(chars@.take(i as int).drop_last() =~= chars@.take(i - 1));
        assert(chars@.take(i as int).last() == chars@[i - 1]);
        // Drop combining marks left behind by NFKD, so "Sébastien" == "Sebastien".
        if '\u{0300}' <= c && c <= '\u{036f}' {
            continue ;
        }
        let c = plain_of(c);
        if c == '&' {
            if !at_gap {
                out.push(' ');
            }
            let and = chars_of("and ");
            extend(&mut out, and.as_slice());
            at_gap = true;
        } else if c.is_alphanumeric() {
            let lower = lowercase_of(c);
            extend(&mut out, lower.as_slice());
            at_gap = false;
        } else if !at_gap {
            out.push(' ');
            at_gap = true;
        }
    }
    assert(chars@.take(chars@.len() as int) =~= chars@);
    string_of(trim(out.as_slice()))
}

/// Connective words that carry no identifying signal.
pub open spec fn is_stop_word(w: Seq<char>) -> bool {
    ||| w == "feat"@
    ||| w == "featuring"@
    ||| w == "ft"@
    ||| w == "with"@
    ||| w == "and"@
    ||| w == "vs"@
    ||| w == "versus"@
    ||| w == "pres"@
    ||| w == "presents"@
    ||| w == "the"@
    ||| w == "a"@
}

fn stop_word(w: &[char]) -> (r: bool)
    ensures
        r == is_stop_word(w@),
{
    reads(w, "feat") || reads(w, "featuring") || reads(w, "ft") || reads(w, "with") || reads(
        w,
        "and",
    ) || reads(w, "vs") || reads(w, "versus") || reads(w, "pres") || reads(w, "presents") || reads(
        w,
        "the",
    ) || reads(w, "a")
}

/// The words that are not connectives.
pub open spec fn significant(ws: Seq<Seq<char>>) -> Seq<Seq<char>> {
    ws.filter(|w: Seq<char>| !is_stop_word(w))
}

/// The different identifying words of a text, in order.
pub open spec fn token_list(input: Seq<char>) -> Seq<Seq<char>> {
    word_set(significant(words(normalized(input))))
}

fn token_words(input: &str) -> (r: Vec<Vec<char>>)
    ensures
        seqs(r@) == token_list(input@),
{
    let norm = normalize(input);
    let chars = chars_of(norm.as_str());
    let all = split_words(chars.as_slice());
    let ghost ws = seqs(all@);
    let mut set: Vec<Vec<char>> = Vec::new();
    assert(seqs(set@) =~= Seq::<Seq<char>>::empty());
    let mut i: usize = 0;
    proof {
        reveal(Seq::filter);
        assert(ws.take(0) =~= Seq::<Seq<char>>::empty());
    }
    while i < all.len()
        invariant
            i <= all.len(),
            ws == seqs(all@),
            seqs(set@) == word_set(significant(ws.take(i as int))),
        decreases all.len() - i,
    {
        proof {
            reveal(Seq::filter);
            assert(ws.take(i + 1).drop_last() =~= ws.take(i as int));
            assert(ws.take(i + 1).last() == all@[i as int]@);
            let kept = significant(ws.take(i as int));
            assert(kept.push(all@[i as int]@).drop_last() =~= kept);
        }
        if !stop_word(all[i].as_slice()) {
            insert_word(&mut set, slice_to_vec(all[i].as_slice()));
        }
        i = i + 1;
    }
    assert(ws.take(all@.len() as int) =~= ws);
    set
}

/// Tokens of a normalized string, minus connective words that carry no
/// identifying signal. Without repetitions, in dictionary order.
pub fn tokens(input: &str) -> (r: Vec<String>)
    ensures
        views(r@) == token_list(input@),
{
    let set = token_words(input);
    let mut r: Vec<String> = Vec::new();
    let mut i: usize = 0;
    while i < set.len()
        invariant
            i <= set.len(),
            views(r@) == seqs(set@).take(i as int),
        decreases set.len() - i,
    {
        r.push(string_of(set[i].as_slice()));
        i = i + 1;
        assert(views(r@) =~= seqs(set@).take(i as int));
    }
    assert(seqs(set@).take(set@.len() as int) =~= seqs(set@));
    r
}

/// The 64-bit pattern of the Jaro-Winkler similarity of two texts.
pub uninterp spec fn jaro_winkler_bits(a: Seq<char>, b: Seq<char>) -> u64;

/// `strsim::jaro_winkler`: the similarity of the two texts, handed out as the
/// bit pattern of the number. It depends on the two texts alone.
#[verifier::external_body]
fn jaro_winkler(a: &str, b: &str) -> (r: u64)
    ensures
        r == jaro_winkler_bits(a@, b@),
{
    strsim::jaro_winkler(a, b).to_bits()
}

/// The Jaro-Winkler similarity of two texts, as a share.
pub open spec fn edit_similarity(a: Seq<char>, b: Seq<char>) -> int {
    share_of_bits(jaro_winkler_bits(a, b))
}

/// The largest of three shares, and no more than the whole.
pub open spec fn best_of(a: int, b: int, c: int) -> int {
    let ab = if a >= b {
        a
    } else {
        b
    };
    let abc = if ab >= c {
        ab
    } else {
        c
    };
    if abc <= ONE {
        abc
    } else {
        ONE as int
    }
}

/// How alike two token lists are: the larger of their Dice coefficient, 0.92
/// when one holds all of the other, and 0.95 of the edit similarity of the
/// lists written out.
pub open spec fn list_similarity(ta: Seq<Seq<char>>, tb: Seq<Seq<char>>, edit: int) -> int {
    let common = shared(ta, tb);
    let dice = nearest(2 * common * ONE, (ta.len() + tb.len()) as int);
    let smaller = if ta.len() <= tb.len() {
        ta.len()
    } else {
        tb.len()
    };
    let containment: int = if common == smaller {
        920_000_000
    } else {
        0
    };
    if ta.len() == 0 || tb.len() == 0 {
        0
    } else {
        best_of(dice, containment, nearest(95 * edit, 100))
    }
}

/// How alike two texts are by their tokens.
#[verifier::opaque]
pub open spec fn token_similarity(a: Seq<char>, b: Seq<char>) -> int {
    let ta = token_list(a);
    let tb = token_list(b);
    list_similarity(ta, tb, edit_similarity(join(ta, " "@), join(tb, " "@)))
}

/// The rest of [`token_set_similarity`], given the edit similarity of the two
/// token lists written out.
pub fn compare_tokens(ta: &Vec<Vec<char>>, tb: &Vec<Vec<char>>, edit: u64) -> (r: u64)
    ensures
        r == list_similarity(seqs(ta@), seqs(tb@), edit as int),
        r <= ONE,
{
    if ta.len() == 0 || tb.len() == 0 {
        return 0;
    }
    let common: usize = count_shared(ta, tb);
    let total: u128 = ta.len() as u128 + tb.len() as u128;
    let twice: u128 = 2 * common as u128;
    assert(twice * ONE <= 0x2_0000_0000_0000_0000 * 1_000_000_000) by (nonlinear_arith)
        requires
            twice <= 0x2_0000_0000_0000_0000,
            ONE == 1_000_000_000,
    ;
    let dice: u128 = round_div(twice * ONE as u128, total);

    let smaller: usize = if ta.len() <= tb.len() {
        ta.len()
    } else {
        tb.len()
    };
    let containment: u128 = if common == smaller {
        920_000_000
    } else {
        0
    };

    // Fuzzy floor catches spelling drift that token equality misses.
    let fuzzy: u128 = round_div(95 * edit as u128, 100);

    let mut best: u128 = dice;
    if containment > best {
        best = containment;
    }
    if fuzzy > best {
        best = fuzzy;
    }
    if best > ONE as u128 {
        best = ONE as u128;
    }
    best as u64
}

/// Dice coefficient over token sets, with a containment boost so that
/// "Artist feat. Guest" still scores high against "Artist".
pub fn token_set_similarity(a: &str, b: &str) -> (r: u64)
    ensures
        r == token_similarity(a@, b@),
        r <= ONE,
{
    reveal(token_similarity);
    let ta = token_words(a);
    let tb = token_words(b);
    let space = chars_of(" ");
    let joined_a = string_of(join_chars(&ta, space.as_slice()).as_slice());
    let joined_b = string_of(join_chars(&tb, space.as_slice()).as_slice());
    let edit: u64 = share_from_bits(jaro_winkler(joined_a.as_str(), joined_b.as_str()));
    compare_tokens(&ta, &tb, edit)
}

/// How alike two normalized texts are: wholly when they are the same, else six
/// parts edit similarity to four parts token similarity.
pub open spec fn blended(na: Seq<char>, nb: Seq<char>, edit: int, set: int) -> int {
    if na.len() == 0 || nb.len() == 0 {
        0
    } else if na == nb {
        ONE as int
    } else {
        nearest(60 * edit + 40 * set, 100)
    }
}

/// How alike two texts are.
#[verifier::opaque]
pub open spec fn similarity(a: Seq<char>, b: Seq<char>) -> int {
    let na = normalized(a);
    let nb = normalized(b);
    blended(na, nb, edit_similarity(na, nb), token_similarity(a, b))
}

/// The rest of [`text_similarity`], given the normalized texts and their
/// similarities by edit distance and by tokens.
pub fn blend(na: &str, nb: &str, edit: u64, set: u64) -> (r: u64)
    ensures
        r == blended(na@, nb@, edit as int, set as int),
        edit <= ONE && set <= ONE ==> r <= ONE,
{
    if na.is_empty() || nb.is_empty() {
        return 0;
    }
    if same_str(na, nb) {
        return ONE;
    }
    let parts: u128 = 60 * edit as u128 + 40 * set as u128;
    proof {
        lemma_nearest_bound(parts as int, 100, u64::MAX as int);
        if edit <= ONE && set <= ONE {
            lemma_nearest_bound(parts as int, 100, ONE as int);
        }
    }
    round_div(parts, 100) as u64
}

/// Similarity of two already-normalized-ish strings, blending edit distance
/// with token overlap so word order does not dominate.
pub fn text_similarity(a: &str, b: &str) -> (r: u64)
    ensures
        r == similarity(a@, b@),
        r <= ONE,
{
    reveal(similarity);
    let na = normalize(a);
    let nb = normalize(b);
    let edit: u64 = share_from_bits(jaro_winkler(na.as_str(), nb.as_str()));
    let set: u64 = token_set_similarity(a, b);
    blend(na.as_str(), nb.as_str(), edit, set)
}

/// Token similarity is a share of one.
pub proof fn lemma_token_similarity_share(a: Seq<char>, b: Seq<char>)
    ensures
        0 <= token_similarity(a, b) <= ONE,
{
    reveal(token_similarity);
    let ta = token_list(a);
    let tb = token_list(b);
    if ta.len() > 0 && tb.len() > 0 {
        let n = (ta.len() + tb.len()) as int;
        let parts = 2 * shared(ta, tb) * ONE;
        assert(0 <= (2 * parts + n) / (2 * n)) by (nonlinear_arith)
            requires
                0 <= parts,
                0 < n,
        ;
    }
}

/// Text similarity is a share of one.
pub proof fn lemma_similarity_share(a: Seq<char>, b: Seq<char>)
    ensures
        0 <= similarity(a, b) <= ONE,
{
    reveal(similarity);
    let edit = edit_similarity(normalized(a), normalized(b));
    let set = token_similarity(a, b);
    lemma_token_similarity_share(a, b);
    lemma_share_of_bits(jaro_winkler_bits(normalized(a), normalized(b)));
    lemma_nearest_bound(60 * edit + 40 * set, 100, ONE as int);
}

/// Whether a character belongs to the normal form of an ASCII text.
pub open spec fn is_normal_char(c: char) -> bool {
    'a' <= c <= 'z' || '0' <= c <= '9' || c == ' '
}

/// Whether a text holds lower-case letters, digits and single spaces alone, and
/// starts with no space.
pub open spec fn is_spaced(s: Seq<char>) -> bool {
    &&& forall|i: int| 0 <= i < s.len() ==> is_normal_char(#[trigger] s[i])
    &&& forall|i: int|
        0 <= i < s.len() && #[trigger] s[i] == ' ' ==> i > 0 && s[i - 1] != ' '
}

proof fn lemma_fold_ascii(s: Seq<char>)
    ensures
        is_spaced(fold_ascii(s).out),
        fold_ascii(s).at_gap == (fold_ascii(s).out.len() == 0 || fold_ascii(s).out.last() == ' '),
    decreases s.len(),
{
    if s.len() > 0 {
        reveal_strlit("and ");
        lemma_fold_ascii(s.drop_last());
        let before = fold_ascii(s.drop_last());
        let after = fold_ascii(s);
        if s.last() == '&' {
            let gap = if before.at_gap {
                before.out
            } else {
                before.out.push(' ')
            };
            assert(is_spaced(gap));
            assert(after.out =~= gap + seq!['a', 'n', 'd', ' ']);
        }
    }
}

proof fn lemma_fold_spaced(s: Seq<char>)
    requires
        is_spaced(s),
    ensures
        fold_ascii(s) == (Folding { out: s, at_gap: s.len() == 0 || s.last() == ' ' }),
    decreases s.len(),
{
    if s.len() > 0 {
        let init = s.drop_last();
        assert forall|i: int| 0 <= i < init.len() && #[trigger] init[i] == ' ' implies i > 0
            && init[i - 1] != ' ' by {
            assert(s[i] == ' ');
        }
        assert(is_spaced(init));
        lemma_fold_spaced(init);
        assert(s[s.len() - 1] == s.last());
        assert(init.push(s.last()) =~= s);
    } else {
        assert(s =~= Seq::<char>::empty());
    }
}

proof fn lemma_spaced_trimmed(s: Seq<char>)
    requires
        is_spaced(s),
    ensures
        is_spaced(trimmed(s)),
{
    lemma_trimmed(s);
    if s.len() > 0 {
        assert(s[0] != ' ');
        assert(trim_start(s) == s);
        if is_white_space(s.last()) {
            let t = s.drop_last();
            assert(s[s.len() - 1] == ' ');
            assert(t.last() == s[s.len() - 2]);
            assert(is_normal_char(s[s.len() - 2]));
            assert(trim_end(t) == t);
            assert forall|i: int| 0 <= i < t.len() && #[trigger] t[i] == ' ' implies i > 0 && t[i
                - 1] != ' ' by {
                assert(s[i] == ' ');
            }
        }
    }
}

/// The normal form of an ASCII text holds lower-case letters, digits and single
/// spaces alone, none of them at either end.
pub proof fn law_ascii_normal_form_is_plain(s: Seq<char>)
    requires
        is_ascii_text(s),
    ensures
        is_ascii_text(ascii_normal(s)),
        is_spaced(ascii_normal(s)),
        is_trimmed(ascii_normal(s)),
{
    lemma_fold_ascii(s);
    lemma_spaced_trimmed(fold_ascii(s).out);
    lemma_trimmed(fold_ascii(s).out);
    let n = ascii_normal(s);
    assert forall|i: int| 0 <= i < n.len() implies #[trigger] n[i] < '\u{80}' by {
        assert(is_normal_char(n[i]));
    }
}

/// Normalizing an ASCII text twice gives what normalizing it once does.
pub proof fn law_normalizing_twice_changes_nothing(s: Seq<char>)
    requires
        is_ascii_text(s),
    ensures
        ascii_normal(ascii_normal(s)) == ascii_normal(s),
{
    law_ascii_normal_form_is_plain(s);
    lemma_fold_spaced(ascii_normal(s));
    lemma_trimmed(ascii_normal(s));
}

/// Capitals make no difference to the normal form of an ASCII text.
pub proof fn law_capitals_do_not_count(s: Seq<char>)
    requires
        is_ascii_text(s),
    ensures
        ascii_normal(s.map_values(|c: char| ascii_upper(c))) == ascii_normal(s),
{
    lemma_fold_capitals(s);
}

proof fn lemma_fold_capitals(s: Seq<char>)
    ensures
        fold_ascii(s.map_values(|c: char| ascii_upper(c))) == fold_ascii(s),
    decreases s.len(),
{
    let t = s.map_values(|c: char| ascii_upper(c));
    if s.len() > 0 {
        lemma_fold_capitals(s.drop_last());
        assert(t.drop_last() =~= s.drop_last().map_values(|c: char| ascii_upper(c)));
        assert(t.last() == ascii_upper(s.last()));
    }
}

/// Whether all white space in a text is single spaces, none of them in front.
pub open spec fn has_single_spaces(s: Seq<char>) -> bool {
    forall|i: int|
        0 <= i < s.len() && is_white_space(#[trigger] s[i]) ==> s[i] == ' ' && i > 0 && s[i - 1]
            != ' '
}

/// Whether a text is there and holds no white space.
pub open spec fn is_unbroken(low: Seq<char>) -> bool {
    low.len() > 0 && forall|k: int| 0 <= k < low.len() ==> !is_white_space(#[trigger] low[k])
}

/// Whether the letters and numbers of a text have lower-case forms, and these
/// hold no white space.
pub open spec fn lowers_to_words(s: Seq<char>) -> bool {
    forall|i: int|
        0 <= i < s.len() && alphanumeric(plain(#[trigger] s[i])) ==> is_unbroken(
            lowercase(plain(s[i])),
        )
}

proof fn lemma_fold_chars(s: Seq<char>)
    requires
        lowers_to_words(s),
    ensures
        has_single_spaces(fold_chars(s).out),
        fold_chars(s).at_gap == (fold_chars(s).out.len() == 0 || fold_chars(s).out.last() == ' '),
    decreases s.len(),
{
    if s.len() > 0 {
        reveal_strlit("and ");
        let init = s.drop_last();
        assert forall|i: int|
            0 <= i < init.len() && alphanumeric(plain(#[trigger] init[i])) implies is_unbroken(
            lowercase(plain(init[i])),
        ) by {
            assert(init[i] == s[i]);
        }
        lemma_fold_chars(init);
        let before = fold_chars(init);
        let after = fold_chars(s);
        let c = s[s.len() - 1];
        if !is_combining(c) && plain(c) == '&' {
            let gap = if before.at_gap {
                before.out
            } else {
                before.out.push(' ')
            };
            assert(has_single_spaces(gap));
            assert(after.out =~= gap + seq!['a', 'n', 'd', ' ']);
        } else if !is_combining(c) && alphanumeric(plain(c)) {
            let low = lowercase(plain(c));
            assert(is_unbroken(low));
            assert(!is_white_space(low[low.len() - 1]));
            assert(after.out.last() == low[low.len() - 1]);
            assert forall|i: int|
                0 <= i < after.out.len() && is_white_space(
                    #[trigger] after.out[i],
                ) implies after.out[i] == ' ' && i > 0 && after.out[i - 1] != ' ' by {
                if i >= before.out.len() {
                    assert(after.out[i] == low[i - before.out.len()]);
                } else {
                    assert(after.out[i] == before.out[i]);
                }
            }
        }
    }
}

/// The normal form of a text has no white space at either end. As far as the
/// lower-case forms of letters hold none, the white space in it is single
/// spaces.
pub proof fn law_normal_form_has_single_spaces(s: Seq<char>)
    ensures
        is_trimmed(normalized(s)),
        lowers_to_words(nfkd(s)) ==> has_single_spaces(normalized(s)),
{
    let out = fold_chars(nfkd(s)).out;
    lemma_trimmed(out);
    if lowers_to_words(nfkd(s)) {
        lemma_fold_chars(nfkd(s));
        if out.len() > 0 {
            assert(!is_white_space(out[0]));
            assert(trim_start(out) == out);
            if is_white_space(out.last()) {
                let t = out.drop_last();
                assert(out[out.len() - 1] == ' ');
                assert(t.last() == out[out.len() - 2]);
                if is_white_space(out[out.len() - 2]) {
                    assert(out[out.len() - 2] == ' ');
                }
                assert(trim_end(t) == t);
                assert forall|i: int|
                    0 <= i < t.len() && is_white_space(#[trigger] t[i]) implies t[i] == ' ' && i > 0
                    && t[i - 1] != ' ' by {
                    assert(t[i] == out[i]);
                }
            }
        }
    }
}

/// Whether there is nothing to normalize in a text: it is decomposed, and holds
/// lower-case letters, numbers and single inner spaces alone.
pub open spec fn is_normal_text(n: Seq<char>) -> bool {
    &&& nfkd(n) == n
    &&& is_trimmed(n)
    &&& is_settled(n)
}

/// Whether a text holds lower-case letters, numbers and single spaces alone, and
/// starts with no space.
pub open spec fn is_settled(n: Seq<char>) -> bool {
    forall|i: int|
        0 <= i < n.len() ==> {
            ||| #[trigger] n[i] == ' ' && i > 0 && n[i - 1] != ' ' && !alphanumeric(' ')
            ||| n[i] != ' ' && n[i] != '&' && !is_combining(n[i]) && plain(n[i]) == n[i]
                && alphanumeric(n[i]) && lowercase(n[i]) == seq![n[i]]
        }
}

proof fn lemma_fold_settled(n: Seq<char>)
    requires
        is_settled(n),
    ensures
        fold_chars(n).out == n,
        fold_chars(n).at_gap == (n.len() == 0 || n.last() == ' '),
    decreases n.len(),
{
    if n.len() > 0 {
        let init = n.drop_last();
        assert forall|i: int| 0 <= i < init.len() implies {
            ||| #[trigger] init[i] == ' ' && i > 0 && init[i - 1] != ' ' && !alphanumeric(' ')
            ||| init[i] != ' ' && init[i] != '&' && !is_combining(init[i]) && plain(init[i])
                == init[i] && alphanumeric(init[i]) && lowercase(init[i]) == seq![init[i]]
        } by {
            assert(init[i] == n[i]);
        }
        lemma_fold_settled(init);
        assert(n[n.len() - 1] == n.last());
        assert(fold_chars(n).out =~= init.push(n.last()));
        assert(init.push(n.last()) =~= n);
    } else {
        assert(fold_chars(n).out =~= n);
    }
}

/// A text in which there is nothing to normalize is its own normal form.
pub proof fn law_normal_text_is_kept(n: Seq<char>)
    ensures
        is_normal_text(n) ==> normalized(n) == n,
{
    if is_normal_text(n) {
        lemma_fold_settled(n);
        lemma_trimmed(n);
    }
}

/// A text with any identifying word is wholly similar to itself, by tokens.
pub proof fn law_token_similarity_reflexive(a: Seq<char>)
    requires
        token_list(a).len() > 0,
    ensures
        token_similarity(a, a) == ONE,
{
    reveal(token_similarity);
    let t = token_list(a);
    assert forall|i: int| 0 <= i < t.len() implies t.contains(#[trigger] t[i]) by {}
    lemma_shared_all(t, t);
    let n = t.len() as int;
    assert(nearest(2 * n * ONE, 2 * n) == ONE) by {
        lemma_nearest_exact(ONE as int, 2 * n);
        assert(2 * n * ONE == ONE * (2 * n)) by (nonlinear_arith);
    }
    assert(t.len() + t.len() == 2 * n);
}

proof fn lemma_nearest_exact(q: int, d: int)
    requires
        0 < d,
    ensures
        nearest(q * d, d) == q,
{
    assert(2 * (q * d) + d == q * (2 * d) + d) by (nonlinear_arith);
    vstd::arithmetic::div_mod::lemma_fundamental_div_mod_converse(
        2 * (q * d) + d,
        2 * d,
        q,
        d,
    );
}

/// When one side holds every token of the other, the two score at least 0.92:
/// a featured guest does not tank the artist.
pub proof fn law_contained_tokens_score_high(a: Seq<char>, b: Seq<char>)
    requires
        token_list(a).len() > 0,
        forall|i: int|
            0 <= i < token_list(a).len() ==> token_list(b).contains(#[trigger] token_list(a)[i]),
    ensures
        token_similarity(a, b) >= 920_000_000,
{
    reveal(token_similarity);
    let ta = token_list(a);
    let tb = token_list(b);
    lemma_shared_all(ta, tb);
    lemma_word_set(significant(words(normalized(a))));
    lemma_word_set(significant(words(normalized(b))));
    lemma_contained_len(ta, tb);
}

/// Two texts that normalize alike, to anything at all, are wholly similar.
pub proof fn law_same_normal_form_is_wholly_similar(a: Seq<char>, b: Seq<char>)
    requires
        normalized(a) == normalized(b),
        normalized(a).len() > 0,
    ensures
        similarity(a, b) == ONE,
{
    reveal(similarity);
}

} // verus!
