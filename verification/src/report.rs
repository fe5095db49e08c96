//! The match-rate report: tallies, and a record per track.

use vstd::prelude::*;
use vstd::slice::slice_subrange;

use crate::binary::{
    as_double, as_single, as_whole_double, double, half_even, round_half_even, single, whole_double,
};
use crate::db::StoredMatch;
use crate::matcher::{MatchMethod, MatchOutcome, OutcomeView, Verdict};
use crate::normalize::MixKind;
use crate::order::{in_order, lemma_placed_at};
use crate::push::{
    cached_reason, cached_row, count_up, counted, should_abort, MIN_ATTEMPTS_BEFORE_ABORT,
};
use crate::spotify::artist_line;
use crate::tags::{LocalTrack, LocalView};
use crate::text::{
    chars_of, decimal, join, join_strings, minutes_seconds, opt_view, or_empty, push_decimal,
    push_large, push_signed, push_two_digits, seqs, signed_decimal, string_from, string_of,
    string_or_empty, two_digits, views,
};
use crate::title::ParsedTitle;
use crate::wordset::{insert_word, word_set};

verus! {

broadcast use {crate::text::lemma_seqs_push, crate::text::lemma_views_push};

/// One track's result. `search_error` is kept separate from the verdict so a
/// failed lookup is never counted as "not on the platform".
#[derive(Debug)]
pub struct Row {
    pub track: LocalTrack,
    pub outcome: MatchOutcome,
    pub search_error: Option<String>,
}

/// What a row says.
#[verifier::ext_equal]
pub struct RowView {
    pub track: LocalView,
    pub outcome: OutcomeView,
    pub search_error: Option<Seq<char>>,
}

impl View for Row {
    type V = RowView;

    open spec fn view(&self) -> RowView {
        RowView {
            track: self.track@,
            outcome: self.outcome@,
            search_error: opt_view(self.search_error),
        }
    }
}

/// What each of the rows says.
pub open spec fn row_views(v: Seq<Row>) -> Seq<RowView> {
    v.map_values(|r: Row| r@)
}

/// A share in parts per billion as a single holds it.
pub open spec fn share_single(share: u64) -> (int, int) {
    single(share as int, 1_000_000_000)
}

/// A share in parts per billion as a whole percentage: a hundred times the
/// single, which is a single again.
pub open spec fn share_percent(share: u64) -> Seq<char> {
    let held = share_single(share);
    let hundredfold = single(100 * held.0, held.1);
    decimal(half_even(hundredfold.0, hundredfold.1) as nat)
}

/// A share in parts per billion with two decimals.
pub open spec fn share_decimals(share: u64) -> Seq<char> {
    let held = share_single(share);
    let hundredths = half_even(100 * held.0, held.1);
    decimal((hundredths / 100) as nat) + "."@ + two_digits((hundredths % 100) as nat)
}

/// A share in parts per billion as a whole percentage.
pub fn percent_text(share: u64) -> (r: String)
    ensures
        r@ == share_percent(share),
{
    let held: (u128, u128) = as_single(share as u128, 1_000_000_000);
    let hundredfold: (u128, u128) = as_single(100 * held.0, held.1);
    let mut r = String::new();
    push_large(&mut r, round_half_even(hundredfold.0, hundredfold.1));
    assert(r@ =~= share_percent(share));
    r
}

/// A share in parts per billion with two decimals.
pub fn decimals_text(share: u64) -> (r: String)
    ensures
        r@ == share_decimals(share),
{
    let held: (u128, u128) = as_single(share as u128, 1_000_000_000);
    let hundredths: u128 = round_half_even(100 * held.0, held.1);
    let mut r = String::new();
    push_large(&mut r, hundredths / 100);
    r.append(".");
    push_two_digits(&mut r, (hundredths % 100) as u64);
    assert(r@ =~= share_decimals(share));
    r
}

/// A part of a total as a percentage, as a double holds it: a hundred times the
/// part, divided by the total, each step a double.
pub open spec fn percentage(part: nat, total: nat) -> (int, int) {
    double(whole_double(100 * whole_double(part as int)), whole_double(total as int))
}

/// A part of a total as a percentage with one decimal; nothing of nothing is
/// zero.
pub open spec fn rate(part: nat, total: nat) -> Seq<char> {
    let held = percentage(part, total);
    let tenths = if total == 0 {
        0
    } else {
        half_even(10 * held.0, held.1)
    };
    decimal((tenths / 10) as nat) + "."@ + decimal((tenths % 10) as nat)
}

/// A part of a total as a whole percentage; nothing of nothing is zero.
pub open spec fn whole_rate(part: nat, total: nat) -> Seq<char> {
    let held = percentage(part, total);
    decimal(
        (if total == 0 {
            0
        } else {
            half_even(held.0, held.1)
        }) as nat,
    )
}

fn percentage_of(part: usize, total: usize) -> (r: (u128, u128))
    requires
        total > 0,
    ensures
        (r.0 as int, r.1 as int) == percentage(part as nat, total as nat),
        r.0 <= 0x1000_0000_0000_0000_0000,
        0 < r.1 <= 0x80_0000_0000_0000_0000_0000_0000_0000,
{
    let hundredfold: u128 = as_whole_double(100 * as_whole_double(part as u128));
    as_double(hundredfold, as_whole_double(total as u128))
}

/// A part of a total as a percentage with one decimal.
pub fn rate_text(part: usize, total: usize) -> (r: String)
    ensures
        r@ == rate(part as nat, total as nat),
{
    let tenths: u128 = if total == 0 {
        0
    } else {
        let held: (u128, u128) = percentage_of(part, total);
        round_half_even(10 * held.0, held.1)
    };
    let mut r = String::new();
    push_large(&mut r, tenths / 10);
    r.append(".");
    push_large(&mut r, tenths % 10);
    assert(r@ =~= rate(part as nat, total as nat));
    r
}

/// A part of a total as a whole percentage.
pub fn whole_rate_text(part: usize, total: usize) -> (r: String)
    ensures
        r@ == whole_rate(part as nat, total as nat),
{
    let percent: u128 = if total == 0 {
        0
    } else {
        let held: (u128, u128) = percentage_of(part, total);
        round_half_even(held.0, held.1)
    };
    let mut r = String::new();
    push_large(&mut r, percent);
    assert(r@ =~= whole_rate(part as nat, total as nat));
    r
}

/// A text cut to a width, with an ellipsis where something was cut.
pub open spec fn cut_to(s: Seq<char>, max: nat) -> Seq<char> {
    if s.len() <= max {
        s
    } else if max == 0 {
        seq!['\u{2026}']
    } else {
        s.take(max - 1).push('\u{2026}')
    }
}

/// A text cut to a width, with an ellipsis where something was cut.
pub fn truncate(input: &str, max: usize) -> (r: String)
    ensures
        r@ == cut_to(input@, max as nat),
{
    let chars = chars_of(input);
    if chars.len() <= max {
        return string_of(chars.as_slice());
    }
    let keep: usize = if max == 0 {
        0
    } else {
        max - 1
    };
    assert(chars@.subrange(0, keep as int) =~= chars@.take(keep as int));
    let mut r = string_of(slice_subrange(chars.as_slice(), 0, keep));
    r.push('\u{2026}');
    assert(r@ =~= cut_to(input@, max as nat));
    r
}

/// How many elements have a property.
pub open spec fn count<A>(s: Seq<A>, p: spec_fn(A) -> bool) -> nat
    decreases s.len(),
{
    if s.len() == 0 {
        0
    } else {
        count(s.drop_last(), p) + if p(s.last()) {
            1nat
        } else {
            0nat
        }
    }
}

/// How many of the texts are `w`.
pub open spec fn occurrences(texts: Seq<Seq<char>>, w: Seq<char>) -> nat {
    count(texts, |t: Seq<char>| t == w)
}

/// A text, and how often it came up.
#[derive(Debug)]
pub struct Tally {
    pub text: String,
    pub count: usize,
}

/// What each of the tallies says.
pub open spec fn tally_views(v: Seq<Tally>) -> Seq<(Seq<char>, nat)> {
    v.map_values(|t: Tally| (t.text@, t.count as nat))
}

/// The different texts, in dictionary order, and how often each came up.
pub open spec fn tallied(texts: Seq<Seq<char>>) -> Seq<(Seq<char>, nat)> {
    word_set(texts).map_values(|w: Seq<char>| (w, occurrences(texts, w)))
}

fn count_text(texts: &Vec<String>, w: &[char]) -> (r: usize)
    ensures
        r == occurrences(views(texts@), w@),
{
    let ghost all = views(texts@);
    let ghost p = |t: Seq<char>| t == w@;
    let mut n: usize = 0;
    let mut i: usize = 0;
    while i < texts.len()
        invariant
            i <= texts.len(),
            all == views(texts@),
            p == |t: Seq<char>| t == w@,
            n == count(all.take(i as int), p),
            n <= i,
        decreases texts.len() - i,
    {
        assert(all.take(i + 1).drop_last() =~= all.take(i as int));
        assert(all.take(i + 1).last() == texts@[i as int]@);
        let chars = chars_of(texts[i].as_str());
        if crate::text::same(chars.as_slice(), w) {
            n = n + 1;
        }
        i = i + 1;
    }
    assert(all.take(all.len() as int) =~= all);
    n
}

/// The different texts, in dictionary order, and how often each came up.
pub fn tally(texts: &Vec<String>) -> (r: Vec<Tally>)
    ensures
        tally_views(r@) == tallied(views(texts@)),
{
    let ghost all = views(texts@);
    let mut keys: Vec<Vec<char>> = Vec::new();
    let mut i: usize = 0;
    assert(seqs(keys@) =~= word_set(all.take(0)));
    while i < texts.len()
        invariant
            i <= texts.len(),
            all == views(texts@),
            seqs(keys@) == word_set(all.take(i as int)),
        decreases texts.len() - i,
    {
        assert(all.take(i + 1).drop_last() =~= all.take(i as int));
        assert(all.take(i + 1).last() == texts@[i as int]@);
        insert_word(&mut keys, chars_of(texts[i].as_str()));
        i = i + 1;
    }
    assert(all.take(all.len() as int) =~= all);
    let ghost wanted = tallied(all);
    let mut r: Vec<Tally> = Vec::new();
    let mut j: usize = 0;
    while j < keys.len()
        invariant
            j <= keys.len(),
            all == views(texts@),
            seqs(keys@) == word_set(all),
            wanted == tallied(all),
            tally_views(r@) == wanted.take(j as int),
        decreases keys.len() - j,
    {
        let ghost before = r@;
        let t = Tally {
            text: string_of(keys[j].as_slice()),
            count: count_text(texts, keys[j].as_slice()),
        };
        r.push(t);
        assert(wanted[j as int] == (t.text@, t.count as nat)) by {
            assert(word_set(all)[j as int] == keys@[j as int]@);
        }
        assert(tally_views(r@) =~= tally_views(before).push((t.text@, t.count as nat)));
        j = j + 1;
        assert(tally_views(r@) =~= wanted.take(j as int));
    }
    assert(wanted.len() == keys@.len());
    assert(wanted.take(wanted.len() as int) =~= wanted);
    r
}

/// Whether one text came up more often than another.
pub open spec fn more_often(a: (Seq<char>, nat), b: (Seq<char>, nat)) -> bool {
    a.1 > b.1
}

/// The tallies, the most frequent first, equals in dictionary order.
pub fn by_frequency(tallies: Vec<Tally>) -> (r: Vec<Tally>)
    ensures
        tally_views(r@) == in_order(
            tally_views(tallies@),
            |a: (Seq<char>, nat), b: (Seq<char>, nat)| more_often(a, b),
        ),
{
    let ghost ahead = |a: (Seq<char>, nat), b: (Seq<char>, nat)| more_often(a, b);
    let ghost all = tally_views(tallies@);
    let mut sorted: Vec<Tally> = Vec::new();
    assert(tally_views(sorted@) =~= in_order(all.take(0), ahead));
    for t in it: tallies.into_iter()
        invariant
            ahead == |a: (Seq<char>, nat), b: (Seq<char>, nat)| more_often(a, b),
            it.seq().len() == all.len(),
            all == tally_views(it.seq()),
            tally_views(sorted@) == in_order(all.take(it.index() as int), ahead),
    {
        let ghost i = it.index();
        let ghost before = sorted@;
        let ghost v = (t.text@, t.count as nat);
        proof {
            assert(all.take(i + 1).drop_last() =~= all.take(i as int));
            assert(all.take(i + 1).last() == v);
        }
        let n: usize = t.count;
        let mut p: usize = sorted.len();
        while p > 0 && n > sorted[p - 1].count
            invariant
                ahead == |a: (Seq<char>, nat), b: (Seq<char>, nat)| more_often(a, b),
                sorted@ == before,
                n == v.1,
                p <= sorted.len(),
                forall|q: int|
                    p <= q < sorted.len() ==> ahead(v, #[trigger] tally_views(sorted@)[q]),
            decreases p,
        {
            assert(tally_views(sorted@)[p - 1] == (sorted@[p - 1].text@, sorted@[p - 1].count as nat));
            p = p - 1;
        }
        proof {
            lemma_placed_at(tally_views(before), v, ahead, p as int);
        }
        sorted.insert(p, t);
        assert(tally_views(sorted@) =~= tally_views(before).insert(p as int, v));
    }
    assert(all.take(all.len() as int) =~= all);
    sorted
}

/// How many of the tracks carry a code, and how many name a version.
pub fn scan_counts(tracks: &Vec<LocalTrack>) -> (r: (usize, usize))
    ensures
        r.0 == count(tracks@, |t: LocalTrack| t@.isrc is Some),
        r.1 == count(tracks@, |t: LocalTrack| t@.parsed.kind != MixKind::Unlabelled),
        r.0 <= tracks@.len(),
        r.1 <= tracks@.len(),
{
    let ghost coded = |t: LocalTrack| t@.isrc is Some;
    let ghost versioned = |t: LocalTrack| t@.parsed.kind != MixKind::Unlabelled;
    let mut with_isrc: usize = 0;
    let mut with_version: usize = 0;
    let mut i: usize = 0;
    while i < tracks.len()
        invariant
            i <= tracks.len(),
            coded == |t: LocalTrack| t@.isrc is Some,
            versioned == |t: LocalTrack| t@.parsed.kind != MixKind::Unlabelled,
            with_isrc == count(tracks@.take(i as int), coded),
            with_version == count(tracks@.take(i as int), versioned),
            with_isrc <= i,
            with_version <= i,
        decreases tracks.len() - i,
    {
        assert(tracks@.take(i + 1).drop_last() =~= tracks@.take(i as int));
        if tracks[i].isrc.is_some() {
            with_isrc = with_isrc + 1;
        }
        if tracks[i].parsed.kind != MixKind::Unlabelled {
            with_version = with_version + 1;
        }
        i = i + 1;
    }
    assert(tracks@.take(tracks@.len() as int) =~= tracks@);
    (with_isrc, with_version)
}

/// Whether a row is a real answer. One whose search failed says nothing about
/// availability.
pub open spec fn is_answered(row: RowView) -> bool {
    row.search_error is None
}

/// What a run of matches adds up to.
#[derive(Debug)]
pub struct Summary {
    /// The tracks that got a real answer.
    pub total: usize,
    /// The tracks whose search failed; the other counts leave them out.
    pub failed: usize,
    pub auto: usize,
    pub review: usize,
    pub miss: usize,
    pub by_exact: usize,
    pub by_fuzzy: usize,
    pub by_isrc: usize,
    pub isrc_tagged: usize,
    pub isrc_resolved: usize,
    /// Why tracks missed, the most frequent reason first.
    pub miss_reasons: Vec<Tally>,
    /// Why searches failed, in dictionary order.
    pub search_errors: Vec<Tally>,
}

/// The reasons of the tracks that missed.
pub open spec fn reasons_for_missing(rows: Seq<RowView>) -> Seq<Seq<char>>
    decreases rows.len(),
{
    if rows.len() == 0 {
        Seq::empty()
    } else {
        let before = reasons_for_missing(rows.drop_last());
        let row = rows.last();
        if is_answered(row) && row.outcome.verdict == Verdict::NoMatch {
            before.push(row.outcome.reason)
        } else {
            before
        }
    }
}

/// The errors of the searches that failed.
pub open spec fn errors_in(rows: Seq<RowView>) -> Seq<Seq<char>>
    decreases rows.len(),
{
    if rows.len() == 0 {
        Seq::empty()
    } else {
        let before = errors_in(rows.drop_last());
        match rows.last().search_error {
            Some(e) => before.push(e),
            None => before,
        }
    }
}

/// Whether an answered row has the verdict.
pub open spec fn has_verdict(row: RowView, verdict: Verdict) -> bool {
    is_answered(row) && row.outcome.verdict == verdict
}

/// Whether an answered row was matched by the method.
pub open spec fn has_method(row: RowView, method: MatchMethod) -> bool {
    is_answered(row) && row.outcome.method == method
}

/// Whether an answered row is of a file that carries a code.
pub open spec fn has_code(row: RowView) -> bool {
    is_answered(row) && row.track.isrc is Some
}

impl Summary {
    /// Whether the summary is that of the rows.
    pub open spec fn sums_up(self, rows: Seq<RowView>) -> bool {
        &&& self.total == count(rows, |r: RowView| is_answered(r))
        &&& self.failed == count(rows, |r: RowView| !is_answered(r))
        &&& self.auto == count(rows, |r: RowView| has_verdict(r, Verdict::Auto))
        &&& self.review == count(rows, |r: RowView| has_verdict(r, Verdict::Review))
        &&& self.miss == count(rows, |r: RowView| has_verdict(r, Verdict::NoMatch))
        &&& self.by_exact == count(rows, |r: RowView| has_method(r, MatchMethod::Exact))
        &&& self.by_fuzzy == count(rows, |r: RowView| has_method(r, MatchMethod::Fuzzy))
        &&& self.by_isrc == count(rows, |r: RowView| has_method(r, MatchMethod::Isrc))
        &&& self.isrc_tagged == count(rows, |r: RowView| has_code(r))
        &&& self.isrc_resolved == count(
            rows,
            |r: RowView| has_code(r) && has_method(r, MatchMethod::Isrc),
        )
        &&& tally_views(self.miss_reasons@) == in_order(
            tallied(reasons_for_missing(rows)),
            |a: (Seq<char>, nat), b: (Seq<char>, nat)| more_often(a, b),
        )
        &&& tally_views(self.search_errors@) == tallied(errors_in(rows))
    }
}

fn answered(row: &Row) -> (r: bool)
    ensures
        r == is_answered(row@),
{
    row.search_error.is_none()
}

fn count_verdict(rows: &Vec<Row>, verdict: Verdict) -> (r: usize)
    ensures
        r == count(row_views(rows@), |r: RowView| has_verdict(r, verdict)),
{
    let ghost all = row_views(rows@);
    let ghost p = |r: RowView| has_verdict(r, verdict);
    let mut n: usize = 0;
    let mut i: usize = 0;
    while i < rows.len()
        invariant
            i <= rows.len(),
            all == row_views(rows@),
            p == |r: RowView| has_verdict(r, verdict),
            n == count(all.take(i as int), p),
            n <= i,
        decreases rows.len() - i,
    {
        assert(all.take(i + 1).drop_last() =~= all.take(i as int));
        assert(all.take(i + 1).last() == rows@[i as int]@);
        if answered(&rows[i]) && rows[i].outcome.verdict == verdict {
            n = n + 1;
        }
        i = i + 1;
    }
    assert(all.take(all.len() as int) =~= all);
    n
}

fn count_method(rows: &Vec<Row>, method: MatchMethod) -> (r: usize)
    ensures
        r == count(row_views(rows@), |r: RowView| has_method(r, method)),
{
    let ghost all = row_views(rows@);
    let ghost p = |r: RowView| has_method(r, method);
    let mut n: usize = 0;
    let mut i: usize = 0;
    while i < rows.len()
        invariant
            i <= rows.len(),
            all == row_views(rows@),
            p == |r: RowView| has_method(r, method),
            n == count(all.take(i as int), p),
            n <= i,
        decreases rows.len() - i,
    {
        assert(all.take(i + 1).drop_last() =~= all.take(i as int));
        assert(all.take(i + 1).last() == rows@[i as int]@);
        if answered(&rows[i]) && rows[i].outcome.method == method {
            n = n + 1;
        }
        i = i + 1;
    }
    assert(all.take(all.len() as int) =~= all);
    n
}

fn count_codes(rows: &Vec<Row>) -> (r: (usize, usize))
    ensures
        r.0 == count(row_views(rows@), |r: RowView| has_code(r)),
        r.1 == count(
            row_views(rows@),
            |r: RowView| has_code(r) && has_method(r, MatchMethod::Isrc),
        ),
{
    let ghost all = row_views(rows@);
    let ghost p = |r: RowView| has_code(r);
    let ghost q = |r: RowView| has_code(r) && has_method(r, MatchMethod::Isrc);
    let mut tagged: usize = 0;
    let mut resolved: usize = 0;
    let mut i: usize = 0;
    while i < rows.len()
        invariant
            i <= rows.len(),
            all == row_views(rows@),
            p == |r: RowView| has_code(r),
            q == |r: RowView| has_code(r) && has_method(r, MatchMethod::Isrc),
            tagged == count(all.take(i as int), p),
            resolved == count(all.take(i as int), q),
            tagged <= i,
            resolved <= i,
        decreases rows.len() - i,
    {
        assert(all.take(i + 1).drop_last() =~= all.take(i as int));
        assert(all.take(i + 1).last() == rows@[i as int]@);
        if answered(&rows[i]) && rows[i].track.isrc.is_some() {
            tagged = tagged + 1;
            if rows[i].outcome.method == MatchMethod::Isrc {
                resolved = resolved + 1;
            }
        }
        i = i + 1;
    }
    assert(all.take(all.len() as int) =~= all);
    (tagged, resolved)
}

fn texts_of(rows: &Vec<Row>) -> (r: (Vec<String>, Vec<String>))
    ensures
        views(r.0@) == reasons_for_missing(row_views(rows@)),
        views(r.1@) == errors_in(row_views(rows@)),
        r.1@.len() == count(row_views(rows@), |r: RowView| !is_answered(r)),
        r.1@.len() + count(row_views(rows@), |r: RowView| is_answered(r)) == rows@.len(),
{
    let ghost all = row_views(rows@);
    let ghost p = |r: RowView| !is_answered(r);
    let ghost q = |r: RowView| is_answered(r);
    let mut reasons: Vec<String> = Vec::new();
    let mut errors: Vec<String> = Vec::new();
    let mut i: usize = 0;
    assert(views(reasons@) =~= reasons_for_missing(all.take(0)));
    assert(views(errors@) =~= errors_in(all.take(0)));
    while i < rows.len()
        invariant
            i <= rows.len(),
            all == row_views(rows@),
            p == |r: RowView| !is_answered(r),
            q == |r: RowView| is_answered(r),
            views(reasons@) == reasons_for_missing(all.take(i as int)),
            views(errors@) == errors_in(all.take(i as int)),
            errors@.len() == count(all.take(i as int), p),
            errors@.len() + count(all.take(i as int), q) == i,
        decreases rows.len() - i,
    {
        assert(all.take(i + 1).drop_last() =~= all.take(i as int));
        assert(all.take(i + 1).last() == rows@[i as int]@);
        match &rows[i].search_error {
            Some(e) => {
                errors.push(e.clone());
            },
            None => {
                if rows[i].outcome.verdict == Verdict::NoMatch {
                    reasons.push(rows[i].outcome.reason.clone());
                }
            },
        }
        i = i + 1;
    }
    assert(all.take(all.len() as int) =~= all);
    (reasons, errors)
}

/// What a run of matches adds up to. Rows whose search failed are reported on
/// their own rather than folded into the rate.
pub fn summarize(rows: &Vec<Row>) -> (r: Summary)
    ensures
        r.sums_up(row_views(rows@)),
{
    let (reasons, errors) = texts_of(rows);
    let (isrc_tagged, isrc_resolved) = count_codes(rows);
    let failed: usize = errors.len();
    let miss_reasons = by_frequency(tally(&reasons));
    let search_errors = tally(&errors);
    Summary {
        total: rows.len() - failed,
        failed,
        auto: count_verdict(rows, Verdict::Auto),
        review: count_verdict(rows, Verdict::Review),
        miss: count_verdict(rows, Verdict::NoMatch),
        by_exact: count_method(rows, MatchMethod::Exact),
        by_fuzzy: count_method(rows, MatchMethod::Fuzzy),
        by_isrc: count_method(rows, MatchMethod::Isrc),
        isrc_tagged,
        isrc_resolved,
        miss_reasons,
        search_errors,
    }
}

proof fn lemma_verdicts_partition(rows: Seq<RowView>)
    ensures
        count(rows, |r: RowView| has_verdict(r, Verdict::Auto)) + count(
            rows,
            |r: RowView| has_verdict(r, Verdict::Review),
        ) + count(rows, |r: RowView| has_verdict(r, Verdict::NoMatch)) == count(
            rows,
            |r: RowView| is_answered(r),
        ),
        count(rows, |r: RowView| is_answered(r)) + count(rows, |r: RowView| !is_answered(r))
            == rows.len(),
    decreases rows.len(),
{
    if rows.len() > 0 {
        lemma_verdicts_partition(rows.drop_last());
    }
}

/// Every answered track is counted under exactly one verdict, and a failed
/// search under none: an outage does not count as "not on the platform".
pub proof fn law_failures_do_not_count_as_misses(s: Summary, rows: Seq<RowView>)
    requires
        s.sums_up(rows),
    ensures
        s.auto + s.review + s.miss == s.total,
        s.total + s.failed == rows.len(),
{
    lemma_verdicts_partition(rows);
}

/// A run of matches in progress.
#[derive(Debug)]
pub struct MatchRun {
    pub rows: Vec<Row>,
    pub attempts: usize,
    pub failed: usize,
    pub reused: usize,
}

/// What a run in progress says.
#[verifier::ext_equal]
pub struct MatchRunView {
    pub rows: Seq<RowView>,
    pub attempts: usize,
    pub failed: usize,
    pub reused: usize,
}

impl View for MatchRun {
    type V = MatchRunView;

    open spec fn view(&self) -> MatchRunView {
        MatchRunView {
            rows: row_views(self.rows@),
            attempts: self.attempts,
            failed: self.failed,
            reused: self.reused,
        }
    }
}

/// What to do once a track was looked up.
#[derive(Debug)]
pub enum Concluded {
    /// Remember the outcome; it is a real answer.
    Remember,
    /// Do not: the search failed, and that is not "not found".
    Forget,
    /// Stop the run, saying why.
    Abort(String),
}

/// The last error among the rows.
pub open spec fn last_error(rows: Seq<RowView>) -> Option<Seq<char>>
    decreases rows.len(),
{
    if rows.len() == 0 {
        None
    } else if rows.last().search_error is Some {
        rows.last().search_error
    } else {
        last_error(rows.drop_last())
    }
}

/// Whether a run is failing.
pub open spec fn is_failing(attempts: usize, failed: usize) -> bool {
    attempts >= MIN_ATTEMPTS_BEFORE_ABORT && 2 * failed >= attempts
}

/// What is said when a run is given up.
pub open spec fn abort_text(failed: usize, attempts: usize, error: Option<Seq<char>>) -> Seq<char> {
    "Aborting: "@ + decimal(failed as nat) + " of the first "@ + decimal(attempts as nat)
        + " searches failed, so any match rate from this run would be meaningless.\n\nLast error: "@
        + match error {
        Some(e) => e,
        None => "unknown"@,
    }
}

fn latest_error(rows: &Vec<Row>) -> (r: Option<String>)
    ensures
        opt_view(r) == last_error(row_views(rows@)),
{
    let ghost all = row_views(rows@);
    let mut n: usize = rows.len();
    assert(all.take(n as int) =~= all);
    while n > 0
        invariant
            n <= rows.len(),
            all == row_views(rows@),
            last_error(all) == last_error(all.take(n as int)),
        decreases n,
    {
        assert(all.take(n as int).drop_last() =~= all.take(n - 1));
        assert(all.take(n as int).last() == rows@[n - 1]@);
        if let Some(e) = &rows[n - 1].search_error {
            return Some(e.clone());
        }
        n = n - 1;
    }
    None
}

/// A run after a track whose match is reused.
pub open spec fn after_reuse(
    run: MatchRunView,
    track: LocalView,
    verdict: Verdict,
    reason: Seq<char>,
) -> MatchRunView {
    MatchRunView {
        rows: run.rows.push(
            RowView {
                track,
                outcome: OutcomeView {
                    verdict,
                    method: MatchMethod::Unmatched,
                    candidates: Seq::empty(),
                    reason: cached_reason(reason),
                },
                search_error: None,
            },
        ),
        attempts: counted(run.attempts),
        reused: counted(run.reused),
        failed: run.failed,
    }
}

/// A run after a track that was looked up. When it is failing the track is left
/// out, since the run ends there.
pub open spec fn after_lookup(run: MatchRunView, row: RowView) -> MatchRunView {
    let attempts = counted(run.attempts);
    let failed = if row.search_error is Some {
        counted(run.failed)
    } else {
        run.failed
    };
    MatchRunView {
        rows: if is_failing(attempts, failed) {
            run.rows
        } else {
            run.rows.push(row)
        },
        attempts,
        failed,
        reused: run.reused,
    }
}

impl MatchRun {
    pub fn new() -> (r: MatchRun)
        ensures
            r@ == (MatchRunView { rows: Seq::empty(), attempts: 0, failed: 0, reused: 0 }),
    {
        let rows: Vec<Row> = Vec::new();
        assert(row_views(rows@) =~= Seq::<RowView>::empty());
        MatchRun { rows, attempts: 0, failed: 0, reused: 0 }
    }

    /// Takes in a track whose match is reused from a previous run: a file
    /// already resolved costs nothing to skip, and skipping is the whole point
    /// of keeping state.
    pub fn reuse(&mut self, track: LocalTrack, stored: &StoredMatch)
        ensures
            final(self)@ == (MatchRunView {
                rows: old(self)@.rows.push(
                    RowView {
                        track: track@,
                        outcome: OutcomeView {
                            verdict: stored@.verdict,
                            method: MatchMethod::Unmatched,
                            candidates: Seq::empty(),
                            reason: cached_reason(stored@.reason),
                        },
                        search_error: None,
                    },
                ),
                attempts: counted(old(self)@.attempts),
                reused: counted(old(self)@.reused),
                failed: old(self)@.failed,
            }),
            final(self)@ == after_reuse(old(self)@, track@, stored@.verdict, stored@.reason),
    {
        let ghost before = self.rows@;
        let row = Row { track, outcome: cached_row(stored), search_error: None };
        self.rows.push(row);
        self.attempts = count_up(self.attempts);
        self.reused = count_up(self.reused);
        assert(row_views(self.rows@) =~= row_views(before).push(row@));
    }

    /// Takes in a track that was looked up. A run that is failing is given up:
    /// a report built on failed searches understates the match rate instead of
    /// reporting an error.
    pub fn conclude(
        &mut self,
        track: LocalTrack,
        outcome: MatchOutcome,
        search_error: Option<String>,
    ) -> (r: Concluded)
        ensures
            ({
                let attempts = counted(old(self)@.attempts);
                let failed = if search_error is Some {
                    counted(old(self)@.failed)
                } else {
                    old(self)@.failed
                };
                let error = if search_error is Some {
                    opt_view(search_error)
                } else {
                    last_error(old(self)@.rows)
                };
                &&& final(self)@.attempts == attempts
                &&& final(self)@.failed == failed
                &&& final(self)@.reused == old(self)@.reused
                &&& is_failing(attempts, failed) ==> {
                    &&& r matches Concluded::Abort(m)
                    &&& m@ == abort_text(failed, attempts, error)
                    &&& final(self)@.rows == old(self)@.rows
                }
                &&& !is_failing(attempts, failed) ==> {
                    &&& r is Remember <==> search_error is None
                    &&& r is Forget <==> search_error is Some
                    &&& final(self)@.rows == old(self)@.rows.push(
                        RowView {
                            track: track@,
                            outcome: outcome@,
                            search_error: opt_view(search_error),
                        },
                    )
                }
            }),
            final(self)@ == after_lookup(
                old(self)@,
                RowView {
                    track: track@,
                    outcome: outcome@,
                    search_error: opt_view(search_error),
                },
            ),
            r is Abort <==> is_failing(final(self)@.attempts, final(self)@.failed),
    {
        self.attempts = count_up(self.attempts);
        if search_error.is_some() {
            self.failed = count_up(self.failed);
        }
        if should_abort(self.attempts, self.failed) {
            let error: Option<String> = match search_error {
                Some(e) => Some(e),
                None => latest_error(&self.rows),
            };
            let mut message = string_from("Aborting: ");
            push_decimal(&mut message, self.failed as u64);
            message.append(" of the first ");
            push_decimal(&mut message, self.attempts as u64);
            message.append(
                " searches failed, so any match rate from this run would be meaningless.\n\nLast error: ",
            );
            match &error {
                Some(e) => {
                    message.append(e.as_str());
                },
                None => {
                    message.append("unknown");
                },
            }
            return Concluded::Abort(message);
        }
        let is_answer: bool = search_error.is_none();
        let ghost before = self.rows@;
        let row = Row { track, outcome, search_error };
        self.rows.push(row);
        assert(row_views(self.rows@) =~= row_views(before).push(row@));
        if is_answer {
            Concluded::Remember
        } else {
            Concluded::Forget
        }
    }
}

/// The columns of the per-track report.
pub const CSV_HEADER: [&'static str; 22] = [
    "file",
    "local_artist",
    "local_title_base",
    "local_version",
    "local_length",
    "local_isrc",
    "verdict",
    "method",
    "confidence",
    "spotify_artist",
    "spotify_title",
    "spotify_length",
    "delta_seconds",
    "spotify_url",
    "spotify_uri",
    "score_artist",
    "score_title",
    "score_duration",
    "score_mix",
    "runner_up",
    "search_error",
    "notes",
];

/// Milliseconds as whole seconds, cut towards zero.
pub open spec fn whole_seconds(ms: i64) -> int {
    if ms >= 0 {
        ms as int / 1000
    } else {
        -((-ms) / 1000)
    }
}

fn seconds_of(ms: i64) -> (r: i64)
    ensures
        r == whole_seconds(ms),
{
    if ms >= 0 {
        ms / 1000
    } else if ms == i64::MIN {
        -9_223_372_036_854_775
    } else {
        -((-ms) / 1000)
    }
}

/// The runner-up in words.
pub open spec fn runner_up_text(o: OutcomeView) -> Seq<char> {
    if o.candidates.len() > 1 {
        let c = o.candidates[1];
        artist_line(c.track.artists) + " - "@ + c.track.name + " ["@ + minutes_seconds(
            c.track.duration_ms as nat,
        ) + "] ("@ + share_percent(c.score.total) + "%)"@
    } else {
        Seq::empty()
    }
}

/// The notes on the best candidate, or failing those the reason.
pub open spec fn notes_text(o: OutcomeView) -> Seq<char> {
    if o.candidates.len() > 0 && join(o.candidates[0].score.notes, "; "@).len() > 0 {
        join(o.candidates[0].score.notes, "; "@)
    } else {
        o.reason
    }
}

/// What there is to say of the best candidate; blank where there is none.
pub open spec fn best_fields(o: OutcomeView) -> Seq<Seq<char>> {
    if o.candidates.len() > 0 {
        let c = o.candidates[0];
        seq![
            artist_line(c.track.artists),
            c.track.name,
            minutes_seconds(c.track.duration_ms as nat),
            signed_decimal(whole_seconds(c.score.duration_delta_ms)),
            or_empty(c.track.url),
            c.track.uri,
            share_decimals(c.score.artist),
            share_decimals(c.score.title),
            share_decimals(c.score.duration),
            share_decimals(c.score.mix),
        ]
    } else {
        Seq::new(10, |i: int| Seq::empty())
    }
}

/// The confidence of an outcome.
pub open spec fn confidence_of(o: OutcomeView) -> u64 {
    if o.candidates.len() > 0 {
        o.candidates[0].score.total
    } else {
        0
    }
}

/// The record of a row in the per-track report.
pub open spec fn csv_fields(row: RowView) -> Seq<Seq<char>> {
    let t = row.track;
    let o = row.outcome;
    seq![
        t.file_name,
        t.artist,
        t.parsed.base,
        ParsedTitle::label(t.parsed),
        minutes_seconds(t.duration_ms as nat),
        or_empty(t.isrc),
        o.verdict.label(),
        o.method.label(),
        share_percent(confidence_of(o)),
    ] + best_fields(o) + seq![runner_up_text(o), or_empty(row.search_error), notes_text(o)]
}

fn runner_up(outcome: &MatchOutcome) -> (r: String)
    ensures
        r@ == runner_up_text(outcome@),
{
    if outcome.candidates.len() > 1 {
        let c = &outcome.candidates[1];
        assert(outcome@.candidates[1] == c@);
        let mut r = c.track.artist_field();
        r.append(" - ");
        r.append(c.track.name.as_str());
        r.append(" [");
        r.append(c.track.duration_display().as_str());
        r.append("] (");
        r.append(percent_text(c.score.total).as_str());
        r.append("%)");
        r
    } else {
        String::new()
    }
}

fn notes_or_reason(outcome: &MatchOutcome) -> (r: String)
    ensures
        r@ == notes_text(outcome@),
{
    match outcome.best() {
        Some(best) => {
            assert(outcome@.candidates[0] == outcome.candidates@[0]@);
            let notes = join_strings(&best.score.notes, "; ");
            if notes.as_str().is_empty() {
                outcome.reason.clone()
            } else {
                notes
            }
        },
        None => outcome.reason.clone(),
    }
}

fn push_best(fields: &mut Vec<String>, outcome: &MatchOutcome)
    ensures
        views(final(fields)@) == views(old(fields)@) + best_fields(outcome@),
{
    let ghost start = views(fields@);
    match outcome.best() {
        Some(best) => {
            assert(outcome@.candidates[0] == outcome.candidates@[0]@);
            let mut delta = String::new();
            push_signed(&mut delta, seconds_of(best.score.duration_delta_ms));
            assert(delta@ =~= signed_decimal(whole_seconds(best.score.duration_delta_ms)));
            fields.push(best.track.artist_field());
            fields.push(best.track.name.clone());
            fields.push(best.track.duration_display());
            fields.push(delta);
            fields.push(string_or_empty(&best.track.url));
            fields.push(best.track.uri.clone());
            fields.push(decimals_text(best.score.artist));
            fields.push(decimals_text(best.score.title));
            fields.push(decimals_text(best.score.duration));
            fields.push(decimals_text(best.score.mix));
            assert(views(fields@) =~= start + best_fields(outcome@));
        },
        None => {
            let mut i: usize = 0;
            assert(start + Seq::new(0, |i: int| Seq::<char>::empty()) =~= start);
            while i < 10
                invariant
                    i <= 10,
                    views(fields@) == start + Seq::new(i as nat, |i: int| Seq::<char>::empty()),
                decreases 10 - i,
            {
                let ghost before = views(fields@);
                fields.push(String::new());
                i = i + 1;
                assert(before.push(Seq::<char>::empty()) =~= start + Seq::new(
                    i as nat,
                    |i: int| Seq::<char>::empty(),
                ));
            }
            assert(views(fields@) =~= start + best_fields(outcome@));
        },
    }
}

/// The record of a row in the per-track report.
pub fn csv_record(row: &Row) -> (r: Vec<String>)
    ensures
        views(r@) == csv_fields(row@),
        r@.len() == 22,
{
    let mut fields: Vec<String> = Vec::new();
    assert(views(fields@) =~= Seq::<Seq<char>>::empty());
    fields.push(row.track.file_name.clone());
    fields.push(row.track.artist.clone());
    fields.push(row.track.parsed.base.clone());
    fields.push(row.track.parsed.descriptor_label());
    fields.push(row.track.duration_display());
    fields.push(string_or_empty(&row.track.isrc));
    fields.push(string_from(row.outcome.verdict.as_str()));
    fields.push(string_from(row.outcome.method.as_str()));
    fields.push(percent_text(row.outcome.confidence()));
    let ghost first = views(fields@);
    push_best(&mut fields, &row.outcome);
    fields.push(runner_up(&row.outcome));
    fields.push(string_or_empty(&row.search_error));
    fields.push(notes_or_reason(&row.outcome));
    assert(views(fields@) =~= csv_fields(row@));
    assert(views(fields@).len() == fields@.len());
    fields
}

} // verus!
