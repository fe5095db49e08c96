//! What the report promises, over all runs.

use vstd::prelude::*;

use crate::binary::{
    half_even, law_held_is_nearest, law_held_uses_all_digits, law_rounding_goes_to_the_nearest,
    law_whole_numbers_are_exact, single, DOUBLE_LIMIT, SINGLE_LIMIT,
};
use crate::matcher::{MatchMethod, Verdict};
use crate::normalize::MixKind;
use crate::order::{is_weak_order, lemma_in_order, lemma_in_order_stable};
use crate::report::{
    after_lookup, after_reuse, count, csv_fields, cut_to, errors_in, has_code, has_method,
    has_verdict, is_answered, is_failing, last_error, more_often, occurrences, percentage, rate,
    reasons_for_missing, scan_counts, share_decimals, share_percent, share_single, tallied,
    tally_views, whole_rate, whole_seconds, MatchRunView, RowView, Summary, CSV_HEADER,
};
use crate::spotify::artist_line;
use crate::tags::{LocalTrack, LocalView};
use crate::text::{decimal, join, minutes_seconds, or_empty, signed_decimal, two_digits};
use crate::title::ParsedTitle;
use crate::wordset::{comes_before, lemma_word_set, word_set};

verus! {

proof fn lemma_count<A>(s: Seq<A>, p: spec_fn(A) -> bool)
    ensures
        count(s, p) == s.filter(p).len(),
    decreases s.len(),
{
    reveal(Seq::filter);
    if s.len() > 0 {
        lemma_count(s.drop_last(), p);
    }
}

proof fn lemma_filter_same<A>(s: Seq<A>, p: spec_fn(A) -> bool, q: spec_fn(A) -> bool)
    requires
        forall|a: A| #[trigger] p(a) == q(a),
    ensures
        s.filter(p) == s.filter(q),
    decreases s.len(),
{
    reveal(Seq::filter);
    if s.len() > 0 {
        lemma_filter_same(s.drop_last(), p, q);
        assert(p(s.last()) == q(s.last()));
    } else {
        assert(s.filter(p) =~= s.filter(q));
    }
}

proof fn lemma_counts<A>(s: Seq<A>, p: spec_fn(A) -> bool, q: spec_fn(A) -> bool)
    requires
        forall|a: A| #[trigger] p(a) == q(a),
    ensures
        count(s, p) == s.filter(q).len(),
{
    lemma_count(s, p);
    lemma_filter_same(s, p, q);
}

/// Each number of a summary is the number of rows it speaks of. Rows whose search
/// failed are counted as failed and nowhere else.
pub proof fn law_summary_counts_rows(s: Summary, rows: Seq<RowView>)
    requires
        s.sums_up(rows),
    ensures
        s.total == rows.filter(|r: RowView| r.search_error is None).len(),
        s.failed == rows.filter(|r: RowView| r.search_error is Some).len(),
        s.auto == rows.filter(
            |r: RowView| r.search_error is None && r.outcome.verdict is Auto,
        ).len(),
        s.review == rows.filter(
            |r: RowView| r.search_error is None && r.outcome.verdict is Review,
        ).len(),
        s.miss == rows.filter(
            |r: RowView| r.search_error is None && r.outcome.verdict is NoMatch,
        ).len(),
        s.by_exact == rows.filter(
            |r: RowView| r.search_error is None && r.outcome.method is Exact,
        ).len(),
        s.by_fuzzy == rows.filter(
            |r: RowView| r.search_error is None && r.outcome.method is Fuzzy,
        ).len(),
        s.by_isrc == rows.filter(
            |r: RowView| r.search_error is None && r.outcome.method is Isrc,
        ).len(),
        s.isrc_tagged == rows.filter(
            |r: RowView| r.search_error is None && r.track.isrc is Some,
        ).len(),
        s.isrc_resolved == rows.filter(
            |r: RowView|
                r.search_error is None && r.track.isrc is Some && r.outcome.method is Isrc,
        ).len(),
{
    lemma_counts(rows, |r: RowView| is_answered(r), |r: RowView| r.search_error is None);
    lemma_counts(rows, |r: RowView| !is_answered(r), |r: RowView| r.search_error is Some);
    lemma_counts(
        rows,
        |r: RowView| has_verdict(r, Verdict::Auto),
        |r: RowView| r.search_error is None && r.outcome.verdict is Auto,
    );
    lemma_counts(
        rows,
        |r: RowView| has_verdict(r, Verdict::Review),
        |r: RowView| r.search_error is None && r.outcome.verdict is Review,
    );
    lemma_counts(
        rows,
        |r: RowView| has_verdict(r, Verdict::NoMatch),
        |r: RowView| r.search_error is None && r.outcome.verdict is NoMatch,
    );
    lemma_counts(
        rows,
        |r: RowView| has_method(r, MatchMethod::Exact),
        |r: RowView| r.search_error is None && r.outcome.method is Exact,
    );
    lemma_counts(
        rows,
        |r: RowView| has_method(r, MatchMethod::Fuzzy),
        |r: RowView| r.search_error is None && r.outcome.method is Fuzzy,
    );
    lemma_counts(
        rows,
        |r: RowView| has_method(r, MatchMethod::Isrc),
        |r: RowView| r.search_error is None && r.outcome.method is Isrc,
    );
    lemma_counts(
        rows,
        |r: RowView| has_code(r),
        |r: RowView| r.search_error is None && r.track.isrc is Some,
    );
    lemma_counts(
        rows,
        |r: RowView| has_code(r) && has_method(r, MatchMethod::Isrc),
        |r: RowView| r.search_error is None && r.track.isrc is Some && r.outcome.method is Isrc,
    );
}

proof fn lemma_reasons(rows: Seq<RowView>, w: Seq<char>)
    ensures
        occurrences(reasons_for_missing(rows), w) == rows.filter(
            |r: RowView|
                r.search_error is None && r.outcome.verdict is NoMatch && r.outcome.reason == w,
        ).len(),
        reasons_for_missing(rows).contains(w) <==> occurrences(reasons_for_missing(rows), w) > 0,
    decreases rows.len(),
{
    reveal(Seq::filter);
    let all = reasons_for_missing(rows);
    lemma_occurrences(all, w);
    if rows.len() > 0 {
        lemma_reasons(rows.drop_last(), w);
        let before = reasons_for_missing(rows.drop_last());
        let row = rows.last();
        if row.search_error is None && row.outcome.verdict is NoMatch {
            assert(all.drop_last() =~= before);
        }
    }
}

proof fn lemma_occurrences(texts: Seq<Seq<char>>, w: Seq<char>)
    ensures
        texts.contains(w) <==> occurrences(texts, w) > 0,
    decreases texts.len(),
{
    if texts.len() > 0 {
        let init = texts.drop_last();
        lemma_occurrences(init, w);
        if texts.contains(w) {
            let i = choose|i: int| 0 <= i < texts.len() && texts[i] == w;
            if i < init.len() {
                assert(init[i] == w);
            }
        }
        if init.contains(w) {
            let i = choose|i: int| 0 <= i < init.len() && init[i] == w;
            assert(texts[i] == w);
        }
        assert(texts[texts.len() - 1] == texts.last());
    }
}

proof fn lemma_errors(rows: Seq<RowView>, w: Seq<char>)
    ensures
        occurrences(errors_in(rows), w) == rows.filter(|r: RowView| r.search_error == Some(w)).len(),
    decreases rows.len(),
{
    reveal(Seq::filter);
    if rows.len() > 0 {
        lemma_errors(rows.drop_last(), w);
        let before = errors_in(rows.drop_last());
        if rows.last().search_error is Some {
            assert(errors_in(rows).drop_last() =~= before);
        }
    }
}

/// Why tracks were missed is told reason by reason, with the number of tracks
/// each holds of, the most frequent first, and all of them. A search that failed
/// is no reason.
pub proof fn law_reasons_are_told_by_frequency(s: Summary, rows: Seq<RowView>)
    requires
        s.sums_up(rows),
    ensures
        ({
            let told = tally_views(s.miss_reasons@);
            &&& forall|i: int|
                0 <= i < told.len() ==> (#[trigger] told[i]).1 > 0 && told[i].1 == rows.filter(
                    |r: RowView|
                        r.search_error is None && r.outcome.verdict is NoMatch && r.outcome.reason
                            == told[i].0,
                ).len()
            &&& forall|i: int, j: int|
                0 <= i < j < told.len() ==> (#[trigger] told[i]).1 >= (#[trigger] told[j]).1
            &&& forall|k: int|
                0 <= k < rows.len() && (#[trigger] rows[k]).search_error is None
                    && rows[k].outcome.verdict is NoMatch ==> exists|i: int|
                    0 <= i < told.len() && (#[trigger] told[i]).0 == rows[k].outcome.reason
        }),
{
    broadcast use vstd::seq_lib::group_to_multiset_ensures;

    let reasons = reasons_for_missing(rows);
    let plain = tallied(reasons);
    let told = tally_views(s.miss_reasons@);
    let ahead = |a: (Seq<char>, nat), b: (Seq<char>, nat)| more_often(a, b);
    assert(is_weak_order(ahead));
    lemma_in_order(plain, ahead);
    lemma_word_set(reasons);
    assert forall|i: int| 0 <= i < told.len() implies (#[trigger] told[i]).1 > 0 && told[i].1
        == rows.filter(
        |r: RowView|
            r.search_error is None && r.outcome.verdict is NoMatch && r.outcome.reason
                == told[i].0,
    ).len() by {
        assert(told.contains(told[i]));
        assert(plain.to_multiset().contains(told[i]));
        assert(plain.contains(told[i]));
        let k = choose|k: int| 0 <= k < plain.len() && plain[k] == told[i];
        assert(word_set(reasons).contains(word_set(reasons)[k]));
        lemma_reasons(rows, told[i].0);
    }
    assert forall|i: int, j: int| 0 <= i < j < told.len() implies (#[trigger] told[i]).1 >= (
    #[trigger] told[j]).1 by {
        assert(!ahead(told[j], told[i]));
    }
    assert forall|k: int|
        0 <= k < rows.len() && (#[trigger] rows[k]).search_error is None
            && rows[k].outcome.verdict is NoMatch implies exists|i: int|
        0 <= i < told.len() && (#[trigger] told[i]).0 == rows[k].outcome.reason by {
        let w = rows[k].outcome.reason;
        lemma_reason_is_there(rows, k);
        assert(word_set(reasons).contains(w));
        let m = choose|m: int| 0 <= m < word_set(reasons).len() && word_set(reasons)[m] == w;
        let t = plain[m];
        assert(plain.contains(t));
        assert(told.to_multiset().contains(t));
        assert(told.contains(t));
        let i = choose|i: int| 0 <= i < told.len() && told[i] == t;
        assert(told[i].0 == w);
    }
}

proof fn lemma_reason_is_there(rows: Seq<RowView>, k: int)
    requires
        0 <= k < rows.len(),
        rows[k].search_error is None,
        rows[k].outcome.verdict is NoMatch,
    ensures
        reasons_for_missing(rows).contains(rows[k].outcome.reason),
    decreases rows.len(),
{
    let init = rows.drop_last();
    let before = reasons_for_missing(init);
    let after = reasons_for_missing(rows);
    if k < init.len() {
        assert(init[k] == rows[k]);
        lemma_reason_is_there(init, k);
        let i = choose|i: int| 0 <= i < before.len() && before[i] == rows[k].outcome.reason;
        assert(after[i] == before[i]);
    } else {
        assert(after[before.len() as int] == rows[k].outcome.reason);
    }
}

/// Reasons that are equally frequent stand in dictionary order.
pub proof fn law_equal_reasons_in_dictionary_order(s: Summary, rows: Seq<RowView>, n: nat)
    requires
        s.sums_up(rows),
    ensures
        tally_views(s.miss_reasons@).filter(|t: (Seq<char>, nat)| t.1 == n) == tallied(
            reasons_for_missing(rows),
        ).filter(|t: (Seq<char>, nat)| t.1 == n),
        forall|i: int, j: int|
            0 <= i < j < tallied(reasons_for_missing(rows)).len() ==> comes_before(
                (#[trigger] tallied(reasons_for_missing(rows))[i]).0,
                (#[trigger] tallied(reasons_for_missing(rows))[j]).0,
            ),
{
    let plain = tallied(reasons_for_missing(rows));
    let ahead = |a: (Seq<char>, nat), b: (Seq<char>, nat)| more_often(a, b);
    lemma_in_order_stable(plain, ahead, |t: (Seq<char>, nat)| t.1 == n);
    lemma_word_set(reasons_for_missing(rows));
    let w = word_set(reasons_for_missing(rows));
    assert forall|i: int, j: int| 0 <= i < j < plain.len() implies comes_before(
        (#[trigger] plain[i]).0,
        (#[trigger] plain[j]).0,
    ) by {
        assert(comes_before(w[i], w[j]));
    }
}

/// Why searches failed is told error by error, in dictionary order, with the
/// number of searches each stopped.
pub proof fn law_errors_are_told_with_their_number(s: Summary, rows: Seq<RowView>)
    requires
        s.sums_up(rows),
    ensures
        ({
            let told = tally_views(s.search_errors@);
            &&& forall|i: int|
                0 <= i < told.len() ==> (#[trigger] told[i]).1 == rows.filter(
                    |r: RowView| r.search_error == Some(told[i].0),
                ).len()
            &&& forall|i: int, j: int|
                0 <= i < j < told.len() ==> comes_before(
                    (#[trigger] told[i]).0,
                    (#[trigger] told[j]).0,
                )
        }),
{
    let told = tally_views(s.search_errors@);
    let w = word_set(errors_in(rows));
    lemma_word_set(errors_in(rows));
    assert forall|i: int| 0 <= i < told.len() implies (#[trigger] told[i]).1 == rows.filter(
        |r: RowView| r.search_error == Some(told[i].0),
    ).len() by {
        lemma_errors(rows, told[i].0);
    }
    assert forall|i: int, j: int| 0 <= i < j < told.len() implies comes_before(
        (#[trigger] told[i]).0,
        (#[trigger] told[j]).0,
    ) by {
        assert(comes_before(w[i], w[j]));
    }
}

/// A run is failing exactly when five tracks or more were tried and half of them
/// or more failed.
pub proof fn law_half_of_five_is_failing(attempts: usize, failed: usize)
    ensures
        is_failing(attempts, failed) <==> attempts >= 5 && failed >= attempts - failed,
{
}

/// The last error is that of the last row that has one.
pub proof fn law_last_error_is_the_latest(rows: Seq<RowView>, row: RowView)
    ensures
        row.search_error is Some ==> last_error(rows.push(row)) == row.search_error,
        row.search_error is None ==> last_error(rows.push(row)) == last_error(rows),
        rows.len() == 0 ==> last_error(rows) is None,
{
    assert(rows.push(row).drop_last() =~= rows);
}

/// Every track counts as an attempt, and one whose search failed as a failure. Its
/// row is kept as it came out, behind all the others, unless the run is failing:
/// then it is given up, and nothing is added.
pub proof fn law_what_a_lookup_adds(run: MatchRunView, row: RowView)
    requires
        run.attempts < usize::MAX,
        run.failed < usize::MAX,
    ensures
        ({
            let after = after_lookup(run, row);
            let failing = after.attempts >= 5 && 2 * after.failed >= after.attempts;
            &&& after.attempts == run.attempts + 1
            &&& after.failed == run.failed + if row.search_error is Some {
                1
            } else {
                0int
            }
            &&& after.reused == run.reused
            &&& !failing ==> after.rows == run.rows.push(row)
            &&& failing ==> after.rows == run.rows
        }),
{
}

/// A track whose match is reused counts as an attempt and as reused, and its row
/// has the verdict that was stored, says where it is from, and is no failure.
pub proof fn law_what_a_reuse_adds(
    run: MatchRunView,
    track: LocalView,
    verdict: Verdict,
    reason: Seq<char>,
)
    requires
        run.attempts < usize::MAX,
        run.reused < usize::MAX,
    ensures
        ({
            let after = after_reuse(run, track, verdict, reason);
            let row = after.rows.last();
            &&& after.attempts == run.attempts + 1
            &&& after.reused == run.reused + 1
            &&& after.failed == run.failed
            &&& after.rows.len() == run.rows.len() + 1
            &&& after.rows.drop_last() == run.rows
            &&& row.track == track
            &&& row.outcome.verdict == verdict
            &&& row.outcome.reason == reason + " (from cache)"@
            &&& row.outcome.candidates.len() == 0
            &&& row.search_error is None
        }),
{
    assert(after_reuse(run, track, verdict, reason).rows.drop_last() =~= run.rows);
}

/// A text that fits is left alone; one that does not keeps its start, ends in an
/// ellipsis, and is as wide as there is room.
pub proof fn law_cutting_keeps_the_start(s: Seq<char>, max: nat)
    ensures
        s.len() <= max ==> cut_to(s, max) == s,
        s.len() > max && max > 0 ==> cut_to(s, max).len() == max && cut_to(s, max).drop_last()
            == s.take(max - 1) && cut_to(s, max).last() == '\u{2026}',
        s.len() > max && max == 0 ==> cut_to(s, max) == seq!['\u{2026}'],
{
    if s.len() > max && max > 0 {
        assert(cut_to(s, max).drop_last() =~= s.take(max - 1));
    }
}

/// Whole seconds are cut towards zero: a second is counted once it is over, on
/// either side.
pub proof fn law_seconds_are_whole_ones(ms: i64)
    ensures
        ms >= 0 ==> 0 <= 1000 * whole_seconds(ms) <= ms < 1000 * whole_seconds(ms) + 1000,
        ms <= 0 ==> 1000 * whole_seconds(ms) - 1000 < ms <= 1000 * whole_seconds(ms) <= 0,
{
}

/// The record of a row tells, under the heading of each column, what the column
/// is for; where there is no candidate, the columns about one are blank.
pub proof fn law_record_fills_its_columns(row: RowView)
    ensures
        ({
            let f = csv_fields(row);
            let h = CSV_HEADER@;
            let o = row.outcome;
            &&& f.len() == 22 && h.len() == 22
            &&& h[0]@ == "file"@ && f[0] == row.track.file_name
            &&& h[1]@ == "local_artist"@ && f[1] == row.track.artist
            &&& h[2]@ == "local_title_base"@ && f[2] == row.track.parsed.base
            &&& h[3]@ == "local_version"@ && f[3] == ParsedTitle::label(row.track.parsed)
            &&& h[4]@ == "local_length"@ && f[4] == minutes_seconds(row.track.duration_ms as nat)
            &&& h[5]@ == "local_isrc"@ && f[5] == or_empty(row.track.isrc)
            &&& h[6]@ == "verdict"@ && f[6] == o.verdict.label()
            &&& h[7]@ == "method"@ && f[7] == o.method.label()
            &&& h[8]@ == "confidence"@ && h[9]@ == "spotify_artist"@ && h[10]@ == "spotify_title"@
            &&& h[11]@ == "spotify_length"@ && h[12]@ == "delta_seconds"@ && h[13]@
                == "spotify_url"@
            &&& h[14]@ == "spotify_uri"@ && h[15]@ == "score_artist"@ && h[16]@ == "score_title"@
            &&& h[17]@ == "score_duration"@ && h[18]@ == "score_mix"@ && h[19]@ == "runner_up"@
            &&& h[20]@ == "search_error"@ && f[20] == or_empty(row.search_error)
            &&& h[21]@ == "notes"@
            &&& o.candidates.len() > 0 ==> {
                let c = o.candidates[0];
                &&& f[8] == share_percent(c.score.total)
                &&& f[9] == artist_line(c.track.artists)
                &&& f[10] == c.track.name
                &&& f[11] == minutes_seconds(c.track.duration_ms as nat)
                &&& f[12] == signed_decimal(whole_seconds(c.score.duration_delta_ms))
                &&& f[13] == or_empty(c.track.url)
                &&& f[14] == c.track.uri
                &&& f[15] == share_decimals(c.score.artist)
                &&& f[16] == share_decimals(c.score.title)
                &&& f[17] == share_decimals(c.score.duration)
                &&& f[18] == share_decimals(c.score.mix)
            }
            &&& o.candidates.len() == 0 ==> {
                &&& f[8] == share_percent(0)
                &&& forall|i: int| 9 <= i <= 19 ==> (#[trigger] f[i]).len() == 0
                &&& f[21] == o.reason
            }
            &&& o.candidates.len() == 1 ==> f[19].len() == 0
            &&& o.candidates.len() > 1 ==> {
                let c = o.candidates[1];
                f[19] == artist_line(c.track.artists) + " - "@ + c.track.name + " ["@
                    + minutes_seconds(c.track.duration_ms as nat) + "] ("@ + share_percent(
                    c.score.total,
                ) + "%)"@
            }
            &&& o.candidates.len() > 0 && o.candidates[0].score.notes.len() == 0 ==> f[21]
                == o.reason
            &&& o.candidates.len() > 0 && join(o.candidates[0].score.notes, "; "@).len() > 0
                ==> f[21] == join(o.candidates[0].score.notes, "; "@)
        }),
{
}

/// A scan counts the tracks that carry a code, and those that name a version.
pub proof fn law_what_a_scan_counts(tracks: &Vec<LocalTrack>, r: (usize, usize))
    requires
        call_ensures(scan_counts, (tracks,), r),
    ensures
        r.0 == tracks@.filter(|t: LocalTrack| t.isrc is Some).len(),
        r.1 == tracks@.filter(|t: LocalTrack| !(t.parsed.kind is Unlabelled)).len(),
{
    lemma_counts(
        tracks@,
        |t: LocalTrack| t@.isrc is Some,
        |t: LocalTrack| t.isrc is Some,
    );
    lemma_counts(
        tracks@,
        |t: LocalTrack| t@.parsed.kind != MixKind::Unlabelled,
        |t: LocalTrack| !(t.parsed.kind is Unlabelled),
    );
}

proof fn lemma_cancel(x: int, bound: int, k: int)
    requires
        0 < k,
        x * k <= bound * k,
    ensures
        x <= bound,
{
    assert(x <= bound) by (nonlinear_arith)
        requires
            0 < k,
            x * k <= bound * k,
    ;
}

/// The tenths of a percent that are shown of a part.
pub open spec fn shown_tenths(part: nat, total: nat) -> int {
    half_even(10 * percentage(part, total).0, percentage(part, total).1)
}

/// A part of a total is shown to the nearest tenth of a percent; nothing of
/// nothing is zero.
pub proof fn law_rate_is_the_nearest_tenth(part: nat, total: nat)
    requires
        part <= total < 0x100_0000_0000,
    ensures
        total > 0 ==> {
            let t = shown_tenths(part, total);
            &&& 0 <= t
            &&& -total <= 2 * (t * total - 1000 * part) <= total
            &&& rate(part, total) == decimal((t / 10) as nat) + "."@ + decimal((t % 10) as nat)
        },
        total == 0 ==> rate(part, total) == decimal(0) + "."@ + decimal(0),
{
    if total > 0 {
        let d = total as int;
        let n = 100 * part;
        let limit = DOUBLE_LIMIT * d;
        let r = percentage(part, total);
        let (m, den) = (r.0, r.1);
        let t = shown_tenths(part, total);
        law_whole_numbers_are_exact(part as int);
        law_whole_numbers_are_exact(n as int);
        law_whole_numbers_are_exact(d);
        law_held_is_nearest(n as int, d, limit);
        law_rounding_goes_to_the_nearest(10 * m, den);
        if part == 0 {
            assert(m == 0 && den == 1);
            assert(t == 0);
        } else {
            law_held_uses_all_digits(n as int, d, limit);
            assert(den >= 0x2000_0000_0000) by (nonlinear_arith)
                requires
                    2 * n * den >= limit,
                    limit == 0x20_0000_0000_0000 * d,
                    0 < n <= 100 * d,
                    den >= 1,
                    d > 0,
            ;
            let x = t * d - 10 * n;
            assert(2 * (t * den - 10 * m) * d <= den * d && 2 * (t * den - 10 * m) * d >= -(den * d))
                by (nonlinear_arith)
                requires
                    -den <= 2 * (t * den - 10 * m) <= den,
                    d > 0,
            ;
            assert(2 * x * den == 2 * (t * den - 10 * m) * d + 20 * (m * d - n * den))
                by (nonlinear_arith)
                requires
                    x == t * d - 10 * n,
            ;
            assert(2 * x * den <= den * d + 10 * d && 2 * x * den >= -(den * d + 10 * d));
            assert(10 * d < den);
            assert((2 * x - d) * den < 1 * den && (-2 * x - d) * den < 1 * den) by (nonlinear_arith)
                requires
                    2 * x * den <= den * d + 10 * d,
                    2 * x * den >= -(den * d + 10 * d),
                    10 * d < den,
            ;
            assert(2 * x - d < 1 && -2 * x - d < 1) by (nonlinear_arith)
                requires
                    (2 * x - d) * den < 1 * den,
                    (-2 * x - d) * den < 1 * den,
                    den > 0,
            ;
            assert(t >= 0) by (nonlinear_arith)
                requires
                    2 * (t * d - 10 * n) >= -d,
                    n >= 0,
                    d > 0,
            ;
        }
    }
}

/// A score is shown to the nearest hundredth, as closely as a single holds it.
pub proof fn law_score_is_the_nearest_hundredth(share: u64)
    requires
        share <= 1_000_000_000,
    ensures
        ({
            let h = half_even(100 * share_single(share).0, share_single(share).1);
            &&& 0 <= h
            &&& -500_010_000 <= h * 1_000_000_000 - 100 * share <= 500_010_000
            &&& share_decimals(share) == decimal((h / 100) as nat) + "."@ + two_digits(
                (h % 100) as nat,
            )
        }),
{
    let d = 1_000_000_000int;
    let n = share as int;
    let r = share_single(share);
    let (m, den) = (r.0, r.1);
    let h = half_even(100 * m, den);
    let limit = SINGLE_LIMIT * d;
    law_held_is_nearest(n, d, limit);
    law_rounding_goes_to_the_nearest(100 * m, den);
    if n == 0 {
        assert(m == 0 && den == 1);
        assert(h == 0);
    } else {
        law_held_uses_all_digits(n, d, limit);
        assert(den >= 0x80_0000) by (nonlinear_arith)
            requires
                2 * n * den >= limit,
                limit == 0x100_0000 * d,
                0 < n <= d,
                den >= 1,
                d > 0,
        ;
        let x = h * d - 100 * n;
        assert(2 * (h * den - 100 * m) * d <= den * d && 2 * (h * den - 100 * m) * d >= -(den * d))
            by (nonlinear_arith)
            requires
                -den <= 2 * (h * den - 100 * m) <= den,
                d > 0,
        ;
        assert(2 * x * den == 2 * (h * den - 100 * m) * d + 200 * (m * d - n * den))
            by (nonlinear_arith)
            requires
                x == h * d - 100 * n,
        ;
        assert(2 * x * den <= den * d + 100 * d && 2 * x * den >= -(den * d + 100 * d));
        assert(100 * d <= 20_000 * den);
        assert((2 * x) * den <= (d + 20_000) * den && (-2 * x) * den <= (d + 20_000) * den)
            by (nonlinear_arith)
            requires
                2 * x * den <= den * d + 100 * d,
                2 * x * den >= -(den * d + 100 * d),
                100 * d <= 20_000 * den,
        ;
        lemma_cancel(2 * x, d + 20_000, den);
        lemma_cancel(-2 * x, d + 20_000, den);
        assert(h >= 0) by (nonlinear_arith)
            requires
                h * d - 100 * n >= -500_010_000,
                n >= 0,
                d == 1_000_000_000,
        ;
    }
}

/// A part of a total is shown to the nearest percent where no tenths are asked
/// for; nothing of nothing is zero.
pub proof fn law_whole_rate_is_the_nearest_percent(part: nat, total: nat)
    requires
        part <= total < 0x100_0000_0000,
    ensures
        total > 0 ==> {
            let p = half_even(percentage(part, total).0, percentage(part, total).1);
            &&& 0 <= p
            &&& -total <= 2 * (p * total - 100 * part) <= total
            &&& whole_rate(part, total) == decimal(p as nat)
        },
        total == 0 ==> whole_rate(part, total) == decimal(0),
{
    if total > 0 {
        let d = total as int;
        let n = 100 * part;
        let limit = DOUBLE_LIMIT * d;
        let r = percentage(part, total);
        let (m, den) = (r.0, r.1);
        let p = half_even(m, den);
        law_whole_numbers_are_exact(part as int);
        law_whole_numbers_are_exact(n as int);
        law_whole_numbers_are_exact(d);
        law_held_is_nearest(n as int, d, limit);
        law_rounding_goes_to_the_nearest(m, den);
        if part == 0 {
            assert(m == 0 && den == 1);
            assert(p == 0);
        } else {
            law_held_uses_all_digits(n as int, d, limit);
            assert(den >= 0x2000_0000_0000) by (nonlinear_arith)
                requires
                    2 * n * den >= limit,
                    limit == 0x20_0000_0000_0000 * d,
                    0 < n <= 100 * d,
                    den >= 1,
                    d > 0,
            ;
            let x = p * d - n;
            assert(2 * (p * den - m) * d <= den * d && 2 * (p * den - m) * d >= -(den * d))
                by (nonlinear_arith)
                requires
                    -den <= 2 * (p * den - m) <= den,
                    d > 0,
            ;
            assert(2 * x * den == 2 * (p * den - m) * d + 2 * (m * d - n * den))
                by (nonlinear_arith)
                requires
                    x == p * d - n,
            ;
            assert((2 * x - d) * den < 1 * den && (-2 * x - d) * den < 1 * den) by (nonlinear_arith)
                requires
                    2 * x * den <= den * d + d,
                    2 * x * den >= -(den * d + d),
                    d < den,
            ;
            assert(2 * x - d < 1 && -2 * x - d < 1) by (nonlinear_arith)
                requires
                    (2 * x - d) * den < 1 * den,
                    (-2 * x - d) * den < 1 * den,
                    den > 0,
            ;
            assert(p >= 0) by (nonlinear_arith)
                requires
                    2 * (p * d - n) >= -d,
                    n >= 0,
                    d > 0,
            ;
        }
    }
}

/// The percent that are shown of a score.
pub open spec fn shown_percent(share: u64) -> int {
    let held = share_single(share);
    let hundredfold = single(100 * held.0, held.1);
    half_even(hundredfold.0, hundredfold.1)
}

/// A confidence is shown to the nearest percent, as closely as a single holds it.
#[verifier::spinoff_prover]
pub proof fn law_confidence_is_the_nearest_percent(share: u64)
    requires
        share <= 1_000_000_000,
    ensures
        0 <= shown_percent(share),
        -500_020_000 <= shown_percent(share) * 1_000_000_000 - 100 * share <= 500_020_000,
        share_percent(share) == decimal(shown_percent(share) as nat),
{
    let d = 1_000_000_000int;
    let n = share as int;
    let r = share_single(share);
    let (m, den) = (r.0, r.1);
    let limit = SINGLE_LIMIT * d;
    law_held_is_nearest(n, d, limit);
    if n == 0 {
        assert(m == 0 && den == 1);
        assert(single(0, 1) == (0int, 1int));
        assert(shown_percent(share) == 0);
    } else {
        law_held_uses_all_digits(n, d, limit);
        assert(den >= 0x80_0000) by (nonlinear_arith)
            requires
                2 * n * den >= limit,
                limit == 0x100_0000 * d,
                0 < n <= d,
                den >= 1,
                d > 0,
        ;
        assert(m <= den + 1 && m > 0) by (nonlinear_arith)
            requires
                -d <= 2 * (m * d - n * den) <= d,
                2 * n * den >= 0x100_0000 * d,
                0 < n <= d,
                den >= 1,
                d > 0,
        ;
        let r2 = single(100 * m, den);
        let (m2, den2) = (r2.0, r2.1);
        let limit2 = SINGLE_LIMIT * den;
        law_held_is_nearest(100 * m, den, limit2);
        law_held_uses_all_digits(100 * m, den, limit2);
        assert(den2 >= 65_536) by (nonlinear_arith)
            requires
                2 * (100 * m) * den2 >= limit2,
                limit2 == 0x100_0000 * den,
                m <= den + 1,
                den >= 0x80_0000,
                den2 >= 1,
        ;
        let p = half_even(m2, den2);
        law_rounding_goes_to_the_nearest(m2, den2);
        lemma_three_roundings(n, d, m, den, m2, den2, p);
    }
}

proof fn lemma_three_roundings(
    n: int,
    d: int,
    m: int,
    den: int,
    m2: int,
    den2: int,
    p: int,
)
    requires
        0 <= n,
        d == 1_000_000_000,
        den >= 0x80_0000,
        den2 >= 65_536,
        -d <= 2 * (m * d - n * den) <= d,
        -den <= 2 * (m2 * den - (100 * m) * den2) <= den,
        -den2 <= 2 * (p * den2 - m2) <= den2,
    ensures
        -500_020_000 <= p * d - 100 * n <= 500_020_000,
        0 <= p,
{
    let a = 2 * (p * den2 - m2);
    let b = 2 * (m2 * den - (100 * m) * den2);
    let c = 2 * (m * d - n * den);
    let x = p * d - 100 * n;
    let k = den * den2;
    let pushed = p * den2 * (den * d);
    let middle = m2 * den * d;
    let inner = m * den2 * d;
    let exact = n * den * den2;
    assert(a * (den * d) == 2 * pushed - 2 * middle) by (nonlinear_arith)
        requires
            a == 2 * (p * den2 - m2),
            pushed == p * den2 * (den * d),
            middle == m2 * den * d,
    ;
    assert(b * d == 2 * middle - 200 * inner) by (nonlinear_arith)
        requires
            b == 2 * (m2 * den - (100 * m) * den2),
            middle == m2 * den * d,
            inner == m * den2 * d,
    ;
    assert(c * den2 == 2 * inner - 2 * exact) by (nonlinear_arith)
        requires
            c == 2 * (m * d - n * den),
            inner == m * den2 * d,
            exact == n * den * den2,
    ;
    assert(pushed == p * d * k) by (nonlinear_arith)
        requires
            pushed == p * den2 * (den * d),
            k == den * den2,
    ;
    assert(exact == n * k) by (nonlinear_arith)
        requires
            exact == n * den * den2,
            k == den * den2,
    ;
    assert(2 * x * k == 2 * (p * d * k) - 200 * (n * k)) by (nonlinear_arith)
        requires
            x == p * d - 100 * n,
    ;
    assert(a * (den * d) <= den2 * (den * d) && a * (den * d) >= -(den2 * (den * d)))
        by (nonlinear_arith)
        requires
            -den2 <= a <= den2,
            den > 0,
            d > 0,
    ;
    assert(den2 * (den * d) == d * k) by (nonlinear_arith)
        requires
            k == den * den2,
    ;
    assert(b * d <= den * d && b * d >= -(den * d)) by (nonlinear_arith)
        requires
            -den <= b <= den,
            d > 0,
    ;
    assert(c * den2 <= d * den2 && c * den2 >= -(d * den2)) by (nonlinear_arith)
        requires
            -d <= c <= d,
            den2 > 0,
    ;
    assert(den * d <= 15_259 * k) by (nonlinear_arith)
        requires
            k == den * den2,
            den2 >= 65_536,
            d == 1_000_000_000,
            den > 0,
    ;
    assert(100 * (d * den2) <= 11_921 * k) by (nonlinear_arith)
        requires
            k == den * den2,
            den >= 0x80_0000,
            d == 1_000_000_000,
            den2 > 0,
    ;
    assert(k > 0) by (nonlinear_arith)
        requires
            k == den * den2,
            den > 0,
            den2 > 0,
    ;
    assert(d * k + 15_259 * k + 11_921 * k == (d + 27_180) * k) by (nonlinear_arith);
    assert((2 * x) * k == 2 * x * k) by (nonlinear_arith);
    assert((-2 * x) * k == -(2 * x * k)) by (nonlinear_arith);
    lemma_cancel(2 * x, d + 27_180, k);
    lemma_cancel(-2 * x, d + 27_180, k);
    assert(p >= 0) by (nonlinear_arith)
        requires
            p * d - 100 * n >= -500_020_000,
            n >= 0,
            d == 1_000_000_000,
    ;
}

} // verus!
