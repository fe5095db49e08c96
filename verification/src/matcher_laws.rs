//! What scoring and judging candidates promise, over all files and hits.

use vstd::prelude::*;

use crate::matcher::{
    by_code, by_text, carrying, gap, law_shortlist_is_the_best, outcome, same_by_meta, scored,
    shortlist, usual_thresholds, weigh, Candidate, MatchOutcome, OutcomeView, Score, ScoreView,
    ShorterVersionPolicy, Thresholds,
};
use crate::normalize::{
    law_token_similarity_reflexive, lemma_similarity_share, lemma_token_similarity_share,
    normalized, similarity, token_list, token_similarity, MixKind,
};
use crate::spotify::{artist_line, TrackView};
use crate::tags::{credited, LocalView};
use crate::text::decimal;
use crate::title::parsed_title;
use crate::unit::nearest;

verus! {

/// How alike the artists of a file and of a track are.
pub open spec fn artists_alike(local: LocalView, track: TrackView) -> int {
    token_similarity(credited(local), artist_line(track.artists))
}

/// How alike the titles of a file and of a track are, their versions aside.
pub open spec fn titles_alike(local: LocalView, track: TrackView) -> int {
    similarity(local.parsed.base, parsed_title(track.name).base)
}

/// Whether a file and a track name two remixers that are not alike.
pub open spec fn two_remixers(local: LocalView, track: TrackView) -> bool {
    match (local.parsed.remixer_norm, parsed_title(track.name).remixer_norm) {
        (Some(a), Some(b)) => similarity(a, b) < 800_000_000,
        _ => false,
    }
}

/// What the four signals weigh together, in hundredths: 32 parts artist, 30
/// title, 24 length and 14 version.
pub open spec fn weight(s: ScoreView) -> int {
    32 * s.artist + 30 * s.title + 24 * s.duration + 14 * s.mix
}

proof fn lemma_nearest(n: int, d: int)
    requires
        d == 100 || d == 200 || d == 400,
    ensures
        n - d / 2 <= d * nearest(n, d) <= n + d / 2,
{
    if d == 100 {
        assert(nearest(n, 100) == (2 * n + 100) / 200);
    } else if d == 200 {
        assert(nearest(n, 200) == (2 * n + 200) / 400);
    } else {
        assert(nearest(n, 400) == (2 * n + 400) / 800);
    }
}

/// Every signal is a share of one, and the artist and the title of a candidate
/// are scored by how alike they read, each on its own.
pub proof fn law_signals_are_shares(local: LocalView, track: TrackView)
    ensures
        scored(local, track).artist == artists_alike(local, track),
        scored(local, track).title == titles_alike(local, track),
        scored(local, track).artist <= 1_000_000_000,
        scored(local, track).title <= 1_000_000_000,
        scored(local, track).duration <= 1_000_000_000,
        scored(local, track).mix <= 1_000_000_000,
        scored(local, track).total <= 1_000_000_000,
{
    reveal(scored);
    lemma_token_similarity_share(credited(local), artist_line(track.artists));
    lemma_similarity_share(local.parsed.base, parsed_title(track.name).base);
}

/// The total is the weighted sum of the four signals, to the nearest part. A
/// strong title cannot rescue the wrong artist, and vice versa: an artist less
/// than 0.55 alike halves it, and so does a title less than 0.62 alike, each
/// whatever the other is. Only another remixer counts for more.
pub proof fn law_each_mismatch_halves_the_total(local: LocalView, track: TrackView)
    requires
        !two_remixers(local, track),
    ensures
        ({
            let s = scored(local, track);
            let wrong_artist = artists_alike(local, track) < 550_000_000;
            let wrong_title = titles_alike(local, track) < 620_000_000;
            &&& !wrong_artist && !wrong_title ==> weight(s) - 50 <= 100 * s.total <= weight(s) + 50
            &&& wrong_artist && !wrong_title ==> weight(s) - 100 <= 200 * s.total <= weight(s) + 100
            &&& !wrong_artist && wrong_title ==> weight(s) - 100 <= 200 * s.total <= weight(s) + 100
            &&& wrong_artist && wrong_title ==> weight(s) - 200 <= 400 * s.total <= weight(s) + 200
        }),
{
    law_signals_are_shares(local, track);
    reveal(scored);
    let s = scored(local, track);
    lemma_nearest(weight(s), 100);
    lemma_nearest(weight(s), 200);
    lemma_nearest(weight(s), 400);
}

/// A candidate by the wrong artist scores no more than half of what its signals
/// weigh, whatever its title; so does one with the wrong title, whatever its
/// artist.
pub proof fn law_no_signal_rescues_another(local: LocalView, track: TrackView)
    requires
        artists_alike(local, track) < 550_000_000 || titles_alike(local, track) < 620_000_000,
    ensures
        200 * scored(local, track).total <= weight(scored(local, track)) + 100,
        scored(local, track).total < 450_000_000,
{
    law_signals_are_shares(local, track);
    if two_remixers(local, track) {
        law_two_remixers_score_nothing(local, track);
    } else {
        law_each_mismatch_halves_the_total(local, track);
    }
}

/// Two different remixers make two recordings, however alike all else is.
pub proof fn law_two_remixers_score_nothing(local: LocalView, track: TrackView)
    requires
        two_remixers(local, track),
    ensures
        scored(local, track).total == 0,
        scored(local, track).mix == 0,
{
    reveal(scored);
}

/// The length signal falls as the lengths drift apart: whole within 2 seconds,
/// and lower beyond 2, 5, 10 and 30 seconds. A length that is not known is no
/// evidence either way.
pub proof fn law_length_signal_falls_with_the_gap(local: LocalView, track: TrackView)
    ensures
        ({
            let d = scored(local, track).duration;
            let a = local.duration_ms;
            let b = track.duration_ms;
            &&& a == 0 || b == 0 ==> d == 600_000_000
            &&& a != 0 && b != 0 ==> {
                &&& d == 1_000_000_000 <==> a - b <= 2_000 && b - a <= 2_000
                &&& d >= 880_000_000 <==> a - b <= 5_000 && b - a <= 5_000
                &&& d >= 650_000_000 <==> a - b <= 10_000 && b - a <= 10_000
                &&& d >= 350_000_000 <==> a - b <= 30_000 && b - a <= 30_000
                &&& a - b <= 2_000 && b - a <= 2_000 || d <= 880_000_000
                &&& a - b <= 5_000 && b - a <= 5_000 || d <= 650_000_000
                &&& a - b <= 10_000 && b - a <= 10_000 || d <= 350_000_000
                &&& a - b <= 30_000 && b - a <= 30_000 || d == 50_000_000
            }
        }),
{
    reveal(scored);
}

/// The difference in length is that of the file over the track, with its sign.
pub proof fn law_length_difference_has_its_sign(local: LocalView, track: TrackView)
    ensures
        ({
            let delta = scored(local, track).duration_delta_ms;
            let exact = local.duration_ms - track.duration_ms;
            &&& -i64::MAX <= exact <= i64::MAX ==> delta == exact
            &&& exact > i64::MAX ==> delta == i64::MAX
            &&& exact < -i64::MAX ==> delta == -i64::MAX
        }),
{
    reveal(scored);
}

/// Whether a kind is someone else's cut of the record.
pub open spec fn someone_elses(kind: MixKind) -> bool {
    kind is Remix || kind is Rework || kind is Edit || kind is Vip
}

/// Whether a kind is the full-length club version.
pub open spec fn full_length(kind: MixKind) -> bool {
    kind is Extended || kind is Club
}

/// Whether a kind says nothing, or original.
pub open spec fn says_nothing(kind: MixKind) -> bool {
    kind is Unlabelled || kind is Original
}

/// Where nobody is named, the kinds of the two versions settle the signal, and
/// it does not matter which side is which. It is whole exactly when the kinds
/// are the same. A full-length version and a radio edit hardly agree; one that
/// is not labelled half agrees with a full-length one; a derivative version and
/// one that is none hardly agree.
pub proof fn law_version_signal_by_kind(local: LocalView, track: TrackView)
    requires
        local.parsed.remixer_norm is None,
        parsed_title(track.name).remixer_norm is None,
    ensures
        ({
            let a = local.parsed.kind;
            let b = parsed_title(track.name).kind;
            let m = scored(local, track).mix;
            &&& m == 1_000_000_000 <==> a == b
            &&& full_length(a) && b is Radio || a is Radio && full_length(b) ==> m == 100_000_000
            &&& full_length(a) && says_nothing(b) || says_nothing(a) && full_length(b) ==> m
                == 500_000_000
            &&& says_nothing(a) && says_nothing(b) && a != b ==> m == 950_000_000
            &&& someone_elses(a) != someone_elses(b) ==> m == 200_000_000
            &&& a != b && someone_elses(a) && someone_elses(b) ==> m == 600_000_000
            &&& a != b && full_length(a) && full_length(b) ==> m == 600_000_000
            &&& a is Radio && says_nothing(b) || says_nothing(a) && b is Radio ==> m == 600_000_000
            &&& (a is Dub || a is Instrumental || a is Acapella) && a != b && !someone_elses(b)
                ==> m == 600_000_000
            &&& (b is Dub || b is Instrumental || b is Acapella) && a != b && !someone_elses(a)
                ==> m == 600_000_000
        }),
{
    reveal(scored);
}

/// Where somebody is named, the name settles the signal: it is whole when both
/// name the same one, whatever the kinds, and low when only one side names
/// anybody.
pub proof fn law_version_signal_by_name(local: LocalView, track: TrackView)
    ensures
        ({
            let here = local.parsed.remixer_norm;
            let there = parsed_title(track.name).remixer_norm;
            let m = scored(local, track).mix;
            &&& here is Some && there is Some && similarity(here->0, there->0) >= 800_000_000 ==> m
                == 1_000_000_000
            &&& here is Some && there is Some && similarity(here->0, there->0) < 800_000_000 ==> m
                == 0
            &&& here is Some && there is None ==> m == if someone_elses(
                parsed_title(track.name).kind,
            ) {
                350_000_000
            } else {
                100_000_000int
            }
            &&& here is None && there is Some ==> m == 100_000_000
        }),
{
    reveal(scored);
}

/// A wrong artist, a wrong title and a length more than a minute off are each
/// noted, in this order and behind what the versions say; nothing else is.
pub proof fn law_every_mismatch_is_noted(local: LocalView, track: TrackView)
    ensures
        ({
            let s = scored(local, track);
            let wrong_artist = artists_alike(local, track) < 550_000_000;
            let wrong_title = titles_alike(local, track) < 620_000_000;
            let apart = if s.duration_delta_ms < 0 {
                -s.duration_delta_ms
            } else {
                s.duration_delta_ms as int
            };
            let on_length: nat = if apart > 60_000 {
                1
            } else {
                0
            };
            let on_title: nat = if wrong_title {
                1
            } else {
                0
            };
            let on_artist: nat = if wrong_artist {
                1
            } else {
                0
            };
            let on_version: nat = if s.mix == 1_000_000_000 || s.mix == 950_000_000 || s.mix
                == 600_000_000 {
                0
            } else {
                1
            };
            &&& s.notes.len() == on_version + on_artist + on_title + on_length
            &&& apart > 60_000 ==> s.notes.last() == "duration differs by "@ + decimal(
                (apart / 1000) as nat,
            ) + "s"@
            &&& wrong_title ==> s.notes[s.notes.len() - 1 - on_length] == "title mismatch"@
            &&& wrong_artist ==> s.notes[s.notes.len() - 1 - on_length - on_title]
                == "artist mismatch"@
        }),
{
    law_signals_are_shares(local, track);
    reveal(scored);
}

/// Whether the best two candidates are too close to tell apart: the second is
/// within the margin, and is another recording by its name or its length.
pub open spec fn is_ambiguous(o: OutcomeView, t: Thresholds) -> bool {
    o.candidates.len() > 1 && {
        let first = o.candidates[0];
        let second = o.candidates[1];
        &&& first.score.total - second.score.total < t.ambiguity_margin
        &&& !(normalized(first.track.name) == normalized(second.track.name)
            && first.track.duration_ms - second.track.duration_ms <= 3_000
            && second.track.duration_ms - first.track.duration_ms <= 3_000)
    }
}

/// Whether the best candidate is surely by the artist, and surely the song.
pub open spec fn is_sure(o: OutcomeView, t: Thresholds) -> bool {
    o.candidates.len() > 0 && o.candidates[0].score.artist >= t.auto_artist
        && o.candidates[0].score.title >= t.auto_title
}

/// Whether the best candidate is surely the recording itself.
pub open spec fn is_beyond_doubt(o: OutcomeView, t: Thresholds) -> bool {
    is_sure(o, t) && o.candidates[0].score.total >= t.auto_total && o.candidates[0].score.duration
        >= t.auto_duration
}

/// Whether the best candidate is surely the song, in a cut that is 20 seconds
/// shorter or more, and by no other remixer.
pub open spec fn is_cut_short(local: LocalView, o: OutcomeView, t: Thresholds) -> bool {
    is_sure(o, t) && {
        let best = o.candidates[0];
        &&& local.duration_ms != 0
        &&& best.track.duration_ms != 0
        &&& local.duration_ms - best.track.duration_ms >= 20_000
        &&& best.score.mix > 0
    }
}

/// What a text search makes of a file. Its candidates are the best three of the
/// hits, as they were scored. It is pushed exactly when the best is beyond doubt
/// or an accepted shorter cut, and no other recording came close. It is no match
/// exactly when there is no hit, a shorter cut was ruled out, or the best is
/// neither good enough to look at nor a shorter cut.
pub proof fn law_verdict_on_text_hits(
    local: LocalView,
    isrc_hits: Seq<TrackView>,
    text_hits: Seq<TrackView>,
    t: Thresholds,
)
    requires
        local.isrc is None || isrc_hits.len() == 0,
    ensures
        ({
            let o = outcome(local, isrc_hits, text_hits, t);
            let pushable = is_beyond_doubt(o, t) || (is_cut_short(local, o, t)
                && t.shorter_version is Accept);
            let ruled_out = is_cut_short(local, o, t) && t.shorter_version is Reject;
            &&& o.candidates == shortlist(local, text_hits)
            &&& o.candidates.len() == 0 <==> text_hits.len() == 0
            &&& o.verdict is Auto <==> pushable && !is_ambiguous(o, t)
            &&& o.verdict is NoMatch <==> !pushable && {
                ||| text_hits.len() == 0
                ||| ruled_out
                ||| o.candidates[0].score.total < t.review_total && !is_cut_short(local, o, t)
            }
        }),
{
    reveal(by_text);
    law_shortlist_is_the_best(local, text_hits);
}

/// How a text search names its method: by no method exactly when nothing
/// matched, exact exactly when artist and title read as good as the same.
pub proof fn law_method_of_text_hits(
    local: LocalView,
    isrc_hits: Seq<TrackView>,
    text_hits: Seq<TrackView>,
    t: Thresholds,
)
    requires
        local.isrc is None || isrc_hits.len() == 0,
    ensures
        ({
            let o = outcome(local, isrc_hits, text_hits, t);
            &&& o.method is Unmatched <==> o.verdict is NoMatch
            &&& o.method is Exact <==> !(o.verdict is NoMatch) && o.candidates[0].score.artist
                >= 950_000_000 && o.candidates[0].score.title >= 980_000_000
            &&& !(o.method is Isrc)
        }),
{
    reveal(by_text);
    law_shortlist_is_the_best(local, text_hits);
}

/// Why a text search came out as it did: the first thing noted against the best
/// candidate where something was, unless it was pushed, was too close to
/// another, or is a shorter cut that was ruled out.
pub proof fn law_reason_of_text_hits(
    local: LocalView,
    isrc_hits: Seq<TrackView>,
    text_hits: Seq<TrackView>,
    t: Thresholds,
)
    requires
        local.isrc is None || isrc_hits.len() == 0,
    ensures
        ({
            let o = outcome(local, isrc_hits, text_hits, t);
            let pushable = is_beyond_doubt(o, t) || (is_cut_short(local, o, t)
                && t.shorter_version is Accept);
            let ruled_out = is_cut_short(local, o, t) && t.shorter_version is Reject;
            &&& text_hits.len() == 0 ==> o.reason == "no candidates returned"@
            &&& pushable && is_ambiguous(o, t) ==> o.reason
                == "two candidates within the ambiguity margin"@
            &&& o.verdict is Auto && !is_beyond_doubt(o, t) ==> o.reason
                == "shorter version accepted"@
            &&& o.verdict is Auto && is_beyond_doubt(o, t) && o.method is Exact ==> o.reason
                == "exact"@ + " match"@
            &&& o.verdict is Auto && is_beyond_doubt(o, t) && o.method is Fuzzy ==> o.reason
                == "fuzzy"@ + " match"@
            &&& !pushable && ruled_out ==> o.reason == "only a shorter version is available"@
            &&& !pushable && !ruled_out && text_hits.len() > 0 && o.candidates[0].score.notes.len()
                > 0 ==> o.reason == o.candidates[0].score.notes[0]
            &&& !pushable && !ruled_out && text_hits.len() > 0 && o.candidates[0].score.notes.len()
                == 0 ==> o.reason == if o.verdict is Review {
                "below auto threshold"@
            } else {
                "no plausible candidate"@
            }
        }),
{
    reveal(by_text);
    law_shortlist_is_the_best(local, text_hits);
}

/// Another song by the artist, or the song by another artist, is never put up:
/// whatever comes out of a text search that is not "no match" is at least 0.55
/// alike in its artist and 0.62 alike in its title. The thresholds may be any
/// that ask for as much.
pub proof fn law_wrong_song_is_no_match(
    local: LocalView,
    isrc_hits: Seq<TrackView>,
    text_hits: Seq<TrackView>,
    t: Thresholds,
)
    requires
        local.isrc is None || isrc_hits.len() == 0,
        t.review_total >= 450_000_000,
        t.auto_total >= 450_000_000,
        t.auto_artist >= 550_000_000,
        t.auto_title >= 620_000_000,
    ensures
        ({
            let o = outcome(local, isrc_hits, text_hits, t);
            &&& !(o.verdict is NoMatch) ==> {
                let best = o.candidates[0].track;
                &&& text_hits.contains(best)
                &&& artists_alike(local, best) >= 550_000_000
                &&& titles_alike(local, best) >= 620_000_000
            }
            &&& (forall|k: int|
                0 <= k < text_hits.len() ==> artists_alike(local, #[trigger] text_hits[k])
                    < 550_000_000 || titles_alike(local, text_hits[k]) < 620_000_000)
                ==> o.verdict is NoMatch
        }),
{
    law_verdict_on_text_hits(local, isrc_hits, text_hits, t);
    law_shortlist_is_the_best(local, text_hits);
    let o = outcome(local, isrc_hits, text_hits, t);
    if !(o.verdict is NoMatch) {
        let best = shortlist(local, text_hits)[0];
        law_signals_are_shares(local, best.track);
        if artists_alike(local, best.track) < 550_000_000 || titles_alike(local, best.track)
            < 620_000_000 {
            law_no_signal_rescues_another(local, best.track);
        }
        let k = choose|k: int| 0 <= k < text_hits.len() && text_hits[k] == best.track;
        assert(text_hits[k] == best.track);
    }
}

/// The thresholds that are used unless others are asked for put nothing up that
/// is less than 0.62 sure, push nothing that is less than 0.88 sure, and ask
/// about shorter cuts.
pub proof fn law_usual_thresholds_are_strict()
    ensures
        ({
            let t = usual_thresholds();
            &&& t.review_total == 620_000_000
            &&& t.auto_total == 880_000_000
            &&& t.auto_artist == 800_000_000
            &&& t.auto_title == 850_000_000
            &&& t.auto_duration == 850_000_000
            &&& t.ambiguity_margin == 50_000_000
            &&& t.isrc_duration_sanity_ms == 30_000
            &&& t.shorter_version is Review
        }),
{
}

/// What is done about shorter cuts plays no part for a file whose best candidate
/// is none.
pub proof fn law_policy_concerns_shorter_cuts_alone(
    local: LocalView,
    isrc_hits: Seq<TrackView>,
    text_hits: Seq<TrackView>,
    t: Thresholds,
    policy: ShorterVersionPolicy,
)
    requires
        !is_cut_short(local, outcome(local, isrc_hits, text_hits, t), t),
    ensures
        outcome(local, isrc_hits, text_hits, (Thresholds { shorter_version: policy, ..t }))
            == outcome(local, isrc_hits, text_hits, t),
{
    reveal(by_text);
    reveal(by_code);
    law_shortlist_is_the_best(local, text_hits);
}

/// Two hits of one name and nearly one length do not stand in each other's way:
/// where the best is beyond doubt and no other comes close but such a twin, it
/// is pushed.
pub proof fn law_twin_listings_are_pushed(
    local: LocalView,
    isrc_hits: Seq<TrackView>,
    text_hits: Seq<TrackView>,
    t: Thresholds,
)
    requires
        local.isrc is None || isrc_hits.len() == 0,
        is_beyond_doubt(outcome(local, isrc_hits, text_hits, t), t),
        shortlist(local, text_hits).len() > 1 ==> normalized(
            shortlist(local, text_hits)[0].track.name,
        ) == normalized(shortlist(local, text_hits)[1].track.name) && gap(
            shortlist(local, text_hits)[0].track.duration_ms as int,
            shortlist(local, text_hits)[1].track.duration_ms as int,
        ) <= 3_000,
    ensures
        outcome(local, isrc_hits, text_hits, t).verdict is Auto,
{
    law_verdict_on_text_hits(local, isrc_hits, text_hits, t);
}

proof fn lemma_carrying(hits: Seq<TrackView>, code: Seq<char>)
    ensures
        match carrying(hits, code) {
            Some(i) => 0 <= i < hits.len() && hits[i].isrc == Some(code) && forall|j: int|
                0 <= j < i ==> (#[trigger] hits[j]).isrc != Some(code),
            None => forall|j: int| 0 <= j < hits.len() ==> (#[trigger] hits[j]).isrc != Some(code),
        },
    decreases hits.len(),
{
    if hits.len() > 0 {
        lemma_carrying(hits.drop_last(), code);
        let init = hits.drop_last();
        assert forall|j: int| 0 <= j < init.len() implies #[trigger] hits[j] == init[j] by {}
    }
}

/// A file with a code, and a hit for it, is judged by the hit alone: the first
/// that carries the code, or failing that the first. It is pushed in full
/// confidence, unless the lengths are further apart than is plausible, when it
/// is put up instead.
pub proof fn law_verdict_on_code_hits(
    local: LocalView,
    isrc_hits: Seq<TrackView>,
    text_hits: Seq<TrackView>,
    t: Thresholds,
)
    requires
        local.isrc is Some,
        isrc_hits.len() > 0,
    ensures
        ({
            let o = outcome(local, isrc_hits, text_hits, t);
            let found = o.candidates[0];
            let s = scored(local, found.track);
            let plausible = -t.isrc_duration_sanity_ms <= s.duration_delta_ms
                && s.duration_delta_ms <= t.isrc_duration_sanity_ms;
            &&& o.candidates.len() == 1
            &&& o.method is Isrc
            &&& o.verdict is Auto <==> plausible
            &&& o.verdict is Review <==> !plausible
            &&& found.score.total == if plausible {
                1_000_000_000
            } else {
                750_000_000int
            }
            &&& found.score.artist == s.artist && found.score.title == s.title
            &&& found.score.duration == s.duration && found.score.mix == s.mix
            &&& s.notes.is_prefix_of(found.score.notes)
            &&& found.score.notes.len() == s.notes.len() + if plausible {
                0
            } else {
                1int
            }
            &&& plausible ==> o.reason == "exact isrc"@
            &&& !plausible ==> o.reason == "isrc hit with implausible duration"@
            &&& exists|i: int|
                0 <= i < isrc_hits.len() && found.track == #[trigger] isrc_hits[i] && {
                    ||| isrc_hits[i].isrc == local.isrc && forall|j: int|
                        0 <= j < i ==> (#[trigger] isrc_hits[j]).isrc != local.isrc
                    ||| i == 0 && forall|j: int|
                        0 <= j < isrc_hits.len() ==> (#[trigger] isrc_hits[j]).isrc != local.isrc
                }
        }),
{
    reveal(by_code);
    let code = local.isrc->0;
    lemma_carrying(isrc_hits, code);
    let i: int = match carrying(isrc_hits, code) {
        Some(i) => i,
        None => 0,
    };
    let o = outcome(local, isrc_hits, text_hits, t);
    let found = o.candidates[0];
    assert(found.track == isrc_hits[i]);
    assert(found.score.duration_delta_ms == scored(local, found.track).duration_delta_ms);
}

/// Whether two kinds can be of one version at one length: they are the same, or
/// one says nothing and the other speaks of length alone.
pub open spec fn kinds_agree(a: MixKind, b: MixKind) -> bool {
    ||| a == b
    ||| says_nothing(a) && (says_nothing(b) || full_length(b) || b is Radio)
    ||| says_nothing(b) && (says_nothing(a) || full_length(a) || a is Radio)
}

/// A listing is of the recording that it is itself: equal artists, with any word
/// in them, an equal name and an equal length are one recording.
pub proof fn law_a_recording_is_itself(artist: Seq<char>, name: Seq<char>, ms: u64)
    requires
        token_list(artist).len() > 0,
    ensures
        same_by_meta(artist, name, ms, artist, name, ms),
{
    law_token_similarity_reflexive(artist);
}

/// Two listings are of one recording exactly when they are within 3 seconds of
/// each other, of one song, by artists at least 0.8 alike, and of one version:
/// by one remixer where any is named, and where none is of kinds that agree.
pub proof fn law_what_makes_one_recording(
    artist_a: Seq<char>,
    name_a: Seq<char>,
    ms_a: u64,
    artist_b: Seq<char>,
    name_b: Seq<char>,
    ms_b: u64,
)
    ensures
        same_by_meta(artist_a, name_a, ms_a, artist_b, name_b, ms_b) <==> {
            let a = parsed_title(name_a);
            let b = parsed_title(name_b);
            &&& ms_a - ms_b <= 3_000 && ms_b - ms_a <= 3_000
            &&& normalized(a.base) == normalized(b.base)
            &&& token_similarity(artist_a, artist_b) >= 800_000_000
            &&& match (a.remixer_norm, b.remixer_norm) {
                (Some(x), Some(y)) => x == y,
                (None, None) => kinds_agree(a.kind, b.kind),
                _ => false,
            }
        },
{
    reveal(parsed_title);
}

/// Which of two listings comes first plays no part, where their artists read
/// alike either way round.
pub proof fn law_one_recording_either_way_round(
    artist_a: Seq<char>,
    name_a: Seq<char>,
    ms_a: u64,
    artist_b: Seq<char>,
    name_b: Seq<char>,
    ms_b: u64,
)
    requires
        token_similarity(artist_a, artist_b) == token_similarity(artist_b, artist_a),
    ensures
        same_by_meta(artist_a, name_a, ms_a, artist_b, name_b, ms_b) == same_by_meta(
            artist_b,
            name_b,
            ms_b,
            artist_a,
            name_a,
            ms_a,
        ),
{
}

/// The best candidate of an outcome is its first, and its confidence is that of
/// the best; without candidates there is neither.
pub proof fn law_best_candidate_comes_first(
    o: &MatchOutcome,
    best: Option<&Candidate>,
    confidence: u64,
)
    requires
        call_ensures(MatchOutcome::best, (o,), best),
        call_ensures(MatchOutcome::confidence, (o,), confidence),
    ensures
        best is Some <==> o.candidates@.len() > 0,
        best matches Some(c) ==> *c == o.candidates@[0] && confidence == c.score.total,
        best is None ==> confidence == 0,
{
}

/// Weighing makes of the four signals what scoring a candidate does: the artist
/// and the title each halve the total where they are wrong, and a hard reject
/// leaves nothing.
pub proof fn law_weighing_halves_for_each_mismatch(
    artist: u64,
    title: u64,
    duration: u64,
    delta: i64,
    mix: Option<u64>,
    note: Option<String>,
    r: Score,
)
    requires
        artist <= 1_000_000_000,
        title <= 1_000_000_000,
        duration <= 1_000_000_000,
        mix matches Some(m) ==> m <= 1_000_000_000,
        call_ensures(weigh, (artist, title, duration, delta, mix, note), r),
    ensures
        mix is None ==> r.total == 0,
        mix matches Some(m) ==> {
            let sum = 32 * artist + 30 * title + 24 * duration + 14 * m;
            &&& artist >= 550_000_000 && title >= 620_000_000 ==> sum - 50 <= 100 * r.total <= sum
                + 50
            &&& (artist < 550_000_000) != (title < 620_000_000) ==> sum - 100 <= 200 * r.total <= sum
                + 100
            &&& artist < 550_000_000 && title < 620_000_000 ==> sum - 200 <= 400 * r.total <= sum
                + 200
        },
        r.artist == artist && r.title == title && r.duration == duration,
        r.duration_delta_ms == delta,
{
    assert(r@.total == r.total && r@.artist == r.artist && r@.title == r.title && r@.duration
        == r.duration);
    if mix is Some {
        let sum = 32 * artist + 30 * title + 24 * duration + 14 * mix->0;
        lemma_nearest(sum, 100);
        lemma_nearest(sum, 200);
        lemma_nearest(sum, 400);
    }
}

/// What the versions of a file and a track say against each other is noted first,
/// in words that name the remixers or the kinds that differ.
pub proof fn law_versions_that_differ_are_noted(local: LocalView, track: TrackView)
    ensures
        ({
            let here = local.parsed.remixer_norm;
            let there = parsed_title(track.name).remixer_norm;
            let a = local.parsed.kind;
            let b = parsed_title(track.name).kind;
            let notes = scored(local, track).notes;
            let unnamed = here is None && there is None;
            &&& two_remixers(local, track) ==> notes[0] == "different remixer: '"@ + here->0
                + "' vs '"@ + there->0 + "'"@
            &&& here is Some && there is None && someone_elses(b) ==> notes[0]
                == "candidate is a derivative but does not name '"@ + here->0 + "'"@
            &&& here is Some && there is None && !someone_elses(b) ==> notes[0] == "local is a '"@
                + here->0 + "' version, candidate is not a remix"@
            &&& here is None && there is Some ==> notes[0] == "candidate is a '"@ + there->0
                + "' remix, local is not"@
            &&& unnamed && full_length(a) && b is Radio ==> notes[0]
                == "local is long-form, candidate is a radio edit"@
            &&& unnamed && a is Radio && full_length(b) ==> notes[0]
                == "local is a radio edit, candidate is long-form"@
            &&& unnamed && full_length(a) && says_nothing(b) ==> notes[0]
                == "candidate is unlabelled — duration decides"@
            &&& unnamed && says_nothing(a) && full_length(b) ==> notes[0]
                == "candidate is labelled extended, local is not"@
            &&& unnamed && someone_elses(a) != someone_elses(b) ==> notes[0]
                == "one side is a derivative version"@
        }),
{
    law_signals_are_shares(local, track);
    reveal(scored);
}

} // verus!
