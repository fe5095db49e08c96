//! Candidate scoring.
//!
//! Four signals, weighted: artist, base title, duration, and mix agreement.
//! Duration is what separates an extended mix from a radio edit when the
//! strings are identical, and mix agreement is what stops a remix from being
//! confidently matched to the original.

use vstd::prelude::*;

use crate::normalize::{
    lemma_similarity_share, lemma_token_similarity_share, normalize, normalized, similarity,
    text_similarity, token_set_similarity, token_similarity, MixKind,
};
use crate::order::{
    in_order, is_weak_order, lemma_in_order, lemma_in_order_stable, lemma_placed_at,
};
use crate::spotify::{artist_line, track_views, SpotifyTrack, TrackView};
use crate::tags::{credited, LocalTrack, LocalView};
use crate::text::{decimal, lemma_views_push, opt_view, push_decimal, same_str, string_from, views};
use crate::title::{parse_title, parsed_title, ParsedTitle, TitleView};
use crate::unit::{nearest, round_div, ONE};

verus! {

broadcast use crate::text::lemma_views_push;

/// How a match was arrived at.
#[derive(Debug, Clone, Copy, PartialEq, Eq, Structural)]
pub enum MatchMethod {
    Isrc,
    Exact,
    Fuzzy,
    /// By no method: nothing was matched.
    Unmatched,
}

impl MatchMethod {
    pub open spec fn label(self) -> Seq<char> {
        match self {
            MatchMethod::Isrc => "isrc"@,
            MatchMethod::Exact => "exact"@,
            MatchMethod::Fuzzy => "fuzzy"@,
            MatchMethod::Unmatched => "none"@,
        }
    }

    pub fn as_str(self) -> (r: &'static str)
        ensures
            r@ == self.label(),
    {
        match self {
            MatchMethod::Isrc => "isrc",
            MatchMethod::Exact => "exact",
            MatchMethod::Fuzzy => "fuzzy",
            MatchMethod::Unmatched => "none",
        }
    }
}

/// What should happen to this track without further input.
#[derive(Debug, Clone, Copy, PartialEq, Eq, Structural)]
pub enum Verdict {
    /// Push it. High confidence, no human needed.
    Auto,
    /// Ambiguous — park it in the "needs attention" bucket. Never block the batch on it.
    Review,
    /// Nothing plausible on the platform. This is the future AcoustID queue.
    NoMatch,
}

impl Verdict {
    pub open spec fn label(self) -> Seq<char> {
        match self {
            Verdict::Auto => "auto"@,
            Verdict::Review => "review"@,
            Verdict::NoMatch => "no_match"@,
        }
    }

    pub fn as_str(self) -> (r: &'static str)
        ensures
            r@ == self.label(),
    {
        match self {
            Verdict::Auto => "auto",
            Verdict::Review => "review",
            Verdict::NoMatch => "no_match",
        }
    }
}

/// What to do when the platform has the right song, but only a shorter cut.
#[derive(Debug, Clone, Copy, PartialEq, Eq, Structural)]
pub enum ShorterVersionPolicy {
    /// Ask.
    Review,
    /// Push the shorter version.
    Accept,
    /// Treat it as no match.
    Reject,
}

/// The signals that compare one candidate with one local file, as shares of
/// one in parts per billion.
#[derive(Debug)]
pub struct Score {
    pub total: u64,
    pub artist: u64,
    pub title: u64,
    pub duration: u64,
    pub mix: u64,
    pub duration_delta_ms: i64,
    pub notes: Vec<String>,
}

/// What a score says.
#[verifier::ext_equal]
pub struct ScoreView {
    pub total: u64,
    pub artist: u64,
    pub title: u64,
    pub duration: u64,
    pub mix: u64,
    pub duration_delta_ms: i64,
    pub notes: Seq<Seq<char>>,
}

impl View for Score {
    type V = ScoreView;

    open spec fn view(&self) -> ScoreView {
        ScoreView {
            total: self.total,
            artist: self.artist,
            title: self.title,
            duration: self.duration,
            mix: self.mix,
            duration_delta_ms: self.duration_delta_ms,
            notes: views(self.notes@),
        }
    }
}

#[derive(Debug)]
pub struct Candidate {
    pub track: SpotifyTrack,
    pub score: Score,
}

/// What a candidate says.
#[verifier::ext_equal]
pub struct CandidateView {
    pub track: TrackView,
    pub score: ScoreView,
}

impl View for Candidate {
    type V = CandidateView;

    open spec fn view(&self) -> CandidateView {
        CandidateView { track: self.track@, score: self.score@ }
    }
}

/// What each of the candidates says.
pub open spec fn candidate_views(v: Seq<Candidate>) -> Seq<CandidateView> {
    v.map_values(|c: Candidate| c@)
}

#[derive(Debug)]
pub struct MatchOutcome {
    pub verdict: Verdict,
    pub method: MatchMethod,
    /// Best first, at most three.
    pub candidates: Vec<Candidate>,
    pub reason: String,
}

/// What an outcome says.
#[verifier::ext_equal]
pub struct OutcomeView {
    pub verdict: Verdict,
    pub method: MatchMethod,
    pub candidates: Seq<CandidateView>,
    pub reason: Seq<char>,
}

impl View for MatchOutcome {
    type V = OutcomeView;

    open spec fn view(&self) -> OutcomeView {
        OutcomeView {
            verdict: self.verdict,
            method: self.method,
            candidates: candidate_views(self.candidates@),
            reason: self.reason@,
        }
    }
}

impl MatchOutcome {
    pub fn best(&self) -> (r: Option<&Candidate>)
        ensures
            r == if self.candidates@.len() == 0 {
                None
            } else {
                Some(&self.candidates@[0])
            },
    {
        if self.candidates.len() == 0 {
            None
        } else {
            Some(&self.candidates[0])
        }
    }

    pub fn confidence(&self) -> (r: u64)
        ensures
            r == if self.candidates@.len() == 0 {
                0
            } else {
                self.candidates@[0].score.total
            },
    {
        match self.best() {
            Some(c) => c.score.total,
            None => 0,
        }
    }
}

/// Thresholds, kept in one place so they can be tuned against a real library
/// rather than guessed at. Shares are in parts per billion.
#[derive(Debug, Clone, Copy)]
pub struct Thresholds {
    pub auto_total: u64,
    pub auto_artist: u64,
    pub auto_title: u64,
    pub auto_duration: u64,
    pub review_total: u64,
    /// If the runner-up is this close, the top match is not safe to auto-push
    /// — unless the runner-up turns out to be [`same_recording`] as the top
    /// pick, in which case there is nothing to review: either one is correct.
    pub ambiguity_margin: u64,
    /// An ISRC hit whose duration differs by more than this is treated as a
    /// mistagged ISRC and sent to review instead of pushed.
    pub isrc_duration_sanity_ms: i64,
    /// What to do with a shorter cut of the right song.
    pub shorter_version: ShorterVersionPolicy,
}

/// The thresholds in use unless others are asked for.
pub open spec fn usual_thresholds() -> Thresholds {
    Thresholds {
        auto_total: 880_000_000,
        auto_artist: 800_000_000,
        auto_title: 850_000_000,
        auto_duration: 850_000_000,
        review_total: 620_000_000,
        ambiguity_margin: 50_000_000,
        isrc_duration_sanity_ms: 30_000,
        shorter_version: ShorterVersionPolicy::Review,
    }
}

impl Default for Thresholds {
    fn default() -> (r: Self)
        ensures
            r == usual_thresholds(),
    {
        Thresholds {
            auto_total: 880_000_000,
            auto_artist: 800_000_000,
            auto_title: 850_000_000,
            auto_duration: 850_000_000,
            review_total: 620_000_000,
            ambiguity_margin: 50_000_000,
            isrc_duration_sanity_ms: 30_000,
            shorter_version: ShorterVersionPolicy::Review,
        }
    }
}

/// How far two numbers are apart.
pub open spec fn gap(a: int, b: int) -> int {
    if a >= b {
        a - b
    } else {
        b - a
    }
}

fn gap_of(a: u64, b: u64) -> (r: u64)
    ensures
        r == gap(a as int, b as int),
{
    if a >= b {
        a - b
    } else {
        b - a
    }
}

/// What the lengths of two recordings say about their being the same one.
/// An unknown length is not evidence either way.
pub open spec fn length_agreement(local_ms: u64, remote_ms: u64) -> u64 {
    let apart = gap(local_ms as int, remote_ms as int);
    if local_ms == 0 || remote_ms == 0 {
        600_000_000
    } else if apart <= 2_000 {
        1_000_000_000
    } else if apart <= 5_000 {
        880_000_000
    } else if apart <= 10_000 {
        650_000_000
    } else if apart <= 30_000 {
        350_000_000
    } else {
        50_000_000
    }
}

/// How much longer the local recording is, as far as a signed number reaches.
pub open spec fn length_delta(local_ms: u64, remote_ms: u64) -> i64 {
    let d = local_ms - remote_ms;
    if d > i64::MAX {
        i64::MAX
    } else if d < -i64::MAX {
        (-i64::MAX) as i64
    } else {
        d as i64
    }
}

/// The duration signal, and how much longer the local recording is.
pub fn duration_score(local_ms: u64, remote_ms: u64) -> (r: (u64, i64))
    ensures
        r.0 == length_agreement(local_ms, remote_ms),
        r.1 == length_delta(local_ms, remote_ms),
{
    let apart: u64 = gap_of(local_ms, remote_ms);
    let bounded: i64 = if apart > 0x7fff_ffff_ffff_ffff {
        0x7fff_ffff_ffff_ffff
    } else {
        apart as i64
    };
    let delta: i64 = if local_ms >= remote_ms {
        bounded
    } else {
        -bounded
    };
    let score: u64 = if local_ms == 0 || remote_ms == 0 {
        // Unknown duration is not evidence either way.
        600_000_000
    } else if apart <= 2_000 {
        1_000_000_000
    } else if apart <= 5_000 {
        880_000_000
    } else if apart <= 10_000 {
        650_000_000
    } else if apart <= 30_000 {
        350_000_000
    } else {
        50_000_000
    };
    (score, delta)
}

/// Remixer names less alike than this are two remixers.
pub const SAME_REMIXER: u64 = 800_000_000;

/// Whether a title names no version, or the original one.
pub open spec fn unmarked(kind: MixKind) -> bool {
    kind == MixKind::Original || kind == MixKind::Unlabelled
}

/// What the kinds of two versions without a named remixer say, and the note
/// that goes with it.
pub open spec fn kind_agreement(local: MixKind, remote: MixKind) -> (u64, Option<Seq<char>>) {
    if local == remote {
        (ONE, None)
    } else if local.long_form() && remote.short_form() {
        (100_000_000, Some("local is long-form, candidate is a radio edit"@))
    } else if local.short_form() && remote.long_form() {
        (100_000_000, Some("local is a radio edit, candidate is long-form"@))
    } else if local.long_form() && unmarked(remote) {
        (500_000_000, Some("candidate is unlabelled — duration decides"@))
    } else if unmarked(local) && remote.long_form() {
        (500_000_000, Some("candidate is labelled extended, local is not"@))
    } else if unmarked(local) && unmarked(remote) {
        (950_000_000, None)
    } else if local.derivative() != remote.derivative() {
        (200_000_000, Some("one side is a derivative version"@))
    } else {
        (600_000_000, None)
    }
}

/// What the version information of two titles says, and the note that goes
/// with it. No share at all is a hard reject. `alike` is the similarity of the
/// two remixers, where both are named.
pub open spec fn mix_agreement(local: TitleView, remote: TitleView, alike: int) -> (
    Option<u64>,
    Option<Seq<char>>,
) {
    match (local.remixer_norm, remote.remixer_norm) {
        (Some(a), Some(b)) => if alike < SAME_REMIXER {
            (None, Some("different remixer: '"@ + a + "' vs '"@ + b + "'"@))
        } else {
            (Some(ONE), None)
        },
        (Some(a), None) => if remote.kind.derivative() {
            (
                Some(350_000_000),
                Some("candidate is a derivative but does not name '"@ + a + "'"@),
            )
        } else {
            (
                Some(100_000_000),
                Some("local is a '"@ + a + "' version, candidate is not a remix"@),
            )
        },
        (None, Some(b)) => (
            Some(100_000_000),
            Some("candidate is a '"@ + b + "' remix, local is not"@),
        ),
        (None, None) => {
            let (share, note) = kind_agreement(local.kind, remote.kind);
            (Some(share), note)
        },
    }
}

/// The similarity of the remixers of two titles, where both name one.
pub open spec fn remixers_alike(local: TitleView, remote: TitleView) -> int {
    match (local.remixer_norm, remote.remixer_norm) {
        (Some(a), Some(b)) => similarity(a, b),
        _ => 0,
    }
}

fn quoted(before: &str, name: &String, after: &str) -> (r: String)
    ensures
        r@ == before@ + name@ + after@,
{
    let mut r = string_from(before);
    r.append(name.as_str());
    r.append(after);
    r
}

fn compare_kinds(local: MixKind, remote: MixKind) -> (r: (u64, Option<String>))
    ensures
        (r.0, opt_view(r.1)) == kind_agreement(local, remote),
{
    if local == remote {
        return (ONE, None);
    }
    let local_plain = matches!(local, MixKind::Original | MixKind::Unlabelled);
    let remote_plain = matches!(remote, MixKind::Original | MixKind::Unlabelled);
    if local.is_long_form() && remote.is_short_form() {
        (100_000_000, Some(string_from("local is long-form, candidate is a radio edit")))
    } else if local.is_short_form() && remote.is_long_form() {
        (100_000_000, Some(string_from("local is a radio edit, candidate is long-form")))
    } else if local.is_long_form() && remote_plain {
        (500_000_000, Some(string_from("candidate is unlabelled — duration decides")))
    } else if local_plain && remote.is_long_form() {
        (500_000_000, Some(string_from("candidate is labelled extended, local is not")))
    } else if local_plain && remote_plain {
        (950_000_000, None)
    } else if local.is_derivative() != remote.is_derivative() {
        (200_000_000, Some(string_from("one side is a derivative version")))
    } else {
        (600_000_000, None)
    }
}

/// The rest of [`mix_score`], given the similarity of the two remixers.
pub fn compare_mixes(local: &ParsedTitle, remote: &ParsedTitle, alike: u64) -> (r: (
    Option<u64>,
    Option<String>,
))
    ensures
        (r.0, opt_view(r.1)) == mix_agreement(local@, remote@, alike as int),
{
    match (&local.remixer_norm, &remote.remixer_norm) {
        (Some(a), Some(b)) => {
            if alike < SAME_REMIXER {
                let mut note = quoted("different remixer: '", a, "' vs '");
                note.append(b.as_str());
                note.append("'");
                (None, Some(note))
            } else {
                (Some(ONE), None)
            }
        },
        (Some(a), None) => {
            if remote.kind.is_derivative() {
                (
                    Some(350_000_000),
                    Some(quoted("candidate is a derivative but does not name '", a, "'")),
                )
            } else {
                (
                    Some(100_000_000),
                    Some(quoted("local is a '", a, "' version, candidate is not a remix")),
                )
            }
        },
        (None, Some(b)) => (
            Some(100_000_000),
            Some(quoted("candidate is a '", b, "' remix, local is not")),
        ),
        (None, None) => {
            let (share, note) = compare_kinds(local.kind, remote.kind);
            (Some(share), note)
        },
    }
}

/// `notes` with one more, where there is one.
pub open spec fn noted(notes: Seq<Seq<char>>, note: Option<Seq<char>>) -> Seq<Seq<char>> {
    match note {
        Some(n) => notes.push(n),
        None => notes,
    }
}

/// Compare version information. Returns `None` for a hard reject — a different
/// remixer means a different recording, and no amount of string similarity
/// should override that.
pub fn mix_score(local: &ParsedTitle, remote: &ParsedTitle, notes: &mut Vec<String>) -> (r: Option<
    u64,
>)
    ensures
        r == mix_agreement(local@, remote@, remixers_alike(local@, remote@)).0,
        views(final(notes)@) == noted(
            views(old(notes)@),
            mix_agreement(local@, remote@, remixers_alike(local@, remote@)).1,
        ),
{
    let alike: u64 = match (&local.remixer_norm, &remote.remixer_norm) {
        (Some(a), Some(b)) => text_similarity(a.as_str(), b.as_str()),
        _ => 0,
    };
    let (share, note) = compare_mixes(local, remote, alike);
    if let Some(n) = note {
        notes.push(n);
    }
    share
}

/// The weighted total of the four signals: 32 parts artist, 30 title, 24
/// duration, 14 mix of a hundred, halved for a wrong artist and halved for a
/// wrong title. A hard reject counts nothing.
pub open spec fn weighed(artist: u64, title: u64, duration: u64, mix: Option<u64>) -> int {
    let halves: int = (if artist < 550_000_000 {
        2int
    } else {
        1int
    }) * (if title < 620_000_000 {
        2int
    } else {
        1int
    });
    match mix {
        None => 0,
        Some(m) => {
            let sum = nearest(32 * artist + 30 * title + 24 * duration + 14 * m, 100 * halves);
            if sum > ONE {
                ONE as int
            } else {
                sum
            }
        },
    }
}

/// Halving makes no total larger, and a right artist and title are not halved.
pub proof fn lemma_weighed(artist: u64, title: u64, duration: u64, m: u64)
    ensures
        ({
            let parts = 32 * artist + 30 * title + 24 * duration + 14 * m;
            let total = weighed(artist, title, duration, Some(m));
            &&& 0 <= total <= ONE
            &&& 100 * total <= parts + 50
            &&& artist >= 550_000_000 && title >= 620_000_000 && parts <= 100 * ONE ==> 100 * total
                >= parts - 50
        }),
{
    let parts = 32 * artist + 30 * title + 24 * duration + 14 * m;
    assert(nearest(parts, 100) == (2 * parts + 100) / 200);
    assert(nearest(parts, 200) == (2 * parts + 200) / 400);
    assert(nearest(parts, 400) == (2 * parts + 400) / 800);
}

/// What there is to say about a score.
pub open spec fn score_notes(
    mix_note: Option<Seq<char>>,
    artist: u64,
    title: u64,
    delta: i64,
) -> Seq<Seq<char>> {
    let wrong_artist: Option<Seq<char>> = if artist < 550_000_000 {
        Some("artist mismatch"@)
    } else {
        None
    };
    let wrong_title: Option<Seq<char>> = if title < 620_000_000 {
        Some("title mismatch"@)
    } else {
        None
    };
    let apart = gap(delta as int, 0);
    let wrong_length: Option<Seq<char>> = if apart > 60_000 {
        Some("duration differs by "@ + decimal((apart / 1000) as nat) + "s"@)
    } else {
        None
    };
    noted(noted(noted(noted(Seq::empty(), mix_note), wrong_artist), wrong_title), wrong_length)
}

/// The score that the four signals make.
pub open spec fn scored_from(
    artist: u64,
    title: u64,
    duration: u64,
    delta: i64,
    mix: Option<u64>,
    mix_note: Option<Seq<char>>,
) -> ScoreView {
    ScoreView {
        total: weighed(artist, title, duration, mix) as u64,
        artist,
        title,
        duration,
        mix: match mix {
            Some(m) => m,
            None => 0,
        },
        duration_delta_ms: delta,
        notes: score_notes(mix_note, artist, title, delta),
    }
}

fn magnitude(delta: i64) -> (r: u64)
    ensures
        r == gap(delta as int, 0),
{
    if delta >= 0 {
        delta as u64
    } else if delta == i64::MIN {
        0x8000_0000_0000_0000
    } else {
        (-delta) as u64
    }
}

/// The rest of [`score_candidate`], given what each signal measured.
pub fn weigh(
    artist: u64,
    title: u64,
    duration: u64,
    delta: i64,
    mix: Option<u64>,
    mix_note: Option<String>,
) -> (r: Score)
    ensures
        r@ == scored_from(artist, title, duration, delta, mix, opt_view(mix_note)),
{
    let mut notes: Vec<String> = Vec::new();
    assert(views(notes@) =~= Seq::<Seq<char>>::empty());
    if let Some(n) = mix_note {
        notes.push(n);
    }
    // Gates: a strong title cannot rescue the wrong artist, and vice versa.
    let mut divisor: u128 = 100;
    if artist < 550_000_000 {
        divisor = divisor * 2;
        notes.push(string_from("artist mismatch"));
    }
    if title < 620_000_000 {
        divisor = divisor * 2;
        notes.push(string_from("title mismatch"));
    }
    let total: u64 = match mix {
        None => 0,
        Some(m) => {
            let sum: u128 = 32 * artist as u128 + 30 * title as u128 + 24 * duration as u128 + 14
                * m as u128;
            let share: u128 = round_div(sum, divisor);
            if share > ONE as u128 {
                ONE
            } else {
                share as u64
            }
        },
    };
    let apart: u64 = magnitude(delta);
    if apart > 60_000 {
        let mut note = string_from("duration differs by ");
        push_decimal(&mut note, apart / 1000);
        note.append("s");
        notes.push(note);
    }
    Score {
        total,
        artist,
        title,
        duration,
        mix: match mix {
            Some(m) => m,
            None => 0,
        },
        duration_delta_ms: delta,
        notes,
    }
}

/// The score of a candidate against a local file.
#[verifier::opaque]
pub open spec fn scored(local: LocalView, track: TrackView) -> ScoreView {
    let remote = parsed_title(track.name);
    let (mix, note) = mix_agreement(local.parsed, remote, remixers_alike(local.parsed, remote));
    scored_from(
        token_similarity(credited(local), artist_line(track.artists)) as u64,
        similarity(local.parsed.base, remote.base) as u64,
        length_agreement(local.duration_ms, track.duration_ms),
        length_delta(local.duration_ms, track.duration_ms),
        mix,
        note,
    )
}

/// Score one candidate against one local file.
pub fn score_candidate(local: &LocalTrack, candidate: &SpotifyTrack) -> (r: Score)
    ensures
        r@ == scored(local@, candidate@),
{
    reveal(scored);
    let remote_parsed = parse_title(candidate.name.as_str());
    let artist: u64 = token_set_similarity(
        local.artist_field_for_matching().as_str(),
        candidate.artist_field().as_str(),
    );
    let title: u64 = text_similarity(local.parsed.base.as_str(), remote_parsed.base.as_str());
    let (duration, delta) = duration_score(local.duration_ms, candidate.duration_ms);
    let mut notes: Vec<String> = Vec::new();
    assert(views(notes@) =~= Seq::<Seq<char>>::empty());
    let mix: Option<u64> = mix_score(&local.parsed, &remote_parsed, &mut notes);
    let ghost note = mix_agreement(
        local.parsed@,
        remote_parsed@,
        remixers_alike(local.parsed@, remote_parsed@),
    ).1;
    let mix_note = notes.pop();
    proof {
        match note {
            Some(n) => {
                assert(views(notes@.push(mix_note->0)) == noted(Seq::empty(), note));
            },
            None => {},
        }
    }
    weigh(artist, title, duration, delta, mix, mix_note)
}

/// The lengths of two listings of one recording differ by this at most.
pub const SAME_LENGTH_MS: u64 = 3_000;

/// Whether two listings are of one recording: nearly one length, one name.
pub open spec fn same_listing(a: TrackView, b: TrackView) -> bool {
    gap(a.duration_ms as int, b.duration_ms as int) <= SAME_LENGTH_MS && normalized(a.name)
        == normalized(b.name)
}

/// True when two candidates are almost certainly the same underlying
/// recording — the same single indexed under two albums, a compilation
/// re-release, that kind of catalogue duplication — rather than two
/// different versions genuinely competing for the slot. Same near-enough
/// duration plus the same name is enough: a real version difference (radio
/// vs extended, a different remix) always shows up as one or the other.
pub fn same_recording(a: &Candidate, b: &Candidate) -> (r: bool)
    ensures
        r == same_listing(a.track@, b.track@),
{
    let apart: u64 = gap_of(a.track.duration_ms, b.track.duration_ms);
    if apart > SAME_LENGTH_MS {
        return false;
    }
    let na = normalize(a.track.name.as_str());
    let nb = normalize(b.track.name.as_str());
    same_str(na.as_str(), nb.as_str())
}

/// Artists less alike than this are two artists.
pub const SAME_ARTIST: u64 = 800_000_000;

/// Whether a kind says no more of a version than its length, or nothing.
pub open spec fn is_length_label(kind: MixKind) -> bool {
    unmarked(kind) || kind.long_form() || kind.short_form()
}

/// Whether two kinds, at one length, are of one version. A listing without a
/// label, or labelled original, is of the cut that its length makes it: Spotify
/// often lists the extended cut with no descriptor at all.
pub open spec fn same_kind(a: MixKind, b: MixKind) -> bool {
    a == b || (unmarked(a) && is_length_label(b)) || (is_length_label(a) && unmarked(b))
}

/// Whether two titles, at one length, name one version. A remixer settles it;
/// where none is named, the kind does.
pub open spec fn same_version(a: TitleView, b: TitleView) -> bool {
    a.remixer_norm == b.remixer_norm && (a.remixer_norm is Some || same_kind(a.kind, b.kind))
}

/// Whether two listings, by what they say of themselves, are of one recording:
/// nearly one length, one song, one version of it, and one artist.
pub open spec fn same_by_meta(
    artist_a: Seq<char>,
    name_a: Seq<char>,
    ms_a: u64,
    artist_b: Seq<char>,
    name_b: Seq<char>,
    ms_b: u64,
) -> bool {
    let a = parsed_title(name_a);
    let b = parsed_title(name_b);
    &&& gap(ms_a as int, ms_b as int) <= SAME_LENGTH_MS
    &&& a.base_norm == b.base_norm
    &&& same_version(a, b)
    &&& token_similarity(artist_a, artist_b) >= SAME_ARTIST
}

fn same_option(a: &Option<String>, b: &Option<String>) -> (r: bool)
    ensures
        r == (opt_view(*a) == opt_view(*b)),
{
    match (a, b) {
        (Some(x), Some(y)) => same_str(x.as_str(), y.as_str()),
        (None, None) => true,
        _ => false,
    }
}

fn one_kind(a: MixKind, b: MixKind) -> (r: bool)
    ensures
        r == same_kind(a, b),
{
    let a_plain = matches!(a, MixKind::Original | MixKind::Unlabelled);
    let b_plain = matches!(b, MixKind::Original | MixKind::Unlabelled);
    a == b || (a_plain && (b_plain || b.is_long_form() || b.is_short_form())) || (b_plain && (
    a.is_long_form() || a.is_short_form()))
}

/// True when two listings are the same underlying recording by artist, title,
/// version and length, whatever identifiers they are indexed under.
pub fn same_recording_meta(
    artist_a: &str,
    name_a: &str,
    ms_a: u64,
    artist_b: &str,
    name_b: &str,
    ms_b: u64,
) -> (r: bool)
    ensures
        r == same_by_meta(artist_a@, name_a@, ms_a, artist_b@, name_b@, ms_b),
{
    let apart: u64 = gap_of(ms_a, ms_b);
    if apart > SAME_LENGTH_MS {
        return false;
    }
    let a = parse_title(name_a);
    let b = parse_title(name_b);
    let one_version = same_option(&a.remixer_norm, &b.remixer_norm) && (a.remixer_norm.is_some()
        || one_kind(a.kind, b.kind));
    same_str(a.base_norm.as_str(), b.base_norm.as_str()) && one_version && token_set_similarity(
        artist_a,
        artist_b,
    ) >= SAME_ARTIST
}

/// A cut at least this much shorter is a shorter version.
pub const SHORTER_BY_MS: u64 = 20_000;

/// Whether the candidate is a shorter cut than the local recording.
pub open spec fn is_shorter_cut(local_ms: u64, remote_ms: u64) -> bool {
    local_ms != 0 && remote_ms != 0 && local_ms - remote_ms >= SHORTER_BY_MS
}

fn shorter_cut(local_ms: u64, remote_ms: u64) -> (r: bool)
    ensures
        r == is_shorter_cut(local_ms, remote_ms),
{
    local_ms != 0 && remote_ms != 0 && local_ms > remote_ms && local_ms - remote_ms >= SHORTER_BY_MS
}

/// Exact when artist and title both read as good as the same.
pub open spec fn text_method(best: ScoreView) -> MatchMethod {
    if best.artist >= 950_000_000 && best.title >= 980_000_000 {
        MatchMethod::Exact
    } else {
        MatchMethod::Fuzzy
    }
}

/// Whether a score is good enough to push without asking.
pub open spec fn clears_auto(best: ScoreView, t: Thresholds) -> bool {
    &&& best.total >= t.auto_total
    &&& best.artist >= t.auto_artist
    &&& best.title >= t.auto_title
    &&& best.duration >= t.auto_duration
}

/// Whether the candidate is surely the right song, in a shorter cut.
pub open spec fn right_song_shorter(best: ScoreView, shorter: bool, t: Thresholds) -> bool {
    &&& shorter
    &&& best.mix > 0
    &&& best.artist >= t.auto_artist
    &&& best.title >= t.auto_title
}

/// Whether another recording came too close. `runner_up` is the total of the
/// second candidate and whether it is the same recording as the first.
pub open spec fn too_close(best: ScoreView, runner_up: Option<(u64, bool)>, t: Thresholds) -> bool {
    match runner_up {
        Some((total, same)) => best.total - total < t.ambiguity_margin && !same,
        None => false,
    }
}

/// The first note, or a reason of its own when there is none.
pub open spec fn first_note(notes: Seq<Seq<char>>, otherwise: Seq<char>) -> Seq<char> {
    if notes.len() > 0 {
        notes[0]
    } else {
        otherwise
    }
}

/// The verdict on the best of the scored candidates, and the reason for it.
pub open spec fn decision(
    best: ScoreView,
    runner_up: Option<(u64, bool)>,
    shorter: bool,
    t: Thresholds,
) -> (Verdict, Seq<char>) {
    let accepts = t.shorter_version == ShorterVersionPolicy::Accept;
    if clears_auto(best, t) && too_close(best, runner_up, t) {
        (Verdict::Review, "two candidates within the ambiguity margin"@)
    } else if clears_auto(best, t) {
        (Verdict::Auto, text_method(best).label() + " match"@)
    } else if right_song_shorter(best, shorter, t) && accepts && too_close(best, runner_up, t) {
        (Verdict::Review, "two candidates within the ambiguity margin"@)
    } else if right_song_shorter(best, shorter, t) && accepts {
        (Verdict::Auto, "shorter version accepted"@)
    } else if right_song_shorter(best, shorter, t) && t.shorter_version
        == ShorterVersionPolicy::Reject {
        (Verdict::NoMatch, "only a shorter version is available"@)
    } else if best.total >= t.review_total || right_song_shorter(best, shorter, t) {
        (Verdict::Review, first_note(best.notes, "below auto threshold"@))
    } else {
        (Verdict::NoMatch, first_note(best.notes, "no plausible candidate"@))
    }
}

fn note_or(notes: &Vec<String>, otherwise: &str) -> (r: String)
    ensures
        r@ == first_note(views(notes@), otherwise@),
{
    if notes.len() > 0 {
        assert(views(notes@)[0] == notes@[0]@);
        notes[0].clone()
    } else {
        string_from(otherwise)
    }
}

fn method_for(best: &Score) -> (r: MatchMethod)
    ensures
        r == text_method(best@),
{
    if best.artist >= 950_000_000 && best.title >= 980_000_000 {
        MatchMethod::Exact
    } else {
        MatchMethod::Fuzzy
    }
}

/// The verdict on the best of the scored candidates, and the reason for it,
/// given the total of the runner-up and whether it is the same recording.
pub fn decide(
    best: &Score,
    runner_up: Option<(u64, bool)>,
    shorter: bool,
    thresholds: Thresholds,
) -> (r: (Verdict, String))
    ensures
        (r.0, r.1@) == decision(best@, runner_up, shorter, thresholds),
{
    let ambiguous: bool = match runner_up {
        Some((total, same)) => {
            !same && (best.total as u128) < total as u128 + thresholds.ambiguity_margin as u128
        },
        None => false,
    };
    let clears: bool = best.total >= thresholds.auto_total && best.artist >= thresholds.auto_artist
        && best.title >= thresholds.auto_title && best.duration >= thresholds.auto_duration;
    let right_song: bool = shorter && best.mix > 0 && best.artist >= thresholds.auto_artist
        && best.title >= thresholds.auto_title;
    let accepts: bool = thresholds.shorter_version == ShorterVersionPolicy::Accept;
    if (clears || (right_song && accepts)) && ambiguous {
        (Verdict::Review, string_from("two candidates within the ambiguity margin"))
    } else if clears {
        let mut reason = string_from(method_for(best).as_str());
        reason.append(" match");
        (Verdict::Auto, reason)
    } else if right_song && accepts {
        (Verdict::Auto, string_from("shorter version accepted"))
    } else if right_song && thresholds.shorter_version == ShorterVersionPolicy::Reject {
        (Verdict::NoMatch, string_from("only a shorter version is available"))
    } else if best.total >= thresholds.review_total || right_song {
        (Verdict::Review, note_or(&best.notes, "below auto threshold"))
    } else {
        (Verdict::NoMatch, note_or(&best.notes, "no plausible candidate"))
    }
}

/// A track as a candidate for a local file.
pub open spec fn as_candidate(local: LocalView, track: TrackView) -> CandidateView {
    CandidateView { track, score: scored(local, track) }
}

/// Whether one candidate scored higher than another.
pub open spec fn scored_higher(a: CandidateView, b: CandidateView) -> bool {
    a.score.total > b.score.total
}

/// The candidates, best first, equals as they stood.
pub open spec fn ranked(c: Seq<CandidateView>) -> Seq<CandidateView> {
    in_order(c, |a: CandidateView, b: CandidateView| scored_higher(a, b))
}

/// The first three, or all when there are fewer.
pub open spec fn top_three(c: Seq<CandidateView>) -> Seq<CandidateView> {
    if c.len() > 3 {
        c.take(3)
    } else {
        c
    }
}

/// The tracks as candidates, the best three of them, best first.
#[verifier::opaque]
pub open spec fn shortlist(local: LocalView, hits: Seq<TrackView>) -> Seq<CandidateView> {
    top_three(ranked(hits.map_values(|t: TrackView| as_candidate(local, t))))
}

fn rank(candidates: Vec<Candidate>) -> (r: Vec<Candidate>)
    ensures
        candidate_views(r@) == ranked(candidate_views(candidates@)),
{
    let ghost ahead = |a: CandidateView, b: CandidateView| scored_higher(a, b);
    let ghost all = candidate_views(candidates@);
    let mut sorted: Vec<Candidate> = Vec::new();
    assert(candidate_views(sorted@) =~= in_order(all.take(0), ahead));
    for c in it: candidates.into_iter()
        invariant
            ahead == |a: CandidateView, b: CandidateView| scored_higher(a, b),
            it.seq().len() == all.len(),
            all == candidate_views(it.seq()),
            candidate_views(sorted@) == in_order(all.take(it.index() as int), ahead),
    {
        let ghost i = it.index();
        let ghost before = sorted@;
        proof {
            assert(all.take(i + 1).drop_last() =~= all.take(i as int));
            assert(all.take(i + 1).last() == c@);
        }
        let total: u64 = c.score.total;
        let mut p: usize = sorted.len();
        while p > 0 && total > sorted[p - 1].score.total
            invariant
                ahead == |a: CandidateView, b: CandidateView| scored_higher(a, b),
                sorted@ == before,
                total == c@.score.total,
                p <= sorted.len(),
                forall|q: int| p <= q < sorted.len() ==> ahead(c@, #[trigger] sorted@[q]@),
            decreases p,
        {
            p = p - 1;
        }
        proof {
            assert forall|q: int| p <= q < candidate_views(before).len() implies ahead(
                c@,
                #[trigger] candidate_views(before)[q],
            ) by {
                assert(candidate_views(before)[q] == before[q]@);
            }
            lemma_placed_at(candidate_views(before), c@, ahead, p as int);
        }
        sorted.insert(p, c);
        assert(candidate_views(sorted@) =~= candidate_views(before).insert(p as int, c@));
    }
    assert(all.take(all.len() as int) =~= all);
    sorted
}

fn best_three(local: &LocalTrack, hits: &[SpotifyTrack]) -> (r: Vec<Candidate>)
    ensures
        candidate_views(r@) == shortlist(local@, track_views(hits@)),
{
    let ghost all = track_views(hits@).map_values(|t: TrackView| as_candidate(local@, t));
    let mut scored_hits: Vec<Candidate> = Vec::new();
    let mut i: usize = 0;
    while i < hits.len()
        invariant
            i <= hits.len(),
            all == track_views(hits@).map_values(|t: TrackView| as_candidate(local@, t)),
            candidate_views(scored_hits@) == all.take(i as int),
        decreases hits.len() - i,
    {
        let score = score_candidate(local, &hits[i]);
        let track = hits[i].clone();
        let ghost before = scored_hits@;
        scored_hits.push(Candidate { track, score });
        i = i + 1;
        assert(candidate_views(scored_hits@) =~= candidate_views(before).push(
            as_candidate(local@, hits@[i - 1]@),
        ));
        assert(all.take(i as int) =~= all.take(i - 1).push(as_candidate(local@, hits@[i - 1]@)));
    }
    assert(all.take(all.len() as int) =~= all);
    reveal(shortlist);
    let mut best = rank(scored_hits);
    let ghost sorted = best@;
    best.truncate(3);
    assert(candidate_views(best@) =~= top_three(candidate_views(sorted)));
    best
}

/// The position of the first track that carries the code.
pub open spec fn carrying(hits: Seq<TrackView>, code: Seq<char>) -> Option<int>
    decreases hits.len(),
{
    if hits.len() == 0 {
        None
    } else {
        match carrying(hits.drop_last(), code) {
            Some(i) => Some(i),
            None => if hits.last().isrc == Some(code) {
                Some(hits.len() - 1)
            } else {
                None
            },
        }
    }
}

/// The hit that a search by code found: the first that carries the code, or
/// failing that the first.
pub open spec fn code_hit(hits: Seq<TrackView>, code: Seq<char>) -> TrackView {
    match carrying(hits, code) {
        Some(i) => hits[i],
        None => hits[0],
    }
}

fn code_hit_index(hits: &[SpotifyTrack], code: &String) -> (r: usize)
    requires
        hits@.len() > 0,
    ensures
        r < hits@.len(),
        hits@[r as int]@ == code_hit(track_views(hits@), code@),
{
    let ghost all = track_views(hits@);
    let mut i: usize = 0;
    assert(carrying(all.take(0), code@) is None);
    while i < hits.len()
        invariant
            i <= hits.len(),
            all == track_views(hits@),
            carrying(all.take(i as int), code@) is None,
        decreases hits.len() - i,
    {
        proof {
            assert(all.take(i + 1).drop_last() =~= all.take(i as int));
        }
        let found: bool = match &hits[i].isrc {
            Some(c) => same_str(c.as_str(), code.as_str()),
            None => false,
        };
        if found {
            proof {
                lemma_carrying_prefix(all, code@, i + 1);
            }
            return i;
        }
        i = i + 1;
    }
    assert(all.take(all.len() as int) =~= all);
    0
}

proof fn lemma_carrying_prefix(hits: Seq<TrackView>, code: Seq<char>, n: int)
    requires
        0 <= n <= hits.len(),
        carrying(hits.take(n), code) is Some,
    ensures
        carrying(hits, code) == carrying(hits.take(n), code),
    decreases hits.len(),
{
    if n < hits.len() {
        assert(hits.drop_last().take(n) =~= hits.take(n));
        lemma_carrying_prefix(hits.drop_last(), code, n);
    } else {
        assert(hits.take(n) =~= hits);
    }
}

/// The outcome when a search by code found a track. Its length is the guard
/// against labels reusing or mistagging a code.
#[verifier::opaque]
pub open spec fn by_code(score: ScoreView, track: TrackView, t: Thresholds) -> OutcomeView {
    let apart = gap(score.duration_delta_ms as int, 0);
    if apart > t.isrc_duration_sanity_ms {
        OutcomeView {
            verdict: Verdict::Review,
            method: MatchMethod::Isrc,
            candidates: seq![
                CandidateView {
                    track,
                    score: ScoreView {
                        total: 750_000_000,
                        notes: score.notes.push(
                            "ISRC matched but duration differs by "@ + decimal(
                                (apart / 1000) as nat,
                            ) + "s — verify"@,
                        ),
                        ..score
                    },
                },
            ],
            reason: "isrc hit with implausible duration"@,
        }
    } else {
        OutcomeView {
            verdict: Verdict::Auto,
            method: MatchMethod::Isrc,
            candidates: seq![CandidateView { track, score: ScoreView { total: ONE, ..score } }],
            reason: "exact isrc"@,
        }
    }
}

/// The outcome for a track found by its code, given its score.
pub fn code_outcome(score: Score, track: SpotifyTrack, thresholds: Thresholds) -> (r: MatchOutcome)
    ensures
        r@ == by_code(score@, track@, thresholds),
{
    reveal(by_code);
    let apart: u64 = magnitude(score.duration_delta_ms);
    let mut score = score;
    let mut candidates: Vec<Candidate> = Vec::new();
    let ghost given = score@;
    if thresholds.isrc_duration_sanity_ms < 0 || apart > thresholds.isrc_duration_sanity_ms as u64 {
        score.total = 750_000_000;
        let mut note = string_from("ISRC matched but duration differs by ");
        push_decimal(&mut note, apart / 1000);
        note.append("s — verify");
        score.notes.push(note);
        candidates.push(Candidate { track, score });
        let r = MatchOutcome {
            verdict: Verdict::Review,
            method: MatchMethod::Isrc,
            candidates,
            reason: string_from("isrc hit with implausible duration"),
        };
        assert(r@.candidates =~= by_code(given, track@, thresholds).candidates);
        r
    } else {
        score.total = ONE;
        candidates.push(Candidate { track, score });
        let r = MatchOutcome {
            verdict: Verdict::Auto,
            method: MatchMethod::Isrc,
            candidates,
            reason: string_from("exact isrc"),
        };
        assert(r@.candidates =~= by_code(given, track@, thresholds).candidates);
        r
    }
}

/// The outcome for the candidates a text search gave, best first.
/// `twins` says whether the second is the same recording as the first.
#[verifier::opaque]
pub open spec fn by_text(
    local_ms: u64,
    candidates: Seq<CandidateView>,
    twins: bool,
    t: Thresholds,
) -> OutcomeView {
    if candidates.len() == 0 {
        OutcomeView {
            verdict: Verdict::NoMatch,
            method: MatchMethod::Unmatched,
            candidates,
            reason: "no candidates returned"@,
        }
    } else {
        let best = candidates[0];
        let runner_up = if candidates.len() > 1 {
            Some((candidates[1].score.total, twins))
        } else {
            None
        };
        let (verdict, reason) = decision(
            best.score,
            runner_up,
            is_shorter_cut(local_ms, best.track.duration_ms),
            t,
        );
        OutcomeView {
            verdict,
            method: if verdict == Verdict::NoMatch {
                MatchMethod::Unmatched
            } else {
                text_method(best.score)
            },
            candidates,
            reason,
        }
    }
}

/// The outcome for ranked candidates, given whether the first two are the same
/// recording.
pub fn text_outcome(
    local_ms: u64,
    candidates: Vec<Candidate>,
    twins: bool,
    thresholds: Thresholds,
) -> (r: MatchOutcome)
    ensures
        r@ == by_text(local_ms, candidate_views(candidates@), twins, thresholds),
{
    reveal(by_text);
    if candidates.len() == 0 {
        return MatchOutcome {
            verdict: Verdict::NoMatch,
            method: MatchMethod::Unmatched,
            candidates,
            reason: string_from("no candidates returned"),
        };
    }
    let runner_up: Option<(u64, bool)> = if candidates.len() > 1 {
        Some((candidates[1].score.total, twins))
    } else {
        None
    };
    let shorter = shorter_cut(local_ms, candidates[0].track.duration_ms);
    let (verdict, reason) = decide(&candidates[0].score, runner_up, shorter, thresholds);
    let method = if verdict == Verdict::NoMatch {
        MatchMethod::Unmatched
    } else {
        method_for(&candidates[0].score)
    };
    MatchOutcome { verdict, method, candidates, reason }
}

/// Whether the first two candidates are listings of one recording.
pub open spec fn are_twins(candidates: Seq<CandidateView>) -> bool {
    candidates.len() > 1 && same_listing(candidates[0].track, candidates[1].track)
}

/// The outcome for a local file, given what the platform returned.
pub open spec fn outcome(
    local: LocalView,
    isrc_hits: Seq<TrackView>,
    text_hits: Seq<TrackView>,
    t: Thresholds,
) -> OutcomeView {
    if local.isrc is Some && isrc_hits.len() > 0 {
        let track = code_hit(isrc_hits, local.isrc->0);
        by_code(scored(local, track), track, t)
    } else {
        let candidates = shortlist(local, text_hits);
        by_text(local.duration_ms, candidates, are_twins(candidates), t)
    }
}

/// Decide what to do with a track given the candidates the API returned.
///
/// `isrc_hits` come from an `isrc:` search and are trusted; `text_hits` are
/// scored.
pub fn evaluate(
    local: &LocalTrack,
    isrc_hits: &[SpotifyTrack],
    text_hits: &[SpotifyTrack],
    thresholds: Thresholds,
) -> (r: MatchOutcome)
    ensures
        r@ == outcome(local@, track_views(isrc_hits@), track_views(text_hits@), thresholds),
{
    if let Some(code) = &local.isrc {
        if isrc_hits.len() > 0 {
            let i: usize = code_hit_index(isrc_hits, code);
            let score = score_candidate(local, &isrc_hits[i]);
            return code_outcome(score, isrc_hits[i].clone(), thresholds);
        }
    }
    let candidates = best_three(local, text_hits);
    let twins: bool = candidates.len() > 1 && same_recording(&candidates[0], &candidates[1]);
    text_outcome(local.duration_ms, candidates, twins, thresholds)
}

/// Whether a local file and a track are versions by two different remixers.
pub open spec fn remixers_differ(local: LocalView, track: TrackView) -> bool {
    let remote = parsed_title(track.name);
    local.parsed.remixer_norm is Some && remote.remixer_norm is Some && similarity(
        local.parsed.remixer_norm->0,
        remote.remixer_norm->0,
    ) < SAME_REMIXER
}

/// Whether the outcome rests on the text search: there is no code, or no hit
/// for it.
pub open spec fn searched_by_text(local: LocalView, isrc_hits: Seq<TrackView>) -> bool {
    local.isrc is None || isrc_hits.len() == 0
}

/// A different remixer is a hard reject: the candidate scores nothing, however
/// alike artist, title and length are.
pub proof fn law_different_remixer_scores_nothing(local: LocalView, track: TrackView)
    requires
        remixers_differ(local, track),
    ensures
        scored(local, track).total == 0,
        scored(local, track).mix == 0,
{
    reveal(scored);
}

/// The ranked candidates are the scored hits, highest first.
pub proof fn lemma_ranked(c: Seq<CandidateView>)
    ensures
        ranked(c).len() == c.len(),
        ranked(c).to_multiset() == c.to_multiset(),
        forall|i: int, j: int|
            0 <= i < j < c.len() ==> (#[trigger] ranked(c)[i]).score.total >= (
            #[trigger] ranked(c)[j]).score.total,
{
    let ahead = |a: CandidateView, b: CandidateView| scored_higher(a, b);
    assert(is_weak_order(ahead));
    lemma_in_order(c, ahead);
    assert forall|i: int, j: int| 0 <= i < j < c.len() implies (
    #[trigger] ranked(c)[i]).score.total >= (#[trigger] ranked(c)[j]).score.total by {
        assert(!ahead(in_order(c, ahead)[j], in_order(c, ahead)[i]));
    }
}

/// At most three candidates are kept, best first, each of them a scored hit. No
/// hit scored higher than the first, and none that is left out scored higher
/// than one that is kept.
pub proof fn law_shortlist_is_the_best(local: LocalView, hits: Seq<TrackView>)
    ensures
        shortlist(local, hits).len() == if hits.len() > 3 {
            3
        } else {
            hits.len()
        },
        forall|i: int, j: int|
            0 <= i < j < shortlist(local, hits).len() ==> (
            #[trigger] shortlist(local, hits)[i]).score.total >= (
            #[trigger] shortlist(local, hits)[j]).score.total,
        forall|i: int|
            0 <= i < shortlist(local, hits).len() ==> {
                let c = #[trigger] shortlist(local, hits)[i];
                hits.contains(c.track) && c.score == scored(local, c.track)
            },
        forall|k: int|
            0 <= k < hits.len() ==> shortlist(local, hits)[0].score.total >= scored(
                local,
                #[trigger] hits[k],
            ).total,
        forall|k: int, i: int|
            0 <= k < hits.len() && 0 <= i < shortlist(local, hits).len() && !shortlist(
                local,
                hits,
            ).contains(as_candidate(local, #[trigger] hits[k])) ==> (
            #[trigger] shortlist(local, hits)[i]).score.total >= scored(local, hits[k]).total,
{
    broadcast use vstd::seq_lib::group_to_multiset_ensures;

    reveal(shortlist);
    let all = hits.map_values(|t: TrackView| as_candidate(local, t));
    let r = ranked(all);
    lemma_ranked(all);
    let s = shortlist(local, hits);
    assert forall|i: int| 0 <= i < s.len() implies {
        let c = #[trigger] s[i];
        hits.contains(c.track) && c.score == scored(local, c.track)
    } by {
        assert(s[i] == r[i]);
        assert(r.contains(r[i]));
        assert(all.to_multiset().contains(r[i]));
        assert(all.contains(r[i]));
        let k = choose|k: int| 0 <= k < all.len() && all[k] == r[i];
        assert(all[k] == as_candidate(local, hits[k]));
    }
    assert forall|k: int| 0 <= k < hits.len() implies s[0].score.total >= scored(
        local,
        #[trigger] hits[k],
    ).total by {
        let c = as_candidate(local, hits[k]);
        assert(all[k] == c);
        assert(all.contains(c));
        assert(r.to_multiset().contains(c));
        assert(r.contains(c));
        let j = choose|j: int| 0 <= j < r.len() && r[j] == c;
        assert(s[0] == r[0]);
    }
    assert forall|k: int, i: int|
        0 <= k < hits.len() && 0 <= i < s.len() && !s.contains(
            as_candidate(local, #[trigger] hits[k]),
        ) implies (#[trigger] s[i]).score.total >= scored(local, hits[k]).total by {
        let c = as_candidate(local, hits[k]);
        assert(all[k] == c);
        assert(all.contains(c));
        assert(r.to_multiset().contains(c));
        assert(r.contains(c));
        let j = choose|j: int| 0 <= j < r.len() && r[j] == c;
        if j < s.len() {
            assert(s[j] == c);
        }
        assert(s[i] == r[i]);
    }
}

/// Whether a candidate has a total.
pub open spec fn totals(c: CandidateView, total: u64) -> bool {
    c.score.total == total
}

/// Candidates with one total stand as the platform returned them: those of the
/// shortlist are the first of them.
pub proof fn law_ties_keep_their_order(local: LocalView, hits: Seq<TrackView>, total: u64)
    ensures
        shortlist(local, hits).filter(|c: CandidateView| totals(c, total)).is_prefix_of(
            hits.map_values(|t: TrackView| as_candidate(local, t)).filter(
                |c: CandidateView| totals(c, total),
            ),
        ),
{
    reveal(shortlist);
    let p = |c: CandidateView| totals(c, total);
    let ahead = |a: CandidateView, b: CandidateView| scored_higher(a, b);
    let all = hits.map_values(|t: TrackView| as_candidate(local, t));
    let r = ranked(all);
    lemma_in_order_stable(all, ahead, p);
    let s = top_three(r);
    Seq::filter_distributes_over_add(s, r.skip(s.len() as int), p);
    assert(s + r.skip(s.len() as int) =~= r);
}

/// A track found by text is pushed only when artist and title are both beyond
/// doubt, and either the total and the length are too or a shorter cut was
/// asked for. No policy rescues a doubtful identity.
pub proof fn law_auto_needs_a_sure_identity(
    local: LocalView,
    isrc_hits: Seq<TrackView>,
    text_hits: Seq<TrackView>,
    t: Thresholds,
)
    requires
        searched_by_text(local, isrc_hits),
        outcome(local, isrc_hits, text_hits, t).verdict == Verdict::Auto,
    ensures
        ({
            let o = outcome(local, isrc_hits, text_hits, t);
            let best = o.candidates[0];
            &&& o.candidates.len() > 0
            &&& best.score.artist >= t.auto_artist
            &&& best.score.title >= t.auto_title
            &&& {
                ||| best.score.total >= t.auto_total && best.score.duration >= t.auto_duration
                ||| t.shorter_version == ShorterVersionPolicy::Accept && is_shorter_cut(
                    local.duration_ms,
                    best.track.duration_ms,
                )
            }
        }),
{
    reveal(by_text);
}

/// A recording by another remixer is neither pushed nor put up for review.
pub proof fn law_different_remixer_is_no_match(
    local: LocalView,
    isrc_hits: Seq<TrackView>,
    text_hits: Seq<TrackView>,
    t: Thresholds,
)
    requires
        searched_by_text(local, isrc_hits),
        t.auto_total > 0,
        t.review_total > 0,
        outcome(local, isrc_hits, text_hits, t).verdict != Verdict::NoMatch,
    ensures
        !remixers_differ(local, outcome(local, isrc_hits, text_hits, t).candidates[0].track),
{
    reveal(by_text);
    law_shortlist_is_the_best(local, text_hits);
    let best = shortlist(local, text_hits)[0];
    if remixers_differ(local, best.track) {
        law_different_remixer_scores_nothing(local, best.track);
    }
}

/// An extended mix is never pushed as its radio edit, nor a radio edit as the
/// extended mix, even when artist, title and length agree in full.
pub proof fn law_long_form_is_not_pushed_as_short_form(
    local: LocalView,
    isrc_hits: Seq<TrackView>,
    text_hits: Seq<TrackView>,
)
    requires
        searched_by_text(local, isrc_hits),
        outcome(local, isrc_hits, text_hits, usual_thresholds()).verdict == Verdict::Auto,
    ensures
        ({
            let best = outcome(local, isrc_hits, text_hits, usual_thresholds()).candidates[0];
            let remote = parsed_title(best.track.name);
            local.parsed.remixer_norm is None && remote.remixer_norm is None ==> !(
            local.parsed.kind.long_form() && remote.kind.short_form()) && !(
            local.parsed.kind.short_form() && remote.kind.long_form())
        }),
{
    reveal(by_text);
    law_shortlist_is_the_best(local, text_hits);
    let best = shortlist(local, text_hits)[0];
    let remote = parsed_title(best.track.name);
    if local.parsed.remixer_norm is None && remote.remixer_norm is None && ((
    local.parsed.kind.long_form() && remote.kind.short_form()) || (local.parsed.kind.short_form()
        && remote.kind.long_form())) {
        reveal(scored);
        lemma_token_similarity_share(credited(local), artist_line(best.track.artists));
        lemma_similarity_share(local.parsed.base, remote.base);
        lemma_weighed(best.score.artist, best.score.title, best.score.duration, 100_000_000);
        assert(best.score.total <= 874_000_000);
    }
}

/// A cut at least 20 seconds shorter is not pushed unless that was asked for.
pub proof fn law_shorter_cut_is_not_pushed_unasked(
    local: LocalView,
    isrc_hits: Seq<TrackView>,
    text_hits: Seq<TrackView>,
)
    requires
        searched_by_text(local, isrc_hits),
        outcome(local, isrc_hits, text_hits, usual_thresholds()).verdict == Verdict::Auto,
    ensures
        ({
            let best = outcome(local, isrc_hits, text_hits, usual_thresholds()).candidates[0];
            !is_shorter_cut(local.duration_ms, best.track.duration_ms) && gap(
                local.duration_ms as int,
                best.track.duration_ms as int,
            ) <= 5_000
        }),
{
    reveal(by_text);
    reveal(scored);
    law_shortlist_is_the_best(local, text_hits);
}

/// Duration is what tells an extended mix from the original when the strings
/// are identical: an unlabelled candidate that reads the same and whose length
/// is within two seconds of the local extended mix is pushed.
pub proof fn law_length_identifies_an_unlabelled_cut(
    local: LocalView,
    isrc_hits: Seq<TrackView>,
    track: TrackView,
)
    requires
        searched_by_text(local, isrc_hits),
        local.parsed.kind.long_form(),
        local.parsed.remixer_norm is None,
        unmarked(parsed_title(track.name).kind),
        parsed_title(track.name).remixer_norm is None,
        token_similarity(credited(local), artist_line(track.artists)) == ONE,
        similarity(local.parsed.base, parsed_title(track.name).base) == ONE,
        local.duration_ms != 0,
        track.duration_ms != 0,
        gap(local.duration_ms as int, track.duration_ms as int) <= 2_000,
    ensures
        outcome(local, isrc_hits, seq![track], usual_thresholds()).verdict == Verdict::Auto,
        outcome(local, isrc_hits, seq![track], usual_thresholds()).candidates[0].track == track,
{
    reveal(by_text);
    reveal(scored);
    law_shortlist_is_the_best(local, seq![track]);
    let best = shortlist(local, seq![track])[0];
    assert(seq![track].contains(best.track));
    assert(best.track == track);
    lemma_weighed(ONE, ONE, ONE, 500_000_000);
    assert(best.score.total == 930_000_000);
}

/// A hit by code is trusted: it is pushed or put up for review, and what the
/// text search returned plays no part.
pub proof fn law_code_hit_decides_alone(
    local: LocalView,
    isrc_hits: Seq<TrackView>,
    text_hits: Seq<TrackView>,
    other_hits: Seq<TrackView>,
    t: Thresholds,
)
    requires
        !searched_by_text(local, isrc_hits),
    ensures
        outcome(local, isrc_hits, text_hits, t) == outcome(local, isrc_hits, other_hits, t),
        outcome(local, isrc_hits, text_hits, t).verdict != Verdict::NoMatch,
        outcome(local, isrc_hits, text_hits, t).method == MatchMethod::Isrc,
{
    reveal(by_code);
}

/// Two listings of one recording do not make each other ambiguous.
pub proof fn law_twins_are_not_ambiguous(
    local_ms: u64,
    candidates: Seq<CandidateView>,
    t: Thresholds,
)
    requires
        candidates.len() > 1,
        clears_auto(candidates[0].score, t),
    ensures
        by_text(local_ms, candidates, true, t).verdict == Verdict::Auto,
{
    reveal(by_text);
}

} // verus!
