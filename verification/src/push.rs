//! Deciding, track by track, what to look up, what to remember and what to
//! push.

use vstd::prelude::*;
use vstd::slice::slice_subrange;

use crate::apple::same_name;
use crate::db::{
    is_reusable, law_matches_round_trip, match_in, match_row_of, StoredMatch, StoredMatchView,
    TrackRecord,
};
use crate::matcher::{
    candidate_views, evaluate, outcome, same_by_meta, same_recording_meta, Candidate, CandidateView,
    MatchMethod, MatchOutcome, OutcomeView, Score, ScoreView, Thresholds, Verdict,
};
use crate::spotify::{
    artist_line, entry_views, track_views, EntryView, Playlist, PlaylistEntry, SpotifyTrack,
    TrackView,
};
use crate::tags::{LocalTrack, LocalView};
use crate::text::{
    chars_of, find, join, last_index_of, lemma_find, lemma_find_from, lower_ascii, lower_chars,
    opt_view, or_empty, reads, rfind, same, same_str, seqs, string_of, string_or_empty, trim,
    trimmed, views,
};
use crate::title::{split_apart, split_off};
use crate::unit::ONE;

verus! {

broadcast use {crate::text::lemma_seqs_push, crate::text::lemma_views_push};

/// Candidates requested per query. Spotify caps this at 10 for a development
/// -mode app, so the candidate pool is widened with extra queries instead.
pub const SEARCH_LIMIT: u32 = 10;

/// Stop once it is clear the API is failing systemically rather than a query
/// here and there. A report built on failed searches understates the match
/// rate instead of reporting an error, which is worse than no report at all.
pub const MIN_ATTEMPTS_BEFORE_ABORT: usize = 5;

/// Whether a run is failing: enough searches were made, and half of them or
/// more failed.
pub fn should_abort(attempts: usize, failed: usize) -> (r: bool)
    ensures
        r == (attempts >= MIN_ATTEMPTS_BEFORE_ABORT && 2 * failed >= attempts),
{
    attempts >= MIN_ATTEMPTS_BEFORE_ABORT && 2 * failed as u128 >= attempts as u128
}

/// What to ask next about a track.
#[derive(Debug, Clone, Copy, PartialEq, Eq, Structural)]
pub enum LookupStep {
    /// The tracks with its recording identifier.
    ByCode,
    /// The tracks that read like it.
    ByText,
    Done,
}

/// One track being looked up. A failed search is not the same thing as a track
/// that isn't on the platform, so the failure is kept apart from the hits.
#[derive(Debug)]
pub struct Lookup {
    pub step: LookupStep,
    pub isrc_hits: Vec<SpotifyTrack>,
    pub text_hits: Vec<SpotifyTrack>,
    /// What the last failed search said, if any failed.
    pub error: Option<String>,
    /// Whether the latest search failed.
    pub latest_failed: bool,
}

/// What a lookup says.
#[verifier::ext_equal]
pub struct LookupView {
    pub step: LookupStep,
    pub isrc_hits: Seq<TrackView>,
    pub text_hits: Seq<TrackView>,
    pub error: Option<Seq<char>>,
    pub latest_failed: bool,
}

impl View for Lookup {
    type V = LookupView;

    open spec fn view(&self) -> LookupView {
        LookupView {
            step: self.step,
            isrc_hits: track_views(self.isrc_hits@),
            text_hits: track_views(self.text_hits@),
            error: opt_view(self.error),
            latest_failed: self.latest_failed,
        }
    }
}

/// What the answer to a search says: its hits, or why it failed.
pub open spec fn answer_view(a: Result<Vec<SpotifyTrack>, String>) -> Result<
    Seq<TrackView>,
    Seq<char>,
> {
    match a {
        Ok(hits) => Ok(track_views(hits@)),
        Err(e) => Err(e@),
    }
}

/// A lookup starts with the recording identifier, where there is one.
pub open spec fn lookup_start(local: LocalView) -> LookupView {
    LookupView {
        step: if local.isrc is Some {
            LookupStep::ByCode
        } else {
            LookupStep::ByText
        },
        isrc_hits: Seq::empty(),
        text_hits: Seq::empty(),
        error: None,
        latest_failed: false,
    }
}

/// A lookup after an answer: the text is searched only when nothing carries
/// the identifier.
pub open spec fn lookup_after(
    l: LookupView,
    answer: Result<Seq<TrackView>, Seq<char>>,
) -> LookupView {
    let hits = match answer {
        Ok(hits) => hits,
        Err(_) => Seq::empty(),
    };
    let error = match answer {
        Ok(_) => l.error,
        Err(e) => Some(e),
    };
    let latest_failed = answer is Err;
    match l.step {
        LookupStep::ByCode => LookupView {
            step: if hits.len() == 0 {
                LookupStep::ByText
            } else {
                LookupStep::Done
            },
            isrc_hits: hits,
            error,
            latest_failed,
            ..l
        },
        LookupStep::ByText => LookupView {
            step: LookupStep::Done,
            text_hits: hits,
            error,
            latest_failed,
            ..l
        },
        LookupStep::Done => l,
    }
}

impl Lookup {
    pub fn new(local: &LocalTrack) -> (r: Lookup)
        ensures
            r@ == lookup_start(local@),
    {
        let isrc_hits: Vec<SpotifyTrack> = Vec::new();
        let text_hits: Vec<SpotifyTrack> = Vec::new();
        assert(track_views(isrc_hits@) =~= Seq::<TrackView>::empty());
        assert(track_views(text_hits@) =~= Seq::<TrackView>::empty());
        let step = if local.isrc.is_some() {
            LookupStep::ByCode
        } else {
            LookupStep::ByText
        };
        Lookup { step, isrc_hits, text_hits, error: None, latest_failed: false }
    }

    /// Takes in the answer to the search that was due.
    pub fn advance(&mut self, answer: Result<Vec<SpotifyTrack>, String>)
        ensures
            final(self)@ == lookup_after(old(self)@, answer_view(answer)),
    {
        if self.step == LookupStep::Done {
            return ;
        }
        self.latest_failed = answer.is_err();
        let hits: Vec<SpotifyTrack> = match answer {
            Ok(hits) => hits,
            Err(e) => {
                self.error = Some(e);
                let none: Vec<SpotifyTrack> = Vec::new();
                assert(track_views(none@) =~= Seq::<TrackView>::empty());
                none
            },
        };
        if self.step == LookupStep::ByCode {
            self.step = if hits.len() == 0 {
                LookupStep::ByText
            } else {
                LookupStep::Done
            };
            self.isrc_hits = hits;
        } else {
            self.text_hits = hits;
            self.step = LookupStep::Done;
        }
    }

    /// The outcome for the track, from the hits so far.
    pub fn conclude(&self, local: &LocalTrack, thresholds: Thresholds) -> (r: MatchOutcome)
        ensures
            r@ == outcome(local@, self@.isrc_hits, self@.text_hits, thresholds),
    {
        evaluate(local, self.isrc_hits.as_slice(), self.text_hits.as_slice(), thresholds)
    }

    /// Whether the outcome is a real answer, to be remembered. A failed search
    /// must not be cached as though the platform had said "not found".
    pub fn is_answer(&self) -> (r: bool)
        ensures
            r == (self@.error is None),
    {
        self.error.is_none()
    }

    /// Whether the outcome rests on a search that was answered, if only the one
    /// by text after the one by identifier failed.
    pub fn is_searched(&self) -> (r: bool)
        ensures
            r == !self@.latest_failed,
    {
        !self.latest_failed
    }
}

/// A search that failed leaves a lookup that is no answer, whatever comes after
/// it: an outage is never remembered as a result.
pub proof fn law_failed_search_is_never_an_answer(
    l: LookupView,
    error: Seq<char>,
    later: Result<Seq<TrackView>, Seq<char>>,
)
    requires
        l.step != LookupStep::Done,
    ensures
        lookup_after(l, Err(error)).error is Some,
        l.error is Some ==> lookup_after(l, later).error is Some,
{
}

/// A lookup takes at most two searches, and ends.
pub proof fn law_lookup_ends(
    local: LocalView,
    first: Result<Seq<TrackView>, Seq<char>>,
    second: Result<Seq<TrackView>, Seq<char>>,
)
    ensures
        lookup_after(lookup_after(lookup_start(local), first), second).step == LookupStep::Done,
{
}

/// What becomes of a matched track.
#[derive(Debug, Clone, Copy, PartialEq, Eq, Structural)]
pub enum Bucket {
    Push,
    Review,
    Missing,
}

/// What becomes of a track with a verdict. Only confident matches are pushed.
/// Everything ambiguous waits for a human — that separation is the whole point
/// of the verdicts.
pub open spec fn bucket_of(verdict: Verdict) -> Bucket {
    match verdict {
        Verdict::Auto => Bucket::Push,
        Verdict::Review => Bucket::Review,
        Verdict::NoMatch => Bucket::Missing,
    }
}

/// What becomes of a track with a stored match: one that cannot be addressed
/// cannot be pushed.
pub open spec fn stored_bucket(m: StoredMatchView) -> Bucket {
    if m.verdict == Verdict::Auto && m.platform_uri is None {
        Bucket::Review
    } else {
        bucket_of(m.verdict)
    }
}

/// What becomes of a track with a verdict.
pub fn bucket(verdict: Verdict) -> (r: Bucket)
    ensures
        r == bucket_of(verdict),
{
    match verdict {
        Verdict::Auto => Bucket::Push,
        Verdict::Review => Bucket::Review,
        Verdict::NoMatch => Bucket::Missing,
    }
}

/// What becomes of a track with a stored match.
pub fn bucket_stored(stored: &StoredMatch) -> (r: Bucket)
    ensures
        r == stored_bucket(stored@),
{
    if stored.verdict == Verdict::Auto && stored.platform_uri.is_none() {
        Bucket::Review
    } else {
        bucket(stored.verdict)
    }
}

/// What follows the last colon; all of it where there is none.
pub open spec fn after_colon(s: Seq<char>) -> Seq<char> {
    match rfind(s, seq![':']) {
        Some(i) => s.skip(i + 1),
        None => s,
    }
}

fn last_segment(s: &str) -> (r: String)
    ensures
        r@ == after_colon(s@),
{
    let chars = chars_of(s);
    let mut colon: Vec<char> = Vec::new();
    colon.push(':');
    assert(colon@ =~= seq![':']);
    let n: usize = chars.len();
    match last_index_of(chars.as_slice(), colon.as_slice()) {
        Some(i) => {
            assert(chars@.subrange(i + 1, n as int) =~= chars@.skip(i + 1));
            string_of(slice_subrange(chars.as_slice(), i + 1, n))
        },
        None => string_of(chars.as_slice()),
    }
}

/// The artists in a line of them; none where there is no line.
pub open spec fn line_artists(line: Option<Seq<char>>) -> Seq<Seq<char>> {
    match line {
        Some(a) => split_apart(a, ", "@),
        None => Seq::empty(),
    }
}

fn artists_in(line: &Option<String>) -> (r: Vec<String>)
    ensures
        views(r@) == line_artists(opt_view(*line)),
{
    let mut r: Vec<String> = Vec::new();
    assert(views(r@) =~= Seq::<Seq<char>>::empty());
    if let Some(a) = line {
        let chars = chars_of(a.as_str());
        let sep = chars_of(", ");
        proof {
            reveal_strlit(", ");
        }
        let parts = split_off(chars.as_slice(), sep.as_slice());
        let mut i: usize = 0;
        while i < parts.len()
            invariant
                i <= parts.len(),
                views(r@) == seqs(parts@).take(i as int),
            decreases parts.len() - i,
        {
            r.push(string_of(parts[i].as_slice()));
            i = i + 1;
            assert(views(r@) =~= seqs(parts@).take(i as int));
        }
        assert(seqs(parts@).take(parts@.len() as int) =~= seqs(parts@));
    }
    r
}

/// The reason of a match that was remembered.
pub open spec fn cached_reason(reason: Seq<char>) -> Seq<char> {
    reason + " (from cache)"@
}

/// The outcome that a stored match stands for when it is to be pushed: its
/// track with real metadata, since the duplicate check needs more than a URI.
pub open spec fn rebuilt(m: StoredMatchView) -> OutcomeView {
    let uri = or_empty(m.platform_uri);
    OutcomeView {
        verdict: Verdict::Auto,
        method: MatchMethod::Unmatched,
        candidates: seq![
            CandidateView {
                track: TrackView {
                    id: after_colon(uri),
                    uri,
                    name: or_empty(m.platform_name),
                    artists: line_artists(m.platform_artists),
                    album: Seq::empty(),
                    duration_ms: match m.platform_duration_ms {
                        Some(ms) => ms,
                        None => 0,
                    },
                    isrc: None,
                    url: None,
                    popularity: None,
                },
                score: ScoreView {
                    total: ONE,
                    artist: ONE,
                    title: ONE,
                    duration: ONE,
                    mix: ONE,
                    duration_delta_ms: 0,
                    notes: Seq::empty(),
                },
            },
        ],
        reason: cached_reason(m.reason),
    }
}

/// Rebuild an outcome from a cached match, so a reused row can flow through
/// the same code path as a freshly-matched one — including the duplicate
/// check, which needs real metadata rather than a bare URI.
pub fn cached_outcome(stored: &StoredMatch) -> (r: MatchOutcome)
    ensures
        r@ == rebuilt(stored@),
{
    let uri = string_or_empty(&stored.platform_uri);
    let notes: Vec<String> = Vec::new();
    assert(views(notes@) =~= Seq::<Seq<char>>::empty());
    let track = SpotifyTrack {
        id: last_segment(uri.as_str()),
        uri,
        name: string_or_empty(&stored.platform_name),
        artists: artists_in(&stored.platform_artists),
        album: String::new(),
        duration_ms: match stored.platform_duration_ms {
            Some(ms) => ms,
            None => 0,
        },
        isrc: None,
        url: None,
        popularity: None,
    };
    let score = Score {
        total: ONE,
        artist: ONE,
        title: ONE,
        duration: ONE,
        mix: ONE,
        duration_delta_ms: 0,
        notes,
    };
    let mut reason = stored.reason.clone();
    reason.append(" (from cache)");
    let mut candidates: Vec<Candidate> = Vec::new();
    candidates.push(Candidate { track, score });
    let r = MatchOutcome {
        verdict: Verdict::Auto,
        method: MatchMethod::Unmatched,
        candidates,
        reason,
    };
    assert(r@.candidates =~= rebuilt(stored@).candidates);
    r
}

/// The outcome that a stored match stands for in a report: its verdict, and no
/// candidates, which are not stored.
pub fn cached_row(stored: &StoredMatch) -> (r: MatchOutcome)
    ensures
        r@ == (OutcomeView {
            verdict: stored@.verdict,
            method: MatchMethod::Unmatched,
            candidates: Seq::empty(),
            reason: cached_reason(stored@.reason),
        }),
{
    let mut reason = stored.reason.clone();
    reason.append(" (from cache)");
    let candidates: Vec<Candidate> = Vec::new();
    assert(candidate_views(candidates@) =~= Seq::<CandidateView>::empty());
    MatchOutcome { verdict: stored.verdict, method: MatchMethod::Unmatched, candidates, reason }
}

/// A matched track that may be pushed. Carries the track's metadata, not just
/// its URI: one recording is listed under several URIs, so the
/// already-in-playlist check has to compare recordings.
#[derive(Debug)]
pub struct PushItem {
    pub track_id: i64,
    pub uri: String,
    pub name: String,
    pub artists: String,
    pub duration_ms: u64,
}

/// What a push item says.
#[verifier::ext_equal]
pub struct ItemView {
    pub track_id: i64,
    pub uri: Seq<char>,
    pub name: Seq<char>,
    pub artists: Seq<char>,
    pub duration_ms: u64,
}

impl View for PushItem {
    type V = ItemView;

    open spec fn view(&self) -> ItemView {
        ItemView {
            track_id: self.track_id,
            uri: self.uri@,
            name: self.name@,
            artists: self.artists@,
            duration_ms: self.duration_ms,
        }
    }
}

/// What each of the items says.
pub open spec fn item_views(v: Seq<PushItem>) -> Seq<ItemView> {
    v.map_values(|i: PushItem| i@)
}

/// The item for the best candidate of an outcome.
pub open spec fn item_for(track_id: i64, o: OutcomeView) -> Option<ItemView> {
    if o.candidates.len() == 0 {
        None
    } else {
        let best = o.candidates[0].track;
        Some(
            ItemView {
                track_id,
                uri: best.uri,
                name: best.name,
                artists: artist_line(best.artists),
                duration_ms: best.duration_ms,
            },
        )
    }
}

/// The item for the best candidate of an outcome.
pub fn push_item(track_id: i64, outcome: &MatchOutcome) -> (r: Option<PushItem>)
    ensures
        (match r {
            Some(item) => Some(item@),
            None => None,
        }) == item_for(track_id, outcome@),
{
    match outcome.best() {
        Some(best) => {
            assert(outcome@.candidates[0] == outcome.candidates@[0]@);
            Some(
                PushItem {
                    track_id,
                    uri: best.track.uri.clone(),
                    name: best.track.name.clone(),
                    artists: best.track.artist_field(),
                    duration_ms: best.track.duration_ms,
                },
            )
        },
        None => None,
    }
}

/// Whether a playlist entry is the recording of an item.
pub open spec fn is_entry_of(entry: EntryView, item: ItemView) -> bool {
    entry.uri == item.uri || same_by_meta(
        artist_line(entry.artists),
        entry.name,
        entry.duration_ms,
        item.artists,
        item.name,
        item.duration_ms,
    )
}

/// Whether a playlist holds the recording of an item.
pub open spec fn in_playlist(already: Seq<EntryView>, item: ItemView) -> bool {
    exists|k: int| 0 <= k < already.len() && is_entry_of(#[trigger] already[k], item)
}

/// Whether one of the chosen items has the URI.
pub open spec fn in_batch(items: Seq<ItemView>, chosen: Seq<int>, uri: Seq<char>) -> bool {
    exists|k: int| 0 <= k < chosen.len() && items[#[trigger] chosen[k]].uri == uri
}

/// Whether an item was logged as pushed before. One that nothing is said of
/// was not.
pub open spec fn was_logged(logged: Seq<bool>, i: int) -> bool {
    i < logged.len() && logged[i]
}

/// The items to add, by position. Three guards: what the playlist currently
/// holds, what was logged as pushed before, and duplicates within the batch.
pub open spec fn chosen(items: Seq<ItemView>, already: Seq<EntryView>, logged: Seq<bool>) -> Seq<int>
    decreases items.len(),
{
    if items.len() == 0 {
        Seq::empty()
    } else {
        let i = items.len() - 1;
        let before = chosen(items.drop_last(), already, logged);
        if in_playlist(already, items.last()) || was_logged(logged, i) || in_batch(
            items,
            before,
            items.last().uri,
        ) {
            before
        } else {
            before.push(i)
        }
    }
}

fn entry_matches(entry: &PlaylistEntry, item: &PushItem) -> (r: bool)
    ensures
        r == is_entry_of(entry@, item@),
{
    same_str(entry.uri.as_str(), item.uri.as_str()) || same_recording_meta(
        entry.artist_field().as_str(),
        entry.name.as_str(),
        entry.duration_ms,
        item.artists.as_str(),
        item.name.as_str(),
        item.duration_ms,
    )
}

fn playlist_holds(already: &Vec<PlaylistEntry>, item: &PushItem) -> (r: bool)
    ensures
        r == in_playlist(entry_views(already@), item@),
{
    let mut i: usize = 0;
    while i < already.len()
        invariant
            i <= already.len(),
            forall|k: int| 0 <= k < i ==> !is_entry_of(#[trigger] entry_views(already@)[k], item@),
        decreases already.len() - i,
    {
        assert(entry_views(already@)[i as int] == already@[i as int]@);
        if entry_matches(&already[i], item) {
            return true;
        }
        i = i + 1;
    }
    false
}

/// Positions as mathematical numbers.
pub open spec fn positions(v: Seq<usize>) -> Seq<int> {
    v.map_values(|i: usize| i as int)
}

fn batch_holds(items: &Vec<PushItem>, picked: &Vec<usize>, uri: &String) -> (r: bool)
    requires
        forall|k: int| 0 <= k < picked@.len() ==> #[trigger] picked@[k] < items@.len(),
    ensures
        r == in_batch(item_views(items@), positions(picked@), uri@),
{
    let mut i: usize = 0;
    while i < picked.len()
        invariant
            i <= picked.len(),
            forall|k: int| 0 <= k < picked@.len() ==> #[trigger] picked@[k] < items@.len(),
            forall|k: int|
                0 <= k < i ==> item_views(items@)[#[trigger] positions(picked@)[k]].uri != uri@,
        decreases picked.len() - i,
    {
        assert(positions(picked@)[i as int] == picked@[i as int]);
        let at: usize = picked[i];
        if same_str(items[at].uri.as_str(), uri.as_str()) {
            return true;
        }
        i = i + 1;
    }
    false
}

proof fn lemma_chosen_below(items: Seq<ItemView>, already: Seq<EntryView>, logged: Seq<bool>)
    ensures
        forall|k: int|
            0 <= k < chosen(items, already, logged).len() ==> 0 <= #[trigger] chosen(
                items,
                already,
                logged,
            )[k] < items.len(),
        chosen(items, already, logged).len() <= items.len(),
    decreases items.len(),
{
    if items.len() > 0 {
        lemma_chosen_below(items.drop_last(), already, logged);
    }
}

proof fn lemma_in_batch_prefix(items: Seq<ItemView>, n: int, picked: Seq<int>, uri: Seq<char>)
    requires
        0 <= n <= items.len(),
        forall|k: int| 0 <= k < picked.len() ==> 0 <= #[trigger] picked[k] < n,
    ensures
        in_batch(items, picked, uri) == in_batch(items.take(n), picked, uri),
{
    if in_batch(items, picked, uri) {
        let k = choose|k: int| 0 <= k < picked.len() && items[#[trigger] picked[k]].uri == uri;
        assert(items.take(n)[picked[k]].uri == uri);
    }
    if in_batch(items.take(n), picked, uri) {
        let k = choose|k: int|
            0 <= k < picked.len() && items.take(n)[#[trigger] picked[k]].uri == uri;
        assert(items[picked[k]].uri == uri);
    }
}

/// The positions of the items to add; the others are to be skipped. `logged`
/// says of each item whether it was pushed to the playlist before.
///
/// Re-running must not stack duplicates; a platform will happily add the same
/// track twice if asked. The playlist is compared by recordings rather than
/// URIs, because the same recording is indexed under several of them.
pub fn plan_push(
    items: &Vec<PushItem>,
    already: &Vec<PlaylistEntry>,
    logged: &Vec<bool>,
) -> (r: Vec<usize>)
    ensures
        positions(r@) == chosen(item_views(items@), entry_views(already@), logged@),
        forall|k: int| 0 <= k < r@.len() ==> #[trigger] r@[k] < items@.len(),
        r@.len() <= items@.len(),
{
    let ghost all = item_views(items@);
    let ghost held = entry_views(already@);
    let mut r: Vec<usize> = Vec::new();
    let mut i: usize = 0;
    assert(positions(r@) =~= chosen(all.take(0), held, logged@));
    while i < items.len()
        invariant
            i <= items.len(),
            all == item_views(items@),
            held == entry_views(already@),
            positions(r@) == chosen(all.take(i as int), held, logged@),
            forall|k: int| 0 <= k < r@.len() ==> #[trigger] r@[k] < i,
        decreases items.len() - i,
    {
        proof {
            assert(all.take(i + 1).drop_last() =~= all.take(i as int));
            assert(all.take(i + 1).last() == items@[i as int]@);
            assert forall|k: int| 0 <= k < positions(r@).len() implies 0 <= #[trigger] positions(
                r@,
            )[k] < i + 1 by {
                assert(positions(r@)[k] == r@[k]);
            }
            lemma_in_batch_prefix(all, i + 1, positions(r@), items@[i as int].uri@);
        }
        let pushed_before: bool = i < logged.len() && logged[i];
        let skip: bool = pushed_before || playlist_holds(already, &items[i]) || batch_holds(
            items,
            &r,
            &items[i].uri,
        );
        if !skip {
            let ghost before = positions(r@);
            r.push(i);
            assert(positions(r@) =~= before.push(i as int));
        }
        i = i + 1;
    }
    proof {
        assert(all.take(all.len() as int) =~= all);
        lemma_chosen_below(all, held, logged@);
        assert(positions(r@).len() == r@.len());
    }
    r
}

/// Nothing is added that the playlist holds in any listing, that was logged as
/// pushed, or that the batch adds already.
pub proof fn law_no_duplicate_is_pushed(
    items: Seq<ItemView>,
    already: Seq<EntryView>,
    logged: Seq<bool>,
)
    ensures
        ({
            let c = chosen(items, already, logged);
            &&& forall|k: int|
                0 <= k < c.len() ==> 0 <= #[trigger] c[k] < items.len() && !in_playlist(
                    already,
                    items[c[k]],
                ) && !was_logged(logged, c[k])
            &&& forall|j: int, k: int|
                0 <= j < k < c.len() ==> items[#[trigger] c[j]].uri != items[#[trigger] c[k]].uri
        }),
    decreases items.len(),
{
    if items.len() > 0 {
        let init = items.drop_last();
        let before = chosen(init, already, logged);
        let c = chosen(items, already, logged);
        law_no_duplicate_is_pushed(init, already, logged);
        assert forall|k: int| 0 <= k < c.len() implies 0 <= #[trigger] c[k] < items.len()
            && !in_playlist(already, items[c[k]]) && !was_logged(logged, c[k]) by {
            if k < before.len() {
                assert(c[k] == before[k]);
                assert(init[before[k]] == items[c[k]]);
            }
        }
        assert forall|j: int, k: int| 0 <= j < k < c.len() implies items[#[trigger] c[j]].uri
            != items[#[trigger] c[k]].uri by {
            assert(c[j] == before[j]);
            assert(init[before[j]] == items[c[j]]);
            if k < before.len() {
                assert(c[k] == before[k]);
                assert(init[before[k]] == items[c[k]]);
            } else {
                assert(!in_batch(items, before, items.last().uri));
                assert(items[before[j]].uri != items.last().uri);
            }
        }
    }
}

/// Nothing is skipped without a reason: an item that is not added is in the
/// playlist, was logged, or is added under the same URI already.
pub proof fn law_skipped_for_a_reason(
    items: Seq<ItemView>,
    already: Seq<EntryView>,
    logged: Seq<bool>,
    i: int,
)
    requires
        0 <= i < items.len(),
        !chosen(items, already, logged).contains(i),
    ensures
        in_playlist(already, items[i]) || was_logged(logged, i) || in_batch(
            items,
            chosen(items, already, logged),
            items[i].uri,
        ),
    decreases items.len(),
{
    let init = items.drop_last();
    let before = chosen(init, already, logged);
    let c = chosen(items, already, logged);
    lemma_chosen_below(init, already, logged);
    if i < init.len() {
        if before.contains(i) {
            let k = choose|k: int| 0 <= k < before.len() && before[k] == i;
            assert(c[k] == i);
        }
        law_skipped_for_a_reason(init, already, logged, i);
        assert(init[i] == items[i]);
        if in_batch(init, before, init[i].uri) {
            let k = choose|k: int|
                0 <= k < before.len() && init[#[trigger] before[k]].uri == init[i].uri;
            assert(c[k] == before[k]);
            assert(items[c[k]].uri == items[i].uri);
        }
    } else {
        if !in_playlist(already, items[i]) && !was_logged(logged, i) && !in_batch(
            items,
            before,
            items[i].uri,
        ) {
            assert(c[before.len() as int] == i);
        }
        if in_batch(items, before, items[i].uri) {
            let k = choose|k: int|
                0 <= k < before.len() && items[#[trigger] before[k]].uri == items[i].uri;
            assert(c[k] == before[k]);
        }
    }
}

/// Pushing again to a playlist that holds everything adds nothing.
pub proof fn law_pushing_again_adds_nothing(
    items: Seq<ItemView>,
    already: Seq<EntryView>,
    logged: Seq<bool>,
)
    requires
        forall|i: int| 0 <= i < items.len() ==> in_playlist(already, #[trigger] items[i]),
    ensures
        chosen(items, already, logged).len() == 0,
    decreases items.len(),
{
    if items.len() > 0 {
        let init = items.drop_last();
        assert forall|i: int| 0 <= i < init.len() implies in_playlist(already, #[trigger] init[i]) by {
            assert(init[i] == items[i]);
        }
        law_pushing_again_adds_nothing(init, already, logged);
        assert(in_playlist(already, items[items.len() - 1]));
    }
}

proof fn lemma_join_first(first: Seq<char>, rest: Seq<Seq<char>>, sep: Seq<char>)
    requires
        rest.len() > 0,
    ensures
        join(seq![first] + rest, sep) == first + sep + join(rest, sep),
    decreases rest.len(),
{
    let all = seq![first] + rest;
    assert(all.last() == rest.last());
    assert(all.drop_last() =~= seq![first] + rest.drop_last());
    if rest.len() == 1 {
        assert(all.drop_last() =~= seq![first]);
        assert(join(all.drop_last(), sep) == first);
    } else {
        lemma_join_first(first, rest.drop_last(), sep);
        assert(first + sep + join(rest.drop_last(), sep) + sep + rest.last() =~= first + sep
            + join(rest, sep));
    }
}

proof fn lemma_split_then_join(s: Seq<char>)
    ensures
        split_apart(s, ", "@).len() > 0,
        join(split_apart(s, ", "@), ", "@) == s,
    decreases s.len(),
{
    reveal_strlit(", ");
    let sep = ", "@;
    let lower = lower_ascii(s);
    lemma_find(lower, sep);
    lemma_find_from(lower, sep, 0);
    match find(lower, sep) {
        None => {},
        Some(i) => {
            let rest = s.skip(i + sep.len());
            lemma_split_then_join(rest);
            lemma_join_first(s.take(i), split_apart(rest, sep), sep);
            assert(lower.subrange(i, i + sep.len())[0] == ',');
            assert(lower.subrange(i, i + sep.len())[1] == ' ');
            assert(s[i] == ',' && s[i + 1] == ' ');
            assert(s.take(i) + sep + rest =~= s);
        },
    }
}

/// A match that was stored and read back is pushed as the same item as the
/// fresh one: the duplicate check sees the same recording.
pub proof fn law_cached_match_pushes_the_same_item(track_id: i64, o: OutcomeView)
    requires
        o.candidates.len() > 0,
    ensures
        item_for(track_id, rebuilt(match_in(match_row_of(o)))) == item_for(track_id, o),
{
    law_matches_round_trip(o);
    lemma_split_then_join(artist_line(o.candidates[0].track.artists));
}

/// Whether what is known of a file saves looking it up: it is still the same
/// recording, its match is stored, and nobody asked for a fresh look.
pub fn reuses_stored(rescan: bool, record: TrackRecord, is_stored: bool) -> (r: bool)
    ensures
        r == (!rescan && is_reusable(record.state) && is_stored),
{
    !rescan && record.can_reuse_match() && is_stored
}

/// One more, as far as the range goes.
pub open spec fn counted(n: usize) -> usize {
    if n < usize::MAX {
        (n + 1) as usize
    } else {
        n
    }
}

pub(crate) fn count_up(n: usize) -> (r: usize)
    ensures
        r == counted(n),
{
    if n < usize::MAX {
        n + 1
    } else {
        n
    }
}

/// What a push has gathered so far.
#[derive(Debug)]
pub struct PushRun {
    pub items: Vec<PushItem>,
    pub review: usize,
    pub missing: usize,
    pub failed: usize,
    pub reused: usize,
}

/// What a push in progress says.
#[verifier::ext_equal]
pub struct PushRunView {
    pub items: Seq<ItemView>,
    pub review: usize,
    pub missing: usize,
    pub failed: usize,
    pub reused: usize,
}

impl View for PushRun {
    type V = PushRunView;

    open spec fn view(&self) -> PushRunView {
        PushRunView {
            items: item_views(self.items@),
            review: self.review,
            missing: self.missing,
            failed: self.failed,
            reused: self.reused,
        }
    }
}

/// A push in progress after a track came out in a bucket, with the item to
/// push for it.
pub open spec fn sorted_into(run: PushRunView, b: Bucket, item: Option<ItemView>) -> PushRunView {
    match b {
        Bucket::Push => match item {
            Some(i) => PushRunView { items: run.items.push(i), ..run },
            None => run,
        },
        Bucket::Review => PushRunView { review: counted(run.review), ..run },
        Bucket::Missing => PushRunView { missing: counted(run.missing), ..run },
    }
}

/// A push in progress after a track whose match is reused.
pub open spec fn after_stored(run: PushRunView, track_id: i64, m: StoredMatchView) -> PushRunView {
    PushRunView {
        reused: counted(run.reused),
        ..sorted_into(run, stored_bucket(m), item_for(track_id, rebuilt(m)))
    }
}

/// A push in progress after a track that was looked up. One whose search
/// failed is skipped.
pub open spec fn after_outcome(
    run: PushRunView,
    track_id: i64,
    o: OutcomeView,
    is_searched: bool,
) -> PushRunView {
    if is_searched {
        sorted_into(run, bucket_of(o.verdict), item_for(track_id, o))
    } else {
        PushRunView { failed: counted(run.failed), ..run }
    }
}

impl PushRun {
    pub fn new() -> (r: PushRun)
        ensures
            r@ == (PushRunView {
                items: Seq::empty(),
                review: 0,
                missing: 0,
                failed: 0,
                reused: 0,
            }),
    {
        let items: Vec<PushItem> = Vec::new();
        assert(item_views(items@) =~= Seq::<ItemView>::empty());
        PushRun { items, review: 0, missing: 0, failed: 0, reused: 0 }
    }

    fn sort_in(&mut self, b: Bucket, item: Option<PushItem>)
        ensures
            final(self)@ == sorted_into(
                old(self)@,
                b,
                match item {
                    Some(i) => Some(i@),
                    None => None,
                },
            ),
    {
        match b {
            Bucket::Push => {
                if let Some(i) = item {
                    let ghost before = self.items@;
                    self.items.push(i);
                    assert(item_views(self.items@) =~= item_views(before).push(i@));
                }
            },
            Bucket::Review => {
                self.review = count_up(self.review);
            },
            Bucket::Missing => {
                self.missing = count_up(self.missing);
            },
        }
    }

    /// Takes in a track whose match is reused from a previous run.
    pub fn take_stored(&mut self, track_id: i64, stored: &StoredMatch)
        ensures
            final(self)@ == after_stored(old(self)@, track_id, stored@),
    {
        let rebuilt_outcome = cached_outcome(stored);
        let item = push_item(track_id, &rebuilt_outcome);
        self.sort_in(bucket_stored(stored), item);
        self.reused = count_up(self.reused);
    }

    /// Takes in a track that was looked up. One whose search failed is skipped:
    /// it is neither pushed nor counted as missing.
    pub fn take_outcome(&mut self, track_id: i64, outcome: &MatchOutcome, is_searched: bool)
        ensures
            final(self)@ == after_outcome(old(self)@, track_id, outcome@, is_searched),
    {
        if is_searched {
            let item = push_item(track_id, outcome);
            self.sort_in(bucket(outcome.verdict), item);
        } else {
            self.failed = count_up(self.failed);
        }
    }
}

/// A failed search leaves nothing to push and nothing counted as missing: an
/// outage is not evidence that a track is absent.
pub proof fn law_failed_search_is_not_missing(run: PushRunView, track_id: i64, o: OutcomeView)
    ensures
        after_outcome(run, track_id, o, false).missing == run.missing,
        after_outcome(run, track_id, o, false).review == run.review,
        after_outcome(run, track_id, o, false).items == run.items,
{
}

/// Only a search that was answered, with the verdict to push, adds to what is pushed.
pub proof fn law_only_confident_matches_are_gathered(
    run: PushRunView,
    track_id: i64,
    o: OutcomeView,
    is_searched: bool,
)
    requires
        after_outcome(run, track_id, o, is_searched).items != run.items,
    ensures
        is_searched,
        o.verdict == Verdict::Auto,
{
}

/// A match that was stored and is reused is gathered as the fresh one was.
pub proof fn law_reuse_gathers_the_same(run: PushRunView, track_id: i64, o: OutcomeView)
    requires
        o.candidates.len() > 0,
    ensures
        after_stored(run, track_id, match_in(match_row_of(o))).items == after_outcome(
            run,
            track_id,
            o,
            true,
        ).items,
{
    law_matches_round_trip(o);
    law_cached_match_pushes_the_same_item(track_id, o);
}

/// The position of the playlist to push to: the first of the name, capitals or
/// not, that the user can write to.
pub fn target_playlist(playlists: &Vec<Playlist>, name: &str, user_id: &str) -> (r: Option<usize>)
    ensures
        match r {
            Some(i) => {
                &&& i < playlists@.len()
                &&& is_target(playlists@[i as int], name@, user_id@)
                &&& forall|j: int|
                    0 <= j < i ==> !is_target(#[trigger] playlists@[j], name@, user_id@)
            },
            None => forall|j: int|
                0 <= j < playlists@.len() ==> !is_target(
                    #[trigger] playlists@[j],
                    name@,
                    user_id@,
                ),
        },
{
    let wanted = chars_of(name);
    let wanted = lower_chars(wanted.as_slice());
    let mut i: usize = 0;
    while i < playlists.len()
        invariant
            i <= playlists.len(),
            wanted@ == lower_ascii(name@),
            forall|j: int| 0 <= j < i ==> !is_target(#[trigger] playlists@[j], name@, user_id@),
        decreases playlists.len() - i,
    {
        let found = chars_of(playlists[i].name.as_str());
        let found = lower_chars(found.as_slice());
        if same(found.as_slice(), wanted.as_slice()) && playlists[i].is_writable_by(user_id) {
            return Some(i);
        }
        i = i + 1;
    }
    None
}

/// Whether a playlist has the name, capitals or not, and the user can write to
/// it.
pub open spec fn is_target(p: Playlist, name: Seq<char>, user_id: Seq<char>) -> bool {
    same_name(p.name@, name) && (p@.owner is None || p@.owner == Some(user_id))
}

/// Whether an answer at the prompt is a yes.
pub fn is_yes(answer: &str) -> (r: bool)
    ensures
        r == (lower_ascii(trimmed(answer@)) == "y"@ || lower_ascii(trimmed(answer@)) == "yes"@),
{
    let chars = chars_of(answer);
    let lower = lower_chars(trim(chars.as_slice()));
    reads(lower.as_slice(), "y") || reads(lower.as_slice(), "yes")
}

} // verus!
