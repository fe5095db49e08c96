//! Local state.
//!
//! Two jobs: don't re-match a file that has already been resolved, and don't
//! push the same track to the same playlist twice.
//!
//! Identity is deliberately not the file path. Rekordbox and Serato rewrite
//! tags on import and DJs move files between folders; keying on path alone
//! would re-process the whole library after either. `LocalTrack::identity_key`
//! survives both.

use vstd::prelude::*;

use crate::matcher::{MatchOutcome, OutcomeView, Verdict};
use crate::spotify::artist_line;
use crate::tags::{identity, LocalTrack, LocalView};
use crate::text::{clone_opt, opt_view, same_str, string_from};
use crate::title::ParsedTitle;

verus! {

pub const PLATFORM_SPOTIFY: &'static str = "spotify";

/// Matches are keyed per platform, so the same local file can hold a Spotify
/// match and an Apple Music one without either overwriting the other.
pub const PLATFORM_APPLE_MUSIC: &'static str = "apple_music";

/// What the database knew about a file before this run.
#[derive(Debug, Clone, Copy, PartialEq, Eq, Structural)]
pub enum TrackState {
    /// Never seen before.
    New,
    /// Same path, same identity — safe to reuse a stored match.
    Unchanged,
    /// Same path, but the tags changed enough to alter its identity. Re-match.
    Retagged,
    /// Seen before at a different path. Reuse the match; just update the path.
    Moved,
}

#[derive(Debug, Clone, Copy, PartialEq, Eq, Structural)]
pub struct TrackRecord {
    pub id: i64,
    pub state: TrackState,
}

/// Whether what was known of a file still holds.
pub open spec fn is_reusable(state: TrackState) -> bool {
    state is Unchanged || state is Moved
}

impl TrackRecord {
    /// Whether a stored match may be reused without hitting the API again.
    pub fn can_reuse_match(&self) -> (r: bool)
        ensures
            r == is_reusable(self.state),
    {
        matches!(self.state, TrackState::Unchanged | TrackState::Moved)
    }
}

/// A track nothing could be found for — the future AcoustID queue.
#[derive(Debug)]
pub struct MissedTrack {
    pub file_path: String,
    pub artist: String,
    pub title: String,
    pub reason: String,
    pub missed_at: i64,
}

/// What to do with the row of a file that was seen.
#[derive(Debug, Clone, Copy, PartialEq, Eq, Structural)]
pub enum UpsertPlan {
    /// Write its tags to the row at its path.
    Update(TrackRecord),
    /// Write its path to the row with its identity.
    Relocate(TrackRecord),
    /// Add a row.
    Insert,
}

/// What to do with the row of a file, given the row at its path and the row
/// with its identity.
pub open spec fn upsert_plan(
    at_path: Option<(i64, Seq<char>)>,
    with_identity: Option<i64>,
    key: Seq<char>,
) -> UpsertPlan {
    match at_path {
        Some((id, stored)) => UpsertPlan::Update(
            TrackRecord {
                id,
                state: if stored == key {
                    TrackState::Unchanged
                } else {
                    TrackState::Retagged
                },
            },
        ),
        None => match with_identity {
            Some(id) => UpsertPlan::Relocate(TrackRecord { id, state: TrackState::Moved }),
            None => UpsertPlan::Insert,
        },
    }
}

/// Record that a file was seen, and report what was already known about it:
/// `at_path` is the row at its path, `with_identity` one of its identity.
pub fn plan_upsert(
    at_path: &Option<(i64, String)>,
    with_identity: Option<i64>,
    key: &str,
) -> (r: UpsertPlan)
    ensures
        r == upsert_plan(
            match *at_path {
                Some((id, stored)) => Some((id, stored@)),
                None => None,
            },
            with_identity,
            key@,
        ),
{
    match at_path {
        Some((id, stored)) => {
            // Seen at this exact path before.
            let state = if same_str(stored.as_str(), key) {
                TrackState::Unchanged
            } else {
                TrackState::Retagged
            };
            UpsertPlan::Update(TrackRecord { id: *id, state })
        },
        None => match with_identity {
            // Same recording at a new path — the file moved, so keep its history.
            Some(id) => UpsertPlan::Relocate(TrackRecord { id, state: TrackState::Moved }),
            None => UpsertPlan::Insert,
        },
    }
}

/// The columns of a track's row.
#[derive(Debug)]
pub struct TrackRow {
    pub file_path: String,
    pub identity_key: String,
    pub artist: String,
    pub title: String,
    pub base_title: String,
    pub version: String,
    pub isrc: Option<String>,
    pub duration_ms: i64,
    pub file_size: i64,
}

/// What a track's row says.
#[verifier::ext_equal]
pub struct TrackRowView {
    pub file_path: Seq<char>,
    pub identity_key: Seq<char>,
    pub artist: Seq<char>,
    pub title: Seq<char>,
    pub base_title: Seq<char>,
    pub version: Seq<char>,
    pub isrc: Option<Seq<char>>,
    pub duration_ms: i64,
    pub file_size: i64,
}

impl View for TrackRow {
    type V = TrackRowView;

    open spec fn view(&self) -> TrackRowView {
        TrackRowView {
            file_path: self.file_path@,
            identity_key: self.identity_key@,
            artist: self.artist@,
            title: self.title@,
            base_title: self.base_title@,
            version: self.version@,
            isrc: opt_view(self.isrc),
            duration_ms: self.duration_ms,
            file_size: self.file_size,
        }
    }
}

/// The row of a track.
pub open spec fn row_of(t: LocalView) -> TrackRowView {
    TrackRowView {
        file_path: t.path,
        identity_key: identity(t),
        artist: t.artist,
        title: t.title,
        base_title: t.parsed.base,
        version: ParsedTitle::label(t.parsed),
        isrc: t.isrc,
        duration_ms: t.duration_ms as i64,
        file_size: t.file_size as i64,
    }
}

/// The row of a track.
pub fn track_row(track: &LocalTrack) -> (r: TrackRow)
    ensures
        r@ == row_of(track@),
{
    TrackRow {
        file_path: track.path.clone(),
        identity_key: track.identity_key(),
        artist: track.artist.clone(),
        title: track.title.clone(),
        base_title: track.parsed.base.clone(),
        version: track.parsed.descriptor_label(),
        isrc: clone_opt(&track.isrc),
        duration_ms: track.duration_ms as i64,
        file_size: track.file_size as i64,
    }
}

/// The columns of a match's row. The confidence is a share in parts per
/// billion.
#[derive(Debug)]
pub struct MatchRow {
    pub platform_track_id: Option<String>,
    pub platform_uri: Option<String>,
    pub confidence: u64,
    pub method: String,
    pub verdict: String,
    pub reason: Option<String>,
    pub platform_name: Option<String>,
    pub platform_artists: Option<String>,
    pub platform_duration_ms: Option<i64>,
}

/// What a match's row says.
#[verifier::ext_equal]
pub struct MatchRowView {
    pub platform_track_id: Option<Seq<char>>,
    pub platform_uri: Option<Seq<char>>,
    pub confidence: u64,
    pub method: Seq<char>,
    pub verdict: Seq<char>,
    pub reason: Option<Seq<char>>,
    pub platform_name: Option<Seq<char>>,
    pub platform_artists: Option<Seq<char>>,
    pub platform_duration_ms: Option<i64>,
}

impl View for MatchRow {
    type V = MatchRowView;

    open spec fn view(&self) -> MatchRowView {
        MatchRowView {
            platform_track_id: opt_view(self.platform_track_id),
            platform_uri: opt_view(self.platform_uri),
            confidence: self.confidence,
            method: self.method@,
            verdict: self.verdict@,
            reason: opt_view(self.reason),
            platform_name: opt_view(self.platform_name),
            platform_artists: opt_view(self.platform_artists),
            platform_duration_ms: self.platform_duration_ms,
        }
    }
}

/// The row of an outcome: its best candidate, with enough metadata to compare
/// recordings later, not just an opaque URI.
pub open spec fn match_row_of(o: OutcomeView) -> MatchRowView {
    let method = o.method.label();
    let verdict = o.verdict.label();
    let reason = Some(o.reason);
    if o.candidates.len() > 0 {
        let best = o.candidates[0];
        MatchRowView {
            platform_track_id: Some(best.track.id),
            platform_uri: Some(best.track.uri),
            confidence: best.score.total,
            method,
            verdict,
            reason,
            platform_name: Some(best.track.name),
            platform_artists: Some(artist_line(best.track.artists)),
            platform_duration_ms: Some(best.track.duration_ms as i64),
        }
    } else {
        MatchRowView {
            platform_track_id: None,
            platform_uri: None,
            confidence: 0,
            method,
            verdict,
            reason,
            platform_name: None,
            platform_artists: None,
            platform_duration_ms: None,
        }
    }
}

/// The row of an outcome.
pub fn match_row(outcome: &MatchOutcome) -> (r: MatchRow)
    ensures
        r@ == match_row_of(outcome@),
{
    let method = string_from(outcome.method.as_str());
    let verdict = string_from(outcome.verdict.as_str());
    let reason = Some(outcome.reason.clone());
    match outcome.best() {
        Some(best) => {
            assert(outcome@.candidates[0] == outcome.candidates@[0]@);
            MatchRow {
                platform_track_id: Some(best.track.id.clone()),
                platform_uri: Some(best.track.uri.clone()),
                confidence: best.score.total,
                method,
                verdict,
                reason,
                platform_name: Some(best.track.name.clone()),
                platform_artists: Some(best.track.artist_field()),
                platform_duration_ms: Some(best.track.duration_ms as i64),
            }
        },
        None => MatchRow {
            platform_track_id: None,
            platform_uri: None,
            confidence: 0,
            method,
            verdict,
            reason,
            platform_name: None,
            platform_artists: None,
            platform_duration_ms: None,
        },
    }
}

#[derive(Debug)]
pub struct StoredMatch {
    pub platform_uri: Option<String>,
    pub platform_name: Option<String>,
    /// Comma-joined, as Spotify presents them.
    pub platform_artists: Option<String>,
    pub platform_duration_ms: Option<u64>,
    /// A share in parts per billion.
    pub confidence: u64,
    pub method: String,
    pub verdict: Verdict,
    pub reason: String,
}

/// What a stored match says.
#[verifier::ext_equal]
pub struct StoredMatchView {
    pub platform_uri: Option<Seq<char>>,
    pub platform_name: Option<Seq<char>>,
    pub platform_artists: Option<Seq<char>>,
    pub platform_duration_ms: Option<u64>,
    pub confidence: u64,
    pub method: Seq<char>,
    pub verdict: Verdict,
    pub reason: Seq<char>,
}

impl View for StoredMatch {
    type V = StoredMatchView;

    open spec fn view(&self) -> StoredMatchView {
        StoredMatchView {
            platform_uri: opt_view(self.platform_uri),
            platform_name: opt_view(self.platform_name),
            platform_artists: opt_view(self.platform_artists),
            platform_duration_ms: self.platform_duration_ms,
            confidence: self.confidence,
            method: self.method@,
            verdict: self.verdict,
            reason: self.reason@,
        }
    }
}

/// The verdict of a name; anything unknown is no match.
pub open spec fn verdict_of(name: Seq<char>) -> Verdict {
    if name == "auto"@ {
        Verdict::Auto
    } else if name == "review"@ {
        Verdict::Review
    } else {
        Verdict::NoMatch
    }
}

/// The verdict of a name; anything unknown is no match.
pub fn verdict_from(name: &str) -> (r: Verdict)
    ensures
        r == verdict_of(name@),
{
    if same_str(name, "auto") {
        Verdict::Auto
    } else if same_str(name, "review") {
        Verdict::Review
    } else {
        Verdict::NoMatch
    }
}

/// The match in a row.
pub open spec fn match_in(row: MatchRowView) -> StoredMatchView {
    StoredMatchView {
        platform_uri: row.platform_uri,
        platform_name: row.platform_name,
        platform_artists: row.platform_artists,
        platform_duration_ms: match row.platform_duration_ms {
            Some(ms) => Some(ms as u64),
            None => None,
        },
        confidence: row.confidence,
        method: row.method,
        verdict: verdict_of(row.verdict),
        reason: match row.reason {
            Some(reason) => reason,
            None => Seq::empty(),
        },
    }
}

/// The match in a row.
pub fn stored_match(row: MatchRow) -> (r: StoredMatch)
    ensures
        r@ == match_in(row@),
{
    let verdict = verdict_from(row.verdict.as_str());
    let reason = match row.reason {
        Some(reason) => reason,
        None => String::new(),
    };
    StoredMatch {
        platform_uri: row.platform_uri,
        platform_name: row.platform_name,
        platform_artists: row.platform_artists,
        platform_duration_ms: match row.platform_duration_ms {
            Some(ms) => Some(ms as u64),
            None => None,
        },
        confidence: row.confidence,
        method: row.method,
        verdict,
        reason,
    }
}

/// A verdict is read back as it was written.
pub proof fn law_verdicts_round_trip(verdict: Verdict)
    ensures
        verdict_of(verdict.label()) == verdict,
{
    reveal_strlit("auto");
    reveal_strlit("review");
    reveal_strlit("no_match");
    assert("auto"@.len() == 4);
    assert("review"@.len() == 6);
    assert("no_match"@.len() == 8);
}

/// A match is read back as it was written: verdict, method, reason, confidence
/// and what identifies the recording.
pub proof fn law_matches_round_trip(o: OutcomeView)
    ensures
        ({
            let m = match_in(match_row_of(o));
            &&& m.verdict == o.verdict
            &&& m.method == o.method.label()
            &&& m.reason == o.reason
            &&& o.candidates.len() > 0 ==> {
                let best = o.candidates[0];
                &&& m.platform_uri == Some(best.track.uri)
                &&& m.platform_name == Some(best.track.name)
                &&& m.platform_artists == Some(artist_line(best.track.artists))
                &&& m.platform_duration_ms == Some(best.track.duration_ms)
                &&& m.confidence == best.score.total
            }
            &&& o.candidates.len() == 0 ==> {
                &&& m.platform_uri is None
                &&& m.platform_name is None
                &&& m.platform_artists is None
                &&& m.platform_duration_ms is None
                &&& m.confidence == 0
            }
        }),
{
    law_verdicts_round_trip(o.verdict);
    if o.candidates.len() > 0 {
        let ms = o.candidates[0].track.duration_ms;
        assert((ms as i64) as u64 == ms) by (bit_vector);
    }
}

/// A row of the table of tracks, as far as finding it goes.
#[verifier::ext_equal]
pub struct KnownTrack {
    pub id: i64,
    pub path: Seq<char>,
    pub key: Seq<char>,
}

/// The id and the identity in the row at a path.
pub open spec fn at_path(table: Seq<KnownTrack>, path: Seq<char>) -> Option<(i64, Seq<char>)>
    decreases table.len(),
{
    if table.len() == 0 {
        None
    } else if table.first().path == path {
        Some((table.first().id, table.first().key))
    } else {
        at_path(table.drop_first(), path)
    }
}

/// The id in the first row with an identity.
pub open spec fn with_key(table: Seq<KnownTrack>, key: Seq<char>) -> Option<i64>
    decreases table.len(),
{
    if table.len() == 0 {
        None
    } else if table.first().key == key {
        Some(table.first().id)
    } else {
        with_key(table.drop_first(), key)
    }
}

/// The plan for a file, given the table of tracks.
pub open spec fn plan_for(table: Seq<KnownTrack>, path: Seq<char>, key: Seq<char>) -> UpsertPlan {
    upsert_plan(at_path(table, path), with_key(table, key), key)
}

/// The row after a plan was carried out on it.
pub open spec fn row_after(
    row: KnownTrack,
    plan: UpsertPlan,
    path: Seq<char>,
    key: Seq<char>,
) -> KnownTrack {
    match plan {
        UpsertPlan::Update(record) => if row.id == record.id {
            KnownTrack { key, ..row }
        } else {
            row
        },
        UpsertPlan::Relocate(record) => if row.id == record.id {
            KnownTrack { path, ..row }
        } else {
            row
        },
        UpsertPlan::Insert => row,
    }
}

/// The table after a plan was carried out. `new_id` is the id a new row gets.
pub open spec fn table_after(
    table: Seq<KnownTrack>,
    plan: UpsertPlan,
    path: Seq<char>,
    key: Seq<char>,
    new_id: i64,
) -> Seq<KnownTrack> {
    match plan {
        UpsertPlan::Insert => table.push(KnownTrack { id: new_id, path, key }),
        _ => table.map_values(|row: KnownTrack| row_after(row, plan, path, key)),
    }
}

/// Whether ids and paths are unique.
pub open spec fn is_keyed(table: Seq<KnownTrack>) -> bool {
    forall|i: int, j: int|
        0 <= i < j < table.len() ==> (#[trigger] table[i]).id != (#[trigger] table[j]).id
            && table[i].path != table[j].path
}

/// The id of the row that a plan leaves a file in.
pub open spec fn planned_id(plan: UpsertPlan, new_id: i64) -> i64 {
    match plan {
        UpsertPlan::Update(record) => record.id,
        UpsertPlan::Relocate(record) => record.id,
        UpsertPlan::Insert => new_id,
    }
}

proof fn lemma_at_path(table: Seq<KnownTrack>, path: Seq<char>)
    ensures
        at_path(table, path) matches Some((id, key)) ==> exists|i: int|
            0 <= i < table.len() && (#[trigger] table[i]).path == path && table[i].id == id
                && table[i].key == key,
        at_path(table, path) is None ==> forall|i: int|
            0 <= i < table.len() ==> (#[trigger] table[i]).path != path,
    decreases table.len(),
{
    if table.len() > 0 {
        if table.first().path == path {
            assert(table[0].path == path);
        } else {
            let rest = table.drop_first();
            lemma_at_path(rest, path);
            if at_path(rest, path) is Some {
                let i = choose|i: int|
                    0 <= i < rest.len() && (#[trigger] rest[i]).path == path && rest[i].id
                        == (at_path(rest, path)->0).0 && rest[i].key == (at_path(rest, path)->0).1;
                assert(table[i + 1] == rest[i]);
            }
            assert forall|i: int| 0 <= i < table.len() && at_path(rest, path) is None implies (
            #[trigger] table[i]).path != path by {
                if i > 0 {
                    assert(rest[i - 1] == table[i]);
                }
            }
        }
    }
}

proof fn lemma_with_key(table: Seq<KnownTrack>, key: Seq<char>)
    ensures
        with_key(table, key) matches Some(id) ==> exists|i: int|
            0 <= i < table.len() && (#[trigger] table[i]).key == key && table[i].id == id,
    decreases table.len(),
{
    if table.len() > 0 {
        if table.first().key == key {
            assert(table[0].key == key);
        } else {
            let rest = table.drop_first();
            lemma_with_key(rest, key);
            if with_key(rest, key) is Some {
                let i = choose|i: int|
                    0 <= i < rest.len() && (#[trigger] rest[i]).key == key && rest[i].id
                        == with_key(rest, key)->0;
                assert(table[i + 1] == rest[i]);
            }
        }
    }
}

proof fn lemma_found_at(table: Seq<KnownTrack>, i: int)
    requires
        is_keyed(table),
        0 <= i < table.len(),
    ensures
        at_path(table, table[i].path) == Some((table[i].id, table[i].key)),
{
    let path = table[i].path;
    lemma_at_path(table, path);
    match at_path(table, path) {
        Some((id, key)) => {
            let j = choose|j: int|
                0 <= j < table.len() && (#[trigger] table[j]).path == path && table[j].id == id
                    && table[j].key == key;
            if i < j {
                assert(table[i].path != table[j].path);
            } else if j < i {
                assert(table[j].path != table[i].path);
            }
        },
        None => {
            assert(table[i].path != path);
        },
    }
}

/// The row that a plan leaves a file in, and the table it leaves.
proof fn lemma_table_after(
    table: Seq<KnownTrack>,
    path: Seq<char>,
    key: Seq<char>,
    new_id: i64,
) -> (i: int)
    requires
        is_keyed(table),
        forall|k: int| 0 <= k < table.len() ==> (#[trigger] table[k]).id != new_id,
    ensures
        ({
            let plan = plan_for(table, path, key);
            let after = table_after(table, plan, path, key, new_id);
            &&& is_keyed(after)
            &&& 0 <= i < after.len()
            &&& after[i] == (KnownTrack { id: planned_id(plan, new_id), path, key })
        }),
{
    let plan = plan_for(table, path, key);
    let after = table_after(table, plan, path, key, new_id);
    lemma_at_path(table, path);
    lemma_with_key(table, key);
    let at: int = match plan {
        UpsertPlan::Update(record) => choose|i: int|
            0 <= i < table.len() && (#[trigger] table[i]).path == path && table[i].id == record.id,
        UpsertPlan::Relocate(record) => choose|i: int|
            0 <= i < table.len() && (#[trigger] table[i]).key == key && table[i].id == record.id,
        UpsertPlan::Insert => table.len() as int,
    };
    assert forall|j: int, k: int| 0 <= j < k < after.len() implies (#[trigger] after[j]).id != (
    #[trigger] after[k]).id && after[j].path != after[k].path by {
        if k < table.len() {
            assert(table[j].id != table[k].id && table[j].path != table[k].path);
        } else {
            assert(table[j].path != path);
        }
    }
    at
}

/// Carrying out a plan keeps ids and paths unique.
pub proof fn law_table_stays_keyed(
    table: Seq<KnownTrack>,
    path: Seq<char>,
    key: Seq<char>,
    new_id: i64,
)
    requires
        is_keyed(table),
        forall|k: int| 0 <= k < table.len() ==> (#[trigger] table[k]).id != new_id,
    ensures
        is_keyed(table_after(table, plan_for(table, path, key), path, key, new_id)),
{
    let _ = lemma_table_after(table, path, key, new_id);
}

/// A file that was seen is unchanged when it is seen again, in the same row,
/// whatever was known of it before.
pub proof fn law_seen_again_is_unchanged(
    table: Seq<KnownTrack>,
    path: Seq<char>,
    key: Seq<char>,
    new_id: i64,
)
    requires
        is_keyed(table),
        forall|k: int| 0 <= k < table.len() ==> (#[trigger] table[k]).id != new_id,
    ensures
        ({
            let plan = plan_for(table, path, key);
            let after = table_after(table, plan, path, key, new_id);
            plan_for(after, path, key) == UpsertPlan::Update(
                TrackRecord { id: planned_id(plan, new_id), state: TrackState::Unchanged },
            )
        }),
{
    let plan = plan_for(table, path, key);
    let after = table_after(table, plan, path, key, new_id);
    let i = lemma_table_after(table, path, key, new_id);
    lemma_found_at(after, i);
}

/// A file that moved to a path where there was none keeps its row and its
/// history, and no row is added.
pub proof fn law_moved_file_keeps_its_history(
    table: Seq<KnownTrack>,
    path: Seq<char>,
    key: Seq<char>,
    id: i64,
    new_id: i64,
)
    requires
        at_path(table, path) is None,
        with_key(table, key) == Some(id),
    ensures
        plan_for(table, path, key) == UpsertPlan::Relocate(
            TrackRecord { id, state: TrackState::Moved },
        ),
        is_reusable(TrackState::Moved),
        table_after(table, plan_for(table, path, key), path, key, new_id).len() == table.len(),
{
}

/// A file whose identity changed in place is matched again.
pub proof fn law_retagged_file_is_matched_again(
    table: Seq<KnownTrack>,
    path: Seq<char>,
    key: Seq<char>,
    id: i64,
    stored: Seq<char>,
)
    requires
        at_path(table, path) == Some((id, stored)),
        stored != key,
    ensures
        plan_for(table, path, key) == UpsertPlan::Update(
            TrackRecord { id, state: TrackState::Retagged },
        ),
        !is_reusable(TrackState::Retagged),
{
}

/// What to do with the row of a match.
#[derive(Debug, Clone, Copy, PartialEq, Eq, Structural)]
pub enum MatchPlan {
    /// Write it over the row with this id.
    Replace(i64),
    /// Add a row.
    Insert,
}

/// What to do with the row of a match, given the id of the row that its track
/// has on its platform.
pub open spec fn match_plan(stored: Option<i64>) -> MatchPlan {
    match stored {
        Some(id) => MatchPlan::Replace(id),
        None => MatchPlan::Insert,
    }
}

/// What to do with the row of a match: matching a track again replaces what
/// was stored, and adds nothing. `stored` is the id of the row that the track
/// has on the platform.
pub fn plan_match(stored: Option<i64>) -> (r: MatchPlan)
    ensures
        r == match_plan(stored),
{
    match stored {
        Some(id) => MatchPlan::Replace(id),
        None => MatchPlan::Insert,
    }
}

/// A row of the table of matches.
#[verifier::ext_equal]
pub struct KnownMatch {
    pub id: i64,
    pub track_id: i64,
    pub platform: Seq<char>,
    pub row: MatchRowView,
}

/// Whether a row is that of a track on a platform.
pub open spec fn is_match_of(known: KnownMatch, track_id: i64, platform: Seq<char>) -> bool {
    known.track_id == track_id && known.platform == platform
}

/// The row of a track on a platform.
pub open spec fn known_match(
    table: Seq<KnownMatch>,
    track_id: i64,
    platform: Seq<char>,
) -> Option<KnownMatch>
    decreases table.len(),
{
    if table.len() == 0 {
        None
    } else if is_match_of(table.first(), track_id, platform) {
        Some(table.first())
    } else {
        known_match(table.drop_first(), track_id, platform)
    }
}

/// The match that is read for a track on a platform.
pub open spec fn match_read(
    table: Seq<KnownMatch>,
    track_id: i64,
    platform: Seq<char>,
) -> Option<StoredMatchView> {
    match known_match(table, track_id, platform) {
        Some(known) => Some(match_in(known.row)),
        None => None,
    }
}

/// The plan for a match of a track on a platform, given the table of matches.
pub open spec fn match_plan_for(
    table: Seq<KnownMatch>,
    track_id: i64,
    platform: Seq<char>,
) -> MatchPlan {
    match_plan(
        match known_match(table, track_id, platform) {
            Some(known) => Some(known.id),
            None => None,
        },
    )
}

/// A row after a plan to replace the one with an id was carried out.
pub open spec fn replaced(known: KnownMatch, id: i64, row: MatchRowView) -> KnownMatch {
    if known.id == id {
        KnownMatch { row, ..known }
    } else {
        known
    }
}

/// The table after the outcome for a track on a platform was recorded. `new_id`
/// is the id a new row gets.
pub open spec fn match_recorded(
    table: Seq<KnownMatch>,
    track_id: i64,
    platform: Seq<char>,
    o: OutcomeView,
    new_id: i64,
) -> Seq<KnownMatch> {
    let row = match_row_of(o);
    match match_plan_for(table, track_id, platform) {
        MatchPlan::Replace(id) => table.map_values(|known: KnownMatch| replaced(known, id, row)),
        MatchPlan::Insert => table.push(KnownMatch { id: new_id, track_id, platform, row }),
    }
}

/// Whether ids are unique, and a track has one row on each platform.
pub open spec fn one_match_each(table: Seq<KnownMatch>) -> bool {
    forall|i: int, j: int|
        0 <= i < j < table.len() ==> (#[trigger] table[i]).id != (#[trigger] table[j]).id
            && !is_match_of(table[i], table[j].track_id, table[j].platform)
}

/// Whether no row has an id.
pub open spec fn is_new_id(table: Seq<KnownMatch>, id: i64) -> bool {
    forall|k: int| 0 <= k < table.len() ==> (#[trigger] table[k]).id != id
}

proof fn lemma_known_match(table: Seq<KnownMatch>, track_id: i64, platform: Seq<char>)
    ensures
        match known_match(table, track_id, platform) {
            Some(known) => is_match_of(known, track_id, platform) && exists|i: int|
                0 <= i < table.len() && #[trigger] table[i] == known,
            None => forall|i: int|
                0 <= i < table.len() ==> !is_match_of(#[trigger] table[i], track_id, platform),
        },
    decreases table.len(),
{
    if table.len() > 0 {
        if is_match_of(table.first(), track_id, platform) {
            assert(table[0] == table.first());
        } else {
            let rest = table.drop_first();
            lemma_known_match(rest, track_id, platform);
            match known_match(rest, track_id, platform) {
                Some(known) => {
                    let i = choose|i: int| 0 <= i < rest.len() && #[trigger] rest[i] == known;
                    assert(table[i + 1] == known);
                },
                None => {
                    assert forall|i: int| 0 <= i < table.len() implies !is_match_of(
                        #[trigger] table[i],
                        track_id,
                        platform,
                    ) by {
                        if i > 0 {
                            assert(rest[i - 1] == table[i]);
                        }
                    }
                },
            }
        }
    }
}

proof fn lemma_known_at(table: Seq<KnownMatch>, i: int)
    requires
        one_match_each(table),
        0 <= i < table.len(),
    ensures
        known_match(table, table[i].track_id, table[i].platform) == Some(table[i]),
{
    lemma_known_match(table, table[i].track_id, table[i].platform);
    match known_match(table, table[i].track_id, table[i].platform) {
        Some(known) => {
            let j = choose|j: int| 0 <= j < table.len() && #[trigger] table[j] == known;
            if i < j {
                assert(!is_match_of(table[i], table[j].track_id, table[j].platform));
            } else if j < i {
                assert(!is_match_of(table[j], table[i].track_id, table[i].platform));
            }
        },
        None => {
            assert(!is_match_of(table[i], table[i].track_id, table[i].platform));
        },
    }
}

/// However often matches are recorded, a track has one row on each platform.
pub proof fn law_one_match_each_is_kept(
    table: Seq<KnownMatch>,
    track_id: i64,
    platform: Seq<char>,
    o: OutcomeView,
    new_id: i64,
)
    requires
        one_match_each(table),
        is_new_id(table, new_id),
    ensures
        one_match_each(match_recorded(table, track_id, platform, o, new_id)),
{
    let after = match_recorded(table, track_id, platform, o, new_id);
    lemma_known_match(table, track_id, platform);
    assert forall|i: int, j: int| 0 <= i < j < after.len() implies (#[trigger] after[i]).id != (
    #[trigger] after[j]).id && !is_match_of(after[i], after[j].track_id, after[j].platform) by {
        assert(is_match_of(after[i], after[j].track_id, after[j].platform) == is_match_of(
            table[i],
            after[j].track_id,
            after[j].platform,
        ));
        if j < table.len() {
            assert(table[i].id != table[j].id);
        }
    }
}

/// What is read for a track on a platform is the last outcome that was recorded
/// for it, whatever was stored before.
pub proof fn law_recorded_match_is_read_back(
    table: Seq<KnownMatch>,
    track_id: i64,
    platform: Seq<char>,
    o: OutcomeView,
    new_id: i64,
)
    requires
        one_match_each(table),
        is_new_id(table, new_id),
    ensures
        match_read(match_recorded(table, track_id, platform, o, new_id), track_id, platform)
            == Some(match_in(match_row_of(o))),
{
    let after = match_recorded(table, track_id, platform, o, new_id);
    law_one_match_each_is_kept(table, track_id, platform, o, new_id);
    lemma_known_match(table, track_id, platform);
    let i: int = match known_match(table, track_id, platform) {
        Some(known) => choose|i: int| 0 <= i < table.len() && #[trigger] table[i] == known,
        None => table.len() as int,
    };
    lemma_known_at(after, i);
}

/// A second match for a track on a platform replaces the first: no row is added,
/// and what is read is the second alone.
pub proof fn law_second_match_replaces_the_first(
    table: Seq<KnownMatch>,
    track_id: i64,
    platform: Seq<char>,
    first: OutcomeView,
    second: OutcomeView,
    first_id: i64,
    second_id: i64,
)
    requires
        one_match_each(table),
        is_new_id(table, first_id),
        is_new_id(table, second_id),
        first_id != second_id,
    ensures
        ({
            let once = match_recorded(table, track_id, platform, first, first_id);
            let twice = match_recorded(once, track_id, platform, second, second_id);
            &&& match_plan_for(once, track_id, platform) is Replace
            &&& twice.len() == once.len()
            &&& twice == match_recorded(table, track_id, platform, second, first_id)
            &&& match_read(twice, track_id, platform) == Some(match_in(match_row_of(second)))
        }),
{
    let once = match_recorded(table, track_id, platform, first, first_id);
    let twice = match_recorded(once, track_id, platform, second, second_id);
    law_one_match_each_is_kept(table, track_id, platform, first, first_id);
    law_recorded_match_is_read_back(table, track_id, platform, first, first_id);
    law_recorded_match_is_read_back(table, track_id, platform, second, first_id);
    lemma_known_match(table, track_id, platform);
    let i: int = match known_match(table, track_id, platform) {
        Some(known) => choose|i: int| 0 <= i < table.len() && #[trigger] table[i] == known,
        None => table.len() as int,
    };
    lemma_known_at(once, i);
    let direct = match_recorded(table, track_id, platform, second, first_id);
    assert forall|k: int| 0 <= k < direct.len() implies #[trigger] twice[k] == direct[k] by {
        if k < table.len() {
            assert(once[k].id == table[k].id);
        }
    }
    assert(twice =~= direct);
}

/// Recording a match leaves alone what is stored of other tracks, and of the
/// same track on other platforms.
pub proof fn law_other_matches_are_left_alone(
    table: Seq<KnownMatch>,
    track_id: i64,
    platform: Seq<char>,
    o: OutcomeView,
    new_id: i64,
    other_track: i64,
    other_platform: Seq<char>,
)
    requires
        one_match_each(table),
        is_new_id(table, new_id),
        other_track != track_id || other_platform != platform,
    ensures
        match_read(
            match_recorded(table, track_id, platform, o, new_id),
            other_track,
            other_platform,
        ) == match_read(table, other_track, other_platform),
{
    let after = match_recorded(table, track_id, platform, o, new_id);
    law_one_match_each_is_kept(table, track_id, platform, o, new_id);
    lemma_known_match(table, track_id, platform);
    lemma_known_match(table, other_track, other_platform);
    match known_match(table, other_track, other_platform) {
        Some(known) => {
            let j = choose|j: int| 0 <= j < table.len() && #[trigger] table[j] == known;
            if match_plan_for(table, track_id, platform) is Replace {
                let mine = known_match(table, track_id, platform)->0;
                let i = choose|i: int| 0 <= i < table.len() && #[trigger] table[i] == mine;
                if i < j {
                    assert(table[i].id != table[j].id);
                } else if j < i {
                    assert(table[j].id != table[i].id);
                }
            }
            assert(after[j] == known);
            lemma_known_at(after, j);
        },
        None => {
            lemma_known_match(after, other_track, other_platform);
            if known_match(after, other_track, other_platform) is Some {
                let found = known_match(after, other_track, other_platform)->0;
                let j = choose|j: int| 0 <= j < after.len() && #[trigger] after[j] == found;
                if j < table.len() {
                    assert(!is_match_of(table[j], other_track, other_platform));
                }
            }
        },
    }
}

} // verus!
