use djls_core::db::{
    match_row, plan_match, plan_upsert, stored_match, track_row, verdict_from, MatchPlan, MatchRow,
    StoredMatch, TrackRecord, TrackState, UpsertPlan, PLATFORM_APPLE_MUSIC, PLATFORM_SPOTIFY,
};
use djls_core::matcher::{Candidate, MatchMethod, MatchOutcome, Score, Verdict};
use djls_core::normalize::parse_title;
use djls_core::spotify::SpotifyTrack;
use djls_core::tags::LocalTrack;
use djls_core::unit::ONE;

fn track(path: &str, artist: &str, title: &str, duration_ms: u64, isrc: Option<&str>) -> LocalTrack {
    LocalTrack {
        path: path.into(),
        file_name: path.rsplit('/').next().unwrap().to_string(),
        artist: artist.into(),
        title: title.into(),
        album: None,
        isrc: isrc.map(|s| s.to_string()),
        bpm: None,
        musical_key: None,
        duration_ms,
        file_size: 1000,
        parsed: parse_title(title),
    }
}

fn outcome(verdict: Verdict, uri: &str) -> MatchOutcome {
    MatchOutcome {
        verdict,
        method: MatchMethod::Exact,
        candidates: vec![Candidate {
            track: SpotifyTrack {
                id: "id1".into(),
                uri: uri.into(),
                name: "Song".into(),
                artists: vec!["A".into()],
                album: "Album".into(),
                duration_ms: 400_000,
                isrc: None,
                url: None,
                popularity: None,
            },
            score: Score {
                total: 950_000_000,
                artist: ONE,
                title: ONE,
                duration: ONE,
                mix: ONE,
                duration_delta_ms: 0,
                notes: vec![],
            },
        }],
        reason: "exact match".into(),
    }
}

/// A table of tracks that carries plans out.
struct Table {
    rows: Vec<(i64, String, String)>,
}

impl Table {
    fn upsert(&mut self, t: &LocalTrack) -> TrackRecord {
        let row = track_row(t);
        let at_path = self
            .rows
            .iter()
            .find(|r| r.1 == row.file_path)
            .map(|r| (r.0, r.2.clone()));
        let with_identity = self.rows.iter().find(|r| r.2 == row.identity_key).map(|r| r.0);
        match plan_upsert(&at_path, with_identity, &row.identity_key) {
            UpsertPlan::Update(record) => {
                let found = self.rows.iter_mut().find(|r| r.0 == record.id).unwrap();
                found.2 = row.identity_key;
                record
            }
            UpsertPlan::Relocate(record) => {
                let found = self.rows.iter_mut().find(|r| r.0 == record.id).unwrap();
                found.1 = row.file_path;
                record
            }
            UpsertPlan::Insert => {
                let id = self.rows.len() as i64 + 1;
                self.rows.push((id, row.file_path, row.identity_key));
                TrackRecord { id, state: TrackState::New }
            }
        }
    }
}

#[test]
fn a_file_is_new_once_then_unchanged() {
    let mut db = Table { rows: Vec::new() };
    let t = track("/m/a.aiff", "Kolsch", "Grey (Extended Mix)", 400_000, None);

    assert_eq!(db.upsert(&t).state, TrackState::New);
    let second = db.upsert(&t);
    assert_eq!(second.state, TrackState::Unchanged);
    assert!(second.can_reuse_match());
}

#[test]
fn a_moved_file_keeps_its_history() {
    // Same recording, new folder. Re-matching it would waste an API call
    // and lose its sync history.
    let mut db = Table { rows: Vec::new() };
    let before = track("/m/a.aiff", "Kolsch", "Grey (Extended Mix)", 400_000, Some("X1"));
    let after = track("/other/a.aiff", "Kolsch", "Grey (Extended Mix)", 400_000, Some("X1"));

    let first = db.upsert(&before);
    let moved = db.upsert(&after);

    assert_eq!(moved.state, TrackState::Moved);
    assert_eq!(moved.id, first.id, "must be the same row, not a new one");
    assert!(moved.can_reuse_match());
    assert_eq!(db.rows.len(), 1);
}

#[test]
fn a_retagged_file_is_matched_again() {
    let mut db = Table { rows: Vec::new() };
    let before = track("/m/a.aiff", "Kolsch", "Grey (Extended Mix)", 400_000, None);
    // A tag editor rewrote the title to a different version.
    let after = track("/m/a.aiff", "Kolsch", "Grey (Radio Edit)", 400_000, None);

    db.upsert(&before);
    let changed = db.upsert(&after);

    assert_eq!(changed.state, TrackState::Retagged);
    assert!(!changed.can_reuse_match(), "changed tags must force a re-match");
    assert!(!TrackRecord { id: 1, state: TrackState::New }.can_reuse_match());
}

#[test]
fn a_match_is_read_back_as_it_was_written() {
    let stored = stored_match(match_row(&outcome(Verdict::Auto, "spotify:track:2")));
    assert_eq!(stored.verdict, Verdict::Auto);
    assert_eq!(stored.platform_uri.as_deref(), Some("spotify:track:2"));
    // Enough metadata to compare recordings later, not just an opaque URI.
    assert_eq!(stored.platform_name.as_deref(), Some("Song"));
    assert_eq!(stored.platform_artists.as_deref(), Some("A"));
    assert_eq!(stored.platform_duration_ms, Some(400_000));
    assert_eq!(stored.confidence, 950_000_000);
    assert_eq!(stored.method, "exact");
    assert_eq!(stored.reason, "exact match");
    assert_eq!(match_row(&outcome(Verdict::Review, "u")).platform_track_id.as_deref(), Some("id1"));
}

/// A table of matches that carries plans out.
struct Matches {
    rows: Vec<(i64, i64, String, MatchRow)>,
}

impl Matches {
    fn record(&mut self, track_id: i64, platform: &str, outcome: &MatchOutcome) {
        let row = match_row(outcome);
        let stored =
            self.rows.iter().find(|r| r.1 == track_id && r.2 == platform).map(|r| r.0);
        match plan_match(stored) {
            MatchPlan::Replace(id) => {
                self.rows.iter_mut().find(|r| r.0 == id).unwrap().3 = row;
            }
            MatchPlan::Insert => {
                let id = self.rows.len() as i64 + 1;
                self.rows.push((id, track_id, platform.to_string(), row));
            }
        }
    }

    fn read(&mut self, track_id: i64, platform: &str) -> Option<StoredMatch> {
        let at = self.rows.iter().position(|r| r.1 == track_id && r.2 == platform)?;
        Some(stored_match(self.rows.remove(at).3))
    }
}

#[test]
fn matches_round_trip_and_overwrite_in_place() {
    let mut db = Matches { rows: Vec::new() };
    db.record(1, PLATFORM_SPOTIFY, &outcome(Verdict::Review, "spotify:track:1"));
    db.record(1, PLATFORM_SPOTIFY, &outcome(Verdict::Auto, "spotify:track:2"));
    assert_eq!(db.rows.len(), 1, "re-matching must update, not duplicate");

    let stored = db.read(1, PLATFORM_SPOTIFY).unwrap();
    assert_eq!(stored.verdict, Verdict::Auto);
    assert_eq!(stored.platform_uri.as_deref(), Some("spotify:track:2"));
    // Enough metadata to compare recordings later, not just an opaque URI.
    assert_eq!(stored.platform_name.as_deref(), Some("Song"));
    assert_eq!(stored.platform_artists.as_deref(), Some("A"));
    assert_eq!(stored.platform_duration_ms, Some(400_000));
}

#[test]
fn other_platforms_and_tracks_keep_their_match() {
    assert_eq!(plan_match(Some(7)), MatchPlan::Replace(7));
    assert_eq!(plan_match(None), MatchPlan::Insert);

    let mut db = Matches { rows: Vec::new() };
    db.record(1, PLATFORM_SPOTIFY, &outcome(Verdict::Auto, "spotify:track:1"));
    db.record(1, PLATFORM_APPLE_MUSIC, &outcome(Verdict::Review, "apple:1"));
    db.record(2, PLATFORM_SPOTIFY, &outcome(Verdict::Auto, "spotify:track:3"));
    db.record(1, PLATFORM_SPOTIFY, &outcome(Verdict::NoMatch, "spotify:track:2"));
    assert_eq!(db.rows.len(), 3);
    let uri = |m: Option<StoredMatch>| m.unwrap().platform_uri.unwrap();
    assert_eq!(uri(db.read(1, PLATFORM_APPLE_MUSIC)), "apple:1");
    assert_eq!(uri(db.read(2, PLATFORM_SPOTIFY)), "spotify:track:3");
    assert_eq!(uri(db.read(1, PLATFORM_SPOTIFY)), "spotify:track:2");
    assert!(db.read(2, PLATFORM_APPLE_MUSIC).is_none());
}

#[test]
fn an_outcome_without_candidates_stores_no_track() {
    let empty = MatchOutcome {
        verdict: Verdict::NoMatch,
        method: MatchMethod::Unmatched,
        candidates: Vec::new(),
        reason: "no candidates returned".into(),
    };
    let row = match_row(&empty);
    assert_eq!(row.method, "none");
    assert_eq!(row.confidence, 0);
    let mut row = row;
    row.reason = None;
    let stored = stored_match(row);
    assert_eq!(stored.verdict, Verdict::NoMatch);
    assert_eq!(stored.platform_uri, None);
    assert_eq!(stored.reason, "");
}

#[test]
fn a_length_beyond_the_signed_range_survives_storage() {
    let mut o = outcome(Verdict::Auto, "u");
    o.candidates[0].track.duration_ms = u64::MAX - 1;
    let stored = stored_match(match_row(&o));
    assert_eq!(stored.platform_duration_ms, Some(u64::MAX - 1));
}

#[test]
fn an_unknown_verdict_is_no_match() {
    assert_eq!(verdict_from("auto"), Verdict::Auto);
    assert_eq!(verdict_from("review"), Verdict::Review);
    assert_eq!(verdict_from("no_match"), Verdict::NoMatch);
    assert_eq!(verdict_from("AUTO"), Verdict::NoMatch);
}

#[test]
fn a_row_holds_what_the_tags_say() {
    let row = track_row(&track("/m/a.aiff", "Kolsch", "Grey (Extended Mix)", 400_000, None));
    assert_eq!(row.file_path, "/m/a.aiff");
    assert_eq!(row.identity_key, "meta:kolsch|grey|extended|80");
    assert_eq!(row.base_title, "Grey");
    assert_eq!(row.version, "extended");
    assert_eq!(row.duration_ms, 400_000);
    assert_eq!(row.file_size, 1000);
    assert_eq!(row.isrc, None);
}
