use djls_core::db::{StoredMatch, TrackRecord, TrackState};
use djls_core::matcher::{MatchMethod, Thresholds, Verdict};
use djls_core::normalize::parse_title;
use djls_core::push::{
    bucket, bucket_stored, cached_outcome, cached_row, is_yes, plan_push, push_item, reuses_stored,
    should_abort, target_playlist, Bucket, Lookup, LookupStep, PushItem, PushRun,
};
use djls_core::spotify::{Playlist, PlaylistEntry, PlaylistOwner, SpotifyTrack};
use djls_core::tags::LocalTrack;
use djls_core::unit::ONE;

fn local(isrc: Option<&str>) -> LocalTrack {
    LocalTrack {
        path: "/m/a.aiff".into(),
        file_name: "a.aiff".into(),
        artist: "Kolsch".into(),
        title: "Grey".into(),
        album: None,
        isrc: isrc.map(|s| s.to_string()),
        bpm: None,
        musical_key: None,
        duration_ms: 400_000,
        file_size: 1,
        parsed: parse_title("Grey"),
    }
}

fn hit() -> SpotifyTrack {
    SpotifyTrack {
        id: "1".into(),
        uri: "spotify:track:1".into(),
        name: "Grey".into(),
        artists: vec!["Kolsch".into()],
        album: "".into(),
        duration_ms: 400_000,
        isrc: None,
        url: None,
        popularity: None,
    }
}

fn item(track_id: i64, uri: &str, name: &str) -> PushItem {
    PushItem {
        track_id,
        uri: uri.into(),
        name: name.into(),
        artists: "Kolsch".into(),
        duration_ms: 400_000,
    }
}

fn entry(uri: &str, name: &str) -> PlaylistEntry {
    PlaylistEntry {
        uri: uri.into(),
        name: name.into(),
        artists: vec!["Kolsch".into()],
        duration_ms: 401_000,
    }
}

fn stored(verdict: Verdict, uri: Option<&str>) -> StoredMatch {
    StoredMatch {
        platform_uri: uri.map(|s| s.to_string()),
        platform_name: Some("Grey".into()),
        platform_artists: Some("Kolsch, Nia".into()),
        platform_duration_ms: Some(400_000),
        confidence: 950_000_000,
        method: "exact".into(),
        verdict,
        reason: "exact match".into(),
    }
}

#[test]
fn a_failing_run_is_aborted_after_five_searches() {
    assert!(!should_abort(4, 4));
    assert!(should_abort(5, 3));
    assert!(!should_abort(5, 2));
    assert!(should_abort(6, 3));
    assert!(!should_abort(usize::MAX, 1));
}

#[test]
fn the_text_is_searched_only_when_no_code_hits() {
    let mut l = Lookup::new(&local(Some("X")));
    assert_eq!(l.step, LookupStep::ByCode);
    l.advance(Ok(vec![hit()]));
    assert_eq!(l.step, LookupStep::Done);
    assert!(l.is_answer());
    let out = l.conclude(&local(Some("X")), Thresholds::default());
    assert_eq!(out.method, MatchMethod::Isrc);

    let mut l = Lookup::new(&local(Some("X")));
    l.advance(Ok(Vec::new()));
    assert_eq!(l.step, LookupStep::ByText);
    l.advance(Ok(vec![hit()]));
    assert_eq!(l.step, LookupStep::Done);
    let out = l.conclude(&local(Some("X")), Thresholds::default());
    assert_eq!(out.verdict, Verdict::Auto);
    assert_eq!(out.method, MatchMethod::Exact);

    assert_eq!(Lookup::new(&local(None)).step, LookupStep::ByText);
}

#[test]
fn a_failed_search_is_no_answer() {
    let mut l = Lookup::new(&local(Some("X")));
    l.advance(Err("timeout".into()));
    assert_eq!(l.step, LookupStep::ByText);
    assert!(!l.is_searched());
    l.advance(Ok(vec![hit()]));
    assert!(l.is_searched(), "the text search was answered");
    assert!(!l.is_answer(), "the identifier search failed, so the result is not cached");
    assert_eq!(l.error.as_deref(), Some("timeout"));
    l.advance(Err("late".into()));
    assert_eq!(l.error.as_deref(), Some("timeout"), "a finished lookup takes nothing in");
}

#[test]
fn only_confident_matches_are_pushed() {
    assert_eq!(bucket(Verdict::Auto), Bucket::Push);
    assert_eq!(bucket(Verdict::Review), Bucket::Review);
    assert_eq!(bucket(Verdict::NoMatch), Bucket::Missing);
    assert_eq!(bucket_stored(&stored(Verdict::Auto, Some("u"))), Bucket::Push);
    assert_eq!(bucket_stored(&stored(Verdict::Auto, None)), Bucket::Review);
    assert_eq!(bucket_stored(&stored(Verdict::NoMatch, None)), Bucket::Missing);
}

#[test]
fn a_cached_match_is_rebuilt_with_its_metadata() {
    let out = cached_outcome(&stored(Verdict::Auto, Some("spotify:track:abc")));
    assert_eq!(out.verdict, Verdict::Auto);
    assert_eq!(out.method, MatchMethod::Unmatched);
    assert_eq!(out.reason, "exact match (from cache)");
    assert_eq!(out.confidence(), ONE);
    let best = &out.best().unwrap().track;
    assert_eq!(best.id, "abc");
    assert_eq!(best.uri, "spotify:track:abc");
    assert_eq!(best.artists, vec!["Kolsch", "Nia"]);
    assert_eq!(best.duration_ms, 400_000);

    let mut bare = stored(Verdict::Auto, None);
    bare.platform_artists = None;
    bare.platform_name = None;
    bare.platform_duration_ms = None;
    let out = cached_outcome(&bare);
    let best = &out.best().unwrap().track;
    assert_eq!(best.id, "");
    assert!(best.artists.is_empty());
    assert_eq!(best.duration_ms, 0);
}

#[test]
fn a_cached_row_keeps_its_verdict() {
    let out = cached_row(&stored(Verdict::Review, None));
    assert_eq!(out.verdict, Verdict::Review);
    assert!(out.candidates.is_empty());
    assert_eq!(out.reason, "exact match (from cache)");
}

#[test]
fn the_item_to_push_is_the_best_candidate() {
    let out = cached_outcome(&stored(Verdict::Auto, Some("u")));
    let i = push_item(7, &out).unwrap();
    assert_eq!((i.track_id, i.uri.as_str(), i.artists.as_str()), (7, "u", "Kolsch, Nia"));
    assert!(push_item(7, &cached_row(&stored(Verdict::Auto, Some("u")))).is_none());
}

#[test]
fn nothing_is_pushed_twice() {
    let items = vec![
        item(1, "u1", "Grey"),
        item(2, "u2", "Blue"),
        item(3, "u2", "Blue"),
        item(4, "u4", "Red"),
        item(5, "u5", "Green"),
    ];
    // "Grey" is in the playlist under another URI, "Red" was logged before.
    let already = vec![entry("other", "Grey")];
    let logged = vec![false, false, false, true];
    assert_eq!(plan_push(&items, &already, &logged), vec![1, 4]);
    assert_eq!(plan_push(&items, &vec![], &vec![]), vec![0, 1, 3, 4]);
}

#[test]
fn pushing_again_adds_nothing() {
    let items = vec![item(1, "u1", "Grey"), item(2, "u2", "Blue")];
    let already = vec![entry("u1", "x"), entry("u2", "y")];
    assert!(plan_push(&items, &already, &vec![false, false]).is_empty());
}

#[test]
fn the_target_is_a_writable_playlist_of_the_name() {
    let list = |name: &str, owner: Option<&str>| Playlist {
        id: "p".into(),
        name: name.into(),
        public: None,
        owner: owner.map(|o| PlaylistOwner { id: o.into() }),
        items: None,
    };
    let lists = vec![list("Gym", Some("them")), list("GYM", Some("me")), list("gym", None)];
    assert_eq!(target_playlist(&lists, "gym", "me"), Some(1));
    assert_eq!(target_playlist(&lists, "gym", "else"), Some(2));
    assert_eq!(target_playlist(&lists, "run", "me"), None);
}

#[test]
fn only_a_yes_is_a_yes() {
    assert!(is_yes(" Y\n"));
    assert!(is_yes("yEs"));
    assert!(!is_yes(""));
    assert!(!is_yes("yeah"));
    assert!(!is_yes("n"));
}

#[test]
fn a_stored_match_saves_a_search_only_for_a_known_file() {
    let known = TrackRecord { id: 1, state: TrackState::Unchanged };
    let moved = TrackRecord { id: 1, state: TrackState::Moved };
    let changed = TrackRecord { id: 1, state: TrackState::Retagged };
    let new = TrackRecord { id: 1, state: TrackState::New };
    assert!(reuses_stored(false, known, true));
    assert!(reuses_stored(false, moved, true));
    assert!(!reuses_stored(false, changed, true));
    assert!(!reuses_stored(false, new, true));
    assert!(!reuses_stored(true, known, true));
    assert!(!reuses_stored(false, known, false));
}

#[test]
fn a_push_gathers_confident_matches_and_counts_the_rest() {
    let mut run = PushRun::new();
    let mut l = Lookup::new(&local(None));
    l.advance(Ok(vec![hit()]));
    let found = l.conclude(&local(None), Thresholds::default());
    run.take_outcome(1, &found, l.is_searched());

    let mut l = Lookup::new(&local(None));
    l.advance(Ok(Vec::new()));
    let missed = l.conclude(&local(None), Thresholds::default());
    run.take_outcome(2, &missed, l.is_searched());

    let mut l = Lookup::new(&local(None));
    l.advance(Err("timeout".into()));
    let unknown = l.conclude(&local(None), Thresholds::default());
    run.take_outcome(3, &unknown, l.is_searched());

    run.take_stored(4, &stored(Verdict::Auto, Some("spotify:track:abc")));
    run.take_stored(5, &stored(Verdict::Auto, None));
    run.take_stored(6, &stored(Verdict::NoMatch, None));

    let gathered: Vec<(i64, &str)> =
        run.items.iter().map(|i| (i.track_id, i.uri.as_str())).collect();
    assert_eq!(gathered, vec![(1, "spotify:track:1"), (4, "spotify:track:abc")]);
    assert_eq!(run.items[1].artists, "Kolsch, Nia");
    assert_eq!((run.review, run.missing, run.failed, run.reused), (1, 2, 1, 3));
}

#[test]
fn a_text_match_is_pushed_though_the_identifier_search_failed() {
    let mut run = PushRun::new();
    let mut l = Lookup::new(&local(Some("X")));
    l.advance(Err("timeout".into()));
    l.advance(Ok(vec![hit()]));
    let out = l.conclude(&local(Some("X")), Thresholds::default());
    run.take_outcome(1, &out, l.is_searched());
    assert_eq!(run.items.len(), 1);
    assert_eq!(run.failed, 0);
}
