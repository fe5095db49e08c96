use djls_core::normalize::parse_title;
use djls_core::retry::{
    drops_token, next_step, rate_limit_message, retry_after, GiveUp, Reply, RequestStats,
    RetryPolicy, Step,
};
use djls_core::spotify::{
    api_failure, api_retries, batches, clamp_limit, entries_of, escape, is_fresh, isrc_query,
    merge_new, pace, search_failure, search_params, tracks_of, ApiTrack, Playlist, PlaylistEntry,
    PlaylistItemsRef, PlaylistOwner, RowTrack, SearchRun, SearchStage, SpotifyTrack,
};
use djls_core::tags::LocalTrack;
use serde_json::Value;

/// A playlist out of the JSON that a service sends.
fn playlist_from(json: &str) -> Playlist {
    let v: Value = serde_json::from_str(json).unwrap();
    let text = |key: &str| v.get(key).and_then(|f| f.as_str()).unwrap().to_string();
    Playlist {
        id: text("id"),
        name: text("name"),
        public: v.get("public").and_then(|p| p.as_bool()),
        owner: v.get("owner").map(|o| PlaylistOwner {
            id: o.get("id").and_then(|i| i.as_str()).unwrap().to_string(),
        }),
        items: v.get("items").map(|i| PlaylistItemsRef {
            total: i.get("total").and_then(|t| t.as_u64()).unwrap() as u32,
        }),
    }
}

fn track(id: &str) -> SpotifyTrack {
    SpotifyTrack {
        id: id.into(),
        uri: format!("spotify:track:{id}"),
        name: "Grey".into(),
        artists: vec!["Kolsch".into(), "Nia".into()],
        album: "".into(),
        duration_ms: 65_000,
        isrc: None,
        url: None,
        popularity: None,
    }
}

fn api(id: Option<&str>) -> ApiTrack {
    ApiTrack {
        id: id.map(|s| s.to_string()),
        uri: None,
        name: "Grey".into(),
        artists: vec!["Kolsch".into()],
        album: None,
        duration_ms: 1,
        isrc: Some("deum7".into()),
        url: Some("u".into()),
        popularity: Some(3),
    }
}

fn local(artist: &str, title: &str) -> LocalTrack {
    LocalTrack {
        path: "/x".into(),
        file_name: "x".into(),
        artist: artist.into(),
        title: title.into(),
        album: None,
        isrc: None,
        bpm: None,
        musical_key: None,
        duration_ms: 1,
        file_size: 1,
        parsed: parse_title(title),
    }
}

#[test]
fn a_playlist_with_no_owner_is_writable() {
    // Apple's library playlists carry no owner. Treating that absence as
    // "not mine" meant never finding the playlist again, so every push
    // would have created a fresh duplicate.
    let apple = playlist_from(r#"{"id":"p.1","name":"New Downloads"}"#);
    assert!(apple.is_writable_by("anyone"));
    assert!(
        !apple.is_owned_by("anyone"),
        "ownership is genuinely unknown — only writability is being asserted"
    );
}

#[test]
fn a_followed_playlist_is_not_writable() {
    // Spotify lists playlists the user merely follows; writing to one
    // fails, so there the owner still has to match.
    let followed = playlist_from(r#"{"id":"1","name":"Someone else's","owner":{"id":"them"}}"#);
    assert!(!followed.is_writable_by("me"));

    let mine = playlist_from(r#"{"id":"2","name":"Mine","owner":{"id":"me"}}"#);
    assert!(mine.is_writable_by("me"));
    assert!(mine.is_owned_by("me"));
}

#[test]
fn a_playlist_counts_its_tracks_when_told() {
    let p = playlist_from(r#"{"id":"2","name":"Mine","items":{"total":7}}"#);
    assert_eq!(p.track_count(), Some(7));
    assert_eq!(playlist_from(r#"{"id":"2","name":"Mine"}"#).track_count(), None);
}

#[test]
fn tracks_put_themselves_in_words() {
    let t = track("1");
    assert_eq!(t.artist_field(), "Kolsch, Nia");
    assert_eq!(t.duration_display(), "1:05");
    assert_eq!(t.clone().uri, t.uri);
}

#[test]
fn search_results_without_an_id_are_dropped() {
    let found = tracks_of(vec![api(Some("1")), api(None), api(Some("2"))]);
    assert_eq!(found.len(), 2);
    assert_eq!(found[0].uri, "spotify:track:1");
    assert_eq!(found[1].id, "2");
    assert_eq!(found[0].isrc.as_deref(), Some("DEUM7"));
    assert_eq!(found[0].album, "");
    assert_eq!(found[0].popularity, Some(3));
}

#[test]
fn a_given_uri_is_kept() {
    let mut t = api(Some("1"));
    t.uri = Some("spotify:local:1".into());
    assert_eq!(t.into_track().unwrap().uri, "spotify:local:1");
    assert!(api(None).into_track().is_none());
}

#[test]
fn playlist_rows_without_a_track_are_dropped() {
    let row = |uri: Option<&str>| {
        Some(RowTrack {
            uri: uri.map(|s| s.to_string()),
            name: "n".into(),
            artists: vec!["a".into()],
            duration_ms: 5,
        })
    };
    let entries = entries_of(vec![row(Some("u1")), None, row(None), row(Some("u2"))]);
    let uris: Vec<&str> = entries.iter().map(|e| e.uri.as_str()).collect();
    assert_eq!(uris, vec!["u1", "u2"]);
}

#[test]
fn an_entry_knows_its_recording_under_another_uri() {
    let entry = PlaylistEntry {
        uri: "other".into(),
        name: "Grey".into(),
        artists: vec!["Kolsch".into(), "Nia".into()],
        duration_ms: 66_000,
    };
    assert_eq!(entry.artist_field(), "Kolsch, Nia");
    assert!(entry.is_same_recording_as(&track("1")));
    let mut far = track("1");
    far.duration_ms = 100_000;
    assert!(!entry.is_same_recording_as(&far));
    far.uri = "other".into();
    assert!(entry.is_same_recording_as(&far));
}

#[test]
fn queries_cannot_leave_their_quotes() {
    assert_eq!(escape(r#"a"b\c"#), "a b c");
}

#[test]
fn a_code_is_cleaned_before_it_is_searched() {
    assert_eq!(isrc_query("de-um7 19").as_deref(), Some("isrc:DEUM719"));
    assert_eq!(isrc_query(" -- "), None);
}

#[test]
fn search_parameters_are_clamped() {
    let params = search_params("q", 50, &Some("GB".into()));
    assert_eq!(params[0], ("q".to_string(), "q".to_string()));
    assert_eq!(params[2], ("limit".to_string(), "10".to_string()));
    assert_eq!(params[3], ("market".to_string(), "GB".to_string()));
    assert_eq!(search_params("q", 0, &None)[2].1, "1");
    assert_eq!(search_params("q", 7, &None).len(), 3);
    assert_eq!(clamp_limit(30, 25), 25);
}

#[test]
fn merging_lists_a_track_once() {
    let mut results = vec![track("1"), track("2")];
    merge_new(&mut results, vec![track("2"), track("3"), track("3")]);
    let ids: Vec<&str> = results.iter().map(|t| t.id.as_str()).collect();
    assert_eq!(ids, vec!["1", "2", "3"]);
}

#[test]
fn a_search_runs_from_precise_to_loose() {
    let mut run = SearchRun::new(" Kolsch ", " Grey ", None);
    assert_eq!(run.query().as_deref(), Some(r#"track:"Grey" artist:"Kolsch""#));
    run.advance(vec![track("1")]);
    assert_eq!(run.query().as_deref(), Some("Kolsch Grey"));
    assert!(!run.may_fail());
    run.advance(vec![track("1"), track("2")]);
    assert_eq!(run.query(), None);
    assert_eq!(run.results.len(), 2);
}

#[test]
fn three_precise_hits_are_enough() {
    let mut run = SearchRun::new("Kolsch", "Grey", None);
    run.advance(vec![track("1"), track("2"), track("3")]);
    assert_eq!(run.stage, SearchStage::Done);
}

#[test]
fn a_search_without_an_artist_is_loose_and_without_a_title_is_none() {
    let run = SearchRun::new(" ", "Grey", None);
    assert_eq!(run.query().as_deref(), Some("Grey"));
    assert_eq!(SearchRun::new("Kolsch", "  ", None).query(), None);
}

#[test]
fn a_long_form_file_names_its_mix_too() {
    let mut run = SearchRun::for_track(&local("Kolsch & Nia", "Grey (Extended Mix)"));
    run.advance(vec![track("1"), track("2"), track("3")]);
    assert_eq!(run.query().as_deref(), Some("Kolsch Grey extended mix"));
    assert!(run.may_fail());
    run.advance(Vec::new());
    assert_eq!(run.query(), None);
    assert_eq!(run.results.len(), 3);
    let run = SearchRun::for_track(&local("Kolsch", "Grey (Radio Edit)"));
    assert_eq!(run.hint, None);
}

#[test]
fn additions_are_sent_in_batches() {
    let uris: Vec<String> = (0..205).map(|i| format!("u{i}")).collect();
    let b = batches(&uris, 100);
    let sizes: Vec<usize> = b.iter().map(|c| c.len()).collect();
    assert_eq!(sizes, vec![100, 100, 5]);
    assert_eq!(b.concat(), uris);
    assert!(batches(&[], 100).is_empty());
    assert_eq!(batches(&uris[..100], 100).len(), 1);
}

fn answered(status: u16, retry_after: Option<u64>) -> Reply {
    Reply::Answered { status, retry_after }
}

#[test]
fn transport_failures_are_retried_with_growing_waits() {
    let p = api_retries();
    assert_eq!(next_step(p, 0, Reply::Unreachable), Step::Again { wait_ms: 400 });
    assert_eq!(next_step(p, 3, Reply::Unreachable), Step::Again { wait_ms: 1600 });
    assert_eq!(next_step(p, 4, Reply::Unreachable), Step::Fail(GiveUp::Unreachable));
}

#[test]
fn rate_limits_are_waited_out() {
    let p = api_retries();
    assert_eq!(next_step(p, 0, answered(429, Some(7))), Step::Again { wait_ms: 8000 });
    assert_eq!(next_step(p, 0, answered(429, None)), Step::Again { wait_ms: 3000 });
    assert_eq!(next_step(p, 4, answered(429, None)), Step::Fail(GiveUp::RateLimited));
    assert_eq!(
        next_step(p, 0, answered(429, Some(u64::MAX))),
        Step::Again { wait_ms: u64::MAX }
    );
    assert_eq!(rate_limit_message("Spotify", p), "Spotify rate limit persisted after 4 retries");
}

#[test]
fn a_refused_token_is_renewed_where_the_policy_says_so() {
    assert_eq!(next_step(api_retries(), 0, answered(401, None)), Step::AgainWithNewToken);
    assert_eq!(
        next_step(api_retries(), 4, answered(401, None)),
        Step::Fail(GiveUp::Unauthorized)
    );
    let keeps = RetryPolicy { max_retries: 4, renews_token: false };
    assert_eq!(next_step(keeps, 0, answered(401, None)), Step::Fail(GiveUp::Refused));
    assert!(drops_token(api_retries(), answered(401, None)));
    assert!(!drops_token(keeps, answered(401, None)));
    assert!(!drops_token(api_retries(), Reply::Unreachable));
}

#[test]
fn server_errors_are_retried_and_other_failures_are_not() {
    let p = api_retries();
    assert_eq!(next_step(p, 1, answered(503, None)), Step::Again { wait_ms: 1000 });
    assert_eq!(next_step(p, 4, answered(503, None)), Step::Fail(GiveUp::Refused));
    assert_eq!(next_step(p, 0, answered(404, None)), Step::Fail(GiveUp::Refused));
    assert_eq!(next_step(p, 0, answered(304, None)), Step::Fail(GiveUp::Refused));
    assert_eq!(next_step(p, 0, answered(201, None)), Step::Read);
}

#[test]
fn requests_are_counted() {
    let mut s = RequestStats::default();
    let p = api_retries();
    s.record(p, 0, Reply::Unreachable);
    s.record(p, 4, Reply::Unreachable);
    s.record(p, 0, answered(429, None));
    s.record(p, 0, answered(503, None));
    s.record(p, 0, answered(404, None));
    s.record(p, 0, answered(200, None));
    assert_eq!(s, RequestStats { requests: 6, rate_limited: 1, errors: 2 });
}

#[test]
fn the_retry_header_is_a_number_of_seconds() {
    assert_eq!(retry_after(Some("12")), Some(12));
    assert_eq!(retry_after(Some("Wed, 21 Oct 2015 07:28:00 GMT")), None);
    assert_eq!(retry_after(None), None);
}

#[test]
fn requests_are_paced() {
    assert_eq!(pace(0), 120);
    assert_eq!(pace(119), 1);
    assert_eq!(pace(120), 0);
    assert!(is_fresh(30_001) && !is_fresh(30_000));
}

#[test]
fn refusals_name_the_right_fix() {
    let scope = api_failure(403, "403 Forbidden", "Insufficient client scope");
    assert!(scope.contains("missing a required scope"));
    let app = api_failure(403, "403 Forbidden", "nope");
    assert!(app.contains("User Management"));
    assert_eq!(api_failure(500, "500 X", "b"), "Spotify API error (500 X): b");
    assert_eq!(search_failure("400 Bad Request", "b"), "Spotify search failed (400 Bad Request): b");
}
