use serde_json::Value;

use djls_core::apple::{
    api_retries, cache_seconds, created_playlist, describe_failure, developer_token_lifetime,
    developer_token_lifetime_by, entries_of, isrc_url, next_lookup, next_page, plain_query,
    playlist_named, rfc3339_to_unix, search_url, split_artist_name, storefront_user, sync_targets,
    token_refusal, tracks_of, urlencode, LibraryPlaylist, LookupNext, OutOfCredits, Song,
    Storefront, TokenRefusal,
};
use djls_core::platform::{all_platforms, CredentialModel, PlatformInfo};
use djls_core::tags::{LocalTrack, RawTags};
use djls_core::timestamp::{parse_rfc3339_secs_from_now, seconds_until};

fn text(v: &Value, key: &str) -> Option<String> {
    v.get(key).and_then(|f| f.as_str()).map(|s| s.to_string())
}

fn song(v: &Value) -> Song {
    let none = Value::Null;
    let attributes = v.get("attributes").unwrap_or(&none);
    let play_params = attributes.get("playParams").unwrap_or(&none);
    Song {
        id: text(v, "id").expect("a song has an id"),
        name: text(attributes, "name"),
        artist_name: text(attributes, "artistName"),
        album_name: text(attributes, "albumName"),
        duration_in_millis: attributes.get("durationInMillis").and_then(|f| f.as_u64()),
        isrc: text(attributes, "isrc"),
        url: text(attributes, "url"),
        catalog_id: text(play_params, "catalogId"),
    }
}

fn song_from(json: &str) -> Song {
    song(&serde_json::from_str(json).expect("valid song json"))
}

fn playlist(v: &Value) -> LibraryPlaylist {
    let none = Value::Null;
    let attributes = v.get("attributes").unwrap_or(&none);
    LibraryPlaylist {
        id: text(v, "id").expect("a playlist has an id"),
        name: text(attributes, "name"),
        can_edit: attributes.get("canEdit").and_then(|f| f.as_bool()),
    }
}

fn playlist_from(json: &str) -> LibraryPlaylist {
    playlist(&serde_json::from_str(json).expect("valid playlist json"))
}

/// The playlists a response body lists, when it can be read.
fn listed(body: &str) -> Option<Vec<LibraryPlaylist>> {
    let v: Value = serde_json::from_str(body).ok()?;
    let data = v.get("data")?.as_array()?;
    Some(data.iter().map(playlist).collect())
}

fn storefronts(body: &str) -> Vec<Storefront> {
    let v: Value = serde_json::from_str(body).unwrap();
    let none = Value::Null;
    v.get("data")
        .and_then(|d| d.as_array())
        .unwrap()
        .iter()
        .map(|s| Storefront {
            id: text(s, "id").unwrap(),
            name: text(s.get("attributes").unwrap_or(&none), "name"),
        })
        .collect()
}

#[test]
fn catalogue_song_maps_onto_the_shared_track_type() {
    let song = song_from(
        r#"{
              "id": "1440857781",
              "type": "songs",
              "attributes": {
                "name": "Keep Up",
                "artistName": "Adam Beyer, Argy, Alok",
                "albumName": "Keep Up - Single",
                "durationInMillis": 241000,
                "isrc": "SE5V42200001",
                "url": "https://music.apple.com/us/album/keep-up/1440857781"
              }
            }"#,
    );

    let track = song.into_track();
    assert_eq!(track.id, "1440857781");
    assert_eq!(track.uri, "1440857781", "the id is what an add request takes");
    assert_eq!(track.name, "Keep Up");
    assert_eq!(track.duration_ms, 241_000);
    assert_eq!(track.isrc.as_deref(), Some("SE5V42200001"));
    assert_eq!(
        track.artists,
        vec!["Adam Beyer", "Argy", "Alok"],
        "one artistName string has to become a list for token comparison"
    );
    assert!(
        track.popularity.is_none(),
        "Apple publishes no popularity; 0 would read as 'known to be unpopular'"
    );
}

#[test]
fn library_song_prefers_its_catalogue_id() {
    // A library song's own id (i.xxx) cannot be added to a playlist; the
    // catalogue id inside playParams can.
    let song = song_from(
        r#"{
              "id": "i.abc123",
              "type": "library-songs",
              "attributes": {
                "name": "Your Mind",
                "artistName": "Adam Beyer & Bart Skils",
                "durationInMillis": 502000,
                "playParams": { "id": "i.abc123", "catalogId": "1500000001" }
              }
            }"#,
    );

    let entry = song.into_entry();
    assert_eq!(entry.uri, "1500000001");
    assert_eq!(entry.duration_ms, 502_000);
    assert_eq!(entry.artists, vec!["Adam Beyer", "Bart Skils"]);
}

#[test]
fn a_song_missing_every_attribute_still_parses() {
    // Apple omits fields freely. Failing to parse would lose a whole page
    // of results over one incomplete row.
    let song = song_from(r#"{ "id": "123", "type": "songs" }"#);
    let track = song.into_track();
    assert_eq!(track.id, "123");
    assert_eq!(track.duration_ms, 0);
    assert!(track.name.is_empty());
}

#[test]
fn playlists_that_refuse_writes_are_not_sync_targets() {
    let editable =
        playlist_from(r#"{ "id": "p.1", "attributes": { "name": "Mine", "canEdit": true } }"#);
    let catalogue =
        playlist_from(r#"{ "id": "p.2", "attributes": { "name": "Apple's", "canEdit": false } }"#);
    let unknown = playlist_from(r#"{ "id": "p.3", "attributes": { "name": "No flag" } }"#);

    assert!(editable.is_writable());
    assert!(!catalogue.is_writable(), "adding here would 403 at push time");
    assert!(unknown.is_writable(), "a missing flag must not hide every playlist");

    let targets = sync_targets(vec![editable, catalogue, unknown]);
    let ids: Vec<&str> = targets.iter().map(|p| p.id.as_str()).collect();
    assert_eq!(ids, vec!["p.1", "p.3"]);
    assert!(targets[0].is_writable_by("anyone"));
}

#[test]
fn playlist_reports_unknown_rather_than_guessing() {
    let mapped = playlist_from(r#"{ "id": "p.1", "attributes": { "name": "New Downloads" } }"#)
        .into_playlist();
    assert_eq!(mapped.name, "New Downloads");
    assert!(mapped.public.is_none(), "Apple has no public/private flag");
    assert!(mapped.track_count().is_none(), "no count means no count");
}

#[test]
fn library_pages_chain_through_next() {
    let page: Value = serde_json::from_str(
        r#"{ "data": [{ "id": "1" }], "next": "/v1/me/library/playlists?offset=100" }"#,
    )
    .unwrap();
    assert_eq!(page.get("data").and_then(|d| d.as_array()).unwrap().len(), 1);
    let next = text(&page, "next");
    assert_eq!(
        next.as_deref(),
        Some("/v1/me/library/playlists?offset=100"),
        "next is a path, so the base URL has to be prepended"
    );
    assert_eq!(
        next_page(next).as_deref(),
        Some("https://api.music.apple.com/v1/me/library/playlists?offset=100")
    );

    let last: Value = serde_json::from_str(r#"{ "data": [] }"#).unwrap();
    assert!(next_page(text(&last, "next")).is_none());
}

#[test]
fn search_terms_are_encoded() {
    assert_eq!(urlencode("Above & Beyond"), "Above+%26+Beyond");
    assert_eq!(urlencode("Tomorrow's Dream"), "Tomorrow%27s+Dream");
    assert_eq!(urlencode("Caf\u{e9}"), "Caf%C3%A9");
    assert_eq!(urlencode("plain"), "plain");
}

#[test]
fn rfc3339_parses_to_unix_seconds() {
    // Checked against known epoch values.
    assert_eq!(rfc3339_to_unix("1970-01-01T00:00:00Z"), Some(0));
    assert_eq!(rfc3339_to_unix("2000-01-01T00:00:00Z"), Some(946_684_800));
    assert_eq!(rfc3339_to_unix("2026-09-16T12:00:00Z"), Some(1_789_560_000));
    assert_eq!(
        rfc3339_to_unix("2026-09-16T12:00:00.123Z"),
        Some(1_789_560_000),
        "a fractional second must not break it"
    );
}

#[test]
fn unparseable_or_past_expiry_falls_back() {
    assert!(parse_rfc3339_secs_from_now("not a date").is_none());
    assert!(parse_rfc3339_secs_from_now("").is_none());
    assert!(
        parse_rfc3339_secs_from_now("2000-01-01T00:00:00Z").is_none(),
        "an expiry in the past must not be treated as a lifetime"
    );
}

#[test]
fn failures_name_the_actual_fix() {
    let forbidden = describe_failure(403, "{}");
    assert!(
        forbidden.contains("subscription"),
        "403 is nearly always a missing Apple Music subscription: {forbidden}"
    );
    // Catalogue search works without one, which is why this is worth saying.
    assert!(forbidden.contains("library"));

    assert!(describe_failure(401, "{}").contains("developer token"));
    assert!(describe_failure(404, "{}").contains("deleted"));
    assert!(describe_failure(500, "boom").contains("boom"));
}

#[test]
fn out_of_credits_says_spotify_still_works() {
    // The whole point of the free tier is that running out of Apple credits
    // does not brick the app.
    let message = OutOfCredits.message();
    assert!(message.contains("Spotify is unaffected"), "{message}");
}

#[test]
fn a_storefront_carries_its_display_name() {
    // current_user reads both the id and the name off one document. Before,
    // it fetched the same document twice on every push.
    let found = storefronts(
        r#"{"data":[{"id":"mx","type":"storefronts","attributes":{"name":"Mexico"}}]}"#,
    );
    let user = storefront_user(found.into_iter().next().unwrap());
    assert_eq!(user.id, "mx");
    assert_eq!(user.display_name.as_deref(), Some("Mexico"));
}

#[test]
fn a_storefront_without_attributes_still_identifies_the_account() {
    let found = storefronts(r#"{"data":[{"id":"us","type":"storefronts"}]}"#);
    let user = storefront_user(found.into_iter().next().unwrap());
    assert_eq!(user.id, "us");
    assert!(user.display_name.is_none());
}

#[test]
fn an_empty_create_response_is_not_a_failure() {
    // Apple applies library writes asynchronously and answers with an
    // empty body. Treating that as a parse error — "expected value at line
    // 1 column 1" — failed a push whose playlist had in fact been created.
    assert!(created_playlist("", listed("")).is_none());
    assert!(created_playlist("   \n ", listed("   \n ")).is_none());
    // Not JSON at all is the same situation, not a reason to give up.
    assert!(created_playlist("Accepted", listed("Accepted")).is_none());
}

#[test]
fn a_create_response_with_the_playlist_is_used_directly() {
    let body = r#"{"data":[{"id":"p.abc","type":"library-playlists",
                "attributes":{"name":"New Downloads 2026-09-17","canEdit":true}}]}"#;
    let created =
        created_playlist(body, listed(body)).expect("a populated response should parse");
    assert_eq!(created.id, "p.abc");
    assert_eq!(created.name, "New Downloads 2026-09-17");
}

#[test]
fn a_response_with_an_empty_data_array_falls_back_too() {
    let body = r#"{"data":[]}"#;
    assert!(created_playlist(body, listed(body)).is_none());
}

#[test]
fn apple_is_hosted_and_metered() {
    let info = PlatformInfo::apple_music();
    assert!(matches!(info.credentials, CredentialModel::Hosted));
    assert!(info.metered, "Apple is what the paid tier sells");
}

#[test]
fn every_platform_is_listed() {
    let ids: Vec<&str> = all_platforms().iter().map(|p| p.id).collect();
    assert_eq!(ids, vec!["spotify", "apple_music"]);
    assert!(!PlatformInfo::spotify().metered);
}

#[test]
fn several_songs_map_in_order() {
    let two = || vec![song_from(r#"{ "id": "1" }"#), song_from(r#"{ "id": "2" }"#)];
    let tracks = tracks_of(two());
    assert_eq!(tracks[0].id, "1");
    assert_eq!(tracks[1].id, "2");
    let entries = entries_of(two());
    assert_eq!(entries[1].uri, "2");
    assert_eq!(entries[1].artists, vec![""]);
}

#[test]
fn artist_strings_become_lists() {
    assert_eq!(split_artist_name("A & B"), vec!["A", "B"]);
    assert_eq!(split_artist_name(""), vec![""]);
}

#[test]
fn a_developer_token_is_kept_for_an_hour_at_most() {
    assert_eq!(cache_seconds(None), 3540);
    assert_eq!(cache_seconds(Some(100_000)), 3540);
    assert_eq!(cache_seconds(Some(600)), 540);
    assert_eq!(cache_seconds(Some(60)), 0);
    assert_eq!(cache_seconds(Some(1)), 0);
    assert_eq!(developer_token_lifetime(&None), 3540);
    assert_eq!(developer_token_lifetime(&Some("nonsense".into())), 3540);
    assert_eq!(developer_token_lifetime(&Some("9999-01-01T00:00:00Z".into())), 3540);
}

#[test]
fn a_refused_developer_token_says_what_to_do() {
    assert!(token_refusal(200, "200 OK", "{}").is_none());
    assert!(matches!(
        token_refusal(402, "402 Payment Required", ""),
        Some(TokenRefusal::OutOfCredits(_))
    ));
    match token_refusal(401, "401 Unauthorized", "") {
        Some(TokenRefusal::Failed(m)) => assert!(m.contains("Re-enter it")),
        other => panic!("{other:?}"),
    }
    match token_refusal(500, "500 Internal Server Error", "boom") {
        Some(TokenRefusal::Failed(m)) => assert_eq!(
            m,
            "Could not get a developer token (500 Internal Server Error): boom"
        ),
        other => panic!("{other:?}"),
    }
}

#[test]
fn apple_requests_are_repeated_three_times() {
    assert_eq!(api_retries().max_retries, 3);
    assert!(!api_retries().renews_token);
}

#[test]
fn addresses_are_scoped_to_the_storefront() {
    assert_eq!(
        search_url("gb", "Above & Beyond", 99),
        "https://api.music.apple.com/v1/catalog/gb/search?term=Above+%26+Beyond&types=songs&limit=25"
    );
    assert_eq!(
        isrc_url("us", "DE-1"),
        "https://api.music.apple.com/v1/catalog/us/songs?filter[isrc]=DE-1"
    );
}

#[test]
fn the_plain_query_names_artist_and_title() {
    let tags = RawTags {
        artist: Some("Adam Beyer & Argy".into()),
        title: Some("Grey (Extended Mix)".into()),
        album: None,
        isrc: None,
        integer_bpm: None,
        bpm: None,
        musical_key: None,
        duration_ms: 0,
        file_size: 0,
    };
    let local = LocalTrack::from_tags("/a".into(), "a".into(), tags);
    assert_eq!(plain_query(&local), "Adam Beyer Grey");
}

#[test]
fn playlists_are_found_by_name_whatever_its_case() {
    let lists = sync_targets(vec![
        playlist_from(r#"{ "id": "p.1", "attributes": { "name": "Gym" } }"#),
        playlist_from(r#"{ "id": "p.2", "attributes": { "name": "NEW downloads" } }"#),
        playlist_from(r#"{ "id": "p.3", "attributes": { "name": "New Downloads" } }"#),
    ]);
    assert_eq!(playlist_named(&lists, "new DOWNLOADS"), Some(1));
    assert_eq!(playlist_named(&lists, "other"), None);
}

#[test]
fn a_new_playlist_is_looked_for_four_times() {
    for attempt in 0..3 {
        assert_eq!(next_lookup(attempt, false), LookupNext::Wait { ms: 700 });
    }
    assert_eq!(next_lookup(3, false), LookupNext::GiveUp);
    assert_eq!(next_lookup(u32::MAX, false), LookupNext::GiveUp);
    assert_eq!(next_lookup(0, true), LookupNext::Found);
    assert_eq!(next_lookup(3, true), LookupNext::Found);
}

#[test]
fn calendar_arithmetic_handles_leap_years() {
    assert_eq!(rfc3339_to_unix("2000-02-29T00:00:00Z"), Some(951_782_400));
    assert_eq!(rfc3339_to_unix("2000-03-01T00:00:00Z"), Some(951_868_800));
    assert_eq!(rfc3339_to_unix("1900-03-01T00:00:00Z"), Some(-2_203_891_200));
    assert_eq!(rfc3339_to_unix("1969-12-31T23:59:59Z"), Some(-1));
    assert_eq!(rfc3339_to_unix("0000-01-01T00:00:00Z"), Some(-62_167_219_200));
}

#[test]
fn timestamps_that_cannot_be_read_are_refused() {
    assert_eq!(rfc3339_to_unix("2026-13-01T00:00:00Z"), None);
    assert_eq!(rfc3339_to_unix("2026-00-01T00:00:00Z"), None);
    assert_eq!(rfc3339_to_unix("2026-01-32T00:00:00Z"), None);
    assert_eq!(rfc3339_to_unix("2026-01-01T00:00"), None);
    assert_eq!(rfc3339_to_unix("2026-01-01T0é:00:00Z"), None);
    assert_eq!(rfc3339_to_unix("20+6-01-01T00:00:00Z"), None);
    assert_eq!(rfc3339_to_unix("1970-01-01T+0:00:01Z"), None);
    assert_eq!(rfc3339_to_unix("-970-01-01T00:00:01Z"), None);
    assert_eq!(rfc3339_to_unix("1970-01-01T00:00:01Z"), Some(1));
    for wrong in [
        "1970x01-01T00:00:01Z",
        "1970-01x01T00:00:01Z",
        "1970-01-01 00:00:01Z",
        "1970-01-01t00:00:01Z",
        "1970-01-01T00x00:01Z",
        "1970-01-01T00:00x01Z",
        "1970x01x01x00x00x01",
    ] {
        assert_eq!(rfc3339_to_unix(wrong), None);
    }
}

#[test]
fn only_utc_is_accepted() {
    assert_eq!(rfc3339_to_unix("2026-09-16T12:00:00+02:00"), None);
    assert_eq!(rfc3339_to_unix("2026-09-16T12:00:00-00:00"), None);
    assert_eq!(rfc3339_to_unix("2026-09-16T12:00:00.5+02:00"), None);
    assert_eq!(rfc3339_to_unix("2026-09-16T12:00:00ZZ"), None);
    assert_eq!(rfc3339_to_unix("2026-09-16T12:00:00 Z"), None);
    assert_eq!(rfc3339_to_unix("2026-09-16T12:00:00."), None);
    assert_eq!(rfc3339_to_unix("2026-09-16T12:00:00.Z"), None);
    assert_eq!(rfc3339_to_unix("2026-09-16T12:00:00.1x2Z"), None);
    assert_eq!(rfc3339_to_unix("2026-09-16T12:00:00é"), None);
    assert_eq!(rfc3339_to_unix("2026-09-16T12:00:00"), Some(1_789_560_000));
    assert_eq!(rfc3339_to_unix("2026-09-16T12:00:00.987654321"), Some(1_789_560_000));
    assert_eq!(seconds_until("2026-09-16T12:00:00+02:00", 0), None);
}

#[test]
fn a_developer_token_is_kept_by_the_clock() {
    let at = |t: &str| Some(t.to_string());
    assert_eq!(developer_token_lifetime_by(&at("1970-01-01T00:10:00Z"), Some(100)), 440);
    assert_eq!(developer_token_lifetime_by(&at("1970-01-01T00:10:00Z"), Some(550)), 0);
    assert_eq!(developer_token_lifetime_by(&at("1970-01-01T00:10:00Z"), Some(600)), 3_540);
    assert_eq!(developer_token_lifetime_by(&at("1970-01-02T00:00:00Z"), Some(0)), 3_540);
    assert_eq!(developer_token_lifetime_by(&at("1970-01-01T00:10:00+01:00"), Some(0)), 3_540);
    assert_eq!(developer_token_lifetime_by(&at("1970-01-01T00:10:00Z"), None), 3_540);
    assert_eq!(developer_token_lifetime_by(&None, Some(0)), 3_540);
}

#[test]
fn the_time_left_is_counted_from_now() {
    assert_eq!(seconds_until("1970-01-01T00:01:00Z", 20), Some(40));
    assert_eq!(seconds_until("1970-01-01T00:01:00Z", 60), None);
    assert_eq!(seconds_until("1969-12-31T23:59:59Z", 0), None);
    assert_eq!(seconds_until("2026-09-16T12:00:00Z", u64::MAX), None);
}
