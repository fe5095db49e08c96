use djls_core::tags::{
    artist_title_from_filename, by_file_name, is_audio_file, is_readable_track, is_temp_file,
    LocalTrack, RawTags, AUDIO_EXTENSIONS, TEMP_EXTENSIONS,
};

/// The last component of a path.
fn name(path: &str) -> &str {
    path.rsplit('/').next().unwrap()
}

fn untagged() -> RawTags {
    RawTags {
        artist: None,
        title: None,
        album: None,
        isrc: None,
        integer_bpm: None,
        bpm: None,
        musical_key: None,
        duration_ms: 400_000,
        file_size: 7,
    }
}

fn read(file_name: &str, tags: RawTags) -> LocalTrack {
    LocalTrack::from_tags(format!("/music/{file_name}"), file_name.to_string(), tags)
}

#[test]
fn temp_downloads_are_ignored() {
    assert!(is_temp_file(name("/x/track.mp3.crdownload")));
    assert!(is_temp_file(name("/x/.hidden.mp3")));
    assert!(!is_temp_file(name("/x/track.mp3")));
}

#[test]
fn filename_fallback_splits_on_dash() {
    let (a, t) = artist_title_from_filename("Kolsch - Grey (Extended Mix).aiff");
    assert_eq!(a, "Kolsch");
    assert_eq!(t, "Grey (Extended Mix)");
}

#[test]
fn every_listed_extension_counts_whatever_its_case() {
    for e in AUDIO_EXTENSIONS {
        assert!(is_audio_file(&format!("a.{e}")));
        assert!(is_audio_file(&format!("a.b.{}", e.to_uppercase())));
    }
    for e in TEMP_EXTENSIONS {
        assert!(is_temp_file(&format!("a.mp3.{}", e.to_uppercase())));
    }
    assert!(!is_audio_file("mp3"));
    assert!(!is_audio_file(".mp3"));
    assert!(!is_audio_file("a.mp3."));
    assert!(!is_audio_file("a.txt"));
    assert!(is_temp_file("~lock.mp3"));
}

#[test]
fn only_complete_audio_is_read() {
    assert!(is_readable_track("a.flac"));
    assert!(!is_readable_track("a.flac.part"));
    assert!(!is_readable_track(".a.flac"));
    assert!(!is_readable_track("cover.jpg"));
}

#[test]
fn an_untagged_file_is_named_by_its_file_name() {
    let t = read("Kolsch - Grey (Extended Mix).aiff", untagged());
    assert_eq!(t.artist, "Kolsch");
    assert_eq!(t.title, "Grey (Extended Mix)");
    assert_eq!(t.parsed.base, "Grey");
    let t = read("white label 7.wav", untagged());
    assert_eq!(t.artist, "");
    assert_eq!(t.title, "white label 7");
    assert_eq!(artist_title_from_filename("noext"), (String::new(), "noext".to_string()));
}

#[test]
fn blank_tags_do_not_count_and_codes_are_tidied() {
    let mut tags = untagged();
    tags.artist = Some("  ".into());
    tags.title = Some(" Grey ".into());
    tags.album = Some("\t".into());
    tags.isrc = Some(" deum71900123 ".into());
    tags.bpm = Some("128".into());
    tags.musical_key = Some("  ".into());
    let t = read("Kolsch - X.mp3", tags);
    assert_eq!(t.artist, "Kolsch");
    assert_eq!(t.title, " Grey ");
    assert_eq!(t.album, None);
    assert_eq!(t.isrc.as_deref(), Some("DEUM71900123"));
    assert_eq!(t.bpm.as_deref(), Some("128"));
    assert_eq!(t.musical_key, None);
    assert_eq!(t.duration_ms, 400_000);
    assert_eq!(t.file_size, 7);
}

#[test]
fn the_whole_number_tempo_wins_even_when_blank() {
    let mut tags = untagged();
    tags.integer_bpm = Some("126".into());
    tags.bpm = Some("126.02".into());
    assert_eq!(read("a.mp3", tags).bpm.as_deref(), Some("126"));
    let mut tags = untagged();
    tags.integer_bpm = Some(" ".into());
    tags.bpm = Some("126.02".into());
    assert_eq!(read("a.mp3", tags).bpm, None);
}

#[test]
fn codes_are_raised_beyond_ascii_too() {
    let mut tags = untagged();
    tags.isrc = Some("stra\u{df}e".into());
    assert_eq!(read("a.mp3", tags).isrc.as_deref(), Some("STRASSE"));
}

#[test]
fn identity_prefers_the_code() {
    let mut tags = untagged();
    tags.isrc = Some("X1".into());
    assert_eq!(read("a.mp3", tags).identity_key(), "isrc:X1");
    let t = read("Kölsch - Grey (Extended Mix).aiff", untagged());
    assert_eq!(t.identity_key(), "meta:kolsch|grey|extended|80");
}

#[test]
fn identity_survives_a_move_but_not_a_new_version() {
    let a = read("Kolsch - Grey (Extended Mix).aiff", untagged());
    let b = LocalTrack::from_tags("/elsewhere/x.mp3".into(), "Kolsch - Grey (Extended Mix).mp3".into(), untagged());
    assert_eq!(a.identity_key(), b.identity_key());
    let c = read("Kolsch - Grey (Radio Edit).aiff", untagged());
    assert_ne!(a.identity_key(), c.identity_key());
}

#[test]
fn the_primary_artist_stands_first() {
    let mut t = read("Adam Beyer, Argy - Grey (feat. Nia).mp3", untagged());
    assert_eq!(t.primary_artist(), "Adam Beyer");
    assert_eq!(t.artist_field_for_matching(), "Adam Beyer, Argy Nia");
    assert_eq!(t.duration_display(), "6:40");
    t.artist = " ".into();
    assert_eq!(t.primary_artist(), " ");
}

#[test]
fn tracks_are_listed_by_file_name() {
    let sorted = by_file_name(vec![
        read("b.mp3", untagged()),
        read("B.mp3", untagged()),
        read("a.mp3", untagged()),
        LocalTrack::from_tags("/second/a.mp3".into(), "a.mp3".into(), untagged()),
        read("ä.mp3", untagged()),
    ]);
    let names: Vec<&str> = sorted.iter().map(|t| t.file_name.as_str()).collect();
    let mut expected = names.clone();
    expected.sort();
    assert_eq!(names, expected);
    assert_eq!(sorted[1].path, "/music/a.mp3");
    assert_eq!(sorted[2].path, "/second/a.mp3");
}
