use djls_core::matcher::{
    code_outcome, compare_mixes, decide, duration_score, evaluate, mix_score, same_recording_meta,
    score_candidate, text_outcome, weigh, Candidate, MatchMethod, Score, ShorterVersionPolicy,
    Thresholds, Verdict,
};
use djls_core::normalize::parse_title;
use djls_core::spotify::SpotifyTrack;
use djls_core::tags::LocalTrack;
use djls_core::unit::ONE;

fn local(artist: &str, title: &str, duration_ms: u64, isrc: Option<&str>) -> LocalTrack {
    LocalTrack {
        path: "/tmp/x.aiff".into(),
        file_name: "x.aiff".into(),
        artist: artist.into(),
        title: title.into(),
        album: None,
        isrc: isrc.map(|s| s.to_string()),
        bpm: None,
        musical_key: None,
        duration_ms,
        file_size: 0,
        parsed: parse_title(title),
    }
}

fn remote(artist: &str, title: &str, duration_ms: u64) -> SpotifyTrack {
    SpotifyTrack {
        id: format!("id-{title}"),
        uri: "spotify:track:x".into(),
        name: title.into(),
        artists: vec![artist.into()],
        album: "Album".into(),
        duration_ms,
        isrc: None,
        url: None,
        popularity: None,
    }
}

fn with_policy(shorter_version: ShorterVersionPolicy) -> Thresholds {
    Thresholds { shorter_version, ..Thresholds::default() }
}

#[test]
fn radio_edit_does_not_win_against_an_extended_mix() {
    let track = local("Kolsch", "Grey (Extended Mix)", 6 * 60 * 1000, None);
    let radio = remote("Kolsch", "Grey (Radio Edit)", 3 * 60 * 1000);
    let extended = remote("Kolsch", "Grey (Extended Mix)", 6 * 60 * 1000 + 1500);

    let out = evaluate(&track, &[], &[radio, extended], Thresholds::default());
    assert_eq!(out.verdict, Verdict::Auto);
    assert_eq!(out.best().unwrap().track.name, "Grey (Extended Mix)");
}

#[test]
fn a_different_remixer_is_rejected_outright() {
    let track = local("Kolsch", "Grey (Adam Beyer Remix)", 400_000, None);
    let wrong = remote("Kolsch", "Grey (Charlotte de Witte Remix)", 400_000);

    let out = evaluate(&track, &[], &[wrong], Thresholds::default());
    assert_eq!(out.verdict, Verdict::NoMatch);
}

#[test]
fn unlabelled_candidate_with_matching_duration_is_the_same_recording() {
    // Spotify often lists the extended cut with no descriptor at all. The
    // missing label costs some mix score, but a duration inside 2s settles it.
    let track = local("Kolsch", "Grey (Extended Mix)", 400_000, None);
    let bare = remote("Kolsch", "Grey", 400_500);

    let out = evaluate(&track, &[], &[bare], Thresholds::default());
    assert_eq!(out.verdict, Verdict::Auto);
}

#[test]
fn unlabelled_candidate_at_radio_length_goes_to_review() {
    // Same title and artist, but only the short cut is on the platform.
    // This is the case duration scoring exists to catch.
    let track = local("Kolsch", "Grey (Extended Mix)", 400_000, None);
    let short = remote("Kolsch", "Grey", 200_000);

    let out = evaluate(&track, &[], &[short], Thresholds::default());
    assert_eq!(out.verdict, Verdict::Review);
}

#[test]
fn isrc_wins_immediately() {
    let track = local("Kolsch", "Grey (Extended Mix)", 400_000, Some("DEUM71900123"));
    let mut hit = remote("Kolsch", "Grey - Extended Mix", 401_000);
    hit.isrc = Some("DEUM71900123".into());

    let out = evaluate(&track, &[hit], &[], Thresholds::default());
    assert_eq!(out.verdict, Verdict::Auto);
    assert_eq!(out.method, MatchMethod::Isrc);
    assert_eq!(out.confidence(), ONE);
}

#[test]
fn mistagged_isrc_with_wild_duration_goes_to_review() {
    let track = local("Kolsch", "Grey (Extended Mix)", 400_000, Some("DEUM71900123"));
    let mut hit = remote("Someone Else", "Different Song", 120_000);
    hit.isrc = Some("DEUM71900123".into());

    let out = evaluate(&track, &[hit], &[], Thresholds::default());
    assert_eq!(out.verdict, Verdict::Review);
}

#[test]
fn near_duplicate_listings_auto_push_instead_of_review() {
    // The same single, indexed once on its own and once on a compilation.
    // Neither is wrong, so there is nothing to send to review.
    let track = local("Dennis Cruz", "Get Freaky", 360_000, None);
    let single = remote("Dennis Cruz", "Get Freaky", 360_000);
    let mut compilation = remote("Dennis Cruz", "Get Freaky", 360_200);
    compilation.album = "House Compilation Vol. 4".into();

    let out = evaluate(&track, &[], &[single, compilation], Thresholds::default());
    assert_eq!(out.verdict, Verdict::Auto);
}

#[test]
fn genuinely_different_length_candidates_still_go_to_review_when_close() {
    // Same title, same artist, but the durations disagree by enough that
    // these are plausibly two different cuts — the ambiguity is real.
    let track = local("Dennis Cruz", "Get Freaky", 360_000, None);
    let a = remote("Dennis Cruz", "Get Freaky", 360_000);
    let b = remote("Dennis Cruz", "Get Freaky", 365_000);

    let out = evaluate(&track, &[], &[a, b], Thresholds::default());
    assert_eq!(out.verdict, Verdict::Review);
    assert_eq!(out.reason, "two candidates within the ambiguity margin");
}

#[test]
fn unrelated_track_is_no_match() {
    let track = local("Kolsch", "Grey (Extended Mix)", 400_000, None);
    let junk = remote("Taylor Swift", "Blank Space", 231_000);

    let out = evaluate(&track, &[], &[junk], Thresholds::default());
    assert_eq!(out.verdict, Verdict::NoMatch);
    assert_eq!(out.method, MatchMethod::Unmatched);
}

#[test]
fn no_candidates_is_no_match() {
    let track = local("Kolsch", "Grey", 400_000, None);
    let out = evaluate(&track, &[], &[], Thresholds::default());
    assert_eq!(out.verdict, Verdict::NoMatch);
    assert_eq!(out.reason, "no candidates returned");
    assert!(out.best().is_none());
    assert_eq!(out.confidence(), 0);
}

#[test]
fn the_best_three_candidates_are_kept_best_first() {
    let track = local("Kolsch", "Grey", 400_000, None);
    let hits = [
        remote("Kolsch", "Grey (Dub)", 300_000),
        remote("Kolsch", "Grey", 408_000),
        remote("Kolsch", "Grey", 400_000),
        remote("Kolsch", "Grey", 440_000),
    ];
    let out = evaluate(&track, &[], &hits, Thresholds::default());
    assert_eq!(out.candidates.len(), 3);
    assert_eq!(out.candidates[0].track.duration_ms, 400_000);
    assert_eq!(out.candidates[1].track.duration_ms, 408_000);
    assert!(out.candidates[0].score.total >= out.candidates[1].score.total);
    assert!(out.candidates[1].score.total >= out.candidates[2].score.total);
}

#[test]
fn equal_candidates_keep_their_order() {
    let track = local("Kolsch", "Grey", 400_000, None);
    let mut first = remote("Kolsch", "Grey", 400_000);
    first.id = "first".into();
    let mut second = remote("Kolsch", "Grey", 400_000);
    second.id = "second".into();
    let out = evaluate(&track, &[], &[first, second], Thresholds::default());
    assert_eq!(out.candidates[0].track.id, "first");
}

#[test]
fn the_hit_that_carries_the_code_is_preferred() {
    let track = local("Kolsch", "Grey", 400_000, Some("AA"));
    let plain = remote("Kolsch", "Other", 400_000);
    let mut coded = remote("Kolsch", "Grey", 400_000);
    coded.isrc = Some("AA".into());
    let out = evaluate(&track, &[plain, coded], &[], Thresholds::default());
    assert_eq!(out.best().unwrap().track.name, "Grey");
    assert_eq!(out.reason, "exact isrc");

    let fallback = remote("Kolsch", "Other", 400_000);
    let out = evaluate(&track, &[fallback], &[], Thresholds::default());
    assert_eq!(out.best().unwrap().track.name, "Other");
}

#[test]
fn an_implausible_code_hit_says_by_how_much() {
    let track = local("Kolsch", "Grey", 400_000, Some("AA"));
    let hit = remote("Kolsch", "Grey", 369_000);
    let out = evaluate(&track, &[hit], &[], Thresholds::default());
    assert_eq!(out.verdict, Verdict::Review);
    assert_eq!(out.confidence(), 750_000_000);
    let notes = &out.best().unwrap().score.notes;
    assert_eq!(notes.last().unwrap(), "ISRC matched but duration differs by 31s — verify");
}

#[test]
fn duration_steps_fall_at_the_stated_lengths() {
    assert_eq!(duration_score(100_000, 102_000), (1_000_000_000, -2_000));
    assert_eq!(duration_score(105_000, 100_000), (880_000_000, 5_000));
    assert_eq!(duration_score(110_000, 100_000), (650_000_000, 10_000));
    assert_eq!(duration_score(130_000, 100_000), (350_000_000, 30_000));
    assert_eq!(duration_score(130_001, 100_000), (50_000_000, 30_001));
    assert_eq!(duration_score(0, 100_000), (600_000_000, -100_000));
    assert_eq!(duration_score(u64::MAX, 0), (600_000_000, i64::MAX));
}

#[test]
fn the_four_signals_are_weighted() {
    // 0.32 + 0.30 + 0.24 + 0.14 * 0.5
    let s = weigh(ONE, ONE, ONE, 0, Some(500_000_000), None);
    assert_eq!(s.total, 930_000_000);
    assert!(s.notes.is_empty());
    // Half for the wrong artist, half again for the wrong title.
    let s = weigh(0, 0, ONE, 61_000, Some(ONE), Some("why".into()));
    assert_eq!(s.total, 95_000_000);
    assert_eq!(
        s.notes,
        vec!["why", "artist mismatch", "title mismatch", "duration differs by 61s"]
    );
    assert_eq!(weigh(ONE, ONE, ONE, 0, None, None).total, 0);
}

#[test]
fn mix_agreement_covers_every_pairing() {
    let cases = [
        ("A (Bob Remix)", "A (Bob Remix)", Some(1_000_000_000), None),
        ("A (Bob Remix)", "A (Club Remix)", Some(350_000_000), Some("candidate is a derivative but does not name 'bob'")),
        ("A (Bob Remix)", "A", Some(100_000_000), Some("local is a 'bob' version, candidate is not a remix")),
        ("A", "A (Bob Remix)", Some(100_000_000), Some("candidate is a 'bob' remix, local is not")),
        ("A (Extended Mix)", "A (Extended Mix)", Some(1_000_000_000), None),
        ("A (Extended Mix)", "A (Radio Edit)", Some(100_000_000), Some("local is long-form, candidate is a radio edit")),
        ("A (Radio Edit)", "A (Club Mix)", Some(100_000_000), Some("local is a radio edit, candidate is long-form")),
        ("A (Extended Mix)", "A", Some(500_000_000), Some("candidate is unlabelled — duration decides")),
        ("A", "A (Extended Mix)", Some(500_000_000), Some("candidate is labelled extended, local is not")),
        ("A", "A (Original Mix)", Some(950_000_000), None),
        ("A", "A (VIP)", Some(200_000_000), Some("one side is a derivative version")),
        ("A (Dub)", "A (Instrumental)", Some(600_000_000), None),
    ];
    for (l, r, share, note) in cases {
        let mut notes = Vec::new();
        let found = mix_score(&parse_title(l), &parse_title(r), &mut notes);
        assert_eq!(found, share, "{l} / {r}");
        assert_eq!(notes.first().map(|n| n.as_str()), note, "{l} / {r}");
    }
}

#[test]
fn remixers_below_the_similarity_bar_are_two_remixers() {
    let l = parse_title("A (Bob Remix)");
    let r = parse_title("A (Rob Remix)");
    let (share, note) = compare_mixes(&l, &r, 799_999_999);
    assert_eq!(share, None);
    assert_eq!(note.unwrap(), "different remixer: 'bob' vs 'rob'");
    assert_eq!(compare_mixes(&l, &r, 800_000_000), (Some(ONE), None));
}

#[test]
fn a_shorter_cut_follows_the_policy() {
    let track = local("Kolsch", "Grey (Extended Mix)", 400_000, None);
    let verdict = |policy| {
        let out = evaluate(&track, &[], &[remote("Kolsch", "Grey", 200_000)], with_policy(policy));
        (out.verdict, out.reason)
    };
    assert_eq!(
        verdict(ShorterVersionPolicy::Review),
        (Verdict::Review, "candidate is unlabelled — duration decides".to_string())
    );
    assert_eq!(
        verdict(ShorterVersionPolicy::Accept),
        (Verdict::Auto, "shorter version accepted".to_string())
    );
    assert_eq!(
        verdict(ShorterVersionPolicy::Reject),
        (Verdict::NoMatch, "only a shorter version is available".to_string())
    );
}

#[test]
fn the_shorter_policy_never_rescues_a_doubtful_identity() {
    let track = local("Kolsch", "Grey (Adam Beyer Remix)", 400_000, None);
    let wrong = remote("Kolsch", "Grey (Charlotte de Witte Remix)", 200_000);
    let out = evaluate(&track, &[], &[wrong], with_policy(ShorterVersionPolicy::Accept));
    assert_eq!(out.verdict, Verdict::NoMatch);

    let track = local("Kolsch", "Grey (Extended Mix)", 400_000, None);
    let other = remote("Somebody", "Grey", 200_000);
    let out = evaluate(&track, &[], &[other], with_policy(ShorterVersionPolicy::Accept));
    assert_ne!(out.verdict, Verdict::Auto);

    // A longer candidate is no shorter cut.
    let longer = remote("Kolsch", "Grey", 460_000);
    let out = evaluate(&track, &[], &[longer], with_policy(ShorterVersionPolicy::Accept));
    assert_eq!(out.verdict, Verdict::Review);
}

#[test]
fn a_shorter_cut_is_at_least_twenty_seconds_shorter() {
    let best = weigh(ONE, ONE, 350_000_000, 20_000, Some(ONE), None);
    let accept = with_policy(ShorterVersionPolicy::Accept);
    let candidates = |ms| vec![Candidate { track: remote("K", "G", ms), score: weigh(ONE, ONE, 350_000_000, 0, Some(ONE), None) }];
    assert_eq!(text_outcome(120_000, candidates(100_000), false, accept).verdict, Verdict::Auto);
    assert_eq!(text_outcome(119_999, candidates(100_000), false, accept).verdict, Verdict::Review);
    assert_eq!(decide(&best, None, true, accept).0, Verdict::Auto);
    assert_eq!(decide(&best, Some((best.total, false)), true, accept).0, Verdict::Review);
}

#[test]
fn a_decision_names_its_reason() {
    let t = Thresholds::default();
    let exact = weigh(ONE, ONE, ONE, 0, Some(ONE), None);
    assert_eq!(decide(&exact, None, false, t), (Verdict::Auto, "exact match".to_string()));
    let fuzzy = weigh(900_000_000, ONE, ONE, 0, Some(ONE), None);
    assert_eq!(decide(&fuzzy, None, false, t), (Verdict::Auto, "fuzzy match".to_string()));
    let unclear = weigh(ONE, ONE, 650_000_000, 0, Some(ONE), None);
    assert_eq!(decide(&unclear, None, false, t), (Verdict::Review, "below auto threshold".to_string()));
    let poor = weigh(600_000_000, 700_000_000, 50_000_000, 0, Some(0), None);
    assert_eq!(decide(&poor, None, false, t), (Verdict::NoMatch, "no plausible candidate".to_string()));
    // The runner-up within the margin, unless it is the same recording.
    assert_eq!(decide(&exact, Some((ONE - 49_999_999, false)), false, t).0, Verdict::Review);
    assert_eq!(decide(&exact, Some((ONE - 50_000_000, false)), false, t).0, Verdict::Auto);
    assert_eq!(decide(&exact, Some((ONE, true)), false, t).0, Verdict::Auto);
}

#[test]
fn a_code_hit_needs_a_plausible_length() {
    let score = |delta| Score {
        total: 0,
        artist: 0,
        title: 0,
        duration: 0,
        mix: 0,
        duration_delta_ms: delta,
        notes: Vec::new(),
    };
    let t = Thresholds::default();
    assert_eq!(code_outcome(score(30_000), remote("K", "G", 1), t).verdict, Verdict::Auto);
    assert_eq!(code_outcome(score(-30_000), remote("K", "G", 1), t).verdict, Verdict::Auto);
    assert_eq!(code_outcome(score(-30_001), remote("K", "G", 1), t).verdict, Verdict::Review);
    assert_eq!(code_outcome(score(i64::MIN), remote("K", "G", 1), t).verdict, Verdict::Review);
}

#[test]
fn scoring_reads_the_guests_out_of_the_title() {
    let track = local("Kolsch", "Grey (feat. Nia)", 400_000, None);
    let mut hit = remote("Kolsch", "Grey", 400_000);
    hit.artists.push("Nia".into());
    let s = score_candidate(&track, &hit);
    assert_eq!(s.artist, ONE);
    assert_eq!(s.title, ONE);
    assert_eq!(s.total, ONE);
}

#[test]
fn recordings_are_compared_by_what_they_say() {
    assert!(same_recording_meta("Kolsch", "Grey", 400_000, "Kölsch", "Grey", 403_000));
    assert!(!same_recording_meta("Kolsch", "Grey", 400_000, "Kolsch", "Grey", 403_001));
    assert!(!same_recording_meta("Kolsch", "Grey", 400_000, "Taylor Swift", "Grey", 400_000));
    assert!(!same_recording_meta("Kolsch", "Grey", 400_000, "Kolsch", "Blue", 400_000));
    assert!(!same_recording_meta("K", "Grey (A Remix)", 400_000, "K", "Grey (Bob Remix)", 400_000));
}

#[test]
fn recordings_of_two_versions_are_two() {
    let same = |a: &str, b: &str| same_recording_meta("Kolsch", a, 400_000, "Kolsch", b, 401_000);
    // The label is often left out, and the length then tells the cut.
    assert!(same("Grey", "Grey (Extended Mix)"));
    assert!(same("Grey - Radio Edit", "Grey"));
    assert!(same("Grey (Original Mix)", "Grey (Club Mix)"));
    assert!(same("Grey (Original Mix)", "Grey"));
    assert!(same("Grey (Instrumental)", "Grey - Instrumental"));
    assert!(same("Grey (Adam Beyer Remix)", "Grey - Adam Beyer Remix"));
    // A vocal and an instrumental of one length are two recordings.
    assert!(!same("Grey", "Grey (Instrumental)"));
    assert!(!same("Grey (Extended Mix)", "Grey (Dub)"));
    assert!(!same("Grey (Extended Mix)", "Grey (Radio Edit)"));
    assert!(!same("Grey (Extended Mix)", "Grey (Club Mix)"));
    assert!(!same("Grey", "Grey (Adam Beyer Remix)"));
}

#[test]
fn verdicts_and_methods_have_names() {
    assert_eq!(Verdict::Auto.as_str(), "auto");
    assert_eq!(Verdict::Review.as_str(), "review");
    assert_eq!(Verdict::NoMatch.as_str(), "no_match");
    assert_eq!(MatchMethod::Isrc.as_str(), "isrc");
    assert_eq!(MatchMethod::Exact.as_str(), "exact");
    assert_eq!(MatchMethod::Fuzzy.as_str(), "fuzzy");
    assert_eq!(MatchMethod::Unmatched.as_str(), "none");
}

#[test]
fn ties_keep_the_order_of_the_platform() {
    let track = local("Kolsch", "Grey", 400_000, None);
    let mut hits = Vec::new();
    for (id, length) in [("a", 480_000), ("b", 400_000), ("c", 480_000), ("d", 400_000), ("e", 480_000)] {
        let mut hit = remote("Kolsch", "Grey", length);
        hit.id = id.into();
        hits.push(hit);
    }
    let out = evaluate(&track, &[], &hits, Thresholds::default());
    let ids: Vec<&str> = out.candidates.iter().map(|c| c.track.id.as_str()).collect();
    assert_eq!(ids, vec!["b", "d", "a"]);
}
