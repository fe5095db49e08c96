use djls_core::db::StoredMatch;
use djls_core::matcher::{weigh, Candidate, MatchMethod, MatchOutcome, Verdict};
use djls_core::normalize::parse_title;
use djls_core::report::{
    by_frequency, csv_record, decimals_text, percent_text, rate_text, scan_counts, summarize, tally,
    truncate, whole_rate_text, Concluded, MatchRun, Row, CSV_HEADER,
};
use djls_core::spotify::SpotifyTrack;
use djls_core::tags::LocalTrack;
use djls_core::unit::ONE;

fn local(title: &str, isrc: Option<&str>) -> LocalTrack {
    LocalTrack {
        path: "/m/a.aiff".into(),
        file_name: "a.aiff".into(),
        artist: "Kolsch".into(),
        title: title.into(),
        album: None,
        isrc: isrc.map(|s| s.to_string()),
        bpm: None,
        musical_key: None,
        duration_ms: 400_000,
        file_size: 1,
        parsed: parse_title(title),
    }
}

fn candidate(name: &str, delta: i64) -> Candidate {
    Candidate {
        track: SpotifyTrack {
            id: "1".into(),
            uri: "spotify:track:1".into(),
            name: name.into(),
            artists: vec!["Kolsch".into(), "Nia".into()],
            album: "".into(),
            duration_ms: 401_000,
            isrc: None,
            url: Some("https://x".into()),
            popularity: None,
        },
        score: weigh(ONE, 920_000_000, 880_000_000, delta, Some(500_000_000), None),
    }
}

fn row(
    verdict: Verdict,
    method: MatchMethod,
    reason: &str,
    isrc: Option<&str>,
    error: Option<&str>,
) -> Row {
    Row {
        track: local("Grey", isrc),
        outcome: MatchOutcome { verdict, method, candidates: Vec::new(), reason: reason.into() },
        search_error: error.map(|e| e.to_string()),
    }
}

#[test]
fn a_summary_leaves_failed_searches_out() {
    let rows = vec![
        row(Verdict::Auto, MatchMethod::Isrc, "", Some("X"), None),
        row(Verdict::Auto, MatchMethod::Exact, "", Some("Y"), None),
        row(Verdict::Review, MatchMethod::Fuzzy, "", None, None),
        row(Verdict::NoMatch, MatchMethod::Unmatched, "b", None, None),
        row(Verdict::NoMatch, MatchMethod::Unmatched, "c", None, None),
        row(Verdict::NoMatch, MatchMethod::Unmatched, "c", None, None),
        row(Verdict::NoMatch, MatchMethod::Unmatched, "z", Some("Z"), Some("timeout")),
        row(Verdict::NoMatch, MatchMethod::Unmatched, "z", None, Some("refused")),
    ];
    let s = summarize(&rows);
    assert_eq!((s.total, s.failed), (6, 2));
    assert_eq!((s.auto, s.review, s.miss), (2, 1, 3));
    assert_eq!((s.by_isrc, s.by_exact, s.by_fuzzy), (1, 1, 1));
    assert_eq!((s.isrc_tagged, s.isrc_resolved), (2, 1));
    let reasons: Vec<(&str, usize)> =
        s.miss_reasons.iter().map(|t| (t.text.as_str(), t.count)).collect();
    assert_eq!(reasons, vec![("c", 2), ("b", 1)]);
    let errors: Vec<(&str, usize)> =
        s.search_errors.iter().map(|t| (t.text.as_str(), t.count)).collect();
    assert_eq!(errors, vec![("refused", 1), ("timeout", 1)]);
}

#[test]
fn tallies_are_in_dictionary_order_and_frequencies_are_stable() {
    let texts: Vec<String> = ["b", "a", "c", "a", "c"].iter().map(|s| s.to_string()).collect();
    let t = tally(&texts);
    let pairs: Vec<(&str, usize)> = t.iter().map(|t| (t.text.as_str(), t.count)).collect();
    assert_eq!(pairs, vec![("a", 2), ("b", 1), ("c", 2)]);
    let f = by_frequency(t);
    let pairs: Vec<&str> = f.iter().map(|t| t.text.as_str()).collect();
    assert_eq!(pairs, vec!["a", "c", "b"]);
}

#[test]
fn a_record_has_a_field_for_every_column() {
    let r = Row {
        track: local("Grey (Extended Mix)", Some("X1")),
        outcome: MatchOutcome {
            verdict: Verdict::Review,
            method: MatchMethod::Fuzzy,
            candidates: vec![candidate("Grey", -1_999), candidate("Grey 2", 61_000)],
            reason: "why".into(),
        },
        search_error: None,
    };
    let fields = csv_record(&r);
    assert_eq!(fields.len(), CSV_HEADER.len());
    assert_eq!(
        fields,
        vec![
            "a.aiff",
            "Kolsch",
            "Grey",
            "extended",
            "6:40",
            "X1",
            "review",
            "fuzzy",
            "88",
            "Kolsch, Nia",
            "Grey",
            "6:41",
            "-1",
            "https://x",
            "spotify:track:1",
            "1.00",
            "0.92",
            "0.88",
            "0.50",
            "Kolsch, Nia - Grey 2 [6:41] (88%)",
            "",
            "why",
        ]
    );
}

#[test]
fn a_record_without_a_candidate_is_blank_there() {
    let fields = csv_record(&row(Verdict::NoMatch, MatchMethod::Unmatched, "none", None, Some("e")));
    assert_eq!(fields.len(), 22);
    assert!(fields[9..20].iter().all(|f| f.is_empty()));
    assert_eq!(fields[8], "0");
    assert_eq!(fields[20], "e");
    assert_eq!(fields[21], "none");
}

#[test]
fn notes_are_joined() {
    let mut r = row(Verdict::Review, MatchMethod::Fuzzy, "why", None, None);
    let mut c = candidate("Grey", i64::MIN);
    c.score.notes = vec!["a".into(), "b".into()];
    r.outcome.candidates.push(c);
    let fields = csv_record(&r);
    assert_eq!(fields[21], "a; b");
    assert_eq!(fields[12], "-9223372036854775");
}

#[test]
fn shares_are_rounded_as_numbers_are_printed() {
    assert_eq!(percent_text(875_000_000), "88");
    assert_eq!(percent_text(865_000_000), "86");
    assert_eq!(percent_text(ONE), "100");
    assert_eq!(percent_text(0), "0");
    assert_eq!(decimals_text(125_000_000), "0.12");
    assert_eq!(decimals_text(865_000_000), "0.87");
    assert_eq!(decimals_text(885_000_000), "0.88");
    assert_eq!(decimals_text(999_999_999), "1.00");
    assert_eq!(decimals_text(50_000_000), "0.05");
    for thousandths in 0u64..=1000 {
        let share: f32 = (thousandths as f64 / 1000.0) as f32;
        assert_eq!(percent_text(thousandths * 1_000_000), format!("{:.0}", share * 100.0));
        assert_eq!(decimals_text(thousandths * 1_000_000), format!("{:.2}", share));
    }
    let largest: f32 = (u64::MAX as f64 / 1e9) as f32;
    assert_eq!(decimals_text(u64::MAX), format!("{:.2}", largest));
    assert_eq!(percent_text(u64::MAX), format!("{:.0}", largest * 100.0));
    assert_eq!(percent_text(1), "0");
}

#[test]
fn rates_are_percentages() {
    assert_eq!(rate_text(15, 27), "55.6");
    assert_eq!(rate_text(1, 2000), "0.1");
    assert_eq!(rate_text(1, 16), "6.2");
    assert_eq!(rate_text(0, 0), "0.0");
    assert_eq!(rate_text(3, 3), "100.0");
    assert_eq!(whole_rate_text(15, 27), "56");
    assert_eq!(whole_rate_text(1, 8), "12");
    assert_eq!(whole_rate_text(7, 0), "0");
    for total in [1usize, 7, 27, 200, 400, 2000, 4000, 123_457] {
        for part in 0usize..=400 {
            let percent: f64 = part as f64 * 100.0 / total as f64;
            assert_eq!(rate_text(part, total), format!("{:.1}", percent));
            assert_eq!(whole_rate_text(part, total), format!("{:.0}", percent));
        }
    }
    let largest: f64 = usize::MAX as f64 * 100.0;
    assert_eq!(rate_text(usize::MAX, 1), format!("{:.1}", largest));
    assert_eq!(rate_text(usize::MAX - 1, usize::MAX), "100.0");
    assert_eq!(rate_text(1, usize::MAX), "0.0");
}

#[test]
fn long_texts_are_cut_with_an_ellipsis() {
    assert_eq!(truncate("abc", 3), "abc");
    assert_eq!(truncate("abcd", 3), "ab…");
    assert_eq!(truncate("ééé", 2), "é…");
    assert_eq!(truncate("a", 0), "…");
    assert_eq!(truncate("", 0), "");
}

#[test]
fn a_scan_counts_codes_and_versions() {
    let tracks = vec![
        local("Grey (Extended Mix)", Some("X")),
        local("Grey", None),
        local("Grey (Dub)", None),
    ];
    assert_eq!(scan_counts(&tracks), (1, 2));
}

fn miss() -> MatchOutcome {
    MatchOutcome {
        verdict: Verdict::NoMatch,
        method: MatchMethod::Unmatched,
        candidates: Vec::new(),
        reason: "nothing".into(),
    }
}

#[test]
fn a_run_remembers_answers_and_forgets_failures() {
    let mut run = MatchRun::new();
    let known = StoredMatch {
        platform_uri: None,
        platform_name: None,
        platform_artists: None,
        platform_duration_ms: None,
        confidence: 0,
        method: "fuzzy".into(),
        verdict: Verdict::Review,
        reason: "close".into(),
    };
    run.reuse(local("Grey", None), &known);
    assert!(matches!(run.conclude(local("Grey", None), miss(), None), Concluded::Remember));
    let failed = run.conclude(local("Grey", None), miss(), Some("timeout".into()));
    assert!(matches!(failed, Concluded::Forget));
    assert_eq!((run.attempts, run.failed, run.reused), (3, 1, 1));
    assert_eq!(run.rows[0].outcome.reason, "close (from cache)");
    assert_eq!(run.rows[0].outcome.verdict, Verdict::Review);
    assert_eq!(run.rows[2].search_error.as_deref(), Some("timeout"));
}

#[test]
fn a_run_that_keeps_failing_is_given_up() {
    let mut run = MatchRun::new();
    for _ in 0..3 {
        let r = run.conclude(local("Grey", None), miss(), Some("timeout".into()));
        assert!(matches!(r, Concluded::Forget));
    }
    assert!(matches!(run.conclude(local("Grey", None), miss(), None), Concluded::Remember));
    match run.conclude(local("Grey", None), miss(), None) {
        Concluded::Abort(why) => assert_eq!(
            why,
            "Aborting: 3 of the first 5 searches failed, so any match rate from this run would be \
             meaningless.\n\nLast error: timeout"
        ),
        other => panic!("expected the run to be given up, got {other:?}"),
    }
    assert_eq!(run.rows.len(), 4);
}
