use djls_core::normalize::{
    blend, compare_tokens, fold_decomposed, normalize, parse_title, split_artists, text_similarity,
    token_set_similarity, tokens, MixKind,
};
use djls_core::title::{bracket_segments, classify_normalized, classify_segment};
use djls_core::unit::ONE;

fn chars(s: &str) -> Vec<char> {
    s.chars().collect()
}

#[test]
fn extended_mix_is_parsed_not_stripped() {
    let p = parse_title("Sun Rising (Extended Mix)");
    assert_eq!(p.base, "Sun Rising");
    assert_eq!(p.kind, MixKind::Extended);
    assert!(p.remixer.is_none());
}

#[test]
fn remixer_is_captured() {
    let p = parse_title("Sun Rising (Adam Beyer Remix)");
    assert_eq!(p.kind, MixKind::Remix);
    assert_eq!(p.remixer_norm.as_deref(), Some("adam beyer"));
    assert_eq!(p.base, "Sun Rising");
}

#[test]
fn possessive_extended_remix_keeps_remixer() {
    let p = parse_title("Sun Rising (Adam Beyer's Extended Remix)");
    assert_eq!(p.kind, MixKind::Remix);
    assert_eq!(p.remixer_norm.as_deref(), Some("adam beyer"));
}

#[test]
fn dash_form_is_handled() {
    let p = parse_title("Sun Rising - Extended Mix");
    assert_eq!(p.base, "Sun Rising");
    assert_eq!(p.kind, MixKind::Extended);
}

#[test]
fn radio_beats_edit() {
    assert_eq!(parse_title("Sun Rising (Radio Edit)").kind, MixKind::Radio);
}

#[test]
fn featured_artists_lift_out_of_title() {
    let p = parse_title("Sun Rising (feat. Nia) (Original Mix)");
    assert_eq!(p.base, "Sun Rising");
    assert_eq!(p.kind, MixKind::Original);
    assert_eq!(p.featured, vec!["Nia".to_string()]);
}

#[test]
fn non_version_brackets_stay_in_the_base() {
    let p = parse_title("Sun Rising (Reprise)");
    assert_eq!(p.kind, MixKind::Unlabelled);
    assert_eq!(p.base, "Sun Rising (Reprise)");
}

#[test]
fn ampersand_bands_survive_token_comparison() {
    // Local tag "Above & Beyond" vs Spotify artist array joined as "Above and Beyond".
    assert!(token_set_similarity("Above & Beyond", "Above and Beyond") > 950_000_000);
}

#[test]
fn featured_guest_does_not_tank_artist_score() {
    assert!(token_set_similarity("Kolsch feat. Nia", "Kolsch") > 850_000_000);
}

#[test]
fn diacritics_normalize() {
    assert_eq!(normalize("Sébastien Léger"), "sebastien leger");
}

#[test]
fn compatibility_forms_and_ligatures_decompose() {
    assert_eq!(normalize("ﬁne ①"), "fine 1");
}

#[test]
fn punctuation_runs_become_one_space() {
    assert_eq!(normalize("  Don’t -- Stop!! "), "don t stop");
    assert_eq!(normalize("Rock&Roll"), "rock and roll");
    assert_eq!(normalize("R & B"), "r and b");
    assert_eq!(normalize("–—"), "");
}

#[test]
fn letters_of_other_scripts_are_lowered_and_kept() {
    assert_eq!(normalize("МОСКВА"), "москва");
    assert_eq!(normalize("ÅNGSTRÖM"), "angstrom");
}

#[test]
fn folding_takes_decomposed_characters() {
    assert_eq!(fold_decomposed(&chars("e\u{301}te\u{301}  &  Hiver")), "ete and hiver");
}

#[test]
fn tokens_drop_connectives_and_repetitions() {
    assert_eq!(
        tokens("The Beatles feat. the Beatles and A Guest"),
        vec!["beatles".to_string(), "guest".to_string()]
    );
    assert!(tokens("feat. & with").is_empty());
}

#[test]
fn identical_token_sets_are_wholly_similar() {
    assert_eq!(token_set_similarity("Kolsch", "kolsch"), ONE);
    assert_eq!(token_set_similarity("Beyer Adam", "Adam Beyer"), ONE);
}

#[test]
fn texts_without_tokens_are_not_similar() {
    assert_eq!(token_set_similarity("", "Kolsch"), 0);
    assert_eq!(token_set_similarity("the", "the"), 0);
    assert_eq!(text_similarity("", "Grey"), 0);
}

#[test]
fn containment_scores_at_least_ninety_two_hundredths() {
    // Dice over {a1} and {a1, b2, c3} is 0.5; containment lifts it.
    assert!(token_set_similarity("xyz", "xyz qqq www") >= 920_000_000);
}

#[test]
fn token_comparison_is_the_largest_of_three() {
    let a = vec![chars("adam"), chars("beyer")];
    let b = vec![chars("adam"), chars("carl")];
    // Dice 2*1/4 = 0.5, no containment, 0.95 of the edit similarity.
    assert_eq!(compare_tokens(&a, &b, 0), 500_000_000);
    assert_eq!(compare_tokens(&a, &b, 800_000_000), 760_000_000);
    assert_eq!(compare_tokens(&a, &a, 0), ONE);
    assert_eq!(compare_tokens(&a, &vec![chars("adam")], 0), 920_000_000);
    assert_eq!(compare_tokens(&a, &Vec::new(), ONE), 0);
}

#[test]
fn blending_weighs_edit_distance_over_tokens() {
    assert_eq!(blend("a", "b", ONE, 0), 600_000_000);
    assert_eq!(blend("a", "b", 0, ONE), 400_000_000);
    assert_eq!(blend("a", "a", 0, 0), ONE);
    assert_eq!(blend("", "a", ONE, ONE), 0);
}

#[test]
fn edit_similarity_comes_from_jaro_winkler() {
    // Jaro-Winkler of these two is 0.961111..., and they share no token.
    let expected = strsim::jaro_winkler("martha", "marhta");
    let blended = expected * 0.6 + 0.95 * expected * 0.4;
    let found = text_similarity("Martha", "Marhta") as f64 / ONE as f64;
    assert!((found - blended).abs() < 1e-8, "{found} vs {blended}");
}

#[test]
fn artist_fields_split_at_every_separator() {
    assert_eq!(
        split_artists("Adam Beyer, Argy & Alok feat. Nia"),
        vec!["Adam Beyer", "Argy", "Alok", "Nia"]
    );
    assert_eq!(split_artists("A VS. B"), vec!["A", "B"]);
    assert!(split_artists("  ").is_empty());
}

#[test]
fn a_guest_marker_survives_letters_that_change_length_in_lower_case() {
    // U+0130 is one character that lower-cases to two.
    assert_eq!(split_artists("\u{130} feat. B"), vec!["\u{130}", "B"]);
}

#[test]
fn a_segment_of_wide_letters_is_no_guest_clause() {
    let p = parse_title("Song (Café Société)");
    assert_eq!(p.base, "Song (Café Société)");
    assert!(p.featured.is_empty());
}

#[test]
fn the_last_version_marker_decides_the_kind() {
    let p = parse_title("Grey (Original Mix) [Adam Beyer Rework]");
    assert_eq!(p.kind, MixKind::Rework);
    assert_eq!(p.mix_raw.as_deref(), Some("Adam Beyer Rework"));
    assert_eq!(p.remixer_norm.as_deref(), Some("adam beyer"));
    assert_eq!(p.base, "Grey");
}

#[test]
fn inline_guests_leave_the_title() {
    let p = parse_title("Grey FEAT. Nia & Bob (Club Mix)");
    assert_eq!(p.base, "Grey");
    assert_eq!(p.kind, MixKind::Club);
    assert_eq!(p.featured, vec!["Nia", "Bob"]);
}

#[test]
fn a_title_that_is_all_descriptor_keeps_its_text() {
    let p = parse_title("(Extended Mix)");
    assert_eq!(p.kind, MixKind::Extended);
    assert_eq!(p.base, "(Extended Mix)");
}

#[test]
fn an_unclosed_bracket_counts_as_a_segment() {
    let p = parse_title("Grey (Extended Mix");
    assert_eq!(p.kind, MixKind::Extended);
    assert_eq!(p.base, "Grey");
}

#[test]
fn nested_brackets_stay_together() {
    let (segments, rest) = bracket_segments(&chars("A (b [c] d) E"));
    assert_eq!(segments, vec![chars("b [c] d")]);
    assert_eq!(rest, chars("A  E"));
}

#[test]
fn classification_knows_every_kind() {
    let cases = [
        ("Original Mix", MixKind::Original),
        ("Extended", MixKind::Extended),
        ("Radio Edit", MixKind::Radio),
        ("Club Mix", MixKind::Club),
        ("Dub Mix", MixKind::Dub),
        ("Instrumental", MixKind::Instrumental),
        ("Acapella", MixKind::Acapella),
        ("Bob's Bootleg", MixKind::Edit),
        ("VIP", MixKind::Vip),
        ("Bob Remix", MixKind::Remix),
        ("Bob Rework", MixKind::Rework),
        ("Mix", MixKind::Original),
    ];
    for (text, kind) in cases {
        let found = classify_segment(text).map(|v| v.0);
        assert_eq!(found, Some(kind), "{text}");
    }
    assert!(classify_segment("Reprise").is_none());
    assert_eq!(classify_normalized(&chars("bob flip")).map(|v| v.0), Some(MixKind::Edit));
}

#[test]
fn descriptor_labels_name_the_remixer() {
    assert_eq!(parse_title("Grey (Adam Beyer Remix)").descriptor_label(), "adam beyer remix");
    assert_eq!(parse_title("Grey (Extended Mix)").descriptor_label(), "extended");
    assert_eq!(parse_title("Grey").descriptor_label(), "-");
}

#[test]
fn kinds_know_their_families() {
    assert_eq!(MixKind::Unlabelled.as_str(), "");
    assert_eq!(MixKind::Vip.as_str(), "vip");
    assert!(MixKind::Edit.is_derivative() && !MixKind::Dub.is_derivative());
    assert!(MixKind::Club.is_long_form() && !MixKind::Radio.is_long_form());
    assert!(MixKind::Radio.is_short_form() && !MixKind::Edit.is_short_form());
}

#[test]
fn normalizing_twice_changes_nothing() {
    for text in ["  Above & Beyond -- (Live!) ", "A&B", "&", "It's 7AM", "", "Sébastien — Léger"] {
        let once = normalize(text);
        assert_eq!(normalize(&once), once, "{text:?}");
        assert_eq!(normalize(&text.to_ascii_uppercase()), once, "{text:?}");
        assert_eq!(once.trim(), once, "{text:?}");
        assert!(!once.contains("  "), "{text:?}");
        assert!(once.chars().all(|c| c.is_alphanumeric() || c == ' '), "{text:?}");
    }
    assert_eq!(normalize("  Above & Beyond -- (Live!) "), "above and beyond live");
    assert_eq!(normalize("A&B"), "a and b");
}

#[test]
fn a_named_version_is_one_and_its_remixer_has_a_name() {
    for text in ["Remix", "Extended Mix", "Bob's Edit", "Mix", "the club remix", "Reprise", "!?"] {
        let found = classify_segment(text);
        if let Some((kind, remixer)) = &found {
            assert_ne!(*kind, MixKind::Unlabelled, "{text:?}");
            if let Some(name) = remixer {
                assert!(kind.is_derivative() && !name.is_empty(), "{text:?}");
            }
        }
        assert_eq!(classify_segment(&normalize(text)), found, "{text:?}");
    }
    assert_eq!(classify_segment("the club remix"), Some((MixKind::Remix, None)));
    assert!(classify_segment("!?").is_none());
}

#[test]
fn splitting_a_name_again_gives_it_alone() {
    let field = " A with B, C;D / E x F and G & , H Presents I feat. J ";
    let names = split_artists(field);
    assert_eq!(names, vec!["A", "B", "C", "D", "E", "F", "G", "H", "I", "J"]);
    let mut from = 0;
    for name in &names {
        assert_eq!(split_artists(name), vec![name.clone()]);
        from += field[from..].find(name.as_str()).expect("in order") + name.len();
    }
    // Every round takes one layer of dashes off.
    assert_eq!(split_artists("- -a"), vec!["-a"]);
    assert_eq!(split_artists("-a"), vec!["a"]);
}
