use std::time::{SystemTime, UNIX_EPOCH};

use djls_core::apple::rfc3339_to_unix;
use djls_core::clock::seconds_or_zero;
use djls_core::licence::{
    answer_apple_request, connect_url, describe_service_error, detail_of, endpoint,
    explain_service_error, extract_error, parse_apple_callback, read_apple_callback, refresh_due,
    refresh_plan, service_url, urlencode, ActivationResponse, ConnectError, ConnectStep, Refresh,
    StoredLicence,
};
use djls_core::timestamp::seconds_until_by;

fn licence_expiring_in(secs: i64) -> StoredLicence {
    let now = SystemTime::now().duration_since(UNIX_EPOCH).unwrap().as_secs() as i64;
    StoredLicence {
        key: Some("DJLS-AAAA-BBBB-CCCC-DDDD".into()),
        token: "jwt".into(),
        expires_at: unix_to_rfc3339(now + secs),
        plan: "pack".into(),
    }
}

/// Minimal inverse of `rfc3339_to_unix`, for building fixtures.
fn unix_to_rfc3339(ts: i64) -> String {
    let days = ts.div_euclid(86_400);
    let rem = ts.rem_euclid(86_400);
    let (h, mi, s) = (rem / 3600, (rem % 3600) / 60, rem % 60);

    let z = days + 719_468;
    let era = if z >= 0 { z } else { z - 146_096 } / 146_097;
    let doe = z - era * 146_097;
    let yoe = (doe - doe / 1460 + doe / 36524 - doe / 146_096) / 365;
    let y = yoe + era * 400;
    let doy = doe - (365 * yoe + yoe / 4 - yoe / 100);
    let mp = (5 * doy + 2) / 153;
    let d = doy - (153 * mp + 2) / 5 + 1;
    let m = if mp < 10 { mp + 3 } else { mp - 9 };
    let y = if m <= 2 { y + 1 } else { y };
    format!("{y:04}-{m:02}-{d:02}T{h:02}:{mi:02}:{s:02}Z")
}

#[test]
fn a_fresh_token_is_left_alone() {
    let licence = licence_expiring_in(6 * 24 * 3600);
    assert!(!licence.is_expired());
    assert!(!licence.needs_refresh());
}

#[test]
fn a_token_about_to_expire_is_refreshed_early() {
    // Refreshing only once it has died would strand a sync mid-run.
    let licence = licence_expiring_in(2 * 3600);
    assert!(!licence.is_expired());
    assert!(licence.needs_refresh());
}

#[test]
fn an_expired_token_needs_refresh() {
    let licence = licence_expiring_in(-60);
    assert!(licence.is_expired());
    assert!(licence.needs_refresh());
    assert_eq!(licence.seconds_remaining(), None);
}

#[test]
fn an_unparseable_expiry_is_treated_as_expired() {
    // Better to ask for a fresh token than to trust a value we cannot read.
    let licence = StoredLicence {
        key: None,
        token: "jwt".into(),
        expires_at: "who knows".into(),
        plan: "trial".into(),
    };
    assert!(licence.is_expired());
    assert!(licence.needs_refresh());
}

#[test]
fn a_trial_is_distinguishable_from_a_purchase() {
    let trial = StoredLicence {
        key: None,
        token: "jwt".into(),
        expires_at: "2030-01-01T00:00:00Z".into(),
        plan: "trial".into(),
    };
    assert!(trial.is_trial());
    assert!(!licence_expiring_in(3600).is_trial());
}

#[test]
fn service_errors_name_the_fix() {
    assert!(describe_service_error(402, "{}").contains("checked out"));
    assert!(describe_service_error(403, "{}").contains("Resubscribe"));
    assert!(describe_service_error(404, "{}").contains("typos"));
    assert!(describe_service_error(409, "{}").contains("Deactivate"));
    // An outage must not read as the whole app being broken.
    assert!(describe_service_error(503, "{}").contains("Spotify sync is unaffected"));
}

#[test]
fn the_service_error_message_is_preferred_over_the_raw_body() {
    let described = describe_service_error(400, r#"{"error":"deviceId is required"}"#);
    assert!(described.contains("deviceId is required"), "{described}");
    assert!(!described.contains('{'), "the JSON should not leak through");
}

#[test]
fn the_apple_redirect_must_carry_the_state_we_sent() {
    let token = parse_apple_callback("/callback?music_user_token=abc123&state=xyz", "xyz");
    assert_eq!(token.unwrap(), "abc123");

    // Anything able to reach the loopback port could otherwise hand us a
    // token of its choosing.
    assert!(parse_apple_callback("/callback?music_user_token=evil&state=other", "xyz").is_err());
    assert!(parse_apple_callback("/callback?music_user_token=abc", "xyz").is_err());
}

#[test]
fn a_redirect_without_a_token_is_an_error_not_an_empty_string() {
    assert!(parse_apple_callback("/callback?state=xyz", "xyz").is_err());
    assert!(parse_apple_callback("/callback?error=denied&state=xyz", "xyz").is_err());
}

#[test]
fn the_fixture_helper_round_trips() {
    // Guards the tests above: a broken fixture would make them meaningless.
    for ts in [0i64, 946_684_800, 1_789_560_000] {
        assert_eq!(rfc3339_to_unix(&unix_to_rfc3339(ts)), Some(ts));
    }
}

#[test]
fn every_day_of_four_centuries_round_trips() {
    let mut ts = -11_676_096_000i64;
    while ts < 946_684_800 {
        assert_eq!(rfc3339_to_unix(&unix_to_rfc3339(ts)), Some(ts));
        ts += 86_400;
    }
}

#[test]
fn the_refresh_window_is_a_day() {
    let licence = StoredLicence {
        key: None,
        token: "jwt".into(),
        expires_at: "1970-01-03T00:00:00Z".into(),
        plan: "trial".into(),
    };
    assert_eq!(licence.seconds_remaining_at(0), Some(172_800));
    assert!(!licence.needs_refresh_at(86_400));
    assert!(licence.needs_refresh_at(86_401));
    assert!(!licence.is_expired_at(172_799));
    assert!(licence.is_expired_at(172_800));
}

#[test]
fn a_refresh_goes_the_way_the_licence_came() {
    let paid = licence_expiring_in(0);
    match refresh_plan(&paid, true) {
        Refresh::Activate(key) => assert_eq!(key, "DJLS-AAAA-BBBB-CCCC-DDDD"),
        other => panic!("{other:?}"),
    }
    assert!(matches!(refresh_plan(&paid, false), Refresh::NotNeeded));
    let mut trial = licence_expiring_in(0);
    trial.key = None;
    assert!(matches!(refresh_plan(&trial, true), Refresh::StartTrial));
}

#[test]
fn an_activation_becomes_a_licence() {
    let response = ActivationResponse {
        token: "t".into(),
        expires_at: "e".into(),
        plan: "pack".into(),
    };
    let licence = response.into_licence(Some("KEY".into()));
    assert_eq!(licence.key.as_deref(), Some("KEY"));
    assert_eq!(licence.token, "t");
    assert_eq!(licence.clone().plan, "pack");
}

#[test]
fn the_rest_of_the_service_errors() {
    assert_eq!(explain_service_error(400, "d"), "The service rejected the request: d");
    assert!(explain_service_error(401, "d").contains("no longer valid"));
    assert_eq!(
        explain_service_error(409, "3 of 3."),
        "That licence is already active on all of its devices. 3 of 3. Deactivate one before adding this machine."
    );
    assert_eq!(explain_service_error(500, "boom"), "The service returned 500: boom");
    assert_eq!(describe_service_error(500, "  plain text \n"), "The service returned 500: plain text");
    assert_eq!(detail_of(None, " x "), "x");
    assert_eq!(detail_of(Some("m".into()), " x "), "m");
}

#[test]
fn the_error_is_pulled_out_of_json_only() {
    assert_eq!(extract_error(r#"{"error":"why"}"#).as_deref(), Some("why"));
    assert_eq!(extract_error(r#"{"error":7}"#), None);
    assert_eq!(extract_error(r#"["error"]"#), None);
    assert_eq!(extract_error("not json"), None);
}

#[test]
fn endpoints_are_joined_with_one_slash() {
    assert_eq!(endpoint("https://x.test//", "/api/trial"), "https://x.test/api/trial");
    assert_eq!(endpoint("https://x.test", "api/usage"), "https://x.test/api/usage");
    assert_eq!(service_url(None), "https://dj-library-sync-service.onrender.com");
    assert_eq!(service_url(Some("http://local".into())), "http://local");
}

#[test]
fn the_connect_page_carries_token_state_and_port() {
    assert_eq!(
        connect_url("https://x.test/", "a b", "s&t", 8889),
        "https://x.test/auth/apple?token=a%20b&state=s%26t&port=8889"
    );
    assert_eq!(urlencode("a b"), "a%20b");
}

#[test]
fn errors_of_connecting_are_put_in_words() {
    let pair = |k: &str, v: &str| (k.to_string(), v.to_string());
    let err = read_apple_callback(&vec![pair("error", "denied")], "s").unwrap_err();
    assert_eq!(err.message(), "Apple Music sign-in failed: denied");
    let err = read_apple_callback(&vec![pair("state", "t")], "s").unwrap_err();
    assert!(err.message().contains("state mismatch"));
    let err = read_apple_callback(&vec![pair("state", "s")], "s").unwrap_err();
    assert!(matches!(err, ConnectError::NoToken));
    assert_eq!(err.message(), "the redirect carried no Music User Token");
    let err = parse_apple_callback(":nine", "s").unwrap_err();
    assert_eq!(err.message(), "parsing redirect URL");
}

#[test]
fn the_apple_listener_waits_for_the_redirect() {
    let asked = |line: &str| answer_apple_request(line, "xyz");
    assert!(matches!(asked("GET /favicon.ico HTTP/1.1\r\n"), ConnectStep::Ignore));
    assert!(matches!(asked(""), ConnectStep::Ignore));
    match asked("GET /callback?music_user_token=a%2Bb&state=xyz HTTP/1.1\r\n") {
        ConnectStep::Finish(Ok(token)) => assert_eq!(token, "a+b"),
        other => panic!("{other:?}"),
    }
    assert!(matches!(
        asked("GET /callback?music_user_token=evil&state=other HTTP/1.1\r\n"),
        ConnectStep::Finish(Err(ConnectError::StateMismatch))
    ));
    assert!(matches!(
        asked("GET /callback?state=xyz HTTP/1.1\r\n"),
        ConnectStep::Finish(Err(ConnectError::NoToken))
    ));
}

#[test]
fn a_clock_without_a_reading_leaves_no_time() {
    assert_eq!(seconds_or_zero(Some(7)), 7);
    assert_eq!(seconds_or_zero(None), 0);
    assert_eq!(seconds_until_by("1970-01-02T00:00:00Z", Some(400)), Some(86_000));
    assert_eq!(seconds_until_by("1970-01-02T00:00:00Z", Some(86_400)), None);
    assert_eq!(seconds_until_by("1970-01-02T00:00:00Z", None), None);
}

#[test]
fn a_refresh_is_due_within_the_last_day() {
    assert!(refresh_due(None));
    assert!(refresh_due(Some(86_399)));
    assert!(!refresh_due(Some(86_400)));
}

#[test]
fn an_expiry_at_the_start_of_time_is_past_whatever_the_clock_says() {
    let licence = StoredLicence {
        key: None,
        token: "t".into(),
        expires_at: "1970-01-01T00:00:00Z".into(),
        plan: "trial".into(),
    };
    assert!(licence.is_expired());
    assert!(licence.needs_refresh());
}
