use std::time::{SystemTime, UNIX_EPOCH};

use djls_core::auth::{
    answer_request, authorize_params, authorize_url, basic_authorization, callback_response,
    challenge_for, exchange_form, exchange_outcome, is_callback_path, parse_callback,
    random_b64url, read_callback, refresh_form, refresh_outcome, request_path, AuthConfig,
    AuthError, CallbackStep, MemoryStore, Pkce, TokenResponse, TokenStore, Tokens,
};

fn now_unix() -> u64 {
    SystemTime::now().duration_since(UNIX_EPOCH).unwrap().as_secs()
}

fn tokens(expires_at: u64) -> Tokens {
    Tokens { access_token: "a".into(), refresh_token: "r".into(), expires_at }
}

#[test]
fn challenge_is_the_base64url_sha256_of_the_verifier() {
    // The RFC 7636 appendix B test vector.
    let verifier = "dBjftJeZ4CVP-mB92K27uhbUJU1p1r_wW1gFWFOEjXk";
    assert_eq!(challenge_for(verifier), "E9Melhoa2OwvFrEMTJguCHaoeK1t8URWbuGJSstw-cM");
}

#[test]
fn verifier_and_challenge_differ_each_time() {
    let a = Pkce::generate().unwrap();
    let b = Pkce::generate().unwrap();
    assert_ne!(a.verifier, b.verifier);
    assert_ne!(a.challenge, b.challenge);
    // Base64url must not contain characters needing escaping in a query.
    assert!(!a.challenge.contains('+') && !a.challenge.contains('/') && !a.challenge.contains('='));
}

#[test]
fn redirect_uri_uses_the_loopback_ip_not_localhost() {
    // Spotify rejects `localhost`; this must never regress.
    let config = AuthConfig::new("abc");
    assert_eq!(config.redirect_uri(), "http://127.0.0.1:8888/callback");
}

#[test]
fn authorize_url_carries_pkce_and_scopes() {
    let config = AuthConfig::new("client123");
    let url = authorize_url(&config, "chal", "st4te").unwrap();
    assert!(url.contains("code_challenge_method=S256"));
    assert!(url.contains("code_challenge=chal"));
    assert!(url.contains("state=st4te"));
    assert!(url.contains("client_id=client123"));
    assert!(url.contains("playlist-modify-private"));
    // PKCE means no secret is ever sent.
    assert!(!url.contains("client_secret"));
}

#[test]
fn callback_returns_the_code() {
    let code = parse_callback("/callback?code=abc123&state=xyz", "xyz").unwrap();
    assert_eq!(code, "abc123");
}

#[test]
fn callback_rejects_a_mismatched_state() {
    let err = parse_callback("/callback?code=abc&state=attacker", "xyz").unwrap_err();
    assert!(err.message().contains("state mismatch"));
}

#[test]
fn callback_surfaces_a_denied_consent() {
    let err = parse_callback("/callback?error=access_denied&state=xyz", "xyz").unwrap_err();
    assert!(err.message().contains("access_denied"));
}

#[test]
fn a_rotated_refresh_token_replaces_the_old_one() {
    let resp = TokenResponse {
        access_token: "new-access".into(),
        expires_in: 3600,
        refresh_token: Some("rotated".into()),
    };
    let tokens = resp.into_tokens(Some("original")).unwrap();
    assert_eq!(tokens.refresh_token, "rotated");
}

#[test]
fn an_absent_refresh_token_keeps_the_stored_one() {
    // Spotify often omits it; dropping it here is what silently breaks auth.
    let resp = TokenResponse {
        access_token: "new-access".into(),
        expires_in: 3600,
        refresh_token: None,
    };
    let tokens = resp.into_tokens(Some("original")).unwrap();
    assert_eq!(tokens.refresh_token, "original");
}

#[test]
fn expiry_is_checked_with_a_margin() {
    let tokens = Tokens {
        access_token: "a".into(),
        refresh_token: "r".into(),
        expires_at: now_unix() + 10,
    };
    assert!(tokens.is_expired(), "a token expiring in 10s must refresh early");
}

#[test]
fn memory_store_roundtrips() {
    let mut store = MemoryStore::default();
    assert!(store.load().unwrap().is_none());

    let tokens = Tokens {
        access_token: "a".into(),
        refresh_token: "r".into(),
        expires_at: now_unix() + 3600,
    };
    store.save(&tokens).unwrap();
    assert_eq!(store.load().unwrap().unwrap().access_token, "a");

    store.clear().unwrap();
    assert!(store.load().unwrap().is_none());
}

#[test]
fn no_refresh_token_at_all_is_an_error() {
    let resp = TokenResponse { access_token: "x".into(), expires_in: 1, refresh_token: None };
    let err = resp.into_tokens_at(None, 5).unwrap_err();
    assert!(matches!(err, AuthError::NoRefreshToken));
    assert_eq!(err.message(), "Spotify returned no refresh token and none was stored");
}

#[test]
fn tokens_expire_when_the_response_says() {
    let resp = |expires_in| TokenResponse {
        access_token: "x".into(),
        expires_in,
        refresh_token: Some("r".into()),
    };
    assert_eq!(resp(3600).into_tokens_at(None, 1000).unwrap().expires_at, 4600);
    assert_eq!(resp(u64::MAX).into_tokens_at(None, 1000).unwrap().expires_at, u64::MAX);
    let now = now_unix();
    let t = resp(3600).into_tokens(None).unwrap();
    assert!(t.expires_at >= now + 3600 && t.expires_at <= now + 3605);
    assert!(!t.is_expired());
}

#[test]
fn the_expiry_margin_is_thirty_seconds() {
    assert!(tokens(1030).is_expired_at(1000));
    assert!(!tokens(1031).is_expired_at(1000));
    assert!(tokens(u64::MAX).is_expired_at(u64::MAX));
    assert_eq!(tokens(1031).seconds_left(1000), 31);
    assert_eq!(tokens(1000).seconds_left(1000), 1);
}

#[test]
fn a_verifier_is_eighty_six_safe_characters() {
    let p = Pkce::generate().unwrap();
    assert_eq!(p.verifier.len(), 86);
    assert_eq!(p.challenge.len(), 43);
    assert_eq!(p.challenge, challenge_for(&p.verifier));
    assert!(p.verifier.chars().all(|c| c.is_ascii_alphanumeric() || c == '-' || c == '_'));
    let fixed = Pkce::from_bytes(&[0xfb, 0xff]);
    assert_eq!(fixed.verifier, "-_8");
}

#[test]
fn random_text_has_the_length_of_its_bytes() {
    let a = random_b64url(16).unwrap();
    assert_eq!(a.len(), 22);
    assert_ne!(a, random_b64url(16).unwrap());
    assert_eq!(random_b64url(0).unwrap(), "");
}

#[test]
fn a_client_signs_in_with_basic_authorization() {
    assert_eq!(basic_authorization("Aladdin", "open sesame"), "Basic QWxhZGRpbjpvcGVuIHNlc2FtZQ==");
}

#[test]
fn the_consent_screen_gets_every_parameter() {
    let params = authorize_params(&AuthConfig::new("id"), "c", "s");
    let keys: Vec<&str> = params.iter().map(|p| p.0.as_str()).collect();
    assert_eq!(
        keys,
        vec![
            "client_id",
            "response_type",
            "redirect_uri",
            "code_challenge_method",
            "code_challenge",
            "state",
            "scope"
        ]
    );
    assert_eq!(params[6].1, "playlist-read-private playlist-modify-public playlist-modify-private");
    let url = authorize_url(&AuthConfig::new("id"), "c", "s").unwrap();
    assert!(url.starts_with("https://accounts.spotify.com/authorize?client_id=id&"));
    assert!(url.contains("redirect_uri=http%3A%2F%2F127.0.0.1%3A8888%2Fcallback"));
}

#[test]
fn forms_carry_what_the_endpoint_wants() {
    let config = AuthConfig::new("id");
    let form = exchange_form(&config, "code", "verifier");
    assert_eq!(form[0], ("grant_type".to_string(), "authorization_code".to_string()));
    assert_eq!(form[1].1, "code");
    assert_eq!(form[2].1, "http://127.0.0.1:8888/callback");
    assert_eq!(form[3].1, "id");
    assert_eq!(form[4], ("code_verifier".to_string(), "verifier".to_string()));
    let form = refresh_form(&config, &tokens(1));
    assert_eq!(form[1], ("refresh_token".to_string(), "r".to_string()));
    assert_eq!(form.len(), 3);
}

#[test]
fn callback_values_are_decoded_and_the_last_one_counts() {
    let code = parse_callback("/callback?code=first&state=x+y%21&code=a%20b", "x y!").unwrap();
    assert_eq!(code, "a b");
}

#[test]
fn a_callback_without_a_code_is_an_error() {
    let err = parse_callback("/callback?state=xyz", "xyz").unwrap_err();
    assert!(matches!(err, AuthError::NoCode));
    let err = parse_callback("/callback", "xyz").unwrap_err();
    assert!(matches!(err, AuthError::StateMismatch));
    // A port that is no number makes the whole address unreadable.
    let err = parse_callback(":nine/callback?state=xyz", "xyz").unwrap_err();
    assert!(matches!(err, AuthError::BadRedirect));
    assert_eq!(err.message(), "parsing redirect URL");
}

#[test]
fn an_error_counts_before_the_state() {
    let pair = |k: &str, v: &str| (k.to_string(), v.to_string());
    let pairs = vec![pair("error", "denied"), pair("state", "other"), pair("code", "c")];
    match read_callback(&pairs, "xyz") {
        Err(AuthError::Denied(reason)) => assert_eq!(reason, "denied"),
        other => panic!("{other:?}"),
    }
    assert_eq!(read_callback(&vec![pair("state", "s"), pair("code", "c")], "s").unwrap(), "c");
}

#[test]
fn the_request_line_names_the_path() {
    assert_eq!(request_path("GET /callback?x=1 HTTP/1.1\r\nHost: a b c\r\n"), "/callback?x=1");
    assert_eq!(request_path(""), "/");
    assert_eq!(request_path("GET\nHost: x"), "/");
    assert!(is_callback_path("/callback?x=1"));
    assert!(!is_callback_path("/favicon.ico"));
}

fn answer(refresh_token: Option<&str>) -> Option<TokenResponse> {
    Some(TokenResponse {
        access_token: "new".into(),
        expires_in: 3600,
        refresh_token: refresh_token.map(|t| t.to_string()),
    })
}

#[test]
fn a_refused_refresh_leaves_nothing_to_store() {
    let current = tokens(10);
    let err = refresh_outcome(false, "400 Bad Request", "{}", answer(None), &current, 5)
        .unwrap_err();
    assert_eq!(
        err.message(),
        "token refresh failed (400 Bad Request): {}\nIf this persists, run `djls login` again."
    );
    let err = refresh_outcome(true, "200 OK", "<html>", None, &current, 5).unwrap_err();
    assert!(matches!(err, AuthError::BadRefreshResponse));
    assert_eq!(err.message(), "parsing refresh response");
}

#[test]
fn a_refresh_keeps_the_refresh_token_it_was_made_with() {
    let current = tokens(10);
    let kept = refresh_outcome(true, "200 OK", "", answer(None), &current, 5).unwrap();
    assert_eq!(kept.access_token, "new");
    assert_eq!(kept.refresh_token, "r");
    assert_eq!(kept.expires_at, 3605);
    let rotated = refresh_outcome(true, "200 OK", "", answer(Some("r2")), &current, 5).unwrap();
    assert_eq!(rotated.refresh_token, "r2");
}

#[test]
fn a_code_is_exchanged_for_tokens() {
    let t = exchange_outcome(true, "200 OK", "", answer(Some("r2")), 5).unwrap();
    assert_eq!((t.refresh_token.as_str(), t.expires_at), ("r2", 3605));
    let err = exchange_outcome(false, "401 Unauthorized", "no", answer(Some("r2")), 5).unwrap_err();
    assert_eq!(err.message(), "token exchange failed (401 Unauthorized): no");
    let err = exchange_outcome(true, "200 OK", "", None, 5).unwrap_err();
    assert_eq!(err.message(), "parsing token response");
    let err = exchange_outcome(true, "200 OK", "", answer(None), 5).unwrap_err();
    assert!(matches!(err, AuthError::NoRefreshToken));
}

#[test]
fn anything_but_the_redirect_is_ignored() {
    assert!(matches!(answer_request("GET /favicon.ico HTTP/1.1", "s"), CallbackStep::Ignore));
    match answer_request("GET /callback?code=c&state=s HTTP/1.1\r\n", "s") {
        CallbackStep::Finish(Ok(code)) => assert_eq!(code, "c"),
        other => panic!("{other:?}"),
    }
    assert!(matches!(
        answer_request("GET /callback?code=c&state=t HTTP/1.1\r\n", "s"),
        CallbackStep::Finish(Err(AuthError::StateMismatch))
    ));
}

#[test]
fn the_page_states_its_length() {
    for connected in [true, false] {
        let response = callback_response(connected);
        let (head, body) = response.split_once("\r\n\r\n").unwrap();
        assert!(head.starts_with("HTTP/1.1 200 OK\r\n"));
        assert!(head.contains(&format!("Content-Length: {}", body.len())));
        assert_eq!(body.contains("Connected."), connected);
        assert!(body.ends_with("</body>"));
    }
}

#[test]
fn errors_of_signing_in_are_put_in_words() {
    assert_eq!(AuthError::NoRandomness.message(), "generating random bytes");
    assert_eq!(AuthError::BadUrl.message(), "building the authorization URL");
    assert_eq!(AuthError::NoCode.message(), "redirect carried no authorization code");
}

#[test]
fn the_consent_url_reads_back_as_it_was_asked() {
    let config = AuthConfig::new("a b&c=d#e");
    let url = authorize_url(&config, "ch/all+enge", "st?ate").unwrap();
    let parsed = reqwest::Url::parse(&url).unwrap();
    let pairs: Vec<(String, String)> = parsed.query_pairs().into_owned().collect();
    assert_eq!(pairs, authorize_params(&config, "ch/all+enge", "st?ate"));
}

#[test]
fn no_form_sends_a_client_secret() {
    let config = AuthConfig::new("abc");
    let tokens =
        Tokens { access_token: "a".into(), refresh_token: "r".into(), expires_at: 0 };
    let forms = [
        authorize_params(&config, "ch", "st"),
        exchange_form(&config, "code", "verifier"),
        refresh_form(&config, &tokens),
    ];
    for form in &forms {
        assert!(form.iter().all(|(key, _)| key != "client_secret"));
        assert!(form.iter().any(|(key, value)| key == "client_id" && value == "abc"));
    }
}
