//! The licence this machine holds, and the service that issues it.
//!
//! Two secrets with different jobs, mirroring the service side:
//!
//! - the **licence key** (`DJLS-…`) is what a human handles, once;
//! - the **activation token** is a short-lived JWT the machine uses for every
//!   request afterwards.
//!
//! Nothing here is required for Spotify. A user who never touches Apple Music
//! never has a licence, never has a device id on the server, and never reaches
//! this module.

use vstd::prelude::*;
use vstd::utf8::encode_utf8;

use crate::auth::{
    is_callback_path, last_value, path_of, query_of, query_pairs, request_path, value_for,
};
use crate::clock::seconds_since_epoch;
use crate::spotify::pair_views;
use crate::text::{
    chars_of, clone_opt, decimal, occurs_at, opt_view, push_decimal, same_str, string_from,
    string_of, strip_end, strip_leading, strip_start, strip_trailing, trim, trimmed,
};
use crate::timestamp::{seconds_ahead, seconds_until, seconds_until_by, unix_time};
use crate::urlencode::{encode_query, encoded};

verus! {

/// Default home of the token service. Overridable so a developer can point at
/// a local instance without rebuilding.
pub const DEFAULT_SERVICE_URL: &'static str = "https://dj-library-sync-service.onrender.com";

/// Loopback port for the Apple Music sign-in redirect. Distinct from
/// Spotify's, so connecting one while the other is mid-flight cannot collide.
pub const APPLE_CALLBACK_PORT: u16 = 8889;

/// Refresh once the token is inside this window of expiring, so a long sync
/// cannot start on a token that dies halfway through.
pub const REFRESH_WINDOW: u64 = 86_400;

/// The address of the service: what the environment says, or the default.
pub fn service_url(from_environment: Option<String>) -> (r: String)
    ensures
        r@ == match from_environment {
            Some(url) => url@,
            None => DEFAULT_SERVICE_URL@,
        },
{
    match from_environment {
        Some(url) => url,
        None => string_from(DEFAULT_SERVICE_URL),
    }
}

/// What this machine holds. `key` is absent for a trial, which has no licence.
#[derive(Debug)]
pub struct StoredLicence {
    pub key: Option<String>,
    pub token: String,
    pub expires_at: String,
    pub plan: String,
}

/// What a licence says.
#[verifier::ext_equal]
pub struct LicenceView {
    pub key: Option<Seq<char>>,
    pub token: Seq<char>,
    pub expires_at: Seq<char>,
    pub plan: Seq<char>,
}

impl View for StoredLicence {
    type V = LicenceView;

    open spec fn view(&self) -> LicenceView {
        LicenceView {
            key: opt_view(self.key),
            token: self.token@,
            expires_at: self.expires_at@,
            plan: self.plan@,
        }
    }
}

impl Clone for StoredLicence {
    fn clone(&self) -> (r: Self)
        ensures
            r@ == self@,
    {
        StoredLicence {
            key: clone_opt(&self.key),
            token: self.token.clone(),
            expires_at: self.expires_at.clone(),
            plan: self.plan.clone(),
        }
    }
}

/// Whether it is worth asking for a fresh token, with so many seconds left.
pub open spec fn wants_refresh(left: Option<u64>) -> bool {
    match left {
        None => true,
        Some(s) => s < REFRESH_WINDOW,
    }
}

/// Whether it is worth asking for a fresh token, with so many seconds left.
pub fn refresh_due(left: Option<u64>) -> (r: bool)
    ensures
        r == wants_refresh(left),
{
    match left {
        None => true,
        Some(s) => s < REFRESH_WINDOW,
    }
}

impl StoredLicence {
    pub fn is_trial(&self) -> (r: bool)
        ensures
            r == (self@.plan == "trial"@),
    {
        same_str(self.plan.as_str(), "trial")
    }

    /// Seconds from a time until the activation token expires, or `None` once
    /// it has.
    pub fn seconds_remaining_at(&self, now: u64) -> (r: Option<u64>)
        ensures
            r == seconds_ahead(self@.expires_at, now),
    {
        seconds_until(self.expires_at.as_str(), now)
    }

    /// Whether the activation token has, at a time, expired.
    pub fn is_expired_at(&self, now: u64) -> (r: bool)
        ensures
            r == (seconds_ahead(self@.expires_at, now) is None),
    {
        self.seconds_remaining_at(now).is_none()
    }

    /// Whether it is, at a time, worth asking the service for a fresh token.
    pub fn needs_refresh_at(&self, now: u64) -> (r: bool)
        ensures
            r == wants_refresh(seconds_ahead(self@.expires_at, now)),
    {
        refresh_due(self.seconds_remaining_at(now))
    }

    /// Seconds until the activation token expires, or `None` once it has. How
    /// many depends on the clock; an expiry that cannot be read is past.
    pub fn seconds_remaining(&self) -> (r: Option<u64>)
        ensures
            unix_time(encode_utf8(self@.expires_at)) is None ==> r is None,
            r matches Some(s) ==> 0 < s && unix_time(encode_utf8(self@.expires_at)) is Some && s
                <= unix_time(encode_utf8(self@.expires_at))->0,
    {
        seconds_until_by(self.expires_at.as_str(), seconds_since_epoch())
    }

    /// Whether the activation token has expired. An expiry that cannot be read
    /// counts as past: better to ask for a fresh token than to trust it. For
    /// one after the start of 1970 the clock decides.
    pub fn is_expired(&self) -> (r: bool)
        ensures
            unix_time(encode_utf8(self@.expires_at)) is None ==> r,
            unix_time(encode_utf8(self@.expires_at)) matches Some(t) ==> t <= 0 ==> r,
    {
        self.seconds_remaining().is_none()
    }

    /// Whether it is worth asking the service for a fresh token. True once
    /// expired, and true while it is about to be. For an expiry after the first
    /// day of 1970 the clock decides.
    pub fn needs_refresh(&self) -> (r: bool)
        ensures
            unix_time(encode_utf8(self@.expires_at)) is None ==> r,
            unix_time(encode_utf8(self@.expires_at)) matches Some(t) ==> t < REFRESH_WINDOW ==> r,
    {
        refresh_due(self.seconds_remaining())
    }
}

/// An expired token always needs a refresh, and one that does not need it is
/// good for a day at least.
pub proof fn law_refresh_comes_before_expiry(expires_at: Seq<char>, now: u64)
    ensures
        seconds_ahead(expires_at, now) is None ==> wants_refresh(seconds_ahead(expires_at, now)),
        !wants_refresh(seconds_ahead(expires_at, now)) ==> (seconds_ahead(expires_at, now)
            matches Some(s) && s >= 86_400),
{
}

/// What the service answers to an activation.
#[derive(Debug)]
pub struct ActivationResponse {
    pub token: String,
    pub expires_at: String,
    pub plan: String,
}

impl ActivationResponse {
    /// The licence to keep: under its key, or without one for a trial.
    pub fn into_licence(self, key: Option<String>) -> (r: StoredLicence)
        ensures
            r@ == (LicenceView {
                key: opt_view(key),
                token: self.token@,
                expires_at: self.expires_at@,
                plan: self.plan@,
            }),
    {
        StoredLicence { key, token: self.token, expires_at: self.expires_at, plan: self.plan }
    }
}

/// How to give a stored licence a fresh token.
#[derive(Debug)]
pub enum Refresh {
    /// It needs none.
    NotNeeded,
    /// Activate the key again; a known device does not take another seat.
    Activate(String),
    /// Ask for the trial again; credits are granted only the first time.
    StartTrial,
}

/// How to give a licence a fresh token, given whether it needs one.
pub fn refresh_plan(licence: &StoredLicence, needed: bool) -> (r: Refresh)
    ensures
        r is NotNeeded <==> !needed,
        needed && licence@.key is None <==> r is StartTrial,
        needed && licence@.key is Some ==> (r matches Refresh::Activate(key) && Some(key@)
            == licence@.key),
{
    if !needed {
        return Refresh::NotNeeded;
    }
    match &licence.key {
        Some(key) => Refresh::Activate(key.clone()),
        None => Refresh::StartTrial,
    }
}

/// What the service says this licence can do right now.
#[derive(Debug)]
pub struct Entitlement {
    pub credits: i64,
    pub unlimited: bool,
    pub plan: Option<String>,
}

/// The address of an endpoint of the service.
pub open spec fn endpoint_at(base: Seq<char>, path: Seq<char>) -> Seq<char> {
    strip_end(base, '/') + "/"@ + strip_start(path, '/')
}

/// The address of an endpoint of the service.
pub fn endpoint(base_url: &str, path: &str) -> (r: String)
    ensures
        r@ == endpoint_at(base_url@, path@),
{
    let base = chars_of(base_url);
    let tail = chars_of(path);
    let mut r = string_of(strip_trailing(base.as_slice(), '/'));
    r.append("/");
    r.append(string_of(strip_leading(tail.as_slice(), '/')).as_str());
    r
}

/// The text under a key of a JSON object, when the text is one and has it.
pub uninterp spec fn json_text_at(body: Seq<char>, key: Seq<char>) -> Option<Seq<char>>;

/// `serde_json::from_str` into a `Value`, and `Value::get` and `Value::as_str`
/// of it: the string under a key of a JSON object, or nothing. It depends on
/// the text and the key alone.
#[verifier::external_body]
fn json_string(body: &str, key: &str) -> (r: Option<String>)
    ensures
        opt_view(r) == json_text_at(body@, key@),
{
    let value: serde_json::Value = serde_json::from_str(body).ok()?;
    value.get(key)?.as_str().map(String::from)
}

/// Pull `error` out of a JSON body.
pub fn extract_error(body: &str) -> (r: Option<String>)
    ensures
        opt_view(r) == json_text_at(body@, "error"@),
{
    json_string(body, "error")
}

/// What an error of the service means, given its detail.
pub open spec fn service_error(status: u16, detail: Seq<char>) -> Seq<char> {
    if status == 400 {
        "The service rejected the request: "@ + detail
    } else if status == 401 {
        "This licence is no longer valid on this machine. Re-enter it in Settings."@
    } else if status == 402 {
        "This licence has not been paid for yet. If you have just checked out, give it a few seconds and try again."@
    } else if status == 403 {
        "That licence has been cancelled. Resubscribe and the same key will work again."@
    } else if status == 404 {
        "That licence key is not recognised. Check for typos, or paste it again."@
    } else if status == 409 {
        "That licence is already active on all of its devices. "@ + detail
            + " Deactivate one before adding this machine."@
    } else if status == 503 {
        "The service is temporarily unavailable. Spotify sync is unaffected."@
    } else {
        "The service returned "@ + decimal(status as nat) + ": "@ + detail
    }
}

/// What an error of the service means, given its detail.
pub fn explain_service_error(status: u16, detail: &str) -> (r: String)
    ensures
        r@ == service_error(status, detail@),
{
    if status == 400 {
        let mut r = string_from("The service rejected the request: ");
        r.append(detail);
        r
    } else if status == 401 {
        string_from("This licence is no longer valid on this machine. Re-enter it in Settings.")
    } else if status == 402 {
        string_from(
            "This licence has not been paid for yet. If you have just checked out, give it a few seconds and try again.",
        )
    } else if status == 403 {
        string_from(
            "That licence has been cancelled. Resubscribe and the same key will work again.",
        )
    } else if status == 404 {
        string_from("That licence key is not recognised. Check for typos, or paste it again.")
    } else if status == 409 {
        let mut r = string_from("That licence is already active on all of its devices. ");
        r.append(detail);
        r.append(" Deactivate one before adding this machine.");
        r
    } else if status == 503 {
        string_from("The service is temporarily unavailable. Spotify sync is unaffected.")
    } else {
        let mut r = string_from("The service returned ");
        push_decimal(&mut r, status as u64);
        r.append(": ");
        r.append(detail);
        r
    }
}

/// The detail of an error: its message, or the body as it came.
pub open spec fn error_detail(message: Option<Seq<char>>, body: Seq<char>) -> Seq<char> {
    match message {
        Some(m) => m,
        None => trimmed(body),
    }
}

/// The detail of an error: its message, or the body as it came.
pub fn detail_of(message: Option<String>, body: &str) -> (r: String)
    ensures
        r@ == error_detail(opt_view(message), body@),
{
    match message {
        Some(m) => m,
        None => {
            let chars = chars_of(body);
            string_of(trim(chars.as_slice()))
        },
    }
}

/// Turn a service status into something that names the fix. These are read by
/// people who have just paid, so vagueness is expensive.
pub fn describe_service_error(status: u16, body: &str) -> (r: String)
    ensures
        r@ == service_error(status, error_detail(json_text_at(body@, "error"@), body@)),
{
    let detail = detail_of(extract_error(body), body);
    explain_service_error(status, detail.as_str())
}

/// A value with everything escaped that needs it, spaces included.
pub fn urlencode(value: &str) -> (r: String)
    ensures
        r@ == encoded(encode_utf8(value@), false),
{
    encode_query(value, false)
}

/// The page that connects Apple Music, which sends its token back to a port on
/// this machine.
pub fn connect_url(service_url: &str, activation_token: &str, state: &str, port: u16) -> (r: String)
    ensures
        r@ == strip_end(service_url@, '/') + "/auth/apple?token="@ + encoded(
            encode_utf8(activation_token@),
            false,
        ) + "&state="@ + encoded(encode_utf8(state@), false) + "&port="@ + decimal(port as nat),
{
    let base = chars_of(service_url);
    let mut r = string_of(strip_trailing(base.as_slice(), '/'));
    r.append("/auth/apple?token=");
    r.append(urlencode(activation_token).as_str());
    r.append("&state=");
    r.append(urlencode(state).as_str());
    r.append("&port=");
    push_decimal(&mut r, port as u64);
    r
}

/// Why connecting Apple Music did not work.
#[derive(Debug)]
pub enum ConnectError {
    BadRedirect,
    Failed(String),
    StateMismatch,
    NoToken,
}

impl ConnectError {
    pub open spec fn text(self) -> Seq<char> {
        match self {
            ConnectError::BadRedirect => "parsing redirect URL"@,
            ConnectError::Failed(reason) => "Apple Music sign-in failed: "@ + reason@,
            ConnectError::StateMismatch =>
                "state mismatch on the Apple Music redirect — ignoring this response"@,
            ConnectError::NoToken => "the redirect carried no Music User Token"@,
        }
    }

    pub fn message(&self) -> (r: String)
        ensures
            r@ == self.text(),
    {
        match self {
            ConnectError::BadRedirect => string_from("parsing redirect URL"),
            ConnectError::Failed(reason) => {
                let mut r = string_from("Apple Music sign-in failed: ");
                r.append(reason.as_str());
                r
            },
            ConnectError::StateMismatch => string_from(
                "state mismatch on the Apple Music redirect — ignoring this response",
            ),
            ConnectError::NoToken => string_from("the redirect carried no Music User Token"),
        }
    }
}

/// Whether a result is what the parameters of the Apple Music redirect say: an
/// error counts first, then the state, then the token.
pub open spec fn connects(
    r: Result<String, ConnectError>,
    pairs: Seq<(Seq<char>, Seq<char>)>,
    expected_state: Seq<char>,
) -> bool {
    match last_value(pairs, "error"@) {
        Some(error) => r matches Err(ConnectError::Failed(e)) && e@ == error,
        None => if last_value(pairs, "state"@) != Some(expected_state) {
            r matches Err(e) && e is StateMismatch
        } else {
            match last_value(pairs, "music_user_token"@) {
                Some(token) => r matches Ok(t) && t@ == token,
                None => r matches Err(e) && e is NoToken,
            }
        },
    }
}

/// The Music User Token in the parameters of a redirect, rejecting a
/// mismatched `state`.
pub fn read_apple_callback(pairs: &Vec<(String, String)>, expected_state: &str) -> (r: Result<
    String,
    ConnectError,
>)
    ensures
        connects(r, pair_views(pairs@), expected_state@),
{
    if let Some(error) = value_for(pairs, "error") {
        return Err(ConnectError::Failed(error));
    }
    // Without this, anything able to reach the loopback port could hand the
    // app a token of its choosing.
    let genuine: bool = match value_for(pairs, "state") {
        Some(state) => same_str(state.as_str(), expected_state),
        None => false,
    };
    if !genuine {
        return Err(ConnectError::StateMismatch);
    }
    match value_for(pairs, "music_user_token") {
        Some(token) => Ok(token),
        None => Err(ConnectError::NoToken),
    }
}

/// Parse the Music User Token out of the loopback redirect the hosted MusicKit
/// page sends back, rejecting a mismatched `state`.
pub fn parse_apple_callback(path: &str, expected_state: &str) -> (r: Result<String, ConnectError>)
    ensures
        match query_of("http://127.0.0.1"@ + path@) {
            Some(pairs) => connects(r, pairs, expected_state@),
            None => r matches Err(e) && e is BadRedirect,
        },
{
    let mut address = string_from("http://127.0.0.1");
    address.append(path);
    match query_pairs(address.as_str()) {
        Some(pairs) => read_apple_callback(&pairs, expected_state),
        None => Err(ConnectError::BadRedirect),
    }
}

/// What to answer a request on the loopback listener.
#[derive(Debug)]
pub enum ConnectStep {
    /// Something else was asked for, such as an icon; keep listening.
    Ignore,
    /// The redirect came; this is what it says.
    Finish(Result<String, ConnectError>),
}

/// Reads a request on the loopback listener that waits for the Music User
/// Token.
pub fn answer_apple_request(request: &str, expected_state: &str) -> (r: ConnectStep)
    ensures
        r is Finish <==> occurs_at(path_of(request@), "/callback"@, 0),
        r matches ConnectStep::Finish(result) ==> match query_of(
            "http://127.0.0.1"@ + path_of(request@),
        ) {
            Some(pairs) => connects(result, pairs, expected_state@),
            None => result matches Err(e) && e is BadRedirect,
        },
{
    let path = request_path(request);
    if is_callback_path(path.as_str()) {
        ConnectStep::Finish(parse_apple_callback(path.as_str(), expected_state))
    } else {
        ConnectStep::Ignore
    }
}

/// A token is taken only from a redirect that carries the state that was sent,
/// and no error.
pub proof fn law_forged_token_is_refused(
    r: Result<String, ConnectError>,
    pairs: Seq<(Seq<char>, Seq<char>)>,
    expected_state: Seq<char>,
)
    requires
        connects(r, pairs, expected_state),
        r is Ok,
    ensures
        last_value(pairs, "state"@) == Some(expected_state),
        last_value(pairs, "error"@) is None,
{
}

} // verus!
