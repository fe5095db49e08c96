//! Spotify user authorization — Authorization Code flow with PKCE.
//!
//! Desktop apps cannot keep a client secret, so PKCE is the only correct
//! choice here. Two details that bite people:
//!
//! 1. Spotify rejects `localhost` as a redirect host. The loopback address
//!    must be spelled `127.0.0.1`.
//! 2. A refresh can return a *new* refresh token. It must be persisted every
//!    time or auth dies silently days later, when the old one stops working.

use base64::Engine;
use base64::engine::general_purpose::{STANDARD, URL_SAFE_NO_PAD};
use sha2::Digest;
use vstd::prelude::*;
use vstd::slice::slice_subrange;
use vstd::utf8::encode_utf8;

use crate::clock::now_unix;
use crate::spotify::pair_views;
use crate::text::{
    chars_of, decimal, find, index_of, matches_at, occurs_at, opt_view, push_decimal, same_str,
    split_words, string_from, string_of, words,
};

verus! {

pub const TOKEN_URL: &'static str = "https://accounts.spotify.com/api/token";

pub const AUTHORIZE_URL: &'static str = "https://accounts.spotify.com/authorize";

/// Only what pushing to a playlist actually needs. Asking for more than this
/// is a reason for a user to decline the consent screen.
pub const REQUIRED_SCOPES: [&'static str; 3] = [
    "playlist-read-private",
    "playlist-modify-public",
    "playlist-modify-private",
];

/// A token is renewed this many seconds before it expires.
pub const EXPIRY_MARGIN: u64 = 30;

/// Why signing in did not work.
#[derive(Debug)]
pub enum AuthError {
    /// The system gave no random bytes.
    NoRandomness,
    /// The address of the consent screen could not be made.
    BadUrl,
    /// The redirect could not be read.
    BadRedirect,
    /// The user, or the service, said no.
    Denied(String),
    /// The redirect answers somebody else's request.
    StateMismatch,
    NoCode,
    NoRefreshToken,
    /// The token endpoint refused a code.
    ExchangeFailed { status: String, body: String },
    /// The token endpoint refused a refresh token.
    RefreshFailed { status: String, body: String },
    /// The answer to a code could not be read.
    BadTokenResponse,
    /// The answer to a refresh token could not be read.
    BadRefreshResponse,
}

impl AuthError {
    pub open spec fn text(self) -> Seq<char> {
        match self {
            AuthError::NoRandomness => "generating random bytes"@,
            AuthError::BadUrl => "building the authorization URL"@,
            AuthError::BadRedirect => "parsing redirect URL"@,
            AuthError::Denied(reason) => "Spotify denied the request: "@ + reason@,
            AuthError::StateMismatch => "state mismatch on the redirect — ignoring this response"@,
            AuthError::NoCode => "redirect carried no authorization code"@,
            AuthError::NoRefreshToken =>
                "Spotify returned no refresh token and none was stored"@,
            AuthError::ExchangeFailed { status, body } => "token exchange failed ("@ + status@
                + "): "@ + body@,
            AuthError::RefreshFailed { status, body } => "token refresh failed ("@ + status@
                + "): "@ + body@ + "\nIf this persists, run `djls login` again."@,
            AuthError::BadTokenResponse => "parsing token response"@,
            AuthError::BadRefreshResponse => "parsing refresh response"@,
        }
    }

    pub fn message(&self) -> (r: String)
        ensures
            r@ == self.text(),
    {
        match self {
            AuthError::NoRandomness => string_from("generating random bytes"),
            AuthError::BadUrl => string_from("building the authorization URL"),
            AuthError::BadRedirect => string_from("parsing redirect URL"),
            AuthError::Denied(reason) => {
                let mut r = string_from("Spotify denied the request: ");
                r.append(reason.as_str());
                r
            },
            AuthError::StateMismatch => string_from(
                "state mismatch on the redirect — ignoring this response",
            ),
            AuthError::NoCode => string_from("redirect carried no authorization code"),
            AuthError::NoRefreshToken => string_from(
                "Spotify returned no refresh token and none was stored",
            ),
            AuthError::ExchangeFailed { status, body } => {
                let mut r = string_from("token exchange failed (");
                r.append(status.as_str());
                r.append("): ");
                r.append(body.as_str());
                r
            },
            AuthError::RefreshFailed { status, body } => {
                let mut r = string_from("token refresh failed (");
                r.append(status.as_str());
                r.append("): ");
                r.append(body.as_str());
                r.append("\nIf this persists, run `djls login` again.");
                r
            },
            AuthError::BadTokenResponse => string_from("parsing token response"),
            AuthError::BadRefreshResponse => string_from("parsing refresh response"),
        }
    }
}

#[derive(Debug)]
pub struct Tokens {
    pub access_token: String,
    pub refresh_token: String,
    /// Unix seconds.
    pub expires_at: u64,
}

/// What tokens say.
#[verifier::ext_equal]
pub struct TokensView {
    pub access_token: Seq<char>,
    pub refresh_token: Seq<char>,
    pub expires_at: u64,
}

impl View for Tokens {
    type V = TokensView;

    open spec fn view(&self) -> TokensView {
        TokensView {
            access_token: self.access_token@,
            refresh_token: self.refresh_token@,
            expires_at: self.expires_at,
        }
    }
}

impl Clone for Tokens {
    fn clone(&self) -> (r: Self)
        ensures
            r@ == self@,
    {
        Tokens {
            access_token: self.access_token.clone(),
            refresh_token: self.refresh_token.clone(),
            expires_at: self.expires_at,
        }
    }
}

impl Tokens {
    /// Whether the tokens are, at a time, about to expire.
    pub fn is_expired_at(&self, now: u64) -> (r: bool)
        ensures
            r == (now + EXPIRY_MARGIN >= self.expires_at),
    {
        // Refresh a little early rather than racing the expiry.
        now as u128 + EXPIRY_MARGIN as u128 >= self.expires_at as u128
    }

    /// Whether the tokens are about to expire. Which it is, past the first
    /// seconds of 1970, depends on the clock.
    pub fn is_expired(&self) -> (r: bool)
        ensures
            self.expires_at <= EXPIRY_MARGIN ==> r,
    {
        self.is_expired_at(now_unix())
    }

    /// For how many seconds, from a time on, the access token can be kept; one
    /// at least.
    pub fn seconds_left(&self, now: u64) -> (r: u64)
        ensures
            r == if self.expires_at > now {
                (self.expires_at - now) as u64
            } else {
                1
            },
    {
        if self.expires_at > now {
            self.expires_at - now
        } else {
            1
        }
    }
}

/// Why tokens could not be read or kept.
#[derive(Debug)]
pub struct StoreError {
    pub message: String,
}

/// Where tokens live between runs.
pub trait TokenStore {
    fn load(&self) -> Result<Option<Tokens>, StoreError>;

    fn save(&mut self, tokens: &Tokens) -> Result<(), StoreError>;

    fn clear(&mut self) -> Result<(), StoreError>;
}

/// What optional tokens say.
pub open spec fn tokens_view(o: Option<Tokens>) -> Option<TokensView> {
    match o {
        Some(t) => Some(t@),
        None => None,
    }
}

/// In-memory store.
#[derive(Debug)]
pub struct MemoryStore {
    pub tokens: Option<Tokens>,
}

impl Default for MemoryStore {
    fn default() -> (r: Self)
        ensures
            r.tokens is None,
    {
        MemoryStore { tokens: None }
    }
}

impl TokenStore for MemoryStore {
    fn load(&self) -> (r: Result<Option<Tokens>, StoreError>)
        ensures
            r matches Ok(t) && tokens_view(t) == tokens_view(self.tokens),
    {
        match &self.tokens {
            Some(t) => Ok(Some(t.clone())),
            None => Ok(None),
        }
    }

    fn save(&mut self, tokens: &Tokens) -> (r: Result<(), StoreError>)
        ensures
            r is Ok,
            tokens_view(final(self).tokens) == Some(tokens@),
    {
        self.tokens = Some(tokens.clone());
        Ok(())
    }

    fn clear(&mut self) -> (r: Result<(), StoreError>)
        ensures
            r is Ok,
            final(self).tokens is None,
    {
        self.tokens = None;
        Ok(())
    }
}

#[derive(Debug)]
pub struct AuthConfig {
    pub client_id: String,
    pub redirect_port: u16,
}

/// The address on this machine that a port answers under.
pub open spec fn loopback(port: u16) -> Seq<char> {
    "http://127.0.0.1:"@ + decimal(port as nat) + "/callback"@
}

impl AuthConfig {
    pub fn new(client_id: &str) -> (r: AuthConfig)
        ensures
            r.client_id@ == client_id@,
            r.redirect_port == 8888,
    {
        AuthConfig { client_id: string_from(client_id), redirect_port: 8888 }
    }

    /// Must match a redirect URI registered on the Spotify app *exactly*.
    pub fn redirect_uri(&self) -> (r: String)
        ensures
            r@ == loopback(self.redirect_port),
    {
        let mut r = string_from("http://127.0.0.1:");
        push_decimal(&mut r, self.redirect_port as u64);
        r.append("/callback");
        r
    }
}

/// Whether a character stands for itself in a query.
pub open spec fn is_url_safe(c: char) -> bool {
    ||| 'A' <= c <= 'Z'
    ||| 'a' <= c <= 'z'
    ||| '0' <= c <= '9'
    ||| c == '-'
    ||| c == '_'
}

/// Bytes in unpadded URL-safe Base64.
pub uninterp spec fn base64url(bytes: Seq<u8>) -> Seq<char>;

/// `Engine::encode` of `base64` with its `URL_SAFE_NO_PAD` engine: the text
/// depends on the bytes alone. It has four characters for every three bytes,
/// rounded up, all of the URL-safe alphabet, and no padding.
#[verifier::external_body]
fn encode_url_safe(bytes: &[u8]) -> (r: String)
    ensures
        r@ == base64url(bytes@),
        r@.len() == (4 * bytes@.len() + 2) / 3,
        forall|i: int| 0 <= i < r@.len() ==> is_url_safe(#[trigger] r@[i]),
{
    URL_SAFE_NO_PAD.encode(bytes)
}

/// Whether a character belongs to the standard Base64 alphabet, or pads it.
pub open spec fn is_base64(c: char) -> bool {
    ||| 'A' <= c <= 'Z'
    ||| 'a' <= c <= 'z'
    ||| '0' <= c <= '9'
    ||| c == '+'
    ||| c == '/'
    ||| c == '='
}

/// Bytes in padded standard Base64.
pub uninterp spec fn base64(bytes: Seq<u8>) -> Seq<char>;

/// `Engine::encode` of `base64` with its `STANDARD` engine: the text depends on
/// the bytes alone. It has four characters for every three bytes begun, all of
/// the standard alphabet or the padding sign.
#[verifier::external_body]
fn encode_standard(bytes: &[u8]) -> (r: String)
    ensures
        r@ == base64(bytes@),
        r@.len() == (bytes@.len() + 2) / 3 * 4,
        forall|i: int| 0 <= i < r@.len() ==> is_base64(#[trigger] r@[i]),
{
    STANDARD.encode(bytes)
}

/// The SHA-256 digest of bytes.
pub uninterp spec fn sha256(bytes: Seq<u8>) -> Seq<u8>;

/// `Digest::digest` of `sha2` for `Sha256`: 32 bytes that depend on the input
/// alone.
#[verifier::external_body]
fn digest(bytes: &[u8]) -> (r: Vec<u8>)
    ensures
        r@ == sha256(bytes@),
        r@.len() == 32,
{
    sha2::Sha256::digest(bytes).to_vec()
}

/// The error of `getrandom`.
#[verifier::external_type_specification]
#[verifier::external_body]
pub struct ExRandomError(getrandom::Error);

/// `getrandom::getrandom`: as many random bytes as asked for, or an error.
/// Nothing is claimed of the bytes. No buffer is larger than `isize::MAX`.
#[verifier::external_body]
pub(crate) fn random_bytes(n: usize) -> (r: Result<Vec<u8>, getrandom::Error>)
    requires
        n <= isize::MAX,
    ensures
        r matches Ok(bytes) ==> bytes@.len() == n,
{
    let mut buf = vec![0u8; n];
    getrandom::getrandom(&mut buf)?;
    Ok(buf)
}

/// The `Authorization` header of a client that signs in with its own secret.
pub fn basic_authorization(client_id: &str, client_secret: &str) -> (r: String)
    ensures
        r@ == "Basic "@ + base64(encode_utf8(client_id@ + ":"@ + client_secret@)),
{
    let mut pair = string_from(client_id);
    pair.append(":");
    pair.append(client_secret);
    let mut r = string_from("Basic ");
    r.append(encode_standard(pair.as_str().as_bytes()).as_str());
    r
}

/// A PKCE verifier and its derived challenge.
#[derive(Debug)]
pub struct Pkce {
    pub verifier: String,
    pub challenge: String,
}

/// The challenge that a verifier answers.
pub open spec fn challenge_of(verifier: Seq<char>) -> Seq<char> {
    base64url(sha256(encode_utf8(verifier)))
}

/// Whether every character stands for itself in a query.
pub open spec fn needs_no_escape(s: Seq<char>) -> bool {
    forall|i: int| 0 <= i < s.len() ==> is_url_safe(#[trigger] s[i])
}

/// The challenge that a verifier answers.
pub fn challenge_for(verifier: &str) -> (r: String)
    ensures
        r@ == challenge_of(verifier@),
        r@.len() == 43,
        needs_no_escape(r@),
{
    let hash = digest(verifier.as_bytes());
    encode_url_safe(hash.as_slice())
}

impl Pkce {
    /// The verifier that random bytes make, and its challenge.
    pub fn from_bytes(bytes: &[u8]) -> (r: Pkce)
        ensures
            r.verifier@ == base64url(bytes@),
            r.challenge@ == challenge_of(r.verifier@),
            r.verifier@.len() == (4 * bytes@.len() + 2) / 3,
            r.challenge@.len() == 43,
            needs_no_escape(r.verifier@),
            needs_no_escape(r.challenge@),
    {
        let verifier = encode_url_safe(bytes);
        let challenge = challenge_for(verifier.as_str());
        Pkce { verifier, challenge }
    }

    /// A fresh pair. The verifier is 64 random bytes, unless the system gives
    /// none.
    pub fn generate() -> (r: Result<Pkce, AuthError>)
        ensures
            r matches Ok(p) ==> {
                &&& exists|bytes: Seq<u8>|
                    bytes.len() == 64 && p.verifier@ == #[trigger] base64url(bytes)
                &&& p.verifier@.len() == 86
                &&& p.challenge@ == challenge_of(p.verifier@)
                &&& p.challenge@.len() == 43
                &&& needs_no_escape(p.verifier@)
                &&& needs_no_escape(p.challenge@)
            },
            r matches Err(e) ==> e is NoRandomness,
    {
        match random_bytes(64) {
            Ok(bytes) => {
                assert(bytes@.len() == 64);
                Ok(Pkce::from_bytes(bytes.as_slice()))
            },
            Err(_) => Err(AuthError::NoRandomness),
        }
    }
}

/// A text of random bytes that needs no escaping. The text has to fit into
/// memory.
pub fn random_b64url(bytes: usize) -> (r: Result<String, AuthError>)
    requires
        4 * bytes + 2 <= 3 * isize::MAX,
    ensures
        r matches Ok(s) ==> {
            &&& exists|b: Seq<u8>| b.len() == bytes && s@ == #[trigger] base64url(b)
            &&& s@.len() == (4 * bytes + 2) / 3
            &&& needs_no_escape(s@)
        },
        r matches Err(e) ==> e is NoRandomness,
{
    match random_bytes(bytes) {
        Ok(b) => {
            assert(b@.len() == bytes);
            Ok(encode_url_safe(b.as_slice()))
        },
        Err(_) => Err(AuthError::NoRandomness),
    }
}

/// What the token endpoint answers.
#[derive(Debug)]
pub struct TokenResponse {
    pub access_token: String,
    pub expires_in: u64,
    pub refresh_token: Option<String>,
}

/// The refresh token to keep: the new one, or failing that the old one.
pub open spec fn kept_refresh(new: Option<Seq<char>>, previous: Option<Seq<char>>) -> Option<
    Seq<char>,
> {
    if new is Some {
        new
    } else {
        previous
    }
}

/// A refresh token is never lost: a rotated one is kept, and without one the
/// old one stays.
pub proof fn law_refresh_token_is_never_lost(new: Option<Seq<char>>, previous: Option<Seq<char>>)
    ensures
        new is Some ==> kept_refresh(new, previous) == new,
        previous is Some ==> kept_refresh(new, previous) is Some,
        new is None ==> kept_refresh(new, previous) == previous,
{
}

/// A time so many seconds later, as far as the range goes.
pub open spec fn later(now: u64, seconds: u64) -> u64 {
    if now + seconds > u64::MAX {
        u64::MAX
    } else {
        (now + seconds) as u64
    }
}

/// What an optional text says.
pub open spec fn opt_str(o: Option<&str>) -> Option<Seq<char>> {
    match o {
        Some(s) => Some(s@),
        None => None,
    }
}

impl TokenResponse {
    /// Whether a result is what a response received at a time stands for: the
    /// tokens, unless there is no refresh token at all.
    pub open spec fn stands_for(
        self,
        r: Result<Tokens, AuthError>,
        previous: Option<Seq<char>>,
        now: u64,
    ) -> bool {
        match kept_refresh(opt_view(self.refresh_token), previous) {
            Some(refresh) => r matches Ok(t) && t@ == (TokensView {
                access_token: self.access_token@,
                refresh_token: refresh,
                expires_at: later(now, self.expires_in),
            }),
            None => r matches Err(e) && e is NoRefreshToken,
        }
    }

    /// The tokens that a response received at a time stands for.
    ///
    /// Spotify may or may not return a new refresh token. Keep the old one
    /// when it doesn't, and persist the new one when it does — dropping a
    /// rotated token is what makes auth fail days later.
    pub fn into_tokens_at(self, previous_refresh: Option<&str>, now: u64) -> (r: Result<
        Tokens,
        AuthError,
    >)
        ensures
            self.stands_for(r, opt_str(previous_refresh), now),
    {
        let refresh_token = match self.refresh_token {
            Some(new) => new,
            None => match previous_refresh {
                Some(old) => string_from(old),
                None => {
                    return Err(AuthError::NoRefreshToken);
                },
            },
        };
        let expires_at: u64 = if self.expires_in > 0xffff_ffff_ffff_ffff - now {
            0xffff_ffff_ffff_ffff
        } else {
            now + self.expires_in
        };
        Ok(Tokens { access_token: self.access_token, refresh_token, expires_at })
    }

    /// The tokens that a response received now stands for. When they expire
    /// depends on the clock.
    pub fn into_tokens(self, previous_refresh: Option<&str>) -> (r: Result<Tokens, AuthError>)
        ensures
            match kept_refresh(opt_view(self.refresh_token), opt_str(previous_refresh)) {
                Some(refresh) => r matches Ok(t) && t.access_token@ == self.access_token@
                    && t.refresh_token@ == refresh && t.expires_at >= self.expires_in,
                None => r matches Err(e) && e is NoRefreshToken,
            },
    {
        self.into_tokens_at(previous_refresh, now_unix())
    }
}

/// The tokens that an authorization code was exchanged for. `success` and
/// `status` are those of the answer, `response` is its body where it could be
/// read.
pub fn exchange_outcome(
    success: bool,
    status: &str,
    body: &str,
    response: Option<TokenResponse>,
    now: u64,
) -> (r: Result<Tokens, AuthError>)
    ensures
        !success ==> (r matches Err(AuthError::ExchangeFailed { status: s, body: b }) && s@
            == status@ && b@ == body@),
        success ==> match response {
            Some(answer) => answer.stands_for(r, None, now),
            None => r matches Err(e) && e is BadTokenResponse,
        },
{
    if !success {
        return Err(
            AuthError::ExchangeFailed { status: string_from(status), body: string_from(body) },
        );
    }
    match response {
        Some(answer) => answer.into_tokens_at(None, now),
        None => Err(AuthError::BadTokenResponse),
    }
}

/// The tokens after a refresh, to be stored. A refusal, or an answer that could
/// not be read, leaves nothing to store: the tokens in hand stay as they are.
/// `success` and `status` are those of the answer, `response` is its body where
/// it could be read.
pub fn refresh_outcome(
    success: bool,
    status: &str,
    body: &str,
    response: Option<TokenResponse>,
    current: &Tokens,
    now: u64,
) -> (r: Result<Tokens, AuthError>)
    ensures
        !success ==> (r matches Err(AuthError::RefreshFailed { status: s, body: b }) && s@
            == status@ && b@ == body@),
        success ==> match response {
            Some(answer) => r is Ok && answer.stands_for(r, Some(current.refresh_token@), now),
            None => r matches Err(e) && e is BadRefreshResponse,
        },
{
    if !success {
        return Err(
            AuthError::RefreshFailed { status: string_from(status), body: string_from(body) },
        );
    }
    match response {
        Some(answer) => answer.into_tokens_at(Some(current.refresh_token.as_str()), now),
        None => Err(AuthError::BadRefreshResponse),
    }
}

/// The parameters of the consent screen. There is no secret among them.
pub open spec fn consent_params(
    client_id: Seq<char>,
    port: u16,
    challenge: Seq<char>,
    state: Seq<char>,
) -> Seq<(Seq<char>, Seq<char>)> {
    seq![
        ("client_id"@, client_id),
        ("response_type"@, "code"@),
        ("redirect_uri"@, loopback(port)),
        ("code_challenge_method"@, "S256"@),
        ("code_challenge"@, challenge),
        ("state"@, state),
        (
            "scope"@,
            "playlist-read-private"@ + " "@ + "playlist-modify-public"@ + " "@
                + "playlist-modify-private"@,
        ),
    ]
}

/// An address with query parameters added, when it is one.
pub uninterp spec fn address_with(base: Seq<char>, params: Seq<(Seq<char>, Seq<char>)>) -> Option<
    Seq<char>,
>;

/// `Url::parse_with_params` of `reqwest`, written out: the address with the
/// parameters encoded behind it, or nothing when the base is no address. It
/// depends on the base and the parameters alone. `Url::query_pairs` reads the
/// parameters back as they were given. An address whose query or fragment would
/// start beyond 32 bits panics, so the base is short and has no fragment; nor
/// does it have a query, which would be read back too.
#[verifier::external_body]
fn url_with_params(base: &str, params: &Vec<(String, String)>) -> (r: Option<String>)
    requires
        base@.len() <= 0x1000_0000,
        !base@.contains('?'),
        !base@.contains('#'),
    ensures
        opt_view(r) == address_with(base@, pair_views(params@)),
        r matches Some(url) ==> query_of(url@) == Some(pair_views(params@)),
{
    reqwest::Url::parse_with_params(base, params).ok().map(String::from)
}

/// The parameters of the consent screen.
pub fn authorize_params(config: &AuthConfig, challenge: &str, state: &str) -> (r: Vec<
    (String, String),
>)
    ensures
        pair_views(r@) == consent_params(
            config.client_id@,
            config.redirect_port,
            challenge@,
            state@,
        ),
{
    let mut scope = string_from(REQUIRED_SCOPES[0]);
    scope.append(" ");
    scope.append(REQUIRED_SCOPES[1]);
    scope.append(" ");
    scope.append(REQUIRED_SCOPES[2]);
    let mut r: Vec<(String, String)> = Vec::new();
    r.push((string_from("client_id"), config.client_id.clone()));
    r.push((string_from("response_type"), string_from("code")));
    r.push((string_from("redirect_uri"), config.redirect_uri()));
    r.push((string_from("code_challenge_method"), string_from("S256")));
    r.push((string_from("code_challenge"), string_from(challenge)));
    r.push((string_from("state"), string_from(state)));
    r.push((string_from("scope"), scope));
    assert(pair_views(r@) =~= consent_params(
        config.client_id@,
        config.redirect_port,
        challenge@,
        state@,
    ));
    r
}

/// Build the URL the user has to visit to grant access.
pub fn authorize_url(config: &AuthConfig, challenge: &str, state: &str) -> (r: Result<
    String,
    AuthError,
>)
    ensures
        match address_with(
            AUTHORIZE_URL@,
            consent_params(config.client_id@, config.redirect_port, challenge@, state@),
        ) {
            Some(url) => r matches Ok(u) && u@ == url,
            None => r matches Err(e) && e is BadUrl,
        },
        r matches Ok(u) ==> query_of(u@) == Some(
            consent_params(config.client_id@, config.redirect_port, challenge@, state@),
        ),
{
    proof {
        reveal_strlit("https://accounts.spotify.com/authorize");
    }
    let params = authorize_params(config, challenge, state);
    match url_with_params(AUTHORIZE_URL, &params) {
        Some(url) => Ok(url),
        None => Err(AuthError::BadUrl),
    }
}

/// A redirect on this machine goes to the loopback address by number, whatever
/// the port.
pub proof fn law_redirect_is_numeric_loopback(port: u16)
    ensures
        occurs_at(loopback(port), "http://127.0.0.1:"@, 0),
{
    assert(loopback(port).subrange(0, "http://127.0.0.1:"@.len() as int) =~= "http://127.0.0.1:"@);
}

/// The form that exchanges an authorization code.
pub open spec fn code_form(
    client_id: Seq<char>,
    port: u16,
    code: Seq<char>,
    verifier: Seq<char>,
) -> Seq<(Seq<char>, Seq<char>)> {
    seq![
        ("grant_type"@, "authorization_code"@),
        ("code"@, code),
        ("redirect_uri"@, loopback(port)),
        ("client_id"@, client_id),
        ("code_verifier"@, verifier),
    ]
}

/// The form that exchanges an authorization code.
pub fn exchange_form(config: &AuthConfig, code: &str, verifier: &str) -> (r: Vec<(String, String)>)
    ensures
        pair_views(r@) == code_form(config.client_id@, config.redirect_port, code@, verifier@),
{
    let mut r: Vec<(String, String)> = Vec::new();
    r.push((string_from("grant_type"), string_from("authorization_code")));
    r.push((string_from("code"), string_from(code)));
    r.push((string_from("redirect_uri"), config.redirect_uri()));
    r.push((string_from("client_id"), config.client_id.clone()));
    r.push((string_from("code_verifier"), string_from(verifier)));
    assert(pair_views(r@) =~= code_form(
        config.client_id@,
        config.redirect_port,
        code@,
        verifier@,
    ));
    r
}

/// The form that asks for a new access token.
pub open spec fn renewal_form(client_id: Seq<char>, refresh_token: Seq<char>) -> Seq<
    (Seq<char>, Seq<char>),
> {
    seq![
        ("grant_type"@, "refresh_token"@),
        ("refresh_token"@, refresh_token),
        ("client_id"@, client_id),
    ]
}

/// The form that asks for a new access token.
pub fn refresh_form(config: &AuthConfig, current: &Tokens) -> (r: Vec<(String, String)>)
    ensures
        pair_views(r@) == renewal_form(config.client_id@, current@.refresh_token),
{
    let mut r: Vec<(String, String)> = Vec::new();
    r.push((string_from("grant_type"), string_from("refresh_token")));
    r.push((string_from("refresh_token"), current.refresh_token.clone()));
    r.push((string_from("client_id"), config.client_id.clone()));
    assert(pair_views(r@) =~= renewal_form(config.client_id@, current@.refresh_token));
    r
}

/// Whether one of the parameters is a client secret.
pub open spec fn sends_secret(params: Seq<(Seq<char>, Seq<char>)>) -> bool {
    exists|i: int| 0 <= i < params.len() && (#[trigger] params[i]).0 == "client_secret"@
}

/// No client secret is sent, neither to the consent screen nor for a token:
/// a secret stored on a user's machine is not a secret.
pub proof fn law_no_secret_is_sent(
    client_id: Seq<char>,
    port: u16,
    challenge: Seq<char>,
    state: Seq<char>,
    code: Seq<char>,
    verifier: Seq<char>,
    refresh_token: Seq<char>,
)
    ensures
        !sends_secret(consent_params(client_id, port, challenge, state)),
        !sends_secret(code_form(client_id, port, code, verifier)),
        !sends_secret(renewal_form(client_id, refresh_token)),
{
    reveal_strlit("client_secret");
    reveal_strlit("client_id");
    reveal_strlit("response_type");
    reveal_strlit("redirect_uri");
    reveal_strlit("code_challenge_method");
    reveal_strlit("code_challenge");
    reveal_strlit("state");
    reveal_strlit("scope");
    reveal_strlit("grant_type");
    reveal_strlit("code");
    reveal_strlit("code_verifier");
    reveal_strlit("refresh_token");
    assert("client_secret"@.len() == 13);
    assert("client_secret"@[1] == 'l');
    assert("client_id"@.len() == 9);
    assert("response_type"@[1] == 'e');
    assert("redirect_uri"@.len() == 12);
    assert("code_challenge_method"@.len() == 21);
    assert("code_challenge"@.len() == 14);
    assert("state"@.len() == 5);
    assert("scope"@.len() == 5);
    assert("grant_type"@.len() == 10);
    assert("code"@.len() == 4);
    assert("code_verifier"@[1] == 'o');
    assert("refresh_token"@[1] == 'e');
}

/// The last value that the pairs give a key.
pub open spec fn last_value(pairs: Seq<(Seq<char>, Seq<char>)>, key: Seq<char>) -> Option<Seq<char>>
    decreases pairs.len(),
{
    if pairs.len() == 0 {
        None
    } else if pairs.last().0 == key {
        Some(pairs.last().1)
    } else {
        last_value(pairs.drop_last(), key)
    }
}

/// The last value that the pairs give a key.
pub fn value_for(pairs: &Vec<(String, String)>, key: &str) -> (r: Option<String>)
    ensures
        opt_view(r) == last_value(pair_views(pairs@), key@),
{
    let ghost all = pair_views(pairs@);
    let mut n: usize = pairs.len();
    assert(all.take(n as int) =~= all);
    while n > 0
        invariant
            n <= pairs.len(),
            all == pair_views(pairs@),
            last_value(all, key@) == last_value(all.take(n as int), key@),
        decreases n,
    {
        assert(all.take(n as int).drop_last() =~= all.take(n - 1));
        assert(all.take(n as int).last() == all[n - 1]);
        if same_str(pairs[n - 1].0.as_str(), key) {
            return Some(pairs[n - 1].1.clone());
        }
        n = n - 1;
    }
    None
}

/// What a redirect says.
pub enum Redirect {
    Denied(Seq<char>),
    Forged,
    NoCode,
    Code(Seq<char>),
}

/// What the parameters of a redirect say to whoever sent `expected_state`: an
/// error counts first, then the state, then the code.
pub open spec fn redirect_says(
    pairs: Seq<(Seq<char>, Seq<char>)>,
    expected_state: Seq<char>,
) -> Redirect {
    match last_value(pairs, "error"@) {
        Some(error) => Redirect::Denied(error),
        None => if last_value(pairs, "state"@) != Some(expected_state) {
            Redirect::Forged
        } else {
            match last_value(pairs, "code"@) {
                Some(code) => Redirect::Code(code),
                None => Redirect::NoCode,
            }
        },
    }
}

/// Whether a result is what a redirect says.
pub open spec fn reports(r: Result<String, AuthError>, says: Redirect) -> bool {
    match says {
        Redirect::Denied(error) => r matches Err(AuthError::Denied(e)) && e@ == error,
        Redirect::Forged => r matches Err(e) && e is StateMismatch,
        Redirect::NoCode => r matches Err(e) && e is NoCode,
        Redirect::Code(code) => r matches Ok(c) && c@ == code,
    }
}

/// The authorization code in the parameters of a redirect, rejecting a
/// mismatched `state`.
pub fn read_callback(pairs: &Vec<(String, String)>, expected_state: &str) -> (r: Result<
    String,
    AuthError,
>)
    ensures
        reports(r, redirect_says(pair_views(pairs@), expected_state@)),
{
    if let Some(error) = value_for(pairs, "error") {
        return Err(AuthError::Denied(error));
    }
    // Guards against a forged redirect landing on the loopback listener.
    let genuine: bool = match value_for(pairs, "state") {
        Some(state) => same_str(state.as_str(), expected_state),
        None => false,
    };
    if !genuine {
        return Err(AuthError::StateMismatch);
    }
    match value_for(pairs, "code") {
        Some(code) => Ok(code),
        None => Err(AuthError::NoCode),
    }
}

/// A code is taken only from a redirect that carries the state that was sent,
/// and no error.
pub proof fn law_forged_redirect_is_refused(
    pairs: Seq<(Seq<char>, Seq<char>)>,
    expected_state: Seq<char>,
)
    requires
        redirect_says(pairs, expected_state) is Code,
    ensures
        last_value(pairs, "state"@) == Some(expected_state),
        last_value(pairs, "error"@) is None,
{
}

/// The query parameters of an address, when it is one.
pub uninterp spec fn query_of(address: Seq<char>) -> Option<Seq<(Seq<char>, Seq<char>)>>;

/// What optional pairs of texts say.
pub open spec fn opt_pairs(o: Option<Vec<(String, String)>>) -> Option<
    Seq<(Seq<char>, Seq<char>)>,
> {
    match o {
        Some(v) => Some(pair_views(v@)),
        None => None,
    }
}

/// `Url::parse` of `reqwest`, and `Url::query_pairs` of the address it gives:
/// the decoded query parameters in order, or nothing when the text is no
/// address. They depend on the text alone.
#[verifier::external_body]
pub(crate) fn query_pairs(address: &str) -> (r: Option<Vec<(String, String)>>)
    ensures
        opt_pairs(r) == query_of(address@),
{
    reqwest::Url::parse(address).ok().map(|url| url.query_pairs().into_owned().collect())
}

/// Parse `code` out of the OAuth redirect, rejecting a mismatched `state`.
pub fn parse_callback(path: &str, expected_state: &str) -> (r: Result<String, AuthError>)
    ensures
        match query_of("http://127.0.0.1"@ + path@) {
            Some(pairs) => reports(r, redirect_says(pairs, expected_state@)),
            None => r matches Err(e) && e is BadRedirect,
        },
{
    let mut address = string_from("http://127.0.0.1");
    address.append(path);
    match query_pairs(address.as_str()) {
        Some(pairs) => read_callback(&pairs, expected_state),
        None => Err(AuthError::BadRedirect),
    }
}

/// The first line of a text.
pub open spec fn first_line(s: Seq<char>) -> Seq<char> {
    match find(s, seq!['\n']) {
        Some(i) => s.take(i),
        None => s,
    }
}

/// The path that a request asks for; the root when it names none.
pub open spec fn path_of(request: Seq<char>) -> Seq<char> {
    let ws = words(first_line(request));
    if ws.len() > 1 {
        ws[1]
    } else {
        "/"@
    }
}

/// The path that a request asks for; the root when it names none.
pub fn request_path(request: &str) -> (r: String)
    ensures
        r@ == path_of(request@),
{
    let chars = chars_of(request);
    let mut newline: Vec<char> = Vec::new();
    newline.push('\n');
    assert(newline@ =~= seq!['\n']);
    let n: usize = chars.len();
    let end: usize = match index_of(chars.as_slice(), newline.as_slice()) {
        Some(i) => i,
        None => n,
    };
    assert(chars@.subrange(0, end as int) =~= chars@.take(end as int));
    assert(chars@.take(n as int) =~= chars@);
    let ws = split_words(slice_subrange(chars.as_slice(), 0, end));
    if ws.len() > 1 {
        string_of(ws[1].as_slice())
    } else {
        string_from("/")
    }
}

/// Whether a path is that of the redirect. Browsers ask for /favicon.ico on the
/// same origin; anything that is not the redirect itself is to be ignored.
pub fn is_callback_path(path: &str) -> (r: bool)
    ensures
        r == occurs_at(path@, "/callback"@, 0),
{
    let chars = chars_of(path);
    let callback = chars_of("/callback");
    matches_at(chars.as_slice(), callback.as_slice(), 0)
}

/// What to answer a request on the loopback listener.
#[derive(Debug)]
pub enum CallbackStep {
    /// Something else was asked for, such as an icon; keep listening.
    Ignore,
    /// The redirect came; this is what it says.
    Finish(Result<String, AuthError>),
}

/// Reads a request on the loopback listener.
pub fn answer_request(request: &str, expected_state: &str) -> (r: CallbackStep)
    ensures
        r is Finish <==> occurs_at(path_of(request@), "/callback"@, 0),
        r matches CallbackStep::Finish(result) ==> match query_of(
            "http://127.0.0.1"@ + path_of(request@),
        ) {
            Some(pairs) => reports(result, redirect_says(pairs, expected_state@)),
            None => result matches Err(e) && e is BadRedirect,
        },
{
    let path = request_path(request);
    if is_callback_path(path.as_str()) {
        CallbackStep::Finish(parse_callback(path.as_str(), expected_state))
    } else {
        CallbackStep::Ignore
    }
}

/// The page that a browser is shown.
pub open spec fn page_text(inner: Seq<char>) -> Seq<char> {
    "<!doctype html><meta charset=utf-8><title>DJ Library Sync</title><body style=\"font:16px system-ui;padding:3rem;text-align:center\">"@
        + inner + "</body>"@
}

/// A page as an HTTP response, with its length in bytes.
pub open spec fn http_page(body: Seq<char>) -> Seq<char> {
    "HTTP/1.1 200 OK\r\nContent-Type: text/html; charset=utf-8\r\nContent-Length: "@ + decimal(
        encode_utf8(body).len(),
    ) + "\r\nConnection: close\r\n\r\n"@ + body
}

/// The response to the redirect: the page for a success, or for a failure.
pub fn callback_response(connected: bool) -> (r: String)
    ensures
        r@ == http_page(
            page_text(
                if connected {
                    "<h2>Connected.</h2><p>You can close this tab and go back to the terminal.</p>"@
                } else {
                    "<h2>Something went wrong.</h2><p>Check the terminal for details.</p>"@
                },
            ),
        ),
{
    let inner = if connected {
        "<h2>Connected.</h2><p>You can close this tab and go back to the terminal.</p>"
    } else {
        "<h2>Something went wrong.</h2><p>Check the terminal for details.</p>"
    };
    let mut body = string_from(
        "<!doctype html><meta charset=utf-8><title>DJ Library Sync</title><body style=\"font:16px system-ui;padding:3rem;text-align:center\">",
    );
    body.append(inner);
    body.append("</body>");
    let mut r = string_from(
        "HTTP/1.1 200 OK\r\nContent-Type: text/html; charset=utf-8\r\nContent-Length: ",
    );
    push_decimal(&mut r, body.as_str().as_bytes().len() as u64);
    r.append("\r\nConnection: close\r\n\r\n");
    r.append(body.as_str());
    r
}

} // verus!
