//! What signing in, licences, settings and the Apple Music rules promise, over
//! all answers.

use vstd::prelude::*;
use vstd::utf8::encode_utf8;

use crate::apple::{
    api_retries, keep_for, names_in, next_lookup, plain_query, playlist_named, same_name,
    token_refusal, writable_only, LibraryPlaylist, LookupNext, Song, TokenRefusal,
};
use crate::auth::{
    code_form, consent_params, exchange_outcome, first_line, last_value, loopback, path_of,
    redirect_says, refresh_outcome, renewal_form, reports, AuthError, TokenResponse, Tokens,
};
use crate::config::{hex_small, hex_text, is_usable_id, Config};
use crate::licence::{
    connects, endpoint_at, error_detail, refresh_plan, service_error, wants_refresh, ConnectError,
    Refresh, StoredLicence,
};
use crate::retry::RetryPolicy;
use crate::spotify::Playlist;
use crate::tags::{first_artist, LocalTrack};
use crate::text::{
    decimal, find, is_white_space, join, lemma_find_from, lower_ascii, occurs_at, opt_view, trimmed,
    words,
};
use crate::text_laws::{is_word, law_joined_words_are_its_words};
use crate::timestamp::unix_time;
use crate::title::artist_names;

verus! {

/// What the answer of the token endpoint gives: its access token, the new refresh
/// token or failing that the old one, and an expiry counted from now. It fails
/// only where there is no refresh token at all.
pub proof fn law_answer_gives_tokens(
    answer: TokenResponse,
    r: Result<Tokens, AuthError>,
    previous: Option<Seq<char>>,
    now: u64,
)
    requires
        answer.stands_for(r, previous, now),
    ensures
        r is Ok <==> answer.refresh_token is Some || previous is Some,
        r matches Err(e) ==> e is NoRefreshToken,
        r matches Ok(t) ==> {
            &&& t.access_token@ == answer.access_token@
            &&& answer.refresh_token is Some ==> t.refresh_token@ == answer.refresh_token->0@
            &&& answer.refresh_token is None ==> Some(t.refresh_token@) == previous
            &&& now + answer.expires_in <= u64::MAX ==> t.expires_at == now + answer.expires_in
            &&& now + answer.expires_in > u64::MAX ==> t.expires_at == u64::MAX
        },
{
}

/// Of several values for a key the last counts.
pub proof fn law_last_value_counts(
    pairs: Seq<(Seq<char>, Seq<char>)>,
    key: Seq<char>,
    value: Seq<char>,
    wanted: Seq<char>,
)
    ensures
        last_value(pairs.push((key, value)), key) == Some(value),
        wanted != key ==> last_value(pairs.push((key, value)), wanted) == last_value(pairs, wanted),
        pairs.len() == 0 ==> last_value(pairs, wanted) is None,
{
    assert(pairs.push((key, value)).drop_last() =~= pairs);
}

/// What is made of a redirect. An error is passed on, whatever else it carries; a
/// state other than the one that was sent, or none, makes it a forgery; and only
/// then the code counts, where there is one.
pub proof fn law_what_a_redirect_gives(
    pairs: Seq<(Seq<char>, Seq<char>)>,
    state: Seq<char>,
    r: Result<String, AuthError>,
)
    requires
        reports(r, redirect_says(pairs, state)),
    ensures
        ({
            let error = last_value(pairs, "error"@);
            let genuine = last_value(pairs, "state"@) == Some(state);
            let code = last_value(pairs, "code"@);
            &&& r is Ok <==> error is None && genuine && code is Some
            &&& r matches Ok(c) ==> Some(c@) == code
            &&& error is Some ==> (r matches Err(AuthError::Denied(e)) && Some(e@) == error)
            &&& error is None && !genuine ==> (r matches Err(e) && e is StateMismatch)
            &&& error is None && genuine && code is None ==> (r matches Err(e) && e is NoCode)
        }),
{
}

/// What is made of the redirect that carries a Music User Token, by the same
/// rule.
pub proof fn law_what_a_token_redirect_gives(
    pairs: Seq<(Seq<char>, Seq<char>)>,
    state: Seq<char>,
    r: Result<String, ConnectError>,
)
    requires
        connects(r, pairs, state),
    ensures
        ({
            let error = last_value(pairs, "error"@);
            let genuine = last_value(pairs, "state"@) == Some(state);
            let token = last_value(pairs, "music_user_token"@);
            &&& r is Ok <==> error is None && genuine && token is Some
            &&& r matches Ok(t) ==> Some(t@) == token
            &&& error is Some ==> (r matches Err(ConnectError::Failed(e)) && Some(e@) == error)
            &&& error is None && !genuine ==> (r matches Err(e) && e is StateMismatch)
            &&& error is None && genuine && token is None ==> (r matches Err(e) && e is NoToken)
        }),
{
}

/// A request asks for the second word of its first line, whatever follows; one
/// that has no second word asks for the root.
pub proof fn law_what_a_request_asks_for(ws: Seq<Seq<char>>, rest: Seq<char>)
    requires
        forall|i: int| 0 <= i < ws.len() ==> is_word(#[trigger] ws[i]),
    ensures
        ws.len() >= 2 ==> path_of(join(ws, " "@) + seq!['\n'] + rest) == ws[1],
        ws.len() < 2 ==> path_of(join(ws, " "@) + seq!['\n'] + rest) == "/"@,
        ws.len() >= 2 ==> path_of(join(ws, " "@)) == ws[1],
{
    let line = join(ws, " "@);
    law_joined_words_are_its_words(ws);
    lemma_no_newline(ws);
    lemma_first_line(line, rest);
}

proof fn lemma_first_line(line: Seq<char>, rest: Seq<char>)
    requires
        !line.contains('\n'),
    ensures
        first_line(line + seq!['\n'] + rest) == line,
        first_line(line) == line,
{
    let newline = seq!['\n'];
    let whole = line + newline + rest;
    let at = line.len() as int;
    lemma_find_from(whole, newline, 0);
    assert(whole.subrange(at, at + 1) =~= newline);
    assert(occurs_at(whole, newline, at));
    let i = find(whole, newline)->0;
    if i < at {
        assert(whole.subrange(i, i + 1)[0] == '\n');
        assert(line[i] == '\n');
    }
    assert(whole.take(at) =~= line);
    lemma_find_from(line, newline, 0);
    if find(line, newline) is Some {
        let j = find(line, newline)->0;
        assert(line.subrange(j, j + 1)[0] == '\n');
        assert(line[j] == '\n');
    }
}

proof fn lemma_no_newline(ws: Seq<Seq<char>>)
    requires
        forall|i: int| 0 <= i < ws.len() ==> is_word(#[trigger] ws[i]),
    ensures
        !join(ws, " "@).contains('\n'),
    decreases ws.len(),
{
    reveal_strlit(" ");
    let line = join(ws, " "@);
    if line.contains('\n') {
        let k = choose|k: int| 0 <= k < line.len() && line[k] == '\n';
        assert(is_white_space('\n'));
        if ws.len() == 1 {
            assert(is_word(ws[0]));
            assert(line == ws[0]);
        } else if ws.len() > 1 {
            let init = ws.drop_last();
            assert forall|i: int| 0 <= i < init.len() implies is_word(#[trigger] init[i]) by {
                assert(init[i] == ws[i]);
            }
            lemma_no_newline(init);
            let front = join(init, " "@);
            if k < front.len() {
                assert(front[k] == '\n');
            } else if k > front.len() {
                assert(is_word(ws[ws.len() - 1]));
                assert(ws.last()[k - front.len() - 1] == '\n');
            }
        }
    }
}

/// What is sent to sign in: who asks, the challenge with its method, the state,
/// where to come back to, and the three scopes; then the code with the verifier;
/// and later the refresh token.
pub proof fn law_what_is_sent_to_sign_in(
    client: Seq<char>,
    port: u16,
    challenge: Seq<char>,
    state: Seq<char>,
    code: Seq<char>,
    verifier: Seq<char>,
    refresh: Seq<char>,
)
    ensures
        ({
            let ask = consent_params(client, port, challenge, state);
            let back = "http://127.0.0.1:"@ + decimal(port as nat) + "/callback"@;
            &&& ask.contains(("client_id"@, client))
            &&& ask.contains(("response_type"@, "code"@))
            &&& ask.contains(("redirect_uri"@, back))
            &&& ask.contains(("code_challenge_method"@, "S256"@))
            &&& ask.contains(("code_challenge"@, challenge))
            &&& ask.contains(("state"@, state))
            &&& ask.contains(
                (
                    "scope"@,
                    "playlist-read-private"@ + " "@ + "playlist-modify-public"@ + " "@
                        + "playlist-modify-private"@,
                ),
            )
            &&& ask.len() == 7
        }),
        ({
            let exchange = code_form(client, port, code, verifier);
            let back = "http://127.0.0.1:"@ + decimal(port as nat) + "/callback"@;
            &&& exchange.contains(("grant_type"@, "authorization_code"@))
            &&& exchange.contains(("code"@, code))
            &&& exchange.contains(("redirect_uri"@, back))
            &&& exchange.contains(("client_id"@, client))
            &&& exchange.contains(("code_verifier"@, verifier))
            &&& exchange.len() == 5
        }),
        ({
            let renew = renewal_form(client, refresh);
            &&& renew.contains(("grant_type"@, "refresh_token"@))
            &&& renew.contains(("refresh_token"@, refresh))
            &&& renew.contains(("client_id"@, client))
            &&& renew.len() == 3
        }),
{
    let ask = consent_params(client, port, challenge, state);
    assert(ask[0] == ("client_id"@, client));
    assert(ask[1] == ("response_type"@, "code"@));
    assert(ask[2] == ("redirect_uri"@, loopback(port)));
    assert(ask[3] == ("code_challenge_method"@, "S256"@));
    assert(ask[4] == ("code_challenge"@, challenge));
    assert(ask[5] == ("state"@, state));
    assert(ask[6].0 == "scope"@);
    let exchange = code_form(client, port, code, verifier);
    assert(exchange[0] == ("grant_type"@, "authorization_code"@));
    assert(exchange[1] == ("code"@, code));
    assert(exchange[2] == ("redirect_uri"@, loopback(port)));
    assert(exchange[3] == ("client_id"@, client));
    assert(exchange[4] == ("code_verifier"@, verifier));
    let renew = renewal_form(client, refresh);
    assert(renew[0] == ("grant_type"@, "refresh_token"@));
    assert(renew[1] == ("refresh_token"@, refresh));
    assert(renew[2] == ("client_id"@, client));
}

/// A fresh token is asked for exactly when the old one is past or has less than a
/// day left.
pub proof fn law_when_a_licence_is_refreshed(left: Option<u64>)
    ensures
        left is None ==> wants_refresh(left),
        left matches Some(s) ==> (wants_refresh(left) <==> s < 24 * 60 * 60),
{
}

/// Between an address and a path stands one slash, however many either brings.
pub proof fn law_one_slash_joins_an_endpoint(base: Seq<char>, path: Seq<char>)
    ensures
        endpoint_at(base.push('/'), path) == endpoint_at(base, path),
        endpoint_at(base, seq!['/'] + path) == endpoint_at(base, path),
        (base.len() == 0 || base.last() != '/') && (path.len() == 0 || path[0] != '/')
            ==> endpoint_at(base, path) == base + "/"@ + path,
{
    assert(base.push('/').drop_last() =~= base);
    assert((seq!['/'] + path).drop_first() =~= path);
    assert((seq!['/'] + path).first() == '/');
}

/// The detail of an error is its message, or what came where it has none.
pub proof fn law_detail_is_the_message(message: Option<Seq<char>>, body: Seq<char>)
    ensures
        message matches Some(m) ==> error_detail(message, body) == m,
        message is None ==> error_detail(message, body) == trimmed(body),
{
}

/// The number that a small hexadecimal digit stands for.
pub open spec fn small_hex_value(c: char) -> int {
    if '0' <= c <= '9' {
        c as int - '0' as int
    } else {
        c as int - 'a' as int + 10
    }
}

/// Each byte of an id is written in two digits that stand for it, in order, so
/// different bytes make different ids.
pub proof fn law_id_spells_its_bytes(bytes: Seq<u8>, i: int)
    requires
        0 <= i < bytes.len(),
    ensures
        hex_text(bytes).len() == 2 * bytes.len(),
        16 * small_hex_value(hex_text(bytes)[2 * i]) + small_hex_value(hex_text(bytes)[2 * i + 1])
            == bytes[i],
    decreases bytes.len(),
{
    let init = bytes.drop_last();
    let before = hex_text(init);
    assert(hex_text(bytes) == before.push(hex_small(bytes.last() as int / 16)).push(
        hex_small(bytes.last() as int % 16),
    ));
    lemma_hex_length(init);
    if i < init.len() {
        law_id_spells_its_bytes(init, i);
        assert(init[i] == bytes[i]);
    } else {
        let b = bytes.last() as int;
        assert(16 * (b / 16) + b % 16 == b);
        assert(small_hex_value(hex_small(b / 16)) == b / 16);
        assert(small_hex_value(hex_small(b % 16)) == b % 16);
    }
}

proof fn lemma_hex_length(bytes: Seq<u8>)
    ensures
        hex_text(bytes).len() == 2 * bytes.len(),
    decreases bytes.len(),
{
    if bytes.len() > 0 {
        lemma_hex_length(bytes.drop_last());
    }
}

/// An id is kept from eight bytes on.
pub proof fn law_which_ids_are_kept(id: Seq<char>)
    ensures
        is_usable_id(Some(id)) <==> encode_utf8(id).len() >= 8,
        !is_usable_id(None),
{
}

/// A developer token is kept a minute less than it lives, never more than an hour
/// less that minute, and not at all once a minute or less is left.
pub proof fn law_how_long_a_developer_token_is_kept(s: u64)
    ensures
        s <= 60 ==> keep_for(Some(s)) == 0,
        60 < s <= 3_600 ==> keep_for(Some(s)) == s - 60,
        s > 3_600 ==> keep_for(Some(s)) == 3_540,
        keep_for(None) == 3_540,
{
}

/// A song always has somebody to compare: the names in its field, or the field.
pub proof fn law_a_song_has_artists(field: Seq<char>)
    ensures
        names_in(field).len() > 0,
        artist_names(field).len() > 0 ==> names_in(field) == artist_names(field),
        artist_names(field).len() == 0 ==> names_in(field) == seq![field],
{
}

/// A song is taken as it was sent, under the id that can be added, and as the same
/// entry of a playlist; what is left out is empty, and no popularity is made up.
pub proof fn law_song_is_taken_as_sent(song: Song)
    ensures
        ({
            let t = song.track();
            let e = song.entry();
            &&& t.id == t.uri
            &&& song.catalog_id is Some ==> t.uri == song.catalog_id->0@
            &&& song.catalog_id is None ==> t.uri == song.id@
            &&& song.name is Some ==> t.name == song.name->0@
            &&& song.name is None ==> t.name.len() == 0
            &&& song.artist_name is Some ==> t.artists == names_in(song.artist_name->0@)
            &&& song.album_name is Some ==> t.album == song.album_name->0@
            &&& song.duration_in_millis is Some ==> t.duration_ms == song.duration_in_millis->0
            &&& song.duration_in_millis is None ==> t.duration_ms == 0
            &&& t.isrc == opt_view(song.isrc)
            &&& t.url == opt_view(song.url)
            &&& t.popularity is None
            &&& e.uri == t.uri && e.name == t.name && e.artists == t.artists && e.duration_ms
                == t.duration_ms
        }),
{
}

/// A playlist of the library can be pushed to exactly when it does not say that it
/// cannot be edited, and each is judged on its own, in order.
pub proof fn law_which_playlists_are_targets(
    playlists: Seq<LibraryPlaylist>,
    one: LibraryPlaylist,
)
    ensures
        one.can_edit == Some(false) ==> writable_only(playlists.push(one)) == writable_only(
            playlists,
        ),
        one.can_edit != Some(false) ==> {
            let after = writable_only(playlists.push(one));
            &&& after.len() == writable_only(playlists).len() + 1
            &&& after.drop_last() == writable_only(playlists)
            &&& after.last().id == one.id@
            &&& one.name is Some ==> after.last().name == one.name->0@
            &&& after.last().owner is None
        },
        playlists.len() == 0 ==> writable_only(playlists).len() == 0,
{
    assert(playlists.push(one).drop_last() =~= playlists);
    if one.can_edit != Some(false) {
        assert(writable_only(playlists.push(one)).drop_last() =~= writable_only(playlists));
    }
}

/// Names are compared whatever the case of their letters, and by nothing else.
pub proof fn law_names_are_compared_without_case(a: Seq<char>, b: Seq<char>)
    ensures
        same_name(a, a),
        same_name(a, b) == same_name(b, a),
        same_name(a, b) ==> a.len() == b.len(),
        same_name(a, b) <==> a.len() == b.len() && forall|i: int|
            0 <= i < a.len() ==> #[trigger] a[i] == b[i] || ('A' <= a[i] <= 'Z' && b[i] as int
                == a[i] as int + 32) || ('A' <= b[i] <= 'Z' && a[i] as int == b[i] as int + 32),
{
    let x = lower_ascii(a);
    let y = lower_ascii(b);
    if same_name(a, b) {
        assert(x.len() == y.len());
        assert forall|i: int| 0 <= i < a.len() implies #[trigger] a[i] == b[i] || ('A' <= a[i] <= 'Z'
            && b[i] as int == a[i] as int + 32) || ('A' <= b[i] <= 'Z' && a[i] as int == b[i] as int
            + 32) by {
            assert(x[i] == y[i]);
        }
    }
    if a.len() == b.len() && forall|i: int|
        0 <= i < a.len() ==> #[trigger] a[i] == b[i] || ('A' <= a[i] <= 'Z' && b[i] as int
            == a[i] as int + 32) || ('A' <= b[i] <= 'Z' && a[i] as int == b[i] as int + 32) {
        assert forall|i: int| 0 <= i < x.len() implies x[i] == y[i] by {
            assert(a[i] == b[i] || ('A' <= a[i] <= 'Z' && b[i] as int == a[i] as int + 32) || ('A'
                <= b[i] <= 'Z' && a[i] as int == b[i] as int + 32));
        }
        assert(x =~= y);
    }
}

/// Tokens are refreshed half a minute before they expire.
pub proof fn law_tokens_are_refreshed_early(tokens: &Tokens, now: u64, expired: bool)
    requires
        call_ensures(Tokens::is_expired_at, (tokens, now), expired),
    ensures
        expired <==> tokens.expires_at <= now + 30,
{
}

/// An access token is kept for the time it has left, and for a second at least.
pub proof fn law_how_long_a_token_is_kept(tokens: &Tokens, now: u64, r: u64)
    requires
        call_ensures(Tokens::seconds_left, (tokens, now), r),
    ensures
        tokens.expires_at > now ==> now + r == tokens.expires_at,
        tokens.expires_at <= now ==> r == 1,
{
}

/// A refresh that was refused, or whose answer cannot be read, leaves no tokens to
/// store; one that succeeds always leaves some, under the refresh token in hand
/// unless a new one came.
pub proof fn law_what_a_refresh_leaves(
    success: bool,
    status: &str,
    body: &str,
    answer: Option<TokenResponse>,
    current: &Tokens,
    now: u64,
    r: Result<Tokens, AuthError>,
)
    requires
        call_ensures(refresh_outcome, (success, status, body, answer, current, now), r),
    ensures
        r is Ok <==> success && answer is Some,
        r matches Ok(t) ==> {
            &&& t.access_token@ == answer->0.access_token@
            &&& answer->0.refresh_token is Some ==> t.refresh_token@
                == answer->0.refresh_token->0@
            &&& answer->0.refresh_token is None ==> t.refresh_token@ == current.refresh_token@
            &&& now + answer->0.expires_in <= u64::MAX ==> t.expires_at == now
                + answer->0.expires_in
        },
        !success ==> (r matches Err(e) && e is RefreshFailed),
        success && answer is None ==> (r matches Err(e) && e is BadRefreshResponse),
{
}

/// A code gives tokens exactly when it was accepted, the answer can be read, and it
/// brings a refresh token.
pub proof fn law_what_a_code_gives(
    success: bool,
    status: &str,
    body: &str,
    answer: Option<TokenResponse>,
    now: u64,
    r: Result<Tokens, AuthError>,
)
    requires
        call_ensures(exchange_outcome, (success, status, body, answer, now), r),
    ensures
        r is Ok <==> success && answer is Some && answer->0.refresh_token is Some,
        r matches Ok(t) ==> t.access_token@ == answer->0.access_token@ && t.refresh_token@
            == answer->0.refresh_token->0@,
        !success ==> (r matches Err(e) && e is ExchangeFailed),
        success && answer is None ==> (r matches Err(e) && e is BadTokenResponse),
{
}

/// How a licence gets a fresh token: by its key where it has one, else as the
/// trial it is, and not at all while it needs none.
pub proof fn law_how_a_licence_is_refreshed(licence: &StoredLicence, needed: bool, r: Refresh)
    requires
        call_ensures(refresh_plan, (licence, needed), r),
    ensures
        !needed <==> r is NotNeeded,
        needed && licence.key is Some ==> (r matches Refresh::Activate(k) && k@
            == licence.key->0@),
        needed && licence.key is None ==> r is StartTrial,
{
}

/// A licence has, at a time, expired exactly when its expiry cannot be read or is
/// not ahead, and wants a fresh token when less than a day is.
pub proof fn law_when_a_licence_has_expired(
    licence: &StoredLicence,
    now: u64,
    expired: bool,
    due: bool,
)
    requires
        call_ensures(StoredLicence::is_expired_at, (licence, now), expired),
        call_ensures(StoredLicence::needs_refresh_at, (licence, now), due),
    ensures
        ({
            let t = unix_time(encode_utf8(licence.expires_at@));
            &&& t is None ==> expired && due
            &&& t is Some && t->0 <= u64::MAX ==> (expired <==> t->0 <= now)
            &&& t is Some && t->0 <= u64::MAX ==> (due <==> t->0 < now + 86_400)
        }),
{
}

/// A new playlist is looked for four times, 700 milliseconds apart, and no longer
/// than until it is found.
pub proof fn law_how_a_new_playlist_is_looked_for(attempt: u32, found: bool, r: LookupNext)
    requires
        call_ensures(next_lookup, (attempt, found), r),
    ensures
        found <==> r is Found,
        !found && attempt <= 2 ==> r == (LookupNext::Wait { ms: 700 }),
        !found && attempt > 2 ==> r is GiveUp,
{
}

/// The first playlist of a name is found, whatever the case of its letters.
pub proof fn law_playlist_is_found_by_name(
    playlists: &Vec<Playlist>,
    name: &str,
    r: Option<usize>,
    k: int,
)
    requires
        call_ensures(playlist_named, (playlists, name), r),
    ensures
        r matches Some(i) ==> i < playlists@.len() && lower_ascii(playlists@[i as int].name@)
            == lower_ascii(name@),
        0 <= k < playlists@.len() && lower_ascii(playlists@[k].name@) == lower_ascii(name@) ==> (
        r matches Some(i) && i <= k),
{
    if 0 <= k < playlists@.len() && lower_ascii(playlists@[k].name@) == lower_ascii(name@) {
        assert(same_name(playlists@[k].name@, name@));
    }
}

/// Whether a developer token was refused, and why: for want of credits, for a bad
/// licence, or for anything else that is no success.
pub proof fn law_why_a_developer_token_is_refused(
    status: u16,
    words: &str,
    body: &str,
    r: Option<TokenRefusal>,
)
    requires
        call_ensures(token_refusal, (status, words, body), r),
    ensures
        r is None <==> 200 <= status <= 299,
        status == 402 <==> (r matches Some(why) && why is OutOfCredits),
        status == 401 || (status != 402 && !(200 <= status <= 299)) <==> (r matches Some(why)
            && why is Failed),
{
}

/// A track is searched for by the words that identify it: its first artist and its
/// song.
pub proof fn law_which_words_identify_a_track(local: &LocalTrack, r: String)
    requires
        call_ensures(plain_query, (local,), r),
    ensures
        r@ == first_artist(local@.artist) + " "@ + local@.parsed.base,
{
}

/// Apple Music is asked again three times at most, with the token in use.
pub proof fn law_how_often_apple_music_is_asked(r: RetryPolicy)
    requires
        call_ensures(api_retries, (), r),
    ensures
        r.max_retries == 3,
        !r.renews_token,
{
}

/// The environment names the client before the settings do, unless it is empty.
pub proof fn law_which_client_is_used(config: &Config, environment: Option<String>, r: Option<String>)
    requires
        call_ensures(Config::client_id, (config, environment), r),
    ensures
        environment is Some && environment->0@.len() > 0 ==> (r matches Some(id) && id@
            == environment->0@),
        environment is None || environment->0@.len() == 0 ==> opt_view(r) == opt_view(
            config.spotify_client_id,
        ),
{
}

/// An id that is long enough is given as it is stored; any other is none.
pub proof fn law_which_id_is_known(config: &Config, r: Option<String>)
    requires
        call_ensures(Config::known_device_id, (config,), r),
    ensures
        r is Some <==> config.device_id is Some && encode_utf8(config.device_id->0@).len() >= 8,
        r matches Some(id) ==> id@ == config.device_id->0@,
{
}

/// What is told of a refusal by the service names the fix for its status, with
/// what the service said only where that says which.
pub proof fn law_each_refusal_names_its_fix(status: u16, detail: Seq<char>, other: Seq<char>)
    ensures
        ({
            let told = service_error(status, detail);
            let fixed = status == 401 || status == 402 || status == 403 || status == 404 || status
                == 503;
            &&& fixed ==> told == service_error(status, other)
            &&& status == 401 ==> told
                == "This licence is no longer valid on this machine. Re-enter it in Settings."@
            &&& status == 402 ==> told
                == "This licence has not been paid for yet. If you have just checked out, give it a few seconds and try again."@
            &&& status == 403 ==> told
                == "That licence has been cancelled. Resubscribe and the same key will work again."@
            &&& status == 404 ==> told
                == "That licence key is not recognised. Check for typos, or paste it again."@
            &&& status == 503 ==> told
                == "The service is temporarily unavailable. Spotify sync is unaffected."@
            &&& status == 400 ==> told == "The service rejected the request: "@ + detail
            &&& status == 409 ==> told == "That licence is already active on all of its devices. "@
                + detail + " Deactivate one before adding this machine."@
            &&& !fixed && status != 400 && status != 409 ==> told == "The service returned "@
                + decimal(status as nat) + ": "@ + detail
        }),
{
}

} // verus!
