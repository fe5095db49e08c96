//! Apple Music.
//!
//! The shape of the client is dictated by two Apple constraints:
//!
//! 1. **Every request needs a developer token**, an ES256 JWT signed with a
//!    private key that cannot ship inside an open-source app. So the token
//!    comes from our service, which holds the key. That is also what makes the
//!    paid tier enforceable: a fork can copy every line here and still not
//!    issue tokens.
//! 2. **Library requests additionally need a Music User Token**, and Apple
//!    publishes no REST endpoint that issues one. It arrives from the hosted
//!    MusicKit page via the loopback listener, and the client only ever reads
//!    it back out of the OS keychain.
//!
//! Catalogue reads are storefront-scoped, so the storefront is discovered once
//! from the signed-in user rather than guessed.

use vstd::prelude::*;
use vstd::utf8::encode_utf8;

use crate::clock::seconds_since_epoch;
use crate::platform::{PlatformEntry, PlatformPlaylist, PlatformTrack, PlatformUser};
use crate::retry::RetryPolicy;
use crate::spotify::{
    clamp_limit, entry_views, playlist_views, track_views, within_limit, EntryView, Playlist,
    PlaylistView, TrackView,
};
use crate::tags::{first_artist, LocalTrack};
use crate::text::{
    chars_of, decimal, lower_ascii, lower_chars, opt_view, or_empty, push_decimal, same,
    string_from, trim, trimmed, views,
};
use crate::timestamp::{seconds_ahead_by, seconds_until_by, unix_time};
use crate::title::{artist_names, split_artists};
use crate::urlencode::{encode_query, encoded};

pub use crate::timestamp::rfc3339_to_unix;

verus! {

pub const API_BASE: &'static str = "https://api.music.apple.com";

/// A request is repeated this often.
pub const MAX_RETRIES: u32 = 3;

/// Apple's own ceiling for catalogue search.
pub const MAX_SEARCH_LIMIT: u32 = 25;

/// Re-fetch a developer token slightly before it expires, so a request never
/// races the expiry it just checked.
pub const TOKEN_REFRESH_SKEW: u64 = 60;

/// A developer token is kept for an hour at most.
pub const MAX_TOKEN_LIFETIME: u64 = 3600;

/// Apple accepts a batch; keep it modest so one rejected id does not cost a
/// whole sync.
pub const MAX_IDS_PER_ADD: usize = 25;

/// How hard to look for a playlist Apple has accepted but not yet listed.
pub const CREATE_LOOKUP_ATTEMPTS: u32 = 4;

pub const CREATE_LOOKUP_DELAY_MS: u64 = 700;

/// What to do after looking for a playlist that was just created.
#[derive(Debug, Clone, Copy, PartialEq, Eq, Structural)]
pub enum LookupNext {
    /// There it is.
    Found,
    /// Wait this long, and look again.
    Wait { ms: u64 },
    /// It has not appeared, and that is enough.
    GiveUp,
}

/// What to do after looking for a playlist that was just created: it may take a
/// moment to appear, and a few short waits beat failing a push that actually
/// succeeded. `attempt` counts the looks before this one.
pub fn next_lookup(attempt: u32, found: bool) -> (r: LookupNext)
    ensures
        r == if found {
            LookupNext::Found
        } else if attempt + 1 < CREATE_LOOKUP_ATTEMPTS {
            LookupNext::Wait { ms: CREATE_LOOKUP_DELAY_MS }
        } else {
            LookupNext::GiveUp
        },
{
    if found {
        LookupNext::Found
    } else if attempt < CREATE_LOOKUP_ATTEMPTS - 1 {
        LookupNext::Wait { ms: CREATE_LOOKUP_DELAY_MS }
    } else {
        LookupNext::GiveUp
    }
}

/// Requests are repeated with the token they have.
pub fn api_retries() -> (r: RetryPolicy)
    ensures
        r == (RetryPolicy { max_retries: MAX_RETRIES, renews_token: false }),
{
    RetryPolicy { max_retries: MAX_RETRIES, renews_token: false }
}

/// Where the developer token comes from.
///
/// Only the hosted variant exists today. The user-provided model additionally
/// needs local ES256 signing of a `.p8`; it is deliberately not stubbed here,
/// so the free Apple path is visibly absent rather than silently broken.
#[derive(Debug)]
pub enum DeveloperTokenSource {
    /// Our token service signs with the key it holds. The activation token
    /// identifies the caller, and the service refuses without credits.
    Hosted { service_url: String, activation_token: String },
}

/// Raised when the service will not issue a developer token because the
/// licence has no credits left. Distinct from every other failure: it is the
/// one the app should answer with "buy more", not "try again".
#[derive(Debug, Clone, Copy, PartialEq, Eq, Structural)]
pub struct OutOfCredits;

impl OutOfCredits {
    pub fn message(&self) -> (r: String)
        ensures
            r@
                == "No credits remaining on this licence. Apple Music pushes are paused until the next billing period or a top-up; Spotify is unaffected."@,
    {
        string_from(
            "No credits remaining on this licence. Apple Music pushes are paused until the next billing period or a top-up; Spotify is unaffected.",
        )
    }
}

/// Why there is no developer token.
#[derive(Debug)]
pub enum TokenRefusal {
    OutOfCredits(OutOfCredits),
    /// Any other failure, in words.
    Failed(String),
}

/// A failure with its status and the answer in round brackets and behind.
pub open spec fn with_status(
    what: Seq<char>,
    status: Seq<char>,
    between: Seq<char>,
    body: Seq<char>,
) -> Seq<char> {
    what + status + between + body
}

fn status_message(what: &str, status: &str, between: &str, body: &str) -> (r: String)
    ensures
        r@ == with_status(what@, status@, between@, body@),
{
    let mut r = string_from(what);
    r.append(status);
    r.append(between);
    r.append(body);
    r
}

/// What the answer to a request for a developer token means, when it is no
/// success. `status_text` is the status in words.
pub fn token_refusal(status: u16, status_text: &str, body: &str) -> (r: Option<TokenRefusal>)
    ensures
        r is None <==> 200 <= status < 300,
        status == 402 <==> r matches Some(TokenRefusal::OutOfCredits(_)),
        status == 401 ==> (r matches Some(TokenRefusal::Failed(m)) && m@
            == "The licence on this machine is not valid. Re-enter it in Settings -> Licence, or start a trial."@),
        !(200 <= status < 300) && status != 401 && status != 402 ==> (r matches Some(
            TokenRefusal::Failed(m),
        ) && m@ == with_status(
            "Could not get a developer token ("@,
            status_text@,
            "): "@,
            body@,
        )),
{
    if status == 402 {
        Some(TokenRefusal::OutOfCredits(OutOfCredits))
    } else if status == 401 {
        Some(
            TokenRefusal::Failed(
                string_from(
                    "The licence on this machine is not valid. Re-enter it in Settings -> Licence, or start a trial.",
                ),
            ),
        )
    } else if 200 <= status && status < 300 {
        None
    } else {
        Some(
            TokenRefusal::Failed(
                status_message("Could not get a developer token (", status_text, "): ", body),
            ),
        )
    }
}

/// For how many seconds to keep a developer token that lives so long. The
/// lifetime the service names is only a hint; it is capped so a bug there
/// cannot pin a stale token in memory for hours.
pub open spec fn keep_for(remaining: Option<u64>) -> u64 {
    let lifetime = match remaining {
        Some(s) => if s < MAX_TOKEN_LIFETIME {
            s
        } else {
            MAX_TOKEN_LIFETIME
        },
        None => MAX_TOKEN_LIFETIME,
    };
    if lifetime > TOKEN_REFRESH_SKEW {
        (lifetime - TOKEN_REFRESH_SKEW) as u64
    } else {
        0
    }
}

/// For how many seconds to keep a developer token that lives so long.
pub fn cache_seconds(remaining: Option<u64>) -> (r: u64)
    ensures
        r == keep_for(remaining),
        r <= MAX_TOKEN_LIFETIME,
{
    let lifetime: u64 = match remaining {
        Some(s) => if s < MAX_TOKEN_LIFETIME {
            s
        } else {
            MAX_TOKEN_LIFETIME
        },
        None => MAX_TOKEN_LIFETIME,
    };
    if lifetime > TOKEN_REFRESH_SKEW {
        lifetime - TOKEN_REFRESH_SKEW
    } else {
        0
    }
}

/// For how many seconds, by a reading of the clock, to keep a developer token
/// that expires at a timestamp.
pub open spec fn keep_for_by(expires_at: Option<Seq<char>>, reading: Option<u64>) -> u64 {
    keep_for(
        match expires_at {
            Some(t) => seconds_ahead_by(t, reading),
            None => None,
        },
    )
}

/// For how many seconds, by a reading of the clock, to keep a developer token
/// that expires at a timestamp. One that cannot be read leaves the longest.
pub fn developer_token_lifetime_by(expires_at: &Option<String>, reading: Option<u64>) -> (r: u64)
    ensures
        r == keep_for_by(opt_view(*expires_at), reading),
        r <= MAX_TOKEN_LIFETIME - TOKEN_REFRESH_SKEW,
{
    let remaining: Option<u64> = match expires_at {
        Some(t) => seconds_until_by(t.as_str(), reading),
        None => None,
    };
    cache_seconds(remaining)
}

/// For how many seconds from now to keep a developer token that expires at a
/// timestamp. How many depends on the clock; one that cannot be read leaves
/// the longest.
pub fn developer_token_lifetime(expires_at: &Option<String>) -> (r: u64)
    ensures
        r <= MAX_TOKEN_LIFETIME - TOKEN_REFRESH_SKEW,
        (*expires_at is None || unix_time(encode_utf8(or_empty(opt_view(*expires_at)))) is None)
            ==> r == MAX_TOKEN_LIFETIME - TOKEN_REFRESH_SKEW,
{
    developer_token_lifetime_by(expires_at, seconds_since_epoch())
}

/// What a failure means, and its fix.
pub open spec fn failure_text(status: u16, body: Seq<char>) -> Seq<char> {
    let number = decimal(status as nat);
    if status == 401 {
        with_status(
            "Apple Music rejected the developer token ("@,
            number,
            "). It may have expired; retrying usually re-issues one. Body: "@,
            body,
        )
    } else if status == 403 {
        with_status(
            "Apple Music refused the request ("@,
            number,
            "). The usual cause is an account without an active Apple Music subscription — the API allows catalogue search without one but refuses every library operation. Body: "@,
            body,
        )
    } else if status == 404 {
        with_status(
            "Apple Music found nothing at that address ("@,
            number,
            "). For a playlist this normally means it was deleted on another device. Body: "@,
            body,
        )
    } else {
        with_status("Apple Music error ("@, number, "): "@, body)
    }
}

/// Turn Apple's status codes into something that names the actual fix.
pub fn describe_failure(status: u16, body: &str) -> (r: String)
    ensures
        r@ == failure_text(status, body@),
{
    let mut number = String::new();
    push_decimal(&mut number, status as u64);
    assert(number@ =~= decimal(status as nat));
    if status == 401 {
        status_message(
            "Apple Music rejected the developer token (",
            number.as_str(),
            "). It may have expired; retrying usually re-issues one. Body: ",
            body,
        )
    } else if status == 403 {
        status_message(
            "Apple Music refused the request (",
            number.as_str(),
            "). The usual cause is an account without an active Apple Music subscription — the API allows catalogue search without one but refuses every library operation. Body: ",
            body,
        )
    } else if status == 404 {
        status_message(
            "Apple Music found nothing at that address (",
            number.as_str(),
            "). For a playlist this normally means it was deleted on another device. Body: ",
            body,
        )
    } else {
        status_message("Apple Music error (", number.as_str(), "): ", body)
    }
}

/// A search term as a query value.
pub fn urlencode(value: &str) -> (r: String)
    ensures
        r@ == encoded(encode_utf8(value@), true),
{
    encode_query(value, true)
}

/// The address of a catalogue search.
pub fn search_url(storefront: &str, term: &str, limit: u32) -> (r: String)
    ensures
        r@ == API_BASE@ + "/v1/catalog/"@ + storefront@ + "/search?term="@ + encoded(
            encode_utf8(term@),
            true,
        ) + "&types=songs&limit="@ + decimal(within_limit(limit, MAX_SEARCH_LIMIT) as nat),
{
    let mut r = string_from(API_BASE);
    r.append("/v1/catalog/");
    r.append(storefront);
    r.append("/search?term=");
    r.append(urlencode(term).as_str());
    r.append("&types=songs&limit=");
    push_decimal(&mut r, clamp_limit(limit, MAX_SEARCH_LIMIT) as u64);
    r
}

/// The address of the songs with a recording identifier.
pub fn isrc_url(storefront: &str, isrc: &str) -> (r: String)
    ensures
        r@ == API_BASE@ + "/v1/catalog/"@ + storefront@ + "/songs?filter[isrc]="@ + encoded(
            encode_utf8(isrc@),
            true,
        ),
{
    let mut r = string_from(API_BASE);
    r.append("/v1/catalog/");
    r.append(storefront);
    r.append("/songs?filter[isrc]=");
    r.append(urlencode(isrc).as_str());
    r
}

/// The address of the next page. Apple gives a path, not an absolute URL.
pub fn next_page(next: Option<String>) -> (r: Option<String>)
    ensures
        opt_view(r) == match next {
            Some(path) => Some(API_BASE@ + path@),
            None => None,
        },
{
    match next {
        Some(path) => {
            let mut r = string_from(API_BASE);
            r.append(path.as_str());
            Some(r)
        },
        None => None,
    }
}

/// The words that identify a track.
pub fn plain_query(local: &LocalTrack) -> (r: String)
    ensures
        r@ == first_artist(local@.artist) + " "@ + local@.parsed.base,
{
    let mut r = local.primary_artist();
    r.append(" ");
    r.append(local.parsed.base.as_str());
    r
}

/// The account's storefront.
#[derive(Debug)]
pub struct Storefront {
    pub id: String,
    pub name: Option<String>,
}

/// Apple exposes no "me" profile — no name, no id, by design. The storefront is
/// the only identifying fact available.
pub fn storefront_user(storefront: Storefront) -> (r: PlatformUser)
    ensures
        r.id@ == storefront.id@,
        opt_view(r.display_name) == opt_view(storefront.name),
{
    PlatformUser { id: storefront.id, display_name: storefront.name }
}

/// A song as the service sends it. Apple omits fields freely.
#[derive(Debug)]
pub struct Song {
    pub id: String,
    pub name: Option<String>,
    pub artist_name: Option<String>,
    pub album_name: Option<String>,
    pub duration_in_millis: Option<u64>,
    pub isrc: Option<String>,
    pub url: Option<String>,
    /// Present on library songs; the catalogue id the library entry was
    /// created from.
    pub catalog_id: Option<String>,
}

/// The names in an artist field; the field itself when it names none.
pub open spec fn names_in(value: Seq<char>) -> Seq<Seq<char>> {
    if artist_names(value).len() == 0 {
        seq![value]
    } else {
        artist_names(value)
    }
}

/// Apple returns one `artistName` string rather than a list. Splitting it lets
/// the matcher's token comparison work the same way it does for Spotify.
pub fn split_artist_name(value: &str) -> (r: Vec<String>)
    ensures
        views(r@) == names_in(value@),
{
    let names = split_artists(value);
    assert(views(names@).len() == names@.len());
    if names.len() == 0 {
        let mut r: Vec<String> = Vec::new();
        r.push(string_from(value));
        assert(views(r@) =~= seq![value@]);
        r
    } else {
        names
    }
}

impl Song {
    /// The id to add the song under: that in the catalogue, which a library
    /// song carries apart from its own.
    pub open spec fn addable_id(self) -> Seq<char> {
        match self.catalog_id {
            Some(id) => id@,
            None => self.id@,
        }
    }

    /// The song as a track. Apple publishes no popularity score, so there is
    /// none, rather than a low one.
    pub open spec fn track(self) -> TrackView {
        TrackView {
            id: self.addable_id(),
            uri: self.addable_id(),
            name: or_empty(opt_view(self.name)),
            artists: names_in(or_empty(opt_view(self.artist_name))),
            album: or_empty(opt_view(self.album_name)),
            duration_ms: match self.duration_in_millis {
                Some(ms) => ms,
                None => 0,
            },
            isrc: opt_view(self.isrc),
            url: opt_view(self.url),
            popularity: None,
        }
    }

    /// The song as an entry of a playlist.
    pub open spec fn entry(self) -> EntryView {
        EntryView {
            uri: self.track().uri,
            name: self.track().name,
            artists: self.track().artists,
            duration_ms: self.track().duration_ms,
        }
    }

    pub fn into_track(self) -> (r: PlatformTrack)
        ensures
            r@ == self.track(),
    {
        // Apple's "uri" is just the catalogue id — that is what an add-to-
        // playlist request takes, so storing anything else would need
        // translating back at push time.
        let id = match self.catalog_id {
            Some(id) => id,
            None => self.id,
        };
        let name = match self.name {
            Some(name) => name,
            None => String::new(),
        };
        let artists = match self.artist_name {
            Some(artist) => split_artist_name(artist.as_str()),
            None => {
                assert(""@ =~= Seq::<char>::empty()) by {
                    reveal_strlit("");
                }
                split_artist_name("")
            },
        };
        let album = match self.album_name {
            Some(album) => album,
            None => String::new(),
        };
        let duration_ms: u64 = match self.duration_in_millis {
            Some(ms) => ms,
            None => 0,
        };
        PlatformTrack {
            uri: id.clone(),
            id,
            name,
            artists,
            album,
            duration_ms,
            isrc: self.isrc,
            url: self.url,
            popularity: None,
        }
    }

    pub fn into_entry(self) -> (r: PlatformEntry)
        ensures
            r@ == self.entry(),
    {
        let track = self.into_track();
        PlatformEntry {
            uri: track.uri,
            name: track.name,
            artists: track.artists,
            duration_ms: track.duration_ms,
        }
    }
}

/// The songs as tracks.
pub fn tracks_of(songs: Vec<Song>) -> (r: Vec<PlatformTrack>)
    ensures
        track_views(r@) == songs@.map_values(|s: Song| s.track()),
{
    let ghost all = songs@;
    let mut r: Vec<PlatformTrack> = Vec::new();
    for song in it: songs.into_iter()
        invariant
            it.seq() == all,
            track_views(r@) == all.take(it.index() as int).map_values(|s: Song| s.track()),
    {
        let ghost before = r@;
        let ghost i = it.index();
        let t = song.into_track();
        r.push(t);
        assert(track_views(r@) =~= track_views(before).push(t@));
        assert(track_views(r@) =~= all.take(i + 1).map_values(|s: Song| s.track()));
    }
    assert(all.take(all.len() as int) =~= all);
    r
}

/// The songs as entries of a playlist.
pub fn entries_of(songs: Vec<Song>) -> (r: Vec<PlatformEntry>)
    ensures
        entry_views(r@) == songs@.map_values(|s: Song| s.entry()),
{
    let ghost all = songs@;
    let mut r: Vec<PlatformEntry> = Vec::new();
    for song in it: songs.into_iter()
        invariant
            it.seq() == all,
            entry_views(r@) == all.take(it.index() as int).map_values(|s: Song| s.entry()),
    {
        let ghost before = r@;
        let ghost i = it.index();
        let e = song.into_entry();
        r.push(e);
        assert(entry_views(r@) =~= entry_views(before).push(e@));
        assert(entry_views(r@) =~= all.take(i + 1).map_values(|s: Song| s.entry()));
    }
    assert(all.take(all.len() as int) =~= all);
    r
}

/// A playlist of the user's library, as the service sends it.
#[derive(Debug)]
pub struct LibraryPlaylist {
    pub id: String,
    pub name: Option<String>,
    pub can_edit: Option<bool>,
}

impl LibraryPlaylist {
    /// Whether tracks can be added. A missing flag means unknown, which is
    /// treated as yes: hiding everything because Apple omitted a field would
    /// be worse.
    pub open spec fn writable(self) -> bool {
        self.can_edit != Some(false)
    }

    /// The playlist. Apple gives no public flag, no owner and no track count;
    /// "unknown" is true, rather than asserting one.
    pub open spec fn playlist(self) -> PlaylistView {
        PlaylistView {
            id: self.id@,
            name: or_empty(opt_view(self.name)),
            public: None,
            owner: None,
            total: None,
        }
    }

    /// Whether tracks can be added.
    pub fn is_writable(&self) -> (r: bool)
        ensures
            r == self.writable(),
    {
        match self.can_edit {
            Some(can) => can,
            None => true,
        }
    }

    pub fn into_playlist(self) -> (r: PlatformPlaylist)
        ensures
            r@ == self.playlist(),
    {
        let name = match self.name {
            Some(name) => name,
            None => String::new(),
        };
        PlatformPlaylist { id: self.id, name, public: None, owner: None, items: None }
    }
}

/// The playlists that can be sync targets.
pub open spec fn writable_only(playlists: Seq<LibraryPlaylist>) -> Seq<PlaylistView>
    decreases playlists.len(),
{
    if playlists.len() == 0 {
        Seq::empty()
    } else {
        let before = writable_only(playlists.drop_last());
        if playlists.last().writable() {
            before.push(playlists.last().playlist())
        } else {
            before
        }
    }
}

/// The playlists that can be sync targets.
///
/// Playlists added from the Apple Music catalogue live in the library but
/// refuse writes. Listing them as sync targets would turn a clear "no editable
/// playlist by that name" into a refusal at push time.
pub fn sync_targets(playlists: Vec<LibraryPlaylist>) -> (r: Vec<PlatformPlaylist>)
    ensures
        playlist_views(r@) == writable_only(playlists@),
{
    let ghost all = playlists@;
    let mut r: Vec<PlatformPlaylist> = Vec::new();
    assert(playlist_views(r@) =~= writable_only(all.take(0)));
    for p in it: playlists.into_iter()
        invariant
            it.seq() == all,
            playlist_views(r@) == writable_only(all.take(it.index() as int)),
    {
        let ghost before = r@;
        let ghost i = it.index();
        assert(all.take(i + 1).drop_last() =~= all.take(i as int));
        if p.is_writable() {
            let q = p.into_playlist();
            r.push(q);
            assert(playlist_views(r@) =~= playlist_views(before).push(q@));
        }
    }
    assert(all.take(all.len() as int) =~= all);
    r
}

/// The created playlist, when Apple bothered to return one. `parsed` is what
/// the body lists, when it can be read at all.
///
/// An empty or unreadable body is a normal successful response here, not a
/// failure: library writes are applied asynchronously.
pub fn created_playlist(body: &str, parsed: Option<Vec<LibraryPlaylist>>) -> (r: Option<
    PlatformPlaylist,
>)
    ensures
        (match r {
            Some(p) => Some(p@),
            None => None,
        }) == match parsed {
            Some(list) => if trimmed(body@).len() > 0 && list@.len() > 0 {
                Some(list@[0].playlist())
            } else {
                None
            },
            None => None,
        },
{
    let chars = chars_of(body);
    if trim(chars.as_slice()).len() == 0 {
        return None;
    }
    match parsed {
        Some(list) => {
            let mut list = list;
            if list.len() == 0 {
                return None;
            }
            Some(list.swap_remove(0).into_playlist())
        },
        None => None,
    }
}

/// Whether two names are the same but for the case of ASCII letters.
pub open spec fn same_name(a: Seq<char>, b: Seq<char>) -> bool {
    lower_ascii(a) == lower_ascii(b)
}

/// The position of the first playlist of a name, capitals or not.
///
/// Creating by name is idempotent: Apple's library is eventually consistent,
/// so a playlist created a moment ago may not be in the list the caller
/// checked before deciding to create one.
pub fn playlist_named(playlists: &Vec<Playlist>, name: &str) -> (r: Option<usize>)
    ensures
        match r {
            Some(i) => {
                &&& i < playlists@.len()
                &&& same_name(playlists@[i as int].name@, name@)
                &&& forall|j: int|
                    0 <= j < i ==> !same_name((#[trigger] playlists@[j]).name@, name@)
            },
            None => forall|j: int|
                0 <= j < playlists@.len() ==> !same_name((#[trigger] playlists@[j]).name@, name@),
        },
{
    let wanted = chars_of(name);
    let wanted = lower_chars(wanted.as_slice());
    let mut i: usize = 0;
    while i < playlists.len()
        invariant
            i <= playlists.len(),
            wanted@ == lower_ascii(name@),
            forall|j: int| 0 <= j < i ==> !same_name((#[trigger] playlists@[j]).name@, name@),
        decreases playlists.len() - i,
    {
        let found = chars_of(playlists[i].name.as_str());
        let found = lower_chars(found.as_slice());
        if same(found.as_slice(), wanted.as_slice()) {
            return Some(i);
        }
        i = i + 1;
    }
    None
}

/// A library song is added under its catalogue id; its own id would be refused.
pub proof fn law_catalogue_id_wins(song: Song)
    requires
        song.catalog_id is Some,
    ensures
        song.track().uri == song.catalog_id->0@,
        song.entry().uri == song.catalog_id->0@,
        song.track().id == song.track().uri,
{
}

/// Every sync target is writable by whoever is signed in, and none that
/// refuses writes is listed.
pub proof fn law_sync_targets_accept_writes(playlists: Seq<LibraryPlaylist>, i: int)
    requires
        0 <= i < writable_only(playlists).len(),
    ensures
        exists|k: int|
            0 <= k < playlists.len() && (#[trigger] playlists[k]).writable()
                && playlists[k].playlist() == writable_only(playlists)[i],
        writable_only(playlists)[i].owner is None,
    decreases playlists.len(),
{
    let init = playlists.drop_last();
    let before = writable_only(init);
    if i < before.len() {
        law_sync_targets_accept_writes(init, i);
        let k = choose|k: int|
            0 <= k < init.len() && (#[trigger] init[k]).writable() && init[k].playlist()
                == before[i];
        assert(playlists[k] == init[k]);
    } else {
        assert(playlists[playlists.len() - 1].writable());
    }
}

} // verus!
