//! What the Spotify Web API exchanges, and what the client decides about it.

use vstd::prelude::*;

use crate::matcher::{same_by_meta, same_recording_meta};
use crate::normalize::alphanumeric;
use crate::retry::RetryPolicy;
use crate::tags::{first_artist, uppercase, uppercase_of, LocalTrack, LocalView};
use crate::text::{
    chars_of, clone_opt, clone_strings, contains, decimal, has, join, join_strings, length_text,
    minutes_seconds, opt_view, push_decimal, same_str, string_from, string_of, trim, trimmed, views,
};

pub use crate::retry::RequestStats;

verus! {

/// A track in a streaming catalogue.
#[derive(Debug)]
pub struct SpotifyTrack {
    pub id: String,
    pub uri: String,
    pub name: String,
    pub artists: Vec<String>,
    pub album: String,
    pub duration_ms: u64,
    pub isrc: Option<String>,
    pub url: Option<String>,
    pub popularity: Option<u32>,
}

/// What a catalogue track says.
#[verifier::ext_equal]
pub struct TrackView {
    pub id: Seq<char>,
    pub uri: Seq<char>,
    pub name: Seq<char>,
    pub artists: Seq<Seq<char>>,
    pub album: Seq<char>,
    pub duration_ms: u64,
    pub isrc: Option<Seq<char>>,
    pub url: Option<Seq<char>>,
    pub popularity: Option<u32>,
}

impl View for SpotifyTrack {
    type V = TrackView;

    open spec fn view(&self) -> TrackView {
        TrackView {
            id: self.id@,
            uri: self.uri@,
            name: self.name@,
            artists: views(self.artists@),
            album: self.album@,
            duration_ms: self.duration_ms,
            isrc: opt_view(self.isrc),
            url: opt_view(self.url),
            popularity: self.popularity,
        }
    }
}

impl Clone for SpotifyTrack {
    fn clone(&self) -> (r: Self)
        ensures
            r@ == self@,
    {
        SpotifyTrack {
            id: self.id.clone(),
            uri: self.uri.clone(),
            name: self.name.clone(),
            artists: clone_strings(&self.artists),
            album: self.album.clone(),
            duration_ms: self.duration_ms,
            isrc: clone_opt(&self.isrc),
            url: clone_opt(&self.url),
            popularity: self.popularity,
        }
    }
}

/// All artists in one line.
pub open spec fn artist_line(artists: Seq<Seq<char>>) -> Seq<char> {
    join(artists, ", "@)
}

impl SpotifyTrack {
    /// All artists joined, for token-set comparison against the local tag.
    pub fn artist_field(&self) -> (r: String)
        ensures
            r@ == artist_line(self@.artists),
    {
        join_strings(&self.artists, ", ")
    }

    pub fn duration_display(&self) -> (r: String)
        ensures
            r@ == minutes_seconds(self.duration_ms as nat),
    {
        length_text(self.duration_ms)
    }
}

/// What each of the tracks says.
pub open spec fn track_views(v: Seq<SpotifyTrack>) -> Seq<TrackView> {
    v.map_values(|t: SpotifyTrack| t@)
}

/// The signed-in user.
#[derive(Debug)]
pub struct SpotifyUser {
    pub id: String,
    pub display_name: Option<String>,
}

#[derive(Debug)]
pub struct PlaylistOwner {
    pub id: String,
}

#[derive(Debug)]
pub struct PlaylistItemsRef {
    pub total: u32,
}

#[derive(Debug)]
pub struct Playlist {
    pub id: String,
    pub name: String,
    pub public: Option<bool>,
    pub owner: Option<PlaylistOwner>,
    pub items: Option<PlaylistItemsRef>,
}

/// What a playlist says.
#[verifier::ext_equal]
pub struct PlaylistView {
    pub id: Seq<char>,
    pub name: Seq<char>,
    pub public: Option<bool>,
    pub owner: Option<Seq<char>>,
    pub total: Option<u32>,
}

impl View for Playlist {
    type V = PlaylistView;

    open spec fn view(&self) -> PlaylistView {
        PlaylistView {
            id: self.id@,
            name: self.name@,
            public: self.public,
            owner: match self.owner {
                Some(owner) => Some(owner.id@),
                None => None,
            },
            total: match self.items {
                Some(items) => Some(items.total),
                None => None,
            },
        }
    }
}

/// What each of the playlists says.
pub open spec fn playlist_views(v: Seq<Playlist>) -> Seq<PlaylistView> {
    v.map_values(|p: Playlist| p@)
}

impl Playlist {
    /// `None` when Spotify omits the count, which it does for playlists the
    /// user neither owns nor collaborates on. Reporting that as 0 misleads.
    pub fn track_count(&self) -> (r: Option<u32>)
        ensures
            r == self@.total,
    {
        match &self.items {
            Some(items) => Some(items.total),
            None => None,
        }
    }

    pub fn is_owned_by(&self, user_id: &str) -> (r: bool)
        ensures
            r == (self@.owner == Some(user_id@)),
    {
        match &self.owner {
            Some(owner) => same_str(owner.id.as_str(), user_id),
            None => false,
        }
    }

    /// Whether this playlist can be a sync target.
    ///
    /// Not the same question as ownership. Spotify's playlist list includes
    /// playlists the user merely follows, which cannot be written to, so there
    /// the owner has to match. Apple's library playlists are by definition the
    /// user's own and carry no owner field at all — reading that absence as
    /// "not mine" would mean never finding the playlist again and creating a
    /// fresh duplicate on every run.
    pub fn is_writable_by(&self, user_id: &str) -> (r: bool)
        ensures
            r == (self@.owner is None || self@.owner == Some(user_id@)),
    {
        match &self.owner {
            Some(owner) => same_str(owner.id.as_str(), user_id),
            None => true,
        }
    }
}

/// One track already sitting in a playlist.
#[derive(Debug)]
pub struct PlaylistEntry {
    pub uri: String,
    pub name: String,
    pub artists: Vec<String>,
    pub duration_ms: u64,
}

/// What a playlist entry says.
#[verifier::ext_equal]
pub struct EntryView {
    pub uri: Seq<char>,
    pub name: Seq<char>,
    pub artists: Seq<Seq<char>>,
    pub duration_ms: u64,
}

impl View for PlaylistEntry {
    type V = EntryView;

    open spec fn view(&self) -> EntryView {
        EntryView {
            uri: self.uri@,
            name: self.name@,
            artists: views(self.artists@),
            duration_ms: self.duration_ms,
        }
    }
}

/// What each of the entries says.
pub open spec fn entry_views(v: Seq<PlaylistEntry>) -> Seq<EntryView> {
    v.map_values(|e: PlaylistEntry| e@)
}

/// Whether a playlist entry is the recording of a track: the same listing of
/// it, or another.
pub open spec fn holds_recording(entry: EntryView, track: TrackView) -> bool {
    entry.uri == track.uri || same_by_meta(
        artist_line(entry.artists),
        entry.name,
        entry.duration_ms,
        artist_line(track.artists),
        track.name,
        track.duration_ms,
    )
}

impl PlaylistEntry {
    pub fn artist_field(&self) -> (r: String)
        ensures
            r@ == artist_line(self@.artists),
    {
        join_strings(&self.artists, ", ")
    }

    /// Whether this entry is the same recording as a candidate, even if
    /// Spotify indexes them under different URIs.
    pub fn is_same_recording_as(&self, track: &SpotifyTrack) -> (r: bool)
        ensures
            r == holds_recording(self@, track@),
    {
        same_str(self.uri.as_str(), track.uri.as_str()) || same_recording_meta(
            self.artist_field().as_str(),
            self.name.as_str(),
            self.duration_ms,
            track.artist_field().as_str(),
            track.name.as_str(),
            track.duration_ms,
        )
    }
}

/// A track of a search result, as the service sends it.
#[derive(Debug)]
pub struct ApiTrack {
    pub id: Option<String>,
    pub uri: Option<String>,
    pub name: String,
    pub artists: Vec<String>,
    pub album: Option<String>,
    pub duration_ms: u64,
    pub isrc: Option<String>,
    pub url: Option<String>,
    pub popularity: Option<u32>,
}

impl ApiTrack {
    /// The track, unless it has no id.
    pub open spec fn track(self) -> Option<TrackView> {
        match self.id {
            None => None,
            Some(id) => Some(
                TrackView {
                    id: id@,
                    uri: match self.uri {
                        Some(uri) => uri@,
                        None => "spotify:track:"@ + id@,
                    },
                    name: self.name@,
                    artists: views(self.artists@),
                    album: match self.album {
                        Some(album) => album@,
                        None => Seq::empty(),
                    },
                    duration_ms: self.duration_ms,
                    isrc: match self.isrc {
                        Some(isrc) => Some(uppercase(isrc@)),
                        None => None,
                    },
                    url: opt_view(self.url),
                    popularity: self.popularity,
                },
            ),
        }
    }

    pub fn into_track(self) -> (r: Option<SpotifyTrack>)
        ensures
            (match r {
                Some(t) => Some(t@),
                None => None,
            }) == self.track(),
    {
        match self.id {
            None => None,
            Some(id) => {
                let uri = match self.uri {
                    Some(uri) => uri,
                    None => {
                        let mut uri = string_from("spotify:track:");
                        uri.append(id.as_str());
                        uri
                    },
                };
                let album = match self.album {
                    Some(album) => album,
                    None => String::new(),
                };
                let isrc = match self.isrc {
                    Some(isrc) => Some(uppercase_of(isrc.as_str())),
                    None => None,
                };
                Some(
                    SpotifyTrack {
                        id,
                        uri,
                        name: self.name,
                        artists: self.artists,
                        album,
                        duration_ms: self.duration_ms,
                        isrc,
                        url: self.url,
                        popularity: self.popularity,
                    },
                )
            },
        }
    }
}

/// The tracks of a search result that have an id.
pub open spec fn usable_tracks(items: Seq<ApiTrack>) -> Seq<TrackView>
    decreases items.len(),
{
    if items.len() == 0 {
        Seq::empty()
    } else {
        match items.last().track() {
            Some(t) => usable_tracks(items.drop_last()).push(t),
            None => usable_tracks(items.drop_last()),
        }
    }
}

/// The tracks of a search result that have an id.
pub fn tracks_of(items: Vec<ApiTrack>) -> (r: Vec<SpotifyTrack>)
    ensures
        track_views(r@) == usable_tracks(items@),
{
    let ghost all = items@;
    let mut r: Vec<SpotifyTrack> = Vec::new();
    assert(track_views(r@) =~= usable_tracks(all.take(0)));
    for item in it: items.into_iter()
        invariant
            it.seq() == all,
            track_views(r@) == usable_tracks(all.take(it.index() as int)),
    {
        let ghost i = it.index();
        let ghost before = r@;
        assert(all.take(i + 1).drop_last() =~= all.take(i as int));
        if let Some(t) = item.into_track() {
            r.push(t);
            assert(track_views(r@) =~= track_views(before).push(t@));
        }
    }
    assert(all.take(all.len() as int) =~= all);
    r
}

/// A track in a row of a playlist, as the service sends it.
#[derive(Debug)]
pub struct RowTrack {
    pub uri: Option<String>,
    pub name: String,
    pub artists: Vec<String>,
    pub duration_ms: u64,
}

/// The entry in a row, unless there is no track or it cannot be addressed.
pub open spec fn row_entry(row: Option<RowTrack>) -> Option<EntryView> {
    match row {
        Some(t) => match t.uri {
            Some(uri) => Some(
                EntryView {
                    uri: uri@,
                    name: t.name@,
                    artists: views(t.artists@),
                    duration_ms: t.duration_ms,
                },
            ),
            None => None,
        },
        None => None,
    }
}

/// The entries of a playlist.
pub open spec fn row_entries(rows: Seq<Option<RowTrack>>) -> Seq<EntryView>
    decreases rows.len(),
{
    if rows.len() == 0 {
        Seq::empty()
    } else {
        match row_entry(rows.last()) {
            Some(e) => row_entries(rows.drop_last()).push(e),
            None => row_entries(rows.drop_last()),
        }
    }
}

/// The entries of a playlist, out of its rows.
pub fn entries_of(rows: Vec<Option<RowTrack>>) -> (r: Vec<PlaylistEntry>)
    ensures
        entry_views(r@) == row_entries(rows@),
{
    let ghost all = rows@;
    let mut r: Vec<PlaylistEntry> = Vec::new();
    assert(entry_views(r@) =~= row_entries(all.take(0)));
    for row in it: rows.into_iter()
        invariant
            it.seq() == all,
            entry_views(r@) == row_entries(all.take(it.index() as int)),
    {
        let ghost i = it.index();
        let ghost before = r@;
        assert(all.take(i + 1).drop_last() =~= all.take(i as int));
        if let Some(t) = row {
            if let Some(uri) = t.uri {
                let entry = PlaylistEntry {
                    uri,
                    name: t.name,
                    artists: t.artists,
                    duration_ms: t.duration_ms,
                };
                r.push(entry);
                assert(entry_views(r@) =~= entry_views(before).push(entry@));
            }
        }
    }
    assert(all.take(all.len() as int) =~= all);
    r
}

/// A request is repeated this often.
pub const MAX_RETRIES: u32 = 4;

/// Every endpoint asks again, with a new token when the one in use is refused.
pub fn api_retries() -> (r: RetryPolicy)
    ensures
        r == (RetryPolicy { max_retries: MAX_RETRIES, renews_token: true }),
{
    RetryPolicy { max_retries: MAX_RETRIES, renews_token: true }
}

/// More results than this in one search fail the whole query.
pub const MAX_SEARCH_LIMIT: u32 = 10;

/// Playlist additions are one of the few endpoints that *does* batch.
pub const MAX_URIS_PER_ADD: usize = 100;

/// Search is one track per request — there is no batch endpoint — so a large
/// download folder means one call per track. Pace them.
pub const MIN_REQUEST_GAP_MS: u64 = 120;

/// A number of results that a service accepts.
pub open spec fn within_limit(limit: u32, max: u32) -> u32 {
    if limit < 1 {
        1
    } else if limit > max {
        max
    } else {
        limit
    }
}

/// A number of results that a service accepts.
pub fn clamp_limit(limit: u32, max: u32) -> (r: u32)
    ensures
        r == within_limit(limit, max),
{
    if limit < 1 {
        1
    } else if limit > max {
        max
    } else {
        limit
    }
}

/// How long to wait before the next request, when this long has passed since
/// the last.
pub fn pace(elapsed_ms: u64) -> (r: u64)
    ensures
        r == if elapsed_ms < MIN_REQUEST_GAP_MS {
            (MIN_REQUEST_GAP_MS - elapsed_ms) as u64
        } else {
            0
        },
{
    if elapsed_ms < MIN_REQUEST_GAP_MS {
        MIN_REQUEST_GAP_MS - elapsed_ms
    } else {
        0
    }
}

/// What pairs of texts say.
pub open spec fn pair_views(v: Seq<(String, String)>) -> Seq<(Seq<char>, Seq<char>)> {
    v.map_values(|p: (String, String)| (p.0@, p.1@))
}

/// The parameters of a search.
pub open spec fn search_query(query: Seq<char>, limit: u32, market: Option<Seq<char>>) -> Seq<
    (Seq<char>, Seq<char>),
> {
    let base = seq![
        ("q"@, query),
        ("type"@, "track"@),
        ("limit"@, decimal(within_limit(limit, MAX_SEARCH_LIMIT) as nat)),
    ];
    match market {
        Some(m) => base.push(("market"@, m)),
        None => base,
    }
}

/// The parameters of a search.
pub fn search_params(query: &str, limit: u32, market: &Option<String>) -> (r: Vec<
    (String, String),
>)
    ensures
        pair_views(r@) == search_query(query@, limit, opt_view(*market)),
{
    let mut count = String::new();
    push_decimal(&mut count, clamp_limit(limit, MAX_SEARCH_LIMIT) as u64);
    assert(count@ =~= decimal(within_limit(limit, MAX_SEARCH_LIMIT) as nat));
    let mut r: Vec<(String, String)> = Vec::new();
    r.push((string_from("q"), string_from(query)));
    r.push((string_from("type"), string_from("track")));
    r.push((string_from("limit"), count));
    if let Some(m) = market {
        r.push((string_from("market"), m.clone()));
    }
    assert(pair_views(r@) =~= search_query(query@, limit, opt_view(*market)));
    r
}

/// `input` with quotes and backslashes blanked.
pub open spec fn escaped(input: Seq<char>) -> Seq<char> {
    input.map_values(
        |c: char|
            if c == '"' || c == '\\' {
                ' '
            } else {
                c
            },
    )
}

/// `input` with quotes and backslashes blanked, so that it cannot leave the
/// quotes it is put in.
pub fn escape(input: &str) -> (r: String)
    ensures
        r@ == escaped(input@),
{
    let chars = chars_of(input);
    let mut r = String::new();
    let mut i: usize = 0;
    while i < chars.len()
        invariant
            i <= chars.len(),
            r@ == escaped(chars@.take(i as int)),
        decreases chars.len() - i,
    {
        let c = chars[i];
        if c == '"' || c == '\\' {
            r.push(' ');
        } else {
            r.push(c);
        }
        i = i + 1;
        assert(r@ =~= escaped(chars@.take(i as int)));
    }
    assert(chars@.take(chars@.len() as int) =~= chars@);
    r
}

/// The letters and numbers of a code.
pub open spec fn code_chars(isrc: Seq<char>) -> Seq<char> {
    isrc.filter(|c: char| alphanumeric(c))
}

/// The query for a recording identifier, unless nothing is left of it.
pub open spec fn code_query(isrc: Seq<char>) -> Option<Seq<char>> {
    if code_chars(isrc).len() == 0 {
        None
    } else {
        Some("isrc:"@ + uppercase(code_chars(isrc)))
    }
}

/// The query for a recording identifier, unless nothing is left of it.
pub fn isrc_query(isrc: &str) -> (r: Option<String>)
    ensures
        opt_view(r) == code_query(isrc@),
{
    let chars = chars_of(isrc);
    let mut kept: Vec<char> = Vec::new();
    let mut i: usize = 0;
    proof {
        reveal(Seq::filter);
        assert(kept@ =~= code_chars(chars@.take(0)));
    }
    while i < chars.len()
        invariant
            i <= chars.len(),
            kept@ == code_chars(chars@.take(i as int)),
        decreases chars.len() - i,
    {
        proof {
            reveal(Seq::filter);
            assert(chars@.take(i + 1).drop_last() =~= chars@.take(i as int));
        }
        if chars[i].is_alphanumeric() {
            kept.push(chars[i]);
        }
        i = i + 1;
    }
    assert(chars@.take(chars@.len() as int) =~= chars@);
    if kept.len() == 0 {
        return None;
    }
    let code = string_of(kept.as_slice());
    let mut query = string_from("isrc:");
    query.append(uppercase_of(code.as_str()).as_str());
    Some(query)
}

/// Whether one of the tracks has the id.
pub open spec fn has_id(tracks: Seq<TrackView>, id: Seq<char>) -> bool {
    exists|i: int| 0 <= i < tracks.len() && (#[trigger] tracks[i]).id == id
}

/// `results` and what `more` adds to them.
pub open spec fn merged(results: Seq<TrackView>, more: Seq<TrackView>) -> Seq<TrackView>
    decreases more.len(),
{
    if more.len() == 0 {
        results
    } else {
        let before = merged(results, more.drop_last());
        if has_id(before, more.last().id) {
            before
        } else {
            before.push(more.last())
        }
    }
}

fn holds_id(tracks: &Vec<SpotifyTrack>, id: &String) -> (r: bool)
    ensures
        r == has_id(track_views(tracks@), id@),
{
    let mut i: usize = 0;
    while i < tracks.len()
        invariant
            i <= tracks.len(),
            forall|k: int| 0 <= k < i ==> (#[trigger] track_views(tracks@)[k]).id != id@,
        decreases tracks.len() - i,
    {
        assert(track_views(tracks@)[i as int] == tracks@[i as int]@);
        if same_str(tracks[i].id.as_str(), id.as_str()) {
            return true;
        }
        i = i + 1;
    }
    false
}

/// Adds the tracks that are not among the results yet.
pub fn merge_new(results: &mut Vec<SpotifyTrack>, more: Vec<SpotifyTrack>)
    ensures
        track_views(final(results)@) == merged(track_views(old(results)@), track_views(more@)),
{
    let ghost all = track_views(more@);
    let ghost start = track_views(results@);
    assert(all.take(0) =~= Seq::<TrackView>::empty());
    for t in it: more.into_iter()
        invariant
            all == track_views(it.seq()),
            it.seq().len() == all.len(),
            track_views(results@) == merged(start, all.take(it.index() as int)),
    {
        let ghost i = it.index();
        let ghost before = results@;
        assert(all.take(i + 1).drop_last() =~= all.take(i as int));
        assert(all.take(i + 1).last() == t@);
        if !holds_id(results, &t.id) {
            results.push(t);
            assert(track_views(results@) =~= track_views(before).push(t@));
        }
    }
    assert(all.take(all.len() as int) =~= all);
}

/// Merging keeps every result where it was, and afterwards every track that
/// came is there.
pub proof fn law_merge_keeps_and_covers(results: Seq<TrackView>, more: Seq<TrackView>)
    ensures
        results.is_prefix_of(merged(results, more)),
        forall|k: int| 0 <= k < more.len() ==> has_id(merged(results, more), #[trigger] more[k].id),
    decreases more.len(),
{
    if more.len() > 0 {
        let init = more.drop_last();
        let before = merged(results, init);
        let after = merged(results, more);
        law_merge_keeps_and_covers(results, init);
        assert forall|k: int| 0 <= k < more.len() implies has_id(after, #[trigger] more[k].id) by {
            if k < init.len() {
                assert(init[k] == more[k]);
                assert(has_id(before, init[k].id));
                let i = choose|i: int| 0 <= i < before.len() && (#[trigger] before[i]).id
                    == more[k].id;
                assert(after[i].id == more[k].id);
            } else if !has_id(before, more[k].id) {
                assert(after[before.len() as int].id == more[k].id);
            }
        }
    }
}

/// Whether no two tracks have one id.
pub open spec fn distinct_ids(tracks: Seq<TrackView>) -> bool {
    forall|i: int, j: int|
        0 <= i < j < tracks.len() ==> (#[trigger] tracks[i]).id != (#[trigger] tracks[j]).id
}

/// Merging never lists one track twice.
pub proof fn law_merge_adds_no_duplicate(results: Seq<TrackView>, more: Seq<TrackView>)
    requires
        distinct_ids(results),
    ensures
        distinct_ids(merged(results, more)),
    decreases more.len(),
{
    if more.len() > 0 {
        law_merge_adds_no_duplicate(results, more.drop_last());
    }
}

/// Which query of a search comes next.
#[derive(Debug, Clone, Copy, PartialEq, Eq, Structural)]
pub enum SearchStage {
    /// By artist and title fields: far more precise.
    Filtered,
    /// By the words alone, since filters miss when the tag spells the artist
    /// differently from the catalogue.
    Loose,
    /// By the words and the name of the mix.
    Hinted,
    Done,
}

/// A search in progress: every query worth trying for one track, and what they
/// have turned up.
///
/// A plain "artist title" search often ranks the radio edit or a bare
/// re-release above the extended mix, so a long-form local file never even
/// sees its own match in the top results. When the local file is
/// extended/club-length, one more query names the mix explicitly.
#[derive(Debug)]
pub struct SearchRun {
    pub artist: String,
    pub title: String,
    pub hint: Option<String>,
    pub stage: SearchStage,
    pub results: Vec<SpotifyTrack>,
}

/// What a search in progress says.
#[verifier::ext_equal]
pub struct RunView {
    pub artist: Seq<char>,
    pub title: Seq<char>,
    pub hint: Option<Seq<char>>,
    pub stage: SearchStage,
    pub results: Seq<TrackView>,
}

impl View for SearchRun {
    type V = RunView;

    open spec fn view(&self) -> RunView {
        RunView {
            artist: self.artist@,
            title: self.title@,
            hint: opt_view(self.hint),
            stage: self.stage,
            results: track_views(self.results@),
        }
    }
}

/// What comes after the queries by artist and title.
pub open spec fn last_stage(hint: Option<Seq<char>>) -> SearchStage {
    if hint is Some {
        SearchStage::Hinted
    } else {
        SearchStage::Done
    }
}

/// A search for an artist and a title, and then perhaps for a hint. Without a
/// title there is nothing to search but the hint, without an artist nothing to
/// filter by.
pub open spec fn search_start(
    artist: Seq<char>,
    title: Seq<char>,
    hint: Option<Seq<char>>,
) -> RunView {
    RunView {
        artist: trimmed(artist),
        title: trimmed(title),
        hint,
        stage: if trimmed(title).len() == 0 {
            last_stage(hint)
        } else if trimmed(artist).len() == 0 {
            SearchStage::Loose
        } else {
            SearchStage::Filtered
        },
        results: Seq::empty(),
    }
}

/// The query that names the mix of a long-form recording.
pub open spec fn mix_hint(local: LocalView) -> Option<Seq<char>> {
    if local.parsed.kind.long_form() {
        Some(first_artist(local.artist) + " "@ + local.parsed.base + " extended mix"@)
    } else {
        None
    }
}

/// The query of a search in progress.
pub open spec fn run_query(run: RunView) -> Option<Seq<char>> {
    match run.stage {
        SearchStage::Filtered => Some(
            "track:\""@ + escaped(run.title) + "\" artist:\""@ + escaped(run.artist) + "\""@,
        ),
        SearchStage::Loose => if run.artist.len() == 0 {
            Some(run.title)
        } else {
            Some(run.artist + " "@ + run.title)
        },
        SearchStage::Hinted => run.hint,
        SearchStage::Done => None,
    }
}

/// A search in progress after its query has been answered. The loose query is
/// skipped when the filtered one found three tracks.
pub open spec fn run_after(run: RunView, hits: Seq<TrackView>) -> RunView {
    match run.stage {
        SearchStage::Filtered => RunView {
            results: hits,
            stage: if hits.len() < 3 {
                SearchStage::Loose
            } else {
                last_stage(run.hint)
            },
            ..run
        },
        SearchStage::Loose => RunView {
            results: merged(run.results, hits),
            stage: last_stage(run.hint),
            ..run
        },
        SearchStage::Hinted => RunView {
            results: merged(run.results, hits),
            stage: SearchStage::Done,
            ..run
        },
        SearchStage::Done => run,
    }
}

/// The query that names the mix of a long-form recording.
pub fn hinted_query(local: &LocalTrack) -> (r: Option<String>)
    ensures
        opt_view(r) == mix_hint(local@),
{
    if local.parsed.kind.is_long_form() {
        let mut query = local.primary_artist();
        query.append(" ");
        query.append(local.parsed.base.as_str());
        query.append(" extended mix");
        Some(query)
    } else {
        None
    }
}

impl SearchRun {
    /// A search for an artist and a title, and then perhaps for a hint.
    pub fn new(artist: &str, title: &str, hint: Option<String>) -> (r: SearchRun)
        ensures
            r@ == search_start(artist@, title@, opt_view(hint)),
    {
        let artist = chars_of(artist);
        let title = chars_of(title);
        let artist = trim(artist.as_slice());
        let title = trim(title.as_slice());
        let last = if hint.is_some() {
            SearchStage::Hinted
        } else {
            SearchStage::Done
        };
        let stage = if title.len() == 0 {
            last
        } else if artist.len() == 0 {
            SearchStage::Loose
        } else {
            SearchStage::Filtered
        };
        let results: Vec<SpotifyTrack> = Vec::new();
        assert(track_views(results@) =~= Seq::<TrackView>::empty());
        SearchRun { artist: string_of(artist), title: string_of(title), hint, stage, results }
    }

    /// Every query worth trying for one local track.
    pub fn for_track(local: &LocalTrack) -> (r: SearchRun)
        ensures
            r@ == search_start(first_artist(local@.artist), local@.parsed.base, mix_hint(local@)),
    {
        let artist = local.primary_artist();
        let hint = hinted_query(local);
        SearchRun::new(artist.as_str(), local.parsed.base.as_str(), hint)
    }

    /// The query to make now; `None` when the search is done.
    pub fn query(&self) -> (r: Option<String>)
        ensures
            opt_view(r) == run_query(self@),
    {
        match self.stage {
            SearchStage::Filtered => {
                let mut q = string_from("track:\"");
                q.append(escape(self.title.as_str()).as_str());
                q.append("\" artist:\"");
                q.append(escape(self.artist.as_str()).as_str());
                q.append("\"");
                Some(q)
            },
            SearchStage::Loose => {
                if self.artist.as_str().is_empty() {
                    Some(self.title.clone())
                } else {
                    let mut q = self.artist.clone();
                    q.append(" ");
                    q.append(self.title.as_str());
                    Some(q)
                }
            },
            SearchStage::Hinted => clone_opt(&self.hint),
            SearchStage::Done => None,
        }
    }

    /// Whether a failure of the query to make now is no failure of the search.
    pub fn may_fail(&self) -> (r: bool)
        ensures
            r == (self.stage is Hinted),
    {
        self.stage == SearchStage::Hinted
    }

    /// Takes in what the query found, and moves on.
    pub fn advance(&mut self, hits: Vec<SpotifyTrack>)
        ensures
            final(self)@ == run_after(old(self)@, track_views(hits@)),
    {
        let last = if self.hint.is_some() {
            SearchStage::Hinted
        } else {
            SearchStage::Done
        };
        match self.stage {
            SearchStage::Filtered => {
                self.stage = if hits.len() < 3 {
                    SearchStage::Loose
                } else {
                    last
                };
                self.results = hits;
            },
            SearchStage::Loose => {
                merge_new(&mut self.results, hits);
                self.stage = last;
            },
            SearchStage::Hinted => {
                merge_new(&mut self.results, hits);
                self.stage = SearchStage::Done;
            },
            SearchStage::Done => {},
        }
    }
}

/// How many queries a search can still make.
pub open spec fn queries_left(run: RunView) -> nat {
    let after: nat = if run.hint is Some {
        1
    } else {
        0
    };
    match run.stage {
        SearchStage::Filtered => 2 + after,
        SearchStage::Loose => 1 + after,
        SearchStage::Hinted => 1,
        SearchStage::Done => 0,
    }
}

/// Every answer brings a search closer to its end, and it is done when it has
/// no query left.
pub proof fn law_search_ends(run: RunView, hits: Seq<TrackView>)
    requires
        run.stage is Hinted ==> run.hint is Some,
    ensures
        run_query(run) is Some ==> queries_left(run_after(run, hits)) < queries_left(run),
        run_query(run) is None <==> queries_left(run) == 0,
        run_after(run, hits).stage is Hinted ==> run_after(run, hits).hint is Some,
{
}

/// A search makes at most three queries.
pub proof fn law_search_makes_at_most_three_queries(
    artist: Seq<char>,
    title: Seq<char>,
    hint: Option<Seq<char>>,
)
    ensures
        queries_left(search_start(artist, title, hint)) <= 3,
        search_start(artist, title, hint).stage is Hinted ==> hint is Some,
{
}

/// The lists of texts.
pub open spec fn lists(v: Seq<Vec<String>>) -> Seq<Seq<Seq<char>>> {
    v.map_values(|l: Vec<String>| views(l@))
}

/// `items` in batches of `size`, the last perhaps smaller.
pub open spec fn batches_of(items: Seq<Seq<char>>, size: nat) -> Seq<Seq<Seq<char>>>
    decreases items.len(),
{
    if items.len() == 0 || size == 0 {
        Seq::empty()
    } else if items.len() <= size {
        seq![items]
    } else {
        seq![items.take(size as int)] + batches_of(items.skip(size as int), size)
    }
}

/// `items` in batches of `size`, the last perhaps smaller.
pub fn batches(items: &[String], size: usize) -> (r: Vec<Vec<String>>)
    requires
        size > 0,
    ensures
        lists(r@) == batches_of(views(items@), size as nat),
{
    let ghost all = views(items@);
    let mut r: Vec<Vec<String>> = Vec::new();
    let mut from: usize = 0;
    let n: usize = items.len();
    assert(lists(r@) =~= Seq::<Seq<Seq<char>>>::empty());
    assert(all.skip(0) =~= all);
    assert(lists(r@) + batches_of(all, size as nat) =~= batches_of(all, size as nat));
    while from < n
        invariant
            size > 0,
            n == items.len(),
            from <= n,
            all == views(items@),
            lists(r@) + batches_of(all.skip(from as int), size as nat) == batches_of(
                all,
                size as nat,
            ),
        decreases n - from,
    {
        let end: usize = if n - from <= size {
            n
        } else {
            from + size
        };
        let mut batch: Vec<String> = Vec::new();
        let mut i: usize = from;
        while i < end
            invariant
                from <= i <= end <= n == items.len(),
                all == views(items@),
                views(batch@) == all.subrange(from as int, i as int),
            decreases end - i,
        {
            let ghost before = batch@;
            batch.push(items[i].clone());
            i = i + 1;
            assert(views(batch@) =~= views(before).push(items@[i - 1]@));
            assert(views(batch@) =~= all.subrange(from as int, i as int));
        }
        let ghost before = r@;
        let ghost rest = all.skip(from as int);
        r.push(batch);
        proof {
            assert(lists(r@) =~= lists(before).push(views(batch@)));
            if n - from <= size {
                assert(views(batch@) =~= rest);
                assert(all.skip(end as int) =~= Seq::<Seq<char>>::empty());
                assert(lists(r@) + batches_of(all.skip(end as int), size as nat) =~= lists(before)
                    + seq![rest]);
            } else {
                assert(views(batch@) =~= rest.take(size as int));
                assert(rest.skip(size as int) =~= all.skip(end as int));
                assert(lists(r@) + batches_of(all.skip(end as int), size as nat) =~= lists(before)
                    + (seq![rest.take(size as int)] + batches_of(
                    rest.skip(size as int),
                    size as nat,
                )));
            }
        }
        from = end;
    }
    assert(all.skip(n as int) =~= Seq::<Seq<char>>::empty());
    assert(lists(r@) + batches_of(all.skip(n as int), size as nat) =~= lists(r@));
    r
}

/// Batches hold everything, in order, none is empty and none too large.
pub proof fn law_batches_cover(items: Seq<Seq<char>>, size: nat)
    requires
        size > 0,
    ensures
        batches_of(items, size).flatten() == items,
        forall|i: int|
            0 <= i < batches_of(items, size).len() ==> 0 < (
            #[trigger] batches_of(items, size)[i]).len() <= size,
    decreases items.len(),
{
    let b = batches_of(items, size);
    if items.len() == 0 {
        assert(b.flatten() =~= items);
    } else if items.len() <= size {
        b.lemma_flatten_one_element();
    } else {
        let rest = items.skip(size as int);
        law_batches_cover(rest, size);
        assert(b.drop_first() =~= batches_of(rest, size));
        assert(b.first() == items.take(size as int));
        assert(items.take(size as int) + rest =~= items);
    }
}

/// A cached token is used only when it is good for longer than this.
pub const TOKEN_MARGIN_MS: u64 = 30_000;

/// Whether a cached token that expires in so many milliseconds can be used.
pub fn is_fresh(expires_in_ms: u64) -> (r: bool)
    ensures
        r == (expires_in_ms > TOKEN_MARGIN_MS),
{
    expires_in_ms > TOKEN_MARGIN_MS
}

/// Why a search was refused. `status` is the status in words.
pub fn search_failure(status: &str, body: &str) -> (r: String)
    ensures
        r@ == "Spotify search failed ("@ + status@ + "): "@ + body@,
{
    let mut r = string_from("Spotify search failed (");
    r.append(status);
    r.append("): ");
    r.append(body);
    r
}

/// What to do about a refusal. Spotify distinguishes a missing scope from a
/// missing permission, and they need opposite fixes — conflating them sends
/// you to the wrong place.
pub open spec fn refusal_hint(body: Seq<char>) -> Seq<char> {
    if contains(body, "Insufficient client scope"@) {
        "The token is missing a required scope. Run `djls logout` then `djls login` to re-consent."@
    } else {
        "Scopes look fine, so this is an app-level permission. Check the app in the Spotify developer dashboard: your account must be listed under Settings -> User Management while the app is in development mode."@
    }
}

/// Why a request was refused.
pub open spec fn refusal_text(status: u16, status_text: Seq<char>, body: Seq<char>) -> Seq<char> {
    if status == 403 {
        "Spotify refused the request ("@ + status_text + "): "@ + body + "\n"@ + refusal_hint(body)
    } else {
        "Spotify API error ("@ + status_text + "): "@ + body
    }
}

/// Why a request was refused. `status_text` is the status in words.
pub fn api_failure(status: u16, status_text: &str, body: &str) -> (r: String)
    ensures
        r@ == refusal_text(status, status_text@, body@),
{
    if status == 403 {
        let mut r = string_from("Spotify refused the request (");
        r.append(status_text);
        r.append("): ");
        r.append(body);
        r.append("\n");
        let text = chars_of(body);
        let scope = chars_of("Insufficient client scope");
        if has(text.as_slice(), scope.as_slice()) {
            r.append(
                "The token is missing a required scope. Run `djls logout` then `djls login` to re-consent.",
            );
        } else {
            r.append(
                "Scopes look fine, so this is an app-level permission. Check the app in the Spotify developer dashboard: your account must be listed under Settings -> User Management while the app is in development mode.",
            );
        }
        r
    } else {
        let mut r = string_from("Spotify API error (");
        r.append(status_text);
        r.append("): ");
        r.append(body);
        r
    }
}

} // verus!
