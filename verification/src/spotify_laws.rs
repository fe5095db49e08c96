//! What searching a catalogue and reading its answers promise, over all tracks
//! and answers.

use vstd::prelude::*;

use crate::matcher_laws::law_a_recording_is_itself;
use crate::normalize::{alphanumeric, token_list};
use crate::spotify::{
    api_retries, artist_line, batches_of, code_chars, code_query, escaped, has_id, holds_recording,
    is_fresh, law_merge_keeps_and_covers, merged, mix_hint, pace, refusal_hint, refusal_text,
    row_entries, run_after, run_query, search_query, search_start, usable_tracks, within_limit,
    ApiTrack, EntryView, Playlist, RowTrack, RunView, SearchRun, TrackView,
};
use crate::retry::RetryPolicy;
use crate::tags::{first_artist, uppercase, LocalTrack, LocalView};
use crate::tags_laws::lemma_joined;
use crate::text::{contains, decimal, opt_view, trimmed, views};

verus! {

/// Whether a search can have come to where it is: before its first answer there
/// are no results.
pub open spec fn is_sound(run: RunView) -> bool {
    run.stage is Filtered ==> run.results.len() == 0
}

/// A search starts sound, with nothing found, and every answer keeps it so.
pub proof fn law_search_stays_sound(
    artist: Seq<char>,
    title: Seq<char>,
    hint: Option<Seq<char>>,
    run: RunView,
    hits: Seq<TrackView>,
)
    ensures
        is_sound(search_start(artist, title, hint)),
        search_start(artist, title, hint).results.len() == 0,
        is_sound(run) ==> is_sound(run_after(run, hits)),
{
}

/// Nothing that a search finds is thrown away: after any query is answered,
/// whichever it was, every track of the answer has its id among the results, and
/// every earlier result is still there in its place.
pub proof fn law_every_answer_is_taken_in(run: RunView, hits: Seq<TrackView>)
    requires
        is_sound(run),
        run_query(run) is Some,
    ensures
        run.results.is_prefix_of(run_after(run, hits).results),
        forall|k: int|
            0 <= k < hits.len() ==> has_id(run_after(run, hits).results, #[trigger] hits[k].id),
{
    law_merge_keeps_and_covers(run.results, hits);
    if run.stage is Filtered {
        assert(run.results =~= Seq::<TrackView>::empty());
        assert forall|k: int| 0 <= k < hits.len() implies has_id(
            run_after(run, hits).results,
            #[trigger] hits[k].id,
        ) by {
            assert(run_after(run, hits).results[k] == hits[k]);
        }
    }
}

/// A search finds nothing but what its queries were answered with, and a search
/// that is done changes no more.
pub proof fn law_nothing_else_is_found(run: RunView, hits: Seq<TrackView>)
    ensures
        forall|i: int|
            0 <= i < run_after(run, hits).results.len() ==> run.results.contains(
                #[trigger] run_after(run, hits).results[i],
            ) || hits.contains(run_after(run, hits).results[i]),
        run_query(run) is None && run.stage is Done ==> run_after(run, hits) == run,
{
    lemma_merged_from(run.results, hits);
    let r = run_after(run, hits).results;
    assert forall|i: int| 0 <= i < r.len() implies run.results.contains(#[trigger] r[i])
        || hits.contains(r[i]) by {
        if run.stage is Done {
            assert(run.results[i] == r[i]);
        }
        if run.stage is Filtered {
            assert(hits[i] == r[i]);
        }
    }
}

/// What is merged comes from the one list or the other.
proof fn lemma_merged_from(results: Seq<TrackView>, more: Seq<TrackView>)
    ensures
        forall|i: int|
            0 <= i < merged(results, more).len() ==> results.contains(
                #[trigger] merged(results, more)[i],
            ) || more.contains(merged(results, more)[i]),
    decreases more.len(),
{
    let r = merged(results, more);
    if more.len() > 0 {
        let init = more.drop_last();
        let before = merged(results, init);
        lemma_merged_from(results, init);
        assert forall|i: int| 0 <= i < r.len() implies results.contains(#[trigger] r[i])
            || more.contains(r[i]) by {
            if i < before.len() {
                assert(r[i] == before[i]);
                if !results.contains(before[i]) {
                    let k = choose|k: int| 0 <= k < init.len() && init[k] == before[i];
                    assert(more[k] == r[i]);
                }
            } else {
                assert(more[more.len() - 1] == r[i]);
            }
        }
    } else {
        assert forall|i: int| 0 <= i < r.len() implies results.contains(#[trigger] r[i]) by {
            assert(results[i] == r[i]);
        }
    }
}

/// A track that was found before is not listed again, and one that was not is.
pub proof fn law_merging_one_track(results: Seq<TrackView>, track: TrackView)
    ensures
        (exists|i: int| 0 <= i < results.len() && (#[trigger] results[i]).id == track.id) ==> merged(
            results,
            seq![track],
        ) == results,
        !(exists|i: int| 0 <= i < results.len() && (#[trigger] results[i]).id == track.id)
            ==> merged(results, seq![track]) == results.push(track),
{
    assert(seq![track].drop_last() =~= Seq::<TrackView>::empty());
    assert(merged(results, Seq::empty()) == results);
    if exists|i: int| 0 <= i < results.len() && (#[trigger] results[i]).id == track.id {
        let i = choose|i: int| 0 <= i < results.len() && (#[trigger] results[i]).id == track.id;
        assert(results[i].id == track.id);
    }
}

/// Which queries a search makes. By fields only where there are both an artist
/// and a title; by words where there is no artist, or the fields turned up fewer
/// than three tracks; and by the hint exactly once, at the end, where there is
/// one.
pub proof fn law_which_queries_are_made(
    artist: Seq<char>,
    title: Seq<char>,
    hint: Option<Seq<char>>,
    run: RunView,
    hits: Seq<TrackView>,
)
    ensures
        ({
            let start = search_start(artist, title, hint);
            &&& start.artist == trimmed(artist) && start.title == trimmed(title)
            &&& start.hint == hint
            &&& start.stage is Filtered <==> trimmed(artist).len() > 0 && trimmed(title).len() > 0
            &&& start.stage is Loose <==> trimmed(artist).len() == 0 && trimmed(title).len() > 0
            &&& start.stage is Hinted <==> trimmed(title).len() == 0 && hint is Some
            &&& start.stage is Done <==> trimmed(title).len() == 0 && hint is None
        }),
        ({
            let next = run_after(run, hits);
            &&& next.artist == run.artist && next.title == run.title && next.hint == run.hint
            &&& next.stage is Loose <==> run.stage is Filtered && hits.len() < 3
            &&& next.stage is Hinted <==> run.hint is Some && (run.stage is Loose || (
            run.stage is Filtered && hits.len() >= 3))
            &&& !(next.stage is Filtered)
        }),
{
}

/// Whether a text can stand between quotes.
pub open spec fn is_quotable(s: Seq<char>) -> bool {
    forall|i: int| 0 <= i < s.len() ==> #[trigger] s[i] != '"' && s[i] != '\\'
}

/// What a search asks for: the title and the artist in their fields, the artist
/// and the title in words, or the hint; and nothing when it is done.
pub proof fn law_what_a_search_asks(run: RunView)
    requires
        is_quotable(run.artist),
        is_quotable(run.title),
    ensures
        run.stage is Filtered ==> run_query(run) == Some(
            "track:\""@ + run.title + "\" artist:\""@ + run.artist + "\""@,
        ),
        run.stage is Loose && run.artist.len() > 0 ==> run_query(run) == Some(
            run.artist + " "@ + run.title,
        ),
        run.stage is Loose && run.artist.len() == 0 ==> run_query(run) == Some(run.title),
        run.stage is Hinted ==> run_query(run) == run.hint,
        run.stage is Done ==> run_query(run) is None,
{
    assert(escaped(run.artist) =~= run.artist);
    assert(escaped(run.title) =~= run.title);
}

/// Escaping leaves nothing that could end a quote, and changes nothing else.
pub proof fn law_escaping_blanks_quotes_alone(s: Seq<char>)
    ensures
        is_quotable(escaped(s)),
        escaped(s).len() == s.len(),
        forall|i: int|
            0 <= i < s.len() && s[i] != '"' && s[i] != '\\' ==> #[trigger] escaped(s)[i] == s[i],
        forall|i: int|
            0 <= i < s.len() && (s[i] == '"' || s[i] == '\\') ==> #[trigger] escaped(s)[i] == ' ',
{
}

/// A mix is named exactly for an extended or a club version, by its first artist
/// and its song.
pub proof fn law_mix_is_named_for_long_forms(local: LocalView)
    ensures
        mix_hint(local) is Some <==> local.parsed.kind is Extended || local.parsed.kind is Club,
        mix_hint(local) is Some ==> mix_hint(local) == Some(
            first_artist(local.artist) + " "@ + local.parsed.base + " extended mix"@,
        ),
{
}

/// A number of results is asked for as it is, within what the service allows.
pub proof fn law_limit_is_kept_within_bounds(limit: u32, max: u32)
    requires
        1 <= max,
    ensures
        1 <= within_limit(limit, max) <= max,
        1 <= limit <= max ==> within_limit(limit, max) == limit,
        limit > max ==> within_limit(limit, max) == max,
        limit == 0 ==> within_limit(limit, max) == 1,
{
}

/// A search asks for the query as it is, for tracks, for no more than ten of
/// them, and for a market exactly where there is one.
pub proof fn law_search_parameters(query: Seq<char>, limit: u32, market: Option<Seq<char>>)
    ensures
        ({
            let p = search_query(query, limit, market);
            &&& p[0] == ("q"@, query)
            &&& p[1] == ("type"@, "track"@)
            &&& p[2].0 == "limit"@
            &&& 1 <= limit <= 10 ==> p[2].1 == decimal(limit as nat)
            &&& limit > 10 ==> p[2].1 == decimal(10)
            &&& limit == 0 ==> p[2].1 == decimal(1)
            &&& market is None ==> p.len() == 3
            &&& market matches Some(m) ==> p.len() == 4 && p[3] == ("market"@, m)
        }),
{
}

/// What surrounds the letters and numbers of a code makes no difference: a dash
/// or a space anywhere in it is passed over.
pub proof fn law_code_is_its_letters_and_numbers(before: Seq<char>, c: char, after: Seq<char>)
    ensures
        !alphanumeric(c) ==> code_query(before + seq![c] + after) == code_query(before + after),
{
    if !alphanumeric(c) {
        let p = |c: char| alphanumeric(c);
        Seq::filter_distributes_over_add(before + seq![c], after, p);
        Seq::filter_distributes_over_add(before, seq![c], p);
        Seq::filter_distributes_over_add(before, after, p);
        lemma_none_kept(seq![c]);
        assert(seq![c].filter(p) =~= Seq::<char>::empty());
        assert(before.filter(p) + seq![c].filter(p) =~= before.filter(p));
    }
}

proof fn lemma_none_kept(s: Seq<char>)
    requires
        forall|i: int| 0 <= i < s.len() ==> !alphanumeric(#[trigger] s[i]),
    ensures
        s.filter(|c: char| alphanumeric(c)).len() == 0,
    decreases s.len(),
{
    reveal(Seq::filter);
    if s.len() > 0 {
        assert forall|i: int| 0 <= i < s.drop_last().len() implies !alphanumeric(
            #[trigger] s.drop_last()[i],
        ) by {
            assert(s[i] == s.drop_last()[i]);
        }
        lemma_none_kept(s.drop_last());
        assert(!alphanumeric(s[s.len() - 1]));
    }
}

proof fn lemma_all_kept(s: Seq<char>)
    requires
        forall|i: int| 0 <= i < s.len() ==> alphanumeric(#[trigger] s[i]),
    ensures
        code_chars(s) == s,
    decreases s.len(),
{
    reveal(Seq::filter);
    if s.len() > 0 {
        assert forall|i: int| 0 <= i < s.drop_last().len() implies alphanumeric(
            #[trigger] s.drop_last()[i],
        ) by {
            assert(s[i] == s.drop_last()[i]);
        }
        lemma_all_kept(s.drop_last());
        assert(alphanumeric(s[s.len() - 1]));
        assert(s.drop_last().push(s.last()) =~= s);
    } else {
        assert(code_chars(s) =~= s);
    }
}

/// A code of letters and numbers alone is asked for in upper case; without any
/// there is nothing to ask.
pub proof fn law_code_is_asked_for_in_upper_case(code: Seq<char>)
    requires
        forall|i: int| 0 <= i < code.len() ==> alphanumeric(#[trigger] code[i]),
    ensures
        code.len() > 0 ==> code_query(code) == Some("isrc:"@ + uppercase(code)),
        code.len() == 0 ==> code_query(code) is None,
{
    lemma_all_kept(code);
}

/// One track of an answer: without an id it cannot be used; with one it is taken
/// as it was sent, with a code in upper case, and an address made from its id
/// where it has none.
pub proof fn law_track_is_taken_as_sent(item: ApiTrack)
    ensures
        item.id is None ==> usable_tracks(seq![item]).len() == 0,
        item.id is Some ==> {
            let t = usable_tracks(seq![item])[0];
            &&& usable_tracks(seq![item]).len() == 1
            &&& t.id == item.id->0@
            &&& item.uri is Some ==> t.uri == item.uri->0@
            &&& item.uri is None ==> t.uri == "spotify:track:"@ + item.id->0@
            &&& t.name == item.name@
            &&& t.artists == views(item.artists@)
            &&& item.album is Some ==> t.album == item.album->0@
            &&& item.album is None ==> t.album.len() == 0
            &&& t.duration_ms == item.duration_ms
            &&& item.isrc is Some ==> t.isrc == Some(uppercase(item.isrc->0@))
            &&& item.isrc is None ==> t.isrc is None
            &&& t.url == opt_view(item.url)
            &&& t.popularity == item.popularity
        },
{
    assert(seq![item].drop_last() =~= Seq::<ApiTrack>::empty());
    assert(usable_tracks(Seq::empty()) =~= Seq::<TrackView>::empty());
}

/// The tracks of an answer are taken one by one, in their order.
pub proof fn law_tracks_are_taken_one_by_one(a: Seq<ApiTrack>, b: Seq<ApiTrack>)
    ensures
        usable_tracks(a + b) == usable_tracks(a) + usable_tracks(b),
    decreases b.len(),
{
    if b.len() == 0 {
        assert(a + b =~= a);
        assert(usable_tracks(a) + usable_tracks(b) =~= usable_tracks(a));
    } else {
        law_tracks_are_taken_one_by_one(a, b.drop_last());
        assert((a + b).drop_last() =~= a + b.drop_last());
        assert(usable_tracks(a + b) =~= usable_tracks(a) + usable_tracks(b));
    }
}

/// One row of a playlist: without a track, or without an address, it is no entry;
/// with both it is taken as it was sent.
pub proof fn law_row_is_taken_as_sent(row: Option<RowTrack>)
    ensures
        row is None || row->0.uri is None ==> row_entries(seq![row]).len() == 0,
        row is Some && row->0.uri is Some ==> {
            let e = row_entries(seq![row])[0];
            &&& row_entries(seq![row]).len() == 1
            &&& e.uri == row->0.uri->0@
            &&& e.name == row->0.name@
            &&& e.artists == views(row->0.artists@)
            &&& e.duration_ms == row->0.duration_ms
        },
{
    assert(seq![row].drop_last() =~= Seq::<Option<RowTrack>>::empty());
    assert(row_entries(Seq::empty()) =~= Seq::<EntryView>::empty());
}

/// The rows of a playlist are taken one by one, in their order.
pub proof fn law_rows_are_taken_one_by_one(a: Seq<Option<RowTrack>>, b: Seq<Option<RowTrack>>)
    ensures
        row_entries(a + b) == row_entries(a) + row_entries(b),
    decreases b.len(),
{
    if b.len() == 0 {
        assert(a + b =~= a);
        assert(row_entries(a) + row_entries(b) =~= row_entries(a));
    } else {
        law_rows_are_taken_one_by_one(a, b.drop_last());
        assert((a + b).drop_last() =~= a + b.drop_last());
        assert(row_entries(a + b) =~= row_entries(a) + row_entries(b));
    }
}

/// Every batch but the last is full, so there are as few as there can be.
pub proof fn law_batches_are_full(items: Seq<Seq<char>>, size: nat)
    requires
        size > 0,
    ensures
        forall|i: int|
            0 <= i < batches_of(items, size).len() - 1 ==> (
            #[trigger] batches_of(items, size)[i]).len() == size,
    decreases items.len(),
{
    let b = batches_of(items, size);
    if items.len() > size {
        let rest = items.skip(size as int);
        law_batches_are_full(rest, size);
        assert forall|i: int| 0 <= i < b.len() - 1 implies (#[trigger] b[i]).len() == size by {
            if i > 0 {
                assert(b[i] == batches_of(rest, size)[i - 1]);
            }
        }
    }
}

/// A playlist entry is of a track when it is the very listing, and when artists,
/// with any word in them, name and length are the same under another address.
pub proof fn law_entry_holds_its_own_recording(entry: EntryView, track: TrackView)
    ensures
        entry.uri == track.uri ==> holds_recording(entry, track),
        token_list(artist_line(track.artists)).len() > 0 && entry.artists == track.artists
            && entry.name == track.name && entry.duration_ms == track.duration_ms
            ==> holds_recording(entry, track),
{
    if token_list(artist_line(track.artists)).len() > 0 {
        law_a_recording_is_itself(artist_line(track.artists), track.name, track.duration_ms);
    }
}

/// A refusal is told with its status and what the service said; a missing scope
/// and a missing permission, told apart by what the service said, ask for
/// different things, and nothing else asks for either.
pub proof fn law_refusals_are_told_apart(status: u16, words: Seq<char>, body: Seq<char>)
    ensures
        status != 403 ==> refusal_text(status, words, body) == "Spotify API error ("@ + words
            + "): "@ + body,
        status == 403 && contains(body, "Insufficient client scope"@) ==> refusal_text(
            status,
            words,
            body,
        ) == "Spotify refused the request ("@ + words + "): "@ + body + "\n"@
            + "The token is missing a required scope. Run `djls logout` then `djls login` to re-consent."@,
        status == 403 && !contains(body, "Insufficient client scope"@) ==> !(refusal_hint(body)
            == "The token is missing a required scope. Run `djls logout` then `djls login` to re-consent."@)
            && refusal_text(status, words, body) == "Spotify refused the request ("@ + words
            + "): "@ + body + "\n"@ + refusal_hint(body),
{
    reveal_strlit(
        "The token is missing a required scope. Run `djls logout` then `djls login` to re-consent.",
    );
    reveal_strlit(
        "Scopes look fine, so this is an app-level permission. Check the app in the Spotify developer dashboard: your account must be listed under Settings -> User Management while the app is in development mode.",
    );
    assert(
    "The token is missing a required scope. Run `djls logout` then `djls login` to re-consent."@[0]
        == 'T');
    assert(
    "Scopes look fine, so this is an app-level permission. Check the app in the Spotify developer dashboard: your account must be listed under Settings -> User Management while the app is in development mode."@[0]
        == 'S');
}

/// A local track is searched for by its first artist and its song, without its
/// version and its guests, and by the name of its mix where it is a long one.
pub proof fn law_what_a_track_is_searched_by(local: &LocalTrack, r: SearchRun)
    requires
        call_ensures(SearchRun::for_track, (local,), r),
    ensures
        r.artist@ == trimmed(first_artist(local@.artist)),
        r.title@ == trimmed(local@.parsed.base),
        r.hint is Some <==> local@.parsed.kind is Extended || local@.parsed.kind is Club,
        r.hint matches Some(h) ==> h@ == first_artist(local@.artist) + " "@ + local@.parsed.base
            + " extended mix"@,
        r.results@.len() == 0,
{
    assert(r@.results.len() == r.results@.len());
}

/// Only the query that names the mix may fail without failing the search.
pub proof fn law_which_query_may_fail(run: &SearchRun, r: bool)
    requires
        call_ensures(SearchRun::may_fail, (run,), r),
    ensures
        r <==> run.stage is Hinted,
{
}

/// Requests are 120 milliseconds apart: what has passed is not waited for again.
pub proof fn law_requests_are_paced(elapsed_ms: u64, r: u64)
    requires
        call_ensures(pace, (elapsed_ms,), r),
    ensures
        elapsed_ms <= 120 ==> elapsed_ms + r == 120,
        elapsed_ms >= 120 ==> r == 0,
{
}

/// A cached token is used only while it is good for more than half a minute.
pub proof fn law_when_a_token_is_fresh(expires_in_ms: u64, r: bool)
    requires
        call_ensures(is_fresh, (expires_in_ms,), r),
    ensures
        r <==> expires_in_ms > 30_000,
{
}

/// Spotify is asked again four times at most, and with a new token where the one
/// in use is refused.
pub proof fn law_how_often_spotify_is_asked(r: RetryPolicy)
    requires
        call_ensures(api_retries, (), r),
    ensures
        r.max_retries == 4,
        r.renews_token,
{
}

/// A playlist is a user's own exactly when it says so, and can be written to
/// unless it says that it is someone else's.
pub proof fn law_whose_playlist_it_is(p: &Playlist, user_id: &str, owned: bool, writable: bool)
    requires
        call_ensures(Playlist::is_owned_by, (p, user_id), owned),
        call_ensures(Playlist::is_writable_by, (p, user_id), writable),
    ensures
        owned <==> (p.owner matches Some(o) && o.id@ == user_id@),
        writable <==> (p.owner matches Some(o) ==> o.id@ == user_id@),
        owned ==> writable,
{
}

/// Every artist of a track is compared: each stands in the line of them, which is
/// the artist where there is but one.
pub proof fn law_every_artist_is_in_the_line(artists: Seq<Seq<char>>, i: int)
    requires
        0 <= i < artists.len(),
    ensures
        contains(artist_line(artists), artists[i]),
        artists.len() == 1 ==> artist_line(artists) == artists[0],
        artists.len() == 2 ==> artist_line(artists) == artists[0] + ", "@ + artists[1],
        artists.len() > 1 ==> artist_line(artists) == artist_line(artists.drop_last()) + ", "@
            + artists.last(),
{
    lemma_joined(artists, ", "@, i);
    if artists.len() == 2 {
        assert(artists.drop_last().len() == 1);
        assert(artist_line(artists.drop_last()) == artists[0]);
    }
}

/// Whatever a title and an artist hold, the query by fields puts them, escaped, in
/// their fields.
pub proof fn law_fields_are_asked_for_escaped(run: RunView)
    requires
        run.stage is Filtered,
    ensures
        run_query(run) == Some(
            "track:\""@ + escaped(run.title) + "\" artist:\""@ + escaped(run.artist) + "\""@,
        ),
{
}

} // verus!
