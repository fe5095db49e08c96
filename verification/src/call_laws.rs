//! What the calls of the library give: for each of them, that its result is what
//! the laws speak of.

use std::cmp::Ordering;
use vstd::prelude::*;
use vstd::utf8::encode_utf8;

use crate::auth::{last_value, read_callback, AuthError};
use crate::db::{
    match_in, match_row, match_row_of, plan_match, plan_upsert, row_of, stored_match, track_row,
    upsert_plan, MatchPlan, MatchRow, StoredMatch, TrackRow, UpsertPlan,
};
use crate::matcher::{
    evaluate, outcome, same_by_meta, same_recording, same_recording_meta, score_candidate, scored,
    Candidate, MatchOutcome, Score, Thresholds, Verdict,
};
use crate::normalize::{
    normalize, normalized, similarity, text_similarity, token_list, token_set_similarity,
    token_similarity, tokens, MixKind,
};
use crate::push::{
    after_outcome, after_stored, answer_view, bucket, bucket_stored, cached_outcome, chosen,
    item_for, item_views, lookup_after, plan_push, positions, push_item, rebuilt, Bucket, Lookup,
    PushItem, PushRun,
};
use crate::report::{
    after_lookup, after_reuse, csv_fields, csv_record, is_failing, row_views, summarize, Concluded,
    MatchRun, Row, RowView, Summary,
};
use crate::retry::{next_step, step_after, Reply, RequestStats, RetryPolicy, Step};
use crate::spotify::{
    entry_views, has_id, holds_recording, merge_new, merged, pair_views, run_after, run_query,
    track_views, PlaylistEntry, SearchRun, SpotifyTrack,
};
use crate::spotify_laws::{is_sound, law_every_answer_is_taken_in};
use crate::tags::{
    audio_name, credited, described, first_artist, identity, is_audio_file, is_temp_file, temp_name,
    LocalTrack, RawTags,
};
use crate::text::{opt_view, views};
use crate::timestamp::{rfc3339_to_unix, unix_time};
use crate::title::{
    artist_names, classify_normalized, classify_segment, parse_title, parsed_title, split_artists,
    version_of, version_view, ParsedTitle,
};
use crate::update::{
    compare_versions, parse_version, status_for, update_status, version_numbers, version_order,
    LatestRelease, UpdateStatus,
};
use crate::watcher::{done_paths, existing, seen, still_waiting, Pending};

verus! {

/// Evaluating a file gives its outcome; scoring a track gives its score.
pub proof fn law_evaluating_gives_the_outcome(
    local: &LocalTrack,
    isrc_hits: &[SpotifyTrack],
    text_hits: &[SpotifyTrack],
    thresholds: Thresholds,
    candidate: &SpotifyTrack,
    r: MatchOutcome,
    s: Score,
)
    requires
        call_ensures(evaluate, (local, isrc_hits, text_hits, thresholds), r),
        call_ensures(score_candidate, (local, candidate), s),
    ensures
        r@ == outcome(local@, track_views(isrc_hits@), track_views(text_hits@), thresholds),
        s@ == scored(local@, candidate@),
{
}

/// Another song by the artist, or the song by another artist, never comes out of
/// evaluating a file as anything but no match.
pub proof fn law_evaluating_rejects_the_wrong_song(
    local: &LocalTrack,
    isrc_hits: &[SpotifyTrack],
    text_hits: &[SpotifyTrack],
    thresholds: Thresholds,
    r: MatchOutcome,
)
    requires
        call_ensures(evaluate, (local, isrc_hits, text_hits, thresholds), r),
        local.isrc is None || isrc_hits@.len() == 0,
        thresholds.review_total >= 450_000_000,
        thresholds.auto_total >= 450_000_000,
        thresholds.auto_artist >= 550_000_000,
        thresholds.auto_title >= 620_000_000,
        !(r.verdict is NoMatch),
    ensures
        r.candidates@.len() > 0,
        r.candidates@[0].score.artist >= 550_000_000,
        r.candidates@[0].score.title >= 620_000_000,
{
    assert(track_views(isrc_hits@).len() == isrc_hits@.len());
    crate::matcher_laws::law_wrong_song_is_no_match(
        local@,
        track_views(isrc_hits@),
        track_views(text_hits@),
        thresholds,
    );
    crate::matcher_laws::law_verdict_on_text_hits(
        local@,
        track_views(isrc_hits@),
        track_views(text_hits@),
        thresholds,
    );
    crate::matcher::law_shortlist_is_the_best(local@, track_views(text_hits@));
    assert(r@.candidates.len() == r.candidates@.len());
    let best = r@.candidates[0];
    crate::matcher_laws::law_signals_are_shares(local@, best.track);
    assert(best == r.candidates@[0]@);
}

/// Two listings are one recording exactly when what they say of themselves makes
/// them one.
pub proof fn law_comparing_recordings(
    artist_a: &str,
    name_a: &str,
    ms_a: u64,
    artist_b: &str,
    name_b: &str,
    ms_b: u64,
    r: bool,
    a: &Candidate,
    b: &Candidate,
    twins: bool,
    entry: &PlaylistEntry,
    track: &SpotifyTrack,
    held: bool,
)
    requires
        call_ensures(same_recording_meta, (artist_a, name_a, ms_a, artist_b, name_b, ms_b), r),
        call_ensures(same_recording, (a, b), twins),
        call_ensures(PlaylistEntry::is_same_recording_as, (entry, track), held),
    ensures
        r <==> same_by_meta(artist_a@, name_a@, ms_a, artist_b@, name_b@, ms_b),
        twins <==> normalized(a.track.name@) == normalized(b.track.name@) && a.track.duration_ms
            - b.track.duration_ms <= 3_000 && b.track.duration_ms - a.track.duration_ms <= 3_000,
        held <==> holds_recording(entry@, track@),
{
}

/// Parsing a title gives what it says; classifying a segment, normalized or not,
/// gives the version it names.
pub proof fn law_parsing_gives_what_a_title_says(
    raw: &str,
    p: ParsedTitle,
    segment: &str,
    v: Option<(MixKind, Option<String>)>,
    n: &[char],
    w: Option<(MixKind, Option<String>)>,
)
    requires
        call_ensures(parse_title, (raw,), p),
        call_ensures(classify_segment, (segment,), v),
        call_ensures(classify_normalized, (n,), w),
    ensures
        p@ == parsed_title(raw@),
        version_view(v) == version_of(normalized(segment@)),
        version_view(w) == version_of(n@),
{
}

/// Normalizing, taking tokens, comparing and splitting give what the laws on texts
/// speak of.
pub proof fn law_comparing_texts(
    a: &str,
    b: &str,
    n: String,
    t: Vec<String>,
    s: u64,
    set: u64,
    names: Vec<String>,
)
    requires
        call_ensures(normalize, (a,), n),
        call_ensures(tokens, (a,), t),
        call_ensures(text_similarity, (a, b), s),
        call_ensures(token_set_similarity, (a, b), set),
        call_ensures(split_artists, (a,), names),
    ensures
        n@ == normalized(a@),
        views(t@) == token_list(a@),
        s == similarity(a@, b@),
        set == token_similarity(a@, b@),
        views(names@) == artist_names(a@),
{
}

/// Reading tags gives the track they describe, with its identity, its first artist
/// and everyone credited.
pub proof fn law_reading_tags_gives_the_track(
    path: String,
    file_name: String,
    tags: RawTags,
    t: LocalTrack,
    u: &LocalTrack,
    key: String,
    artist: String,
    line: String,
)
    requires
        call_ensures(LocalTrack::from_tags, (path, file_name, tags), t),
        call_ensures(LocalTrack::identity_key, (u,), key),
        call_ensures(LocalTrack::primary_artist, (u,), artist),
        call_ensures(LocalTrack::artist_field_for_matching, (u,), line),
    ensures
        t@ == described(path@, file_name@, tags),
        key@ == identity(u@),
        artist@ == first_artist(u@.artist),
        line@ == credited(u@),
{
}

/// A file is told by its name.
pub proof fn law_telling_files_by_name(file_name: &str, audio: bool, temp: bool)
    requires
        call_ensures(is_audio_file, (file_name,), audio),
        call_ensures(is_temp_file, (file_name,), temp),
    ensures
        audio <==> audio_name(file_name@),
        temp <==> temp_name(file_name@),
{
}

/// Planning a push gives the positions of the items to add; an item that equals an
/// entry in artists, with any word in them, name and length is never among them.
pub proof fn law_planning_a_push(
    items: &Vec<PushItem>,
    already: &Vec<PlaylistEntry>,
    logged: &Vec<bool>,
    r: Vec<usize>,
    j: int,
    k: int,
)
    requires
        call_ensures(plan_push, (items, already, logged), r),
    ensures
        positions(r@) == chosen(item_views(items@), entry_views(already@), logged@),
        0 <= j < r@.len() && 0 <= k < already@.len() && token_list(
            items@[r@[j] as int].artists@,
        ).len() > 0 ==> !(crate::spotify::artist_line(already@[k]@.artists)
            == items@[r@[j] as int].artists@ && already@[k].name@ == items@[r@[j] as int].name@
            && already@[k].duration_ms == items@[r@[j] as int].duration_ms),
{
    if 0 <= j < r@.len() && 0 <= k < already@.len() {
        let i = r@[j] as int;
        let all = item_views(items@);
        let held = entry_views(already@);
        assert(i < items@.len());
        assert(all[i] == items@[i]@);
        assert(held[k] == already@[k]@);
        assert(positions(r@)[j] == i);
        assert(chosen(all, held, logged@).contains(i));
        if token_list(items@[i].artists@).len() > 0 && crate::spotify::artist_line(
            already@[k]@.artists,
        ) == items@[i].artists@ && already@[k].name@ == items@[i].name@ && already@[k].duration_ms
            == items@[i].duration_ms {
            crate::push_laws::law_same_recording_is_never_added(all, held, logged@, i, k);
        }
    }
}

/// The item to push, the outcome of a stored match and the bucket of a verdict.
pub proof fn law_sorting_matches(
    track_id: i64,
    o: &MatchOutcome,
    item: Option<PushItem>,
    stored: &StoredMatch,
    cached: MatchOutcome,
    verdict: Verdict,
    b: Bucket,
    c: Bucket,
    lookup: &Lookup,
    local: &LocalTrack,
    t: Thresholds,
    concluded: MatchOutcome,
)
    requires
        call_ensures(push_item, (track_id, o), item),
        call_ensures(cached_outcome, (stored,), cached),
        call_ensures(bucket, (verdict,), b),
        call_ensures(bucket_stored, (stored,), c),
        call_ensures(Lookup::conclude, (lookup, local, t), concluded),
    ensures
        (match item {
            Some(i) => Some(i@),
            None => None,
        }) == item_for(track_id, o@),
        cached@ == rebuilt(stored@),
        b is Push <==> verdict is Auto,
        b is Review <==> verdict is Review,
        b is Missing <==> verdict is NoMatch,
        c is Push <==> stored.verdict is Auto && stored.platform_uri is Some,
        c is Missing <==> stored.verdict is NoMatch,
        concluded@ == outcome(
            local@,
            track_views(lookup.isrc_hits@),
            track_views(lookup.text_hits@),
            t,
        ),
{
}

/// The query of a search in progress is the one that is due.
pub proof fn law_asking_the_query_that_is_due(run: &SearchRun, q: Option<String>)
    requires
        call_ensures(SearchRun::query, (run,), q),
    ensures
        opt_view(q) == run_query(run@),
{
}

/// The rows that are written, what is read out of them, and which row it is.
pub proof fn law_keeping_rows(
    track: &LocalTrack,
    row: TrackRow,
    o: &MatchOutcome,
    written: MatchRow,
    stored_row: MatchRow,
    read: StoredMatch,
    at_path: &Option<(i64, String)>,
    elsewhere: Option<i64>,
    key: &str,
    plan: UpsertPlan,
    known: Option<i64>,
    match_plan: MatchPlan,
)
    requires
        call_ensures(track_row, (track,), row),
        call_ensures(match_row, (o,), written),
        call_ensures(stored_match, (stored_row,), read),
        call_ensures(plan_upsert, (at_path, elsewhere, key), plan),
        call_ensures(plan_match, (known,), match_plan),
    ensures
        row@ == row_of(track@),
        written@ == match_row_of(o@),
        read@ == match_in(stored_row@),
        plan == upsert_plan(
            match *at_path {
                Some((id, stored)) => Some((id, stored@)),
                None => None,
            },
            elsewhere,
            key@,
        ),
        known is Some <==> match_plan == MatchPlan::Replace(known->0),
        known is None <==> match_plan is Insert,
{
}

/// What comes after a reply, what a version is, how two are ordered, and what is
/// told of an update.
pub proof fn law_asking_again_and_updating(
    policy: RetryPolicy,
    attempt: u32,
    reply: Reply,
    step: Step,
    raw: &str,
    v: Option<(u64, u64, u64)>,
    latest: &str,
    order: Option<Ordering>,
    url: &str,
    release: LatestRelease,
    status: UpdateStatus,
)
    requires
        call_ensures(next_step, (policy, attempt, reply), step),
        call_ensures(parse_version, (raw,), v),
        call_ensures(compare_versions, (raw, latest), order),
        call_ensures(update_status, (url, raw, release), status),
    ensures
        step == step_after(policy, attempt, reply),
        v == version_numbers(raw@),
        order == version_order(raw@, latest@),
        status@ == status_for(url@, raw@, release),
{
}

/// A report sums its rows up, and its records tell of them.
pub proof fn law_reporting_rows(rows: &Vec<Row>, s: Summary, row: &Row, record: Vec<String>)
    requires
        call_ensures(summarize, (rows,), s),
        call_ensures(csv_record, (row,), record),
    ensures
        s.sums_up(row_views(rows@)),
        views(record@) == csv_fields(row@),
{
}

/// A timestamp is read as the time it stands for, and as nothing exactly when it
/// stands for none.
pub proof fn law_reading_a_timestamp(value: &str, t: Option<i64>)
    requires
        call_ensures(rfc3339_to_unix, (value,), t),
    ensures
        t is Some <==> unix_time(encode_utf8(value@)) is Some,
        t matches Some(n) ==> unix_time(encode_utf8(value@)) == Some(n as int),
{
}

/// A redirect gives its code only where it carries the state that was sent, and no
/// error.
pub proof fn law_reading_a_redirect(
    pairs: &Vec<(String, String)>,
    state: &str,
    r: Result<String, AuthError>,
)
    requires
        call_ensures(read_callback, (pairs, state), r),
    ensures
        r is Ok <==> last_value(pair_views(pairs@), "error"@) is None && last_value(
            pair_views(pairs@),
            "state"@,
        ) == Some(state@) && last_value(pair_views(pairs@), "code"@) is Some,
        r matches Ok(c) ==> Some(c@) == last_value(pair_views(pairs@), "code"@),
{
}

/// Nothing that a search finds is thrown away: when an answer is taken in, every
/// track of it has its id among the results, and every earlier result is still
/// there in its place.
pub proof fn law_taking_an_answer_in(run: &mut SearchRun, hits: Vec<SpotifyTrack>, k: int)
    requires
        call_ensures(SearchRun::advance, (run, hits), ()),
        is_sound(old(run)@),
        run_query(old(run)@) is Some,
    ensures
        final(run)@ == run_after(old(run)@, track_views(hits@)),
        old(run)@.results.is_prefix_of(final(run)@.results),
        0 <= k < hits@.len() ==> exists|i: int|
            0 <= i < final(run).results@.len() && (#[trigger] final(run).results@[i]).id@
                == hits@[k].id@,
        is_sound(final(run)@),
{
    law_every_answer_is_taken_in(old(run)@, track_views(hits@));
    let results = final(run)@.results;
    if 0 <= k < hits@.len() {
        assert(track_views(hits@)[k] == hits@[k]@);
        assert(has_id(results, track_views(hits@)[k].id));
        let i = choose|i: int| 0 <= i < results.len() && (#[trigger] results[i]).id == hits@[k].id@;
        assert(results[i] == final(run).results@[i]@);
        assert(final(run).results@[i].id@ == hits@[k].id@);
    }
}

/// Merging keeps every result where it was, and afterwards every track that came
/// is there.
pub proof fn law_merging_tracks(results: &mut Vec<SpotifyTrack>, more: Vec<SpotifyTrack>)
    requires
        call_ensures(merge_new, (results, more), ()),
    ensures
        track_views(final(results)@) == merged(track_views(old(results)@), track_views(more@)),
{
}

/// An answer takes a lookup on to what is due next.
pub proof fn law_taking_a_lookup_on(l: &mut Lookup, answer: Result<Vec<SpotifyTrack>, String>)
    requires
        call_ensures(Lookup::advance, (l, answer), ()),
    ensures
        final(l)@ == lookup_after(old(l)@, answer_view(answer)),
{
}

/// A track that was looked up goes where its outcome says.
pub proof fn law_taking_an_outcome_in(
    run: &mut PushRun,
    track_id: i64,
    o: &MatchOutcome,
    is_searched: bool,
)
    requires
        call_ensures(PushRun::take_outcome, (run, track_id, o, is_searched), ()),
    ensures
        final(run)@ == after_outcome(old(run)@, track_id, o@, is_searched),
{
}

/// A track whose match is reused goes where the match says.
pub proof fn law_taking_a_stored_match_in(run: &mut PushRun, track_id: i64, stored: &StoredMatch)
    requires
        call_ensures(PushRun::take_stored, (run, track_id, stored), ()),
    ensures
        final(run)@ == after_stored(old(run)@, track_id, stored@),
{
}

/// A report of a file is noted only where the file is audio, and complete by its
/// name.
pub proof fn law_noting_a_file(
    files: &mut Pending,
    path: String,
    file_name: &str,
    size: u64,
    now: u64,
)
    requires
        call_ensures(Pending::observe, (files, path, file_name, size, now), ()),
    ensures
        audio_name(file_name@) && !temp_name(file_name@) ==> final(files)@ == seen(
            old(files)@,
            path@,
            size,
            now,
        ),
        !audio_name(file_name@) || temp_name(file_name@) ==> final(files)@ == old(files)@,
{
}

/// The files that are done are handed out, and the others wait on.
pub proof fn law_handing_files_out(
    files: &mut Pending,
    sizes: &Vec<u64>,
    now: u64,
    stability_ms: u64,
    r: Vec<String>,
)
    requires
        call_ensures(Pending::take_done, (files, sizes, now, stability_ms), r),
    ensures
        views(r@) == done_paths(old(files)@, sizes@, now, stability_ms),
        final(files)@ == still_waiting(old(files)@, sizes@, now, stability_ms),
{
}

/// The files that vanished are dropped.
pub proof fn law_dropping_files(files: &mut Pending, there: &Vec<bool>)
    requires
        call_ensures(Pending::retain_existing, (files, there), ()),
    ensures
        final(files)@ == existing(old(files)@, there@),
{
}

/// A request and its reply are counted.
pub proof fn law_counting_a_request(
    stats: &mut RequestStats,
    policy: RetryPolicy,
    attempt: u32,
    reply: Reply,
)
    requires
        call_ensures(RequestStats::record, (stats, policy, attempt, reply), ()),
    ensures
        *final(stats) == old(stats).after(policy, attempt, reply),
{
}

/// A track whose match is reused is added to a run.
pub proof fn law_adding_a_reused_track(run: &mut MatchRun, track: LocalTrack, stored: &StoredMatch)
    requires
        call_ensures(MatchRun::reuse, (run, track, stored), ()),
    ensures
        final(run)@ == after_reuse(old(run)@, track@, stored@.verdict, stored@.reason),
{
}

/// A track that was looked up is added to a run. Its outcome is remembered exactly
/// when its search did not fail, unless the run is given up, which it is exactly
/// when it is failing.
pub proof fn law_adding_a_track(
    run: &mut MatchRun,
    track: LocalTrack,
    o: MatchOutcome,
    error: Option<String>,
    r: Concluded,
)
    requires
        call_ensures(MatchRun::conclude, (run, track, o, error), r),
    ensures
        final(run)@ == after_lookup(
            old(run)@,
            RowView { track: track@, outcome: o@, search_error: opt_view(error) },
        ),
        r is Abort <==> is_failing(final(run)@.attempts, final(run)@.failed),
        !(r is Abort) ==> (r is Remember <==> error is None),
        !(r is Abort) ==> (r is Forget <==> error is Some),
{
}

} // verus!
