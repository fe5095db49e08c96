//! What looking tracks up and pushing them promise, over all tracks and
//! playlists.

use vstd::prelude::*;

use crate::db::{StoredMatchView, TrackRecord};
use crate::matcher::{same_by_meta, OutcomeView};
use crate::matcher_laws::law_a_recording_is_itself;
use crate::normalize::token_list;
use crate::push::{
    after_colon, after_outcome, after_stored, chosen, is_yes, item_for, law_no_duplicate_is_pushed,
    law_skipped_for_a_reason, lookup_after, lookup_start, rebuilt, reuses_stored, should_abort,
    target_playlist, ItemView, Lookup, LookupView, PushRunView,
};
use crate::spotify::{artist_line, EntryView, Playlist, TrackView};
use crate::tags::LocalView;
use crate::text::{lemma_rfind_below, lower_ascii, occurs_at, rfind, trimmed};

verus! {

/// An item whose artists, with any word in them, name and length all equal those
/// of a playlist entry is never added, whatever the two addresses are.
pub proof fn law_same_recording_is_never_added(
    items: Seq<ItemView>,
    already: Seq<EntryView>,
    logged: Seq<bool>,
    i: int,
    k: int,
)
    requires
        0 <= i < items.len(),
        0 <= k < already.len(),
        token_list(items[i].artists).len() > 0,
        artist_line(already[k].artists) == items[i].artists,
        already[k].name == items[i].name,
        already[k].duration_ms == items[i].duration_ms,
    ensures
        !chosen(items, already, logged).contains(i),
{
    law_a_recording_is_itself(items[i].artists, items[i].name, items[i].duration_ms);
    law_held_or_logged_is_never_added(items, already, logged, i);
    assert(same_by_meta(
        artist_line(already[k].artists),
        already[k].name,
        already[k].duration_ms,
        items[i].artists,
        items[i].name,
        items[i].duration_ms,
    ));
}

/// Whether a playlist holds an item: one of its entries is the very listing, or
/// of the same recording.
pub open spec fn is_held(already: Seq<EntryView>, item: ItemView) -> bool {
    exists|k: int|
        0 <= k < already.len() && ((#[trigger] already[k]).uri == item.uri || same_by_meta(
            artist_line(already[k].artists),
            already[k].name,
            already[k].duration_ms,
            item.artists,
            item.name,
            item.duration_ms,
        ))
}

/// An item that the playlist holds, or that was logged as pushed to it, is never
/// added.
pub proof fn law_held_or_logged_is_never_added(
    items: Seq<ItemView>,
    already: Seq<EntryView>,
    logged: Seq<bool>,
    i: int,
)
    requires
        0 <= i < items.len(),
    ensures
        is_held(already, items[i]) ==> !chosen(items, already, logged).contains(i),
        i < logged.len() && logged[i] ==> !chosen(items, already, logged).contains(i),
{
    law_no_duplicate_is_pushed(items, already, logged);
    let c = chosen(items, already, logged);
    if c.contains(i) {
        let k = choose|k: int| 0 <= k < c.len() && c[k] == i;
        assert(!crate::push::in_playlist(already, items[c[k]]));
        if is_held(already, items[i]) {
            let j = choose|j: int|
                0 <= j < already.len() && ((#[trigger] already[j]).uri == items[i].uri
                    || same_by_meta(
                    artist_line(already[j].artists),
                    already[j].name,
                    already[j].duration_ms,
                    items[i].artists,
                    items[i].name,
                    items[i].duration_ms,
                ));
            assert(crate::push::is_entry_of(already[j], items[i]));
        }
    }
}

/// Everything else is added: an item that the playlist does not hold, that was
/// not logged, and whose address no other item has.
pub proof fn law_everything_else_is_added(
    items: Seq<ItemView>,
    already: Seq<EntryView>,
    logged: Seq<bool>,
    i: int,
)
    requires
        0 <= i < items.len(),
        !is_held(already, items[i]),
        i >= logged.len() || !logged[i],
        forall|j: int| 0 <= j < items.len() && j != i ==> (#[trigger] items[j]).uri != items[i].uri,
    ensures
        chosen(items, already, logged).contains(i),
{
    let c = chosen(items, already, logged);
    if !c.contains(i) {
        law_skipped_for_a_reason(items, already, logged, i);
        law_no_duplicate_is_pushed(items, already, logged);
        if crate::push::in_playlist(already, items[i]) {
            let k = choose|k: int|
                0 <= k < already.len() && crate::push::is_entry_of(#[trigger] already[k], items[i]);
            assert(already[k].uri == items[i].uri || same_by_meta(
                artist_line(already[k].artists),
                already[k].name,
                already[k].duration_ms,
                items[i].artists,
                items[i].name,
                items[i].duration_ms,
            ));
            assert(is_held(already, items[i]));
        } else if crate::push::in_batch(items, c, items[i].uri) {
            let k = choose|k: int|
                0 <= k < c.len() && items[#[trigger] c[k]].uri == items[i].uri;
            assert(c[k] != i);
            assert(items[c[k]].uri != items[i].uri);
        }
    }
}

/// Of several items with one address that nothing rules out, the first is added.
pub proof fn law_first_of_one_address_is_added(
    items: Seq<ItemView>,
    already: Seq<EntryView>,
    logged: Seq<bool>,
    i: int,
)
    requires
        0 <= i < items.len(),
        !is_held(already, items[i]),
        i >= logged.len() || !logged[i],
        forall|j: int| 0 <= j < i ==> (#[trigger] items[j]).uri != items[i].uri,
    ensures
        chosen(items, already, logged).contains(i),
    decreases items.len(),
{
    let init = items.drop_last();
    let before = chosen(init, already, logged);
    let c = chosen(items, already, logged);
    if i < init.len() {
        assert(init[i] == items[i]);
        assert forall|j: int| 0 <= j < i implies (#[trigger] init[j]).uri != init[i].uri by {
            assert(init[j] == items[j]);
        }
        law_first_of_one_address_is_added(init, already, logged, i);
        let k = choose|k: int| 0 <= k < before.len() && before[k] == i;
        assert(c[k] == i);
    } else {
        law_added_in_order(init, already, logged);
        if crate::push::in_playlist(already, items[i]) {
            let k = choose|k: int|
                0 <= k < already.len() && crate::push::is_entry_of(#[trigger] already[k], items[i]);
            assert(already[k].uri == items[i].uri || same_by_meta(
                artist_line(already[k].artists),
                already[k].name,
                already[k].duration_ms,
                items[i].artists,
                items[i].name,
                items[i].duration_ms,
            ));
        }
        if crate::push::in_batch(items, before, items[i].uri) {
            let k = choose|k: int|
                0 <= k < before.len() && items[#[trigger] before[k]].uri == items[i].uri;
            assert(0 <= before[k] < init.len());
            assert(items[before[k]].uri != items[i].uri);
        }
        assert(c[before.len() as int] == i);
    }
}

/// Items are added in the order in which they came, each at most once.
pub proof fn law_added_in_order(items: Seq<ItemView>, already: Seq<EntryView>, logged: Seq<bool>)
    ensures
        ({
            let c = chosen(items, already, logged);
            &&& forall|k: int| 0 <= k < c.len() ==> 0 <= #[trigger] c[k] < items.len()
            &&& forall|j: int, k: int| 0 <= j < k < c.len() ==> #[trigger] c[j] < #[trigger] c[k]
        }),
    decreases items.len(),
{
    if items.len() > 0 {
        let before = chosen(items.drop_last(), already, logged);
        let c = chosen(items, already, logged);
        law_added_in_order(items.drop_last(), already, logged);
        assert forall|k: int| 0 <= k < c.len() implies 0 <= #[trigger] c[k] < items.len() by {
            if k < before.len() {
                assert(c[k] == before[k]);
            }
        }
        assert forall|j: int, k: int| 0 <= j < k < c.len() implies #[trigger] c[j]
            < #[trigger] c[k] by {
            assert(c[j] == before[j]);
            if k < before.len() {
                assert(c[k] == before[k]);
            }
        }
    }
}

/// An item is the best candidate of an outcome, with what the duplicate check
/// needs; without a candidate there is none.
pub proof fn law_item_is_the_best_candidate(track_id: i64, o: OutcomeView)
    ensures
        o.candidates.len() == 0 ==> item_for(track_id, o) is None,
        o.candidates.len() > 0 ==> item_for(track_id, o) == Some(
            ItemView {
                track_id,
                uri: o.candidates[0].track.uri,
                name: o.candidates[0].track.name,
                artists: artist_line(o.candidates[0].track.artists),
                duration_ms: o.candidates[0].track.duration_ms,
            },
        ),
{
}

/// Where a track that was looked up goes. One whose search failed counts as
/// failed and nothing else; one to be pushed is gathered with its best candidate;
/// one to be looked at is counted, and so is one that was not found.
pub proof fn law_where_an_outcome_goes(
    run: PushRunView,
    track_id: i64,
    o: OutcomeView,
    is_searched: bool,
)
    requires
        run.review < usize::MAX,
        run.missing < usize::MAX,
        run.failed < usize::MAX,
    ensures
        ({
            let after = after_outcome(run, track_id, o, is_searched);
            &&& after.reused == run.reused
            &&& after.failed == run.failed + if is_searched {
                0
            } else {
                1int
            }
            &&& after.review == run.review + if is_searched && o.verdict is Review {
                1
            } else {
                0int
            }
            &&& after.missing == run.missing + if is_searched && o.verdict is NoMatch {
                1
            } else {
                0int
            }
            &&& is_searched && o.verdict is Auto && o.candidates.len() > 0 ==> after.items.len()
                == run.items.len() + 1 && after.items.drop_last() == run.items
                && after.items.last().track_id == track_id && after.items.last().uri
                == o.candidates[0].track.uri
            &&& !(is_searched && o.verdict is Auto && o.candidates.len() > 0) ==> after.items
                == run.items
        }),
{
    let after = after_outcome(run, track_id, o, is_searched);
    if is_searched && o.verdict is Auto && o.candidates.len() > 0 {
        assert(after.items.drop_last() =~= run.items);
    }
}

/// Where a track whose match is reused goes: where a fresh one would, except that
/// one without an address is put up instead of pushed. It counts as reused.
pub proof fn law_where_a_stored_match_goes(run: PushRunView, track_id: i64, m: StoredMatchView)
    requires
        run.review < usize::MAX,
        run.missing < usize::MAX,
        run.reused < usize::MAX,
    ensures
        ({
            let after = after_stored(run, track_id, m);
            let pushed = m.verdict is Auto && m.platform_uri is Some;
            let shown = m.verdict is Review || (m.verdict is Auto && m.platform_uri is None);
            &&& after.reused == run.reused + 1
            &&& after.failed == run.failed
            &&& after.review == run.review + if shown {
                1
            } else {
                0int
            }
            &&& after.missing == run.missing + if m.verdict is NoMatch {
                1
            } else {
                0int
            }
            &&& pushed ==> after.items.len() == run.items.len() + 1 && after.items.drop_last()
                == run.items && after.items.last().track_id == track_id && after.items.last().uri
                == m.platform_uri->0
            &&& pushed && m.platform_name is Some ==> after.items.last().name == m.platform_name->0
            &&& pushed && m.platform_duration_ms is Some ==> after.items.last().duration_ms
                == m.platform_duration_ms->0
            &&& !pushed ==> after.items == run.items
        }),
{
    let after = after_stored(run, track_id, m);
    if m.verdict is Auto && m.platform_uri is Some {
        assert(after.items.drop_last() =~= run.items);
    }
}

/// A remembered match says that it is one.
pub proof fn law_remembered_match_says_so(m: StoredMatchView)
    ensures
        rebuilt(m).reason == m.reason + " (from cache)"@,
        rebuilt(m).candidates.len() == 1,
        rebuilt(m).verdict is Auto,
{
}

/// What is searched for: a file with a code by its code first, any other by its
/// text; and one with a code by its text only when nothing came of the code.
pub proof fn law_what_is_looked_up(
    local: LocalView,
    l: LookupView,
    answer: Result<Seq<TrackView>, Seq<char>>,
)
    ensures
        local.isrc is Some ==> lookup_start(local).step is ByCode,
        local.isrc is None ==> lookup_start(local).step is ByText,
        lookup_start(local).isrc_hits.len() == 0 && lookup_start(local).text_hits.len() == 0,
        lookup_start(local).error is None && !lookup_start(local).latest_failed,
        ({
            let next = lookup_after(l, answer);
            let found = answer is Ok && answer->Ok_0.len() > 0;
            &&& l.step is ByCode ==> (next.step is Done <==> found)
            &&& l.step is ByCode ==> (next.step is ByText <==> !found)
            &&& l.step is ByText ==> next.step is Done
            &&& l.step is Done ==> next == l
        }),
{
}

/// What an answer leaves: its hits under the search they answer, and those of the
/// other search as they were; a failure leaves none, and is remembered, while a
/// success takes no earlier failure back.
pub proof fn law_what_an_answer_leaves(l: LookupView, answer: Result<Seq<TrackView>, Seq<char>>)
    requires
        !(l.step is Done),
    ensures
        ({
            let next = lookup_after(l, answer);
            &&& answer is Ok ==> next.error == l.error && !next.latest_failed
            &&& answer is Err ==> next.error == Some(answer->Err_0) && next.latest_failed
            &&& l.step is ByCode ==> next.text_hits == l.text_hits
            &&& l.step is ByText ==> next.isrc_hits == l.isrc_hits
            &&& l.step is ByCode && answer is Ok ==> next.isrc_hits == answer->Ok_0
            &&& l.step is ByText && answer is Ok ==> next.text_hits == answer->Ok_0
            &&& l.step is ByCode && answer is Err ==> next.isrc_hits.len() == 0
            &&& l.step is ByText && answer is Err ==> next.text_hits.len() == 0
        }),
{
}

/// A run is given up exactly when five searches or more were made and half of
/// them or more failed.
pub proof fn law_when_a_run_is_given_up(attempts: usize, failed: usize, r: bool)
    requires
        call_ensures(should_abort, (attempts, failed), r),
    ensures
        r <==> attempts >= 5 && failed >= attempts - failed,
{
}

/// A stored match is used exactly when there is one, the file is unchanged or
/// moved, and nobody asked for a fresh look.
pub proof fn law_when_a_match_is_reused(rescan: bool, record: TrackRecord, is_stored: bool, r: bool)
    requires
        call_ensures(reuses_stored, (rescan, record, is_stored), r),
    ensures
        r <==> is_stored && !rescan && (record.state is Unchanged || record.state is Moved),
{
}

/// The playlist to push to is the first with the name, whatever the case of its
/// letters, that has no owner or is the user's own.
pub proof fn law_which_playlist_is_pushed_to(
    playlists: &Vec<Playlist>,
    name: &str,
    user_id: &str,
    r: Option<usize>,
    k: int,
)
    requires
        call_ensures(target_playlist, (playlists, name, user_id), r),
    ensures
        r matches Some(i) ==> {
            &&& i < playlists@.len()
            &&& lower_ascii(playlists@[i as int].name@) == lower_ascii(name@)
            &&& playlists@[i as int].owner matches Some(owner) ==> owner.id@ == user_id@
        },
        0 <= k < playlists@.len() && lower_ascii(playlists@[k].name@) == lower_ascii(name@) && (
        playlists@[k].owner is None || playlists@[k].owner->0.id@ == user_id@) ==> (r matches Some(i)
            && i <= k),
{
    if 0 <= k < playlists@.len() && lower_ascii(playlists@[k].name@) == lower_ascii(name@) && (
    playlists@[k].owner is None || playlists@[k].owner->0.id@ == user_id@) {
        assert(crate::push::is_target(playlists@[k], name@, user_id@));
    }
}

/// Only a plain yes is one, whatever its case and the white space around it.
pub proof fn law_what_is_a_yes(answer: &str, r: bool)
    requires
        call_ensures(is_yes, (answer,), r),
    ensures
        r <==> lower_ascii(trimmed(answer@)) == "y"@ || lower_ascii(trimmed(answer@)) == "yes"@,
{
}

/// An outcome is remembered only when no search of its lookup failed, and counts
/// only when its last one did not.
pub proof fn law_when_a_lookup_counts(l: &Lookup, answer: bool, searched: bool)
    requires
        call_ensures(Lookup::is_answer, (l,), answer),
        call_ensures(Lookup::is_searched, (l,), searched),
    ensures
        answer <==> l.error is None,
        searched <==> !l.latest_failed,
{
}

/// A remembered match is listed under what follows the last colon of its address,
/// or under the address itself.
pub proof fn law_remembered_id_ends_the_address(front: Seq<char>, id: Seq<char>)
    requires
        !id.contains(':'),
    ensures
        after_colon(front + seq![':'] + id) == id,
        after_colon(id) == id,
{
    let colon = seq![':'];
    let whole = front + colon + id;
    let at = front.len() as int;
    lemma_rfind_below(whole, colon, whole.len() as int + 1);
    assert(whole.subrange(at, at + 1) =~= colon);
    assert(occurs_at(whole, colon, at));
    let i = rfind(whole, colon)->0;
    if i > at {
        assert(whole.subrange(i, i + 1)[0] == ':');
        assert(id[i - at - 1] == ':');
    }
    assert(whole.skip(at + 1) =~= id);
    lemma_rfind_below(id, colon, id.len() as int + 1);
    if rfind(id, colon) is Some {
        let j = rfind(id, colon)->0;
        assert(id.subrange(j, j + 1)[0] == ':');
        assert(id[j] == ':');
    }
}

} // verus!
