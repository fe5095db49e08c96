//! What keeping state promises of each row.

use vstd::prelude::*;

use crate::db::{
    at_path, is_keyed, is_reusable, match_row_of, plan_for, planned_id, row_of, table_after,
    upsert_plan, verdict_of, with_key, KnownTrack, TrackState, UpsertPlan,
};
use crate::matcher::OutcomeView;
use crate::tags::{identity, LocalView};
use crate::title::ParsedTitle;

verus! {

/// Which row a file is written to. The row at its path, where there is one: the
/// file is unchanged exactly when the row has its identity, and retagged
/// otherwise. Failing that the row with its identity: the file moved. And a new
/// row only where there is neither.
pub proof fn law_which_row_is_written(
    here: Option<(i64, Seq<char>)>,
    elsewhere: Option<i64>,
    key: Seq<char>,
)
    ensures
        ({
            let plan = upsert_plan(here, elsewhere, key);
            &&& plan is Insert <==> here is None && elsewhere is None
            &&& plan is Relocate <==> here is None && elsewhere is Some
            &&& plan is Update <==> here is Some
            &&& plan matches UpsertPlan::Update(r) ==> r.id == (here->0).0 && (r.state is Unchanged
                <==> (here->0).1 == key) && (r.state is Retagged <==> (here->0).1 != key)
            &&& plan matches UpsertPlan::Relocate(r) ==> r.id == elsewhere->0 && r.state is Moved
        }),
{
}

/// What was known of a file holds on exactly when it is unchanged or moved.
pub proof fn law_what_holds_on(state: TrackState)
    ensures
        is_reusable(state) <==> state is Unchanged || state is Moved,
        !is_reusable(TrackState::New),
        !is_reusable(TrackState::Retagged),
{
}

/// The row at a path is found by it, and there is none where no row has it.
pub proof fn law_row_is_found_by_path(table: Seq<KnownTrack>, path: Seq<char>)
    requires
        is_keyed(table),
    ensures
        forall|i: int|
            0 <= i < table.len() && (#[trigger] table[i]).path == path ==> at_path(table, path)
                == Some((table[i].id, table[i].key)),
        (forall|i: int| 0 <= i < table.len() ==> (#[trigger] table[i]).path != path) ==> at_path(
            table,
            path,
        ) is None,
    decreases table.len(),
{
    if table.len() > 0 {
        let rest = table.drop_first();
        assert forall|i: int, j: int| 0 <= i < j < rest.len() implies (#[trigger] rest[i]).id != (
        #[trigger] rest[j]).id && rest[i].path != rest[j].path by {
            assert(rest[i] == table[i + 1] && rest[j] == table[j + 1]);
        }
        law_row_is_found_by_path(rest, path);
        assert forall|i: int| 0 <= i < table.len() && (#[trigger] table[i]).path == path implies
            at_path(table, path) == Some((table[i].id, table[i].key)) by {
            if i > 0 {
                assert(rest[i - 1] == table[i]);
                assert(table[0].path != table[i].path);
            }
        }
        if forall|i: int| 0 <= i < table.len() ==> (#[trigger] table[i]).path != path {
            assert(table[0].path != path);
            assert forall|i: int| 0 <= i < rest.len() implies (#[trigger] rest[i]).path != path by {
                assert(rest[i] == table[i + 1]);
            }
        }
    }
}

/// The first row with an identity is found by it, and there is none where no row
/// has it.
pub proof fn law_row_is_found_by_identity(table: Seq<KnownTrack>, key: Seq<char>, i: int)
    ensures
        0 <= i < table.len() && table[i].key == key && (forall|j: int|
            0 <= j < i ==> (#[trigger] table[j]).key != key) ==> with_key(table, key) == Some(
            table[i].id,
        ),
        (forall|j: int| 0 <= j < table.len() ==> (#[trigger] table[j]).key != key) ==> with_key(
            table,
            key,
        ) is None,
    decreases table.len(),
{
    if table.len() > 0 {
        let rest = table.drop_first();
        law_row_is_found_by_identity(rest, key, i - 1);
        assert(forall|j: int| 0 <= j < rest.len() ==> #[trigger] rest[j] == table[j + 1]);
        if 0 < i < table.len() && forall|j: int| 0 <= j < i ==> (#[trigger] table[j]).key != key {
            assert(table[0].key != key);
            assert(rest[i - 1] == table[i]);
            assert forall|j: int| 0 <= j < i - 1 implies (#[trigger] rest[j]).key != key by {
                assert(table[j + 1].key != key);
            }
        }
        if forall|j: int| 0 <= j < table.len() ==> (#[trigger] table[j]).key != key {
            assert(table[0].key != key);
            assert forall|j: int| 0 <= j < rest.len() implies (#[trigger] rest[j]).key != key by {
                assert(table[j + 1].key != key);
            }
        }
    }
}

/// Seeing a file touches its own row alone: every other row stays as it is, in
/// its place, and a row is added only for a file that was not known.
pub proof fn law_other_rows_are_left_alone(
    table: Seq<KnownTrack>,
    path: Seq<char>,
    key: Seq<char>,
    new_id: i64,
)
    ensures
        ({
            let plan = plan_for(table, path, key);
            let after = table_after(table, plan, path, key, new_id);
            &&& forall|i: int|
                0 <= i < table.len() && (#[trigger] table[i]).id != planned_id(plan, new_id)
                    ==> after[i] == table[i]
            &&& forall|i: int| 0 <= i < table.len() ==> (#[trigger] after[i]).id == table[i].id
            &&& after.len() == table.len() + if plan is Insert {
                1
            } else {
                0int
            }
        }),
{
}

/// The row of a track says what its tags say, and who it is.
pub proof fn law_row_says_what_the_tags_say(t: LocalView)
    ensures
        ({
            let r = row_of(t);
            &&& r.file_path == t.path
            &&& r.identity_key == identity(t)
            &&& r.artist == t.artist
            &&& r.title == t.title
            &&& r.base_title == t.parsed.base
            &&& r.version == ParsedTitle::label(t.parsed)
            &&& r.isrc == t.isrc
            &&& t.duration_ms <= i64::MAX ==> r.duration_ms == t.duration_ms
            &&& t.file_size <= i64::MAX ==> r.file_size == t.file_size
        }),
{
}

/// A name that is no verdict's is no match.
pub proof fn law_unknown_verdict_is_no_match(name: Seq<char>)
    ensures
        verdict_of(name) is Auto <==> name == "auto"@,
        verdict_of(name) is Review <==> name == "review"@,
        verdict_of(name) is NoMatch <==> name != "auto"@ && name != "review"@,
{
    reveal_strlit("auto");
    reveal_strlit("review");
    assert("auto"@.len() == 4);
    assert("review"@.len() == 6);
}

/// The row of an outcome says under which id its best candidate is listed, and
/// that there is none where there is none.
pub proof fn law_match_row_names_its_track(o: OutcomeView)
    ensures
        o.candidates.len() > 0 ==> match_row_of(o).platform_track_id == Some(
            o.candidates[0].track.id,
        ),
        o.candidates.len() == 0 ==> match_row_of(o).platform_track_id is None,
{
}

} // verus!
