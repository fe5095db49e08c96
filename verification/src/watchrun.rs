//! What the rounds of a watch add up to.
//!
//! A watch goes in rounds: something may be reported, then the sizes of the
//! waiting files are looked at, the files that are done are handed out, and
//! those that vanished are dropped. Here stands what holds of a whole run of
//! them, whatever is reported and whatever the sizes are.

use vstd::prelude::*;

use crate::tags::{audio_name, temp_name};
use crate::watcher::{
    distinct_paths, done_paths, existing, has_path, is_done, lemma_waiting_is_among, observed,
    reseen, size_at, still_waiting, PendingView,
};

verus! {

/// A file that was reported: its path and name, the size it had, and when.
pub struct Report {
    pub path: Seq<char>,
    pub file_name: Seq<char>,
    pub size: u64,
    pub at: u64,
}

/// One round: what was reported, what is then found on disk, and when.
pub struct Round {
    pub report: Option<Report>,
    pub size_of: spec_fn(Seq<char>) -> u64,
    pub is_there: spec_fn(Seq<char>) -> bool,
    pub now: u64,
}

/// Whether a report is of a complete audio file, by its name.
pub open spec fn is_track(r: Report) -> bool {
    !temp_name(r.file_name) && audio_name(r.file_name)
}

/// Whether a round reports a track at a path.
pub open spec fn reports(round: Round, path: Seq<char>) -> bool {
    round.report matches Some(r) && is_track(r) && r.path == path
}

/// The waiting files once the report is noted.
pub open spec fn noted(files: Seq<PendingView>, round: Round) -> Seq<PendingView> {
    match round.report {
        Some(r) => observed(files, r.path, r.file_name, r.size, r.at),
        None => files,
    }
}

/// The sizes that the files have in a round.
pub open spec fn sizes_in(files: Seq<PendingView>, round: Round) -> Seq<u64> {
    files.map_values(|f: PendingView| (round.size_of)(f.path))
}

/// Which of the files are there in a round.
pub open spec fn there_in(files: Seq<PendingView>, round: Round) -> Seq<bool> {
    files.map_values(|f: PendingView| (round.is_there)(f.path))
}

/// The paths that a round hands out.
pub open spec fn handed_out(files: Seq<PendingView>, round: Round, stability_ms: u64) -> Seq<
    Seq<char>,
> {
    let all = noted(files, round);
    done_paths(all, sizes_in(all, round), round.now, stability_ms)
}

/// The files that wait after a round.
pub open spec fn after_round(files: Seq<PendingView>, round: Round, stability_ms: u64) -> Seq<
    PendingView,
> {
    let all = noted(files, round);
    let waiting = still_waiting(all, sizes_in(all, round), round.now, stability_ms);
    existing(waiting, there_in(waiting, round))
}

/// The files that wait after the rounds of a watch.
pub open spec fn after_rounds(rounds: Seq<Round>, stability_ms: u64) -> Seq<PendingView>
    decreases rounds.len(),
{
    if rounds.len() == 0 {
        Seq::empty()
    } else {
        after_round(after_rounds(rounds.drop_last(), stability_ms), rounds.last(), stability_ms)
    }
}

/// How often a path comes up.
pub open spec fn times(paths: Seq<Seq<char>>, path: Seq<char>) -> nat
    decreases paths.len(),
{
    if paths.len() == 0 {
        0
    } else {
        times(paths.drop_last(), path) + if paths.last() == path {
            1nat
        } else {
            0nat
        }
    }
}

/// How often the last of the rounds hands a path out.
pub open spec fn times_at_last(rounds: Seq<Round>, stability_ms: u64, path: Seq<char>) -> nat {
    times(
        handed_out(after_rounds(rounds.drop_last(), stability_ms), rounds.last(), stability_ms),
        path,
    )
}

/// How often the rounds of a watch hand a path out.
pub open spec fn times_handed_out(rounds: Seq<Round>, stability_ms: u64, path: Seq<char>) -> nat
    decreases rounds.len(),
{
    if rounds.len() == 0 {
        0
    } else {
        times_handed_out(rounds.drop_last(), stability_ms, path) + times_at_last(
            rounds,
            stability_ms,
            path,
        )
    }
}

/// The file at a path, with the size last reported of it and the time at which
/// that size was first reported.
pub open spec fn last_change(rounds: Seq<Round>, path: Seq<char>) -> Option<PendingView>
    decreases rounds.len(),
{
    if rounds.len() == 0 {
        None
    } else {
        let before = last_change(rounds.drop_last(), path);
        if reports(rounds.last(), path) {
            let r = rounds.last().report->0;
            match before {
                Some(f) => Some(reseen(f, path, r.size, r.at)),
                None => Some(PendingView { path, size: r.size, steady_since: r.at }),
            }
        } else {
            before
        }
    }
}

/// The file that waits at a path.
pub open spec fn entry(files: Seq<PendingView>, path: Seq<char>) -> Option<PendingView>
    decreases files.len(),
{
    if files.len() == 0 {
        None
    } else if files.last().path == path {
        Some(files.last())
    } else {
        entry(files.drop_last(), path)
    }
}

proof fn lemma_entry(files: Seq<PendingView>, path: Seq<char>)
    ensures
        entry(files, path) is Some <==> has_path(files, path),
        entry(files, path) matches Some(f) ==> f.path == path,
    decreases files.len(),
{
    if files.len() > 0 {
        let init = files.drop_last();
        lemma_entry(init, path);
        if files.last().path == path {
            assert(files[files.len() - 1].path == path);
        } else {
            if has_path(init, path) {
                let i = choose|i: int| 0 <= i < init.len() && (#[trigger] init[i]).path == path;
                assert(files[i].path == path);
            }
            if has_path(files, path) {
                let i = choose|i: int| 0 <= i < files.len() && (#[trigger] files[i]).path == path;
                assert(i < init.len());
                assert(init[i].path == path);
            }
        }
    }
}

proof fn lemma_entry_push(files: Seq<PendingView>, f: PendingView, path: Seq<char>)
    ensures
        entry(files.push(f), path) == if f.path == path {
            Some(f)
        } else {
            entry(files, path)
        },
{
    assert(files.push(f).drop_last() =~= files);
}

proof fn lemma_times_push(paths: Seq<Seq<char>>, p: Seq<char>, path: Seq<char>)
    ensures
        times(paths.push(p), path) == times(paths, path) + if p == path {
            1nat
        } else {
            0nat
        },
{
    assert(paths.push(p).drop_last() =~= paths);
}

proof fn lemma_distinct_init(files: Seq<PendingView>)
    requires
        distinct_paths(files),
        files.len() > 0,
    ensures
        distinct_paths(files.drop_last()),
        entry(files.drop_last(), files.last().path) is None,
{
    let init = files.drop_last();
    let path = files.last().path;
    lemma_entry(init, path);
    assert forall|i: int, j: int| 0 <= i < j < init.len() implies (#[trigger] init[i]).path != (
    #[trigger] init[j]).path by {
        assert(files[i].path != files[j].path);
    }
    if has_path(init, path) {
        let i = choose|i: int| 0 <= i < init.len() && (#[trigger] init[i]).path == path;
        assert(files[i].path != files[files.len() - 1].path);
    }
}

proof fn lemma_reseen_entry(
    files: Seq<PendingView>,
    path: Seq<char>,
    size: u64,
    at: u64,
    other: Seq<char>,
)
    ensures
        entry(files.map_values(|f: PendingView| reseen(f, path, size, at)), other) == match entry(
            files,
            other,
        ) {
            Some(f) => Some(reseen(f, path, size, at)),
            None => None,
        },
    decreases files.len(),
{
    let mapped = files.map_values(|f: PendingView| reseen(f, path, size, at));
    if files.len() > 0 {
        lemma_reseen_entry(files.drop_last(), path, size, at, other);
        assert(mapped.drop_last() =~= files.drop_last().map_values(
            |f: PendingView| reseen(f, path, size, at),
        ));
        assert(mapped.last() == reseen(files.last(), path, size, at));
    }
}

/// A report changes the file at its path alone.
proof fn lemma_noted(files: Seq<PendingView>, round: Round, path: Seq<char>)
    requires
        distinct_paths(files),
    ensures
        distinct_paths(noted(files, round)),
        entry(noted(files, round), path) == if reports(round, path) {
            let r = round.report->0;
            match entry(files, path) {
                Some(f) => Some(reseen(f, path, r.size, r.at)),
                None => Some(PendingView { path, size: r.size, steady_since: r.at }),
            }
        } else {
            entry(files, path)
        },
{
    if round.report is Some && is_track(round.report->0) {
        let r = round.report->0;
        let after = noted(files, round);
        lemma_entry(files, r.path);
        lemma_entry(files, path);
        if has_path(files, r.path) {
            lemma_reseen_entry(files, r.path, r.size, r.at, path);
            assert forall|i: int, j: int| 0 <= i < j < after.len() implies (
            #[trigger] after[i]).path != (#[trigger] after[j]).path by {
                assert(files[i].path != files[j].path);
            }
        } else {
            let f = PendingView { path: r.path, size: r.size, steady_since: r.at };
            lemma_entry_push(files, f, path);
            assert forall|i: int, j: int| 0 <= i < j < after.len() implies (
            #[trigger] after[i]).path != (#[trigger] after[j]).path by {
                assert(after[i] == files[i]);
                if j < files.len() {
                    assert(files[i].path != files[j].path);
                } else {
                    assert(files[i].path != r.path);
                }
            }
        }
    }
}

proof fn lemma_waiting_distinct(
    files: Seq<PendingView>,
    sizes: Seq<u64>,
    now: u64,
    stability_ms: u64,
)
    requires
        distinct_paths(files),
    ensures
        distinct_paths(still_waiting(files, sizes, now, stability_ms)),
    decreases files.len(),
{
    if files.len() > 0 {
        let init = files.drop_last();
        let before = still_waiting(init, sizes, now, stability_ms);
        let after = still_waiting(files, sizes, now, stability_ms);
        lemma_distinct_init(files);
        lemma_waiting_distinct(init, sizes, now, stability_ms);
        assert forall|i: int, j: int| 0 <= i < j < after.len() implies (#[trigger] after[i]).path
            != (#[trigger] after[j]).path by {
            if j < before.len() {
                assert(before[i].path != before[j].path);
            } else {
                lemma_waiting_is_among(init, sizes, now, stability_ms, i);
                let k = choose|k: int| 0 <= k < init.len() && #[trigger] init[k] == before[i];
                assert(files[k].path != files[files.len() - 1].path);
            }
        }
    }
}

proof fn lemma_existing_is_among(files: Seq<PendingView>, there: Seq<bool>, k: int)
    requires
        0 <= k < existing(files, there).len(),
    ensures
        exists|i: int| 0 <= i < files.len() && #[trigger] files[i] == existing(files, there)[k],
    decreases files.len(),
{
    let init = files.drop_last();
    let before = existing(init, there);
    if k < before.len() {
        lemma_existing_is_among(init, there, k);
        let i = choose|i: int| 0 <= i < init.len() && #[trigger] init[i] == before[k];
        assert(files[i] == init[i]);
    } else {
        assert(files[files.len() - 1] == existing(files, there)[k]);
    }
}

proof fn lemma_existing_distinct(files: Seq<PendingView>, there: Seq<bool>)
    requires
        distinct_paths(files),
    ensures
        distinct_paths(existing(files, there)),
    decreases files.len(),
{
    if files.len() > 0 {
        let init = files.drop_last();
        let before = existing(init, there);
        let after = existing(files, there);
        lemma_distinct_init(files);
        lemma_existing_distinct(init, there);
        assert forall|i: int, j: int| 0 <= i < j < after.len() implies (#[trigger] after[i]).path
            != (#[trigger] after[j]).path by {
            if j < before.len() {
                assert(before[i].path != before[j].path);
            } else {
                lemma_existing_is_among(init, there, i);
                let k = choose|k: int| 0 <= k < init.len() && #[trigger] init[k] == before[i];
                assert(files[k].path != files[files.len() - 1].path);
            }
        }
    }
}

/// A file that is done is handed out once and waits no more; one that is not
/// waits on.
proof fn lemma_sweep(
    files: Seq<PendingView>,
    sizes: Seq<u64>,
    round: Round,
    stability_ms: u64,
    path: Seq<char>,
)
    requires
        distinct_paths(files),
        files.len() <= sizes.len(),
        forall|i: int|
            0 <= i < files.len() ==> #[trigger] sizes[i] == (round.size_of)(files[i].path),
    ensures
        ({
            let out = done_paths(files, sizes, round.now, stability_ms);
            let waiting = still_waiting(files, sizes, round.now, stability_ms);
            match entry(files, path) {
                Some(f) => if is_done(f, (round.size_of)(path), round.now, stability_ms) {
                    times(out, path) == 1 && entry(waiting, path) is None
                } else {
                    times(out, path) == 0 && entry(waiting, path) == Some(f)
                },
                None => times(out, path) == 0 && entry(waiting, path) is None,
            }
        }),
    decreases files.len(),
{
    if files.len() > 0 {
        let init = files.drop_last();
        let last = files.last();
        lemma_distinct_init(files);
        assert forall|i: int| 0 <= i < init.len() implies #[trigger] sizes[i] == (round.size_of)(
            init[i].path,
        ) by {
            assert(init[i] == files[i]);
        }
        lemma_sweep(init, sizes, round, stability_ms, path);
        assert(sizes[files.len() - 1] == (round.size_of)(files[files.len() - 1].path));
        assert(size_at(sizes, files.len() - 1) == (round.size_of)(last.path));
        lemma_times_push(done_paths(init, sizes, round.now, stability_ms), last.path, path);
        lemma_entry_push(still_waiting(init, sizes, round.now, stability_ms), last, path);
    }
}

/// Dropping what vanished drops the file at a path exactly when it is gone.
proof fn lemma_existing_entry(
    files: Seq<PendingView>,
    there: Seq<bool>,
    round: Round,
    path: Seq<char>,
)
    requires
        distinct_paths(files),
        files.len() <= there.len(),
        forall|i: int|
            0 <= i < files.len() ==> #[trigger] there[i] == (round.is_there)(files[i].path),
    ensures
        entry(existing(files, there), path) == if (round.is_there)(path) {
            entry(files, path)
        } else {
            None
        },
    decreases files.len(),
{
    if files.len() > 0 {
        let init = files.drop_last();
        let last = files.last();
        lemma_distinct_init(files);
        assert forall|i: int| 0 <= i < init.len() implies #[trigger] there[i] == (round.is_there)(
            init[i].path,
        ) by {
            assert(init[i] == files[i]);
        }
        lemma_existing_entry(init, there, round, path);
        assert(there[files.len() - 1] == (round.is_there)(files[files.len() - 1].path));
        lemma_entry_push(existing(init, there), last, path);
    }
}

/// What a round does to the file at a path.
proof fn lemma_round(files: Seq<PendingView>, round: Round, stability_ms: u64, path: Seq<char>)
    requires
        distinct_paths(files),
    ensures
        distinct_paths(after_round(files, round, stability_ms)),
        ({
            let out = times(handed_out(files, round, stability_ms), path);
            let after = entry(after_round(files, round, stability_ms), path);
            match entry(noted(files, round), path) {
                Some(f) => if is_done(f, (round.size_of)(path), round.now, stability_ms) {
                    out == 1 && after is None
                } else {
                    out == 0 && after == if (round.is_there)(path) {
                        Some(f)
                    } else {
                        None
                    }
                },
                None => out == 0 && after is None,
            }
        }),
{
    let all = noted(files, round);
    let sizes = sizes_in(all, round);
    let waiting = still_waiting(all, sizes, round.now, stability_ms);
    let there = there_in(waiting, round);
    lemma_noted(files, round, path);
    lemma_sweep(all, sizes, round, stability_ms, path);
    lemma_waiting_distinct(all, sizes, round.now, stability_ms);
    lemma_existing_distinct(waiting, there);
    lemma_existing_entry(waiting, there, round, path);
}

proof fn lemma_rounds_distinct(rounds: Seq<Round>, stability_ms: u64)
    ensures
        distinct_paths(after_rounds(rounds, stability_ms)),
    decreases rounds.len(),
{
    if rounds.len() > 0 {
        lemma_rounds_distinct(rounds.drop_last(), stability_ms);
        lemma_round(
            after_rounds(rounds.drop_last(), stability_ms),
            rounds.last(),
            stability_ms,
            Seq::empty(),
        );
    }
}

/// Whether a size was reported of a path, in a round, and every later report of
/// the path gives the same one.
pub open spec fn holds_since(rounds: Seq<Round>, f: PendingView, j: int) -> bool {
    &&& 0 <= j < rounds.len()
    &&& reports(rounds[j], f.path)
    &&& (rounds[j].report->0).size == f.size
    &&& (rounds[j].report->0).at == f.steady_since
    &&& forall|i: int|
        j < i < rounds.len() && reports(#[trigger] rounds[i], f.path) ==> (
        rounds[i].report->0).size == f.size
}

proof fn lemma_holds_on(rounds: Seq<Round>, f: PendingView, j: int)
    requires
        rounds.len() > 0,
        holds_since(rounds.drop_last(), f, j),
        reports(rounds.last(), f.path) ==> (rounds.last().report->0).size == f.size,
    ensures
        holds_since(rounds, f, j),
{
    let init = rounds.drop_last();
    assert(rounds[j] == init[j]);
    assert forall|i: int| j < i < rounds.len() && reports(#[trigger] rounds[i], f.path) implies (
    rounds[i].report->0).size == f.size by {
        if i < init.len() {
            assert(init[i] == rounds[i]);
        }
    }
}

/// A file waits with a size that was reported, and reported unchanged since.
proof fn lemma_noted_holds(rounds: Seq<Round>, stability_ms: u64, path: Seq<char>) -> (j: int)
    requires
        rounds.len() > 0,
        entry(noted(after_rounds(rounds.drop_last(), stability_ms), rounds.last()), path) is Some,
    ensures
        holds_since(
            rounds,
            entry(
                noted(after_rounds(rounds.drop_last(), stability_ms), rounds.last()),
                path,
            )->0,
            j,
        ),
    decreases rounds.len(),
{
    let init = rounds.drop_last();
    let files = after_rounds(init, stability_ms);
    let round = rounds.last();
    lemma_rounds_distinct(init, stability_ms);
    lemma_noted(files, round, path);
    lemma_entry(files, path);
    let f = entry(noted(files, round), path)->0;
    if entry(files, path) == Some(f) {
        // It waited before, so it was noted in an earlier round.
        lemma_rounds_distinct(init.drop_last(), stability_ms);
        lemma_round(after_rounds(init.drop_last(), stability_ms), init.last(), stability_ms, path);
        let j = lemma_noted_holds(init, stability_ms, path);
        lemma_holds_on(rounds, f, j);
        j
    } else {
        rounds.len() - 1
    }
}

/// A path is handed out only for a complete audio file that was reported, is not
/// empty, has the size that was reported, and has held it, by every report, for
/// as long as asked.
pub proof fn law_only_finished_tracks_are_handed_out(
    rounds: Seq<Round>,
    stability_ms: u64,
    path: Seq<char>,
)
    requires
        rounds.len() > 0,
        times_at_last(rounds, stability_ms, path) > 0,
    ensures
        exists|f: PendingView, j: int|
            #[trigger] holds_since(rounds, f, j) && f.path == path && f.size > 0 && f.size == (
            rounds.last().size_of)(path) && (rounds.last().now - f.steady_since >= stability_ms
                || stability_ms == 0),
{
    let init = rounds.drop_last();
    let files = after_rounds(init, stability_ms);
    lemma_rounds_distinct(init, stability_ms);
    lemma_round(files, rounds.last(), stability_ms, path);
    lemma_noted(files, rounds.last(), path);
    lemma_entry(noted(files, rounds.last()), path);
    let f = entry(noted(files, rounds.last()), path)->0;
    let j = lemma_noted_holds(rounds, stability_ms, path);
    assert(holds_since(rounds, f, j));
}

/// While it grows, a file waits and is not handed out.
proof fn lemma_growing(rounds: Seq<Round>, stability_ms: u64, path: Seq<char>, n: int)
    requires
        0 <= n <= rounds.len(),
        forall|i: int|
            0 <= i < n ==> (last_change(#[trigger] rounds.take(i + 1), path) matches Some(f) ==> (
            rounds[i].is_there)(path) && !is_done(
                f,
                (rounds[i].size_of)(path),
                rounds[i].now,
                stability_ms,
            )),
    ensures
        entry(after_rounds(rounds.take(n), stability_ms), path) == last_change(
            rounds.take(n),
            path,
        ),
        times_handed_out(rounds.take(n), stability_ms, path) == 0,
    decreases n,
{
    if n > 0 {
        let now = rounds.take(n);
        let files = after_rounds(rounds.take(n - 1), stability_ms);
        lemma_growing(rounds, stability_ms, path, n - 1);
        assert(now.drop_last() =~= rounds.take(n - 1));
        assert(now.last() == rounds[n - 1]);
        assert(rounds.take((n - 1) + 1) == now);
        lemma_rounds_distinct(rounds.take(n - 1), stability_ms);
        lemma_round(files, rounds[n - 1], stability_ms, path);
        lemma_noted(files, rounds[n - 1], path);
        lemma_entry(files, path);
    }
}

/// Once it is left alone, a file is handed out in the first round in which it
/// has held its size long enough, and in no other.
proof fn lemma_left_alone(
    rounds: Seq<Round>,
    stability_ms: u64,
    f: PendingView,
    g: int,
    n: int,
) -> (done: bool)
    requires
        0 <= g <= n <= rounds.len(),
        entry(after_rounds(rounds.take(g), stability_ms), f.path) == Some(f),
        times_handed_out(rounds.take(g), stability_ms, f.path) == 0,
        forall|i: int|
            g <= i < n ==> !reports(#[trigger] rounds[i], f.path) && (rounds[i].size_of)(f.path)
                == f.size && (rounds[i].is_there)(f.path),
    ensures
        done ==> times_handed_out(rounds.take(n), stability_ms, f.path) == 1 && entry(
            after_rounds(rounds.take(n), stability_ms),
            f.path,
        ) is None,
        !done ==> times_handed_out(rounds.take(n), stability_ms, f.path) == 0 && entry(
            after_rounds(rounds.take(n), stability_ms),
            f.path,
        ) == Some(f),
        !done ==> forall|i: int|
            g <= i < n ==> !is_done(f, f.size, (#[trigger] rounds[i]).now, stability_ms),
        done ==> exists|i: int|
            g <= i < n && is_done(f, f.size, (#[trigger] rounds[i]).now, stability_ms),
    decreases n,
{
    if n == g {
        false
    } else {
        let before = lemma_left_alone(rounds, stability_ms, f, g, n - 1);
        let now = rounds.take(n);
        let files = after_rounds(rounds.take(n - 1), stability_ms);
        let round = rounds[n - 1];
        assert(now.drop_last() =~= rounds.take(n - 1));
        assert(now.last() == round);
        assert(!reports(round, f.path));
        lemma_rounds_distinct(rounds.take(n - 1), stability_ms);
        lemma_round(files, round, stability_ms, f.path);
        lemma_noted(files, round, f.path);
        before || is_done(f, f.size, round.now, stability_ms)
    }
}

/// A file that grows and is then left alone is handed out exactly once, and only
/// after it stopped growing: not in the first `g` rounds, in which it grows and
/// never holds a reported size for as long as asked, but in the rounds after,
/// once one of them comes late enough.
pub proof fn law_grown_file_is_handed_out_once(
    rounds: Seq<Round>,
    stability_ms: u64,
    f: PendingView,
    g: int,
    late: int,
)
    requires
        0 <= g <= late < rounds.len(),
        f.size > 0,
        last_change(rounds.take(g), f.path) == Some(f),
        forall|i: int|
            0 <= i < g ==> (last_change(#[trigger] rounds.take(i + 1), f.path) matches Some(e) ==> (
            rounds[i].is_there)(f.path) && !is_done(
                e,
                (rounds[i].size_of)(f.path),
                rounds[i].now,
                stability_ms,
            )),
        forall|i: int|
            g <= i < rounds.len() ==> !reports(#[trigger] rounds[i], f.path) && (rounds[i].size_of)(
                f.path,
            ) == f.size && (rounds[i].is_there)(f.path),
        rounds[late].now - f.steady_since >= stability_ms,
    ensures
        times_handed_out(rounds, stability_ms, f.path) == 1,
        times_handed_out(rounds.take(g), stability_ms, f.path) == 0,
{
    let n = rounds.len() as int;
    lemma_growing(rounds, stability_ms, f.path, g);
    let done = lemma_left_alone(rounds, stability_ms, f, g, n);
    assert(is_done(f, f.size, rounds[late].now, stability_ms));
    assert(rounds.take(n) =~= rounds);
}

} // verus!
