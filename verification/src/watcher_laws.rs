//! What one round of watching promises of each file.

use vstd::prelude::*;

use crate::watcher::{done_paths, existing, seen, still_waiting, PendingView};

verus! {

/// A file that waits is handed out exactly when its size is the one it had, is
/// not nothing, and has been so for as long as asked; otherwise it waits on as it
/// was. One of which no size is given waits on.
pub proof fn law_when_a_file_is_handed_out(
    file: PendingView,
    size: u64,
    now: u64,
    stability_ms: u64,
)
    ensures
        ({
            let steady = size == file.size && size > 0 && (stability_ms == 0 || now
                - file.steady_since >= stability_ms);
            &&& steady ==> done_paths(seq![file], seq![size], now, stability_ms) == seq![file.path]
            &&& steady ==> still_waiting(seq![file], seq![size], now, stability_ms).len() == 0
            &&& !steady ==> done_paths(seq![file], seq![size], now, stability_ms).len() == 0
            &&& !steady ==> still_waiting(seq![file], seq![size], now, stability_ms) == seq![file]
        }),
        still_waiting(seq![file], Seq::empty(), now, stability_ms) == seq![file],
{
    let one = seq![file];
    assert(one.drop_last() =~= Seq::<PendingView>::empty());
    assert(done_paths(one.drop_last(), seq![size], now, stability_ms) =~= Seq::<
        Seq<char>,
    >::empty());
    assert(still_waiting(one.drop_last(), seq![size], now, stability_ms) =~= Seq::<
        PendingView,
    >::empty());
    assert(still_waiting(one.drop_last(), Seq::empty(), now, stability_ms) =~= Seq::<
        PendingView,
    >::empty());
    assert(Seq::<Seq<char>>::empty().push(file.path) =~= seq![file.path]);
    assert(Seq::<PendingView>::empty().push(file) =~= one);
}

/// Every file is judged on its own, in the order in which the files wait.
pub proof fn law_files_are_judged_one_by_one(
    files: Seq<PendingView>,
    sizes: Seq<u64>,
    file: PendingView,
    size: u64,
    now: u64,
    stability_ms: u64,
)
    requires
        sizes.len() == files.len(),
    ensures
        done_paths(files.push(file), sizes.push(size), now, stability_ms) == done_paths(
            files,
            sizes,
            now,
            stability_ms,
        ) + done_paths(seq![file], seq![size], now, stability_ms),
        still_waiting(files.push(file), sizes.push(size), now, stability_ms) == still_waiting(
            files,
            sizes,
            now,
            stability_ms,
        ) + still_waiting(seq![file], seq![size], now, stability_ms),
{
    law_when_a_file_is_handed_out(file, size, now, stability_ms);
    let all = files.push(file);
    assert(all.drop_last() =~= files);
    lemma_sizes_behind(files, sizes, size, now, stability_ms);
    assert(done_paths(all, sizes.push(size), now, stability_ms) =~= done_paths(
        files,
        sizes,
        now,
        stability_ms,
    ) + done_paths(seq![file], seq![size], now, stability_ms));
    assert(still_waiting(all, sizes.push(size), now, stability_ms) =~= still_waiting(
        files,
        sizes,
        now,
        stability_ms,
    ) + still_waiting(seq![file], seq![size], now, stability_ms));
}

proof fn lemma_sizes_behind(
    files: Seq<PendingView>,
    sizes: Seq<u64>,
    size: u64,
    now: u64,
    stability_ms: u64,
)
    requires
        files.len() <= sizes.len(),
    ensures
        done_paths(files, sizes.push(size), now, stability_ms) == done_paths(
            files,
            sizes,
            now,
            stability_ms,
        ),
        still_waiting(files, sizes.push(size), now, stability_ms) == still_waiting(
            files,
            sizes,
            now,
            stability_ms,
        ),
    decreases files.len(),
{
    if files.len() > 0 {
        lemma_sizes_behind(files.drop_last(), sizes, size, now, stability_ms);
    }
}

/// A file that vanished is dropped, and one that did not is kept as it is, each
/// on its own and in order.
pub proof fn law_vanished_files_are_dropped(
    files: Seq<PendingView>,
    there: Seq<bool>,
    file: PendingView,
    is_there: bool,
)
    requires
        there.len() == files.len(),
    ensures
        is_there ==> existing(files.push(file), there.push(is_there)) == existing(
            files,
            there,
        ).push(file),
        !is_there ==> existing(files.push(file), there.push(is_there)) == existing(files, there),
        files.len() == 0 ==> existing(files, there).len() == 0,
{
    assert(files.push(file).drop_last() =~= files);
    lemma_there_behind(files, there, is_there);
}

proof fn lemma_there_behind(files: Seq<PendingView>, there: Seq<bool>, is_there: bool)
    requires
        files.len() <= there.len(),
    ensures
        existing(files, there.push(is_there)) == existing(files, there),
    decreases files.len(),
{
    if files.len() > 0 {
        lemma_there_behind(files.drop_last(), there, is_there);
    }
}

/// A file that is seen for the first time starts to wait, from then on and with
/// the size it has. One that waits already starts anew exactly when its size is
/// another; and no other file is touched.
pub proof fn law_what_seeing_a_file_changes(
    files: Seq<PendingView>,
    path: Seq<char>,
    size: u64,
    now: u64,
)
    ensures
        ({
            let after = seen(files, path, size, now);
            let known = exists|i: int| 0 <= i < files.len() && (#[trigger] files[i]).path == path;
            &&& !known ==> after == files.push(PendingView { path, size, steady_since: now })
            &&& known ==> after.len() == files.len()
            &&& forall|i: int|
                0 <= i < files.len() && (#[trigger] files[i]).path != path ==> after[i] == files[i]
            &&& forall|i: int|
                0 <= i < files.len() && (#[trigger] files[i]).path == path && files[i].size == size
                    ==> after[i] == files[i]
            &&& forall|i: int|
                0 <= i < files.len() && (#[trigger] files[i]).path == path && files[i].size != size
                    ==> after[i] == (PendingView { path, size, steady_since: now })
        }),
{
    let after = seen(files, path, size, now);
    if exists|i: int| 0 <= i < files.len() && (#[trigger] files[i]).path == path {
        assert(crate::watcher::has_path(files, path));
    } else {
        assert forall|i: int| 0 <= i < files.len() && (#[trigger] files[i]).path
            != path implies after[i] == files[i] by {}
    }
}

} // verus!
