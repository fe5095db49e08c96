//! Debounced folder watching.
//!
//! A download lands as a partial file and grows over several seconds; reading
//! tags the instant the OS reports a create event yields truncated garbage.
//! A path is only handed out once its size has held steady for a while.

use vstd::prelude::*;

use crate::tags::{audio_name, is_readable_track, temp_name};
use crate::text::{lemma_views_push, same_str, views};

verus! {

broadcast use crate::text::lemma_views_push;

/// How a folder is watched. Times are in milliseconds.
#[derive(Debug, Clone, Copy, PartialEq, Eq, Structural)]
pub struct WatcherConfig {
    /// How long a file's size must stay unchanged before it counts as done.
    pub stability_ms: u64,
    pub poll_interval_ms: u64,
    pub recursive: bool,
    /// Emit files that were already in the folder when watching started.
    pub emit_existing: bool,
}

impl Default for WatcherConfig {
    fn default() -> (r: Self)
        ensures
            r == (WatcherConfig {
                stability_ms: 2_500,
                poll_interval_ms: 500,
                recursive: true,
                emit_existing: false,
            }),
    {
        WatcherConfig {
            stability_ms: 2_500,
            poll_interval_ms: 500,
            recursive: true,
            emit_existing: false,
        }
    }
}

/// A file that may still be growing: its size, and since when it has had it.
#[derive(Debug)]
pub struct PendingFile {
    pub path: String,
    pub size: u64,
    pub steady_since: u64,
}

/// What a pending file says.
#[verifier::ext_equal]
pub struct PendingView {
    pub path: Seq<char>,
    pub size: u64,
    pub steady_since: u64,
}

impl View for PendingFile {
    type V = PendingView;

    open spec fn view(&self) -> PendingView {
        PendingView { path: self.path@, size: self.size, steady_since: self.steady_since }
    }
}

/// The files that may still be growing.
#[derive(Debug)]
pub struct Pending {
    pub files: Vec<PendingFile>,
}

impl View for Pending {
    type V = Seq<PendingView>;

    open spec fn view(&self) -> Seq<PendingView> {
        self.files@.map_values(|f: PendingFile| f@)
    }
}

/// Whether no two files have one path.
pub open spec fn distinct_paths(files: Seq<PendingView>) -> bool {
    forall|i: int, j: int|
        0 <= i < j < files.len() ==> (#[trigger] files[i]).path != (#[trigger] files[j]).path
}

/// Whether a path is among the files.
pub open spec fn has_path(files: Seq<PendingView>, path: Seq<char>) -> bool {
    exists|i: int| 0 <= i < files.len() && (#[trigger] files[i]).path == path
}

/// A file seen again: a new size starts the clock anew.
pub open spec fn reseen(file: PendingView, path: Seq<char>, size: u64, now: u64) -> PendingView {
    if file.path == path && file.size != size {
        PendingView { path, size, steady_since: now }
    } else {
        file
    }
}

/// The files after one was seen.
pub open spec fn seen(files: Seq<PendingView>, path: Seq<char>, size: u64, now: u64) -> Seq<
    PendingView,
> {
    if has_path(files, path) {
        files.map_values(|f: PendingView| reseen(f, path, size, now))
    } else {
        files.push(PendingView { path, size, steady_since: now })
    }
}

/// The files after one was reported: only one that is audio, and complete by its
/// name, counts as seen.
pub open spec fn observed(
    files: Seq<PendingView>,
    path: Seq<char>,
    file_name: Seq<char>,
    size: u64,
    now: u64,
) -> Seq<PendingView> {
    if !temp_name(file_name) && audio_name(file_name) {
        seen(files, path, size, now)
    } else {
        files
    }
}

/// Whether a file is done: it has the size it had, is not empty, and has held
/// that size long enough.
pub open spec fn is_done(file: PendingView, current: u64, now: u64, stability_ms: u64) -> bool {
    &&& current == file.size
    &&& current > 0
    &&& now - file.steady_since >= stability_ms || stability_ms == 0
}

/// The current size of a file; none is known where none is given.
pub open spec fn size_at(sizes: Seq<u64>, i: int) -> u64 {
    if i < sizes.len() {
        sizes[i]
    } else {
        0
    }
}

/// The paths of the files that are done.
pub open spec fn done_paths(
    files: Seq<PendingView>,
    sizes: Seq<u64>,
    now: u64,
    stability_ms: u64,
) -> Seq<Seq<char>>
    decreases files.len(),
{
    if files.len() == 0 {
        Seq::empty()
    } else {
        let before = done_paths(files.drop_last(), sizes, now, stability_ms);
        if is_done(files.last(), size_at(sizes, files.len() - 1), now, stability_ms) {
            before.push(files.last().path)
        } else {
            before
        }
    }
}

/// The files that are not done.
pub open spec fn still_waiting(
    files: Seq<PendingView>,
    sizes: Seq<u64>,
    now: u64,
    stability_ms: u64,
) -> Seq<PendingView>
    decreases files.len(),
{
    if files.len() == 0 {
        Seq::empty()
    } else {
        let before = still_waiting(files.drop_last(), sizes, now, stability_ms);
        if is_done(files.last(), size_at(sizes, files.len() - 1), now, stability_ms) {
            before
        } else {
            before.push(files.last())
        }
    }
}

/// The files that still exist. One that nothing is said of is kept.
pub open spec fn existing(files: Seq<PendingView>, exists_now: Seq<bool>) -> Seq<PendingView>
    decreases files.len(),
{
    if files.len() == 0 {
        Seq::empty()
    } else {
        let before = existing(files.drop_last(), exists_now);
        if files.len() <= exists_now.len() && !exists_now[files.len() - 1] {
            before
        } else {
            before.push(files.last())
        }
    }
}

fn done(file: &PendingFile, current: u64, now: u64, stability_ms: u64) -> (r: bool)
    ensures
        r == is_done(file@, current, now, stability_ms),
{
    let steady_for: u64 = if now >= file.steady_since {
        now - file.steady_since
    } else {
        0
    };
    current == file.size && current > 0 && steady_for >= stability_ms
}

impl Pending {
    pub fn new() -> (r: Pending)
        ensures
            r@ == Seq::<PendingView>::empty(),
    {
        let r = Pending { files: Vec::new() };
        assert(r@ =~= Seq::<PendingView>::empty());
        r
    }

    /// Notes that a file was seen with a size, at a time. Files that are no
    /// audio or still carry a downloader's name are ignored: a .part file
    /// becoming a .mp3 arrives as its own event, so that loses nothing.
    pub fn observe(&mut self, path: String, file_name: &str, size: u64, now: u64)
        ensures
            final(self)@ == if !temp_name(file_name@) && audio_name(file_name@) {
                seen(old(self)@, path@, size, now)
            } else {
                old(self)@
            },
            final(self)@ == observed(old(self)@, path@, file_name@, size, now),
            distinct_paths(old(self)@) ==> distinct_paths(final(self)@),
    {
        if !is_readable_track(file_name) {
            return ;
        }
        let ghost before = self@;
        let mut found: bool = false;
        let mut i: usize = 0;
        while i < self.files.len()
            invariant
                i <= self.files.len(),
                self.files@.len() == before.len(),
                found == exists|k: int| 0 <= k < i && (#[trigger] before[k]).path == path@,
                forall|k: int|
                    0 <= k < i ==> (#[trigger] self.files@[k])@ == reseen(
                        before[k],
                        path@,
                        size,
                        now,
                    ),
                forall|k: int|
                    i <= k < before.len() ==> (#[trigger] self.files@[k])@ == before[k],
            decreases self.files.len() - i,
        {
            assert(self.files@[i as int]@ == before[i as int]);
            if same_str(self.files[i].path.as_str(), path.as_str()) {
                found = true;
                if self.files[i].size != size {
                    let changed = PendingFile { path: path.clone(), size, steady_since: now };
                    self.files.set(i, changed);
                }
            }
            i = i + 1;
        }
        if found {
            assert(has_path(before, path@));
            assert(self@ =~= seen(before, path@, size, now));
        } else {
            assert(!has_path(before, path@));
            assert(self@ =~= before);
            let fresh = PendingFile { path, size, steady_since: now };
            self.files.push(fresh);
            assert(self@ =~= before.push(fresh@));
        }
    }

    /// Takes out the files that are done, given the current size of each, and
    /// gives their paths.
    pub fn take_done(&mut self, sizes: &Vec<u64>, now: u64, stability_ms: u64) -> (r: Vec<String>)
        ensures
            views(r@) == done_paths(old(self)@, sizes@, now, stability_ms),
            final(self)@ == still_waiting(old(self)@, sizes@, now, stability_ms),
    {
        let ghost all = self@;
        let mut files: Vec<PendingFile> = Vec::new();
        std::mem::swap(&mut files, &mut self.files);
        let n: usize = files.len();
        let mut r: Vec<String> = Vec::new();
        let mut i: usize = 0;
        assert(self@ =~= still_waiting(all.take(0), sizes@, now, stability_ms));
        assert(views(r@) =~= done_paths(all.take(0), sizes@, now, stability_ms));
        for f in it: files.into_iter()
            invariant
                it.seq().len() == all.len() == n,
                i == it.index(),
                forall|k: int| 0 <= k < all.len() ==> #[trigger] all[k] == it.seq()[k]@,
                views(r@) == done_paths(all.take(i as int), sizes@, now, stability_ms),
                self@ == still_waiting(all.take(i as int), sizes@, now, stability_ms),
        {
            assert(all.take(i + 1).drop_last() =~= all.take(i as int));
            assert(all.take(i + 1).last() == f@);
            let ghost waiting = self@;
            let current: u64 = if i < sizes.len() {
                sizes[i]
            } else {
                0
            };
            if done(&f, current, now, stability_ms) {
                r.push(f.path);
            } else {
                self.files.push(f);
                assert(self@ =~= waiting.push(f@));
            }
            i = i + 1;
        }
        assert(all.take(all.len() as int) =~= all);
        r
    }

    /// Drops the files that vanished: moved into a library, deleted.
    pub fn retain_existing(&mut self, exists_now: &Vec<bool>)
        ensures
            final(self)@ == existing(old(self)@, exists_now@),
    {
        let ghost all = self@;
        let mut files: Vec<PendingFile> = Vec::new();
        std::mem::swap(&mut files, &mut self.files);
        let n: usize = files.len();
        let mut i: usize = 0;
        assert(self@ =~= existing(all.take(0), exists_now@));
        for f in it: files.into_iter()
            invariant
                it.seq().len() == all.len() == n,
                i == it.index(),
                forall|k: int| 0 <= k < all.len() ==> #[trigger] all[k] == it.seq()[k]@,
                self@ == existing(all.take(i as int), exists_now@),
        {
            assert(all.take(i + 1).drop_last() =~= all.take(i as int));
            assert(all.take(i + 1).last() == f@);
            let ghost kept = self@;
            if i < exists_now.len() && !exists_now[i] {
            } else {
                self.files.push(f);
                assert(self@ =~= kept.push(f@));
            }
            i = i + 1;
        }
        assert(all.take(all.len() as int) =~= all);
    }
}

/// A path is handed out only for a file that is not empty and has held its
/// size for as long as asked.
pub proof fn law_only_steady_files_are_handed_out(
    files: Seq<PendingView>,
    sizes: Seq<u64>,
    now: u64,
    stability_ms: u64,
    path: Seq<char>,
)
    requires
        done_paths(files, sizes, now, stability_ms).contains(path),
    ensures
        exists|i: int|
            0 <= i < files.len() && (#[trigger] files[i]).path == path && is_done(
                files[i],
                size_at(sizes, i),
                now,
                stability_ms,
            ),
    decreases files.len(),
{
    let all = done_paths(files, sizes, now, stability_ms);
    let init = files.drop_last();
    let before = done_paths(init, sizes, now, stability_ms);
    let k = choose|k: int| 0 <= k < all.len() && all[k] == path;
    if files.len() > 0 {
        if k < before.len() {
            assert(before[k] == path);
            law_only_steady_files_are_handed_out(init, sizes, now, stability_ms, path);
            let i = choose|i: int|
                0 <= i < init.len() && (#[trigger] init[i]).path == path && is_done(
                    init[i],
                    size_at(sizes, i),
                    now,
                    stability_ms,
                );
            assert(files[i] == init[i]);
        } else {
            assert(files[files.len() - 1].path == path);
        }
    }
}

/// A change of size starts the wait anew: the file is not done before it has
/// held the new size for as long as asked.
pub proof fn law_growth_restarts_the_wait(
    file: PendingView,
    size: u64,
    seen_at: u64,
    current: u64,
    now: u64,
    stability_ms: u64,
)
    requires
        file.size != size,
        is_done(reseen(file, file.path, size, seen_at), current, now, stability_ms),
    ensures
        current == size,
        now - seen_at >= stability_ms || stability_ms == 0,
{
}

/// A file that waits on is one of the files, and not done.
pub proof fn lemma_waiting_is_among(
    files: Seq<PendingView>,
    sizes: Seq<u64>,
    now: u64,
    stability_ms: u64,
    k: int,
)
    requires
        0 <= k < still_waiting(files, sizes, now, stability_ms).len(),
    ensures
        exists|i: int|
            0 <= i < files.len() && #[trigger] files[i] == still_waiting(
                files,
                sizes,
                now,
                stability_ms,
            )[k] && !is_done(files[i], size_at(sizes, i), now, stability_ms),
    decreases files.len(),
{
    if files.len() > 0 {
        let init = files.drop_last();
        let before = still_waiting(init, sizes, now, stability_ms);
        if k < before.len() {
            lemma_waiting_is_among(init, sizes, now, stability_ms, k);
            let i = choose|i: int|
                0 <= i < init.len() && #[trigger] init[i] == before[k] && !is_done(
                    init[i],
                    size_at(sizes, i),
                    now,
                    stability_ms,
                );
            assert(files[i] == init[i]);
        } else {
            assert(files[files.len() - 1] == files.last());
        }
    }
}

/// A path that was handed out is no longer waiting: it is handed out once.
pub proof fn law_handed_out_once(
    files: Seq<PendingView>,
    sizes: Seq<u64>,
    now: u64,
    stability_ms: u64,
    path: Seq<char>,
)
    requires
        distinct_paths(files),
        done_paths(files, sizes, now, stability_ms).contains(path),
    ensures
        !has_path(still_waiting(files, sizes, now, stability_ms), path),
{
    law_only_steady_files_are_handed_out(files, sizes, now, stability_ms, path);
    let i = choose|i: int|
        0 <= i < files.len() && (#[trigger] files[i]).path == path && is_done(
            files[i],
            size_at(sizes, i),
            now,
            stability_ms,
        );
    let waiting = still_waiting(files, sizes, now, stability_ms);
    if has_path(waiting, path) {
        let k = choose|k: int| 0 <= k < waiting.len() && (#[trigger] waiting[k]).path == path;
        lemma_waiting_is_among(files, sizes, now, stability_ms, k);
        let j = choose|j: int|
            0 <= j < files.len() && #[trigger] files[j] == waiting[k] && !is_done(
                files[j],
                size_at(sizes, j),
                now,
                stability_ms,
            );
        assert(files[i].path == files[j].path);
        assert(i != j);
        if i < j {
            assert(files[i].path != files[j].path);
        } else {
            assert(files[j].path != files[i].path);
        }
    }
}

/// No file is lost: what is not handed out keeps waiting.
pub proof fn law_nothing_is_lost(
    files: Seq<PendingView>,
    sizes: Seq<u64>,
    now: u64,
    stability_ms: u64,
)
    ensures
        done_paths(files, sizes, now, stability_ms).len() + still_waiting(
            files,
            sizes,
            now,
            stability_ms,
        ).len() == files.len(),
    decreases files.len(),
{
    if files.len() > 0 {
        law_nothing_is_lost(files.drop_last(), sizes, now, stability_ms);
    }
}

} // verus!
