//! Watched folders: which files they take in, when a file has settled, and which folders the
//! system is asked to watch. Times are in nanoseconds.

use crate::converter::{in_place_encodes_spare_the_source, temp_path, Platform, IN_PLACE_TEMP_MARKER};
use crate::db::{read_setting, value_of};
use crate::failure_class::{CLASS_BAD_SOURCE, CLASS_BAD_SOURCE_TRUNCATED};
use crate::paths::{components, extension, extension_of, file_name, file_name_of, join_path};
use crate::paths::{joined_path, lemma_parent_components, lies_under, opt_view, parent, parent_of};
use crate::paths::{joined_files_are_found, lemma_file_name_plain, names_are_stem_and_extension};
use crate::paths::{path_under, paths_equal};
use crate::paths::{paths_lie_under_their_folders, plain, same_path, slashed_path, with_slashes};
use crate::text::{holds, lowercase, lowered, occurs, same};
use vstd::prelude::*;
use vstd::string::*;

verus! {

/// Whether a text is one of some texts.
pub open spec fn listed(all: Seq<Seq<char>>, s: Seq<char>) -> bool {
    exists|i: int| 0 <= i < all.len() && all[i] == s
}

/// Whether a text is one of some texts.
fn is_listed(all: &Vec<String>, s: &str) -> (r: bool)
    ensures
        r == listed(all.deep_view(), s@),
{
    let mut i: usize = 0;
    while i < all.len()
        invariant
            i <= all.len(),
            forall|j: int| 0 <= j < i ==> all.deep_view()[j] != s@,
        decreases all.len() - i,
    {
        if same(&all[i], s) {
            assert(all.deep_view()[i as int] == s@);
            return true;
        }
        i = i + 1;
    }
    false
}

/// The extension of a path's file name.
pub open spec fn path_extension(path: Seq<char>) -> Option<Seq<char>> {
    match file_name(path) {
        Some(name) => extension(name),
        None => None,
    }
}

/// The extension of a path's file name, in lower case.
fn lower_extension(path: &str) -> (r: Option<String>)
    ensures
        opt_view(r) == (match path_extension(path@) {
            Some(e) => Some(lowercase(e)),
            None => None,
        }),
{
    match file_name_of(path) {
        Some(name) => match extension_of(&name) {
            Some(e) => Some(lowered(&e)),
            None => None,
        },
        None => None,
    }
}

/// Whether an extension, in lower case, marks a download that is not done.
pub open spec fn marks_download(ext: Seq<char>) -> bool {
    ||| ext == "part"@
    ||| ext == "crdownload"@
    ||| ext == "download"@
    ||| ext == "tmp"@
    ||| ext == "partial"@
    ||| ext == "!ut"@
}

/// Whether a path is that of a download that is not done.
pub open spec fn is_temp(path: Seq<char>) -> bool {
    path_extension(path) matches Some(e) && marks_download(lowercase(e))
}

/// Whether a path is that of a download that is not done.
pub fn is_temp_file(path: &str) -> (r: bool)
    ensures
        r == is_temp(path@),
{
    match lower_extension(path) {
        Some(e) => same(&e, "part") || same(&e, "crdownload") || same(&e, "download") || same(
            &e,
            "tmp",
        ) || same(&e, "partial") || same(&e, "!ut"),
        None => false,
    }
}

/// Whether a path is that of a video: its extension, in lower case, is one of the given ones, and
/// it is not the output of an in-place encode.
pub open spec fn is_video(path: Seq<char>, videos: Seq<Seq<char>>) -> bool {
    &&& path_extension(path) matches Some(e) && listed(videos, lowercase(e))
    &&& !(file_name(path) matches Some(name) && occurs(name, IN_PLACE_TEMP_MARKER@))
}

/// Whether a path is that of a video with one of the given extensions.
pub fn is_video_file(path: &str, videos: &Vec<String>) -> (r: bool)
    ensures
        r == is_video(path@, videos.deep_view()),
{
    let marked: bool = match file_name_of(path) {
        Some(name) => holds(&name, IN_PLACE_TEMP_MARKER),
        None => false,
    };
    match lower_extension(path) {
        Some(e) => is_listed(videos, &e) && !marked,
        None => false,
    }
}

/// What an in-place encode writes is never taken for a video, so no scan takes it in.
pub proof fn unfinished_encodes_are_no_videos(source: Seq<char>, videos: Seq<Seq<char>>)
    ensures
        !is_video(temp_path(source), videos),
{
    in_place_encodes_spare_the_source(source);
}

/// A file that was seen to change and is waited for to settle.
#[derive(Debug, Clone, Copy, PartialEq, Eq, Structural)]
pub struct PendingEntry {
    pub size: u64,
    pub mtime: i128,
    /// When the size or the time of change was last seen to differ.
    pub last_change: u128,
    /// How long the file has to stay as it is.
    pub delay: u128,
}

/// The entry after the file was looked at.
pub open spec fn looked_at(entry: PendingEntry, size: u64, mtime: i128, now: u128) -> PendingEntry {
    if size != entry.size || mtime != entry.mtime {
        PendingEntry { size, mtime, last_change: now, delay: entry.delay }
    } else {
        entry
    }
}

/// Whether a file has settled: it is as it was, and has been for its delay.
pub open spec fn settled(entry: PendingEntry, size: u64, mtime: i128, now: u128) -> bool {
    &&& size == entry.size
    &&& mtime == entry.mtime
    &&& now - entry.last_change >= entry.delay || entry.delay == 0
}

impl PendingEntry {
    /// An entry for a file that was just seen to change.
    pub fn new(size: u64, mtime: i128, now: u128, delay: u128) -> (r: Self)
        ensures
            r == (PendingEntry { size, mtime, last_change: now, delay }),
    {
        PendingEntry { size, mtime, last_change: now, delay }
    }

    /// Takes in a look at the file and says whether it has settled. A change starts the wait anew.
    pub fn observe(&mut self, size: u64, mtime: i128, now: u128) -> (r: bool)
        ensures
            r == settled(*old(self), size, mtime, now),
            *final(self) == looked_at(*old(self), size, mtime, now),
    {
        if size != self.size || mtime != self.mtime {
            self.size = size;
            self.mtime = mtime;
            self.last_change = now;
            return false;
        }
        let waited: u128 = if now >= self.last_change {
            now - self.last_change
        } else {
            0
        };
        waited >= self.delay
    }
}

/// A folder that is watched.
#[derive(Debug, Clone)]
pub struct WatchedDirConfig {
    pub path: String,
    pub recursive: bool,
    pub delay: u128,
}

/// Whether a folder takes in a path: one below it if it is watched with its subfolders, else one
/// directly in it.
pub open spec fn takes_in(config: WatchedDirConfig, path: Seq<char>) -> bool {
    if config.recursive {
        lies_under(path, config.path@)
    } else {
        parent(path) matches Some(dir) && same_path(dir, config.path@)
    }
}

/// Whether a folder takes in a path.
fn covers(config: &WatchedDirConfig, path: &str) -> (r: bool)
    ensures
        r == takes_in(*config, path@),
{
    if config.recursive {
        path_under(path, &config.path)
    } else {
        match parent_of(path) {
            Some(dir) => paths_equal(&dir, &config.path),
            None => false,
        }
    }
}

/// The first folder from `from` on that takes in a path.
pub open spec fn first_taker(configs: Seq<WatchedDirConfig>, path: Seq<char>, from: int) -> Option<
    int,
>
    decreases configs.len() - from,
{
    if from < 0 || from >= configs.len() {
        None
    } else if takes_in(configs[from], path) {
        Some(from)
    } else {
        first_taker(configs, path, from + 1)
    }
}

/// The first folder that takes in a path.
fn find_taker(configs: &Vec<WatchedDirConfig>, path: &str) -> (r: Option<usize>)
    ensures
        match r {
            Some(i) => first_taker(configs@, path@, 0) == Some(i as int) && i < configs.len(),
            None => first_taker(configs@, path@, 0) is None,
        },
{
    let mut i: usize = 0;
    while i < configs.len()
        invariant
            i <= configs.len(),
            first_taker(configs@, path@, 0) == first_taker(configs@, path@, i as int),
        decreases configs.len() - i,
    {
        if covers(&configs[i], path) {
            return Some(i);
        }
        i = i + 1;
    }
    None
}

/// How long a path has to settle, if it is a video that a folder takes in and no download that is
/// not done.
pub open spec fn delay_of(
    configs: Seq<WatchedDirConfig>,
    path: Seq<char>,
    videos: Seq<Seq<char>>,
) -> Option<u128> {
    if is_video(path, videos) && !is_temp(path) && parent(path) is Some {
        match first_taker(configs, path, 0) {
            Some(i) => Some(configs[i].delay),
            None => None,
        }
    } else {
        None
    }
}

/// How long a path has to settle, if it is one to be taken in.
pub fn delay_for_path(configs: &Vec<WatchedDirConfig>, path: &str, videos: &Vec<String>) -> (r:
    Option<u128>)
    ensures
        r == delay_of(configs@, path@, videos.deep_view()),
{
    if !is_video_file(path, videos) || is_temp_file(path) {
        return None;
    }
    match parent_of(path) {
        Some(_) => match find_taker(configs, path) {
            Some(i) => Some(configs[i].delay),
            None => None,
        },
        None => None,
    }
}

/// The texts that a test keeps. `pred` is what the test answers.
fn keep_where<F: Fn(&String) -> bool>(
    all: &Vec<String>,
    keep: F,
    pred: Ghost<spec_fn(Seq<char>) -> bool>,
) -> (out: Vec<String>)
    requires
        forall|p: &String| call_requires(keep, (p,)),
        forall|p: &String, r: bool| call_ensures(keep, (p,), r) ==> r == pred@(p@),
    ensures
        out.deep_view() == all.deep_view().filter(pred@),
{
    let ghost av = all.deep_view();
    let mut out: Vec<String> = Vec::new();
    let mut i: usize = 0;
    assert(av.take(0).filter(pred@) =~= Seq::<Seq<char>>::empty()) by {
        reveal(Seq::filter);
    }
    while i < all.len()
        invariant
            av == all.deep_view(),
            i <= all.len(),
            forall|p: &String| call_requires(keep, (p,)),
            forall|p: &String, r: bool| call_ensures(keep, (p,), r) ==> r == pred@(p@),
            out.deep_view() == av.take(i as int).filter(pred@),
        decreases all.len() - i,
    {
        assert(av[i as int] == all[i as int]@);
        assert(av.take(i + 1).drop_last() =~= av.take(i as int));
        assert(av.take(i + 1).filter(pred@) == if pred@(all[i as int]@) {
            av.take(i as int).filter(pred@).push(all[i as int]@)
        } else {
            av.take(i as int).filter(pred@)
        }) by {
            reveal(Seq::filter);
        }
        if keep(&all[i]) {
            let ghost shorter = out;
            out.push(all[i].clone());
            assert(out.deep_view() =~= shorter.deep_view().push(all[i as int]@));
        }
        i = i + 1;
    }
    assert(av.take(i as int) =~= av);
    out
}

/// The paths that a folder still takes in.
pub fn covered_paths(configs: &Vec<WatchedDirConfig>, paths: &Vec<String>, videos: &Vec<String>) -> (
    out: Vec<String>)
    ensures
        out.deep_view() == paths.deep_view().filter(
            |p: Seq<char>| delay_of(configs@, p, videos.deep_view()) is Some,
        ),
{
    let keep = |p: &String| -> (r: bool)
        ensures
            r == (delay_of(configs@, p@, videos.deep_view()) is Some),
    {
        delay_for_path(configs, p, videos).is_some()
    };
    keep_where(
        paths,
        keep,
        Ghost(|p: Seq<char>| delay_of(configs@, p, videos.deep_view()) is Some),
    )
}

/// The paths that are not known to be bad.
pub fn drop_known_bad_sources(bad: &Vec<String>, paths: &Vec<String>) -> (out: Vec<String>)
    ensures
        out.deep_view() == paths.deep_view().filter(|p: Seq<char>| !listed(bad.deep_view(), p)),
{
    let keep = |p: &String| -> (r: bool)
        ensures
            r == !listed(bad.deep_view(), p@),
    {
        !is_listed(bad, p)
    };
    keep_where(
        paths,
        keep,
        Ghost(|p: Seq<char>| !listed(bad.deep_view(), p)),
    )
}

/// The videos among paths, without downloads that are not done.
pub fn wanted_paths(paths: &Vec<String>, videos: &Vec<String>) -> (out: Vec<String>)
    ensures
        out.deep_view() == paths.deep_view().filter(
            |p: Seq<char>| is_video(p, videos.deep_view()) && !is_temp(p),
        ),
{
    let keep = |p: &String| -> (r: bool)
        ensures
            r == (is_video(p@, videos.deep_view()) && !is_temp(p@)),
    {
        is_video_file(p, videos) && !is_temp_file(p)
    };
    keep_where(
        paths,
        keep,
        Ghost(|p: Seq<char>| is_video(p, videos.deep_view()) && !is_temp(p)),
    )
}

/// A folder and whether it is watched with its subfolders.
pub open spec fn same_watch(a: (Seq<char>, bool), b: (Seq<char>, bool)) -> bool {
    same_path(a.0, b.0) && a.1 == b.1
}

/// Whether a folder is among others, watched in the same way.
pub open spec fn has_watch(all: Seq<(Seq<char>, bool)>, w: (Seq<char>, bool)) -> bool {
    exists|i: int| 0 <= i < all.len() && same_watch(#[trigger] all[i], w)
}

/// Whether a folder is among others, watched in the same way.
fn is_watched(all: &Vec<(String, bool)>, path: &str, recursive: bool) -> (r: bool)
    ensures
        r == has_watch(all.deep_view(), (path@, recursive)),
{
    let mut i: usize = 0;
    while i < all.len()
        invariant
            i <= all.len(),
            forall|j: int|
                0 <= j < i ==> !same_watch(#[trigger] all.deep_view()[j], (path@, recursive)),
        decreases all.len() - i,
    {
        assert(all.deep_view()[i as int] == (all[i as int].0@, all[i as int].1));
        if all[i].1 == recursive && paths_equal(&all[i].0, path) {
            assert(same_watch(all.deep_view()[i as int], (path@, recursive)));
            return true;
        }
        i = i + 1;
    }
    false
}

/// The watches that are not among others.
pub open spec fn missing_from(
    all: Seq<(Seq<char>, bool)>,
    others: Seq<(Seq<char>, bool)>,
) -> Seq<(Seq<char>, bool)> {
    all.filter(|w: (Seq<char>, bool)| !has_watch(others, w))
}

/// The watches that are not among others.
fn find_missing(all: &Vec<(String, bool)>, others: &Vec<(String, bool)>) -> (out: Vec<
    (String, bool),
>)
    ensures
        out.deep_view() == missing_from(all.deep_view(), others.deep_view()),
{
    let ghost av = all.deep_view();
    let ghost pred = |w: (Seq<char>, bool)| !has_watch(others.deep_view(), w);
    let mut out: Vec<(String, bool)> = Vec::new();
    let mut i: usize = 0;
    assert(av.take(0).filter(pred) =~= Seq::<(Seq<char>, bool)>::empty()) by {
        reveal(Seq::filter);
    }
    while i < all.len()
        invariant
            av == all.deep_view(),
            pred == (|w: (Seq<char>, bool)| !has_watch(others.deep_view(), w)),
            i <= all.len(),
            out.deep_view() == av.take(i as int).filter(pred),
        decreases all.len() - i,
    {
        let ghost w = (all[i as int].0@, all[i as int].1);
        assert(av[i as int] == w);
        assert(av.take(i + 1).drop_last() =~= av.take(i as int));
        assert(av.take(i + 1).filter(pred) == if pred(w) {
            av.take(i as int).filter(pred).push(w)
        } else {
            av.take(i as int).filter(pred)
        }) by {
            reveal(Seq::filter);
        }
        if !is_watched(others, &all[i].0, all[i].1) {
            let ghost shorter = out;
            out.push((all[i].0.clone(), all[i].1));
            assert(out.deep_view() =~= shorter.deep_view().push(w));
        }
        i = i + 1;
    }
    assert(av.take(i as int) =~= av);
    out
}

/// The changes that lead from the folders that are watched to those that are to be: the paths to
/// be let go, and the folders to be watched. One whose way of watching changes is in both.
pub fn diff_watches(current: &Vec<(String, bool)>, desired: &Vec<(String, bool)>) -> (r: (
    Vec<String>,
    Vec<(String, bool)>,
))
    ensures
        r.0.deep_view() == missing_from(current.deep_view(), desired.deep_view()).map_values(
            |w: (Seq<char>, bool)| w.0,
        ),
        r.1.deep_view() == missing_from(desired.deep_view(), current.deep_view()),
{
    let gone: Vec<(String, bool)> = find_missing(current, desired);
    let mut paths: Vec<String> = Vec::new();
    let mut i: usize = 0;
    while i < gone.len()
        invariant
            i <= gone.len(),
            paths.len() == i,
            forall|j: int| 0 <= j < i ==> (#[trigger] paths@[j])@ == gone@[j].0@,
        decreases gone.len() - i,
    {
        paths.push(gone[i].0.clone());
        i = i + 1;
    }
    assert(paths.deep_view() =~= gone.deep_view().map_values(|w: (Seq<char>, bool)| w.0));
    (paths, find_missing(desired, current))
}

/// The files that are waited for, each path once.
#[derive(Debug, Clone)]
pub struct PendingFiles {
    pub entries: Vec<(String, PendingEntry)>,
}

/// A file that is waited for, by the text of its path.
pub open spec fn entry_view(e: (String, PendingEntry)) -> (Seq<char>, PendingEntry) {
    (e.0@, e.1)
}

impl View for PendingFiles {
    type V = Seq<(Seq<char>, PendingEntry)>;

    open spec fn view(&self) -> Seq<(Seq<char>, PendingEntry)> {
        self.entries@.map_values(|e: (String, PendingEntry)| entry_view(e))
    }
}

/// Whether no path is there twice.
pub open spec fn distinct_paths(files: Seq<(Seq<char>, PendingEntry)>) -> bool {
    forall|i: int, j: int|
        0 <= i < j < files.len() ==> !same_path((#[trigger] files[i]).0, (#[trigger] files[j]).0)
}

/// Where a path is among files that are waited for; -1 if it is not.
pub open spec fn place_of(files: Seq<(Seq<char>, PendingEntry)>, path: Seq<char>) -> int
    decreases files.len(),
{
    if files.len() == 0 {
        -1
    } else if same_path(files.last().0, path) {
        files.len() - 1
    } else {
        place_of(files.drop_last(), path)
    }
}

/// The files that are waited for once a path was seen to change: an entry that is there is
/// replaced, else one is added.
pub open spec fn with_entry(
    files: Seq<(Seq<char>, PendingEntry)>,
    path: Seq<char>,
    entry: PendingEntry,
) -> Seq<(Seq<char>, PendingEntry)> {
    let i = place_of(files, path);
    if i >= 0 {
        files.update(i, (files[i].0, entry))
    } else {
        files.push((path, entry))
    }
}

/// A place that is found is one.
proof fn lemma_place_of(files: Seq<(Seq<char>, PendingEntry)>, path: Seq<char>)
    ensures
        -1 <= place_of(files, path) < files.len(),
        place_of(files, path) >= 0 ==> same_path(files[place_of(files, path)].0, path),
        place_of(files, path) < 0 ==> forall|i: int|
            0 <= i < files.len() ==> !same_path((#[trigger] files[i]).0, path),
    decreases files.len(),
{
    if files.len() > 0 && !same_path(files.last().0, path) {
        lemma_place_of(files.drop_last(), path);
        assert forall|i: int| place_of(files, path) < 0 && 0 <= i < files.len() implies !same_path(
            (#[trigger] files[i]).0,
            path,
        ) by {
            if i < files.len() - 1 {
                assert(files.drop_last()[i] == files[i]);
            }
        }
    }
}

/// Noting a change keeps each path once.
pub proof fn noting_changes_keeps_paths_distinct(
    files: Seq<(Seq<char>, PendingEntry)>,
    path: Seq<char>,
    entry: PendingEntry,
)
    requires
        distinct_paths(files),
    ensures
        distinct_paths(with_entry(files, path, entry)),
{
    lemma_place_of(files, path);
    let after = with_entry(files, path, entry);
    assert forall|i: int, j: int| 0 <= i < j < after.len() implies !same_path(
        (#[trigger] after[i]).0,
        (#[trigger] after[j]).0,
    ) by {
        if place_of(files, path) >= 0 {
            assert(after[i].0 == files[i].0 && after[j].0 == files[j].0);
            assert(!same_path(files[i].0, files[j].0));
        } else {
            assert(after[i] == files[i]);
            if j < files.len() {
                assert(after[j] == files[j]);
            }
        }
    }
}

/// Keeping some of the files keeps each path once.
proof fn lemma_filter_distinct(
    files: Seq<(Seq<char>, PendingEntry)>,
    keep: spec_fn((Seq<char>, PendingEntry)) -> bool,
)
    requires
        distinct_paths(files),
    ensures
        distinct_paths(files.filter(keep)),
        forall|i: int|
            0 <= i < files.filter(keep).len() ==> exists|j: int|
                0 <= j < files.len() && files[j] == #[trigger] files.filter(keep)[i],
    decreases files.len(),
{
    reveal(Seq::filter);
    if files.len() > 0 {
        let before = files.drop_last();
        assert(distinct_paths(before)) by {
            assert forall|i: int, j: int| 0 <= i < j < before.len() implies !same_path(
                (#[trigger] before[i]).0,
                (#[trigger] before[j]).0,
            ) by {
                assert(before[i] == files[i] && before[j] == files[j]);
            }
        }
        lemma_filter_distinct(before, keep);
        let kept = before.filter(keep);
        let all = files.filter(keep);
        assert forall|i: int| 0 <= i < all.len() implies exists|j: int|
            0 <= j < files.len() && files[j] == #[trigger] all[i] by {
            if i < kept.len() {
                assert(all[i] == kept[i]);
                let j = choose|j: int| 0 <= j < before.len() && before[j] == kept[i];
                assert(files[j] == all[i]);
            } else {
                assert(files[files.len() - 1] == all[i]);
            }
        }
        assert forall|i: int, j: int| 0 <= i < j < all.len() implies !same_path(
            (#[trigger] all[i]).0,
            (#[trigger] all[j]).0,
        ) by {
            assert(all[i] == kept[i]);
            if j < kept.len() {
                assert(all[j] == kept[j]);
            } else {
                let k = choose|k: int| 0 <= k < before.len() && before[k] == kept[i];
                assert(files[k] == all[i]);
                assert(all[j] == files[files.len() - 1]);
            }
        }
    }
}

/// What a look at a file found: its size and its time of change, nothing if it is gone.
pub type Reading = Option<(u64, i128)>;

/// The files that have settled, by a look at each.
pub open spec fn settled_paths(
    files: Seq<(Seq<char>, PendingEntry)>,
    readings: Seq<Reading>,
    now: u128,
) -> Seq<Seq<char>>
    decreases files.len(),
{
    if files.len() == 0 {
        Seq::empty()
    } else {
        let before = settled_paths(files.drop_last(), readings, now);
        let i = files.len() - 1;
        match readings[i] {
            Some((size, mtime)) => if settled(files[i].1, size, mtime, now) {
                before.push(files[i].0)
            } else {
                before
            },
            None => before,
        }
    }
}

/// The files that are still waited for: neither gone nor settled.
pub open spec fn still_pending(
    files: Seq<(Seq<char>, PendingEntry)>,
    readings: Seq<Reading>,
    now: u128,
) -> Seq<(Seq<char>, PendingEntry)>
    decreases files.len(),
{
    if files.len() == 0 {
        Seq::empty()
    } else {
        let before = still_pending(files.drop_last(), readings, now);
        let i = files.len() - 1;
        match readings[i] {
            Some((size, mtime)) => if settled(files[i].1, size, mtime, now) {
                before
            } else {
                before.push((files[i].0, looked_at(files[i].1, size, mtime, now)))
            },
            None => before,
        }
    }
}

/// A file that is still waited for was waited for before.
proof fn lemma_still_pending(
    files: Seq<(Seq<char>, PendingEntry)>,
    readings: Seq<Reading>,
    now: u128,
)
    requires
        distinct_paths(files),
    ensures
        distinct_paths(still_pending(files, readings, now)),
        forall|i: int|
            0 <= i < still_pending(files, readings, now).len() ==> exists|j: int|
                0 <= j < files.len() && files[j].0 == (#[trigger] still_pending(
                    files,
                    readings,
                    now,
                )[i]).0,
    decreases files.len(),
{
    if files.len() > 0 {
        let before = files.drop_last();
        assert(distinct_paths(before)) by {
            assert forall|i: int, j: int| 0 <= i < j < before.len() implies !same_path(
                (#[trigger] before[i]).0,
                (#[trigger] before[j]).0,
            ) by {
                assert(before[i] == files[i] && before[j] == files[j]);
            }
        }
        lemma_still_pending(before, readings, now);
        let kept = still_pending(before, readings, now);
        let all = still_pending(files, readings, now);
        assert forall|i: int| 0 <= i < all.len() implies exists|j: int|
            0 <= j < files.len() && files[j].0 == (#[trigger] all[i]).0 by {
            if i < kept.len() {
                assert(all[i] == kept[i]);
                let j = choose|j: int| 0 <= j < before.len() && before[j].0 == kept[i].0;
                assert(files[j].0 == all[i].0);
            } else {
                assert(files[files.len() - 1].0 == all[i].0);
            }
        }
        assert forall|i: int, j: int| 0 <= i < j < all.len() implies !same_path(
            (#[trigger] all[i]).0,
            (#[trigger] all[j]).0,
        ) by {
            assert(all[i] == kept[i]);
            if j < kept.len() {
                assert(all[j] == kept[j]);
            } else {
                let k = choose|k: int| 0 <= k < before.len() && before[k].0 == kept[i].0;
                assert(files[k].0 == all[i].0);
                assert(all[j].0 == files[files.len() - 1].0);
            }
        }
    }
}

impl PendingFiles {
    /// No file is waited for.
    pub fn new() -> (r: Self)
        ensures
            r@ =~= Seq::<(Seq<char>, PendingEntry)>::empty(),
            distinct_paths(r@),
    {
        PendingFiles { entries: Vec::new() }
    }

    /// Notes that a path was seen to change.
    pub fn insert(&mut self, path: &str, entry: PendingEntry)
        ensures
            final(self)@ == with_entry(old(self)@, path@, entry),
            distinct_paths(old(self)@) ==> distinct_paths(final(self)@),
    {
        let ghost before = self@;
        proof {
            if distinct_paths(before) {
                noting_changes_keeps_paths_distinct(before, path@, entry);
            }
            lemma_place_of(before, path@);
        }
        let mut i: usize = self.entries.len();
        assert(before.take(i as int) =~= before);
        while i > 0
            invariant
                i <= self.entries.len(),
                before == old(self)@,
                self@ == before,
                before.len() == self.entries.len(),
                distinct_paths(before) ==> distinct_paths(with_entry(before, path@, entry)),
                place_of(before, path@) == place_of(before.take(i as int), path@),
            decreases i,
        {
            let ghost shorter = before.take(i as int);
            assert(shorter.drop_last() =~= before.take(i - 1));
            assert(shorter.last() == before[i - 1]);
            assert(before[i - 1].0 == self.entries@[i - 1].0@);
            if paths_equal(&self.entries[i - 1].0, path) {
                let kept: String = self.entries[i - 1].0.clone();
                self.entries.set(i - 1, (kept, entry));
                assert(self@ =~= before.update(i - 1, (before[i - 1].0, entry)));
                return;
            }
            i = i - 1;
        }
        self.entries.push((path.to_owned(), entry));
        assert(self@ =~= before.push((path@, entry)));
    }

    /// Takes in a look at each file: forgets those that are gone, and gives out and forgets those
    /// that have settled.
    pub fn reap(&mut self, now: u128, readings: &Vec<Reading>) -> (out: Vec<String>)
        requires
            readings.len() == old(self)@.len(),
        ensures
            out.deep_view() == settled_paths(old(self)@, readings@, now),
            final(self)@ == still_pending(old(self)@, readings@, now),
            distinct_paths(old(self)@) ==> distinct_paths(final(self)@),
    {
        let ghost before = self@;
        proof {
            if distinct_paths(before) {
                lemma_still_pending(before, readings@, now);
            }
        }
        let mut kept: Vec<(String, PendingEntry)> = Vec::new();
        let mut out: Vec<String> = Vec::new();
        let mut i: usize = 0;
        let ghost see = |e: (String, PendingEntry)| entry_view(e);
        assert(before.take(0) =~= Seq::<(Seq<char>, PendingEntry)>::empty());
        assert(kept@.map_values(see) =~= Seq::<(Seq<char>, PendingEntry)>::empty());
        while i < self.entries.len()
            invariant
                i <= self.entries.len(),
                self@ == before,
                before.len() == self.entries.len() == readings.len(),
                see == (|e: (String, PendingEntry)| entry_view(e)),
                out.deep_view() == settled_paths(before.take(i as int), readings@, now),
                kept@.map_values(see) == still_pending(before.take(i as int), readings@, now),
            decreases self.entries.len() - i,
        {
            assert(before.take(i + 1).drop_last() =~= before.take(i as int));
            assert(before.take(i + 1)[i as int] == entry_view(self.entries@[i as int]));
            let ghost path = self.entries@[i as int].0@;
            match readings[i] {
                Some((size, mtime)) => {
                    let mut entry: PendingEntry = self.entries[i].1;
                    if entry.observe(size, mtime, now) {
                        let ghost shorter = out;
                        out.push(self.entries[i].0.clone());
                        assert(out.deep_view() =~= shorter.deep_view().push(path));
                    } else {
                        let ghost shorter = kept;
                        kept.push((self.entries[i].0.clone(), entry));
                        assert(kept@.map_values(see) =~= shorter@.map_values(see).push(
                            (path, entry),
                        ));
                    }
                },
                None => {},
            }
            i = i + 1;
        }
        assert(before.take(i as int) =~= before);
        self.entries = kept;
        out
    }

    /// Forgets the files that no folder takes in any more.
    pub fn purge(&mut self, desired: &Vec<WatchedDirConfig>, videos: &Vec<String>)
        ensures
            final(self)@ == old(self)@.filter(
                |e: (Seq<char>, PendingEntry)|
                    delay_of(desired@, e.0, videos.deep_view()) is Some,
            ),
            distinct_paths(old(self)@) ==> distinct_paths(final(self)@),
    {
        let ghost before = self@;
        let ghost pred = |e: (Seq<char>, PendingEntry)|
            delay_of(desired@, e.0, videos.deep_view()) is Some;
        proof {
            if distinct_paths(before) {
                lemma_filter_distinct(before, pred);
            }
        }
        let ghost see = |e: (String, PendingEntry)| entry_view(e);
        let mut kept: Vec<(String, PendingEntry)> = Vec::new();
        let mut i: usize = 0;
        assert(before.take(0).filter(pred) =~= Seq::<(Seq<char>, PendingEntry)>::empty()) by {
            reveal(Seq::filter);
        }
        assert(kept@.map_values(see) =~= Seq::<(Seq<char>, PendingEntry)>::empty());
        while i < self.entries.len()
            invariant
                i <= self.entries.len(),
                self@ == before,
                before.len() == self.entries.len(),
                see == (|e: (String, PendingEntry)| entry_view(e)),
                pred == (|e: (Seq<char>, PendingEntry)|
                    delay_of(desired@, e.0, videos.deep_view()) is Some),
                kept@.map_values(see) == before.take(i as int).filter(pred),
            decreases self.entries.len() - i,
        {
            let ghost e = entry_view(self.entries@[i as int]);
            assert(before.take(i + 1).drop_last() =~= before.take(i as int));
            assert(before.take(i + 1).last() == e);
            assert(before.take(i + 1).filter(pred) == if pred(e) {
                before.take(i as int).filter(pred).push(e)
            } else {
                before.take(i as int).filter(pred)
            }) by {
                reveal(Seq::filter);
            }
            if delay_for_path(desired, &self.entries[i].0, videos).is_some() {
                let ghost shorter = kept;
                kept.push((self.entries[i].0.clone(), self.entries[i].1));
                assert(kept@.map_values(see) =~= shorter@.map_values(see).push(e));
            }
            i = i + 1;
        }
        assert(before.take(i as int) =~= before);
        self.entries = kept;
    }
}

/// Forgets the files that no folder takes in any more.
pub fn purge_pending_uncovered(
    pending: &mut PendingFiles,
    desired: &Vec<WatchedDirConfig>,
    videos: &Vec<String>,
)
    ensures
        final(pending)@ == old(pending)@.filter(
            |e: (Seq<char>, PendingEntry)| delay_of(desired@, e.0, videos.deep_view()) is Some,
        ),
        distinct_paths(old(pending)@) ==> distinct_paths(final(pending)@),
{
    pending.purge(desired, videos);
}

/// Whether a reading is what a look at a path answered.
pub open spec fn is_reading_of<F: Fn(&str) -> Reading>(stat: F, path: Seq<char>, reading: Reading) -> bool {
    exists|p: &str| p@ == path && call_ensures(stat, (p,), reading)
}

/// Whether a path is that of a file that is waited for.
pub open spec fn is_pending(files: Seq<(Seq<char>, PendingEntry)>, path: Seq<char>) -> bool {
    exists|i: int| 0 <= i < files.len() && (#[trigger] files[i]).0 == path
}

/// Looks at each file that is waited for, forgets those that are gone, and gives out and forgets
/// those that have settled.
pub fn reap_pending_once<F: Fn(&str) -> Reading>(pending: &mut PendingFiles, now: u128, stat: F) -> (
    out: Vec<String>)
    requires
        forall|p: &str| is_pending(old(pending)@, p@) ==> call_requires(stat, (p,)),
    ensures
        exists|readings: Seq<Reading>|
            {
                &&& readings.len() == old(pending)@.len()
                &&& forall|i: int|
                    0 <= i < readings.len() ==> is_reading_of(
                        stat,
                        old(pending)@[i].0,
                        #[trigger] readings[i],
                    )
                &&& out.deep_view() == #[trigger] settled_paths(old(pending)@, readings, now)
                &&& final(pending)@ == still_pending(old(pending)@, readings, now)
            },
        distinct_paths(old(pending)@) ==> distinct_paths(final(pending)@),
{
    let ghost before = pending@;
    let mut readings: Vec<Reading> = Vec::new();
    let mut i: usize = 0;
    while i < pending.entries.len()
        invariant
            i <= pending.entries.len(),
            pending@ == before,
            before.len() == pending.entries.len(),
            readings.len() == i,
            forall|p: &str| is_pending(before, p@) ==> call_requires(stat, (p,)),
            forall|k: int|
                0 <= k < i ==> is_reading_of(stat, before[k].0, #[trigger] readings@[k]),
        decreases pending.entries.len() - i,
    {
        assert(pending.entries@[i as int].0@ == before[i as int].0);
        let reading: Reading = stat(pending.entries[i].0.as_str());
        assert(is_reading_of(stat, before[i as int].0, reading));
        readings.push(reading);
        i = i + 1;
    }
    pending.reap(now, &readings)
}

/// The folders from `dir` up to `root`, or up to the top if `root` is not above `dir`.
pub open spec fn walk_up(dir: Seq<char>, root: Seq<char>) -> Seq<Seq<char>>
    decreases components(dir).len(),
{
    if same_path(dir, root) {
        seq![dir]
    } else {
        match parent(dir) {
            Some(up) => {
                proof {
                    lemma_parent_components(dir);
                }
                seq![dir] + walk_up(up, root)
            },
            None => seq![dir],
        }
    }
}

/// The first folder from `from` on that a path lies under.
pub open spec fn first_root(configs: Seq<WatchedDirConfig>, path: Seq<char>, from: int) -> Option<
    int,
>
    decreases configs.len() - from,
{
    if from < 0 || from >= configs.len() {
        None
    } else if lies_under(path, configs[from].path@) {
        Some(from)
    } else {
        first_root(configs, path, from + 1)
    }
}

/// The folders in which a marker keeps a path from being taken in: its own and those above it, up
/// to the watched folder that it lies under. None for a path that lies under no watched folder, and
/// none for a watched folder itself, whose own folder is above it.
pub open spec fn marker_dirs(configs: Seq<WatchedDirConfig>, path: Seq<char>) -> Seq<Seq<char>> {
    match (first_root(configs, path, 0), parent(path)) {
        (Some(i), Some(dir)) => if lies_under(dir, configs[i].path@) {
            walk_up(dir, configs[i].path@)
        } else {
            Seq::empty()
        },
        _ => Seq::empty(),
    }
}

/// The folders from `dir` up to `root`.
fn folders_up(dir: &str, root: &str) -> (out: Vec<String>)
    ensures
        out.deep_view() == walk_up(dir@, root@),
{
    let mut out: Vec<String> = Vec::new();
    let mut current: String = dir.to_owned();
    assert(Seq::<Seq<char>>::empty() + walk_up(dir@, root@) =~= walk_up(dir@, root@));
    assert(out.deep_view() =~= Seq::<Seq<char>>::empty());
    loop
        invariant
            out.deep_view() + walk_up(current@, root@) == walk_up(dir@, root@),
        decreases components(current@).len(),
    {
        let ghost shorter = out;
        let ghost at = current@;
        let last: bool = paths_equal(&current, root);
        let up: Option<String> = parent_of(&current);
        out.push(current);
        assert(out.deep_view() =~= shorter.deep_view().push(at));
        if last {
            assert(out.deep_view() =~= shorter.deep_view() + walk_up(at, root@));
            return out;
        }
        match up {
            Some(d) => {
                proof {
                    lemma_parent_components(at);
                }
                assert(out.deep_view() + walk_up(d@, root@) =~= shorter.deep_view() + (seq![at]
                    + walk_up(d@, root@)));
                current = d;
            },
            None => {
                assert(out.deep_view() =~= shorter.deep_view() + walk_up(at, root@));
                return out;
            },
        }
    }
}

/// The folders in which a marker keeps a path from being taken in.
pub fn folders_with_say(configs: &Vec<WatchedDirConfig>, path: &str) -> (out: Vec<String>)
    ensures
        out.deep_view() == marker_dirs(configs@, path@),
{
    let mut i: usize = 0;
    while i < configs.len()
        invariant
            i <= configs.len(),
            first_root(configs@, path@, 0) == first_root(configs@, path@, i as int),
        decreases configs.len() - i,
    {
        if path_under(path, &configs[i].path) {
            match parent_of(path) {
                Some(dir) => {
                    if path_under(&dir, &configs[i].path) {
                        return folders_up(&dir, &configs[i].path);
                    }
                },
                None => {},
            }
            let none: Vec<String> = Vec::new();
            assert(none.deep_view() =~= Seq::<Seq<char>>::empty());
            return none;
        }
        i = i + 1;
    }
    let none: Vec<String> = Vec::new();
    assert(none.deep_view() =~= Seq::<Seq<char>>::empty());
    none
}

/// Whether a place is one where a marker keeps a path from being taken in.
pub open spec fn is_marker_place(
    configs: Seq<WatchedDirConfig>,
    path: Seq<char>,
    marker: Seq<char>,
    place: Seq<char>,
) -> bool {
    exists|i: int|
        0 <= i < marker_dirs(configs, path).len() && place == joined_path(
            #[trigger] marker_dirs(configs, path)[i],
            marker,
        )
}

/// Whether a place is one where a marker keeps one of the paths from being taken in.
pub open spec fn is_marker_place_of_any(
    configs: Seq<WatchedDirConfig>,
    paths: Seq<Seq<char>>,
    marker: Seq<char>,
    place: Seq<char>,
) -> bool {
    exists|k: int|
        0 <= k < paths.len() && is_marker_place(configs, #[trigger] paths[k], marker, place)
}

/// Whether a look for a file answered so.
pub open spec fn answered<F: Fn(&str) -> bool>(exists: F, path: Seq<char>, answer: bool) -> bool {
    exists|p: &str| p@ == path && call_ensures(exists, (p,), answer)
}

/// Whether an answer of `has_active_marker` is borne out by looks for the marker.
pub open spec fn marker_answer<F: Fn(&str) -> bool>(
    configs: Seq<WatchedDirConfig>,
    path: Seq<char>,
    marker: Seq<char>,
    exists_at: F,
    marked: bool,
) -> bool {
    if marked {
        exists|i: int|
            0 <= i < marker_dirs(configs, path).len() && answered(
                exists_at,
                joined_path(#[trigger] marker_dirs(configs, path)[i], marker),
                true,
            )
    } else {
        forall|i: int|
            0 <= i < marker_dirs(configs, path).len() ==> answered(
                exists_at,
                joined_path(#[trigger] marker_dirs(configs, path)[i], marker),
                false,
            )
    }
}

/// Looks for a marker in the folders that have a say.
fn look_for_marker<F: Fn(&str) -> bool>(
    configs: &Vec<WatchedDirConfig>,
    path: &str,
    marker: &str,
    exists_at: &F,
) -> (r: bool)
    requires
        forall|p: &str|
            is_marker_place(configs@, path@, marker@, p@) ==> call_requires(*exists_at, (p,)),
    ensures
        marker_answer(configs@, path@, marker@, *exists_at, r),
{
    let dirs: Vec<String> = folders_with_say(configs, path);
    let ghost dv = marker_dirs(configs@, path@);
    assert(dirs.deep_view().len() == dirs.len());
    let mut i: usize = 0;
    while i < dirs.len()
        invariant
            i <= dirs.len(),
            dirs.deep_view() == dv,
            dv == marker_dirs(configs@, path@),
            dv.len() == dirs.len(),
            forall|p: &str|
                is_marker_place(configs@, path@, marker@, p@) ==> call_requires(*exists_at, (p,)),
            forall|k: int|
                0 <= k < i ==> answered(*exists_at, joined_path(#[trigger] dv[k], marker@), false),
        decreases dirs.len() - i,
    {
        assert(dirs.deep_view()[i as int] == dirs[i as int]@);
        let candidate: String = join_path(&dirs[i], marker);
        assert(candidate@ == joined_path(dv[i as int], marker@));
        let found: bool = exists_at(candidate.as_str());
        assert(answered(*exists_at, joined_path(dv[i as int], marker@), found));
        if found {
            return true;
        }
        i = i + 1;
    }
    false
}

/// Whether a marker keeps a path from being taken in: it is looked for in the folders that have a
/// say, and nowhere else, and a look for it succeeded.
pub fn has_active_marker<F: Fn(&str) -> bool>(
    configs: &Vec<WatchedDirConfig>,
    path: &str,
    marker: &str,
    marker_exists: F,
) -> (r: bool)
    requires
        forall|p: &str|
            is_marker_place(configs@, path@, marker@, p@) ==> call_requires(marker_exists, (p,)),
    ensures
        marker_answer(configs@, path@, marker@, marker_exists, r),
{
    look_for_marker(configs, path, marker, &marker_exists)
}

/// The folder to be scanned again when a marker is gone from it, and whether with its subfolders:
/// that of a path that is named like the marker and that a watched folder takes in.
pub open spec fn marker_folder(
    configs: Seq<WatchedDirConfig>,
    path: Seq<char>,
    marker: Seq<char>,
) -> Option<(Seq<char>, bool)> {
    if file_name(path) == Some(marker) && parent(path) is Some {
        match first_taker(configs, path, 0) {
            Some(i) => Some((parent(path)->0, configs[i].recursive)),
            None => None,
        }
    } else {
        None
    }
}

/// A folder and a flag, by the text of the folder.
pub open spec fn folder_view(f: Option<(String, bool)>) -> Option<(Seq<char>, bool)> {
    match f {
        Some((dir, recursive)) => Some((dir@, recursive)),
        None => None,
    }
}

/// The folder to be scanned again when a marker is gone from it.
pub fn folder_of_marker(configs: &Vec<WatchedDirConfig>, path: &str, marker: &str) -> (r: Option<
    (String, bool),
>)
    ensures
        folder_view(r) == marker_folder(configs@, path@, marker@),
{
    let named: bool = match file_name_of(path) {
        Some(name) => same(&name, marker),
        None => false,
    };
    if !named {
        return None;
    }
    match parent_of(path) {
        Some(dir) => match find_taker(configs, path) {
            Some(i) => Some((dir, configs[i].recursive)),
            None => None,
        },
        None => None,
    }
}

/// The folder to be scanned again when a marker was removed from it; nothing if the marker is
/// still there.
pub fn marker_removed_dir<F: Fn(&str) -> bool>(
    configs: &Vec<WatchedDirConfig>,
    path: &str,
    marker: &str,
    exists_at: F,
) -> (r: Option<(String, bool)>)
    requires
        marker_folder(configs@, path@, marker@) is Some ==> forall|p: &str|
            p@ == path@ ==> call_requires(exists_at, (p,)),
    ensures
        marker_folder(configs@, path@, marker@) is None ==> r is None,
        marker_folder(configs@, path@, marker@) is Some ==> (answered(exists_at, path@, true)
            && r is None) || (answered(exists_at, path@, false) && folder_view(r) == marker_folder(
            configs@,
            path@,
            marker@,
        )),
{
    match folder_of_marker(configs, path, marker) {
        Some(folder) => {
            let there: bool = exists_at(path);
            assert(answered(exists_at, path@, there));
            if there {
                None
            } else {
                Some(folder)
            }
        },
        None => None,
    }
}

/// Whether a name is a plain file name, one that a marker can have.
pub open spec fn is_plain_name(value: Seq<char>) -> bool {
    file_name(value) == Some(value)
}

/// A marker, if its name is a plain file name.
pub fn valid_marker(value: &str) -> (r: Option<String>)
    ensures
        opt_view(r) == (if is_plain_name(value@) {
            Some(value@)
        } else {
            None
        }),
{
    match file_name_of(value) {
        Some(name) => if same(&name, value) {
            Some(value.to_owned())
        } else {
            None
        },
        None => None,
    }
}

/// The marker that the settings name, if its name is a plain file name on the system at hand.
pub open spec fn marker_of(rows: Seq<(Seq<char>, Seq<char>)>, platform: Platform) -> Option<
    Seq<char>,
> {
    match value_of(rows, "watch_skip_marker"@) {
        Some(value) => if is_plain_name(slashed_path(value, platform)) {
            Some(value)
        } else {
            None
        },
        None => None,
    }
}

/// The marker that the settings name. One that is missing or no plain file name keeps nothing out.
pub fn read_skip_marker(rows: &Vec<(String, String)>, platform: Platform) -> (r: Option<String>)
    ensures
        opt_view(r) == marker_of(rows.deep_view(), platform),
{
    match read_setting(rows, "watch_skip_marker") {
        Some(value) => if valid_marker(&with_slashes(&value, platform)).is_some() {
            Some(value)
        } else {
            None
        },
        None => None,
    }
}

/// The name of the one folder that all paths are in; nothing if they are in several or in none.
pub open spec fn batch_name(paths: Seq<Seq<char>>) -> Seq<char> {
    if paths.len() > 0 && parent(paths[0]) is Some && forall|i: int|
        0 <= i < paths.len() ==> (parent(#[trigger] paths[i]) matches Some(d) && same_path(
            d,
            parent(paths[0])->0,
        )) {
        match file_name(parent(paths[0])->0) {
            Some(name) => name,
            None => Seq::empty(),
        }
    } else {
        Seq::empty()
    }
}

/// The name of the one folder that all paths are in.
pub fn batch_label(paths: &Vec<String>) -> (r: String)
    ensures
        r@ == batch_name(paths.deep_view()),
{
    let ghost pv = paths.deep_view();
    assert(pv.len() == paths.len());
    if paths.len() == 0 {
        return String::new();
    }
    assert(pv[0] == paths[0]@);
    let first: String = match parent_of(&paths[0]) {
        Some(d) => d,
        None => {
            return String::new();
        },
    };
    let mut i: usize = 0;
    while i < paths.len()
        invariant
            i <= paths.len(),
            pv == paths.deep_view(),
            pv.len() == paths.len(),
            paths.len() > 0,
            parent(pv[0]) == Some(first@),
            forall|k: int|
                0 <= k < i ==> (parent(#[trigger] pv[k]) matches Some(d) && same_path(d, first@)),
        decreases paths.len() - i,
    {
        assert(pv[i as int] == paths[i as int]@);
        let together: bool = match parent_of(&paths[i]) {
            Some(d) => paths_equal(&d, &first),
            None => false,
        };
        if !together {
            assert(!(parent(pv[i as int]) matches Some(d) && same_path(d, parent(pv[0])->0)));
            return String::new();
        }
        i = i + 1;
    }
    match file_name_of(&first) {
        Some(name) => name,
        None => String::new(),
    }
}

/// A row of the history, as far as it tells of a bad source.
#[derive(Debug, Clone)]
pub struct VerdictRow {
    pub source_path: String,
    pub status: String,
    pub failure_class: Option<String>,
}

/// Whether a row condemns its source: it failed, the source was found bad, and the user has not
/// had it removed.
pub open spec fn condemns(row: VerdictRow) -> bool {
    row.status@ == "error"@ && (row.failure_class matches Some(c) && (c@ == "bad_source"@ || c@
        == "bad_source_truncated"@))
}

/// Whether a row condemns its source.
pub fn is_known_bad(row: &VerdictRow) -> (r: bool)
    ensures
        r == condemns(*row),
{
    if !same(&row.status, "error") {
        return false;
    }
    match &row.failure_class {
        Some(c) => same(c, CLASS_BAD_SOURCE) || same(c, CLASS_BAD_SOURCE_TRUNCATED),
        None => false,
    }
}

/// The sources that rows condemn.
pub open spec fn condemned(rows: Seq<VerdictRow>) -> Seq<Seq<char>>
    decreases rows.len(),
{
    if rows.len() == 0 {
        Seq::empty()
    } else {
        let before = condemned(rows.drop_last());
        if condemns(rows.last()) {
            before.push(rows.last().source_path@)
        } else {
            before
        }
    }
}

/// The sources that rows condemn.
pub fn unpurged_bad_source_paths(rows: &Vec<VerdictRow>) -> (out: Vec<String>)
    ensures
        out.deep_view() == condemned(rows@),
{
    let mut out: Vec<String> = Vec::new();
    let mut i: usize = 0;
    assert(condemned(rows@.take(0)) =~= Seq::<Seq<char>>::empty());
    while i < rows.len()
        invariant
            i <= rows.len(),
            out.deep_view() == condemned(rows@.take(i as int)),
        decreases rows.len() - i,
    {
        assert(rows@.take(i + 1).drop_last() =~= rows@.take(i as int));
        if is_known_bad(&rows[i]) {
            let ghost shorter = out;
            out.push(rows[i].source_path.clone());
            assert(out.deep_view() =~= shorter.deep_view().push(rows@[i as int].source_path@));
        }
        i = i + 1;
    }
    assert(rows@.take(i as int) =~= rows@);
    out
}

/// The paths that are not flagged.
pub open spec fn unflagged(paths: Seq<Seq<char>>, flags: Seq<bool>) -> Seq<Seq<char>>
    decreases paths.len(),
{
    if paths.len() == 0 {
        Seq::empty()
    } else {
        let before = unflagged(paths.drop_last(), flags);
        if flags[paths.len() - 1] {
            before
        } else {
            before.push(paths.last())
        }
    }
}

/// Whether flags tell for each path whether a marker keeps it from being taken in.
pub open spec fn flags_markers<F: Fn(&str) -> bool>(
    configs: Seq<WatchedDirConfig>,
    marker: Seq<char>,
    exists_at: F,
    paths: Seq<Seq<char>>,
    flags: Seq<bool>,
) -> bool {
    &&& flags.len() == paths.len()
    &&& forall|i: int|
        0 <= i < flags.len() ==> marker_answer(
            configs,
            paths[i],
            marker,
            exists_at,
            #[trigger] flags[i],
        )
}

/// The paths that no marker keeps from being taken in.
pub fn filter_marked<F: Fn(&str) -> bool>(
    configs: &Vec<WatchedDirConfig>,
    marker: &str,
    paths: &Vec<String>,
    exists_at: &F,
) -> (out: Vec<String>)
    requires
        forall|p: &str|
            is_marker_place_of_any(configs@, paths.deep_view(), marker@, p@) ==> call_requires(
                *exists_at,
                (p,),
            ),
    ensures
        exists|flags: Seq<bool>|
            flags_markers(configs@, marker@, *exists_at, paths.deep_view(), flags) && out.deep_view()
                == #[trigger] unflagged(paths.deep_view(), flags),
{
    let ghost pv = paths.deep_view();
    let ghost mut flags: Seq<bool> = Seq::empty();
    let mut out: Vec<String> = Vec::new();
    let mut i: usize = 0;
    assert(unflagged(pv.take(0), flags) =~= Seq::<Seq<char>>::empty());
    while i < paths.len()
        invariant
            i <= paths.len(),
            pv == paths.deep_view(),
            pv.len() == paths.len(),
            forall|p: &str|
                is_marker_place_of_any(configs@, pv, marker@, p@) ==> call_requires(
                    *exists_at,
                    (p,),
                ),
            flags.len() == i,
            forall|k: int|
                0 <= k < i ==> marker_answer(
                    configs@,
                    pv[k],
                    marker@,
                    *exists_at,
                    #[trigger] flags[k],
                ),
            out.deep_view() == unflagged(pv.take(i as int), flags),
        decreases paths.len() - i,
    {
        assert(pv[i as int] == paths[i as int]@);
        assert forall|p: &str| is_marker_place(configs@, paths@[i as int]@, marker@, p@) implies
            call_requires(*exists_at, (p,)) by {
            assert(is_marker_place(configs@, pv[i as int], marker@, p@));
        }
        let marked: bool = look_for_marker(configs, &paths[i], marker, exists_at);
        let ghost shorter = out;
        let ghost longer = flags.push(marked);
        proof {
            lemma_unflagged_prefix(pv.take(i as int), flags, longer);
        }
        assert(pv.take(i + 1).drop_last() =~= pv.take(i as int));
        if !marked {
            out.push(paths[i].clone());
            assert(out.deep_view() =~= shorter.deep_view().push(pv[i as int]));
        }
        proof {
            flags = longer;
        }
        i = i + 1;
    }
    assert(pv.take(i as int) =~= pv);
    assert(flags_markers(configs@, marker@, *exists_at, pv, flags));
    out
}

/// Flags beyond the paths do not count.
proof fn lemma_unflagged_prefix(paths: Seq<Seq<char>>, flags: Seq<bool>, longer: Seq<bool>)
    requires
        paths.len() <= flags.len() <= longer.len(),
        forall|i: int| 0 <= i < flags.len() ==> flags[i] == longer[i],
    ensures
        unflagged(paths, flags) == unflagged(paths, longer),
    decreases paths.len(),
{
    if paths.len() > 0 {
        lemma_unflagged_prefix(paths.drop_last(), flags, longer);
    }
}

/// What the watcher knows: the folders that the system watches for it, the files that are waited
/// for, the folders as they are configured, and the marker that keeps files out.
#[derive(Debug, Clone)]
pub struct WatcherState {
    pub watched: Vec<(String, bool)>,
    pub pending: PendingFiles,
    pub configs: Vec<WatchedDirConfig>,
    pub skip_marker: Option<String>,
}

/// The folders that configurations ask to be watched.
pub open spec fn watch_list(configs: Seq<WatchedDirConfig>) -> Seq<(Seq<char>, bool)> {
    configs.map_values(|c: WatchedDirConfig| (c.path@, c.recursive))
}

/// The folders that configurations ask to be watched.
fn list_watches(configs: &Vec<WatchedDirConfig>) -> (out: Vec<(String, bool)>)
    ensures
        out.deep_view() == watch_list(configs@),
{
    let mut out: Vec<(String, bool)> = Vec::new();
    let mut i: usize = 0;
    while i < configs.len()
        invariant
            i <= configs.len(),
            out.len() == i,
            forall|k: int|
                0 <= k < i ==> (#[trigger] out@[k]).0@ == configs@[k].path@ && out@[k].1
                    == configs@[k].recursive,
        decreases configs.len() - i,
    {
        out.push((configs[i].path.clone(), configs[i].recursive));
        i = i + 1;
    }
    assert(out.deep_view() =~= watch_list(configs@));
    out
}

/// The configuration that a stored folder gives. The wait is at least a second.
pub fn watched_dir(path: String, recursive: bool, delay_secs: i64) -> (r: WatchedDirConfig)
    ensures
        r.path == path,
        r.recursive == recursive,
        r.delay == 1_000_000_000 * (if delay_secs > 1 {
            delay_secs as int
        } else {
            1
        }),
{
    let secs: u128 = if delay_secs > 1 {
        delay_secs as u128
    } else {
        1
    };
    WatchedDirConfig { path, recursive, delay: secs * 1_000_000_000 }
}

impl WatcherState {
    /// Nothing is watched.
    pub fn new() -> (r: Self)
        ensures
            r.watched@.len() == 0,
            r.pending@.len() == 0,
            distinct_paths(r.pending@),
            r.configs@.len() == 0,
            r.skip_marker is None,
    {
        WatcherState {
            watched: Vec::new(),
            pending: PendingFiles::new(),
            configs: Vec::new(),
            skip_marker: None,
        }
    }

    /// Takes in the folders and the marker as they are configured now. Returns the paths that the
    /// system is to let go and the folders that it is to watch.
    pub fn reconcile(
        &mut self,
        desired: Vec<WatchedDirConfig>,
        marker: Option<String>,
        videos: &Vec<String>,
    ) -> (r: (Vec<String>, Vec<(String, bool)>))
        ensures
            r.0.deep_view() == missing_from(
                old(self).watched.deep_view(),
                watch_list(desired@),
            ).map_values(|w: (Seq<char>, bool)| w.0),
            r.1.deep_view() == missing_from(
                watch_list(desired@),
                old(self).watched.deep_view(),
            ),
            final(self).watched.deep_view() == watch_list(desired@),
            final(self).configs == desired,
            final(self).skip_marker == marker,
            final(self).pending@ == old(self).pending@.filter(
                |e: (Seq<char>, PendingEntry)| delay_of(desired@, e.0, videos.deep_view()) is Some,
            ),
            distinct_paths(old(self).pending@) ==> distinct_paths(final(self).pending@),
    {
        let wanted: Vec<(String, bool)> = list_watches(&desired);
        let changes: (Vec<String>, Vec<(String, bool)>) = diff_watches(&self.watched, &wanted);
        purge_pending_uncovered(&mut self.pending, &desired, videos);
        self.configs = desired;
        self.skip_marker = marker;
        self.watched = wanted;
        changes
    }

    /// The system told that a path was touched. `there` and `reading` are what a look at the path
    /// found. Returns the folder to be scanned again where the path is that of a marker that is
    /// gone; else the path is waited for, if it is one to be taken in and is a file.
    pub fn on_event(
        &mut self,
        path: &str,
        there: bool,
        reading: Reading,
        now: u128,
        videos: &Vec<String>,
    ) -> (r: Option<(String, bool)>)
        ensures
            ({
                let scan = match old(self).skip_marker {
                    Some(m) => if there {
                        None
                    } else {
                        marker_folder(old(self).configs@, path@, m@)
                    },
                    None => None,
                };
                let delay = delay_of(old(self).configs@, path@, videos.deep_view());
                &&& folder_view(r) == scan
                &&& final(self).watched == old(self).watched
                &&& final(self).configs == old(self).configs
                &&& final(self).skip_marker == old(self).skip_marker
                &&& final(self).pending@ == (match (reading, delay) {
                    (Some((size, mtime)), Some(d)) => if scan is None {
                        with_entry(
                            old(self).pending@,
                            path@,
                            PendingEntry { size, mtime, last_change: now, delay: d },
                        )
                    } else {
                        old(self).pending@
                    },
                    _ => old(self).pending@,
                })
                &&& distinct_paths(old(self).pending@) ==> distinct_paths(final(self).pending@)
            }),
    {
        match &self.skip_marker {
            Some(m) => {
                if !there {
                    let folder: Option<(String, bool)> = folder_of_marker(&self.configs, path, m);
                    if folder.is_some() {
                        return folder;
                    }
                }
            },
            None => {},
        }
        match reading {
            Some((size, mtime)) => match delay_for_path(&self.configs, path, videos) {
                Some(delay) => {
                    self.pending.insert(path, PendingEntry::new(size, mtime, now, delay));
                },
                None => {},
            },
            None => {},
        }
        None
    }

    /// The paths of a batch that are to be added to the queue: those that a folder still takes in,
    /// that no marker keeps out, and that are not known to be bad.
    pub fn intake<F: Fn(&str) -> bool>(
        &self,
        paths: &Vec<String>,
        bad: &Vec<String>,
        videos: &Vec<String>,
        exists_at: &F,
    ) -> (out: Vec<String>)
        requires
            self.skip_marker matches Some(m) ==> forall|p: &str|
                is_marker_place_of_any(
                    self.configs@,
                    paths.deep_view().filter(
                        |p: Seq<char>| delay_of(self.configs@, p, videos.deep_view()) is Some,
                    ),
                    m@,
                    p@,
                ) ==> call_requires(*exists_at, (p,)),
        ensures
            ({
                let covered = paths.deep_view().filter(
                    |p: Seq<char>| delay_of(self.configs@, p, videos.deep_view()) is Some,
                );
                let good = |p: Seq<char>| !listed(bad.deep_view(), p);
                match self.skip_marker {
                    Some(m) => exists|flags: Seq<bool>|
                        flags_markers(self.configs@, m@, *exists_at, covered, flags)
                            && out.deep_view() == (#[trigger] unflagged(covered, flags)).filter(
                            good,
                        ),
                    None => out.deep_view() == covered.filter(good),
                }
            }),
    {
        let covered: Vec<String> = covered_paths(&self.configs, paths, videos);
        match &self.skip_marker {
            Some(m) => {
                let unmarked: Vec<String> = filter_marked(&self.configs, m, &covered, exists_at);
                drop_known_bad_sources(bad, &unmarked)
            },
            None => drop_known_bad_sources(bad, &covered),
        }
    }
}

/// What follows once files were added to the queue.
#[derive(Debug, Clone, Copy, PartialEq, Eq, Structural)]
pub enum AddAction {
    /// Nothing was added.
    Nothing,
    /// Show the queue; an install keeps it from starting.
    ShowQueue,
    /// Forget a pause, start the queue and show it.
    StartQueue,
}

/// What follows once files were added to the queue.
pub fn after_add(added: usize, installing: bool) -> (r: AddAction)
    ensures
        r == (if added == 0 {
            AddAction::Nothing
        } else if installing {
            AddAction::ShowQueue
        } else {
            AddAction::StartQueue
        }),
{
    if added == 0 {
        AddAction::Nothing
    } else if installing {
        AddAction::ShowQueue
    } else {
        AddAction::StartQueue
    }
}

/// Below a folder, the walk up from a path stays at or below that folder: a marker above a watched
/// folder has no say.
proof fn lemma_walk_is_bounded(dir: Seq<char>, root: Seq<char>)
    requires
        lies_under(dir, root),
    ensures
        forall|i: int|
            0 <= i < walk_up(dir, root).len() ==> lies_under(#[trigger] walk_up(dir, root)[i], root),
    decreases components(dir).len(),
{
    if !same_path(dir, root) {
        let c = components(dir);
        let b = components(root);
        lemma_parent_components(dir);
        assert(c.subrange(0, b.len() as int) =~= b);
        assert(c.len() > b.len()) by {
            if c.len() == b.len() {
                assert(c.subrange(0, b.len() as int) =~= c);
            }
        }
        match parent(dir) {
            Some(up) => {
                assert(components(up).subrange(0, b.len() as int) =~= b);
                assert(b.is_prefix_of(components(up)));
                lemma_walk_is_bounded(up, root);
                assert forall|i: int| 0 <= i < walk_up(dir, root).len() implies lies_under(
                    #[trigger] walk_up(dir, root)[i],
                    root,
                ) by {
                    if i > 0 {
                        assert(walk_up(dir, root)[i] == walk_up(up, root)[i - 1]);
                    }
                }
            },
            None => {},
        }
    }
}

/// Only markers in a path's own folder or in folders above it, up to the watched folder, have a
/// say: never one above the watched folder, and none at all for a path outside every watched
/// folder. For a path below the watched folder all of these have a say.
pub proof fn markers_above_the_watched_folder_have_no_say(
    configs: Seq<WatchedDirConfig>,
    path: Seq<char>,
    root: int,
)
    ensures
        first_root(configs, path, 0) is None ==> marker_dirs(configs, path).len() == 0,
        first_root(configs, path, 0) == Some(root) ==> forall|i: int|
            0 <= i < marker_dirs(configs, path).len() ==> lies_under(
                #[trigger] marker_dirs(configs, path)[i],
                configs[root].path@,
            ),
        first_root(configs, path, 0) == Some(root) && components(path).len() > components(
            configs[root].path@,
        ).len() ==> (parent(path) matches Some(dir) ==> marker_dirs(configs, path) == walk_up(
            dir,
            configs[root].path@,
        )),
{
    if first_root(configs, path, 0) == Some(root) {
        lemma_first_root(configs, path, 0);
        lemma_parent_components(path);
        let c = components(path);
        let b = components(configs[root].path@);
        match parent(path) {
            Some(dir) => {
                if c.len() > b.len() {
                    assert(c.subrange(0, b.len() as int) =~= b);
                    assert(components(dir).subrange(0, b.len() as int) =~= b);
                    assert(b.is_prefix_of(components(dir)));
                }
                if lies_under(dir, configs[root].path@) {
                    lemma_walk_is_bounded(dir, configs[root].path@);
                }
            },
            None => {},
        }
    }
}

/// The folder that is found is one that the path lies under.
proof fn lemma_first_root(configs: Seq<WatchedDirConfig>, path: Seq<char>, from: int)
    requires
        0 <= from,
    ensures
        first_root(configs, path, from) matches Some(i) ==> from <= i < configs.len() && lies_under(
            path,
            configs[i].path@,
        ),
    decreases configs.len() - from,
{
    if from < configs.len() && !lies_under(path, configs[from].path@) {
        lemma_first_root(configs, path, from + 1);
    }
}

/// A file that has settled is given out once: it is not waited for any more.
pub proof fn settled_files_are_given_out_once(
    files: Seq<(Seq<char>, PendingEntry)>,
    readings: Seq<Reading>,
    now: u128,
    path: Seq<char>,
)
    requires
        distinct_paths(files),
        settled_paths(files, readings, now).contains(path),
    ensures
        forall|i: int|
            0 <= i < still_pending(files, readings, now).len() ==> !same_path(
                (#[trigger] still_pending(files, readings, now)[i]).0,
                path,
            ),
    decreases files.len(),
{
    if files.len() > 0 {
        let before = files.drop_last();
        let n = files.len() - 1;
        assert(distinct_paths(before)) by {
            assert forall|i: int, j: int| 0 <= i < j < before.len() implies !same_path(
                (#[trigger] before[i]).0,
                (#[trigger] before[j]).0,
            ) by {
                assert(before[i] == files[i] && before[j] == files[j]);
            }
        }
        let given = settled_paths(files, readings, now);
        let given_before = settled_paths(before, readings, now);
        let kept = still_pending(files, readings, now);
        let kept_before = still_pending(before, readings, now);
        lemma_still_pending(before, readings, now);
        lemma_settled_were_there(before, readings, now);
        let k = choose|k: int| 0 <= k < given.len() && given[k] == path;
        assert forall|i: int| 0 <= i < kept.len() implies !same_path((#[trigger] kept[i]).0, path) by {
            if k < given_before.len() {
                assert(given_before[k] == path);
                assert(given_before.contains(path));
                settled_files_are_given_out_once(before, readings, now, path);
                if i < kept_before.len() {
                    assert(kept[i] == kept_before[i]);
                } else {
                    let j = choose|j: int|
                        0 <= j < before.len() && before[j].0 == given_before[k];
                    assert(files[j].0 == path);
                    assert(kept[i].0 == files[n].0);
                    assert(!same_path(files[j].0, files[n].0));
                }
            } else {
                assert(path == files[n].0);
                assert(kept[i] == kept_before[i]);
                let j = choose|j: int| 0 <= j < before.len() && before[j].0 == kept_before[i].0;
                assert(files[j].0 == kept[i].0);
                assert(!same_path(files[j].0, files[n].0));
            }
        }
    }
}

/// A file that has settled was waited for.
proof fn lemma_settled_were_there(
    files: Seq<(Seq<char>, PendingEntry)>,
    readings: Seq<Reading>,
    now: u128,
)
    ensures
        forall|i: int|
            0 <= i < settled_paths(files, readings, now).len() ==> exists|j: int|
                0 <= j < files.len() && files[j].0 == #[trigger] settled_paths(
                    files,
                    readings,
                    now,
                )[i],
    decreases files.len(),
{
    if files.len() > 0 {
        let before = files.drop_last();
        lemma_settled_were_there(before, readings, now);
        let given = settled_paths(files, readings, now);
        let given_before = settled_paths(before, readings, now);
        assert forall|i: int| 0 <= i < given.len() implies exists|j: int|
            0 <= j < files.len() && files[j].0 == #[trigger] given[i] by {
            if i < given_before.len() {
                assert(given[i] == given_before[i]);
                let j = choose|j: int| 0 <= j < before.len() && before[j].0 == given_before[i];
                assert(files[j].0 == given[i]);
            } else {
                assert(files[files.len() - 1].0 == given[i]);
            }
        }
    }
}

/// Where the folders to be watched are those that are watched, nothing changes.
pub proof fn equal_watches_need_no_change(all: Seq<(Seq<char>, bool)>, some: Seq<(Seq<char>, bool)>)
    requires
        forall|i: int| 0 <= i < some.len() ==> has_watch(all, #[trigger] some[i]),
    ensures
        missing_from(some, all).len() == 0,
        missing_from(all, all).len() == 0,
    decreases some.len(),
{
    lemma_none_missing(some, all);
    assert forall|i: int| 0 <= i < all.len() implies has_watch(all, #[trigger] all[i]) by {
        assert(same_watch(all[i], all[i]));
    }
    lemma_none_missing(all, all);
}

/// Where every watch is among others, none is missing.
proof fn lemma_none_missing(some: Seq<(Seq<char>, bool)>, all: Seq<(Seq<char>, bool)>)
    requires
        forall|i: int| 0 <= i < some.len() ==> has_watch(all, #[trigger] some[i]),
    ensures
        missing_from(some, all).len() == 0,
    decreases some.len(),
{
    reveal(Seq::filter);
    if some.len() > 0 {
        let before = some.drop_last();
        assert forall|i: int| 0 <= i < before.len() implies has_watch(all, #[trigger] before[i]) by {
            assert(before[i] == some[i]);
        }
        lemma_none_missing(before, all);
        assert(has_watch(all, some[some.len() - 1]));
    }
}

/// The folder that is found is the first of all that take in a path, wherever it stands; if none is
/// found, none takes it in.
proof fn lemma_first_taker(configs: Seq<WatchedDirConfig>, path: Seq<char>, from: int)
    requires
        0 <= from,
    ensures
        match first_taker(configs, path, from) {
            Some(j) => from <= j < configs.len() && takes_in(configs[j], path) && forall|k: int|
                from <= k < j ==> !takes_in(#[trigger] configs[k], path),
            None => forall|k: int|
                from <= k < configs.len() ==> !takes_in(#[trigger] configs[k], path),
        },
    decreases configs.len() - from,
{
    if from < configs.len() && !takes_in(configs[from], path) {
        lemma_first_taker(configs, path, from + 1);
    }
}

/// Every watched folder counts: a video that is no unfinished download and that any of them takes in
/// is waited for, as long as the first of those that take it in says. What none takes in, what is no
/// video and what is not done is not waited for.
pub proof fn every_watched_folder_counts(
    configs: Seq<WatchedDirConfig>,
    path: Seq<char>,
    videos: Seq<Seq<char>>,
    i: int,
)
    ensures
        0 <= i < configs.len() && takes_in(configs[i], path) && is_video(path, videos) && !is_temp(
            path,
        ) && parent(path) is Some ==> exists|j: int|
            0 <= j <= i && takes_in(#[trigger] configs[j], path) && delay_of(configs, path, videos)
                == Some(configs[j].delay) && forall|k: int|
                0 <= k < j ==> !takes_in(#[trigger] configs[k], path),
        (forall|k: int| 0 <= k < configs.len() ==> !takes_in(#[trigger] configs[k], path))
            ==> delay_of(configs, path, videos) is None,
        !is_video(path, videos) || is_temp(path) ==> delay_of(configs, path, videos) is None,
{
    lemma_first_taker(configs, path, 0);
    if 0 <= i < configs.len() && takes_in(configs[i], path) {
        let j = first_taker(configs, path, 0)->0;
        assert(takes_in(configs[j], path));
    }
}

/// A file directly in a watched folder is taken in. One in a subfolder is taken in only where the
/// folder is watched with its subfolders, and one elsewhere never.
pub proof fn folders_take_in_their_files(
    config: WatchedDirConfig,
    sub: Seq<char>,
    name: Seq<char>,
    path: Seq<char>,
)
    requires
        plain(sub),
        plain(name),
    ensures
        takes_in(config, joined_path(config.path@, name)),
        takes_in(config, joined_path(joined_path(config.path@, sub), name)) <==> config.recursive,
        takes_in(config, path) ==> lies_under(path, config.path@),
        config.recursive && lies_under(path, config.path@) ==> takes_in(config, path),
        !config.recursive && takes_in(config, path) ==> components(path).len() == components(
            config.path@,
        ).len() + 1,
{
    let root = config.path@;
    let inner = joined_path(root, sub);
    joined_files_are_found(root, name);
    joined_files_are_found(root, sub);
    joined_files_are_found(inner, name);
    paths_lie_under_their_folders(root, root, sub);
    paths_lie_under_their_folders(inner, root, name);
    lemma_parent_components(path);
    if !config.recursive && takes_in(config, path) {
        let c = components(path);
        assert(c.drop_last() =~= c.take(c.len() - 1));
        assert(components(root).is_prefix_of(c));
    }
}

/// The extension of a file decides, in whatever case, whether it is a video or an unfinished
/// download.
pub proof fn extensions_decide(
    dir: Seq<char>,
    name: Seq<char>,
    ext: Seq<char>,
    videos: Seq<Seq<char>>,
)
    requires
        name.len() > 0,
        !name.contains('/'),
        !ext.contains('/'),
        !ext.contains('.'),
        ext.len() > 0,
    ensures
        ({
            let path = joined_path(dir, name.push('.') + ext);
            &&& is_temp(path) <==> {
                ||| lowercase(ext) == "part"@
                ||| lowercase(ext) == "crdownload"@
                ||| lowercase(ext) == "download"@
                ||| lowercase(ext) == "tmp"@
                ||| lowercase(ext) == "partial"@
                ||| lowercase(ext) == "!ut"@
            }
            &&& !occurs(name.push('.') + ext, IN_PLACE_TEMP_MARKER@) ==> (is_video(path, videos)
                <==> videos.contains(lowercase(ext)))
        }),
{
    let whole = name.push('.') + ext;
    assert(!whole.contains('/')) by {
        if whole.contains('/') {
            let i = choose|i: int| 0 <= i < whole.len() && whole[i] == '/';
            if i < name.len() {
                assert(name[i] == '/');
            } else if i > name.len() {
                assert(ext[i - name.len() - 1] == '/');
            }
        }
    }
    assert(whole.len() >= 3);
    joined_files_are_found(dir, whole);
    names_are_stem_and_extension(name, ext);
    if listed(videos, lowercase(ext)) {
        let i = choose|i: int| 0 <= i < videos.len() && videos[i] == lowercase(ext);
        assert(videos.contains(videos[i]));
    }
}

/// A file settles once it was left alone for its delay: it is given out at the first look that finds
/// it as it was and the delay over, and a look that finds it changed starts the wait anew.
pub proof fn files_settle_once_left_alone(
    entry: PendingEntry,
    size: u64,
    mtime: i128,
    then: u128,
    now: u128,
)
    requires
        entry.last_change <= then <= now,
    ensures
        size == entry.size && mtime == entry.mtime ==> looked_at(entry, size, mtime, then) == entry
            && (settled(entry, size, mtime, now) <==> now - entry.last_change >= entry.delay),
        size != entry.size || mtime != entry.mtime ==> {
            let after = looked_at(entry, size, mtime, then);
            &&& !settled(entry, size, mtime, then)
            &&& settled(after, size, mtime, now) <==> now - then >= entry.delay
        },
{
}

/// Of the files that are waited for, one that is gone is forgotten, one that has settled is given
/// out, and any other is waited for further.
pub proof fn every_file_is_gone_settled_or_pending(
    files: Seq<(Seq<char>, PendingEntry)>,
    readings: Seq<Reading>,
    now: u128,
    i: int,
)
    requires
        0 <= i < files.len(),
        readings.len() == files.len(),
    ensures
        readings[i] matches Some((size, mtime)) ==> {
            if settled(files[i].1, size, mtime, now) {
                settled_paths(files, readings, now).contains(files[i].0)
            } else {
                still_pending(files, readings, now).contains(
                    (files[i].0, looked_at(files[i].1, size, mtime, now)),
                )
            }
        },
    decreases files.len(),
{
    lemma_reaped(files, readings, now, i);
}

/// The lemma behind it, for readings of more files.
proof fn lemma_reaped(
    files: Seq<(Seq<char>, PendingEntry)>,
    readings: Seq<Reading>,
    now: u128,
    i: int,
)
    requires
        0 <= i < files.len() <= readings.len(),
    ensures
        readings[i] matches Some((size, mtime)) ==> {
            if settled(files[i].1, size, mtime, now) {
                settled_paths(files, readings, now).contains(files[i].0)
            } else {
                still_pending(files, readings, now).contains(
                    (files[i].0, looked_at(files[i].1, size, mtime, now)),
                )
            }
        },
    decreases files.len(),
{
    let fewer = files.drop_last();
    let out = settled_paths(files, readings, now);
    let rest = still_pending(files, readings, now);
    if i < files.len() - 1 {
        lemma_reaped(fewer, readings, now, i);
        assert(fewer[i] == files[i]);
        let before = settled_paths(fewer, readings, now);
        let kept = still_pending(fewer, readings, now);
        if readings[i] is Some {
            let (size, mtime) = readings[i]->0;
            if settled(files[i].1, size, mtime, now) {
                let k = choose|k: int| 0 <= k < before.len() && before[k] == files[i].0;
                assert(out[k] == before[k]);
            } else {
                let e = (files[i].0, looked_at(files[i].1, size, mtime, now));
                let k = choose|k: int| 0 <= k < kept.len() && kept[k] == e;
                assert(rest[k] == kept[k]);
            }
        }
    } else if readings[i] is Some {
        let (size, mtime) = readings[i]->0;
        if settled(files[i].1, size, mtime, now) {
            assert(out.last() == files[i].0);
        } else {
            assert(rest.last() == (files[i].0, looked_at(files[i].1, size, mtime, now)));
        }
    }
}

/// Nothing is given out or waited for that was not waited for and is still there: what is given out
/// and what is waited for further are together no more than the files that a look found.
pub proof fn nothing_settles_that_was_not_found(
    files: Seq<(Seq<char>, PendingEntry)>,
    readings: Seq<Reading>,
    now: u128,
)
    requires
        files.len() <= readings.len(),
    ensures
        settled_paths(files, readings, now).len() + still_pending(files, readings, now).len()
            == readings.take(files.len() as int).filter(|r: Reading| r is Some).len(),
    decreases files.len(),
{
    reveal(Seq::filter);
    if files.len() > 0 {
        let fewer = files.drop_last();
        nothing_settles_that_was_not_found(fewer, readings, now);
        let some = readings.take(files.len() as int);
        assert(some.drop_last() =~= readings.take(fewer.len() as int));
        assert(some.last() == readings[files.len() - 1]);
    }
}

/// A path that was seen to change is waited for with what was seen, and every other path as before.
pub proof fn changes_are_noted(
    files: Seq<(Seq<char>, PendingEntry)>,
    path: Seq<char>,
    entry: PendingEntry,
)
    ensures
        ({
            let after = with_entry(files, path, entry);
            &&& exists|i: int|
                0 <= i < after.len() && same_path((#[trigger] after[i]).0, path) && after[i].1
                    == entry
            &&& forall|i: int|
                0 <= i < files.len() && !same_path((#[trigger] files[i]).0, path) ==> after[i]
                    == files[i]
            &&& (exists|i: int| 0 <= i < files.len() && same_path((#[trigger] files[i]).0, path))
                ==> after.len() == files.len()
            &&& !(exists|i: int| 0 <= i < files.len() && same_path((#[trigger] files[i]).0, path))
                ==> after.len() == files.len() + 1
        }),
{
    lemma_place_of(files, path);
    let after = with_entry(files, path, entry);
    let at = place_of(files, path);
    if at >= 0 {
        assert(same_path(after[at].0, path));
        assert(same_path(files[at].0, path));
    } else {
        assert(same_path(after[after.len() - 1].0, path));
    }
}

/// The changes of the watches lead from those that are to those that are wanted: what is wanted and
/// not watched so is to be watched, what is watched and not wanted so is to be let go, and nothing
/// else changes.
pub proof fn changed_watches_lead_to_the_wanted_ones(
    current: Seq<(Seq<char>, bool)>,
    desired: Seq<(Seq<char>, bool)>,
    w: (Seq<char>, bool),
)
    ensures
        desired.contains(w) && !has_watch(current, w)
            ==> missing_from(desired, current).contains(w),
        missing_from(desired, current).contains(w) ==> desired.contains(w) && !has_watch(
            current,
            w,
        ),
{
    let pred = |v: (Seq<char>, bool)| !has_watch(current, v);
    broadcast use vstd::seq_lib::group_filter_ensures;
    let out = desired.filter(pred);
    if desired.contains(w) && pred(w) {
        let i = choose|i: int| 0 <= i < desired.len() && desired[i] == w;
        desired.lemma_filter_contains(pred, i);
    }
    if out.contains(w) {
        let k = choose|k: int| 0 <= k < out.len() && out[k] == w;
        desired.lemma_filter_pred(pred, k);
        lemma_filter_was_there(desired, pred, k);
    }
}

/// What a filter keeps was there.
proof fn lemma_filter_was_there<A>(all: Seq<A>, pred: spec_fn(A) -> bool, k: int)
    requires
        0 <= k < all.filter(pred).len(),
    ensures
        all.contains(all.filter(pred)[k]),
    decreases all.len(),
{
    reveal(Seq::filter);
    if all.len() > 0 {
        let before = all.drop_last().filter(pred);
        if k < before.len() {
            lemma_filter_was_there(all.drop_last(), pred, k);
            let i = choose|i: int|
                0 <= i < all.drop_last().len() && all.drop_last()[i] == before[k];
            assert(all[i] == all.filter(pred)[k]);
        } else {
            assert(all[all.len() - 1] == all.filter(pred)[k]);
        }
    }
}

/// Whether a folder is among others, watched in the same way, is asked of its path and of its
/// subfolders: a folder that is watched otherwise is another watch.
pub proof fn watches_are_told_apart(a: (Seq<char>, bool), b: (Seq<char>, bool))
    ensures
        has_watch(seq![a], b) <==> components(a.0) == components(b.0) && a.1 == b.1,
{
    let one = seq![a];
    if components(a.0) == components(b.0) && a.1 == b.1 {
        assert(same_watch(one[0], b));
    }
}

/// The walk up from a folder passes every folder on the way to the root, and the root itself.
pub proof fn the_walk_up_misses_no_folder(dir: Seq<char>, root: Seq<char>, k: int)
    requires
        lies_under(dir, root),
        components(root).len() <= k <= components(dir).len(),
        k > 0,
    ensures
        exists|i: int|
            0 <= i < walk_up(dir, root).len() && components(#[trigger] walk_up(dir, root)[i])
                == components(dir).take(k),
    decreases components(dir).len(),
{
    let c = components(dir);
    let b = components(root);
    let all = walk_up(dir, root);
    assert(all[0] == dir);
    if k == c.len() {
        assert(c.take(k) =~= c);
        assert(components(all[0]) == c.take(k));
    } else {
        lemma_parent_components(dir);
        assert(c.subrange(0, b.len() as int) =~= b);
        assert(!same_path(dir, root));
        assert(parent(dir) is Some);
        let up = parent(dir)->0;
        assert(components(up) == c.drop_last());
        assert(c.drop_last().subrange(0, b.len() as int) =~= b);
        assert(b.is_prefix_of(components(up)));
        the_walk_up_misses_no_folder(up, root, k);
        let rest = walk_up(up, root);
        let i = choose|i: int|
            0 <= i < rest.len() && components(#[trigger] rest[i]) == components(up).take(k);
        assert(all[i + 1] == rest[i]);
        assert(c.drop_last().take(k) =~= c.take(k));
    }
}

/// The folder that is found for a marker is the first that a path lies under; if none is found, the
/// path lies under none.
pub proof fn the_first_folder_above_a_path_is_found(configs: Seq<WatchedDirConfig>, path: Seq<char>)
    ensures
        match first_root(configs, path, 0) {
            Some(j) => 0 <= j < configs.len() && lies_under(path, configs[j].path@)
                && forall|k: int|
                0 <= k < j ==> !lies_under(path, (#[trigger] configs[k]).path@),
            None => forall|k: int|
                0 <= k < configs.len() ==> !lies_under(path, (#[trigger] configs[k]).path@),
        },
{
    lemma_root_found(configs, path, 0);
}

/// The first folder from `from` on that a path lies under is found.
proof fn lemma_root_found(configs: Seq<WatchedDirConfig>, path: Seq<char>, from: int)
    requires
        0 <= from,
    ensures
        match first_root(configs, path, from) {
            Some(j) => from <= j < configs.len() && lies_under(path, configs[j].path@) && forall|
                k: int,
            |
                from <= k < j ==> !lies_under(path, (#[trigger] configs[k]).path@),
            None => forall|k: int|
                from <= k < configs.len() ==> !lies_under(path, (#[trigger] configs[k]).path@),
        },
    decreases configs.len() - from,
{
    if from < configs.len() && !lies_under(path, configs[from].path@) {
        lemma_root_found(configs, path, from + 1);
    }
}

/// A marker that is gone from a folder that is watched has that folder scanned again, with its
/// subfolders where the watched folder is watched with them; a file of another name has not.
pub proof fn removed_markers_free_their_folder(
    configs: Seq<WatchedDirConfig>,
    i: int,
    dir: Seq<char>,
    marker: Seq<char>,
    name: Seq<char>,
)
    requires
        plain(marker),
        plain(name),
        name != marker,
        0 <= i < configs.len(),
        takes_in(configs[i], joined_path(dir, marker)),
        forall|k: int| 0 <= k < i ==> !takes_in(#[trigger] configs[k], joined_path(dir, marker)),
    ensures
        marker_folder(configs, joined_path(dir, marker), marker) matches Some((folder, recursive))
            && same_path(folder, dir) && recursive == configs[i].recursive,
        marker_folder(configs, joined_path(dir, name), marker) is None,
{
    joined_files_are_found(dir, marker);
    joined_files_are_found(dir, name);
    lemma_first_taker(configs, joined_path(dir, marker), 0);
}

/// A batch of files of one folder has the name of that folder; one of several folders has none.
pub proof fn batches_are_named_by_their_one_folder(
    dir: Seq<char>,
    other: Seq<char>,
    a: Seq<char>,
    b: Seq<char>,
)
    requires
        plain(a),
        plain(b),
    ensures
        batch_name(seq![joined_path(dir, a), joined_path(dir, b)]) == (match file_name(dir) {
            Some(name) => name,
            None => Seq::empty(),
        }),
        !same_path(dir, other) ==> batch_name(seq![joined_path(dir, a), joined_path(other, b)])
            == Seq::<char>::empty(),
        batch_name(Seq::empty()) == Seq::<char>::empty(),
{
    joined_files_are_found(dir, a);
    joined_files_are_found(dir, b);
    joined_files_are_found(other, b);
    let one = seq![joined_path(dir, a), joined_path(dir, b)];
    let two = seq![joined_path(dir, a), joined_path(other, b)];
    assert(one[0] == joined_path(dir, a) && one[1] == joined_path(dir, b));
    assert(two[0] == joined_path(dir, a) && two[1] == joined_path(other, b));
    assert(file_name(parent(one[0])->0) == file_name(dir));
    if !same_path(dir, other) {
        assert(!same_path(parent(two[1])->0, parent(two[0])->0));
    }
}

/// A source is condemned exactly by a row of its own that failed for the source's fault.
pub proof fn only_bad_sources_are_condemned(rows: Seq<VerdictRow>, path: Seq<char>)
    ensures
        condemned(rows).contains(path) <==> exists|i: int|
            0 <= i < rows.len() && (#[trigger] rows[i]).source_path@ == path && rows[i].status@
                == "error"@ && (rows[i].failure_class matches Some(c) && (c@ == "bad_source"@ || c@
                == "bad_source_truncated"@)),
    decreases rows.len(),
{
    if rows.len() > 0 {
        let fewer = rows.drop_last();
        only_bad_sources_are_condemned(fewer, path);
        let before = condemned(fewer);
        let all = condemned(rows);
        if before.contains(path) {
            let k = choose|k: int| 0 <= k < before.len() && before[k] == path;
            assert(all[k] == path);
            let i = choose|i: int|
                0 <= i < fewer.len() && (#[trigger] fewer[i]).source_path@ == path && condemns(
                    fewer[i],
                );
            assert(rows[i] == fewer[i]);
        }
        if condemns(rows.last()) {
            assert(all.last() == rows.last().source_path@);
            assert(rows[rows.len() - 1] == rows.last());
        }
        if all.contains(path) && !before.contains(path) {
            let k = choose|k: int| 0 <= k < all.len() && all[k] == path;
            if k < before.len() {
                assert(before[k] == path);
            }
        }
        assert forall|i: int|
            0 <= i < rows.len() && (#[trigger] rows[i]).source_path@ == path && condemns(
                rows[i],
            ) implies all.contains(path) by {
            if i < fewer.len() {
                assert(fewer[i] == rows[i]);
            }
        }
    }
}

/// The paths that are not flagged are kept, in order, and no others.
pub proof fn unflagged_paths_are_kept(paths: Seq<Seq<char>>, flags: Seq<bool>, i: int)
    requires
        paths.len() <= flags.len(),
        0 <= i < paths.len(),
    ensures
        !flags[i] ==> unflagged(paths, flags).contains(paths[i]),
        unflagged(paths, flags).len() == flags.take(paths.len() as int).filter(
            |f: bool| !f,
        ).len(),
        forall|k: int|
            0 <= k < unflagged(paths, flags).len() ==> exists|j: int|
                0 <= j < paths.len() && !flags[j] && #[trigger] paths[j] == (#[trigger] unflagged(
                    paths,
                    flags,
                )[k]),
    decreases paths.len(),
{
    reveal(Seq::filter);
    let fewer = paths.drop_last();
    let last = paths.len() - 1;
    let out = unflagged(paths, flags);
    let before = unflagged(fewer, flags);
    let some = flags.take(paths.len() as int);
    assert(some.drop_last() =~= flags.take(last));
    assert(some.last() == flags[last]);
    if fewer.len() > 0 {
        unflagged_paths_are_kept(
            fewer,
            flags,
            if i < last {
                i
            } else {
                0
            },
        );
    } else {
        assert(flags.take(0).filter(|f: bool| !f).len() == 0);
    }
    if i < last && !flags[i] {
        let k = choose|k: int| 0 <= k < before.len() && before[k] == fewer[i];
        assert(out[k] == paths[i]);
    }
    if !flags[last] {
        assert(out.last() == paths[last]);
    }
    assert forall|k: int| 0 <= k < out.len() implies exists|j: int|
        0 <= j < paths.len() && !flags[j] && #[trigger] paths[j] == (#[trigger] out[k]) by {
        if k < before.len() {
            assert(out[k] == before[k]);
            let j = choose|j: int|
                0 <= j < fewer.len() && !flags[j] && #[trigger] fewer[j] == before[k];
            assert(paths[j] == out[k]);
        } else {
            assert(paths[last] == out[k]);
        }
    }
}

/// A marker is a plain file name: one with a separator, on a system that has it, or one that stands
/// for a folder keeps nothing out.
pub proof fn markers_are_plain_names(
    rows: Seq<(Seq<char>, Seq<char>)>,
    value: Seq<char>,
    platform: Platform,
)
    ensures
        is_plain_name(value) ==> plain(value),
        marker_of(rows, platform) matches Some(m) ==> value_of(rows, "watch_skip_marker"@)
            == Some(m)
            && m.len() > 0 && !m.contains('/') && (platform == Platform::Windows ==> !m.contains(
            '\\',
        )),
{
    lemma_file_name_plain(value);
    if let Some(m) = marker_of(rows, platform) {
        let s = slashed_path(m, platform);
        lemma_file_name_plain(s);
        if m.contains('/') {
            let i = choose|i: int| 0 <= i < m.len() && m[i] == '/';
            assert(s[i] == '/');
        }
        if platform == Platform::Windows && m.contains('\\') {
            let i = choose|i: int| 0 <= i < m.len() && m[i] == '\\';
            assert(s[i] == '/');
        }
    }
}

/// Where a look tells the truth, a marker keeps a path out exactly where it stands in one of the
/// folders that have a say.
pub proof fn markers_keep_out_where_they_stand<F: Fn(&str) -> bool>(
    configs: Seq<WatchedDirConfig>,
    path: Seq<char>,
    marker: Seq<char>,
    exists_at: F,
    stands: spec_fn(Seq<char>) -> bool,
    marked: bool,
)
    requires
        forall|p: &str, answer: bool|
            call_ensures(exists_at, (p,), answer) ==> answer == stands(p@),
        marker_answer(configs, path, marker, exists_at, marked),
    ensures
        marked <==> exists|i: int|
            0 <= i < marker_dirs(configs, path).len() && stands(
                joined_path(#[trigger] marker_dirs(configs, path)[i], marker),
            ),
{
    let dirs = marker_dirs(configs, path);
    if marked {
        let i = choose|i: int|
            0 <= i < dirs.len()
                && answered(exists_at, joined_path(#[trigger] dirs[i], marker), true);
        assert(stands(joined_path(dirs[i], marker)));
    } else {
        assert forall|i: int| 0 <= i < dirs.len() implies !stands(
            joined_path(#[trigger] dirs[i], marker),
        ) by {
            assert(answered(exists_at, joined_path(dirs[i], marker), false));
        }
    }
}

/// The folders that are to be watched are those that are configured, each in its way.
pub proof fn configured_folders_are_watched(configs: Seq<WatchedDirConfig>, i: int)
    requires
        0 <= i < configs.len(),
    ensures
        watch_list(configs).len() == configs.len(),
        watch_list(configs)[i] == (configs[i].path@, configs[i].recursive),
{
}


} // verus!
