use convertbar::converter::Platform;
use convertbar::paths::with_slashes;
use convertbar::watcher::{
    after_add, batch_label, covered_paths, delay_for_path, diff_watches, drop_known_bad_sources,
    filter_marked, folder_of_marker, folders_with_say, has_active_marker, is_known_bad,
    is_temp_file, is_video_file, marker_removed_dir, purge_pending_uncovered, read_skip_marker,
    reap_pending_once, unpurged_bad_source_paths, valid_marker, wanted_paths, watched_dir,
    AddAction, PendingEntry, PendingFiles, VerdictRow, WatchedDirConfig, WatcherState,
};
use std::cell::RefCell;

const SECOND: u128 = 1_000_000_000;

fn videos() -> Vec<String> {
    ["mp4", "mkv", "avi", "mov"]
        .iter()
        .map(|e| e.to_string())
        .collect()
}

fn waits(pending: &PendingFiles, path: &str) -> bool {
    pending.entries.iter().any(|(p, _)| p == path)
}


fn mtime(secs: i128) -> i128 {
    secs * SECOND as i128
}

#[test]
fn is_temp_file_matches_download_extensions_case_insensitively() {
    assert!(is_temp_file("/d/movie.mp4.part"));
    assert!(is_temp_file("/d/movie.mp4.crdownload"));
    assert!(is_temp_file("/d/movie.mp4.CRDOWNLOAD"));
    assert!(is_temp_file("/d/movie.mp4.download"));
    assert!(is_temp_file("/d/movie.mkv.partial"));
    assert!(is_temp_file("/d/movie.mp4.!ut"));

    assert!(!is_temp_file("/d/movie.mp4"));
    assert!(!is_temp_file("/d/movie.mkv"));
    assert!(!is_temp_file("/d/README"));
}

#[test]
fn observe_reports_stable_only_after_delay_with_no_change() {
    let t0: u128 = 1000 * SECOND;
    let delay = 5 * SECOND;
    let mut entry = PendingEntry::new(100, mtime(10), t0, delay);

    assert!(!entry.observe(100, mtime(10), t0 + 3 * SECOND));
    assert!(entry.observe(100, mtime(10), t0 + 6 * SECOND));
}

#[test]
fn observe_resets_timer_when_size_changes() {
    let t0: u128 = 1000 * SECOND;
    let delay = 5 * SECOND;
    let mut entry = PendingEntry::new(100, mtime(10), t0, delay);

    assert!(!entry.observe(200, mtime(11), t0 + 3 * SECOND));
    assert!(!entry.observe(200, mtime(11), t0 + 7 * SECOND));
    assert!(entry.observe(200, mtime(11), t0 + 9 * SECOND));
}

#[test]
fn observe_resets_timer_when_mtime_changes_even_if_size_is_equal() {
    let t0: u128 = 1000 * SECOND;
    let delay = 5 * SECOND;
    let mut entry = PendingEntry::new(100, mtime(10), t0, delay);

    assert!(!entry.observe(100, mtime(20), t0 + 4 * SECOND));
    assert!(!entry.observe(100, mtime(20), t0 + 8 * SECOND));
    assert!(entry.observe(100, mtime(20), t0 + 10 * SECOND));
}

#[test]
fn reap_pending_once_enqueues_a_settled_file_exactly_once() {
    let t0: u128 = 1000 * SECOND;
    let key = String::from("/watch/done.mp4");
    let mut pending = PendingFiles::new();
    pending.insert(&key, PendingEntry::new(100, mtime(10), t0, 5 * SECOND));

    let stable = reap_pending_once(&mut pending, t0 + 6 * SECOND, |_| {
        Some((100, mtime(10)))
    });
    assert_eq!(stable, vec![key.clone()]);
    assert!(pending.entries.is_empty(), "a settled file is removed from pending");

    let again = reap_pending_once(&mut pending, t0 + 12 * SECOND, |_| {
        Some((100, mtime(10)))
    });
    assert!(again.is_empty());
}

#[test]
fn reap_pending_once_keeps_a_growing_file_pending() {
    let t0: u128 = 1000 * SECOND;
    let key = String::from("/watch/growing.mp4");
    let mut pending = PendingFiles::new();
    pending.insert(&key, PendingEntry::new(100, mtime(10), t0, 5 * SECOND));

    let stable = reap_pending_once(&mut pending, t0 + 6 * SECOND, |_| {
        Some((200, mtime(10)))
    });
    assert!(
        stable.is_empty(),
        "a file that changed this tick is not enqueued"
    );
    assert!(
        waits(&pending, &key),
        "it keeps waiting for stability instead of being dropped"
    );
}

#[test]
fn reap_pending_once_drops_a_vanished_file() {
    let t0: u128 = 1000 * SECOND;
    let key = String::from("/watch/gone.mp4");
    let mut pending = PendingFiles::new();
    pending.insert(&key, PendingEntry::new(100, mtime(10), t0, 5 * SECOND));

    let stable = reap_pending_once(&mut pending, t0 + 6 * SECOND, |_| None);
    assert!(stable.is_empty());
    assert!(pending.entries.is_empty(), "a vanished file stops being tracked");
}

#[test]
fn diff_watches_adds_new_and_removes_gone() {
    let a = String::from("/a");
    let b = String::from("/b");
    let c = String::from("/c");

    let current = vec![(a.clone(), false), (b.clone(), false)];
    let desired = vec![(b.clone(), false), (c.clone(), false)];

    let (to_unwatch, to_watch) = diff_watches(&current, &desired);
    assert_eq!(to_unwatch, vec![a]);
    assert_eq!(to_watch, vec![(c, false)]);
}

#[test]
fn diff_watches_rewatches_when_recursive_mode_flips() {
    let a = String::from("/a");
    let current = vec![(a.clone(), false)];
    let desired = vec![(a.clone(), true)];

    let (to_unwatch, to_watch) = diff_watches(&current, &desired);
    assert_eq!(to_unwatch, vec![a.clone()]);
    assert_eq!(to_watch, vec![(a, true)]);
}

#[test]
fn diff_watches_noop_when_identical() {
    let current = vec![(String::from("/a"), true)];
    let desired = vec![(String::from("/a"), true)];
    let (to_unwatch, to_watch) = diff_watches(&current, &desired);
    assert!(to_unwatch.is_empty());
    assert!(to_watch.is_empty());
}

fn pending_entry() -> PendingEntry {
    PendingEntry::new(
        1,
        0,
        1000 * SECOND,
        1 * SECOND,
    )
}

#[test]
fn purge_pending_uncovered_drops_files_no_desired_config_covers() {
    let mut pending = PendingFiles::new();
    let doomed = String::from("/removed/a.mp4");
    let survivor = String::from("/kept/b.mp4");
    pending.insert(&doomed, pending_entry());
    pending.insert(&survivor, pending_entry());

    purge_pending_uncovered(&mut pending, &vec![config("/kept", false, 1)], &videos());

    assert!(
        !waits(&pending, &doomed),
        "a file under no desired watch is dropped"
    );
    assert!(
        waits(&pending, &survivor),
        "a file under a still-desired watch keeps stabilizing"
    );
}

#[test]
fn purge_pending_uncovered_retains_files_under_a_still_active_nested_watch() {
    let mut pending = PendingFiles::new();
    let nested = String::from("/w/sub/c.mp4");
    pending.insert(&nested, pending_entry());

    purge_pending_uncovered(&mut pending, &vec![config("/w/sub", true, 1)], &videos());

    assert!(
        waits(&pending, &nested),
        "a file under the still-active nested watch survives removal of the enclosing watch"
    );
}

#[test]
fn covered_paths_keeps_only_files_under_a_current_watch() {
    let configs = vec![config("/watch", true, 5)];
    let kept = covered_paths(
        &configs,
        &vec!["/watch/keep.mp4".to_string(), "/gone/drop.mp4".to_string()],
        &videos(),
    );
    assert_eq!(kept, vec!["/watch/keep.mp4".to_string()]);
}

fn config(path: &str, recursive: bool, delay_secs: u128) -> WatchedDirConfig {
    WatchedDirConfig {
        path: String::from(path),
        recursive,
        delay: delay_secs * SECOND,
    }
}

#[test]
fn delay_for_path_matches_top_level_video_and_returns_its_delay() {
    let configs = vec![config("/watch", false, 7)];
    assert_eq!(
        delay_for_path(&configs, "/watch/movie.mp4", &videos()),
        Some(7 * SECOND)
    );
}

#[test]
fn delay_for_path_ignores_subfolders_unless_recursive() {
    let nonrec = vec![config("/watch", false, 5)];
    assert_eq!(
        delay_for_path(&nonrec, "/watch/sub/movie.mp4", &videos()),
        None
    );

    let rec = vec![config("/watch", true, 5)];
    assert_eq!(
        delay_for_path(&rec, "/watch/sub/movie.mp4", &videos()),
        Some(5 * SECOND)
    );
}

#[test]
fn delay_for_path_ignores_temp_and_non_video_files() {
    let configs = vec![config("/watch", true, 5)];
    assert_eq!(
        delay_for_path(&configs, "/watch/movie.mp4.part", &videos()),
        None
    );
    assert_eq!(
        delay_for_path(&configs, "/watch/notes.txt", &videos()),
        None
    );
}

#[test]
fn delay_for_path_ignores_paths_outside_every_watched_dir() {
    let configs = vec![config("/watch", true, 5)];
    assert_eq!(
        delay_for_path(&configs, "/elsewhere/movie.mp4", &videos()),
        None
    );
}

fn present(paths: &'static [&'static str]) -> impl Fn(&str) -> bool {
    move |p: &str| paths.contains(&p)
}

#[test]
fn has_active_marker_true_when_marker_in_files_own_dir() {
    let configs = vec![config("/watch", true, 5)];
    assert!(has_active_marker(
        &configs,
        "/watch/sub/movie.mp4",
        ".downloading",
        present(&["/watch/sub/.downloading"]),
    ));
}

#[test]
fn has_active_marker_true_when_marker_in_parent_subfolder() {
    let configs = vec![config("/watch", true, 5)];
    assert!(has_active_marker(
        &configs,
        "/watch/sub/deeper/movie.mp4",
        ".downloading",
        present(&["/watch/sub/.downloading"]),
    ));
}

#[test]
fn has_active_marker_true_when_marker_at_watched_root() {
    let configs = vec![config("/watch", true, 5)];
    assert!(has_active_marker(
        &configs,
        "/watch/sub/movie.mp4",
        ".downloading",
        present(&["/watch/.downloading"]),
    ));
}

#[test]
fn has_active_marker_false_without_any_marker() {
    let configs = vec![config("/watch", true, 5)];
    assert!(!has_active_marker(
        &configs,
        "/watch/sub/movie.mp4",
        ".downloading",
        |_| false,
    ));
}

#[test]
fn has_active_marker_stops_at_watched_root_and_ignores_markers_above_it() {
    let configs = vec![config("/watch", true, 5)];
    assert!(!has_active_marker(
        &configs,
        "/watch/movie.mp4",
        ".downloading",
        present(&["/.downloading"]),
    ));
}

#[test]
fn has_active_marker_false_for_path_outside_watched_dirs() {
    let configs = vec![config("/watch", true, 5)];
    assert!(!has_active_marker(
        &configs,
        "/elsewhere/movie.mp4",
        ".downloading",
        |_| true,
    ));
}

#[test]
fn marker_removed_dir_none_when_filename_is_not_the_marker() {
    let configs = vec![config("/watch", true, 5)];
    assert_eq!(
        marker_removed_dir(
            &configs,
            "/watch/movie.mp4",
            ".downloading",
            |_| false
        ),
        None
    );
}

#[test]
fn marker_removed_dir_returns_subtree_when_deleted_in_recursive_subfolder() {
    let configs = vec![config("/watch", true, 5)];
    assert_eq!(
        marker_removed_dir(
            &configs,
            "/watch/sub/.downloading",
            ".downloading",
            |_| false
        ),
        Some((String::from("/watch/sub"), true))
    );
}

#[test]
fn marker_removed_dir_none_when_marker_still_present() {
    let configs = vec![config("/watch", true, 5)];
    assert_eq!(
        marker_removed_dir(
            &configs,
            "/watch/sub/.downloading",
            ".downloading",
            |_| true
        ),
        None
    );
}

#[test]
fn marker_removed_dir_handles_non_recursive_root_marker() {
    let configs = vec![config("/watch", false, 5)];
    assert_eq!(
        marker_removed_dir(
            &configs,
            "/watch/.downloading",
            ".downloading",
            |_| false
        ),
        Some((String::from("/watch"), false))
    );
}

#[test]
fn marker_removed_dir_none_for_non_recursive_subfolder_marker() {
    let configs = vec![config("/watch", false, 5)];
    assert_eq!(
        marker_removed_dir(
            &configs,
            "/watch/sub/.downloading",
            ".downloading",
            |_| false
        ),
        None
    );
}

#[test]
fn marker_removed_dir_none_outside_watched_dirs() {
    let configs = vec![config("/watch", true, 5)];
    assert_eq!(
        marker_removed_dir(
            &configs,
            "/elsewhere/.downloading",
            ".downloading",
            |_| false
        ),
        None
    );
}

#[test]
fn valid_marker_accepts_plain_filenames() {
    assert_eq!(
        valid_marker(".downloading"),
        Some(".downloading".to_string())
    );
    assert_eq!(valid_marker("in-progress"), Some("in-progress".to_string()));
}

#[test]
fn valid_marker_rejects_empty_separators_and_dot_paths() {
    assert_eq!(valid_marker(""), None);
    assert_eq!(valid_marker("sub/.downloading"), None);
    assert_eq!(valid_marker(".downloading/"), None);
    assert_eq!(valid_marker(".."), None);
    assert_eq!(valid_marker("."), None);
}

#[test]
fn batch_label_names_a_single_dir_batch_and_empties_a_mixed_one() {
    assert_eq!(
        batch_label(&vec!["/movies/SEOA/a.mp4".into(), "/movies/SEOA/b.mp4".into()]),
        "SEOA",
        "all-same-parent batch takes the parent's basename"
    );
    assert_eq!(
        batch_label(&vec!["/movies/SEOA/a.mp4".into(), "/movies/Other/b.mp4".into()]),
        "",
        "a multi-directory batch has no single name"
    );
    assert_eq!(batch_label(&vec![]), "", "empty batch → empty label");
}


#[test]
fn drop_known_bad_sources_removes_only_paths_in_the_bad_set() {
    let bad = vec!["/w/corrupt.mkv".to_string()];
    let paths = vec!["/w/corrupt.mkv".to_string(), "/w/healthy.mkv".to_string()];
    assert_eq!(
        drop_known_bad_sources(&bad, &paths),
        vec!["/w/healthy.mkv".to_string()],
        "only the path with an unpurged bad-source verdict is dropped"
    );
}

#[test]
fn unpurged_bad_source_paths_matches_the_bad_sources_review_lists_query() {
    let rows: Vec<VerdictRow> = [
        ("/w/bad.mkv", "error", Some("bad_source")),
        ("/w/trunc.mkv", "error", Some("bad_source_truncated")),
        ("/w/env.mkv", "error", Some("environment")),
        ("/w/purged.mkv", "error", Some("bad_source_purged")),
        ("/w/done.mkv", "done", Some("bad_source")),
    ]
    .into_iter()
    .map(|(source_path, status, class)| VerdictRow {
        source_path: source_path.to_string(),
        status: status.to_string(),
        failure_class: class.map(|c| c.to_string()),
    })
    .collect();
    assert_eq!(
        unpurged_bad_source_paths(&rows),
        vec!["/w/bad.mkv".to_string(), "/w/trunc.mkv".to_string()],
        "only unpurged bad_source/bad_source_truncated rows must be treated as known-bad"
    );
    assert!(is_known_bad(&rows[0]));
    assert!(!is_known_bad(&rows[3]));
}

#[test]
fn a_file_is_a_video_by_its_extension() {
    assert!(is_video_file("/m/A.MP4", &videos()));
    assert!(!is_video_file("/m/a.txt", &videos()));
    assert!(!is_video_file("/m/mp4", &videos()));
    assert_eq!(
        wanted_paths(
            &vec![
                "/m/a.mp4".to_string(),
                "/m/a.mp4.part".to_string(),
                "/m/b.txt".to_string()
            ],
            &videos()
        ),
        vec!["/m/a.mp4".to_string()]
    );
}

#[test]
fn files_below_a_marker_are_held_back() {
    let configs = vec![config("/watch", true, 5)];
    let exists = present(&["/watch/sub/.downloading"]);
    assert_eq!(
        filter_marked(
            &configs,
            ".downloading",
            &vec!["/watch/a.mp4".to_string(), "/watch/sub/b.mp4".to_string()],
            &exists
        ),
        vec!["/watch/a.mp4".to_string()]
    );
    assert_eq!(
        folders_with_say(&configs, "/watch/sub/b.mp4"),
        vec!["/watch/sub".to_string(), "/watch".to_string()]
    );
    assert_eq!(
        folder_of_marker(&configs, "/watch/sub/.downloading", ".downloading"),
        Some(("/watch/sub".to_string(), true))
    );
}

#[test]
fn a_watcher_follows_its_folders() {
    let mut state = WatcherState::new();
    let (gone, new) = state.reconcile(
        vec![watched_dir("/watch".to_string(), true, 5)],
        Some(".downloading".to_string()),
        &videos(),
    );
    assert!(gone.is_empty());
    assert_eq!(new, vec![("/watch".to_string(), true)]);

    assert_eq!(
        state.on_event("/watch/a.mp4", true, Some((10, 20)), 0, &videos()),
        None
    );
    assert!(waits(&state.pending, "/watch/a.mp4"));
    assert_eq!(
        state.on_event("/watch/sub/.downloading", false, None, 1, &videos()),
        Some(("/watch/sub".to_string(), true))
    );
    assert_eq!(
        state.on_event("/watch/sub/.downloading", true, None, 1, &videos()),
        None
    );

    let found = vec![
        "/watch/a.mp4".to_string(),
        "/watch/bad.mp4".to_string(),
        "/watch/sub/b.mp4".to_string(),
        "/other/c.mp4".to_string(),
    ];
    assert_eq!(
        state.intake(
            &found,
            &vec!["/watch/bad.mp4".to_string()],
            &videos(),
            &present(&["/watch/sub/.downloading"])
        ),
        vec!["/watch/a.mp4".to_string()]
    );

    let (gone, new) = state.reconcile(Vec::new(), None, &videos());
    assert_eq!(gone, vec!["/watch".to_string()]);
    assert!(new.is_empty());
    assert!(state.pending.entries.is_empty());
}

#[test]
fn a_delay_is_a_second_at_least() {
    assert_eq!(watched_dir("/w".to_string(), false, -3).delay, SECOND);
    assert_eq!(watched_dir("/w".to_string(), false, 5).delay, 5 * SECOND);
}

#[test]
fn added_files_start_the_queue_unless_an_install_runs() {
    assert_eq!(after_add(0, false), AddAction::Nothing);
    assert_eq!(after_add(2, false), AddAction::StartQueue);
    assert_eq!(after_add(2, true), AddAction::ShowQueue);
}

#[test]
fn a_file_is_pending_once() {
    let mut pending = PendingFiles::new();
    pending.insert("/w/a.mp4", PendingEntry::new(1, 0, 0, SECOND));
    pending.insert("/w/a.mp4", PendingEntry::new(2, 0, 0, SECOND));
    assert_eq!(pending.entries.len(), 1);
    assert_eq!(pending.entries[0].1.size, 2);
}

#[test]
fn a_marker_above_a_watched_folder_says_nothing_of_the_folder_itself() {
    let configs = vec![config("/watch", true, 5)];
    assert!(!has_active_marker(
        &configs,
        "/watch",
        ".downloading",
        |p: &str| p == "/.downloading"
    ));
    assert_eq!(folders_with_say(&configs, "/watch"), Vec::<String>::new());
    assert_eq!(
        folders_with_say(&configs, "/watch/a/b.mp4"),
        vec!["/watch/a".to_string(), "/watch".to_string()]
    );
}

#[test]
fn a_backslash_separates_on_windows_only() {
    let rows = vec![("watch_skip_marker".to_string(), "a\\b".to_string())];
    assert_eq!(read_skip_marker(&rows, Platform::Windows), None);
    assert_eq!(
        read_skip_marker(&rows, Platform::Linux).as_deref(),
        Some("a\\b")
    );
    let rows = vec![("watch_skip_marker".to_string(), ".busy".to_string())];
    assert_eq!(
        read_skip_marker(&rows, Platform::Windows).as_deref(),
        Some(".busy")
    );
    assert_eq!(read_skip_marker(&Vec::new(), Platform::Linux), None);
    assert_eq!(with_slashes("C:\\m\\a.mp4", Platform::Windows), "C:/m/a.mp4");
    assert_eq!(with_slashes("/m/a\\b.mp4", Platform::Macos), "/m/a\\b.mp4");
}

#[test]
fn a_marker_is_looked_for_nowhere_but_in_the_folders_with_a_say() {
    let looks = RefCell::new(Vec::new());
    let marked = has_active_marker(
        &vec![config("/watch", true, 5)],
        "/watch/a/b.mp4",
        ".busy",
        |p: &str| {
            looks.borrow_mut().push(p.to_string());
            false
        },
    );
    assert!(!marked);
    assert_eq!(
        looks.into_inner(),
        vec!["/watch/a/.busy".to_string(), "/watch/.busy".to_string()]
    );
}
