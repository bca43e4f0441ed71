use convertbar::converter::{
    claim_queue_slot, decide_cleanup, final_run_status, format_bytes_short, has_enough_disk,
    in_place_action, in_place_apply_is_fatal, in_place_temp_path, is_in_place,
    required_free_bytes, take_pause_after_current, ConverterState, InPlaceAction, KeptFile,
    Platform, IN_PLACE_TEMP_MARKER,
};
use convertbar::watcher::is_video_file;

#[test]
fn take_pause_after_current_consumes_the_flag_exactly_once() {
    let mut state = ConverterState::new();
    assert!(!take_pause_after_current(&mut state));
    state.pause_after_current = true;
    assert!(take_pause_after_current(&mut state));
    assert!(
        !take_pause_after_current(&mut state),
        "pause-after-current must fire once, then re-arm to off"
    );
}

#[test]
fn final_run_status_is_error_only_when_a_job_failed() {
    assert_eq!(final_run_status(false), "idle");
    assert_eq!(final_run_status(true), "error");
}

#[test]
fn required_free_bytes_adds_double_the_source_to_the_floor() {
    assert_eq!(required_free_bytes(1000, 500), 1000 + 1000);
    assert_eq!(required_free_bytes(1000, 0), 1000);
}

#[test]
fn required_free_bytes_saturates_instead_of_wrapping() {
    assert_eq!(required_free_bytes(u64::MAX, 10), u64::MAX);
    assert_eq!(required_free_bytes(10, u64::MAX), u64::MAX);
}

#[test]
fn has_enough_disk_is_true_only_at_or_above_the_requirement() {
    assert!(has_enough_disk(2000, 1000, 500));
    assert!(has_enough_disk(2001, 1000, 500));
    assert!(!has_enough_disk(1999, 1000, 500));
}

#[test]
fn is_pause_after_current_reflects_the_backend_flag() {
    let mut state = ConverterState::new();
    assert!(!state.is_pause_after_current());
    state.pause_after_current = true;
    assert!(state.is_pause_after_current());
}

#[test]
fn kill_active_child_arms_shutdown_so_the_queue_spawns_no_new_jobs() {
    let mut state = ConverterState::new();
    assert!(!state.is_shutting_down());
    assert_eq!(state.begin_shutdown(), None);
    assert!(state.is_shutting_down());
}

#[test]
fn a_shutdown_names_the_process_to_be_woken() {
    let mut state = ConverterState::new();
    state.current_pid = Some(42);
    assert_eq!(state.begin_shutdown(), Some(42));
    assert!(state.is_shutting_down());
}

#[test]
fn format_bytes_short_picks_units() {
    assert_eq!(format_bytes_short(0), "0B");
    assert_eq!(format_bytes_short(1024), "1KB");
    assert_eq!(format_bytes_short(1_048_576), "1MB");
    assert_eq!(format_bytes_short(1_073_741_824), "1.0GB");
}

#[test]
fn short_sizes_are_rounded_like_doubles() {
    let gib = 1_073_741_824.0f64;
    let sizes: [i64; 18] = [
        1, 1023, 1025, 1535, 1536, 1537, 2560, 1_048_575, 1_572_864, 2_621_440, 1_073_741_823,
        1_127_428_915, 1_181_116_006, 1_342_177_280, 5_368_709_120, 123_456_789_012,
        9_007_199_254_740_993, i64::MAX,
    ];
    for n in sizes {
        for signed in [n, -n] {
            let a = signed.unsigned_abs() as f64;
            let want = if a >= gib {
                format!("{:.1}GB", a / gib)
            } else if a >= 1_048_576.0 {
                format!("{:.0}MB", a / 1_048_576.0)
            } else if a >= 1024.0 {
                format!("{:.0}KB", a / 1024.0)
            } else {
                format!("{}B", signed.unsigned_abs())
            };
            assert_eq!(format_bytes_short(signed), want, "{signed}");
        }
    }
    assert_eq!(format_bytes_short(i64::MIN), "8589934592.0GB");
}

#[test]
fn decide_cleanup_matrix() {
    let cases = [
        (1000i64, 600i64, KeptFile::Converted, 400i64, "done"),
        (1000, 1500, KeptFile::Original, -500, "skipped"),
        (1000, 1000, KeptFile::Original, 0, "skipped"),
        (1000, 0, KeptFile::Neither, 0, "done"),
        (0, 0, KeptFile::Neither, 0, "skipped"),
    ];
    for (orig, conv, want_kept, want_saved, want_status) in cases {
        let (kept, saved, status) = decide_cleanup(orig, conv);
        assert_eq!(kept, want_kept, "kept for ({orig}, {conv})");
        assert_eq!(saved, want_saved, "space_saved for ({orig}, {conv})");
        assert_eq!(status, want_status, "status for ({orig}, {conv})");
    }
}

#[test]
fn is_in_place_only_when_paths_match() {
    assert!(is_in_place("/m/clip.mp4", "/m/clip.mp4"));
    assert!(!is_in_place("/m/clip.mkv", "/m/clip.mp4"));
    assert!(!is_in_place("/m/clip.mp4", "/m/clip-conv.mp4"));
}

#[test]
fn is_in_place_matches_add_time_path_normalization() {
    assert!(is_in_place("/movies//clip.mp4", "/movies/clip.mp4"));
    assert!(is_in_place("/movies/./clip.mp4", "/movies/clip.mp4"));
    assert!(!is_in_place("/movies/clip.mp4", "/movies/other.mp4"));
}

#[test]
fn in_place_temp_path_is_marked_hidden_sibling() {
    let temp = in_place_temp_path("/movies/clip.mp4");
    assert_eq!(temp, "/movies/.clip.convertbar-tmp.mp4");
    assert!(temp.contains(IN_PLACE_TEMP_MARKER));
}

#[test]
fn in_place_action_maps_decision_to_filesystem_op() {
    assert_eq!(
        in_place_action(KeptFile::Converted, "delete"),
        InPlaceAction::RenameTempOverSource
    );
    assert_eq!(
        in_place_action(KeptFile::Converted, "trash"),
        InPlaceAction::TrashSourceThenRename
    );
    assert_eq!(
        in_place_action(KeptFile::Original, "delete"),
        InPlaceAction::RemoveTemp
    );
    assert_eq!(
        in_place_action(KeptFile::Neither, "trash"),
        InPlaceAction::RemoveTemp
    );
}

#[test]
fn keeping_both_files_never_replaces_the_source() {
    assert_eq!(
        in_place_action(KeptFile::Converted, "keep"),
        InPlaceAction::RemoveTemp
    );
}

#[test]
fn in_place_apply_is_fatal_only_for_failed_rename() {
    assert!(in_place_apply_is_fatal(KeptFile::Converted, true));
    assert!(!in_place_apply_is_fatal(KeptFile::Converted, false));
    assert!(!in_place_apply_is_fatal(KeptFile::Original, true));
    assert!(!in_place_apply_is_fatal(KeptFile::Neither, true));
}

#[test]
fn one_run_and_one_install_at_a_time() {
    let mut state = ConverterState::new();
    assert!(claim_queue_slot(&mut state));
    assert!(!claim_queue_slot(&mut state));
    assert!(!state.claim_install());
    state.end_run();
    assert!(state.claim_install());
    assert!(!claim_queue_slot(&mut state));
    state.end_install();
    assert!(claim_queue_slot(&mut state));
}

#[test]
fn processes_can_be_paused_on_one_system() {
    assert!(ConverterState::can_pause_process(Platform::Macos));
    assert!(!ConverterState::can_pause_process(Platform::Linux));
    assert!(!ConverterState::can_pause_process(Platform::Windows));
}

#[test]
fn an_in_place_encode_never_writes_onto_its_source() {
    for source in [
        "/movies/clip.mp4",
        "clip",
        "/",
        "..",
        "",
        "/movies/.clip.convertbar-tmp.mp4",
        "/a/b/",
    ] {
        let temp = in_place_temp_path(source);
        assert!(!is_in_place(source, &temp), "{source} {temp}");
        assert!(!is_video_file(&temp, &vec!["mp4".to_string()]), "{temp}");
    }
}
