use convertbar::converter::Platform;
use convertbar::db::{
    completed_at, default_preset, default_settings, init_settings, init_suffixes, read_setting,
    seed_fresh_install_defaults, write_setting,
};
use convertbar::startup::{
    boot, is_dropped, launch, normalize_server_setting, normalize_server_settings, recovery,
    remember_pause, should_auto_resume, should_resume_queue_at_launch, Recovery,
};
use convertbar::types::JobInfo;

const PLATFORMS: [Platform; 3] = [Platform::Macos, Platform::Windows, Platform::Linux];

fn pairs(rows: &[(&str, &str)]) -> Vec<(String, String)> {
    rows.iter()
        .map(|(k, v)| (k.to_string(), v.to_string()))
        .collect()
}

fn setting(rows: &Vec<(String, String)>, key: &str) -> Option<String> {
    read_setting(rows, key)
}

fn job(id: &str, status: &str) -> JobInfo {
    JobInfo {
        id: id.to_string(),
        source_path: format!("/tmp/{id}-src.mp4"),
        output_path: format!("/tmp/{id}-out.mp4"),
        preset: "Fast 1080p30".to_string(),
        status: status.to_string(),
        original_size: None,
        converted_size: None,
        kept_file: None,
        space_saved: None,
        error_message: None,
        queue_order: 0,
        created_at: "2020-01-01T00:00:00Z".to_string(),
        completed_at: None,
    }
}

#[test]
fn init_db_seeds_defaults() {
    for platform in PLATFORMS {
        let rows = init_settings(&Vec::new(), platform);
        assert_eq!(rows.len(), 15);
        assert_eq!(setting(&rows, "cleanup_mode").as_deref(), Some("trash"));
        assert_eq!(setting(&rows, "launch_at_login").as_deref(), Some("false"));
        assert_eq!(
            setting(&rows, "skip_already_converted").as_deref(),
            Some("false")
        );
        assert_eq!(
            setting(&rows, "skip_by_source_media").as_deref(),
            Some("false"),
            "skip-by-source-media defaults OFF — it shells out to HandBrake per file, so it is opt-in"
        );
        assert_eq!(
            setting(&rows, "watch_skip_marker").as_deref(),
            Some(".downloading"),
            "watched folders skip files while this marker exists; empty disables the feature"
        );
        assert_eq!(
            setting(&rows, "notifications_per_file").as_deref(),
            Some("true")
        );
        assert_eq!(
            setting(&rows, "preset").as_deref(),
            Some(default_preset(platform))
        );
        let suffixes = init_suffixes(&Vec::new(), platform);
        assert_eq!(
            read_setting(&suffixes, default_preset(platform)).as_deref(),
            Some(".{resolution}-{codec}")
        );
    }
}

#[test]
fn init_db_is_idempotent_and_preserves_user_changes() {
    for platform in PLATFORMS {
        let mut rows = init_settings(&Vec::new(), platform);
        write_setting(&mut rows, "cleanup_mode", "delete");
        let rows = init_settings(&rows, platform);
        assert_eq!(setting(&rows, "cleanup_mode").as_deref(), Some("delete"));
        assert_eq!(rows.len(), 15);
    }
}

#[test]
fn init_db_repairs_the_invalid_pre_0_13_1_linux_default_preset() {
    let mut rows = init_settings(&Vec::new(), Platform::Linux);
    write_setting(&mut rows, "preset", "H.265 MKV 1080p");
    let suffixes = pairs(&[("H.265 MKV 1080p", ".{resolution}-{codec}")]);
    let rows = init_settings(&rows, Platform::Linux);
    let suffixes = init_suffixes(&suffixes, Platform::Linux);
    assert_eq!(
        setting(&rows, "preset").as_deref(),
        Some("H.265 MKV 1080p30"),
        "restart must repair the stored preset name or Linux default conversions keep failing"
    );
    assert_eq!(
        read_setting(&suffixes, "H.265 MKV 1080p30").as_deref(),
        Some(".{resolution}-{codec}"),
        "the user's suffix template must follow the renamed preset"
    );
}

#[test]
fn init_db_repair_leaves_a_user_chosen_preset_alone() {
    let mut rows = init_settings(&Vec::new(), Platform::Linux);
    write_setting(&mut rows, "preset", "H.264 MKV 720p30");
    let rows = init_settings(&rows, Platform::Linux);
    assert_eq!(
        setting(&rows, "preset").as_deref(),
        Some("H.264 MKV 720p30")
    );
}

#[test]
fn init_db_backfills_error_rows_missing_completed_at() {
    assert_eq!(
        completed_at("error", None, &"2020-01-01T00:00:00Z".to_string()).as_deref(),
        Some("2020-01-01T00:00:00Z")
    );
    assert_eq!(
        completed_at(
            "error",
            Some("2020-03-01T00:00:00Z".to_string()),
            &"2020-02-01T00:00:00Z".to_string()
        )
        .as_deref(),
        Some("2020-03-01T00:00:00Z")
    );
    assert_eq!(
        completed_at("queued", None, &"2020-04-01T00:00:00Z".to_string()),
        None
    );
}

#[test]
fn seed_fresh_install_defaults_only_primes_a_fresh_install() {
    let mut fresh: Vec<(String, String)> = Vec::new();
    seed_fresh_install_defaults(&mut fresh, true);
    assert_eq!(setting(&fresh, "encode_priority").as_deref(), Some("low"));

    let mut existing: Vec<(String, String)> = Vec::new();
    seed_fresh_install_defaults(&mut existing, false);
    assert_eq!(setting(&existing, "encode_priority"), None);

    let mut existing_with_normal = pairs(&[("encode_priority", "normal")]);
    seed_fresh_install_defaults(&mut existing_with_normal, false);
    assert_eq!(
        setting(&existing_with_normal, "encode_priority").as_deref(),
        Some("normal")
    );
}

#[test]
fn a_written_setting_is_read_back() {
    let mut rows = default_settings(Platform::Macos);
    write_setting(&mut rows, "preset", "Fast 1080p30");
    write_setting(&mut rows, "new", "1");
    assert_eq!(setting(&rows, "preset").as_deref(), Some("Fast 1080p30"));
    assert_eq!(setting(&rows, "new").as_deref(), Some("1"));
    assert_eq!(setting(&rows, "cleanup_mode").as_deref(), Some("trash"));
    assert_eq!(rows.len(), 16);
}

#[test]
fn normalize_flips_trash_to_delete_for_both_keys() {
    let mut rows = init_settings(&Vec::new(), Platform::Linux);
    write_setting(&mut rows, "cleanup_mode", "trash");
    write_setting(&mut rows, "bad_source_action", "trash");
    normalize_server_settings(&mut rows);
    assert_eq!(setting(&rows, "cleanup_mode").as_deref(), Some("delete"));
    assert_eq!(
        setting(&rows, "bad_source_action").as_deref(),
        Some("delete")
    );
}

#[test]
fn normalize_leaves_delete_untouched() {
    let mut rows = init_settings(&Vec::new(), Platform::Linux);
    write_setting(&mut rows, "cleanup_mode", "delete");
    write_setting(&mut rows, "bad_source_action", "delete");
    normalize_server_settings(&mut rows);
    assert_eq!(setting(&rows, "cleanup_mode").as_deref(), Some("delete"));
    assert_eq!(
        setting(&rows, "bad_source_action").as_deref(),
        Some("delete")
    );
}

#[test]
fn only_the_two_settings_are_put_right() {
    assert_eq!(normalize_server_setting("cleanup_mode", "trash"), Some("delete"));
    assert_eq!(normalize_server_setting("cleanup_mode", "keep"), None);
    assert_eq!(normalize_server_setting("preset", "trash"), None);
}

#[test]
fn boot_resets_interrupted_jobs_to_queued() {
    let jobs = vec![job("j1", "encoding")];
    let plan = boot(&jobs, &pairs(&[("queue_paused", "true")]));
    assert_eq!(plan.recoveries, vec![Recovery::RequeueAndRemoveOutput]);
    assert!(
        !plan.resume,
        "queue_paused=true must not trigger auto-resume"
    );
}

#[test]
fn boot_does_not_auto_resume_when_queue_is_paused() {
    let plan = boot(&vec![job("j1", "queued")], &pairs(&[("queue_paused", "true")]));
    assert!(!plan.resume);
}

#[test]
fn boot_does_not_auto_resume_when_nothing_is_queued() {
    assert!(!boot(&Vec::new(), &Vec::new()).resume);
}

#[test]
fn boot_auto_resume_inputs_indicate_resume_is_warranted() {
    let plan = boot(&vec![job("j1", "queued")], &Vec::new());
    assert!(plan.resume);
    assert!(should_auto_resume(true, false));
}

#[test]
fn a_start_never_removes_a_source() {
    let mut in_place = job("j1", "encoding");
    in_place.output_path = in_place.source_path.clone();
    assert_eq!(recovery(&in_place), Recovery::Requeue);
    assert_eq!(recovery(&job("j2", "paused")), Recovery::RequeueAndRemoveOutput);
    for status in ["queued", "done", "error", "skipped"] {
        assert_eq!(recovery(&job("j3", status)), Recovery::Leave);
    }
}

#[test]
fn in_place_jobs_are_dropped_where_both_files_are_kept() {
    let mut in_place = job("j1", "queued");
    in_place.output_path = in_place.source_path.clone();
    assert!(is_dropped(&in_place, "keep"));
    assert!(!is_dropped(&in_place, "trash"));
    assert!(!is_dropped(&job("j2", "queued"), "keep"));
    in_place.status = "done".to_string();
    assert!(!is_dropped(&in_place, "keep"));
}

#[test]
fn a_job_that_was_dropped_does_not_start_the_queue() {
    let mut in_place = job("j1", "encoding");
    in_place.output_path = in_place.source_path.clone();
    let plan = launch(&vec![in_place.clone()], "keep", &mut Vec::new());
    assert_eq!(plan.recoveries, vec![Recovery::Requeue]);
    assert_eq!(plan.dropped, vec![true]);
    assert!(!plan.resume);
    let plan = launch(
        &vec![in_place.clone(), job("j2", "queued")],
        "keep",
        &mut Vec::new(),
    );
    assert_eq!(plan.dropped, vec![true, false]);
    assert!(plan.resume);
    assert!(launch(&vec![in_place.clone()], "delete", &mut Vec::new()).resume);
    let mut rows = vec![("queue_paused".to_string(), "true".to_string())];
    assert!(!launch(&vec![in_place], "delete", &mut rows).resume);
    assert_eq!(rows.len(), 1, "a pause of the user's is honoured and kept");
}

#[test]
fn a_pause_that_the_updater_caused_is_lifted_once() {
    let jobs = vec![job("j1", "queued")];
    let mut rows: Vec<(String, String)> = Vec::new();
    remember_pause(&mut rows, true, true);
    assert!(launch(&jobs, "delete", &mut rows).resume);
    assert_eq!(read_setting(&rows, "queue_paused").as_deref(), Some("false"));
    assert_eq!(
        read_setting(&rows, "queue_paused_by_update").as_deref(),
        Some("false")
    );
    remember_pause(&mut rows, true, false);
    assert!(!launch(&jobs, "delete", &mut rows).resume);
    assert!(!launch(&jobs, "delete", &mut rows).resume);
    remember_pause(&mut rows, true, true);
    assert!(
        !should_resume_queue_at_launch(&mut rows, false),
        "without jobs nothing starts"
    );
    assert!(should_resume_queue_at_launch(&mut rows, true));
}
