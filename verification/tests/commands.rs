use convertbar::add_progress::{AddEvent, AddOp};
use convertbar::commands::{
    core_err, get_platform_capabilities, join_err, key_for, panic_message, read_command_hooks,
    setting_effect, task_failure, update_setting, write_command_hook, CommandError, SettingEffect,
    TaskEnd,
};
use convertbar::converter::Platform;
use convertbar::db::{init_settings, read_setting};
use convertbar::updater::UpdateMode;

#[test]
fn set_and_get_round_trip_both_triggers() {
    let mut rows = init_settings(&Vec::new(), Platform::Linux);
    write_command_hook(&mut rows, "post_convert", "/a.sh").unwrap();
    write_command_hook(&mut rows, "queue_drained", "/b.sh").unwrap();
    let hooks = read_command_hooks(&rows);
    assert_eq!(hooks.post_convert, "/a.sh");
    assert_eq!(hooks.queue_drained, "/b.sh");
}

#[test]
fn an_unknown_trigger_is_rejected() {
    let mut rows = init_settings(&Vec::new(), Platform::Linux);
    let before = rows.clone();
    assert!(write_command_hook(&mut rows, "preset", "Fast 1080p30").is_err());
    assert!(write_command_hook(&mut rows, "../../etc", "x").is_err());
    assert_eq!(rows, before);
    let err = key_for("preset").unwrap_err();
    assert_eq!(err.error, "unknown hook trigger: preset");
    assert_eq!(err.kind, None);
}

#[test]
fn hooks_that_were_never_set_are_empty() {
    let hooks = read_command_hooks(&init_settings(&Vec::new(), Platform::Linux));
    assert_eq!((hooks.post_convert.as_str(), hooks.queue_drained.as_str()), ("", ""));
}

#[test]
fn a_hook_leaves_the_other_settings_alone() {
    let mut rows = init_settings(&Vec::new(), Platform::Linux);
    let preset = read_setting(&rows, "preset");
    write_command_hook(&mut rows, "post_convert", "/a.sh").unwrap();
    assert_eq!(read_setting(&rows, "preset"), preset);
    assert_eq!(
        read_setting(&rows, "post_convert_command"),
        Some("/a.sh".to_string())
    );
}

#[test]
fn a_deliberate_failure_and_a_panic_are_told_apart_by_kind() {
    let deliberate = CommandError::failed("HandBrakeCLI not found".to_string());
    assert_eq!(deliberate.error, "HandBrakeCLI not found");
    assert_eq!(
        deliberate.kind, None,
        "a failure the backend means must carry no discriminator at all"
    );
    let panicked = CommandError::panicked(Some("boom"));
    assert_eq!(panicked.error, "task panicked: boom");
    assert_eq!(panicked.kind, Some("panic"));
}

#[test]
fn a_formatted_panic_keeps_its_message() {
    let detail = format!("{} went wrong", "something");
    assert_eq!(
        CommandError::panicked(Some(&detail)).error,
        "task panicked: something went wrong"
    );
}

#[test]
fn a_panic_without_words_is_named() {
    assert_eq!(
        panic_message(None),
        "task panicked: a non-string panic payload"
    );
}

#[test]
fn tasks_that_did_not_end_well_are_told_apart() {
    assert_eq!(
        task_failure(&TaskEnd::Panicked(Some("boom".to_string()))),
        "task panicked: boom"
    );
    assert_eq!(
        task_failure(&TaskEnd::Panicked(None)),
        "task panicked: a non-string panic payload"
    );
    assert_eq!(task_failure(&TaskEnd::Cancelled), "task was cancelled");
}

#[test]
fn priority_is_not_group_scoped_on_macos() {
    assert!(!get_platform_capabilities(Platform::Macos).priority_is_group_scoped);
}

#[test]
fn priority_is_group_scoped_on_linux() {
    let linux = get_platform_capabilities(Platform::Linux);
    assert!(linux.priority_is_group_scoped);
    assert!(!linux.can_pause_process);
    assert!(get_platform_capabilities(Platform::Macos).can_pause_process);
}

#[test]
fn settings_with_consequences() {
    assert_eq!(
        setting_effect("launch_at_login", "true"),
        SettingEffect::Autostart(true)
    );
    assert_eq!(
        setting_effect("launch_at_login", "false"),
        SettingEffect::Autostart(false)
    );
    assert_eq!(
        setting_effect("update_mode", "notify"),
        SettingEffect::UpdateMode(UpdateMode::Notify)
    );
    assert_eq!(setting_effect("preset", "true"), SettingEffect::Nothing);
}

#[test]
fn emits_started_with_label_on_new_and_finished_on_drop() {
    let (op, started) = AddOp::new("My Folder".to_string());
    assert_eq!(started.name(), "add-started");
    let AddEvent::Started { op_id, label } = started else {
        panic!("started fires immediately");
    };
    assert_eq!(label, "My Folder");
    assert_eq!(op_id, op.op_id);
    let finished = op.finish();
    assert_eq!(finished.name(), "add-finished");
    assert!(matches!(finished, AddEvent::Finished { op_id: id } if id == op_id));
}

#[test]
fn report_emits_progress_with_op_id_and_label() {
    let (op, _) = AddOp::new("Clips".to_string());
    let progress = op.report(1, 3);
    assert_eq!(progress.name(), "add-progress");
    let AddEvent::Progress {
        op_id,
        label,
        done,
        total,
    } = progress
    else {
        panic!("a report is a progress");
    };
    assert_eq!(op_id, op.op_id, "progress carries the op's id");
    assert_eq!(label, "Clips", "progress carries the label");
    assert_eq!((done, total), (1, 3));
}

#[test]
fn every_operation_has_an_identity_of_its_own() {
    let (a, _) = AddOp::new(String::new());
    let (b, _) = AddOp::new(String::new());
    assert_ne!(a.op_id, b.op_id);
    assert_eq!(a.op_id.chars().filter(|c| *c == '-').count(), 4);
}

#[test]
fn only_known_settings_can_be_changed() {
    let mut rows: Vec<(String, String)> = Vec::new();
    assert_eq!(
        update_setting(&mut rows, "not_a_real_key", "x"),
        Err("Invalid setting key: not_a_real_key".to_string())
    );
    assert!(rows.is_empty());
    for key in ["cleanup_mode", "low_disk_min_gb", "update_mode", "watch_skip_marker"] {
        assert_eq!(update_setting(&mut rows, key, "v"), Ok(()));
        assert_eq!(rows.last().unwrap(), &(key.to_string(), "v".to_string()));
    }
    assert!(update_setting(&mut rows, "queue_paused", "true").is_err());
    assert!(update_setting(&mut rows, "post_convert_command", "rm").is_err());
}

#[test]
fn a_task_that_died_and_a_failure_that_is_meant_are_told_apart() {
    let meant = core_err("HandBrakeCLI not found".to_string());
    assert_eq!(meant.status, 500);
    assert_eq!(meant.failure.error, "HandBrakeCLI not found");
    assert_eq!(meant.failure.kind, None);
    let died = join_err(&TaskEnd::Panicked(Some("boom".to_string())));
    assert_eq!(died.status, 500);
    assert_eq!(died.failure.error, "task panicked: boom");
    assert_eq!(died.failure.kind, Some("panic"));
    let stopped = join_err(&TaskEnd::Cancelled);
    assert_eq!(stopped.failure.error, "task was cancelled");
    assert_eq!(stopped.failure.kind, Some("panic"));
}
