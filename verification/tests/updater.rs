use convertbar::converter::{claim_queue_slot, ConverterState, Platform};
use convertbar::db::{init_settings, read_setting, write_setting};
use convertbar::update_cycle::{
    copy_update, offer_notice, try_begin_cycle, AfterCheck, CheckStart, InstallStart, ModeChange,
    TickAction, UpdaterRuntime,
};
use convertbar::updater::{
    clear_installed, decide, decide_manual, install_answer, manual_check_block,
    normalize_update_mode, pending_survives_mode, pending_survives_skip, read_key,
    read_notified_version, read_skipped_version, retry_action, set_notified_version,
    set_skipped_version, should_check_now, try_install_now, AvailableUpdate, CheckOutcome,
    InstallAttempt, InstallTrigger, InstalledUpdate, Installer, ManualCheckBlock, PendingInstall,
    RetryAction, UpdateMode, UpdateStatus, CHECK_INTERVAL_SECS, TICK_INTERVAL_SECS,
};
use std::cell::RefCell;

const MODES: [UpdateMode; 3] = [UpdateMode::Automatic, UpdateMode::Notify, UpdateMode::Off];

fn upd(version: &str) -> AvailableUpdate {
    AvailableUpdate {
        version: version.to_string(),
        date: None,
        notes: Some(format!("notes for {version}")),
    }
}

fn pending(user_requested: bool) -> PendingInstall {
    PendingInstall {
        update: upd("2.0.0"),
        user_requested,
    }
}

fn armed(user_requested: bool) -> UpdaterRuntime {
    let mut runtime = UpdaterRuntime::default();
    runtime.pending = Some(pending(user_requested));
    runtime.status = Some(UpdateStatus::WaitingForIdle);
    runtime
}

struct RecordingInstaller {
    installed: RefCell<Vec<String>>,
    result: Result<(), String>,
}

impl RecordingInstaller {
    fn ok() -> Self {
        Self {
            installed: RefCell::new(Vec::new()),
            result: Ok(()),
        }
    }
    fn failing() -> Self {
        Self {
            installed: RefCell::new(Vec::new()),
            result: Err("bundle is corrupt".to_string()),
        }
    }
    fn calls(&self) -> Vec<String> {
        self.installed.borrow().clone()
    }
}

impl Installer for RecordingInstaller {
    fn install(&self, held: &ConverterState, update: &AvailableUpdate) -> Result<(), String> {
        assert!(held.installing && !held.is_running);
        self.installed.borrow_mut().push(update.version.clone());
        self.result.clone()
    }
}

/// An installer that tries to start the queue.
struct StartsAJobMidInstall;

impl Installer for StartsAJobMidInstall {
    fn install(&self, held: &ConverterState, _update: &AvailableUpdate) -> Result<(), String> {
        assert!(
            held.installing,
            "installing must be latched for the whole install"
        );
        assert!(
            !claim_queue_slot(&mut held.clone()),
            "run_queue must not start a job during an install"
        );
        Ok(())
    }
}

#[test]
fn unknown_update_modes_fall_back_to_automatic() {
    assert!(matches!(
        normalize_update_mode("notify"),
        UpdateMode::Notify
    ));
    assert!(matches!(normalize_update_mode("off"), UpdateMode::Off));
    assert!(matches!(
        normalize_update_mode("automatic"),
        UpdateMode::Automatic
    ));
    assert!(matches!(normalize_update_mode(""), UpdateMode::Automatic));
    assert!(matches!(
        normalize_update_mode("NOTIFY"),
        UpdateMode::Automatic
    ));
    assert!(matches!(
        normalize_update_mode("nonsense"),
        UpdateMode::Automatic
    ));
}

#[test]
fn stored_modes_round_trip() {
    for mode in MODES {
        assert_eq!(normalize_update_mode(mode.as_str()), mode);
    }
}

#[test]
fn skipped_and_notified_versions_round_trip_and_default_to_none() {
    let mut rows = init_settings(&Vec::new(), Platform::Linux);
    assert_eq!(read_skipped_version(&rows), None);
    assert_eq!(read_notified_version(&rows), None);

    set_skipped_version(&mut rows, "1.2.0");
    set_notified_version(&mut rows, "1.3.0");
    assert_eq!(read_skipped_version(&rows).as_deref(), Some("1.2.0"));
    assert_eq!(read_notified_version(&rows).as_deref(), Some("1.3.0"));

    set_skipped_version(&mut rows, "1.4.0");
    assert_eq!(read_skipped_version(&rows).as_deref(), Some("1.4.0"));
}

#[test]
fn an_installed_update_is_forgotten_once_it_is_cleared() {
    let mut rows = init_settings(&Vec::new(), Platform::Linux);
    write_setting(&mut rows, "update_installed", "{\"version\":\"1.5.0\"}");
    assert!(read_key(&rows, "update_installed").is_some());
    clear_installed(&mut rows);
    assert_eq!(read_key(&rows, "update_installed"), None);
    assert_eq!(read_setting(&rows, "update_installed").as_deref(), Some(""));
}

#[test]
fn no_update_found_means_do_nothing_in_every_mode() {
    for mode in [UpdateMode::Automatic, UpdateMode::Notify, UpdateMode::Off] {
        assert!(matches!(
            decide(mode, None, None, None),
            CheckOutcome::Nothing
        ));
    }
}

#[test]
fn automatic_installs_and_ignores_a_skipped_version() {
    let outcome = decide(
        UpdateMode::Automatic,
        Some(upd("2.0.0")),
        Some("2.0.0"),
        None,
    );
    assert!(matches!(outcome, CheckOutcome::Install(u) if u.version == "2.0.0"));
}

#[test]
fn notify_suppresses_a_skipped_version_but_a_newer_one_resurfaces() {
    let skipped = decide(UpdateMode::Notify, Some(upd("2.0.0")), Some("2.0.0"), None);
    assert!(matches!(skipped, CheckOutcome::Nothing));

    let newer = decide(UpdateMode::Notify, Some(upd("2.1.0")), Some("2.0.0"), None);
    assert!(matches!(newer, CheckOutcome::Notify(u) if u.version == "2.1.0"));
}

#[test]
fn notify_reports_a_version_only_once_even_across_restarts() {
    let first = decide(UpdateMode::Notify, Some(upd("2.0.0")), None, None);
    assert!(matches!(first, CheckOutcome::Notify(_)));

    let repeat = decide(UpdateMode::Notify, Some(upd("2.0.0")), None, Some("2.0.0"));
    assert!(matches!(repeat, CheckOutcome::Nothing));

    let next_release = decide(UpdateMode::Notify, Some(upd("2.2.0")), None, Some("2.0.0"));
    assert!(matches!(next_release, CheckOutcome::Notify(u) if u.version == "2.2.0"));
}

#[test]
fn off_never_acts_on_a_scheduled_check() {
    let outcome = decide(UpdateMode::Off, Some(upd("2.0.0")), None, None);
    assert!(matches!(outcome, CheckOutcome::Nothing));
}

#[test]
fn a_manual_check_reports_but_never_installs_in_any_mode() {
    assert!(matches!(decide_manual(None), CheckOutcome::Nothing));

    let outcome = decide_manual(Some(upd("2.0.0")));
    assert!(matches!(outcome, CheckOutcome::Notify(u) if u.version == "2.0.0"));
}

#[test]
fn an_install_never_runs_while_a_job_is_encoding() {
    let mut conv = ConverterState::new();
    conv.is_running = true;

    let installer = RecordingInstaller::ok();
    let attempt = try_install_now(&mut conv, &installer, &upd("2.0.0"));

    assert!(matches!(attempt, InstallAttempt::Deferred));
    assert!(
        installer.calls().is_empty(),
        "install must not be attempted while the queue is running"
    );
    assert!(
        !conv.installing,
        "a deferred attempt must not leave the interlock latched"
    );
}

#[test]
fn an_install_runs_when_the_queue_is_idle() {
    let mut conv = ConverterState::new();
    let installer = RecordingInstaller::ok();

    let attempt = try_install_now(&mut conv, &installer, &upd("2.0.0"));

    assert!(matches!(attempt, InstallAttempt::Installed));
    assert_eq!(installer.calls(), vec!["2.0.0".to_string()]);
}

#[test]
fn the_interlock_is_held_during_the_install_and_blocks_run_queue() {
    let mut conv = ConverterState::new();
    let installer = StartsAJobMidInstall;
    let attempt = try_install_now(&mut conv, &installer, &upd("2.0.0"));

    assert!(matches!(attempt, InstallAttempt::Installed));
    assert!(
        !conv.installing,
        "interlock must be released after the install returns"
    );
}

#[test]
fn a_failed_install_releases_the_interlock_and_reports_why() {
    let mut conv = ConverterState::new();
    let installer = RecordingInstaller::failing();

    let attempt = try_install_now(&mut conv, &installer, &upd("2.0.0"));

    assert!(matches!(attempt, InstallAttempt::Failed(e) if e.contains("corrupt")));
    assert!(!conv.installing);
    assert!(
        claim_queue_slot(&mut conv),
        "queue must be startable again"
    );
}

#[test]
fn a_scheduled_install_never_pauses_a_running_queue() {
    assert_eq!(
        retry_action(false, true),
        RetryAction::StayPending,
        "the scheduler waits for the queue; it never clears it"
    );
    assert_eq!(retry_action(true, true), RetryAction::DrainThenInstall);

    assert_eq!(retry_action(false, false), RetryAction::InstallNow);
    assert_eq!(retry_action(true, false), RetryAction::InstallNow);
}

#[test]
fn turning_updates_off_cancels_an_install_the_scheduler_decided_on() {
    assert!(!pending_survives_mode(&pending(false), UpdateMode::Off));
    assert!(!pending_survives_mode(&pending(false), UpdateMode::Notify));
    assert!(pending_survives_mode(
        &pending(false),
        UpdateMode::Automatic
    ));

    assert!(pending_survives_mode(&pending(true), UpdateMode::Off));
    assert!(pending_survives_mode(&pending(true), UpdateMode::Notify));
}

#[test]
fn skipping_the_pending_version_cancels_it_but_skipping_another_does_not() {
    assert!(!pending_survives_skip(&pending(false), "2.0.0"));
    assert!(pending_survives_skip(&pending(false), "1.9.0"));
}

#[test]
fn a_manual_check_cannot_orphan_a_pending_or_installed_update() {
    assert_eq!(
        manual_check_block(Some(UpdateStatus::WaitingForIdle), Some(&pending(true))),
        Some(ManualCheckBlock::InstallPending)
    );
    assert_eq!(
        manual_check_block(Some(UpdateStatus::ReadyToRestart), None),
        Some(ManualCheckBlock::AwaitingRestart)
    );
    assert_eq!(
        manual_check_block(Some(UpdateStatus::ReadyToRestart), Some(&pending(false))),
        Some(ManualCheckBlock::AwaitingRestart)
    );

    assert_eq!(manual_check_block(None, None), None);
    assert_eq!(manual_check_block(Some(UpdateStatus::Idle), None), None);
    assert_eq!(
        manual_check_block(Some(UpdateStatus::Available), None),
        None
    );
    assert_eq!(manual_check_block(Some(UpdateStatus::Error), None), None);
}

#[test]
fn switching_the_mode_off_actually_drops_the_pending_install() {
    let mut runtime = armed(false);
    runtime.on_mode_changed(UpdateMode::Off);
    assert!(
        runtime.pending.is_none(),
        "a scheduler-decided deferral must not survive updates being turned off"
    );
    assert_eq!(runtime.status, Some(UpdateStatus::Idle));

    let mut runtime = armed(true);
    runtime.on_mode_changed(UpdateMode::Off);
    assert!(runtime.pending.is_some());
}

#[test]
fn a_manual_check_is_refused_while_an_install_is_pending() {
    let mut runtime = armed(true);
    let err = runtime
        .begin_check(true, UpdateMode::Automatic)
        .refusal()
        .expect("a manual check must be refused while an install is pending");
    assert!(
        err.contains("waiting to install"),
        "the refusal must say why, got: {err}"
    );
    assert!(runtime.pending.is_some());
    assert_eq!(runtime.status, Some(UpdateStatus::WaitingForIdle));
}

#[test]
fn a_scheduled_retry_against_a_busy_queue_leaves_the_queue_alone() {
    let mut runtime = armed(false);
    let start = runtime.begin_install(InstallTrigger::Retry, true);
    let err = start
        .refusal()
        .expect("a scheduled retry must not proceed against a running queue");
    assert!(err.contains("busy"), "got: {err}");
    assert!(
        runtime.pending.is_some(),
        "the deferral stays pending for the next drain"
    );
}

#[test]
fn a_retry_does_not_resurrect_a_deferral_that_was_cancelled_while_it_waited() {
    let mut runtime = armed(false);
    runtime.pending = None;
    let err = runtime
        .begin_install(InstallTrigger::Retry, false)
        .refusal()
        .expect("a retry whose deferral was cancelled must abort");
    assert!(err.contains("cancelled"), "got: {err}");
    assert!(
        runtime.pending.is_none(),
        "a retry must never recreate a deferral the user cancelled"
    );
}

#[test]
fn only_one_update_cycle_runs_at_a_time() {
    let mut runtime = UpdaterRuntime::default();
    assert!(
        try_begin_cycle(&mut runtime),
        "the first cycle claims the latch"
    );
    assert!(
        !try_begin_cycle(&mut runtime),
        "a concurrent cycle must be refused, not queued behind a slow download"
    );
    runtime.end_cycle();
    assert!(
        try_begin_cycle(&mut runtime),
        "the guard must release the latch when the cycle ends"
    );
}

#[test]
fn checks_are_paced_by_wall_clock_not_uptime() {
    const DAY: i64 = 24 * 60 * 60;
    let now = 1_800_000_000;

    assert!(should_check_now(None, now), "never checked -> check");
    assert!(!should_check_now(Some(now), now));
    assert!(!should_check_now(Some(now - DAY + 1), now));
    assert!(should_check_now(Some(now - DAY), now));
    assert!(should_check_now(Some(now - 30 * DAY), now));

    assert!(should_check_now(Some(now + 5 * DAY), now));
    assert_eq!(CHECK_INTERVAL_SECS, DAY);
    assert_eq!(TICK_INTERVAL_SECS, 3600);
}

#[test]
fn an_automatic_check_leads_to_a_download_and_an_install() {
    let mut runtime = UpdaterRuntime::default();
    assert_eq!(
        runtime.begin_check(false, UpdateMode::Automatic),
        CheckStart::Check
    );
    assert_eq!(runtime.status, Some(UpdateStatus::Checking));
    assert_eq!(
        runtime.begin_check(false, UpdateMode::Automatic),
        CheckStart::Busy
    );
    let after = runtime.check_done(
        false,
        UpdateMode::Automatic,
        Some(upd("2.0.0")),
        None,
        None,
        77,
    );
    assert_eq!(after, AfterCheck::Download);
    assert_eq!(runtime.status, Some(UpdateStatus::Downloading));
    assert_eq!(runtime.last_checked, Some(77));
    assert!(runtime.pending_matches("2.0.0"));
    assert!(runtime.download_done("2.0.0"));
    let report = runtime.install_done("2.0.0", InstallAttempt::Installed);
    assert!(!report.roll_back);
    assert_eq!(
        report.notice.as_deref(),
        Some("Updated to 2.0.0 — restart ConvertBar to apply")
    );
    assert_eq!(runtime.status, Some(UpdateStatus::ReadyToRestart));
    assert!(!runtime.busy);
    assert_eq!(runtime.on_tick(i64::MAX), TickAction::Rest);
}

#[test]
fn a_failed_install_is_told_and_taken_back() {
    let mut runtime = armed(true);
    runtime.busy = true;
    let report = runtime.install_done("2.0.0", InstallAttempt::Failed("no".to_string()));
    assert!(report.roll_back);
    assert_eq!(
        report.notice.as_deref(),
        Some("Update to 2.0.0 failed to install — still on the current version")
    );
    assert_eq!(runtime.last_error.as_deref(), Some("no"));
    assert_eq!(runtime.status, Some(UpdateStatus::Error));
    assert!(runtime.pending.is_none());
}

#[test]
fn a_deferred_install_waits_for_the_queue() {
    let mut runtime = armed(false);
    runtime.busy = true;
    runtime.install_done("2.0.0", InstallAttempt::Deferred);
    assert_eq!(runtime.status, Some(UpdateStatus::WaitingForIdle));
    assert!(runtime.on_queue_status("idle"));
    assert!(!runtime.on_queue_status("encoding"));
    assert_eq!(runtime.on_tick(0), TickAction::RetryInstall);
}

#[test]
fn a_check_that_could_not_be_made_is_told() {
    let mut runtime = UpdaterRuntime::default();
    runtime.begin_check(true, UpdateMode::Off);
    runtime.check_failed("offline".to_string(), 5);
    assert_eq!(runtime.status, Some(UpdateStatus::Error));
    assert_eq!(runtime.last_error.as_deref(), Some("offline"));
    assert_eq!(runtime.last_checked, Some(5));
    assert!(!runtime.busy);
    assert_eq!(
        runtime.begin_check(false, UpdateMode::Off),
        CheckStart::Off
    );
}

#[test]
fn notices_are_announced_once_and_shown_on_demand() {
    let mut runtime = UpdaterRuntime::default();
    runtime.begin_check(false, UpdateMode::Notify);
    assert_eq!(
        runtime.check_done(false, UpdateMode::Notify, Some(upd("2.0.0")), None, None, 1),
        AfterCheck::Announce
    );
    runtime.begin_check(false, UpdateMode::Notify);
    assert_eq!(
        runtime.check_done(
            false,
            UpdateMode::Notify,
            Some(upd("2.0.0")),
            None,
            Some("2.0.0"),
            2
        ),
        AfterCheck::Rest
    );
    for mode in MODES {
        runtime.begin_check(true, mode);
        assert_eq!(
            runtime.check_done(true, mode, Some(upd("2.0.0")), Some("2.0.0"), None, 3),
            AfterCheck::Show
        );
    }
    assert_eq!(offer_notice("2.0.0"), "ConvertBar 2.0.0 is available");
}

#[test]
fn the_user_may_stop_the_queue_for_an_install() {
    let mut runtime = UpdaterRuntime::default();
    let start = runtime.begin_install(InstallTrigger::UserRequested, true);
    assert_eq!(
        start,
        InstallStart::LookUp {
            user_requested: true,
            drain: true
        }
    );
    assert_eq!(start.refusal(), None);
    assert!(runtime.lookup_done(InstallTrigger::UserRequested, true, upd("3.0.0")));
    assert!(runtime.pending_matches("3.0.0"));
}

#[test]
fn skipping_a_version_drops_its_install() {
    let mut runtime = armed(true);
    runtime.skip_version("2.0.0");
    assert!(runtime.pending.is_none());
    let mut runtime = armed(true);
    runtime.skip_version("1.0.0");
    assert!(runtime.pending.is_some());
}

#[test]
fn leaving_automatic_shows_what_was_to_be_installed() {
    let mut runtime = armed(false);
    assert_eq!(
        runtime.on_mode_changed(UpdateMode::Notify),
        ModeChange::Dropped
    );
    assert_eq!(runtime.status, Some(UpdateStatus::Available));
    let mut fresh = UpdaterRuntime::default();
    assert_eq!(
        fresh.on_mode_changed(UpdateMode::Automatic),
        ModeChange::ShownAndCheck
    );
    assert_eq!(fresh.on_mode_changed(UpdateMode::Off), ModeChange::Shown);
}

#[test]
fn the_state_is_what_the_window_shows() {
    let mut runtime = armed(false);
    runtime.available = Some(copy_update(&upd("2.0.0")));
    let state = runtime.build_state(
        Some("notify"),
        Some(InstalledUpdate {
            version: "1.0.0".to_string(),
            notes: None,
        }),
        "1.0.0".to_string(),
    );
    assert_eq!(state.mode, UpdateMode::Notify);
    assert_eq!(state.status, UpdateStatus::WaitingForIdle);
    assert_eq!(state.available.unwrap().version, "2.0.0");
    assert_eq!(state.just_installed.unwrap().version, "1.0.0");
    assert_eq!(state.current_version, "1.0.0");
    let bare = UpdaterRuntime::default().build_state(None, None, "1".to_string());
    assert_eq!(bare.mode, UpdateMode::Automatic);
    assert_eq!(bare.status, UpdateStatus::Idle);
}

#[test]
fn the_installers_answer_decides() {
    assert!(matches!(install_answer(Ok(())), InstallAttempt::Installed));
    assert!(matches!(
        install_answer(Err("no room".to_string())),
        InstallAttempt::Failed(e) if e == "no room"
    ));
}
