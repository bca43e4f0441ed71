use convertbar::converter::{ConverterState, InPlaceAction, KeptFile};
use convertbar::queue_run::{
    cleanup_mode, encode_dir, encode_target, encoder_args, failure_notification, file_path,
    job_label, CleanupMode, Effect, Event, Failure, JobFacts, JobFile, Outcome, QueueRun,
    RunStatus, Stage, IN_PLACE_NOTE,
};
use convertbar::types::JobInfo;

fn job(id: &str, source: &str, output: &str, size: i64) -> JobInfo {
    JobInfo {
        id: id.to_string(),
        source_path: source.to_string(),
        output_path: output.to_string(),
        preset: "H.265 MKV 1080p30".to_string(),
        status: "queued".to_string(),
        original_size: Some(size),
        converted_size: None,
        kept_file: None,
        space_saved: None,
        error_message: None,
        queue_order: 0,
        created_at: "2020-01-01T00:00:00Z".to_string(),
        completed_at: None,
    }
}

/// A queue whose encoder, disk and settings are given; it follows a run and keeps its rows.
struct World {
    jobs: Vec<JobInfo>,
    encoder_found: bool,
    encoder_starts: bool,
    encoder_ends_well: bool,
    output_size: Option<i64>,
    source_size: Option<i64>,
    stderr: String,
    mode: String,
    floor: Option<u64>,
    free: Option<u64>,
    applied: bool,
    quits_during_encode: bool,
    pause_after: bool,
    converter: ConverterState,
    effects: Vec<Effect>,
}

impl World {
    fn new(jobs: Vec<JobInfo>) -> World {
        World {
            jobs,
            encoder_found: true,
            encoder_starts: true,
            encoder_ends_well: true,
            output_size: None,
            source_size: None,
            stderr: "boom\n".to_string(),
            mode: "trash".to_string(),
            floor: None,
            free: None,
            applied: true,
            quits_during_encode: false,
            pause_after: false,
            converter: ConverterState::new(),
            effects: Vec::new(),
        }
    }

    fn run(&mut self) -> QueueRun {
        self.converter.is_running = true;
        let mut run = QueueRun::new();
        let mut at: Option<usize> = None;
        for _ in 0..200 {
            let event = match run.stage {
                Stage::Stopped => break,
                Stage::Head | Stage::Storing(_) | Stage::Quitting => {
                    Event::Shutdown(self.converter.is_shutting_down())
                }
                Stage::Fetching => {
                    at = self.jobs.iter().position(|j| j.status == "queued");
                    Event::Job(at.map(|i| {
                        JobFacts::of(&self.jobs[i], self.encoder_found, &self.mode, self.floor)
                    }))
                }
                Stage::Measuring(_) => Event::Free(self.free),
                Stage::Claiming(_) => Event::Claimed(true),
                Stage::Counting(_) => Event::Waiting(
                    self.jobs.iter().filter(|j| j.status == "queued").count() as u64,
                ),
                Stage::Spawning(_) => Event::Spawned(self.encoder_starts),
                Stage::Encoding(_) => {
                    if self.quits_during_encode {
                        self.converter.begin_shutdown();
                    }
                    Event::Exited(self.encoder_ends_well)
                }
                Stage::SizingOutput(_) => Event::Size(self.output_size),
                Stage::SizingSource(_, _) => Event::Size(self.source_size),
                Stage::Applying(_, _, _) => Event::Applied(self.applied),
                Stage::Notifying(_) => Event::FileNotices {
                    per_file: Some(false),
                    errors_only: None,
                },
                Stage::Pausing => Event::PauseAfter(self.pause_after),
                Stage::Checking => Event::StoredAsError(
                    self.jobs[at.unwrap()].status == "error",
                ),
                Stage::Failing(_) | Stage::Draining => Event::Notice(Some(false)),
            };
            for effect in run.step(event) {
                match effect {
                    Effect::BeginJob => {
                        self.jobs[at.unwrap()].status = "encoding".to_string();
                    }
                    Effect::RecordFailure(why) => {
                        let row = &mut self.jobs[at.unwrap()];
                        row.status = "error".to_string();
                        row.error_message = Some(why.message(&self.stderr));
                    }
                    Effect::SkipWithNote => {
                        let row = &mut self.jobs[at.unwrap()];
                        row.status = "skipped".to_string();
                        row.error_message = Some(IN_PLACE_NOTE.to_string());
                    }
                    Effect::RecordOutcome(outcome) => {
                        let row = &mut self.jobs[at.unwrap()];
                        row.status = outcome.status().to_string();
                        row.kept_file = Some(outcome.kept_file().to_string());
                        row.converted_size = Some(outcome.converted);
                        row.space_saved = Some(outcome.saved);
                    }
                    _ => {}
                }
                self.effects.push(effect);
            }
        }
        assert_eq!(run.stage, Stage::Stopped);
        self.converter.end_run();
        run
    }
}

#[test]
fn a_failed_start_is_a_failed_job() {
    let mut world = World::new(vec![job("j1", "/nowhere/in.mp4", "/nowhere/out.mp4", 1000)]);
    world.encoder_starts = false;
    world.stderr = "Permission denied".to_string();
    world.run();
    assert_eq!(world.jobs[0].status, "error");
    assert!(world.jobs[0]
        .error_message
        .as_ref()
        .unwrap()
        .contains("Failed to start HandBrakeCLI"));
    assert_eq!(
        world.effects.last(),
        Some(&Effect::ShowStatus(RunStatus::Error)),
        "a run where the only job failed must end 'error'"
    );
    assert!(world.effects.contains(&Effect::ForgetJob));
}

#[test]
fn low_disk_threshold_pauses_before_spawning_and_leaves_the_job_queued() {
    let mut world = World::new(vec![job("j1", "/nowhere/a.mp4", "/tmp/out.mp4", 1000)]);
    world.floor = Some(1_000_000_000 * 1024 * 1024 * 1024);
    world.free = Some(500 * 1024 * 1024 * 1024);
    world.run();
    assert_eq!(
        world.jobs[0].status, "queued",
        "a low-disk pause leaves the job queued, never encoding/error"
    );
    assert_eq!(
        world.effects,
        vec![
            Effect::ShowLowDisk {
                available: 500 * 1024 * 1024 * 1024,
                required: 1_000_000_000 * 1024 * 1024 * 1024 + 2000,
            },
            Effect::ShowStatus(RunStatus::Idle),
        ],
        "exactly one low-disk pause event fires"
    );
    assert!(
        !world.converter.is_running,
        "the queue thread must have stopped"
    );
}

#[test]
fn low_disk_check_is_skipped_when_threshold_is_zero() {
    let mut world = World::new(vec![job("j1", "/nowhere/a.mp4", "/tmp/out.mp4", 1000)]);
    world.floor = None;
    world.run();
    assert_eq!(
        world.jobs[0].status, "error",
        "with the check disabled, the job is processed, not held 'queued'"
    );
    assert!(
        world.jobs[0]
            .error_message
            .as_ref()
            .unwrap()
            .contains("empty output file"),
        "the job reached the encode stage"
    );
}

#[test]
fn low_disk_check_fails_open_when_destination_is_unstattable() {
    let mut world = World::new(vec![job(
        "j1",
        "/nowhere/a.mp4",
        "/no-such-dir-xyz/out.mp4",
        1000,
    )]);
    world.floor = Some(5 * 1024 * 1024 * 1024);
    world.free = None;
    world.run();
    assert_eq!(
        world.jobs[0].status, "error",
        "fail-open: the job runs to the encode stage, not held 'queued'"
    );
    assert!(world.jobs[0]
        .error_message
        .as_ref()
        .unwrap()
        .contains("empty output file"));
    assert!(
        !world
            .effects
            .iter()
            .any(|e| matches!(e, Effect::ShowLowDisk { .. })),
        "no low-disk pause event fires when free space is unknown"
    );
}

#[test]
fn quit_mid_encode_leaves_the_job_for_auto_resume() {
    let mut world = World::new(vec![job("j1", "/nowhere/a.mp4", "/tmp/out.mp4", 1000)]);
    world.quits_during_encode = true;
    world.encoder_ends_well = false;
    world.run();
    assert_eq!(
        world.jobs[0].status, "encoding",
        "quit must leave the job for auto-resume, not record it as failed"
    );
    assert!(
        !world.effects.contains(&Effect::RemoveTarget),
        "the partial output belongs to next-launch auto-resume cleanup, not the quit path"
    );
    assert!(
        !world.effects.iter().any(|e| matches!(
            e,
            Effect::RecordFailure(_) | Effect::NotifyFailure | Effect::ShowStatus(_)
        )),
        "no failure events/notifications may fire because the user quit"
    );
}

#[test]
fn zero_byte_output_fails_with_diagnostics_and_the_queue_continues() {
    let mut world = World::new(vec![
        job("j1", "/nowhere/a.mp4", "/tmp/out1.mp4", 1000),
        job("j2", "/nowhere/b.mp4", "/tmp/out2.mp4", 1000),
    ]);
    world.run();
    for row in &world.jobs {
        assert_eq!(row.status, "error", "{} must fail", row.id);
        let msg = row.error_message.as_ref().unwrap();
        assert!(
            msg.starts_with("Conversion produced an empty output file"),
            "{msg}"
        );
        assert!(
            msg.contains("boom"),
            "must keep the stderr diagnostic, got: {msg}"
        );
    }
    assert_eq!(
        world
            .effects
            .iter()
            .filter(|e| **e == Effect::RemoveTarget)
            .count(),
        2,
        "empty outputs are removed"
    );
    assert_eq!(
        world.effects.last(),
        Some(&Effect::ShowStatus(RunStatus::Error))
    );
}

#[test]
fn a_smaller_output_is_kept_and_the_source_deleted() {
    let mut world = World::new(vec![job("j1", "/m/a.mp4", "/m/a-x.mkv", 1000)]);
    world.mode = "delete".to_string();
    world.output_size = Some(600);
    let run = world.run();
    assert!(!run.had_errors);
    assert_eq!(world.jobs[0].status, "done");
    assert_eq!(world.jobs[0].kept_file.as_deref(), Some("converted"));
    assert_eq!(world.jobs[0].space_saved, Some(400));
    let outcome = Outcome {
        kept: KeptFile::Converted,
        skipped: false,
        saved: 400,
        original: 1000,
        converted: 600,
    };
    assert_eq!(
        world.effects,
        vec![
            Effect::BeginJob,
            Effect::ShowEncoding { waiting: 0 },
            Effect::EndJob,
            Effect::DeleteFile(JobFile::Source),
            Effect::RecordOutcome(outcome),
            Effect::ShowStatus(RunStatus::Idle),
        ]
    );
}

#[test]
fn a_larger_output_goes_to_the_trash() {
    let mut world = World::new(vec![job("j1", "/m/a.mp4", "/m/a-x.mkv", 1000)]);
    world.output_size = Some(1500);
    world.run();
    assert_eq!(world.jobs[0].status, "skipped");
    assert_eq!(world.jobs[0].kept_file.as_deref(), Some("original"));
    assert!(world
        .effects
        .contains(&Effect::MoveToTrash(JobFile::Output)));
    assert!(!world
        .effects
        .contains(&Effect::MoveToTrash(JobFile::Source)));
}

#[test]
fn keeping_both_files_removes_none() {
    for size in [600, 1500] {
        let mut world = World::new(vec![job("j1", "/m/a.mp4", "/m/a-x.mkv", 1000)]);
        world.mode = "keep".to_string();
        world.output_size = Some(size);
        world.run();
        assert!(!world
            .effects
            .iter()
            .any(|e| matches!(e, Effect::DeleteFile(_) | Effect::MoveToTrash(_))));
    }
}

#[test]
fn an_in_place_encode_weighs_the_source_as_it_stands() {
    let mut run = QueueRun {
        had_errors: false,
        stage: Stage::Fetching,
    };
    let facts = JobFacts::of(
        &job("j1", "/m/a.mp4", "/m//a.mp4", 10),
        true,
        "trash",
        None,
    );
    assert!(facts.in_place);
    run.step(Event::Job(Some(facts)));
    run.step(Event::Claimed(true));
    assert_eq!(
        run.step(Event::Waiting(3)),
        vec![Effect::ShowEncoding { waiting: 3 }, Effect::RemoveTarget]
    );
    run.step(Event::Spawned(true));
    run.step(Event::Shutdown(false));
    run.step(Event::Exited(true));
    run.step(Event::Size(Some(700)));
    run.step(Event::Size(Some(1000)));
    let Stage::Applying(_, action, outcome) = run.stage else {
        panic!("the files are to be put in order");
    };
    assert_eq!(action, InPlaceAction::TrashSourceThenRename);
    assert_eq!(outcome.saved, 300);
    assert_eq!(
        run.step(Event::Applied(true)),
        vec![Effect::RecordOutcome(outcome), Effect::RefreshIdentity]
    );
}

#[test]
fn a_failed_replacement_is_a_failed_job() {
    for (mode, why) in [
        ("delete", Failure::SourceUnchanged),
        ("trash", Failure::SourceMaybeTrashed),
    ] {
        let mut world = World::new(vec![job("j1", "/m/a.mp4", "/m/a.mp4", 1000)]);
        world.mode = mode.to_string();
        world.output_size = Some(600);
        world.applied = false;
        let run = world.run();
        assert!(run.had_errors);
        assert_eq!(world.jobs[0].error_message, Some(why.message("")));
    }
}

#[test]
fn a_job_that_was_taken_away_is_passed_over() {
    let facts = JobFacts::of(&job("j1", "/m/a.mp4", "/m/b.mp4", 1), true, "trash", None);
    let mut run = QueueRun {
        had_errors: false,
        stage: Stage::Claiming(facts),
    };
    assert_eq!(run.step(Event::Claimed(false)), vec![]);
    assert_eq!(run.stage, Stage::Head);
}

#[test]
fn a_job_that_was_cancelled_is_not_recorded_twice() {
    let mut run = QueueRun {
        had_errors: false,
        stage: Stage::Quitting,
    };
    assert_eq!(
        run.step(Event::Shutdown(false)),
        vec![Effect::RemoveTarget]
    );
    assert_eq!(run.step(Event::StoredAsError(true)), vec![]);
    assert_eq!(run.stage, Stage::Head);
    assert!(run.had_errors);
}

#[test]
fn a_missing_encoder_fails_every_job() {
    let mut world = World::new(vec![
        job("j1", "/m/a.mp4", "/m/b.mp4", 1),
        job("j2", "/m/c.mp4", "/m/d.mp4", 1),
    ]);
    world.encoder_found = false;
    world.run();
    for row in &world.jobs {
        assert_eq!(row.error_message.as_deref(), Some("HandBrakeCLI not found"));
    }
}

#[test]
fn a_pause_after_the_job_ends_the_run() {
    let mut world = World::new(vec![
        job("j1", "/m/a.mp4", "/m/b.mp4", 1000),
        job("j2", "/m/c.mp4", "/m/d.mp4", 1000),
    ]);
    world.output_size = Some(1);
    world.pause_after = true;
    world.run();
    assert_eq!(world.jobs[0].status, "done");
    assert_eq!(world.jobs[1].status, "queued");
    assert!(world.effects.contains(&Effect::RememberPause));
}

#[test]
fn notices_follow_their_settings() {
    let outcome = Outcome {
        kept: KeptFile::Converted,
        skipped: false,
        saved: 2048,
        original: 4096,
        converted: 2048,
    };
    for (per_file, errors_only, told) in [
        (None, None, true),
        (Some(true), Some(false), true),
        (Some(false), None, false),
        (None, Some(true), false),
    ] {
        let mut run = QueueRun {
            had_errors: false,
            stage: Stage::Notifying(outcome),
        };
        let effects = run.step(Event::FileNotices {
            per_file,
            errors_only,
        });
        assert_eq!(effects == vec![Effect::NotifyOutcome(outcome)], told);
        assert_eq!(effects.is_empty(), !told);
    }
    let mut failing = QueueRun {
        had_errors: true,
        stage: Stage::Failing(false),
    };
    assert_eq!(
        failing.step(Event::Notice(None)),
        vec![Effect::NotifyFailure]
    );
    let mut draining = QueueRun {
        had_errors: true,
        stage: Stage::Draining,
    };
    assert_eq!(
        draining.step(Event::Notice(Some(true))),
        vec![
            Effect::NotifyQueueDone,
            Effect::ShowStatus(RunStatus::Error)
        ]
    );
}

#[test]
fn notices_name_the_file_and_the_saving() {
    let mut outcome = Outcome {
        kept: KeptFile::Converted,
        skipped: false,
        saved: 1_048_576,
        original: 2_097_152,
        converted: 1_048_576,
    };
    assert_eq!(
        outcome.notification("a.mp4"),
        "a.mp4 converted — saved 1MB"
    );
    outcome.skipped = true;
    assert_eq!(
        outcome.notification("a.mp4"),
        "a.mp4 — kept original (converted was larger)"
    );
    assert_eq!(failure_notification("a.mp4"), "a.mp4 failed");
    assert_eq!(job_label("/m/a.mp4"), "a.mp4");
    assert_eq!(job_label("/"), "unknown");
}

#[test]
fn the_encoder_is_told_what_to_do() {
    let apart = job("j1", "/m/a.mp4", "/m/b.mkv", 1);
    assert_eq!(
        encoder_args(&apart),
        vec![
            "-Z",
            "H.265 MKV 1080p30",
            "-O",
            "-i",
            "/m/a.mp4",
            "-o",
            "/m/b.mkv"
        ]
    );
    assert_eq!(encode_dir(&apart), Some("/m".to_string()));
    assert_eq!(file_path(&apart, JobFile::Source), "/m/a.mp4");
    assert_eq!(file_path(&apart, JobFile::Output), "/m/b.mkv");
    let same = job("j2", "/m/a.mp4", "/m/a.mp4", 1);
    assert_eq!(encode_target(&same), "/m/.a.convertbar-tmp.mp4");
}

#[test]
fn stored_modes_name_what_becomes_of_the_loser() {
    assert_eq!(cleanup_mode("trash"), CleanupMode::Trash);
    assert_eq!(cleanup_mode("delete"), CleanupMode::Delete);
    assert_eq!(cleanup_mode("keep"), CleanupMode::Keep);
    assert_eq!(cleanup_mode("other"), CleanupMode::Trash);
    for mode in [CleanupMode::Trash, CleanupMode::Delete, CleanupMode::Keep] {
        assert_eq!(cleanup_mode(mode.as_str()), mode);
    }
    assert_eq!(RunStatus::Idle.as_str(), "idle");
    assert_eq!(RunStatus::Error.as_str(), "error");
}

#[test]
fn an_in_place_job_is_skipped_with_a_note_where_both_files_stay() {
    let mut world = World::new(vec![
        job("j1", "/m/a.mp4", "/m/a.mp4", 1000),
        job("j2", "/m/b.mp4", "/m/b-x.mkv", 1000),
    ]);
    world.mode = "keep".to_string();
    world.floor = Some(1);
    world.free = Some(1_000_000);
    world.output_size = Some(600);
    let run = world.run();
    assert_eq!(world.jobs[0].status, "skipped");
    assert_eq!(world.jobs[0].error_message.as_deref(), Some(IN_PLACE_NOTE));
    assert_eq!(world.jobs[0].space_saved, None);
    assert_eq!(world.jobs[1].status, "done");
    assert_eq!(world.effects[0], Effect::SkipWithNote);
    assert_eq!(
        world
            .effects
            .iter()
            .filter(|e| **e == Effect::BeginJob)
            .count(),
        1,
        "the skipped job is never claimed"
    );
    assert!(!run.had_errors);
}
