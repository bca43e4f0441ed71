//! The run of the queue as a state machine. The run says what it wants to know, is told what was
//! found, and answers with what is to be done. Encoding, files, rows and windows are outside.

use crate::converter::{capped, counts_as_skipped, has_enough_disk, in_place_action};
use crate::converter::{in_place_apply_is_fatal, in_place_outcome, is_in_place, required_free_bytes};
use crate::converter::{decide_cleanup, in_place_encodes_spare_the_source, in_place_temp_path};
use crate::converter::{saving, smaller_file, temp_path};
use crate::converter::{format_bytes_short, short_bytes, InPlaceAction, KeptFile};
use crate::diagnostics::{empty_output_error_message, error_message_from_tail, failure_text};
use crate::paths::{file_name, file_name_of, parent, parent_of, same_path};
use crate::text::{begins, joined2, joined3, same};
use crate::types::JobInfo;
use vstd::prelude::*;
use vstd::string::*;

verus! {

/// What happens to the file that loses on size.
#[derive(Debug, Clone, Copy, PartialEq, Eq, Structural)]
pub enum CleanupMode {
    /// It goes to the trash.
    Trash,
    /// It is deleted.
    Delete,
    /// It stays.
    Keep,
}

/// The mode that a stored setting names. Anything unknown is the mode that can be undone.
pub open spec fn named_mode(name: Seq<char>) -> CleanupMode {
    if name == "delete"@ {
        CleanupMode::Delete
    } else if name == "keep"@ {
        CleanupMode::Keep
    } else {
        CleanupMode::Trash
    }
}

/// The name that a mode is stored under.
pub open spec fn mode_name(mode: CleanupMode) -> Seq<char> {
    match mode {
        CleanupMode::Trash => "trash"@,
        CleanupMode::Delete => "delete"@,
        CleanupMode::Keep => "keep"@,
    }
}

/// The mode that a stored setting names.
pub fn cleanup_mode(name: &str) -> (r: CleanupMode)
    ensures
        r == named_mode(name@),
{
    if same(name, "delete") {
        CleanupMode::Delete
    } else if same(name, "keep") {
        CleanupMode::Keep
    } else {
        CleanupMode::Trash
    }
}

/// What the run needs to know of the job at hand.
#[derive(Debug, Clone, Copy, PartialEq, Eq, Structural)]
pub struct JobFacts {
    /// Whether the encoder was found.
    pub encoder_found: bool,
    /// Whether the output takes the place of the source.
    pub in_place: bool,
    /// What happens to the file that loses on size.
    pub mode: CleanupMode,
    /// The bytes to be left free, if the user set a floor.
    pub floor: Option<u64>,
    /// Whether the output has a directory whose free space can be asked for.
    pub has_dir: bool,
    /// The size of the source when the job was added.
    pub original_size: Option<i64>,
}

/// The facts of a job.
pub open spec fn facts_of(
    job: JobInfo,
    encoder_found: bool,
    mode: Seq<char>,
    floor: Option<u64>,
) -> JobFacts {
    JobFacts {
        encoder_found,
        in_place: same_path(job.source_path@, job.output_path@),
        mode: named_mode(mode),
        floor,
        has_dir: parent(job.output_path@) is Some,
        original_size: job.original_size,
    }
}

impl JobFacts {
    /// Gathers the facts of a job.
    pub fn of(job: &JobInfo, encoder_found: bool, mode: &str, floor: Option<u64>) -> (r: Self)
        ensures
            r == facts_of(*job, encoder_found, mode@, floor),
    {
        let dir: Option<String> = parent_of(&job.output_path);
        JobFacts {
            encoder_found,
            in_place: is_in_place(&job.source_path, &job.output_path),
            mode: cleanup_mode(mode),
            floor,
            has_dir: dir.is_some(),
            original_size: job.original_size,
        }
    }
}

/// Whether a job cannot be done as the user wants it: its output would take the place of the source,
/// and both files are to stay.
pub open spec fn has_no_second_file(job: JobFacts) -> bool {
    job.in_place && job.mode == CleanupMode::Keep
}

/// How an encode that ended well is to be recorded.
#[derive(Debug, Clone, Copy, PartialEq, Eq, Structural)]
pub struct Outcome {
    /// Which file stays.
    pub kept: KeptFile,
    /// Whether the job counts as skipped.
    pub skipped: bool,
    /// The size of the source less that of the output.
    pub saved: i64,
    /// The size of the source.
    pub original: i64,
    /// The size of the output.
    pub converted: i64,
}

/// Why a job failed.
#[derive(Debug, Clone, Copy, PartialEq, Eq, Structural)]
pub enum Failure {
    /// There is no encoder.
    NoEncoder,
    /// The encoder did not start.
    NotStarted,
    /// The encoder ended well and wrote nothing.
    EmptyOutput,
    /// The output could not take the place of the source, which is untouched.
    SourceUnchanged,
    /// The output could not take the place of the source, which may be in the trash.
    SourceMaybeTrashed,
    /// The encoder failed.
    EncodeFailed,
}

/// One of the two files of a job.
#[derive(Debug, Clone, Copy, PartialEq, Eq, Structural)]
pub enum JobFile {
    /// The file that was encoded.
    Source,
    /// The file that the encode wrote.
    Output,
}

/// The status shown when a run ends.
#[derive(Debug, Clone, Copy, PartialEq, Eq, Structural)]
pub enum RunStatus {
    /// Nothing is wrong.
    Idle,
    /// A job of the run failed.
    Error,
}

/// What is to be done outside.
#[derive(Debug, Clone, Copy, PartialEq, Eq, Structural)]
pub enum Effect {
    /// Say that the queue paused for want of room.
    ShowLowDisk { available: u64, required: u64 },
    /// Store that the queue is paused, so that the next start finds it so.
    RememberPause,
    /// Show the status of a run that is over.
    ShowStatus(RunStatus),
    /// Note the job as the current one, not paused, and say that it is being encoded.
    BeginJob,
    /// Show the job at its start, with the number of jobs still waiting.
    ShowEncoding { waiting: u64 },
    /// Remove the file that the encode writes.
    RemoveTarget,
    /// Kill the encoder.
    KillEncoder,
    /// Forget the encoder and the current job.
    EndJob,
    /// Forget the current job.
    ForgetJob,
    /// Move a file to the trash.
    MoveToTrash(JobFile),
    /// Delete a file.
    DeleteFile(JobFile),
    /// Store the job as failed and say so.
    RecordFailure(Failure),
    /// Notify the user that the job failed.
    NotifyFailure,
    /// Store the job, if it still waits, as skipped with a note, and say so.
    SkipWithNote,
    /// Store the job as done or skipped and say so.
    RecordOutcome(Outcome),
    /// Store the identity of the file that now stands at the source's path.
    RefreshIdentity,
    /// Notify the user of what became of the job.
    NotifyOutcome(Outcome),
    /// Notify the user that the queue is done.
    NotifyQueueDone,
}

/// What the run was told.
#[derive(Debug, Clone, Copy, PartialEq, Eq, Structural)]
pub enum Event {
    /// Whether the program is shutting down.
    Shutdown(bool),
    /// The next job, if one waits.
    Job(Option<JobFacts>),
    /// The free bytes at the output's directory, if they could be told.
    Free(Option<u64>),
    /// Whether the job was still waiting and is now this run's.
    Claimed(bool),
    /// How many jobs still wait.
    Waiting(u64),
    /// Whether the encoder started.
    Spawned(bool),
    /// Whether the encoder ended well.
    Exited(bool),
    /// The size of a file, if it could be told.
    Size(Option<i64>),
    /// Whether the files of an in-place encode were put in order.
    Applied(bool),
    /// The settings for notifications per file: whether to send them, whether only for errors.
    FileNotices { per_file: Option<bool>, errors_only: Option<bool> },
    /// Whether the run is to stop after the job at hand.
    PauseAfter(bool),
    /// Whether the job is already stored as failed.
    StoredAsError(bool),
    /// The setting for one kind of notification.
    Notice(Option<bool>),
}

/// Where the run stands, and what it wants to be told next.
#[derive(Debug, Clone, Copy, PartialEq, Eq, Structural)]
pub enum Stage {
    /// Before a job: is the program shutting down?
    Head,
    /// What is the next job?
    Fetching,
    /// How much room is there?
    Measuring(JobFacts),
    /// Is the job still waiting?
    Claiming(JobFacts),
    /// How many jobs wait?
    Counting(JobFacts),
    /// Did the encoder start?
    Spawning(JobFacts),
    /// The encoder's handle is stored: is the program shutting down?
    Storing(JobFacts),
    /// How did the encode end?
    Encoding(JobFacts),
    /// How large is the output?
    SizingOutput(JobFacts),
    /// How large is the source now? The output's size is known.
    SizingSource(JobFacts, i64),
    /// Were the files put in order?
    Applying(JobFacts, InPlaceAction, Outcome),
    /// Is the user to be notified of the outcome?
    Notifying(Outcome),
    /// Is the run to stop here?
    Pausing,
    /// The encode failed: is the program shutting down?
    Quitting,
    /// Is the job already stored as failed?
    Checking,
    /// Is the user to be notified of the failure? Then forget the job, if so told.
    Failing(bool),
    /// Is the user to be notified that the queue is done?
    Draining,
    /// The run is over.
    Stopped,
}

/// A run of the queue.
#[derive(Debug, Clone, Copy, PartialEq, Eq, Structural)]
pub struct QueueRun {
    /// Whether a job of this run failed.
    pub had_errors: bool,
    /// Where the run stands.
    pub stage: Stage,
}

/// The size of a job's source as it was added.
pub open spec fn known_size(job: JobFacts) -> i64 {
    match job.original_size {
        Some(n) => n,
        None => 0,
    }
}

/// The outcome that two sizes give.
pub open spec fn outcome_of(original: i64, converted: i64) -> Outcome {
    Outcome {
        kept: smaller_file(original as int, converted as int),
        skipped: counts_as_skipped(original as int, converted as int),
        saved: saving(original as int, converted as int) as i64,
        original,
        converted,
    }
}

/// Whether the saving of two sizes is a number that can be stored.
pub open spec fn saving_fits(original: i64, converted: i64) -> bool {
    converted > 0 ==> original - converted >= i64::MIN
}

/// What holds of every run: a job that is taken on can be done as the user wants it, an outcome that
/// waits to be applied or reported is the one that its sizes give, and files are put in order only
/// for an in-place job, as its outcome says.
pub open spec fn sound(run: QueueRun) -> bool {
    match run.stage {
        Stage::Measuring(job) => job.floor is Some && job.has_dir && !has_no_second_file(job),
        Stage::Claiming(job) => job.encoder_found && !has_no_second_file(job),
        Stage::Counting(job) => !has_no_second_file(job),
        Stage::Spawning(job) => !has_no_second_file(job),
        Stage::Storing(job) => !has_no_second_file(job),
        Stage::Encoding(job) => !has_no_second_file(job),
        Stage::SizingOutput(job) => !has_no_second_file(job),
        Stage::SizingSource(job, converted) => job.in_place && !has_no_second_file(job) && converted
            != 0,
        Stage::Applying(job, action, out) => {
            &&& job.in_place
            &&& !has_no_second_file(job)
            &&& out.converted != 0
            &&& saving_fits(out.original, out.converted)
            &&& out == outcome_of(out.original, out.converted)
            &&& action == in_place_outcome(out.kept, mode_name(job.mode))
        },
        Stage::Notifying(out) => {
            &&& out.converted != 0
            &&& saving_fits(out.original, out.converted)
            &&& out == outcome_of(out.original, out.converted)
        },
        Stage::Checking => run.had_errors,
        Stage::Failing(_) => run.had_errors,
        _ => true,
    }
}

/// What the run can be told where it stands.
pub open spec fn fits(run: QueueRun, event: Event) -> bool {
    match (run.stage, event) {
        (Stage::Head, Event::Shutdown(_)) => true,
        (Stage::Fetching, Event::Job(_)) => true,
        (Stage::Measuring(_), Event::Free(_)) => true,
        (Stage::Claiming(_), Event::Claimed(_)) => true,
        (Stage::Counting(_), Event::Waiting(_)) => true,
        (Stage::Spawning(_), Event::Spawned(_)) => true,
        (Stage::Storing(_), Event::Shutdown(_)) => true,
        (Stage::Encoding(_), Event::Exited(_)) => true,
        (Stage::SizingOutput(job), Event::Size(size)) => size matches Some(n) ==> !job.in_place
            ==> saving_fits(known_size(job), n),
        (Stage::SizingSource(job, n), Event::Size(size)) => saving_fits(
            match size {
                Some(original) => original,
                None => known_size(job),
            },
            n,
        ),
        (Stage::Applying(_, _, _), Event::Applied(_)) => true,
        (Stage::Notifying(_), Event::FileNotices { .. }) => true,
        (Stage::Pausing, Event::PauseAfter(_)) => true,
        (Stage::Quitting, Event::Shutdown(_)) => true,
        (Stage::Checking, Event::StoredAsError(_)) => true,
        (Stage::Failing(_), Event::Notice(_)) => true,
        (Stage::Draining, Event::Notice(_)) => true,
        _ => false,
    }
}

/// The run at another stage.
pub open spec fn at(run: QueueRun, stage: Stage) -> QueueRun {
    QueueRun { had_errors: run.had_errors, stage }
}

/// The run after a failure, at another stage.
pub open spec fn failed_at(stage: Stage) -> QueueRun {
    QueueRun { had_errors: true, stage }
}

/// The status that a run ends with.
pub open spec fn end_status(run: QueueRun) -> RunStatus {
    if run.had_errors {
        RunStatus::Error
    } else {
        RunStatus::Idle
    }
}

/// What follows once there is room: the job is claimed if there is an encoder for it.
pub open spec fn with_room(run: QueueRun, job: JobFacts) -> (QueueRun, Seq<Effect>) {
    if job.encoder_found {
        (at(run, Stage::Claiming(job)), seq![])
    } else {
        (failed_at(Stage::Failing(false)), seq![Effect::RecordFailure(Failure::NoEncoder)])
    }
}

/// The bytes that must be free for a job over a floor.
pub open spec fn needed(job: JobFacts, floor: u64) -> int {
    capped(floor + 2 * (if known_size(job) > 0 {
        known_size(job) as int
    } else {
        0
    }))
}

/// The files that go when an encode with a file of its own ends well.
pub open spec fn disposals(job: JobFacts, out: Outcome) -> Seq<Effect> {
    let loser = if out.kept == KeptFile::Converted {
        JobFile::Source
    } else {
        JobFile::Output
    };
    if out.kept == KeptFile::Neither || job.mode == CleanupMode::Keep {
        seq![]
    } else if job.mode == CleanupMode::Delete {
        seq![Effect::DeleteFile(loser)]
    } else {
        seq![Effect::MoveToTrash(loser)]
    }
}

/// What follows once both sizes are known.
pub open spec fn sized(run: QueueRun, job: JobFacts, original: i64, converted: i64) -> (
    QueueRun,
    Seq<Effect>,
) {
    let out = outcome_of(original, converted);
    if job.in_place {
        (
            at(run, Stage::Applying(job, in_place_outcome(out.kept, mode_name(job.mode)), out)),
            seq![],
        )
    } else {
        (
            at(run, Stage::Notifying(out)),
            disposals(job, out).push(Effect::RecordOutcome(out)),
        )
    }
}

/// A setting, or what it is by default.
pub open spec fn setting_or(setting: Option<bool>, default: bool) -> bool {
    match setting {
        Some(b) => b,
        None => default,
    }
}

/// Where the run stands after it was told something, and what is to be done.
pub open spec fn next(run: QueueRun, event: Event) -> (QueueRun, Seq<Effect>) {
    match (run.stage, event) {
        (Stage::Head, Event::Shutdown(quit)) => (
            at(run, if quit {
                Stage::Stopped
            } else {
                Stage::Fetching
            }),
            seq![],
        ),
        (Stage::Fetching, Event::Job(None)) => (at(run, Stage::Draining), seq![]),
        (Stage::Fetching, Event::Job(Some(job))) => if has_no_second_file(job) {
            (at(run, Stage::Head), seq![Effect::SkipWithNote])
        } else if job.floor is Some && job.has_dir {
            (at(run, Stage::Measuring(job)), seq![])
        } else {
            with_room(run, job)
        },
        (Stage::Measuring(job), Event::Free(Some(available))) => if job.floor is Some && available
            < needed(job, job.floor->0) {
            (
                at(run, Stage::Stopped),
                seq![
                    Effect::ShowLowDisk {
                        available,
                        required: needed(job, job.floor->0) as u64,
                    },
                    Effect::ShowStatus(end_status(run)),
                ],
            )
        } else {
            with_room(run, job)
        },
        (Stage::Measuring(job), Event::Free(None)) => with_room(run, job),
        (Stage::Claiming(job), Event::Claimed(claimed)) => if claimed {
            (at(run, Stage::Counting(job)), seq![Effect::BeginJob])
        } else {
            (at(run, Stage::Head), seq![])
        },
        (Stage::Counting(job), Event::Waiting(waiting)) => (
            at(run, Stage::Spawning(job)),
            if job.in_place {
                seq![Effect::ShowEncoding { waiting }, Effect::RemoveTarget]
            } else {
                seq![Effect::ShowEncoding { waiting }]
            },
        ),
        (Stage::Spawning(job), Event::Spawned(started)) => if started {
            (at(run, Stage::Storing(job)), seq![])
        } else {
            (failed_at(Stage::Failing(true)), seq![Effect::RecordFailure(Failure::NotStarted)])
        },
        (Stage::Storing(job), Event::Shutdown(quit)) => (
            at(run, Stage::Encoding(job)),
            if quit {
                seq![Effect::KillEncoder]
            } else {
                seq![]
            },
        ),
        (Stage::Encoding(job), Event::Exited(well)) => (
            at(run, if well {
                Stage::SizingOutput(job)
            } else {
                Stage::Quitting
            }),
            seq![Effect::EndJob],
        ),
        (Stage::SizingOutput(job), Event::Size(size)) => {
            let converted = size_or_zero(size);
            if converted == 0 {
                (
                    failed_at(Stage::Failing(false)),
                    seq![Effect::RemoveTarget, Effect::RecordFailure(Failure::EmptyOutput)],
                )
            } else if job.in_place {
                (at(run, Stage::SizingSource(job, converted)), seq![])
            } else {
                sized(run, job, known_size(job), converted)
            }
        },
        (Stage::SizingSource(job, converted), Event::Size(size)) => sized(
            run,
            job,
            match size {
                Some(original) => original,
                None => known_size(job),
            },
            converted,
        ),
        (Stage::Applying(job, action, out), Event::Applied(done)) => if !done && out.kept
            == KeptFile::Converted {
            (
                failed_at(Stage::Failing(false)),
                seq![
                    Effect::RecordFailure(
                        if job.mode == CleanupMode::Delete {
                            Failure::SourceUnchanged
                        } else {
                            Failure::SourceMaybeTrashed
                        },
                    ),
                ],
            )
        } else {
            (
                at(run, Stage::Notifying(out)),
                seq![Effect::RecordOutcome(out), Effect::RefreshIdentity],
            )
        },
        (Stage::Notifying(out), Event::FileNotices { per_file, errors_only }) => (
            at(run, Stage::Pausing),
            if setting_or(per_file, true) && !setting_or(errors_only, false) {
                seq![Effect::NotifyOutcome(out)]
            } else {
                seq![]
            },
        ),
        (Stage::Pausing, Event::PauseAfter(pause)) => if pause {
            (
                at(run, Stage::Draining),
                seq![Effect::RememberPause, Effect::ShowStatus(RunStatus::Idle)],
            )
        } else {
            (at(run, Stage::Head), seq![])
        },
        (Stage::Quitting, Event::Shutdown(quit)) => if quit {
            (at(run, Stage::Head), seq![])
        } else {
            (failed_at(Stage::Checking), seq![Effect::RemoveTarget])
        },
        (Stage::Checking, Event::StoredAsError(stored)) => if stored {
            (at(run, Stage::Head), seq![])
        } else {
            (
                at(run, Stage::Failing(false)),
                seq![Effect::RecordFailure(Failure::EncodeFailed)],
            )
        },
        (Stage::Failing(forget), Event::Notice(notice)) => (
            at(run, Stage::Head),
            (if setting_or(notice, true) {
                seq![Effect::NotifyFailure]
            } else {
                seq![]
            }) + (if forget {
                seq![Effect::ForgetJob]
            } else {
                seq![]
            }),
        ),
        (Stage::Draining, Event::Notice(notice)) => (
            at(run, Stage::Stopped),
            if setting_or(notice, true) {
                seq![Effect::NotifyQueueDone, Effect::ShowStatus(end_status(run))]
            } else {
                seq![Effect::ShowStatus(end_status(run))]
            },
        ),
        _ => (run, seq![]),
    }
}

/// The size of a file, 0 if it could not be told.
pub open spec fn size_or_zero(size: Option<i64>) -> i64 {
    match size {
        Some(n) => n,
        None => 0,
    }
}

impl CleanupMode {
    /// The name that a mode is stored under.
    pub fn as_str(self) -> (r: &'static str)
        ensures
            r@ == mode_name(self),
    {
        match self {
            CleanupMode::Trash => "trash",
            CleanupMode::Delete => "delete",
            CleanupMode::Keep => "keep",
        }
    }
}

/// The outcome that two sizes give.
fn weigh(original: i64, converted: i64) -> (r: Outcome)
    requires
        saving_fits(original, converted),
    ensures
        r == outcome_of(original, converted),
{
    let (kept, saved, status): (KeptFile, i64, &'static str) = decide_cleanup(original, converted);
    proof {
        reveal_strlit("skipped");
        reveal_strlit("done");
        assert("skipped"@.len() != "done"@.len());
    }
    Outcome { kept, skipped: same(status, "skipped"), saved, original, converted }
}

impl QueueRun {
    /// A run that has not begun.
    pub fn new() -> (r: Self)
        ensures
            r == (QueueRun { had_errors: false, stage: Stage::Head }),
            sound(r),
    {
        QueueRun { had_errors: false, stage: Stage::Head }
    }

    /// Goes on once there is room.
    fn take_on(&mut self, job: JobFacts) -> (effects: Vec<Effect>)
        ensures
            (*final(self), effects@) == with_room(*old(self), job),
    {
        let mut effects: Vec<Effect> = Vec::new();
        if job.encoder_found {
            self.stage = Stage::Claiming(job);
        } else {
            self.had_errors = true;
            self.stage = Stage::Failing(false);
            effects.push(Effect::RecordFailure(Failure::NoEncoder));
        }
        assert(effects@ =~= with_room(*old(self), job).1);
        effects
    }

    /// Goes on once both sizes are known.
    fn settle(&mut self, job: JobFacts, original: i64, converted: i64) -> (effects: Vec<Effect>)
        requires
            saving_fits(original, converted),
        ensures
            (*final(self), effects@) == sized(*old(self), job, original, converted),
    {
        let mut effects: Vec<Effect> = Vec::new();
        let out: Outcome = weigh(original, converted);
        if job.in_place {
            let action: InPlaceAction = in_place_action(out.kept, job.mode.as_str());
            self.stage = Stage::Applying(job, action, out);
        } else {
            let loser: JobFile = if out.kept == KeptFile::Converted {
                JobFile::Source
            } else {
                JobFile::Output
            };
            if out.kept != KeptFile::Neither {
                match job.mode {
                    CleanupMode::Delete => {
                        effects.push(Effect::DeleteFile(loser));
                    },
                    CleanupMode::Trash => {
                        effects.push(Effect::MoveToTrash(loser));
                    },
                    CleanupMode::Keep => {},
                }
            }
            assert(effects@ =~= disposals(job, out));
            effects.push(Effect::RecordOutcome(out));
            self.stage = Stage::Notifying(out);
        }
        assert(effects@ =~= sized(*old(self), job, original, converted).1);
        effects
    }

    /// The status that the run ends with.
    fn status(&self) -> (r: RunStatus)
        ensures
            r == end_status(*self),
    {
        if self.had_errors {
            RunStatus::Error
        } else {
            RunStatus::Idle
        }
    }

    /// Takes in what the run was told, and says what is to be done, in order.
    pub fn step(&mut self, event: Event) -> (effects: Vec<Effect>)
        requires
            sound(*old(self)),
            fits(*old(self), event),
        ensures
            (*final(self), effects@) == next(*old(self), event),
            sound(*final(self)),
    {
        let mut effects: Vec<Effect> = Vec::new();
        match (self.stage, event) {
            (Stage::Head, Event::Shutdown(quit)) => {
                self.stage = if quit {
                    Stage::Stopped
                } else {
                    Stage::Fetching
                };
            },
            (Stage::Fetching, Event::Job(None)) => {
                self.stage = Stage::Draining;
            },
            (Stage::Fetching, Event::Job(Some(job))) => {
                if job.in_place && job.mode == CleanupMode::Keep {
                    effects.push(Effect::SkipWithNote);
                    self.stage = Stage::Head;
                } else if job.floor.is_some() && job.has_dir {
                    self.stage = Stage::Measuring(job);
                } else {
                    return self.take_on(job);
                }
            },
            (Stage::Measuring(job), Event::Free(Some(available))) => {
                let floor: u64 = match job.floor {
                    Some(f) => f,
                    None => {
                        return self.take_on(job);
                    },
                };
                let size: u64 = match job.original_size {
                    Some(n) => if n > 0 {
                        n as u64
                    } else {
                        0
                    },
                    None => 0,
                };
                if has_enough_disk(available, floor, size) {
                    return self.take_on(job);
                }
                let required: u64 = required_free_bytes(floor, size);
                effects.push(Effect::ShowLowDisk { available, required });
                effects.push(Effect::ShowStatus(self.status()));
                self.stage = Stage::Stopped;
            },
            (Stage::Measuring(job), Event::Free(None)) => {
                return self.take_on(job);
            },
            (Stage::Claiming(job), Event::Claimed(claimed)) => {
                if claimed {
                    effects.push(Effect::BeginJob);
                    self.stage = Stage::Counting(job);
                } else {
                    self.stage = Stage::Head;
                }
            },
            (Stage::Counting(job), Event::Waiting(waiting)) => {
                effects.push(Effect::ShowEncoding { waiting });
                if job.in_place {
                    effects.push(Effect::RemoveTarget);
                }
                self.stage = Stage::Spawning(job);
            },
            (Stage::Spawning(job), Event::Spawned(started)) => {
                if started {
                    self.stage = Stage::Storing(job);
                } else {
                    effects.push(Effect::RecordFailure(Failure::NotStarted));
                    self.had_errors = true;
                    self.stage = Stage::Failing(true);
                }
            },
            (Stage::Storing(job), Event::Shutdown(quit)) => {
                if quit {
                    effects.push(Effect::KillEncoder);
                }
                self.stage = Stage::Encoding(job);
            },
            (Stage::Encoding(job), Event::Exited(well)) => {
                effects.push(Effect::EndJob);
                self.stage = if well {
                    Stage::SizingOutput(job)
                } else {
                    Stage::Quitting
                };
            },
            (Stage::SizingOutput(job), Event::Size(size)) => {
                let converted: i64 = match size {
                    Some(n) => n,
                    None => 0,
                };
                if converted == 0 {
                    effects.push(Effect::RemoveTarget);
                    effects.push(Effect::RecordFailure(Failure::EmptyOutput));
                    self.had_errors = true;
                    self.stage = Stage::Failing(false);
                } else if job.in_place {
                    self.stage = Stage::SizingSource(job, converted);
                } else {
                    let original: i64 = match job.original_size {
                        Some(n) => n,
                        None => 0,
                    };
                    return self.settle(job, original, converted);
                }
            },
            (Stage::SizingSource(job, converted), Event::Size(size)) => {
                let original: i64 = match size {
                    Some(n) => n,
                    None => match job.original_size {
                        Some(n) => n,
                        None => 0,
                    },
                };
                return self.settle(job, original, converted);
            },
            (Stage::Applying(job, _, out), Event::Applied(done)) => {
                if in_place_apply_is_fatal(out.kept, !done) {
                    let why: Failure = if job.mode == CleanupMode::Delete {
                        Failure::SourceUnchanged
                    } else {
                        Failure::SourceMaybeTrashed
                    };
                    effects.push(Effect::RecordFailure(why));
                    self.had_errors = true;
                    self.stage = Stage::Failing(false);
                } else {
                    effects.push(Effect::RecordOutcome(out));
                    effects.push(Effect::RefreshIdentity);
                    self.stage = Stage::Notifying(out);
                }
            },
            (Stage::Notifying(out), Event::FileNotices { per_file, errors_only }) => {
                if per_file != Some(false) && errors_only != Some(true) {
                    effects.push(Effect::NotifyOutcome(out));
                }
                self.stage = Stage::Pausing;
            },
            (Stage::Pausing, Event::PauseAfter(pause)) => {
                if pause {
                    effects.push(Effect::RememberPause);
                    effects.push(Effect::ShowStatus(RunStatus::Idle));
                    self.stage = Stage::Draining;
                } else {
                    self.stage = Stage::Head;
                }
            },
            (Stage::Quitting, Event::Shutdown(quit)) => {
                if quit {
                    self.stage = Stage::Head;
                } else {
                    effects.push(Effect::RemoveTarget);
                    self.had_errors = true;
                    self.stage = Stage::Checking;
                }
            },
            (Stage::Checking, Event::StoredAsError(stored)) => {
                if stored {
                    self.stage = Stage::Head;
                } else {
                    effects.push(Effect::RecordFailure(Failure::EncodeFailed));
                    self.stage = Stage::Failing(false);
                }
            },
            (Stage::Failing(forget), Event::Notice(notice)) => {
                if notice != Some(false) {
                    effects.push(Effect::NotifyFailure);
                }
                if forget {
                    effects.push(Effect::ForgetJob);
                }
                self.stage = Stage::Head;
            },
            (Stage::Draining, Event::Notice(notice)) => {
                if notice != Some(false) {
                    effects.push(Effect::NotifyQueueDone);
                }
                effects.push(Effect::ShowStatus(self.status()));
                self.stage = Stage::Stopped;
            },
            _ => {},
        }
        assert(effects@ =~= next(*old(self), event).1);
        effects
    }
}

/// The name under which a job is shown.
pub open spec fn label(source: Seq<char>) -> Seq<char> {
    match file_name(source) {
        Some(name) => name,
        None => "unknown"@,
    }
}

/// The name under which a job is shown.
pub fn job_label(source_path: &str) -> (r: String)
    ensures
        r@ == label(source_path@),
{
    match file_name_of(source_path) {
        Some(name) => name,
        None => "unknown".to_owned(),
    }
}

/// The file that the encode of a job writes.
pub open spec fn target(job: JobInfo) -> Seq<char> {
    if same_path(job.source_path@, job.output_path@) {
        temp_path(job.source_path@)
    } else {
        job.output_path@
    }
}

/// The file that the encode of a job writes.
pub fn encode_target(job: &JobInfo) -> (r: String)
    ensures
        r@ == target(*job),
{
    if is_in_place(&job.source_path, &job.output_path) {
        in_place_temp_path(&job.source_path)
    } else {
        job.output_path.clone()
    }
}

/// No encode writes onto its source.
pub proof fn encodes_spare_their_source(job: JobInfo)
    ensures
        !same_path(target(job), job.source_path@),
{
    in_place_encodes_spare_the_source(job.source_path@);
}

/// The directory whose free space decides whether the encode of a job may start.
pub fn encode_dir(job: &JobInfo) -> (r: Option<String>)
    ensures
        crate::paths::opt_view(r) == parent(job.output_path@),
{
    parent_of(&job.output_path)
}

/// The arguments that the encoder is started with.
pub open spec fn arguments(job: JobInfo) -> Seq<Seq<char>> {
    seq![
        "-Z"@,
        job.preset@,
        "-O"@,
        "-i"@,
        job.source_path@,
        "-o"@,
        target(job),
    ]
}

/// The arguments that the encoder is started with.
pub fn encoder_args(job: &JobInfo) -> (r: Vec<String>)
    ensures
        r.deep_view() == arguments(*job),
{
    let r: Vec<String> = vec![
        "-Z".to_owned(),
        job.preset.clone(),
        "-O".to_owned(),
        "-i".to_owned(),
        job.source_path.clone(),
        "-o".to_owned(),
        encode_target(job),
    ];
    assert(r.deep_view() =~= arguments(*job));
    r
}

/// The path of one of a job's files.
pub fn file_path(job: &JobInfo, file: JobFile) -> (r: String)
    ensures
        r@ == match file {
            JobFile::Source => job.source_path@,
            JobFile::Output => job.output_path@,
        },
{
    match file {
        JobFile::Source => job.source_path.clone(),
        JobFile::Output => job.output_path.clone(),
    }
}

/// The message stored for a failure. `detail` is why the encoder did not start, or the end of its
/// error stream.
pub open spec fn failure_words(failure: Failure, detail: Seq<char>) -> Seq<char> {
    match failure {
        Failure::NoEncoder => "HandBrakeCLI not found"@,
        Failure::NotStarted => "Failed to start HandBrakeCLI: "@ + detail,
        Failure::EmptyOutput => failure_text("Conversion produced an empty output file"@, detail),
        Failure::SourceUnchanged => "In-place replacement failed; original left unchanged"@,
        Failure::SourceMaybeTrashed => "In-place replacement failed; original may be in Trash"@,
        Failure::EncodeFailed => failure_text("Conversion failed"@, detail),
    }
}

impl Failure {
    /// The message stored for a failure.
    pub fn message(self, detail: &str) -> (r: String)
        ensures
            r@ == failure_words(self, detail@),
    {
        match self {
            Failure::NoEncoder => "HandBrakeCLI not found".to_owned(),
            Failure::NotStarted => joined2("Failed to start HandBrakeCLI: ", detail),
            Failure::EmptyOutput => empty_output_error_message(detail),
            Failure::SourceUnchanged => {
                "In-place replacement failed; original left unchanged".to_owned()
            },
            Failure::SourceMaybeTrashed => {
                "In-place replacement failed; original may be in Trash".to_owned()
            },
            Failure::EncodeFailed => error_message_from_tail(detail),
        }
    }
}

impl Outcome {
    /// The status that a job is stored with.
    pub fn status(self) -> (r: &'static str)
        ensures
            r@ == (if self.skipped {
                "skipped"@
            } else {
                "done"@
            }),
    {
        if self.skipped {
            "skipped"
        } else {
            "done"
        }
    }

    /// The name of the file that stayed, as it is stored.
    pub fn kept_file(self) -> (r: &'static str)
        ensures
            r@ == (if self.kept == KeptFile::Converted {
                "converted"@
            } else {
                "original"@
            }),
    {
        match self.kept {
            KeptFile::Converted => "converted",
            KeptFile::Original | KeptFile::Neither => "original",
        }
    }

    /// What the user is told of a job that ended well.
    pub fn notification(self, label: &str) -> (r: String)
        ensures
            r@ == (if self.skipped {
                label@ + " — kept original (converted was larger)"@
            } else {
                label@ + " converted — saved "@ + short_bytes(self.saved as int)
            }),
    {
        if self.skipped {
            joined2(label, " — kept original (converted was larger)")
        } else {
            joined3(label, " converted — saved ", &format_bytes_short(self.saved))
        }
    }
}

/// What is noted of a job that has no second file to keep.
pub const IN_PLACE_NOTE: &'static str =
    "Skipped: an empty output suffix leaves no second file to keep";

/// What the user is told when the queue is done.
pub const QUEUE_DONE_NOTICE: &'static str = "Queue complete";

/// What the user is told of a job that failed.
pub fn failure_notification(label: &str) -> (r: String)
    ensures
        r@ == label@ + " failed"@,
{
    joined2(label, " failed")
}

impl RunStatus {
    /// The name of a status.
    pub fn as_str(self) -> (r: &'static str)
        ensures
            r@ == match self {
                RunStatus::Idle => "idle"@,
                RunStatus::Error => "error"@,
            },
    {
        match self {
            RunStatus::Idle => "idle",
            RunStatus::Error => "error",
        }
    }
}

/// Where a run stands after it was told several things.
pub open spec fn after(run: QueueRun, events: Seq<Event>) -> QueueRun
    decreases events.len(),
{
    if events.len() == 0 {
        run
    } else {
        next(after(run, events.drop_last()), events.last()).0
    }
}

/// Whether a run can be told several things in turn.
pub open spec fn all_fit(run: QueueRun, events: Seq<Event>) -> bool
    decreases events.len(),
{
    events.len() == 0 || (all_fit(run, events.drop_last()) && fits(
        after(run, events.drop_last()),
        events.last(),
    ))
}

/// Every step keeps a run sound.
pub proof fn steps_keep_runs_sound(run: QueueRun, event: Event)
    requires
        sound(run),
        fits(run, event),
    ensures
        sound(next(run, event).0),
{
}

/// A run is sound from its start on, whatever it is told.
pub proof fn runs_are_sound(events: Seq<Event>)
    requires
        all_fit(QueueRun { had_errors: false, stage: Stage::Head }, events),
    ensures
        sound(after(QueueRun { had_errors: false, stage: Stage::Head }, events)),
    decreases events.len(),
{
    if events.len() > 0 {
        runs_are_sound(events.drop_last());
        steps_keep_runs_sound(
            after(QueueRun { had_errors: false, stage: Stage::Head }, events.drop_last()),
            events.last(),
        );
    }
}

/// Whether an effect takes the source away from its place.
pub open spec fn takes_source(effect: Effect) -> bool {
    effect == Effect::DeleteFile(JobFile::Source) || effect == Effect::MoveToTrash(JobFile::Source)
}

/// The source of a job with an output of its own goes only when the encode ended well, the output
/// is not empty and smaller than the source, and the user does not keep both files.
pub proof fn source_goes_only_for_a_smaller_output(run: QueueRun, event: Event, i: int)
    requires
        sound(run),
        fits(run, event),
        0 <= i < next(run, event).1.len(),
        takes_source(next(run, event).1[i]),
    ensures
        run.stage matches Stage::SizingOutput(job) && event matches Event::Size(Some(converted))
            && !job.in_place && job.mode != CleanupMode::Keep && 0 < converted < known_size(job),
{
}

/// The files of an in-place job are put in order so that the source is replaced only by an output
/// that is not empty and smaller, and not where the user keeps both files.
pub proof fn source_is_replaced_only_by_a_smaller_output(run: QueueRun)
    requires
        sound(run),
    ensures
        run.stage matches Stage::Applying(job, action, out) ==> action != InPlaceAction::RemoveTemp
            ==> job.in_place && job.mode != CleanupMode::Keep && 0 < out.converted < out.original,
{
    reveal_strlit("trash");
    reveal_strlit("delete");
    reveal_strlit("keep");
}

/// Where the user keeps both files, no step removes the source or the output of a job.
pub proof fn keep_mode_removes_neither_file(run: QueueRun, event: Event, i: int)
    requires
        sound(run),
        fits(run, event),
        run.stage matches Stage::SizingOutput(job) ==> job.mode == CleanupMode::Keep,
        0 <= i < next(run, event).1.len(),
    ensures
        !(next(run, event).1[i] is DeleteFile),
        !(next(run, event).1[i] is MoveToTrash),
{
}

/// A job whose output would take the place of the source while both files are to stay is passed over
/// with a note: it is not claimed, counts as no failure, and nothing happens to its file. Only such
/// a job is passed over so.
pub proof fn jobs_without_a_second_file_are_skipped(run: QueueRun, event: Event, job: JobFacts)
    requires
        fits(run, event),
    ensures
        run.stage is Fetching && has_no_second_file(job) ==> next(run, Event::Job(Some(job))) == (
            at(run, Stage::Head),
            seq![Effect::SkipWithNote],
        ),
        next(run, event).1.contains(Effect::SkipWithNote) <==> run.stage is Fetching && (event
            matches Event::Job(Some(j)) && has_no_second_file(j)),
{
    let done = next(run, event).1;
    if run.stage is Fetching && (event matches Event::Job(Some(j)) && has_no_second_file(j)) {
        assert(done[0] == Effect::SkipWithNote);
    }
}

/// A run that stops because it was told to after a job stores that it paused, and no other run does.
pub proof fn asked_for_pauses_are_remembered(run: QueueRun, event: Event)
    requires
        fits(run, event),
    ensures
        next(run, event).1.contains(Effect::RememberPause) <==> run.stage is Pausing && event
            == Event::PauseAfter(true),
        run.stage is Pausing && event == Event::PauseAfter(true) ==> next(
            run,
            event,
        ).0.stage is Draining,
{
    if run.stage is Pausing && event == Event::PauseAfter(true) {
        assert(next(run, event).1[0] == Effect::RememberPause);
    }
}

/// A pause for want of room changes nothing: the run stops before the job is claimed, and all it
/// does is to say so.
pub proof fn low_disk_leaves_the_job_waiting(run: QueueRun, available: u64)
    requires
        sound(run),
        run.stage is Measuring,
        next(run, Event::Free(Some(available))).0.stage is Stopped,
    ensures
        ({
            let job = run.stage->Measuring_0;
            let done = next(run, Event::Free(Some(available)));
            &&& available < needed(job, job.floor->0)
            &&& done.0.had_errors == run.had_errors
            &&& done.1 =~= seq![
                Effect::ShowLowDisk { available, required: needed(job, job.floor->0) as u64 },
                Effect::ShowStatus(end_status(run)),
            ]
        }),
{
}

/// Without a floor, without a directory to ask for, or without an answer, no job is held back.
pub proof fn room_is_not_asked_for_in_vain(run: QueueRun, job: JobFacts)
    requires
        run.stage is Fetching,
        job.encoder_found,
        !has_no_second_file(job),
    ensures
        job.floor is None || !job.has_dir ==> next(run, Event::Job(Some(job))).0.stage
            == Stage::Claiming(job),
        job.floor is Some && job.has_dir ==> next(
            next(run, Event::Job(Some(job))).0,
            Event::Free(None),
        ).0.stage == Stage::Claiming(job),
{
}

/// No encoder is started for a job that was not claimed: a job that is gone from the queue is
/// passed over.
pub proof fn only_claimed_jobs_are_encoded(run: QueueRun, event: Event, job: JobFacts)
    requires
        fits(run, event),
    ensures
        next(run, event).0.stage == Stage::Spawning(job) ==> run.stage == Stage::Counting(job),
        next(run, event).0.stage == Stage::Counting(job) ==> run.stage == Stage::Claiming(job)
            && event == Event::Claimed(true),
        run.stage is Claiming ==> next(run, Event::Claimed(false)) == (
            at(run, Stage::Head),
            Seq::<Effect>::empty(),
        ),
{
}

/// Quitting during an encode leaves the job as it is stored: nothing is recorded, removed or said,
/// the run does not count a failure, and it stops.
pub proof fn quitting_leaves_the_job_alone(run: QueueRun)
    requires
        run.stage is Quitting,
    ensures
        next(run, Event::Shutdown(true)).1 =~= seq![],
        next(run, Event::Shutdown(true)).0 == at(run, Stage::Head),
        next(at(run, Stage::Head), Event::Shutdown(true)).1 =~= seq![],
        next(at(run, Stage::Head), Event::Shutdown(true)).0 == at(run, Stage::Stopped),
{
}

/// A failure that is recorded is remembered to the end of the run.
pub proof fn recorded_failures_are_remembered(run: QueueRun, event: Event)
    requires
        sound(run),
        fits(run, event),
    ensures
        run.had_errors ==> next(run, event).0.had_errors,
        forall|i: int|
            0 <= i < next(run, event).1.len() && #[trigger] next(run, event).1[i] is RecordFailure
                ==> next(run, event).0.had_errors,
{
}

/// The queue is reported done with the status that its failures give, and only where no job is
/// left or the user asked to stop.
pub proof fn a_drained_run_shows_its_failures(run: QueueRun, notice: Option<bool>)
    requires
        run.stage is Draining,
    ensures
        next(run, Event::Notice(notice)).0.stage is Stopped,
        next(run, Event::Notice(notice)).1.last() == Effect::ShowStatus(end_status(run)),
        next(run, Event::Notice(notice)).1.contains(Effect::NotifyQueueDone) <==> setting_or(
            notice,
            true,
        ),
{
    let e = next(run, Event::Notice(notice)).1;
    if setting_or(notice, true) {
        assert(e[0] == Effect::NotifyQueueDone);
    }
}

/// A file is deleted only where the user wants files deleted, and goes to the trash only where the
/// user wants that.
pub proof fn files_go_as_the_mode_says(run: QueueRun, event: Event, i: int)
    requires
        sound(run),
        fits(run, event),
        0 <= i < next(run, event).1.len(),
    ensures
        next(run, event).1[i] is DeleteFile ==> (run.stage matches Stage::SizingOutput(job)
            && job.mode == CleanupMode::Delete && !job.in_place),
        next(run, event).1[i] is MoveToTrash ==> (run.stage matches Stage::SizingOutput(job)
            && job.mode == CleanupMode::Trash && !job.in_place),
{
}

/// Of two files the smaller stays: once an encode that wrote a file of its own ended well, the other
/// one goes to the trash or is deleted, as the user wants it, and what became of the job is recorded
/// after that. Where the user keeps both, neither goes.
pub proof fn the_larger_file_goes(run: QueueRun, job: JobFacts, original: i64, converted: i64)
    requires
        run.stage == Stage::SizingOutput(job),
        sound(run),
        !job.in_place,
        job.original_size == Some(original),
        original >= 0,
        converted > 0,
    ensures
        ({
            let done = next(run, Event::Size(Some(converted)));
            let loser = if converted < original {
                JobFile::Source
            } else {
                JobFile::Output
            };
            &&& done.1.len() > 0
            &&& done.1.last() is RecordOutcome
            &&& job.mode == CleanupMode::Trash ==> done.1.drop_last() == seq![
                Effect::MoveToTrash(loser),
            ]
            &&& job.mode == CleanupMode::Delete ==> done.1.drop_last() == seq![
                Effect::DeleteFile(loser),
            ]
            &&& job.mode == CleanupMode::Keep ==> done.1.len() == 1
            &&& done.0.stage is Notifying
            &&& done.0.had_errors == run.had_errors
        }),
{
    let done = next(run, Event::Size(Some(converted)));
    let loser = if converted < original {
        JobFile::Source
    } else {
        JobFile::Output
    };
    if job.mode == CleanupMode::Trash {
        assert(done.1.drop_last() =~= seq![Effect::MoveToTrash(loser)]);
    }
    if job.mode == CleanupMode::Delete {
        assert(done.1.drop_last() =~= seq![Effect::DeleteFile(loser)]);
    }
}

/// What is recorded of an encode that ended well: the two sizes and their difference, the smaller
/// file as the one that stays, and that the job was skipped where the output is not smaller.
pub proof fn outcomes_tell_the_sizes(run: QueueRun, event: Event, i: int)
    requires
        sound(run),
        fits(run, event),
        0 <= i < next(run, event).1.len(),
    ensures
        next(run, event).1[i] matches Effect::RecordOutcome(out) ==> {
            &&& out.converted > 0 ==> out.saved == out.original - out.converted
            &&& out.converted <= 0 ==> out.saved == 0
            &&& out.kept == KeptFile::Converted <==> 0 < out.converted < out.original
            &&& out.kept == KeptFile::Original <==> 0 < out.converted && out.original
                <= out.converted
            &&& out.skipped <==> out.original <= out.converted
            &&& run.stage matches Stage::SizingOutput(job) ==> event == Event::Size(
                Some(out.converted),
            ) && out.original == (match job.original_size {
                Some(n) => n,
                None => 0,
            })
            &&& run.stage is SizingOutput || run.stage is Applying
        },
{
}

/// The files of an in-place job are weighed as they stand when the encode is done, and put in order
/// by that: a smaller output takes the place of the source, which goes to the trash first unless the
/// user wants files deleted; else the output goes and the source stays.
pub proof fn in_place_files_are_put_in_order(
    run: QueueRun,
    job: JobFacts,
    converted: i64,
    source_size: Option<i64>,
)
    requires
        run.stage == Stage::SizingSource(job, converted),
        sound(run),
        fits(run, Event::Size(source_size)),
    ensures
        ({
            let done = next(run, Event::Size(source_size));
            let original = match (source_size, job.original_size) {
                (Some(n), _) => n,
                (None, Some(n)) => n,
                (None, None) => 0,
            };
            &&& done.1 == Seq::<Effect>::empty()
            &&& done.0.had_errors == run.had_errors
            &&& done.0.stage matches Stage::Applying(j, action, out) && {
                &&& j == job
                &&& out.original == original
                &&& out.converted == converted
                &&& action == InPlaceAction::RenameTempOverSource <==> job.mode
                    == CleanupMode::Delete && 0 < converted < original
                &&& action == InPlaceAction::TrashSourceThenRename <==> job.mode
                    == CleanupMode::Trash && 0 < converted < original
            }
        }),
{
    reveal_strlit("trash");
    reveal_strlit("delete");
    reveal_strlit("keep");
    assert("trash"@.len() == 5 && "delete"@.len() == 6 && "keep"@.len() == 4);
}

/// An in-place output that could not take the place of the source fails the job, and the user is
/// told where the source may be; anything else that could not be put in order does not.
pub proof fn only_failed_replacements_fail_the_job(
    run: QueueRun,
    job: JobFacts,
    action: InPlaceAction,
    out: Outcome,
    applied: bool,
)
    requires
        run.stage == Stage::Applying(job, action, out),
        sound(run),
    ensures
        ({
            let done = next(run, Event::Applied(applied));
            if !applied && 0 < out.converted < out.original {
                &&& done.0.stage == Stage::Failing(false)
                &&& done.0.had_errors
                &&& done.1.len() == 1
                &&& job.mode == CleanupMode::Delete ==> done.1[0] == Effect::RecordFailure(
                    Failure::SourceUnchanged,
                )
                &&& job.mode == CleanupMode::Trash ==> done.1[0] == Effect::RecordFailure(
                    Failure::SourceMaybeTrashed,
                )
            } else {
                &&& done.0.stage == Stage::Notifying(out)
                &&& done.0.had_errors == run.had_errors
                &&& done.1 == seq![Effect::RecordOutcome(out), Effect::RefreshIdentity]
            }
        }),
{
}

/// Whether a stage is one of a job that was claimed and of which nothing is recorded yet.
pub open spec fn has_open_job(stage: Stage) -> bool {
    ||| stage is Counting
    ||| stage is Spawning
    ||| stage is Storing
    ||| stage is Encoding
    ||| stage is SizingOutput
    ||| stage is SizingSource
    ||| stage is Applying
    ||| stage is Quitting
    ||| stage is Checking
}

/// Whether an effect records what became of the job at hand.
pub open spec fn records(effect: Effect) -> bool {
    effect is RecordFailure || effect is RecordOutcome
}

/// No claimed job is lost: until a failure or an outcome is recorded, the run stays with the job,
/// unless the program shuts down or the job is already stored as failed.
pub proof fn claimed_jobs_are_accounted_for(run: QueueRun, event: Event)
    requires
        sound(run),
        fits(run, event),
    ensures
        run.stage is Claiming && event == Event::Claimed(true) ==> has_open_job(
            next(run, event).0.stage,
        ),
        has_open_job(run.stage) ==> {
            ||| has_open_job(next(run, event).0.stage)
            ||| exists|i: int|
                0 <= i < next(run, event).1.len() && records(#[trigger] next(run, event).1[i])
            ||| run.stage is Quitting && event == Event::Shutdown(true)
            ||| run.stage is Checking && event == Event::StoredAsError(true)
        },
        !has_open_job(run.stage) && !(run.stage is Claiming) ==> !has_open_job(
            next(run, event).0.stage,
        ),
{
    let done = next(run, event);
    if has_open_job(run.stage) && !has_open_job(done.0.stage) && done.1.len() > 0 {
        assert(records(done.1[0]) || records(done.1.last()));
        assert(records(done.1[0]) || records(done.1[done.1.len() - 1]));
    }
}

/// Whether one of the steps that events lead to records what became of the job at hand.
pub open spec fn recorded_within(run: QueueRun, events: Seq<Event>) -> bool
    decreases events.len(),
{
    events.len() > 0 && (recorded_within(run, events.drop_last()) || exists|i: int|
        0 <= i < next(after(run, events.drop_last()), events.last()).1.len() && records(
            #[trigger] next(after(run, events.drop_last()), events.last()).1[i],
        ))
}

/// Whether an event excuses a run from recording the job at hand.
pub open spec fn excuses(event: Event) -> bool {
    event == Event::Shutdown(true) || event == Event::StoredAsError(true)
}

/// From a claimed job the run does not get to another without recording what became of it, however
/// long that takes, unless the program shuts down or the job is already stored as failed.
pub proof fn the_next_job_comes_after_a_record(run: QueueRun, events: Seq<Event>)
    requires
        sound(run),
        has_open_job(run.stage),
        all_fit(run, events),
        !has_open_job(after(run, events).stage),
        forall|i: int| 0 <= i < events.len() ==> !excuses(#[trigger] events[i]),
    ensures
        recorded_within(run, events),
    decreases events.len(),
{
    if events.len() > 0 {
        let fewer = events.drop_last();
        lemma_sound_after(run, fewer);
        assert forall|i: int| 0 <= i < fewer.len() implies !excuses(#[trigger] fewer[i]) by {
            assert(fewer[i] == events[i]);
        }
        if has_open_job(after(run, fewer).stage) {
            claimed_jobs_are_accounted_for(after(run, fewer), events.last());
            assert(!excuses(events[events.len() - 1]));
        } else {
            the_next_job_comes_after_a_record(run, fewer);
        }
    }
}

/// A run stays sound, whatever it is told.
proof fn lemma_sound_after(run: QueueRun, events: Seq<Event>)
    requires
        sound(run),
        all_fit(run, events),
    ensures
        sound(after(run, events)),
    decreases events.len(),
{
    if events.len() > 0 {
        lemma_sound_after(run, events.drop_last());
        steps_keep_runs_sound(after(run, events.drop_last()), events.last());
    }
}

/// An encode that failed is recorded as failed, what it wrote is removed, the user is told unless
/// they do not want that, and the run goes on to the next job with the failure remembered. A job
/// that is already stored as failed, because it was cancelled, is not recorded again.
pub proof fn failed_encodes_are_recorded(
    run: QueueRun,
    job: JobFacts,
    stored: bool,
    notice: Option<bool>,
)
    requires
        run.stage == Stage::Encoding(job),
        sound(run),
    ensures
        ({
            let ended = next(run, Event::Exited(false));
            let stays = next(ended.0, Event::Shutdown(false));
            let checked = next(stays.0, Event::StoredAsError(stored));
            let told = next(checked.0, Event::Notice(notice));
            &&& ended.1 == seq![Effect::EndJob]
            &&& stays.1 == seq![Effect::RemoveTarget]
            &&& stays.0.had_errors
            &&& stored ==> checked.1 == Seq::<Effect>::empty() && checked.0 == (QueueRun {
                had_errors: true,
                stage: Stage::Head,
            })
            &&& !stored ==> {
                &&& checked.1 == seq![Effect::RecordFailure(Failure::EncodeFailed)]
                &&& checked.0.stage == Stage::Failing(false)
                &&& told.1 == (if notice == Some(false) {
                    Seq::<Effect>::empty()
                } else {
                    seq![Effect::NotifyFailure]
                })
                &&& told.0 == (QueueRun { had_errors: true, stage: Stage::Head })
            }
        }),
{
    let told = next(
        QueueRun { had_errors: true, stage: Stage::Failing(false) },
        Event::Notice(notice),
    );
    assert(told.1 =~= if notice == Some(false) {
        Seq::<Effect>::empty()
    } else {
        seq![Effect::NotifyFailure]
    });
}

/// A job for which there is no encoder, whose encoder does not start or writes nothing is recorded
/// as failed, for that reason; what was written is removed. The user is told unless they do not want
/// that, and the run goes on to the next job with the failure remembered.
pub proof fn jobs_that_cannot_be_encoded_are_recorded(
    run: QueueRun,
    job: JobFacts,
    size: Option<i64>,
    notice: Option<bool>,
)
    requires
        sound(run),
        size is None || size == Some(0i64),
    ensures
        run.stage is Fetching && !job.encoder_found && !(job.in_place && job.mode
            == CleanupMode::Keep) && job.floor is None ==> {
            let none = next(run, Event::Job(Some(job)));
            &&& none.1 == seq![Effect::RecordFailure(Failure::NoEncoder)]
            &&& none.0 == (QueueRun { had_errors: true, stage: Stage::Failing(false) })
        },
        run.stage == Stage::Spawning(job) ==> {
            let lost = next(run, Event::Spawned(false));
            let told = next(lost.0, Event::Notice(notice));
            &&& lost.1 == seq![Effect::RecordFailure(Failure::NotStarted)]
            &&& lost.0.had_errors
            &&& told.1.last() == Effect::ForgetJob
            &&& told.1.contains(Effect::NotifyFailure) <==> notice != Some(false)
            &&& told.0 == (QueueRun { had_errors: true, stage: Stage::Head })
        },
        run.stage == Stage::SizingOutput(job) ==> {
            let empty = next(run, Event::Size(size));
            &&& empty.1 == seq![Effect::RemoveTarget, Effect::RecordFailure(Failure::EmptyOutput)]
            &&& empty.0 == (QueueRun { had_errors: true, stage: Stage::Failing(false) })
        },
{
    if run.stage == Stage::Spawning(job) {
        let lost = next(run, Event::Spawned(false));
        let told = next(lost.0, Event::Notice(notice));
        if notice != Some(false) {
            assert(told.1 =~= seq![Effect::NotifyFailure, Effect::ForgetJob]);
            assert(told.1[0] == Effect::NotifyFailure);
        } else {
            assert(told.1 =~= seq![Effect::ForgetJob]);
        }
    }
}

/// A job that is taken on is encoded: from the head of the run it is fetched, claimed, shown with
/// the number of those that wait, and its encoder is started and awaited. Nothing else happens on
/// the way, but that the file that an in-place encode writes is removed first.
pub proof fn a_claimed_job_is_encoded(run: QueueRun, job: JobFacts, waiting: u64)
    requires
        run.stage is Head,
        job.encoder_found,
        job.floor is None || !job.has_dir,
        !(job.in_place && job.mode == CleanupMode::Keep),
    ensures
        ({
            let begun = next(run, Event::Shutdown(false));
            let fetched = next(begun.0, Event::Job(Some(job)));
            let claimed = next(fetched.0, Event::Claimed(true));
            let counted = next(claimed.0, Event::Waiting(waiting));
            let spawned = next(counted.0, Event::Spawned(true));
            let stored = next(spawned.0, Event::Shutdown(false));
            &&& begun.1 + fetched.1 == Seq::<Effect>::empty()
            &&& claimed.1 == seq![Effect::BeginJob]
            &&& counted.1 == (if job.in_place {
                seq![Effect::ShowEncoding { waiting }, Effect::RemoveTarget]
            } else {
                seq![Effect::ShowEncoding { waiting }]
            })
            &&& spawned.1 + stored.1 == Seq::<Effect>::empty()
            &&& stored.0 == (QueueRun { had_errors: run.had_errors, stage: Stage::Encoding(job) })
        }),
{
    let begun = next(run, Event::Shutdown(false));
    let fetched = next(begun.0, Event::Job(Some(job)));
    assert(begun.1 + fetched.1 =~= Seq::<Effect>::empty());
    let claimed = next(fetched.0, Event::Claimed(true));
    let counted = next(claimed.0, Event::Waiting(waiting));
    let spawned = next(counted.0, Event::Spawned(true));
    let stored = next(spawned.0, Event::Shutdown(false));
    assert(spawned.1 + stored.1 =~= Seq::<Effect>::empty());
}

/// A job that is done is reported and the run goes on: the user is told of it unless they do not
/// want notices, or only those of failures; then the run takes the next job, or stops where it was
/// told to stop after this one.
pub proof fn done_jobs_are_reported(
    run: QueueRun,
    out: Outcome,
    per_file: Option<bool>,
    errors_only: Option<bool>,
    pause: bool,
)
    requires
        run.stage == Stage::Notifying(out),
    ensures
        ({
            let told = next(run, Event::FileNotices { per_file, errors_only });
            let went = next(told.0, Event::PauseAfter(pause));
            &&& told.1 == (if per_file == Some(false) || errors_only == Some(true) {
                Seq::<Effect>::empty()
            } else {
                seq![Effect::NotifyOutcome(out)]
            })
            &&& told.0.had_errors == run.had_errors
            &&& went.0.had_errors == run.had_errors
            &&& pause ==> went.0.stage is Draining && went.1.contains(
                Effect::ShowStatus(RunStatus::Idle),
            )
            &&& !pause ==> went.0.stage is Head && went.1 == Seq::<Effect>::empty()
        }),
{
    let told = next(run, Event::FileNotices { per_file, errors_only });
    let went = next(told.0, Event::PauseAfter(pause));
    if pause {
        assert(went.1[1] == Effect::ShowStatus(RunStatus::Idle));
    }
}

/// An encode that ended well is weighed: its output at once where it has a file of its own, else
/// once the source was looked at too.
pub proof fn good_encodes_are_weighed(run: QueueRun, job: JobFacts, converted: i64)
    requires
        run.stage == Stage::Encoding(job),
        sound(run),
        converted != 0,
    ensures
        ({
            let ended = next(run, Event::Exited(true));
            &&& ended.1 == seq![Effect::EndJob]
            &&& ended.0 == (QueueRun {
                had_errors: run.had_errors,
                stage: Stage::SizingOutput(job),
            })
            &&& job.in_place ==> next(ended.0, Event::Size(Some(converted))) == (
                QueueRun {
                    had_errors: run.had_errors,
                    stage: Stage::SizingSource(job, converted),
                },
                Seq::<Effect>::empty(),
            )
        }),
{
}

/// A program that shuts down starts no job and kills an encoder that was just started; and a run
/// that is over stays so.
pub proof fn shutting_down_ends_the_run(run: QueueRun, event: Event)
    ensures
        run.stage is Head ==> next(run, Event::Shutdown(true)) == (
            QueueRun { had_errors: run.had_errors, stage: Stage::Stopped },
            Seq::<Effect>::empty(),
        ),
        run.stage matches Stage::Storing(job) ==> next(run, Event::Shutdown(true)) == (
            QueueRun { had_errors: run.had_errors, stage: Stage::Encoding(job) },
            seq![Effect::KillEncoder],
        ),
        run.stage is Stopped ==> !fits(run, event),
        run.stage is Fetching ==> next(run, Event::Job(None)) == (
            QueueRun { had_errors: run.had_errors, stage: Stage::Draining },
            Seq::<Effect>::empty(),
        ),
{
}

/// A job is held back for want of room exactly where less is free than the floor and twice the size
/// of its source, as far as those are numbers that a machine holds.
pub proof fn jobs_wait_for_room(run: QueueRun, job: JobFacts, floor: u64, available: u64)
    requires
        run.stage == Stage::Measuring(job),
        sound(run),
        job.floor == Some(floor),
        job.original_size matches Some(n) && n >= 0,
    ensures
        ({
            let done = next(run, Event::Free(Some(available)));
            let need = floor + 2 * job.original_size->0;
            &&& need <= u64::MAX ==> (done.0.stage is Stopped <==> available < need)
            &&& need > u64::MAX ==> (done.0.stage is Stopped <==> available < u64::MAX)
            &&& !(done.0.stage is Stopped) && job.encoder_found ==> done == (
                QueueRun { had_errors: run.had_errors, stage: Stage::Claiming(job) },
                Seq::<Effect>::empty(),
            )
            &&& done.0.stage is Stopped && need <= u64::MAX ==> done.1[0] == (
            Effect::ShowLowDisk { available, required: need as u64 })
        }),
{
}

/// The name that a mode is stored under names it, and whatever else is stored names the trash, which
/// can be undone.
pub proof fn unknown_modes_can_be_undone(name: Seq<char>)
    ensures
        named_mode(name) == CleanupMode::Delete <==> name == "delete"@,
        named_mode(name) == CleanupMode::Keep <==> name == "keep"@,
        named_mode(mode_name(CleanupMode::Trash)) == CleanupMode::Trash,
        named_mode(mode_name(CleanupMode::Delete)) == CleanupMode::Delete,
        named_mode(mode_name(CleanupMode::Keep)) == CleanupMode::Keep,
        mode_name(CleanupMode::Trash) == "trash"@,
{
    reveal_strlit("trash");
    reveal_strlit("delete");
    reveal_strlit("keep");
    assert("trash"@.len() == 5 && "delete"@.len() == 6 && "keep"@.len() == 4);
}

/// Whether arguments give a value behind a flag, at `i`.
pub open spec fn gives(args: Seq<Seq<char>>, flag: Seq<char>, value: Seq<char>, i: int) -> bool {
    0 <= i && i + 1 < args.len() && args[i] == flag && args[i + 1] == value
}

/// The encoder is told the preset, the source and where to write, which is the output itself but for
/// an in-place job.
pub proof fn encoders_read_the_source_and_write_the_target(job: JobInfo)
    ensures
        exists|i: int| gives(arguments(job), "-i"@, job.source_path@, i),
        exists|i: int| gives(arguments(job), "-Z"@, job.preset@, i),
        !same_path(job.source_path@, job.output_path@) ==> exists|i: int|
            gives(arguments(job), "-o"@, job.output_path@, i),
        same_path(job.source_path@, job.output_path@) ==> exists|i: int|
            gives(arguments(job), "-o"@, temp_path(job.source_path@), i),
{
    assert(gives(arguments(job), "-i"@, job.source_path@, 3));
    assert(gives(arguments(job), "-Z"@, job.preset@, 0));
    assert(gives(arguments(job), "-o"@, target(job), 5));
}

/// The facts of a job are those of its paths and its size, as they are stored.
pub proof fn facts_are_those_of_the_job(
    job: JobInfo,
    encoder_found: bool,
    mode: Seq<char>,
    floor: Option<u64>,
)
    ensures
        ({
            let facts = facts_of(job, encoder_found, mode, floor);
            &&& facts.encoder_found == encoder_found
            &&& facts.in_place <==> same_path(job.source_path@, job.output_path@)
            &&& facts.floor == floor
            &&& facts.original_size == job.original_size
            &&& facts.has_dir <==> parent(job.output_path@) is Some
            &&& facts.mode == CleanupMode::Delete <==> mode == "delete"@
            &&& facts.mode == CleanupMode::Keep <==> mode == "keep"@
        }),
{
    unknown_modes_can_be_undone(mode);
    reveal_strlit("delete");
    reveal_strlit("keep");
    assert("delete"@.len() == 6 && "keep"@.len() == 4);
}

/// The message of a failure that the encoder gave a detail for tells it; the others are told apart
/// by their words.
pub proof fn failures_tell_their_reason(detail: Seq<char>)
    ensures
        ends_in(failure_words(Failure::NotStarted, detail), detail),
        failure_words(Failure::NoEncoder, detail) != failure_words(
            Failure::SourceUnchanged,
            detail,
        ),
        failure_words(Failure::SourceUnchanged, detail) != failure_words(
            Failure::SourceMaybeTrashed,
            detail,
        ),
        failure_words(Failure::NoEncoder, detail) != failure_words(
            Failure::SourceMaybeTrashed,
            detail,
        ),
{
    let words = failure_words(Failure::NotStarted, detail);
    assert(words.skip(words.len() - detail.len()) =~= detail);
    reveal_strlit("HandBrakeCLI not found");
    reveal_strlit("In-place replacement failed; original left unchanged");
    reveal_strlit("In-place replacement failed; original may be in Trash");
    assert("HandBrakeCLI not found"@.len() == 22);
    assert("In-place replacement failed; original left unchanged"@.len() == 52);
    assert("In-place replacement failed; original may be in Trash"@.len() == 53);
}

/// Whether a text ends in another.
pub open spec fn ends_in(text: Seq<char>, end: Seq<char>) -> bool {
    text.len() >= end.len() && text.skip(text.len() - end.len()) == end
}

/// A job is shown by the name of its file, wherever that is.
pub proof fn jobs_are_shown_by_their_file(dir: Seq<char>, name: Seq<char>)
    requires
        crate::paths::plain(name),
    ensures
        label(crate::paths::joined_path(dir, name)) == name,
{
    crate::paths::joined_files_are_found(dir, name);
}

/// What the encoder said is told behind words that tell a failed encode from an empty output.
pub proof fn encode_failures_begin_with_their_words(detail: Seq<char>)
    ensures
        begins(failure_words(Failure::EncodeFailed, detail), "Conversion failed"@),
        begins(
            failure_words(Failure::EmptyOutput, detail),
            "Conversion produced an empty output file"@,
        ),
        failure_words(Failure::NoEncoder, detail) == "HandBrakeCLI not found"@,
{
    let a = failure_words(Failure::EncodeFailed, detail);
    let b = failure_words(Failure::EmptyOutput, detail);
    assert(a.subrange(0, "Conversion failed"@.len() as int) =~= "Conversion failed"@);
    assert(b.subrange(0, "Conversion produced an empty output file"@.len() as int)
        =~= "Conversion produced an empty output file"@);
}


/// A run ends with the status of an error exactly where a job of it failed, and the user is told that
/// the queue is done unless they do not want that.
pub proof fn runs_end_with_their_status(run: QueueRun, job: JobFacts, notice: Option<bool>, free: u64)
    ensures
        run.stage is Draining ==> {
            let done = next(run, Event::Notice(notice));
            &&& done.0.stage is Stopped
            &&& done.1.last() == Effect::ShowStatus(
                if run.had_errors {
                    RunStatus::Error
                } else {
                    RunStatus::Idle
                },
            )
            &&& notice == Some(false) ==> done.1.len() == 1
            &&& notice != Some(false) ==> done.1.len() == 2 && done.1[0] == Effect::NotifyQueueDone
        },
        run.stage == Stage::Measuring(job) && next(run, Event::Free(Some(free))).0.stage is Stopped
            ==> next(run, Event::Free(Some(free))).1[1] == Effect::ShowStatus(
            if run.had_errors {
                RunStatus::Error
            } else {
                RunStatus::Idle
            },
        ),
{
}

/// A job whose room was asked for goes on like any other where there is room or none can be told: it
/// is claimed where there is an encoder, and recorded as failed where there is none. Without the size
/// of its source the floor alone decides.
pub proof fn measured_jobs_go_on(run: QueueRun, job: JobFacts, floor: u64, free: u64)
    requires
        run.stage == Stage::Measuring(job),
        job.floor == Some(floor),
    ensures
        job.encoder_found ==> next(run, Event::Free(None)) == (
            QueueRun { had_errors: run.had_errors, stage: Stage::Claiming(job) },
            Seq::<Effect>::empty(),
        ),
        !job.encoder_found ==> next(run, Event::Free(None)) == (
            QueueRun { had_errors: true, stage: Stage::Failing(false) },
            seq![Effect::RecordFailure(Failure::NoEncoder)],
        ),
        job.original_size is None ==> (next(run, Event::Free(Some(free))).0.stage is Stopped
            <==> free < floor),
{
}


} // verus!
