//! The updater at work: one cycle at a time goes from a check through a download to an install.
//! Each function takes in what was found outside and leaves the state that follows from it.

use crate::text::{joined3, occurs, occurs_at, same};
use crate::updater::{check_block, check_is_due, decide, decide_manual, manual_check_block};
use crate::updater::{manual_outcome, named_update_mode, normalize_update_mode, retry, retry_action};
use crate::updater::{pending_survives_mode, pending_survives_skip, scheduled_outcome};
use crate::updater::{should_check_now, survives_mode, AvailableUpdate, CheckOutcome};
use crate::updater::{InstallAttempt, InstallTrigger, InstalledUpdate, ManualCheckBlock};
use crate::updater::{PendingInstall, RetryAction, UpdateMode, UpdateState, UpdateStatus};
use vstd::prelude::*;
use vstd::string::*;

verus! {

/// What the updater knows while the program runs.
#[derive(Debug)]
pub struct UpdaterRuntime {
    pub status: Option<UpdateStatus>,
    pub available: Option<AvailableUpdate>,
    pub last_checked: Option<i64>,
    pub last_error: Option<String>,
    /// The install that waits or is under way.
    pub pending: Option<PendingInstall>,
    /// Whether a cycle is under way.
    pub busy: bool,
}

impl Default for UpdaterRuntime {
    fn default() -> (r: Self)
        ensures
            r == fresh(),
    {
        UpdaterRuntime {
            status: None,
            available: None,
            last_checked: None,
            last_error: None,
            pending: None,
            busy: false,
        }
    }
}

/// What the updater knows before its first check.
pub open spec fn fresh() -> UpdaterRuntime {
    UpdaterRuntime {
        status: None,
        available: None,
        last_checked: None,
        last_error: None,
        pending: None,
        busy: false,
    }
}

/// A copy of an optional text.
fn copy_text(s: &Option<String>) -> (r: Option<String>)
    ensures
        r == *s,
{
    match s {
        Some(t) => Some(t.clone()),
        None => None,
    }
}

/// A copy of an update.
pub fn copy_update(u: &AvailableUpdate) -> (r: AvailableUpdate)
    ensures
        r == *u,
{
    AvailableUpdate {
        version: u.version.clone(),
        date: copy_text(&u.date),
        notes: copy_text(&u.notes),
    }
}

/// Whether the install that waits is one of the given version.
pub open spec fn waits_for(runtime: UpdaterRuntime, version: Seq<char>) -> bool {
    runtime.pending matches Some(p) && p.update.version@ == version
}

/// What a check begins with.
#[derive(Debug, Clone, Copy, PartialEq, Eq, Structural)]
pub enum CheckStart {
    /// Another cycle is under way.
    Busy,
    /// The user's check is refused.
    Blocked(ManualCheckBlock),
    /// Updates are off and no one asked.
    Off,
    /// Look for an update.
    Check,
}

/// What a check begins with.
pub open spec fn check_start(runtime: UpdaterRuntime, manual: bool, mode: UpdateMode) -> CheckStart {
    if runtime.busy {
        CheckStart::Busy
    } else if manual && check_block(runtime.status, runtime.pending is Some) is Some {
        CheckStart::Blocked(check_block(runtime.status, runtime.pending is Some)->0)
    } else if !manual && mode == UpdateMode::Off {
        CheckStart::Off
    } else {
        CheckStart::Check
    }
}

impl CheckStart {
    /// Why a check is refused, if it is.
    pub fn refusal(self) -> (r: Option<&'static str>)
        ensures
            match self {
                CheckStart::Busy => r matches Some(m) && m@
                    == "an update operation is already running"@,
                CheckStart::Blocked(ManualCheckBlock::InstallPending) => r matches Some(m) && m@
                    == "an update is already waiting to install once the queue is idle"@,
                CheckStart::Blocked(ManualCheckBlock::AwaitingRestart) => r matches Some(m) && m@
                    == "an update is installed — restart ConvertBar to apply it"@,
                CheckStart::Off => r is None,
                CheckStart::Check => r is None,
            },
    {
        match self {
            CheckStart::Busy => Some("an update operation is already running"),
            CheckStart::Blocked(block) => Some(block.message()),
            CheckStart::Off => None,
            CheckStart::Check => None,
        }
    }
}

/// What is to be done after a check.
#[derive(Debug, Clone, Copy, PartialEq, Eq, Structural)]
pub enum AfterCheck {
    /// Nothing.
    Rest,
    /// Show the update that is offered.
    Show,
    /// Store the offered version as told of, and tell the user.
    Announce,
    /// Download the offered update.
    Download,
}

/// What is to be done after a check with the given outcome.
pub open spec fn after_check(outcome: CheckOutcome, manual: bool) -> AfterCheck {
    match outcome {
        CheckOutcome::Nothing => AfterCheck::Rest,
        CheckOutcome::Notify(_) => if manual {
            AfterCheck::Show
        } else {
            AfterCheck::Announce
        },
        CheckOutcome::Install(_) => AfterCheck::Download,
    }
}

/// The state after a check with the given outcome.
pub open spec fn checked(runtime: UpdaterRuntime, outcome: CheckOutcome, now: i64) -> UpdaterRuntime {
    let told = UpdaterRuntime { last_checked: Some(now), last_error: None, ..runtime };
    match outcome {
        CheckOutcome::Nothing => UpdaterRuntime {
            available: None,
            status: Some(UpdateStatus::Idle),
            busy: false,
            ..told
        },
        CheckOutcome::Notify(u) => UpdaterRuntime {
            available: Some(u),
            status: Some(UpdateStatus::Available),
            busy: false,
            ..told
        },
        CheckOutcome::Install(u) => UpdaterRuntime {
            available: Some(u),
            pending: Some(PendingInstall { update: u, user_requested: false }),
            status: Some(UpdateStatus::Downloading),
            ..told
        },
    }
}

/// The outcome of a check that found something or nothing.
pub open spec fn check_outcome(
    manual: bool,
    mode: UpdateMode,
    found: Option<AvailableUpdate>,
    skipped: Option<&str>,
    notified: Option<&str>,
) -> CheckOutcome {
    if manual {
        manual_outcome(found)
    } else {
        scheduled_outcome(mode, found, skipped, notified)
    }
}

/// What an install that waits or is asked for begins with.
#[derive(Debug, Clone, Copy, PartialEq, Eq, Structural)]
pub enum InstallStart {
    /// Another cycle is under way.
    Busy,
    /// There is no install to try again.
    Cancelled,
    /// The queue runs and is not to be stopped.
    QueueBusy,
    /// Look the update up, after the queue was told to stop if `drain` says so.
    LookUp { user_requested: bool, drain: bool },
}

/// How often the queue is looked at while an install waits for it to end.
pub const IDLE_POLLS: u32 = 40;

/// How long it is waited between two looks at the queue, in milliseconds.
pub const IDLE_POLL_MILLIS: u64 = 50;

/// Said where an install that was to be tried again was dropped.
pub const INSTALL_CANCELLED: &'static str = "the pending install was cancelled";

/// Said where the update to be installed is no longer offered.
pub const NO_UPDATE: &'static str = "no update available";

impl InstallStart {
    /// Why an install is refused, if it is.
    pub fn refusal(self) -> (r: Option<&'static str>)
        ensures
            match self {
                InstallStart::Busy => r matches Some(m) && m@
                    == "an update operation is already running"@,
                InstallStart::Cancelled => r matches Some(m) && m@
                    == "the pending install was cancelled"@,
                InstallStart::QueueBusy => r matches Some(m) && m@ == "the queue is busy"@,
                InstallStart::LookUp { .. } => r is None,
            },
    {
        match self {
            InstallStart::Busy => Some("an update operation is already running"),
            InstallStart::Cancelled => Some(INSTALL_CANCELLED),
            InstallStart::QueueBusy => Some("the queue is busy"),
            InstallStart::LookUp { .. } => None,
        }
    }
}

/// What an install begins with.
pub open spec fn install_start(
    runtime: UpdaterRuntime,
    trigger: InstallTrigger,
    queue_running: bool,
) -> InstallStart {
    let user_requested = trigger == InstallTrigger::UserRequested || (runtime.pending is Some
        && runtime.pending->0.user_requested);
    if runtime.busy {
        InstallStart::Busy
    } else if trigger == InstallTrigger::Retry && runtime.pending is None {
        InstallStart::Cancelled
    } else {
        match retry(user_requested, queue_running) {
            RetryAction::StayPending => InstallStart::QueueBusy,
            RetryAction::DrainThenInstall => InstallStart::LookUp { user_requested, drain: true },
            RetryAction::InstallNow => InstallStart::LookUp { user_requested, drain: false },
        }
    }
}

/// What is to be done after an attempt to install.
#[derive(Debug)]
pub struct InstallReport {
    /// Whether the note that the version is installed is to be taken back.
    pub roll_back: bool,
    /// What the user is told.
    pub notice: Option<String>,
}

/// The state after an attempt to install a version.
pub open spec fn attempted(
    runtime: UpdaterRuntime,
    version: Seq<char>,
    attempt: InstallAttempt,
) -> UpdaterRuntime {
    match attempt {
        InstallAttempt::Installed => UpdaterRuntime {
            pending: None,
            status: Some(UpdateStatus::ReadyToRestart),
            busy: false,
            ..runtime
        },
        InstallAttempt::Deferred => UpdaterRuntime {
            status: Some(
                if waits_for(runtime, version) {
                    UpdateStatus::WaitingForIdle
                } else {
                    UpdateStatus::Idle
                },
            ),
            busy: false,
            ..runtime
        },
        InstallAttempt::Failed(e) => UpdaterRuntime {
            pending: None,
            last_error: Some(e),
            status: Some(UpdateStatus::Error),
            busy: false,
            ..runtime
        },
    }
}

/// What the user is told after an attempt to install a version.
pub open spec fn attempt_notice(version: Seq<char>, attempt: InstallAttempt) -> Option<Seq<char>> {
    match attempt {
        InstallAttempt::Installed => Some(
            "Updated to "@ + version + " — restart ConvertBar to apply"@,
        ),
        InstallAttempt::Deferred => None,
        InstallAttempt::Failed(_) => Some(
            "Update to "@ + version + " failed to install — still on the current version"@,
        ),
    }
}

/// What is to be done when the mode was changed.
#[derive(Debug, Clone, Copy, PartialEq, Eq, Structural)]
pub enum ModeChange {
    /// The install that waited is dropped.
    Dropped,
    /// Show the state.
    Shown,
    /// Show the state and look for an update.
    ShownAndCheck,
}

/// What is to be done when the mode was changed.
pub open spec fn mode_change(runtime: UpdaterRuntime, mode: UpdateMode) -> ModeChange {
    if runtime.pending is Some && !survives_mode(runtime.pending->0, mode) {
        ModeChange::Dropped
    } else if mode == UpdateMode::Automatic && runtime.pending is None && runtime.status != Some(
        UpdateStatus::ReadyToRestart,
    ) {
        ModeChange::ShownAndCheck
    } else {
        ModeChange::Shown
    }
}

/// The state after a change of mode.
pub open spec fn mode_changed(runtime: UpdaterRuntime, mode: UpdateMode) -> UpdaterRuntime {
    if mode_change(runtime, mode) == ModeChange::Dropped {
        UpdaterRuntime {
            pending: None,
            status: Some(
                if mode == UpdateMode::Off {
                    UpdateStatus::Idle
                } else {
                    UpdateStatus::Available
                },
            ),
            ..runtime
        }
    } else {
        runtime
    }
}

/// What the hourly look at the clock leads to.
#[derive(Debug, Clone, Copy, PartialEq, Eq, Structural)]
pub enum TickAction {
    Rest,
    RetryInstall,
    Check,
}

/// What the hourly look at the clock leads to.
pub open spec fn tick_action(runtime: UpdaterRuntime, now: i64) -> TickAction {
    if runtime.status == Some(UpdateStatus::ReadyToRestart) {
        TickAction::Rest
    } else if runtime.pending is Some {
        TickAction::RetryInstall
    } else if check_is_due(runtime.last_checked, now) {
        TickAction::Check
    } else {
        TickAction::Rest
    }
}

/// The state after the user skipped a version.
pub open spec fn skipped_state(runtime: UpdaterRuntime, version: Seq<char>) -> UpdaterRuntime {
    UpdaterRuntime {
        pending: if waits_for(runtime, version) {
            None
        } else {
            runtime.pending
        },
        available: None,
        status: Some(UpdateStatus::Idle),
        ..runtime
    }
}

/// The state after a cycle that came to nothing.
pub open spec fn given_up(runtime: UpdaterRuntime) -> UpdaterRuntime {
    UpdaterRuntime { status: Some(UpdateStatus::Idle), busy: false, ..runtime }
}

/// The state after a check that failed.
pub open spec fn check_lost(runtime: UpdaterRuntime, error: String, now: i64) -> UpdaterRuntime {
    UpdaterRuntime {
        last_error: Some(error),
        last_checked: Some(now),
        status: Some(UpdateStatus::Error),
        busy: false,
        ..runtime
    }
}

/// The state after an install could not be gone on with.
pub open spec fn install_lost(runtime: UpdaterRuntime, error: String) -> UpdaterRuntime {
    UpdaterRuntime {
        last_error: Some(error),
        pending: None,
        status: Some(UpdateStatus::Error),
        busy: false,
        ..runtime
    }
}

/// The state after an update to be installed was no longer offered.
pub open spec fn offer_gone(runtime: UpdaterRuntime) -> UpdaterRuntime {
    if runtime.pending is Some {
        UpdaterRuntime {
            available: None,
            pending: None,
            status: Some(UpdateStatus::Idle),
            busy: false,
            ..runtime
        }
    } else {
        UpdaterRuntime { busy: false, ..runtime }
    }
}

/// The state after an update to be installed could not be looked up.
pub open spec fn lookup_lost(runtime: UpdaterRuntime, error: String) -> UpdaterRuntime {
    if runtime.pending is Some {
        install_lost(runtime, error)
    } else {
        UpdaterRuntime { busy: false, ..runtime }
    }
}

/// The state once an update to be installed was found.
pub open spec fn going_on(
    runtime: UpdaterRuntime,
    update: AvailableUpdate,
    user_requested: bool,
) -> UpdaterRuntime {
    UpdaterRuntime {
        pending: Some(PendingInstall { update, user_requested }),
        status: Some(UpdateStatus::Downloading),
        ..runtime
    }
}

/// The state without an install of a version.
pub open spec fn without_version(runtime: UpdaterRuntime, version: Seq<char>) -> UpdaterRuntime {
    UpdaterRuntime {
        pending: if waits_for(runtime, version) {
            None
        } else {
            runtime.pending
        },
        ..runtime
    }
}

/// Claims the right to run a cycle; refused while one is under way.
pub fn try_begin_cycle(runtime: &mut UpdaterRuntime) -> (r: bool)
    ensures
        r == !old(runtime).busy,
        *final(runtime) == (UpdaterRuntime { busy: true, ..*old(runtime) }),
{
    let free: bool = !runtime.busy;
    runtime.busy = true;
    free
}

impl UpdaterRuntime {
    /// Ends a cycle.
    pub fn end_cycle(&mut self)
        ensures
            *final(self) == (UpdaterRuntime { busy: false, ..*old(self) }),
    {
        self.busy = false;
    }

    /// Whether the install that waits is one of the given version.
    pub fn pending_matches(&self, version: &str) -> (r: bool)
        ensures
            r == waits_for(*self, version@),
    {
        match &self.pending {
            Some(p) => same(&p.update.version, version),
            None => false,
        }
    }

    /// Begins a check. Where it goes on, the cycle is claimed and shown as checking; where it does
    /// not, nothing changes.
    pub fn begin_check(&mut self, manual: bool, mode: UpdateMode) -> (r: CheckStart)
        ensures
            r == check_start(*old(self), manual, mode),
            r == CheckStart::Check ==> *final(self) == (UpdaterRuntime {
                busy: true,
                status: Some(UpdateStatus::Checking),
                ..*old(self)
            }),
            r != CheckStart::Check ==> *final(self) == *old(self),
    {
        if self.busy {
            return CheckStart::Busy;
        }
        if manual {
            match manual_check_block(self.status, self.pending.as_ref()) {
                Some(block) => {
                    return CheckStart::Blocked(block);
                },
                None => {},
            }
        } else if mode == UpdateMode::Off {
            return CheckStart::Off;
        }
        let claimed: bool = try_begin_cycle(self);
        self.status = Some(UpdateStatus::Checking);
        CheckStart::Check
    }

    /// The check could not be made at all.
    pub fn check_unavailable(&mut self)
        ensures
            *final(self) == given_up(*old(self)),
    {
        self.status = Some(UpdateStatus::Idle);
        self.busy = false;
    }

    /// The check failed.
    pub fn check_failed(&mut self, error: String, now: i64)
        ensures
            *final(self) == check_lost(*old(self), error, now),
    {
        self.last_error = Some(error);
        self.last_checked = Some(now);
        self.status = Some(UpdateStatus::Error);
        self.busy = false;
    }

    /// The check found an update or none.
    pub fn check_done(
        &mut self,
        manual: bool,
        mode: UpdateMode,
        found: Option<AvailableUpdate>,
        skipped: Option<&str>,
        notified: Option<&str>,
        now: i64,
    ) -> (r: AfterCheck)
        ensures
            ({
                let outcome = check_outcome(manual, mode, found, skipped, notified);
                &&& r == after_check(outcome, manual)
                &&& *final(self) == checked(*old(self), outcome, now)
            }),
    {
        self.last_checked = Some(now);
        self.last_error = None;
        let outcome: CheckOutcome = if manual {
            decide_manual(found)
        } else {
            decide(mode, found, skipped, notified)
        };
        match outcome {
            CheckOutcome::Nothing => {
                self.available = None;
                self.status = Some(UpdateStatus::Idle);
                self.busy = false;
                AfterCheck::Rest
            },
            CheckOutcome::Notify(u) => {
                self.available = Some(u);
                self.status = Some(UpdateStatus::Available);
                self.busy = false;
                if manual {
                    AfterCheck::Show
                } else {
                    AfterCheck::Announce
                }
            },
            CheckOutcome::Install(u) => {
                self.pending = Some(
                    PendingInstall { update: copy_update(&u), user_requested: false },
                );
                self.available = Some(u);
                self.status = Some(UpdateStatus::Downloading);
                AfterCheck::Download
            },
        }
    }

    /// The download failed. The install that was to follow is dropped.
    pub fn download_failed(&mut self, error: String)
        ensures
            *final(self) == install_lost(*old(self), error),
    {
        self.last_error = Some(error);
        self.pending = None;
        self.status = Some(UpdateStatus::Error);
        self.busy = false;
    }

    /// The download of a version is done. Says whether it is still wanted; if not, the cycle ends.
    pub fn download_done(&mut self, version: &str) -> (r: bool)
        ensures
            r == waits_for(*old(self), version@),
            r ==> *final(self) == *old(self),
            !r ==> *final(self) == given_up(*old(self)),
    {
        if self.pending_matches(version) {
            return true;
        }
        self.status = Some(UpdateStatus::Idle);
        self.busy = false;
        false
    }

    /// An attempt to install a version ended, and with it the cycle.
    pub fn install_done(&mut self, version: &str, attempt: InstallAttempt) -> (r: InstallReport)
        ensures
            *final(self) == attempted(*old(self), version@, attempt),
            r.roll_back == !(attempt is Installed),
            crate::paths::opt_view(r.notice) == attempt_notice(version@, attempt),
    {
        self.busy = false;
        match attempt {
            InstallAttempt::Installed => {
                self.pending = None;
                self.status = Some(UpdateStatus::ReadyToRestart);
                InstallReport {
                    roll_back: false,
                    notice: Some(
                        joined3("Updated to ", version, " — restart ConvertBar to apply"),
                    ),
                }
            },
            InstallAttempt::Deferred => {
                self.status = Some(
                    if self.pending_matches(version) {
                        UpdateStatus::WaitingForIdle
                    } else {
                        UpdateStatus::Idle
                    },
                );
                InstallReport { roll_back: true, notice: None }
            },
            InstallAttempt::Failed(e) => {
                self.pending = None;
                self.last_error = Some(e);
                self.status = Some(UpdateStatus::Error);
                InstallReport {
                    roll_back: true,
                    notice: Some(
                        joined3(
                            "Update to ",
                            version,
                            " failed to install — still on the current version",
                        ),
                    ),
                }
            },
        }
    }

    /// Begins an install that waits or that the user asked for. Where it goes on, the cycle is
    /// claimed; where it does not, nothing changes.
    pub fn begin_install(&mut self, trigger: InstallTrigger, queue_running: bool) -> (r:
        InstallStart)
        ensures
            r == install_start(*old(self), trigger, queue_running),
            r is LookUp ==> *final(self) == (UpdaterRuntime { busy: true, ..*old(self) }),
            !(r is LookUp) ==> *final(self) == *old(self),
    {
        if self.busy {
            return InstallStart::Busy;
        }
        let user_requested: bool = match trigger {
            InstallTrigger::UserRequested => true,
            InstallTrigger::Retry => match &self.pending {
                Some(p) => p.user_requested,
                None => {
                    return InstallStart::Cancelled;
                },
            },
        };
        match retry_action(user_requested, queue_running) {
            RetryAction::StayPending => InstallStart::QueueBusy,
            RetryAction::DrainThenInstall => {
                self.busy = true;
                InstallStart::LookUp { user_requested, drain: true }
            },
            RetryAction::InstallNow => {
                self.busy = true;
                InstallStart::LookUp { user_requested, drain: false }
            },
        }
    }

    /// The update to be installed is no longer offered. An install that waited for it is dropped.
    pub fn lookup_found_none(&mut self)
        ensures
            *final(self) == offer_gone(*old(self)),
    {
        if self.pending.is_some() {
            self.available = None;
            self.pending = None;
            self.status = Some(UpdateStatus::Idle);
        }
        self.busy = false;
    }

    /// The update to be installed could not be looked up. An install that waited is dropped.
    pub fn lookup_failed(&mut self, error: String)
        ensures
            *final(self) == lookup_lost(*old(self), error),
    {
        if self.pending.is_some() {
            self.last_error = Some(error);
            self.pending = None;
            self.status = Some(UpdateStatus::Error);
        }
        self.busy = false;
    }

    /// The update to be installed was found. Says whether it is to be downloaded; it is not where
    /// the install that was tried again was dropped meanwhile.
    pub fn lookup_done(
        &mut self,
        trigger: InstallTrigger,
        user_requested: bool,
        update: AvailableUpdate,
    ) -> (r: bool)
        ensures
            r == !(trigger == InstallTrigger::Retry && old(self).pending is None),
            r ==> *final(self) == going_on(*old(self), update, user_requested),
            !r ==> *final(self) == (UpdaterRuntime { busy: false, ..*old(self) }),
    {
        if trigger == InstallTrigger::Retry && self.pending.is_none() {
            self.busy = false;
            return false;
        }
        self.pending = Some(PendingInstall { update, user_requested });
        self.status = Some(UpdateStatus::Downloading);
        true
    }

    /// The mode was changed.
    pub fn on_mode_changed(&mut self, mode: UpdateMode) -> (r: ModeChange)
        ensures
            r == mode_change(*old(self), mode),
            *final(self) == mode_changed(*old(self), mode),
    {
        let dropped: bool = match &self.pending {
            Some(p) => !pending_survives_mode(p, mode),
            None => false,
        };
        if dropped {
            self.pending = None;
            self.status = Some(
                if mode == UpdateMode::Off {
                    UpdateStatus::Idle
                } else {
                    UpdateStatus::Available
                },
            );
            return ModeChange::Dropped;
        }
        if mode == UpdateMode::Automatic && self.pending.is_none() && self.status != Some(
            UpdateStatus::ReadyToRestart,
        ) {
            ModeChange::ShownAndCheck
        } else {
            ModeChange::Shown
        }
    }

    /// The hourly look at the clock.
    pub fn on_tick(&self, now: i64) -> (r: TickAction)
        ensures
            r == tick_action(*self, now),
    {
        if self.status == Some(UpdateStatus::ReadyToRestart) {
            return TickAction::Rest;
        }
        if self.pending.is_some() {
            return TickAction::RetryInstall;
        }
        if should_check_now(self.last_checked, now) {
            TickAction::Check
        } else {
            TickAction::Rest
        }
    }

    /// The queue showed a status. Says whether an install that waits is to be tried again once the
    /// queue is idle.
    pub fn on_queue_status(&self, status: &str) -> (r: bool)
        ensures
            r == ((status@ == "idle"@ || status@ == "error"@) && self.pending is Some),
    {
        (same(status, "idle") || same(status, "error")) && self.pending.is_some()
    }

    /// Drops the install that waits, if it is one of the given version.
    pub fn cancel_pending_version(&mut self, version: &str)
        ensures
            *final(self) == without_version(*old(self), version@),
    {
        let dropped: bool = match &self.pending {
            Some(p) => !pending_survives_skip(p, version),
            None => false,
        };
        if dropped {
            self.pending = None;
        }
    }

    /// The user skipped a version.
    pub fn skip_version(&mut self, version: &str)
        ensures
            *final(self) == skipped_state(*old(self), version@),
    {
        self.cancel_pending_version(version);
        self.available = None;
        self.status = Some(UpdateStatus::Idle);
    }

    /// Everything that the settings panel shows of updates. A mode that is not stored, or stored
    /// as nothing, is automatic.
    pub fn build_state(
        &self,
        stored_mode: Option<&str>,
        just_installed: Option<InstalledUpdate>,
        current_version: String,
    ) -> (r: UpdateState)
        ensures
            r == (UpdateState {
                mode: match stored_mode {
                    Some(m) => named_update_mode(m@),
                    None => UpdateMode::Automatic,
                },
                status: match self.status {
                    Some(s) => s,
                    None => UpdateStatus::Idle,
                },
                current_version,
                available: self.available,
                just_installed,
                last_checked: self.last_checked,
                last_error: self.last_error,
            }),
    {
        UpdateState {
            mode: match stored_mode {
                Some(m) => normalize_update_mode(m),
                None => UpdateMode::Automatic,
            },
            status: match self.status {
                Some(s) => s,
                None => UpdateStatus::Idle,
            },
            current_version,
            available: match &self.available {
                Some(u) => Some(copy_update(u)),
                None => None,
            },
            just_installed,
            last_checked: self.last_checked,
            last_error: copy_text(&self.last_error),
        }
    }
}

/// What the user is told of a version that is offered.
pub fn offer_notice(version: &str) -> (r: String)
    ensures
        r@ == "ConvertBar "@ + version@ + " is available"@,
{
    joined3("ConvertBar ", version, " is available")
}

/// A check that the user asked for never leads to an install, whatever the mode is.
pub proof fn manual_checks_never_install(
    runtime: UpdaterRuntime,
    mode: UpdateMode,
    found: Option<AvailableUpdate>,
    skipped: Option<&str>,
    notified: Option<&str>,
    now: i64,
)
    ensures
        ({
            let outcome = check_outcome(true, mode, found, skipped, notified);
            &&& after_check(outcome, true) != AfterCheck::Download
            &&& checked(runtime, outcome, now).pending == runtime.pending
            &&& checked(runtime, outcome, now).available == found
        }),
{
}

/// Where updates are off, the schedule neither checks nor acts on what a check finds.
pub proof fn off_means_off(
    runtime: UpdaterRuntime,
    found: Option<AvailableUpdate>,
    skipped: Option<&str>,
    notified: Option<&str>,
)
    ensures
        check_start(runtime, false, UpdateMode::Off) != CheckStart::Check,
        check_outcome(false, UpdateMode::Off, found, skipped, notified) is Nothing,
{
}

/// In a mode that tells the user, a version that was skipped or told of is not told of again, and
/// any other one is.
pub proof fn each_version_is_told_of_once(
    update: AvailableUpdate,
    skipped: Option<&str>,
    notified: Option<&str>,
)
    ensures
        check_outcome(false, UpdateMode::Notify, Some(update), skipped, notified) is Nothing <==> (
        crate::updater::names(skipped, update.version@) || crate::updater::names(
            notified,
            update.version@,
        )),
        check_outcome(false, UpdateMode::Notify, Some(update), None, None)
            == CheckOutcome::Notify(update),
{
}

/// An install that the schedule decided on ends with automatic updates: no download of it is
/// still wanted. One that the user asked for outlives every mode.
pub proof fn leaving_automatic_cancels_scheduled_installs(
    runtime: UpdaterRuntime,
    mode: UpdateMode,
    version: Seq<char>,
)
    requires
        runtime.pending is Some,
    ensures
        !runtime.pending->0.user_requested && mode != UpdateMode::Automatic ==> !waits_for(
            mode_changed(runtime, mode),
            version,
        ),
        runtime.pending->0.user_requested ==> mode_changed(runtime, mode) == runtime,
{
}

/// Skipping a version cancels an install of it, and of no other.
pub proof fn skipping_cancels_that_version_only(runtime: UpdaterRuntime, version: Seq<char>)
    ensures
        !waits_for(skipped_state(runtime, version), version),
        !waits_for(runtime, version) ==> skipped_state(runtime, version).pending == runtime.pending,
{
}

/// Trying an install again never begins one that was dropped.
pub proof fn retries_do_not_revive_cancelled_installs(runtime: UpdaterRuntime, queue_running: bool)
    requires
        runtime.pending is None,
    ensures
        !(install_start(runtime, InstallTrigger::Retry, queue_running) is LookUp),
{
}

/// The queue is stopped for an install only where the user asked for that install, and an install
/// that the schedule decided on waits while the queue runs.
pub proof fn only_users_stop_the_queue(
    runtime: UpdaterRuntime,
    trigger: InstallTrigger,
    queue_running: bool,
)
    ensures
        install_start(runtime, trigger, queue_running) matches InstallStart::LookUp {
            user_requested,
            drain,
        } ==> (drain <==> queue_running) && (drain ==> user_requested),
        trigger == InstallTrigger::Retry && runtime.pending is Some
            && !runtime.pending->0.user_requested && queue_running ==> !(install_start(
            runtime,
            trigger,
            queue_running,
        ) is LookUp),
{
}

/// What holds of the updater at every time: an install that is shown as waiting is known.
pub open spec fn waiting_is_known(runtime: UpdaterRuntime) -> bool {
    runtime.status == Some(UpdateStatus::WaitingForIdle) ==> runtime.pending is Some
}

/// An install that is shown as waiting is known, whatever happens.
pub proof fn waiting_installs_stay_known(
    runtime: UpdaterRuntime,
    outcome: CheckOutcome,
    now: i64,
    version: Seq<char>,
    attempt: InstallAttempt,
    mode: UpdateMode,
)
    requires
        waiting_is_known(runtime),
    ensures
        waiting_is_known(fresh()),
        waiting_is_known(checked(runtime, outcome, now)),
        waiting_is_known(attempted(runtime, version, attempt)),
        waiting_is_known(mode_changed(runtime, mode)),
        waiting_is_known(skipped_state(runtime, version)),
{
}

/// An update that waits for a restart is left alone: the clock, a change of mode and the user's
/// check do not look for updates.
pub proof fn installed_updates_are_left_alone(runtime: UpdaterRuntime, mode: UpdateMode, now: i64)
    requires
        runtime.status == Some(UpdateStatus::ReadyToRestart),
    ensures
        tick_action(runtime, now) == TickAction::Rest,
        mode_change(runtime, mode) != ModeChange::ShownAndCheck,
        check_start(runtime, true, mode) != CheckStart::Check,
{
}

/// Automatic updates install what a check found, even a version that was skipped or told of: it is
/// downloaded and waits to be installed, on the schedule's behalf.
pub proof fn automatic_updates_install_what_is_found(
    runtime: UpdaterRuntime,
    update: AvailableUpdate,
    skipped: Option<&str>,
    notified: Option<&str>,
    now: i64,
)
    ensures
        ({
            let outcome = check_outcome(
                false,
                UpdateMode::Automatic,
                Some(update),
                skipped,
                notified,
            );
            let after = checked(runtime, outcome, now);
            &&& after_check(outcome, false) == AfterCheck::Download
            &&& after.pending matches Some(p) && p.update == update && !p.user_requested
            &&& after.available == Some(update)
            &&& after.status == Some(UpdateStatus::Downloading)
            &&& after.busy == runtime.busy
        }),
{
}

/// A check that found nothing offers nothing, whoever asked; and a check that leads to no download
/// is over and leaves what waits alone.
pub proof fn checks_end_unless_they_download(
    runtime: UpdaterRuntime,
    manual: bool,
    mode: UpdateMode,
    found: Option<AvailableUpdate>,
    skipped: Option<&str>,
    notified: Option<&str>,
    now: i64,
)
    ensures
        ({
            let outcome = check_outcome(manual, mode, found, skipped, notified);
            let after = checked(runtime, outcome, now);
            &&& after.last_checked == Some(now)
            &&& after.last_error is None
            &&& found is None ==> after_check(outcome, manual) == AfterCheck::Rest
                && after.available is None && after.status == Some(UpdateStatus::Idle)
            &&& after_check(outcome, manual) != AfterCheck::Download ==> !after.busy
                && after.pending == runtime.pending
            &&& manual && found is Some ==> after_check(outcome, manual) == AfterCheck::Show
                && after.available == found && after.status == Some(UpdateStatus::Available)
            &&& after_check(outcome, manual) == AfterCheck::Announce ==> !manual && mode
                == UpdateMode::Notify && after.available == found && after.status == Some(
                UpdateStatus::Available,
            )
            &&& after_check(outcome, manual) == AfterCheck::Download ==> !manual && mode
                == UpdateMode::Automatic && found is Some
        }),
{
}

/// In a mode that tells the user, a version that is new to them is announced.
pub proof fn new_versions_are_announced(
    update: AvailableUpdate,
    skipped: Option<&str>,
    notified: Option<&str>,
)
    requires
        skipped matches Some(v) ==> v@ != update.version@,
        notified matches Some(v) ==> v@ != update.version@,
    ensures
        after_check(
            check_outcome(false, UpdateMode::Notify, Some(update), skipped, notified),
            false,
        ) == AfterCheck::Announce,
{
}

/// A check is made unless one is under way, the user's is refused, or updates are off and no one
/// asked.
pub proof fn checks_are_made_unless_refused(runtime: UpdaterRuntime, manual: bool, mode: UpdateMode)
    ensures
        check_start(runtime, manual, mode) == CheckStart::Busy <==> runtime.busy,
        check_start(runtime, true, mode) == CheckStart::Check <==> !runtime.busy && runtime.pending
            is None && runtime.status != Some(UpdateStatus::ReadyToRestart),
        check_start(runtime, false, mode) == CheckStart::Check <==> !runtime.busy && mode
            != UpdateMode::Off,
        check_start(runtime, false, mode) == CheckStart::Off <==> !runtime.busy && mode
            == UpdateMode::Off,
{
}

/// An install that the user asks for is begun unless another cycle is under way; one that waits is
/// tried again as the one who asked for it may.
pub proof fn installs_are_begun_for_who_asked(
    runtime: UpdaterRuntime,
    trigger: InstallTrigger,
    queue_running: bool,
)
    ensures
        install_start(runtime, trigger, queue_running) == InstallStart::Busy <==> runtime.busy,
        !runtime.busy && trigger == InstallTrigger::UserRequested ==> install_start(
            runtime,
            trigger,
            queue_running,
        ) == (InstallStart::LookUp { user_requested: true, drain: queue_running }),
        !runtime.busy && trigger == InstallTrigger::Retry ==> match runtime.pending {
            None => install_start(runtime, trigger, queue_running) == InstallStart::Cancelled,
            Some(p) => if p.user_requested {
                install_start(runtime, trigger, queue_running) == (InstallStart::LookUp {
                    user_requested: true,
                    drain: queue_running,
                })
            } else if queue_running {
                install_start(runtime, trigger, queue_running) == InstallStart::QueueBusy
            } else {
                install_start(runtime, trigger, queue_running) == (InstallStart::LookUp {
                    user_requested: false,
                    drain: false,
                })
            },
        },
{
}

/// An attempt to install ends the cycle. One that succeeded or failed is over and waits no more; one
/// that was put off is kept, and shown as waiting where it is still wanted. The user is told of what
/// is over, by its version.
pub proof fn attempts_are_told_of(runtime: UpdaterRuntime, version: Seq<char>, attempt: InstallAttempt)
    ensures
        ({
            let after = attempted(runtime, version, attempt);
            &&& !after.busy
            &&& after.available == runtime.available
            &&& after.last_checked == runtime.last_checked
            &&& attempt is Installed ==> after.pending is None && after.status == Some(
                UpdateStatus::ReadyToRestart,
            ) && after.last_error == runtime.last_error
            &&& attempt matches InstallAttempt::Failed(e) ==> after.pending is None && after.status
                == Some(UpdateStatus::Error) && after.last_error == Some(e)
            &&& attempt is Deferred ==> after.pending == runtime.pending && (after.status == Some(
                UpdateStatus::WaitingForIdle,
            ) <==> (runtime.pending matches Some(p) && p.update.version@ == version))
            &&& attempt_notice(version, attempt) is None <==> attempt is Deferred
            &&& attempt_notice(version, attempt) matches Some(words) ==> occurs(words, version)
        }),
{
    if let Some(words) = attempt_notice(version, attempt) {
        let n = if attempt is Installed {
            "Updated to "@.len() as int
        } else {
            "Update to "@.len() as int
        };
        assert(words.subrange(n, n + version.len()) =~= version);
        assert(occurs_at(words, version, n));
    }
}

/// A change of mode drops an install that no one asked for where updates are no longer automatic,
/// and looks for an update where they are and nothing waits. Nothing else changes.
pub proof fn modes_take_effect_at_once(runtime: UpdaterRuntime, mode: UpdateMode)
    ensures
        mode_change(runtime, mode) == ModeChange::Dropped <==> mode != UpdateMode::Automatic && (
        runtime.pending matches Some(p) && !p.user_requested),
        mode_change(runtime, mode) == ModeChange::ShownAndCheck <==> mode == UpdateMode::Automatic
            && runtime.pending is None && runtime.status != Some(UpdateStatus::ReadyToRestart),
        mode_change(runtime, mode) != ModeChange::Dropped ==> mode_changed(runtime, mode)
            == runtime,
        mode_change(runtime, mode) == ModeChange::Dropped ==> {
            let after = mode_changed(runtime, mode);
            &&& after.pending is None
            &&& mode == UpdateMode::Off ==> after.status == Some(UpdateStatus::Idle)
            &&& mode == UpdateMode::Notify ==> after.status == Some(UpdateStatus::Available)
            &&& after.available == runtime.available
            &&& after.busy == runtime.busy
        },
{
}

/// By the clock an install that waits is tried again, and where none waits, an update is looked for
/// once a day.
pub proof fn the_clock_tries_again_and_checks(runtime: UpdaterRuntime, now: i64)
    requires
        runtime.status != Some(UpdateStatus::ReadyToRestart),
    ensures
        tick_action(runtime, now) == TickAction::RetryInstall <==> runtime.pending is Some,
        runtime.pending is None && runtime.last_checked is None ==> tick_action(runtime, now)
            == TickAction::Check,
        runtime.pending is None ==> (runtime.last_checked matches Some(t) ==> t <= now ==> (
        tick_action(runtime, now) == TickAction::Check <==> now - t >= 24 * 60 * 60)),
{
}

/// A version that was skipped is offered no more.
pub proof fn skipped_versions_are_not_offered(runtime: UpdaterRuntime, version: Seq<char>)
    ensures
        skipped_state(runtime, version).available is None,
        skipped_state(runtime, version).status == Some(UpdateStatus::Idle),
        runtime.pending matches Some(p) ==> (skipped_state(runtime, version).pending is None
            <==> p.update.version@ == version),
        skipped_state(runtime, version).last_checked == runtime.last_checked,
        skipped_state(runtime, version).busy == runtime.busy,
{
}


/// In a mode that tells the user, a version that they skipped or were told of is passed over.
pub proof fn known_versions_are_passed_over(
    update: AvailableUpdate,
    known: &str,
    skipped: Option<&str>,
    notified: Option<&str>,
)
    requires
        known@ == update.version@,
    ensures
        after_check(
            check_outcome(false, UpdateMode::Notify, Some(update), Some(known), notified),
            false,
        ) == AfterCheck::Rest,
        after_check(
            check_outcome(false, UpdateMode::Notify, Some(update), skipped, Some(known)),
            false,
        ) == AfterCheck::Rest,
{
}


/// Whatever goes wrong ends the cycle, so that another can begin. What failed is told and shown as an
/// error; an install that failed, could not be looked up or is offered no more waits no more.
pub proof fn failures_end_the_cycle(runtime: UpdaterRuntime, error: String, now: i64)
    ensures
        ({
            let nothing = given_up(runtime);
            let check = check_lost(runtime, error, now);
            let install = install_lost(runtime, error);
            let gone = offer_gone(runtime);
            let lookup = lookup_lost(runtime, error);
            &&& !nothing.busy && !check.busy && !install.busy && !gone.busy && !lookup.busy
            &&& nothing.status == Some(UpdateStatus::Idle) && nothing.pending == runtime.pending
                && nothing.last_error == runtime.last_error && nothing.available
                == runtime.available
            &&& check.status == Some(UpdateStatus::Error) && check.last_error == Some(error)
                && check.last_checked == Some(now) && check.pending == runtime.pending
            &&& install.status == Some(UpdateStatus::Error) && install.last_error == Some(error)
                && install.pending is None && install.available == runtime.available
            &&& gone.pending is None && gone.last_error == runtime.last_error
            &&& runtime.pending is Some ==> gone.available is None && gone.status == Some(
                UpdateStatus::Idle,
            )
            &&& runtime.pending is None ==> gone.available == runtime.available && gone.status
                == runtime.status && lookup.status == runtime.status && lookup.last_error
                == runtime.last_error
            &&& lookup.pending is None
            &&& runtime.pending is Some ==> lookup.last_error == Some(error) && lookup.status
                == Some(UpdateStatus::Error)
        }),
{
}

/// An update that was found is the one that is downloaded and waits, for who asked for it; and a
/// version that is cancelled waits no more, while any other does.
pub proof fn installs_wait_for_their_own_version(
    runtime: UpdaterRuntime,
    update: AvailableUpdate,
    user_requested: bool,
    version: Seq<char>,
)
    ensures
        ({
            let after = going_on(runtime, update, user_requested);
            &&& after.pending == Some(PendingInstall { update, user_requested })
            &&& after.status == Some(UpdateStatus::Downloading)
            &&& after.busy == runtime.busy
            &&& waits_for(after, version) <==> version == update.version@
        }),
        without_version(runtime, version).status == runtime.status,
        runtime.pending matches Some(p) ==> (if p.update.version@ == version {
            without_version(runtime, version).pending is None
        } else {
            without_version(runtime, version).pending == runtime.pending
        }),
        runtime.pending is None ==> without_version(runtime, version).pending is None,
{
}

} // verus!
