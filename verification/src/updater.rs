//! Updates: what a found version leads to, and the steps from a check to an install.

use crate::converter::ConverterState;
use crate::db::{read_setting, value_of, with_setting, write_setting, written_settings_are_read_back};
use crate::paths::opt_view;
use crate::text::same;
use vstd::prelude::*;
use vstd::string::*;

verus! {

/// What is done when an update exists.
#[derive(Debug, Clone, Copy, PartialEq, Eq, Structural)]
pub enum UpdateMode {
    /// It is installed.
    Automatic,
    /// The user is told of it.
    Notify,
    /// Nothing, and none is looked for.
    Off,
}

impl UpdateMode {
    /// The name that a mode is stored under.
    pub fn as_str(&self) -> (r: &'static str)
        ensures
            r@ == update_mode_name(*self),
    {
        match self {
            UpdateMode::Automatic => "automatic",
            UpdateMode::Notify => "notify",
            UpdateMode::Off => "off",
        }
    }
}

/// The name that a mode is stored under.
pub open spec fn update_mode_name(mode: UpdateMode) -> Seq<char> {
    match mode {
        UpdateMode::Automatic => "automatic"@,
        UpdateMode::Notify => "notify"@,
        UpdateMode::Off => "off"@,
    }
}

/// The mode that a stored value names. Whatever is not known is automatic, so that no one is left
/// on an old version by accident.
pub open spec fn named_update_mode(value: Seq<char>) -> UpdateMode {
    if value == "notify"@ {
        UpdateMode::Notify
    } else if value == "off"@ {
        UpdateMode::Off
    } else {
        UpdateMode::Automatic
    }
}

/// The mode that a stored value names.
pub fn normalize_update_mode(value: &str) -> (r: UpdateMode)
    ensures
        r == named_update_mode(value@),
{
    if same(value, "notify") {
        UpdateMode::Notify
    } else if same(value, "off") {
        UpdateMode::Off
    } else {
        UpdateMode::Automatic
    }
}

/// A mode that is stored is read back.
pub proof fn stored_modes_are_read_back(mode: UpdateMode)
    ensures
        named_update_mode(update_mode_name(mode)) == mode,
{
    reveal_strlit("automatic");
    reveal_strlit("notify");
    reveal_strlit("off");
    assert("automatic"@.len() == 9 && "notify"@.len() == 6 && "off"@.len() == 3);
}

/// What the updater has stored under a key. What is stored as nothing counts as not stored.
pub open spec fn stored(rows: Seq<(Seq<char>, Seq<char>)>, key: Seq<char>) -> Option<Seq<char>> {
    match value_of(rows, key) {
        Some(v) => if v.len() == 0 {
            None
        } else {
            Some(v)
        },
        None => None,
    }
}

/// What the updater has stored under a key.
pub fn read_key(rows: &Vec<(String, String)>, key: &str) -> (r: Option<String>)
    ensures
        opt_view(r) == stored(rows.deep_view(), key@),
{
    match read_setting(rows, key) {
        Some(v) => if v.as_str().is_empty() {
            None
        } else {
            Some(v)
        },
        None => None,
    }
}

/// The version that the user does not want to be told of.
pub fn read_skipped_version(rows: &Vec<(String, String)>) -> (r: Option<String>)
    ensures
        opt_view(r) == stored(rows.deep_view(), "update_skipped_version"@),
{
    read_key(rows, "update_skipped_version")
}

/// Stores the version that the user does not want to be told of.
pub fn set_skipped_version(rows: &mut Vec<(String, String)>, version: &str)
    ensures
        final(rows).deep_view() == with_setting(
            old(rows).deep_view(),
            "update_skipped_version"@,
            version@,
        ),
{
    write_setting(rows, "update_skipped_version", version);
}

/// The version that the user was told of last.
pub fn read_notified_version(rows: &Vec<(String, String)>) -> (r: Option<String>)
    ensures
        opt_view(r) == stored(rows.deep_view(), "update_notified_version"@),
{
    read_key(rows, "update_notified_version")
}

/// Stores the version that the user was told of last.
pub fn set_notified_version(rows: &mut Vec<(String, String)>, version: &str)
    ensures
        final(rows).deep_view() == with_setting(
            old(rows).deep_view(),
            "update_notified_version"@,
            version@,
        ),
{
    write_setting(rows, "update_notified_version", version);
}

/// Forgets the update that was installed.
pub fn clear_installed(rows: &mut Vec<(String, String)>)
    ensures
        final(rows).deep_view() == with_setting(old(rows).deep_view(), "update_installed"@, ""@),
{
    write_setting(rows, "update_installed", "");
}

/// A version that was skipped is known as skipped, one that was told of is known as told of, and
/// neither touches the other. An update that was installed is forgotten once it is cleared.
pub proof fn stored_versions_are_read_back(
    rows: Seq<(Seq<char>, Seq<char>)>,
    skipped: Seq<char>,
    notified: Seq<char>,
)
    requires
        skipped.len() > 0,
        notified.len() > 0,
    ensures
        ({
            let one = with_setting(rows, "update_skipped_version"@, skipped);
            let two = with_setting(one, "update_notified_version"@, notified);
            let three = with_setting(two, "update_installed"@, ""@);
            &&& stored(three, "update_skipped_version"@) == Some(skipped)
            &&& stored(three, "update_notified_version"@) == Some(notified)
            &&& stored(three, "update_installed"@) is None
        }),
{
    reveal_strlit("update_skipped_version");
    reveal_strlit("update_notified_version");
    reveal_strlit("update_installed");
    reveal_strlit("");
    let a = "update_skipped_version"@;
    let b = "update_notified_version"@;
    let c = "update_installed"@;
    assert(a.len() == 22 && b.len() == 23 && c.len() == 16);
    let one = with_setting(rows, a, skipped);
    let two = with_setting(one, b, notified);
    written_settings_are_read_back(rows, a, skipped, a);
    written_settings_are_read_back(one, b, notified, a);
    written_settings_are_read_back(two, c, ""@, a);
    written_settings_are_read_back(two, c, ""@, b);
}

/// An update that was installed and whose notes the user has not seen yet.
#[derive(Debug, Clone)]
pub struct InstalledUpdate {
    pub version: String,
    pub notes: Option<String>,
}

/// An update that is offered.
#[derive(Debug, Clone)]
pub struct AvailableUpdate {
    pub version: String,
    pub date: Option<String>,
    pub notes: Option<String>,
}

/// What the updater does at the moment.
#[derive(Debug, Clone, Copy, PartialEq, Eq, Structural)]
pub enum UpdateStatus {
    Idle,
    Checking,
    Available,
    Downloading,
    /// Downloaded; the install waits for the queue.
    WaitingForIdle,
    /// Installed; the program is to be restarted.
    ReadyToRestart,
    Error,
}

/// Everything that the settings panel shows of updates.
#[derive(Debug, Clone)]
pub struct UpdateState {
    pub mode: UpdateMode,
    pub status: UpdateStatus,
    pub current_version: String,
    pub available: Option<AvailableUpdate>,
    pub just_installed: Option<InstalledUpdate>,
    pub last_checked: Option<i64>,
    pub last_error: Option<String>,
}

/// What a check leads to.
#[derive(Debug)]
pub enum CheckOutcome {
    Nothing,
    Notify(AvailableUpdate),
    Install(AvailableUpdate),
}

/// Whether a stored version is the given one.
pub open spec fn names(stored: Option<&str>, version: Seq<char>) -> bool {
    stored matches Some(s) && s@ == version
}

/// Whether a stored version is the given one.
fn is_named(stored: Option<&str>, version: &str) -> (r: bool)
    ensures
        r == names(stored, version@),
{
    match stored {
        Some(s) => same(s, version),
        None => false,
    }
}

/// What a check of the schedule leads to: the mode decides, and where the user is to be told, a
/// version that was skipped or already told of leads to nothing.
pub open spec fn scheduled_outcome(
    mode: UpdateMode,
    found: Option<AvailableUpdate>,
    skipped: Option<&str>,
    notified: Option<&str>,
) -> CheckOutcome {
    match found {
        None => CheckOutcome::Nothing,
        Some(update) => match mode {
            UpdateMode::Automatic => CheckOutcome::Install(update),
            UpdateMode::Off => CheckOutcome::Nothing,
            UpdateMode::Notify => if names(skipped, update.version@) || names(
                notified,
                update.version@,
            ) {
                CheckOutcome::Nothing
            } else {
                CheckOutcome::Notify(update)
            },
        },
    }
}

/// What a check of the schedule leads to.
pub fn decide(
    mode: UpdateMode,
    found: Option<AvailableUpdate>,
    skipped: Option<&str>,
    notified: Option<&str>,
) -> (r: CheckOutcome)
    ensures
        r == scheduled_outcome(mode, found, skipped, notified),
{
    match found {
        None => CheckOutcome::Nothing,
        Some(update) => match mode {
            UpdateMode::Automatic => CheckOutcome::Install(update),
            UpdateMode::Off => CheckOutcome::Nothing,
            UpdateMode::Notify => {
                if is_named(skipped, &update.version) || is_named(notified, &update.version) {
                    CheckOutcome::Nothing
                } else {
                    CheckOutcome::Notify(update)
                }
            },
        },
    }
}

/// What a check that the user asked for leads to: the answer, never an install.
pub open spec fn manual_outcome(found: Option<AvailableUpdate>) -> CheckOutcome {
    match found {
        Some(update) => CheckOutcome::Notify(update),
        None => CheckOutcome::Nothing,
    }
}

/// What a check that the user asked for leads to.
pub fn decide_manual(found: Option<AvailableUpdate>) -> (r: CheckOutcome)
    ensures
        r == manual_outcome(found),
{
    match found {
        Some(update) => CheckOutcome::Notify(update),
        None => CheckOutcome::Nothing,
    }
}

/// An install that was decided on and waits, and who decided it.
#[derive(Debug, Clone)]
pub struct PendingInstall {
    pub update: AvailableUpdate,
    /// Whether the user asked for it, and not the schedule.
    pub user_requested: bool,
}

/// Why an install is attempted.
#[derive(Debug, Clone, Copy, PartialEq, Eq, Structural)]
pub enum InstallTrigger {
    /// The user asked for it.
    UserRequested,
    /// One that waits is tried again. It may go on with one that waits, not begin one.
    Retry,
}

/// What another try of an install that waits does.
#[derive(Debug, Clone, Copy, PartialEq, Eq, Structural)]
pub enum RetryAction {
    /// The queue is idle: install.
    InstallNow,
    /// The user asked for it: stop the queue after its job, then install.
    DrainThenInstall,
    /// The queue runs and no one asked to stop it: go on waiting.
    StayPending,
}

/// What another try of an install does: only a user may stop a queue that runs.
pub open spec fn retry(user_requested: bool, queue_running: bool) -> RetryAction {
    if !queue_running {
        RetryAction::InstallNow
    } else if user_requested {
        RetryAction::DrainThenInstall
    } else {
        RetryAction::StayPending
    }
}

/// What another try of an install that waits does.
pub fn retry_action(user_requested: bool, queue_running: bool) -> (r: RetryAction)
    ensures
        r == retry(user_requested, queue_running),
{
    match (queue_running, user_requested) {
        (false, _) => RetryAction::InstallNow,
        (true, true) => RetryAction::DrainThenInstall,
        (true, false) => RetryAction::StayPending,
    }
}

/// Whether an install that waits outlives a change of mode: one that the schedule decided on ends
/// with automatic updates, one that the user asked for does not.
pub open spec fn survives_mode(pending: PendingInstall, mode: UpdateMode) -> bool {
    mode == UpdateMode::Automatic || pending.user_requested
}

/// Whether an install that waits outlives a change of mode.
pub fn pending_survives_mode(pending: &PendingInstall, mode: UpdateMode) -> (r: bool)
    ensures
        r == survives_mode(*pending, mode),
{
    mode == UpdateMode::Automatic || pending.user_requested
}

/// Whether an install that waits outlives the skipping of a version.
pub fn pending_survives_skip(pending: &PendingInstall, skipped_version: &str) -> (r: bool)
    ensures
        r == (pending.update.version@ != skipped_version@),
{
    !same(&pending.update.version, skipped_version)
}

/// Why a check that the user asked for is refused.
#[derive(Debug, Clone, Copy, PartialEq, Eq, Structural)]
pub enum ManualCheckBlock {
    /// An install waits for the queue.
    InstallPending,
    /// An update is installed and waits for a restart.
    AwaitingRestart,
}

impl ManualCheckBlock {
    /// What the user is told.
    pub fn message(&self) -> (r: &'static str)
        ensures
            r@ == match self {
                ManualCheckBlock::InstallPending =>
                    "an update is already waiting to install once the queue is idle"@,
                ManualCheckBlock::AwaitingRestart =>
                    "an update is installed — restart ConvertBar to apply it"@,
            },
    {
        match self {
            ManualCheckBlock::InstallPending => {
                "an update is already waiting to install once the queue is idle"
            },
            ManualCheckBlock::AwaitingRestart => {
                "an update is installed — restart ConvertBar to apply it"
            },
        }
    }
}

/// Why a check that the user asked for is refused, if it is.
pub open spec fn check_block(status: Option<UpdateStatus>, pending: bool) -> Option<
    ManualCheckBlock,
> {
    if status == Some(UpdateStatus::ReadyToRestart) {
        Some(ManualCheckBlock::AwaitingRestart)
    } else if pending {
        Some(ManualCheckBlock::InstallPending)
    } else {
        None
    }
}

/// Why a check that the user asked for is refused, if it is.
pub fn manual_check_block(status: Option<UpdateStatus>, pending: Option<&PendingInstall>) -> (r:
    Option<ManualCheckBlock>)
    ensures
        r == check_block(status, pending is Some),
{
    match status {
        Some(UpdateStatus::ReadyToRestart) => {
            return Some(ManualCheckBlock::AwaitingRestart);
        },
        _ => {},
    }
    if pending.is_some() {
        return Some(ManualCheckBlock::InstallPending);
    }
    None
}

/// Installs an update. Implemented by whoever can.
pub trait Installer {
    /// Installs an update, or says why not. It is called under the claim that keeps the queue from
    /// starting.
    fn install(&self, held: &ConverterState, update: &AvailableUpdate) -> Result<(), String>
        requires
            held.installing,
            !held.is_running,
    ;
}

/// How an attempt to install ended.
#[derive(Debug)]
pub enum InstallAttempt {
    Installed,
    /// The queue runs: the install waits.
    Deferred,
    Failed(String),
}

/// How an attempt ended that the installer answered.
pub open spec fn attempt_of(answer: Result<(), String>) -> InstallAttempt {
    match answer {
        Ok(_) => InstallAttempt::Installed,
        Err(e) => InstallAttempt::Failed(e),
    }
}

/// How an attempt ended that the installer answered.
pub fn install_answer(answer: Result<(), String>) -> (r: InstallAttempt)
    ensures
        r == attempt_of(answer),
{
    match answer {
        Ok(_) => InstallAttempt::Installed,
        Err(e) => InstallAttempt::Failed(e),
    }
}

/// Installs an update if the queue is idle, and keeps the queue from starting meanwhile. The
/// installer is handed this update under the claim that is held meanwhile, and what it answers
/// decides: success gives `Installed`, an error `Failed`.
pub fn try_install_now<I: Installer>(
    conv: &mut ConverterState,
    installer: &I,
    update: &AvailableUpdate,
) -> (r: InstallAttempt)
    ensures
        r is Deferred <==> old(conv).is_running,
        old(conv).is_running ==> *final(conv) == *old(conv),
        !old(conv).is_running ==> *final(conv) == (ConverterState {
            installing: false,
            ..*old(conv)
        }),
        !old(conv).is_running ==> exists|
            held: &ConverterState,
            answer: Result<(), String>,
        |
            *held == (ConverterState { installing: true, ..*old(conv) }) && #[trigger] call_ensures(
                I::install,
                (installer, held, update),
                answer,
            ) && r == attempt_of(answer),
{
    if !conv.claim_install() {
        return InstallAttempt::Deferred;
    }
    let answer: Result<(), String> = installer.install(&*conv, update);
    conv.end_install();
    install_answer(answer)
}

/// How many seconds pass between two checks of the schedule.
pub const CHECK_INTERVAL_SECS: i64 = 86400;

/// How many seconds pass between two looks at the clock.
pub const TICK_INTERVAL_SECS: u64 = 3600;

/// Whether it is time to check: never checked, a day ago or more, or at a time still to come.
pub open spec fn check_is_due(last_checked: Option<i64>, now: i64) -> bool {
    match last_checked {
        None => true,
        Some(t) => now >= t + CHECK_INTERVAL_SECS || t > now,
    }
}

/// Whether it is time to check.
pub fn should_check_now(last_checked: Option<i64>, now: i64) -> (r: bool)
    ensures
        r == check_is_due(last_checked, now),
{
    match last_checked {
        None => true,
        Some(t) => t > now || (now as i128) - (t as i128) >= CHECK_INTERVAL_SECS as i128,
    }
}

/// Updates are automatic unless the user chose otherwise: only the two other modes, by their names,
/// change that.
pub proof fn updates_are_automatic_by_default(value: Seq<char>)
    ensures
        named_update_mode(value) == UpdateMode::Notify <==> value == "notify"@,
        named_update_mode(value) == UpdateMode::Off <==> value == "off"@,
        named_update_mode(value) == UpdateMode::Automatic <==> value != "notify"@ && value
            != "off"@,
{
    reveal_strlit("notify");
    reveal_strlit("off");
    assert("notify"@.len() == 6 && "off"@.len() == 3);
}

/// A check is due a day after the last one and not before, and where there was none, or one at a time
/// that is still to come.
pub proof fn checks_are_a_day_apart(last: i64, now: i64)
    ensures
        check_is_due(None, now),
        last <= now ==> (check_is_due(Some(last), now) <==> now - last >= 24 * 60 * 60),
        last > now ==> check_is_due(Some(last), now),
{
}

/// What is stored as nothing is not stored; anything else is, as it was stored.
pub proof fn empty_values_are_not_stored(
    rows: Seq<(Seq<char>, Seq<char>)>,
    key: Seq<char>,
    value: Seq<char>,
)
    ensures
        stored(with_setting(rows, key, value), key) == (if value.len() == 0 {
            None
        } else {
            Some(value)
        }),
{
    written_settings_are_read_back(rows, key, value, key);
}

/// A check that the user asks for is refused exactly while an update waits to be installed or waits
/// for a restart, and a restart is named first.
pub proof fn user_checks_wait_for_what_is_under_way(status: Option<UpdateStatus>, pending: bool)
    ensures
        check_block(status, pending) is None <==> !pending && status != Some(
            UpdateStatus::ReadyToRestart,
        ),
        check_block(status, pending) == Some(ManualCheckBlock::AwaitingRestart) <==> status == Some(
            UpdateStatus::ReadyToRestart,
        ),
{
}

/// An install goes on at once where the queue is idle, stops a queue that runs where the user asked
/// for it, and waits for it otherwise.
pub proof fn installs_wait_for_the_queue(user_requested: bool, queue_running: bool)
    ensures
        retry(user_requested, queue_running) == RetryAction::InstallNow <==> !queue_running,
        retry(user_requested, queue_running) == RetryAction::DrainThenInstall <==> queue_running
            && user_requested,
        retry(user_requested, queue_running) == RetryAction::StayPending <==> queue_running
            && !user_requested,
{
}

/// What an installer answers is what is told of the attempt.
pub proof fn attempts_end_as_the_installer_says(error: String)
    ensures
        attempt_of(Ok(())) is Installed,
        attempt_of(Err(error)) == InstallAttempt::Failed(error),
{
}


} // verus!
