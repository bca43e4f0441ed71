//! What the window's commands answer, and what follows from a setting that was changed.

use crate::converter::{ConverterState, Platform};
use crate::db::{default_settings, first_settings, has_key, knows_key, read_setting, value_of};
use crate::db::{with_setting, write_setting, written_settings_are_read_back};
use crate::text::{joined2, same};
use crate::updater::{named_update_mode, normalize_update_mode, UpdateMode};
use vstd::prelude::*;
use vstd::string::*;

verus! {

/// How a command failed. A failure that is meant has no kind; that of a task that died is a panic.
#[derive(Debug, Clone)]
pub struct CommandError {
    pub error: String,
    pub kind: Option<&'static str>,
}

/// Whether an error is a failure that is meant, in the given words.
pub open spec fn is_meant(e: CommandError, words: Seq<char>) -> bool {
    e.error@ == words && e.kind is None
}

impl CommandError {
    /// A failure that is meant.
    pub fn failed(error: String) -> (r: Self)
        ensures
            is_meant(r, error@),
    {
        CommandError { error, kind: None }
    }

    /// The failure of a task that died. `detail` is what it died with, if that was a text.
    pub fn panicked(detail: Option<&str>) -> (r: Self)
        ensures
            r.error@ == panic_words(detail),
            r.kind matches Some(k) && k@ == "panic"@,
    {
        CommandError { error: panic_message(detail), kind: Some("panic") }
    }
}

/// What is said of a task that died.
pub open spec fn panic_words(detail: Option<&str>) -> Seq<char> {
    "task panicked: "@ + match detail {
        Some(d) => d@,
        None => "a non-string panic payload"@,
    }
}

/// What is said of a task that died.
pub fn panic_message(detail: Option<&str>) -> (r: String)
    ensures
        r@ == panic_words(detail),
{
    match detail {
        Some(d) => joined2("task panicked: ", d),
        None => joined2("task panicked: ", "a non-string panic payload"),
    }
}

/// How a task of the server did not end well.
#[derive(Debug, Clone)]
pub enum TaskEnd {
    /// It died, with a text or something else.
    Panicked(Option<String>),
    /// It was stopped.
    Cancelled,
}

/// What is said of a task that did not end well.
pub open spec fn end_words(end: TaskEnd) -> Seq<char> {
    match end {
        TaskEnd::Panicked(Some(d)) => "task panicked: "@ + d@,
        TaskEnd::Panicked(None) => "task panicked: "@ + "a non-string panic payload"@,
        TaskEnd::Cancelled => "task was cancelled"@,
    }
}

/// What is said of a task that did not end well.
pub fn task_failure(end: &TaskEnd) -> (r: String)
    ensures
        r@ == end_words(*end),
{
    match end {
        TaskEnd::Panicked(Some(d)) => panic_message(Some(d.as_str())),
        TaskEnd::Panicked(None) => panic_message(None),
        TaskEnd::Cancelled => "task was cancelled".to_owned(),
    }
}

/// The status of an answer to a request that could not be carried out.
pub const STATUS_FAILED: u16 = 500;

/// What the server answers to a request that could not be carried out.
#[derive(Debug, Clone)]
pub struct FailureReply {
    pub status: u16,
    pub failure: CommandError,
}

/// The answer to a failure that is meant: it has no kind.
pub fn core_err(error: String) -> (r: FailureReply)
    ensures
        r.status == STATUS_FAILED,
        is_meant(r.failure, error@),
{
    FailureReply { status: STATUS_FAILED, failure: CommandError::failed(error) }
}

/// The answer to a task that did not end well. It is told from a failure that is meant by its kind,
/// which is a panic even where the task was stopped: either way the server is at fault.
pub fn join_err(end: &TaskEnd) -> (r: FailureReply)
    ensures
        r.status == STATUS_FAILED,
        r.failure.error@ == end_words(*end),
        r.failure.kind matches Some(k) && k@ == "panic"@,
{
    FailureReply {
        status: STATUS_FAILED,
        failure: CommandError { error: task_failure(end), kind: Some("panic") },
    }
}

/// The scripts that are run after each conversion and when the queue is done.
#[derive(Debug, Clone)]
pub struct CommandHooks {
    pub post_convert: String,
    pub queue_drained: String,
}

/// The setting that a hook is stored under.
pub open spec fn hook_key(trigger: Seq<char>) -> Option<Seq<char>> {
    if trigger == "post_convert"@ {
        Some("post_convert_command"@)
    } else if trigger == "queue_drained"@ {
        Some("queue_drained_command"@)
    } else {
        None
    }
}

/// The setting that a hook is stored under. Any other name is refused, so that no other setting
/// can be written by way of a hook.
pub fn key_for(trigger: &str) -> (r: Result<&'static str, CommandError>)
    ensures
        match r {
            Ok(key) => hook_key(trigger@) == Some(key@),
            Err(e) => hook_key(trigger@) is None && is_meant(
                e,
                "unknown hook trigger: "@ + trigger@,
            ),
        },
{
    if same(trigger, "post_convert") {
        Ok("post_convert_command")
    } else if same(trigger, "queue_drained") {
        Ok("queue_drained_command")
    } else {
        Err(CommandError::failed(joined2("unknown hook trigger: ", trigger)))
    }
}

/// The value that rows have for a key, or nothing.
pub open spec fn value_or_nothing(rows: Seq<(Seq<char>, Seq<char>)>, key: Seq<char>) -> Seq<char> {
    match value_of(rows, key) {
        Some(v) => v,
        None => Seq::empty(),
    }
}

/// The value that rows have for a key, or nothing.
fn read_or_nothing(rows: &Vec<(String, String)>, key: &str) -> (r: String)
    ensures
        r@ == value_or_nothing(rows.deep_view(), key@),
{
    match read_setting(rows, key) {
        Some(v) => v,
        None => String::new(),
    }
}

/// The scripts that the settings hold.
pub fn read_command_hooks(rows: &Vec<(String, String)>) -> (r: CommandHooks)
    ensures
        r.post_convert@ == value_or_nothing(rows.deep_view(), "post_convert_command"@),
        r.queue_drained@ == value_or_nothing(rows.deep_view(), "queue_drained_command"@),
{
    CommandHooks {
        post_convert: read_or_nothing(rows, "post_convert_command"),
        queue_drained: read_or_nothing(rows, "queue_drained_command"),
    }
}

/// Stores the script of a hook. A hook that is not known changes nothing.
pub fn write_command_hook(rows: &mut Vec<(String, String)>, trigger: &str, command: &str) -> (r:
    Result<(), CommandError>)
    ensures
        match hook_key(trigger@) {
            Some(key) => r is Ok && final(rows).deep_view() == with_setting(
                old(rows).deep_view(),
                key,
                command@,
            ),
            None => final(rows)@ == old(rows)@ && (r matches Err(e) && is_meant(
                e,
                "unknown hook trigger: "@ + trigger@,
            )),
        },
{
    match key_for(trigger) {
        Ok(key) => {
            write_setting(rows, key, command);
            Ok(())
        },
        Err(e) => Err(e),
    }
}

/// Only the two settings of the hooks can be reached by way of a hook: whatever is written under
/// whatever name, every other setting stays.
pub proof fn hooks_reach_two_settings_only(
    rows: Seq<(Seq<char>, Seq<char>)>,
    trigger: Seq<char>,
    command: Seq<char>,
    other: Seq<char>,
)
    requires
        other != "post_convert_command"@,
        other != "queue_drained_command"@,
    ensures
        hook_key(trigger) matches Some(k) ==> value_of(with_setting(rows, k, command), other)
            == value_of(rows, other),
{
    if let Some(k) = hook_key(trigger) {
        written_settings_are_read_back(rows, k, command, other);
    }
}

/// The script that was stored for a hook is the one that the hook has, and the other hook keeps
/// its own.
pub proof fn hooks_are_stored_apart(rows: Seq<(Seq<char>, Seq<char>)>, command: Seq<char>)
    ensures
        ({
            let after = "post_convert_command"@;
            let drained = "queue_drained_command"@;
            &&& value_or_nothing(with_setting(rows, after, command), after) == command
            &&& value_or_nothing(with_setting(rows, drained, command), drained) == command
            &&& value_or_nothing(with_setting(rows, after, command), drained)
                == value_or_nothing(rows, drained)
            &&& value_or_nothing(with_setting(rows, drained, command), after)
                == value_or_nothing(rows, after)
        }),
{
    reveal_strlit("post_convert_command");
    reveal_strlit("queue_drained_command");
    let after = "post_convert_command"@;
    let drained = "queue_drained_command"@;
    assert(after.len() == 20 && drained.len() == 21);
    written_settings_are_read_back(rows, after, command, drained);
    written_settings_are_read_back(rows, drained, command, after);
}

/// Whether a setting is one that the user can change: one that the program starts with, or one of
/// those that are there only once they are changed.
pub open spec fn is_setting(key: Seq<char>) -> bool {
    ||| has_key(first_settings(Platform::Linux), key)
    ||| key == "low_disk_min_gb"@
    ||| key == "update_mode"@
    ||| key == "bad_source_action"@
    ||| key == "encode_priority"@
}

/// Changes a setting. One that is not known is refused.
pub fn update_setting(rows: &mut Vec<(String, String)>, key: &str, value: &str) -> (r: Result<
    (),
    String,
>)
    ensures
        match r {
            Ok(_) => is_setting(key@) && final(rows).deep_view() == with_setting(
                old(rows).deep_view(),
                key@,
                value@,
            ),
            Err(e) => !is_setting(key@) && e@ == "Invalid setting key: "@ + key@
                && final(rows)@ == old(rows)@,
        },
{
    if knows_key(&default_settings(Platform::Linux), key) || same(key, "low_disk_min_gb") || same(
        key,
        "update_mode",
    ) || same(key, "bad_source_action") || same(key, "encode_priority") {
        write_setting(rows, key, value);
        Ok(())
    } else {
        Err(joined2("Invalid setting key: ", key))
    }
}

/// What the system that the program runs on can do.
#[derive(Debug, Clone, Copy, PartialEq, Eq, Structural)]
pub struct PlatformCapabilities {
    pub can_pause_process: bool,
    pub priority_is_group_scoped: bool,
}

/// What the system that the program runs on can do.
pub fn get_platform_capabilities(platform: Platform) -> (r: PlatformCapabilities)
    ensures
        r.can_pause_process == (platform == Platform::Macos),
        r.priority_is_group_scoped == (platform == Platform::Linux),
{
    PlatformCapabilities {
        can_pause_process: ConverterState::can_pause_process(platform),
        priority_is_group_scoped: platform == Platform::Linux,
    }
}

/// What follows from a setting that was changed.
#[derive(Debug, Clone, Copy, PartialEq, Eq, Structural)]
pub enum SettingEffect {
    Nothing,
    /// The program is started with the session, or not.
    Autostart(bool),
    /// Updates are treated otherwise.
    UpdateMode(UpdateMode),
}

/// What follows from a setting that was changed.
pub open spec fn effect_of(key: Seq<char>, value: Seq<char>) -> SettingEffect {
    if key == "launch_at_login"@ {
        SettingEffect::Autostart(value == "true"@)
    } else if key == "update_mode"@ {
        SettingEffect::UpdateMode(named_update_mode(value))
    } else {
        SettingEffect::Nothing
    }
}

/// What follows from a setting that was changed.
pub fn setting_effect(key: &str, value: &str) -> (r: SettingEffect)
    ensures
        r == effect_of(key@, value@),
{
    if same(key, "launch_at_login") {
        SettingEffect::Autostart(same(value, "true"))
    } else if same(key, "update_mode") {
        SettingEffect::UpdateMode(normalize_update_mode(value))
    } else {
        SettingEffect::Nothing
    }
}

/// Only two settings have an effect of their own: the program starts with the session exactly where
/// that is on, and updates are treated as their setting says.
pub proof fn two_settings_take_effect(key: Seq<char>, value: Seq<char>)
    ensures
        effect_of("launch_at_login"@, value) == SettingEffect::Autostart(value == "true"@),
        effect_of("update_mode"@, value) == SettingEffect::UpdateMode(named_update_mode(value)),
        key != "launch_at_login"@ && key != "update_mode"@ ==> effect_of(key, value)
            == SettingEffect::Nothing,
{
    reveal_strlit("launch_at_login");
    reveal_strlit("update_mode");
    assert("launch_at_login"@.len() == 15 && "update_mode"@.len() == 11);
}

/// A task that died tells what it died with, where that was a text; one that was stopped says so.
pub proof fn tasks_tell_how_they_ended(detail: String)
    ensures
        end_words(TaskEnd::Panicked(Some(detail))).skip("task panicked: "@.len() as int) == detail@,
        end_words(TaskEnd::Cancelled) == "task was cancelled"@,
        end_words(TaskEnd::Panicked(None)) == panic_words(None),
{
    let words = end_words(TaskEnd::Panicked(Some(detail)));
    assert(words.skip("task panicked: "@.len() as int) =~= detail@);
}


} // verus!
