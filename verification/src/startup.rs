//! What is put right before the program begins its work.

use crate::converter::is_in_place;
use crate::db::{read_setting, read_switch, value_of, with_setting, write_setting};
use crate::db::written_settings_are_read_back;
use crate::paths::same_path;
use crate::text::same;
use crate::types::JobInfo;
use vstd::prelude::*;
use vstd::string::*;

verus! {

/// Whether a setting is one that the server does not allow to be the trash.
pub open spec fn server_deletes(key: Seq<char>) -> bool {
    key == "cleanup_mode"@ || key == "bad_source_action"@
}

/// What the server makes of a setting: where it would move files to the trash, it deletes them.
pub open spec fn server_setting(key: Seq<char>, value: Seq<char>) -> Seq<char> {
    if server_deletes(key) && value == "trash"@ {
        "delete"@
    } else {
        value
    }
}

/// The value that the server stores in place of a setting, if it does.
pub fn normalize_server_setting(key: &str, value: &str) -> (r: Option<&'static str>)
    ensures
        match r {
            Some(v) => v@ == server_setting(key@, value@) && v@ != value@,
            None => server_setting(key@, value@) == value@,
        },
{
    proof {
        reveal_strlit("trash");
        reveal_strlit("delete");
        assert("trash"@.len() != "delete"@.len());
    }
    if (same(key, "cleanup_mode") || same(key, "bad_source_action")) && same(value, "trash") {
        Some("delete")
    } else {
        None
    }
}

/// The settings of the server: where one would move files to the trash, it deletes them.
pub open spec fn server_settings(rows: Seq<(Seq<char>, Seq<char>)>) -> Seq<(Seq<char>, Seq<char>)> {
    rows.map_values(|row: (Seq<char>, Seq<char>)| (row.0, server_setting(row.0, row.1)))
}

/// Puts the settings right for the server.
pub fn normalize_server_settings(rows: &mut Vec<(String, String)>)
    ensures
        final(rows).deep_view() == server_settings(old(rows).deep_view()),
{
    let ghost before = rows.deep_view();
    let mut out: Vec<(String, String)> = Vec::new();
    let mut i: usize = 0;
    while i < rows.len()
        invariant
            i <= rows.len() == before.len(),
            before == rows.deep_view(),
            out.len() == i,
            forall|j: int|
                0 <= j < i ==> (#[trigger] out@[j]).0@ == before[j].0 && out@[j].1@
                    == server_setting(before[j].0, before[j].1),
        decreases rows.len() - i,
    {
        assert(before[i as int] == (rows@[i as int].0@, rows@[i as int].1@));
        let key: String = rows[i].0.clone();
        match normalize_server_setting(&rows[i].0, &rows[i].1) {
            Some(v) => out.push((key, v.to_owned())),
            None => out.push((key, rows[i].1.clone())),
        }
        i = i + 1;
    }
    assert(out.deep_view() =~= server_settings(before));
    *rows = out;
}

/// On the server no setting that decides what happens to files is the trash.
pub proof fn the_server_has_no_trash(key: Seq<char>, value: Seq<char>)
    ensures
        server_deletes(key) ==> server_setting(key, value) != "trash"@,
        server_setting(key, server_setting(key, value)) == server_setting(key, value),
        !server_deletes(key) ==> server_setting(key, value) == value,
{
    reveal_strlit("trash");
    reveal_strlit("delete");
    assert("trash"@.len() != "delete"@.len());
}

/// Whether the program ended while a job was under way.
pub open spec fn interrupted(status: Seq<char>) -> bool {
    status == "encoding"@ || status == "paused"@
}

/// The status that a job has when the program starts: one that was under way waits again.
pub open spec fn recovered(status: Seq<char>) -> Seq<char> {
    if interrupted(status) {
        "queued"@
    } else {
        status
    }
}

/// What is done with a job when the program starts.
#[derive(Debug, Clone, Copy, PartialEq, Eq, Structural)]
pub enum Recovery {
    /// Nothing.
    Leave,
    /// It waits again.
    Requeue,
    /// It waits again, and what it wrote is removed.
    RequeueAndRemoveOutput,
}

/// What is done with a job when the program starts. What it wrote is removed, but never the
/// source.
pub open spec fn recovery_of(job: JobInfo) -> Recovery {
    if !interrupted(job.status@) {
        Recovery::Leave
    } else if same_path(job.source_path@, job.output_path@) {
        Recovery::Requeue
    } else {
        Recovery::RequeueAndRemoveOutput
    }
}

/// What is done with a job when the program starts.
pub fn recovery(job: &JobInfo) -> (r: Recovery)
    ensures
        r == recovery_of(*job),
{
    if !same(&job.status, "encoding") && !same(&job.status, "paused") {
        Recovery::Leave
    } else if is_in_place(&job.source_path, &job.output_path) {
        Recovery::Requeue
    } else {
        Recovery::RequeueAndRemoveOutput
    }
}

/// Whether a job is dropped when the window's program starts: where both files are kept, no
/// output can take the place of its source.
pub open spec fn dropped(job: JobInfo, cleanup_mode: Seq<char>) -> bool {
    cleanup_mode == "keep"@ && recovered(job.status@) == "queued"@ && same_path(
        job.source_path@,
        job.output_path@,
    )
}

/// Whether a job is dropped when the window's program starts.
pub fn is_dropped(job: &JobInfo, cleanup_mode: &str) -> (r: bool)
    ensures
        r == dropped(*job, cleanup_mode@),
{
    let waits: bool = same(&job.status, "queued") || same(&job.status, "encoding") || same(
        &job.status,
        "paused",
    );
    same(cleanup_mode, "keep") && waits && is_in_place(&job.source_path, &job.output_path)
}

/// Whether the queue starts with the program: jobs wait, and the user has not paused it.
pub fn should_auto_resume(has_queued: bool, queue_paused: bool) -> (r: bool)
    ensures
        r == (has_queued && !queue_paused),
{
    has_queued && !queue_paused
}

/// Whether the user has paused the queue.
pub open spec fn queue_is_paused(rows: Seq<(Seq<char>, Seq<char>)>) -> bool {
    value_of(rows, "queue_paused"@) == Some("true"@)
}

/// What the program begins its work with.
#[derive(Debug, Clone)]
pub struct Boot {
    /// What is done with each job.
    pub recoveries: Vec<Recovery>,
    /// Whether the queue starts.
    pub resume: bool,
}

/// Decides what the program begins its work with.
pub fn boot(jobs: &Vec<JobInfo>, rows: &Vec<(String, String)>) -> (r: Boot)
    ensures
        r.recoveries.len() == jobs.len(),
        forall|i: int|
            0 <= i < jobs.len() ==> #[trigger] r.recoveries@[i] == recovery_of(jobs@[i]),
        r.resume == (!queue_is_paused(rows.deep_view()) && exists|i: int|
            0 <= i < jobs.len() && recovered((#[trigger] jobs@[i]).status@) == "queued"@),
{
    let mut recoveries: Vec<Recovery> = Vec::new();
    let mut has_queued: bool = false;
    let mut i: usize = 0;
    while i < jobs.len()
        invariant
            i <= jobs.len(),
            recoveries.len() == i,
            forall|j: int| 0 <= j < i ==> #[trigger] recoveries@[j] == recovery_of(jobs@[j]),
            has_queued == exists|j: int|
                0 <= j < i && recovered((#[trigger] jobs@[j]).status@) == "queued"@,
        decreases jobs.len() - i,
    {
        let what: Recovery = recovery(&jobs[i]);
        if what != Recovery::Leave || same(&jobs[i].status, "queued") {
            assert(recovered(jobs@[i as int].status@) == "queued"@);
            has_queued = true;
        }
        recoveries.push(what);
        i = i + 1;
    }
    let paused: bool = match read_setting(rows, "queue_paused") {
        Some(v) => same(&v, "true"),
        None => false,
    };
    Boot { recoveries, resume: should_auto_resume(has_queued, paused) }
}

/// Whether the pause of the queue is the updater's, which made room for an install that the user
/// asked for.
pub open spec fn paused_by_updater(rows: Seq<(Seq<char>, Seq<char>)>) -> bool {
    value_of(rows, "queue_paused_by_update"@) == Some("true"@)
}

/// A switch as it is stored.
pub open spec fn switch_text(on: bool) -> Seq<char> {
    if on {
        "true"@
    } else {
        "false"@
    }
}

/// Rows that say whether the queue is paused, and whether by the updater.
pub open spec fn with_pause(
    rows: Seq<(Seq<char>, Seq<char>)>,
    paused: bool,
    by_updater: bool,
) -> Seq<(Seq<char>, Seq<char>)> {
    with_setting(
        with_setting(rows, "queue_paused"@, switch_text(paused)),
        "queue_paused_by_update"@,
        switch_text(by_updater),
    )
}

/// Remembers whether the queue is paused, and whether by the updater.
pub fn remember_pause(rows: &mut Vec<(String, String)>, paused: bool, by_updater: bool)
    ensures
        final(rows).deep_view() == with_pause(old(rows).deep_view(), paused, by_updater),
{
    write_setting(
        rows,
        "queue_paused",
        if paused {
            "true"
        } else {
            "false"
        },
    );
    write_setting(
        rows,
        "queue_paused_by_update",
        if by_updater {
            "true"
        } else {
            "false"
        },
    );
}

/// Rows without a pause that the updater caused.
pub open spec fn lifted(rows: Seq<(Seq<char>, Seq<char>)>) -> Seq<(Seq<char>, Seq<char>)> {
    if paused_by_updater(rows) {
        with_pause(rows, false, false)
    } else {
        rows
    }
}

/// Whether the queue starts with the window's program: jobs wait, and the user has not paused it. A
/// pause that the updater caused is lifted, once, and then forgotten.
pub fn should_resume_queue_at_launch(rows: &mut Vec<(String, String)>, has_queued: bool) -> (r: bool)
    ensures
        r == (has_queued && (!queue_is_paused(old(rows).deep_view()) || paused_by_updater(
            old(rows).deep_view(),
        ))),
        final(rows).deep_view() == lifted(old(rows).deep_view()),
{
    if read_switch(rows, "queue_paused_by_update") == Some(true) {
        remember_pause(rows, false, false);
        return has_queued;
    }
    should_auto_resume(has_queued, read_switch(rows, "queue_paused") == Some(true))
}

/// A pause that the updater caused does not outlive the next launch, which forgets it; a pause that
/// the user caused does.
pub proof fn updater_pauses_are_lifted_once(rows: Seq<(Seq<char>, Seq<char>)>)
    ensures
        paused_by_updater(with_pause(rows, true, true)),
        !queue_is_paused(lifted(with_pause(rows, true, true))),
        !paused_by_updater(lifted(rows)),
        lifted(lifted(rows)) == lifted(rows),
        queue_is_paused(lifted(rows)) == (queue_is_paused(rows) && !paused_by_updater(rows)),
        queue_is_paused(with_pause(rows, true, false)),
        lifted(with_pause(rows, true, false)) == with_pause(rows, true, false),
{
    lemma_pause_is_read_back(rows, true, true);
    lemma_pause_is_read_back(rows, true, false);
    lemma_pause_is_read_back(rows, false, false);
    lemma_pause_is_read_back(with_pause(rows, true, true), false, false);
}

/// What was remembered of a pause is read back.
proof fn lemma_pause_is_read_back(
    rows: Seq<(Seq<char>, Seq<char>)>,
    paused: bool,
    by_updater: bool,
)
    ensures
        queue_is_paused(with_pause(rows, paused, by_updater)) == paused,
        paused_by_updater(with_pause(rows, paused, by_updater)) == by_updater,
{
    reveal_strlit("queue_paused");
    reveal_strlit("queue_paused_by_update");
    reveal_strlit("true");
    reveal_strlit("false");
    assert("true"@.len() != "false"@.len());
    assert("queue_paused"@.len() != "queue_paused_by_update"@.len());
    let first = with_setting(rows, "queue_paused"@, switch_text(paused));
    written_settings_are_read_back(
        rows,
        "queue_paused"@,
        switch_text(paused),
        "queue_paused_by_update"@,
    );
    written_settings_are_read_back(
        first,
        "queue_paused_by_update"@,
        switch_text(by_updater),
        "queue_paused"@,
    );
}

/// What the window's program begins its work with.
#[derive(Debug, Clone)]
pub struct Launch {
    /// What is done with each job.
    pub recoveries: Vec<Recovery>,
    /// Which jobs are dropped after that.
    pub dropped: Vec<bool>,
    /// Whether the queue starts.
    pub resume: bool,
}

/// Decides what the window's program begins its work with. A pause that the updater caused is lifted.
pub fn launch(
    jobs: &Vec<JobInfo>,
    cleanup_mode: &str,
    rows: &mut Vec<(String, String)>,
) -> (r: Launch)
    ensures
        r.recoveries.len() == jobs.len(),
        r.dropped.len() == jobs.len(),
        forall|i: int|
            0 <= i < jobs.len() ==> #[trigger] r.recoveries@[i] == recovery_of(jobs@[i]),
        forall|i: int|
            0 <= i < jobs.len() ==> #[trigger] r.dropped@[i] == dropped(jobs@[i], cleanup_mode@),
        r.resume == ((!queue_is_paused(old(rows).deep_view()) || paused_by_updater(
            old(rows).deep_view(),
        )) && exists|i: int|
            0 <= i < jobs.len() && recovered((#[trigger] jobs@[i]).status@) == "queued"@ && !dropped(
                jobs@[i],
                cleanup_mode@,
            )),
        final(rows).deep_view() == lifted(old(rows).deep_view()),
{
    let mut recoveries: Vec<Recovery> = Vec::new();
    let mut gone: Vec<bool> = Vec::new();
    let mut has_queued: bool = false;
    let mut i: usize = 0;
    while i < jobs.len()
        invariant
            i <= jobs.len(),
            recoveries.len() == i,
            gone.len() == i,
            forall|j: int| 0 <= j < i ==> #[trigger] recoveries@[j] == recovery_of(jobs@[j]),
            forall|j: int| 0 <= j < i ==> #[trigger] gone@[j] == dropped(jobs@[j], cleanup_mode@),
            has_queued == exists|j: int|
                0 <= j < i && recovered((#[trigger] jobs@[j]).status@) == "queued"@ && !dropped(
                    jobs@[j],
                    cleanup_mode@,
                ),
        decreases jobs.len() - i,
    {
        let what: Recovery = recovery(&jobs[i]);
        let goes: bool = is_dropped(&jobs[i], cleanup_mode);
        if !goes && (what != Recovery::Leave || same(&jobs[i].status, "queued")) {
            assert(recovered(jobs@[i as int].status@) == "queued"@);
            has_queued = true;
        }
        recoveries.push(what);
        gone.push(goes);
        i = i + 1;
    }
    let resume: bool = should_resume_queue_at_launch(rows, has_queued);
    Launch { recoveries, dropped: gone, resume }
}

/// What a job wrote is removed at the start only if the job was under way and its output is not
/// its source.
pub proof fn recovery_spares_the_source(job: JobInfo)
    ensures
        recovery_of(job) == Recovery::RequeueAndRemoveOutput ==> interrupted(job.status@)
            && !same_path(job.source_path@, job.output_path@),
{
}

/// A job that was put right at one start needs nothing at the next.
pub proof fn recovery_is_idempotent(status: Seq<char>)
    ensures
        recovered(recovered(status)) == recovered(status),
        !interrupted(recovered(status)),
{
    reveal_strlit("encoding");
    reveal_strlit("paused");
    reveal_strlit("queued");
    assert("queued"@.len() != "encoding"@.len());
    assert("queued"@[0] != "paused"@[0]);
}

/// A job that was under way waits again, any other is left; what an interrupted job wrote is removed
/// unless it stands at the place of the source.
pub proof fn interrupted_jobs_wait_again(job: JobInfo)
    ensures
        ({
            let under_way = job.status@ == "encoding"@ || job.status@ == "paused"@;
            &&& recovery_of(job) == Recovery::Leave <==> !under_way
            &&& recovery_of(job) == Recovery::Requeue <==> under_way && same_path(
                job.source_path@,
                job.output_path@,
            )
            &&& under_way ==> recovered(job.status@) == "queued"@
            &&& !under_way ==> recovered(job.status@) == job.status@
        }),
{
}

/// A job is dropped at the start exactly where both files are to stay, its output would take the
/// place of its source, and it waits or is to wait again.
pub proof fn only_impossible_jobs_are_dropped(job: JobInfo, mode: Seq<char>)
    ensures
        dropped(job, mode) <==> {
            &&& mode == "keep"@
            &&& same_path(job.source_path@, job.output_path@)
            &&& job.status@ == "queued"@ || job.status@ == "encoding"@ || job.status@ == "paused"@
        },
{
    reveal_strlit("queued");
    reveal_strlit("encoding");
    reveal_strlit("paused");
    assert("queued"@.len() == 6 && "encoding"@.len() == 8 && "paused"@.len() == 6);
    assert("queued"@[0] != "paused"@[0]);
}

/// The server changes nothing but the two settings that would move files to a trash, and those only
/// where they would.
pub proof fn the_server_changes_two_settings_only(key: Seq<char>, value: Seq<char>)
    ensures
        server_setting(key, value) != value ==> value == "trash"@ && server_setting(key, value)
            == "delete"@ && (key == "cleanup_mode"@ || key == "bad_source_action"@),
        key == "cleanup_mode"@ || key == "bad_source_action"@ ==> server_setting(key, "trash"@)
            == "delete"@,
{
}

/// The queue is paused exactly where that is stored as on.
pub proof fn pauses_are_stored_as_on(rows: Seq<(Seq<char>, Seq<char>)>, value: Seq<char>)
    ensures
        queue_is_paused(with_setting(rows, "queue_paused"@, value)) <==> value == "true"@,
        paused_by_updater(with_setting(rows, "queue_paused_by_update"@, value)) <==> value
            == "true"@,
        queue_is_paused(Seq::empty()) == false,
{
    written_settings_are_read_back(rows, "queue_paused"@, value, "queue_paused"@);
    written_settings_are_read_back(
        rows,
        "queue_paused_by_update"@,
        value,
        "queue_paused_by_update"@,
    );
}


} // verus!
