//! What is decided about one encode: where its output goes, whether there is room for it, which
//! file is kept when it ends, and the flags that the queue's threads share.

use crate::paths::{file_name, file_name_of, join_path, joined_path, parent, parent_of};
use crate::paths::{components, joined_files_are_found, last_dot, lemma_file_name_plain};
use crate::paths::{lemma_joined_components, lemma_last_dot, paths_equal, plain, same_path, stem, stem_of};
use crate::text::{decimal_of, decimal_text, joined3, occurs, occurs_at, same};
use vstd::prelude::*;
use vstd::string::*;

verus! {

/// Marks the file that an in-place encode writes, so that scans leave it alone.
pub const IN_PLACE_TEMP_MARKER: &'static str = ".convertbar-tmp.";

/// Whether a job encodes a file onto itself: its two paths are one path, however they are spelt.
pub fn is_in_place(source_path: &str, output_path: &str) -> (r: bool)
    ensures
        r == same_path(source_path@, output_path@),
{
    paths_equal(source_path, output_path)
}

/// The stem of a path's file name, or `output` if the path names no file.
pub open spec fn temp_stem(source: Seq<char>) -> Seq<char> {
    match file_name(source) {
        Some(name) => stem(name),
        None => "output"@,
    }
}

/// The directory of a path, or `.` if it has none.
pub open spec fn temp_dir(source: Seq<char>) -> Seq<char> {
    match parent(source) {
        Some(dir) => dir,
        None => "."@,
    }
}

/// Where an in-place encode of `source` writes: a hidden, marked file beside it.
pub open spec fn temp_path(source: Seq<char>) -> Seq<char> {
    joined_path(
        temp_dir(source),
        "."@ + temp_stem(source) + ".convertbar-tmp."@ + "mp4"@,
    )
}

/// Where an in-place encode of a file writes.
pub fn in_place_temp_path(source_path: &str) -> (r: String)
    ensures
        r@ == temp_path(source_path@),
{
    let name_stem: String = match file_name_of(source_path) {
        Some(name) => stem_of(&name),
        None => "output".to_owned(),
    };
    let dir: String = match parent_of(source_path) {
        Some(d) => d,
        None => ".".to_owned(),
    };
    let name: String = joined3(".", &name_stem, IN_PLACE_TEMP_MARKER).concat("mp4");
    join_path(&dir, &name)
}

/// The name of the file that an in-place encode writes.
pub open spec fn temp_name(source: Seq<char>) -> Seq<char> {
    "."@ + temp_stem(source) + ".convertbar-tmp."@ + "mp4"@
}

/// The name of the file that an in-place encode writes is that of a file, and marked.
proof fn lemma_temp_name(source: Seq<char>)
    ensures
        plain(temp_name(source)),
        occurs(temp_name(source), IN_PLACE_TEMP_MARKER@),
        temp_name(source).len() == temp_stem(source).len() + 20,
        last_dot(temp_name(source)) == temp_name(source).len() - 4,
{
    reveal_strlit(".");
    reveal_strlit(".convertbar-tmp.");
    reveal_strlit("mp4");
    reveal_strlit("output");
    lemma_file_name_plain(source);
    let st = temp_stem(source);
    let name = temp_name(source);
    assert(!st.contains('/')) by {
        if st.contains('/') {
            let i = choose|i: int| 0 <= i < st.len() && st[i] == '/';
            match file_name(source) {
                Some(whole) => {
                    lemma_last_dot(whole);
                    assert(whole[i] == '/');
                    assert(whole.contains('/'));
                },
                None => {},
            }
        }
    }
    assert(!name.contains('/')) by {
        if name.contains('/') {
            let i = choose|i: int| 0 <= i < name.len() && name[i] == '/';
            if 1 <= i <= st.len() {
                assert(st[i - 1] == '/');
                assert(st.contains('/'));
            }
        }
    }
    let at: int = 1 + st.len() as int;
    assert(name.subrange(at, at + 16) =~= ".convertbar-tmp."@);
    assert(occurs_at(name, IN_PLACE_TEMP_MARKER@, at));
    let n = name.len() as int;
    assert(name.last() == '4' && name[n - 2] == 'p' && name[n - 3] == 'm' && name[n - 4] == '.');
    reveal_with_fuel(last_dot, 5);
    let a = name.drop_last();
    let b = a.drop_last();
    let c = b.drop_last();
    assert(a.last() == 'p' && b.last() == 'm' && c.last() == '.');
    assert(last_dot(c) == n - 4);
    assert(last_dot(b) == last_dot(c));
    assert(last_dot(a) == last_dot(b));
    assert(last_dot(name) == last_dot(a));
}

/// An in-place encode writes beside its source and never onto it, to a file whose name is marked.
pub proof fn in_place_encodes_spare_the_source(source: Seq<char>)
    ensures
        !same_path(temp_path(source), source),
        file_name(temp_path(source)) == Some(temp_name(source)),
        occurs(temp_name(source), IN_PLACE_TEMP_MARKER@),
        parent(temp_path(source)) matches Some(dir) && same_path(dir, temp_dir(source)),
{
    let name = temp_name(source);
    lemma_temp_name(source);
    joined_files_are_found(temp_dir(source), name);
    lemma_joined_components(temp_dir(source), name);
    if same_path(temp_path(source), source) {
        assert(components(source).last() == name);
        assert(file_name(source) == Some(name));
        assert(stem(name) == name.take(last_dot(name)));
        assert(stem(name).len() == name.len() - 4);
    }
}

/// Which file stays after an encode that ended well.
#[derive(Debug, Clone, Copy, PartialEq, Eq, Structural)]
pub enum KeptFile {
    /// The output is smaller: it stays and the source goes.
    Converted,
    /// The source is no larger: it stays and the output goes.
    Original,
    /// There is no usable output: the source stays and nothing goes.
    Neither,
}

/// Which file stays: the smaller one, and the source on a tie.
pub open spec fn smaller_file(original: int, converted: int) -> KeptFile {
    if converted <= 0 {
        KeptFile::Neither
    } else if converted < original {
        KeptFile::Converted
    } else {
        KeptFile::Original
    }
}

/// Whether an encode counts as skipped: the source stays and the output is no smaller.
pub open spec fn counts_as_skipped(original: int, converted: int) -> bool {
    smaller_file(original, converted) != KeptFile::Converted && converted >= original
}

/// What an encode saved: the difference in size, negative if the output is larger.
pub open spec fn saving(original: int, converted: int) -> int {
    if converted > 0 {
        original - converted
    } else {
        0
    }
}

/// Decides which file stays, what was saved, and the status of the job.
pub fn decide_cleanup(original_size: i64, converted_size: i64) -> (r: (KeptFile, i64, &'static str))
    requires
        converted_size > 0 ==> original_size - converted_size >= i64::MIN,
    ensures
        r.0 == smaller_file(original_size as int, converted_size as int),
        r.1 == saving(original_size as int, converted_size as int),
        r.2@ == (if counts_as_skipped(original_size as int, converted_size as int) {
            "skipped"@
        } else {
            "done"@
        }),
{
    let (kept, saved): (KeptFile, i64) = if converted_size > 0 && converted_size < original_size {
        (KeptFile::Converted, original_size - converted_size)
    } else if converted_size > 0 {
        (KeptFile::Original, original_size - converted_size)
    } else {
        (KeptFile::Neither, 0)
    };
    let status: &'static str = if kept != KeptFile::Converted && converted_size >= original_size {
        "skipped"
    } else {
        "done"
    };
    (kept, saved, status)
}

/// What is done with the two files of an in-place encode.
#[derive(Debug, Clone, Copy, PartialEq, Eq, Structural)]
pub enum InPlaceAction {
    /// The output takes the place of the source.
    RenameTempOverSource,
    /// The source goes to the trash, and the output takes its place.
    TrashSourceThenRename,
    /// The output goes, and the source stays.
    RemoveTemp,
}

/// What is done with the two files of an in-place encode. Where both files are to be kept, the
/// source stays.
pub open spec fn in_place_outcome(kept: KeptFile, mode: Seq<char>) -> InPlaceAction {
    if kept != KeptFile::Converted || mode == "keep"@ {
        InPlaceAction::RemoveTemp
    } else if mode == "delete"@ {
        InPlaceAction::RenameTempOverSource
    } else {
        InPlaceAction::TrashSourceThenRename
    }
}

/// What is done with the two files of an in-place encode.
pub fn in_place_action(kept: KeptFile, cleanup_mode: &str) -> (r: InPlaceAction)
    ensures
        r == in_place_outcome(kept, cleanup_mode@),
{
    match kept {
        KeptFile::Converted => {
            if same(cleanup_mode, "keep") {
                InPlaceAction::RemoveTemp
            } else if same(cleanup_mode, "delete") {
                InPlaceAction::RenameTempOverSource
            } else {
                InPlaceAction::TrashSourceThenRename
            }
        },
        KeptFile::Original | KeptFile::Neither => InPlaceAction::RemoveTemp,
    }
}

/// Whether a failure to put the files of an in-place encode in order fails the job: only where the
/// output was to take the source's place.
pub fn in_place_apply_is_fatal(kept: KeptFile, apply_failed: bool) -> (r: bool)
    ensures
        r == (apply_failed && kept == KeptFile::Converted),
{
    apply_failed && kept == KeptFile::Converted
}

/// How many times the size of its source an encode may need on disk.
pub const LOW_DISK_HEADROOM_FACTOR: u64 = 2;

/// `n`, or the largest `u64` if `n` is more than that.
pub open spec fn capped(n: int) -> int {
    if n > u64::MAX {
        u64::MAX as int
    } else {
        n
    }
}

/// What must be free before an encode may start: the floor and the headroom of the encode.
pub fn required_free_bytes(reserve_floor: u64, source_size: u64) -> (r: u64)
    ensures
        r == capped(reserve_floor + 2 * source_size),
{
    let headroom: u64 = match source_size.checked_mul(LOW_DISK_HEADROOM_FACTOR) {
        Some(h) => h,
        None => u64::MAX,
    };
    match reserve_floor.checked_add(headroom) {
        Some(n) => n,
        None => u64::MAX,
    }
}

/// Whether there is room for an encode.
pub fn has_enough_disk(available: u64, reserve_floor: u64, source_size: u64) -> (r: bool)
    ensures
        r == (available >= capped(reserve_floor + 2 * source_size)),
{
    available >= required_free_bytes(reserve_floor, source_size)
}

/// The status shown when a run of the queue ends.
pub fn final_run_status(had_errors: bool) -> (r: &'static str)
    ensures
        r@ == (if had_errors {
            "error"@
        } else {
            "idle"@
        }),
{
    if had_errors {
        "error"
    } else {
        "idle"
    }
}

/// `n / d` rounded to the nearest whole number, a tie to the even one.
pub open spec fn rounded(n: int, d: int) -> int {
    let q = n / d;
    let r = n % d;
    if 2 * r < d || (2 * r == d && q % 2 == 0) {
        q
    } else {
        q + 1
    }
}

/// The distance between neighbouring double-precision numbers at `n`, where that is above 1.
pub open spec fn double_step(n: nat) -> nat
    decreases n,
{
    if n < 0x20_0000_0000_0000 {
        1
    } else {
        2 * double_step(n / 2)
    }
}

/// The whole number that `n` becomes as a double-precision number.
pub open spec fn as_double(n: nat) -> int {
    rounded(n as int, double_step(n) as int) * double_step(n)
}

/// The absolute value of a number of bytes.
pub open spec fn magnitude(bytes: int) -> nat {
    if bytes < 0 {
        (-bytes) as nat
    } else {
        bytes as nat
    }
}

/// A number of bytes in the largest unit that it fills: gigabytes to one decimal, the others to
/// none. A sign is dropped.
pub open spec fn short_bytes(bytes: int) -> Seq<char> {
    let n = magnitude(bytes);
    if n >= 0x4000_0000 {
        let tenths = rounded(as_double(n) * 10, 0x4000_0000) as nat;
        decimal_text(tenths / 10) + "."@ + decimal_text(tenths % 10) + "GB"@
    } else if n >= 0x10_0000 {
        decimal_text(rounded(n as int, 0x10_0000) as nat) + "MB"@
    } else if n >= 0x400 {
        decimal_text(rounded(n as int, 0x400) as nat) + "KB"@
    } else {
        decimal_text(n) + "B"@
    }
}

/// `n / d` rounded to the nearest whole number, a tie to the even one.
fn round_div(n: u128, d: u128) -> (r: u128)
    requires
        0 < d < 0x1_0000_0000_0000_0000,
        n < 0x1_0000_0000_0000_0000_0000,
    ensures
        r == rounded(n as int, d as int),
        r <= n / d + 1,
{
    let q: u128 = n / d;
    let r: u128 = n % d;
    proof {
        vstd::arithmetic::div_mod::lemma_div_is_ordered_by_denominator(n as int, 1, d as int);
        assert(n / d <= n);
    }
    if 2 * r < d || (2 * r == d && q % 2 == 0) {
        q
    } else {
        q + 1
    }
}

/// The distance between neighbouring double-precision numbers at `n`.
fn step_of(n: u64) -> (r: u64)
    ensures
        r == double_step(n as nat),
        1 <= r <= 0x1000,
        n < 0x20_0000_0000_0000 * r,
    decreases n,
{
    if n < 0x20_0000_0000_0000 {
        return 1;
    }
    let mut m: u64 = n;
    let mut step: u64 = 1;
    while m >= 0x20_0000_0000_0000
        invariant
            step * double_step(m as nat) == double_step(n as nat),
            n < (m + 1) * step,
            m * step <= n,
            1 <= step <= 0x1000,
        decreases m,
    {
        let ghost before = m;
        assert(step < 0x800) by (nonlinear_arith)
            requires
                m >= 0x20_0000_0000_0000,
                m * step <= n,
                n <= 0xffff_ffff_ffff_ffff,
                step >= 1,
        ;
        assert(double_step(m as nat) == 2 * double_step(m as nat / 2));
        m = m / 2;
        assert(step * (2 * double_step(m as nat)) == (2 * step) * double_step(m as nat))
            by (nonlinear_arith);
        assert(n < (m + 1) * (2 * step)) by (nonlinear_arith)
            requires
                n < (before + 1) * step,
                m == before / 2,
        ;
        assert(m * (2 * step) <= n) by (nonlinear_arith)
            requires
                before * step <= n,
                m == before / 2,
                step >= 1,
        ;
        step = step * 2;
    }
    let ghost unit = double_step(m as nat);
    assert(step * unit == step) by (nonlinear_arith)
        requires
            unit == 1,
    ;
    assert(n < 0x20_0000_0000_0000 * step) by (nonlinear_arith)
        requires
            n < (m + 1) * step,
            m < 0x20_0000_0000_0000,
    ;
    step
}

/// The whole number that `n` becomes as a double-precision number.
pub(crate) fn to_double(n: u64) -> (r: u128)
    ensures
        r == as_double(n as nat),
        r <= 0x200_0000_0000_0000_0000,
{
    let step: u64 = step_of(n);
    let units: u128 = round_div(n as u128, step as u128);
    assert(n as int / step as int <= 0x20_0000_0000_0000) by (nonlinear_arith)
        requires
            n < 0x20_0000_0000_0000 * step,
            step >= 1,
    ;
    assert(units * step <= 0x20_0000_0000_0001 * 0x1000) by (nonlinear_arith)
        requires
            units <= 0x20_0000_0000_0001,
            step <= 0x1000,
    ;
    units * (step as u128)
}

/// A number of bytes in the largest unit that it fills.
pub fn format_bytes_short(bytes: i64) -> (s: String)
    ensures
        s@ == short_bytes(bytes as int),
{
    let n: u64 = if bytes >= 0 {
        bytes as u64
    } else if bytes == i64::MIN {
        0x8000_0000_0000_0000
    } else {
        (-bytes) as u64
    };
    if n >= 0x4000_0000 {
        let double: u128 = to_double(n);
        let tenths: u128 = round_div(double * 10, 0x4000_0000);
        let whole: String = decimal_of((tenths / 10) as u64);
        let part: String = decimal_of((tenths % 10) as u64);
        whole.concat(".").concat(&part).concat("GB")
    } else if n >= 0x10_0000 {
        let m: u128 = round_div(n as u128, 0x10_0000);
        decimal_of(m as u64).concat("MB")
    } else if n >= 0x400 {
        let k: u128 = round_div(n as u128, 0x400);
        decimal_of(k as u64).concat("KB")
    } else {
        decimal_of(n).concat("B")
    }
}

/// The operating systems that the program tells apart.
#[derive(Debug, Clone, Copy, PartialEq, Eq, Structural)]
pub enum Platform {
    Macos,
    Windows,
    Linux,
}

/// What holds of the flags at every time: the queue does not run while an update is installed.
pub open spec fn exclusive(state: ConverterState) -> bool {
    !(state.is_running && state.installing)
}

/// The flags that the queue, the updater and the user's commands share.
#[derive(Debug, Clone)]
pub struct ConverterState {
    /// The process that encodes.
    pub current_pid: Option<u32>,
    /// The job that is encoded.
    pub current_job_id: Option<String>,
    /// Whether the job is paused.
    pub is_paused: bool,
    /// Whether the queue runs.
    pub is_running: bool,
    /// Whether the queue stops after the job at hand.
    pub pause_after_current: bool,
    /// Whether an update is being installed.
    pub installing: bool,
    /// Whether the program shuts down. Once set it stays so.
    pub shutdown: bool,
}

impl ConverterState {
    /// The flags before anything runs.
    pub fn new() -> (r: Self)
        ensures
            r.current_pid is None,
            r.current_job_id is None,
            !r.is_paused,
            !r.is_running,
            !r.pause_after_current,
            !r.installing,
            !r.shutdown,
            exclusive(r),
    {
        ConverterState {
            current_pid: None,
            current_job_id: None,
            is_paused: false,
            is_running: false,
            pause_after_current: false,
            installing: false,
            shutdown: false,
        }
    }

    /// Whether the program shuts down.
    pub fn is_shutting_down(&self) -> (r: bool)
        ensures
            r == self.shutdown,
    {
        self.shutdown
    }

    /// Whether the encoder can be frozen and resumed where it stopped.
    pub fn can_pause_process(platform: Platform) -> (r: bool)
        ensures
            r == (platform == Platform::Macos),
    {
        platform == Platform::Macos
    }

    /// Whether the queue stops after the job at hand.
    pub fn is_pause_after_current(&self) -> (r: bool)
        ensures
            r == self.pause_after_current,
    {
        self.pause_after_current
    }

    /// Begins the shutdown: no further encoder is to be started. Returns the process to be killed.
    pub fn begin_shutdown(&mut self) -> (r: Option<u32>)
        ensures
            r == old(self).current_pid,
            *final(self) == (ConverterState { shutdown: true, ..*old(self) }),
            exclusive(*old(self)) ==> exclusive(*final(self)),
    {
        self.shutdown = true;
        self.current_pid
    }

    /// Frees the queue when its run ends, however it ended.
    pub fn end_run(&mut self)
        ensures
            *final(self) == (ConverterState { is_running: false, ..*old(self) }),
            exclusive(*old(self)) ==> exclusive(*final(self)),
    {
        self.is_running = false;
    }

    /// Claims the right to install. Refused while the queue runs.
    pub fn claim_install(&mut self) -> (r: bool)
        ensures
            r == !old(self).is_running,
            r ==> *final(self) == (ConverterState { installing: true, ..*old(self) }),
            !r ==> *final(self) == *old(self),
            exclusive(*old(self)) ==> exclusive(*final(self)),
    {
        if self.is_running {
            return false;
        }
        self.installing = true;
        true
    }

    /// Ends an install, however it ended.
    pub fn end_install(&mut self)
        ensures
            *final(self) == (ConverterState { installing: false, ..*old(self) }),
            exclusive(*old(self)) ==> exclusive(*final(self)),
    {
        self.installing = false;
    }
}

/// Consumes the flag that stops the queue after the job at hand.
pub fn take_pause_after_current(state: &mut ConverterState) -> (r: bool)
    ensures
        r == old(state).pause_after_current,
        *final(state) == (ConverterState { pause_after_current: false, ..*old(state) }),
        exclusive(*old(state)) ==> exclusive(*final(state)),
{
    let armed: bool = state.pause_after_current;
    state.pause_after_current = false;
    armed
}

/// Whether the queue may start: it does not run, and no update is being installed.
pub open spec fn queue_is_free(state: ConverterState) -> bool {
    !state.is_running && !state.installing
}

/// Claims the right to run the queue.
pub fn claim_queue_slot(state: &mut ConverterState) -> (r: bool)
    ensures
        r == queue_is_free(*old(state)),
        r ==> *final(state) == (ConverterState { is_running: true, ..*old(state) }),
        !r ==> *final(state) == *old(state),
        exclusive(*old(state)) ==> exclusive(*final(state)),
{
    if state.is_running || state.installing {
        return false;
    }
    state.is_running = true;
    true
}

/// The smaller of two files stays, the source on a tie; without an output nothing goes.
pub proof fn the_smaller_file_stays(original: int, converted: int)
    ensures
        smaller_file(original, converted) == KeptFile::Converted <==> 0 < converted < original,
        smaller_file(original, converted) == KeptFile::Original <==> 0 < converted && original
            <= converted,
        counts_as_skipped(original, converted) <==> original <= converted,
        converted > 0 ==> saving(original, converted) == original - converted,
        0 < converted < original ==> saving(original, converted) > 0,
{
}

/// Only an output that is to stay takes the place of its source, and the source goes to the trash
/// first unless files are to be deleted. Where both files are to be kept, the source stays.
pub proof fn sources_are_replaced_as_the_mode_says(kept: KeptFile, mode: Seq<char>)
    ensures
        in_place_outcome(kept, "delete"@) == InPlaceAction::RenameTempOverSource <==> kept
            == KeptFile::Converted,
        in_place_outcome(kept, "trash"@) == InPlaceAction::TrashSourceThenRename <==> kept
            == KeptFile::Converted,
        in_place_outcome(kept, "keep"@) == InPlaceAction::RemoveTemp,
        kept != KeptFile::Converted ==> in_place_outcome(kept, mode) == InPlaceAction::RemoveTemp,
        in_place_outcome(kept, mode) == InPlaceAction::RenameTempOverSource ==> mode == "delete"@,
{
    reveal_strlit("trash");
    reveal_strlit("delete");
    reveal_strlit("keep");
    assert("trash"@.len() == 5 && "delete"@.len() == 6 && "keep"@.len() == 4);
}

/// Rounding goes to the nearest whole number, and on a tie to the even one.
pub proof fn rounding_goes_to_the_nearest(n: int, d: int)
    requires
        n >= 0,
        d > 0,
    ensures
        -d <= 2 * (rounded(n, d) * d - n) <= d,
        2 * (rounded(n, d) * d - n) == d || 2 * (rounded(n, d) * d - n) == -d ==> rounded(n, d) % 2
            == 0,
{
    let q = n / d;
    let r = n % d;
    vstd::arithmetic::div_mod::lemma_fundamental_div_mod(n, d);
    vstd::arithmetic::div_mod::lemma_mod_bound(n, d);
    assert(d * q == q * d) by (nonlinear_arith);
    assert((q + 1) * d == q * d + d) by (nonlinear_arith);
    if 2 * r == d && q % 2 != 0 {
        assert((q + 1) % 2 == 0);
    }
}

/// A number that a double-precision number holds exactly is not changed by becoming one.
pub proof fn small_numbers_stay_exact(n: nat)
    requires
        n < 0x20_0000_0000_0000,
    ensures
        as_double(n) == n,
{
    assert(double_step(n) == 1);
    assert(n as int / 1 == n);
    assert(rounded(n as int, 1) == n);
}

/// Bytes are shown in the largest unit that they fill, rounded: no unit that is not filled, and
/// gigabytes to one decimal. A sign does not show.
pub proof fn bytes_are_shown_in_the_unit_they_fill(n: nat)
    ensures
        n < 1024 ==> short_bytes(n as int) == decimal_text(n) + "B"@,
        1024 <= n < 1024 * 1024 ==> short_bytes(n as int) == decimal_text(
            rounded(n as int, 1024) as nat,
        ) + "KB"@,
        1024 * 1024 <= n < 1024 * 1024 * 1024 ==> short_bytes(n as int) == decimal_text(
            rounded(n as int, 0x10_0000) as nat,
        ) + "MB"@,
        1024 * 1024 * 1024 <= n < 0x20_0000_0000_0000 ==> {
            let tenths = rounded((n * 10) as int, 0x4000_0000) as nat;
            short_bytes(n as int) == decimal_text(tenths / 10) + "."@ + decimal_text(tenths % 10)
                + "GB"@
        },
        short_bytes(-n) == short_bytes(n as int),
{
    if n < 0x20_0000_0000_0000 {
        small_numbers_stay_exact(n);
    }
}

/// What must be free is the floor and twice the source, as far as a machine holds that.
pub proof fn room_is_capped_by_the_machine(n: int)
    ensures
        n <= u64::MAX ==> capped(n) == n,
        n > u64::MAX ==> capped(n) == u64::MAX,
{
}


/// An in-place encode of a file writes beside it, under a hidden name made of the file's own.
pub proof fn in_place_encodes_write_beside_the_source(dir: Seq<char>, name: Seq<char>)
    requires
        plain(name),
    ensures
        file_name(temp_path(joined_path(dir, name))) == Some(
            "."@ + stem(name) + ".convertbar-tmp."@ + "mp4"@,
        ),
        parent(temp_path(joined_path(dir, name))) matches Some(d) && same_path(d, dir),
{
    joined_files_are_found(dir, name);
    let source = joined_path(dir, name);
    let new = "."@ + stem(name) + ".convertbar-tmp."@ + "mp4"@;
    reveal_strlit(".");
    reveal_strlit(".convertbar-tmp.");
    reveal_strlit("mp4");
    lemma_last_dot(name);
    assert(!new.contains('/')) by {
        if new.contains('/') {
            let i = choose|i: int| 0 <= i < new.len() && new[i] == '/';
            if 1 <= i < 1 + stem(name).len() {
                assert(new[i] == name[i - 1]);
                assert(name.contains(name[i - 1]));
            }
        }
    }
    assert(new.len() > 2);
    joined_files_are_found(parent(source)->0, new);
}


} // verus!
