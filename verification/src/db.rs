//! What the database holds from the start, and how rows of earlier versions are put right.

use crate::converter::Platform;
use crate::paths::opt_view;
use crate::text::same;
use vstd::prelude::*;
use vstd::string::*;

verus! {

/// The preset that a system starts with.
pub open spec fn first_preset(platform: Platform) -> Seq<char> {
    match platform {
        Platform::Macos => "H.265 Apple VideoToolbox 1080p"@,
        Platform::Windows => "H.265 NVENC 1080p"@,
        Platform::Linux => "H.265 MKV 1080p30"@,
    }
}

/// The preset that a system starts with.
pub fn default_preset(platform: Platform) -> (r: &'static str)
    ensures
        r@ == first_preset(platform),
{
    match platform {
        Platform::Macos => "H.265 Apple VideoToolbox 1080p",
        Platform::Windows => "H.265 NVENC 1080p",
        Platform::Linux => "H.265 MKV 1080p30",
    }
}

/// The suffix that a preset starts with.
pub const DEFAULT_SUFFIX: &'static str = ".{resolution}-{codec}";

/// The settings that the program starts with.
pub open spec fn first_settings(platform: Platform) -> Seq<(Seq<char>, Seq<char>)> {
    seq![
        ("preset"@, first_preset(platform)),
        ("cleanup_mode"@, "trash"@),
        ("launch_at_login"@, "false"@),
        ("handbrake_path"@, ""@),
        ("menubar_show_percent"@, "true"@),
        ("menubar_show_eta"@, "true"@),
        ("menubar_show_queue"@, "false"@),
        ("menubar_show_filename"@, "false"@),
        ("menubar_show_fps"@, "false"@),
        ("notifications_per_file"@, "true"@),
        ("notifications_errors_only"@, "false"@),
        ("notifications_queue_done"@, "true"@),
        ("skip_already_converted"@, "false"@),
        ("skip_by_source_media"@, "false"@),
        ("watch_skip_marker"@, ".downloading"@),
    ]
}

/// One setting.
fn pair(key: &str, value: &str) -> (r: (String, String))
    ensures
        r.0@ == key@,
        r.1@ == value@,
{
    (key.to_owned(), value.to_owned())
}

/// The settings that the program starts with.
pub fn default_settings(platform: Platform) -> (r: Vec<(String, String)>)
    ensures
        r.deep_view() == first_settings(platform),
{
    let r: Vec<(String, String)> = vec![
        pair("preset", default_preset(platform)),
        pair("cleanup_mode", "trash"),
        pair("launch_at_login", "false"),
        pair("handbrake_path", ""),
        pair("menubar_show_percent", "true"),
        pair("menubar_show_eta", "true"),
        pair("menubar_show_queue", "false"),
        pair("menubar_show_filename", "false"),
        pair("menubar_show_fps", "false"),
        pair("notifications_per_file", "true"),
        pair("notifications_errors_only", "false"),
        pair("notifications_queue_done", "true"),
        pair("skip_already_converted", "false"),
        pair("skip_by_source_media", "false"),
        pair("watch_skip_marker", ".downloading"),
    ];
    assert(r.deep_view() =~= first_settings(platform));
    r
}

/// Whether rows have a key.
pub open spec fn has_key(rows: Seq<(Seq<char>, Seq<char>)>, key: Seq<char>) -> bool {
    exists|i: int| 0 <= i < rows.len() && (#[trigger] rows[i]).0 == key
}

/// Rows with one more, unless they have its key.
pub open spec fn with_default(
    rows: Seq<(Seq<char>, Seq<char>)>,
    row: (Seq<char>, Seq<char>),
) -> Seq<(Seq<char>, Seq<char>)> {
    if has_key(rows, row.0) {
        rows
    } else {
        rows.push(row)
    }
}

/// Rows with the first `n` of others, each unless its key is there.
pub open spec fn with_defaults(
    rows: Seq<(Seq<char>, Seq<char>)>,
    defaults: Seq<(Seq<char>, Seq<char>)>,
    n: int,
) -> Seq<(Seq<char>, Seq<char>)>
    decreases n,
{
    if n <= 0 {
        rows
    } else {
        with_default(with_defaults(rows, defaults, n - 1), defaults[n - 1])
    }
}

/// A setting put right: a preset that was stored under a name that the encoder does not know.
pub open spec fn mended(row: (Seq<char>, Seq<char>)) -> (Seq<char>, Seq<char>) {
    if row.0 == "preset"@ && row.1 == "H.265 MKV 1080p"@ {
        (row.0, "H.265 MKV 1080p30"@)
    } else {
        row
    }
}

/// The settings that the database holds once it was opened: those that it held, put right, and
/// those that it lacked.
pub open spec fn opened_settings(rows: Seq<(Seq<char>, Seq<char>)>, platform: Platform) -> Seq<
    (Seq<char>, Seq<char>),
> {
    with_defaults(
        rows.map_values(|row: (Seq<char>, Seq<char>)| mended(row)),
        first_settings(platform),
        15,
    )
}

/// Whether rows have a key.
pub fn knows_key(rows: &Vec<(String, String)>, key: &str) -> (r: bool)
    ensures
        r == has_key(rows.deep_view(), key@),
{
    let ghost rv = rows.deep_view();
    let mut i: usize = 0;
    while i < rows.len()
        invariant
            i <= rows.len(),
            rv == rows.deep_view(),
            forall|j: int| 0 <= j < i ==> (#[trigger] rv[j]).0 != key@,
        decreases rows.len() - i,
    {
        assert(rv[i as int].0 == rows@[i as int].0@);
        if same(&rows[i].0, key) {
            return true;
        }
        i = i + 1;
    }
    false
}

/// The value of the first row from `from` on that has a key.
pub open spec fn value_from(rows: Seq<(Seq<char>, Seq<char>)>, key: Seq<char>, from: int) -> Option<
    Seq<char>,
>
    decreases rows.len() - from,
{
    if from < 0 || from >= rows.len() {
        None
    } else if rows[from].0 == key {
        Some(rows[from].1)
    } else {
        value_from(rows, key, from + 1)
    }
}

/// The value that rows have for a key.
pub open spec fn value_of(rows: Seq<(Seq<char>, Seq<char>)>, key: Seq<char>) -> Option<Seq<char>> {
    value_from(rows, key, 0)
}

/// The value that rows have for a key.
pub fn read_setting(rows: &Vec<(String, String)>, key: &str) -> (r: Option<String>)
    ensures
        opt_view(r) == value_of(rows.deep_view(), key@),
{
    let ghost rv = rows.deep_view();
    let mut i: usize = 0;
    while i < rows.len()
        invariant
            i <= rows.len() == rv.len(),
            rv == rows.deep_view(),
            value_of(rv, key@) == value_from(rv, key@, i as int),
        decreases rows.len() - i,
    {
        assert(rv[i as int] == (rows@[i as int].0@, rows@[i as int].1@));
        if same(&rows[i].0, key) {
            return Some(rows[i].1.clone());
        }
        i = i + 1;
    }
    None
}

/// Whether a setting is on, if it is there.
pub open spec fn switch_of(rows: Seq<(Seq<char>, Seq<char>)>, key: Seq<char>) -> Option<bool> {
    match value_of(rows, key) {
        Some(v) => Some(v == "true"@),
        None => None,
    }
}

/// Whether a setting is on, if it is there.
pub fn read_switch(rows: &Vec<(String, String)>, key: &str) -> (r: Option<bool>)
    ensures
        r == switch_of(rows.deep_view(), key@),
{
    match read_setting(rows, key) {
        Some(v) => Some(same(&v, "true")),
        None => None,
    }
}

/// A row, with another value if it has the key.
pub open spec fn rewritten(
    row: (Seq<char>, Seq<char>),
    key: Seq<char>,
    value: Seq<char>,
) -> (Seq<char>, Seq<char>) {
    if row.0 == key {
        (key, value)
    } else {
        row
    }
}

/// Rows that have a value for a key, and are otherwise as before.
pub open spec fn with_setting(
    rows: Seq<(Seq<char>, Seq<char>)>,
    key: Seq<char>,
    value: Seq<char>,
) -> Seq<(Seq<char>, Seq<char>)> {
    if has_key(rows, key) {
        rows.map_values(|row: (Seq<char>, Seq<char>)| rewritten(row, key, value))
    } else {
        rows.push((key, value))
    }
}

/// Gives rows a value for a key.
pub fn write_setting(rows: &mut Vec<(String, String)>, key: &str, value: &str)
    ensures
        final(rows).deep_view() == with_setting(old(rows).deep_view(), key@, value@),
{
    let ghost before = rows.deep_view();
    if !knows_key(rows, key) {
        rows.push(pair(key, value));
        assert(rows.deep_view() =~= before.push((key@, value@)));
        return;
    }
    let ghost rewrite = |row: (Seq<char>, Seq<char>)| rewritten(row, key@, value@);
    let mut out: Vec<(String, String)> = Vec::new();
    let mut i: usize = 0;
    while i < rows.len()
        invariant
            i <= rows.len() == before.len(),
            before == rows.deep_view(),
            out.len() == i,
            forall|j: int|
                0 <= j < i ==> ((#[trigger] out@[j]).0@, out@[j].1@) == rewritten(
                    before[j],
                    key@,
                    value@,
                ),
        decreases rows.len() - i,
    {
        assert(before[i as int] == (rows@[i as int].0@, rows@[i as int].1@));
        if same(&rows[i].0, key) {
            out.push(pair(key, value));
        } else {
            out.push((rows[i].0.clone(), rows[i].1.clone()));
        }
        i = i + 1;
    }
    assert(out.deep_view() =~= before.map_values(rewrite));
    *rows = out;
}

/// The value of rows that are mapped one by one, from `from` on.
proof fn lemma_value_of_rewritten(
    rows: Seq<(Seq<char>, Seq<char>)>,
    key: Seq<char>,
    value: Seq<char>,
    other: Seq<char>,
    from: int,
)
    requires
        0 <= from <= rows.len(),
    ensures
        ({
            let new = rows.map_values(|row: (Seq<char>, Seq<char>)| rewritten(row, key, value));
            &&& other != key ==> value_from(new, other, from) == value_from(rows, other, from)
            &&& (exists|i: int| from <= i < rows.len() && (#[trigger] rows[i]).0 == key)
                ==> value_from(new, key, from) == Some(value)
        }),
    decreases rows.len() - from,
{
    if from < rows.len() {
        lemma_value_of_rewritten(rows, key, value, other, from + 1);
    }
}

/// The value of rows with one more, from `from` on.
proof fn lemma_value_of_pushed(
    rows: Seq<(Seq<char>, Seq<char>)>,
    row: (Seq<char>, Seq<char>),
    key: Seq<char>,
    from: int,
)
    requires
        0 <= from <= rows.len(),
    ensures
        key != row.0 ==> value_from(rows.push(row), key, from) == value_from(rows, key, from),
        !(exists|i: int| from <= i < rows.len() && (#[trigger] rows[i]).0 == row.0) ==> value_from(
            rows.push(row),
            row.0,
            from,
        ) == Some(row.1),
    decreases rows.len() - from,
{
    let new = rows.push(row);
    if from < rows.len() {
        lemma_value_of_pushed(rows, row, key, from + 1);
        assert(new[from] == rows[from]);
    } else {
        assert(new[from] == row);
        assert(value_from(new, key, from + 1) is None);
    }
}

/// A setting that was written is read back, and every other setting is what it was.
pub proof fn written_settings_are_read_back(
    rows: Seq<(Seq<char>, Seq<char>)>,
    key: Seq<char>,
    value: Seq<char>,
    other: Seq<char>,
)
    ensures
        value_of(with_setting(rows, key, value), key) == Some(value),
        other != key ==> value_of(with_setting(rows, key, value), other) == value_of(rows, other),
{
    if has_key(rows, key) {
        lemma_value_of_rewritten(rows, key, value, other, 0);
    } else {
        lemma_value_of_pushed(rows, (key, value), other, 0);
    }
}

/// Adds rows, each unless its key is there.
fn add_defaults(rows: &mut Vec<(String, String)>, defaults: &Vec<(String, String)>)
    ensures
        final(rows).deep_view() == with_defaults(
            old(rows).deep_view(),
            defaults.deep_view(),
            defaults.deep_view().len() as int,
        ),
{
    let ghost before = rows.deep_view();
    let ghost dv = defaults.deep_view();
    let mut n: usize = 0;
    while n < defaults.len()
        invariant
            n <= defaults.len() == dv.len(),
            dv == defaults.deep_view(),
            rows.deep_view() == with_defaults(before, dv, n as int),
        decreases defaults.len() - n,
    {
        assert(dv[n as int] == (defaults@[n as int].0@, defaults@[n as int].1@));
        if !knows_key(rows, &defaults[n].0) {
            let ghost shorter = rows.deep_view();
            rows.push((defaults[n].0.clone(), defaults[n].1.clone()));
            assert(rows.deep_view() =~= shorter.push(dv[n as int]));
        }
        n = n + 1;
    }
}

/// The settings that the database holds once it was opened.
pub fn init_settings(rows: &Vec<(String, String)>, platform: Platform) -> (r: Vec<(String, String)>)
    ensures
        r.deep_view() == opened_settings(rows.deep_view(), platform),
{
    let ghost rv = rows.deep_view();
    let ghost mend = |row: (Seq<char>, Seq<char>)| mended(row);
    let mut out: Vec<(String, String)> = Vec::new();
    let mut i: usize = 0;
    while i < rows.len()
        invariant
            i <= rows.len() == rv.len(),
            rv == rows.deep_view(),
            out.len() == i,
            forall|j: int|
                0 <= j < i ==> ((#[trigger] out@[j]).0@, out@[j].1@) == mended(rv[j]),
        decreases rows.len() - i,
    {
        assert(rv[i as int] == (rows@[i as int].0@, rows@[i as int].1@));
        if same(&rows[i].0, "preset") && same(&rows[i].1, "H.265 MKV 1080p") {
            out.push((rows[i].0.clone(), "H.265 MKV 1080p30".to_owned()));
        } else {
            out.push((rows[i].0.clone(), rows[i].1.clone()));
        }
        i = i + 1;
    }
    assert(out.deep_view() =~= rv.map_values(mend));
    let defaults: Vec<(String, String)> = default_settings(platform);
    add_defaults(&mut out, &defaults);
    out
}

/// A suffix row put right, unless the right name is taken.
pub open spec fn mended_suffix(
    rows: Seq<(Seq<char>, Seq<char>)>,
    row: (Seq<char>, Seq<char>),
) -> (Seq<char>, Seq<char>) {
    if row.0 == "H.265 MKV 1080p"@ && !has_key(rows, "H.265 MKV 1080p30"@) {
        ("H.265 MKV 1080p30"@, row.1)
    } else {
        row
    }
}

/// The suffixes of presets that the database holds once it was opened.
pub open spec fn opened_suffixes(rows: Seq<(Seq<char>, Seq<char>)>, platform: Platform) -> Seq<
    (Seq<char>, Seq<char>),
> {
    with_default(
        rows.map_values(|row: (Seq<char>, Seq<char>)| mended_suffix(rows, row)),
        (first_preset(platform), DEFAULT_SUFFIX@),
    )
}

/// The suffixes of presets that the database holds once it was opened.
pub fn init_suffixes(rows: &Vec<(String, String)>, platform: Platform) -> (r: Vec<(String, String)>)
    ensures
        r.deep_view() == opened_suffixes(rows.deep_view(), platform),
{
    let ghost rv = rows.deep_view();
    let ghost mend = |row: (Seq<char>, Seq<char>)| mended_suffix(rv, row);
    let taken: bool = knows_key(rows, "H.265 MKV 1080p30");
    let mut out: Vec<(String, String)> = Vec::new();
    let mut i: usize = 0;
    while i < rows.len()
        invariant
            i <= rows.len() == rv.len(),
            rv == rows.deep_view(),
            taken == has_key(rv, "H.265 MKV 1080p30"@),
            out.len() == i,
            forall|j: int|
                0 <= j < i ==> ((#[trigger] out@[j]).0@, out@[j].1@) == mended_suffix(rv, rv[j]),
        decreases rows.len() - i,
    {
        assert(rv[i as int] == (rows@[i as int].0@, rows@[i as int].1@));
        if !taken && same(&rows[i].0, "H.265 MKV 1080p") {
            out.push(("H.265 MKV 1080p30".to_owned(), rows[i].1.clone()));
        } else {
            out.push((rows[i].0.clone(), rows[i].1.clone()));
        }
        i = i + 1;
    }
    assert(out.deep_view() =~= rv.map_values(mend));
    if !knows_key(&out, default_preset(platform)) {
        let ghost shorter = out.deep_view();
        out.push(pair(default_preset(platform), DEFAULT_SUFFIX));
        assert(out.deep_view() =~= shorter.push((first_preset(platform), DEFAULT_SUFFIX@)));
    }
    out
}

/// When a job ended, as the database holds it once it was opened: a failed job that does not tell
/// ended when it was added.
pub fn completed_at(status: &str, completed: Option<String>, created: &String) -> (r: Option<String>)
    ensures
        r == (if status@ == "error"@ && completed is None {
            Some(*created)
        } else {
            completed
        }),
{
    match completed {
        Some(t) => Some(t),
        None => if same(status, "error") {
            Some(created.clone())
        } else {
            None
        },
    }
}

/// The settings of a program that was never started before, with those that apply to it alone.
pub open spec fn seeded(rows: Seq<(Seq<char>, Seq<char>)>, fresh: bool) -> Seq<
    (Seq<char>, Seq<char>),
> {
    if fresh {
        with_default(rows, ("encode_priority"@, "low"@))
    } else {
        rows
    }
}

/// Adds what applies to a program that was never started before, and to no other.
pub fn seed_fresh_install_defaults(rows: &mut Vec<(String, String)>, fresh: bool)
    ensures
        final(rows).deep_view() == seeded(old(rows).deep_view(), fresh),
{
    if fresh && !knows_key(rows, "encode_priority") {
        let ghost shorter = rows.deep_view();
        rows.push(pair("encode_priority", "low"));
        assert(rows.deep_view() =~= shorter.push(("encode_priority"@, "low"@)));
    }
}

/// Rows that have a key keep it and its value when others are added.
proof fn lemma_rows_stay(
    rows: Seq<(Seq<char>, Seq<char>)>,
    defaults: Seq<(Seq<char>, Seq<char>)>,
    n: int,
)
    requires
        0 <= n <= defaults.len(),
    ensures
        rows.len() <= with_defaults(rows, defaults, n).len(),
        forall|i: int| 0 <= i < rows.len() ==> with_defaults(rows, defaults, n)[i] == #[trigger] rows[i],
        forall|k: int| 0 <= k < n ==> has_key(with_defaults(rows, defaults, n), (#[trigger] defaults[k]).0),
    decreases n,
{
    if n > 0 {
        lemma_rows_stay(rows, defaults, n - 1);
        let before = with_defaults(rows, defaults, n - 1);
        let after = with_defaults(rows, defaults, n);
        assert forall|k: int| 0 <= k < n implies has_key(after, (#[trigger] defaults[k]).0) by {
            if k < n - 1 {
                assert(has_key(before, defaults[k].0));
                let i = choose|i: int| 0 <= i < before.len() && (#[trigger] before[i]).0 == defaults[k].0;
                assert(after[i].0 == defaults[k].0);
            } else if !has_key(before, defaults[k].0) {
                assert(after[before.len() as int].0 == defaults[k].0);
            }
        }
    }
}

/// Where all keys are there, nothing is added.
proof fn lemma_nothing_added(
    rows: Seq<(Seq<char>, Seq<char>)>,
    defaults: Seq<(Seq<char>, Seq<char>)>,
    n: int,
)
    requires
        0 <= n <= defaults.len(),
        forall|k: int| 0 <= k < n ==> has_key(rows, (#[trigger] defaults[k]).0),
    ensures
        with_defaults(rows, defaults, n) == rows,
    decreases n,
{
    if n > 0 {
        lemma_nothing_added(rows, defaults, n - 1);
        assert(has_key(rows, defaults[n - 1].0));
    }
}

/// Every setting is there once the database was opened, and what the user chose stays, but for a
/// preset that the encoder does not know.
pub proof fn opening_keeps_what_the_user_chose(
    rows: Seq<(Seq<char>, Seq<char>)>,
    platform: Platform,
)
    ensures
        forall|i: int|
            0 <= i < rows.len() ==> opened_settings(rows, platform)[i] == mended(#[trigger] rows[i]),
        forall|k: int|
            0 <= k < 15 ==> has_key(
                opened_settings(rows, platform),
                (#[trigger] first_settings(platform)[k]).0,
            ),
{
    let mend = |row: (Seq<char>, Seq<char>)| mended(row);
    lemma_rows_stay(rows.map_values(mend), first_settings(platform), 15);
    assert forall|i: int| 0 <= i < rows.len() implies opened_settings(rows, platform)[i] == mended(
        #[trigger] rows[i],
    ) by {
        assert(rows.map_values(mend)[i] == mended(rows[i]));
    }
}

/// No preset of a starting system is one that the encoder does not know.
proof fn lemma_first_preset(platform: Platform)
    ensures
        first_preset(platform) != "H.265 MKV 1080p"@,
{
    reveal_strlit("H.265 Apple VideoToolbox 1080p");
    reveal_strlit("H.265 NVENC 1080p");
    reveal_strlit("H.265 MKV 1080p30");
    reveal_strlit("H.265 MKV 1080p");
    assert("H.265 MKV 1080p"@.len() == 15);
}

/// Rows that are added are right.
proof fn lemma_all_mended(
    rows: Seq<(Seq<char>, Seq<char>)>,
    platform: Platform,
    n: int,
)
    requires
        0 <= n <= 15,
        forall|i: int| 0 <= i < rows.len() ==> mended(#[trigger] rows[i]) == rows[i],
    ensures
        forall|i: int|
            0 <= i < with_defaults(rows, first_settings(platform), n).len() ==> mended(
                #[trigger] with_defaults(rows, first_settings(platform), n)[i],
            ) == with_defaults(rows, first_settings(platform), n)[i],
    decreases n,
{
    if n > 0 {
        lemma_all_mended(rows, platform, n - 1);
        lemma_first_preset(platform);
        let before = with_defaults(rows, first_settings(platform), n - 1);
        let after = with_defaults(rows, first_settings(platform), n);
        let added = first_settings(platform)[n - 1];
        assert(mended(added) == added) by {
            if added.0 == "preset"@ {
                lemma_only_one_preset(platform, n - 1);
            }
        }
        assert forall|i: int| 0 <= i < after.len() implies mended(#[trigger] after[i]) == after[i] by {
            if i < before.len() {
                assert(after[i] == before[i]);
            }
        }
    }
}

/// The preset is the first of the settings, and no other is called so.
proof fn lemma_only_one_preset(platform: Platform, k: int)
    requires
        0 <= k < 15,
        first_settings(platform)[k].0 == "preset"@,
    ensures
        first_settings(platform)[k].1 == first_preset(platform),
{
    reveal_strlit("preset");
    reveal_strlit("cleanup_mode");
    reveal_strlit("launch_at_login");
    reveal_strlit("handbrake_path");
    reveal_strlit("menubar_show_percent");
    reveal_strlit("menubar_show_eta");
    reveal_strlit("menubar_show_queue");
    reveal_strlit("menubar_show_filename");
    reveal_strlit("menubar_show_fps");
    reveal_strlit("notifications_per_file");
    reveal_strlit("notifications_errors_only");
    reveal_strlit("notifications_queue_done");
    reveal_strlit("skip_already_converted");
    reveal_strlit("skip_by_source_media");
    reveal_strlit("watch_skip_marker");
    assert(first_settings(platform)[k].0.len() == 6);
}

/// Opening the database again changes no setting.
pub proof fn opening_again_changes_nothing(
    rows: Seq<(Seq<char>, Seq<char>)>,
    platform: Platform,
)
    ensures
        opened_settings(opened_settings(rows, platform), platform) == opened_settings(rows, platform),
{
    let mend = |row: (Seq<char>, Seq<char>)| mended(row);
    let once = opened_settings(rows, platform);
    let fixed = rows.map_values(mend);
    reveal_strlit("H.265 MKV 1080p");
    reveal_strlit("H.265 MKV 1080p30");
    assert("H.265 MKV 1080p"@.len() != "H.265 MKV 1080p30"@.len());
    assert forall|i: int| 0 <= i < fixed.len() implies mended(#[trigger] fixed[i]) == fixed[i] by {
        assert(fixed[i] == mended(rows[i]));
    }
    lemma_all_mended(fixed, platform, 15);
    assert(once.map_values(mend) =~= once);
    lemma_rows_stay(fixed, first_settings(platform), 15);
    lemma_nothing_added(once, first_settings(platform), 15);
}

/// No two settings that the program starts with have the same key.
proof fn lemma_keys_differ(platform: Platform, j: int, k: int)
    requires
        0 <= j < k < 15,
    ensures
        first_settings(platform)[j].0 != first_settings(platform)[k].0,
{
    reveal_strlit("preset");
    reveal_strlit("cleanup_mode");
    reveal_strlit("launch_at_login");
    reveal_strlit("handbrake_path");
    reveal_strlit("menubar_show_percent");
    reveal_strlit("menubar_show_eta");
    reveal_strlit("menubar_show_queue");
    reveal_strlit("menubar_show_filename");
    reveal_strlit("menubar_show_fps");
    reveal_strlit("notifications_per_file");
    reveal_strlit("notifications_errors_only");
    reveal_strlit("notifications_queue_done");
    reveal_strlit("skip_already_converted");
    reveal_strlit("skip_by_source_media");
    reveal_strlit("watch_skip_marker");
    assert("preset"@.len() == 6);
    assert("cleanup_mode"@.len() == 12);
    assert("launch_at_login"@.len() == 15);
    assert("handbrake_path"@.len() == 14);
    assert("menubar_show_percent"@.len() == 20);
    assert("menubar_show_eta"@.len() == 16);
    assert("menubar_show_queue"@.len() == 18);
    assert("menubar_show_filename"@.len() == 21);
    assert("menubar_show_fps"@.len() == 16);
    assert("notifications_per_file"@.len() == 22);
    assert("notifications_errors_only"@.len() == 25);
    assert("notifications_queue_done"@.len() == 24);
    assert("skip_already_converted"@.len() == 22);
    assert("skip_by_source_media"@.len() == 20);
    assert("watch_skip_marker"@.len() == 17);
    assert("menubar_show_percent"@[0] != "skip_by_source_media"@[0]);
    assert("menubar_show_eta"@[13] != "menubar_show_fps"@[13]);
    assert("notifications_per_file"@[0] != "skip_already_converted"@[0]);
}

/// A setting that the database lacks gets the value that the program starts with.
pub proof fn missing_settings_get_their_default(
    rows: Seq<(Seq<char>, Seq<char>)>,
    platform: Platform,
    k: int,
)
    requires
        0 <= k < 15,
        !has_key(rows, first_settings(platform)[k].0),
    ensures
        value_of(opened_settings(rows, platform), first_settings(platform)[k].0) == Some(
            first_settings(platform)[k].1,
        ),
{
    let mend = |row: (Seq<char>, Seq<char>)| mended(row);
    let new = rows.map_values(mend);
    let all = first_settings(platform);
    assert(!has_key(new, all[k].0)) by {
        if has_key(new, all[k].0) {
            let i = choose|i: int| 0 <= i < new.len() && (#[trigger] new[i]).0 == all[k].0;
            assert(new[i] == mended(rows[i]));
            assert(rows[i].0 == all[k].0);
        }
    }
    lemma_default_added(new, platform, 15, k);
}

/// Each default whose key was not there is among the rows.
proof fn lemma_default_added(
    rows: Seq<(Seq<char>, Seq<char>)>,
    platform: Platform,
    n: int,
    k: int,
)
    requires
        0 <= k < 15,
        0 <= n <= 15,
        !has_key(rows, first_settings(platform)[k].0),
    ensures
        ({
            let all = first_settings(platform);
            let after = with_defaults(rows, all, n);
            &&& n <= k ==> !has_key(after, all[k].0)
            &&& n > k ==> has_key(after, all[k].0) && value_of(after, all[k].0) == Some(all[k].1)
        }),
    decreases n,
{
    let all = first_settings(platform);
    if n > 0 {
        lemma_default_added(rows, platform, n - 1, k);
        let before = with_defaults(rows, all, n - 1);
        let after = with_defaults(rows, all, n);
        let row = all[n - 1];
        if n - 1 < k {
            lemma_keys_differ(platform, n - 1, k);
        }
        if k < n - 1 {
            lemma_keys_differ(platform, k, n - 1);
        }
        if !has_key(before, row.0) {
            assert(after == before.push(row));
            lemma_value_of_pushed(before, row, all[k].0, 0);
            assert(after[before.len() as int] == row);
            if has_key(after, all[k].0) && n - 1 != k {
                let i = choose|i: int| 0 <= i < after.len() && (#[trigger] after[i]).0 == all[k].0;
                assert(before[i] == after[i]);
            }
            if has_key(before, all[k].0) {
                let i = choose|i: int|
                    0 <= i < before.len() && (#[trigger] before[i]).0 == all[k].0;
                assert(after[i] == before[i]);
            }
        }
    }
}

/// Opening changes no setting but a preset under a name that the encoder does not know, which becomes
/// one that it knows.
pub proof fn only_one_preset_is_mended(key: Seq<char>, value: Seq<char>)
    ensures
        key != "preset"@ || value != "H.265 MKV 1080p"@ ==> mended((key, value)) == (key, value),
        mended(("preset"@, "H.265 MKV 1080p"@)) == ("preset"@, "H.265 MKV 1080p30"@),
{
}

/// Opening keeps every suffix that was chosen; only the name of the preset that the encoder does not
/// know becomes the right one, unless that has a suffix of its own. The preset that a system starts
/// with has a suffix.
pub proof fn opening_keeps_suffixes(
    rows: Seq<(Seq<char>, Seq<char>)>,
    platform: Platform,
    i: int,
)
    ensures
        0 <= i < rows.len() ==> {
            let after = opened_suffixes(rows, platform)[i];
            &&& after.1 == rows[i].1
            &&& after.0 == rows[i].0 || (rows[i].0 == "H.265 MKV 1080p"@ && after.0
                == "H.265 MKV 1080p30"@ && !has_key(rows, "H.265 MKV 1080p30"@))
            &&& rows[i].0 == "H.265 MKV 1080p"@ && !has_key(rows, "H.265 MKV 1080p30"@) ==> after.0
                == "H.265 MKV 1080p30"@
        },
        has_key(opened_suffixes(rows, platform), first_preset(platform)),
        rows.len() <= opened_suffixes(rows, platform).len() <= rows.len() + 1,
{
    let mend = |row: (Seq<char>, Seq<char>)| mended_suffix(rows, row);
    let new = rows.map_values(mend);
    if !has_key(new, first_preset(platform)) {
        assert(opened_suffixes(rows, platform)[new.len() as int].0 == first_preset(platform));
    }
}

/// What applies to a first start alone is set then and at no other, and never over what is there.
pub proof fn first_starts_are_seeded(rows: Seq<(Seq<char>, Seq<char>)>)
    ensures
        seeded(rows, false) == rows,
        has_key(rows, "encode_priority"@) ==> seeded(rows, true) == rows,
        !has_key(rows, "encode_priority"@) ==> seeded(rows, true) == rows.push(
            ("encode_priority"@, "low"@),
        ),
{
}

/// A setting that is read is the one that was stored under its key; a key that is not there has no
/// value, and one that is there has one.
pub proof fn settings_are_found_by_key(
    rows: Seq<(Seq<char>, Seq<char>)>,
    key: Seq<char>,
    value: Seq<char>,
)
    ensures
        value_of(rows, key) is Some <==> has_key(rows, key),
        value_of(rows, key) matches Some(v) ==> rows.contains((key, v)),
        switch_of(with_setting(rows, key, "true"@), key) == Some(true),
        value != "true"@ ==> switch_of(with_setting(rows, key, value), key) == Some(false),
        !has_key(rows, key) ==> switch_of(rows, key) is None,
{
    lemma_value_found(rows, key, 0);
    written_settings_are_read_back(rows, key, "true"@, key);
    written_settings_are_read_back(rows, key, value, key);
}

/// The value that is found from a row on stands in one of the rows.
proof fn lemma_value_found(rows: Seq<(Seq<char>, Seq<char>)>, key: Seq<char>, from: int)
    requires
        0 <= from <= rows.len(),
    ensures
        value_from(rows, key, from) is Some <==> exists|i: int|
            from <= i < rows.len() && (#[trigger] rows[i]).0 == key,
        value_from(rows, key, from) matches Some(v) ==> rows.contains((key, v)),
    decreases rows.len() - from,
{
    if from < rows.len() {
        if rows[from].0 == key {
            assert(rows[from] == (key, rows[from].1));
        } else {
            lemma_value_found(rows, key, from + 1);
        }
    }
}


/// The program starts with settings that lose nothing: files go to the trash, nothing is skipped,
/// nothing starts by itself, the user is told of everything, and the menu bar shows the percentage
/// and the time left.
pub proof fn programs_start_with_careful_settings(platform: Platform)
    ensures
        first_settings(platform).contains(("cleanup_mode"@, "trash"@)),
        first_settings(platform).contains(("preset"@, first_preset(platform))),
        first_settings(platform).contains(("launch_at_login"@, "false"@)),
        first_settings(platform).contains(("handbrake_path"@, ""@)),
        first_settings(platform).contains(("skip_already_converted"@, "false"@)),
        first_settings(platform).contains(("skip_by_source_media"@, "false"@)),
        first_settings(platform).contains(("notifications_per_file"@, "true"@)),
        first_settings(platform).contains(("notifications_errors_only"@, "false"@)),
        first_settings(platform).contains(("notifications_queue_done"@, "true"@)),
        first_settings(platform).contains(("menubar_show_percent"@, "true"@)),
        first_settings(platform).contains(("menubar_show_eta"@, "true"@)),
        first_settings(platform).contains(("menubar_show_queue"@, "false"@)),
        first_settings(platform).contains(("menubar_show_filename"@, "false"@)),
        first_settings(platform).contains(("menubar_show_fps"@, "false"@)),
        first_settings(platform).contains(("watch_skip_marker"@, ".downloading"@)),
{
    let all = first_settings(platform);
    assert(all[0].0 == "preset"@ && all[1].0 == "cleanup_mode"@ && all[2].0 == "launch_at_login"@);
    assert(all[3].0 == "handbrake_path"@ && all[4].0 == "menubar_show_percent"@);
    assert(all[5].0 == "menubar_show_eta"@ && all[6].0 == "menubar_show_queue"@);
    assert(all[7].0 == "menubar_show_filename"@ && all[8].0 == "menubar_show_fps"@);
    assert(all[9].0 == "notifications_per_file"@ && all[10].0 == "notifications_errors_only"@);
    assert(all[11].0 == "notifications_queue_done"@ && all[12].0 == "skip_already_converted"@);
    assert(all[13].0 == "skip_by_source_media"@ && all[14].0 == "watch_skip_marker"@);
}


} // verus!
