//! The encoder's presets: their list, what is known of one, and the suffix that an output gets.

use crate::json::{find_json, find_json_fault, integer_at, json_at, json_fault, json_integer_at};
use crate::json::{json_string_at, round_json_number, rounded_number, string_at};
use crate::paths::{file_name, file_name_of, join_path, joined_path, opt_view, parent, parent_of};
use crate::paths::{components, extension, joined_files_are_found, last_dot, lemma_file_name_plain};
use crate::paths::{lemma_joined_components, lemma_last_dot, lemma_parent_components, rooted};
use crate::paths::{same_path, stem, stem_of};
use crate::text::{alphanumeric, begins, chars_of, decimal_of, decimal_text, ends, ends_with};
use crate::text::{holds, is_alphanumeric, joined2, joined3, lines, lines_of, lowercase, lowered};
use crate::text::{index_of, lemma_first_unique, occurs, occurs_at, replace_all, replace_first};
use crate::text::{slice_of, starts_with, text_of, trim, trimmed, with_all_replaced};
use crate::text::{find_from, first_from, is_blank, trimming_takes_white_space_off, with_first_replaced};
use crate::types::HandbrakeStatus;
use vstd::prelude::*;
use vstd::string::*;

verus! {

/// What the suffix of an output can be made of.
#[derive(Debug, Clone)]
pub struct PresetMetadata {
    pub codec: String,
    pub resolution: String,
    pub quality: String,
    pub preset: String,
    pub device: String,
}

/// What the suffix of an output can be made of, by its texts.
pub struct MetadataView {
    pub codec: Seq<char>,
    pub resolution: Seq<char>,
    pub quality: Seq<char>,
    pub preset: Seq<char>,
    pub device: Seq<char>,
}

impl View for PresetMetadata {
    type V = MetadataView;

    open spec fn view(&self) -> MetadataView {
        MetadataView {
            codec: self.codec@,
            resolution: self.resolution@,
            quality: self.quality@,
            preset: self.preset@,
            device: self.device@,
        }
    }
}

/// How many bytes a character takes in UTF-8.
pub open spec fn utf8_width(c: char) -> int {
    if (c as u32) < 0x80 {
        1
    } else if (c as u32) < 0x800 {
        2
    } else if (c as u32) < 0x1_0000 {
        3
    } else {
        4
    }
}

/// How many bytes a text takes in UTF-8.
pub open spec fn utf8_len(s: Seq<char>) -> int
    decreases s.len(),
{
    if s.len() == 0 {
        0
    } else {
        utf8_len(s.drop_last()) + utf8_width(s.last())
    }
}

/// Whether the first `k` characters are as many as fit into `max` bytes.
pub open spec fn fills(s: Seq<char>, max: int, k: int) -> bool {
    &&& 0 <= k <= s.len()
    &&& utf8_len(s.take(k)) <= max
    &&& k < s.len() ==> utf8_len(s.take(k + 1)) > max
}

/// The longest beginning of a text that fits into `max` bytes.
pub open spec fn truncated(s: Seq<char>, max: int) -> Seq<char> {
    s.take(choose|k: int| fills(s, max, k))
}

/// A longer beginning of a text takes more bytes.
proof fn lemma_utf8_len_grows(s: Seq<char>, i: int, j: int)
    requires
        0 <= i <= j <= s.len(),
    ensures
        0 <= utf8_len(s.take(i)) <= utf8_len(s.take(j)),
        i < j ==> utf8_len(s.take(i)) < utf8_len(s.take(j)),
    decreases j,
{
    if j > 0 {
        assert(s.take(j).drop_last() =~= s.take(j - 1));
        if i < j {
            lemma_utf8_len_grows(s, i, j - 1);
        } else {
            lemma_utf8_len_grows(s, j - 1, j - 1);
        }
    }
}

/// The longest beginning of a text that fits into `max_bytes` bytes.
pub fn truncate_str(s: &str, max_bytes: usize) -> (r: String)
    ensures
        r@ == truncated(s@, max_bytes as int),
        utf8_len(r@) <= max_bytes,
{
    let cs: Vec<char> = chars_of(s);
    let mut used: usize = 0;
    let mut k: usize = 0;
    while k < cs.len()
        invariant_except_break
            k <= cs.len(),
            cs@ == s@,
            used == utf8_len(s@.take(k as int)),
            used <= max_bytes,
        ensures
            k <= cs.len(),
            fills(s@, max_bytes as int, k as int),
        decreases cs.len() - k,
    {
        let code: u32 = cs[k] as u32;
        let width: usize = if code < 0x80 {
            1
        } else if code < 0x800 {
            2
        } else if code < 0x1_0000 {
            3
        } else {
            4
        };
        assert(s@.take(k + 1).drop_last() =~= s@.take(k as int));
        if width > max_bytes - used {
            break;
        }
        used = used + width;
        k = k + 1;
    }
    proof {
        let other = choose|j: int| fills(s@, max_bytes as int, j);
        if other < k {
            lemma_utf8_len_grows(s@, other + 1, k as int);
        }
        if k < other {
            lemma_utf8_len_grows(s@, k + 1, other);
        }
        assert(s@.take(k as int) =~= s@.subrange(0, k as int));
    }
    text_of(&slice_of(&cs, 0, k))
}

/// The name of the preset that a line of the preset list gives: one that is indented by exactly
/// four spaces and is no category.
pub open spec fn preset_name(line: Seq<char>) -> Option<Seq<char>> {
    let name = trim(line);
    if begins(line, "    "@) && !begins(line, "     "@) && name.len() > 0 && !ends(name, "/"@) {
        Some(name)
    } else {
        None
    }
}

/// The names of the presets that lines give.
pub open spec fn preset_names(all: Seq<Seq<char>>) -> Seq<Seq<char>>
    decreases all.len(),
{
    if all.len() == 0 {
        Seq::empty()
    } else {
        let before = preset_names(all.drop_last());
        match preset_name(all.last()) {
            Some(name) => before.push(name),
            None => before,
        }
    }
}

/// The names of the presets that a preset list gives.
pub fn parse_preset_list(stderr: &str) -> (out: Vec<String>)
    ensures
        out.deep_view() == preset_names(lines(stderr@)),
{
    let all: Vec<String> = lines_of(stderr);
    let ghost lv = lines(stderr@);
    let mut out: Vec<String> = Vec::new();
    let mut i: usize = 0;
    assert(all.deep_view().len() == all.len());
    assert(preset_names(lv.take(0)) =~= Seq::<Seq<char>>::empty());
    while i < all.len()
        invariant
            all.deep_view() == lv,
            lv.len() == all.len(),
            i <= all.len(),
            out.deep_view() == preset_names(lv.take(i as int)),
        decreases all.len() - i,
    {
        let line: &String = &all[i];
        assert(all.deep_view()[i as int] == line@);
        assert(lv.take(i + 1).drop_last() =~= lv.take(i as int));
        assert(lv.take(i + 1).last() == line@);
        let name: String = trimmed(line);
        if starts_with(line, "    ") && !starts_with(line, "     ") && !name.as_str().is_empty()
            && !ends_with(&name, "/") {
            let ghost shorter = out;
            let ghost added = name@;
            out.push(name);
            assert(out.deep_view() =~= shorter.deep_view().push(added));
        }
        i = i + 1;
    }
    assert(lv.take(i as int) =~= lv);
    out
}

/// What a run that lists the presets gives. A run that failed and gave no preset is an error;
/// presets count even if the run failed.
pub fn interpret_preset_list(success: bool, stderr: &str) -> (r: Result<Vec<String>, String>)
    ensures
        match r {
            Ok(names) => names.deep_view() == preset_names(lines(stderr@)) && (success
                || preset_names(lines(stderr@)).len() > 0),
            Err(e) => !success && preset_names(lines(stderr@)).len() == 0 && e@
                == "HandBrakeCLI --preset-list failed: "@ + truncated(trim(stderr@), 200),
        },
{
    let presets: Vec<String> = parse_preset_list(stderr);
    assert(presets.deep_view().len() == presets.len());
    if presets.len() == 0 && !success {
        let said: String = truncate_str(&trimmed(stderr), 200);
        return Err(joined2("HandBrakeCLI --preset-list failed: ", &said));
    }
    Ok(presets)
}

/// What is read from the export of a preset.
#[derive(Debug, Clone)]
pub struct PresetFields {
    /// The encoder that the preset uses.
    pub encoder: String,
    /// The height of the picture, 0 if the preset leaves it.
    pub height: i64,
    /// The quality, to the nearest whole number.
    pub slider: i64,
}

/// Whether a JSON text has a list at a place.
pub open spec fn list_at(text: Seq<char>, pointer: Seq<char>) -> bool {
    json_at(text, pointer) matches Some(v) && begins(v, "["@)
}

/// Whether a JSON text has a list at a place.
pub(crate) fn has_list_at(text: &str, pointer: &str) -> (r: bool)
    ensures
        r == list_at(text@, pointer@),
{
    match find_json(text, pointer) {
        Some(v) => starts_with(&v, "["),
        None => false,
    }
}

/// The quality in the export of a preset, to the nearest whole number.
pub open spec fn slider_in(export: Seq<char>) -> int {
    match json_at(export, "/PresetList/0/VideoQualitySlider"@) {
        Some(v) => rounded_number(v),
        None => 0,
    }
}

/// Whether fields are those of the first preset in an export.
pub open spec fn fields_of(export: Seq<char>, fields: PresetFields) -> bool {
    if list_at(export, "/PresetList"@) {
        &&& fields.encoder@ == string_at(export, "/PresetList/0/VideoEncoder"@)
        &&& fields.height == integer_at(export, "/PresetList/0/PictureHeight"@)
        &&& fields.slider == slider_in(export)
    } else {
        fields.encoder@.len() == 0 && fields.height == 0 && fields.slider == 0
    }
}

/// The fields of the first preset in an export.
pub fn read_preset_fields(export: &str) -> (r: PresetFields)
    ensures
        fields_of(export@, r),
{
    if !has_list_at(export, "/PresetList") {
        return PresetFields { encoder: String::new(), height: 0, slider: 0 };
    }
    let slider: i64 = match find_json(export, "/PresetList/0/VideoQualitySlider") {
        Some(v) => round_json_number(&v),
        None => 0,
    };
    PresetFields {
        encoder: json_string_at(export, "/PresetList/0/VideoEncoder"),
        height: json_integer_at(export, "/PresetList/0/PictureHeight"),
        slider,
    }
}

/// The codec of an encoder whose name is in lower case.
pub open spec fn encoder_codec(lower: Seq<char>) -> Seq<char> {
    if occurs(lower, "h265"@) || occurs(lower, "hevc"@) || occurs(lower, "x265"@) {
        "h265"@
    } else if occurs(lower, "h264"@) || occurs(lower, "x264"@) {
        "h264"@
    } else if occurs(lower, "av1"@) {
        "av1"@
    } else if occurs(lower, "vp9"@) {
        "vp9"@
    } else if occurs(lower, "prores"@) {
        "prores"@
    } else if occurs(lower, "dnxhr"@) {
        "dnxhr"@
    } else if occurs(lower, "ffv1"@) {
        "ffv1"@
    } else {
        "unknown"@
    }
}

/// The codec of an encoder.
fn codec_of(encoder: &str) -> (r: &'static str)
    ensures
        r@ == encoder_codec(lowercase(encoder@)),
{
    let lower: String = lowered(encoder);
    if holds(&lower, "h265") || holds(&lower, "hevc") || holds(&lower, "x265") {
        "h265"
    } else if holds(&lower, "h264") || holds(&lower, "x264") {
        "h264"
    } else if holds(&lower, "av1") {
        "av1"
    } else if holds(&lower, "vp9") {
        "vp9"
    } else if holds(&lower, "prores") {
        "prores"
    } else if holds(&lower, "dnxhr") {
        "dnxhr"
    } else if holds(&lower, "ffv1") {
        "ffv1"
    } else {
        "unknown"
    }
}

/// A number in decimal, with its sign.
pub open spec fn signed_text(n: int) -> Seq<char> {
    if n < 0 {
        "-"@ + decimal_text((-n) as nat)
    } else {
        decimal_text(n as nat)
    }
}

/// A number in decimal, with its sign.
fn signed_of(n: i64) -> (r: String)
    ensures
        r@ == signed_text(n as int),
{
    if n >= 0 {
        decimal_of(n as u64)
    } else if n == i64::MIN {
        joined2("-", &decimal_of(0x8000_0000_0000_0000))
    } else {
        joined2("-", &decimal_of((-n) as u64))
    }
}

/// The resolution of a preset: its height, nothing if it leaves the height.
pub open spec fn resolution_text(height: int) -> Seq<char> {
    if height == 0 {
        Seq::empty()
    } else {
        signed_text(height) + "p"@
    }
}

/// The quality of a preset: by the beginning of its name, else by its slider.
pub open spec fn quality_text(name: Seq<char>, slider: int) -> Seq<char> {
    if begins(name, "Very Fast"@) {
        "vf"@
    } else if begins(name, "Fast"@) {
        "f"@
    } else if begins(name, "Super HQ"@) {
        "shq"@
    } else if begins(name, "HQ"@) {
        "hq"@
    } else if begins(name, "Creator"@) {
        "cr"@
    } else if begins(name, "Production"@) {
        "prod"@
    } else if begins(name, "Preservation"@) {
        "pres"@
    } else {
        "q"@ + signed_text(slider)
    }
}

/// The quality of a preset.
fn quality_of(name: &str, slider: i64) -> (r: String)
    ensures
        r@ == quality_text(name@, slider as int),
{
    if starts_with(name, "Very Fast") {
        "vf".to_owned()
    } else if starts_with(name, "Fast") {
        "f".to_owned()
    } else if starts_with(name, "Super HQ") {
        "shq".to_owned()
    } else if starts_with(name, "HQ") {
        "hq".to_owned()
    } else if starts_with(name, "Creator") {
        "cr".to_owned()
    } else if starts_with(name, "Production") {
        "prod".to_owned()
    } else if starts_with(name, "Preservation") {
        "pres".to_owned()
    } else {
        joined2("q", &signed_of(slider))
    }
}

/// The device that a preset, its name in lower case, is for.
pub open spec fn device_text(lower: Seq<char>) -> Seq<char> {
    if occurs(lower, "apple videotoolbox"@) {
        "apple-videotoolbox"@
    } else if begins(lower, "apple"@) {
        "apple"@
    } else if begins(lower, "amazon fire"@) {
        "amazon-fire"@
    } else if begins(lower, "android"@) {
        "android"@
    } else if begins(lower, "chromecast"@) {
        "chromecast"@
    } else if begins(lower, "playstation"@) {
        "playstation"@
    } else if begins(lower, "roku"@) {
        "roku"@
    } else if begins(lower, "xbox"@) {
        "xbox"@
    } else if occurs(lower, "nvenc"@) {
        "nvenc"@
    } else if occurs(lower, "qsv"@) {
        "qsv"@
    } else if occurs(lower, "vcn"@) {
        "vcn"@
    } else if occurs(lower, " mf "@) {
        "mf"@
    } else {
        ""@
    }
}

/// The device that a preset is for.
fn device_of(name: &str) -> (r: &'static str)
    ensures
        r@ == device_text(lowercase(name@)),
{
    let lower: String = lowered(name);
    if holds(&lower, "apple videotoolbox") {
        "apple-videotoolbox"
    } else if starts_with(&lower, "apple") {
        "apple"
    } else if starts_with(&lower, "amazon fire") {
        "amazon-fire"
    } else if starts_with(&lower, "android") {
        "android"
    } else if starts_with(&lower, "chromecast") {
        "chromecast"
    } else if starts_with(&lower, "playstation") {
        "playstation"
    } else if starts_with(&lower, "roku") {
        "roku"
    } else if starts_with(&lower, "xbox") {
        "xbox"
    } else if holds(&lower, "nvenc") {
        "nvenc"
    } else if holds(&lower, "qsv") {
        "qsv"
    } else if holds(&lower, "vcn") {
        "vcn"
    } else if holds(&lower, " mf ") {
        "mf"
    } else {
        ""
    }
}

/// The letters and digits of a text, with one hyphen for each run of other characters between
/// them and maybe one at the end.
pub open spec fn hyphenated(lower: Seq<char>) -> Seq<char>
    decreases lower.len(),
{
    if lower.len() == 0 {
        Seq::empty()
    } else {
        let before = hyphenated(lower.drop_last());
        let c = lower.last();
        if is_alphanumeric(c) {
            before.push(c)
        } else if before.len() == 0 || before.last() == '-' {
            before
        } else {
            before.push('-')
        }
    }
}

/// A name as it can stand in a file name: lower case, its runs of letters and digits joined by
/// hyphens.
pub open spec fn slug(name: Seq<char>) -> Seq<char> {
    let h = hyphenated(lowercase(name));
    if h.len() > 0 && h.last() == '-' {
        h.drop_last()
    } else {
        h
    }
}

/// A name as it can stand in a file name.
pub fn slugify(name: &str) -> (r: String)
    ensures
        r@ == slug(name@),
{
    let lower: String = lowered(name);
    let cs: Vec<char> = chars_of(&lower);
    let mut out: Vec<char> = Vec::new();
    let mut i: usize = 0;
    assert(hyphenated(cs@.take(0)) =~= Seq::<char>::empty());
    while i < cs.len()
        invariant
            i <= cs.len(),
            out@ == hyphenated(cs@.take(i as int)),
        decreases cs.len() - i,
    {
        let c: char = cs[i];
        assert(cs@.take(i + 1).drop_last() =~= cs@.take(i as int));
        assert(cs@.take(i + 1).last() == c);
        if alphanumeric(c) {
            out.push(c);
        } else if out.len() > 0 && out[out.len() - 1] != '-' {
            out.push('-');
        }
        i = i + 1;
    }
    assert(cs@.take(i as int) =~= cs@);
    if out.len() > 0 && out[out.len() - 1] == '-' {
        let n: usize = out.len() - 1;
        assert(out@.subrange(0, n as int) =~= out@.drop_last());
        text_of(&slice_of(&out, 0, n))
    } else {
        text_of(&out)
    }
}

/// What the fields and the name of a preset tell.
pub open spec fn metadata(fields: PresetFields, name: Seq<char>) -> MetadataView {
    MetadataView {
        codec: encoder_codec(lowercase(fields.encoder@)),
        resolution: resolution_text(fields.height as int),
        quality: quality_text(name, fields.slider as int),
        preset: slug(name),
        device: device_text(lowercase(name)),
    }
}

/// What the fields and the name of a preset tell.
pub fn classify_preset(fields: &PresetFields, preset_name: &str) -> (r: PresetMetadata)
    ensures
        r@ == metadata(*fields, preset_name@),
{
    let resolution: String = if fields.height == 0 {
        String::new()
    } else {
        joined2(&signed_of(fields.height), "p")
    };
    PresetMetadata {
        codec: codec_of(&fields.encoder).to_owned(),
        resolution,
        quality: quality_of(preset_name, fields.slider),
        preset: slugify(preset_name),
        device: device_of(preset_name).to_owned(),
    }
}

/// Why the export of a preset tells nothing, if it does not. `fault` is what is wrong with what was
/// printed.
pub open spec fn export_error(
    success: bool,
    stdout: Seq<char>,
    stderr: Seq<char>,
    fault: Option<Seq<char>>,
) -> Option<Seq<char>> {
    if !success {
        Some("HandBrakeCLI --preset-export failed: "@ + truncated(trim(stderr), 200))
    } else {
        match fault {
            Some(f) => Some(
                "Failed to parse preset JSON: "@ + f + ". Output: "@ + truncated(stdout, 200),
            ),
            None => None,
        }
    }
}

/// What a run that exports a preset gives, once what it printed was read: what the preset tells, or
/// why it could not be told.
pub fn judge_export(
    success: bool,
    stdout: &str,
    stderr: &str,
    fault: Option<String>,
    fields: &PresetFields,
    preset_name: &str,
) -> (r: Result<PresetMetadata, String>)
    ensures
        match r {
            Ok(m) => export_error(success, stdout@, stderr@, opt_view(fault)) is None && m@
                == metadata(*fields, preset_name@),
            Err(e) => export_error(success, stdout@, stderr@, opt_view(fault)) == Some(e@),
        },
{
    if !success {
        let said: String = truncate_str(&trimmed(stderr), 200);
        return Err(joined2("HandBrakeCLI --preset-export failed: ", &said));
    }
    match fault {
        Some(f) => {
            let output: String = truncate_str(stdout, 200);
            Err(joined3("Failed to parse preset JSON: ", &f, ". Output: ").concat(&output))
        },
        None => Ok(classify_preset(fields, preset_name)),
    }
}

/// What a run that exports a preset gives.
pub fn interpret_preset_export(
    success: bool,
    stdout: &str,
    stderr: &str,
    preset_name: &str,
) -> (r: Result<PresetMetadata, String>)
    ensures
        match r {
            Ok(m) => export_error(success, stdout@, stderr@, json_fault(stdout@)) is None && exists|
                fields: PresetFields,
            | #[trigger] fields_of(stdout@, fields) && m@ == metadata(fields, preset_name@),
            Err(e) => export_error(success, stdout@, stderr@, json_fault(stdout@)) == Some(e@),
        },
{
    let fault: Option<String> = find_json_fault(stdout);
    let fields: PresetFields = read_preset_fields(stdout);
    judge_export(success, stdout, stderr, fault, &fields, preset_name)
}

/// A template without a placeholder that has no value: gone with it is one separator next to it,
/// first one that follows it, else one before it. A dot that opens the template stays.
pub open spec fn without_placeholder(s: Seq<char>, var: Seq<char>) -> Seq<char> {
    if occurs(s, var + "-"@) {
        replace_first(s, var + "-"@, ""@)
    } else if occurs(s, var + "_"@) {
        replace_first(s, var + "_"@, ""@)
    } else if occurs(s, var + "."@) {
        replace_first(s, var + "."@, ""@)
    } else if occurs(s, "-"@ + var) {
        replace_first(s, "-"@ + var, ""@)
    } else if occurs(s, "_"@ + var) {
        replace_first(s, "_"@ + var, ""@)
    } else if occurs(s, "."@ + var) && index_of(s, "."@ + var) != 0 {
        replace_first(s, "."@ + var, ""@)
    } else {
        replace_first(s, var, ""@)
    }
}

/// A template with one placeholder resolved.
pub open spec fn resolved_one(s: Seq<char>, var: Seq<char>, value: Seq<char>) -> Seq<char> {
    if value.len() == 0 {
        without_placeholder(s, var)
    } else {
        replace_all(s, var, value)
    }
}

/// A template with its placeholders resolved, one after the other.
pub open spec fn resolved(template: Seq<char>, m: MetadataView) -> Seq<char> {
    let s1 = resolved_one(template, "{codec}"@, m.codec);
    let s2 = resolved_one(s1, "{resolution}"@, m.resolution);
    let s3 = resolved_one(s2, "{quality}"@, m.quality);
    let s4 = resolved_one(s3, "{preset}"@, m.preset);
    resolved_one(s4, "{device}"@, m.device)
}

/// Where a text first stands in another.
fn position(s: &str, needle: &str) -> (r: Option<usize>)
    ensures
        match r {
            Some(i) => occurs(s@, needle@) && i == index_of(s@, needle@),
            None => !occurs(s@, needle@),
        },
{
    let r: Option<usize> = find_from(&chars_of(s), &chars_of(needle), 0);
    proof {
        match r {
            Some(i) => {
                assert(first_from(s@, needle@, 0, i as int));
                lemma_first_unique(s@, needle@, i as int);
            },
            None => {
                assert forall|j: int| !occurs_at(s@, needle@, j) by {
                    if occurs_at(s@, needle@, j) {
                        assert(0 <= j);
                    }
                }
            },
        }
    }
    r
}

/// A template without a placeholder that has no value.
fn drop_placeholder(s: &str, var: &str) -> (r: String)
    ensures
        r@ == without_placeholder(s@, var@),
{
    let dash_after: String = joined2(var, "-");
    if holds(s, &dash_after) {
        return with_first_replaced(s, &dash_after, "");
    }
    let line_after: String = joined2(var, "_");
    if holds(s, &line_after) {
        return with_first_replaced(s, &line_after, "");
    }
    let dot_after: String = joined2(var, ".");
    if holds(s, &dot_after) {
        return with_first_replaced(s, &dot_after, "");
    }
    let dash_before: String = joined2("-", var);
    if holds(s, &dash_before) {
        return with_first_replaced(s, &dash_before, "");
    }
    let line_before: String = joined2("_", var);
    if holds(s, &line_before) {
        return with_first_replaced(s, &line_before, "");
    }
    let dot_before: String = joined2(".", var);
    match position(s, &dot_before) {
        Some(at) => {
            if at != 0 {
                return with_first_replaced(s, &dot_before, "");
            }
        },
        None => {},
    }
    with_first_replaced(s, var, "")
}

/// A template with one placeholder resolved.
fn resolve_one(s: &str, var: &str, value: &str) -> (r: String)
    requires
        var@.len() > 0,
    ensures
        r@ == resolved_one(s@, var@, value@),
{
    if value.is_empty() {
        drop_placeholder(s, var)
    } else {
        with_all_replaced(s, var, value)
    }
}

/// A suffix template with its placeholders resolved.
pub fn resolve_suffix_template(template: &str, metadata: &PresetMetadata) -> (r: String)
    ensures
        r@ == resolved(template@, metadata@),
{
    proof {
        lemma_placeholders();
    }
    let s1: String = resolve_one(template, "{codec}", &metadata.codec);
    let s2: String = resolve_one(&s1, "{resolution}", &metadata.resolution);
    let s3: String = resolve_one(&s2, "{quality}", &metadata.quality);
    let s4: String = resolve_one(&s3, "{preset}", &metadata.preset);
    resolve_one(&s4, "{device}", &metadata.device)
}

/// Every placeholder opens with a brace.
proof fn lemma_placeholders()
    ensures
        "{codec}"@.len() > 0 && "{codec}"@[0] == '{',
        "{resolution}"@.len() > 0 && "{resolution}"@[0] == '{',
        "{quality}"@.len() > 0 && "{quality}"@[0] == '{',
        "{preset}"@.len() > 0 && "{preset}"@[0] == '{',
        "{device}"@.len() > 0 && "{device}"@[0] == '{',
{
    reveal_strlit("{codec}");
    reveal_strlit("{resolution}");
    reveal_strlit("{quality}");
    reveal_strlit("{preset}");
    reveal_strlit("{device}");
}

/// The leftmost occurrence is one.
proof fn lemma_index_of(s: Seq<char>, needle: Seq<char>)
    requires
        occurs(s, needle),
    ensures
        first_from(s, needle, 0, index_of(s, needle)),
{
    let i = choose|i: int| occurs_at(s, needle, i);
    lemma_least(s, needle, i);
}

/// Below an occurrence there is a leftmost one.
proof fn lemma_least(s: Seq<char>, needle: Seq<char>, i: int)
    requires
        occurs_at(s, needle, i),
    ensures
        exists|j: int| first_from(s, needle, 0, j),
    decreases i,
{
    if forall|j: int| 0 <= j < i ==> !occurs_at(s, needle, j) {
        assert(first_from(s, needle, 0, i));
    } else {
        let j = choose|j: int| 0 <= j < i && occurs_at(s, needle, j);
        lemma_least(s, needle, j);
    }
}

/// Taking out a piece that does not open a text leaves its first character.
proof fn lemma_first_char_stays(s: Seq<char>, needle: Seq<char>)
    requires
        s.len() > 0,
        needle.len() > 0,
        needle[0] != s[0] || (occurs(s, needle) ==> index_of(s, needle) != 0),
    ensures
        replace_first(s, needle, ""@).len() > 0,
        replace_first(s, needle, ""@)[0] == s[0],
{
    reveal_strlit("");
    if occurs(s, needle) {
        lemma_index_of(s, needle);
        let i = index_of(s, needle);
        if i == 0 {
            assert(s.subrange(0, needle.len() as int)[0] == needle[0]);
        }
        assert(replace_first(s, needle, ""@)[0] == s[0]);
    }
}

/// Resolving one placeholder leaves a dot that opens the template.
proof fn lemma_dot_stays(s: Seq<char>, var: Seq<char>, value: Seq<char>)
    requires
        begins(s, "."@),
        var.len() > 0,
        var[0] == '{',
    ensures
        begins(resolved_one(s, var, value), "."@),
{
    reveal_strlit(".");
    reveal_strlit("-");
    reveal_strlit("_");
    assert(s.subrange(0, 1)[0] == s[0]);
    assert(s[0] == '.');
    let r = resolved_one(s, var, value);
    if value.len() == 0 {
        assert((var + "-"@)[0] == '{');
        assert((var + "_"@)[0] == '{');
        assert((var + "."@)[0] == '{');
        assert(("-"@ + var)[0] == '-');
        assert(("_"@ + var)[0] == '_');
        lemma_first_char_stays(s, var + "-"@);
        lemma_first_char_stays(s, var + "_"@);
        lemma_first_char_stays(s, var + "."@);
        lemma_first_char_stays(s, "-"@ + var);
        lemma_first_char_stays(s, "_"@ + var);
        lemma_first_char_stays(s, var);
        if occurs(s, "."@ + var) && index_of(s, "."@ + var) != 0 {
            lemma_first_char_stays(s, "."@ + var);
        }
    } else {
        if occurs_at(s, var, 0) {
            assert(s.subrange(0, var.len() as int)[0] == var[0]);
        }
    }
    assert(r.subrange(0, 1) =~= "."@);
}

/// A suffix that opens with a dot in the template opens with one when it is resolved.
pub proof fn leading_dots_are_kept(template: Seq<char>, m: MetadataView)
    requires
        begins(template, "."@),
    ensures
        begins(resolved(template, m), "."@),
{
    lemma_placeholders();
    let s1 = resolved_one(template, "{codec}"@, m.codec);
    let s2 = resolved_one(s1, "{resolution}"@, m.resolution);
    let s3 = resolved_one(s2, "{quality}"@, m.quality);
    let s4 = resolved_one(s3, "{preset}"@, m.preset);
    lemma_dot_stays(template, "{codec}"@, m.codec);
    lemma_dot_stays(s1, "{resolution}"@, m.resolution);
    lemma_dot_stays(s2, "{quality}"@, m.quality);
    lemma_dot_stays(s3, "{preset}"@, m.preset);
    lemma_dot_stays(s4, "{device}"@, m.device);
}

/// A longer text that stands somewhere holds each of its parts there.
proof fn lemma_part_occurs(s: Seq<char>, a: Seq<char>, b: Seq<char>)
    requires
        occurs(s, a + b),
    ensures
        occurs(s, a),
        occurs(s, b),
{
    let whole = a + b;
    let i = choose|i: int| occurs_at(s, whole, i);
    let at = s.subrange(i, i + whole.len());
    assert(s.subrange(i, i + a.len()) =~= at.subrange(0, a.len() as int));
    assert(whole.subrange(0, a.len() as int) =~= a);
    assert(occurs_at(s, a, i));
    assert(s.subrange(i + a.len(), i + a.len() + b.len()) =~= at.subrange(
        a.len() as int,
        whole.len() as int,
    ));
    assert(whole.subrange(a.len() as int, whole.len() as int) =~= b);
    assert(occurs_at(s, b, i + a.len()));
}

/// Replacing what does not occur changes nothing.
proof fn lemma_replace_none(s: Seq<char>, from: Seq<char>, to: Seq<char>)
    requires
        !occurs(s, from),
    ensures
        replace_all(s, from, to) == s,
    decreases s.len(),
{
    if from.len() > 0 && s.len() >= from.len() {
        assert(!occurs_at(s, from, 0));
        let rest = s.skip(1);
        if occurs(rest, from) {
            let i = choose|i: int| occurs_at(rest, from, i);
            assert(s.subrange(i + 1, i + 1 + from.len()) =~= rest.subrange(i, i + from.len()));
            assert(occurs_at(s, from, i + 1));
        }
        lemma_replace_none(rest, from, to);
        assert(seq![s[0]] + rest =~= s);
    }
}

/// Resolving a placeholder that a template does not hold changes nothing.
proof fn lemma_resolve_none(s: Seq<char>, var: Seq<char>, value: Seq<char>)
    requires
        !occurs(s, var),
    ensures
        resolved_one(s, var, value) == s,
{
    if value.len() == 0 {
        if occurs(s, var + "-"@) {
            lemma_part_occurs(s, var, "-"@);
        }
        if occurs(s, var + "_"@) {
            lemma_part_occurs(s, var, "_"@);
        }
        if occurs(s, var + "."@) {
            lemma_part_occurs(s, var, "."@);
        }
        if occurs(s, "-"@ + var) {
            lemma_part_occurs(s, "-"@, var);
        }
        if occurs(s, "_"@ + var) {
            lemma_part_occurs(s, "_"@, var);
        }
        if occurs(s, "."@ + var) {
            lemma_part_occurs(s, "."@, var);
        }
    } else {
        lemma_replace_none(s, var, value);
    }
}

/// A template without placeholders is its own suffix.
pub proof fn plain_templates_are_kept(template: Seq<char>, m: MetadataView)
    requires
        !occurs(template, "{codec}"@),
        !occurs(template, "{resolution}"@),
        !occurs(template, "{quality}"@),
        !occurs(template, "{preset}"@),
        !occurs(template, "{device}"@),
    ensures
        resolved(template, m) == template,
{
    lemma_resolve_none(template, "{codec}"@, m.codec);
    lemma_resolve_none(template, "{resolution}"@, m.resolution);
    lemma_resolve_none(template, "{quality}"@, m.quality);
    lemma_resolve_none(template, "{preset}"@, m.preset);
    lemma_resolve_none(template, "{device}"@, m.device);
}

/// Whether a character can stand in a slug.
pub open spec fn slug_char(c: char) -> bool {
    is_alphanumeric(c) || c == '-'
}

/// A slug holds letters, digits and hyphens only, and no hyphen opens it or follows another.
pub open spec fn well_hyphenated(s: Seq<char>) -> bool {
    &&& forall|i: int| 0 <= i < s.len() ==> slug_char(#[trigger] s[i])
    &&& s.len() > 0 ==> s[0] != '-'
    &&& forall|i: int, j: int|
        0 <= i && j == i + 1 && j < s.len() ==> !(#[trigger] s[i] == '-' && #[trigger] s[j] == '-')
}

/// What the letters and digits of a text are joined to is well hyphenated.
proof fn lemma_hyphenated(lower: Seq<char>)
    ensures
        well_hyphenated(hyphenated(lower)),
    decreases lower.len(),
{
    if lower.len() > 0 {
        let before = hyphenated(lower.drop_last());
        lemma_hyphenated(lower.drop_last());
        let h = hyphenated(lower);
        assert forall|i: int| 0 <= i < h.len() implies slug_char(#[trigger] h[i]) by {
            if i < before.len() {
                assert(h[i] == before[i]);
            }
        }
        assert forall|i: int, j: int|
            0 <= i && j == i + 1 && j < h.len() implies !(#[trigger] h[i] == '-' && #[trigger] h[j]
            == '-') by {
            if j < before.len() {
                assert(h[i] == before[i] && h[j] == before[j]);
            }
        }
    }
}

/// Slugs are well hyphenated and do not end in a hyphen.
pub proof fn slugs_are_well_hyphenated(name: Seq<char>)
    ensures
        well_hyphenated(slug(name)),
        slug(name).len() > 0 ==> slug(name).last() != '-',
{
    let h = hyphenated(lowercase(name));
    lemma_hyphenated(lowercase(name));
    assert forall|i: int| 0 <= i < slug(name).len() implies slug_char(#[trigger] slug(name)[i]) by {
        assert(slug(name)[i] == h[i]);
    }
    assert forall|i: int, j: int| 0 <= i && j == i + 1 && j < slug(name).len() implies !(#[trigger] slug(
        name,
    )[i] == '-' && #[trigger] slug(name)[j] == '-') by {
        assert(slug(name)[i] == h[i] && slug(name)[j] == h[j]);
    }
    if h.len() > 1 && h.last() == '-' {
        assert(h[h.len() - 2] == slug(name).last());
        assert(h[h.len() - 1] == '-');
    }
}

/// Where the output of a file goes: beside it, under its name with the suffix in place of its
/// extension. What is no file has no output.
pub open spec fn output_of(source: Seq<char>, suffix: Seq<char>) -> Option<Seq<char>> {
    match (file_name(source), parent(source)) {
        (Some(name), Some(dir)) => Some(joined_path(dir, stem(name) + suffix + ".mp4"@)),
        _ => None,
    }
}

/// Where the output of a file goes.
pub fn output_path(source: &str, suffix: &str) -> (r: Option<String>)
    ensures
        opt_view(r) == output_of(source@, suffix@),
{
    match (file_name_of(source), parent_of(source)) {
        (Some(name), Some(dir)) => {
            let output: String = joined3(&stem_of(&name), suffix, ".mp4");
            Some(join_path(&dir, &output))
        },
        _ => None,
    }
}

/// The output of a file stands beside it, under its name with the suffix.
pub proof fn outputs_stand_beside_their_source(source: Seq<char>, suffix: Seq<char>)
    requires
        !suffix.contains('/'),
    ensures
        output_of(source, suffix) is None <==> file_name(source) is None,
        output_of(source, suffix) matches Some(output) ==> {
            &&& file_name(output) == Some(stem(file_name(source)->0) + suffix + ".mp4"@)
            &&& parent(output) matches Some(dir) && same_path(dir, parent(source)->0)
        },
{
    reveal_strlit(".mp4");
    lemma_file_name_plain(source);
    lemma_parent_components(source);
    if let Some(name) = file_name(source) {
        lemma_last_dot(name);
        let new = stem(name) + suffix + ".mp4"@;
        assert(!new.contains('/')) by {
            if new.contains('/') {
                let i = choose|i: int| 0 <= i < new.len() && new[i] == '/';
                if i < stem(name).len() {
                    assert(name[i] == '/');
                    assert(name.contains('/'));
                } else if i < stem(name).len() + suffix.len() {
                    assert(suffix[i - stem(name).len()] == '/');
                    assert(suffix.contains('/'));
                } else {
                    assert(".mp4"@[i - stem(name).len() - suffix.len()] == '/');
                }
            }
        }
        assert(new.len() >= 4);
        assert(components(source).len() > 0);
        assert(parent(source) is Some) by {
            if parent(source) is None && rooted(source) {
                assert(components(source)[0] == seq!['/']);
            }
        }
        joined_files_are_found(parent(source)->0, new);
    }
}

/// Without a suffix a file that already ends in `.mp4` is encoded onto itself.
pub proof fn no_suffix_encodes_in_place(source: Seq<char>)
    requires
        file_name(source) matches Some(name) && extension(name) == Some("mp4"@),
    ensures
        output_of(source, Seq::empty()) matches Some(output) && same_path(output, source),
{
    reveal_strlit(".mp4");
    reveal_strlit("mp4");
    let none = Seq::<char>::empty();
    outputs_stand_beside_their_source(source, none);
    lemma_file_name_plain(source);
    lemma_parent_components(source);
    let name = file_name(source)->0;
    lemma_last_dot(name);
    let d = last_dot(name);
    assert(name.skip(d + 1) == "mp4"@);
    assert(name.skip(d + 1).len() == name.len() - (d + 1));
    assert("mp4"@.len() == 3);
    assert(name[d + 1] == name.skip(d + 1)[0]);
    assert(name[d + 2] == name.skip(d + 1)[1]);
    assert(name[d + 3] == name.skip(d + 1)[2]);
    assert(stem(name) + none + ".mp4"@ =~= name);
    lemma_joined_components(parent(source)->0, name);
    assert(components(source).drop_last().push(name) =~= components(source));
}

/// The path that a search for the encoder printed: its first line, if that is not blank.
pub open spec fn located(success: bool, stdout: Seq<char>) -> Option<Seq<char>> {
    let all = lines(stdout);
    if success && all.len() > 0 && trim(all[0]).len() > 0 {
        Some(trim(all[0]))
    } else {
        None
    }
}

/// The path that a search for the encoder printed.
pub fn located_path(success: bool, stdout: &str) -> (r: Option<String>)
    ensures
        opt_view(r) == located(success, stdout@),
{
    let all: Vec<String> = lines_of(stdout);
    assert(all.deep_view().len() == all.len());
    if !success || all.len() == 0 {
        return None;
    }
    assert(all.deep_view()[0] == all[0]@);
    let path: String = trimmed(&all[0]);
    if path.as_str().is_empty() {
        None
    } else {
        Some(path)
    }
}

/// The encoder to use: the one that the user named if it is there, else the one that was found.
pub fn chosen_encoder(
    configured: Option<String>,
    configured_exists: bool,
    detected: Option<String>,
) -> (r: Option<String>)
    ensures
        r == (match configured {
            Some(path) => if path@.len() > 0 && configured_exists {
                configured
            } else {
                detected
            },
            None => detected,
        }),
{
    match configured {
        Some(path) => {
            if !path.as_str().is_empty() && configured_exists {
                Some(path)
            } else {
                detected
            }
        },
        None => detected,
    }
}

/// What is shown of the encoder.
pub fn handbrake_status(path: Option<String>, version: Option<String>) -> (r: HandbrakeStatus)
    ensures
        r.found == (path is Some),
        r.path@ == (match path {
            Some(p) => p@,
            None => Seq::empty(),
        }),
        r.version@ == (match (path, version) {
            (Some(_), Some(v)) => v@,
            _ => Seq::empty(),
        }),
{
    match path {
        Some(p) => HandbrakeStatus {
            found: true,
            path: p,
            version: match version {
                Some(v) => v,
                None => String::new(),
            },
        },
        None => HandbrakeStatus { found: false, path: String::new(), version: String::new() },
    }
}

/// Whether a text stands in another exactly once, at `i`.
pub open spec fn stands_once(s: Seq<char>, needle: Seq<char>, i: int) -> bool {
    &&& occurs_at(s, needle, i)
    &&& forall|j: int| occurs_at(s, needle, j) ==> j == i
}

/// Whether a character separates the parts of a suffix.
pub open spec fn is_separator(c: char) -> bool {
    c == '-' || c == '_' || c == '.'
}

/// Where a text with one more character behind it stands.
proof fn lemma_followed(s: Seq<char>, var: Seq<char>, i: int, mark: Seq<char>)
    requires
        stands_once(s, var, i),
        mark.len() == 1,
    ensures
        occurs(s, var + mark) <==> i + var.len() < s.len() && s[i + var.len()] == mark[0],
        occurs(s, var + mark) ==> index_of(s, var + mark) == i,
{
    let whole = var + mark;
    if i + var.len() < s.len() && s[i + var.len()] == mark[0] {
        assert(s.subrange(i, i + whole.len()) =~= s.subrange(i, i + var.len()) + mark);
        assert(occurs_at(s, whole, i));
    }
    if occurs(s, whole) {
        lemma_index_of(s, whole);
        let j = index_of(s, whole);
        let at = s.subrange(j, j + whole.len());
        assert(s.subrange(j, j + var.len()) =~= at.subrange(0, var.len() as int));
        assert(whole.subrange(0, var.len() as int) =~= var);
        assert(occurs_at(s, var, j));
        assert(at[var.len() as int] == s[j + var.len()]);
        assert(whole[var.len() as int] == mark[0]);
    }
}

/// Where a text with one more character before it stands.
proof fn lemma_preceded(s: Seq<char>, var: Seq<char>, i: int, mark: Seq<char>)
    requires
        stands_once(s, var, i),
        mark.len() == 1,
    ensures
        occurs(s, mark + var) <==> i > 0 && s[i - 1] == mark[0],
        occurs(s, mark + var) ==> index_of(s, mark + var) == i - 1,
{
    let whole = mark + var;
    if i > 0 && s[i - 1] == mark[0] {
        assert(s.subrange(i - 1, i - 1 + whole.len()) =~= mark + s.subrange(i, i + var.len()));
        assert(occurs_at(s, whole, i - 1));
    }
    if occurs(s, whole) {
        lemma_index_of(s, whole);
        let j = index_of(s, whole);
        let at = s.subrange(j, j + whole.len());
        assert(s.subrange(j + 1, j + 1 + var.len()) =~= at.subrange(1, whole.len() as int));
        assert(whole.subrange(1, whole.len() as int) =~= var);
        assert(occurs_at(s, var, j + 1));
        assert(at[0] == s[j]);
        assert(whole[0] == mark[0]);
    }
}

/// A placeholder that has no value is taken out, and one separator with it: the one that follows it;
/// where none does, the one before it, unless that is a dot that opens the template. All the rest of
/// the template stays as it is.
pub proof fn placeholders_without_a_value_are_taken_out(s: Seq<char>, var: Seq<char>, i: int)
    requires
        stands_once(s, var, i),
        var.len() > 0,
    ensures
        ({
            let end = i + var.len();
            let r = resolved_one(s, var, Seq::empty());
            if end < s.len() && is_separator(s[end]) {
                r == s.take(i) + s.skip(end + 1)
            } else if i > 0 && is_separator(s[i - 1]) && !(i == 1 && s[0] == '.') {
                r == s.take(i - 1) + s.skip(end)
            } else {
                r == s.take(i) + s.skip(end)
            }
        }),
{
    reveal_strlit("-");
    reveal_strlit("_");
    reveal_strlit(".");
    reveal_strlit("");
    let end = i + var.len();
    lemma_followed(s, var, i, "-"@);
    lemma_followed(s, var, i, "_"@);
    lemma_followed(s, var, i, "."@);
    lemma_preceded(s, var, i, "-"@);
    lemma_preceded(s, var, i, "_"@);
    lemma_preceded(s, var, i, "."@);
    assert(occurs(s, var));
    lemma_index_of(s, var);
    let r = resolved_one(s, var, Seq::empty());
    if end < s.len() && is_separator(s[end]) {
        assert(r =~= s.take(i) + s.skip(end + 1));
    } else if i > 0 && is_separator(s[i - 1]) && !(i == 1 && s[0] == '.') {
        assert(r =~= s.take(i - 1) + s.skip(end));
    } else {
        assert(r =~= s.take(i) + s.skip(end));
    }
}

/// A placeholder that has a value gives way to it, and all the rest of the template stays.
pub proof fn placeholders_give_way_to_their_value(
    s: Seq<char>,
    var: Seq<char>,
    value: Seq<char>,
    i: int,
)
    requires
        stands_once(s, var, i),
        var.len() > 0,
        value.len() > 0,
    ensures
        resolved_one(s, var, value) == s.take(i) + value + s.skip(i + var.len()),
{
    lemma_replaced_once(s, var, value, i);
}

/// Turning a text that stands once into another changes it there alone.
proof fn lemma_replaced_once(s: Seq<char>, from: Seq<char>, to: Seq<char>, i: int)
    requires
        stands_once(s, from, i),
        from.len() > 0,
    ensures
        replace_all(s, from, to) == s.take(i) + to + s.skip(i + from.len()),
    decreases s.len(),
{
    let n = from.len() as int;
    if i == 0 {
        let rest = s.skip(n);
        if occurs(rest, from) {
            let j = choose|j: int| occurs_at(rest, from, j);
            assert(s.subrange(j + n, j + n + n) =~= rest.subrange(j, j + n));
            assert(occurs_at(s, from, j + n));
        }
        lemma_replace_none(rest, from, to);
        assert(to + rest =~= s.take(0) + to + s.skip(n));
    } else {
        let rest = s.skip(1);
        assert(rest.subrange(i - 1, i - 1 + n) =~= s.subrange(i, i + n));
        assert forall|j: int| occurs_at(rest, from, j) implies j == i - 1 by {
            assert(s.subrange(j + 1, j + 1 + n) =~= rest.subrange(j, j + n));
            assert(occurs_at(s, from, j + 1));
        }
        lemma_replaced_once(rest, from, to, i - 1);
        assert(!occurs_at(s, from, 0));
        assert(seq![s[0]] + (rest.take(i - 1) + to + rest.skip(i - 1 + n)) =~= s.take(i) + to
            + s.skip(i + n));
    }
}

/// Whether a text holds none of the placeholders but maybe one.
pub open spec fn holds_no_other(s: Seq<char>, var: Seq<char>) -> bool {
    &&& var == "{codec}"@ || !occurs(s, "{codec}"@)
    &&& var == "{resolution}"@ || !occurs(s, "{resolution}"@)
    &&& var == "{quality}"@ || !occurs(s, "{quality}"@)
    &&& var == "{preset}"@ || !occurs(s, "{preset}"@)
    &&& var == "{device}"@ || !occurs(s, "{device}"@)
}

/// Each placeholder is resolved from what the preset tells of it: in a template that holds no other
/// placeholder, `{codec}` gives way to the codec, and so on.
pub proof fn each_placeholder_has_its_own_value(template: Seq<char>, m: MetadataView)
    ensures
        holds_no_other(template, "{codec}"@) && holds_no_other(
            resolved_one(template, "{codec}"@, m.codec),
            "{codec}"@,
        ) ==> resolved(template, m) == resolved_one(template, "{codec}"@, m.codec),
        holds_no_other(template, "{resolution}"@) && holds_no_other(
            resolved_one(template, "{resolution}"@, m.resolution),
            "{resolution}"@,
        ) ==> resolved(template, m) == resolved_one(template, "{resolution}"@, m.resolution),
        holds_no_other(template, "{quality}"@) && holds_no_other(
            resolved_one(template, "{quality}"@, m.quality),
            "{quality}"@,
        ) ==> resolved(template, m) == resolved_one(template, "{quality}"@, m.quality),
        holds_no_other(template, "{preset}"@) && holds_no_other(
            resolved_one(template, "{preset}"@, m.preset),
            "{preset}"@,
        ) ==> resolved(template, m) == resolved_one(template, "{preset}"@, m.preset),
        holds_no_other(template, "{device}"@) ==> resolved(template, m) == resolved_one(
            template,
            "{device}"@,
            m.device,
        ),
{
    lemma_placeholders_differ();
    lemma_none_resolved(template, m);
    lemma_none_resolved(resolved_one(template, "{codec}"@, m.codec), m);
    lemma_none_resolved(resolved_one(template, "{resolution}"@, m.resolution), m);
    lemma_none_resolved(resolved_one(template, "{quality}"@, m.quality), m);
    lemma_none_resolved(resolved_one(template, "{preset}"@, m.preset), m);
}

/// A placeholder that a text does not hold leaves it as it is.
proof fn lemma_none_resolved(s: Seq<char>, m: MetadataView)
    ensures
        !occurs(s, "{codec}"@) ==> resolved_one(s, "{codec}"@, m.codec) == s,
        !occurs(s, "{resolution}"@) ==> resolved_one(s, "{resolution}"@, m.resolution) == s,
        !occurs(s, "{quality}"@) ==> resolved_one(s, "{quality}"@, m.quality) == s,
        !occurs(s, "{preset}"@) ==> resolved_one(s, "{preset}"@, m.preset) == s,
        !occurs(s, "{device}"@) ==> resolved_one(s, "{device}"@, m.device) == s,
{
    if !occurs(s, "{codec}"@) {
        lemma_resolve_none(s, "{codec}"@, m.codec);
    }
    if !occurs(s, "{resolution}"@) {
        lemma_resolve_none(s, "{resolution}"@, m.resolution);
    }
    if !occurs(s, "{quality}"@) {
        lemma_resolve_none(s, "{quality}"@, m.quality);
    }
    if !occurs(s, "{preset}"@) {
        lemma_resolve_none(s, "{preset}"@, m.preset);
    }
    if !occurs(s, "{device}"@) {
        lemma_resolve_none(s, "{device}"@, m.device);
    }
}

/// No two placeholders are the same.
proof fn lemma_placeholders_differ()
    ensures
        "{codec}"@ != "{resolution}"@ && "{codec}"@ != "{quality}"@ && "{codec}"@ != "{preset}"@
            && "{codec}"@ != "{device}"@,
        "{resolution}"@ != "{quality}"@ && "{resolution}"@ != "{preset}"@ && "{resolution}"@
            != "{device}"@,
        "{quality}"@ != "{preset}"@ && "{quality}"@ != "{device}"@,
        "{preset}"@ != "{device}"@,
{
    reveal_strlit("{codec}");
    reveal_strlit("{resolution}");
    reveal_strlit("{quality}");
    reveal_strlit("{preset}");
    reveal_strlit("{device}");
    assert("{codec}"@[1] == 'c' && "{resolution}"@[1] == 'r' && "{quality}"@[1] == 'q'
        && "{preset}"@[1] == 'p' && "{device}"@[1] == 'd');
}

/// The codec of an encoder is told by marks of its own alone, and a mark is passed over only for one
/// of a codec that comes before.
pub proof fn encoders_are_told_by_their_marks(c: Seq<char>)
    ensures
        encoder_codec(c) == "h265"@ ==> (occurs(c, "h265"@) || occurs(c, "hevc"@)
            || occurs(c, "x265"@)),
        encoder_codec(c) == "h264"@ ==> (occurs(c, "h264"@) || occurs(c, "x264"@)),
        encoder_codec(c) == "av1"@ ==> occurs(c, "av1"@),
        encoder_codec(c) == "vp9"@ ==> occurs(c, "vp9"@),
        encoder_codec(c) == "prores"@ ==> occurs(c, "prores"@),
        encoder_codec(c) == "dnxhr"@ ==> occurs(c, "dnxhr"@),
        encoder_codec(c) == "ffv1"@ ==> occurs(c, "ffv1"@),
        encoder_codec(c) == "unknown"@ ==> !(occurs(c, "h265"@) || occurs(c, "hevc"@)
            || occurs(c, "x265"@)) && !(occurs(c, "h264"@) || occurs(c, "x264"@))
            && !occurs(c, "av1"@) && !occurs(c, "vp9"@) && !occurs(c, "prores"@)
            && !occurs(c, "dnxhr"@) && !occurs(c, "ffv1"@),
        (occurs(c, "h265"@) || occurs(c, "hevc"@) || occurs(c, "x265"@)) ==> encoder_codec(c)
            == "h265"@,
        (occurs(c, "h264"@) || occurs(c, "x264"@)) ==> encoder_codec(c) == "h264"@
            || (occurs(c, "h265"@) || occurs(c, "hevc"@) || occurs(c, "x265"@)),
        occurs(c, "av1"@) ==> encoder_codec(c) == "av1"@
            || (occurs(c, "h265"@) || occurs(c, "hevc"@) || occurs(c, "x265"@))
            || (occurs(c, "h264"@) || occurs(c, "x264"@)),
        occurs(c, "vp9"@) ==> encoder_codec(c) == "vp9"@
            || (occurs(c, "h265"@) || occurs(c, "hevc"@) || occurs(c, "x265"@))
            || (occurs(c, "h264"@) || occurs(c, "x264"@))
            || occurs(c, "av1"@),
        occurs(c, "prores"@) ==> encoder_codec(c) == "prores"@
            || (occurs(c, "h265"@) || occurs(c, "hevc"@) || occurs(c, "x265"@))
            || (occurs(c, "h264"@) || occurs(c, "x264"@))
            || occurs(c, "av1"@)
            || occurs(c, "vp9"@),
        occurs(c, "dnxhr"@) ==> encoder_codec(c) == "dnxhr"@
            || (occurs(c, "h265"@) || occurs(c, "hevc"@) || occurs(c, "x265"@))
            || (occurs(c, "h264"@) || occurs(c, "x264"@))
            || occurs(c, "av1"@)
            || occurs(c, "vp9"@)
            || occurs(c, "prores"@),
        occurs(c, "ffv1"@) ==> encoder_codec(c) == "ffv1"@
            || (occurs(c, "h265"@) || occurs(c, "hevc"@) || occurs(c, "x265"@))
            || (occurs(c, "h264"@) || occurs(c, "x264"@))
            || occurs(c, "av1"@)
            || occurs(c, "vp9"@)
            || occurs(c, "prores"@)
            || occurs(c, "dnxhr"@),
{
    reveal_strlit("h265");
    reveal_strlit("h264");
    reveal_strlit("av1");
    reveal_strlit("vp9");
    reveal_strlit("prores");
    reveal_strlit("dnxhr");
    reveal_strlit("ffv1");
    reveal_strlit("unknown");
    assert("h265"@.len() == 4);
    assert("h264"@.len() == 4);
    assert("av1"@.len() == 3);
    assert("vp9"@.len() == 3);
    assert("prores"@.len() == 6);
    assert("dnxhr"@.len() == 5);
    assert("ffv1"@.len() == 4);
    assert("unknown"@.len() == 7);
    assert("h265"@[3] != "h264"@[3]);
    assert("h265"@[0] != "ffv1"@[0]);
    assert("h264"@[0] != "ffv1"@[0]);
    assert("av1"@[0] != "vp9"@[0]);
}

/// The quality of a preset is told by what its name begins with, whatever the slider says; where that
/// tells nothing, by the slider.
pub proof fn qualities_are_told_by_the_name(name: Seq<char>, slider: int)
    ensures
        begins(name, "Very Fast"@) ==> quality_text(name, slider) == "vf"@,
        begins(name, "Fast"@) ==> quality_text(name, slider) == "f"@,
        begins(name, "Super HQ"@) ==> quality_text(name, slider) == "shq"@,
        begins(name, "HQ"@) ==> quality_text(name, slider) == "hq"@,
        begins(name, "Creator"@) ==> quality_text(name, slider) == "cr"@,
        begins(name, "Production"@) ==> quality_text(name, slider) == "prod"@,
        begins(name, "Preservation"@) ==> quality_text(name, slider) == "pres"@,
        !begins(name, "Very Fast"@) && !begins(name, "Fast"@) && !begins(name, "Super HQ"@)
            && !begins(name, "HQ"@) && !begins(name, "Creator"@) && !begins(name, "Production"@)
            && !begins(name, "Preservation"@) ==> quality_text(
            name,
            slider,
        ) == "q"@ + signed_text(slider),
{
    reveal_strlit("Very Fast");
    reveal_strlit("Fast");
    reveal_strlit("Super HQ");
    reveal_strlit("HQ");
    reveal_strlit("Creator");
    reveal_strlit("Production");
    reveal_strlit("Preservation");
    if begins(name, "Very Fast"@) {
        assert(name.subrange(0, "Very Fast"@.len() as int)[0] == name[0]);
        assert(name.subrange(0, "Very Fast"@.len() as int)[2] == name[2]);
    }
    if begins(name, "Fast"@) {
        assert(name.subrange(0, "Fast"@.len() as int)[0] == name[0]);
        assert(name.subrange(0, "Fast"@.len() as int)[2] == name[2]);
    }
    if begins(name, "Super HQ"@) {
        assert(name.subrange(0, "Super HQ"@.len() as int)[0] == name[0]);
        assert(name.subrange(0, "Super HQ"@.len() as int)[2] == name[2]);
    }
    if begins(name, "HQ"@) {
        assert(name.subrange(0, "HQ"@.len() as int)[0] == name[0]);
    }
    if begins(name, "Creator"@) {
        assert(name.subrange(0, "Creator"@.len() as int)[0] == name[0]);
        assert(name.subrange(0, "Creator"@.len() as int)[2] == name[2]);
    }
    if begins(name, "Production"@) {
        assert(name.subrange(0, "Production"@.len() as int)[0] == name[0]);
        assert(name.subrange(0, "Production"@.len() as int)[2] == name[2]);
    }
    if begins(name, "Preservation"@) {
        assert(name.subrange(0, "Preservation"@.len() as int)[0] == name[0]);
        assert(name.subrange(0, "Preservation"@.len() as int)[2] == name[2]);
    }
}

/// The device of a preset is told by marks of its own alone, and a mark is passed over only for one
/// that comes before.
pub proof fn devices_are_told_by_their_marks(c: Seq<char>)
    ensures
        device_text(c) == "apple-videotoolbox"@ ==> occurs(c, "apple videotoolbox"@),
        device_text(c) == "apple"@ ==> begins(c, "apple"@),
        device_text(c) == "amazon-fire"@ ==> begins(c, "amazon fire"@),
        device_text(c) == "android"@ ==> begins(c, "android"@),
        device_text(c) == "chromecast"@ ==> begins(c, "chromecast"@),
        device_text(c) == "playstation"@ ==> begins(c, "playstation"@),
        device_text(c) == "roku"@ ==> begins(c, "roku"@),
        device_text(c) == "xbox"@ ==> begins(c, "xbox"@),
        device_text(c) == "nvenc"@ ==> occurs(c, "nvenc"@),
        device_text(c) == "qsv"@ ==> occurs(c, "qsv"@),
        device_text(c) == "vcn"@ ==> occurs(c, "vcn"@),
        device_text(c) == "mf"@ ==> occurs(c, " mf "@),
        occurs(c, "apple videotoolbox"@) ==> device_text(c) == "apple-videotoolbox"@,
        begins(c, "apple"@) ==> device_text(c) == "apple"@
            || occurs(c, "apple videotoolbox"@),
        begins(c, "amazon fire"@) ==> device_text(c) == "amazon-fire"@
            || occurs(c, "apple videotoolbox"@)
            || begins(c, "apple"@),
        begins(c, "android"@) ==> device_text(c) == "android"@
            || occurs(c, "apple videotoolbox"@)
            || begins(c, "apple"@)
            || begins(c, "amazon fire"@),
        begins(c, "chromecast"@) ==> device_text(c) == "chromecast"@
            || occurs(c, "apple videotoolbox"@)
            || begins(c, "apple"@)
            || begins(c, "amazon fire"@)
            || begins(c, "android"@),
        begins(c, "playstation"@) ==> device_text(c) == "playstation"@
            || occurs(c, "apple videotoolbox"@)
            || begins(c, "apple"@)
            || begins(c, "amazon fire"@)
            || begins(c, "android"@)
            || begins(c, "chromecast"@),
        begins(c, "roku"@) ==> device_text(c) == "roku"@
            || occurs(c, "apple videotoolbox"@)
            || begins(c, "apple"@)
            || begins(c, "amazon fire"@)
            || begins(c, "android"@)
            || begins(c, "chromecast"@)
            || begins(c, "playstation"@),
        begins(c, "xbox"@) ==> device_text(c) == "xbox"@
            || occurs(c, "apple videotoolbox"@)
            || begins(c, "apple"@)
            || begins(c, "amazon fire"@)
            || begins(c, "android"@)
            || begins(c, "chromecast"@)
            || begins(c, "playstation"@)
            || begins(c, "roku"@),
        occurs(c, "nvenc"@) ==> device_text(c) == "nvenc"@
            || occurs(c, "apple videotoolbox"@)
            || begins(c, "apple"@)
            || begins(c, "amazon fire"@)
            || begins(c, "android"@)
            || begins(c, "chromecast"@)
            || begins(c, "playstation"@)
            || begins(c, "roku"@)
            || begins(c, "xbox"@),
        occurs(c, "qsv"@) ==> device_text(c) == "qsv"@
            || occurs(c, "apple videotoolbox"@)
            || begins(c, "apple"@)
            || begins(c, "amazon fire"@)
            || begins(c, "android"@)
            || begins(c, "chromecast"@)
            || begins(c, "playstation"@)
            || begins(c, "roku"@)
            || begins(c, "xbox"@)
            || occurs(c, "nvenc"@),
        occurs(c, "vcn"@) ==> device_text(c) == "vcn"@
            || occurs(c, "apple videotoolbox"@)
            || begins(c, "apple"@)
            || begins(c, "amazon fire"@)
            || begins(c, "android"@)
            || begins(c, "chromecast"@)
            || begins(c, "playstation"@)
            || begins(c, "roku"@)
            || begins(c, "xbox"@)
            || occurs(c, "nvenc"@)
            || occurs(c, "qsv"@),
        occurs(c, " mf "@) ==> device_text(c) == "mf"@
            || occurs(c, "apple videotoolbox"@)
            || begins(c, "apple"@)
            || begins(c, "amazon fire"@)
            || begins(c, "android"@)
            || begins(c, "chromecast"@)
            || begins(c, "playstation"@)
            || begins(c, "roku"@)
            || begins(c, "xbox"@)
            || occurs(c, "nvenc"@)
            || occurs(c, "qsv"@)
            || occurs(c, "vcn"@),
        device_text(c) == ""@ ==> !occurs(c, "apple videotoolbox"@) && !begins(c, "apple"@)
            && !begins(c, "amazon fire"@) && !begins(c, "android"@) && !begins(c, "chromecast"@)
            && !begins(c, "playstation"@) && !begins(c, "roku"@) && !begins(c, "xbox"@)
            && !occurs(c, "nvenc"@) && !occurs(c, "qsv"@) && !occurs(c, "vcn"@)
            && !occurs(c, " mf "@),
{
    reveal_strlit("apple-videotoolbox");
    reveal_strlit("apple");
    reveal_strlit("amazon-fire");
    reveal_strlit("android");
    reveal_strlit("chromecast");
    reveal_strlit("playstation");
    reveal_strlit("roku");
    reveal_strlit("xbox");
    reveal_strlit("nvenc");
    reveal_strlit("qsv");
    reveal_strlit("vcn");
    reveal_strlit("mf");
    reveal_strlit("");
    assert("apple-videotoolbox"@.len() == 18);
    assert("apple"@.len() == 5);
    assert("amazon-fire"@.len() == 11);
    assert("android"@.len() == 7);
    assert("chromecast"@.len() == 10);
    assert("playstation"@.len() == 11);
    assert("roku"@.len() == 4);
    assert("xbox"@.len() == 4);
    assert("nvenc"@.len() == 5);
    assert("qsv"@.len() == 3);
    assert("vcn"@.len() == 3);
    assert("mf"@.len() == 2);
    assert(""@.len() == 0);
    assert("apple"@[0] != "nvenc"@[0]);
    assert("amazon-fire"@[0] != "playstation"@[0]);
    assert("roku"@[0] != "xbox"@[0]);
    assert("qsv"@[0] != "vcn"@[0]);
}

/// What a preset tells is told of its own fields: the codec of the encoder, the resolution of the
/// height, the quality, the device and the slug of the name. A preset that leaves the height has no
/// resolution.
pub proof fn presets_tell_of_their_own_fields(fields: PresetFields, name: Seq<char>)
    ensures
        ({
            let m = metadata(fields, name);
            &&& m.codec == encoder_codec(lowercase(fields.encoder@))
            &&& m.preset == slug(name)
            &&& m.device == device_text(lowercase(name))
            &&& m.quality == quality_text(name, fields.slider as int)
            &&& fields.height == 0 <==> m.resolution.len() == 0
            &&& fields.height > 0 ==> m.resolution == decimal_text(fields.height as nat).push('p')
            &&& fields.height < 0 ==> m.resolution[0] == '-' && m.resolution.last() == 'p'
        }),
{
    reveal_strlit("p");
    reveal_strlit("-");
    assert(decimal_text(fields.height as nat) + "p"@ =~= decimal_text(fields.height as nat).push('p'));
    assert(signed_text(fields.height as int) + "p"@ =~= signed_text(fields.height as int).push('p'));
}

/// A preset is a line that is indented by exactly four spaces, says something and is no category;
/// its name is what it says.
pub proof fn presets_are_indented_by_four(line: Seq<char>)
    ensures
        preset_name(line) is Some <==> {
            &&& line.len() > 4
            &&& line[0] == ' ' && line[1] == ' ' && line[2] == ' ' && line[3] == ' '
            &&& line[4] != ' '
            &&& trim(line).len() > 0
            &&& trim(line).last() != '/'
        },
        preset_name(line) matches Some(name) ==> name == trim(line),
{
    reveal_strlit("    ");
    reveal_strlit("     ");
    reveal_strlit("/");
    let four = "    "@;
    let five = "     "@;
    if begins(line, four) {
        assert(line.subrange(0, 4)[0] == line[0] && line.subrange(0, 4)[1] == line[1]);
        assert(line.subrange(0, 4)[2] == line[2] && line.subrange(0, 4)[3] == line[3]);
    }
    if line.len() >= 4 && line[0] == ' ' && line[1] == ' ' && line[2] == ' ' && line[3] == ' ' {
        assert(line.subrange(0, 4) =~= four);
        if line.len() >= 5 && line[4] == ' ' {
            assert(line.subrange(0, 5) =~= five);
        }
        if begins(line, five) {
            assert(line.subrange(0, 5)[4] == line[4]);
        }
        if line.len() == 4 {
            trimming_takes_white_space_off(line);
            assert(is_blank(line));
        }
    }
    let name = trim(line);
    if name.len() > 0 {
        if name.last() == '/' {
            assert(name.subrange(name.len() - 1, name.len() as int) =~= "/"@);
        }
        if ends(name, "/"@) {
            assert(name.subrange(name.len() - 1, name.len() as int)[0] == name.last());
        }
    }
}

/// The presets of a list are those of its lines, all of them, in order.
pub proof fn every_line_is_read(a: Seq<Seq<char>>, b: Seq<Seq<char>>, line: Seq<char>)
    ensures
        preset_names(a + b) == preset_names(a) + preset_names(b),
        preset_names(seq![line]) == (match preset_name(line) {
            Some(name) => seq![name],
            None => Seq::empty(),
        }),
    decreases b.len(),
{
    reveal_with_fuel(preset_names, 2);
    assert(preset_names(seq![line]) =~= match preset_name(line) {
        Some(name) => seq![name],
        None => Seq::empty(),
    });
    if b.len() == 0 {
        assert(a + b =~= a);
        assert(preset_names(a) + preset_names(b) =~= preset_names(a));
    } else {
        every_line_is_read(a, b.drop_last(), line);
        assert((a + b).drop_last() =~= a + b.drop_last());
        assert((a + b).last() == b.last());
        assert(preset_names(a + b) =~= preset_names(a) + preset_names(b));
    }
}

/// A slug keeps every letter and digit of the name, in lower case and in order, and puts hyphens
/// between them only where the name has something else there.
pub proof fn slugs_keep_letters_and_digits(name: Seq<char>)
    ensures
        slug(name).filter(|c: char| is_alphanumeric(c)) == lowercase(name).filter(
            |c: char| is_alphanumeric(c),
        ),
        (forall|i: int| 0 <= i < lowercase(name).len() ==> is_alphanumeric(
            #[trigger] lowercase(name)[i],
        )) ==> slug(name) == lowercase(name),
{
    reveal(Seq::filter);
    let lower = lowercase(name);
    let h = hyphenated(lower);
    lemma_letters_stay(lower);
    assert(!is_alphanumeric('-'));
    if h.len() > 0 && h.last() == '-' {
        assert(h =~= h.drop_last().push('-'));
    }
    if forall|i: int| 0 <= i < lower.len() ==> is_alphanumeric(#[trigger] lower[i]) {
        lemma_all_letters(lower);
        if h.len() > 0 {
            assert(is_alphanumeric(lower[lower.len() - 1]));
        }
    }
}

/// Joining by hyphens keeps letters and digits.
proof fn lemma_letters_stay(lower: Seq<char>)
    ensures
        hyphenated(lower).filter(|c: char| is_alphanumeric(c)) == lower.filter(
            |c: char| is_alphanumeric(c),
        ),
    decreases lower.len(),
{
    reveal(Seq::filter);
    let keep = |c: char| is_alphanumeric(c);
    if lower.len() > 0 {
        lemma_letters_stay(lower.drop_last());
        let before = hyphenated(lower.drop_last());
        let c = lower.last();
        assert(!is_alphanumeric('-'));
        assert(before.push(c).drop_last() =~= before);
        assert(before.push('-').drop_last() =~= before);
    }
}

/// Letters and digits alone need no hyphens.
proof fn lemma_all_letters(lower: Seq<char>)
    requires
        forall|i: int| 0 <= i < lower.len() ==> is_alphanumeric(#[trigger] lower[i]),
    ensures
        hyphenated(lower) == lower,
    decreases lower.len(),
{
    if lower.len() > 0 {
        let fewer = lower.drop_last();
        assert forall|i: int| 0 <= i < fewer.len() implies is_alphanumeric(#[trigger] fewer[i]) by {
            assert(fewer[i] == lower[i]);
        }
        lemma_all_letters(fewer);
        assert(is_alphanumeric(lower[lower.len() - 1]));
        assert(fewer.push(lower.last()) =~= lower);
    } else {
        assert(hyphenated(lower) =~= lower);
    }
}

/// The encoder is where a search that succeeded said so in its first line, white space aside.
pub proof fn encoders_are_located_by_the_first_line(success: bool, stdout: Seq<char>)
    ensures
        located(success, stdout) matches Some(path) ==> success && lines(stdout).len() > 0 && path
            == trim(lines(stdout)[0]) && path.len() > 0,
        success && lines(stdout).len() > 0 && !is_blank(lines(stdout)[0]) ==> located(
            success,
            stdout,
        ) is Some,
{
    if lines(stdout).len() > 0 {
        trimming_takes_white_space_off(lines(stdout)[0]);
    }
}

/// Why an export tells nothing is said in the encoder's words, or by what is wrong with what it
/// printed; an export that succeeded and reads well tells something.
pub proof fn failed_exports_say_why(stdout: Seq<char>, stderr: Seq<char>, fault: Seq<char>)
    ensures
        export_error(true, stdout, stderr, None) is None,
        export_error(true, stdout, stderr, Some(fault)) matches Some(words) && occurs(words, fault),
        export_error(false, stdout, stderr, Some(fault)) == export_error(
            false,
            stdout,
            stderr,
            None,
        ),
        export_error(false, stdout, stderr, None) matches Some(words) && words.skip(
            "HandBrakeCLI --preset-export failed: "@.len() as int,
        ) == truncated(trim(stderr), 200),
{
    let words = export_error(true, stdout, stderr, Some(fault))->0;
    let n = "Failed to parse preset JSON: "@.len() as int;
    assert(words.subrange(n, n + fault.len()) =~= fault);
    assert(occurs_at(words, fault, n));
    let other = export_error(false, stdout, stderr, None)->0;
    assert(other.skip("HandBrakeCLI --preset-export failed: "@.len() as int) =~= truncated(
        trim(stderr),
        200,
    ));
}


/// A text that is cut to a number of bytes is its longest beginning that takes no more.
pub proof fn cut_texts_are_the_longest_that_fit(s: Seq<char>, max: int)
    requires
        max >= 0,
    ensures
        ({
            let t = truncated(s, max);
            &&& t.len() <= s.len()
            &&& t == s.take(t.len() as int)
            &&& utf8_len(t) <= max
            &&& t.len() < s.len() ==> utf8_len(s.take((t.len() + 1) as int)) > max
            &&& utf8_len(s) <= max ==> t == s
        }),
{
    lemma_fills(s, max, 0);
    let k = choose|k: int| fills(s, max, k);
    assert(fills(s, max, k));
    if utf8_len(s) <= max && k < s.len() {
        lemma_utf8_len_grows(s, k + 1, s.len() as int);
        assert(s.take(s.len() as int) =~= s);
    }
    if k == s.len() {
        assert(s.take(k) =~= s);
    }
}

/// From a beginning that fits on, there is a longest one.
proof fn lemma_fills(s: Seq<char>, max: int, k: int)
    requires
        0 <= k <= s.len(),
        utf8_len(s.take(k)) <= max,
    ensures
        exists|j: int| fills(s, max, j),
    decreases s.len() - k,
{
    if k == s.len() || utf8_len(s.take(k + 1)) > max {
        assert(fills(s, max, k));
    } else {
        lemma_fills(s, max, k + 1);
    }
}


/// The fields of an export are those of its first preset: the encoder, the height of the picture and
/// the quality, each from its own place; an export without a list of presets has none.
pub proof fn exports_tell_of_their_first_preset(export: Seq<char>, fields: PresetFields)
    requires
        fields_of(export, fields),
    ensures
        list_at(export, "/PresetList"@) ==> {
            &&& fields.encoder@ == string_at(export, "/PresetList/0/VideoEncoder"@)
            &&& fields.height == integer_at(export, "/PresetList/0/PictureHeight"@)
            &&& json_at(export, "/PresetList/0/VideoQualitySlider"@) matches Some(v)
                ==> fields.slider == rounded_number(v)
            &&& json_at(export, "/PresetList/0/VideoQualitySlider"@) is None ==> fields.slider == 0
        },
        !list_at(export, "/PresetList"@) ==> fields.encoder@.len() == 0 && fields.height == 0
            && fields.slider == 0,
{
}


/// A placeholder does not stand where no brace opens it.
proof fn lemma_no_brace(s: Seq<char>, var: Seq<char>)
    requires
        var.len() > 0,
        var[0] == '{',
        !s.contains('{'),
    ensures
        !occurs(s, var),
{
    if occurs(s, var) {
        let j = choose|j: int| occurs_at(s, var, j);
        assert(s.subrange(j, j + var.len())[0] == s[j]);
        assert(s.contains(s[j]));
    }
}

/// A placeholder between two texts gives way to its value where no other could be taken for it.
proof fn lemma_resolve_between(p: Seq<char>, var: Seq<char>, q: Seq<char>, value: Seq<char>)
    requires
        var.len() >= 2,
        var[0] == '{',
        forall|k: int| 0 < k < var.len() ==> var[k] != '{',
        forall|j: int|
            0 <= j < p.len() && #[trigger] p[j] == '{' ==> j + 1 < p.len() && p[j + 1] != var[1],
        !q.contains('{'),
        value.len() > 0,
    ensures
        resolved_one(p + var + q, var, value) == p + value + q,
{
    let s = p + var + q;
    let n = p.len() as int;
    assert(s.subrange(n, n + var.len()) =~= var);
    assert forall|j: int| occurs_at(s, var, j) implies j == n by {
        let w = s.subrange(j, j + var.len());
        assert(w[0] == s[j] && w[1] == s[j + 1]);
        if j < n {
            assert(p[j] == '{');
            assert(s[j + 1] == p[j + 1]);
        } else if n < j < n + var.len() {
            assert(s[j] == var[j - n]);
        } else if j >= n + var.len() {
            assert(s[j] == q[j - n - var.len()]);
            assert(q.contains(q[j - n - var.len()]));
        }
    }
    placeholders_give_way_to_their_value(s, var, value, n);
    assert(s.take(n) + value + s.skip(n + var.len()) =~= p + value + q);
}

/// Two texts without a brace have none together.
proof fn lemma_no_brace_in_sum(a: Seq<char>, b: Seq<char>)
    requires
        !a.contains('{'),
        !b.contains('{'),
    ensures
        !(a + b).contains('{'),
{
    let s = a + b;
    if s.contains('{') {
        let j = choose|j: int| 0 <= j < s.len() && s[j] == '{';
        if j < a.len() {
            assert(a.contains(a[j]));
        } else {
            assert(b.contains(b[j - a.len()]));
        }
    }
}

/// Placeholders are resolved apart: in a template with two of them each gives way to its own value,
/// and the text around them stays.
pub proof fn placeholders_are_resolved_apart(
    a: Seq<char>,
    b: Seq<char>,
    c: Seq<char>,
    m: MetadataView,
)
    requires
        !a.contains('{') && !b.contains('{') && !c.contains('{'),
        !m.codec.contains('{') && !m.resolution.contains('{'),
        m.codec.len() > 0 && m.resolution.len() > 0,
    ensures
        resolved(a + "{resolution}"@ + b + "{codec}"@ + c, m) == a + m.resolution + b + m.codec + c,
{
    reveal_strlit("{codec}");
    reveal_strlit("{resolution}");
    let x = "{resolution}"@;
    let y = "{codec}"@;
    let p = a + x + b;
    assert forall|j: int| 0 <= j < p.len() && #[trigger] p[j] == '{' implies j + 1 < p.len()
        && p[j + 1]
        != y[1] by {
        if j < a.len() {
            assert(a.contains(a[j]));
        } else if j < a.len() + x.len() {
            assert(p[j] == x[j - a.len()]);
            assert(j == a.len());
            assert(p[j + 1] == x[1]);
        } else {
            assert(b.contains(b[j - a.len() - x.len()]));
        }
    }
    lemma_resolve_between(p, y, c, m.codec);
    let q = b + m.codec + c;
    lemma_no_brace_in_sum(b, m.codec);
    lemma_no_brace_in_sum(b + m.codec, c);
    assert forall|j: int| 0 <= j < a.len() && #[trigger] a[j] == '{' implies j + 1 < a.len()
        && a[j + 1]
        != x[1] by {
        assert(a.contains(a[j]));
    }
    lemma_resolve_between(a, x, q, m.resolution);
    assert(p + m.codec + c =~= a + x + q);
    let s = a + m.resolution + q;
    assert(s =~= a + m.resolution + b + m.codec + c);
    lemma_no_brace_in_sum(a, m.resolution);
    lemma_no_brace_in_sum(a + m.resolution, q);
    lemma_placeholders();
    lemma_no_brace(s, "{quality}"@);
    lemma_no_brace(s, "{preset}"@);
    lemma_no_brace(s, "{device}"@);
    lemma_none_resolved(s, m);
}

} // verus!
