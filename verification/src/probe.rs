//! What the encoder's scan of a source file tells.

use crate::handbrake::{has_list_at, list_at};
use crate::json::{find_json, integer_at, json_at, json_integer_at, json_string_at, string_at};
use crate::media_skip::SourceMedia;
use crate::text::{ascii_lower, ascii_lowered, chars_of, find_from, holds, index_of};
use crate::text::{lemma_first_unique, lower_ascii_letters, lowered, unicode_lowercase};
use crate::text::{occurs, occurs_at, slice_of, text_of, trim, trimmed};
use vstd::prelude::*;
use vstd::string::*;
use vstd::utf8::is_ascii_chars;

verus! {

/// How many milliseconds a scan may take.
pub const PROBE_TIMEOUT_MILLIS: u64 = 30000;

/// How many milliseconds pass between two looks at a process.
pub const POLL_INTERVAL_MILLIS: u64 = 100;

/// What a look at a process that is waited for leads to.
#[derive(Debug, Clone, Copy, PartialEq, Eq, Structural)]
pub enum Poll {
    /// It ended.
    Ended,
    /// It took too long: kill it.
    Kill,
    /// Look again later.
    Wait,
    /// It cannot be looked at.
    Lost,
}

/// What a look at a process leads to. `exited` is whether it ended, if that could be told.
pub fn poll(exited: Option<bool>, elapsed_millis: u64, timeout_millis: u64) -> (r: Poll)
    ensures
        r == (match exited {
            Some(true) => Poll::Ended,
            Some(false) => if elapsed_millis >= timeout_millis {
                Poll::Kill
            } else {
                Poll::Wait
            },
            None => Poll::Lost,
        }),
{
    match exited {
        Some(true) => Poll::Ended,
        Some(false) => if elapsed_millis >= timeout_millis {
            Poll::Kill
        } else {
            Poll::Wait
        },
        None => Poll::Lost,
    }
}

/// The codec that the name of a decoder, in lower case, stands for.
pub open spec fn decoder_codec(c: Seq<char>) -> Seq<char> {
    if occurs(c, "hevc"@) || occurs(c, "h265"@) || occurs(c, "x265"@) {
        "h265"@
    } else if occurs(c, "av1"@) || occurs(c, "dav1d"@) || occurs(c, "aom"@) {
        "av1"@
    } else if occurs(c, "h264"@) || occurs(c, "avc"@) || occurs(c, "x264"@) {
        "h264"@
    } else if occurs(c, "vp9"@) {
        "vp9"@
    } else if occurs(c, "prores"@) {
        "prores"@
    } else if occurs(c, "dnxh"@) {
        "dnxhr"@
    } else if occurs(c, "ffv1"@) {
        "ffv1"@
    } else if occurs(c, "mpeg2"@) || occurs(c, "mpeg-2"@) {
        "mpeg2"@
    } else if occurs(c, "mpeg4"@) || occurs(c, "mpeg-4"@) || occurs(c, "divx"@) || occurs(
        c,
        "xvid"@,
    ) {
        "mpeg4"@
    } else if occurs(c, "vc1"@) || occurs(c, "vc-1"@) || occurs(c, "wmv"@) {
        "vc1"@
    } else {
        "unknown"@
    }
}

/// The codec that the name of a decoder stands for, however its letters are written. The ASCII
/// letters are put in lower case first, then, if there are others, the whole name.
pub open spec fn codec_of(name: Seq<char>) -> Seq<char> {
    decoder_codec(
        if is_ascii_chars(name) {
            ascii_lowered(name)
        } else {
            unicode_lowercase(ascii_lowered(name))
        },
    )
}

/// Lowering ASCII letters keeps a text within ASCII, or beyond it, and is done once and for all.
proof fn lemma_ascii_lowered(s: Seq<char>)
    ensures
        is_ascii_chars(ascii_lowered(s)) == is_ascii_chars(s),
        ascii_lowered(ascii_lowered(s)) == ascii_lowered(s),
{
    let low = ascii_lowered(s);
    assert forall|i: int| 0 <= i < s.len() implies low[i] == ascii_lower(#[trigger] s[i]) by {}
    if is_ascii_chars(low) {
        assert forall|i: int| 0 <= i < s.len() implies '\0' <= #[trigger] s[i] <= '\u{7f}' by {
            assert('\0' <= low[i] <= '\u{7f}');
        }
    }
    assert(ascii_lowered(low) =~= low);
}

/// The codec that the name of a decoder stands for.
pub fn normalize_source_codec(handbrake_codec: &str) -> (r: String)
    ensures
        r@ == codec_of(handbrake_codec@),
{
    proof {
        lemma_ascii_lowered(handbrake_codec@);
    }
    let c: String = lowered(&lower_ascii_letters(handbrake_codec));
    let codec: &'static str = if holds(&c, "hevc") || holds(&c, "h265") || holds(&c, "x265") {
        "h265"
    } else if holds(&c, "av1") || holds(&c, "dav1d") || holds(&c, "aom") {
        "av1"
    } else if holds(&c, "h264") || holds(&c, "avc") || holds(&c, "x264") {
        "h264"
    } else if holds(&c, "vp9") {
        "vp9"
    } else if holds(&c, "prores") {
        "prores"
    } else if holds(&c, "dnxh") {
        "dnxhr"
    } else if holds(&c, "ffv1") {
        "ffv1"
    } else if holds(&c, "mpeg2") || holds(&c, "mpeg-2") {
        "mpeg2"
    } else if holds(&c, "mpeg4") || holds(&c, "mpeg-4") || holds(&c, "divx") || holds(&c, "xvid") {
        "mpeg4"
    } else if holds(&c, "vc1") || holds(&c, "vc-1") || holds(&c, "wmv") {
        "vc1"
    } else {
        "unknown"
    };
    codec.to_owned()
}

/// What stands before the titles in the output of a scan.
pub const TITLE_MARK: &'static str = "JSON Title Set: ";

/// The JSON text in the output of a scan.
pub open spec fn title_json(stdout: Seq<char>) -> Option<Seq<char>> {
    if occurs(stdout, TITLE_MARK@) {
        Some(trim(stdout.skip(index_of(stdout, TITLE_MARK@) + TITLE_MARK@.len())))
    } else {
        None
    }
}

/// The JSON text in the output of a scan.
fn find_title_json(stdout: &str) -> (r: Option<String>)
    ensures
        crate::paths::opt_view(r) == title_json(stdout@),
{
    let cs: Vec<char> = chars_of(stdout);
    let mark: Vec<char> = chars_of(TITLE_MARK);
    match find_from(&cs, &mark, 0) {
        Some(i) => {
            proof {
                lemma_first_unique(stdout@, TITLE_MARK@, i as int);
                assert(occurs_at(cs@, mark@, i as int));
                assert(i + mark@.len() <= cs@.len());
                assert(mark@.len() == mark.len() && cs@.len() == cs.len());
            }
            let rest: String = text_of(&slice_of(&cs, i + mark.len(), cs.len()));
            assert(rest@ =~= stdout@.skip(i + mark@.len()));
            Some(trimmed(&rest))
        },
        None => {
            assert forall|j: int| !occurs_at(stdout@, TITLE_MARK@, j) by {
                if occurs_at(stdout@, TITLE_MARK@, j) {
                    assert(0 <= j);
                }
            }
            None
        },
    }
}

/// Whether a JSON text lists a first title.
pub open spec fn has_title(json: Seq<char>) -> bool {
    list_at(json, "/TitleList"@) && json_at(json, "/TitleList/0"@) is Some
}

/// Whether media is what the first title of a JSON text tells.
pub open spec fn first_title(json: Seq<char>, media: SourceMedia) -> bool {
    &&& media.codec@ == codec_of(string_at(json, "/TitleList/0/VideoCodec"@))
    &&& media.height == integer_at(json, "/TitleList/0/Geometry/Height"@)
}

/// What a title tells, by what is written of its codec and its height.
pub fn title_media(codec: &str, height: i64) -> (r: SourceMedia)
    ensures
        r.codec@ == codec_of(codec@),
        r.height == height,
{
    SourceMedia { codec: normalize_source_codec(codec), height }
}

/// What the output of a scan tells; nothing if it lists no title.
pub fn parse_scan_media(stdout: &str) -> (r: Option<SourceMedia>)
    ensures
        match r {
            Some(media) => title_json(stdout@) matches Some(json) && has_title(json) && first_title(
                json,
                media,
            ),
            None => title_json(stdout@) is None || !has_title(title_json(stdout@)->0),
        },
{
    let json: String = match find_title_json(stdout) {
        Some(j) => j,
        None => {
            return None;
        },
    };
    if !has_list_at(&json, "/TitleList") {
        return None;
    }
    match find_json(&json, "/TitleList/0") {
        Some(_) => {},
        None => {
            return None;
        },
    }
    let height: i64 = json_integer_at(&json, "/TitleList/0/Geometry/Height");
    let raw: String = json_string_at(&json, "/TitleList/0/VideoCodec");
    Some(title_media(&raw, height))
}

/// What a scan tells: nothing if it did not end or its output was lost.
pub fn scan_result(ended: bool, stdout: Option<&str>) -> (r: Option<SourceMedia>)
    ensures
        r is Some ==> ended && stdout is Some,
        ended ==> (stdout matches Some(out) ==> match r {
            Some(media) => title_json(out@) matches Some(json) && has_title(json) && first_title(
                json,
                media,
            ),
            None => title_json(out@) is None || !has_title(title_json(out@)->0),
        }),
{
    match stdout {
        Some(out) => if ended {
            parse_scan_media(out)
        } else {
            None
        },
        None => None,
    }
}

/// The arguments that the encoder is started with to scan a file.
pub fn scan_args(file: &str) -> (r: Vec<String>)
    ensures
        r.deep_view() == seq!["--scan"@, "--json"@, "-i"@, file@],
{
    let r: Vec<String> = vec![
        "--scan".to_owned(),
        "--json".to_owned(),
        "-i".to_owned(),
        file.to_owned(),
    ];
    assert(r.deep_view() =~= seq!["--scan"@, "--json"@, "-i"@, file@]);
    r
}

/// A text does not occur in one that lacks one of its characters.
proof fn lemma_foreign(hay: Seq<char>, needle: Seq<char>, k: int)
    requires
        0 <= k < needle.len(),
        forall|j: int| 0 <= j < hay.len() ==> #[trigger] hay[j] != needle[k],
    ensures
        !occurs(hay, needle),
{
    if occurs(hay, needle) {
        let i = choose|i: int| occurs_at(hay, needle, i);
        assert(hay.subrange(i, i + needle.len())[k] == hay[i + k]);
    }
}

/// Whether a text is the name of a codec that sources can have.
pub open spec fn is_codec(c: Seq<char>) -> bool {
    ||| c == "h265"@
    ||| c == "av1"@
    ||| c == "h264"@
    ||| c == "vp9"@
    ||| c == "prores"@
    ||| c == "dnxhr"@
    ||| c == "ffv1"@
    ||| c == "mpeg2"@
    ||| c == "mpeg4"@
    ||| c == "vc1"@
    ||| c == "unknown"@
}

/// The name of a codec stands for that codec.
proof fn lemma_codec_stands_for_itself(c: Seq<char>)
    requires
        is_codec(c),
    ensures
        decoder_codec(c) == c,
        ascii_lowered(c) == c,
        is_ascii_chars(c),
{
    reveal_strlit("hevc");
    reveal_strlit("h265");
    reveal_strlit("x265");
    reveal_strlit("av1");
    reveal_strlit("dav1d");
    reveal_strlit("aom");
    reveal_strlit("h264");
    reveal_strlit("avc");
    reveal_strlit("x264");
    reveal_strlit("vp9");
    reveal_strlit("prores");
    reveal_strlit("dnxh");
    reveal_strlit("ffv1");
    reveal_strlit("mpeg2");
    reveal_strlit("mpeg-2");
    reveal_strlit("mpeg4");
    reveal_strlit("mpeg-4");
    reveal_strlit("divx");
    reveal_strlit("xvid");
    reveal_strlit("vc1");
    reveal_strlit("vc-1");
    reveal_strlit("wmv");
    reveal_strlit("dnxhr");
    reveal_strlit("unknown");
    assert(ascii_lowered(c) =~= c);
    if c == "h265"@ {
        assert(c.subrange(0, "h265"@.len() as int) =~= "h265"@);
        assert(occurs_at(c, "h265"@, 0));
    }
    if c == "av1"@ {
        lemma_foreign(c, "hevc"@, 0);
        lemma_foreign(c, "h265"@, 0);
        lemma_foreign(c, "x265"@, 0);
        assert(c.subrange(0, "av1"@.len() as int) =~= "av1"@);
        assert(occurs_at(c, "av1"@, 0));
    }
    if c == "h264"@ {
        lemma_foreign(c, "hevc"@, 1);
        lemma_foreign(c, "h265"@, 3);
        lemma_foreign(c, "x265"@, 0);
        lemma_foreign(c, "av1"@, 0);
        lemma_foreign(c, "dav1d"@, 0);
        lemma_foreign(c, "aom"@, 0);
        assert(c.subrange(0, "h264"@.len() as int) =~= "h264"@);
        assert(occurs_at(c, "h264"@, 0));
    }
    if c == "vp9"@ {
        lemma_foreign(c, "hevc"@, 0);
        lemma_foreign(c, "h265"@, 0);
        lemma_foreign(c, "x265"@, 0);
        lemma_foreign(c, "av1"@, 0);
        lemma_foreign(c, "dav1d"@, 0);
        lemma_foreign(c, "aom"@, 0);
        lemma_foreign(c, "h264"@, 0);
        lemma_foreign(c, "avc"@, 0);
        lemma_foreign(c, "x264"@, 0);
        assert(c.subrange(0, "vp9"@.len() as int) =~= "vp9"@);
        assert(occurs_at(c, "vp9"@, 0));
    }
    if c == "prores"@ {
        lemma_foreign(c, "hevc"@, 0);
        lemma_foreign(c, "h265"@, 0);
        lemma_foreign(c, "x265"@, 0);
        lemma_foreign(c, "av1"@, 0);
        lemma_foreign(c, "dav1d"@, 0);
        lemma_foreign(c, "aom"@, 0);
        lemma_foreign(c, "h264"@, 0);
        lemma_foreign(c, "avc"@, 0);
        lemma_foreign(c, "x264"@, 0);
        lemma_foreign(c, "vp9"@, 0);
        assert(c.subrange(0, "prores"@.len() as int) =~= "prores"@);
        assert(occurs_at(c, "prores"@, 0));
    }
    if c == "dnxhr"@ {
        lemma_foreign(c, "hevc"@, 1);
        lemma_foreign(c, "h265"@, 1);
        lemma_foreign(c, "x265"@, 1);
        lemma_foreign(c, "av1"@, 0);
        lemma_foreign(c, "dav1d"@, 1);
        lemma_foreign(c, "aom"@, 0);
        lemma_foreign(c, "h264"@, 1);
        lemma_foreign(c, "avc"@, 0);
        lemma_foreign(c, "x264"@, 1);
        lemma_foreign(c, "vp9"@, 0);
        lemma_foreign(c, "prores"@, 0);
        assert(c.subrange(0, "dnxh"@.len() as int) =~= "dnxh"@);
        assert(occurs_at(c, "dnxh"@, 0));
    }
    if c == "ffv1"@ {
        lemma_foreign(c, "hevc"@, 0);
        lemma_foreign(c, "h265"@, 0);
        lemma_foreign(c, "x265"@, 0);
        lemma_foreign(c, "av1"@, 0);
        lemma_foreign(c, "dav1d"@, 0);
        lemma_foreign(c, "aom"@, 0);
        lemma_foreign(c, "h264"@, 0);
        lemma_foreign(c, "avc"@, 0);
        lemma_foreign(c, "x264"@, 0);
        lemma_foreign(c, "vp9"@, 1);
        lemma_foreign(c, "prores"@, 0);
        lemma_foreign(c, "dnxh"@, 0);
        assert(c.subrange(0, "ffv1"@.len() as int) =~= "ffv1"@);
        assert(occurs_at(c, "ffv1"@, 0));
    }
    if c == "mpeg2"@ {
        lemma_foreign(c, "hevc"@, 0);
        lemma_foreign(c, "h265"@, 0);
        lemma_foreign(c, "x265"@, 0);
        lemma_foreign(c, "av1"@, 0);
        lemma_foreign(c, "dav1d"@, 0);
        lemma_foreign(c, "aom"@, 0);
        lemma_foreign(c, "h264"@, 0);
        lemma_foreign(c, "avc"@, 0);
        lemma_foreign(c, "x264"@, 0);
        lemma_foreign(c, "vp9"@, 0);
        lemma_foreign(c, "prores"@, 1);
        lemma_foreign(c, "dnxh"@, 0);
        lemma_foreign(c, "ffv1"@, 0);
        assert(c.subrange(0, "mpeg2"@.len() as int) =~= "mpeg2"@);
        assert(occurs_at(c, "mpeg2"@, 0));
    }
    if c == "mpeg4"@ {
        lemma_foreign(c, "hevc"@, 0);
        lemma_foreign(c, "h265"@, 0);
        lemma_foreign(c, "x265"@, 0);
        lemma_foreign(c, "av1"@, 0);
        lemma_foreign(c, "dav1d"@, 0);
        lemma_foreign(c, "aom"@, 0);
        lemma_foreign(c, "h264"@, 0);
        lemma_foreign(c, "avc"@, 0);
        lemma_foreign(c, "x264"@, 0);
        lemma_foreign(c, "vp9"@, 0);
        lemma_foreign(c, "prores"@, 1);
        lemma_foreign(c, "dnxh"@, 0);
        lemma_foreign(c, "ffv1"@, 0);
        lemma_foreign(c, "mpeg2"@, 4);
        lemma_foreign(c, "mpeg-2"@, 4);
        assert(c.subrange(0, "mpeg4"@.len() as int) =~= "mpeg4"@);
        assert(occurs_at(c, "mpeg4"@, 0));
    }
    if c == "vc1"@ {
        lemma_foreign(c, "hevc"@, 0);
        lemma_foreign(c, "h265"@, 0);
        lemma_foreign(c, "x265"@, 0);
        lemma_foreign(c, "av1"@, 0);
        lemma_foreign(c, "dav1d"@, 0);
        lemma_foreign(c, "aom"@, 0);
        lemma_foreign(c, "h264"@, 0);
        lemma_foreign(c, "avc"@, 0);
        lemma_foreign(c, "x264"@, 0);
        lemma_foreign(c, "vp9"@, 1);
        lemma_foreign(c, "prores"@, 0);
        lemma_foreign(c, "dnxh"@, 0);
        lemma_foreign(c, "ffv1"@, 0);
        lemma_foreign(c, "mpeg2"@, 0);
        lemma_foreign(c, "mpeg-2"@, 0);
        lemma_foreign(c, "mpeg4"@, 0);
        lemma_foreign(c, "mpeg-4"@, 0);
        lemma_foreign(c, "divx"@, 0);
        lemma_foreign(c, "xvid"@, 0);
        assert(c.subrange(0, "vc1"@.len() as int) =~= "vc1"@);
        assert(occurs_at(c, "vc1"@, 0));
    }
    if c == "unknown"@ {
        lemma_foreign(c, "hevc"@, 0);
        lemma_foreign(c, "h265"@, 0);
        lemma_foreign(c, "x265"@, 0);
        lemma_foreign(c, "av1"@, 0);
        lemma_foreign(c, "dav1d"@, 0);
        lemma_foreign(c, "aom"@, 0);
        lemma_foreign(c, "h264"@, 0);
        lemma_foreign(c, "avc"@, 0);
        lemma_foreign(c, "x264"@, 0);
        lemma_foreign(c, "vp9"@, 0);
        lemma_foreign(c, "prores"@, 0);
        lemma_foreign(c, "dnxh"@, 0);
        lemma_foreign(c, "ffv1"@, 0);
        lemma_foreign(c, "mpeg2"@, 0);
        lemma_foreign(c, "mpeg-2"@, 0);
        lemma_foreign(c, "mpeg4"@, 0);
        lemma_foreign(c, "mpeg-4"@, 0);
        lemma_foreign(c, "divx"@, 0);
        lemma_foreign(c, "xvid"@, 0);
        lemma_foreign(c, "vc1"@, 0);
        lemma_foreign(c, "vc-1"@, 0);
        lemma_foreign(c, "wmv"@, 1);
    }
}

/// Every name of a decoder stands for one of the codecs, and the name of a codec for itself.
pub proof fn codecs_are_their_own_names(name: Seq<char>)
    ensures
        is_codec(codec_of(name)),
        codec_of(codec_of(name)) == codec_of(name),
{
    lemma_codec_stands_for_itself(codec_of(name));
}

/// An ASCII letter in upper case; any other character as it is.
pub open spec fn ascii_upper(c: char) -> char {
    if 'a' <= c <= 'z' {
        ((c as u32) - 32) as char
    } else {
        c
    }
}

/// Whether its ASCII letters are in upper or lower case, a name stands for the same codec.
pub proof fn case_does_not_change_the_codec(name: Seq<char>, other: Seq<char>)
    requires
        ascii_lowered(name) == ascii_lowered(other),
    ensures
        codec_of(name) == codec_of(other),
        codec_of(name.map_values(|c: char| ascii_upper(c))) == codec_of(name),
        codec_of(ascii_lowered(name)) == codec_of(name),
{
    let upper = name.map_values(|c: char| ascii_upper(c));
    assert(ascii_lowered(upper) =~= ascii_lowered(name));
    lemma_ascii_lowered(name);
    lemma_ascii_lowered(other);
    lemma_ascii_lowered(upper);
}

/// Whether a text holds one of some marks.
pub open spec fn holds_any(c: Seq<char>, marks: Seq<Seq<char>>) -> bool {
    exists|i: int| 0 <= i < marks.len() && occurs(c, #[trigger] marks[i])
}

/// Holding one of one mark is holding it.
proof fn lemma_holds_any1(c: Seq<char>, m0: Seq<char>)
    ensures
        holds_any(c, seq![m0]) <==> occurs(c, m0),
{
    let marks = seq![m0];
    assert(marks[0] == m0);
}

/// Holding one of two marks is holding it.
proof fn lemma_holds_any2(c: Seq<char>, m0: Seq<char>, m1: Seq<char>)
    ensures
        holds_any(c, seq![m0, m1]) <==> occurs(c, m0) || occurs(c, m1),
{
    let marks = seq![m0, m1];
    assert(marks[0] == m0);
    assert(marks[1] == m1);
}

/// Holding one of three marks is holding it.
proof fn lemma_holds_any3(c: Seq<char>, m0: Seq<char>, m1: Seq<char>, m2: Seq<char>)
    ensures
        holds_any(c, seq![m0, m1, m2]) <==> occurs(c, m0) || occurs(c, m1) || occurs(c, m2),
{
    let marks = seq![m0, m1, m2];
    assert(marks[0] == m0);
    assert(marks[1] == m1);
    assert(marks[2] == m2);
}

/// Holding one of four marks is holding it.
proof fn lemma_holds_any4(c: Seq<char>, m0: Seq<char>, m1: Seq<char>, m2: Seq<char>, m3: Seq<char>)
    ensures
        holds_any(c, seq![m0, m1, m2, m3]) <==> occurs(c, m0) || occurs(c, m1) || occurs(c, m2)
            || occurs(c, m3),
{
    let marks = seq![m0, m1, m2, m3];
    assert(marks[0] == m0);
    assert(marks[1] == m1);
    assert(marks[2] == m2);
    assert(marks[3] == m3);
}

/// A codec is told from a name only by its own marks: no name without a mark of a codec stands for
/// that codec, and one without any mark for none.
pub proof fn codecs_are_told_by_their_own_marks(c: Seq<char>)
    ensures
        decoder_codec(c) == "h265"@ ==> holds_any(c, seq!["hevc"@, "h265"@, "x265"@]),
        decoder_codec(c) == "av1"@ ==> holds_any(c, seq!["av1"@, "dav1d"@, "aom"@]),
        decoder_codec(c) == "h264"@ ==> holds_any(c, seq!["h264"@, "avc"@, "x264"@]),
        decoder_codec(c) == "vp9"@ ==> holds_any(c, seq!["vp9"@]),
        decoder_codec(c) == "prores"@ ==> holds_any(c, seq!["prores"@]),
        decoder_codec(c) == "dnxhr"@ ==> holds_any(c, seq!["dnxh"@]),
        decoder_codec(c) == "ffv1"@ ==> holds_any(c, seq!["ffv1"@]),
        decoder_codec(c) == "mpeg2"@ ==> holds_any(c, seq!["mpeg2"@, "mpeg-2"@]),
        decoder_codec(c) == "mpeg4"@ ==> holds_any(c, seq!["mpeg4"@, "mpeg-4"@, "divx"@, "xvid"@]),
        decoder_codec(c) == "vc1"@ ==> holds_any(c, seq!["vc1"@, "vc-1"@, "wmv"@]),
        decoder_codec(c) == "unknown"@ ==> !holds_any(c, seq!["hevc"@, "h265"@, "x265"@])
            && !holds_any(c, seq!["av1"@, "dav1d"@, "aom"@])
            && !holds_any(c, seq!["h264"@, "avc"@, "x264"@]) && !holds_any(c, seq!["vp9"@])
            && !holds_any(c, seq!["prores"@]) && !holds_any(c, seq!["dnxh"@])
            && !holds_any(c, seq!["ffv1"@]) && !holds_any(c, seq!["mpeg2"@, "mpeg-2"@])
            && !holds_any(c, seq!["mpeg4"@, "mpeg-4"@, "divx"@, "xvid"@])
            && !holds_any(c, seq!["vc1"@, "vc-1"@, "wmv"@]),
{
    reveal_strlit("h265");
    reveal_strlit("av1");
    reveal_strlit("h264");
    reveal_strlit("vp9");
    reveal_strlit("prores");
    reveal_strlit("dnxhr");
    reveal_strlit("ffv1");
    reveal_strlit("mpeg2");
    reveal_strlit("mpeg4");
    reveal_strlit("vc1");
    reveal_strlit("unknown");
    assert("h265"@.len() == 4);
    assert("av1"@.len() == 3);
    assert("h264"@.len() == 4);
    assert("vp9"@.len() == 3);
    assert("prores"@.len() == 6);
    assert("dnxhr"@.len() == 5);
    assert("ffv1"@.len() == 4);
    assert("mpeg2"@.len() == 5);
    assert("mpeg4"@.len() == 5);
    assert("vc1"@.len() == 3);
    assert("unknown"@.len() == 7);
    assert("h265"@[3] != "h264"@[3]);
    assert("h265"@[0] != "ffv1"@[0]);
    assert("av1"@[0] != "vp9"@[0]);
    assert("av1"@[0] != "vc1"@[0]);
    assert("h264"@[0] != "ffv1"@[0]);
    assert("vp9"@[1] != "vc1"@[1]);
    assert("dnxhr"@[0] != "mpeg2"@[0]);
    assert("dnxhr"@[0] != "mpeg4"@[0]);
    assert("mpeg2"@[4] != "mpeg4"@[4]);
    lemma_holds_any3(c, "hevc"@, "h265"@, "x265"@);
    lemma_holds_any3(c, "av1"@, "dav1d"@, "aom"@);
    lemma_holds_any3(c, "h264"@, "avc"@, "x264"@);
    lemma_holds_any1(c, "vp9"@);
    lemma_holds_any1(c, "prores"@);
    lemma_holds_any1(c, "dnxh"@);
    lemma_holds_any1(c, "ffv1"@);
    lemma_holds_any2(c, "mpeg2"@, "mpeg-2"@);
    lemma_holds_any4(c, "mpeg4"@, "mpeg-4"@, "divx"@, "xvid"@);
    lemma_holds_any3(c, "vc1"@, "vc-1"@, "wmv"@);
}

/// A name with marks of one codec alone stands for that codec.
pub proof fn marks_of_one_codec_decide(c: Seq<char>)
    ensures
        holds_any(c, seq!["hevc"@, "h265"@, "x265"@])
            && !holds_any(c, seq!["av1"@, "dav1d"@, "aom"@])
            && !holds_any(c, seq!["h264"@, "avc"@, "x264"@]) && !holds_any(c, seq!["vp9"@])
            && !holds_any(c, seq!["prores"@]) && !holds_any(c, seq!["dnxh"@])
            && !holds_any(c, seq!["ffv1"@]) && !holds_any(c, seq!["mpeg2"@, "mpeg-2"@])
            && !holds_any(c, seq!["mpeg4"@, "mpeg-4"@, "divx"@, "xvid"@])
            && !holds_any(c, seq!["vc1"@, "vc-1"@, "wmv"@]) ==> decoder_codec(c) == "h265"@,
        holds_any(c, seq!["av1"@, "dav1d"@, "aom"@])
            && !holds_any(c, seq!["hevc"@, "h265"@, "x265"@])
            && !holds_any(c, seq!["h264"@, "avc"@, "x264"@]) && !holds_any(c, seq!["vp9"@])
            && !holds_any(c, seq!["prores"@]) && !holds_any(c, seq!["dnxh"@])
            && !holds_any(c, seq!["ffv1"@]) && !holds_any(c, seq!["mpeg2"@, "mpeg-2"@])
            && !holds_any(c, seq!["mpeg4"@, "mpeg-4"@, "divx"@, "xvid"@])
            && !holds_any(c, seq!["vc1"@, "vc-1"@, "wmv"@]) ==> decoder_codec(c) == "av1"@,
        holds_any(c, seq!["h264"@, "avc"@, "x264"@])
            && !holds_any(c, seq!["hevc"@, "h265"@, "x265"@])
            && !holds_any(c, seq!["av1"@, "dav1d"@, "aom"@]) && !holds_any(c, seq!["vp9"@])
            && !holds_any(c, seq!["prores"@]) && !holds_any(c, seq!["dnxh"@])
            && !holds_any(c, seq!["ffv1"@]) && !holds_any(c, seq!["mpeg2"@, "mpeg-2"@])
            && !holds_any(c, seq!["mpeg4"@, "mpeg-4"@, "divx"@, "xvid"@])
            && !holds_any(c, seq!["vc1"@, "vc-1"@, "wmv"@]) ==> decoder_codec(c) == "h264"@,
        holds_any(c, seq!["vp9"@]) && !holds_any(c, seq!["hevc"@, "h265"@, "x265"@])
            && !holds_any(c, seq!["av1"@, "dav1d"@, "aom"@])
            && !holds_any(c, seq!["h264"@, "avc"@, "x264"@]) && !holds_any(c, seq!["prores"@])
            && !holds_any(c, seq!["dnxh"@]) && !holds_any(c, seq!["ffv1"@])
            && !holds_any(c, seq!["mpeg2"@, "mpeg-2"@])
            && !holds_any(c, seq!["mpeg4"@, "mpeg-4"@, "divx"@, "xvid"@])
            && !holds_any(c, seq!["vc1"@, "vc-1"@, "wmv"@]) ==> decoder_codec(c) == "vp9"@,
        holds_any(c, seq!["prores"@]) && !holds_any(c, seq!["hevc"@, "h265"@, "x265"@])
            && !holds_any(c, seq!["av1"@, "dav1d"@, "aom"@])
            && !holds_any(c, seq!["h264"@, "avc"@, "x264"@]) && !holds_any(c, seq!["vp9"@])
            && !holds_any(c, seq!["dnxh"@]) && !holds_any(c, seq!["ffv1"@])
            && !holds_any(c, seq!["mpeg2"@, "mpeg-2"@])
            && !holds_any(c, seq!["mpeg4"@, "mpeg-4"@, "divx"@, "xvid"@])
            && !holds_any(c, seq!["vc1"@, "vc-1"@, "wmv"@]) ==> decoder_codec(c) == "prores"@,
        holds_any(c, seq!["dnxh"@]) && !holds_any(c, seq!["hevc"@, "h265"@, "x265"@])
            && !holds_any(c, seq!["av1"@, "dav1d"@, "aom"@])
            && !holds_any(c, seq!["h264"@, "avc"@, "x264"@]) && !holds_any(c, seq!["vp9"@])
            && !holds_any(c, seq!["prores"@]) && !holds_any(c, seq!["ffv1"@])
            && !holds_any(c, seq!["mpeg2"@, "mpeg-2"@])
            && !holds_any(c, seq!["mpeg4"@, "mpeg-4"@, "divx"@, "xvid"@])
            && !holds_any(c, seq!["vc1"@, "vc-1"@, "wmv"@]) ==> decoder_codec(c) == "dnxhr"@,
        holds_any(c, seq!["ffv1"@]) && !holds_any(c, seq!["hevc"@, "h265"@, "x265"@])
            && !holds_any(c, seq!["av1"@, "dav1d"@, "aom"@])
            && !holds_any(c, seq!["h264"@, "avc"@, "x264"@]) && !holds_any(c, seq!["vp9"@])
            && !holds_any(c, seq!["prores"@]) && !holds_any(c, seq!["dnxh"@])
            && !holds_any(c, seq!["mpeg2"@, "mpeg-2"@])
            && !holds_any(c, seq!["mpeg4"@, "mpeg-4"@, "divx"@, "xvid"@])
            && !holds_any(c, seq!["vc1"@, "vc-1"@, "wmv"@]) ==> decoder_codec(c) == "ffv1"@,
        holds_any(c, seq!["mpeg2"@, "mpeg-2"@]) && !holds_any(c, seq!["hevc"@, "h265"@, "x265"@])
            && !holds_any(c, seq!["av1"@, "dav1d"@, "aom"@])
            && !holds_any(c, seq!["h264"@, "avc"@, "x264"@]) && !holds_any(c, seq!["vp9"@])
            && !holds_any(c, seq!["prores"@]) && !holds_any(c, seq!["dnxh"@])
            && !holds_any(c, seq!["ffv1"@])
            && !holds_any(c, seq!["mpeg4"@, "mpeg-4"@, "divx"@, "xvid"@])
            && !holds_any(c, seq!["vc1"@, "vc-1"@, "wmv"@]) ==> decoder_codec(c) == "mpeg2"@,
        holds_any(c, seq!["mpeg4"@, "mpeg-4"@, "divx"@, "xvid"@])
            && !holds_any(c, seq!["hevc"@, "h265"@, "x265"@])
            && !holds_any(c, seq!["av1"@, "dav1d"@, "aom"@])
            && !holds_any(c, seq!["h264"@, "avc"@, "x264"@]) && !holds_any(c, seq!["vp9"@])
            && !holds_any(c, seq!["prores"@]) && !holds_any(c, seq!["dnxh"@])
            && !holds_any(c, seq!["ffv1"@]) && !holds_any(c, seq!["mpeg2"@, "mpeg-2"@])
            && !holds_any(c, seq!["vc1"@, "vc-1"@, "wmv"@]) ==> decoder_codec(c) == "mpeg4"@,
        holds_any(c, seq!["vc1"@, "vc-1"@, "wmv"@])
            && !holds_any(c, seq!["hevc"@, "h265"@, "x265"@])
            && !holds_any(c, seq!["av1"@, "dav1d"@, "aom"@])
            && !holds_any(c, seq!["h264"@, "avc"@, "x264"@]) && !holds_any(c, seq!["vp9"@])
            && !holds_any(c, seq!["prores"@]) && !holds_any(c, seq!["dnxh"@])
            && !holds_any(c, seq!["ffv1"@]) && !holds_any(c, seq!["mpeg2"@, "mpeg-2"@])
            && !holds_any(c, seq!["mpeg4"@, "mpeg-4"@, "divx"@, "xvid"@]) ==> decoder_codec(c)
            == "vc1"@,
{
    lemma_holds_any3(c, "hevc"@, "h265"@, "x265"@);
    lemma_holds_any3(c, "av1"@, "dav1d"@, "aom"@);
    lemma_holds_any3(c, "h264"@, "avc"@, "x264"@);
    lemma_holds_any1(c, "vp9"@);
    lemma_holds_any1(c, "prores"@);
    lemma_holds_any1(c, "dnxh"@);
    lemma_holds_any1(c, "ffv1"@);
    lemma_holds_any2(c, "mpeg2"@, "mpeg-2"@);
    lemma_holds_any4(c, "mpeg4"@, "mpeg-4"@, "divx"@, "xvid"@);
    lemma_holds_any3(c, "vc1"@, "vc-1"@, "wmv"@);
}

/// Where a name has marks of several codecs, the newer and better known one decides: a mark is passed
/// over only for one that comes before it.
pub proof fn marks_are_passed_over_for_earlier_ones_only(c: Seq<char>)
    ensures
        holds_any(c, seq!["hevc"@, "h265"@, "x265"@]) ==> decoder_codec(c) == "h265"@,
        holds_any(c, seq!["av1"@, "dav1d"@, "aom"@]) ==> decoder_codec(c) == "av1"@
            || holds_any(c, seq!["hevc"@, "h265"@, "x265"@]),
        holds_any(c, seq!["h264"@, "avc"@, "x264"@]) ==> decoder_codec(c) == "h264"@
            || holds_any(c, seq!["hevc"@, "h265"@, "x265"@])
            || holds_any(c, seq!["av1"@, "dav1d"@, "aom"@]),
        holds_any(c, seq!["vp9"@]) ==> decoder_codec(c) == "vp9"@
            || holds_any(c, seq!["hevc"@, "h265"@, "x265"@])
            || holds_any(c, seq!["av1"@, "dav1d"@, "aom"@])
            || holds_any(c, seq!["h264"@, "avc"@, "x264"@]),
        holds_any(c, seq!["prores"@]) ==> decoder_codec(c) == "prores"@
            || holds_any(c, seq!["hevc"@, "h265"@, "x265"@])
            || holds_any(c, seq!["av1"@, "dav1d"@, "aom"@])
            || holds_any(c, seq!["h264"@, "avc"@, "x264"@]) || holds_any(c, seq!["vp9"@]),
        holds_any(c, seq!["dnxh"@]) ==> decoder_codec(c) == "dnxhr"@
            || holds_any(c, seq!["hevc"@, "h265"@, "x265"@])
            || holds_any(c, seq!["av1"@, "dav1d"@, "aom"@])
            || holds_any(c, seq!["h264"@, "avc"@, "x264"@]) || holds_any(c, seq!["vp9"@])
            || holds_any(c, seq!["prores"@]),
        holds_any(c, seq!["ffv1"@]) ==> decoder_codec(c) == "ffv1"@
            || holds_any(c, seq!["hevc"@, "h265"@, "x265"@])
            || holds_any(c, seq!["av1"@, "dav1d"@, "aom"@])
            || holds_any(c, seq!["h264"@, "avc"@, "x264"@]) || holds_any(c, seq!["vp9"@])
            || holds_any(c, seq!["prores"@]) || holds_any(c, seq!["dnxh"@]),
        holds_any(c, seq!["mpeg2"@, "mpeg-2"@]) ==> decoder_codec(c) == "mpeg2"@
            || holds_any(c, seq!["hevc"@, "h265"@, "x265"@])
            || holds_any(c, seq!["av1"@, "dav1d"@, "aom"@])
            || holds_any(c, seq!["h264"@, "avc"@, "x264"@]) || holds_any(c, seq!["vp9"@])
            || holds_any(c, seq!["prores"@]) || holds_any(c, seq!["dnxh"@])
            || holds_any(c, seq!["ffv1"@]),
        holds_any(c, seq!["mpeg4"@, "mpeg-4"@, "divx"@, "xvid"@]) ==> decoder_codec(c) == "mpeg4"@
            || holds_any(c, seq!["hevc"@, "h265"@, "x265"@])
            || holds_any(c, seq!["av1"@, "dav1d"@, "aom"@])
            || holds_any(c, seq!["h264"@, "avc"@, "x264"@]) || holds_any(c, seq!["vp9"@])
            || holds_any(c, seq!["prores"@]) || holds_any(c, seq!["dnxh"@])
            || holds_any(c, seq!["ffv1"@]) || holds_any(c, seq!["mpeg2"@, "mpeg-2"@]),
        holds_any(c, seq!["vc1"@, "vc-1"@, "wmv"@]) ==> decoder_codec(c) == "vc1"@
            || holds_any(c, seq!["hevc"@, "h265"@, "x265"@])
            || holds_any(c, seq!["av1"@, "dav1d"@, "aom"@])
            || holds_any(c, seq!["h264"@, "avc"@, "x264"@]) || holds_any(c, seq!["vp9"@])
            || holds_any(c, seq!["prores"@]) || holds_any(c, seq!["dnxh"@])
            || holds_any(c, seq!["ffv1"@]) || holds_any(c, seq!["mpeg2"@, "mpeg-2"@])
            || holds_any(c, seq!["mpeg4"@, "mpeg-4"@, "divx"@, "xvid"@]),
{
    lemma_holds_any3(c, "hevc"@, "h265"@, "x265"@);
    lemma_holds_any3(c, "av1"@, "dav1d"@, "aom"@);
    lemma_holds_any3(c, "h264"@, "avc"@, "x264"@);
    lemma_holds_any1(c, "vp9"@);
    lemma_holds_any1(c, "prores"@);
    lemma_holds_any1(c, "dnxh"@);
    lemma_holds_any1(c, "ffv1"@);
    lemma_holds_any2(c, "mpeg2"@, "mpeg-2"@);
    lemma_holds_any4(c, "mpeg4"@, "mpeg-4"@, "divx"@, "xvid"@);
    lemma_holds_any3(c, "vc1"@, "vc-1"@, "wmv"@);
}

/// A name of ASCII letters is read in lower case.
pub proof fn names_are_read_in_lower_case(name: Seq<char>)
    requires
        is_ascii_chars(name),
    ensures
        codec_of(name) == decoder_codec(ascii_lowered(name)),
{
}

/// The titles of a scan are told by what follows their mark, white space aside; output without the
/// mark tells nothing.
pub proof fn titles_follow_their_mark(before: Seq<char>, json: Seq<char>, stdout: Seq<char>)
    requires
        forall|i: int|
            occurs_at(before + TITLE_MARK@ + json, TITLE_MARK@, i) ==> i >= before.len(),
    ensures
        title_json(before + TITLE_MARK@ + json) == Some(trim(json)),
        !occurs(stdout, TITLE_MARK@) ==> title_json(stdout) is None,
{
    let whole = before + TITLE_MARK@ + json;
    let n = before.len() as int;
    assert(whole.subrange(n, n + TITLE_MARK@.len()) =~= TITLE_MARK@);
    assert(occurs_at(whole, TITLE_MARK@, n));
    assert(crate::text::first_from(whole, TITLE_MARK@, 0, n));
    lemma_first_unique(whole, TITLE_MARK@, n);
    assert(whole.skip(n + TITLE_MARK@.len()) =~= json);
}


/// What a scan tells of a source is told of its first title: the codec that its name stands for, and
/// the height of its picture.
pub proof fn scans_tell_of_the_first_title(json: Seq<char>, media: SourceMedia)
    requires
        first_title(json, media),
    ensures
        media.codec@ == codec_of(string_at(json, "/TitleList/0/VideoCodec"@)),
        media.height == integer_at(json, "/TitleList/0/Geometry/Height"@),
        is_codec(media.codec@),
        has_title(json) ==> json_at(json, "/TitleList/0"@) is Some,
{
    codecs_are_their_own_names(string_at(json, "/TitleList/0/VideoCodec"@));
}


} // verus!
