//! What a source file already is, on the scales that decide whether encoding it again can help.

use crate::text::{chars_of, decimal_text, numbers_are_read_within_bounds, parse_i64, parse_int};
use crate::text::{same, slice_of, text_of};
use vstd::prelude::*;
use vstd::string::*;

verus! {

/// What a source file holds.
#[derive(Debug, Clone, PartialEq, Eq)]
pub struct SourceMedia {
    /// The codec, by the names that presets use.
    pub codec: String,
    /// The height of the picture.
    pub height: i64,
}

/// How well a codec compresses, by rough ranks; nothing for a codec that is not known.
pub open spec fn rank(codec: Seq<char>) -> Option<u8> {
    if codec == "av1"@ || codec == "h265"@ || codec == "vp9"@ {
        Some(3u8)
    } else if codec == "h264"@ {
        Some(2u8)
    } else if codec == "mpeg2"@ || codec == "mpeg4"@ || codec == "vc1"@ {
        Some(1u8)
    } else if codec == "prores"@ || codec == "dnxhr"@ || codec == "ffv1"@ {
        Some(0u8)
    } else {
        None
    }
}

/// How well a codec compresses.
pub fn efficiency_rank(codec: &str) -> (r: Option<u8>)
    ensures
        r == rank(codec@),
{
    if same(codec, "av1") || same(codec, "h265") || same(codec, "vp9") {
        Some(3)
    } else if same(codec, "h264") {
        Some(2)
    } else if same(codec, "mpeg2") || same(codec, "mpeg4") || same(codec, "vc1") {
        Some(1)
    } else if same(codec, "prores") || same(codec, "dnxhr") || same(codec, "ffv1") {
        Some(0)
    } else {
        None
    }
}

/// The height that a resolution such as `1080p` writes; 0 if it writes none.
pub open spec fn height_of(resolution: Seq<char>) -> int {
    if resolution.len() > 0 && resolution.last() == 'p' {
        match parse_int(resolution.drop_last(), i64::MIN as int, i64::MAX as int) {
            Some(n) => n,
            None => 0,
        }
    } else {
        0
    }
}

/// The height that a resolution writes; 0 if it writes none.
pub fn target_height_from_resolution(resolution: &str) -> (r: i64)
    ensures
        r == height_of(resolution@),
{
    let cs: Vec<char> = chars_of(resolution);
    if cs.len() == 0 || cs[cs.len() - 1] != 'p' {
        return 0;
    }
    let number: String = text_of(&slice_of(&cs, 0, cs.len() - 1));
    assert(number@ =~= resolution@.drop_last());
    match parse_i64(&number) {
        Some(n) => n,
        None => 0,
    }
}

/// Whether a source already is what a preset would make of it: its codec compresses no worse, and
/// its picture is no higher. Where the codec or the height of the source is not known, or the codec
/// of the preset, it is not; a preset without a height keeps every picture.
pub open spec fn meets(
    media: Option<SourceMedia>,
    codec: Seq<char>,
    resolution: Seq<char>,
) -> bool {
    match media {
        Some(m) => {
            &&& rank(m.codec@) is Some && rank(codec) is Some
            &&& rank(m.codec@)->0 >= rank(codec)->0
            &&& m.height > 0
            &&& height_of(resolution) == 0 || m.height <= height_of(resolution)
        },
        None => false,
    }
}

/// Whether a source already is what a preset would make of it.
pub fn meets_target(media: &Option<SourceMedia>, codec: &str, resolution: &str) -> (r: bool)
    ensures
        r == meets(*media, codec@, resolution@),
{
    match media {
        Some(m) => match (efficiency_rank(&m.codec), efficiency_rank(codec)) {
            (Some(has), Some(wants)) => {
                let height: i64 = target_height_from_resolution(resolution);
                has >= wants && m.height > 0 && (height == 0 || m.height <= height)
            },
            _ => false,
        },
        None => false,
    }
}

/// Doubt skips nothing: a source that could not be scanned, or whose codec or height is not known,
/// is encoded.
pub proof fn doubt_skips_no_source(media: SourceMedia, codec: Seq<char>, resolution: Seq<char>)
    ensures
        !meets(None, codec, resolution),
        rank(media.codec@) is None || media.height <= 0 || rank(codec) is None ==> !meets(
            Some(media),
            codec,
            resolution,
        ),
{
}

/// A copy of what a file holds.
pub fn copy_media(media: &SourceMedia) -> (r: SourceMedia)
    ensures
        r == *media,
{
    SourceMedia { codec: media.codec.clone(), height: media.height }
}

/// Newer codecs compress better than older ones, and those better than the ones that are made for
/// editing; a codec that is not known has no rank.
pub proof fn newer_codecs_rank_higher(codec: Seq<char>)
    ensures
        rank("av1"@) is Some && rank("av1"@) == rank("h265"@) && rank("h265"@) == rank("vp9"@),
        rank("h264"@) is Some && rank("h264"@)->0 < rank("h265"@)->0,
        rank("mpeg2"@) is Some && rank("mpeg2"@) == rank("mpeg4"@) && rank("mpeg4"@) == rank(
            "vc1"@,
        ) && rank("vc1"@)->0 < rank("h264"@)->0,
        rank("prores"@) is Some && rank("prores"@) == rank("dnxhr"@) && rank("dnxhr"@) == rank(
            "ffv1"@,
        ) && rank("ffv1"@)->0 < rank("mpeg2"@)->0,
        rank("unknown"@) is None,
        rank(codec) is Some ==> {
            ||| codec == "av1"@
            ||| codec == "h265"@
            ||| codec == "vp9"@
            ||| codec == "h264"@
            ||| codec == "mpeg2"@
            ||| codec == "mpeg4"@
            ||| codec == "vc1"@
            ||| codec == "prores"@
            ||| codec == "dnxhr"@
            ||| codec == "ffv1"@
        },
{
    reveal_strlit("av1");
    reveal_strlit("h265");
    reveal_strlit("vp9");
    reveal_strlit("h264");
    reveal_strlit("mpeg2");
    reveal_strlit("mpeg4");
    reveal_strlit("vc1");
    reveal_strlit("prores");
    reveal_strlit("dnxhr");
    reveal_strlit("ffv1");
    reveal_strlit("unknown");
    assert("av1"@.len() == 3);
    assert("h265"@.len() == 4);
    assert("vp9"@.len() == 3);
    assert("h264"@.len() == 4);
    assert("mpeg2"@.len() == 5);
    assert("mpeg4"@.len() == 5);
    assert("vc1"@.len() == 3);
    assert("prores"@.len() == 6);
    assert("dnxhr"@.len() == 5);
    assert("ffv1"@.len() == 4);
    assert("unknown"@.len() == 7);
    assert("av1"@[0] != "vp9"@[0]);
    assert("av1"@[0] != "vc1"@[0]);
    assert("h265"@[3] != "h264"@[3]);
    assert("h265"@[0] != "ffv1"@[0]);
    assert("vp9"@[1] != "vc1"@[1]);
    assert("h264"@[0] != "ffv1"@[0]);
    assert("mpeg2"@[4] != "mpeg4"@[4]);
    assert("mpeg2"@[0] != "dnxhr"@[0]);
    assert("mpeg4"@[0] != "dnxhr"@[0]);
}

/// A resolution writes the height before its `p`; what has no `p` writes none.
pub proof fn resolutions_write_heights(n: nat, s: Seq<char>)
    requires
        n <= i64::MAX,
    ensures
        height_of(decimal_text(n).push('p')) == n,
        s.len() == 0 || s.last() != 'p' ==> height_of(s) == 0,
{
    numbers_are_read_within_bounds(n, i64::MIN as int, i64::MAX as int);
    assert(decimal_text(n).push('p').drop_last() =~= decimal_text(n));
}

/// A source is skipped exactly where encoding it would win nothing: its codec ranks no lower than the
/// one wanted and its picture is no higher. What meets a target still meets it with a smaller
/// picture or a better codec, and meets every target that asks for less.
pub proof fn sources_are_skipped_where_nothing_is_won(
    media: SourceMedia,
    other: SourceMedia,
    codec: Seq<char>,
    height: nat,
    taller: nat,
)
    requires
        0 < height <= taller <= i64::MAX,
    ensures
        ({
            let wanted = decimal_text(height).push('p');
            let more = decimal_text(taller).push('p');
            &&& meets(Some(media), codec, wanted) <==> {
                &&& rank(media.codec@) matches Some(has) && rank(codec) matches Some(wants) && has
                    >= wants
                &&& 0 < media.height <= height
            }
            &&& meets(Some(media), codec, wanted) ==> meets(Some(media), codec, more)
            &&& meets(Some(media), codec, wanted) && 0 < other.height <= media.height && rank(
                other.codec@,
            ) is Some && rank(other.codec@)->0 >= rank(media.codec@)->0 ==> meets(
                Some(other),
                codec,
                wanted,
            )
            &&& meets(Some(media), codec, Seq::empty()) <==> {
                &&& rank(media.codec@) matches Some(has) && rank(codec) matches Some(wants) && has
                    >= wants
                &&& 0 < media.height
            }
        }),
{
    resolutions_write_heights(height, Seq::empty());
    resolutions_write_heights(taller, Seq::empty());
}


} // verus!
