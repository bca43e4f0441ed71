//! Why an encode failed: whether the source file is bad, or something around it. Doubt never
//! condemns a file.

use crate::text::{holds, lowercase, lowered, occurs};
use vstd::prelude::*;
use vstd::string::*;

verus! {

/// Stored for a source that the encoder could not read though this program could.
pub const CLASS_BAD_SOURCE: &'static str = "bad_source";

/// Stored for a source that is shorter than it claims.
pub const CLASS_BAD_SOURCE_TRUNCATED: &'static str = "bad_source_truncated";

/// Stored once the user had a bad source removed.
pub const CLASS_BAD_SOURCE_PURGED: &'static str = "bad_source_purged";

/// Why an encode failed.
#[derive(Debug, Clone, Copy, PartialEq, Eq, Structural)]
pub enum FailureClass {
    /// The source is bad.
    BadSource,
    /// The source is shorter than it claims.
    BadSourceTruncated,
    /// Something around the source is wrong.
    Environment,
    /// It cannot be told.
    Unknown,
}

impl FailureClass {
    /// The name that a class is stored under.
    pub fn as_str(self) -> (r: &'static str)
        ensures
            r@ == match self {
                FailureClass::BadSource => "bad_source"@,
                FailureClass::BadSourceTruncated => "bad_source_truncated"@,
                FailureClass::Environment => "environment"@,
                FailureClass::Unknown => "unknown"@,
            },
    {
        match self {
            FailureClass::BadSource => CLASS_BAD_SOURCE,
            FailureClass::BadSourceTruncated => CLASS_BAD_SOURCE_TRUNCATED,
            FailureClass::Environment => "environment",
            FailureClass::Unknown => "unknown",
        }
    }
}

/// What was seen of a failure.
#[derive(Debug, Clone, Copy)]
pub struct FailureFacts<'a> {
    /// The encoder's exit code; nothing if it was killed.
    pub exit_code: Option<i32>,
    /// Whether this program could read the source.
    pub source_readable: bool,
    /// The end of the encoder's error stream.
    pub stderr_tail: &'a str,
}

/// Whether an error stream, in lower case, tells of trouble around the source.
pub open spec fn blames_environment(lower: Seq<char>) -> bool {
    ||| occurs(lower, "invalid preset"@)
    ||| occurs(lower, "no space left"@)
    ||| occurs(lower, "permission denied"@)
    ||| occurs(lower, "not permitted"@)
    ||| occurs(lower, "read-only"@)
    ||| occurs(lower, "cannot create"@)
}

/// Whether an error stream, in lower case, tells that the source made no sense.
pub open spec fn blames_source(lower: Seq<char>) -> bool {
    ||| occurs(lower, "unrecognized file type"@)
    ||| occurs(lower, "no title found"@)
    ||| occurs(lower, "0 valid title"@)
}

/// Why an encode failed. The source is bad only if this program could read it, nothing around it
/// is blamed, and the encoder both gave the exit code for bad input and blamed the source.
pub open spec fn class_of(exit_code: Option<i32>, source_readable: bool, tail: Seq<char>) -> FailureClass {
    if !source_readable || blames_environment(lowercase(tail)) || exit_code == Some(3i32) {
        FailureClass::Environment
    } else if exit_code == Some(2i32) && blames_source(lowercase(tail)) {
        FailureClass::BadSource
    } else {
        FailureClass::Unknown
    }
}

/// Why an encode failed.
pub fn classify(facts: &FailureFacts) -> (r: FailureClass)
    ensures
        r == class_of(facts.exit_code, facts.source_readable, facts.stderr_tail@),
{
    if !facts.source_readable {
        return FailureClass::Environment;
    }
    let lower: String = lowered(facts.stderr_tail);
    if holds(&lower, "invalid preset") || holds(&lower, "no space left") || holds(
        &lower,
        "permission denied",
    ) || holds(&lower, "not permitted") || holds(&lower, "read-only") || holds(
        &lower,
        "cannot create",
    ) {
        return FailureClass::Environment;
    }
    match facts.exit_code {
        Some(3) => FailureClass::Environment,
        Some(2) => {
            if holds(&lower, "unrecognized file type") || holds(&lower, "no title found") || holds(
                &lower,
                "0 valid title",
            ) {
                FailureClass::BadSource
            } else {
                FailureClass::Unknown
            }
        },
        _ => FailureClass::Unknown,
    }
}

/// A source is condemned only on evidence: it could be read, the encoder gave the exit code for
/// bad input and blamed the source, and nothing around it was blamed. No source is found truncated
/// by what the encoder said.
pub proof fn doubt_condemns_no_source(exit_code: Option<i32>, readable: bool, tail: Seq<char>)
    ensures
        class_of(exit_code, readable, tail) == FailureClass::BadSource <==> readable && exit_code
            == Some(2i32) && blames_source(lowercase(tail)) && !blames_environment(lowercase(tail)),
        class_of(exit_code, readable, tail) != FailureClass::BadSourceTruncated,
        !readable ==> class_of(exit_code, readable, tail) == FailureClass::Environment,
{
}

/// Trouble around a source is told by any one of its signs, whatever else is said, and by nothing
/// else: the source cannot be read, the encoder gave the exit code for trouble of its own, or its
/// error stream names a preset, room, a permission or a file that could not be written.
pub proof fn trouble_around_the_source_is_told_by_its_signs(
    exit_code: Option<i32>,
    readable: bool,
    tail: Seq<char>,
)
    ensures
        class_of(exit_code, readable, tail) == FailureClass::Environment <==> {
            ||| !readable
            ||| exit_code == Some(3i32)
            ||| occurs(lowercase(tail), "invalid preset"@)
            ||| occurs(lowercase(tail), "no space left"@)
            ||| occurs(lowercase(tail), "permission denied"@)
            ||| occurs(lowercase(tail), "not permitted"@)
            ||| occurs(lowercase(tail), "read-only"@)
            ||| occurs(lowercase(tail), "cannot create"@)
        },
{
}

/// A source is found bad by the encoder's words for that together with its exit code for bad input;
/// neither alone is enough.
pub proof fn bad_sources_are_told_by_words_and_exit_code(
    exit_code: Option<i32>,
    readable: bool,
    tail: Seq<char>,
)
    requires
        class_of(exit_code, readable, tail) != FailureClass::Environment,
    ensures
        class_of(exit_code, readable, tail) == FailureClass::BadSource <==> exit_code == Some(2i32)
            && {
            ||| occurs(lowercase(tail), "unrecognized file type"@)
            ||| occurs(lowercase(tail), "no title found"@)
            ||| occurs(lowercase(tail), "0 valid title"@)
        },
        class_of(exit_code, readable, tail) == FailureClass::BadSource || class_of(
            exit_code,
            readable,
            tail,
        ) == FailureClass::Unknown,
{
}


} // verus!
