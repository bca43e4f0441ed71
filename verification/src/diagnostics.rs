//! What the encoder wrote to its error stream, turned into the message that the history keeps.

use crate::paths::opt_view;
use crate::text::{blank, chars_of, holds, is_blank, join, joined_from, lines, lines_of, lowercase};
use crate::text::{lemma_split_len, lemma_split_pieces, lowered, occurs, same, slice_of, split};
use crate::text::{text_of, without_cr};
use vstd::prelude::*;
use vstd::string::*;
use vstd::utf8::{decode_utf8, valid_utf8};

verus! {

/// How many bytes of the error stream are kept.
pub const STDERR_TAIL_BYTES: usize = 4096;

/// How many lines of the error stream a message shows.
pub const ERROR_TAIL_LINES: usize = 20;

/// The last `n` bytes, or all of them if there are fewer.
pub open spec fn last_bytes(s: Seq<u8>, n: int) -> Seq<u8> {
    if s.len() > n {
        s.skip(s.len() - n)
    } else {
        s
    }
}

/// Takes in a chunk of a stream and forgets all but its end.
pub fn keep_tail(tail: &mut Vec<u8>, chunk: &Vec<u8>)
    ensures
        final(tail)@ == last_bytes(old(tail)@ + chunk@, STDERR_TAIL_BYTES as int),
{
    let ghost whole = old(tail)@ + chunk@;
    let mut all: Vec<u8> = Vec::new();
    let keep: usize = STDERR_TAIL_BYTES;
    let from_tail: usize = if chunk.len() >= keep {
        tail.len()
    } else if tail.len() > keep - chunk.len() {
        tail.len() - (keep - chunk.len())
    } else {
        0
    };
    let mut i: usize = from_tail;
    while i < tail.len()
        invariant
            from_tail <= i <= tail.len(),
            all@ == tail@.subrange(from_tail as int, i as int),
        decreases tail.len() - i,
    {
        all.push(tail[i]);
        i = i + 1;
    }
    let from_chunk: usize = if chunk.len() > keep {
        chunk.len() - keep
    } else {
        0
    };
    let ghost kept = all@;
    let mut k: usize = from_chunk;
    while k < chunk.len()
        invariant
            from_chunk <= k <= chunk.len(),
            all@ == kept + chunk@.subrange(from_chunk as int, k as int),
        decreases chunk.len() - k,
    {
        all.push(chunk[k]);
        k = k + 1;
    }
    assert(all@ =~= last_bytes(whole, keep as int));
    *tail = all;
}

/// The bytes of all chunks, one after the other.
pub open spec fn concatenated(chunks: Seq<Seq<u8>>) -> Seq<u8>
    decreases chunks.len(),
{
    if chunks.len() == 0 {
        Seq::empty()
    } else {
        concatenated(chunks.drop_last()) + chunks.last()
    }
}

/// What `String::from_utf8_lossy` makes of bytes that are not UTF-8.
pub uninterp spec fn replaced_text(bytes: Seq<u8>) -> Seq<char>;

/// The text of bytes, with replacement characters where they are not UTF-8.
pub open spec fn lossy_text(bytes: Seq<u8>) -> Seq<char> {
    if valid_utf8(bytes) {
        decode_utf8(bytes)
    } else {
        replaced_text(bytes)
    }
}

/// `String::from_utf8_lossy`: the text of the bytes, with a replacement character wherever they
/// are not UTF-8. Bytes that are UTF-8 are decoded.
#[verifier::external_body]
pub(crate) fn text_from_bytes(bytes: &Vec<u8>) -> (s: String)
    ensures
        valid_utf8(bytes@) ==> s@ == decode_utf8(bytes@),
        !valid_utf8(bytes@) ==> s@ == replaced_text(bytes@),
{
    String::from_utf8_lossy(bytes).into_owned()
}

/// The end of a stream that came in chunks, as text.
pub fn read_bounded_tail(chunks: &Vec<Vec<u8>>) -> (s: String)
    ensures
        s@ == lossy_text(last_bytes(concatenated(chunks.deep_view()), STDERR_TAIL_BYTES as int)),
{
    let mut tail: Vec<u8> = Vec::new();
    let mut i: usize = 0;
    assert(last_bytes(concatenated(chunks.deep_view().take(0)), STDERR_TAIL_BYTES as int)
        =~= Seq::<u8>::empty());
    while i < chunks.len()
        invariant
            i <= chunks.len(),
            tail@ == last_bytes(
                concatenated(chunks.deep_view().take(i as int)),
                STDERR_TAIL_BYTES as int,
            ),
        decreases chunks.len() - i,
    {
        let ghost seen = concatenated(chunks.deep_view().take(i as int));
        assert(chunks.deep_view().take(i + 1).drop_last() =~= chunks.deep_view().take(i as int));
        assert(chunks.deep_view().take(i + 1).last() =~= chunks[i as int]@);
        keep_tail(&mut tail, &chunks[i]);
        assert(tail@ =~= last_bytes(seen + chunks[i as int]@, STDERR_TAIL_BYTES as int));
        i = i + 1;
    }
    assert(chunks.deep_view().take(i as int) =~= chunks.deep_view());
    text_from_bytes(&tail)
}

/// Whether a line, put in lower case, reads like the reason of a failure.
pub open spec fn marks_failure(lower: Seq<char>) -> bool {
    ||| occurs(lower, "error"@)
    ||| occurs(lower, "failed"@)
    ||| occurs(lower, "fatal"@)
    ||| occurs(lower, "aborted"@)
    ||| occurs(lower, "not found"@)
    ||| occurs(lower, "no such file"@)
    ||| occurs(lower, "no title"@)
    ||| occurs(lower, "unrecognized"@)
    ||| occurs(lower, "unsupported"@)
    ||| occurs(lower, "invalid"@)
    ||| occurs(lower, "corrupt"@)
    ||| occurs(lower, "no space"@)
    ||| occurs(lower, "read-only"@)
    ||| occurs(lower, "permission denied"@)
    ||| occurs(lower, "not permitted"@)
    ||| occurs(lower, "cannot"@)
    ||| occurs(lower, "could not"@)
    ||| occurs(lower, "unable"@)
}

/// Whether a line reads like the reason of a failure.
pub fn reads_like_failure(line: &str) -> (r: bool)
    ensures
        r == marks_failure(lowercase(line@)),
{
    let lower: String = lowered(line);
    holds(&lower, "error") || holds(&lower, "failed") || holds(&lower, "fatal") || holds(&lower, "aborted")
        || holds(&lower, "not found") || holds(&lower, "no such file") || holds(&lower, "no title")
        || holds(&lower, "unrecognized") || holds(&lower, "unsupported") || holds(&lower, "invalid")
        || holds(&lower, "corrupt") || holds(&lower, "no space") || holds(&lower, "read-only") || holds(
        &lower,
        "permission denied",
    ) || holds(&lower, "not permitted") || holds(&lower, "cannot") || holds(&lower, "could not") || holds(
        &lower,
        "unable",
    )
}

/// The first line that reads like the reason of a failure.
pub open spec fn headline(lines: Seq<Seq<char>>) -> Option<Seq<char>>
    decreases lines.len(),
{
    if lines.len() == 0 {
        None
    } else if marks_failure(lowercase(lines[0])) {
        Some(lines[0])
    } else {
        headline(lines.drop_first())
    }
}

/// The first line that reads like the reason of a failure.
pub fn diagnostic_headline(lines: &Vec<String>) -> (r: Option<String>)
    ensures
        opt_view(r) == headline(lines.deep_view()),
{
    let mut i: usize = 0;
    assert(lines.deep_view().skip(0) =~= lines.deep_view());
    while i < lines.len()
        invariant
            i <= lines.len(),
            headline(lines.deep_view()) == headline(lines.deep_view().skip(i as int)),
        decreases lines.len() - i,
    {
        assert(lines.deep_view().skip(i as int)[0] == lines[i as int]@);
        assert(lines.deep_view().skip(i as int).drop_first() =~= lines.deep_view().skip(i + 1));
        if reads_like_failure(&lines[i]) {
            return Some(lines[i].clone());
        }
        i = i + 1;
    }
    None
}

/// The lines of a text that are not blank.
pub open spec fn informative(tail: Seq<char>) -> Seq<Seq<char>> {
    lines(tail).filter(|l: Seq<char>| !is_blank(l))
}

/// The last lines that a message shows.
pub open spec fn shown_lines(all: Seq<Seq<char>>) -> Seq<Seq<char>> {
    if all.len() > ERROR_TAIL_LINES {
        all.skip(all.len() - ERROR_TAIL_LINES)
    } else {
        all
    }
}

/// A failure message: the prefix, the line that tells the reason if one does, and the end of the
/// error stream. The prefix alone if the stream told nothing.
pub open spec fn failure_text(prefix: Seq<char>, tail: Seq<char>) -> Seq<char> {
    let all = informative(tail);
    let block = join(shown_lines(all), "\n"@);
    if all.len() == 0 {
        prefix
    } else {
        match headline(all) {
            Some(h) => prefix + ": "@ + h + "\n"@ + block,
            None => prefix + ":\n"@ + block,
        }
    }
}

/// The lines of a text that are not blank.
fn informative_lines(tail: &str) -> (out: Vec<String>)
    ensures
        out.deep_view() == informative(tail@),
{
    let all: Vec<String> = lines_of(tail);
    let ghost lv = lines(tail@);
    let ghost keep = |l: Seq<char>| !is_blank(l);
    let mut out: Vec<String> = Vec::new();
    let mut i: usize = 0;
    assert(all.deep_view().len() == all.len());
    assert(lv.take(0).filter(keep) =~= Seq::<Seq<char>>::empty()) by {
        reveal(Seq::filter);
    }
    while i < all.len()
        invariant
            all.deep_view() == lv,
            lv.len() == all.len(),
            i <= all.len(),
            keep == (|l: Seq<char>| !is_blank(l)),
            out.deep_view() == lv.take(i as int).filter(keep),
        decreases all.len() - i,
    {
        assert(all.deep_view()[i as int] == all[i as int]@);
        assert(lv.take(i + 1).drop_last() =~= lv.take(i as int));
        assert(lv.take(i + 1).last() == all[i as int]@);
        assert(lv.take(i + 1).filter(keep) == if keep(all[i as int]@) {
            lv.take(i as int).filter(keep).push(all[i as int]@)
        } else {
            lv.take(i as int).filter(keep)
        }) by {
            reveal(Seq::filter);
        }
        if !blank(&all[i]) {
            let ghost shorter = out;
            out.push(all[i].clone());
            assert(out.deep_view() =~= shorter.deep_view().push(all[i as int]@));
        }
        i = i + 1;
    }
    assert(lv.take(i as int) =~= lv);
    out
}

/// A failure message.
pub fn message_with_tail(prefix: &str, tail: &str) -> (s: String)
    ensures
        s@ == failure_text(prefix@, tail@),
{
    let all: Vec<String> = informative_lines(tail);
    assert(all.deep_view().len() == all.len());
    if all.len() == 0 {
        return prefix.to_owned();
    }
    let start: usize = if all.len() > ERROR_TAIL_LINES {
        all.len() - ERROR_TAIL_LINES
    } else {
        0
    };
    assert(all.deep_view().skip(start as int) =~= shown_lines(informative(tail@)));
    let block: String = joined_from(&all, start, "\n");
    match diagnostic_headline(&all) {
        Some(h) => prefix.to_owned().concat(": ").concat(&h).concat("\n").concat(&block),
        None => prefix.to_owned().concat(":\n").concat(&block),
    }
}

/// The message of a failed encode.
pub fn error_message_from_tail(tail: &str) -> (s: String)
    ensures
        s@ == failure_text("Conversion failed"@, tail@),
{
    message_with_tail("Conversion failed", tail)
}

/// The message of an encode that ended well and wrote nothing.
pub fn empty_output_error_message(tail: &str) -> (s: String)
    ensures
        s@ == failure_text("Conversion produced an empty output file"@, tail@),
{
    message_with_tail("Conversion produced an empty output file", tail)
}

/// Whether a first line is one that leaves the reason of the failure to the lines below it.
pub open spec fn bare_prefix(line: Seq<char>) -> bool {
    line == "Conversion failed:"@ || line == "Conversion produced an empty output file:"@
}

/// Where the first line feed of a text stands; its length if there is none.
pub open spec fn first_break(s: Seq<char>) -> int
    decreases s.len(),
{
    if s.len() == 0 || s[0] == '\n' {
        0
    } else {
        1 + first_break(s.drop_first())
    }
}

/// A stored message with the reason of the failure moved into its first line, if that line is a
/// bare prefix and a line below tells the reason.
pub open spec fn promoted(message: Seq<char>) -> Option<Seq<char>> {
    let at = first_break(message);
    let first = message.take(at);
    let body = message.skip(at + 1);
    if at < message.len() && bare_prefix(first) {
        match headline(lines(body)) {
            Some(h) => Some(first + " "@ + h + "\n"@ + body),
            None => None,
        }
    } else {
        None
    }
}

/// Finds the first line feed.
fn find_break(cs: &Vec<char>) -> (r: usize)
    ensures
        r == first_break(cs@),
        r <= cs.len(),
{
    let mut i: usize = 0;
    assert(cs@.skip(0) =~= cs@);
    while i < cs.len() && cs[i] != '\n'
        invariant
            i <= cs.len(),
            first_break(cs@) == i + first_break(cs@.skip(i as int)),
        decreases cs.len() - i,
    {
        assert(cs@.skip(i as int).drop_first() =~= cs@.skip(i + 1));
        i = i + 1;
    }
    i
}

/// A stored message with the reason of the failure moved into its first line; `None` if the
/// message is to stay as it is.
pub fn promote_stored_diagnostic(message: &str) -> (r: Option<String>)
    ensures
        opt_view(r) == promoted(message@),
{
    let cs: Vec<char> = chars_of(message);
    let at: usize = find_break(&cs);
    if at == cs.len() {
        return None;
    }
    let first: String = text_of(&slice_of(&cs, 0, at));
    let body: String = text_of(&slice_of(&cs, at + 1, cs.len()));
    assert(first@ =~= message@.take(at as int));
    assert(body@ =~= message@.skip(at + 1));
    if !same(&first, "Conversion failed:") && !same(
        &first,
        "Conversion produced an empty output file:",
    ) {
        return None;
    }
    match diagnostic_headline(&lines_of(&body)) {
        Some(h) => Some(first.concat(" ").concat(&h).concat("\n").concat(&body)),
        None => None,
    }
}

/// The first line feed stands where its first occurrence is.
proof fn lemma_first_break(s: Seq<char>, i: int)
    requires
        0 <= i < s.len(),
        s[i] == '\n',
        !s.take(i).contains('\n'),
    ensures
        first_break(s) == i,
    decreases i,
{
    if i > 0 {
        assert(s.take(i)[0] == s[0]);
        assert(s.take(i).contains(s[0]));
        let t = s.drop_first();
        assert(t.take(i - 1) =~= s.take(i).drop_first());
        if t.take(i - 1).contains('\n') {
            let w = t.take(i - 1);
            let k = choose|k: int| 0 <= k < w.len() && w[k] == '\n';
            assert(s.take(i)[k + 1] == '\n');
            assert(s.take(i).contains('\n'));
        }
        lemma_first_break(t, i - 1);
    }
}

/// Nothing before the first line feed is one.
proof fn lemma_before_first_break(s: Seq<char>)
    ensures
        0 <= first_break(s) <= s.len(),
        !s.take(first_break(s)).contains('\n'),
    decreases s.len(),
{
    if s.len() > 0 && s[0] != '\n' {
        let t = s.drop_first();
        lemma_before_first_break(t);
        let head = s.take(first_break(s));
        if head.contains('\n') {
            let k = choose|k: int| 0 <= k < head.len() && head[k] == '\n';
            assert(t.take(first_break(t))[k - 1] == '\n');
            assert(t.take(first_break(t)).contains('\n'));
        }
    }
}

/// A headline is one of the lines.
proof fn lemma_headline_is_a_line(all: Seq<Seq<char>>)
    requires
        headline(all) is Some,
    ensures
        all.contains(headline(all)->0),
    decreases all.len(),
{
    if !marks_failure(lowercase(all[0])) {
        lemma_headline_is_a_line(all.drop_first());
        let h = headline(all)->0;
        let rest = all.drop_first();
        let k = choose|k: int| 0 <= k < rest.len() && rest[k] == h;
        assert(all[k + 1] == h);
    } else {
        assert(all[0] == headline(all)->0);
    }
}

/// What a filter keeps was there before.
proof fn lemma_filter_keeps(all: Seq<Seq<char>>, keep: spec_fn(Seq<char>) -> bool, x: Seq<char>)
    requires
        all.filter(keep).contains(x),
    ensures
        all.contains(x),
    decreases all.len(),
{
    reveal(Seq::filter);
    if all.len() > 0 {
        let before = all.drop_last();
        if before.filter(keep).contains(x) {
            lemma_filter_keeps(before, keep, x);
            let k = choose|k: int| 0 <= k < before.len() && before[k] == x;
            assert(all[k] == x);
        } else {
            let kept = all.filter(keep);
            let k = choose|k: int| 0 <= k < kept.len() && kept[k] == x;
            if k < before.filter(keep).len() {
                assert(before.filter(keep)[k] == x);
            }
            assert(all[all.len() - 1] == x);
        }
    }
}

/// No line holds a line feed.
proof fn lemma_lines_hold_no_break(s: Seq<char>, line: Seq<char>)
    requires
        lines(s).contains(line),
    ensures
        !line.contains('\n'),
{
    let parts = split(s, '\n');
    lemma_split_len(s, '\n');
    lemma_split_pieces(s, '\n');
    let all = lines(s);
    let i = choose|i: int| 0 <= i < all.len() && all[i] == line;
    assert(!parts[i].contains('\n'));
    if i < parts.len() - 1 {
        assert(parts.drop_last()[i] == parts[i]);
        assert(line == without_cr(parts[i]));
        if line.contains('\n') {
            let k = choose|k: int| 0 <= k < line.len() && line[k] == '\n';
            assert(parts[i][k] == '\n');
        }
    } else {
        assert(line == parts[i]);
    }
}

/// A first line that goes on after a bare prefix is no bare prefix.
proof fn lemma_headlined(first: Seq<char>, h: Seq<char>)
    requires
        bare_prefix(first),
    ensures
        !bare_prefix(first + " "@ + h),
        !first.contains('\n'),
{
    reveal_strlit("Conversion failed:");
    reveal_strlit("Conversion produced an empty output file:");
    reveal_strlit(" ");
    let line = first + " "@ + h;
    if bare_prefix(line) {
        assert(line.len() > first.len());
        assert(line[11] == first[11]);
    }
}

/// The first line of a headlined message is the prefix, a space and the headline.
proof fn lemma_headlined_break(line: Seq<char>, body: Seq<char>)
    requires
        !line.contains('\n'),
    ensures
        first_break(line + "\n"@ + body) == line.len(),
        (line + "\n"@ + body).take(line.len() as int) == line,
{
    reveal_strlit("\n");
    let m = line + "\n"@ + body;
    assert(m.take(line.len() as int) =~= line);
    assert(m[line.len() as int] == '\n');
    lemma_first_break(m, line.len() as int);
}

/// Two texts without a line feed make one without.
proof fn lemma_no_break(a: Seq<char>, b: Seq<char>)
    requires
        !a.contains('\n'),
        !b.contains('\n'),
    ensures
        !(a + b).contains('\n'),
{
    if (a + b).contains('\n') {
        let c = a + b;
        let k = choose|k: int| 0 <= k < c.len() && c[k] == '\n';
        if k < a.len() {
            assert(a[k] == '\n');
        } else {
            assert(b[k - a.len()] == '\n');
        }
    }
}

/// Rewriting stored messages is idempotent: a rewritten message is not rewritten again.
pub proof fn promotion_is_idempotent(message: Seq<char>)
    requires
        promoted(message) is Some,
    ensures
        promoted(promoted(message)->0) is None,
{
    let at = first_break(message);
    let first = message.take(at);
    let body = message.skip(at + 1);
    let h = headline(lines(body))->0;
    lemma_headline_is_a_line(lines(body));
    lemma_lines_hold_no_break(body, h);
    lemma_headlined(first, h);
    reveal_strlit(" ");
    lemma_no_break(first, " "@);
    lemma_no_break(first + " "@, h);
    lemma_headlined_break(first + " "@ + h, body);
}

/// A message that already leads with its reason, or that has nothing below its prefix, is left as
/// it is.
pub proof fn headlined_messages_are_not_promoted(prefix: Seq<char>, tail: Seq<char>)
    requires
        bare_prefix(prefix + ":"@),
        informative(tail).len() == 0 || headline(informative(tail)) is Some,
    ensures
        promoted(failure_text(prefix, tail)) is None,
{
    let all = informative(tail);
    reveal_strlit(":");
    reveal_strlit(": ");
    reveal_strlit(" ");
    let first = prefix + ":"@;
    lemma_before_first_break(prefix);
    if all.len() == 0 {
        lemma_headlined(first, Seq::empty());
        if first_break(prefix) < prefix.len() {
            lemma_break_char(prefix);
            assert(first[first_break(prefix)] == '\n');
            assert(first.contains('\n'));
        }
    } else {
        let h = headline(all)->0;
        lemma_headline_is_a_line(all);
        let keep = |l: Seq<char>| !is_blank(l);
        lemma_filter_keeps(lines(tail), keep, h);
        assert(lines(tail).contains(h));
        lemma_lines_hold_no_break(tail, h);
        lemma_headlined(first, h);
        lemma_no_break(first, " "@);
        lemma_no_break(first + " "@, h);
        let block = join(shown_lines(all), "\n"@);
        lemma_headlined_break(first + " "@ + h, block);
        assert(": "@ =~= ":"@ + " "@);
        assert(prefix + ": "@ + h + "\n"@ + block =~= first + " "@ + h + "\n"@ + block);
    }
}

/// What stands at the first line feed is one.
proof fn lemma_break_char(s: Seq<char>)
    requires
        first_break(s) < s.len(),
    ensures
        s[first_break(s)] == '\n',
    decreases s.len(),
{
    if s[0] != '\n' {
        lemma_before_first_break(s.drop_first());
        lemma_break_char(s.drop_first());
    }
}

/// A line reads like the reason of a failure where it holds any one of the words for that, and only
/// there.
pub proof fn reasons_are_told_by_their_words(lower: Seq<char>)
    ensures
        occurs(lower, "error"@) ==> marks_failure(lower),
        occurs(lower, "failed"@) ==> marks_failure(lower),
        occurs(lower, "fatal"@) ==> marks_failure(lower),
        occurs(lower, "aborted"@) ==> marks_failure(lower),
        occurs(lower, "not found"@) ==> marks_failure(lower),
        occurs(lower, "no such file"@) ==> marks_failure(lower),
        occurs(lower, "no title"@) ==> marks_failure(lower),
        occurs(lower, "unrecognized"@) ==> marks_failure(lower),
        occurs(lower, "unsupported"@) ==> marks_failure(lower),
        occurs(lower, "invalid"@) ==> marks_failure(lower),
        occurs(lower, "corrupt"@) ==> marks_failure(lower),
        occurs(lower, "no space"@) ==> marks_failure(lower),
        occurs(lower, "read-only"@) ==> marks_failure(lower),
        occurs(lower, "permission denied"@) ==> marks_failure(lower),
        occurs(lower, "not permitted"@) ==> marks_failure(lower),
        occurs(lower, "cannot"@) ==> marks_failure(lower),
        occurs(lower, "could not"@) ==> marks_failure(lower),
        occurs(lower, "unable"@) ==> marks_failure(lower),
        marks_failure(lower) ==> {
            ||| occurs(lower, "error"@)
            ||| occurs(lower, "failed"@)
            ||| occurs(lower, "fatal"@)
            ||| occurs(lower, "aborted"@)
            ||| occurs(lower, "not found"@)
            ||| occurs(lower, "no such file"@)
            ||| occurs(lower, "no title"@)
            ||| occurs(lower, "unrecognized"@)
            ||| occurs(lower, "unsupported"@)
            ||| occurs(lower, "invalid"@)
            ||| occurs(lower, "corrupt"@)
            ||| occurs(lower, "no space"@)
            ||| occurs(lower, "read-only"@)
            ||| occurs(lower, "permission denied"@)
            ||| occurs(lower, "not permitted"@)
            ||| occurs(lower, "cannot"@)
            ||| occurs(lower, "could not"@)
            ||| occurs(lower, "unable"@)
        },
{
}

/// The headline is the first line of all that reads like a reason; if there is none, no line does.
pub proof fn the_first_reason_is_the_headline(lines: Seq<Seq<char>>)
    ensures
        match headline(lines) {
            Some(h) => exists|i: int|
                0 <= i < lines.len() && #[trigger] lines[i] == h && marks_failure(lowercase(h))
                    && forall|k: int|
                    0 <= k < i ==> !marks_failure(lowercase(#[trigger] lines[k])),
            None => forall|k: int|
                0 <= k < lines.len() ==> !marks_failure(lowercase(#[trigger] lines[k])),
        },
    decreases lines.len(),
{
    if lines.len() > 0 {
        let rest = lines.drop_first();
        the_first_reason_is_the_headline(rest);
        if marks_failure(lowercase(lines[0])) {
            assert(lines[0] == headline(lines)->0);
        } else {
            assert forall|k: int| 1 <= k < lines.len() implies lines[k]
                == #[trigger] rest[k - 1] by {}
            if headline(rest) is Some {
                let h = headline(rest)->0;
                let i = choose|i: int|
                    0 <= i < rest.len() && #[trigger] rest[i] == h && forall|k: int|
                        0 <= k < i ==> !marks_failure(lowercase(#[trigger] rest[k]));
                assert(lines[i + 1] == h);
                assert forall|k: int| 0 <= k < i + 1 implies !marks_failure(
                    lowercase(#[trigger] lines[k]),
                ) by {
                    if k > 0 {
                        assert(rest[k - 1] == lines[k]);
                    }
                }
            } else {
                assert forall|k: int| 0 <= k < lines.len() implies !marks_failure(
                    lowercase(#[trigger] lines[k]),
                ) by {
                    if k > 0 {
                        assert(rest[k - 1] == lines[k]);
                    }
                }
            }
        }
    }
}

/// A failure message begins with its prefix, goes on with the reason where one is told, and ends with
/// the last lines that say anything, at most twenty, in their order. A stream that said nothing
/// leaves the prefix alone.
pub proof fn messages_show_the_reason_and_the_end(prefix: Seq<char>, tail: Seq<char>)
    ensures
        ({
            let all = lines(tail).filter(|l: Seq<char>| !is_blank(l));
            let n = if all.len() > 20 {
                20int
            } else {
                all.len() as int
            };
            let block = join(all.skip(all.len() - n), "\n"@);
            &&& all.len() == 0 ==> failure_text(prefix, tail) == prefix
            &&& all.len() > 0 && headline(all) is None ==> failure_text(prefix, tail) == prefix
                + ":\n"@ + block
            &&& all.len() > 0 && headline(all) is Some ==> failure_text(prefix, tail) == prefix
                + ": "@ + headline(all)->0 + "\n"@ + block
        }),
{
    let all = informative(tail);
    if all.len() <= 20 {
        assert(all.skip(0) =~= all);
    }
}

/// Of a stream its last bytes are kept, as many as there are up to the limit, and nothing depends on
/// how the stream was cut.
pub proof fn the_end_of_a_stream_is_kept(a: Seq<u8>, b: Seq<u8>, n: int)
    requires
        n >= 0,
    ensures
        last_bytes(a + b, n).len() == (if a.len() + b.len() < n {
            (a.len() + b.len()) as int
        } else {
            n
        }),
        last_bytes(last_bytes(a, n) + b, n) == last_bytes(a + b, n),
        b.len() <= n ==> last_bytes(a + b, n).skip(last_bytes(a + b, n).len() - b.len()) == b,
{
    let whole = a + b;
    let cut = last_bytes(a, n) + b;
    assert(last_bytes(cut, n) =~= last_bytes(whole, n));
    if b.len() <= n {
        let kept = last_bytes(whole, n);
        assert(kept.skip(kept.len() - b.len()) =~= b);
    }
}

/// The chunks of a stream are read one after the other.
pub proof fn chunks_are_read_in_order(a: Seq<Seq<u8>>, b: Seq<Seq<u8>>, chunk: Seq<u8>)
    ensures
        concatenated(a + b) == concatenated(a) + concatenated(b),
        concatenated(seq![chunk]) == chunk,
    decreases b.len(),
{
    reveal_with_fuel(concatenated, 2);
    assert(concatenated(seq![chunk]) =~= chunk);
    if b.len() == 0 {
        assert(a + b =~= a);
        assert(concatenated(a) + concatenated(b) =~= concatenated(a));
    } else {
        chunks_are_read_in_order(a, b.drop_last(), chunk);
        assert((a + b).drop_last() =~= a + b.drop_last());
        assert((a + b).last() == b.last());
        assert(concatenated(a + b) =~= concatenated(a) + concatenated(b));
    }
}

/// A stored message whose first line only announces a failure gets the reason into that line and
/// keeps all that stands below it; any other message stays.
pub proof fn stored_reasons_are_moved_up(first: Seq<char>, body: Seq<char>)
    requires
        !first.contains('\n'),
    ensures
        ({
            let message = first + "\n"@ + body;
            let bare = first == "Conversion failed:"@ || first
                == "Conversion produced an empty output file:"@;
            &&& promoted(message) is Some <==> bare && headline(lines(body)) is Some
            &&& bare && headline(lines(body)) is Some ==> promoted(message) == Some(
                first + " "@ + headline(lines(body))->0 + "\n"@ + body,
            )
        }),
        promoted(first) is None,
{
    reveal_strlit("\n");
    let message = first + "\n"@ + body;
    lemma_break_after(first, "\n"@ + body);
    assert(message =~= first + ("\n"@ + body));
    assert(message.take(first.len() as int) =~= first);
    assert(message.skip((first.len() + 1) as int) =~= body);
    lemma_break_after(first, Seq::empty());
    assert(first + Seq::<char>::empty() =~= first);
}

/// The first line feed after a text without one.
proof fn lemma_break_after(first: Seq<char>, rest: Seq<char>)
    requires
        !first.contains('\n'),
        rest.len() == 0 || rest[0] == '\n',
    ensures
        first_break(first + rest) == first.len(),
    decreases first.len(),
{
    let whole = first + rest;
    if first.len() == 0 {
        assert(whole =~= rest);
    } else {
        assert(first.contains(first[0]));
        let fewer = first.drop_first();
        assert(!fewer.contains('\n')) by {
            if fewer.contains('\n') {
                let i = choose|i: int| 0 <= i < fewer.len() && fewer[i] == '\n';
                assert(first[i + 1] == '\n');
            }
        }
        lemma_break_after(fewer, rest);
        assert(whole.drop_first() =~= fewer + rest);
    }
}


} // verus!
