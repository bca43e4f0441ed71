//! The encoder's progress: the lines that its output stream comes in, and what a line tells.

use crate::diagnostics::{lossy_text, text_from_bytes};
use crate::text::{all_digits, chars_of, decimal_text, holds, is_digit, numbers_are_read_within_bounds};
use crate::text::{occurs, parse_int, parse_unsigned};
use vstd::prelude::*;
use vstd::string::*;

verus! {

/// Whether a character ends a progress line.
pub open spec fn ends_line(c: char) -> bool {
    c == '\r' || c == '\n'
}

/// The pieces of a text between carriage returns and line feeds; the last one is still open.
pub open spec fn progress_lines(s: Seq<char>) -> Seq<Seq<char>>
    decreases s.len(),
{
    if s.len() == 0 {
        seq![Seq::<char>::empty()]
    } else {
        let head = progress_lines(s.drop_last());
        if ends_line(s.last()) {
            head.push(Seq::<char>::empty())
        } else {
            head.drop_last().push(head.last().push(s.last()))
        }
    }
}

/// The lines that are complete and not empty.
pub open spec fn complete_lines(s: Seq<char>) -> Seq<Seq<char>> {
    progress_lines(s).drop_last().filter(|l: Seq<char>| l.len() > 0)
}

/// The line that a stream was in when its last chunk ended.
#[derive(Debug, Clone)]
pub struct LineBuffer {
    pub partial: String,
}

impl LineBuffer {
    /// A buffer before the first chunk.
    pub fn new() -> (r: Self)
        ensures
            r.partial@ == Seq::<char>::empty(),
    {
        LineBuffer { partial: String::new() }
    }

    /// Takes in a piece of the stream's text and gives out the lines that it completes.
    pub fn take_in(&mut self, text: &str) -> (out: Vec<String>)
        ensures
            out.deep_view() == complete_lines(old(self).partial@ + text@),
            final(self).partial@ == progress_lines(old(self).partial@ + text@).last(),
    {
        let mut whole: String = self.partial.clone();
        whole.append(text);
        let (out, rest): (Vec<String>, String) = cut_lines(&whole);
        self.partial = rest;
        out
    }

    /// Takes in a chunk of the stream and gives out the lines that it completes.
    pub fn feed(&mut self, chunk: &Vec<u8>) -> (out: Vec<String>)
        ensures
            out.deep_view() == complete_lines(old(self).partial@ + lossy_text(chunk@)),
            final(self).partial@ == progress_lines(old(self).partial@ + lossy_text(chunk@)).last(),
    {
        let text: String = text_from_bytes(chunk);
        self.take_in(&text)
    }
}

/// A text has at least one line, if only an empty one.
proof fn lemma_some_line(s: Seq<char>)
    ensures
        progress_lines(s).len() >= 1,
    decreases s.len(),
{
    if s.len() > 0 {
        lemma_some_line(s.drop_last());
    }
}

/// The lines of a text are those of its beginning but the open one, and those of the open one with
/// the rest.
proof fn lemma_lines_of_sum(a: Seq<char>, b: Seq<char>)
    ensures
        progress_lines(a + b) == progress_lines(a).drop_last() + progress_lines(
            progress_lines(a).last() + b,
        ),
    decreases b.len(),
{
    let head = progress_lines(a).drop_last();
    let open = progress_lines(a).last();
    lemma_some_line(a);
    if b.len() == 0 {
        assert(a + b =~= a);
        assert(open + b =~= open);
        lemma_open_line(a);
        assert(progress_lines(a) =~= head + seq![open]);
    } else {
        let rest = b.drop_last();
        lemma_lines_of_sum(a, rest);
        lemma_some_line(open + rest);
        assert((a + b).drop_last() =~= a + rest);
        assert((open + b).drop_last() =~= open + rest);
        assert((a + b).last() == b.last());
        assert((open + b).last() == b.last());
        let tail = progress_lines(open + rest);
        assert((head + tail).last() == tail.last());
        assert(progress_lines(a + b) =~= head + progress_lines(open + b));
    }
}

/// The open line of a text holds no end of a line, so it is its own only line.
proof fn lemma_open_line(s: Seq<char>)
    ensures
        progress_lines(progress_lines(s).last()) == seq![progress_lines(s).last()],
    decreases s.len(),
{
    lemma_some_line(s);
    if s.len() == 0 {
        assert(progress_lines(Seq::<char>::empty()) =~= seq![Seq::<char>::empty()]);
    } else {
        let head = progress_lines(s.drop_last());
        lemma_some_line(s.drop_last());
        if ends_line(s.last()) {
            assert(progress_lines(Seq::<char>::empty()) =~= seq![Seq::<char>::empty()]);
        } else {
            lemma_open_line(s.drop_last());
            let longer = head.last().push(s.last());
            assert(longer.drop_last() =~= head.last());
            assert(progress_lines(longer) =~= seq![longer]);
        }
    }
}

/// Where the stream is cut into pieces makes no difference: the lines that two pieces complete are
/// those that both together complete, and the same line is left open.
pub proof fn lines_do_not_depend_on_pieces(partial: Seq<char>, a: Seq<char>, b: Seq<char>)
    ensures
        ({
            let open = progress_lines(partial + a).last();
            &&& complete_lines(partial + (a + b)) == complete_lines(partial + a) + complete_lines(
                open + b,
            )
            &&& progress_lines(partial + (a + b)).last() == progress_lines(open + b).last()
        }),
{
    let keep = |l: Seq<char>| l.len() > 0;
    let before = progress_lines(partial + a);
    let open = before.last();
    let after = progress_lines(open + b);
    assert(partial + (a + b) =~= (partial + a) + b);
    lemma_lines_of_sum(partial + a, b);
    lemma_some_line(partial + a);
    lemma_some_line(open + b);
    let all = before.drop_last() + after;
    assert(all.drop_last() =~= before.drop_last() + after.drop_last());
    lemma_filter_of_sum(before.drop_last(), after.drop_last(), keep);
    assert(all.last() == after.last());
}

/// What is kept of two rows is what is kept of each.
proof fn lemma_filter_of_sum(
    a: Seq<Seq<char>>,
    b: Seq<Seq<char>>,
    keep: spec_fn(Seq<char>) -> bool,
)
    ensures
        (a + b).filter(keep) == a.filter(keep) + b.filter(keep),
    decreases b.len(),
{
    reveal(Seq::filter);
    if b.len() == 0 {
        assert(a + b =~= a);
        assert(a.filter(keep) + b.filter(keep) =~= a.filter(keep));
    } else {
        lemma_filter_of_sum(a, b.drop_last(), keep);
        assert((a + b).drop_last() =~= a + b.drop_last());
        assert((a + b).last() == b.last());
        assert((a + b).filter(keep) =~= a.filter(keep) + b.filter(keep));
    }
}

/// Cuts a text into its complete lines and the open one.
fn cut_lines(s: &str) -> (r: (Vec<String>, String))
    ensures
        r.0.deep_view() == complete_lines(s@),
        r.1@ == progress_lines(s@).last(),
{
    let cs: Vec<char> = chars_of(s);
    let ghost keep = |l: Seq<char>| l.len() > 0;
    let mut out: Vec<String> = Vec::new();
    let mut piece: String = String::new();
    let mut i: usize = 0;
    let mut open: bool = false;
    assert(progress_lines(cs@.take(0)) =~= seq![Seq::<char>::empty()]);
    assert(complete_lines(cs@.take(0)) =~= Seq::<Seq<char>>::empty()) by {
        reveal(Seq::filter);
    }
    while i < cs.len()
        invariant
            i <= cs.len(),
            keep == (|l: Seq<char>| l.len() > 0),
            progress_lines(cs@.take(i as int)).len() >= 1,
            out.deep_view() == progress_lines(cs@.take(i as int)).drop_last().filter(keep),
            piece@ == progress_lines(cs@.take(i as int)).last(),
            open == (piece@.len() > 0),
        decreases cs.len() - i,
    {
        let c: char = cs[i];
        let ghost before = progress_lines(cs@.take(i as int));
        assert(cs@.take(i + 1).drop_last() =~= cs@.take(i as int));
        assert(cs@.take(i + 1).last() == c);
        if c == '\r' || c == '\n' {
            assert(progress_lines(cs@.take(i + 1)).drop_last() =~= before);
            assert(before.filter(keep) == if keep(before.last()) {
                before.drop_last().filter(keep).push(before.last())
            } else {
                before.drop_last().filter(keep)
            }) by {
                reveal(Seq::filter);
            }
            if open {
                let ghost shorter = out;
                out.push(piece);
                assert(out.deep_view() =~= shorter.deep_view().push(before.last()));
            }
            piece = String::new();
            open = false;
        } else {
            piece.push(c);
            open = true;
            assert(progress_lines(cs@.take(i + 1)).drop_last() =~= before.drop_last());
        }
        i = i + 1;
    }
    assert(cs@.take(i as int) =~= s@);
    (out, piece)
}

/// What a line must hold to be a progress line.
pub const PROGRESS_MARK: &'static str = "Encoding:";

/// A progress line with rates and the time left.
pub const FULL_PATTERN: &'static str =
    r"Encoding:.*?(\d+\.?\d*)\s*%\s*\((\d+\.?\d*)\s*fps,\s*avg\s*(\d+\.?\d*)\s*fps,\s*ETA\s*(\d+)h(\d+)m(\d+)s\)";

/// A progress line with the percentage alone.
pub const SIMPLE_PATTERN: &'static str = r"Encoding:.*?(\d+\.?\d*)\s*%";

/// The texts of the groups of the first match of a pattern in a text, the whole match first, as
/// `regex::Regex::captures` finds them.
pub uninterp spec fn captured(pattern: Seq<char>, text: Seq<char>) -> Option<Seq<Seq<char>>>;

/// `Vec<String>` by the texts that it holds.
pub open spec fn groups_view(groups: Option<Vec<String>>) -> Option<Seq<Seq<char>>> {
    match groups {
        Some(v) => Some(v.deep_view()),
        None => None,
    }
}

/// `regex::Regex::new` and `regex::Regex::captures`: the groups of the first match, the whole
/// match first; nothing if there is no match or the pattern is none. A group that took no part in
/// the match comes out empty. Which text each group holds is left to the pattern.
#[verifier::external_body]
fn regex_groups(pattern: &str, text: &str) -> (r: Option<Vec<String>>)
    ensures
        groups_view(r) == captured(pattern@, text@),
{
    let expression = regex::Regex::new(pattern).ok()?;
    let groups = expression.captures(text)?;
    Some(groups.iter().map(|g| g.map(|m| m.as_str().to_string()).unwrap_or_default()).collect())
}

/// Whether a text is a decimal number: digits, then at most one point and more digits.
pub open spec fn is_decimal_number(s: Seq<char>) -> bool {
    exists|k: int| #[trigger] splits_as_decimal(s, k)
}

/// Whether the first `k` characters are digits, and what follows is nothing or a point and digits.
pub open spec fn splits_as_decimal(s: Seq<char>, k: int) -> bool {
    &&& 1 <= k <= s.len()
    &&& forall|i: int| 0 <= i < s.len() && i != k ==> is_digit(#[trigger] s[i])
    &&& k < s.len() ==> s[k] == '.'
}

/// Whether a text is a decimal number.
pub fn decimal_number(s: &str) -> (r: bool)
    ensures
        r == is_decimal_number(s@),
{
    let cs: Vec<char> = chars_of(s);
    let mut k: usize = 0;
    while k < cs.len() && '0' <= cs[k] && cs[k] <= '9'
        invariant
            k <= cs.len(),
            cs@ == s@,
            forall|i: int| 0 <= i < k ==> is_digit(#[trigger] cs@[i]),
        decreases cs.len() - k,
    {
        k = k + 1;
    }
    proof {
        assert forall|j: int| #[trigger] splits_as_decimal(s@, j) implies j == k by {
            if j < k {
                assert(is_digit(cs@[j]));
            }
            if j > k {
                assert(is_digit(s@[k as int]));
            }
        }
    }
    if k == 0 {
        return false;
    }
    if k == cs.len() {
        assert(splits_as_decimal(s@, k as int));
        return true;
    }
    if cs[k] != '.' {
        return false;
    }
    let mut i: usize = k + 1;
    while i < cs.len()
        invariant
            k < i <= cs.len(),
            cs@ == s@,
            forall|j: int| k < j < i ==> is_digit(#[trigger] cs@[j]),
            forall|j: int| #[trigger] splits_as_decimal(s@, j) ==> j == k,
        decreases cs.len() - i,
    {
        if !('0' <= cs[i] && cs[i] <= '9') {
            assert(!is_digit(s@[i as int]));
            return false;
        }
        i = i + 1;
    }
    assert(splits_as_decimal(s@, k as int));
    true
}

/// What a progress line tells. The rates are decimal numbers as the encoder wrote them.
#[derive(Debug, Clone)]
pub struct Progress {
    pub percent: String,
    pub fps: String,
    pub avg_fps: String,
    pub eta_seconds: u64,
}

/// What a progress line tells, by its texts.
pub struct ProgressView {
    pub percent: Seq<char>,
    pub fps: Seq<char>,
    pub avg_fps: Seq<char>,
    pub eta_seconds: int,
}

impl View for Progress {
    type V = ProgressView;

    open spec fn view(&self) -> ProgressView {
        ProgressView {
            percent: self.percent@,
            fps: self.fps@,
            avg_fps: self.avg_fps@,
            eta_seconds: self.eta_seconds as int,
        }
    }
}

/// A progress by its view, if there is one.
pub open spec fn progress_view(p: Option<Progress>) -> Option<ProgressView> {
    match p {
        Some(x) => Some(x@),
        None => None,
    }
}

/// A number that a group writes.
pub open spec fn count_of(s: Seq<char>) -> Option<int> {
    parse_int(s, 0, u64::MAX as int)
}

/// The seconds of hours, minutes and seconds.
pub open spec fn seconds(h: int, m: int, s: int) -> int {
    h * 3600 + m * 60 + s
}

/// Whether the time left that the groups write, if they write one, is a number of seconds that
/// can be stored.
pub open spec fn eta_fits(groups: Seq<Seq<char>>) -> bool {
    groups.len() == 7 && count_of(groups[4]) is Some && count_of(groups[5]) is Some && count_of(
        groups[6],
    ) is Some ==> seconds(count_of(groups[4])->0, count_of(groups[5])->0, count_of(groups[6])->0)
        <= u64::MAX
}

/// What the groups of a full progress line tell.
pub open spec fn full_progress(groups: Seq<Seq<char>>) -> Option<ProgressView> {
    if groups.len() == 7 && is_decimal_number(groups[1]) && is_decimal_number(groups[2])
        && is_decimal_number(groups[3]) && count_of(groups[4]) is Some && count_of(
        groups[5],
    ) is Some && count_of(groups[6]) is Some {
        Some(
            ProgressView {
                percent: groups[1],
                fps: groups[2],
                avg_fps: groups[3],
                eta_seconds: seconds(
                    count_of(groups[4])->0,
                    count_of(groups[5])->0,
                    count_of(groups[6])->0,
                ),
            },
        )
    } else {
        None
    }
}

/// What the groups of a line with the percentage alone tell.
pub open spec fn simple_progress(groups: Seq<Seq<char>>) -> Option<ProgressView> {
    if groups.len() == 2 && is_decimal_number(groups[1]) {
        Some(
            ProgressView { percent: groups[1], fps: "0"@, avg_fps: "0"@, eta_seconds: 0 },
        )
    } else {
        None
    }
}

/// The seconds of hours, minutes and seconds, if they can be stored.
fn checked_seconds(h: u64, m: u64, s: u64) -> (r: Option<u64>)
    ensures
        r == (if seconds(h as int, m as int, s as int) <= u64::MAX {
            Some(seconds(h as int, m as int, s as int) as u64)
        } else {
            None
        }),
{
    let total: u128 = (h as u128) * 3600 + (m as u128) * 60 + (s as u128);
    if total <= u64::MAX as u128 {
        Some(total as u64)
    } else {
        None
    }
}

/// The time left that the groups of a full line write; `None` if they write none or it is too
/// large.
fn eta_of(groups: &Vec<String>) -> (r: Option<u64>)
    requires
        groups.len() == 7,
    ensures
        ({
            let g = groups.deep_view();
            let all = count_of(g[4]) is Some && count_of(g[5]) is Some && count_of(g[6]) is Some;
            let total = seconds(count_of(g[4])->0, count_of(g[5])->0, count_of(g[6])->0);
            r == if all && total <= u64::MAX {
                Some(total as u64)
            } else {
                None
            }
        }),
{
    let ghost g = groups.deep_view();
    assert(g[4] == groups[4]@ && g[5] == groups[5]@ && g[6] == groups[6]@);
    let h: u64 = match parse_unsigned(&groups[4], u64::MAX) {
        Some(n) => n,
        None => {
            return None;
        },
    };
    let m: u64 = match parse_unsigned(&groups[5], u64::MAX) {
        Some(n) => n,
        None => {
            return None;
        },
    };
    let s: u64 = match parse_unsigned(&groups[6], u64::MAX) {
        Some(n) => n,
        None => {
            return None;
        },
    };
    checked_seconds(h, m, s)
}

/// What the groups of a full progress line tell.
pub fn progress_of(groups: &Vec<String>) -> (r: Option<Progress>)
    requires
        eta_fits(groups.deep_view()),
    ensures
        progress_view(r) == full_progress(groups.deep_view()),
{
    let ghost g = groups.deep_view();
    assert(g.len() == groups.len());
    if groups.len() != 7 {
        return None;
    }
    assert(g[1] == groups[1]@ && g[2] == groups[2]@ && g[3] == groups[3]@);
    if !decimal_number(&groups[1]) || !decimal_number(&groups[2]) || !decimal_number(&groups[3]) {
        return None;
    }
    match eta_of(groups) {
        Some(eta_seconds) => Some(
            Progress {
                percent: groups[1].clone(),
                fps: groups[2].clone(),
                avg_fps: groups[3].clone(),
                eta_seconds,
            },
        ),
        None => None,
    }
}

/// What the groups of a line with the percentage alone tell.
pub fn percent_of(groups: &Vec<String>) -> (r: Option<Progress>)
    ensures
        progress_view(r) == simple_progress(groups.deep_view()),
{
    let ghost g = groups.deep_view();
    assert(g.len() == groups.len());
    if groups.len() != 2 {
        return None;
    }
    assert(g[1] == groups[1]@);
    if !decimal_number(&groups[1]) {
        return None;
    }
    Some(
        Progress {
            percent: groups[1].clone(),
            fps: "0".to_owned(),
            avg_fps: "0".to_owned(),
            eta_seconds: 0,
        },
    )
}

/// Whether the time left is one that can be stored.
fn eta_can_be_stored(groups: &Vec<String>) -> (r: bool)
    ensures
        r == eta_fits(groups.deep_view()),
{
    let ghost g = groups.deep_view();
    assert(g.len() == groups.len());
    if groups.len() != 7 {
        return true;
    }
    assert(g[4] == groups[4]@ && g[5] == groups[5]@ && g[6] == groups[6]@);
    match (
        parse_unsigned(&groups[4], u64::MAX),
        parse_unsigned(&groups[5], u64::MAX),
        parse_unsigned(&groups[6], u64::MAX),
    ) {
        (Some(h), Some(m), Some(s)) => checked_seconds(h, m, s).is_some(),
        _ => true,
    }
}

/// What the groups of a line tell: those of a full line if it is one, else those of a line with the
/// percentage alone. A time left that cannot be stored tells nothing.
pub open spec fn told(
    full: Option<Seq<Seq<char>>>,
    simple: Option<Seq<Seq<char>>>,
) -> Option<ProgressView> {
    match (full, simple) {
        (Some(groups), _) => if eta_fits(groups) {
            full_progress(groups)
        } else {
            None
        },
        (None, Some(groups)) => simple_progress(groups),
        (None, None) => None,
    }
}

/// What the groups of a line tell.
pub fn progress_from(full: &Option<Vec<String>>, simple: &Option<Vec<String>>) -> (r: Option<Progress>)
    ensures
        progress_view(r) == told(groups_view(*full), groups_view(*simple)),
{
    match full {
        Some(groups) => {
            if eta_can_be_stored(groups) {
                progress_of(groups)
            } else {
                None
            }
        },
        None => match simple {
            Some(groups) => percent_of(groups),
            None => None,
        },
    }
}

/// What a line of the encoder's output tells of its progress; `None` if it is no progress line or
/// tells a time left that cannot be stored.
pub fn parse_progress(line: &str) -> (r: Option<Progress>)
    ensures
        progress_view(r) == (if occurs(line@, "Encoding:"@) {
            told(captured(FULL_PATTERN@, line@), captured(SIMPLE_PATTERN@, line@))
        } else {
            None
        }),
{
    if !holds(line, PROGRESS_MARK) {
        return None;
    }
    let full: Option<Vec<String>> = regex_groups(FULL_PATTERN, line);
    let simple: Option<Vec<String>> = if full.is_some() {
        None
    } else {
        regex_groups(SIMPLE_PATTERN, line)
    };
    progress_from(&full, &simple)
}

/// A carriage return or a line feed ends a line, and no other character does.
pub proof fn returns_and_feeds_end_lines(s: Seq<char>, c: char)
    ensures
        progress_lines(s.push('\r')) == progress_lines(s).push(Seq::empty()),
        progress_lines(s.push('\n')) == progress_lines(s).push(Seq::empty()),
        c != '\r' && c != '\n' ==> {
            let lines = progress_lines(s);
            progress_lines(s.push(c)) == lines.drop_last().push(lines.last().push(c))
        },
        progress_lines(Seq::empty()) == seq![Seq::<char>::empty()],
{
    assert(s.push('\r').drop_last() =~= s);
    assert(s.push('\n').drop_last() =~= s);
    assert(s.push(c).drop_last() =~= s);
}

/// A line that is complete is given out unless it is empty.
pub proof fn complete_lines_are_given_out(line: Seq<char>)
    requires
        !line.contains('\r'),
        !line.contains('\n'),
    ensures
        line.len() > 0 ==> complete_lines(line.push('\n')) == seq![line],
        line.len() > 0 ==> complete_lines(line.push('\r')) == seq![line],
        line.len() == 0 ==> complete_lines(line.push('\n')) == Seq::<Seq<char>>::empty(),
        complete_lines(line) == Seq::<Seq<char>>::empty(),
        progress_lines(line) == seq![line],
{
    reveal(Seq::filter);
    lemma_one_line(line);
    returns_and_feeds_end_lines(line, ' ');
    let keep = |l: Seq<char>| l.len() > 0;
    let none = Seq::<Seq<char>>::empty();
    let one = seq![line];
    assert(progress_lines(line).drop_last() =~= none);
    assert(one.push(Seq::<char>::empty()).drop_last() =~= one);
    assert(one.drop_last() =~= none);
    assert(none.filter(keep) =~= none);
    if line.len() > 0 {
        assert(one.filter(keep) =~= one);
    }
}

/// A text without an end of a line is one line.
proof fn lemma_one_line(line: Seq<char>)
    requires
        !line.contains('\r'),
        !line.contains('\n'),
    ensures
        progress_lines(line) == seq![line],
    decreases line.len(),
{
    if line.len() == 0 {
        assert(line =~= Seq::<char>::empty());
    } else {
        let shorter = line.drop_last();
        assert(line.contains(line.last()));
        assert(!shorter.contains('\r') && !shorter.contains('\n')) by {
            if shorter.contains('\r') {
                let i = choose|i: int| 0 <= i < shorter.len() && shorter[i] == '\r';
                assert(line[i] == '\r');
            }
            if shorter.contains('\n') {
                let i = choose|i: int| 0 <= i < shorter.len() && shorter[i] == '\n';
                assert(line[i] == '\n');
            }
        }
        lemma_one_line(shorter);
        assert(shorter.push(line.last()) =~= line);
        assert(progress_lines(line) =~= seq![line]);
    }
}

/// A full progress line tells the percentage, the rate, the mean rate and the time left, in this
/// order; the time left is told in hours, minutes and seconds. A line with the percentage alone
/// counts only where the line is no full one, and tells no rate and no time left.
pub proof fn progress_is_read_from_its_groups(
    full: Seq<Seq<char>>,
    simple: Seq<Seq<char>>,
    h: nat,
    m: nat,
    s: nat,
)
    requires
        full.len() == 7,
        is_decimal_number(full[1]),
        is_decimal_number(full[2]),
        is_decimal_number(full[3]),
        full[4] == decimal_text(h),
        full[5] == decimal_text(m),
        full[6] == decimal_text(s),
        h * 3600 + m * 60 + s <= u64::MAX,
        simple.len() == 2,
    ensures
        told(Some(full), None) matches Some(p) && p.percent == full[1] && p.fps == full[2]
            && p.avg_fps == full[3] && p.eta_seconds == h * 3600 + m * 60 + s,
        told(Some(full), Some(simple)) == told(Some(full), None),
        is_decimal_number(simple[1]) ==> (told(None, Some(simple)) matches Some(p) && p.percent
            == simple[1] && p.eta_seconds == 0 && p.fps == "0"@ && p.avg_fps == "0"@),
        !is_decimal_number(simple[1]) ==> told(None, Some(simple)) is None,
        told(None, None) is None,
{
    numbers_are_read_within_bounds(h, 0, u64::MAX as int);
    numbers_are_read_within_bounds(m, 0, u64::MAX as int);
    numbers_are_read_within_bounds(s, 0, u64::MAX as int);
}

/// Digits are a decimal number, with or without a point and more digits behind it; nothing else is.
pub proof fn decimal_numbers_are_digits(a: Seq<char>, b: Seq<char>, other: Seq<char>)
    requires
        a.len() > 0,
        all_digits(a),
        all_digits(b),
    ensures
        is_decimal_number(a),
        is_decimal_number(a.push('.') + b),
        is_decimal_number(other) ==> other.len() > 0 && is_digit(other[0]) && forall|i: int|
            0 <= i < other.len() ==> is_digit(#[trigger] other[i]) || other[i] == '.',
{
    assert(splits_as_decimal(a, a.len() as int));
    let whole = a.push('.') + b;
    assert(splits_as_decimal(whole, a.len() as int)) by {
        assert forall|i: int| 0 <= i < whole.len() && i != a.len() implies is_digit(
            #[trigger] whole[i],
        ) by {
            if i < a.len() {
                assert(whole[i] == a[i]);
            } else {
                assert(whole[i] == b[i - a.len() - 1]);
            }
        }
    }
}


} // verus!
