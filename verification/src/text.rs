//! Texts as sequences of characters: searching, cutting, joining, and the numbers that they write.

use vstd::prelude::*;
use vstd::string::*;
use vstd::utf8::is_ascii_chars;

verus! {

/// `String::push`: the string grows by one character at its end.
pub assume_specification[ String::push ](s: &mut String, c: char)
    ensures
        final(s)@ == old(s)@.push(c),
;

/// The characters of a string, in order.
pub fn chars_of(s: &str) -> (out: Vec<char>)
    ensures
        out@ == s@,
{
    let mut out: Vec<char> = Vec::new();
    for c in it: s.chars()
        invariant
            it.seq() == s@,
            out@ == s@.take(it.index()),
    {
        out.push(c);
    }
    out
}

/// The string made of the given characters.
pub fn text_of(cs: &Vec<char>) -> (s: String)
    ensures
        s@ == cs@,
{
    let mut s: String = String::new();
    let mut i: usize = 0;
    while i < cs.len()
        invariant
            i <= cs.len(),
            s@ == cs@.take(i as int),
        decreases cs.len() - i,
    {
        s.push(cs[i]);
        i = i + 1;
    }
    s
}

/// Whether `needle` stands in `hay` from position `i` on.
pub open spec fn occurs_at(hay: Seq<char>, needle: Seq<char>, i: int) -> bool {
    0 <= i && i + needle.len() <= hay.len() && hay.subrange(i, i + needle.len()) == needle
}

/// Whether `needle` stands anywhere in `hay`.
pub open spec fn occurs(hay: Seq<char>, needle: Seq<char>) -> bool {
    exists|i: int| occurs_at(hay, needle, i)
}

/// Whether `i` is the leftmost position, from `from` on, at which `needle` stands in `hay`.
pub open spec fn first_from(hay: Seq<char>, needle: Seq<char>, from: int, i: int) -> bool {
    &&& from <= i
    &&& occurs_at(hay, needle, i)
    &&& forall|j: int| from <= j < i ==> !occurs_at(hay, needle, j)
}

/// Tests one position of `hay` for `needle`.
pub fn is_at(hay: &Vec<char>, needle: &Vec<char>, i: usize) -> (r: bool)
    ensures
        r == occurs_at(hay@, needle@, i as int),
{
    if needle.len() > hay.len() || i > hay.len() - needle.len() {
        return false;
    }
    let mut k: usize = 0;
    while k < needle.len()
        invariant
            k <= needle.len(),
            i + needle.len() <= hay.len(),
            forall|j: int| 0 <= j < k ==> hay@[i + j] == needle@[j],
        decreases needle.len() - k,
    {
        if hay[i + k] != needle[k] {
            assert(hay@.subrange(i as int, i + needle@.len())[k as int] != needle@[k as int]);
            return false;
        }
        k = k + 1;
    }
    assert(hay@.subrange(i as int, i + needle@.len()) =~= needle@);
    true
}

/// The leftmost position from `from` on at which `needle` stands in `hay`.
pub fn find_from(hay: &Vec<char>, needle: &Vec<char>, from: usize) -> (r: Option<usize>)
    ensures
        match r {
            Some(i) => first_from(hay@, needle@, from as int, i as int),
            None => forall|j: int| from <= j ==> !occurs_at(hay@, needle@, j),
        },
{
    let mut i: usize = from;
    while i <= hay.len()
        invariant
            from <= i,
            i <= hay.len() + 1 || i == from,
            forall|j: int| from <= j < i ==> !occurs_at(hay@, needle@, j),
        decreases hay.len() + 1 - i,
    {
        if is_at(hay, needle, i) {
            return Some(i);
        }
        if i == hay.len() {
            return None;
        }
        i = i + 1;
    }
    None
}

/// Whether `needle` stands anywhere in `hay`.
pub fn holds(hay: &str, needle: &str) -> (r: bool)
    ensures
        r == occurs(hay@, needle@),
{
    let h: Vec<char> = chars_of(hay);
    let n: Vec<char> = chars_of(needle);
    match find_from(&h, &n, 0) {
        Some(i) => {
            assert(occurs_at(hay@, needle@, i as int));
            true
        },
        None => {
            assert forall|i: int| !occurs_at(hay@, needle@, i) by {
                if occurs_at(hay@, needle@, i) {
                    assert(0 <= i);
                }
            }
            false
        },
    }
}

/// Whether two strings hold the same characters.
pub fn same(a: &str, b: &str) -> (r: bool)
    ensures
        r == (a@ == b@),
{
    let x: Vec<char> = chars_of(a);
    let y: Vec<char> = chars_of(b);
    same_chars(&x, &y)
}

/// Whether two character vectors are equal.
pub fn same_chars(x: &Vec<char>, y: &Vec<char>) -> (r: bool)
    ensures
        r == (x@ == y@),
{
    if x.len() != y.len() {
        return false;
    }
    let r: bool = is_at(x, y, 0);
    assert(x@.subrange(0, y@.len() as int) =~= x@);
    r
}

/// Whether `s` begins with `prefix`.
pub open spec fn begins(s: Seq<char>, prefix: Seq<char>) -> bool {
    occurs_at(s, prefix, 0)
}

/// Whether `s` ends with `suffix`.
pub open spec fn ends(s: Seq<char>, suffix: Seq<char>) -> bool {
    occurs_at(s, suffix, s.len() - suffix.len())
}

/// Whether `s` begins with `prefix`.
pub fn starts_with(s: &str, prefix: &str) -> (r: bool)
    ensures
        r == begins(s@, prefix@),
{
    is_at(&chars_of(s), &chars_of(prefix), 0)
}

/// Whether `s` ends with `suffix`.
pub fn ends_with(s: &str, suffix: &str) -> (r: bool)
    ensures
        r == ends(s@, suffix@),
{
    let h: Vec<char> = chars_of(s);
    let n: Vec<char> = chars_of(suffix);
    if n.len() > h.len() {
        return false;
    }
    is_at(&h, &n, h.len() - n.len())
}

/// A copy of the characters from `from` up to, not including, `to`.
pub fn slice_of(cs: &Vec<char>, from: usize, to: usize) -> (out: Vec<char>)
    requires
        from <= to <= cs.len(),
    ensures
        out@ == cs@.subrange(from as int, to as int),
{
    let mut out: Vec<char> = Vec::new();
    let mut i: usize = from;
    while i < to
        invariant
            from <= i <= to <= cs.len(),
            out@ == cs@.subrange(from as int, i as int),
        decreases to - i,
    {
        out.push(cs[i]);
        i = i + 1;
        assert(cs@.subrange(from as int, i as int) =~= cs@.subrange(from as int, i - 1).push(
            cs@[i - 1],
        ));
    }
    out
}

/// The text `a` followed by `b`.
pub fn joined2(a: &str, b: &str) -> (s: String)
    ensures
        s@ == a@ + b@,
{
    a.to_owned().concat(b)
}

/// The text `a` followed by `b` and `c`.
pub fn joined3(a: &str, b: &str, c: &str) -> (s: String)
    ensures
        s@ == a@ + b@ + c@,
{
    a.to_owned().concat(b).concat(c)
}

/// Unicode's `White_Space` property.
pub open spec fn is_white(c: char) -> bool {
    ||| '\u{9}' <= c <= '\u{d}'
    ||| c == '\u{20}'
    ||| c == '\u{85}'
    ||| c == '\u{a0}'
    ||| c == '\u{1680}'
    ||| '\u{2000}' <= c <= '\u{200a}'
    ||| c == '\u{2028}'
    ||| c == '\u{2029}'
    ||| c == '\u{202f}'
    ||| c == '\u{205f}'
    ||| c == '\u{3000}'
}

/// Whether a character is white space.
pub fn white(c: char) -> (r: bool)
    ensures
        r == is_white(c),
{
    ('\u{9}' <= c && c <= '\u{d}') || c == '\u{20}' || c == '\u{85}' || c == '\u{a0}' || c
        == '\u{1680}' || ('\u{2000}' <= c && c <= '\u{200a}') || c == '\u{2028}' || c == '\u{2029}'
        || c == '\u{202f}' || c == '\u{205f}' || c == '\u{3000}'
}

/// Whether a text holds nothing but white space.
pub open spec fn is_blank(s: Seq<char>) -> bool {
    forall|i: int| 0 <= i < s.len() ==> is_white(#[trigger] s[i])
}

/// Whether a text holds nothing but white space.
pub fn blank(s: &str) -> (r: bool)
    ensures
        r == is_blank(s@),
{
    let cs: Vec<char> = chars_of(s);
    let mut i: usize = 0;
    while i < cs.len()
        invariant
            i <= cs.len(),
            cs@ == s@,
            forall|j: int| 0 <= j < i ==> is_white(#[trigger] cs@[j]),
        decreases cs.len() - i,
    {
        if !white(cs[i]) {
            assert(!is_white(s@[i as int]));
            return false;
        }
        i = i + 1;
    }
    true
}

/// `s` without the white space it begins with.
pub open spec fn trim_start(s: Seq<char>) -> Seq<char>
    decreases s.len(),
{
    if s.len() > 0 && is_white(s[0]) {
        trim_start(s.drop_first())
    } else {
        s
    }
}

/// `s` without the white space it ends with.
pub open spec fn trim_end(s: Seq<char>) -> Seq<char>
    decreases s.len(),
{
    if s.len() > 0 && is_white(s.last()) {
        trim_end(s.drop_last())
    } else {
        s
    }
}

/// `s` without the white space at either end.
pub open spec fn trim(s: Seq<char>) -> Seq<char> {
    trim_end(trim_start(s))
}

/// `s` without the white space at either end.
pub fn trimmed(s: &str) -> (r: String)
    ensures
        r@ == trim(s@),
{
    let cs: Vec<char> = chars_of(s);
    let n: usize = cs.len();
    let mut from: usize = 0;
    assert(cs@.subrange(0, n as int) =~= cs@);
    while from < n && white(cs[from])
        invariant
            from <= n == cs.len(),
            trim_start(cs@) == trim_start(cs@.subrange(from as int, n as int)),
        decreases n - from,
    {
        assert(cs@.subrange(from as int, n as int).drop_first() =~= cs@.subrange(
            from + 1,
            n as int,
        ));
        from = from + 1;
    }
    let ghost body = cs@.subrange(from as int, n as int);
    assert(trim_start(cs@) == body);
    let mut to: usize = n;
    while to > from && white(cs[to - 1])
        invariant
            from <= to <= n == cs.len(),
            body == cs@.subrange(from as int, n as int),
            trim_end(body) == trim_end(cs@.subrange(from as int, to as int)),
        decreases to,
    {
        assert(cs@.subrange(from as int, to as int).drop_last() =~= cs@.subrange(
            from as int,
            to - 1,
        ));
        to = to - 1;
    }
    text_of(&slice_of(&cs, from, to))
}

/// The pieces of `s` between the separators; one more than there are separators.
pub open spec fn split(s: Seq<char>, sep: char) -> Seq<Seq<char>>
    decreases s.len(),
{
    if s.len() == 0 {
        seq![Seq::<char>::empty()]
    } else {
        let head = split(s.drop_last(), sep);
        if s.last() == sep {
            head.push(Seq::<char>::empty())
        } else {
            head.drop_last().push(head.last().push(s.last()))
        }
    }
}

/// A split has at least one piece.
pub proof fn lemma_split_len(s: Seq<char>, sep: char)
    ensures
        split(s, sep).len() >= 1,
    decreases s.len(),
{
    if s.len() > 0 {
        lemma_split_len(s.drop_last(), sep);
    }
}

/// The pieces of `s` between the separators.
pub fn split_on(s: &str, sep: char) -> (out: Vec<String>)
    ensures
        out.deep_view() == split(s@, sep),
{
    let cs: Vec<char> = chars_of(s);
    let mut out: Vec<String> = Vec::new();
    let mut piece: String = String::new();
    let mut i: usize = 0;
    assert(split(cs@.take(0), sep) =~= seq![Seq::<char>::empty()]);
    while i < cs.len()
        invariant
            i <= cs.len(),
            split(cs@.take(i as int), sep).len() >= 1,
            out.deep_view() == split(cs@.take(i as int), sep).drop_last(),
            piece@ == split(cs@.take(i as int), sep).last(),
        decreases cs.len() - i,
    {
        let c: char = cs[i];
        let ghost before = split(cs@.take(i as int), sep);
        assert(cs@.take(i + 1).drop_last() =~= cs@.take(i as int));
        assert(cs@.take(i + 1).last() == c);
        if c == sep {
            let ghost shorter = out;
            out.push(piece);
            piece = String::new();
            assert(out.deep_view() =~= shorter.deep_view().push(before.last()));
            assert(out.deep_view() =~= before);
            assert(split(cs@.take(i + 1), sep).drop_last() =~= before);
        } else {
            piece.push(c);
            assert(split(cs@.take(i + 1), sep).drop_last() =~= before.drop_last());
        }
        i = i + 1;
    }
    assert(cs@.take(i as int) =~= s@);
    let ghost shorter = out;
    out.push(piece);
    assert(out.deep_view() =~= shorter.deep_view().push(split(s@, sep).last()));
    assert(out.deep_view() =~= split(s@, sep));
    out
}

/// `s` without one trailing carriage return, if it has one.
pub open spec fn without_cr(s: Seq<char>) -> Seq<char> {
    if s.len() > 0 && s.last() == '\r' {
        s.drop_last()
    } else {
        s
    }
}

/// The lines of a text: what stands before each line feed, less one carriage return, and what
/// stands after the last line feed if that is anything.
pub open spec fn lines(s: Seq<char>) -> Seq<Seq<char>> {
    let parts = split(s, '\n');
    let last = parts.last();
    let ended = parts.drop_last().map_values(|l: Seq<char>| without_cr(l));
    if last.len() == 0 {
        ended
    } else {
        ended.push(last)
    }
}

/// The lines of a text.
pub fn lines_of(s: &str) -> (out: Vec<String>)
    ensures
        out.deep_view() == lines(s@),
{
    let parts: Vec<String> = split_on(s, '\n');
    let ghost pv = split(s@, '\n');
    proof {
        lemma_split_len(s@, '\n');
        assert(parts.deep_view().len() == parts.len());
    }
    let ghost ended = pv.drop_last().map_values(|l: Seq<char>| without_cr(l));
    let mut out: Vec<String> = Vec::new();
    let mut i: usize = 0;
    while i < parts.len() - 1
        invariant
            parts.deep_view() == pv,
            pv.len() == parts.len() >= 1,
            ended == pv.drop_last().map_values(|l: Seq<char>| without_cr(l)),
            i <= parts.len() - 1,
            out.deep_view() == ended.take(i as int),
        decreases parts.len() - i,
    {
        assert(parts.deep_view()[i as int] == parts[i as int]@);
        let cs: Vec<char> = chars_of(&parts[i]);
        let line: Vec<char> = if cs.len() > 0 && cs[cs.len() - 1] == '\r' {
            slice_of(&cs, 0, cs.len() - 1)
        } else {
            cs
        };
        let ghost shorter = out;
        out.push(text_of(&line));
        assert(line@ == ended[i as int]);
        assert(out.deep_view() =~= shorter.deep_view().push(line@));
        i = i + 1;
        assert(ended.take(i as int) =~= ended.take(i - 1).push(line@));
    }
    assert(ended.take(i as int) =~= ended);
    assert(parts.deep_view()[i as int] == parts[i as int]@);
    if !parts[i].as_str().is_empty() {
        let ghost shorter = out;
        out.push(parts[i].clone());
        assert(out.deep_view() =~= shorter.deep_view().push(pv.last()));
    }
    out
}

/// The texts `parts` with `sep` between each two.
pub open spec fn join(parts: Seq<Seq<char>>, sep: Seq<char>) -> Seq<char>
    decreases parts.len(),
{
    if parts.len() == 0 {
        Seq::empty()
    } else if parts.len() == 1 {
        parts[0]
    } else {
        join(parts.drop_last(), sep) + sep + parts.last()
    }
}

/// The texts of `parts` from `from` on, with `sep` between each two.
pub fn joined_from(parts: &Vec<String>, from: usize, sep: &str) -> (s: String)
    requires
        from <= parts.len(),
    ensures
        s@ == join(parts.deep_view().skip(from as int), sep@),
{
    let ghost all = parts.deep_view().skip(from as int);
    let mut s: String = String::new();
    let mut i: usize = from;
    while i < parts.len()
        invariant
            from <= i <= parts.len(),
            all == parts.deep_view().skip(from as int),
            s@ == join(all.take(i - from), sep@),
        decreases parts.len() - i,
    {
        assert(all.take(i - from + 1).drop_last() =~= all.take(i - from));
        assert(all[i - from] == parts.deep_view()[i as int]);
        assert(all.take(i - from + 1).last() == parts[i as int]@);
        if i > from {
            s.append(sep);
        }
        s.append(&parts[i]);
        i = i + 1;
        assert(s@ == join(all.take(i - from), sep@));
    }
    assert(all.take(i - from) =~= all);
    s
}

/// The leftmost position of `needle` in `hay`.
pub open spec fn index_of(hay: Seq<char>, needle: Seq<char>) -> int {
    choose|i: int| first_from(hay, needle, 0, i)
}

/// Two leftmost positions are the same.
pub proof fn lemma_first_unique(hay: Seq<char>, needle: Seq<char>, i: int)
    requires
        first_from(hay, needle, 0, i),
    ensures
        index_of(hay, needle) == i,
{
    let j = index_of(hay, needle);
    assert(first_from(hay, needle, 0, j));
    if j < i {
        assert(!occurs_at(hay, needle, j));
    }
    if i < j {
        assert(!occurs_at(hay, needle, i));
    }
}

/// `s` with the leftmost `from` turned into `to`; `s` itself where there is none.
pub open spec fn replace_first(s: Seq<char>, from: Seq<char>, to: Seq<char>) -> Seq<char> {
    if occurs(s, from) {
        let i = index_of(s, from);
        s.take(i) + to + s.skip(i + from.len())
    } else {
        s
    }
}

/// `s` with the leftmost `from` turned into `to`.
pub fn with_first_replaced(s: &str, from: &str, to: &str) -> (r: String)
    ensures
        r@ == replace_first(s@, from@, to@),
{
    let h: Vec<char> = chars_of(s);
    let n: Vec<char> = chars_of(from);
    match find_from(&h, &n, 0) {
        Some(i) => {
            proof {
                lemma_first_unique(s@, from@, i as int);
            }
            assert(occurs_at(h@, n@, i as int));
            assert(i + n@.len() <= h@.len());
            assert(h@.len() == h.len() && n@.len() == n.len());
            assert(s@.take(i as int) =~= s@.subrange(0, i as int));
            assert(s@.skip(i + from@.len()) =~= s@.subrange(i + from@.len(), s@.len() as int));
            let before: String = text_of(&slice_of(&h, 0, i));
            let after: String = text_of(&slice_of(&h, i + n.len(), h.len()));
            joined3(&before, to, &after)
        },
        None => {
            assert forall|i: int| !occurs_at(s@, from@, i) by {
                if occurs_at(s@, from@, i) {
                    assert(0 <= i);
                }
            }
            s.to_owned()
        },
    }
}

/// `s` with every `from`, read from the left without overlap, turned into `to`.
pub open spec fn replace_all(s: Seq<char>, from: Seq<char>, to: Seq<char>) -> Seq<char>
    decreases s.len(),
{
    if from.len() == 0 || s.len() < from.len() {
        s
    } else if occurs_at(s, from, 0) {
        to + replace_all(s.skip(from.len() as int), from, to)
    } else {
        seq![s[0]] + replace_all(s.skip(1), from, to)
    }
}

/// `s` with every `from` turned into `to`.
pub fn with_all_replaced(s: &str, from: &str, to: &str) -> (r: String)
    requires
        from@.len() > 0,
    ensures
        r@ == replace_all(s@, from@, to@),
{
    let h: Vec<char> = chars_of(s);
    let n: Vec<char> = chars_of(from);
    let mut out: String = String::new();
    let mut i: usize = 0;
    assert(s@.skip(0) =~= s@);
    while i < h.len()
        invariant
            i <= h.len(),
            h@ == s@,
            n@ == from@,
            from@.len() > 0,
            out@ + replace_all(s@.skip(i as int), from@, to@) == replace_all(s@, from@, to@),
        decreases h.len() - i,
    {
        let ghost rest = s@.skip(i as int);
        assert(occurs_at(rest, from@, 0) == occurs_at(s@, from@, i as int)) by {
            if i + from@.len() <= s@.len() {
                assert(rest.subrange(0, from@.len() as int) =~= s@.subrange(
                    i as int,
                    i + from@.len(),
                ));
            }
        }
        let ghost done = out@;
        if is_at(&h, &n, i) {
            out.append(to);
            assert(rest.skip(from@.len() as int) =~= s@.skip(i + from@.len()));
            assert(done + (to@ + replace_all(s@.skip(i + from@.len()), from@, to@)) =~= out@
                + replace_all(s@.skip(i + from@.len()), from@, to@));
            i = i + n.len();
        } else {
            out.push(h[i]);
            assert(rest.skip(1) =~= s@.skip(i + 1));
            assert(rest[0] == h@[i as int]);
            proof {
                if rest.len() < from@.len() {
                    assert(replace_all(s@.skip(i + 1), from@, to@) == s@.skip(i + 1));
                    assert(rest =~= seq![rest[0]] + s@.skip(i + 1));
                }
            }
            assert(done + (seq![rest[0]] + replace_all(s@.skip(i + 1), from@, to@)) =~= out@
                + replace_all(s@.skip(i + 1), from@, to@));
            i = i + 1;
        }
    }
    assert(s@.skip(i as int) =~= Seq::<char>::empty());
    assert(out@ + Seq::<char>::empty() =~= out@);
    out
}

/// An ASCII letter in lower case; any other character as it is.
pub open spec fn ascii_lower(c: char) -> char {
    if 'A' <= c <= 'Z' {
        ((c as u32) + 32) as char
    } else {
        c
    }
}

/// A text with its ASCII letters in lower case.
pub open spec fn ascii_lowered(s: Seq<char>) -> Seq<char> {
    s.map_values(|c: char| ascii_lower(c))
}

/// An ASCII letter in lower case; any other character as it is.
pub fn lower_ascii(c: char) -> (r: char)
    ensures
        r == ascii_lower(c),
{
    if 'A' <= c && c <= 'Z' {
        ((c as u8) + 32) as char
    } else {
        c
    }
}

/// A text with its ASCII letters in lower case.
pub fn lower_ascii_letters(s: &str) -> (r: String)
    ensures
        r@ == ascii_lowered(s@),
{
    let cs: Vec<char> = chars_of(s);
    let mut out: Vec<char> = Vec::new();
    let mut i: usize = 0;
    while i < cs.len()
        invariant
            i <= cs.len(),
            cs@ == s@,
            out.len() == i,
            forall|j: int| 0 <= j < i ==> #[trigger] out@[j] == ascii_lower(s@[j]),
        decreases cs.len() - i,
    {
        out.push(lower_ascii(cs[i]));
        i = i + 1;
    }
    assert(out@ =~= ascii_lowered(s@));
    text_of(&out)
}

/// Whether two texts are equal when their ASCII letters are put in lower case.
pub fn same_ignoring_ascii_case(a: &str, b: &str) -> (r: bool)
    ensures
        r == (ascii_lowered(a@) == ascii_lowered(b@)),
{
    let x: Vec<char> = chars_of(a);
    let y: Vec<char> = chars_of(b);
    if x.len() != y.len() {
        assert(ascii_lowered(a@).len() != ascii_lowered(b@).len());
        return false;
    }
    let mut i: usize = 0;
    while i < x.len()
        invariant
            i <= x.len() == y.len(),
            x@ == a@,
            y@ == b@,
            forall|j: int| 0 <= j < i ==> ascii_lower(#[trigger] x@[j]) == ascii_lower(y@[j]),
        decreases x.len() - i,
    {
        if lower_ascii(x[i]) != lower_ascii(y[i]) {
            assert(ascii_lowered(a@)[i as int] != ascii_lowered(b@)[i as int]);
            return false;
        }
        i = i + 1;
    }
    assert(ascii_lowered(a@) =~= ascii_lowered(b@));
    true
}

/// What `str::to_lowercase` makes of a text that is not all ASCII.
pub uninterp spec fn unicode_lowercase(s: Seq<char>) -> Seq<char>;

/// A text in lower case.
pub open spec fn lowercase(s: Seq<char>) -> Seq<char> {
    if is_ascii_chars(s) {
        ascii_lowered(s)
    } else {
        unicode_lowercase(s)
    }
}

/// `str::to_lowercase`: Unicode's lower case of a text. Of a text of ASCII characters it is the
/// text with its ASCII letters in lower case.
#[verifier::external_body]
pub(crate) fn lowered(s: &str) -> (r: String)
    ensures
        is_ascii_chars(s@) ==> r@ == ascii_lowered(s@),
        !is_ascii_chars(s@) ==> r@ == unicode_lowercase(s@),
{
    s.to_lowercase()
}

/// Whether `char::is_alphanumeric` holds of a character beyond ASCII.
pub uninterp spec fn unicode_alphanumeric(c: char) -> bool;

/// Whether an ASCII character is a letter or a digit.
pub open spec fn ascii_alphanumeric(c: char) -> bool {
    'a' <= c <= 'z' || 'A' <= c <= 'Z' || '0' <= c <= '9'
}

/// Whether a character is a letter or a number.
pub open spec fn is_alphanumeric(c: char) -> bool {
    if c as u32 <= 127 {
        ascii_alphanumeric(c)
    } else {
        unicode_alphanumeric(c)
    }
}

/// `char::is_alphanumeric`: whether Unicode counts a character as a letter or a number. Of an
/// ASCII character it is whether that is a letter or a digit.
#[verifier::external_body]
pub(crate) fn alphanumeric(c: char) -> (r: bool)
    ensures
        c as u32 <= 127 ==> r == ascii_alphanumeric(c),
        c as u32 > 127 ==> r == unicode_alphanumeric(c),
{
    c.is_alphanumeric()
}

/// Whether a character is an ASCII digit.
pub open spec fn is_digit(c: char) -> bool {
    '0' <= c <= '9'
}

/// Whether a text holds nothing but ASCII digits.
pub open spec fn all_digits(s: Seq<char>) -> bool {
    forall|i: int| 0 <= i < s.len() ==> is_digit(#[trigger] s[i])
}

/// Whether the characters from `from` on are all ASCII digits.
pub fn digits_from(cs: &Vec<char>, from: usize) -> (r: bool)
    requires
        from <= cs.len(),
    ensures
        r == all_digits(cs@.skip(from as int)),
{
    let mut i: usize = from;
    while i < cs.len()
        invariant
            from <= i <= cs.len(),
            forall|j: int| from <= j < i ==> is_digit(#[trigger] cs@[j]),
        decreases cs.len() - i,
    {
        if !('0' <= cs[i] && cs[i] <= '9') {
            assert(cs@.skip(from as int)[i - from] == cs@[i as int]);
            return false;
        }
        i = i + 1;
    }
    true
}

/// The number that a row of decimal digits writes.
pub open spec fn decimal(s: Seq<char>) -> int
    decreases s.len(),
{
    if s.len() == 0 {
        0
    } else {
        decimal(s.drop_last()) * 10 + (s.last() as u32 - 48)
    }
}

/// A longer row of digits writes no smaller number.
pub proof fn lemma_decimal_grows(s: Seq<char>, i: int)
    requires
        all_digits(s),
        0 <= i <= s.len(),
    ensures
        0 <= decimal(s.take(i)) <= decimal(s),
    decreases s.len(),
{
    if i == s.len() {
        assert(s.take(i) =~= s);
        if s.len() > 0 {
            assert(all_digits(s.drop_last()));
            lemma_decimal_grows(s.drop_last(), s.len() - 1);
            assert(s.drop_last().take(s.len() - 1) =~= s.drop_last());
            assert(is_digit(s[s.len() - 1]));
        }
    } else {
        assert(all_digits(s.drop_last()));
        lemma_decimal_grows(s.drop_last(), i);
        assert(s.drop_last().take(i) =~= s.take(i));
        assert(is_digit(s[s.len() - 1]));
    }
}

/// The number from `lo` to `hi` that a text writes in decimal, with an optional sign; `-` counts
/// only where `lo` is negative.
pub open spec fn parse_int(s: Seq<char>, lo: int, hi: int) -> Option<int> {
    let negative = s.len() > 0 && s[0] == '-' && lo < 0;
    let body = if negative || (s.len() > 0 && s[0] == '+') {
        s.skip(1)
    } else {
        s
    };
    let value = if negative {
        -decimal(body)
    } else {
        decimal(body)
    };
    if body.len() > 0 && all_digits(body) && lo <= value <= hi {
        Some(value)
    } else {
        None
    }
}

/// The value of the digits from `from` on, if it is at most `max`.
pub fn value_from(cs: &Vec<char>, from: usize, max: u64) -> (r: Option<u64>)
    requires
        from <= cs.len(),
        all_digits(cs@.skip(from as int)),
    ensures
        r == (if decimal(cs@.skip(from as int)) <= max {
            Some(decimal(cs@.skip(from as int)) as u64)
        } else {
            None
        }),
{
    let ghost body = cs@.skip(from as int);
    let mut value: u64 = 0;
    let mut i: usize = from;
    while i < cs.len()
        invariant
            from <= i <= cs.len(),
            body == cs@.skip(from as int),
            all_digits(body),
            value == decimal(body.take(i - from)),
            value <= max,
        decreases cs.len() - i,
    {
        assert(body[i - from] == cs@[i as int]);
        assert(is_digit(body[i - from]));
        let d: u64 = (cs[i] as u32 - 48) as u64;
        assert(body.take(i - from + 1).drop_last() =~= body.take(i - from));
        assert(decimal(body.take(i - from + 1)) == value * 10 + d);
        proof {
            lemma_decimal_grows(body, i - from + 1);
        }
        if value > max / 10 || d > max || value * 10 > max - d {
            assert(value * 10 + d > max);
            return None;
        }
        value = value * 10 + d;
        i = i + 1;
    }
    assert(body.take(i - from) =~= body);
    Some(value)
}

/// `str::parse` for an unsigned number up to `max`.
pub fn parse_unsigned(s: &str, max: u64) -> (r: Option<u64>)
    ensures
        match r {
            Some(v) => parse_int(s@, 0, max as int) == Some(v as int),
            None => parse_int(s@, 0, max as int) is None,
        },
{
    let cs: Vec<char> = chars_of(s);
    let from: usize = if cs.len() > 0 && cs[0] == '+' {
        1
    } else {
        0
    };
    assert(s@.skip(0) =~= s@);
    if from == cs.len() || !digits_from(&cs, from) {
        return None;
    }
    proof {
        lemma_decimal_grows(s@.skip(from as int), 0);
    }
    value_from(&cs, from, max)
}

/// `str::parse` for an `i64`.
pub fn parse_i64(s: &str) -> (r: Option<i64>)
    ensures
        match r {
            Some(v) => parse_int(s@, i64::MIN as int, i64::MAX as int) == Some(v as int),
            None => parse_int(s@, i64::MIN as int, i64::MAX as int) is None,
        },
{
    let cs: Vec<char> = chars_of(s);
    let negative: bool = cs.len() > 0 && cs[0] == '-';
    let from: usize = if negative || (cs.len() > 0 && cs[0] == '+') {
        1
    } else {
        0
    };
    assert(s@.skip(0) =~= s@);
    if from == cs.len() || !digits_from(&cs, from) {
        return None;
    }
    proof {
        lemma_decimal_grows(s@.skip(from as int), 0);
    }
    if negative {
        match value_from(&cs, from, 0x8000_0000_0000_0000) {
            Some(v) => {
                if v == 0x8000_0000_0000_0000 {
                    Some(i64::MIN)
                } else {
                    Some(-(v as i64))
                }
            },
            None => None,
        }
    } else {
        match value_from(&cs, from, 0x7fff_ffff_ffff_ffff) {
            Some(v) => Some(v as i64),
            None => None,
        }
    }
}

/// The character of one decimal digit.
pub open spec fn digit_char(d: int) -> char {
    (48 + d) as char
}

/// A number in decimal.
pub open spec fn decimal_text(n: nat) -> Seq<char>
    decreases n,
{
    if n < 10 {
        seq![digit_char(n as int)]
    } else {
        decimal_text(n / 10).push(digit_char((n % 10) as int))
    }
}

/// A number in decimal.
pub fn decimal_of(n: u64) -> (s: String)
    ensures
        s@ == decimal_text(n as nat),
    decreases n,
{
    let c: char = (48 + (n % 10) as u8) as char;
    if n < 10 {
        let mut s: String = String::new();
        s.push(c);
        assert(s@ =~= seq![c]);
        s
    } else {
        let mut s: String = decimal_of(n / 10);
        s.push(c);
        s
    }
}

/// No piece of a split holds the separator.
pub proof fn lemma_split_pieces(s: Seq<char>, sep: char)
    ensures
        forall|i: int| 0 <= i < split(s, sep).len() ==> !(#[trigger] split(s, sep)[i]).contains(sep),
    decreases s.len(),
{
    if s.len() > 0 {
        let head = split(s.drop_last(), sep);
        lemma_split_pieces(s.drop_last(), sep);
        lemma_split_len(s.drop_last(), sep);
        assert forall|i: int| 0 <= i < split(s, sep).len() implies !(#[trigger] split(
            s,
            sep,
        )[i]).contains(sep) by {
            if i < head.len() - 1 {
                assert(split(s, sep)[i] == head[i]);
            } else if s.last() == sep {
                if i == head.len() - 1 {
                    assert(split(s, sep)[i] == head[i]);
                }
            } else {
                let last = head.last();
                assert(!head[head.len() - 1].contains(sep));
                assert forall|k: int| 0 <= k < last.push(s.last()).len() implies last.push(
                    s.last(),
                )[k] != sep by {
                    if k < last.len() {
                        assert(last[k] == last.push(s.last())[k]);
                        assert(last.contains(last[k]));
                    }
                }
            }
        }
    }
}

/// Splitting a text and joining the pieces gives the text back.
pub proof fn lemma_join_of_split(s: Seq<char>, sep: char)
    ensures
        join(split(s, sep), seq![sep]) == s,
    decreases s.len(),
{
    if s.len() > 0 {
        let head = split(s.drop_last(), sep);
        lemma_join_of_split(s.drop_last(), sep);
        lemma_split_len(s.drop_last(), sep);
        if s.last() == sep {
            assert(head.push(Seq::<char>::empty()).drop_last() =~= head);
            assert(join(split(s, sep), seq![sep]) =~= s.drop_last() + seq![sep]);
            assert(s =~= s.drop_last() + seq![sep]);
        } else {
            let longer = head.drop_last().push(head.last().push(s.last()));
            assert(longer.drop_last() =~= head.drop_last());
            assert(join(longer, seq![sep]) =~= join(head, seq![sep]).push(s.last()));
            assert(s =~= s.drop_last().push(s.last()));
        }
    }
}

/// Joining pieces that do not hold the separator and splitting the text gives the pieces back.
pub proof fn lemma_split_of_join(pieces: Seq<Seq<char>>, sep: char)
    requires
        pieces.len() >= 1,
        forall|i: int| 0 <= i < pieces.len() ==> !(#[trigger] pieces[i]).contains(sep),
    ensures
        split(join(pieces, seq![sep]), sep) == pieces,
    decreases pieces.len(), pieces.last().len(),
{
    let text = join(pieces, seq![sep]);
    let last = pieces.last();
    let before = pieces.drop_last();
    if last.len() == 0 {
        if pieces.len() == 1 {
            assert(last =~= Seq::<char>::empty());
            assert(text =~= Seq::<char>::empty());
            assert(pieces =~= seq![Seq::<char>::empty()]);
        } else {
            assert forall|i: int| 0 <= i < before.len() implies !(#[trigger] before[i]).contains(
                sep,
            ) by {
                assert(before[i] == pieces[i]);
            }
            lemma_split_of_join(before, sep);
            assert(text =~= join(before, seq![sep]).push(sep));
            assert(text.drop_last() =~= join(before, seq![sep]));
            assert(split(text, sep) == before.push(Seq::<char>::empty()));
            assert(last =~= Seq::<char>::empty());
            assert(pieces =~= before.push(Seq::<char>::empty()));
        }
    } else {
        let shorter = before.push(last.drop_last());
        assert forall|i: int| 0 <= i < shorter.len() implies !(#[trigger] shorter[i]).contains(
            sep,
        ) by {
            if i < before.len() {
                assert(shorter[i] == pieces[i]);
            } else {
                assert(!pieces[i].contains(sep));
                if shorter[i].contains(sep) {
                    let k = choose|k: int| 0 <= k < shorter[i].len() && shorter[i][k] == sep;
                    assert(last[k] == sep);
                }
            }
        }
        lemma_split_of_join(shorter, sep);
        assert(shorter.drop_last() =~= before);
        assert(!pieces[pieces.len() - 1].contains(sep));
        assert(last.contains(last.last()));
        assert(text =~= join(shorter, seq![sep]).push(last.last()));
        assert(text.drop_last() =~= join(shorter, seq![sep]));
        assert(split(text, sep) == shorter.drop_last().push(shorter.last().push(last.last())));
        assert(last.drop_last().push(last.last()) =~= last);
        assert(pieces =~= before.push(last));
    }
}

/// A text joined from two or more pieces begins with the first piece and a separator.
pub proof fn lemma_join_head(pieces: Seq<Seq<char>>, sep: Seq<char>)
    requires
        pieces.len() >= 2,
    ensures
        begins(join(pieces, sep), pieces[0] + sep),
    decreases pieces.len(),
{
    let before = pieces.drop_last();
    let text = join(pieces, sep);
    let head = pieces[0] + sep;
    if pieces.len() == 2 {
        assert(join(before, sep) == pieces[0]);
        assert(text.subrange(0, head.len() as int) =~= head);
    } else {
        lemma_join_head(before, sep);
        assert(text.subrange(0, head.len() as int) =~= join(before, sep).subrange(
            0,
            head.len() as int,
        ));
    }
}

/// A number that is written in decimal is read back.
pub proof fn decimals_are_read_back(n: nat)
    ensures
        decimal_text(n).len() > 0,
        all_digits(decimal_text(n)),
        decimal(decimal_text(n)) == n,
    decreases n,
{
    reveal_with_fuel(decimal, 2);
    let text = decimal_text(n);
    if n >= 10 {
        decimals_are_read_back(n / 10);
        assert(text.drop_last() =~= decimal_text(n / 10));
        assert forall|i: int| 0 <= i < text.len() implies is_digit(#[trigger] text[i]) by {
            if i < text.len() - 1 {
                assert(text[i] == decimal_text(n / 10)[i]);
            }
        }
    } else {
        assert(text.drop_last() =~= Seq::<char>::empty());
    }
}

/// A number is read with or without a sign, within its bounds, and from digits alone.
pub proof fn numbers_are_read_within_bounds(n: nat, lo: int, hi: int)
    requires
        lo <= 0 <= hi,
    ensures
        parse_int(decimal_text(n), lo, hi) == (if n <= hi {
            Some(n as int)
        } else {
            None
        }),
        parse_int(seq!['+'] + decimal_text(n), lo, hi) == parse_int(decimal_text(n), lo, hi),
        lo < 0 ==> parse_int(seq!['-'] + decimal_text(n), lo, hi) == (if -n >= lo {
            Some(-n)
        } else {
            None
        }),
        parse_int(Seq::empty(), lo, hi) is None,
{
    decimals_are_read_back(n);
    let text = decimal_text(n);
    assert(is_digit(text[0]));
    assert((seq!['+'] + text).skip(1) =~= text);
    assert((seq!['-'] + text).skip(1) =~= text);
}

/// What is read as a number is digits with at most one sign before them.
pub proof fn only_digits_are_numbers(s: Seq<char>, lo: int, hi: int, i: int)
    requires
        parse_int(s, lo, hi) is Some,
        0 <= i < s.len(),
    ensures
        is_digit(s[i]) || (i == 0 && (s[0] == '+' || s[0] == '-')),
        lo <= parse_int(s, lo, hi)->0 <= hi,
{
    if !(i == 0 && (s[0] == '+' || s[0] == '-')) {
        if i > 0 {
            assert(s.skip(1)[i - 1] == s[i]);
        }
    }
}

/// Trimming takes white space off both ends, and nothing else: what is left neither begins nor ends
/// with any, and stands in the text between white space.
pub proof fn trimming_takes_white_space_off(s: Seq<char>)
    ensures
        trim(s).len() > 0 ==> !is_white(trim(s)[0]) && !is_white(trim(s).last()),
        exists|a: Seq<char>, b: Seq<char>|
            is_blank(a) && is_blank(b) && s == #[trigger] (a + trim(s) + b),
        is_blank(s) <==> trim(s).len() == 0,
{
    let t = trim_start(s);
    lemma_trim_start(s);
    lemma_trim_end(t);
    let a = s.take(s.len() - t.len());
    let r = trim_end(t);
    let b = t.skip(r.len() as int);
    assert(s =~= a + r + b) by {
        assert(s =~= a + t);
        assert(t =~= r + b);
    }
    if r.len() > 0 {
        assert(t.len() > 0);
        assert(r[0] == t[0]);
        assert(s[a.len() as int] == r[0]);
    } else {
        assert forall|i: int| 0 <= i < s.len() implies is_white(#[trigger] s[i]) by {
            if i < a.len() {
                assert(s[i] == a[i]);
            } else {
                assert(s[i] == b[i - a.len()]);
            }
        }
    }
}

/// What trimming the beginning takes off.
proof fn lemma_trim_start(s: Seq<char>)
    ensures
        trim_start(s).len() <= s.len(),
        s == s.take(s.len() - trim_start(s).len()) + trim_start(s),
        is_blank(s.take(s.len() - trim_start(s).len())),
        trim_start(s).len() > 0 ==> !is_white(trim_start(s)[0]),
    decreases s.len(),
{
    if s.len() > 0 && is_white(s[0]) {
        let rest = s.drop_first();
        lemma_trim_start(rest);
        let t = trim_start(s);
        let n = s.len() - t.len();
        assert(s.take(n) =~= seq![s[0]] + rest.take(n - 1));
        assert(s =~= seq![s[0]] + rest);
        assert(rest == rest.take(n - 1) + t);
        assert(seq![s[0]] + (rest.take(n - 1) + t) =~= seq![s[0]] + rest.take(n - 1) + t);
        assert forall|i: int| 0 <= i < n implies is_white(#[trigger] s.take(n)[i]) by {
            if i > 0 {
                assert(s.take(n)[i] == rest.take(n - 1)[i - 1]);
            }
        }
    } else {
        assert(s =~= s.take(0) + s);
    }
}

/// What trimming the end takes off.
proof fn lemma_trim_end(s: Seq<char>)
    ensures
        trim_end(s).len() <= s.len(),
        s == trim_end(s) + s.skip(trim_end(s).len() as int),
        is_blank(s.skip(trim_end(s).len() as int)),
        trim_end(s).len() > 0 ==> !is_white(trim_end(s).last()),
    decreases s.len(),
{
    if s.len() > 0 && is_white(s.last()) {
        let rest = s.drop_last();
        lemma_trim_end(rest);
        let t = trim_end(s);
        let n = t.len() as int;
        assert(s.skip(n) =~= rest.skip(n).push(s.last()));
        assert(s =~= rest.push(s.last()));
        assert(rest == t + rest.skip(n));
        assert((t + rest.skip(n)).push(s.last()) =~= t + rest.skip(n).push(s.last()));
        assert forall|i: int| 0 <= i < s.skip(n).len() implies is_white(
            #[trigger] s.skip(n)[i],
        ) by {
            if i < rest.skip(n).len() {
                assert(s.skip(n)[i] == rest.skip(n)[i]);
            }
        }
    } else {
        assert(s =~= s + s.skip(s.len() as int));
    }
}


/// What stands before the first separator is the first piece, and the rest is cut on its own.
pub proof fn texts_are_cut_at_separators(a: Seq<char>, sep: char, b: Seq<char>)
    requires
        !a.contains(sep),
    ensures
        split(a.push(sep) + b, sep) == seq![a] + split(b, sep),
        split(a, sep) == seq![a],
    decreases b.len(),
{
    lemma_one_piece(a, sep);
    let whole = a.push(sep) + b;
    lemma_split_len(b, sep);
    if b.len() == 0 {
        assert(whole =~= a.push(sep));
        assert(whole.drop_last() =~= a);
        assert(split(whole, sep) =~= seq![a] + split(b, sep));
    } else {
        let shorter = b.drop_last();
        texts_are_cut_at_separators(a, sep, shorter);
        lemma_split_len(shorter, sep);
        assert(whole.drop_last() =~= a.push(sep) + shorter);
        assert(whole.last() == b.last());
        let head = split(shorter, sep);
        assert((seq![a] + head).last() == head.last());
        assert((seq![a] + head).drop_last() =~= seq![a] + head.drop_last());
        assert(split(whole, sep) =~= seq![a] + split(b, sep));
    }
}

/// A text without a separator is one piece.
proof fn lemma_one_piece(a: Seq<char>, sep: char)
    requires
        !a.contains(sep),
    ensures
        split(a, sep) == seq![a],
    decreases a.len(),
{
    if a.len() == 0 {
        assert(a =~= Seq::<char>::empty());
        assert(split(a, sep) =~= seq![a]);
    } else {
        let shorter = a.drop_last();
        assert(a.contains(a.last()));
        assert(!shorter.contains(sep)) by {
            if shorter.contains(sep) {
                let i = choose|i: int| 0 <= i < shorter.len() && shorter[i] == sep;
                assert(a[i] == sep);
            }
        }
        lemma_one_piece(shorter, sep);
        assert(shorter.push(a.last()) =~= a);
        assert(split(a, sep) =~= seq![a]);
    }
}

/// A line ends at a line feed, and a carriage return before that does not belong to it; what follows
/// the last line feed is a line if it is anything.
pub proof fn lines_end_at_line_feeds(line: Seq<char>, rest: Seq<char>)
    requires
        !line.contains('\n'),
    ensures
        line.len() == 0 || line.last() != '\r' ==> lines(line.push('\n') + rest) == seq![line]
            + lines(rest),
        line.len() > 0 && line.last() == '\r' ==> lines(line.push('\n') + rest) == seq![
            line.drop_last(),
        ] + lines(rest),
        line.len() > 0 ==> lines(line) == seq![line],
        lines(Seq::empty()) == Seq::<Seq<char>>::empty(),
{
    texts_are_cut_at_separators(line, '\n', rest);
    lemma_split_len(rest, '\n');
    let cut = |l: Seq<char>| without_cr(l);
    let parts = split(rest, '\n');
    let all = seq![line] + parts;
    assert(all.last() == parts.last());
    assert(all.drop_last() =~= seq![line] + parts.drop_last());
    assert(all.drop_last().map_values(cut) =~= seq![without_cr(line)] + parts.drop_last().map_values(
        cut,
    ));
    let ended = parts.drop_last().map_values(cut);
    assert((seq![without_cr(line)] + ended).push(parts.last()) =~= seq![without_cr(line)]
        + ended.push(parts.last()));
    if line.len() > 0 {
        assert(seq![line].drop_last().map_values(cut) =~= Seq::<Seq<char>>::empty());
        assert(lines(line) =~= seq![line]);
    }
    let none = Seq::<char>::empty();
    assert(!none.contains('\n'));
    lemma_one_piece(none, '\n');
    assert(seq![none].drop_last().map_values(cut) =~= Seq::<Seq<char>>::empty());
}


/// Only the capital letters of ASCII change when they are put in lower case, each to its own small
/// letter.
pub proof fn capital_letters_are_lowered(c: char, s: Seq<char>, i: int)
    ensures
        'A' <= c <= 'Z' ==> 'a' <= ascii_lower(c) <= 'z' && ascii_lower(c) as u32 - 'a' as u32 == c
            as u32 - 'A' as u32,
        !('A' <= c <= 'Z') ==> ascii_lower(c) == c,
        ascii_lowered(s).len() == s.len(),
        0 <= i < s.len() ==> ascii_lowered(s)[i] == ascii_lower(s[i]),
{
}


} // verus!
