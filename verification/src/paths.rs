//! Unix paths as texts: their components, parents, file names and extensions.

use crate::converter::Platform;
use crate::text::{chars_of, join, joined2, joined3, joined_from, slice_of};
use crate::text::{lemma_join_head, lemma_join_of_split, lemma_split_len, lemma_split_of_join};
use crate::text::{lemma_split_pieces, same, split, split_on, text_of};
use vstd::prelude::*;
use vstd::string::*;

verus! {

/// Whether the piece at `i` between two slashes counts as a component: it is not empty, and it is
/// no `.` but one that opens the path.
pub open spec fn counts(pieces: Seq<Seq<char>>, i: int) -> bool {
    pieces[i].len() > 0 && (pieces[i] != seq!['.'] || i == 0)
}

/// The components among the first `n` pieces.
pub open spec fn counted(pieces: Seq<Seq<char>>, n: int) -> Seq<Seq<char>>
    decreases n,
{
    if n <= 0 {
        Seq::empty()
    } else if counts(pieces, n - 1) {
        counted(pieces, n - 1).push(pieces[n - 1])
    } else {
        counted(pieces, n - 1)
    }
}

/// Whether a path starts at the root.
pub open spec fn rooted(s: Seq<char>) -> bool {
    s.len() > 0 && s[0] == '/'
}

/// The components of a path: `/` first if it starts at the root, then the names between slashes,
/// with empty ones and inner `.` left out.
pub open spec fn components(s: Seq<char>) -> Seq<Seq<char>> {
    let pieces = split(s, '/');
    let names = counted(pieces, pieces.len() as int);
    if rooted(s) {
        seq![seq!['/']] + names
    } else {
        names
    }
}

/// Whether two texts name the same path.
pub open spec fn same_path(a: Seq<char>, b: Seq<char>) -> bool {
    components(a) == components(b)
}

/// Whether the components of `base` are the first ones of `path`.
pub open spec fn lies_under(path: Seq<char>, base: Seq<char>) -> bool {
    components(base).is_prefix_of(components(path))
}

/// Tests whether a piece counts as a component.
fn piece_counts(pieces: &Vec<String>, i: usize) -> (r: bool)
    requires
        i < pieces.len(),
    ensures
        r == counts(pieces.deep_view(), i as int),
{
    assert(pieces.deep_view()[i as int] == pieces[i as int]@);
    let dot: bool = same(&pieces[i], ".");
    proof {
        reveal_strlit(".");
        assert("."@ =~= seq!['.']);
    }
    !pieces[i].as_str().is_empty() && (!dot || i == 0)
}

/// Whether a path starts at the root.
pub fn is_rooted(s: &str) -> (r: bool)
    ensures
        r == rooted(s@),
{
    let cs: Vec<char> = chars_of(s);
    cs.len() > 0 && cs[0] == '/'
}

/// The components of a path.
pub fn components_of(s: &str) -> (out: Vec<String>)
    ensures
        out.deep_view() == components(s@),
{
    let pieces: Vec<String> = split_on(s, '/');
    let ghost pv = split(s@, '/');
    let mut out: Vec<String> = Vec::new();
    if is_rooted(s) {
        out.push(joined2("/", ""));
        proof {
            reveal_strlit("/");
            reveal_strlit("");
            assert("/"@ + ""@ =~= seq!['/']);
        }
        assert(out.deep_view() =~= seq![seq!['/']]);
    }
    let ghost root = out.deep_view();
    let mut i: usize = 0;
    assert(pieces.deep_view().len() == pieces.len());
    assert(root + counted(pv, 0) =~= root);
    while i < pieces.len()
        invariant
            pieces.deep_view() == pv,
            pv.len() == pieces.len(),
            i <= pieces.len(),
            out.deep_view() == root + counted(pv, i as int),
        decreases pieces.len() - i,
    {
        assert(pieces.deep_view()[i as int] == pieces[i as int]@);
        if piece_counts(&pieces, i) {
            let ghost shorter = out;
            out.push(pieces[i].clone());
            assert(out.deep_view() =~= shorter.deep_view().push(pv[i as int]));
            assert(out.deep_view() =~= root + counted(pv, i + 1));
        }
        i = i + 1;
    }
    assert(out.deep_view() =~= components(s@));
    out
}

/// Whether two texts name the same path.
pub fn paths_equal(a: &str, b: &str) -> (r: bool)
    ensures
        r == same_path(a@, b@),
{
    let x: Vec<String> = components_of(a);
    let y: Vec<String> = components_of(b);
    assert(x.deep_view().len() == x.len() && y.deep_view().len() == y.len());
    if x.len() != y.len() {
        return false;
    }
    let r: bool = begins_alike(&x, &y);
    assert(x.deep_view().take(y.len() as int) =~= x.deep_view());
    r
}

/// Whether the first elements of `x` are those of `y`.
fn begins_alike(x: &Vec<String>, y: &Vec<String>) -> (r: bool)
    requires
        y.len() <= x.len(),
    ensures
        r == (x.deep_view().take(y.len() as int) == y.deep_view()),
{
    let mut i: usize = 0;
    while i < y.len()
        invariant
            i <= y.len() <= x.len(),
            forall|j: int| 0 <= j < i ==> x.deep_view()[j] == #[trigger] y.deep_view()[j],
        decreases y.len() - i,
    {
        if !same(&x[i], &y[i]) {
            assert(x.deep_view().take(y.len() as int)[i as int] != y.deep_view()[i as int]);
            return false;
        }
        i = i + 1;
    }
    assert(x.deep_view().take(y.len() as int) =~= y.deep_view());
    true
}

/// Whether the components of `base` are the first ones of `path`.
pub fn path_under(path: &str, base: &str) -> (r: bool)
    ensures
        r == lies_under(path@, base@),
{
    let x: Vec<String> = components_of(path);
    let y: Vec<String> = components_of(base);
    assert(x.deep_view().len() == x.len() && y.deep_view().len() == y.len());
    if y.len() > x.len() {
        return false;
    }
    let r: bool = begins_alike(&x, &y);
    assert(x.deep_view().take(y.len() as int) =~= x.deep_view().subrange(0, y.len() as int));
    r
}

/// The last component of a path, where that is a name.
pub open spec fn file_name(s: Seq<char>) -> Option<Seq<char>> {
    let c = components(s);
    if c.len() > 0 && c.last() != seq!['/'] && c.last() != seq!['.'] && c.last() != seq!['.', '.'] {
        Some(c.last())
    } else {
        None
    }
}

/// What a text holds, if it is there.
pub open spec fn opt_view(s: Option<String>) -> Option<Seq<char>> {
    match s {
        Some(t) => Some(t@),
        None => None,
    }
}

/// The last component of a path, where that is a name.
pub fn file_name_of(s: &str) -> (r: Option<String>)
    ensures
        opt_view(r) == file_name(s@),
{
    let c: Vec<String> = components_of(s);
    let ghost cv = components(s@);
    assert(c.deep_view().len() == c.len());
    if c.len() == 0 {
        return None;
    }
    let last: &String = &c[c.len() - 1];
    assert(cv.last() == last@);
    proof {
        reveal_strlit("/");
        reveal_strlit(".");
        reveal_strlit("..");
        assert("/"@ =~= seq!['/']);
        assert("."@ =~= seq!['.']);
        assert(".."@ =~= seq!['.', '.']);
    }
    if same(last, "/") || same(last, ".") || same(last, "..") {
        None
    } else {
        Some(last.clone())
    }
}

/// The last of the first `n` pieces that counts as a component; -1 if none does.
pub open spec fn last_counted(pieces: Seq<Seq<char>>, n: int) -> int
    decreases n,
{
    if n <= 0 {
        -1
    } else if counts(pieces, n - 1) {
        n - 1
    } else {
        last_counted(pieces, n - 1)
    }
}

/// The path without its last component. A bare root and an empty path have no parent.
pub open spec fn parent(s: Seq<char>) -> Option<Seq<char>> {
    let pieces = split(s, '/');
    let k = last_counted(pieces, pieces.len() as int);
    let j = last_counted(pieces, k);
    if k < 0 {
        None
    } else if j >= 0 {
        Some(join(pieces.take(j + 1), seq!['/']))
    } else if rooted(s) {
        Some(seq!['/'])
    } else {
        Some(Seq::empty())
    }
}

/// One past the last of the first `n` pieces that counts as a component; 0 if none does.
fn last_piece(pieces: &Vec<String>, n: usize) -> (r: usize)
    requires
        n <= pieces.len(),
    ensures
        r == last_counted(pieces.deep_view(), n as int) + 1,
        r <= n,
{
    let mut i: usize = n;
    while i > 0 && !piece_counts(pieces, i - 1)
        invariant
            i <= n <= pieces.len(),
            last_counted(pieces.deep_view(), n as int) == last_counted(
                pieces.deep_view(),
                i as int,
            ),
        decreases i,
    {
        i = i - 1;
    }
    i
}

/// The path without its last component.
pub fn parent_of(s: &str) -> (r: Option<String>)
    ensures
        opt_view(r) == parent(s@),
{
    let pieces: Vec<String> = split_on(s, '/');
    assert(pieces.deep_view().len() == pieces.len());
    proof {
        reveal_strlit("/");
        reveal_strlit("");
        assert("/"@ =~= seq!['/']);
        assert(""@ =~= Seq::<char>::empty());
    }
    let k: usize = last_piece(&pieces, pieces.len());
    if k == 0 {
        return None;
    }
    let j: usize = last_piece(&pieces, k - 1);
    if j > 0 {
        let mut kept: Vec<String> = Vec::new();
        let mut i: usize = 0;
        while i < j
            invariant
                i <= j <= pieces.len(),
                kept.deep_view() == pieces.deep_view().take(i as int),
            decreases j - i,
        {
            let ghost shorter = kept;
            kept.push(pieces[i].clone());
            assert(pieces.deep_view()[i as int] == pieces[i as int]@);
            assert(kept.deep_view() =~= shorter.deep_view().push(pieces.deep_view()[i as int]));
            assert(kept.deep_view() =~= pieces.deep_view().take(i + 1));
            i = i + 1;
        }
        assert(kept.deep_view().skip(0) =~= kept.deep_view());
        Some(joined_from(&kept, 0, "/"))
    } else if is_rooted(s) {
        Some("/".to_owned())
    } else {
        Some("".to_owned())
    }
}

/// The path of `name` in the directory `dir`; `name` itself if it starts at the root.
pub open spec fn joined_path(dir: Seq<char>, name: Seq<char>) -> Seq<char> {
    if rooted(name) {
        name
    } else if dir.len() == 0 || dir.last() == '/' {
        dir + name
    } else {
        dir + seq!['/'] + name
    }
}

/// The path of `name` in the directory `dir`.
pub fn join_path(dir: &str, name: &str) -> (r: String)
    ensures
        r@ == joined_path(dir@, name@),
{
    if is_rooted(name) {
        return name.to_owned();
    }
    let cs: Vec<char> = chars_of(dir);
    if cs.len() == 0 || cs[cs.len() - 1] == '/' {
        joined2(dir, name)
    } else {
        proof {
            reveal_strlit("/");
            assert("/"@ =~= seq!['/']);
        }
        joined3(dir, "/", name)
    }
}

/// Where the last dot of a name stands; -1 if it has none.
pub open spec fn last_dot(name: Seq<char>) -> int
    decreases name.len(),
{
    if name.len() == 0 {
        -1
    } else if name.last() == '.' {
        name.len() - 1
    } else {
        last_dot(name.drop_last())
    }
}

/// A dot that is found stands in the name.
pub proof fn lemma_last_dot(name: Seq<char>)
    ensures
        -1 <= last_dot(name) < name.len(),
        last_dot(name) >= 0 ==> name[last_dot(name)] == '.',
    decreases name.len(),
{
    if name.len() > 0 && name.last() != '.' {
        lemma_last_dot(name.drop_last());
    }
}

/// A file name without its extension. A dot that opens the name opens no extension.
pub open spec fn stem(name: Seq<char>) -> Seq<char> {
    if last_dot(name) > 0 {
        name.take(last_dot(name))
    } else {
        name
    }
}

/// What follows the last dot of a file name, unless that dot opens the name.
pub open spec fn extension(name: Seq<char>) -> Option<Seq<char>> {
    if last_dot(name) > 0 {
        Some(name.skip(last_dot(name) + 1))
    } else {
        None
    }
}

/// One past the last dot of a name; 0 if it has none.
fn after_last_dot(cs: &Vec<char>) -> (r: usize)
    ensures
        r == last_dot(cs@) + 1,
        r <= cs.len(),
{
    let mut i: usize = cs.len();
    assert(cs@.take(i as int) =~= cs@);
    while i > 0 && cs[i - 1] != '.'
        invariant
            i <= cs.len(),
            last_dot(cs@) == last_dot(cs@.take(i as int)),
        decreases i,
    {
        assert(cs@.take(i as int).drop_last() =~= cs@.take(i - 1));
        i = i - 1;
    }
    i
}

/// A file name without its extension.
pub fn stem_of(name: &str) -> (r: String)
    ensures
        r@ == stem(name@),
{
    let cs: Vec<char> = chars_of(name);
    let d: usize = after_last_dot(&cs);
    if d > 1 {
        assert(name@.take(d - 1) =~= name@.subrange(0, d - 1));
        text_of(&slice_of(&cs, 0, d - 1))
    } else {
        name.to_owned()
    }
}

/// What follows the last dot of a file name, unless that dot opens the name.
pub fn extension_of(name: &str) -> (r: Option<String>)
    ensures
        opt_view(r) == extension(name@),
{
    let cs: Vec<char> = chars_of(name);
    let d: usize = after_last_dot(&cs);
    if d > 1 {
        assert(name@.skip(d as int) =~= name@.subrange(d as int, name@.len() as int));
        Some(text_of(&slice_of(&cs, d, cs.len())))
    } else {
        None
    }
}

/// A path starts at the root exactly when its first piece is empty and not its only one.
proof fn lemma_rooted(s: Seq<char>)
    ensures
        rooted(s) == (split(s, '/').len() >= 2 && split(s, '/')[0].len() == 0),
{
    let p = split(s, '/');
    lemma_join_of_split(s, '/');
    lemma_split_pieces(s, '/');
    lemma_split_len(s, '/');
    if p.len() >= 2 {
        lemma_join_head(p, seq!['/']);
        let head = p[0] + seq!['/'];
        assert(s.subrange(0, head.len() as int)[0] == head[0]);
        assert(!p[0].contains('/'));
        if p[0].len() > 0 {
            assert(p[0].contains(p[0][0]));
        }
    } else {
        assert(!p[0].contains('/'));
        if s.len() > 0 {
            assert(p[0].contains(s[0]));
        }
    }
}

/// Skipping pieces that do not count changes no component.
proof fn lemma_counted(pieces: Seq<Seq<char>>, n: int)
    requires
        0 <= n <= pieces.len(),
    ensures
        ({
            let k = last_counted(pieces, n);
            &&& -1 <= k < n
            &&& k >= 0 ==> counts(pieces, k)
            &&& counted(pieces, n) == counted(pieces, k + 1)
        }),
    decreases n,
{
    if n > 0 && !counts(pieces, n - 1) {
        lemma_counted(pieces, n - 1);
    }
}

/// The components of the first pieces do not depend on the pieces after them.
proof fn lemma_counted_prefix(pieces: Seq<Seq<char>>, m: int, n: int)
    requires
        0 <= n <= m <= pieces.len(),
    ensures
        counted(pieces.take(m), n) == counted(pieces, n),
    decreases n,
{
    if n > 0 {
        lemma_counted_prefix(pieces, m, n - 1);
        assert(pieces.take(m)[n - 1] == pieces[n - 1]);
    }
}

/// A path has a parent exactly when it has a component besides the root, and the components of
/// the parent are all but the last of the path's.
pub proof fn lemma_parent_components(s: Seq<char>)
    ensures
        parent(s) is None <==> components(s).len() == (if rooted(s) {
            1int
        } else {
            0
        }),
        parent(s) matches Some(d) ==> components(d) == components(s).drop_last() && components(
            s,
        ).len() > 0,
{
    let p = split(s, '/');
    let n = p.len() as int;
    let k = last_counted(p, n);
    lemma_counted(p, n);
    lemma_rooted(s);
    lemma_split_pieces(s, '/');
    if k >= 0 {
        let j = last_counted(p, k);
        lemma_counted(p, k);
        let d = parent(s)->0;
        let root: Seq<Seq<char>> = if rooted(s) {
            seq![seq!['/']]
        } else {
            Seq::empty()
        };
        assert(components(s) =~= root + counted(p, k).push(p[k]));
        assert(components(s).drop_last() =~= root + counted(p, k));
        if j >= 0 {
            let q = p.take(j + 1);
            assert forall|i: int| 0 <= i < q.len() implies !(#[trigger] q[i]).contains('/') by {
                assert(q[i] == p[i]);
            }
            lemma_split_of_join(q, '/');
            lemma_rooted(d);
            lemma_counted_prefix(p, j + 1, j + 1);
            assert(q[0] == p[0]);
            if j == 0 {
                assert(p[0].len() > 0);
            }
            assert(rooted(d) == rooted(s));
            assert(components(d) =~= root + counted(p, k));
        } else if rooted(s) {
            assert(d == seq!['/']);
            let e = Seq::<char>::empty();
            let one = seq!['/'];
            assert(one.drop_last() =~= e);
            assert(split(e, '/') =~= seq![e]);
            assert(split(one, '/') =~= seq![e, e]);
            assert(counted(seq![e, e], 2) =~= Seq::<Seq<char>>::empty()) by {
                assert(counted(seq![e, e], 0) =~= Seq::<Seq<char>>::empty());
                assert(counted(seq![e, e], 1) =~= Seq::<Seq<char>>::empty());
            }
            assert(components(d) =~= root + counted(p, k));
        } else {
            assert(d == Seq::<char>::empty());
            let e = Seq::<char>::empty();
            assert(split(e, '/') =~= seq![e]);
            assert(counted(seq![e], 1) =~= Seq::<Seq<char>>::empty()) by {
                assert(counted(seq![e], 0) =~= Seq::<Seq<char>>::empty());
            }
            assert(components(d) =~= root + counted(p, k));
        }
    }
}

/// Whether a text is the name of a file: not empty, without slashes, and neither `.` nor `..`.
pub open spec fn plain(name: Seq<char>) -> bool {
    name.len() > 0 && !name.contains('/') && name != seq!['.'] && name != seq!['.', '.']
}

/// What follows the last slash is the last piece.
proof fn lemma_split_tail(s: Seq<char>, tail: Seq<char>)
    requires
        s.len() == 0 || s.last() == '/',
        !tail.contains('/'),
    ensures
        split(s + tail, '/') == split(s, '/').drop_last().push(tail),
    decreases tail.len(),
{
    lemma_split_len(s, '/');
    if tail.len() == 0 {
        assert(s + tail =~= s);
        assert(split(s, '/').last() =~= tail);
        assert(split(s, '/').drop_last().push(tail) =~= split(s, '/'));
    } else {
        let shorter = tail.drop_last();
        assert(!shorter.contains('/')) by {
            if shorter.contains('/') {
                let i = choose|i: int| 0 <= i < shorter.len() && shorter[i] == '/';
                assert(tail[i] == '/');
            }
        }
        lemma_split_tail(s, shorter);
        assert(tail.contains(tail.last()));
        assert((s + tail).drop_last() =~= s + shorter);
        assert((s + tail).last() == tail.last());
        let head = split(s + shorter, '/');
        assert(head.last() == shorter);
        assert(shorter.push(tail.last()) =~= tail);
        assert(split(s + tail, '/') =~= split(s, '/').drop_last().push(tail));
    }
}

/// The components of a file in a directory are those of the directory and the file's name.
pub proof fn lemma_joined_components(dir: Seq<char>, name: Seq<char>)
    requires
        plain(name),
    ensures
        components(joined_path(dir, name)) == components(dir).push(name),
{
    assert(name.contains(name[0]));
    assert(!rooted(name));
    let before = if dir.len() == 0 || dir.last() == '/' {
        dir
    } else {
        dir + seq!['/']
    };
    let t = joined_path(dir, name);
    assert(t =~= before + name);
    lemma_split_tail(before, name);
    lemma_split_len(dir, '/');
    let p = split(dir, '/');
    let q = split(before, '/');
    let all = split(t, '/');
    if dir.len() == 0 || dir.last() == '/' {
        assert(p.last().len() == 0);
        assert(q.drop_last() =~= p.drop_last());
        let m = p.len() - 1;
        lemma_counted_prefix(p, m, m);
        lemma_counted_prefix(all, m, m);
        assert(all.take(m) =~= p.take(m));
        assert(!counts(p, m));
        assert(counted(p, m + 1) == counted(p, m));
        assert(counts(all, m));
        assert(counted(all, m + 1) =~= counted(p, m).push(name));
    } else {
        assert(before.drop_last() =~= dir);
        assert(before.last() == '/');
        assert(q =~= p.push(Seq::<char>::empty()));
        assert(q.drop_last() =~= p);
        let m = p.len() as int;
        lemma_counted_prefix(all, m, m);
        assert(all.take(m) =~= p);
        assert(counts(all, m));
        assert(counted(all, m + 1) =~= counted(p, m).push(name));
    }
    assert(rooted(t) == rooted(dir)) by {
        if dir.len() > 0 {
            assert(t[0] == dir[0]);
        } else {
            assert(t[0] == name[0]);
        }
    }
    assert(components(t) =~= components(dir).push(name));
}

/// A file that was put into a directory is found there: its name is the one it was given, and its
/// parent is the directory.
pub proof fn joined_files_are_found(dir: Seq<char>, name: Seq<char>)
    requires
        plain(name),
    ensures
        file_name(joined_path(dir, name)) == Some(name),
        parent(joined_path(dir, name)) matches Some(d) && same_path(d, dir),
        lies_under(joined_path(dir, name), dir),
{
    let t = joined_path(dir, name);
    lemma_joined_components(dir, name);
    lemma_parent_components(t);
    assert(components(t).last() == name);
    assert(name != seq!['/']) by {
        if name == seq!['/'] {
            assert(name[0] == '/');
        }
    }
    assert(components(t).drop_last() =~= components(dir));
    assert(components(dir) =~= components(t).take(components(dir).len() as int));
}

/// The name of a file holds no slash, and is no `.` or `..`.
pub proof fn lemma_file_name_plain(s: Seq<char>)
    ensures
        file_name(s) matches Some(name) ==> plain(name),
{
    if let Some(name) = file_name(s) {
        let p = split(s, '/');
        let n = p.len() as int;
        lemma_split_pieces(s, '/');
        let c = counted(p, n);
        if c.len() == 0 {
            assert(components(s) =~= seq![seq!['/']]);
            assert(false);
        }
        assert(components(s).last() == c.last());
        lemma_counted_among(p, n, c.len() - 1);
        let i = choose|i: int| 0 <= i < n && p[i] == name && #[trigger] counts(p, i);
        assert(p[i] == name);
    }
}

/// Whether a component is one of the first `n` pieces, and counts.
spec fn is_counted(pieces: Seq<Seq<char>>, n: int, component: Seq<char>) -> bool {
    exists|i: int| 0 <= i < n && pieces[i] == component && #[trigger] counts(pieces, i)
}

/// Every component is a piece that counts.
proof fn lemma_counted_among(pieces: Seq<Seq<char>>, n: int, k: int)
    requires
        n <= pieces.len(),
        0 <= k < counted(pieces, n).len(),
    ensures
        is_counted(pieces, n, counted(pieces, n)[k]),
    decreases n,
{
    if n > 0 {
        if k < counted(pieces, n - 1).len() {
            lemma_counted_among(pieces, n - 1, k);
            let c = counted(pieces, n - 1)[k];
            let i = choose|i: int|
                0 <= i < n - 1 && pieces[i] == c && #[trigger] counts(pieces, i);
            assert(counts(pieces, i));
        } else {
            assert(counts(pieces, n - 1));
        }
    }
}

/// A path with `/` between its components, as all functions here take it. Where the system also
/// separates components by `\`, that is put right; elsewhere it is a character like any other.
pub open spec fn slashed_path(path: Seq<char>, platform: Platform) -> Seq<char> {
    if platform == Platform::Windows {
        path.map_values(
            |c: char|
                if c == '\\' {
                    '/'
                } else {
                    c
                },
        )
    } else {
        path
    }
}

/// A path with `/` between its components.
pub fn with_slashes(path: &str, platform: Platform) -> (r: String)
    ensures
        r@ == slashed_path(path@, platform),
{
    if platform != Platform::Windows {
        return path.to_owned();
    }
    let cs: Vec<char> = chars_of(path);
    let mut out: Vec<char> = Vec::new();
    let mut i: usize = 0;
    while i < cs.len()
        invariant
            i <= cs.len(),
            cs@ == path@,
            platform == Platform::Windows,
            out.len() == i,
            forall|j: int| 0 <= j < i ==> #[trigger] out@[j] == slashed_path(path@, platform)[j],
        decreases cs.len() - i,
    {
        out.push(
            if cs[i] == '\\' {
                '/'
            } else {
                cs[i]
            },
        );
        i = i + 1;
    }
    assert(out@ =~= slashed_path(path@, platform));
    text_of(&out)
}

/// The last dot of a name is the one behind which there is no other.
proof fn lemma_last_dot_before(name: Seq<char>, ext: Seq<char>)
    requires
        !ext.contains('.'),
    ensures
        last_dot(name.push('.') + ext) == name.len(),
    decreases ext.len(),
{
    let whole = name.push('.') + ext;
    if ext.len() == 0 {
        assert(whole =~= name.push('.'));
        assert(whole.last() == '.');
    } else {
        let shorter = ext.drop_last();
        assert(!shorter.contains('.')) by {
            if shorter.contains('.') {
                let i = choose|i: int| 0 <= i < shorter.len() && shorter[i] == '.';
                assert(ext[i] == '.');
            }
        }
        lemma_last_dot_before(name, shorter);
        assert(whole.drop_last() =~= name.push('.') + shorter);
        assert(ext.contains(ext.last()));
        assert(whole.last() == ext.last());
    }
}

/// The extension of a file name is what follows its last dot, and the stem what stands before it; a
/// name without a dot, or with one that only opens it, is all stem.
pub proof fn names_are_stem_and_extension(name: Seq<char>, ext: Seq<char>)
    requires
        !ext.contains('.'),
    ensures
        name.len() > 0 ==> stem(name.push('.') + ext) == name,
        name.len() > 0 ==> extension(name.push('.') + ext) == Some(ext),
        stem(ext) == ext,
        extension(ext) is None,
        stem(seq!['.'] + ext) == seq!['.'] + ext,
        extension(seq!['.'] + ext) is None,
{
    let whole = name.push('.') + ext;
    lemma_last_dot_before(name, ext);
    if name.len() > 0 {
        assert(whole.take(name.len() as int) =~= name);
        assert(whole.skip((name.len() + 1) as int) =~= ext);
    }
    lemma_last_dot(ext);
    if last_dot(ext) >= 0 {
        assert(ext.contains(ext[last_dot(ext)]));
    }
    lemma_last_dot_before(Seq::empty(), ext);
    assert(Seq::<char>::empty().push('.') + ext =~= seq!['.'] + ext);
}

/// A path lies under another exactly where the components of that one come first in its own: it lies
/// under itself, under what its parent lies under, and a file lies under its folder and all that
/// that one lies under.
pub proof fn paths_lie_under_their_folders(path: Seq<char>, base: Seq<char>, name: Seq<char>)
    requires
        plain(name),
    ensures
        lies_under(path, path),
        lies_under(path, base) ==> lies_under(joined_path(path, name), base),
        lies_under(path, base) <==> components(base).len() <= components(path).len()
            && components(path).take(components(base).len() as int) == components(base),
        lies_under(path, base) && lies_under(base, path) ==> same_path(path, base),
        !lies_under(path, joined_path(path, name)),
        !same_path(path, joined_path(path, name)),
{
    let c = components(path);
    let b = components(base);
    lemma_joined_components(path, name);
    assert(c.take(c.len() as int) =~= c);
    if lies_under(path, base) {
        assert(c.take(b.len() as int) =~= b);
        assert(c.push(name).take(b.len() as int) =~= b);
        assert(b.is_prefix_of(c.push(name)));
    }
    if b.len() <= c.len() && c.take(b.len() as int) == b {
        assert(b.is_prefix_of(c));
    }
    if lies_under(path, base) && lies_under(base, path) {
        assert(c =~= b);
    }
}

/// A slash at the end of a folder or of a path does not matter.
pub proof fn spellings_name_the_same_path(dir: Seq<char>, name: Seq<char>)
    requires
        plain(name),
        dir.len() > 0,
        dir.last() != '/',
    ensures
        same_path(joined_path(dir.push('/'), name), joined_path(dir, name)),
        same_path(joined_path(dir, name).push('/'), joined_path(dir, name)),
{
    assert(dir.push('/') + name =~= dir + seq!['/'] + name);
    let t = joined_path(dir, name);
    let p = split(t, '/');
    let q = split(t.push('/'), '/');
    assert(t.push('/').drop_last() =~= t);
    assert(q =~= p.push(Seq::<char>::empty()));
    let n = p.len() as int;
    assert(!counts(q, n));
    lemma_counted_prefix(q, n, n);
    assert(q.take(n) =~= p);
    assert(counted(q, n + 1) == counted(q, n));
    assert(counted(p, n) == counted(q, n)) by {
        lemma_counted_prefix(q, n, n);
    }
    assert(t.len() > 0 && t.push('/')[0] == t[0]);
    assert(components(t.push('/')) =~= components(t));
}

/// Between slashes a `.` does not count.
pub proof fn dots_between_slashes_do_not_count(dir: Seq<char>, name: Seq<char>)
    requires
        plain(name),
        dir.len() > 0,
        dir.last() != '/',
    ensures
        same_path(joined_path(dir + seq!['/', '.'], name), joined_path(dir, name)),
{
    let dotted = dir + seq!['/', '.'];
    lemma_joined_components(dotted, name);
    lemma_joined_components(dir, name);
    let p = split(dir, '/');
    let q = split(dotted, '/');
    lemma_split_len(dir, '/');
    assert(dotted.drop_last() =~= dir.push('/'));
    assert(dotted.drop_last().drop_last() =~= dir);
    reveal_with_fuel(split, 3);
    assert(split(dir.push('/'), '/') =~= p.push(Seq::<char>::empty()));
    assert(Seq::<char>::empty().push('.') =~= seq!['.']);
    assert(q =~= p.push(seq!['.']));
    let n = p.len() as int;
    assert(!counts(q, n));
    lemma_counted_prefix(q, n, n);
    assert(q.take(n) =~= p);
    assert(counted(q, n + 1) == counted(q, n));
    assert(dotted[0] == dir[0]);
    assert(components(dotted) =~= components(dir));
}

/// A path is written with `/` alone once it was put right: on a system that also writes `\`, that is
/// gone; elsewhere nothing changes.
pub proof fn separators_are_put_right(path: Seq<char>, platform: Platform)
    ensures
        platform == Platform::Windows ==> !slashed_path(path, platform).contains('\\'),
        platform != Platform::Windows ==> slashed_path(path, platform) == path,
        !path.contains('\\') ==> slashed_path(path, platform) == path,
        slashed_path(path, platform).len() == path.len(),
        slashed_path(slashed_path(path, platform), platform) == slashed_path(path, platform),
{
    let r = slashed_path(path, platform);
    if !path.contains('\\') {
        assert forall|i: int| 0 <= i < path.len() implies r[i] == path[i] by {
            assert(path.contains(path[i]));
        }
        assert(r =~= path);
    }
    assert(slashed_path(r, platform) =~= r);
}


} // verus!
