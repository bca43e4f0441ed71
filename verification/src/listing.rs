//! What the file browser shows of a folder, and which folders it may show.

use crate::paths::{components, counted, lies_under, path_under, rooted};
use crate::text::{chars_of, lowercase, lowered, split};
use vstd::prelude::*;
use vstd::string::*;

verus! {

/// One entry of a folder.
#[derive(Debug, Clone)]
pub struct FsEntry {
    pub name: String,
    pub path: String,
    pub is_dir: bool,
    /// The size of a file; nothing for a folder.
    pub size: Option<u64>,
}

/// Whether a path is one of the roots or below one. Components count, not characters.
pub open spec fn under_a_root(canonical: Seq<char>, roots: Seq<Seq<char>>) -> bool {
    exists|i: int| 0 <= i < roots.len() && lies_under(canonical, #[trigger] roots[i])
}

/// Whether a path is one of the roots or below one.
pub fn path_allowed(canonical: &str, roots: &Vec<String>) -> (r: bool)
    ensures
        r == under_a_root(canonical@, roots.deep_view()),
{
    let ghost rv = roots.deep_view();
    let mut i: usize = 0;
    while i < roots.len()
        invariant
            i <= roots.len(),
            rv == roots.deep_view(),
            forall|j: int| 0 <= j < i ==> !lies_under(canonical@, #[trigger] rv[j]),
        decreases roots.len() - i,
    {
        assert(rv[i as int] == roots[i as int]@);
        if path_under(canonical, &roots[i]) {
            assert(lies_under(canonical@, rv[i as int]));
            return true;
        }
        i = i + 1;
    }
    false
}

/// Where the root of the file system is a root, every path that starts there is allowed.
pub proof fn the_root_admits_everything(path: Seq<char>)
    requires
        rooted(path),
    ensures
        under_a_root(path, seq![seq!['/']]),
{
    let root = seq!['/'];
    let pieces = split(root, '/');
    reveal_with_fuel(split, 3);
    reveal_with_fuel(counted, 4);
    assert(pieces.len() == 2 && pieces[0].len() == 0 && pieces[1].len() == 0);
    assert(components(root) =~= seq![root]);
    assert(components(path)[0] == root);
    assert(lies_under(path, seq![root][0]));
}

/// Every root is allowed, and so is all that lies below something that is allowed.
pub proof fn allowed_folders_are_closed(path: Seq<char>, below: Seq<char>, roots: Seq<Seq<char>>)
    requires
        under_a_root(path, roots),
        lies_under(below, path),
    ensures
        under_a_root(below, roots),
        forall|i: int| 0 <= i < roots.len() ==> under_a_root(#[trigger] roots[i], roots),
{
    let i = choose|i: int| 0 <= i < roots.len() && lies_under(path, #[trigger] roots[i]);
    assert(components(roots[i]) =~= components(below).take(components(roots[i]).len() as int));
    assert(lies_under(below, roots[i]));
    assert forall|j: int| 0 <= j < roots.len() implies under_a_root(#[trigger] roots[j], roots) by {
        assert(lies_under(roots[j], roots[j]));
    }
}

/// Why a folder is not listed.
#[derive(Debug, Clone, Copy, PartialEq, Eq, Structural)]
pub enum ListRefusal {
    /// It is not there.
    NotFound,
    /// It is below no root.
    Outside,
    /// It could not be read.
    Failed,
}

impl ListRefusal {
    /// The status of the answer.
    pub fn status(self) -> (r: u16)
        ensures
            r == match self {
                ListRefusal::NotFound => 404u16,
                ListRefusal::Outside => 403u16,
                ListRefusal::Failed => 500u16,
            },
    {
        match self {
            ListRefusal::NotFound => 404,
            ListRefusal::Outside => 403,
            ListRefusal::Failed => 500,
        }
    }
}

/// Why a folder that could not be looked at is not listed.
pub fn io_refusal(not_found: bool) -> (r: ListRefusal)
    ensures
        r == (if not_found {
            ListRefusal::NotFound
        } else {
            ListRefusal::Failed
        }),
{
    if not_found {
        ListRefusal::NotFound
    } else {
        ListRefusal::Failed
    }
}

/// Whether the text `a` stands before `b` or is `b`, compared by their characters.
pub open spec fn text_le(a: Seq<char>, b: Seq<char>) -> bool
    decreases a.len(),
{
    if a.len() == 0 {
        true
    } else if b.len() == 0 {
        false
    } else if a[0] != b[0] {
        a[0] < b[0]
    } else {
        text_le(a.drop_first(), b.drop_first())
    }
}

/// Of two texts one stands before the other.
proof fn lemma_text_total(a: Seq<char>, b: Seq<char>)
    ensures
        text_le(a, b) || text_le(b, a),
    decreases a.len(),
{
    if a.len() > 0 && b.len() > 0 && a[0] == b[0] {
        lemma_text_total(a.drop_first(), b.drop_first());
    }
}

/// The order of texts carries over.
proof fn lemma_text_transitive(a: Seq<char>, b: Seq<char>, c: Seq<char>)
    requires
        text_le(a, b),
        text_le(b, c),
    ensures
        text_le(a, c),
    decreases a.len(),
{
    if a.len() > 0 && b.len() > 0 && c.len() > 0 && a[0] == b[0] && b[0] == c[0] {
        lemma_text_transitive(a.drop_first(), b.drop_first(), c.drop_first());
    }
}

/// Texts that each stand before the other are the same.
proof fn lemma_text_antisymmetric(a: Seq<char>, b: Seq<char>)
    requires
        text_le(a, b),
        text_le(b, a),
    ensures
        a == b,
    decreases a.len(),
{
    if a.len() > 0 && b.len() > 0 {
        lemma_text_antisymmetric(a.drop_first(), b.drop_first());
        assert(a =~= seq![a[0]] + a.drop_first());
        assert(b =~= seq![b[0]] + b.drop_first());
    } else {
        assert(a =~= b);
    }
}

/// What entries are sorted by: whether they are folders, and their name in lower case.
pub open spec fn sort_key(e: FsEntry) -> (bool, Seq<char>) {
    (e.is_dir, lowercase(e.name@))
}

/// Whether one key stands before another or is the same: folders first, then by name.
pub open spec fn key_le(a: (bool, Seq<char>), b: (bool, Seq<char>)) -> bool {
    if a.0 != b.0 {
        a.0
    } else {
        text_le(a.1, b.1)
    }
}

/// Whether entries are in order.
pub open spec fn in_order(entries: Seq<FsEntry>) -> bool {
    forall|i: int, j: int|
        0 <= i < j < entries.len() ==> key_le(
            sort_key(#[trigger] entries[i]),
            sort_key(#[trigger] entries[j]),
        )
}

/// The entries with a given key, in their order.
pub open spec fn with_key(entries: Seq<FsEntry>, key: (bool, Seq<char>)) -> Seq<FsEntry> {
    entries.filter(|e: FsEntry| sort_key(e) == key)
}

/// Whether `after` holds the entries of `before`, those with the same key in the same order.
pub open spec fn same_entries(before: Seq<FsEntry>, after: Seq<FsEntry>) -> bool {
    forall|key: (bool, Seq<char>)| #[trigger] with_key(after, key) == with_key(before, key)
}

/// Whether the text `a` stands before `b` or is `b`.
fn stands_before(a: &str, b: &str) -> (r: bool)
    ensures
        r == text_le(a@, b@),
{
    let x: Vec<char> = chars_of(a);
    let y: Vec<char> = chars_of(b);
    let mut i: usize = 0;
    assert(x@.skip(0) =~= x@ && y@.skip(0) =~= y@);
    while i < x.len() && i < y.len()
        invariant
            i <= x.len(),
            i <= y.len(),
            text_le(x@, y@) == text_le(x@.skip(i as int), y@.skip(i as int)),
            x@ == a@,
            y@ == b@,
        decreases x.len() - i,
    {
        assert(x@.skip(i as int).drop_first() =~= x@.skip(i + 1));
        assert(y@.skip(i as int).drop_first() =~= y@.skip(i + 1));
        if x[i] != y[i] {
            return x[i] < y[i];
        }
        i = i + 1;
    }
    i == x.len()
}

/// Whether an entry stands before another or has the same key.
fn entry_before(a: &FsEntry, b: &FsEntry) -> (r: bool)
    ensures
        r == key_le(sort_key(*a), sort_key(*b)),
{
    if a.is_dir != b.is_dir {
        a.is_dir
    } else {
        stands_before(&lowered(&a.name), &lowered(&b.name))
    }
}

/// Putting an entry behind all that stand before it keeps the order.
proof fn lemma_insert_in_order(entries: Seq<FsEntry>, e: FsEntry, at: int)
    requires
        in_order(entries),
        0 <= at <= entries.len(),
        at > 0 ==> key_le(sort_key(entries[at - 1]), sort_key(e)),
        forall|k: int|
            at <= k < entries.len() ==> !key_le(sort_key(#[trigger] entries[k]), sort_key(e)),
    ensures
        in_order(entries.insert(at, e)),
{
    let after = entries.insert(at, e);
    assert forall|i: int, j: int| 0 <= i < j < after.len() implies key_le(
        sort_key(#[trigger] after[i]),
        sort_key(#[trigger] after[j]),
    ) by {
        if j < at {
            assert(after[i] == entries[i] && after[j] == entries[j]);
        } else if j == at {
            assert(after[i] == entries[i]);
            if i < at - 1 {
                let a = sort_key(entries[i]);
                let b = sort_key(entries[at - 1]);
                let c = sort_key(e);
                assert(key_le(a, b));
                if a.0 == b.0 && b.0 == c.0 {
                    lemma_text_transitive(a.1, b.1, c.1);
                }
            }
        } else if i == at {
            assert(after[j] == entries[j - 1]);
            lemma_text_total(sort_key(entries[j - 1]).1, sort_key(e).1);
        } else if i < at {
            assert(after[i] == entries[i] && after[j] == entries[j - 1]);
        } else {
            assert(after[i] == entries[i - 1] && after[j] == entries[j - 1]);
        }
    }
}

/// Putting an entry behind all that stand before it puts it behind those with the same key.
proof fn lemma_insert_same_entries(entries: Seq<FsEntry>, e: FsEntry, at: int)
    requires
        0 <= at <= entries.len(),
        forall|k: int|
            at <= k < entries.len() ==> !key_le(sort_key(#[trigger] entries[k]), sort_key(e)),
    ensures
        forall|key: (bool, Seq<char>)| #[trigger]
            with_key(entries.insert(at, e), key) == with_key(entries.push(e), key),
{
    assert forall|key: (bool, Seq<char>)| #[trigger]
        with_key(entries.insert(at, e), key) == with_key(entries.push(e), key) by {
        let pred = |x: FsEntry| sort_key(x) == key;
        let front = entries.take(at);
        let back = entries.skip(at);
        assert(entries.insert(at, e) =~= front + (seq![e] + back));
        assert(entries.push(e) =~= front + (back + seq![e]));
        Seq::filter_distributes_over_add(front, seq![e] + back, pred);
        Seq::filter_distributes_over_add(front, back + seq![e], pred);
        Seq::filter_distributes_over_add(seq![e], back, pred);
        Seq::filter_distributes_over_add(back, seq![e], pred);
        if key == sort_key(e) {
            assert forall|k: int| 0 <= k < back.len() implies !pred(#[trigger] back[k]) by {
                assert(back[k] == entries[at + k]);
                lemma_text_total(key.1, key.1);
            }
            lemma_none_kept(back, pred);
            assert(seq![e].filter(pred) + Seq::<FsEntry>::empty() =~= Seq::<FsEntry>::empty()
                + seq![e].filter(pred));
        } else {
            assert(seq![e].filter(pred) =~= Seq::<FsEntry>::empty()) by {
                lemma_none_kept(seq![e], pred);
            }
            assert(Seq::<FsEntry>::empty() + back.filter(pred) =~= back.filter(pred)
                + Seq::<FsEntry>::empty());
        }
    }
}

/// A filter that keeps no entry gives none.
proof fn lemma_none_kept(entries: Seq<FsEntry>, pred: spec_fn(FsEntry) -> bool)
    requires
        forall|k: int| 0 <= k < entries.len() ==> !pred(#[trigger] entries[k]),
    ensures
        entries.filter(pred) == Seq::<FsEntry>::empty(),
    decreases entries.len(),
{
    reveal(Seq::filter);
    if entries.len() > 0 {
        let before = entries.drop_last();
        assert forall|k: int| 0 <= k < before.len() implies !pred(#[trigger] before[k]) by {
            assert(before[k] == entries[k]);
        }
        lemma_none_kept(before, pred);
        assert(!pred(entries[entries.len() - 1]));
    }
}

/// Adding an entry at the end of equal entries keeps them equal.
proof fn lemma_push_same_entries(before: Seq<FsEntry>, after: Seq<FsEntry>, e: FsEntry)
    requires
        same_entries(before, after),
    ensures
        forall|key: (bool, Seq<char>)| #[trigger]
            with_key(after.push(e), key) == with_key(before.push(e), key),
{
    assert forall|key: (bool, Seq<char>)| #[trigger]
        with_key(after.push(e), key) == with_key(before.push(e), key) by {
        let pred = |x: FsEntry| sort_key(x) == key;
        assert(after.push(e) =~= after + seq![e]);
        assert(before.push(e) =~= before + seq![e]);
        Seq::filter_distributes_over_add(after, seq![e], pred);
        Seq::filter_distributes_over_add(before, seq![e], pred);
        assert(with_key(after, key) == with_key(before, key));
    }
}

/// Puts the entries of a folder in order: folders first, then by name, case aside. Entries that
/// are alike stay in the order that they came in.
pub fn sort_entries(entries: Vec<FsEntry>) -> (out: Vec<FsEntry>)
    ensures
        in_order(out@),
        same_entries(entries@, out@),
        out@.len() == entries@.len(),
{
    let ghost all = entries@;
    let mut rest: Vec<FsEntry> = entries;
    let mut out: Vec<FsEntry> = Vec::new();
    let mut done: Ghost<int> = Ghost(0int);
    assert(all.skip(0) =~= all);
    assert(all.take(0) =~= out@);
    while rest.len() > 0
        invariant
            0 <= done@ <= all.len(),
            rest@ == all.skip(done@),
            in_order(out@),
            same_entries(all.take(done@), out@),
            out@.len() == done@,
        decreases rest.len(),
    {
        let e: FsEntry = rest.remove(0);
        assert(rest@ =~= all.skip(done@ + 1));
        assert(e == all[done@]);
        let ghost before = out@;
        let mut at: usize = out.len();
        while at > 0 && !entry_before(&out[at - 1], &e)
            invariant
                at <= out.len(),
                out@ == before,
                forall|k: int|
                    at <= k < out@.len() ==> !key_le(sort_key(#[trigger] out@[k]), sort_key(e)),
            decreases at,
        {
            at = at - 1;
        }
        proof {
            lemma_insert_in_order(before, e, at as int);
            lemma_insert_same_entries(before, e, at as int);
            lemma_push_same_entries(all.take(done@), before, e);
            assert(all.take(done@ + 1) =~= all.take(done@).push(e));
        }
        out.insert(at, e);
        assert(same_entries(all.take(done@ + 1), out@)) by {
            assert forall|key: (bool, Seq<char>)| #[trigger]
                with_key(out@, key) == with_key(all.take(done@ + 1), key) by {
                assert(with_key(before.insert(at as int, e), key) == with_key(
                    before.push(e),
                    key,
                ));
                assert(with_key(before.push(e), key) == with_key(all.take(done@).push(e), key));
            }
        }
        done = Ghost(done@ + 1);
    }
    assert(all.take(done@) =~= all);
    out
}

/// Any two entries are in order one way round, and both ways round only if they have the same
/// kind and the same name but for upper and lower case.
pub proof fn entries_are_ordered_one_way(a: (bool, Seq<char>), b: (bool, Seq<char>))
    ensures
        key_le(a, b) || key_le(b, a),
        key_le(a, b) && key_le(b, a) ==> a == b,
{
    lemma_text_total(a.1, b.1);
    if key_le(a, b) && key_le(b, a) {
        lemma_text_antisymmetric(a.1, b.1);
    }
}

/// Folders come before files, and of two names the first character in which they differ decides; a
/// name comes before every longer one that begins with it.
pub proof fn entries_are_ordered_by_kind_and_name(
    a: Seq<char>,
    b: Seq<char>,
    common: Seq<char>,
    x: char,
    y: char,
)
    ensures
        key_le((true, a), (false, b)),
        !key_le((false, a), (true, b)),
        key_le((true, a), (true, b)) == text_le(a, b),
        key_le((false, a), (false, b)) == text_le(a, b),
        text_le(a, a + b),
        b.len() > 0 ==> !text_le(a + b, a),
        x != y ==> (text_le(common.push(x) + a, common.push(y) + b) <==> x < y),
{
    lemma_prefix_before(a, b);
    if x != y {
        lemma_difference_decides(common, x, a, y, b);
    }
}

/// A text stands before every longer one that begins with it.
proof fn lemma_prefix_before(a: Seq<char>, b: Seq<char>)
    ensures
        text_le(a, a + b),
        b.len() > 0 ==> !text_le(a + b, a),
    decreases a.len(),
{
    if a.len() > 0 {
        lemma_prefix_before(a.drop_first(), b);
        assert((a + b).drop_first() =~= a.drop_first() + b);
    }
}

/// The first character in which two texts differ decides their order.
proof fn lemma_difference_decides(
    common: Seq<char>,
    x: char,
    a: Seq<char>,
    y: char,
    b: Seq<char>,
)
    requires
        x != y,
    ensures
        text_le(common.push(x) + a, common.push(y) + b) <==> x < y,
    decreases common.len(),
{
    let p = common.push(x) + a;
    let q = common.push(y) + b;
    if common.len() == 0 {
        assert(p[0] == x && q[0] == y);
    } else {
        lemma_difference_decides(common.drop_first(), x, a, y, b);
        assert(p.drop_first() =~= common.drop_first().push(x) + a);
        assert(q.drop_first() =~= common.drop_first().push(y) + b);
    }
}

/// Entries are told apart by their kind and by their name in lower case.
pub proof fn entries_are_sorted_by_lower_case(e: FsEntry)
    ensures
        sort_key(e) == (e.is_dir, lowercase(e.name@)),
{
}

/// A path is allowed exactly where the components of a root come first in its own: beside a root, a
/// name that merely begins like it is not.
pub proof fn only_what_lies_under_a_root_is_allowed(path: Seq<char>, root: Seq<char>)
    ensures
        under_a_root(path, seq![root]) <==> components(root).len() <= components(path).len()
            && components(path).take(components(root).len() as int) == components(root),
        !under_a_root(path, Seq::empty()),
{
    let one = seq![root];
    let c = components(path);
    let b = components(root);
    if lies_under(path, root) {
        assert(lies_under(path, one[0]));
        assert(c.take(b.len() as int) =~= b);
    }
    if b.len() <= c.len() && c.take(b.len() as int) == b {
        assert(b.is_prefix_of(c));
        assert(lies_under(path, one[0]));
    }
}


/// A list in order has its folders before its files, and a list that was put in order has the entries
/// that it had.
pub proof fn sorted_lists_keep_their_entries(
    before: Seq<FsEntry>,
    after: Seq<FsEntry>,
    e: FsEntry,
    i: int,
    j: int,
)
    ensures
        in_order(after) && 0 <= i < j < after.len() && after[j].is_dir ==> after[i].is_dir,
        in_order(after) && 0 <= i < j < after.len() && after[i].is_dir == after[j].is_dir
            ==> text_le(lowercase(after[i].name@), lowercase(after[j].name@)),
        same_entries(before, after) ==> (before.contains(e) <==> after.contains(e)),
{
    if in_order(after) && 0 <= i < j < after.len() {
        assert(key_le(sort_key(after[i]), sort_key(after[j])));
    }
    if same_entries(before, after) {
        let key = sort_key(e);
        assert(with_key(after, key) == with_key(before, key));
        lemma_with_key(before, e);
        lemma_with_key(after, e);
    }
}

/// An entry is among those of its key exactly where it is there.
proof fn lemma_with_key(entries: Seq<FsEntry>, e: FsEntry)
    ensures
        with_key(entries, sort_key(e)).contains(e) <==> entries.contains(e),
    decreases entries.len(),
{
    reveal(Seq::filter);
    let key = sort_key(e);
    let pred = |x: FsEntry| sort_key(x) == key;
    let kept = with_key(entries, key);
    if entries.len() > 0 {
        let fewer = entries.drop_last();
        lemma_with_key(fewer, e);
        let before = with_key(fewer, key);
        if fewer.contains(e) {
            let i = choose|i: int| 0 <= i < fewer.len() && fewer[i] == e;
            assert(entries[i] == e);
            let k = choose|k: int| 0 <= k < before.len() && before[k] == e;
            assert(kept[k] == e);
        }
        if entries.last() == e {
            assert(kept.last() == e);
            assert(entries[entries.len() - 1] == e);
        }
        if kept.contains(e) && !fewer.contains(e) {
            let k = choose|k: int| 0 <= k < kept.len() && kept[k] == e;
            if k < before.len() {
                assert(before[k] == e);
            }
        }
        if entries.contains(e) && !fewer.contains(e) {
            let i = choose|i: int| 0 <= i < entries.len() && entries[i] == e;
            if i < fewer.len() {
                assert(fewer[i] == e);
            }
        }
    }
}


} // verus!
