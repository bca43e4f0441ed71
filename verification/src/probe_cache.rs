//! Remembers what probes told. What is remembered of a file counts only as long as the file keeps
//! its size and its time of change.

use crate::media_skip::{copy_media, SourceMedia};
use crate::text::same;
use vstd::prelude::*;
use vstd::string::*;

verus! {

/// What a file is known again by: its size, and when it was changed last.
#[derive(Debug, Clone, Copy, PartialEq, Eq, Structural)]
pub struct FileIdentity {
    pub size: i64,
    pub mtime: i64,
}

/// What is remembered of a file.
#[derive(Debug, Clone)]
pub struct CacheRow {
    pub identity: FileIdentity,
    pub media: SourceMedia,
}

/// What is remembered of a file that has the given identity.
pub open spec fn remembered(row: Option<CacheRow>, id: FileIdentity) -> Option<SourceMedia> {
    match row {
        Some(r) => if r.identity == id {
            Some(r.media)
        } else {
            None
        },
        None => None,
    }
}

/// What is remembered of a file that has the given identity.
pub fn cached_media(row: &Option<CacheRow>, id: FileIdentity) -> (r: Option<SourceMedia>)
    ensures
        r == remembered(*row, id),
{
    match row {
        Some(r) => {
            if r.identity == id {
                Some(copy_media(&r.media))
            } else {
                None
            }
        },
        None => None,
    }
}

/// The files of whose media something is remembered, in order.
pub open spec fn hits(files: Seq<(String, FileIdentity)>, rows: Seq<Option<CacheRow>>) -> Seq<
    (String, SourceMedia),
>
    decreases files.len(),
{
    if files.len() == 0 {
        Seq::empty()
    } else {
        let before = hits(files.drop_last(), rows);
        let i = files.len() - 1;
        match remembered(rows[i], files[i].1) {
            Some(media) => before.push((files[i].0, media)),
            None => before,
        }
    }
}

/// The files of whose media nothing is remembered, in order.
pub open spec fn misses(files: Seq<(String, FileIdentity)>, rows: Seq<Option<CacheRow>>) -> Seq<
    (String, FileIdentity),
>
    decreases files.len(),
{
    if files.len() == 0 {
        Seq::empty()
    } else {
        let before = misses(files.drop_last(), rows);
        let i = files.len() - 1;
        match remembered(rows[i], files[i].1) {
            Some(_) => before,
            None => before.push(files[i]),
        }
    }
}

/// Where the row of a path stands; -1 if there is none.
pub open spec fn row_place(rows: Seq<(String, CacheRow)>, path: Seq<char>) -> int
    decreases rows.len(),
{
    if rows.len() == 0 {
        -1
    } else if rows.last().0@ == path {
        rows.len() - 1
    } else {
        row_place(rows.drop_last(), path)
    }
}

/// What is stored under a path.
pub open spec fn row_of(rows: Seq<(String, CacheRow)>, path: Seq<char>) -> Option<CacheRow> {
    let i = row_place(rows, path);
    if i >= 0 {
        Some(rows[i].1)
    } else {
        None
    }
}

/// Whether no path has two rows.
pub open spec fn one_row_each(rows: Seq<(String, CacheRow)>) -> bool {
    forall|i: int, j: int|
        0 <= i < j < rows.len() ==> (#[trigger] rows[i]).0@ != (#[trigger] rows[j]).0@
}

/// The row that a probe gives.
pub open spec fn probed_row(item: (String, FileIdentity, SourceMedia)) -> (String, CacheRow) {
    (item.0, CacheRow { identity: item.1, media: item.2 })
}

/// The rows once a probe is stored: it takes the place of what was stored under its path.
pub open spec fn with_row(
    rows: Seq<(String, CacheRow)>,
    item: (String, FileIdentity, SourceMedia),
) -> Seq<(String, CacheRow)> {
    let i = row_place(rows, item.0@);
    if i >= 0 {
        rows.update(i, probed_row(item))
    } else {
        rows.push(probed_row(item))
    }
}

/// The rows once probes are stored, one after the other.
pub open spec fn stored(
    rows: Seq<(String, CacheRow)>,
    items: Seq<(String, FileIdentity, SourceMedia)>,
) -> Seq<(String, CacheRow)>
    decreases items.len(),
{
    if items.len() == 0 {
        rows
    } else {
        with_row(stored(rows, items.drop_last()), items.last())
    }
}

/// The latest probe of a path.
pub open spec fn latest(items: Seq<(String, FileIdentity, SourceMedia)>, path: Seq<char>) -> Option<
    (String, FileIdentity, SourceMedia),
>
    decreases items.len(),
{
    if items.len() == 0 {
        None
    } else if items.last().0@ == path {
        Some(items.last())
    } else {
        latest(items.drop_last(), path)
    }
}

/// A row that is found is that of the path, and none is missed.
proof fn lemma_row_place(rows: Seq<(String, CacheRow)>, path: Seq<char>)
    ensures
        -1 <= row_place(rows, path) < rows.len(),
        row_place(rows, path) >= 0 ==> rows[row_place(rows, path)].0@ == path,
        row_place(rows, path) < 0 ==> forall|i: int|
            0 <= i < rows.len() ==> (#[trigger] rows[i]).0@ != path,
    decreases rows.len(),
{
    if rows.len() > 0 && rows.last().0@ != path {
        lemma_row_place(rows.drop_last(), path);
        assert forall|i: int| row_place(rows, path) < 0 && 0 <= i < rows.len() implies (
        #[trigger] rows[i]).0@ != path by {
            if i < rows.len() - 1 {
                assert(rows.drop_last()[i] == rows[i]);
            }
        }
    }
}

/// Where no path has two rows, the row of a path is the one that stands there.
proof fn lemma_row_at(rows: Seq<(String, CacheRow)>, i: int)
    requires
        one_row_each(rows),
        0 <= i < rows.len(),
    ensures
        row_of(rows, rows[i].0@) == Some(rows[i].1),
{
    lemma_row_place(rows, rows[i].0@);
    let j = row_place(rows, rows[i].0@);
    if j < i {
        assert(rows[j].0@ != rows[i].0@);
    }
    if i < j {
        assert(rows[i].0@ != rows[j].0@);
    }
}

/// Storing a probe changes the row of its path alone.
proof fn lemma_with_row(
    rows: Seq<(String, CacheRow)>,
    item: (String, FileIdentity, SourceMedia),
    path: Seq<char>,
)
    requires
        one_row_each(rows),
    ensures
        one_row_each(with_row(rows, item)),
        row_of(with_row(rows, item), path) == if item.0@ == path {
            Some(probed_row(item).1)
        } else {
            row_of(rows, path)
        },
{
    let after = with_row(rows, item);
    let at = row_place(rows, item.0@);
    lemma_row_place(rows, item.0@);
    assert forall|i: int, j: int| 0 <= i < j < after.len() implies (#[trigger] after[i]).0@ != (
    #[trigger] after[j]).0@ by {
        if at >= 0 {
            assert(after[i].0@ == rows[i].0@ && after[j].0@ == rows[j].0@);
        } else {
            assert(after[i] == rows[i]);
            if j < rows.len() {
                assert(after[j] == rows[j]);
            }
        }
    }
    lemma_row_place(rows, path);
    lemma_row_place(after, path);
    if item.0@ == path {
        lemma_row_at(
            after,
            if at >= 0 {
                at
            } else {
                after.len() - 1
            },
        );
    } else {
        let k = row_place(rows, path);
        let j = row_place(after, path);
        if k >= 0 {
            assert(after[k] == rows[k]);
            lemma_row_at(after, k);
        } else if j >= 0 && j < rows.len() {
            assert(after[j].0@ == rows[j].0@);
        }
    }
}

/// What is stored is read back: a path has one row, which holds the latest probe of it, and a path
/// that was not probed keeps what it had.
pub proof fn stored_probes_are_read_back(
    rows: Seq<(String, CacheRow)>,
    items: Seq<(String, FileIdentity, SourceMedia)>,
    path: Seq<char>,
)
    requires
        one_row_each(rows),
    ensures
        one_row_each(stored(rows, items)),
        row_of(stored(rows, items), path) == match latest(items, path) {
            Some(item) => Some(probed_row(item).1),
            None => row_of(rows, path),
        },
        latest(items, path) matches Some(item) ==> remembered(
            row_of(stored(rows, items), path),
            item.1,
        ) == Some(item.2),
    decreases items.len(),
{
    if items.len() > 0 {
        stored_probes_are_read_back(rows, items.drop_last(), path);
        lemma_with_row(stored(rows, items.drop_last()), items.last(), path);
    }
}

/// Stores probes, one row for each path.
pub fn store_batch(
    rows: &mut Vec<(String, CacheRow)>,
    probed: &[(String, FileIdentity, SourceMedia)],
)
    ensures
        final(rows)@ == stored(old(rows)@, probed@),
{
    let ghost before = rows@;
    let mut k: usize = 0;
    assert(probed@.take(0) =~= Seq::<(String, FileIdentity, SourceMedia)>::empty());
    while k < probed.len()
        invariant
            k <= probed@.len(),
            rows@ == stored(before, probed@.take(k as int)),
        decreases probed@.len() - k,
    {
        assert(probed@.take(k + 1).drop_last() =~= probed@.take(k as int));
        let row: CacheRow = CacheRow { identity: probed[k].1, media: copy_media(&probed[k].2) };
        let ghost all = rows@;
        let mut i: usize = rows.len();
        assert(all.take(i as int) =~= all);
        while i > 0 && !same(&rows[i - 1].0, &probed[k].0)
            invariant
                i <= rows.len(),
                k < probed@.len(),
                all == rows@,
                row_place(all, probed@[k as int].0@) == row_place(
                    all.take(i as int),
                    probed@[k as int].0@,
                ),
            decreases i,
        {
            assert(all.take(i as int).drop_last() =~= all.take(i - 1));
            i = i - 1;
        }
        if i > 0 {
            rows.set(i - 1, (probed[k].0.clone(), row));
        } else {
            rows.push((probed[k].0.clone(), row));
        }
        k = k + 1;
    }
    assert(probed@.take(k as int) =~= probed@);
}

/// Tells files of whose media something is remembered from the others. `rows` holds what is stored
/// under the path of each file.
pub fn lookup_batch(files: &[(String, FileIdentity)], rows: &[Option<CacheRow>]) -> (r: (
    Vec<(String, SourceMedia)>,
    Vec<(String, FileIdentity)>,
))
    requires
        files@.len() == rows@.len(),
    ensures
        r.0@ == hits(files@, rows@),
        r.1@ == misses(files@, rows@),
{
    let mut found: Vec<(String, SourceMedia)> = Vec::new();
    let mut others: Vec<(String, FileIdentity)> = Vec::new();
    let mut i: usize = 0;
    assert(hits(files@.take(0), rows@) =~= Seq::<(String, SourceMedia)>::empty());
    assert(misses(files@.take(0), rows@) =~= Seq::<(String, FileIdentity)>::empty());
    while i < files.len()
        invariant
            i <= files@.len() == rows@.len(),
            found@ == hits(files@.take(i as int), rows@),
            others@ == misses(files@.take(i as int), rows@),
        decreases files@.len() - i,
    {
        assert(files@.take(i + 1).drop_last() =~= files@.take(i as int));
        let id: FileIdentity = files[i].1;
        match cached_media(&rows[i], id) {
            Some(media) => {
                found.push((files[i].0.clone(), media));
            },
            None => {
                others.push((files[i].0.clone(), id));
            },
        }
        i = i + 1;
    }
    assert(files@.take(i as int) =~= files@);
    (found, others)
}

/// The files that have an identity, in order.
pub open spec fn identified(files: Seq<(String, Option<FileIdentity>)>) -> Seq<
    (String, FileIdentity),
>
    decreases files.len(),
{
    if files.len() == 0 {
        Seq::empty()
    } else {
        let before = identified(files.drop_last());
        match files.last().1 {
            Some(id) => before.push((files.last().0, id)),
            None => before,
        }
    }
}

/// The files that have none, in order.
pub open spec fn unidentified(files: Seq<(String, Option<FileIdentity>)>) -> Seq<String>
    decreases files.len(),
{
    if files.len() == 0 {
        Seq::empty()
    } else {
        let before = unidentified(files.drop_last());
        match files.last().1 {
            Some(_) => before,
            None => before.push(files.last().0),
        }
    }
}

/// Tells files that have an identity from those that have none.
pub fn split_candidates(files: &[(String, Option<FileIdentity>)]) -> (r: (
    Vec<(String, FileIdentity)>,
    Vec<String>,
))
    ensures
        r.0@ == identified(files@),
        r.1@ == unidentified(files@),
{
    let mut known: Vec<(String, FileIdentity)> = Vec::new();
    let mut forced: Vec<String> = Vec::new();
    let mut i: usize = 0;
    assert(identified(files@.take(0)) =~= Seq::<(String, FileIdentity)>::empty());
    assert(unidentified(files@.take(0)) =~= Seq::<String>::empty());
    while i < files.len()
        invariant
            i <= files@.len(),
            known@ == identified(files@.take(i as int)),
            forced@ == unidentified(files@.take(i as int)),
        decreases files@.len() - i,
    {
        assert(files@.take(i + 1).drop_last() =~= files@.take(i as int));
        match files[i].1 {
            Some(id) => {
                known.push((files[i].0.clone(), id));
            },
            None => {
                forced.push(files[i].0.clone());
            },
        }
        i = i + 1;
    }
    assert(files@.take(i as int) =~= files@);
    (known, forced)
}

/// What is to be remembered of files that were probed: the answers that there were.
pub open spec fn worth_storing(
    files: Seq<(String, FileIdentity)>,
    answers: Seq<(String, Option<SourceMedia>)>,
) -> Seq<(String, FileIdentity, SourceMedia)>
    decreases files.len(),
{
    if files.len() == 0 {
        Seq::empty()
    } else {
        let before = worth_storing(files.drop_last(), answers);
        let i = files.len() - 1;
        match answers[i].1 {
            Some(media) => before.push((files[i].0, files[i].1, media)),
            None => before,
        }
    }
}

/// Only the answers for the files themselves matter.
proof fn lemma_worth_storing(
    files: Seq<(String, FileIdentity)>,
    answers: Seq<(String, Option<SourceMedia>)>,
    more: Seq<(String, Option<SourceMedia>)>,
)
    requires
        files.len() <= answers.len() <= more.len(),
        answers =~= more.take(answers.len() as int),
    ensures
        worth_storing(files, answers) == worth_storing(files, more),
    decreases files.len(),
{
    if files.len() > 0 {
        lemma_worth_storing(files.drop_last(), answers, more);
        assert(answers[files.len() - 1] == more[files.len() - 1]);
    }
}

/// What is to be remembered of files that were probed.
pub fn fresh_entries(
    files: &[(String, FileIdentity)],
    answers: &[(String, Option<SourceMedia>)],
) -> (out: Vec<(String, FileIdentity, SourceMedia)>)
    requires
        files@.len() == answers@.len(),
    ensures
        out@ == worth_storing(files@, answers@),
{
    let mut out: Vec<(String, FileIdentity, SourceMedia)> = Vec::new();
    let mut i: usize = 0;
    assert(worth_storing(files@.take(0), answers@) =~= Seq::<
        (String, FileIdentity, SourceMedia),
    >::empty());
    while i < files.len()
        invariant
            i <= files@.len() == answers@.len(),
            out@ == worth_storing(files@.take(i as int), answers@),
        decreases files@.len() - i,
    {
        assert(files@.take(i + 1).drop_last() =~= files@.take(i as int));
        match &answers[i].1 {
            Some(media) => {
                out.push((files[i].0.clone(), files[i].1, copy_media(media)));
            },
            None => {},
        }
        i = i + 1;
    }
    assert(files@.take(i as int) =~= files@);
    out
}

/// Whether an entry is a path with what a probe of it answered.
pub open spec fn is_probe_of<P: Fn(&str) -> Option<SourceMedia>>(
    probe: P,
    path: String,
    entry: (String, Option<SourceMedia>),
) -> bool {
    entry.0 == path && exists|p: &str| p@ == path@ && call_ensures(probe, (p,), entry.1)
}

/// Whether `out` holds the remembered files with their media, then those that were probed with the
/// answers.
pub open spec fn all_answered<P: Fn(&str) -> Option<SourceMedia>>(
    found: Seq<(String, SourceMedia)>,
    missed: Seq<(String, FileIdentity)>,
    forced: Seq<String>,
    probe: P,
    out: Seq<(String, Option<SourceMedia>)>,
) -> bool {
    &&& out.len() == found.len() + missed.len() + forced.len()
    &&& forall|i: int| 0 <= i < found.len() ==> #[trigger] out[i] == (found[i].0, Some(found[i].1))
    &&& forall|i: int|
        0 <= i < missed.len() ==> is_probe_of(
            probe,
            (#[trigger] missed[i]).0,
            out[found.len() + i],
        )
    &&& forall|i: int|
        0 <= i < forced.len() ==> is_probe_of(
            probe,
            #[trigger] forced[i],
            out[found.len() + missed.len() + i],
        )
}

/// Whether items were handed to `store`, all at once; nothing is to be stored where there are none.
pub open spec fn is_stored<S: Fn(&[(String, FileIdentity, SourceMedia)])>(
    store: S,
    items: Seq<(String, FileIdentity, SourceMedia)>,
) -> bool {
    items.len() == 0 || exists|given: &[(String, FileIdentity, SourceMedia)]|
        given@ == items && #[trigger] call_ensures(store, (given,), ())
}

/// Whether a path is one to be probed: that of a file that is not remembered or has no identity.
pub open spec fn to_probe(
    missed: Seq<(String, FileIdentity)>,
    forced: Seq<String>,
    path: Seq<char>,
) -> bool {
    ||| exists|i: int| 0 <= i < missed.len() && (#[trigger] missed[i]).0@ == path
    ||| exists|i: int| 0 <= i < forced.len() && (#[trigger] forced[i])@ == path
}

/// Whether answers are what probes of files told, in order.
pub open spec fn are_probes_of<P: Fn(&str) -> Option<SourceMedia>>(
    probe: P,
    missed: Seq<(String, FileIdentity)>,
    answers: Seq<(String, Option<SourceMedia>)>,
) -> bool {
    &&& answers.len() == missed.len()
    &&& forall|i: int|
        0 <= i < missed.len() ==> is_probe_of(probe, (#[trigger] missed[i]).0, answers[i])
}

/// Whether items are ones to be stored: what probes of the files that are not remembered told, if
/// they told anything.
pub open spec fn to_store<P: Fn(&str) -> Option<SourceMedia>>(
    missed: Seq<(String, FileIdentity)>,
    probe: P,
    items: Seq<(String, FileIdentity, SourceMedia)>,
) -> bool {
    items.len() > 0 && exists|answers: Seq<(String, Option<SourceMedia>)>|
        are_probes_of(probe, missed, answers) && items == #[trigger] worth_storing(missed, answers)
}

/// What the candidates hold: what is remembered of them, or else what a probe tells. Looks all up
/// at once, probes what is not remembered and what has no identity, and stores what the probes of
/// files with an identity told, if they told anything. A file that is remembered is not probed, and
/// nothing else is stored.
pub fn resolve_media<L, P, S>(
    candidates: &[(String, Option<FileIdentity>)],
    lookup: L,
    probe: P,
    store: S,
) -> (out: Vec<(String, Option<SourceMedia>)>) where
    L: Fn(&[(String, FileIdentity)]) -> (Vec<(String, SourceMedia)>, Vec<(String, FileIdentity)>),
    P: Fn(&str) -> Option<SourceMedia>,
    S: Fn(&[(String, FileIdentity, SourceMedia)]),

    requires
        forall|ids: &[(String, FileIdentity)]|
            ids@ == identified(candidates@) ==> call_requires(lookup, (ids,)),
        forall|
            ids: &[(String, FileIdentity)],
            found: Vec<(String, SourceMedia)>,
            missed: Vec<(String, FileIdentity)>,
            path: &str,
        |
            ids@ == identified(candidates@) && #[trigger] call_ensures(
                lookup,
                (ids,),
                (found, missed),
            ) && to_probe(missed@, unidentified(candidates@), path@) ==> #[trigger] call_requires(
                probe,
                (path,),
            ),
        forall|
            ids: &[(String, FileIdentity)],
            found: Vec<(String, SourceMedia)>,
            missed: Vec<(String, FileIdentity)>,
            items: &[(String, FileIdentity, SourceMedia)],
        |
            ids@ == identified(candidates@) && #[trigger] call_ensures(
                lookup,
                (ids,),
                (found, missed),
            ) && to_store(missed@, probe, items@) ==> #[trigger] call_requires(store, (items,)),
    ensures
        exists|
            ids: &[(String, FileIdentity)],
            found: Vec<(String, SourceMedia)>,
            missed: Vec<(String, FileIdentity)>,
        |
            ids@ == identified(candidates@) && #[trigger] call_ensures(
                lookup,
                (ids,),
                (found, missed),
            ) && all_answered(found@, missed@, unidentified(candidates@), probe, out@) && is_stored(
                store,
                worth_storing(missed@, out@.skip(found@.len() as int)),
            ),
{
    let (known, forced): (Vec<(String, FileIdentity)>, Vec<String>) = split_candidates(candidates);
    let ids: &[(String, FileIdentity)] = known.as_slice();
    let (found, missed): (Vec<(String, SourceMedia)>, Vec<(String, FileIdentity)>) = lookup(ids);
    assert(call_ensures(lookup, (ids,), (found, missed)));
    assert forall|path: &str| to_probe(missed@, forced@, path@) implies call_requires(
        probe,
        (path,),
    ) by {}
    let mut probed: Vec<(String, Option<SourceMedia>)> = Vec::new();
    let mut i: usize = 0;
    while i < missed.len()
        invariant
            i <= missed.len(),
            forall|path: &str| to_probe(missed@, forced@, path@) ==> call_requires(probe, (path,)),
            probed.len() == i,
            forall|k: int|
                0 <= k < i ==> is_probe_of(probe, (#[trigger] missed@[k]).0, probed@[k]),
        decreases missed.len() - i,
    {
        let path: String = missed[i].0.clone();
        assert(missed@[i as int].0@ == path@);
        let media: Option<SourceMedia> = probe(path.as_str());
        assert(is_probe_of(probe, missed@[i as int].0, (path, media)));
        probed.push((path, media));
        i = i + 1;
    }
    let fresh: Vec<(String, FileIdentity, SourceMedia)> = fresh_entries(
        missed.as_slice(),
        probed.as_slice(),
    );
    let ghost asked = probed@;
    i = 0;
    while i < forced.len()
        invariant
            i <= forced.len(),
            asked.len() == missed.len(),
            are_probes_of(probe, missed@, asked),
            asked =~= probed@.take(asked.len() as int),
            forall|path: &str| to_probe(missed@, forced@, path@) ==> call_requires(probe, (path,)),
            probed.len() == missed.len() + i,
            forall|k: int|
                0 <= k < missed.len() ==> is_probe_of(
                    probe,
                    (#[trigger] missed@[k]).0,
                    probed@[k],
                ),
            forall|k: int|
                0 <= k < i ==> is_probe_of(
                    probe,
                    #[trigger] forced@[k],
                    probed@[missed.len() + k],
                ),
        decreases forced.len() - i,
    {
        let path: String = forced[i].clone();
        assert(forced@[i as int]@ == path@);
        let media: Option<SourceMedia> = probe(path.as_str());
        assert(is_probe_of(probe, forced@[i as int], (path, media)));
        probed.push((path, media));
        i = i + 1;
    }
    if fresh.len() > 0 {
        let given: &[(String, FileIdentity, SourceMedia)] = fresh.as_slice();
        assert(are_probes_of(probe, missed@, asked));
        assert(given@ == worth_storing(missed@, asked));
        store(given);
        assert(given@ == fresh@ && call_ensures(store, (given,), ()));
    }
    assert(is_stored(store, fresh@));
    let mut out: Vec<(String, Option<SourceMedia>)> = Vec::new();
    i = 0;
    while i < found.len()
        invariant
            i <= found.len(),
            out.len() == i,
            forall|k: int| 0 <= k < i ==> #[trigger] out@[k] == (found@[k].0, Some(found@[k].1)),
        decreases found.len() - i,
    {
        out.push((found[i].0.clone(), Some(copy_media(&found[i].1))));
        i = i + 1;
    }
    let ghost first = out@;
    let ghost second = probed@;
    out.append(&mut probed);
    assert(out@ =~= first + second);
    assert(out@.skip(found@.len() as int) =~= second);
    proof {
        lemma_worth_storing(missed@, asked, second);
    }
    assert(call_ensures(lookup, (ids,), (found, missed)));
    assert(all_answered(found@, missed@, forced@, probe, out@)) by {
        assert forall|k: int| 0 <= k < missed@.len() implies is_probe_of(
            probe,
            (#[trigger] missed@[k]).0,
            out@[found@.len() + k],
        ) by {
            assert(out@[found@.len() + k] == second[k]);
        }
        assert forall|k: int| 0 <= k < forced@.len() implies is_probe_of(
            probe,
            #[trigger] forced@[k],
            out@[found@.len() + missed@.len() + k],
        ) by {
            assert(out@[found@.len() + missed@.len() + k] == second[missed@.len() + k]);
        }
    }
    out
}

/// What is stored of a file is remembered as long as the file keeps its identity, and forgotten
/// once either its size or its time of change differs.
pub proof fn stored_media_counts_while_the_file_is_unchanged(row: CacheRow, id: FileIdentity)
    ensures
        remembered(Some(row), row.identity) == Some(row.media),
        id.size != row.identity.size || id.mtime != row.identity.mtime ==> remembered(
            Some(row),
            id,
        ) is None,
        remembered(None, id) is None,
{
}

/// Each file that is looked up is either remembered or missed, never both.
pub proof fn lookups_lose_no_file(files: Seq<(String, FileIdentity)>, rows: Seq<Option<CacheRow>>)
    ensures
        hits(files, rows).len() + misses(files, rows).len() == files.len(),
    decreases files.len(),
{
    if files.len() > 0 {
        lookups_lose_no_file(files.drop_last(), rows);
    }
}

/// Each candidate is either looked up or probed.
pub proof fn candidates_are_all_asked_for(files: Seq<(String, Option<FileIdentity>)>)
    ensures
        identified(files).len() + unidentified(files).len() == files.len(),
    decreases files.len(),
{
    if files.len() > 0 {
        candidates_are_all_asked_for(files.drop_last());
    }
}

/// Every file that is looked up is answered for itself: with what is remembered of it where that is
/// of the file as it stands, and else as one that is missed.
pub proof fn lookups_answer_for_every_file(
    files: Seq<(String, FileIdentity)>,
    rows: Seq<Option<CacheRow>>,
    i: int,
)
    requires
        0 <= i < files.len() <= rows.len(),
    ensures
        rows[i] matches Some(row) && row.identity == files[i].1 ==> hits(files, rows).contains(
            (files[i].0, rows[i]->0.media),
        ),
        rows[i] is None || rows[i]->0.identity != files[i].1 ==> misses(files, rows).contains(
            files[i],
        ),
    decreases files.len(),
{
    let fewer = files.drop_last();
    let found = hits(files, rows);
    let lost = misses(files, rows);
    if i < files.len() - 1 {
        lookups_answer_for_every_file(fewer, rows, i);
        assert(fewer[i] == files[i]);
        let before = hits(fewer, rows);
        let without = misses(fewer, rows);
        if rows[i] is Some && rows[i]->0.identity == files[i].1 {
            let e = (files[i].0, rows[i]->0.media);
            let k = choose|k: int| 0 <= k < before.len() && before[k] == e;
            assert(found[k] == before[k]);
        } else {
            let k = choose|k: int| 0 <= k < without.len() && without[k] == files[i];
            assert(lost[k] == without[k]);
        }
    } else {
        if rows[i] is Some && rows[i]->0.identity == files[i].1 {
            assert(found.last() == (files[i].0, rows[i]->0.media));
        } else {
            assert(lost.last() == files[i]);
        }
    }
}

/// Files with an identity are asked for by it, and the others are set aside, each list in the order
/// of the files.
pub proof fn candidates_are_told_apart(
    a: Seq<(String, Option<FileIdentity>)>,
    b: Seq<(String, Option<FileIdentity>)>,
    path: String,
    id: FileIdentity,
)
    ensures
        identified(a + b) == identified(a) + identified(b),
        unidentified(a + b) == unidentified(a) + unidentified(b),
        identified(seq![(path, Some(id))]) == seq![(path, id)],
        identified(seq![(path, None)]) == Seq::<(String, FileIdentity)>::empty(),
        unidentified(seq![(path, Some(id))]) == Seq::<String>::empty(),
        unidentified(seq![(path, None)]) == seq![path],
    decreases b.len(),
{
    reveal_with_fuel(identified, 2);
    reveal_with_fuel(unidentified, 2);
    assert(identified(seq![(path, Some(id))]) =~= seq![(path, id)]);
    assert(unidentified(seq![(path, None::<FileIdentity>)]) =~= seq![path]);
    if b.len() == 0 {
        assert(a + b =~= a);
        assert(identified(a) + identified(b) =~= identified(a));
        assert(unidentified(a) + unidentified(b) =~= unidentified(a));
    } else {
        let fewer = b.drop_last();
        candidates_are_told_apart(a, fewer, path, id);
        assert((a + b).drop_last() =~= a + fewer);
        assert((a + b).last() == b.last());
        assert(identified(a + b) =~= identified(a) + identified(b));
        assert(unidentified(a + b) =~= unidentified(a) + unidentified(b));
    }
}

/// What a probe told of a file is stored under its path and identity, and a probe that told nothing
/// stores nothing.
pub proof fn answers_are_stored_for_their_file(
    files: Seq<(String, FileIdentity)>,
    answers: Seq<(String, Option<SourceMedia>)>,
    i: int,
)
    requires
        0 <= i < files.len() <= answers.len(),
    ensures
        answers[i].1 matches Some(media) ==> worth_storing(files, answers).contains(
            (files[i].0, files[i].1, media),
        ),
        worth_storing(files, answers).len() == answers.take(files.len() as int).filter(
            |a: (String, Option<SourceMedia>)| a.1 is Some,
        ).len(),
    decreases files.len(),
{
    reveal(Seq::filter);
    let fewer = files.drop_last();
    let last = files.len() - 1;
    let all = worth_storing(files, answers);
    let before = worth_storing(fewer, answers);
    let some = answers.take(files.len() as int);
    assert(some.drop_last() =~= answers.take(last));
    assert(some.last() == answers[last]);
    if fewer.len() > 0 {
        answers_are_stored_for_their_file(
            fewer,
            answers,
            if i < last {
                i
            } else {
                0
            },
        );
    } else {
        assert(answers.take(0).filter(|a: (String, Option<SourceMedia>)| a.1 is Some).len() == 0);
    }
    if answers[i].1 is Some {
        let e = (files[i].0, files[i].1, answers[i].1->0);
        if i < last {
            assert(fewer[i] == files[i]);
            let k = choose|k: int| 0 <= k < before.len() && before[k] == e;
            assert(all[k] == e);
        } else {
            assert(all.last() == e);
        }
    }
}


/// Every candidate is answered: what is remembered is given out as it was found, and whatever was
/// missed or could not be remembered with what a probe of it told.
pub proof fn every_candidate_is_answered<P: Fn(&str) -> Option<SourceMedia>>(
    found: Seq<(String, SourceMedia)>,
    missed: Seq<(String, FileIdentity)>,
    forced: Seq<String>,
    probe: P,
    out: Seq<(String, Option<SourceMedia>)>,
    i: int,
)
    requires
        all_answered(found, missed, forced, probe, out),
    ensures
        0 <= i < found.len() ==> out.contains((found[i].0, Some(found[i].1))),
        0 <= i < missed.len() ==> exists|k: int, p: &str|
            0 <= k < out.len() && (#[trigger] out[k]).0 == missed[i].0 && p@ == missed[i].0@
                && #[trigger] call_ensures(probe, (p,), out[k].1),
        0 <= i < forced.len() ==> exists|k: int, p: &str|
            0 <= k < out.len() && (#[trigger] out[k]).0 == forced[i] && p@ == forced[i]@
                && #[trigger] call_ensures(probe, (p,), out[k].1),
        out.len() == found.len() + missed.len() + forced.len(),
{
    if 0 <= i < found.len() {
        assert(out[i] == (found[i].0, Some(found[i].1)));
    }
    if 0 <= i < missed.len() {
        let k = found.len() + i;
        assert(is_probe_of(probe, missed[i].0, out[k]));
        let p = choose|p: &str| p@ == missed[i].0@ && call_ensures(probe, (p,), out[k].1);
        assert(out[k].0 == missed[i].0 && call_ensures(probe, (p,), out[k].1));
    }
    if 0 <= i < forced.len() {
        let k = found.len() + missed.len() + i;
        assert(is_probe_of(probe, forced[i], out[k]));
        let p = choose|p: &str| p@ == forced[i]@ && call_ensures(probe, (p,), out[k].1);
        assert(out[k].0 == forced[i] && call_ensures(probe, (p,), out[k].1));
    }
}

/// Nothing is stored but what a probe told of a file that was missed, under the path and the identity
/// of that file.
pub proof fn only_probes_of_missed_files_are_stored(
    files: Seq<(String, FileIdentity)>,
    answers: Seq<(String, Option<SourceMedia>)>,
    k: int,
)
    requires
        files.len() <= answers.len(),
        0 <= k < worth_storing(files, answers).len(),
    ensures
        exists|i: int|
            0 <= i < files.len() && worth_storing(files, answers)[k].0 == (#[trigger] files[i]).0
                && worth_storing(files, answers)[k].1 == files[i].1 && answers[i].1 == Some(
                worth_storing(files, answers)[k].2,
            ),
    decreases files.len(),
{
    if files.len() > 0 {
        let fewer = files.drop_last();
        let before = worth_storing(fewer, answers);
        let all = worth_storing(files, answers);
        if k < before.len() {
            only_probes_of_missed_files_are_stored(fewer, answers, k);
            let i = choose|i: int|
                0 <= i < fewer.len() && before[k].0 == (#[trigger] fewer[i]).0 && before[k].1
                    == fewer[i].1 && answers[i].1 == Some(before[k].2);
            assert(files[i] == fewer[i]);
            assert(all[k] == before[k]);
        } else {
            assert(all[k].0 == files[files.len() - 1].0);
        }
    }
}


} // verus!
