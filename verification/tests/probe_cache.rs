use convertbar::media_skip::SourceMedia;
use convertbar::probe_cache::{
    cached_media, fresh_entries, lookup_batch, resolve_media, split_candidates, store_batch,
    CacheRow, FileIdentity,
};
use std::cell::{Cell, RefCell};

fn media(codec: &str, height: i64) -> SourceMedia {
    SourceMedia {
        codec: codec.into(),
        height,
    }
}

/// The stored rows, by path.
struct Rows(Vec<(String, CacheRow)>);

impl Rows {
    fn store(&mut self, items: &[(String, FileIdentity, SourceMedia)]) {
        store_batch(&mut self.0, items);
    }

    fn of(&self, files: &[(String, FileIdentity)]) -> Vec<Option<CacheRow>> {
        files
            .iter()
            .map(|(path, _)| {
                self.0
                    .iter()
                    .find(|(p, _)| p == path)
                    .map(|(_, row)| row.clone())
            })
            .collect()
    }

    fn lookup(
        &self,
        files: &[(String, FileIdentity)],
    ) -> (Vec<(String, SourceMedia)>, Vec<(String, FileIdentity)>) {
        lookup_batch(files, &self.of(files))
    }
}

#[test]
fn store_then_lookup_returns_a_hit_on_matching_identity() {
    let mut rows = Rows(Vec::new());
    let id = FileIdentity {
        size: 100,
        mtime: 5000,
    };
    rows.store(&[("/m/a.mp4".to_string(), id, media("h265", 1080))]);
    let (hits, misses) = rows.lookup(&[("/m/a.mp4".to_string(), id)]);
    assert_eq!(hits, vec![("/m/a.mp4".to_string(), media("h265", 1080))]);
    assert!(
        misses.is_empty(),
        "a matching identity is a hit, not a miss"
    );
}

#[test]
fn lookup_misses_when_size_or_mtime_differs() {
    let mut rows = Rows(Vec::new());
    let id = FileIdentity {
        size: 100,
        mtime: 5000,
    };
    rows.store(&[("/m/a.mp4".to_string(), id, media("h265", 1080))]);
    let (h1, m1) = rows.lookup(&[(
        "/m/a.mp4".to_string(),
        FileIdentity {
            size: 101,
            mtime: 5000,
        },
    )]);
    assert!(h1.is_empty());
    assert_eq!(m1.len(), 1, "a size change must re-probe");
    let (h2, m2) = rows.lookup(&[(
        "/m/a.mp4".to_string(),
        FileIdentity {
            size: 100,
            mtime: 6000,
        },
    )]);
    assert!(h2.is_empty());
    assert_eq!(m2.len(), 1, "an mtime change must re-probe");
}

#[test]
fn lookup_misses_when_path_absent() {
    let rows = Rows(Vec::new());
    let (hits, misses) = rows.lookup(&[(
        "/m/never.mp4".to_string(),
        FileIdentity { size: 1, mtime: 1 },
    )]);
    assert!(hits.is_empty());
    assert_eq!(misses.len(), 1, "an unseen path is always a miss");
}

#[test]
fn store_upserts_a_stale_row() {
    let mut rows = Rows(Vec::new());
    let path = "/m/a.mp4".to_string();
    rows.store(&[(
        path.clone(),
        FileIdentity {
            size: 100,
            mtime: 5000,
        },
        media("h264", 1080),
    )]);
    rows.store(&[(
        path.clone(),
        FileIdentity {
            size: 200,
            mtime: 9000,
        },
        media("h265", 720),
    )]);
    assert_eq!(rows.0.len(), 1, "upsert keeps exactly one row per path");
    let (hits, _) = rows.lookup(&[(
        path.clone(),
        FileIdentity {
            size: 200,
            mtime: 9000,
        },
    )]);
    assert_eq!(
        hits,
        vec![(path, media("h265", 720))],
        "the row reflects the latest probe"
    );
}

#[test]
fn a_row_counts_for_the_file_it_was_made_of() {
    let id = FileIdentity { size: 3, mtime: 4 };
    let row = Some(CacheRow {
        identity: id,
        media: media("vp9", 480),
    });
    assert_eq!(cached_media(&row, id), Some(media("vp9", 480)));
    assert_eq!(cached_media(&row, FileIdentity { size: 3, mtime: 5 }), None);
    assert_eq!(cached_media(&None, id), None);
}

#[test]
fn resolve_media_probes_only_misses_and_never_reprobes_a_hit() {
    let probe_calls = RefCell::new(Vec::<String>::new());
    let stored = RefCell::new(Vec::<(String, FileIdentity, SourceMedia)>::new());
    let candidates = vec![
        (
            "/m/hit.mp4".to_string(),
            Some(FileIdentity {
                size: 10,
                mtime: 100,
            }),
        ),
        (
            "/m/miss.mp4".to_string(),
            Some(FileIdentity {
                size: 20,
                mtime: 200,
            }),
        ),
    ];
    let lookup = |ids: &[(String, FileIdentity)]| {
        let mut hits = Vec::new();
        let mut misses = Vec::new();
        for (p, id) in ids {
            if p == "/m/hit.mp4" {
                hits.push((p.clone(), media("h265", 1080)));
            } else {
                misses.push((p.clone(), *id));
            }
        }
        (hits, misses)
    };
    let probe = |p: &str| {
        probe_calls.borrow_mut().push(p.to_string());
        Some(media("h264", 1080))
    };
    let store = |items: &[(String, FileIdentity, SourceMedia)]| {
        stored.borrow_mut().extend_from_slice(items);
    };
    let out = resolve_media(&candidates, lookup, probe, store);
    assert_eq!(
        probe_calls.borrow().as_slice(),
        ["/m/miss.mp4"],
        "only the miss is probed; the hit is never re-probed"
    );
    assert_eq!(stored.borrow().len(), 1, "the fresh probe is cached");
    assert_eq!(stored.borrow()[0].0, "/m/miss.mp4");
    let hit = out.iter().find(|(p, _)| p == "/m/hit.mp4").unwrap();
    assert_eq!(hit.1, Some(media("h265", 1080)));
    let miss = out.iter().find(|(p, _)| p == "/m/miss.mp4").unwrap();
    assert_eq!(miss.1, Some(media("h264", 1080)));
}

#[test]
fn resolve_media_probes_identityless_files_but_never_caches_them() {
    let stored = RefCell::new(Vec::<(String, FileIdentity, SourceMedia)>::new());
    let candidates = vec![("/m/no-id.mp4".to_string(), None)];
    let lookup = |_: &[(String, FileIdentity)]| (Vec::new(), Vec::new());
    let probe = |_: &str| Some(media("h265", 1080));
    let store = |items: &[(String, FileIdentity, SourceMedia)]| {
        stored.borrow_mut().extend_from_slice(items)
    };
    let out = resolve_media(&candidates, lookup, probe, store);
    assert_eq!(
        out,
        vec![("/m/no-id.mp4".to_string(), Some(media("h265", 1080)))]
    );
    assert!(
        stored.borrow().is_empty(),
        "an identity-less file is never cached"
    );
}

#[test]
fn resolve_media_does_not_cache_a_failed_probe() {
    let stored = RefCell::new(Vec::<(String, FileIdentity, SourceMedia)>::new());
    let candidates = vec![(
        "/m/bad.mp4".to_string(),
        Some(FileIdentity { size: 1, mtime: 1 }),
    )];
    let lookup = |ids: &[(String, FileIdentity)]| (Vec::new(), ids.to_vec());
    let probe = |_: &str| None;
    let store = |items: &[(String, FileIdentity, SourceMedia)]| {
        stored.borrow_mut().extend_from_slice(items)
    };
    let out = resolve_media(&candidates, lookup, probe, store);
    assert_eq!(out, vec![("/m/bad.mp4".to_string(), None)]);
    assert!(
        stored.borrow().is_empty(),
        "a failed probe must not be cached"
    );
}

#[test]
fn resolve_media_skips_store_when_there_is_nothing_to_cache() {
    let store_called = Cell::new(false);
    let candidates = vec![(
        "/m/hit.mp4".to_string(),
        Some(FileIdentity { size: 1, mtime: 1 }),
    )];
    let lookup = |ids: &[(String, FileIdentity)]| {
        (
            ids.iter()
                .map(|(p, _)| (p.clone(), media("h265", 1080)))
                .collect(),
            Vec::new(),
        )
    };
    let probe = |_: &str| -> Option<SourceMedia> { panic!("a pure cache hit must never probe") };
    let store = |_: &[(String, FileIdentity, SourceMedia)]| store_called.set(true);
    let out = resolve_media(&candidates, lookup, probe, store);
    assert!(
        !store_called.get(),
        "no store (no DB write lock) when nothing needs caching"
    );
    assert_eq!(
        out,
        vec![("/m/hit.mp4".to_string(), Some(media("h265", 1080)))]
    );
}

#[test]
fn candidates_are_split_by_whether_they_can_be_known_again() {
    let id = FileIdentity { size: 1, mtime: 2 };
    let (known, unknown) = split_candidates(&[
        ("/a".to_string(), Some(id)),
        ("/b".to_string(), None),
    ]);
    assert_eq!(known, vec![("/a".to_string(), id)]);
    assert_eq!(unknown, vec!["/b".to_string()]);
}

#[test]
fn only_answers_are_stored() {
    let id = FileIdentity { size: 1, mtime: 2 };
    let files = [("/a".to_string(), id), ("/b".to_string(), id)];
    let answers = [
        ("/a".to_string(), Some(media("h264", 1))),
        ("/b".to_string(), None),
    ];
    assert_eq!(
        fresh_entries(&files, &answers),
        vec![("/a".to_string(), id, media("h264", 1))]
    );
}
