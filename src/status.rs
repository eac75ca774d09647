//! Working-tree status against the index.
//!
//! The caller scans the working tree (skipping the repository directory)
//! into `DiskFile` records, asks `files_to_hash` which files need their
//! content identifier recomputed, computes those, and hands everything to
//! `compute_status`.
use vstd::prelude::*;
use crate::index::{entry_view, index_map, lemma_index_map_at, unique_paths, EntryView, IndexEntry, VosIndex};
use crate::objects::strs_view;

verus! {

/// How a path differs from the last snapshot.
#[derive(Debug, Clone, Copy, PartialEq, Eq, Structural)]
pub enum FileStatus {
    Modified,
    Untracked,
    Deleted,
}

/// A regular file found in the working tree.
#[derive(Debug, Clone)]
pub struct DiskFile {
    /// Path relative to the working-tree root, `/`-separated.
    pub path: String,
    pub mtime: u64,
    pub size: u64,
}

/// The content identifier recomputed for a path.
#[derive(Debug, Clone)]
pub struct ContentId {
    pub path: String,
    pub file_id: String,
}

/// Modification time and size of the last scanned file at `p`.
pub open spec fn disk_lookup(d: Seq<DiskFile>, p: Seq<char>) -> Option<(u64, u64)>
    decreases d.len(),
{
    if d.len() == 0 {
        None
    } else if d.last().path@ == p {
        Some((d.last().mtime, d.last().size))
    } else {
        disk_lookup(d.drop_last(), p)
    }
}

/// The last content identifier recomputed for `p`.
pub open spec fn hash_lookup(h: Seq<ContentId>, p: Seq<char>) -> Option<Seq<char>>
    decreases h.len(),
{
    if h.len() == 0 {
        None
    } else if h.last().path@ == p {
        Some(h.last().file_id@)
    } else {
        hash_lookup(h.drop_last(), p)
    }
}

/// The status of one path: `e` what the index holds, `d` the metadata on
/// disk, `h` the recomputed content identifier. `None` is unchanged.
pub open spec fn classify(e: Option<EntryView>, d: Option<(u64, u64)>, h: Option<Seq<char>>) -> Option<
    FileStatus,
> {
    match e {
        Some(e) => match d {
            None => Some(FileStatus::Deleted),
            Some(m) => if m.0 == e.0 && m.1 == e.1 {
                None
            } else if h == Some(e.2) {
                None
            } else {
                Some(FileStatus::Modified)
            },
        },
        None => match d {
            Some(_) => Some(FileStatus::Untracked),
            None => None,
        },
    }
}

/// The changes among tracked paths, in index order.
pub open spec fn tracked_changes(es: Seq<IndexEntry>, d: Seq<DiskFile>, h: Seq<ContentId>) -> Seq<
    (Seq<char>, FileStatus),
>
    decreases es.len(),
{
    if es.len() == 0 {
        Seq::empty()
    } else {
        let rest = tracked_changes(es.drop_last(), d, h);
        let e = es.last();
        match classify(Some(entry_view(e)), disk_lookup(d, e.path@), hash_lookup(h, e.path@)) {
            Some(s) => rest.push((e.path@, s)),
            None => rest,
        }
    }
}

/// The scanned paths that the index does not hold, in scan order.
pub open spec fn untracked(d: Seq<DiskFile>, m: Map<Seq<char>, EntryView>) -> Seq<(Seq<char>, FileStatus)>
    decreases d.len(),
{
    if d.len() == 0 {
        Seq::empty()
    } else {
        let rest = untracked(d.drop_last(), m);
        if m.contains_key(d.last().path@) {
            rest
        } else {
            rest.push((d.last().path@, FileStatus::Untracked))
        }
    }
}

/// Tracked paths still on disk whose modification time or size differ from
/// the index, in index order.
pub open spec fn drifted(es: Seq<IndexEntry>, d: Seq<DiskFile>) -> Seq<Seq<char>>
    decreases es.len(),
{
    if es.len() == 0 {
        Seq::empty()
    } else {
        let rest = drifted(es.drop_last(), d);
        let e = es.last();
        match disk_lookup(d, e.path@) {
            Some(m) => if m.0 != e.mtime || m.1 != e.size {
                rest.push(e.path@)
            } else {
                rest
            },
            None => rest,
        }
    }
}

pub open spec fn changes_view(r: Seq<(String, FileStatus)>) -> Seq<(Seq<char>, FileStatus)> {
    r.map_values(|c: (String, FileStatus)| (c.0@, c.1))
}

fn disk_find(d: &Vec<DiskFile>, p: &String) -> (r: Option<(u64, u64)>)
    ensures
        r == disk_lookup(d@, p@),
{
    let mut i: usize = d.len();
    assert(d@.subrange(0, i as int) =~= d@);
    while i > 0
        invariant
            i <= d@.len(),
            disk_lookup(d@, p@) == disk_lookup(d@.subrange(0, i as int), p@),
        decreases i,
    {
        let ghost s = d@.subrange(0, i as int);
        assert(s.drop_last() =~= d@.subrange(0, i - 1));
        if d[i - 1].path == *p {
            return Some((d[i - 1].mtime, d[i - 1].size));
        }
        i = i - 1;
    }
    None
}

fn hash_find<'a>(h: &'a Vec<ContentId>, p: &String) -> (r: Option<&'a String>)
    ensures
        r is None ==> hash_lookup(h@, p@) is None,
        r matches Some(x) ==> hash_lookup(h@, p@) == Some(x@),
{
    let mut i: usize = h.len();
    assert(h@.subrange(0, i as int) =~= h@);
    while i > 0
        invariant
            i <= h@.len(),
            hash_lookup(h@, p@) == hash_lookup(h@.subrange(0, i as int), p@),
        decreases i,
    {
        let ghost s = h@.subrange(0, i as int);
        assert(s.drop_last() =~= h@.subrange(0, i - 1));
        if h[i - 1].path == *p {
            return Some(&h[i - 1].file_id);
        }
        i = i - 1;
    }
    None
}

/// The tracked paths whose content identifier must be recomputed: present
/// on disk with another modification time or size.
pub fn files_to_hash(index: &VosIndex, disk: &Vec<DiskFile>) -> (r: Vec<String>)
    requires
        index.wf(),
    ensures
        strs_view(r@) == drifted(index.records(), disk@),
{
    let es = index.entries();
    let mut r: Vec<String> = Vec::new();
    let mut i: usize = 0;
    while i < es.len()
        invariant
            i <= es@.len(),
            strs_view(r@) == drifted(es@.subrange(0, i as int), disk@),
        decreases es@.len() - i,
    {
        let e = &es[i];
        let ghost s = es@.subrange(0, i + 1);
        assert(s.drop_last() =~= es@.subrange(0, i as int));
        let ghost before = r@;
        match disk_find(disk, &e.path) {
            Some(m) => {
                if m.0 != e.mtime || m.1 != e.size {
                    r.push(e.path.clone());
                    assert(strs_view(r@) =~= strs_view(before).push(e.path@));
                }
            },
            None => {},
        }
        i = i + 1;
    }
    assert(es@.subrange(0, i as int) =~= es@);
    r
}

/// The status of the working tree: first the tracked paths that are deleted
/// or modified, in index order, then the untracked paths, in scan order.
/// `hashed` holds the content identifiers recomputed for the paths that
/// `files_to_hash` named; a drifted path without one counts as modified.
pub fn compute_status(index: &VosIndex, disk: &Vec<DiskFile>, hashed: &Vec<ContentId>) -> (r: Vec<
    (String, FileStatus),
>)
    requires
        index.wf(),
    ensures
        changes_view(r@) == tracked_changes(index.records(), disk@, hashed@) + untracked(disk@, index@),
{
    let es = index.entries();
    let mut r: Vec<(String, FileStatus)> = Vec::new();
    let mut i: usize = 0;
    while i < es.len()
        invariant
            i <= es@.len(),
            changes_view(r@) == tracked_changes(es@.subrange(0, i as int), disk@, hashed@),
        decreases es@.len() - i,
    {
        let e = &es[i];
        let ghost s = es@.subrange(0, i + 1);
        assert(s.drop_last() =~= es@.subrange(0, i as int));
        let ghost before = r@;
        let st: Option<FileStatus> = match disk_find(disk, &e.path) {
            None => Some(FileStatus::Deleted),
            Some(m) => {
                if m.0 == e.mtime && m.1 == e.size {
                    None
                } else {
                    match hash_find(hashed, &e.path) {
                        Some(h) => {
                            if *h == e.file_id {
                                None
                            } else {
                                Some(FileStatus::Modified)
                            }
                        },
                        None => Some(FileStatus::Modified),
                    }
                }
            },
        };
        match st {
            Some(x) => {
                r.push((e.path.clone(), x));
                assert(changes_view(r@) =~= changes_view(before).push((e.path@, x)));
            },
            None => {},
        }
        i = i + 1;
    }
    assert(es@.subrange(0, i as int) =~= es@);
    let ghost front = changes_view(r@);
    let mut k: usize = 0;
    while k < disk.len()
        invariant
            k <= disk@.len(),
            index.wf(),
            changes_view(r@) == front + untracked(disk@.subrange(0, k as int), index@),
        decreases disk@.len() - k,
    {
        let f = &disk[k];
        let ghost s = disk@.subrange(0, k + 1);
        assert(s.drop_last() =~= disk@.subrange(0, k as int));
        let ghost before = r@;
        if index.get(f.path.as_str()).is_none() {
            r.push((f.path.clone(), FileStatus::Untracked));
            assert(changes_view(r@) =~= changes_view(before).push((f.path@, FileStatus::Untracked)));
        }
        k = k + 1;
    }
    assert(disk@.subrange(0, k as int) =~= disk@);
    r
}

/// Each scanned path once.
pub open spec fn disk_unique(d: Seq<DiskFile>) -> bool {
    forall|i: int, j: int| 0 <= i < d.len() && 0 <= j < d.len() && i != j ==> d[i].path@ != d[j].path@
}

/// The index that a snapshot records for scanned files `d` whose File
/// objects have identifiers `ids`.
pub open spec fn scan_map(d: Seq<DiskFile>, ids: Seq<String>) -> Map<Seq<char>, EntryView>
    decreases d.len(),
{
    if d.len() == 0 || ids.len() != d.len() {
        Map::empty()
    } else {
        scan_map(d.drop_last(), ids.drop_last()).insert(
            d.last().path@,
            (d.last().mtime, d.last().size, ids.last()@),
        )
    }
}

impl VosIndex {
    /// Rebuilds the index from a snapshot's scan: the files found and the
    /// identifiers of their File objects, in the same order.
    pub fn record_snapshot(&mut self, files: &Vec<DiskFile>, ids: &Vec<String>)
        requires
            old(self).wf(),
            files@.len() == ids@.len(),
        ensures
            final(self).wf(),
            final(self).schema_version() == old(self).schema_version(),
            final(self)@ == scan_map(files@, ids@),
    {
        self.clear();
        let mut i: usize = 0;
        assert(scan_map(files@.subrange(0, 0), ids@.subrange(0, 0)) =~= Map::<Seq<char>, EntryView>::empty());
        while i < files.len()
            invariant
                i <= files@.len(),
                files@.len() == ids@.len(),
                self.wf(),
                self.schema_version() == old(self).schema_version(),
                self@ == scan_map(files@.subrange(0, i as int), ids@.subrange(0, i as int)),
            decreases files@.len() - i,
        {
            let f = &files[i];
            self.update_entry(f.path.clone(), f.mtime, f.size, ids[i].clone());
            assert(files@.subrange(0, i + 1).drop_last() =~= files@.subrange(0, i as int));
            assert(ids@.subrange(0, i + 1).drop_last() =~= ids@.subrange(0, i as int));
            i = i + 1;
        }
        assert(files@.subrange(0, i as int) =~= files@);
        assert(ids@.subrange(0, i as int) =~= ids@);
    }
}

proof fn lemma_scan_map(d: Seq<DiskFile>, ids: Seq<String>)
    requires
        disk_unique(d),
        ids.len() == d.len(),
    ensures
        forall|p: Seq<char>|
            #[trigger] scan_map(d, ids).contains_key(p) ==> exists|i: int|
                0 <= i < d.len() && d[i].path@ == p,
        forall|i: int|
            0 <= i < d.len() ==> scan_map(d, ids).contains_key(#[trigger] d[i].path@) && scan_map(
                d,
                ids,
            )[d[i].path@] == (d[i].mtime, d[i].size, ids[i]@),
    decreases d.len(),
{
    if d.len() > 0 {
        let d0 = d.drop_last();
        let i0 = ids.drop_last();
        assert(disk_unique(d0)) by {
            assert forall|a: int, b: int|
                0 <= a < d0.len() && 0 <= b < d0.len() && a != b implies d0[a].path@ != d0[b].path@ by {
                assert(d0[a] == d[a] && d0[b] == d[b]);
            }
        }
        lemma_scan_map(d0, i0);
        assert forall|p: Seq<char>| #[trigger] scan_map(d, ids).contains_key(p) implies exists|i: int|
            0 <= i < d.len() && d[i].path@ == p by {
            if p != d.last().path@ {
                assert(scan_map(d0, i0).contains_key(p));
                let k = choose|k: int| 0 <= k < d0.len() && d0[k].path@ == p;
                assert(d[k] == d0[k]);
            } else {
                assert(d[d.len() - 1].path@ == p);
            }
        }
        assert forall|i: int| 0 <= i < d.len() implies scan_map(d, ids).contains_key(
            #[trigger] d[i].path@,
        ) && scan_map(d, ids)[d[i].path@] == (d[i].mtime, d[i].size, ids[i]@) by {
            if i < d.len() - 1 {
                assert(d0[i] == d[i]);
                assert(i0[i] == ids[i]);
                assert(d[i].path@ != d[d.len() - 1].path@);
                assert(scan_map(d0, i0).contains_key(d0[i].path@));
            }
        }
    }
}

proof fn lemma_disk_lookup(d: Seq<DiskFile>, i: int)
    requires
        disk_unique(d),
        0 <= i < d.len(),
    ensures
        disk_lookup(d, d[i].path@) == Some((d[i].mtime, d[i].size)),
    decreases d.len(),
{
    if i < d.len() - 1 {
        let d0 = d.drop_last();
        assert(d[i].path@ != d[d.len() - 1].path@);
        assert(disk_unique(d0)) by {
            assert forall|a: int, b: int|
                0 <= a < d0.len() && 0 <= b < d0.len() && a != b implies d0[a].path@ != d0[b].path@ by {
                assert(d0[a] == d[a] && d0[b] == d[b]);
            }
        }
        assert(d0[i] == d[i]);
        lemma_disk_lookup(d0, i);
    }
}

proof fn lemma_no_tracked_changes(es: Seq<IndexEntry>, d: Seq<DiskFile>, h: Seq<ContentId>)
    requires
        forall|i: int|
            0 <= i < es.len() ==> disk_lookup(d, #[trigger] es[i].path@) == Some(
                (es[i].mtime, es[i].size),
            ),
    ensures
        tracked_changes(es, d, h) == Seq::<(Seq<char>, FileStatus)>::empty(),
    decreases es.len(),
{
    if es.len() > 0 {
        let e0 = es.drop_last();
        assert forall|i: int| 0 <= i < e0.len() implies disk_lookup(d, #[trigger] e0[i].path@) == Some(
            (e0[i].mtime, e0[i].size),
        ) by {
            assert(e0[i] == es[i]);
        }
        lemma_no_tracked_changes(e0, d, h);
        assert(disk_lookup(d, es[es.len() - 1].path@) == Some(
            (es[es.len() - 1].mtime, es[es.len() - 1].size),
        ));
    }
}

proof fn lemma_no_untracked(d: Seq<DiskFile>, m: Map<Seq<char>, EntryView>)
    requires
        forall|i: int| 0 <= i < d.len() ==> m.contains_key(#[trigger] d[i].path@),
    ensures
        untracked(d, m) == Seq::<(Seq<char>, FileStatus)>::empty(),
    decreases d.len(),
{
    if d.len() > 0 {
        let d0 = d.drop_last();
        assert forall|i: int| 0 <= i < d0.len() implies m.contains_key(#[trigger] d0[i].path@) by {
            assert(d0[i] == d[i]);
        }
        lemma_no_untracked(d0, m);
        assert(m.contains_key(d[d.len() - 1].path@));
    }
}

/// What a snapshot's premises give: each indexed path is found on the
/// scanned disk with the metadata the index holds, and each scanned path is
/// indexed.
proof fn lemma_snapshot_lookups(es: Seq<IndexEntry>, d: Seq<DiskFile>, ids: Seq<String>)
    requires
        unique_paths(es),
        disk_unique(d),
        ids.len() == d.len(),
        index_map(es) == scan_map(d, ids),
    ensures
        forall|i: int|
            0 <= i < es.len() ==> disk_lookup(d, #[trigger] es[i].path@) == Some(
                (es[i].mtime, es[i].size),
            ),
        forall|i: int| 0 <= i < d.len() ==> index_map(es).contains_key(#[trigger] d[i].path@),
{
    lemma_scan_map(d, ids);
    assert forall|i: int| 0 <= i < es.len() implies disk_lookup(d, #[trigger] es[i].path@) == Some(
        (es[i].mtime, es[i].size),
    ) by {
        lemma_index_map_at(es, i);
        let p = es[i].path@;
        assert(scan_map(d, ids).contains_key(p));
        let k = choose|k: int| 0 <= k < d.len() && d[k].path@ == p;
        assert(scan_map(d, ids).contains_key(d[k].path@));
        lemma_disk_lookup(d, k);
    }
    assert forall|i: int| 0 <= i < d.len() implies index_map(es).contains_key(#[trigger] d[i].path@) by {
        assert(scan_map(d, ids).contains_key(d[i].path@));
    }
}

/// Right after a snapshot the working tree is clean: when the index holds
/// what the snapshot recorded for a scan, that same scan shows no change,
/// whatever identifiers were recomputed.
pub proof fn lemma_status_clean_after_snapshot(
    es: Seq<IndexEntry>,
    d: Seq<DiskFile>,
    ids: Seq<String>,
    h: Seq<ContentId>,
)
    requires
        unique_paths(es),
        disk_unique(d),
        ids.len() == d.len(),
        index_map(es) == scan_map(d, ids),
    ensures
        tracked_changes(es, d, h) + untracked(d, index_map(es)) == Seq::<
            (Seq<char>, FileStatus),
        >::empty(),
{
    lemma_snapshot_lookups(es, d, ids);
    lemma_no_tracked_changes(es, d, h);
    lemma_no_untracked(d, index_map(es));
    assert(tracked_changes(es, d, h) + untracked(d, index_map(es)) =~= Seq::<
        (Seq<char>, FileStatus),
    >::empty());
}

proof fn lemma_tracked_none(es: Seq<IndexEntry>, d: Seq<DiskFile>, h: Seq<ContentId>)
    requires
        forall|i: int|
            0 <= i < es.len() ==> classify(
                Some(entry_view(#[trigger] es[i])),
                disk_lookup(d, es[i].path@),
                hash_lookup(h, es[i].path@),
            ) is None,
    ensures
        tracked_changes(es, d, h) == Seq::<(Seq<char>, FileStatus)>::empty(),
    decreases es.len(),
{
    if es.len() > 0 {
        let e0 = es.drop_last();
        assert forall|i: int| 0 <= i < e0.len() implies classify(
            Some(entry_view(#[trigger] e0[i])),
            disk_lookup(d, e0[i].path@),
            hash_lookup(h, e0[i].path@),
        ) is None by {
            assert(e0[i] == es[i]);
        }
        lemma_tracked_none(e0, d, h);
        let l = es[es.len() - 1];
        assert(classify(Some(entry_view(l)), disk_lookup(d, l.path@), hash_lookup(h, l.path@)) is None);
    }
}

proof fn lemma_tracked_one(es: Seq<IndexEntry>, d: Seq<DiskFile>, h: Seq<ContentId>, k: int, st: FileStatus)
    requires
        0 <= k < es.len(),
        forall|i: int|
            0 <= i < es.len() && i != k ==> classify(
                Some(entry_view(#[trigger] es[i])),
                disk_lookup(d, es[i].path@),
                hash_lookup(h, es[i].path@),
            ) is None,
        classify(Some(entry_view(es[k])), disk_lookup(d, es[k].path@), hash_lookup(h, es[k].path@))
            == Some(st),
    ensures
        tracked_changes(es, d, h) == seq![(es[k].path@, st)],
    decreases es.len(),
{
    let e0 = es.drop_last();
    if k == es.len() - 1 {
        assert forall|i: int| 0 <= i < e0.len() implies classify(
            Some(entry_view(#[trigger] e0[i])),
            disk_lookup(d, e0[i].path@),
            hash_lookup(h, e0[i].path@),
        ) is None by {
            assert(e0[i] == es[i]);
        }
        lemma_tracked_none(e0, d, h);
        assert(Seq::<(Seq<char>, FileStatus)>::empty().push((es[k].path@, st)) =~= seq![(es[k].path@, st)]);
    } else {
        assert forall|i: int| 0 <= i < e0.len() && i != k implies classify(
            Some(entry_view(#[trigger] e0[i])),
            disk_lookup(d, e0[i].path@),
            hash_lookup(h, e0[i].path@),
        ) is None by {
            assert(e0[i] == es[i]);
        }
        assert(e0[k] == es[k]);
        lemma_tracked_one(e0, d, h, k, st);
        let l = es[es.len() - 1];
        assert(classify(Some(entry_view(l)), disk_lookup(d, l.path@), hash_lookup(h, l.path@)) is None);
    }
}

/// The snapshot's premises: the index holds what a snapshot recorded for
/// the scan `d0`, each scanned path once.
pub open spec fn snapshot_of(es: Seq<IndexEntry>, d0: Seq<DiskFile>, ids: Seq<String>) -> bool {
    &&& unique_paths(es)
    &&& disk_unique(d0)
    &&& ids.len() == d0.len()
    &&& index_map(es) == scan_map(d0, ids)
}

/// After a snapshot, rewriting one tracked file so that its modification
/// time or size and its content identifier change, and nothing else, shows
/// exactly that file as modified.
pub proof fn lemma_status_one_modified(
    es: Seq<IndexEntry>,
    d0: Seq<DiskFile>,
    ids: Seq<String>,
    d: Seq<DiskFile>,
    h: Seq<ContentId>,
    k: int,
)
    requires
        snapshot_of(es, d0, ids),
        0 <= k < d0.len(),
        d.len() == d0.len(),
        forall|i: int| 0 <= i < d.len() ==> (#[trigger] d[i]).path@ == d0[i].path@,
        forall|i: int|
            0 <= i < d.len() && i != k ==> (#[trigger] d[i]).mtime == d0[i].mtime && d[i].size
                == d0[i].size,
        d[k].mtime != d0[k].mtime || d[k].size != d0[k].size,
        hash_lookup(h, d0[k].path@) is Some,
        hash_lookup(h, d0[k].path@) != Some(ids[k]@),
    ensures
        tracked_changes(es, d, h) + untracked(d, index_map(es)) == seq![
            (d0[k].path@, FileStatus::Modified),
        ],
{
    let p = d0[k].path@;
    lemma_scan_map(d0, ids);
    lemma_snapshot_lookups(es, d0, ids);
    assert(disk_unique(d)) by {
        assert forall|a: int, b: int| 0 <= a < d.len() && 0 <= b < d.len() && a != b implies d[a].path@
            != d[b].path@ by {
            assert(d[a].path@ == d0[a].path@ && d[b].path@ == d0[b].path@);
        }
    }
    assert(scan_map(d0, ids).contains_key(d0[k].path@));
    assert(index_map(es).contains_key(p));
    let k0 = choose|i: int| 0 <= i < es.len() && es[i].path@ == p;
    assert forall|i: int|
        0 <= i < es.len() implies {
            let c = classify(
                Some(entry_view(#[trigger] es[i])),
                disk_lookup(d, es[i].path@),
                hash_lookup(h, es[i].path@),
            );
            &&& i != k0 ==> c is None
            &&& i == k0 ==> c == Some(FileStatus::Modified)
        } by {
        let q = es[i].path@;
        lemma_index_map_at(es, i);
        assert(scan_map(d0, ids).contains_key(q));
        let j = choose|j: int| 0 <= j < d0.len() && d0[j].path@ == q;
        assert(scan_map(d0, ids).contains_key(d0[j].path@));
        assert(d[j].path@ == q);
        lemma_disk_lookup(d, j);
        if j == k {
            assert(i == k0);
        } else {
            assert(d0[j].path@ != d0[k].path@);
            assert(q != p);
        }
    }
    lemma_tracked_one(es, d, h, k0, FileStatus::Modified);
    assert forall|i: int| 0 <= i < d.len() implies index_map(es).contains_key(#[trigger] d[i].path@) by {
        assert(d[i].path@ == d0[i].path@);
        assert(index_map(es).contains_key(d0[i].path@));
    }
    lemma_no_untracked(d, index_map(es));
    assert(tracked_changes(es, d, h) + untracked(d, index_map(es)) =~= seq![(p, FileStatus::Modified)]);
}

proof fn lemma_disk_lookup_absent(d: Seq<DiskFile>, p: Seq<char>)
    requires
        forall|i: int| 0 <= i < d.len() ==> (#[trigger] d[i]).path@ != p,
    ensures
        disk_lookup(d, p) is None,
    decreases d.len(),
{
    if d.len() > 0 {
        let d0 = d.drop_last();
        assert forall|i: int| 0 <= i < d0.len() implies (#[trigger] d0[i]).path@ != p by {
            assert(d0[i] == d[i]);
        }
        lemma_disk_lookup_absent(d0, p);
        assert(d[d.len() - 1].path@ != p);
    }
}

/// After a snapshot, deleting one tracked file, and nothing else, shows
/// exactly that file as deleted.
pub proof fn lemma_status_one_deleted(
    es: Seq<IndexEntry>,
    d0: Seq<DiskFile>,
    ids: Seq<String>,
    h: Seq<ContentId>,
    k: int,
)
    requires
        snapshot_of(es, d0, ids),
        0 <= k < d0.len(),
    ensures
        tracked_changes(es, d0.remove(k), h) + untracked(d0.remove(k), index_map(es)) == seq![
            (d0[k].path@, FileStatus::Deleted),
        ],
        tracked_changes(es, d0.remove(k), h) == seq![(d0[k].path@, FileStatus::Deleted)],
        untracked(d0.remove(k), index_map(es)) == Seq::<(Seq<char>, FileStatus)>::empty(),
{
    let p = d0[k].path@;
    let d = d0.remove(k);
    lemma_scan_map(d0, ids);
    lemma_snapshot_lookups(es, d0, ids);
    assert forall|i: int| 0 <= i < d.len() implies #[trigger] d[i] == d0[if i < k {
        i
    } else {
        i + 1
    }] by {}
    assert(disk_unique(d)) by {
        assert forall|a: int, b: int| 0 <= a < d.len() && 0 <= b < d.len() && a != b implies d[a].path@
            != d[b].path@ by {
            let a0 = if a < k { a } else { a + 1 };
            let b0 = if b < k { b } else { b + 1 };
            assert(d[a] == d0[a0] && d[b] == d0[b0]);
        }
    }
    assert(scan_map(d0, ids).contains_key(d0[k].path@));
    let k0 = choose|i: int| 0 <= i < es.len() && es[i].path@ == p;
    assert forall|i: int|
        0 <= i < es.len() implies {
            let c = classify(
                Some(entry_view(#[trigger] es[i])),
                disk_lookup(d, es[i].path@),
                hash_lookup(h, es[i].path@),
            );
            &&& i != k0 ==> c is None
            &&& i == k0 ==> c == Some(FileStatus::Deleted)
        } by {
        let q = es[i].path@;
        lemma_index_map_at(es, i);
        assert(scan_map(d0, ids).contains_key(q));
        let j = choose|j: int| 0 <= j < d0.len() && d0[j].path@ == q;
        assert(scan_map(d0, ids).contains_key(d0[j].path@));
        if j == k {
            assert(i == k0);
            assert forall|t: int| 0 <= t < d.len() implies (#[trigger] d[t]).path@ != p by {
                let t0 = if t < k { t } else { t + 1 };
                assert(d[t] == d0[t0]);
            }
            lemma_disk_lookup_absent(d, p);
        } else {
            let j1 = if j < k { j } else { j - 1 };
            assert(d[j1] == d0[j]);
            lemma_disk_lookup(d, j1);
            assert(disk_lookup(d0, q) == disk_lookup(d, q)) by {
                lemma_disk_lookup(d0, j);
            }
        }
    }
    lemma_tracked_one(es, d, h, k0, FileStatus::Deleted);
    assert forall|i: int| 0 <= i < d.len() implies index_map(es).contains_key(#[trigger] d[i].path@) by {
        let i0 = if i < k { i } else { i + 1 };
        assert(d[i] == d0[i0]);
        assert(index_map(es).contains_key(d0[i0].path@));
    }
    lemma_no_untracked(d, index_map(es));
    assert(tracked_changes(es, d, h) + untracked(d, index_map(es)) =~= seq![(p, FileStatus::Deleted)]);
}

/// After a snapshot, creating one new file, and nothing else, shows exactly
/// that file as untracked.
pub proof fn lemma_status_one_untracked(
    es: Seq<IndexEntry>,
    d0: Seq<DiskFile>,
    ids: Seq<String>,
    h: Seq<ContentId>,
    f: DiskFile,
)
    requires
        snapshot_of(es, d0, ids),
        !scan_map(d0, ids).contains_key(f.path@),
    ensures
        tracked_changes(es, d0.push(f), h) + untracked(d0.push(f), index_map(es)) == seq![
            (f.path@, FileStatus::Untracked),
        ],
{
    let d = d0.push(f);
    lemma_snapshot_lookups(es, d0, ids);
    assert(d.drop_last() =~= d0);
    assert forall|i: int| 0 <= i < es.len() implies disk_lookup(d, #[trigger] es[i].path@) == Some(
        (es[i].mtime, es[i].size),
    ) by {
        lemma_index_map_at(es, i);
        assert(es[i].path@ != f.path@);
    }
    lemma_no_tracked_changes(es, d, h);
    lemma_no_untracked(d0, index_map(es));
    assert(untracked(d, index_map(es)) == untracked(d0, index_map(es)).push(
        (f.path@, FileStatus::Untracked),
    ));
    assert(tracked_changes(es, d, h) + untracked(d, index_map(es)) =~= seq![
        (f.path@, FileStatus::Untracked),
    ]);
}

proof fn lemma_tracked_same_lookups(
    es: Seq<IndexEntry>,
    d1: Seq<DiskFile>,
    d2: Seq<DiskFile>,
    h: Seq<ContentId>,
)
    requires
        forall|i: int|
            0 <= i < es.len() ==> disk_lookup(d1, #[trigger] es[i].path@) == disk_lookup(d2, es[i].path@),
    ensures
        tracked_changes(es, d1, h) == tracked_changes(es, d2, h),
    decreases es.len(),
{
    if es.len() > 0 {
        let e0 = es.drop_last();
        assert forall|i: int| 0 <= i < e0.len() implies disk_lookup(d1, #[trigger] e0[i].path@)
            == disk_lookup(d2, e0[i].path@) by {
            assert(e0[i] == es[i]);
        }
        lemma_tracked_same_lookups(e0, d1, d2, h);
        assert(disk_lookup(d1, es[es.len() - 1].path@) == disk_lookup(d2, es[es.len() - 1].path@));
    }
}

/// After a snapshot, deleting one tracked file and creating one new file,
/// and nothing else, shows exactly that file as deleted and the new one as
/// untracked.
pub proof fn lemma_status_deleted_and_created(
    es: Seq<IndexEntry>,
    d0: Seq<DiskFile>,
    ids: Seq<String>,
    h: Seq<ContentId>,
    k: int,
    f: DiskFile,
)
    requires
        snapshot_of(es, d0, ids),
        0 <= k < d0.len(),
        !scan_map(d0, ids).contains_key(f.path@),
    ensures
        tracked_changes(es, d0.remove(k).push(f), h) + untracked(d0.remove(k).push(f), index_map(es))
            == seq![(d0[k].path@, FileStatus::Deleted), (f.path@, FileStatus::Untracked)],
{
    let dr = d0.remove(k);
    let d = dr.push(f);
    lemma_status_one_deleted(es, d0, ids, h, k);
    assert(d.drop_last() =~= dr);
    assert forall|i: int| 0 <= i < es.len() implies disk_lookup(d, #[trigger] es[i].path@) == disk_lookup(
        dr,
        es[i].path@,
    ) by {
        lemma_index_map_at(es, i);
        assert(es[i].path@ != f.path@);
    }
    lemma_tracked_same_lookups(es, d, dr, h);
    assert(untracked(d, index_map(es)) == untracked(dr, index_map(es)).push(
        (f.path@, FileStatus::Untracked),
    ));
    assert(tracked_changes(es, d, h) + untracked(d, index_map(es)) =~= seq![
        (d0[k].path@, FileStatus::Deleted),
        (f.path@, FileStatus::Untracked),
    ]);
}

/// After a snapshot, a file whose bytes were restored (say by a revert) is
/// unchanged even where its modification time moved: its recomputed content
/// identifier is the recorded one. With nothing else changed the tree is
/// clean.
pub proof fn lemma_status_restored(
    es: Seq<IndexEntry>,
    d0: Seq<DiskFile>,
    ids: Seq<String>,
    d: Seq<DiskFile>,
    h: Seq<ContentId>,
    k: int,
)
    requires
        snapshot_of(es, d0, ids),
        0 <= k < d0.len(),
        d.len() == d0.len(),
        forall|i: int| 0 <= i < d.len() ==> (#[trigger] d[i]).path@ == d0[i].path@,
        forall|i: int|
            0 <= i < d.len() && i != k ==> (#[trigger] d[i]).mtime == d0[i].mtime && d[i].size
                == d0[i].size,
        hash_lookup(h, d0[k].path@) == Some(ids[k]@),
    ensures
        tracked_changes(es, d, h) + untracked(d, index_map(es)) == Seq::<(Seq<char>, FileStatus)>::empty(),
{
    let p = d0[k].path@;
    lemma_scan_map(d0, ids);
    lemma_snapshot_lookups(es, d0, ids);
    assert(disk_unique(d)) by {
        assert forall|a: int, b: int| 0 <= a < d.len() && 0 <= b < d.len() && a != b implies d[a].path@
            != d[b].path@ by {
            assert(d[a].path@ == d0[a].path@ && d[b].path@ == d0[b].path@);
        }
    }
    assert forall|i: int|
        0 <= i < es.len() implies classify(
            Some(entry_view(#[trigger] es[i])),
            disk_lookup(d, es[i].path@),
            hash_lookup(h, es[i].path@),
        ) is None by {
        let q = es[i].path@;
        lemma_index_map_at(es, i);
        assert(scan_map(d0, ids).contains_key(q));
        let j = choose|j: int| 0 <= j < d0.len() && d0[j].path@ == q;
        assert(scan_map(d0, ids).contains_key(d0[j].path@));
        assert(d[j].path@ == q);
        lemma_disk_lookup(d, j);
    }
    lemma_tracked_none(es, d, h);
    assert forall|i: int| 0 <= i < d.len() implies index_map(es).contains_key(#[trigger] d[i].path@) by {
        assert(d[i].path@ == d0[i].path@);
        assert(index_map(es).contains_key(d0[i].path@));
    }
    lemma_no_untracked(d, index_map(es));
    assert(tracked_changes(es, d, h) + untracked(d, index_map(es)) =~= Seq::<
        (Seq<char>, FileStatus),
    >::empty());
}

/// How one path is classified: unchanged while its modification time and
/// size match the index; modified when they differ and its content
/// identifier differs too; deleted when it is gone; untracked when the index
/// does not hold it.
pub proof fn lemma_classify(e: EntryView, m: (u64, u64), h: Seq<char>)
    ensures
        classify(Some(e), Some((e.0, e.1)), None) is None,
        (m.0 != e.0 || m.1 != e.1) && h != e.2 ==> classify(Some(e), Some(m), Some(h)) == Some(
            FileStatus::Modified,
        ),
        (m.0 != e.0 || m.1 != e.1) ==> classify(Some(e), Some(m), Some(e.2)) is None,
        classify(Some(e), None, None) == Some(FileStatus::Deleted),
        classify(None, Some(m), None) == Some(FileStatus::Untracked),
{
}

} // verus!
