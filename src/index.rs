//! The index: cached metadata of each file of the last snapshot, by path.
use vstd::prelude::*;
use crate::objects::strs_view;

verus! {

/// Cached metadata of one tracked file.
#[derive(Debug, Clone)]
pub struct IndexEntry {
    pub path: String,
    /// Modification time, in seconds since the Unix epoch.
    pub mtime: u64,
    /// Size in bytes.
    pub size: u64,
    /// Identifier of the file's File object.
    pub file_id: String,
}

/// What the index holds for a path: modification time, size, file identifier.
pub type EntryView = (u64, u64, Seq<char>);

pub open spec fn entry_view(e: IndexEntry) -> EntryView {
    (e.mtime, e.size, e.file_id@)
}

pub open spec fn unique_paths(s: Seq<IndexEntry>) -> bool {
    forall|i: int, j: int| 0 <= i < s.len() && 0 <= j < s.len() && i != j ==> s[i].path@ != s[j].path@
}

pub open spec fn has_path(s: Seq<IndexEntry>, p: Seq<char>) -> bool {
    exists|i: int| 0 <= i < s.len() && s[i].path@ == p
}

/// The entries as a map from path.
pub open spec fn index_map(s: Seq<IndexEntry>) -> Map<Seq<char>, EntryView> {
    Map::new(
        |p: Seq<char>| has_path(s, p),
        |p: Seq<char>| entry_view(s[choose|i: int| 0 <= i < s.len() && s[i].path@ == p]),
    )
}

pub proof fn lemma_index_map_at(s: Seq<IndexEntry>, i: int)
    requires
        unique_paths(s),
        0 <= i < s.len(),
    ensures
        index_map(s).contains_key(s[i].path@),
        index_map(s)[s[i].path@] == entry_view(s[i]),
{
    let p = s[i].path@;
    assert(has_path(s, p));
    let j = choose|j: int| 0 <= j < s.len() && s[j].path@ == p;
    assert(j == i);
}

/// The index of the last snapshot.
pub struct VosIndex {
    version: u32,
    entries: Vec<IndexEntry>,
}

impl View for VosIndex {
    type V = Map<Seq<char>, EntryView>;

    closed spec fn view(&self) -> Map<Seq<char>, EntryView> {
        index_map(self.entries@)
    }
}

impl VosIndex {
    /// The entries in their stored order.
    pub closed spec fn records(&self) -> Seq<IndexEntry> {
        self.entries@
    }

    pub closed spec fn schema_version(&self) -> u32 {
        self.version
    }

    pub closed spec fn wf(&self) -> bool {
        unique_paths(self.entries@)
    }

    fn find(&self, path: &String) -> (r: Option<usize>)
        ensures
            r is None ==> !has_path(self.entries@, path@),
            r matches Some(i) ==> i < self.entries@.len() && self.entries@[i as int].path@ == path@,
    {
        let mut i: usize = 0;
        while i < self.entries.len()
            invariant
                i <= self.entries@.len(),
                forall|j: int| 0 <= j < i ==> self.entries@[j].path@ != path@,
            decreases self.entries@.len() - i,
        {
            if self.entries[i].path == *path {
                return Some(i);
            }
            i = i + 1;
        }
        None
    }

    /// An empty index of the current schema version.
    pub fn new() -> (r: VosIndex)
        ensures
            r.wf(),
            r@ == Map::<Seq<char>, EntryView>::empty(),
            r.schema_version() == 1,
    {
        let r = VosIndex { version: 1, entries: Vec::new() };
        assert(r@ =~= Map::<Seq<char>, EntryView>::empty());
        r
    }

    /// Records the metadata of `path`, replacing what was there.
    pub fn update_entry(&mut self, path: String, mtime: u64, size: u64, file_id: String)
        requires
            old(self).wf(),
        ensures
            final(self).wf(),
            final(self).schema_version() == old(self).schema_version(),
            final(self)@ == old(self)@.insert(path@, (mtime, size, file_id@)),
    {
        let ghost s0 = self.entries@;
        let ghost p = path@;
        let ghost v: EntryView = (mtime, size, file_id@);
        match self.find(&path) {
            Some(i) => {
                let e = IndexEntry { path, mtime, size, file_id };
                self.entries.set(i, e);
                proof {
                    let s1 = self.entries@;
                    assert(s1 == s0.update(i as int, e));
                    assert(unique_paths(s1)) by {
                        assert forall|a: int, b: int|
                            0 <= a < s1.len() && 0 <= b < s1.len() && a != b implies s1[a].path@
                            != s1[b].path@ by {
                            if a != i && b != i {
                                assert(s1[a] == s0[a] && s1[b] == s0[b]);
                            } else if a == i {
                                assert(s1[b] == s0[b]);
                            } else {
                                assert(s1[a] == s0[a]);
                            }
                        }
                    }
                    assert forall|q: Seq<char>| has_path(s1, q) == (has_path(s0, q) || q == p) by {
                        if has_path(s0, q) {
                            let k = choose|k: int| 0 <= k < s0.len() && s0[k].path@ == q;
                            if k == i {
                                assert(s1[k].path@ == q);
                            } else {
                                assert(s1[k] == s0[k]);
                            }
                        }
                        if has_path(s1, q) {
                            let k = choose|k: int| 0 <= k < s1.len() && s1[k].path@ == q;
                            if k != i {
                                assert(s1[k] == s0[k]);
                            }
                        }
                        if q == p {
                            assert(s1[i as int].path@ == q);
                        }
                    }
                    assert forall|q: Seq<char>| #[trigger]
                        index_map(s1).contains_key(q) implies index_map(s1)[q] == index_map(
                        s0,
                    ).insert(p, v)[q] by {
                        let k = choose|k: int| 0 <= k < s1.len() && s1[k].path@ == q;
                        lemma_index_map_at(s1, k);
                        if k != i {
                            assert(s1[k] == s0[k]);
                            lemma_index_map_at(s0, k);
                        }
                    }
                    assert(index_map(s1) =~= index_map(s0).insert(p, v));
                }
            },
            None => {
                let e = IndexEntry { path, mtime, size, file_id };
                self.entries.push(e);
                proof {
                    let s1 = self.entries@;
                    assert(s1 == s0.push(e));
                    assert(unique_paths(s1)) by {
                        assert forall|a: int, b: int|
                            0 <= a < s1.len() && 0 <= b < s1.len() && a != b implies s1[a].path@
                            != s1[b].path@ by {
                            if a < s0.len() && b < s0.len() {
                                assert(s1[a] == s0[a] && s1[b] == s0[b]);
                            } else if a < s0.len() {
                                assert(s1[a] == s0[a]);
                            } else {
                                assert(s1[b] == s0[b]);
                            }
                        }
                    }
                    assert forall|q: Seq<char>| has_path(s1, q) == (has_path(s0, q) || q == p) by {
                        if has_path(s0, q) {
                            let k = choose|k: int| 0 <= k < s0.len() && s0[k].path@ == q;
                            assert(s1[k] == s0[k]);
                        }
                        if has_path(s1, q) {
                            let k = choose|k: int| 0 <= k < s1.len() && s1[k].path@ == q;
                            if k < s0.len() {
                                assert(s1[k] == s0[k]);
                            }
                        }
                        if q == p {
                            assert(s1[s0.len() as int].path@ == q);
                        }
                    }
                    assert forall|q: Seq<char>| #[trigger]
                        index_map(s1).contains_key(q) implies index_map(s1)[q] == index_map(
                        s0,
                    ).insert(p, v)[q] by {
                        let k = choose|k: int| 0 <= k < s1.len() && s1[k].path@ == q;
                        lemma_index_map_at(s1, k);
                        if k < s0.len() {
                            assert(s1[k] == s0[k]);
                            lemma_index_map_at(s0, k);
                        }
                    }
                    assert(index_map(s1) =~= index_map(s0).insert(p, v));
                }
            },
        }
    }

    /// Forgets `path`.
    pub fn remove_entry(&mut self, path: &str)
        requires
            old(self).wf(),
        ensures
            final(self).wf(),
            final(self).schema_version() == old(self).schema_version(),
            final(self)@ == old(self)@.remove(path@),
    {
        let key = String::from_str(path);
        let ghost s0 = self.entries@;
        let ghost p = path@;
        match self.find(&key) {
            Some(i) => {
                self.entries.remove(i);
                proof {
                    let s1 = self.entries@;
                    assert(s1 == s0.remove(i as int));
                    assert forall|a: int| 0 <= a < s1.len() implies #[trigger] s1[a] == s0[if a < i {
                        a
                    } else {
                        a + 1
                    }] by {}
                    assert(unique_paths(s1)) by {
                        assert forall|a: int, b: int|
                            0 <= a < s1.len() && 0 <= b < s1.len() && a != b implies s1[a].path@
                            != s1[b].path@ by {
                            let a0 = if a < i { a } else { a + 1 };
                            let b0 = if b < i { b } else { b + 1 };
                            assert(s1[a] == s0[a0] && s1[b] == s0[b0]);
                        }
                    }
                    assert forall|q: Seq<char>| has_path(s1, q) == (has_path(s0, q) && q != p) by {
                        if has_path(s0, q) && q != p {
                            let k = choose|k: int| 0 <= k < s0.len() && s0[k].path@ == q;
                            if k < i {
                                assert(s1[k] == s0[k]);
                            } else {
                                assert(s1[k - 1] == s0[k]);
                            }
                        }
                        if has_path(s1, q) {
                            let k = choose|k: int| 0 <= k < s1.len() && s1[k].path@ == q;
                            let k0 = if k < i { k } else { k + 1 };
                            assert(s1[k] == s0[k0]);
                            assert(k0 != i);
                        }
                    }
                    assert forall|q: Seq<char>| #[trigger]
                        index_map(s1).contains_key(q) implies index_map(s1)[q] == index_map(
                        s0,
                    ).remove(p)[q] by {
                        let k = choose|k: int| 0 <= k < s1.len() && s1[k].path@ == q;
                        let k0 = if k < i { k } else { k + 1 };
                        assert(s1[k] == s0[k0]);
                        lemma_index_map_at(s1, k);
                        lemma_index_map_at(s0, k0);
                    }
                    assert(index_map(s1) =~= index_map(s0).remove(p));
                }
            },
            None => {
                assert(index_map(s0) =~= index_map(s0).remove(p));
            },
        }
    }

    /// What the index holds for `path`.
    pub fn get(&self, path: &str) -> (r: Option<&IndexEntry>)
        requires
            self.wf(),
        ensures
            r is None ==> !self@.contains_key(path@),
            r matches Some(e) ==> self@.contains_key(path@) && self@[path@] == entry_view(*e)
                && e.path@ == path@,
    {
        let key = String::from_str(path);
        match self.find(&key) {
            Some(i) => {
                proof {
                    lemma_index_map_at(self.entries@, i as int);
                }
                Some(&self.entries[i])
            },
            None => None,
        }
    }

    /// Whether `path` may have changed since the snapshot, given what is on
    /// disk now (`None`: no such file): untracked, deleted, or with another
    /// modification time or size.
    pub fn has_file_changed(&self, path: &str, disk: Option<(u64, u64)>) -> (r: bool)
        requires
            self.wf(),
        ensures
            r == match disk {
                None => true,
                Some(m) => !self@.contains_key(path@) || self@[path@].0 != m.0 || self@[path@].1
                    != m.1,
            },
    {
        match self.get(path) {
            None => true,
            Some(e) => match disk {
                None => true,
                Some(m) => e.mtime != m.0 || e.size != m.1,
            },
        }
    }

    /// The tracked paths, each once.
    pub fn get_tracked_paths(&self) -> (r: Vec<String>)
        requires
            self.wf(),
        ensures
            strs_view(r@).to_set() == self@.dom(),
            strs_view(r@).no_duplicates(),
    {
        let mut r: Vec<String> = Vec::new();
        let mut i: usize = 0;
        while i < self.entries.len()
            invariant
                i <= self.entries@.len(),
                unique_paths(self.entries@),
                strs_view(r@).len() == i,
                forall|j: int| 0 <= j < i ==> #[trigger] strs_view(r@)[j] == self.entries@[j].path@,
            decreases self.entries@.len() - i,
        {
            let ghost before = strs_view(r@);
            r.push(self.entries[i].path.clone());
            assert(strs_view(r@) =~= before.push(self.entries@[i as int].path@));
            i = i + 1;
        }
        let ghost rv = strs_view(r@);
        assert(rv.to_set() =~= self@.dom()) by {
            assert forall|q: Seq<char>| rv.contains(q) implies has_path(self.entries@, q) by {
                let k = choose|k: int| 0 <= k < rv.len() && rv[k] == q;
                assert(self.entries@[k].path@ == q);
            }
            assert forall|q: Seq<char>| has_path(self.entries@, q) implies rv.contains(q) by {
                let k = choose|k: int| 0 <= k < self.entries@.len() && self.entries@[k].path@ == q;
                assert(rv[k] == q);
            }
        }
        r
    }

    /// Forgets every entry, for a rebuild.
    pub fn clear(&mut self)
        requires
            old(self).wf(),
        ensures
            final(self).wf(),
            final(self).schema_version() == old(self).schema_version(),
            final(self)@ == Map::<Seq<char>, EntryView>::empty(),
    {
        self.entries.clear();
        assert(index_map(self.entries@) =~= Map::<Seq<char>, EntryView>::empty());
    }

    /// The entries in their stored order, each path once.
    pub fn entries(&self) -> (r: &Vec<IndexEntry>)
        requires
            self.wf(),
        ensures
            r@ == self.records(),
            unique_paths(r@),
            index_map(r@) == self@,
    {
        &self.entries
    }

    /// The schema version the index was written with.
    pub fn version(&self) -> (r: u32)
        ensures
            r == self.schema_version(),
    {
        self.version
    }

    /// Sets the schema version, as read back from disk.
    pub fn set_version(&mut self, version: u32)
        requires
            old(self).wf(),
        ensures
            final(self).wf(),
            final(self)@ == old(self)@,
            final(self).schema_version() == version,
    {
        self.version = version;
    }

    /// Number of tracked paths.
    pub fn len(&self) -> (r: usize)
        requires
            self.wf(),
        ensures
            r == self.records().len(),
    {
        self.entries.len()
    }
}

} // verus!
