//! The walk over the object graph that a sync session drives: which object
//! to fetch or send next, and what is known to be held once it is done.
use vstd::prelude::*;
use crate::objects::{strs_view, Directory, DirectoryEntry, ObjectKind, StoredObject, MODE_DIR, MODE_FILE};

verus! {

/// Whether `s` is among the views of `v`.
pub fn contains_string(v: &Vec<String>, s: &String) -> (r: bool)
    ensures
        r == strs_view(v@).contains(s@),
{
    let mut i: usize = 0;
    while i < v.len()
        invariant
            i <= v@.len(),
            forall|j: int| 0 <= j < i ==> v@[j]@ != s@,
        decreases v@.len() - i,
    {
        if v[i] == *s {
            assert(strs_view(v@)[i as int] == s@);
            return true;
        }
        i = i + 1;
    }
    assert forall|j: int| 0 <= j < v@.len() implies #[trigger] strs_view(v@)[j]
        != s@ by {}
    false
}

/// The kind under which a tree entry is fetched, by its mode.
pub open spec fn entry_kind(mode: u32) -> Option<ObjectKind> {
    if mode == MODE_DIR {
        Some(ObjectKind::Tree)
    } else if mode == MODE_FILE {
        Some(ObjectKind::File)
    } else {
        None
    }
}

/// The tree entries that the walk follows, with their kinds.
pub open spec fn entry_children(es: Seq<DirectoryEntry>) -> Seq<(ObjectKind, Seq<char>)>
    decreases es.len(),
{
    if es.len() == 0 {
        Seq::empty()
    } else {
        let rest = entry_children(es.drop_last());
        match entry_kind(es.last().mode) {
            Some(k) => rest.push((k, es.last().id@)),
            None => rest,
        }
    }
}

/// What an object leads the walk to: a commit its tree, a tree its file and
/// directory entries, a file its root chunk.
pub open spec fn children_of(o: StoredObject) -> Seq<(ObjectKind, Seq<char>)> {
    match o {
        StoredObject::Commit(c) => seq![(ObjectKind::Tree, c.tree@)],
        StoredObject::Tree(d) => entry_children(d.entries@),
        StoredObject::File(f) => seq![(ObjectKind::Chunk, f.root_chunk_id@)],
        StoredObject::Chunk => Seq::empty(),
    }
}

/// The identifiers of a sequence of kind and identifier pairs.
pub open spec fn pair_ids(v: Seq<(ObjectKind, String)>) -> Seq<Seq<char>> {
    v.map_values(|p: (ObjectKind, String)| p.1@)
}

pub open spec fn pairs_view(v: Seq<(ObjectKind, String)>) -> Seq<(ObjectKind, Seq<char>)> {
    v.map_values(|p: (ObjectKind, String)| (p.0, p.1@))
}

fn tree_children(d: &Directory) -> (r: Vec<(ObjectKind, String)>)
    ensures
        pairs_view(r@) == entry_children(d.entries@),
{
    let mut r: Vec<(ObjectKind, String)> = Vec::new();
    let mut i: usize = 0;
    while i < d.entries.len()
        invariant
            i <= d.entries@.len(),
            pairs_view(r@) == entry_children(d.entries@.subrange(0, i as int)),
        decreases d.entries@.len() - i,
    {
        let e = &d.entries[i];
        let ghost pre = d.entries@.subrange(0, i as int);
        assert(d.entries@.subrange(0, i + 1).drop_last() =~= pre);
        if e.mode == MODE_DIR {
            r.push((ObjectKind::Tree, e.id.clone()));
        } else if e.mode == MODE_FILE {
            r.push((ObjectKind::File, e.id.clone()));
        }
        assert(pairs_view(r@) =~= entry_children(d.entries@.subrange(0, i + 1)));
        i = i + 1;
    }
    assert(d.entries@.subrange(0, i as int) =~= d.entries@);
    r
}

impl StoredObject {
    /// The objects this one leads the walk to, with their kinds.
    pub fn children(&self) -> (r: Vec<(ObjectKind, String)>)
        ensures
            pairs_view(r@) == children_of(*self),
    {
        let mut r: Vec<(ObjectKind, String)> = Vec::new();
        match self {
            StoredObject::Commit(c) => {
                r.push((ObjectKind::Tree, c.tree.clone()));
            },
            StoredObject::Tree(d) => {
                r = tree_children(d);
            },
            StoredObject::File(f) => {
                r.push((ObjectKind::Chunk, f.root_chunk_id.clone()));
            },
            StoredObject::Chunk => {},
        }
        assert(pairs_view(r@) =~= children_of(*self));
        r
    }
}

/// The identifiers an object leads the walk to.
pub open spec fn child_ids(o: StoredObject) -> Seq<Seq<char>> {
    children_of(o).map_values(|p: (ObjectKind, Seq<char>)| p.1)
}

/// A depth-first walk from a set of root commits. The caller takes the next
/// object with `next` and makes sure it is held: where it was there already
/// it reports it with `skip` (what is held is taken to be held whole);
/// otherwise it fetches and stores it and reports it with `finish`, handing
/// over the object, whose children the walk then visits.
pub struct GraphWalk {
    pending: Vec<(ObjectKind, String)>,
    visited: Vec<String>,
    in_flight: Option<String>,
    roots: Ghost<Seq<Seq<char>>>,
    edges: Ghost<Map<Seq<char>, Seq<Seq<char>>>>,
    objects: Ghost<Map<Seq<char>, StoredObject>>,
}

impl GraphWalk {
    /// Identifiers of the objects that have been finished, in order.
    pub closed spec fn visited_ids(&self) -> Seq<Seq<char>> {
        strs_view(self.visited@)
    }

    pub closed spec fn pending_ids(&self) -> Seq<Seq<char>> {
        pair_ids(self.pending@)
    }

    /// The object handed out by `next` and not finished yet.
    pub closed spec fn current(&self) -> Option<Seq<char>> {
        match self.in_flight {
            Some(s) => Some(s@),
            None => None,
        }
    }

    pub closed spec fn roots(&self) -> Seq<Seq<char>> {
        self.roots@
    }

    /// For each finished object, the identifiers it was reported to lead to.
    pub closed spec fn edges(&self) -> Map<Seq<char>, Seq<Seq<char>>> {
        self.edges@
    }

    /// The objects reported with `finish`, by identifier.
    pub closed spec fn held_objects(&self) -> Map<Seq<char>, StoredObject> {
        self.objects@
    }

    /// Each object reported with `finish` is finished, and leads exactly to
    /// its children.
    pub open spec fn objects_wf(&self) -> bool {
        forall|v: Seq<char>|
            #[trigger] self.held_objects().contains_key(v) ==> {
                &&& self.visited_ids().contains(v)
                &&& self.edges().contains_key(v)
                &&& self.edges()[v] == child_ids(self.held_objects()[v])
            }
    }

    /// Whether the walk has met `x`: finished, waiting, or handed out.
    pub open spec fn known(&self, x: Seq<char>) -> bool {
        self.visited_ids().contains(x) || self.pending_ids().contains(x) || self.current() == Some(x)
    }

    pub open spec fn wf(&self) -> bool {
        &&& forall|i: int| 0 <= i < self.roots().len() ==> self.known(#[trigger] self.roots()[i])
        &&& forall|v: Seq<char>|
            #![trigger self.visited_ids().contains(v)]
            self.visited_ids().contains(v) ==> {
                &&& self.edges().contains_key(v)
                &&& forall|j: int|
                    0 <= j < self.edges()[v].len() ==> self.known(#[trigger] self.edges()[v][j])
            }
        &&& self.current() matches Some(f) ==> !self.visited_ids().contains(f)
    }

    pub open spec fn done(&self) -> bool {
        self.pending_ids().len() == 0 && self.current() is None
    }

    /// A walk that starts at the given commits.
    pub fn new(roots: &Vec<String>) -> (r: GraphWalk)
        ensures
            r.wf(),
            r.objects_wf(),
            r.held_objects() == Map::<Seq<char>, StoredObject>::empty(),
            r.roots() == strs_view(roots@),
            r.visited_ids() == Seq::<Seq<char>>::empty(),
            r.current() is None,
    {
        let mut pending: Vec<(ObjectKind, String)> = Vec::new();
        let mut i: usize = roots.len();
        while i > 0
            invariant
                i <= roots@.len(),
                forall|j: int|
                    i <= j < roots@.len() ==> pair_ids(pending@).contains(
                        #[trigger] roots@[j]@,
                    ),
            decreases i,
        {
            i = i - 1;
            let ghost before = pending@;
            pending.push((ObjectKind::Commit, roots[i].clone()));
            proof {
                let pv = pair_ids(pending@);
                assert forall|j: int| i <= j < roots@.len() implies pv.contains(#[trigger] roots@[j]@) by {
                    if j == i {
                        assert(pv[pv.len() - 1] == roots@[j]@);
                    } else {
                        let bv = pair_ids(before);
                        let k = choose|k: int| 0 <= k < bv.len() && bv[k] == roots@[j]@;
                        assert(pv[k] == bv[k]);
                    }
                }
            }
        }
        let w = GraphWalk {
            pending,
            visited: Vec::new(),
            in_flight: None,
            roots: Ghost(strs_view(roots@)),
            edges: Ghost(Map::empty()),
            objects: Ghost(Map::empty()),
        };
        assert forall|k: int| 0 <= k < w.roots().len() implies w.known(#[trigger] w.roots()[k]) by {
            assert(w.roots()[k] == roots@[k]@);
        }
        w
    }

    /// Whether nothing is left to fetch.
    pub fn is_done(&self) -> (r: bool)
        ensures
            r == self.done(),
    {
        self.pending.len() == 0 && self.in_flight.is_none()
    }

    /// The next object that is not finished yet, with the kind it is
    /// expected to have, or `None` when the walk is done.
    pub fn next(&mut self) -> (r: Option<(ObjectKind, String)>)
        requires
            old(self).wf(),
            old(self).current() is None,
        ensures
            final(self).wf(),
            final(self).roots() == old(self).roots(),
            final(self).edges() == old(self).edges(),
            final(self).held_objects() == old(self).held_objects(),
            final(self).visited_ids() == old(self).visited_ids(),
            r is None ==> final(self).done(),
            r matches Some(p) ==> final(self).current() == Some(p.1@) && !old(self).visited_ids().contains(
                p.1@,
            ) && old(self).pending_ids().contains(p.1@),
    {
        loop
            invariant
                self.wf(),
                self.current() is None,
                self.pending@.len() <= old(self).pending@.len(),
                self.pending@ == old(self).pending@.subrange(0, self.pending@.len() as int),
                self.roots() == old(self).roots(),
                self.edges() == old(self).edges(),
                self.held_objects() == old(self).held_objects(),
                self.visited_ids() == old(self).visited_ids(),
            decreases self.pending@.len(),
        {
            let ghost before = *self;
            match self.pending.pop() {
                None => {
                    return None;
                },
                Some((k, id)) => {
                    let ghost pb = before.pending_ids();
                    assert(self.pending_ids() =~= pb.drop_last());
                    assert(pb.last() == id@);
                    proof {
                        let k = self.pending@.len() as int;
                        assert(old(self).pending@[k] == before.pending@[k]);
                        assert(old(self).pending_ids()[k] == id@);
                    }
                    if !contains_string(&self.visited, &id) {
                        self.in_flight = Some(id.clone());
                        proof {
                            assert forall|x: Seq<char>| before.known(x) implies self.known(x) by {
                                if pb.contains(x) && x != id@ {
                                    let t = choose|t: int| 0 <= t < pb.len() && pb[t] == x;
                                    assert(self.pending_ids()[t] == x);
                                }
                            }
                        }
                        return Some((k, id));
                    }
                    proof {
                        assert forall|x: Seq<char>| before.known(x) implies self.known(x) by {
                            if pb.contains(x) && x != id@ {
                                let t = choose|t: int| 0 <= t < pb.len() && pb[t] == x;
                                assert(self.pending_ids()[t] == x);
                            }
                        }
                    }
                },
            }
        }
    }

    /// Records that the object handed out by `next` is held, and the
    /// objects it leads to.
    fn record(&mut self, id: String, children: Vec<(ObjectKind, String)>)
        requires
            old(self).wf(),
            old(self).current() == Some(id@),
        ensures
            final(self).wf(),
            final(self).current() is None,
            final(self).held_objects() == old(self).held_objects(),
            final(self).roots() == old(self).roots(),
            final(self).visited_ids() == old(self).visited_ids().push(id@),
            final(self).edges() == old(self).edges().insert(
                id@,
                pair_ids(children@),
            ),
    {
        let ghost before = *self;
        let ghost cv = pair_ids(children@);
        self.in_flight = None;
        self.visited.push(id);
        self.edges = Ghost(self.edges@.insert(before.current()->Some_0, cv));
        proof {
            let f = before.current()->Some_0;
            assert(self.visited_ids() =~= before.visited_ids().push(f));
            assert(self.pending_ids() == before.pending_ids());
            assert forall|x: Seq<char>| before.known(x) implies self.known(x) by {
                if before.visited_ids().contains(x) {
                    let t = choose|t: int|
                        0 <= t < before.visited_ids().len() && before.visited_ids()[t] == x;
                    assert(self.visited_ids()[t] == x);
                } else if before.current() == Some(x) {
                    assert(self.visited_ids()[self.visited_ids().len() - 1] == x);
                }
            }
        }
        let mut children = children;
        let ghost all = children@;
        let mut n: usize = children.len();
        assert(children@.subrange(0, n as int) =~= all);
        while n > 0
            invariant
                n <= all.len(),
                children@ == all.subrange(0, n as int),
                cv == pair_ids(all),
                self.roots() == before.roots(),
                self.held_objects() == before.held_objects(),
                self.visited_ids() == before.visited_ids().push(before.current()->Some_0),
                self.edges() == before.edges().insert(before.current()->Some_0, cv),
                self.current() is None,
                forall|x: Seq<char>| before.known(x) ==> self.known(x),
                forall|j: int| n <= j < all.len() ==> self.pending_ids().contains(#[trigger] cv[j]),
            decreases n,
        {
            let c = children.pop().unwrap();
            let ghost pb = self.pending_ids();
            let ghost vb = self.visited_ids();
            self.pending.push(c);
            n = n - 1;
            proof {
                assert(children@ =~= all.subrange(0, n as int));
                assert(self.pending_ids() =~= pb.push(cv[n as int]));
                assert forall|x: Seq<char>| pb.contains(x) implies self.pending_ids().contains(x) by {
                    let t = choose|t: int| 0 <= t < pb.len() && pb[t] == x;
                    assert(self.pending_ids()[t] == x);
                }
                assert(self.pending_ids()[pb.len() as int] == cv[n as int]);
            }
        }
        proof {
            let f = before.current()->Some_0;
            assert forall|v: Seq<char>| self.visited_ids().contains(v) implies {
                &&& self.edges().contains_key(v)
                &&& forall|j: int|
                    0 <= j < self.edges()[v].len() ==> self.known(#[trigger] self.edges()[v][j])
            } by {
                if v == f {
                    assert forall|j: int| 0 <= j < self.edges()[v].len() implies self.known(
                        #[trigger] self.edges()[v][j],
                    ) by {
                        assert(self.pending_ids().contains(cv[j]));
                    }
                } else {
                    let t = choose|t: int| 0 <= t < self.visited_ids().len() && self.visited_ids()[t] == v;
                    assert(before.visited_ids()[t] == v);
                    assert(before.visited_ids().contains(v));
                    assert(self.edges()[v] == before.edges()[v]);
                    assert forall|j: int| 0 <= j < self.edges()[v].len() implies self.known(
                        #[trigger] self.edges()[v][j],
                    ) by {
                        let x = self.edges()[v][j];
                        assert(before.edges()[v][j] == x);
                        assert(before.known(x));
                        if before.current() == Some(x) {
                            assert(self.visited_ids()[self.visited_ids().len() - 1] == x);
                        }
                    }
                }
            }
            assert forall|i: int| 0 <= i < self.roots().len() implies self.known(
                #[trigger] self.roots()[i],
            ) by {
                let x = self.roots()[i];
                assert(before.known(x));
                if before.current() == Some(x) {
                    assert(self.visited_ids()[self.visited_ids().len() - 1] == x);
                }
            }
        }
    }

    /// Reports that the object handed out by `next` was held already.
    pub fn skip(&mut self, id: String)
        requires
            old(self).wf(),
            old(self).objects_wf(),
            old(self).current() == Some(id@),
        ensures
            final(self).wf(),
            final(self).objects_wf(),
            final(self).current() is None,
            final(self).roots() == old(self).roots(),
            final(self).held_objects() == old(self).held_objects(),
            final(self).visited_ids() == old(self).visited_ids().push(id@),
    {
        let ghost before = *self;
        self.record(id, Vec::new());
        proof {
            self.lemma_objects_kept(before);
        }
    }

    /// Reports that the object handed out by `next` was fetched and stored,
    /// and what it is; the walk goes on to its children.
    pub fn finish(&mut self, id: String, obj: &StoredObject)
        requires
            old(self).wf(),
            old(self).objects_wf(),
            old(self).current() == Some(id@),
        ensures
            final(self).wf(),
            final(self).objects_wf(),
            final(self).current() is None,
            final(self).roots() == old(self).roots(),
            final(self).held_objects() == old(self).held_objects().insert(id@, *obj),
            final(self).visited_ids() == old(self).visited_ids().push(id@),
    {
        let ghost before = *self;
        let ghost idv = id@;
        let children = obj.children();
        assert(pair_ids(children@) =~= child_ids(*obj)) by {
            assert forall|i: int| 0 <= i < children@.len() implies pair_ids(children@)[i] == child_ids(
                *obj,
            )[i] by {
                assert(pairs_view(children@)[i] == children_of(*obj)[i]);
            }
        }
        self.record(id, children);
        proof {
            self.lemma_objects_kept(before);
        }
        self.objects = Ghost(self.objects@.insert(idv, *obj));
        proof {
            assert forall|v: Seq<char>| #[trigger] self.held_objects().contains_key(v) implies {
                &&& self.visited_ids().contains(v)
                &&& self.edges().contains_key(v)
                &&& self.edges()[v] == child_ids(self.held_objects()[v])
            } by {
                if v == idv {
                    assert(self.visited_ids()[self.visited_ids().len() - 1] == v);
                }
            }
        }
    }

    /// After `record`, what held before still holds of the objects already
    /// reported.
    proof fn lemma_objects_kept(&self, before: GraphWalk)
        requires
            before.wf(),
            before.objects_wf(),
            before.current() is Some,
            self.held_objects() == before.held_objects(),
            self.visited_ids() == before.visited_ids().push(before.current()->Some_0),
            self.edges().dom() == before.edges().dom().insert(before.current()->Some_0),
            forall|v: Seq<char>| v != before.current()->Some_0 && before.edges().contains_key(v) ==> self.edges()[v]
                == before.edges()[v],
        ensures
            self.objects_wf(),
    {
        let f = before.current()->Some_0;
        assert forall|v: Seq<char>| #[trigger] self.held_objects().contains_key(v) implies {
            &&& self.visited_ids().contains(v)
            &&& self.edges().contains_key(v)
            &&& self.edges()[v] == child_ids(self.held_objects()[v])
        } by {
            assert(before.held_objects().contains_key(v));
            assert(before.visited_ids().contains(v));
            assert(v != f);
            let t = choose|t: int| 0 <= t < before.visited_ids().len() && before.visited_ids()[t] == v;
            assert(self.visited_ids()[t] == v);
        }
    }

    /// The identifiers finished so far.
    pub fn visited(&self) -> (r: &Vec<String>)
        ensures
            strs_view(r@) == self.visited_ids(),
    {
        &self.visited
    }
}

/// Graph closure: once the walk is done, every root is held, and every
/// child (tree, sub-tree, file, root chunk) of every object that was
/// fetched is held too; objects that were there already are taken to be
/// held whole.
pub proof fn lemma_walk_closed(w: &GraphWalk)
    requires
        w.wf(),
        w.objects_wf(),
        w.done(),
    ensures
        forall|i: int| 0 <= i < w.roots().len() ==> w.visited_ids().contains(#[trigger] w.roots()[i]),
        forall|v: Seq<char>, j: int|
            w.held_objects().contains_key(v) && 0 <= j < child_ids(w.held_objects()[v]).len()
                ==> w.visited_ids().contains(#[trigger] child_ids(w.held_objects()[v])[j]),
{
    assert forall|i: int| 0 <= i < w.roots().len() implies w.visited_ids().contains(
        #[trigger] w.roots()[i],
    ) by {
        assert(w.known(w.roots()[i]));
    }
    assert forall|v: Seq<char>, j: int|
        w.held_objects().contains_key(v) && 0 <= j < child_ids(w.held_objects()[v]).len()
            implies w.visited_ids().contains(#[trigger] child_ids(w.held_objects()[v])[j]) by {
        assert(w.visited_ids().contains(v));
        assert(w.edges()[v][j] == child_ids(w.held_objects()[v])[j]);
        assert(w.known(w.edges()[v][j]));
    }
}

} // verus!
