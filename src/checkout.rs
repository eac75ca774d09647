//! Materialising a tree: what to restore where, and which files to revert.
use vstd::prelude::*;
use crate::objects::{strs_view, Directory, DirectoryEntry, MODE_DIR, MODE_FILE};
use crate::snapshot::{join_path, join_spec};
use crate::walk::contains_string;

verus! {

/// One entry of a tree, placed in the working tree.
#[derive(Debug, Clone)]
pub enum RestoreStep {
    /// A directory to create, then fill from the tree `id`.
    Dir { path: String, id: String },
    /// A file to write from the File object `id`.
    File { path: String, id: String },
    /// An entry of another mode.
    Other { path: String, id: String, mode: u32 },
}

/// The entry's mode, its path below `prefix`, and its identifier.
pub open spec fn step_of(prefix: Seq<char>, e: DirectoryEntry) -> (u32, Seq<char>, Seq<char>) {
    (e.mode, join_spec(prefix, e.name@), e.id@)
}

/// The step's mode, path and identifier.
pub open spec fn step_view(s: RestoreStep) -> (u32, Seq<char>, Seq<char>) {
    match s {
        RestoreStep::Dir { path, id } => (MODE_DIR, path@, id@),
        RestoreStep::File { path, id } => (MODE_FILE, path@, id@),
        RestoreStep::Other { path, id, mode } => (mode, path@, id@),
    }
}

/// Directories and files get their own steps; other modes are kept aside.
pub open spec fn step_matches(s: RestoreStep, e: DirectoryEntry) -> bool {
    &&& (s is Dir <==> e.mode == MODE_DIR)
    &&& (s is File <==> e.mode == MODE_FILE)
}

/// The steps that restore the entries of `dir` below `prefix`, in entry
/// order.
pub fn restore_steps(dir: &Directory, prefix: &str) -> (r: Vec<RestoreStep>)
    ensures
        r@.len() == dir.entries@.len(),
        forall|i: int|
            0 <= i < r@.len() ==> step_view(#[trigger] r@[i]) == step_of(prefix@, dir.entries@[i])
                && step_matches(r@[i], dir.entries@[i]),
{
    let mut r: Vec<RestoreStep> = Vec::new();
    let mut i: usize = 0;
    while i < dir.entries.len()
        invariant
            i <= dir.entries@.len(),
            r@.len() == i,
            forall|j: int|
                0 <= j < i ==> step_view(#[trigger] r@[j]) == step_of(prefix@, dir.entries@[j])
                    && step_matches(r@[j], dir.entries@[j]),
        decreases dir.entries@.len() - i,
    {
        let e = &dir.entries[i];
        let path = join_path(prefix, e.name.as_str());
        let id = e.id.clone();
        let s = if e.mode == MODE_DIR {
            RestoreStep::Dir { path, id }
        } else if e.mode == MODE_FILE {
            RestoreStep::File { path, id }
        } else {
            RestoreStep::Other { path, id, mode: e.mode }
        };
        r.push(s);
        i = i + 1;
    }
    r
}

/// The paths of `requested` that `committed` holds, in order.
pub open spec fn kept(requested: Seq<Seq<char>>, committed: Seq<Seq<char>>) -> Seq<Seq<char>>
    decreases requested.len(),
{
    if requested.len() == 0 {
        Seq::empty()
    } else {
        let r = kept(requested.drop_last(), committed);
        if committed.contains(requested.last()) {
            r.push(requested.last())
        } else {
            r
        }
    }
}

/// The files a revert rewrites: every committed file when none is named,
/// else the named ones that the head commit holds.
pub fn files_to_revert(requested: &Vec<String>, committed: &Vec<String>) -> (r: Vec<String>)
    ensures
        requested@.len() == 0 ==> strs_view(r@) == strs_view(committed@),
        requested@.len() > 0 ==> strs_view(r@) == kept(strs_view(requested@), strs_view(committed@)),
{
    let mut r: Vec<String> = Vec::new();
    if requested.len() == 0 {
        let mut i: usize = 0;
        while i < committed.len()
            invariant
                i <= committed@.len(),
                strs_view(r@) == strs_view(committed@.subrange(0, i as int)),
            decreases committed@.len() - i,
        {
            r.push(committed[i].clone());
            assert(strs_view(committed@.subrange(0, i + 1)) =~= strs_view(
                committed@.subrange(0, i as int),
            ).push(committed@[i as int]@));
            i = i + 1;
        }
        assert(committed@.subrange(0, i as int) =~= committed@);
        return r;
    }
    let mut i: usize = 0;
    while i < requested.len()
        invariant
            i <= requested@.len(),
            strs_view(r@) == kept(strs_view(requested@.subrange(0, i as int)), strs_view(committed@)),
        decreases requested@.len() - i,
    {
        let ghost l = strs_view(requested@.subrange(0, i + 1));
        assert(l.drop_last() =~= strs_view(requested@.subrange(0, i as int)));
        assert(l.last() == requested@[i as int]@);
        if contains_string(committed, &requested[i]) {
            r.push(requested[i].clone());
            assert(strs_view(r@) =~= kept(l, strs_view(committed@)));
        }
        i = i + 1;
    }
    assert(requested@.subrange(0, i as int) =~= requested@);
    r
}

} // verus!
