//! The pieces of a snapshot: paths, tree entries, file objects and the
//! commit that ties them to the previous tip.
use vstd::prelude::*;
use crate::objects::{strs_view, Commit, DirectoryEntry, File, MODE_DIR, MODE_FILE};
use crate::oid::oid_wf;
use crate::refs::{lemma_tip_reads_back, trim_ws};

verus! {

/// Name of the repository directory, which a snapshot skips.
pub const ORB_DIR: &'static str = ".orb";

/// Author recorded on local snapshots.
pub const DEFAULT_AUTHOR: &'static str = "Orb Developer <dev@orbit.vcs>";

/// Whether a directory entry is the repository directory.
pub fn is_repository_dir(name: &str) -> (r: bool)
    ensures
        r == (name@ == ORB_DIR@),
{
    String::from_str(name) == String::from_str(ORB_DIR)
}

/// The path of `name` inside `current`, `/`-separated; `name` alone at the
/// root.
pub open spec fn join_spec(current: Seq<char>, name: Seq<char>) -> Seq<char> {
    if current.len() == 0 {
        name
    } else {
        current + "/"@ + name
    }
}

pub fn join_path(current: &str, name: &str) -> (r: String)
    ensures
        r@ == join_spec(current@, name@),
{
    if current.unicode_len() == 0 {
        String::from_str(name)
    } else {
        let mut r = String::from_str(current);
        r.append("/");
        r.append(name);
        r
    }
}

/// The tree entry for a file (`is_dir` false) or a directory.
pub fn tree_entry(is_dir: bool, name: String, id: String) -> (r: DirectoryEntry)
    ensures
        r.mode == (if is_dir {
            MODE_DIR
        } else {
            MODE_FILE
        }),
        r.name@ == name@,
        r.id@ == id@,
{
    DirectoryEntry { mode: if is_dir { MODE_DIR } else { MODE_FILE }, name, id }
}

/// The File object of content stored as one chunk.
pub fn file_object(root_chunk_id: String, size: usize) -> (r: File)
    ensures
        r.root_chunk_id@ == root_chunk_id@,
        r.size == size,
{
    File { root_chunk_id, size }
}

/// The parents of a new commit: none on an empty history, else the tip.
pub open spec fn parents_for(tip: Seq<char>) -> Seq<Seq<char>> {
    if tip.len() == 0 {
        Seq::empty()
    } else {
        seq![tip]
    }
}

/// The commit of a snapshot of `tree` on top of `tip` (empty when there is no
/// history yet).
pub fn new_commit(tree: String, tip: &str, author: String, timestamp: i64, message: String) -> (r:
    Commit)
    ensures
        r.tree@ == tree@,
        strs_view(r.parents@) == parents_for(tip@),
        r.author@ == author@,
        r.timestamp == timestamp,
        r.message@ == message@,
        r.signature is None,
{
    let mut parents: Vec<String> = Vec::new();
    if tip.unicode_len() > 0 {
        parents.push(String::from_str(tip));
    }
    assert(strs_view(parents@) =~= parents_for(tip@));
    Commit { tree, parents, author, timestamp, message, signature: None }
}

/// Snapshots chain: the first commit of a history has no parent, and once
/// the identifier of a commit is written to the tip file (with or without a
/// line break), the next snapshot, whose tip is read back from that file,
/// has exactly that commit as its parent.
pub proof fn lemma_snapshot_parents(first_oid: Seq<char>)
    requires
        oid_wf(first_oid),
    ensures
        parents_for(Seq::empty()) == Seq::<Seq<char>>::empty(),
        parents_for(trim_ws(first_oid)) == seq![first_oid],
        parents_for(trim_ws(first_oid.push('\n'))) == seq![first_oid],
{
    lemma_tip_reads_back(first_oid);
}

/// The commit that history goes back to from `c`: its first parent.
pub fn next_in_history(c: &Commit) -> (r: Option<String>)
    ensures
        c.parents@.len() == 0 ==> r is None,
        c.parents@.len() > 0 ==> (r matches Some(p) && p@ == c.parents@[0]@),
{
    if c.parents.len() == 0 {
        None
    } else {
        Some(c.parents[0].clone())
    }
}

} // verus!
