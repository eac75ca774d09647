//! The immutable objects of the store: commits, trees, files and chunks.
use vstd::prelude::*;

verus! {

/// Tree entry mode of a regular file.
pub const MODE_FILE: u32 = 0o100644;

/// Tree entry mode of a directory.
pub const MODE_DIR: u32 = 0o040000;

/// A file's content, through the identifier of its root chunk.
#[derive(Debug, Clone)]
pub struct File {
    pub root_chunk_id: String,
    pub size: usize,
}

/// One named entry of a tree.
#[derive(Debug, Clone)]
pub struct DirectoryEntry {
    pub mode: u32,
    pub name: String,
    pub id: String,
}

/// A tree: its entries in traversal order.
#[derive(Debug, Clone)]
pub struct Directory {
    pub entries: Vec<DirectoryEntry>,
}

/// A snapshot node: a root tree, its parents and who made it when.
#[derive(Debug, Clone)]
pub struct Commit {
    pub tree: String,
    pub parents: Vec<String>,
    pub author: String,
    pub timestamp: i64,
    pub message: String,
    pub signature: Option<String>,
}

/// The views of a sequence of strings.
pub open spec fn strs_view(v: Seq<String>) -> Seq<Seq<char>> {
    v.map_values(|s: String| s@)
}

/// The four kinds of stored object.
#[derive(Debug, Clone, Copy, PartialEq, Eq, Structural)]
pub enum ObjectKind {
    Commit,
    Tree,
    File,
    Chunk,
}

/// The lowercase name of a kind on the wire.
pub open spec fn kind_name(k: ObjectKind) -> Seq<char> {
    match k {
        ObjectKind::Commit => "commit"@,
        ObjectKind::Tree => "tree"@,
        ObjectKind::File => "file"@,
        ObjectKind::Chunk => "chunk"@,
    }
}

/// Distinct kinds have distinct wire names.
pub proof fn lemma_kind_name_injective(a: ObjectKind, b: ObjectKind)
    ensures
        kind_name(a) == kind_name(b) ==> a == b,
{
    reveal_strlit("commit");
    reveal_strlit("tree");
    reveal_strlit("file");
    reveal_strlit("chunk");
    if kind_name(a) == kind_name(b) {
        assert(kind_name(a).len() == kind_name(b).len());
        assert(kind_name(a)[0] == kind_name(b)[0]);
    }
}

impl ObjectKind {
    /// The kind's name on the wire.
    pub fn as_str(&self) -> (r: &'static str)
        ensures
            r@ == kind_name(*self),
    {
        match self {
            ObjectKind::Commit => "commit",
            ObjectKind::Tree => "tree",
            ObjectKind::File => "file",
            ObjectKind::Chunk => "chunk",
        }
    }

    /// The kind that a wire name stands for.
    pub fn from_wire(s: &str) -> (r: Option<ObjectKind>)
        ensures
            r matches Some(k) ==> kind_name(k) == s@,
            r is None ==> forall|k: ObjectKind| kind_name(k) != s@,
    {
        let kinds = [ObjectKind::Commit, ObjectKind::Tree, ObjectKind::File, ObjectKind::Chunk];
        proof {
            reveal_strlit("commit");
            reveal_strlit("tree");
            reveal_strlit("file");
            reveal_strlit("chunk");
        }
        let a = String::from_str(s);
        if a == String::from_str("commit") {
            Some(ObjectKind::Commit)
        } else if a == String::from_str("tree") {
            Some(ObjectKind::Tree)
        } else if a == String::from_str("file") {
            Some(ObjectKind::File)
        } else if a == String::from_str("chunk") {
            Some(ObjectKind::Chunk)
        } else {
            assert forall|k: ObjectKind| kind_name(k) != s@ by {
                match k {
                    ObjectKind::Commit => {},
                    ObjectKind::Tree => {},
                    ObjectKind::File => {},
                    ObjectKind::Chunk => {},
                }
            }
            None
        }
    }
}

/// A stored object once its bytes have been classified.
#[derive(Debug, Clone)]
pub enum StoredObject {
    Commit(Commit),
    Tree(Directory),
    File(File),
    Chunk,
}

impl StoredObject {
    /// The object's kind.
    pub fn kind(&self) -> (r: ObjectKind)
        ensures
            r == match *self {
                StoredObject::Commit(_) => ObjectKind::Commit,
                StoredObject::Tree(_) => ObjectKind::Tree,
                StoredObject::File(_) => ObjectKind::File,
                StoredObject::Chunk => ObjectKind::Chunk,
            },
    {
        match self {
            StoredObject::Commit(_) => ObjectKind::Commit,
            StoredObject::Tree(_) => ObjectKind::Tree,
            StoredObject::File(_) => ObjectKind::File,
            StoredObject::Chunk => ObjectKind::Chunk,
        }
    }
}

/// Classifies stored bytes from the attempts to read them as each
/// structured kind, tried in the order commit, tree, file. Bytes that are
/// none of these, empty ones included, are a chunk.
pub fn classify_parsed(as_commit: Option<Commit>, as_tree: Option<Directory>, as_file: Option<File>) -> (r:
    StoredObject)
    ensures
        r == (match as_commit {
            Some(c) => StoredObject::Commit(c),
            None => match as_tree {
                Some(d) => StoredObject::Tree(d),
                None => match as_file {
                    Some(f) => StoredObject::File(f),
                    None => StoredObject::Chunk,
                },
            },
        }),
{
    match as_commit {
        Some(c) => StoredObject::Commit(c),
        None => match as_tree {
            Some(d) => StoredObject::Tree(d),
            None => match as_file {
                Some(f) => StoredObject::File(f),
                None => StoredObject::Chunk,
            },
        },
    }
}

} // verus!
