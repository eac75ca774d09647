//! The object store: where each object lives on disk, and what writing to
//! it does, as a map from identifier to bytes.
use vstd::prelude::*;
use crate::oid::{hash_data, is_valid_oid, oid_of, oid_wf};

verus! {

/// The store as a map from identifier to the bytes stored under it.
pub type StoreView = Map<Seq<char>, Seq<u8>>;

/// Every stored object sits under the identifier of its own bytes.
pub open spec fn content_addressed(m: StoreView) -> bool {
    forall|k: Seq<char>| #[trigger] m.contains_key(k) ==> oid_of(m[k]) == k
}

/// `put`: the bytes go under their identifier unless something is there
/// already.
pub open spec fn store_put(m: StoreView, b: Seq<u8>) -> StoreView {
    if m.contains_key(oid_of(b)) {
        m
    } else {
        m.insert(oid_of(b), b)
    }
}

/// No other stored object shares the identifier of `b`.
pub open spec fn no_collision(m: StoreView, b: Seq<u8>) -> bool {
    m.contains_key(oid_of(b)) ==> m[oid_of(b)] == b
}

/// The path of an object below the repository directory:
/// `objects/<first two hex digits>/<remaining digits>`.
pub open spec fn object_path_of(oid: Seq<char>) -> Seq<char> {
    "objects/"@ + oid.subrange(0, 2) + "/"@ + oid.subrange(2, oid.len() as int)
}

/// Where an object lives below the repository directory, for a well-formed
/// identifier; `None` for any other text, which names no object.
pub fn object_path(oid: &str) -> (r: Option<String>)
    ensures
        r is None <==> !oid_wf(oid@),
        r matches Some(p) ==> p@ == object_path_of(oid@),
{
    if !is_valid_oid(oid) {
        return None;
    }
    let n = oid.unicode_len();
    let mut p = String::from_str("objects/");
    p.append(oid.substring_char(0, 2));
    p.append("/");
    p.append(oid.substring_char(2, n));
    Some(p)
}

/// What a `put` of some bytes needs: their identifier and their path.
pub struct PutPlan {
    pub oid: String,
    pub path: String,
}

/// Plans a `put`: the caller writes the bytes at `path` unless a file is
/// there already, and reports `oid`.
pub fn plan_put(data: &[u8]) -> (r: PutPlan)
    ensures
        r.oid@ == oid_of(data@),
        oid_wf(r.oid@),
        r.path@ == object_path_of(r.oid@),
{
    let oid = hash_data(data);
    let path = object_path(oid.as_str());
    match path {
        Some(path) => PutPlan { oid, path },
        None => {
            assert(false);
            PutPlan { oid, path: String::new() }
        },
    }
}

/// A `put` followed by a `get` of the bytes' identifier gives the bytes
/// back, and the store stays content-addressed (where no other stored object
/// shares that identifier).
pub proof fn lemma_put_then_get(m: StoreView, b: Seq<u8>)
    requires
        content_addressed(m),
        no_collision(m, b),
    ensures
        store_put(m, b).contains_key(oid_of(b)),
        store_put(m, b)[oid_of(b)] == b,
        content_addressed(store_put(m, b)),
{
}

/// A second `put` of the same bytes changes nothing.
pub proof fn lemma_put_idempotent(m: StoreView, b: Seq<u8>)
    ensures
        store_put(store_put(m, b), b) == store_put(m, b),
{
}

} // verus!
