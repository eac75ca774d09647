//! Names taken from foreign repository URLs and commits.
use vstd::prelude::*;
use crate::error::OrbitError;
use crate::text::{last_index, lemma_last_index, rfind_char, trim_end_all, trim_end_matches};

verus! {

/// The repository name of a URL: its last `/`-separated part once trailing
/// slashes are gone, without a trailing `.git`.
pub open spec fn repo_name_of(url: Seq<char>) -> Seq<char> {
    let u = trim_end_all(url, "/"@);
    let tail = if last_index(u, '/') >= 0 {
        u.subrange(last_index(u, '/') + 1, u.len() as int)
    } else {
        u
    };
    trim_end_all(tail, ".git"@)
}

/// The name of the directory a foreign repository is fetched into.
pub fn extract_repo_name(url: &str) -> (r: Result<String, OrbitError>)
    ensures
        repo_name_of(url@).len() == 0 <==> r is Err,
        r matches Ok(n) ==> n@ == repo_name_of(url@),
        r matches Err(e) ==> e == OrbitError::Precondition,
{
    let u = trim_end_matches(url, "/");
    let n = u.unicode_len();
    proof {
        lemma_last_index(u@, '/');
    }
    let tail = match rfind_char(u, '/') {
        Some(pos) => u.substring_char(pos + 1, n),
        None => u,
    };
    let name = trim_end_matches(tail, ".git");
    if name.unicode_len() == 0 {
        Err(OrbitError::Precondition)
    } else {
        Ok(String::from_str(name))
    }
}

/// The author line of an imported commit: `name <email>`, with stand-ins
/// for what the foreign commit lacks.
pub fn author_line(name: Option<&str>, email: Option<&str>) -> (r: String)
    ensures
        r@ == (match name {
            Some(n) => n@,
            None => "Unknown"@,
        }) + " <"@ + (match email {
            Some(e) => e@,
            None => "unknown@example.com"@,
        }) + ">"@,
{
    let mut r = match name {
        Some(n) => String::from_str(n),
        None => String::from_str("Unknown"),
    };
    r.append(" <");
    match email {
        Some(e) => r.append(e),
        None => r.append("unknown@example.com"),
    }
    r.append(">");
    r
}

} // verus!
