//! The client side of a sync session, as decisions on the server's replies.
//!
//! The caller owns the stream: it sends what these functions choose and
//! hands each reply back. The session authenticates, may select a
//! repository, sends `Have` with its tips, downloads what `Want` names by a
//! `GraphWalk`, offers the commits the server lacks, serves the objects the
//! server asks for, and closes with `Ready`.
use vstd::prelude::*;
use crate::error::OrbitError;
use crate::objects::{kind_name, lemma_kind_name_injective, strs_view, ObjectKind};
use crate::oid::{hash_data, oid_of};
use crate::text::{contains, str_contains};
use crate::vnp::VnpCommand;
use crate::walk::contains_string;

verus! {

/// The client's verdict on the reply to `Authenticate`.
pub fn check_auth_reply(reply: &VnpCommand) -> (r: Result<(), OrbitError>)
    ensures
        match *reply {
            VnpCommand::AuthResult { success, .. } => if success {
                r is Ok
            } else {
                r == Err::<(), OrbitError>(OrbitError::Auth)
            },
            VnpCommand::Error(_) => r == Err::<(), OrbitError>(OrbitError::Auth),
            _ => r == Err::<(), OrbitError>(OrbitError::Protocol),
        },
{
    match reply {
        VnpCommand::AuthResult { success, .. } => {
            if *success {
                Ok(())
            } else {
                Err(OrbitError::Auth)
            }
        },
        VnpCommand::Error(_) => Err(OrbitError::Auth),
        _ => Err(OrbitError::Protocol),
    }
}

/// What to do after the reply to `SelectRepository`.
#[derive(Debug, Clone)]
pub enum SelectStep {
    /// The server uses the named repository.
    Selected(String),
    /// The repository is missing: send `CreateRepository`.
    Create,
    /// The session fails.
    Fail(OrbitError),
}

/// The client's verdict on the reply to `SelectRepository`. A missing
/// repository (an error whose text holds "not found") is created where
/// `may_create` allows it.
pub fn check_select_reply(reply: &VnpCommand, may_create: bool) -> (r: SelectStep)
    ensures
        match *reply {
            VnpCommand::RepositorySelected(n) => r matches SelectStep::Selected(m) && m@ == n@,
            VnpCommand::Error(msg) => if may_create && contains(msg@, "not found"@) {
                r is Create
            } else {
                r matches SelectStep::Fail(e) && e == OrbitError::Access
            },
            _ => r matches SelectStep::Fail(e) && e == OrbitError::Protocol,
        },
{
    match reply {
        VnpCommand::RepositorySelected(n) => SelectStep::Selected(n.clone()),
        VnpCommand::Error(msg) => {
            if may_create && str_contains(msg.as_str(), "not found") {
                SelectStep::Create
            } else {
                SelectStep::Fail(OrbitError::Access)
            }
        },
        _ => SelectStep::Fail(OrbitError::Protocol),
    }
}

/// The client's verdict on the reply to `CreateRepository`.
pub fn check_create_reply(reply: &VnpCommand) -> (r: Result<String, OrbitError>)
    ensures
        match *reply {
            VnpCommand::RepositorySelected(n) => r matches Ok(m) && m@ == n@,
            VnpCommand::Error(_) => r == Err::<String, OrbitError>(OrbitError::Access),
            _ => r == Err::<String, OrbitError>(OrbitError::Protocol),
        },
{
    match reply {
        VnpCommand::RepositorySelected(n) => Ok(n.clone()),
        VnpCommand::Error(_) => Err(OrbitError::Access),
        _ => Err(OrbitError::Protocol),
    }
}

/// The commits to download, from the reply to `Have`.
pub fn check_want_reply(reply: &VnpCommand) -> (r: Result<Vec<String>, OrbitError>)
    ensures
        match *reply {
            VnpCommand::Want(v) => r matches Ok(w) && strs_view(w@) == strs_view(v@),
            VnpCommand::Error(_) => r == Err::<Vec<String>, OrbitError>(OrbitError::Access),
            _ => r == Err::<Vec<String>, OrbitError>(OrbitError::Protocol),
        },
{
    match reply {
        VnpCommand::Want(v) => Ok(clone_strings(v)),
        VnpCommand::Error(_) => Err(OrbitError::Access),
        _ => Err(OrbitError::Protocol),
    }
}

/// The repository names, from the reply to `ListRepositories`.
pub fn check_repository_list(reply: &VnpCommand) -> (r: Result<Vec<String>, OrbitError>)
    ensures
        match *reply {
            VnpCommand::RepositoryList(v) => r matches Ok(w) && strs_view(w@) == strs_view(v@),
            VnpCommand::Error(_) => r == Err::<Vec<String>, OrbitError>(OrbitError::Access),
            _ => r == Err::<Vec<String>, OrbitError>(OrbitError::Protocol),
        },
{
    match reply {
        VnpCommand::RepositoryList(v) => Ok(clone_strings(v)),
        VnpCommand::Error(_) => Err(OrbitError::Access),
        _ => Err(OrbitError::Protocol),
    }
}

/// The client's verdict on the reply to `Ready`.
pub fn check_final_reply(reply: &VnpCommand) -> (r: Result<(), OrbitError>)
    ensures
        match *reply {
            VnpCommand::Ack => r is Ok,
            VnpCommand::Error(_) => r == Err::<(), OrbitError>(OrbitError::Access),
            _ => r == Err::<(), OrbitError>(OrbitError::Protocol),
        },
{
    match reply {
        VnpCommand::Ack => Ok(()),
        VnpCommand::Error(_) => Err(OrbitError::Access),
        _ => Err(OrbitError::Protocol),
    }
}

fn clone_strings(v: &Vec<String>) -> (r: Vec<String>)
    ensures
        strs_view(r@) == strs_view(v@),
{
    let mut r: Vec<String> = Vec::new();
    let mut i: usize = 0;
    while i < v.len()
        invariant
            i <= v@.len(),
            strs_view(r@) == strs_view(v@.subrange(0, i as int)),
        decreases v@.len() - i,
    {
        r.push(v[i].clone());
        assert(strs_view(v@.subrange(0, i + 1)) =~= strs_view(v@.subrange(0, i as int)).push(
            v@[i as int]@,
        ));
        i = i + 1;
    }
    assert(v@.subrange(0, i as int) =~= v@);
    r
}

/// The request that fetches an object of a given kind: trees and files by
/// their own messages, anything else by `Get`.
pub fn request_for(kind: ObjectKind, id: String) -> (r: VnpCommand)
    ensures
        match kind {
            ObjectKind::Tree => r matches VnpCommand::GetTree(x) && x@ == id@,
            ObjectKind::File => r matches VnpCommand::GetFile(x) && x@ == id@,
            _ => r matches VnpCommand::Get(x) && x@ == id@,
        },
{
    match kind {
        ObjectKind::Tree => VnpCommand::GetTree(id),
        ObjectKind::File => VnpCommand::GetFile(id),
        _ => VnpCommand::Get(id),
    }
}

/// The client's verdict on the header that answers a request for `requested`:
/// it must name that object and, for a tree or a file, that kind. Gives the
/// announced kind and size.
pub fn check_object_header(reply: &VnpCommand, requested: &String, expected: ObjectKind) -> (r:
    Result<(ObjectKind, usize), OrbitError>)
    ensures
        match *reply {
            VnpCommand::ObjectHeader { id, object_type, size } => {
                let ok_kind = exists|k: ObjectKind|
                    kind_name(k) == object_type@ && (expected == ObjectKind::Tree || expected
                        == ObjectKind::File ==> k == expected);
                if id@ == requested@ && ok_kind {
                    r matches Ok((k, n)) && kind_name(k) == object_type@ && n == size
                } else {
                    r == Err::<(ObjectKind, usize), OrbitError>(OrbitError::Protocol)
                }
            },
            VnpCommand::Error(_) => r == Err::<(ObjectKind, usize), OrbitError>(OrbitError::NotFound),
            _ => r == Err::<(ObjectKind, usize), OrbitError>(OrbitError::Protocol),
        },
{
    match reply {
        VnpCommand::ObjectHeader { id, object_type, size } => {
            if *id != *requested {
                return Err(OrbitError::Protocol);
            }
            match ObjectKind::from_wire(object_type.as_str()) {
                None => Err(OrbitError::Protocol),
                Some(k) => {
                    proof {
                        assert forall|k2: ObjectKind| kind_name(k2) == object_type@ implies k2 == k by {
                            lemma_kind_name_injective(k2, k);
                        }
                    }
                    if (expected == ObjectKind::Tree || expected == ObjectKind::File) && k != expected {
                        Err(OrbitError::Protocol)
                    } else {
                        Ok((k, *size))
                    }
                },
            }
        },
        VnpCommand::Error(_) => Err(OrbitError::NotFound),
        _ => Err(OrbitError::Protocol),
    }
}

/// Checks received bytes against the identifier they were sent under.
pub fn verify_received(id: &String, data: &[u8]) -> (r: Result<(), OrbitError>)
    ensures
        r is Ok <==> oid_of(data@) == id@,
        r is Err ==> r == Err::<(), OrbitError>(OrbitError::Corrupt),
{
    let h = hash_data(data);
    if h == *id {
        Ok(())
    } else {
        Err(OrbitError::Corrupt)
    }
}

/// The elements of `l` that are not in `w`, in order.
pub open spec fn without(l: Seq<Seq<char>>, w: Seq<Seq<char>>) -> Seq<Seq<char>>
    decreases l.len(),
{
    if l.len() == 0 {
        Seq::empty()
    } else {
        let r = without(l.drop_last(), w);
        if w.contains(l.last()) {
            r
        } else {
            r.push(l.last())
        }
    }
}

/// The local tips to offer for upload: those the server did not ask the
/// client to download.
pub fn upload_set(local: &Vec<String>, want: &Vec<String>) -> (r: Vec<String>)
    ensures
        strs_view(r@) == without(strs_view(local@), strs_view(want@)),
{
    let mut r: Vec<String> = Vec::new();
    let mut i: usize = 0;
    while i < local.len()
        invariant
            i <= local@.len(),
            strs_view(r@) == without(strs_view(local@.subrange(0, i as int)), strs_view(want@)),
        decreases local@.len() - i,
    {
        let ghost l = strs_view(local@.subrange(0, i + 1));
        assert(l.drop_last() =~= strs_view(local@.subrange(0, i as int)));
        assert(l.last() == local@[i as int]@);
        if !contains_string(want, &local[i]) {
            r.push(local[i].clone());
            assert(strs_view(r@) =~= without(l, strs_view(want@)));
        }
        i = i + 1;
    }
    assert(local@.subrange(0, i as int) =~= local@);
    r
}

/// What to do with a message received while serving an upload.
#[derive(Debug, Clone)]
pub enum ServeStep {
    /// Send the named object.
    Send(String),
    /// The server has all it asked for.
    Done,
    /// The session fails.
    Fail(OrbitError),
}

/// The client's verdict on a message received while serving an upload: a
/// request for an object of the offered closure is served, any other
/// request is a protocol violation, `Ok` ends the upload.
pub fn serve_step(reply: &VnpCommand, closure: &Vec<String>) -> (r: ServeStep)
    ensures
        match *reply {
            VnpCommand::SendObject(id) => if strs_view(closure@).contains(id@) {
                r matches ServeStep::Send(x) && x@ == id@
            } else {
                r matches ServeStep::Fail(e) && e == OrbitError::Protocol
            },
            VnpCommand::Ack => r is Done,
            VnpCommand::Error(_) => r matches ServeStep::Fail(e) && e == OrbitError::Access,
            _ => r matches ServeStep::Fail(e) && e == OrbitError::Protocol,
        },
{
    match reply {
        VnpCommand::SendObject(id) => {
            if contains_string(closure, id) {
                ServeStep::Send(id.clone())
            } else {
                ServeStep::Fail(OrbitError::Protocol)
            }
        },
        VnpCommand::Ack => ServeStep::Done,
        VnpCommand::Error(_) => ServeStep::Fail(OrbitError::Access),
        _ => ServeStep::Fail(OrbitError::Protocol),
    }
}

/// The tip after a download: the last commit that `Want` named, if any.
pub fn tip_after_download(want: &Vec<String>) -> (r: Option<String>)
    ensures
        want@.len() == 0 ==> r is None,
        want@.len() > 0 ==> (r matches Some(t) && t@ == want@.last()@),
{
    if want.len() == 0 {
        None
    } else {
        Some(want[want.len() - 1].clone())
    }
}

} // verus!
