use std::collections::HashMap;

use orbit::{
    check_object_header, file_object, hash_data, new_commit, request_for, serve_step, split_object_data,
    tip_after_download, tree_entry, verify_received, Commit, Directory, GraphWalk, ObjectKind, ObjectReceiver,
    OrbitError, Phase, ServeStep, Session, SessionMode, Step, StoredObject, VnpCommand,
};

struct Peer {
    bytes: HashMap<String, (ObjectKind, Vec<u8>)>,
    parsed: HashMap<String, StoredObject>,
}

impl Peer {
    fn new() -> Peer {
        Peer { bytes: HashMap::new(), parsed: HashMap::new() }
    }

    fn add(&mut self, kind: ObjectKind, data: &[u8], obj: StoredObject) -> String {
        let id = hash_data(data);
        self.bytes.insert(id.clone(), (kind, data.to_vec()));
        self.parsed.insert(id.clone(), obj);
        id
    }

    /// Answers a request with a header and the data messages.
    fn answer(&self, req: &VnpCommand) -> Vec<VnpCommand> {
        let id = match req {
            VnpCommand::Get(id) | VnpCommand::GetTree(id) | VnpCommand::GetFile(id) => id,
            _ => return vec![VnpCommand::Error("unexpected".to_string())],
        };
        match self.bytes.get(id) {
            None => vec![VnpCommand::Error("not found".to_string())],
            Some((kind, data)) => {
                let mut out = vec![VnpCommand::ObjectHeader {
                    id: id.clone(),
                    object_type: kind.as_str().to_string(),
                    size: data.len(),
                }];
                for p in split_object_data(data) {
                    out.push(VnpCommand::ObjectData(p));
                }
                out
            }
        }
    }
}

/// Peer A holding one snapshot of `{x = "hello"}`; gives the peer and the
/// identifiers of its commit, tree, file and chunk.
fn peer_with_hello() -> (Peer, [String; 4]) {
    let mut a = Peer::new();
    let chunk = a.add(ObjectKind::Chunk, b"hello", StoredObject::Chunk);
    let file_json = format!("{{\"root_chunk_id\":\"{}\",\"size\":5}}", chunk);
    let file = a.add(ObjectKind::File, file_json.as_bytes(), StoredObject::File(file_object(chunk.clone(), 5)));
    let tree_json = format!("{{\"entries\":[{{\"mode\":33188,\"name\":\"x\",\"id\":\"{}\"}}]}}", file);
    let dir = Directory { entries: vec![tree_entry(false, "x".to_string(), file.clone())] };
    let tree = a.add(ObjectKind::Tree, tree_json.as_bytes(), StoredObject::Tree(dir));
    let commit_json = format!("{{\"tree\":\"{}\",\"parents\":[],\"message\":\"m\"}}", tree);
    let commit: Commit = new_commit(tree.clone(), "", "a".to_string(), 1, "m".to_string());
    let c = a.add(ObjectKind::Commit, commit_json.as_bytes(), StoredObject::Commit(commit));
    (a, [c, tree, file, chunk])
}

/// Runs the download walk of `roots` against `server` into `store`.
fn download(
    roots: &Vec<String>,
    server: &Peer,
    store: &mut HashMap<String, Vec<u8>>,
) -> Result<GraphWalk, OrbitError> {
    let mut walk = GraphWalk::new(roots);
    while let Some((kind, id)) = walk.next() {
        if store.contains_key(&id) {
            walk.skip(id);
            continue;
        }
        let req = request_for(kind, id.clone());
        let mut replies = server.answer(&req).into_iter();
        let (_, size) = check_object_header(&replies.next().unwrap(), &id, kind)?;
        let mut rx = ObjectReceiver::new(size);
        while !rx.is_complete() {
            rx.feed(replies.next().unwrap_or(VnpCommand::Ready))?;
        }
        let data = rx.into_data();
        verify_received(&id, &data)?;
        store.insert(id.clone(), data);
        walk.finish(id.clone(), &server.parsed[&id]);
    }
    Ok(walk)
}

#[test]
fn sync_round_trip_into_empty_peer() {
    let (a, ids) = peer_with_hello();
    let a_head = ids[0].clone();
    let mut b_store: HashMap<String, Vec<u8>> = HashMap::new();

    let (mut s, first) = Session::start(SessionMode::Sync, "tok".to_string(), Some("repo".to_string()), vec![]);
    assert!(matches!(first, VnpCommand::Authenticate(ref t) if t == "tok"));
    let step = s.on_reply(&VnpCommand::AuthResult { success: true, message: String::new() });
    assert!(matches!(step, Step::Send(VnpCommand::SelectRepository(ref n)) if n == "repo"));
    let step = s.on_reply(&VnpCommand::RepositorySelected("repo".to_string()));
    assert!(matches!(step, Step::Send(VnpCommand::Have(ref v)) if v.is_empty()));
    let step = s.on_reply(&VnpCommand::Want(vec![a_head.clone()]));
    let roots = match step {
        Step::Download(r) => r,
        other => panic!("unexpected step {:?}", other),
    };
    let walk = download(&roots, &a, &mut b_store).unwrap();
    assert!(walk.is_done());
    let b_head = tip_after_download(s.want()).unwrap();
    let step = s.downloaded();
    assert!(matches!(step, Step::Send(VnpCommand::Ready)));
    let step = s.on_reply(&VnpCommand::Ack);
    assert!(matches!(step, Step::Finish));
    assert_eq!(s.current_phase(), Phase::Done);

    assert_eq!(b_head, a_head);
    for id in ids.iter() {
        assert!(b_store.contains_key(id), "missing {}", id);
        assert_eq!(hash_data(&b_store[id]), *id);
    }
    assert_eq!(b_store.len(), 4);
    assert_eq!(walk.visited().len(), 4);
}

#[test]
fn download_skips_objects_already_held() {
    let (a, ids) = peer_with_hello();
    let mut store: HashMap<String, Vec<u8>> = HashMap::new();
    store.insert(ids[1].clone(), b"tree already here".to_vec());
    let walk = download(&vec![ids[0].clone()], &a, &mut store).unwrap();
    assert!(walk.is_done());
    assert!(!store.contains_key(&ids[2]));
    assert_eq!(walk.visited().len(), 2);
}

#[test]
fn short_object_data_is_a_protocol_error() {
    let mut rx = ObjectReceiver::new(5);
    assert_eq!(rx.feed(VnpCommand::ObjectData(b"hell".to_vec())), Ok(()));
    assert!(!rx.is_complete());
    assert_eq!(rx.feed(VnpCommand::Ready), Err(OrbitError::Protocol));
    assert!(!rx.is_complete());
    let mut over = ObjectReceiver::new(3);
    assert_eq!(over.feed(VnpCommand::ObjectData(b"four".to_vec())), Err(OrbitError::Protocol));
    assert_eq!(over.feed(VnpCommand::Error("gone".to_string())), Err(OrbitError::Protocol));
    // A server error after part of the bytes is a protocol violation too.
    let mut cut = ObjectReceiver::new(5);
    assert_eq!(cut.feed(VnpCommand::ObjectData(b"hell".to_vec())), Ok(()));
    assert_eq!(cut.feed(VnpCommand::Error("gone".to_string())), Err(OrbitError::Protocol));
    assert!(!cut.is_complete());
}

#[test]
fn truncated_download_stores_nothing_and_keeps_tip() {
    let (a, ids) = peer_with_hello();
    let store: HashMap<String, Vec<u8>> = HashMap::new();
    let mut replies = a.answer(&request_for(ObjectKind::Commit, ids[0].clone()));
    let size = match &replies[0] {
        VnpCommand::ObjectHeader { size, .. } => *size,
        _ => panic!("no header"),
    };
    // Send one byte less than announced, then another message.
    if let VnpCommand::ObjectData(d) = &mut replies[1] {
        d.pop();
    }
    replies.truncate(2);
    replies.push(VnpCommand::Ack);
    let mut rx = ObjectReceiver::new(size);
    let mut result = Ok(());
    for r in replies.into_iter().skip(1) {
        result = rx.feed(r);
        if result.is_err() {
            break;
        }
    }
    assert_eq!(result, Err(OrbitError::Protocol));
    assert!(!rx.is_complete());
    // The object is never complete, so nothing is stored and the tip is
    // not moved.
    assert!(store.is_empty());
}

#[test]
fn header_checks() {
    let id = hash_data(b"x");
    let hdr = |t: &str, i: &str| VnpCommand::ObjectHeader { id: i.to_string(), object_type: t.to_string(), size: 3 };
    assert_eq!(check_object_header(&hdr("tree", &id), &id, ObjectKind::Tree), Ok((ObjectKind::Tree, 3)));
    assert_eq!(check_object_header(&hdr("file", &id), &id, ObjectKind::Tree), Err(OrbitError::Protocol));
    assert_eq!(check_object_header(&hdr("chunk", &id), &id, ObjectKind::Chunk), Ok((ObjectKind::Chunk, 3)));
    assert_eq!(check_object_header(&hdr("tree", "other"), &id, ObjectKind::Tree), Err(OrbitError::Protocol));
    assert_eq!(check_object_header(&hdr("blob", &id), &id, ObjectKind::Chunk), Err(OrbitError::Protocol));
    assert_eq!(
        check_object_header(&VnpCommand::Error("no".to_string()), &id, ObjectKind::Chunk),
        Err(OrbitError::NotFound)
    );
    assert!(matches!(request_for(ObjectKind::Tree, id.clone()), VnpCommand::GetTree(_)));
    assert!(matches!(request_for(ObjectKind::File, id.clone()), VnpCommand::GetFile(_)));
    assert!(matches!(request_for(ObjectKind::Chunk, id), VnpCommand::Get(_)));
}

#[test]
fn upload_serves_only_the_closure() {
    let (a, ids) = peer_with_hello();
    let (mut s, _) = Session::start(SessionMode::Sync, "t".to_string(), None, vec![ids[0].clone()]);
    let step = s.on_reply(&VnpCommand::AuthResult { success: true, message: String::new() });
    assert!(matches!(step, Step::Send(VnpCommand::Have(ref v)) if v == &vec![ids[0].clone()]));
    let step = s.on_reply(&VnpCommand::Want(vec![]));
    let tips = match step {
        Step::Upload(u) => u,
        other => panic!("unexpected step {:?}", other),
    };
    assert_eq!(tips, vec![ids[0].clone()]);
    // Collect the closure from the local objects.
    let mut walk = GraphWalk::new(&tips);
    while let Some((_, id)) = walk.next() {
        walk.finish(id.clone(), &a.parsed[&id]);
    }
    let closure = walk.visited().clone();
    assert_eq!(closure.len(), 4);
    assert!(matches!(serve_step(&VnpCommand::SendObject(ids[3].clone()), &closure), ServeStep::Send(ref x) if x == &ids[3]));
    assert!(matches!(
        serve_step(&VnpCommand::SendObject(hash_data(b"stranger")), &closure),
        ServeStep::Fail(OrbitError::Protocol)
    ));
    assert!(matches!(serve_step(&VnpCommand::Ack, &closure), ServeStep::Done));
    assert!(matches!(s.uploaded(), Step::Send(VnpCommand::Ready)));
    assert!(matches!(s.on_reply(&VnpCommand::Error("disk full".to_string())), Step::Fail(OrbitError::Access)));
}

#[test]
fn sync_with_tip_already_on_server_skips_upload() {
    let tip = hash_data(b"c");
    let (mut s, _) = Session::start(SessionMode::Sync, "t".to_string(), None, vec![tip.clone()]);
    s.on_reply(&VnpCommand::AuthResult { success: true, message: String::new() });
    let step = s.on_reply(&VnpCommand::Want(vec![tip.clone()]));
    assert!(matches!(step, Step::Download(_)));
    assert!(matches!(s.downloaded(), Step::Send(VnpCommand::Ready)));
}

#[test]
fn clone_creates_missing_repository_and_stops_when_up_to_date() {
    let (mut s, _) = Session::start(SessionMode::Clone, "t".to_string(), Some("r".to_string()), vec![]);
    s.on_reply(&VnpCommand::AuthResult { success: true, message: String::new() });
    let step = s.on_reply(&VnpCommand::Error("repository not found".to_string()));
    assert!(matches!(step, Step::Send(VnpCommand::CreateRepository(ref n)) if n == "r"));
    let step = s.on_reply(&VnpCommand::RepositorySelected("r".to_string()));
    assert!(matches!(step, Step::Send(VnpCommand::Have(_))));
    assert!(matches!(s.on_reply(&VnpCommand::Want(vec![])), Step::Finish));
    assert_eq!(s.current_phase(), Phase::Done);
}

#[test]
fn session_failures() {
    let (mut s, _) = Session::start(SessionMode::Sync, "t".to_string(), Some("r".to_string()), vec![]);
    assert!(matches!(
        s.on_reply(&VnpCommand::AuthResult { success: false, message: "no".to_string() }),
        Step::Fail(OrbitError::Auth)
    ));
    assert_eq!(s.current_phase(), Phase::Failed(OrbitError::Auth));
    let (mut s, _) = Session::start(SessionMode::Sync, "t".to_string(), Some("r".to_string()), vec![]);
    s.on_reply(&VnpCommand::AuthResult { success: true, message: String::new() });
    assert!(matches!(s.on_reply(&VnpCommand::Error("not found".to_string())), Step::Fail(OrbitError::Access)));
    let (mut s, _) = Session::start(SessionMode::Sync, "t".to_string(), None, vec![]);
    assert!(matches!(s.on_reply(&VnpCommand::Ready), Step::Fail(OrbitError::Protocol)));
}
