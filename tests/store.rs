use orbit::{
    classify_parsed, decode_frame, decode_len, encode_frame, encode_len, file_object, hash_data, is_valid_oid,
    object_path, plan_put, split_object_data, verify_received, Commit, ObjectKind, OrbitError, StoredObject,
    MAX_FRAME_LEN, OBJECT_DATA_CHUNK,
};

#[test]
fn keccak_digest_of_known_inputs() {
    assert_eq!(hash_data(b""), "c5d2460186f7233c927e7db2dcc703c0e500b653ca82273b7bfad8045d85a470");
    assert_eq!(hash_data(b"hello"), "1c8aff950685c2ed4bc3174f3472287b56d9517b9c948127319a09a7a36deac8");
}

#[test]
fn identifiers_are_64_lowercase_hex() {
    let id = hash_data(b"some bytes");
    assert_eq!(id.len(), 64);
    assert!(is_valid_oid(&id));
    assert!(!is_valid_oid(&id.to_uppercase()));
    assert!(!is_valid_oid(&id[..63]));
    assert!(!is_valid_oid("../../etc/passwd"));
}

#[test]
fn object_paths_fan_out_by_two_digits() {
    let id = hash_data(b"hello");
    assert_eq!(object_path(&id).unwrap(), format!("objects/1c/{}", &id[2..]));
    assert_eq!(object_path("zz"), None);
}

#[test]
fn put_plan_is_content_addressed_and_stable() {
    let a = plan_put(b"payload");
    let b = plan_put(b"payload");
    assert_eq!(a.oid, b.oid);
    assert_eq!(a.path, b.path);
    assert_eq!(a.oid, hash_data(b"payload"));
    assert_ne!(plan_put(b"other").oid, a.oid);
    assert_eq!(verify_received(&a.oid, b"payload"), Ok(()));
}

#[test]
fn deduplicated_chunk_shared_by_two_files() {
    // A snapshot of two files with the same bytes: the chunk is stored once,
    // and so is the File object, which depends on the chunk and size alone.
    let mut stored = std::collections::BTreeSet::new();
    let chunk = plan_put(b"same content");
    stored.insert(chunk.oid.clone());
    let f1 = file_object(chunk.oid.clone(), 12);
    let f2 = file_object(plan_put(b"same content").oid, 12);
    assert_eq!(f1.root_chunk_id, f2.root_chunk_id);
    let file_bytes = |f: &orbit::File| format!("{{\"root_chunk_id\":\"{}\",\"size\":{}}}", f.root_chunk_id, f.size);
    let id1 = plan_put(file_bytes(&f1).as_bytes()).oid;
    let id2 = plan_put(file_bytes(&f2).as_bytes()).oid;
    assert_eq!(id1, id2);
    stored.insert(id1.clone());
    stored.insert(id2.clone());
    let tree = format!(
        "{{\"entries\":[{{\"mode\":33188,\"name\":\"a\",\"id\":\"{}\"}},{{\"mode\":33188,\"name\":\"b\",\"id\":\"{}\"}}]}}",
        id1, id2
    );
    let tree_id = plan_put(tree.as_bytes()).oid;
    stored.insert(tree_id.clone());
    stored.insert(plan_put(format!("{{\"tree\":\"{}\"}}", tree_id).as_bytes()).oid);
    assert_eq!(stored.len(), 4);
}

#[test]
fn corrupt_bytes_are_detected() {
    let id = hash_data(b"good");
    assert_eq!(verify_received(&id, b"bad"), Err(OrbitError::Corrupt));
}

#[test]
fn length_prefix_is_big_endian() {
    assert_eq!(encode_len(0x01020304), vec![1, 2, 3, 4]);
    assert_eq!(decode_len(&[0, 0, 1, 0]), Ok(256));
    assert_eq!(decode_len(&[4, 0, 0, 1]), Err(OrbitError::Protocol));
    assert_eq!(decode_len(&[4, 0, 0, 0]), Ok(MAX_FRAME_LEN as usize));
}

#[test]
fn frame_round_trip_with_trailing_bytes() {
    let f = encode_frame(b"{\"Ready\":null}").unwrap();
    assert_eq!(&f[..4], &[0, 0, 0, 14]);
    let mut buf = f.clone();
    buf.extend_from_slice(b"rest");
    let (body, used) = decode_frame(&buf).unwrap().unwrap();
    assert_eq!(body, b"{\"Ready\":null}".to_vec());
    assert_eq!(used, 18);
    assert_eq!(&buf[used..], b"rest");
    assert_eq!(decode_frame(&f[..10]), Ok(None));
    assert_eq!(decode_frame(&[0, 0]), Ok(None));
    assert_eq!(decode_frame(&[9, 0, 0, 0, 1]), Err(OrbitError::Protocol));
}

#[test]
fn object_data_pieces() {
    let data: Vec<u8> = (0..20000u32).map(|i| (i % 251) as u8).collect();
    let pieces = split_object_data(&data);
    assert_eq!(pieces.len(), 3);
    assert_eq!(pieces[0].len(), OBJECT_DATA_CHUNK);
    assert_eq!(pieces[1].len(), OBJECT_DATA_CHUNK);
    assert_eq!(pieces[2].len(), 20000 - 2 * OBJECT_DATA_CHUNK);
    assert_eq!(pieces.concat(), data);
    assert!(split_object_data(b"").is_empty());
    assert_eq!(split_object_data(&[7u8; 8192]).len(), 1);
}

#[test]
fn classification_order() {
    let c = Commit {
        tree: hash_data(b"t"),
        parents: vec![],
        author: "a".to_string(),
        timestamp: 1,
        message: "m".to_string(),
        signature: None,
    };
    let k = classify_parsed(Some(c), None, None);
    assert_eq!(k.kind(), ObjectKind::Commit);
    let f = file_object(hash_data(b"x"), 1);
    assert_eq!(classify_parsed(None, None, Some(f)).kind(), ObjectKind::File);
    assert!(matches!(classify_parsed(None, None, None), StoredObject::Chunk));
    // The chunk of an empty file is the empty byte string.
    assert_eq!(classify_parsed(None, None, None).kind(), ObjectKind::Chunk);
    assert_eq!(ObjectKind::Tree.as_str(), "tree");
    assert_eq!(ObjectKind::from_wire("chunk"), Some(ObjectKind::Chunk));
    assert_eq!(ObjectKind::from_wire("blob"), None);
}
