use orbit::{
    compute_status, files_to_hash, files_to_revert, hash_data, join_path, local_tips, new_commit, next_in_history,
    restore_steps, tips_from_trimmed, tree_entry, ContentId, Directory, DiskFile, FileStatus, RestoreStep,
    VosIndex, DEFAULT_AUTHOR, MODE_DIR, MODE_FILE,
};

fn disk(path: &str, mtime: u64, size: u64) -> DiskFile {
    DiskFile { path: path.to_string(), mtime, size }
}

fn snapshot_of(files: &[DiskFile], contents: &[&[u8]]) -> VosIndex {
    let ids: Vec<String> = contents.iter().map(|c| hash_data(c)).collect();
    let mut index = VosIndex::new();
    index.record_snapshot(&files.to_vec(), &ids);
    index
}

#[test]
fn index_update_replace_and_remove() {
    let mut index = VosIndex::new();
    assert_eq!(index.version(), 1);
    index.update_entry("a".to_string(), 1, 2, "x".to_string());
    index.update_entry("b".to_string(), 3, 4, "y".to_string());
    index.update_entry("a".to_string(), 5, 6, "z".to_string());
    assert_eq!(index.len(), 2);
    let a = index.get("a").unwrap();
    assert_eq!((a.mtime, a.size, a.file_id.as_str()), (5, 6, "z"));
    let mut paths = index.get_tracked_paths();
    paths.sort();
    assert_eq!(paths, vec!["a".to_string(), "b".to_string()]);
    index.remove_entry("a");
    assert!(index.get("a").is_none());
    index.remove_entry("missing");
    assert_eq!(index.len(), 1);
    index.clear();
    assert_eq!(index.len(), 0);
}

#[test]
fn change_detection_by_metadata() {
    let mut index = VosIndex::new();
    index.update_entry("a".to_string(), 10, 1, "x".to_string());
    assert!(!index.has_file_changed("a", Some((10, 1))));
    assert!(index.has_file_changed("a", Some((11, 1))));
    assert!(index.has_file_changed("a", Some((10, 2))));
    assert!(index.has_file_changed("a", None));
    assert!(index.has_file_changed("new", Some((10, 1))));
}

#[test]
fn clean_right_after_snapshot() {
    let files = vec![disk("a", 100, 1), disk("dir/b", 100, 3)];
    let index = snapshot_of(&files, &[b"1", b"two"]);
    assert!(files_to_hash(&index, &files).is_empty());
    assert!(compute_status(&index, &files, &vec![]).is_empty());
}

#[test]
fn modified_file_is_reported() {
    let index = snapshot_of(&[disk("a", 100, 1)], &[b"1"]);
    let now = vec![disk("a", 105, 1)];
    assert_eq!(files_to_hash(&index, &now), vec!["a".to_string()]);
    let hashed = vec![ContentId { path: "a".to_string(), file_id: hash_data(b"2") }];
    assert_eq!(compute_status(&index, &now, &hashed), vec![("a".to_string(), FileStatus::Modified)]);
}

#[test]
fn metadata_drift_with_same_content_is_clean() {
    let index = snapshot_of(&[disk("a", 100, 1)], &[b"1"]);
    let now = vec![disk("a", 200, 1)];
    let hashed = vec![ContentId { path: "a".to_string(), file_id: hash_data(b"1") }];
    assert!(compute_status(&index, &now, &hashed).is_empty());
}

#[test]
fn untracked_and_deleted() {
    let index = snapshot_of(&[disk("a", 1, 1), disk("b", 1, 1)], &[b"a", b"b"]);
    let now = vec![disk("b", 1, 1), disk("c", 2, 1)];
    let st = compute_status(&index, &now, &vec![]);
    assert_eq!(st, vec![("a".to_string(), FileStatus::Deleted), ("c".to_string(), FileStatus::Untracked)]);
}

#[test]
fn revert_selection() {
    let committed = vec!["a".to_string(), "d/b".to_string()];
    assert_eq!(files_to_revert(&vec![], &committed), committed);
    assert_eq!(
        files_to_revert(&vec!["x".to_string(), "d/b".to_string()], &committed),
        vec!["d/b".to_string()]
    );
}

#[test]
fn restore_steps_follow_modes() {
    let dir = Directory {
        entries: vec![
            tree_entry(false, "f".to_string(), "1".to_string()),
            tree_entry(true, "sub".to_string(), "2".to_string()),
        ],
    };
    assert_eq!(dir.entries[0].mode, MODE_FILE);
    assert_eq!(dir.entries[1].mode, MODE_DIR);
    let steps = restore_steps(&dir, "top");
    assert!(matches!(&steps[0], RestoreStep::File { path, id } if path == "top/f" && id == "1"));
    assert!(matches!(&steps[1], RestoreStep::Dir { path, id } if path == "top/sub" && id == "2"));
    assert_eq!(join_path("", "x"), "x");
}

#[test]
fn first_and_second_snapshot_commits() {
    let empty_tree = hash_data(b"{\"entries\":[]}");
    let c1 = new_commit(empty_tree.clone(), "", DEFAULT_AUTHOR.to_string(), 10, "m".to_string());
    assert!(c1.parents.is_empty());
    assert_eq!(c1.tree, empty_tree);
    assert_eq!(c1.signature, None);
    assert_eq!(next_in_history(&c1), None);
    let c1_id = hash_data(b"first commit bytes");
    let c2 = new_commit(empty_tree, &c1_id, DEFAULT_AUTHOR.to_string(), 11, "m".to_string());
    assert_eq!(c2.parents, vec![c1_id.clone()]);
    assert_eq!(next_in_history(&c2), Some(c1_id));
}

#[test]
fn tips_from_ref_file() {
    assert!(local_tips(None).is_empty());
    assert!(local_tips(Some("  \n")).is_empty());
    assert_eq!(local_tips(Some("abc\n")), vec!["abc".to_string()]);
    assert_eq!(tips_from_trimmed("abc"), vec!["abc".to_string()]);
    assert!(tips_from_trimmed("").is_empty());
    assert_eq!(local_tips(Some("\u{3000}\tabc \r\n")), vec!["abc".to_string()]);
    assert_eq!(local_tips(Some("a b")), vec!["a b".to_string()]);
}

#[test]
fn written_tip_reads_back_as_parent() {
    let c1 = hash_data(b"first commit bytes");
    let tip = local_tips(Some(&format!("{}\n", c1))).into_iter().next().unwrap();
    assert_eq!(tip, c1);
    let c2 = new_commit(hash_data(b"tree"), &tip, DEFAULT_AUTHOR.to_string(), 2, "second".to_string());
    assert_eq!(c2.parents, vec![c1]);
}
