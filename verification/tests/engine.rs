use sync_dotfiles_rs::hash::{compute_hash, compute_hash_from_slices, compute_merkle_hash,
    hash_node, to_hex_string};
use sync_dotfiles_rs::mirror::{mirror, mirror_node, error_action, ErrAction, FsErrorKind, FsOp,
    SyncError};
use sync_dotfiles_rs::tree::{basename, bytes_eq, bytes_lt, clone_node, dir_find, dir_set_entry, Entry,
    FsNode};

fn file(data: &[u8]) -> FsNode {
    FsNode::File { data: data.to_vec() }
}

fn dir(entries: Vec<(&[u8], FsNode)>) -> FsNode {
    FsNode::Dir {
        entries: entries
            .into_iter()
            .map(|(name, node)| Entry { name: name.to_vec(), node })
            .collect(),
    }
}

fn sample_tree() -> FsNode {
    dir(vec![
        (b"a.txt", file(b"hello")),
        (b"sub", dir(vec![(b"b.txt", file(b"world"))])),
    ])
}

#[test]
fn digest_is_deterministic() {
    let t = sample_tree();
    let d1 = hash_node(&t, true);
    let d2 = hash_node(&t, true);
    assert_eq!(d1, d2);
    let d3 = hash_node(&t, false);
    let d4 = hash_node(&t, false);
    assert_eq!(d3, d4);
}

#[test]
fn digest_changes_when_one_byte_is_appended() {
    let before = sample_tree();
    let after = dir(vec![
        (b"a.txt", file(b"hello")),
        (b"sub", dir(vec![(b"b.txt", file(b"world!"))])),
    ]);
    assert_ne!(hash_node(&before, true), hash_node(&after, true));
    assert_ne!(hash_node(&before, false), hash_node(&after, false));
}

#[test]
fn rename_changes_digest_only_with_name_mixing() {
    let one = dir(vec![(b"old.txt", file(b"same content"))]);
    let two = dir(vec![(b"new.txt", file(b"same content"))]);
    assert_ne!(hash_node(&one, true), hash_node(&two, true));
    assert_eq!(hash_node(&one, false), hash_node(&two, false));
}

#[test]
fn content_under_metadata_folder_never_changes_digest() {
    let clean = dir(vec![(b"a.txt", file(b"hello"))]);
    let with_git = dir(vec![
        (b".git", dir(vec![(b"HEAD", file(b"ref: refs/heads/main"))])),
        (b"a.txt", file(b"hello")),
    ]);
    let with_other_git = dir(vec![
        (b".git", dir(vec![(b"HEAD", file(b"something else entirely"))])),
        (b"a.txt", file(b"hello")),
    ]);
    assert_eq!(hash_node(&clean, true), hash_node(&with_git, true));
    assert_eq!(hash_node(&with_git, true), hash_node(&with_other_git, true));
}

#[test]
fn mirror_never_copies_metadata_folder() {
    let src = dir(vec![
        (b".git", dir(vec![(b"HEAD", file(b"ref"))])),
        (b"a.txt", file(b"hello")),
    ]);
    let copied = mirror_node(&src);
    match &copied {
        FsNode::Dir { entries } => {
            assert_eq!(entries.len(), 1);
            assert_eq!(entries[0].name, b"a.txt".to_vec());
        }
        _ => panic!("expected a directory"),
    }
}

#[test]
fn mirror_is_idempotent() {
    let src = dir(vec![
        (b".git", dir(vec![(b"HEAD", file(b"ref"))])),
        (b"a.txt", file(b"hello")),
        (b"link", FsNode::Symlink),
    ]);
    let mut dest1 = dir(vec![]);
    assert!(mirror(Some(&src), &mut dest1).is_ok());
    let mut dest2 = clone_node(&dest1);
    assert!(mirror(Some(&src), &mut dest2).is_ok());
    assert_eq!(dest1, dest2);
    assert_eq!(mirror_node(&dest1), dest1);
}

#[test]
fn mirror_clears_stale_destination_files() {
    let src = dir(vec![(b"a.txt", file(b"hello"))]);
    let mut dest = dir(vec![(b"stale.txt", file(b"left over"))]);
    assert!(mirror(Some(&src), &mut dest).is_ok());
    match &dest {
        FsNode::Dir { entries } => {
            assert!(entries.iter().all(|e| e.name != b"stale.txt".to_vec()));
            assert_eq!(entries.len(), 1);
            assert_eq!(entries[0].name, b"a.txt".to_vec());
        }
        _ => panic!("expected a directory"),
    }
}

#[test]
fn mirror_copies_nested_tree_and_digests_agree() {
    let src = sample_tree();
    let mut dest = dir(vec![]);
    assert!(mirror(Some(&src), &mut dest).is_ok());
    assert_eq!(dest, sample_tree());
    assert_eq!(hash_node(&src, true), hash_node(&dest, true));
    assert_eq!(hash_node(&src, false), hash_node(&dest, false));
}

#[test]
fn mirror_of_missing_source_is_not_found() {
    let mut dest = dir(vec![]);
    let before = clone_node(&dest);
    assert_eq!(mirror(None, &mut dest), Err(SyncError::NotFound));
    assert_eq!(dest, before);
}

#[test]
fn mirror_of_symlink_source_is_invalid_kind() {
    let src = FsNode::Symlink;
    let mut dest = dir(vec![]);
    assert_eq!(mirror(Some(&src), &mut dest), Err(SyncError::InvalidKind));
}

#[test]
fn mirror_skips_symlinks_without_failing() {
    let src = dir(vec![
        (b"a.txt", file(b"hello")),
        (b"link", FsNode::Symlink),
    ]);
    let mut dest = dir(vec![]);
    assert!(mirror(Some(&src), &mut dest).is_ok());
    assert_eq!(dest, dir(vec![(b"a.txt", file(b"hello"))]));
    let with_link_digest = hash_node(&src, true);
    let without_link = dir(vec![(b"a.txt", file(b"hello"))]);
    assert_eq!(with_link_digest, hash_node(&without_link, true));
}

#[test]
fn hex_rendering_is_exact() {
    let s = to_hex_string(&[0x00u8, 0xabu8, 0xffu8, 0x10u8]);
    assert_eq!(s, "00abff10");
    assert_eq!(to_hex_string(&[]), "");
}

#[test]
fn blake3_wrapper_matches_known_vector() {
    let h = compute_hash(b"");
    assert_eq!(
        to_hex_string(h.as_slice()),
        "af1349b9f5f9a1a6a0404dea36dcc9499bcb25c9adc112b7cc9a93cae41f3262"
    );
}

#[test]
fn pair_hash_is_hash_of_concatenation() {
    let joined = compute_hash(b"hello world");
    let paired = compute_hash_from_slices(b"hello ", b"world");
    assert_eq!(joined, paired);
}

#[test]
fn merkle_fold_of_levels() {
    let empty: Vec<Vec<u8>> = Vec::new();
    assert_eq!(compute_merkle_hash(&empty), None);
    let h0 = compute_hash(b"zero");
    let h1 = compute_hash(b"one");
    let h2 = compute_hash(b"two");
    let single = compute_merkle_hash(&vec![h0.clone()]).unwrap();
    assert_eq!(single, h0);
    let p01 = compute_hash_from_slices(h0.as_slice(), h1.as_slice());
    let p22 = compute_hash_from_slices(h2.as_slice(), h2.as_slice());
    let root = compute_hash_from_slices(p01.as_slice(), p22.as_slice());
    let folded = compute_merkle_hash(&vec![h0, h1, h2]).unwrap();
    assert_eq!(folded, root);
}

#[test]
fn error_action_policy_retries_permission_once() {
    assert_eq!(
        error_action(FsOp::CopyFile, FsErrorKind::PermissionDenied, false),
        ErrAction::Escalate
    );
    assert_eq!(
        error_action(FsOp::CopyFile, FsErrorKind::PermissionDenied, true),
        ErrAction::Fatal
    );
    assert_eq!(
        error_action(FsOp::CreateDir, FsErrorKind::AlreadyExists, false),
        ErrAction::Benign
    );
    assert_eq!(
        error_action(FsOp::Remove, FsErrorKind::NotFound, false),
        ErrAction::Benign
    );
    assert_eq!(
        error_action(FsOp::CopyFile, FsErrorKind::NotFound, false),
        ErrAction::Fatal
    );
    assert_eq!(
        error_action(FsOp::CreateDir, FsErrorKind::Other, true),
        ErrAction::Fatal
    );
}

#[test]
fn byte_string_helpers_order_and_compare() {
    assert!(bytes_eq(b"abc", b"abc"));
    assert!(!bytes_eq(b"abc", b"abd"));
    assert!(bytes_lt(b"abc", b"abd"));
    assert!(bytes_lt(b"ab", b"abc"));
    assert!(!bytes_lt(b"abc", b"abc"));
    assert_eq!(basename(b"/home/user/.vimrc"), b".vimrc".to_vec());
    assert_eq!(basename(b"plain"), b"plain".to_vec());
    assert_eq!(basename(b"dir/"), b"".to_vec());
}

#[test]
fn directory_entries_insert_sorted_and_replace() {
    let mut entries: Vec<Entry> = Vec::new();
    dir_set_entry(&mut entries, b"m".to_vec(), file(b"1"));
    dir_set_entry(&mut entries, b"a".to_vec(), file(b"2"));
    dir_set_entry(&mut entries, b"z".to_vec(), file(b"3"));
    dir_set_entry(&mut entries, b"m".to_vec(), file(b"4"));
    let names: Vec<Vec<u8>> = entries.iter().map(|e| e.name.clone()).collect();
    assert_eq!(names, vec![b"a".to_vec(), b"m".to_vec(), b"z".to_vec()]);
    match dir_find(&entries, b"m") {
        Some(FsNode::File { data }) => assert_eq!(data, &b"4".to_vec()),
        _ => panic!("expected the replaced file"),
    }
    assert!(dir_find(&entries, b"missing").is_none());
}
