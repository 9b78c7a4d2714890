use sync_dotfiles_rs::config::{Config, ConfType};
use sync_dotfiles_rs::dotconfig::{DotConfig, DotconfigPath};
use sync_dotfiles_rs::hash::{hash_node, to_hex_string};
use sync_dotfiles_rs::mirror::SyncError;
use sync_dotfiles_rs::tree::{dir_find, Entry, FsNode};

fn file_node(data: &[u8]) -> FsNode {
    FsNode::File { data: data.to_vec() }
}

fn digest_of(node: &FsNode, hash_names: bool) -> String {
    to_hex_string(hash_node(node, hash_names).as_slice())
}

fn local_dotconfig(configs: Vec<Config>) -> DotConfig {
    DotConfig {
        dotconfigs_path: DotconfigPath::Local(String::from("~/dotfiles")),
        configs,
    }
}

#[test]
fn conf_type_equality_and_kind_checks() {
    assert_eq!(ConfType::File, ConfType::File);
    assert_eq!(ConfType::Dir, ConfType::Dir);
    assert_ne!(ConfType::File, ConfType::Dir);
    assert!(ConfType::File.is_file());
    assert!(!ConfType::File.is_dir());
    assert!(ConfType::Dir.is_dir());
    assert!(!ConfType::Dir.is_file());
}

#[test]
fn new_config_keeps_its_fields() {
    let c = Config::new(
        String::from("vimrc"),
        String::from("~/.vimrc"),
        Some(String::from("abcd1234")),
        Some(ConfType::File),
    );
    assert_eq!(c.name, "vimrc");
    assert_eq!(c.path, "~/.vimrc");
    assert_eq!(c.hash, Some(String::from("abcd1234")));
    assert_eq!(c.conf_type, Some(ConfType::File));
}

#[test]
fn path_exists_reflects_live_state() {
    let c = Config::new(String::from("x"), String::from("~/x"), None, None);
    assert!(!c.path_exists(None));
    let node = file_node(b"content");
    assert!(c.path_exists(Some(&node)));
}

#[test]
fn absent_path_digests_to_empty_string() {
    let c = Config::new(String::from("x"), String::from("~/x"), None, None);
    let d = c.metadata_digest(None, true).unwrap();
    assert_eq!(d, "");
}

#[test]
fn symlink_path_digest_is_invalid_kind() {
    let c = Config::new(String::from("x"), String::from("~/x"), None, None);
    let link = FsNode::Symlink;
    assert_eq!(c.metadata_digest(Some(&link), true), Err(SyncError::InvalidKind));
}

#[test]
fn changed_file_requires_update_and_digest_moves() {
    let v1 = file_node(b"v1");
    let v2 = file_node(b"v2");
    let d1 = digest_of(&v1, true);
    let mut c = Config::new(
        String::from("conf"),
        String::from("~/conf"),
        Some(d1.clone()),
        Some(ConfType::File),
    );
    let unchanged = c.metadata_digest(Some(&v1), true).unwrap();
    assert!(!c.check_update_metadata_required(&unchanged));
    let fresh = c.metadata_digest(Some(&v2), true).unwrap();
    assert!(c.check_update_metadata_required(&fresh));
    c.update_metadata(Some(&v2), true).unwrap();
    let d2 = c.hash.clone().unwrap();
    assert_ne!(d1, d2);
    assert_eq!(d2, digest_of(&v2, true));
}

#[test]
fn missing_metadata_requires_update() {
    let v1 = file_node(b"v1");
    let digest = digest_of(&v1, true);
    let no_hash = Config::new(String::from("a"), String::from("~/a"), None, Some(ConfType::File));
    assert!(no_hash.check_update_metadata_required(&digest));
    let no_kind = Config::new(String::from("a"), String::from("~/a"), Some(digest.clone()), None);
    assert!(no_kind.check_update_metadata_required(&digest));
}

#[test]
fn update_config_type_fills_only_missing_kind() {
    let dir_node = FsNode::Dir { entries: Vec::new() };
    let mut c = Config::new(String::from("a"), String::from("~/a"), None, None);
    c.update_config_type(Some(&dir_node)).unwrap();
    assert_eq!(c.conf_type, Some(ConfType::Dir));
    let file = file_node(b"x");
    c.update_config_type(Some(&file)).unwrap();
    assert_eq!(c.conf_type, Some(ConfType::Dir));
    let mut fresh = Config::new(String::from("b"), String::from("~/b"), None, None);
    assert_eq!(
        fresh.update_config_type(Some(&FsNode::Symlink)),
        Err(SyncError::InvalidKind)
    );
    assert_eq!(fresh.conf_type, None);
}

#[test]
fn pull_stores_mirrored_tree_under_item_name() {
    let live_tree = FsNode::Dir {
        entries: vec![
            Entry { name: b".git".to_vec(), node: file_node(b"gitdata") },
            Entry { name: b"init.vim".to_vec(), node: file_node(b"set number") },
        ],
    };
    let mut dc = local_dotconfig(vec![Config::new(
        String::from("nvim"),
        String::from("~/.config/nvim"),
        None,
        None,
    )]);
    let live = vec![Some(live_tree)];
    let mut repo: Vec<Entry> = Vec::new();
    dc.pull_updated_configs(&live, &mut repo, true).unwrap();
    assert_eq!(dc.configs[0].conf_type, Some(ConfType::Dir));
    assert!(dc.configs[0].hash.is_some());
    let stored = dir_find(&repo, b"nvim").expect("repo entry under the item name");
    match stored {
        FsNode::Dir { entries } => {
            assert_eq!(entries.len(), 1);
            assert_eq!(entries[0].name, b"init.vim".to_vec());
        }
        _ => panic!("expected a directory in the repo"),
    }
}

#[test]
fn pull_skips_absent_and_up_to_date_items() {
    let v1 = file_node(b"v1");
    let cached = digest_of(&v1, true);
    let mut dc = local_dotconfig(vec![
        Config::new(String::from("gone"), String::from("~/gone"), None, None),
        Config::new(
            String::from("same"),
            String::from("~/same"),
            Some(cached.clone()),
            Some(ConfType::File),
        ),
    ]);
    let live = vec![None, Some(v1)];
    let mut repo: Vec<Entry> = Vec::new();
    dc.pull_updated_configs(&live, &mut repo, true).unwrap();
    assert_eq!(dc.configs[0].hash, None);
    assert_eq!(dc.configs[1].hash, Some(cached));
    assert!(repo.is_empty());
}

#[test]
fn pull_stops_at_symlink_live_path() {
    let mut dc = local_dotconfig(vec![
        Config::new(String::from("ok"), String::from("~/ok"), None, None),
        Config::new(String::from("bad"), String::from("~/bad"), None, None),
        Config::new(String::from("later"), String::from("~/later"), None, None),
    ]);
    let live = vec![
        Some(file_node(b"fine")),
        Some(FsNode::Symlink),
        Some(file_node(b"untouched")),
    ];
    let mut repo: Vec<Entry> = Vec::new();
    let r = dc.pull_updated_configs(&live, &mut repo, true);
    assert_eq!(r, Err(SyncError::InvalidKind));
    assert!(dc.configs[0].hash.is_some());
    assert_eq!(dc.configs[1].hash, None);
    assert_eq!(dc.configs[2].hash, None);
    assert!(dir_find(&repo, b"ok").is_some());
    assert!(dir_find(&repo, b"later").is_none());
}

#[test]
fn push_replaces_outdated_live_copy() {
    let repo = vec![Entry { name: b"vimrc".to_vec(), node: file_node(b"new body") }];
    let dc = local_dotconfig(vec![Config::new(
        String::from("vimrc"),
        String::from("~/.vimrc"),
        None,
        Some(ConfType::File),
    )]);
    let mut live = vec![Some(file_node(b"old body"))];
    dc.push_updated_configs(&mut live, &repo, true).unwrap();
    assert_eq!(live[0], Some(file_node(b"new body")));
}

#[test]
fn push_skips_matching_digest_and_missing_repo_entry() {
    let body = file_node(b"same body");
    let repo = vec![Entry { name: b"vimrc".to_vec(), node: file_node(b"same body") }];
    let dc = local_dotconfig(vec![
        Config::new(String::from("vimrc"), String::from("~/.vimrc"), None, Some(ConfType::File)),
        Config::new(String::from("zshrc"), String::from("~/.zshrc"), None, Some(ConfType::File)),
    ]);
    let mut live = vec![Some(body), Some(file_node(b"kept"))];
    dc.push_updated_configs(&mut live, &repo, true).unwrap();
    assert_eq!(live[0], Some(file_node(b"same body")));
    assert_eq!(live[1], Some(file_node(b"kept")));
}

#[test]
fn push_finds_repo_entry_by_path_basename() {
    let repo = vec![Entry { name: b".vimrc".to_vec(), node: file_node(b"from repo") }];
    let dc = local_dotconfig(vec![Config::new(
        String::from("editor config"),
        String::from("/home/user/.vimrc"),
        None,
        Some(ConfType::File),
    )]);
    let mut live = vec![None];
    dc.push_updated_configs(&mut live, &repo, true).unwrap();
    assert_eq!(live[0], Some(file_node(b"from repo")));
}

#[test]
fn push_kind_conflict_is_io_error() {
    let repo = vec![Entry {
        name: b"thing".to_vec(),
        node: FsNode::Dir { entries: vec![Entry { name: b"f".to_vec(), node: file_node(b"x") }] },
    }];
    let dc = local_dotconfig(vec![Config::new(
        String::from("thing"),
        String::from("~/thing"),
        None,
        Some(ConfType::File),
    )]);
    let mut live = vec![Some(file_node(b"old"))];
    assert_eq!(
        dc.push_updated_configs(&mut live, &repo, true),
        Err(SyncError::IoError)
    );
    assert_eq!(live[0], Some(file_node(b"old")));
}

#[test]
fn force_push_requires_repo_counterpart() {
    let repo: Vec<Entry> = Vec::new();
    let dc = local_dotconfig(vec![Config::new(
        String::from("vimrc"),
        String::from("~/.vimrc"),
        None,
        Some(ConfType::File),
    )]);
    let mut live = vec![Some(file_node(b"old"))];
    assert_eq!(
        dc.force_push_configs(&mut live, &repo),
        Err(SyncError::NotFound)
    );
    assert_eq!(live[0], Some(file_node(b"old")));
}

#[test]
fn force_push_overwrites_even_matching_content() {
    let repo = vec![Entry { name: b"vimrc".to_vec(), node: file_node(b"body") }];
    let dc = local_dotconfig(vec![Config::new(
        String::from("vimrc"),
        String::from("~/.vimrc"),
        None,
        Some(ConfType::File),
    )]);
    let mut live = vec![Some(file_node(b"body"))];
    dc.force_push_configs(&mut live, &repo).unwrap();
    assert_eq!(live[0], Some(file_node(b"body")));
}

#[test]
fn force_pull_copies_matching_kinds_only() {
    let mut repo: Vec<Entry> = Vec::new();
    let dc = local_dotconfig(vec![
        Config::new(String::from("skipped"), String::from("~/s"), None, None),
        Config::new(String::from("vimrc"), String::from("~/.vimrc"), None, Some(ConfType::File)),
    ]);
    let live = vec![Some(file_node(b"no kind")), Some(file_node(b"body"))];
    dc.force_pull_configs(&live, &mut repo).unwrap();
    assert!(dir_find(&repo, b"skipped").is_none());
    assert_eq!(dir_find(&repo, b"vimrc"), Some(&file_node(b"body")));
}

#[test]
fn force_pull_kind_conflict_is_io_error() {
    let mut repo: Vec<Entry> = Vec::new();
    let dc = local_dotconfig(vec![Config::new(
        String::from("vimrc"),
        String::from("~/.vimrc"),
        None,
        Some(ConfType::Dir),
    )]);
    let live = vec![Some(file_node(b"a file, not a dir"))];
    assert_eq!(
        dc.force_pull_configs(&live, &mut repo),
        Err(SyncError::IoError)
    );
    assert!(repo.is_empty());
}

#[test]
fn remote_dotconfigs_path_blocks_copies() {
    let mut dc = DotConfig {
        dotconfigs_path: DotconfigPath::Github(String::from("https://example.invalid/dots")),
        configs: vec![Config::new(
            String::from("vimrc"),
            String::from("~/.vimrc"),
            None,
            Some(ConfType::File),
        )],
    };
    let live_in = vec![Some(file_node(b"body"))];
    let mut repo: Vec<Entry> = Vec::new();
    dc.pull_updated_configs(&live_in, &mut repo, true).unwrap();
    assert!(repo.is_empty());
    assert!(dc.configs[0].hash.is_some());
    let mut live = vec![Some(file_node(b"body"))];
    let repo2 = vec![Entry { name: b"vimrc".to_vec(), node: file_node(b"other") }];
    dc.push_updated_configs(&mut live, &repo2, true).unwrap();
    assert_eq!(live[0], Some(file_node(b"body")));
}

#[test]
fn clean_metadata_clears_every_item() {
    let mut dc = local_dotconfig(vec![
        Config::new(
            String::from("a"),
            String::from("~/a"),
            Some(String::from("deadbeef")),
            Some(ConfType::File),
        ),
        Config::new(String::from("b"), String::from("~/b"), None, Some(ConfType::Dir)),
    ]);
    dc.clean_metadata_from_configs().unwrap();
    for c in &dc.configs {
        assert_eq!(c.hash, None);
        assert_eq!(c.conf_type, None);
    }
    assert_eq!(dc.configs[0].name, "a");
    assert_eq!(dc.configs[1].path, "~/b");
}

#[test]
fn clean_dotconfigs_dir_keeps_only_metadata_folder() {
    let dc = local_dotconfig(Vec::new());
    let mut repo = vec![
        Entry { name: b".git".to_vec(), node: FsNode::Dir { entries: Vec::new() } },
        Entry { name: b"nvim".to_vec(), node: file_node(b"cfg") },
        Entry { name: b"zshrc".to_vec(), node: file_node(b"cfg2") },
    ];
    dc.clean_dotconfigs_dir(&mut repo).unwrap();
    assert_eq!(repo.len(), 1);
    assert_eq!(repo[0].name, b".git".to_vec());
}

#[test]
fn add_config_refuses_duplicate_names() {
    let mut dc = local_dotconfig(vec![Config::new(
        String::from("vimrc"),
        String::from("~/.vimrc"),
        None,
        None,
    )]);
    let r = dc.add_config(String::from("vimrc"), String::from("~/other"), None);
    assert_eq!(r, Err(SyncError::AlreadyExists));
    assert_eq!(dc.configs.len(), 1);
    let node = file_node(b"x");
    dc.add_config(String::from("zshrc"), String::from("~/.zshrc"), Some(&node))
        .unwrap();
    assert_eq!(dc.configs.len(), 2);
    assert_eq!(dc.configs[1].name, "zshrc");
    assert_eq!(dc.configs[1].hash, None);
    assert_eq!(dc.configs[1].conf_type, Some(ConfType::File));
}

#[test]
fn new_dotconfig_holds_the_template() {
    let dc = DotConfig::new();
    match &dc.dotconfigs_path {
        DotconfigPath::Local(p) => assert_eq!(p, "~/dotfiles"),
        DotconfigPath::Github(_) => panic!("expected a local path"),
    }
    assert_eq!(dc.configs.len(), 1);
    assert_eq!(dc.configs[0].name, "placeholder");
    assert_eq!(dc.configs[0].path, "~/placeholder");
    assert_eq!(dc.configs[0].hash, None);
    assert_eq!(dc.configs[0].conf_type, None);
}

#[test]
fn pulling_twice_leaves_repo_with_one_entry_per_item() {
    let live_tree = file_node(b"data");
    let mut dc = local_dotconfig(vec![Config::new(
        String::from("item"),
        String::from("~/item"),
        None,
        None,
    )]);
    let live = vec![Some(live_tree)];
    let mut repo: Vec<Entry> = Vec::new();
    dc.pull_updated_configs(&live, &mut repo, true).unwrap();
    dc.clean_metadata_from_configs().unwrap();
    dc.pull_updated_configs(&live, &mut repo, true).unwrap();
    assert_eq!(repo.len(), 1);
    assert_eq!(repo[0].name, b"item".to_vec());
    assert_eq!(repo[0].node, file_node(b"data"));
}
