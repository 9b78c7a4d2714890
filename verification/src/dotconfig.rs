use vstd::prelude::*;

use vstd::utf8::encode_utf8;

use crate::config::{Config, ConfType, needs_update, refreshed_kind};
use crate::hash::{content_hash, hash_node, hex_of, to_hex_string};
use crate::mirror::{SyncError, mirror_node, mirrored};
use crate::tree::{Entry, FsNode, Tree, TreeEntry, basename, basename_bytes, bytes_eq, copy_bytes,
    dir_find, dir_set_entry, entries_view_from, excluded_name, lemma_entries_view_from, lookup,
    node_view, set_entry};

verus! {

/// Enum representing the path to the dotconfig directory: a GitHub
/// repository or a local directory.  Only a local directory can be written;
/// the batch operations skip their copies for a remote one.
#[derive(Debug)]
pub enum DotconfigPath {
    Github(String),
    Local(String),
}

/// Struct to store configuration data: the path of the central dotconfig
/// directory and the list of tracked items.
///
/// The batch operations below work on in-memory state supplied by the
/// caller: the repository's top-level entries as a directory entry list, and
/// the live subtree of each tracked item, aligned with `configs` by position
/// (`None` where the item's path does not exist).  They are fail-fast: the
/// first failing item stops the batch with its error, items before it are
/// already processed, and items from it on are untouched.
#[derive(Debug)]
pub struct DotConfig {
    /// The path to the dotconfig directory.
    pub dotconfigs_path: DotconfigPath,
    /// A vector of `Config` structs, each representing an individual
    /// configuration file.
    pub configs: Vec<Config>,
}

/// The trees of a list of optional live subtrees.
pub open spec fn opt_views(s: Seq<Option<FsNode>>) -> Seq<Option<Tree>> {
    Seq::new(
        s.len(),
        |i: int|
            match s[i] {
                None => None,
                Some(n) => Some(node_view(n)),
            },
    )
}

/// The digest string of an optional live subtree: empty when absent.
pub open spec fn live_digest_chars(l: Option<Tree>, mix: bool) -> Seq<char> {
    match l {
        None => Seq::empty(),
        Some(t) => hex_of(content_hash(t, mix)),
    }
}

impl Default for DotConfig {
    /// A fresh dotconfig: the default central directory and one template
    /// item.
    fn default() -> (r: Self)
        ensures
            r.dotconfigs_path matches DotconfigPath::Local(p) && p@ == "~/dotfiles"@,
            r.configs@.len() == 1,
            r.configs@[0].name@ == "placeholder"@,
            r.configs@[0].path@ == "~/placeholder"@,
            r.configs@[0].hash is None,
            r.configs@[0].conf_type is None,
    {
        DotConfig {
            dotconfigs_path: DotconfigPath::Local("~/dotfiles".to_owned()),
            configs: vec![Config::default()],
        }
    }
}

impl DotConfig {
    /// Create a new `DotConfig` instance with the default template.
    pub fn new() -> (r: Self)
        ensures
            r.dotconfigs_path matches DotconfigPath::Local(p) && p@ == "~/dotfiles"@,
            r.configs@.len() == 1,
            r.configs@[0].name@ == "placeholder"@,
            r.configs@[0].path@ == "~/placeholder"@,
            r.configs@[0].hash is None,
            r.configs@[0].conf_type is None,
    {
        DotConfig::default()
    }

    /// Remove the cached metadata (digest and kind) from every tracked item,
    /// keeping names and paths.
    pub fn clean_metadata_from_configs(&mut self) -> (r: Result<(), SyncError>)
        ensures
            r is Ok,
            final(self).dotconfigs_path == old(self).dotconfigs_path,
            final(self).configs@.len() == old(self).configs@.len(),
            forall|i: int|
                0 <= i < old(self).configs@.len() ==> {
                    let oc = old(self).configs@[i];
                    let nc = #[trigger] final(self).configs@[i];
                    nc.name == oc.name && nc.path == oc.path && nc.hash is None && nc.conf_type
                        is None
                },
    {
        let n = self.configs.len();
        let mut i: usize = 0;
        while i < n
            invariant
                0 <= i <= n,
                n == self.configs@.len() == old(self).configs@.len(),
                self.dotconfigs_path == old(self).dotconfigs_path,
                forall|k: int|
                    i <= k < n ==> #[trigger] self.configs@[k] == old(self).configs@[k],
                forall|k: int|
                    0 <= k < i ==> {
                        let oc = old(self).configs@[k];
                        let nc = #[trigger] self.configs@[k];
                        nc.name == oc.name && nc.path == oc.path && nc.hash is None
                            && nc.conf_type is None
                    },
            decreases n - i,
        {
            let mut c = self.configs.remove(i);
            c.hash = None;
            c.conf_type = None;
            self.configs.insert(i, c);
            i = i + 1;
        }
        Ok(())
    }

    /// Add a new configuration to the list.
    ///
    /// A duplicate name is refused with `AlreadyExists` and changes nothing;
    /// otherwise the new item is appended without cached digest, its kind
    /// taken from the live subtree when that is a file or a directory.
    pub fn add_config(&mut self, name: String, path: String, live: Option<&FsNode>) -> (r: Result<
        (),
        SyncError,
    >)
        ensures
            (exists|j: int|
                0 <= j < old(self).configs@.len() && old(self).configs@[j].name@ == name@) ==> r
                == Err::<(), SyncError>(SyncError::AlreadyExists) && *final(self) == *old(self),
            (forall|j: int|
                0 <= j < old(self).configs@.len() ==> old(self).configs@[j].name@ != name@) ==> r
                is Ok && final(self).dotconfigs_path == old(self).dotconfigs_path
                && final(self).configs@ == old(self).configs@.push(
                Config {
                    name,
                    path,
                    hash: None,
                    conf_type: refreshed_kind(None, crate::config::live_view(live)),
                },
            ),
    {
        let n = self.configs.len();
        let mut i: usize = 0;
        while i < n
            invariant
                0 <= i <= n,
                n == self.configs@.len(),
                forall|k: int| 0 <= k < i ==> old(self).configs@[k].name@ != name@,
                *self == *old(self),
            decreases n - i,
        {
            if self.configs[i].name.eq(&name) {
                return Err(SyncError::AlreadyExists);
            }
            i = i + 1;
        }
        let conf_type = match live {
            Some(node) => match node {
                FsNode::File { .. } => Some(ConfType::File),
                FsNode::Dir { .. } => Some(ConfType::Dir),
                FsNode::Symlink => None,
            },
            None => None,
        };
        self.configs.push(Config { name, path, hash: None, conf_type });
        Ok(())
    }

    /// Pull all configured items based on their metadata.
    ///
    /// For each item, in order: an absent live subtree is skipped; an
    /// up-to-date item (cached digest matches, kind recorded) is skipped;
    /// otherwise the cached metadata is refreshed and, when the central
    /// directory is local, the item's mirrored live subtree is stored in the
    /// repository under the item's name.  A live subtree that is a symbolic
    /// link stops the batch with `InvalidKind`; later items stay untouched.
    #[verifier::loop_isolation(false)]
    pub fn pull_updated_configs(
        &mut self,
        live: &Vec<Option<FsNode>>,
        repo: &mut Vec<Entry>,
        hash_names: bool,
    ) -> (r: Result<(), SyncError>)
        requires
            live@.len() == old(self).configs@.len(),
        ensures
            final(self).dotconfigs_path == old(self).dotconfigs_path,
            final(self).configs@.len() == old(self).configs@.len(),
            ({
                let lv = opt_views(live@);
                let n = old(self).configs@.len() as int;
                let b = first_symlink_from(lv, 0);
                let stop = if b < n {
                    b
                } else {
                    n
                };
                &&& (b >= n ==> r is Ok)
                &&& (b < n ==> r == Err::<(), SyncError>(SyncError::InvalidKind))
                &&& (forall|i: int|
                    0 <= i < stop ==> pulled_config(
                        old(self).configs@[i],
                        #[trigger] final(self).configs@[i],
                        lv[i],
                        hash_names,
                    ))
                &&& (forall|i: int|
                    stop <= i < n ==> #[trigger] final(self).configs@[i] == old(self).configs@[i])
                &&& entries_view_from(final(repo)@, 0) == (if old(
                    self,
                ).dotconfigs_path matches DotconfigPath::Local(_) {
                    pulled_repo_upto(
                        old(self).configs@,
                        lv,
                        entries_view_from(old(repo)@, 0),
                        hash_names,
                        0,
                        stop,
                    )
                } else {
                    entries_view_from(old(repo)@, 0)
                })
            }),
    {
        let ghost lv = opt_views(live@);
        let ghost cfgs0 = self.configs@;
        let ghost repo0 = entries_view_from(repo@, 0);
        let is_local = match &self.dotconfigs_path {
            DotconfigPath::Local(_) => true,
            DotconfigPath::Github(_) => false,
        };
        let n = self.configs.len();
        let mut i: usize = 0;
        while i < n
            invariant
                n == cfgs0.len(),
                lv.len() == n,
                lv == opt_views(live@),
                live@.len() == n,
                self.configs@.len() == n,
                self.dotconfigs_path == old(self).dotconfigs_path,
                is_local == (old(self).dotconfigs_path matches DotconfigPath::Local(_)),
                0 <= i <= n,
                first_symlink_from(lv, 0) == first_symlink_from(lv, i as int),
                forall|k: int|
                    0 <= k < i ==> pulled_config(
                        cfgs0[k],
                        #[trigger] self.configs@[k],
                        lv[k],
                        hash_names,
                    ),
                forall|k: int| i <= k < n ==> #[trigger] self.configs@[k] == cfgs0[k],
                entries_view_from(repo@, 0) == (if is_local {
                    pulled_repo_upto(cfgs0, lv, repo0, hash_names, 0, i as int)
                } else {
                    repo0
                }),
            decreases n - i,
        {
            let live_i: Option<&FsNode> = live[i].as_ref();
            proof {
                assert(lv[i as int] == (match live@[i as int] {
                    Option::<FsNode>::None => None::<Tree>,
                    Some(m) => Some(node_view(m)),
                }));
            }
            match live_i {
                None => {
                    proof {
                        lemma_pulled_repo_snoc(cfgs0, lv, repo0, hash_names, 0, i as int);
                    }
                },
                Some(node) => {
                    match node {
                        FsNode::Symlink => {
                            proof {
                                assert(first_symlink_from(lv, i as int) == i as int);
                            }
                            return Err(SyncError::InvalidKind);
                        },
                        _ => {
                            let digest_str = match self.configs[i].metadata_digest(
                                Some(node),
                                hash_names,
                            ) {
                                Ok(s) => s,
                                Err(e) => {
                                    return Err(e);
                                },
                            };
                            let needs = self.configs[i].check_update_metadata_required(
                                &digest_str,
                            );
                            if needs {
                                let mut c = self.configs.remove(i);
                                match c.update_metadata(Some(node), hash_names) {
                                    Ok(_) => {},
                                    Err(e) => {
                                        self.configs.insert(i, c);
                                        return Err(e);
                                    },
                                }
                                self.configs.insert(i, c);
                                if is_local {
                                    let name_bytes = copy_bytes(
                                        self.configs[i].name.as_str().as_bytes(),
                                    );
                                    let m = mirror_node(node);
                                    dir_set_entry(repo, name_bytes, m);
                                }
                                proof {
                                    lemma_pulled_repo_snoc(cfgs0, lv, repo0, hash_names, 0, i as int);
                                    assert(pull_copies(cfgs0[i as int], lv[i as int], hash_names));
                                    assert(pulled_config(
                                        cfgs0[i as int],
                                        self.configs@[i as int],
                                        lv[i as int],
                                        hash_names,
                                    ));
                                }
                            } else {
                                proof {
                                    lemma_pulled_repo_snoc(cfgs0, lv, repo0, hash_names, 0, i as int);
                                    assert(!pull_copies(cfgs0[i as int], lv[i as int], hash_names));
                                    assert(pulled_config(
                                        cfgs0[i as int],
                                        self.configs@[i as int],
                                        lv[i as int],
                                        hash_names,
                                    ));
                                }
                            }
                        },
                    }
                },
            }
            i = i + 1;
        }
        Ok(())
    }

    /// Push updatable items back to their live destinations.
    ///
    /// For each item, in order: the repository counterpart is looked up
    /// under the item's name, then under the final component of its path;
    /// without one the item is skipped.  An item whose live digest equals
    /// the repository's is up to date and skipped.  Otherwise the live
    /// subtree is replaced by the mirrored repository counterpart, under the
    /// file-vs-directory dispatch of the cached kind (falling back to the
    /// live kind).  Fail-fast, as `push_step` spells out per item.  With a
    /// remote central directory nothing happens.
    #[verifier::loop_isolation(false)]
    pub fn push_updated_configs(
        &self,
        live: &mut Vec<Option<FsNode>>,
        repo: &Vec<Entry>,
        hash_names: bool,
    ) -> (r: Result<(), SyncError>)
        requires
            old(live)@.len() == self.configs@.len(),
        ensures
            final(live)@.len() == old(live)@.len(),
            !(self.dotconfigs_path matches DotconfigPath::Local(_)) ==> final(live)@ == old(
                live,
            )@ && r is Ok,
            (self.dotconfigs_path matches DotconfigPath::Local(_)) ==> ({
                let lv0 = opt_views(old(live)@);
                let rv = entries_view_from(repo@, 0);
                let n = self.configs@.len() as int;
                let b = first_push_error_from(self.configs@, rv, lv0, hash_names, 0);
                &&& (b >= n ==> r is Ok)
                &&& (b < n ==> r == Err::<(), SyncError>(
                    step_err(push_step(self.configs@[b], rv, lv0[b], hash_names)),
                ))
                &&& (forall|i: int|
                    0 <= i < n && i < b ==> push_step(self.configs@[i], rv, lv0[i], hash_names)
                        == Ok::<Option<Tree>, SyncError>(opt_views(final(live)@)[i]))
                &&& (forall|i: int|
                    0 <= i < n && b <= i ==> #[trigger] final(live)@[i] == old(live)@[i])
            }),
    {
        let ghost lv0 = opt_views(live@);
        let ghost rv = entries_view_from(repo@, 0);
        let is_local = match &self.dotconfigs_path {
            DotconfigPath::Local(_) => true,
            DotconfigPath::Github(_) => false,
        };
        if !is_local {
            return Ok(());
        }
        let n = self.configs.len();
        let mut i: usize = 0;
        while i < n
            invariant
                live@.len() == n,
                n == self.configs@.len(),
                0 <= i <= n,
                lv0 == opt_views(old(live)@),
                rv == entries_view_from(repo@, 0),
                first_push_error_from(self.configs@, rv, lv0, hash_names, 0)
                    == first_push_error_from(self.configs@, rv, lv0, hash_names, i as int),
                forall|k: int|
                    0 <= k < i ==> push_step(self.configs@[k], rv, lv0[k], hash_names) == Ok::<
                        Option<Tree>,
                        SyncError,
                    >(opt_views(live@)[k]),
                forall|k: int| i <= k < n ==> #[trigger] live@[k] == old(live)@[k],
            decreases n - i,
        {
            let c = &self.configs[i];
            proof {
                assert(live@[i as int] == old(live)@[i as int]);
                assert(lv0[i as int] == (match live@[i as int] {
                    Option::<FsNode>::None => None::<Tree>,
                    Some(m) => Some(node_view(m)),
                }));
            }
            match find_repo_source(repo, c) {
                None => {
                    assert(push_step(self.configs@[i as int], rv, lv0[i as int], hash_names)
                        == Ok::<Option<Tree>, SyncError>(lv0[i as int]));
                },
                Some(rt) => {
                    let rt_is_symlink = match rt {
                        FsNode::Symlink => true,
                        _ => false,
                    };
                    if rt_is_symlink {
                        assert(push_step(self.configs@[i as int], rv, lv0[i as int], hash_names)
                            == Ok::<Option<Tree>, SyncError>(lv0[i as int]));
                    } else {
                        let live_digest: String = match live[i].as_ref() {
                            None => String::new(),
                            Some(ln) => match ln {
                                FsNode::Symlink => {
                                    proof {
                                        assert(push_step(
                                            self.configs@[i as int],
                                            rv,
                                            lv0[i as int],
                                            hash_names,
                                        ) is Err);
                                        assert(first_push_error_from(
                                            self.configs@,
                                            rv,
                                            lv0,
                                            hash_names,
                                            i as int,
                                        ) == i as int);
                                    }
                                    return Err(SyncError::InvalidKind);
                                },
                                _ => {
                                    let d = hash_node(ln, hash_names);
                                    to_hex_string(d.as_slice())
                                },
                            },
                        };
                        let rd = hash_node(rt, hash_names);
                        let repo_digest = to_hex_string(rd.as_slice());
                        proof {
                            assert(live_digest@ == live_digest_chars(lv0[i as int], hash_names));
                        }
                        if repo_digest.eq(&live_digest) {
                            assert(push_step(self.configs@[i as int], rv, lv0[i as int], hash_names)
                                == Ok::<Option<Tree>, SyncError>(lv0[i as int]));
                        } else {
                            let k: Option<ConfType> = match &c.conf_type {
                                Some(kk) => Some(*kk),
                                None => match live[i].as_ref() {
                                    Some(FsNode::File { .. }) => Some(ConfType::File),
                                    Some(FsNode::Dir { .. }) => Some(ConfType::Dir),
                                    _ => None,
                                },
                            };
                            proof {
                                assert(k == dispatch_kind(
                                    self.configs@[i as int].conf_type,
                                    lv0[i as int],
                                ));
                            }
                            match k {
                                None => {
                                    proof {
                                        assert(first_push_error_from(
                                            self.configs@,
                                            rv,
                                            lv0,
                                            hash_names,
                                            i as int,
                                        ) == i as int);
                                    }
                                    return Err(SyncError::InvalidKind);
                                },
                                Some(kk) => {
                                    let kinds_agree = match (kk, rt) {
                                        (ConfType::File, FsNode::File { .. }) => true,
                                        (ConfType::Dir, FsNode::Dir { .. }) => true,
                                        _ => false,
                                    };
                                    if kinds_agree {
                                        let new_node = mirror_node(rt);
                                        live.remove(i);
                                        live.insert(i, Some(new_node));
                                        proof {
                                            assert(opt_views(live@)[i as int] == Some(
                                                mirrored(rt@),
                                            ));
                                            assert(push_step(
                                                self.configs@[i as int],
                                                rv,
                                                lv0[i as int],
                                                hash_names,
                                            ) == Ok::<Option<Tree>, SyncError>(
                                                opt_views(live@)[i as int],
                                            ));
                                        }
                                    } else {
                                        proof {
                                            assert(first_push_error_from(
                                                self.configs@,
                                                rv,
                                                lv0,
                                                hash_names,
                                                i as int,
                                            ) == i as int);
                                        }
                                        return Err(SyncError::IoError);
                                    }
                                },
                            }
                        }
                    }
                },
            }
            i = i + 1;
        }
        Ok(())
    }

    /// Forcefully pull every item into the repository, without metadata
    /// checks or updates.
    ///
    /// An item is copied iff its live subtree exists and agrees with its
    /// cached kind; an item without a cached kind, or without a live
    /// subtree, is skipped; a live subtree that contradicts the cached kind
    /// fails the batch with `IoError`.  With a remote central directory
    /// nothing happens.
    #[verifier::loop_isolation(false)]
    pub fn force_pull_configs(&self, live: &Vec<Option<FsNode>>, repo: &mut Vec<Entry>) -> (r:
        Result<(), SyncError>)
        requires
            live@.len() == self.configs@.len(),
        ensures
            !(self.dotconfigs_path matches DotconfigPath::Local(_)) ==> final(repo)@ == old(
                repo,
            )@ && r is Ok,
            (self.dotconfigs_path matches DotconfigPath::Local(_)) ==> ({
                let lv = opt_views(live@);
                let n = self.configs@.len() as int;
                let b = first_force_pull_error_from(self.configs@, lv, 0);
                let stop = if b < n {
                    b
                } else {
                    n
                };
                &&& (b >= n ==> r is Ok)
                &&& (b < n ==> r == Err::<(), SyncError>(SyncError::IoError))
                &&& entries_view_from(final(repo)@, 0) == force_pulled_repo_upto(
                    self.configs@,
                    lv,
                    entries_view_from(old(repo)@, 0),
                    0,
                    stop,
                )
            }),
    {
        let ghost lv = opt_views(live@);
        let ghost repo0 = entries_view_from(repo@, 0);
        let is_local = match &self.dotconfigs_path {
            DotconfigPath::Local(_) => true,
            DotconfigPath::Github(_) => false,
        };
        if !is_local {
            return Ok(());
        }
        let n = self.configs.len();
        let mut i: usize = 0;
        while i < n
            invariant
                live@.len() == n,
                n == self.configs@.len(),
                0 <= i <= n,
                lv == opt_views(live@),
                first_force_pull_error_from(self.configs@, lv, 0) == first_force_pull_error_from(
                    self.configs@,
                    lv,
                    i as int,
                ),
                entries_view_from(repo@, 0) == force_pulled_repo_upto(
                    self.configs@,
                    lv,
                    repo0,
                    0,
                    i as int,
                ),
            decreases n - i,
        {
            let c = &self.configs[i];
            proof {
                assert(lv[i as int] == (match live@[i as int] {
                    Option::<FsNode>::None => None::<Tree>,
                    Some(m) => Some(node_view(m)),
                }));
            }
            match live[i].as_ref() {
                None => {
                    proof {
                        lemma_force_pulled_repo_snoc(self.configs@, lv, repo0, 0, i as int);
                    }
                },
                Some(node) => {
                    match &c.conf_type {
                        None => {
                            proof {
                                lemma_force_pulled_repo_snoc(self.configs@, lv, repo0, 0, i as int);
                            }
                        },
                        Some(kk) => {
                            let kinds_agree = match (kk, node) {
                                (ConfType::File, FsNode::File { .. }) => true,
                                (ConfType::Dir, FsNode::Dir { .. }) => true,
                                _ => false,
                            };
                            if kinds_agree {
                                let name_bytes = copy_bytes(c.name.as_str().as_bytes());
                                let m = mirror_node(node);
                                dir_set_entry(repo, name_bytes, m);
                                proof {
                                    lemma_force_pulled_repo_snoc(
                                        self.configs@,
                                        lv,
                                        repo0,
                                        0,
                                        i as int,
                                    );
                                    assert(force_pull_copies(self.configs@[i as int], lv[i as int]));
                                }
                            } else {
                                proof {
                                    assert(force_pull_fails(self.configs@[i as int], lv[i as int]));
                                    assert(first_force_pull_error_from(self.configs@, lv, i as int)
                                        == i as int);
                                }
                                return Err(SyncError::IoError);
                            }
                        },
                    }
                },
            }
            i = i + 1;
        }
        Ok(())
    }

    /// Forcefully push every item from the repository to its live
    /// destination, without digest comparisons.
    ///
    /// As a push, except that every item must have a repository counterpart
    /// (`NotFound` otherwise) and up-to-date items are not skipped.
    /// Fail-fast, as `force_push_step` spells out per item.  With a remote
    /// central directory nothing happens.
    #[verifier::loop_isolation(false)]
    pub fn force_push_configs(&self, live: &mut Vec<Option<FsNode>>, repo: &Vec<Entry>) -> (r:
        Result<(), SyncError>)
        requires
            old(live)@.len() == self.configs@.len(),
        ensures
            final(live)@.len() == old(live)@.len(),
            !(self.dotconfigs_path matches DotconfigPath::Local(_)) ==> final(live)@ == old(
                live,
            )@ && r is Ok,
            (self.dotconfigs_path matches DotconfigPath::Local(_)) ==> ({
                let lv0 = opt_views(old(live)@);
                let rv = entries_view_from(repo@, 0);
                let n = self.configs@.len() as int;
                let b = first_force_push_error_from(self.configs@, rv, lv0, 0);
                &&& (b >= n ==> r is Ok)
                &&& (b < n ==> r == Err::<(), SyncError>(
                    step_err(force_push_step(self.configs@[b], rv, lv0[b])),
                ))
                &&& (forall|i: int|
                    0 <= i < n && i < b ==> force_push_step(self.configs@[i], rv, lv0[i]) == Ok::<
                        Option<Tree>,
                        SyncError,
                    >(opt_views(final(live)@)[i]))
                &&& (forall|i: int|
                    0 <= i < n && b <= i ==> #[trigger] final(live)@[i] == old(live)@[i])
            }),
    {
        let ghost lv0 = opt_views(live@);
        let ghost rv = entries_view_from(repo@, 0);
        let is_local = match &self.dotconfigs_path {
            DotconfigPath::Local(_) => true,
            DotconfigPath::Github(_) => false,
        };
        if !is_local {
            return Ok(());
        }
        let n = self.configs.len();
        let mut i: usize = 0;
        while i < n
            invariant
                live@.len() == n,
                n == self.configs@.len(),
                0 <= i <= n,
                lv0 == opt_views(old(live)@),
                rv == entries_view_from(repo@, 0),
                first_force_push_error_from(self.configs@, rv, lv0, 0)
                    == first_force_push_error_from(self.configs@, rv, lv0, i as int),
                forall|k: int|
                    0 <= k < i ==> force_push_step(self.configs@[k], rv, lv0[k]) == Ok::<
                        Option<Tree>,
                        SyncError,
                    >(opt_views(live@)[k]),
                forall|k: int| i <= k < n ==> #[trigger] live@[k] == old(live)@[k],
            decreases n - i,
        {
            let c = &self.configs[i];
            proof {
                assert(live@[i as int] == old(live)@[i as int]);
                assert(lv0[i as int] == (match live@[i as int] {
                    Option::<FsNode>::None => None::<Tree>,
                    Some(m) => Some(node_view(m)),
                }));
            }
            match find_repo_source(repo, c) {
                None => {
                    proof {
                        assert(first_force_push_error_from(self.configs@, rv, lv0, i as int)
                            == i as int);
                    }
                    return Err(SyncError::NotFound);
                },
                Some(rt) => {
                    let k: Option<ConfType> = match &c.conf_type {
                        Some(kk) => Some(*kk),
                        None => match live[i].as_ref() {
                            Some(FsNode::File { .. }) => Some(ConfType::File),
                            Some(FsNode::Dir { .. }) => Some(ConfType::Dir),
                            _ => None,
                        },
                    };
                    proof {
                        assert(k == dispatch_kind(self.configs@[i as int].conf_type, lv0[i as int]));
                    }
                    match k {
                        None => {
                            proof {
                                assert(first_force_push_error_from(self.configs@, rv, lv0, i as int)
                                    == i as int);
                            }
                            return Err(SyncError::InvalidKind);
                        },
                        Some(kk) => {
                            let kinds_agree = match (kk, rt) {
                                (ConfType::File, FsNode::File { .. }) => true,
                                (ConfType::Dir, FsNode::Dir { .. }) => true,
                                _ => false,
                            };
                            if kinds_agree {
                                let new_node = mirror_node(rt);
                                live.remove(i);
                                live.insert(i, Some(new_node));
                                proof {
                                    assert(opt_views(live@)[i as int] == Some(mirrored(rt@)));
                                    assert(force_push_step(self.configs@[i as int], rv, lv0[i as int])
                                        == Ok::<Option<Tree>, SyncError>(opt_views(live@)[i as int]));
                                }
                            } else {
                                proof {
                                    assert(first_force_push_error_from(
                                        self.configs@,
                                        rv,
                                        lv0,
                                        i as int,
                                    ) == i as int);
                                }
                                return Err(SyncError::IoError);
                            }
                        },
                    }
                },
            }
            i = i + 1;
        }
        Ok(())
    }

    /// Clean all entries out of the dotconfig directory, keeping only the
    /// version-control metadata folder.
    pub fn clean_dotconfigs_dir(&self, repo: &mut Vec<Entry>) -> (r: Result<(), SyncError>)
        ensures
            r is Ok,
            entries_view_from(final(repo)@, 0) == kept_metadata_from(
                entries_view_from(old(repo)@, 0),
                0,
            ),
    {
        let ghost orig = repo@;
        let ghost ov = entries_view_from(orig, 0);
        proof {
            lemma_entries_view_from(orig, 0);
        }
        let excl: [u8; 4] = [46u8, 103u8, 105u8, 116u8];
        let mut kept: Vec<Entry> = Vec::new();
        let ghost j: int = 0;
        while repo.len() > 0
            invariant
                0 <= j <= orig.len(),
                ov == entries_view_from(orig, 0),
                ov.len() == orig.len(),
                forall|k: int| 0 <= k < orig.len() ==> ov[k] == orig[k]@,
                excl@ == excluded_name(),
                repo@ == orig.subrange(j, orig.len() as int),
                kept_metadata_from(ov, 0) == entries_view_from(kept@, 0) + kept_metadata_from(
                    ov,
                    j,
                ),
            decreases repo@.len(),
        {
            let e = repo.remove(0);
            proof {
                assert(e == orig[j]);
                assert(repo@ =~= orig.subrange(j + 1, orig.len() as int));
            }
            if bytes_eq(e.name.as_slice(), excl.as_slice()) {
                let ghost prev = kept@;
                kept.push(e);
                proof {
                    crate::tree::lemma_entries_view_append(prev, e);
                    assert(entries_view_from(kept@, 0) =~= entries_view_from(prev, 0).push(e@));
                    assert(kept_metadata_from(ov, 0) =~= entries_view_from(kept@, 0)
                        + kept_metadata_from(ov, j + 1));
                }
            } else {
                proof {
                    assert(kept_metadata_from(ov, j) == kept_metadata_from(ov, j + 1));
                }
            }
            proof {
                j = j + 1;
            }
        }
        proof {
            assert(kept_metadata_from(ov, j) =~= Seq::empty());
            assert(entries_view_from(kept@, 0) =~= kept_metadata_from(ov, 0));
        }
        *repo = kept;
        Ok(())
    }
}

/// Whether pulling one item writes it into the repository: yes iff its live
/// path exists, is a file or directory, and its metadata is out of date.
pub open spec fn pull_copies(c: Config, l: Option<Tree>, mix: bool) -> bool {
    match l {
        None => false,
        Some(t) => !(t is Symlink) && needs_update(c, hex_of(content_hash(t, mix))),
    }
}

/// The repository entries after pulling the items in positions `i` up to
/// (excluding) `n`, in order: each pulled item is stored under its name as
/// the mirrored image of its live subtree.
pub open spec fn pulled_repo_upto(
    configs: Seq<Config>,
    live: Seq<Option<Tree>>,
    repo: Seq<TreeEntry>,
    mix: bool,
    i: int,
    n: int,
) -> Seq<TreeEntry>
    decreases n - i,
{
    if i < 0 || i >= n || i >= configs.len() || i >= live.len() {
        repo
    } else {
        let repo1 = if pull_copies(configs[i], live[i], mix) {
            match live[i] {
                Some(t) => set_entry(repo, encode_utf8(configs[i].name@), mirrored(t)),
                None => repo,
            }
        } else {
            repo
        };
        pulled_repo_upto(configs, live, repo1, mix, i + 1, n)
    }
}

pub proof fn lemma_pulled_repo_snoc(
    configs: Seq<Config>,
    live: Seq<Option<Tree>>,
    repo: Seq<TreeEntry>,
    mix: bool,
    i: int,
    n: int,
)
    requires
        0 <= i <= n,
        n < configs.len(),
        n < live.len(),
    ensures
        pulled_repo_upto(configs, live, repo, mix, i, n + 1) == ({
            let pr = pulled_repo_upto(configs, live, repo, mix, i, n);
            if pull_copies(configs[n], live[n], mix) {
                match live[n] {
                    Some(t) => set_entry(pr, encode_utf8(configs[n].name@), mirrored(t)),
                    None => pr,
                }
            } else {
                pr
            }
        }),
    decreases n - i,
{
    let repo1 = if pull_copies(configs[i], live[i], mix) {
        match live[i] {
            Some(t) => set_entry(repo, encode_utf8(configs[i].name@), mirrored(t)),
            None => repo,
        }
    } else {
        repo
    };
    if i < n {
        lemma_pulled_repo_snoc(configs, live, repo1, mix, i + 1, n);
    } else {
        assert(pulled_repo_upto(configs, live, repo, mix, n, n) == repo);
        assert(pulled_repo_upto(configs, live, repo1, mix, n + 1, n + 1) == repo1);
    }
}

/// The first position whose live subtree is a symbolic link (the length when
/// there is none): digesting stops there.
pub open spec fn first_symlink_from(live: Seq<Option<Tree>>, i: int) -> int
    decreases live.len() - i,
{
    if i < 0 || i >= live.len() {
        live.len() as int
    } else {
        match live[i] {
            Some(t) => if t is Symlink {
                i
            } else {
                first_symlink_from(live, i + 1)
            },
            None => first_symlink_from(live, i + 1),
        }
    }
}

/// How one processed item's record relates to its old self after a pull: an
/// absent live path or an up-to-date record is untouched; otherwise the
/// cached digest and kind are refreshed from the live subtree.
pub open spec fn pulled_config(oldc: Config, newc: Config, l: Option<Tree>, mix: bool) -> bool {
    match l {
        None => newc == oldc,
        Some(t) => if t is Symlink {
            newc == oldc
        } else if !needs_update(oldc, hex_of(content_hash(t, mix))) {
            newc == oldc
        } else {
            newc.name == oldc.name && newc.path == oldc.path && (newc.hash matches Some(h) && h@
                == hex_of(content_hash(t, mix))) && newc.conf_type == refreshed_kind(
                oldc.conf_type,
                Some(t),
            )
        },
    }
}

/// Finds the repository subtree an item is pushed from, as `repo_source`.
fn find_repo_source<'a>(repo: &'a Vec<Entry>, c: &Config) -> (r: Option<&'a FsNode>)
    ensures
        match repo_source(entries_view_from(repo@, 0), *c) {
            None => r is None,
            Some(t) => r matches Some(n) && n@ == t,
        },
{
    match dir_find(repo, c.name.as_str().as_bytes()) {
        Some(n) => Some(n),
        None => {
            let bn = basename(c.path.as_str().as_bytes());
            dir_find(repo, bn.as_slice())
        },
    }
}

/// Whether a cached (or live-derived) kind agrees with a subtree's kind.
pub open spec fn kind_matches(k: ConfType, t: Tree) -> bool {
    match k {
        ConfType::File => t is File,
        ConfType::Dir => t is Dir,
    }
}

/// The kind a copy is dispatched on: the cached kind when present, else the
/// live subtree's kind.
pub open spec fn dispatch_kind(ct: Option<ConfType>, l: Option<Tree>) -> Option<ConfType> {
    match ct {
        Some(k) => Some(k),
        None => match l {
            Some(t) => if t is File {
                Some(ConfType::File)
            } else if t is Dir {
                Some(ConfType::Dir)
            } else {
                None
            },
            None => None,
        },
    }
}

/// The repository subtree an item is pushed from: the entry under the item's
/// name, or failing that under the final component of the item's path.
pub open spec fn repo_source(repo: Seq<TreeEntry>, c: Config) -> Option<Tree> {
    match lookup(repo, encode_utf8(c.name@)) {
        Some(t) => Some(t),
        None => lookup(repo, basename_bytes(encode_utf8(c.path@))),
    }
}

/// The outcome of pushing one item: `Ok` with its new live subtree, or the
/// error that stops the batch.  Without a repository counterpart, or with
/// one whose kind cannot be read, the item is skipped; so is an item whose
/// live digest already matches the repository's.  A live symbolic link is
/// `InvalidKind`; so is an item with neither a cached kind nor a live
/// subtree to take one from; a kind that contradicts the repository
/// counterpart fails the copy with `IoError`.
pub open spec fn push_step(c: Config, repo: Seq<TreeEntry>, l: Option<Tree>, mix: bool) -> Result<
    Option<Tree>,
    SyncError,
> {
    match repo_source(repo, c) {
        None => Ok(l),
        Some(rt) => if rt is Symlink {
            Ok(l)
        } else if (l matches Some(t) && t is Symlink) {
            Err(SyncError::InvalidKind)
        } else if hex_of(content_hash(rt, mix)) == live_digest_chars(l, mix) {
            Ok(l)
        } else {
            match dispatch_kind(c.conf_type, l) {
                None => Err(SyncError::InvalidKind),
                Some(k) => if kind_matches(k, rt) {
                    Ok(Some(mirrored(rt)))
                } else {
                    Err(SyncError::IoError)
                },
            }
        },
    }
}

/// The first position whose push fails (the length when none does).
pub open spec fn first_push_error_from(
    configs: Seq<Config>,
    repo: Seq<TreeEntry>,
    live: Seq<Option<Tree>>,
    mix: bool,
    i: int,
) -> int
    decreases configs.len() - i,
{
    if i < 0 || i >= configs.len() || i >= live.len() {
        configs.len() as int
    } else if push_step(configs[i], repo, live[i], mix) is Err {
        i
    } else {
        first_push_error_from(configs, repo, live, mix, i + 1)
    }
}

/// The error of a failed step (`IoError` as a stand-in on an `Ok`, which the
/// contracts never reach).
pub open spec fn step_err<T>(r: Result<T, SyncError>) -> SyncError {
    match r {
        Err(e) => e,
        Ok(_) => SyncError::IoError,
    }
}

/// The outcome of force-pushing one item: as a push, but without the digest
/// comparison, and a missing repository counterpart is an error.
pub open spec fn force_push_step(c: Config, repo: Seq<TreeEntry>, l: Option<Tree>) -> Result<
    Option<Tree>,
    SyncError,
> {
    match repo_source(repo, c) {
        None => Err(SyncError::NotFound),
        Some(rt) => match dispatch_kind(c.conf_type, l) {
            None => Err(SyncError::InvalidKind),
            Some(k) => if kind_matches(k, rt) {
                Ok(Some(mirrored(rt)))
            } else {
                Err(SyncError::IoError)
            },
        },
    }
}

/// The first position whose force-push fails (the length when none does).
pub open spec fn first_force_push_error_from(
    configs: Seq<Config>,
    repo: Seq<TreeEntry>,
    live: Seq<Option<Tree>>,
    i: int,
) -> int
    decreases configs.len() - i,
{
    if i < 0 || i >= configs.len() || i >= live.len() {
        configs.len() as int
    } else if force_push_step(configs[i], repo, live[i]) is Err {
        i
    } else {
        first_force_push_error_from(configs, repo, live, i + 1)
    }
}

/// Whether force-pulling one item writes it into the repository: yes iff a
/// live subtree exists and agrees with the item's cached kind.
pub open spec fn force_pull_copies(c: Config, l: Option<Tree>) -> bool {
    match l {
        None => false,
        Some(t) => match c.conf_type {
            None => false,
            Some(k) => kind_matches(k, t),
        },
    }
}

/// Whether force-pulling one item fails: yes iff a live subtree exists but
/// contradicts the item's cached kind.
pub open spec fn force_pull_fails(c: Config, l: Option<Tree>) -> bool {
    match l {
        None => false,
        Some(t) => match c.conf_type {
            None => false,
            Some(k) => !kind_matches(k, t),
        },
    }
}

/// The repository entries after force-pulling the items in positions `i` up
/// to (excluding) `n`.
pub open spec fn force_pulled_repo_upto(
    configs: Seq<Config>,
    live: Seq<Option<Tree>>,
    repo: Seq<TreeEntry>,
    i: int,
    n: int,
) -> Seq<TreeEntry>
    decreases n - i,
{
    if i < 0 || i >= n || i >= configs.len() || i >= live.len() {
        repo
    } else {
        let repo1 = if force_pull_copies(configs[i], live[i]) {
            match live[i] {
                Some(t) => set_entry(repo, encode_utf8(configs[i].name@), mirrored(t)),
                None => repo,
            }
        } else {
            repo
        };
        force_pulled_repo_upto(configs, live, repo1, i + 1, n)
    }
}

pub proof fn lemma_force_pulled_repo_snoc(
    configs: Seq<Config>,
    live: Seq<Option<Tree>>,
    repo: Seq<TreeEntry>,
    i: int,
    n: int,
)
    requires
        0 <= i <= n,
        n < configs.len(),
        n < live.len(),
    ensures
        force_pulled_repo_upto(configs, live, repo, i, n + 1) == ({
            let pr = force_pulled_repo_upto(configs, live, repo, i, n);
            if force_pull_copies(configs[n], live[n]) {
                match live[n] {
                    Some(t) => set_entry(pr, encode_utf8(configs[n].name@), mirrored(t)),
                    None => pr,
                }
            } else {
                pr
            }
        }),
    decreases n - i,
{
    let repo1 = if force_pull_copies(configs[i], live[i]) {
        match live[i] {
            Some(t) => set_entry(repo, encode_utf8(configs[i].name@), mirrored(t)),
            None => repo,
        }
    } else {
        repo
    };
    if i < n {
        lemma_force_pulled_repo_snoc(configs, live, repo1, i + 1, n);
    } else {
        assert(force_pulled_repo_upto(configs, live, repo, n, n) == repo);
        assert(force_pulled_repo_upto(configs, live, repo1, n + 1, n + 1) == repo1);
    }
}

/// The first position whose force-pull fails (the length when none does).
pub open spec fn first_force_pull_error_from(
    configs: Seq<Config>,
    live: Seq<Option<Tree>>,
    i: int,
) -> int
    decreases configs.len() - i,
{
    if i < 0 || i >= configs.len() || i >= live.len() {
        configs.len() as int
    } else if force_pull_fails(configs[i], live[i]) {
        i
    } else {
        first_force_pull_error_from(configs, live, i + 1)
    }
}

/// The entries a repository clean keeps, from position `i` on: exactly those
/// named after the version-control metadata folder.
pub open spec fn kept_metadata_from(s: Seq<TreeEntry>, i: int) -> Seq<TreeEntry>
    decreases s.len() - i,
{
    if i < 0 || i >= s.len() {
        Seq::empty()
    } else if s[i].name == excluded_name() {
        seq![s[i]] + kept_metadata_from(s, i + 1)
    } else {
        kept_metadata_from(s, i + 1)
    }
}

} // verus!
