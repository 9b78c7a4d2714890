use vstd::prelude::*;

use crate::hash::{content_hash, hash_node, hex_of, to_hex_string};
use crate::mirror::SyncError;
use crate::tree::{FsNode, Tree};

verus! {

/// Enum representing the type of a configuration, which can be either a
/// file or a directory.
#[derive(Debug, Clone, Copy, PartialEq, Eq, Structural)]
pub enum ConfType {
    /// Configuration is a file.
    File,
    /// Configuration is a directory.
    Dir,
}

impl ConfType {
    /// Check if the config is a file.
    pub fn is_file(&self) -> (r: bool)
        ensures
            r == (*self == ConfType::File),
    {
        match self {
            ConfType::File => true,
            ConfType::Dir => false,
        }
    }

    /// Check if the config is a directory.
    pub fn is_dir(&self) -> (r: bool)
        ensures
            r == (*self == ConfType::Dir),
    {
        match self {
            ConfType::File => false,
            ConfType::Dir => true,
        }
    }
}

/// Config struct for storing config metadata and syncing configs.
///
/// A `Config` names one tracked item: its name inside the central repository,
/// the (already normalized) path of the live copy, and the cached
/// change-detection metadata: the hexadecimal digest recorded at the last
/// sync and the item's kind.  The engines never touch the disk themselves:
/// each method that needs the live state takes it as an optional in-memory
/// subtree (`None` when the path does not exist), together with the
/// engine-wide name-mixing flag of the digest engine.
#[derive(Debug)]
pub struct Config {
    /// Name of the config (e.g., "vimrc")
    pub name: String,
    /// Path to the config (e.g., "${HOME}/.vimrc")
    pub path: String,
    /// Hash of the config
    /// (used to check if the config has changed since the last sync)
    pub hash: Option<String>,
    /// Config type (file or directory)
    pub conf_type: Option<ConfType>,
}

/// The tree of an optional live subtree.
pub open spec fn live_view(live: Option<&FsNode>) -> Option<Tree> {
    match live {
        None => None,
        Some(n) => Some(n@),
    }
}

/// What digesting an optional live subtree yields: an absent path digests to
/// the empty string (a valid "nothing to hash" state, not an error); a
/// symbolic link is no valid item kind; a file or directory digests to the
/// hexadecimal content hash.
pub open spec fn digest_result(live: Option<Tree>, mix: bool) -> Result<Seq<char>, SyncError> {
    match live {
        None => Ok(Seq::empty()),
        Some(t) => if t is Symlink {
            Err(SyncError::InvalidKind)
        } else {
            Ok(hex_of(content_hash(t, mix)))
        },
    }
}

/// Whether a freshly computed digest obliges a metadata refresh: yes when no
/// digest was ever recorded, when the recorded digest differs from the fresh
/// one, or when the kind was never recorded.
pub open spec fn needs_update(c: Config, fresh_digest: Seq<char>) -> bool {
    match c.hash {
        None => true,
        Some(h) => h@ != fresh_digest || c.conf_type is None,
    }
}

/// The kind cached after a metadata refresh: an already-recorded kind is
/// kept; otherwise the live subtree decides.
pub open spec fn refreshed_kind(old_kind: Option<ConfType>, live: Option<Tree>) -> Option<
    ConfType,
> {
    if old_kind is Some {
        old_kind
    } else {
        match live {
            None => None,
            Some(t) => if t is File {
                Some(ConfType::File)
            } else if t is Dir {
                Some(ConfType::Dir)
            } else {
                None
            },
        }
    }
}

impl Default for Config {
    /// The template item of a fresh dotconfig file.
    fn default() -> (r: Self)
        ensures
            r.name@ == "placeholder"@,
            r.path@ == "~/placeholder"@,
            r.hash is None,
            r.conf_type is None,
    {
        Config {
            name: "placeholder".to_owned(),
            path: "~/placeholder".to_owned(),
            hash: None,
            conf_type: None,
        }
    }
}

impl Config {
    /// Create a new `Config` instance with the specified attributes.
    pub fn new(name: String, path: String, hash: Option<String>, conf_type: Option<ConfType>) -> (r:
        Self)
        ensures
            r.name == name,
            r.path == path,
            r.hash == hash,
            r.conf_type == conf_type,
    {
        Self { name, path, hash, conf_type }
    }

    /// Check if the config path exists, i.e. whether the caller found a live
    /// subtree at `self.path` to hand over.
    pub fn path_exists(&self, live: Option<&FsNode>) -> (r: bool)
        ensures
            r == (live is Some),
    {
        match live {
            Some(_) => true,
            None => false,
        }
    }

    /// Calculate the digest of the live state of this item.
    ///
    /// An absent live path is not an error: it yields the empty digest.  A
    /// live path that is neither a regular file nor a directory is
    /// `InvalidKind`.
    pub fn metadata_digest(&self, live: Option<&FsNode>, hash_names: bool) -> (r: Result<
        String,
        SyncError,
    >)
        ensures
            match digest_result(live_view(live), hash_names) {
                Ok(cs) => r matches Ok(s) && s@ == cs,
                Err(e) => r == Err::<String, SyncError>(e),
            },
    {
        match live {
            None => Ok(String::new()),
            Some(n) => match n {
                FsNode::Symlink => Err(SyncError::InvalidKind),
                _ => {
                    let digest = hash_node(n, hash_names);
                    Ok(to_hex_string(digest.as_slice()))
                },
            },
        }
    }

    /// Check if the configuration needs a metadata update, given the digest
    /// just computed from its live state.  Does not mutate the config.
    pub fn check_update_metadata_required(&self, current_digest: &String) -> (r: bool)
        ensures
            r == needs_update(*self, current_digest@),
    {
        match &self.hash {
            Some(hash) => {
                if !hash.eq(current_digest) {
                    true
                } else {
                    match &self.conf_type {
                        Some(_) => false,
                        None => true,
                    }
                }
            },
            None => true,
        }
    }

    /// Update the cached digest of this item from its live state.
    pub fn update_config_hash(&mut self, live: Option<&FsNode>, hash_names: bool) -> (r: Result<
        (),
        SyncError,
    >)
        ensures
            match digest_result(live_view(live), hash_names) {
                Ok(cs) => r is Ok && (final(self).hash matches Some(h) && h@ == cs)
                    && final(self).name == old(self).name
                    && final(self).path == old(self).path
                    && final(self).conf_type == old(self).conf_type,
                Err(e) => r == Err::<(), SyncError>(e) && *final(self) == *old(self),
            },
    {
        match self.metadata_digest(live, hash_names) {
            Ok(new_hash) => {
                self.hash = Some(new_hash);
                Ok(())
            },
            Err(e) => Err(e),
        }
    }

    /// Update the cached kind of this item from its live state.
    ///
    /// An already-recorded kind is kept; an absent live path changes
    /// nothing; a live path that is neither file nor directory is
    /// `InvalidKind`.
    pub fn update_config_type(&mut self, live: Option<&FsNode>) -> (r: Result<(), SyncError>)
        ensures
            match live_view(live) {
                None => r is Ok && *final(self) == *old(self),
                Some(t) => if old(self).conf_type is Some || !(t is Symlink) {
                    r is Ok
                        && final(self).conf_type == refreshed_kind(old(self).conf_type, live_view(live))
                        && final(self).name == old(self).name
                        && final(self).path == old(self).path
                        && final(self).hash == old(self).hash
                } else {
                    r == Err::<(), SyncError>(SyncError::InvalidKind) && *final(self) == *old(self)
                },
            },
    {
        match live {
            None => Ok(()),
            Some(n) => {
                match &self.conf_type {
                    Some(_) => Ok(()),
                    None => match n {
                        FsNode::File { .. } => {
                            self.conf_type = Some(ConfType::File);
                            Ok(())
                        },
                        FsNode::Dir { .. } => {
                            self.conf_type = Some(ConfType::Dir);
                            Ok(())
                        },
                        FsNode::Symlink => Err(SyncError::InvalidKind),
                    },
                }
            },
        }
    }

    /// Update the metadata of this item: refresh the cached digest, then the
    /// cached kind, from the same live state.
    pub fn update_metadata(&mut self, live: Option<&FsNode>, hash_names: bool) -> (r: Result<
        (),
        SyncError,
    >)
        ensures
            match digest_result(live_view(live), hash_names) {
                Ok(cs) => r is Ok && (final(self).hash matches Some(h) && h@ == cs)
                    && final(self).conf_type == refreshed_kind(old(self).conf_type, live_view(live))
                    && final(self).name == old(self).name
                    && final(self).path == old(self).path,
                Err(e) => r == Err::<(), SyncError>(e) && *final(self) == *old(self),
            },
    {
        match self.update_config_hash(live, hash_names) {
            Ok(_) => self.update_config_type(live),
            Err(e) => Err(e),
        }
    }
}

} // verus!
