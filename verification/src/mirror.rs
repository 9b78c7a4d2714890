use vstd::prelude::*;

use crate::tree::{Entry, FsNode, Tree, TreeEntry, entries_view_from, entry_visible,
    excluded_name, lemma_entries_view_from, lemma_entries_view_append, lemma_lookup_cons_shift,
    lookup, lookup_from, bytes_eq, copy_bytes};
use crate::hash::{content_hash, dir_hashes_from, entry_hash};

verus! {

/// The errors of the two engines.
///
/// `NotFound` marks an absent source; `AlreadyExists` marks idempotent
/// creation; `InvalidKind` marks a path that is neither a regular file nor a
/// directory; `PermissionDenied` and `IoError` carry the remaining
/// operating-system failures, which the binary maps onto this taxonomy.
#[derive(Debug, Clone, Copy, PartialEq, Eq, Structural)]
pub enum SyncError {
    NotFound,
    IoError,
    PermissionDenied,
    AlreadyExists,
    InvalidKind,
}

/// What a subtree looks like after it has been mirrored: the same tree with
/// every excluded entry and every symbolic link dropped, at every level.
///
/// Mirroring is clear-then-copy: the destination's previous contents never
/// appear in this result.
pub open spec fn mirrored(t: Tree) -> Tree
    decreases t, 0nat,
{
    match t {
        Tree::File { data } => Tree::File { data },
        Tree::Symlink => Tree::Symlink,
        Tree::Dir { entries } => Tree::Dir { entries: mirrored_entries_from(entries, 0) },
    }
}

/// The mirrored images of the visible entries from position `i` on.
pub open spec fn mirrored_entries_from(s: Seq<TreeEntry>, i: int) -> Seq<TreeEntry>
    decreases s, s.len() - i + 1,
{
    if i < 0 || i >= s.len() {
        Seq::empty()
    } else if entry_visible(s[i]) {
        seq![TreeEntry { name: s[i].name, tree: mirrored(s[i].tree) }] + mirrored_entries_from(
            s,
            i + 1,
        )
    } else {
        mirrored_entries_from(s, i + 1)
    }
}

/// Recursively copies a subtree, dropping excluded entries and symbolic
/// links.
#[verifier::loop_isolation(false)]
pub fn mirror_node(n: &FsNode) -> (r: FsNode)
    ensures
        r@ == mirrored(n@),
    decreases *n, 1nat,
{
    match n {
        FsNode::File { data } => FsNode::File { data: copy_bytes(data.as_slice()) },
        FsNode::Symlink => FsNode::Symlink,
        FsNode::Dir { entries } => {
            let ghost ev = entries_view_from(entries@, 0);
            proof {
                lemma_entries_view_from(entries@, 0);
            }
            let excl: [u8; 4] = [46u8, 103u8, 105u8, 116u8];
            let mut out: Vec<Entry> = Vec::new();
            let mut i: usize = 0;
            while i < entries.len()
                invariant
                    0 <= i <= entries@.len(),
                    mirrored_entries_from(ev, 0) == entries_view_from(out@, 0)
                        + mirrored_entries_from(ev, i as int),
                decreases entries@.len() - i,
            {
                let entry = &entries[i];
                let is_excluded = bytes_eq(entry.name.as_slice(), excl.as_slice());
                let is_symlink = match &entry.node {
                    FsNode::Symlink => true,
                    _ => false,
                };
                if !is_excluded && !is_symlink {
                    assert(entry_visible(ev[i as int]));
                    proof {
                        assert(decreases_to!(*n => *entries));
                        assert(decreases_to!(*entries => entries@));
                        assert(decreases_to!(entries@ => entries@[i as int]));
                        assert(decreases_to!(entries@[i as int] => entries@[i as int].node));
                        assert(entry.node == entries@[i as int].node);
                        assert(decreases_to!(*n, 1nat => entry.node, 1nat));
                    }
                    let copied = Entry {
                        name: copy_bytes(entry.name.as_slice()),
                        node: mirror_node(&entry.node),
                    };
                    let ghost prev = out@;
                    out.push(copied);
                    proof {
                        lemma_entries_view_append(prev, copied);
                        assert(copied@ == TreeEntry {
                            name: ev[i as int].name,
                            tree: mirrored(ev[i as int].tree),
                        });
                        assert(mirrored_entries_from(ev, 0) =~= entries_view_from(out@, 0)
                            + mirrored_entries_from(ev, i + 1));
                    }
                } else {
                    assert(!entry_visible(ev[i as int]));
                }
                i = i + 1;
            }
            proof {
                assert(mirrored_entries_from(ev, i as int) =~= Seq::empty());
                assert(mirrored_entries_from(ev, 0) =~= entries_view_from(out@, 0));
            }
            FsNode::Dir { entries: out }
        },
    }
}

/// Recursively copy a directory and its contents to another location,
/// clearing whatever the destination held before.
pub fn copy_dir(from: &FsNode, to: &mut FsNode)
    ensures
        final(to)@ == mirrored(from@),
{
    *to = mirror_node(from);
}

/// Make `destination` match `source`.
///
/// The destination's previous contents never survive (clear-then-copy): on
/// success the destination is exactly the mirrored image of the source.  An
/// absent source is `NotFound`; a source that is neither a regular file nor a
/// directory is `InvalidKind`; both leave the destination untouched.
pub fn mirror(source: Option<&FsNode>, destination: &mut FsNode) -> (r: Result<(), SyncError>)
    ensures
        match source {
            None => r == Err::<(), SyncError>(SyncError::NotFound) && *final(destination) == *old(
                destination,
            ),
            Some(s) => if s@ is Symlink {
                r == Err::<(), SyncError>(SyncError::InvalidKind) && *final(destination) == *old(
                    destination,
                )
            } else {
                r == Ok::<(), SyncError>(()) && final(destination)@ == mirrored(s@)
            },
        },
{
    match source {
        None => Err(SyncError::NotFound),
        Some(s) => match s {
            FsNode::Symlink => Err(SyncError::InvalidKind),
            _ => {
                *destination = mirror_node(s);
                Ok(())
            },
        },
    }
}

/// The file-system operations the mirror engine issues on disk.
#[derive(Debug, Clone, Copy, PartialEq, Eq, Structural)]
pub enum FsOp {
    Remove,
    CreateDir,
    CopyFile,
}

/// The outcome classes of one such operation.
#[derive(Debug, Clone, Copy, PartialEq, Eq, Structural)]
pub enum FsErrorKind {
    NotFound,
    PermissionDenied,
    AlreadyExists,
    Other,
}

/// What the caller must do about a failed operation.
#[derive(Debug, Clone, Copy, PartialEq, Eq, Structural)]
pub enum ErrAction {
    /// Escalate privileges, then retry the operation exactly once.
    Escalate,
    /// Ignore the failure and carry on.
    Benign,
    /// Abort the whole mirror operation for this item.
    Fatal,
}

/// The mirror engine's recovery policy, decided per failed operation.
///
/// A permission failure is retried exactly once, after privilege escalation;
/// a second permission failure is fatal.  Creating or copying over something
/// that already exists is idempotent and benign, as is removing something
/// already gone.  Everything else is fatal.
pub fn error_action(op: FsOp, err: FsErrorKind, already_escalated: bool) -> (r: ErrAction)
    ensures
        err == FsErrorKind::PermissionDenied && !already_escalated ==> r == ErrAction::Escalate,
        err == FsErrorKind::PermissionDenied && already_escalated ==> r == ErrAction::Fatal,
        err == FsErrorKind::AlreadyExists ==> r == (if op == FsOp::Remove {
            ErrAction::Fatal
        } else {
            ErrAction::Benign
        }),
        err == FsErrorKind::NotFound ==> r == (if op == FsOp::Remove {
            ErrAction::Benign
        } else {
            ErrAction::Fatal
        }),
        err == FsErrorKind::Other ==> r == ErrAction::Fatal,
{
    match err {
        FsErrorKind::PermissionDenied => if already_escalated {
            ErrAction::Fatal
        } else {
            ErrAction::Escalate
        },
        FsErrorKind::AlreadyExists => match op {
            FsOp::Remove => ErrAction::Fatal,
            _ => ErrAction::Benign,
        },
        FsErrorKind::NotFound => match op {
            FsOp::Remove => ErrAction::Benign,
            _ => ErrAction::Fatal,
        },
        FsErrorKind::Other => ErrAction::Fatal,
    }
}

/// Prepending an entry shifts hash collection by one position.
proof fn lemma_dir_hashes_cons_shift(x: TreeEntry, s: Seq<TreeEntry>, mix: bool, j: int)
    requires
        0 <= j <= s.len(),
    ensures
        dir_hashes_from(seq![x] + s, mix, j + 1) == dir_hashes_from(s, mix, j),
    decreases s.len() - j,
{
    let t = seq![x] + s;
    if j < s.len() {
        assert(t[j + 1] == s[j]);
        lemma_dir_hashes_cons_shift(x, s, mix, j + 1);
        assert(dir_hashes_from(t, mix, j + 1) =~= dir_hashes_from(s, mix, j));
    }
}

/// Prepending an entry shifts mirroring by one position.
proof fn lemma_mirrored_entries_cons_shift(x: TreeEntry, s: Seq<TreeEntry>, j: int)
    requires
        0 <= j <= s.len(),
    ensures
        mirrored_entries_from(seq![x] + s, j + 1) == mirrored_entries_from(s, j),
    decreases s.len() - j,
{
    let t = seq![x] + s;
    if j < s.len() {
        assert(t[j + 1] == s[j]);
        lemma_mirrored_entries_cons_shift(x, s, j + 1);
        assert(mirrored_entries_from(t, j + 1) =~= mirrored_entries_from(s, j));
    }
}

/// Mirroring a subtree does not change its content hash: the entries that
/// mirroring drops are exactly the entries that hashing skips.
pub proof fn lemma_hash_of_mirrored(t: Tree, mix: bool)
    ensures
        content_hash(mirrored(t), mix) == content_hash(t, mix),
    decreases t, 0nat,
{
    match t {
        Tree::File { data } => {},
        Tree::Symlink => {},
        Tree::Dir { entries } => {
            lemma_dir_hashes_of_mirrored(entries, mix, 0);
        },
    }
}

proof fn lemma_dir_hashes_of_mirrored(s: Seq<TreeEntry>, mix: bool, i: int)
    requires
        0 <= i <= s.len(),
    ensures
        dir_hashes_from(mirrored_entries_from(s, i), mix, 0) == dir_hashes_from(s, mix, i),
    decreases s, s.len() - i + 1,
{
    if i < s.len() {
        if entry_visible(s[i]) {
            let m = TreeEntry { name: s[i].name, tree: mirrored(s[i].tree) };
            let rest = mirrored_entries_from(s, i + 1);
            assert(mirrored_entries_from(s, i) == seq![m] + rest);
            assert((seq![m] + rest)[0] == m);
            lemma_hash_of_mirrored(s[i].tree, mix);
            assert(entry_visible(m));
            assert(entry_hash(m, mix) == entry_hash(s[i], mix));
            lemma_dir_hashes_cons_shift(m, rest, mix, 0);
            lemma_dir_hashes_of_mirrored(s, mix, i + 1);
            assert(dir_hashes_from(mirrored_entries_from(s, i), mix, 0) =~= dir_hashes_from(
                s,
                mix,
                i,
            ));
        } else {
            lemma_dir_hashes_of_mirrored(s, mix, i + 1);
        }
    }
}

/// Mirroring an already-mirrored tree changes nothing.
pub proof fn lemma_mirrored_idempotent(t: Tree)
    ensures
        mirrored(mirrored(t)) == mirrored(t),
    decreases t, 0nat,
{
    match t {
        Tree::File { data } => {},
        Tree::Symlink => {},
        Tree::Dir { entries } => {
            lemma_mirrored_entries_idempotent(entries, 0);
        },
    }
}

proof fn lemma_mirrored_entries_idempotent(s: Seq<TreeEntry>, i: int)
    requires
        0 <= i <= s.len(),
    ensures
        mirrored_entries_from(mirrored_entries_from(s, i), 0) == mirrored_entries_from(s, i),
    decreases s, s.len() - i + 1,
{
    if i < s.len() {
        lemma_mirrored_entries_idempotent(s, i + 1);
        if entry_visible(s[i]) {
            let m = TreeEntry { name: s[i].name, tree: mirrored(s[i].tree) };
            let rest = mirrored_entries_from(s, i + 1);
            assert(mirrored_entries_from(s, i) == seq![m] + rest);
            assert((seq![m] + rest)[0] == m);
            lemma_mirrored_idempotent(s[i].tree);
            assert(entry_visible(m));
            lemma_mirrored_entries_cons_shift(m, rest, 0);
            assert(mirrored_entries_from(mirrored_entries_from(s, i), 0) =~= mirrored_entries_from(
                s,
                i,
            ));
        }
    }
}

/// Mirroring the same source twice leaves the destination in the same final
/// state after the second run as after the first, and that state is a fixed
/// point of mirroring.
pub proof fn lemma_mirror_is_idempotent(source: Tree, first: Tree, second: Tree)
    requires
        first == mirrored(source),
        second == mirrored(source),
    ensures
        second == first,
        mirrored(first) == first,
{
    lemma_mirrored_idempotent(source);
}

proof fn lemma_mirror_no_new_names(s: Seq<TreeEntry>, name: Seq<u8>, i: int)
    requires
        0 <= i <= s.len(),
        lookup(mirrored_entries_from(s, i), name) is Some,
    ensures
        lookup_from(s, name, i) is Some,
    decreases s.len() - i,
{
    if i < s.len() {
        if entry_visible(s[i]) {
            let m = TreeEntry { name: s[i].name, tree: mirrored(s[i].tree) };
            let rest = mirrored_entries_from(s, i + 1);
            assert(mirrored_entries_from(s, i) == seq![m] + rest);
            assert((seq![m] + rest)[0] == m);
            if m.name != name {
                lemma_lookup_cons_shift(m, rest, name, 0);
                lemma_mirror_no_new_names(s, name, i + 1);
            }
        } else {
            if s[i].name != name {
                lemma_mirror_no_new_names(s, name, i + 1);
            }
        }
    }
}

/// Clear-then-copy: a name absent from the source's entries is absent from
/// the mirrored destination, whatever the destination held before.
pub proof fn lemma_mirror_drops_stale(es: Seq<TreeEntry>, name: Seq<u8>)
    requires
        lookup(es, name) is None,
    ensures
        lookup(mirrored_entries_from(es, 0), name) is None,
{
    if lookup(mirrored_entries_from(es, 0), name) is Some {
        lemma_mirror_no_new_names(es, name, 0);
    }
}

/// The mirrored destination never holds the version-control metadata folder.
pub proof fn lemma_mirror_excludes(es: Seq<TreeEntry>, i: int)
    requires
        0 <= i <= es.len(),
    ensures
        lookup(mirrored_entries_from(es, i), excluded_name()) is None,
    decreases es.len() - i,
{
    if i < es.len() {
        lemma_mirror_excludes(es, i + 1);
        if entry_visible(es[i]) {
            let m = TreeEntry { name: es[i].name, tree: mirrored(es[i].tree) };
            let rest = mirrored_entries_from(es, i + 1);
            assert(mirrored_entries_from(es, i) == seq![m] + rest);
            assert((seq![m] + rest)[0] == m);
            lemma_lookup_cons_shift(m, rest, excluded_name(), 0);
        }
    }
}

/// What a hidden entry holds is irrelevant to mirroring: two directories
/// whose entries agree in name and visibility, and whose visible entries
/// agree in content, mirror to the same image — whatever sits inside the
/// version-control metadata folder or behind a symbolic link.
pub proof fn lemma_mirrored_ignores_hidden_entries(s1: Seq<TreeEntry>, s2: Seq<TreeEntry>, i: int)
    requires
        s1.len() == s2.len(),
        0 <= i <= s1.len(),
        forall|k: int| 0 <= k < s1.len() ==> (#[trigger] s1[k]).name == s2[k].name,
        forall|k: int| 0 <= k < s1.len() ==> entry_visible(#[trigger] s1[k]) == entry_visible(s2[k]),
        forall|k: int| 0 <= k < s1.len() && entry_visible(#[trigger] s1[k]) ==> s1[k].tree == s2[k].tree,
    ensures
        mirrored_entries_from(s1, i) == mirrored_entries_from(s2, i),
    decreases s1.len() - i,
{
    if i < s1.len() {
        lemma_mirrored_ignores_hidden_entries(s1, s2, i + 1);
        if entry_visible(s1[i]) {
            assert(mirrored_entries_from(s1, i) =~= mirrored_entries_from(s2, i));
        }
    }
}

/// Two trees with the same mirrored image have the same content hash; in
/// particular, content below the version-control metadata folder and behind
/// symbolic links never enters a digest.
pub proof fn lemma_hash_ignores_hidden(t1: Tree, t2: Tree, mix: bool)
    requires
        mirrored(t1) == mirrored(t2),
    ensures
        content_hash(t1, mix) == content_hash(t2, mix),
{
    lemma_hash_of_mirrored(t1, mix);
    lemma_hash_of_mirrored(t2, mix);
}

} // verus!
