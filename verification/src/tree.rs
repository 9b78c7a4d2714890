use vstd::prelude::*;

verus! {

/// Name of the version-control metadata folder that every traversal skips:
/// `.git`, as raw bytes.
pub open spec fn excluded_name() -> Seq<u8> {
    seq![46u8, 103u8, 105u8, 116u8]
}

/// An in-memory model of one file-system subtree.
///
/// The engines in this crate work on values of this type; the binary around
/// the library reads a subtree from disk into an `FsNode` (entry names as raw
/// bytes, directory entries sorted by name) and writes a resulting `FsNode`
/// back out.  Symbolic links are represented by `Symlink` and carry no
/// target: both engines skip them.
#[derive(Debug, PartialEq, Eq)]
pub enum FsNode {
    File { data: Vec<u8> },
    Dir { entries: Vec<Entry> },
    Symlink,
}

/// One named entry of a directory.
#[derive(Debug, PartialEq, Eq)]
pub struct Entry {
    pub name: Vec<u8>,
    pub node: FsNode,
}

/// The mathematical shape of an `FsNode`: the same tree over `Seq`.
pub enum Tree {
    File { data: Seq<u8> },
    Dir { entries: Seq<TreeEntry> },
    Symlink,
}

/// The mathematical shape of an `Entry`.
pub struct TreeEntry {
    pub name: Seq<u8>,
    pub tree: Tree,
}

pub open spec fn node_view(n: FsNode) -> Tree
    decreases n, 0nat,
{
    match n {
        FsNode::File { data } => Tree::File { data: data@ },
        FsNode::Dir { entries } => Tree::Dir { entries: entries_view_from(entries@, 0) },
        FsNode::Symlink => Tree::Symlink,
    }
}

pub open spec fn entries_view_from(s: Seq<Entry>, i: int) -> Seq<TreeEntry>
    decreases s, s.len() - i,
{
    if i < 0 || i >= s.len() {
        Seq::empty()
    } else {
        seq![TreeEntry { name: s[i].name@, tree: node_view(s[i].node) }] + entries_view_from(
            s,
            i + 1,
        )
    }
}

impl View for FsNode {
    type V = Tree;

    open spec fn view(&self) -> Tree {
        node_view(*self)
    }
}

impl DeepView for FsNode {
    type V = Tree;

    open spec fn deep_view(&self) -> Tree {
        node_view(*self)
    }
}

impl View for Entry {
    type V = TreeEntry;

    open spec fn view(&self) -> TreeEntry {
        TreeEntry { name: self.name@, tree: node_view(self.node) }
    }
}

/// The view of a directory's entries is the entry views, in order.
pub proof fn lemma_entries_view_from(s: Seq<Entry>, i: int)
    requires
        0 <= i <= s.len(),
    ensures
        entries_view_from(s, i).len() == s.len() - i,
        forall|k: int| 0 <= k < s.len() - i ==> entries_view_from(s, i)[k] == s[i + k]@,
    decreases s.len() - i,
{
    if i < s.len() {
        lemma_entries_view_from(s, i + 1);
    }
}

/// Appending one entry appends its view.
pub proof fn lemma_entries_view_append(s: Seq<Entry>, e: Entry)
    ensures
        entries_view_from(s.push(e), 0) == entries_view_from(s, 0).push(e@),
{
    lemma_entries_view_from(s.push(e), 0);
    lemma_entries_view_from(s, 0);
    assert(entries_view_from(s.push(e), 0) =~= entries_view_from(s, 0).push(e@));
}

/// An entry takes part in hashing and mirroring iff it is neither the
/// version-control metadata folder nor a symbolic link.
pub open spec fn entry_visible(e: TreeEntry) -> bool {
    e.name != excluded_name() && !(e.tree is Symlink)
}

/// Strict lexicographic order on byte strings, from position `i` on.
pub open spec fn lex_lt_from(a: Seq<u8>, b: Seq<u8>, i: int) -> bool
    decreases b.len() - i,
{
    if i < 0 || i >= b.len() {
        false
    } else if i >= a.len() {
        true
    } else if a[i] < b[i] {
        true
    } else if a[i] > b[i] {
        false
    } else {
        lex_lt_from(a, b, i + 1)
    }
}

/// Strict lexicographic order on byte strings.
pub open spec fn lex_lt(a: Seq<u8>, b: Seq<u8>) -> bool {
    lex_lt_from(a, b, 0)
}

/// The entries of one directory are strictly sorted by name (hence the names
/// are unique).
pub open spec fn entries_sorted(s: Seq<TreeEntry>) -> bool {
    forall|j: int| 0 <= j < s.len() - 1 ==> lex_lt(#[trigger] s[j].name, s[j + 1].name)
}

/// The first entry named `name`, searching from position `i` on.
pub open spec fn lookup_from(s: Seq<TreeEntry>, name: Seq<u8>, i: int) -> Option<Tree>
    decreases s.len() - i,
{
    if i < 0 || i >= s.len() {
        None
    } else if s[i].name == name {
        Some(s[i].tree)
    } else {
        lookup_from(s, name, i + 1)
    }
}

/// The subtree stored under `name` in a directory's entries, if any.
pub open spec fn lookup(s: Seq<TreeEntry>, name: Seq<u8>) -> Option<Tree> {
    lookup_from(s, name, 0)
}

/// Prepending an entry shifts lookup by one position.
pub proof fn lemma_lookup_cons_shift(x: TreeEntry, s: Seq<TreeEntry>, name: Seq<u8>, j: int)
    requires
        0 <= j <= s.len(),
    ensures
        lookup_from(seq![x] + s, name, j + 1) == lookup_from(s, name, j),
    decreases s.len() - j,
{
    let t = seq![x] + s;
    if j < s.len() {
        assert(t[j + 1] == s[j]);
        lemma_lookup_cons_shift(x, s, name, j + 1);
    }
}

/// No byte string is lexicographically below itself.
proof fn lemma_lex_lt_irreflexive(a: Seq<u8>, i: int)
    requires
        0 <= i,
    ensures
        !lex_lt_from(a, a, i),
    decreases a.len() - i,
{
    if i < a.len() {
        lemma_lex_lt_irreflexive(a, i + 1);
    }
}

/// Two byte strings that agree from `i` on are either ordered one way or
/// equal there.
proof fn lemma_lex_lt_connex(a: Seq<u8>, b: Seq<u8>, i: int)
    requires
        0 <= i <= a.len(),
        i <= b.len(),
    ensures
        lex_lt_from(a, b, i) || lex_lt_from(b, a, i) || a.subrange(i, a.len() as int)
            == b.subrange(i, b.len() as int),
    decreases a.len() - i,
{
    if i >= b.len() {
        if i >= a.len() {
            assert(a.subrange(i, a.len() as int) =~= b.subrange(i, b.len() as int));
        }
    } else if i >= a.len() {
    } else if a[i] == b[i] {
        lemma_lex_lt_connex(a, b, i + 1);
        if !lex_lt_from(a, b, i) && !lex_lt_from(b, a, i) {
            let sa = a.subrange(i + 1, a.len() as int);
            let sb = b.subrange(i + 1, b.len() as int);
            assert(sa == sb);
            assert forall|k: int| 0 <= k < a.len() - i implies a.subrange(i, a.len() as int)[k]
                == b.subrange(i, b.len() as int)[k] by {
                if k > 0 {
                    assert(sa[k - 1] == sb[k - 1]);
                }
            }
            assert(a.subrange(i, a.len() as int) =~= b.subrange(i, b.len() as int));
        }
    }
}

/// The position `insert_idx_from` finds: everything before it is below
/// `name`, and the entry at it (when in range) is not.
proof fn lemma_insert_idx_from(s: Seq<TreeEntry>, name: Seq<u8>, j: int)
    requires
        0 <= j <= s.len(),
    ensures
        j <= insert_idx_from(s, name, j) <= s.len(),
        forall|k: int|
            j <= k < insert_idx_from(s, name, j) ==> lex_lt(#[trigger] s[k].name, name),
        insert_idx_from(s, name, j) < s.len() ==> !lex_lt(
            s[insert_idx_from(s, name, j)].name,
            name,
        ),
    decreases s.len() - j,
{
    if j < s.len() && lex_lt(s[j].name, name) {
        lemma_insert_idx_from(s, name, j + 1);
    }
}

/// The lookup from `i` lands on the match at `j` when nothing before `j`
/// matches.
proof fn lemma_lookup_hits(s: Seq<TreeEntry>, name: Seq<u8>, j: int, i: int)
    requires
        0 <= i <= j < s.len(),
        s[j].name == name,
        forall|k: int| i <= k < j ==> (#[trigger] s[k]).name != name,
    ensures
        lookup_from(s, name, i) == Some(s[j].tree),
    decreases j - i,
{
    if i < j {
        lemma_lookup_hits(s, name, j, i + 1);
    }
}

/// Two entry lists that differ only at one position, whose entry matches
/// `other` in neither, look `other` up alike.
proof fn lemma_lookup_same_except(
    s1: Seq<TreeEntry>,
    s2: Seq<TreeEntry>,
    other: Seq<u8>,
    j: int,
    i: int,
)
    requires
        s1.len() == s2.len(),
        0 <= j < s1.len(),
        forall|k: int| 0 <= k < s1.len() && k != j ==> s1[k] == s2[k],
        s1[j].name != other,
        s2[j].name != other,
        0 <= i <= s1.len(),
    ensures
        lookup_from(s1, other, i) == lookup_from(s2, other, i),
    decreases s1.len() - i,
{
    if i < s1.len() {
        lemma_lookup_same_except(s1, s2, other, j, i + 1);
    }
}

/// Inserting an entry of another name does not change a lookup.
proof fn lemma_lookup_insert_frame(s: Seq<TreeEntry>, e: TreeEntry, j: int, other: Seq<u8>)
    requires
        0 <= j <= s.len(),
        e.name != other,
    ensures
        lookup_from(s.subrange(0, j) + seq![e] + s.subrange(j, s.len() as int), other, 0)
            == lookup_from(s, other, 0),
    decreases j,
{
    let t = s.subrange(0, j) + seq![e] + s.subrange(j, s.len() as int);
    if j == 0 {
        assert(t =~= seq![e] + s);
        lemma_lookup_cons_shift(e, s, other, 0);
    } else {
        let s1 = s.subrange(1, s.len() as int);
        let t1 = s1.subrange(0, j - 1) + seq![e] + s1.subrange(j - 1, s1.len() as int);
        assert(t =~= seq![s[0]] + t1);
        assert(t[0] == s[0]);
        if s[0].name == other {
        } else {
            lemma_lookup_cons_shift(s[0], t1, other, 0);
            lemma_lookup_insert_frame(s1, e, j - 1, other);
            lemma_lookup_cons_shift(s[0], s1, other, 0);
            assert(s =~= seq![s[0]] + s1);
        }
    }
}

/// Storing under a name keeps the entries strictly sorted.
pub proof fn lemma_set_entry_sorted(s: Seq<TreeEntry>, name: Seq<u8>, tree: Tree)
    requires
        entries_sorted(s),
    ensures
        entries_sorted(set_entry(s, name, tree)),
{
    let j = insert_idx_from(s, name, 0);
    let e = TreeEntry { name, tree };
    lemma_insert_idx_from(s, name, 0);
    if j < s.len() && s[j].name == name {
        let t = s.update(j, e);
        assert forall|k: int| 0 <= k < t.len() - 1 implies lex_lt(
            #[trigger] t[k].name,
            t[k + 1].name,
        ) by {
            assert(lex_lt(s[k].name, s[k + 1].name));
        }
    } else {
        let t = s.subrange(0, j) + seq![e] + s.subrange(j, s.len() as int);
        if j < s.len() {
            lemma_lex_lt_connex(s[j].name, name, 0);
            assert(s[j].name.subrange(0, s[j].name.len() as int) =~= s[j].name);
            assert(name.subrange(0, name.len() as int) =~= name);
            assert(lex_lt(name, s[j].name));
        }
        assert forall|k: int| 0 <= k < t.len() - 1 implies lex_lt(
            #[trigger] t[k].name,
            t[k + 1].name,
        ) by {
            if k + 1 < j {
                assert(t[k] == s[k] && t[k + 1] == s[k + 1]);
                assert(lex_lt(s[k].name, s[k + 1].name));
            } else if k + 1 == j {
                assert(t[k] == s[k] && t[k + 1] == e);
            } else if k == j {
                assert(t[k] == e && t[k + 1] == s[j]);
            } else {
                assert(t[k] == s[k - 1] && t[k + 1] == s[k]);
                assert(lex_lt(s[k - 1].name, s[k].name));
            }
        }
    }
}

/// After storing, the stored name maps to the stored tree, and every other
/// name maps to whatever it mapped to before.
pub proof fn lemma_set_entry_lookup(s: Seq<TreeEntry>, name: Seq<u8>, tree: Tree, other: Seq<u8>)
    requires
        entries_sorted(s),
    ensures
        lookup(set_entry(s, name, tree), name) == Some(tree),
        other != name ==> lookup(set_entry(s, name, tree), other) == lookup(s, other),
{
    let j = insert_idx_from(s, name, 0);
    let e = TreeEntry { name, tree };
    lemma_insert_idx_from(s, name, 0);
    assert forall|k: int| 0 <= k < j implies (#[trigger] s[k]).name != name by {
        assert(lex_lt(s[k].name, name));
        if s[k].name == name {
            lemma_lex_lt_irreflexive(name, 0);
        }
    }
    if j < s.len() && s[j].name == name {
        let t = s.update(j, e);
        lemma_lookup_hits(t, name, j, 0);
        if other != name {
            lemma_lookup_same_except(s, t, other, j, 0);
        }
    } else {
        let t = s.subrange(0, j) + seq![e] + s.subrange(j, s.len() as int);
        assert(t[j] == e);
        assert forall|k: int| 0 <= k < j implies (#[trigger] t[k]).name != name by {
            assert(t[k] == s[k]);
            assert(s[k].name != name);
        }
        lemma_lookup_hits(t, name, j, 0);
        if other != name {
            lemma_lookup_insert_frame(s, e, j, other);
        }
    }
}

/// Byte-string equality.
pub fn bytes_eq(a: &[u8], b: &[u8]) -> (r: bool)
    ensures
        r == (a@ == b@),
{
    if a.len() != b.len() {
        assert(a@ != b@);
        return false;
    }
    let n: usize = a.len();
    let mut i: usize = 0;
    while i < n
        invariant
            n == a@.len() == b@.len(),
            0 <= i <= n,
            forall|j: int| 0 <= j < i ==> a@[j] == b@[j],
        decreases n - i,
    {
        if a[i] != b[i] {
            return false;
        }
        i = i + 1;
    }
    proof {
        assert(a@ =~= b@);
    }
    true
}

/// An owned copy of a byte string.
pub fn copy_bytes(v: &[u8]) -> (r: Vec<u8>)
    ensures
        r@ == v@,
{
    vstd::slice::slice_to_vec(v)
}

/// The final component of a path given as bytes: the suffix after the last
/// slash (the whole path when it has no slash, empty when it ends in one).
pub open spec fn basename_bytes(b: Seq<u8>) -> Seq<u8>
    decreases b.len(),
{
    if b.len() == 0 {
        b
    } else if b[b.len() - 1] == 47u8 {
        Seq::empty()
    } else {
        basename_bytes(b.drop_last()).push(b[b.len() - 1])
    }
}

proof fn lemma_basename_at(b: Seq<u8>, j: int)
    requires
        -1 <= j < b.len(),
        j >= 0 ==> b[j] == 47u8,
        forall|k: int| j < k < b.len() ==> b[k] != 47u8,
    ensures
        basename_bytes(b) == b.subrange(j + 1, b.len() as int),
    decreases b.len(),
{
    if b.len() == 0 {
        assert(basename_bytes(b) =~= b.subrange(j + 1, 0));
    } else if b[b.len() - 1] == 47u8 {
        assert(j == b.len() - 1);
        assert(basename_bytes(b) =~= b.subrange(j + 1, b.len() as int));
    } else {
        assert(j < b.len() - 1);
        let c = b.drop_last();
        assert(forall|k: int| j < k < c.len() ==> c[k] != 47u8);
        lemma_basename_at(c, j);
        assert(basename_bytes(b) =~= b.subrange(j + 1, b.len() as int));
    }
}

/// The final component of a path, as `basename_bytes`.
pub fn basename(path: &[u8]) -> (r: Vec<u8>)
    ensures
        r@ == basename_bytes(path@),
{
    let n: usize = path.len();
    let mut j: usize = n;
    while j > 0 && path[j - 1] != 47u8
        invariant
            0 <= j <= n,
            n == path@.len(),
            forall|k: int| j <= k < n ==> path@[k] != 47u8,
        decreases j,
    {
        j = j - 1;
    }
    proof {
        lemma_basename_at(path@, j - 1);
    }
    let tail = vstd::slice::slice_subrange(path, j, n);
    copy_bytes(tail)
}

/// The position where `name` belongs among entries sorted by name: the first
/// position, from `j` on, whose entry name is not below `name`.
pub open spec fn insert_idx_from(s: Seq<TreeEntry>, name: Seq<u8>, j: int) -> int
    decreases s.len() - j,
{
    if j < 0 || j >= s.len() {
        s.len() as int
    } else if lex_lt(s[j].name, name) {
        insert_idx_from(s, name, j + 1)
    } else {
        j
    }
}

/// A directory's entries after storing `tree` under `name`: an entry already
/// so named is replaced in place; otherwise a new entry is inserted at its
/// sorted position.
pub open spec fn set_entry(s: Seq<TreeEntry>, name: Seq<u8>, tree: Tree) -> Seq<TreeEntry> {
    let j = insert_idx_from(s, name, 0);
    let e = TreeEntry { name, tree };
    if j < s.len() && s[j].name == name {
        s.update(j, e)
    } else {
        s.subrange(0, j) + seq![e] + s.subrange(j, s.len() as int)
    }
}

/// Stores `node` under `name` in a directory's entries, replacing an entry
/// of that name or inserting at the sorted position.
#[verifier::loop_isolation(false)]
pub fn dir_set_entry(entries: &mut Vec<Entry>, name: Vec<u8>, node: FsNode)
    ensures
        entries_view_from(final(entries)@, 0) == set_entry(
            entries_view_from(old(entries)@, 0),
            name@,
            node@,
        ),
{
    let ghost ev = entries_view_from(entries@, 0);
    proof {
        lemma_entries_view_from(entries@, 0);
    }
    let mut j: usize = 0;
    while j < entries.len() && bytes_lt(entries[j].name.as_slice(), name.as_slice())
        invariant
            0 <= j <= entries@.len(),
            insert_idx_from(ev, name@, 0) == insert_idx_from(ev, name@, j as int),
        decreases entries@.len() - j,
    {
        j = j + 1;
    }
    proof {
        assert(insert_idx_from(ev, name@, 0) == j as int);
    }
    let replace = if j < entries.len() {
        bytes_eq(entries[j].name.as_slice(), name.as_slice())
    } else {
        false
    };
    let e = Entry { name, node };
    if replace {
        entries.remove(j);
        entries.insert(j, e);
        proof {
            lemma_entries_view_from(entries@, 0);
            assert(entries_view_from(entries@, 0) =~= set_entry(ev, e.name@, e.node@));
        }
    } else {
        entries.insert(j, e);
        proof {
            lemma_entries_view_from(entries@, 0);
            assert(entries_view_from(entries@, 0) =~= set_entry(ev, e.name@, e.node@));
        }
    }
}

/// A deep copy of a subtree.
#[verifier::loop_isolation(false)]
pub fn clone_node(n: &FsNode) -> (r: FsNode)
    ensures
        r@ == n@,
    decreases *n, 1nat,
{
    match n {
        FsNode::File { data } => FsNode::File { data: copy_bytes(data.as_slice()) },
        FsNode::Symlink => FsNode::Symlink,
        FsNode::Dir { entries } => {
            let ghost ev = entries_view_from(entries@, 0);
            proof {
                lemma_entries_view_from(entries@, 0);
            }
            let mut out: Vec<Entry> = Vec::new();
            let mut i: usize = 0;
            while i < entries.len()
                invariant
                    0 <= i <= entries@.len(),
                    entries_view_from(out@, 0) == ev.subrange(0, i as int),
                decreases entries@.len() - i,
            {
                let entry = &entries[i];
                proof {
                    assert(decreases_to!(*n => *entries));
                    assert(decreases_to!(*entries => entries@));
                    assert(decreases_to!(entries@ => entries@[i as int]));
                    assert(decreases_to!(entries@[i as int] => entries@[i as int].node));
                    assert(entry.node == entries@[i as int].node);
                    assert(decreases_to!(*n, 1nat => entry.node, 1nat));
                }
                let copied = Entry {
                    name: copy_bytes(entry.name.as_slice()),
                    node: clone_node(&entry.node),
                };
                let ghost prev = out@;
                out.push(copied);
                proof {
                    lemma_entries_view_append(prev, copied);
                    assert(copied@ == ev[i as int]);
                    assert(entries_view_from(out@, 0) =~= ev.subrange(0, i + 1));
                }
                i = i + 1;
            }
            proof {
                assert(entries_view_from(out@, 0) =~= ev);
            }
            FsNode::Dir { entries: out }
        },
    }
}

/// Finds the subtree stored under `name`, as `lookup`.
pub fn dir_find<'a>(entries: &'a Vec<Entry>, name: &[u8]) -> (r: Option<&'a FsNode>)
    ensures
        match lookup(entries_view_from(entries@, 0), name@) {
            None => r is None,
            Some(t) => r matches Some(n) && n@ == t,
        },
{
    let ghost ev = entries_view_from(entries@, 0);
    proof {
        lemma_entries_view_from(entries@, 0);
    }
    let mut i: usize = 0;
    while i < entries.len()
        invariant
            0 <= i <= entries@.len(),
            ev == entries_view_from(entries@, 0),
            ev.len() == entries@.len(),
            forall|k: int| 0 <= k < entries@.len() ==> ev[k] == entries@[k]@,
            lookup_from(ev, name@, 0) == lookup_from(ev, name@, i as int),
        decreases entries@.len() - i,
    {
        if bytes_eq(entries[i].name.as_slice(), name) {
            return Some(&entries[i].node);
        }
        i = i + 1;
    }
    None
}

/// Byte-string strict lexicographic comparison.
pub fn bytes_lt(a: &[u8], b: &[u8]) -> (r: bool)
    ensures
        r == lex_lt(a@, b@),
{
    let mut i: usize = 0;
    loop
        invariant
            0 <= i <= a@.len(),
            0 <= i <= b@.len(),
            lex_lt(a@, b@) == lex_lt_from(a@, b@, i as int),
        decreases a@.len() - i,
    {
        if i >= b.len() {
            return false;
        }
        if i >= a.len() {
            return true;
        }
        if a[i] < b[i] {
            return true;
        }
        if a[i] > b[i] {
            return false;
        }
        i = i + 1;
    }
}

} // verus!
