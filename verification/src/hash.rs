use vstd::prelude::*;

use crate::tree::{FsNode, Tree, TreeEntry, entries_view_from, entry_visible, excluded_name,
    lemma_entries_view_from, bytes_eq};

verus! {

/// What `blake3::hash` returns on the given bytes.
pub uninterp spec fn blake3_of(bytes: Seq<u8>) -> Seq<u8>;

/// Computes a hash from a slice of bytes.
///
/// Relies on `blake3::hash`: the digest depends on the input bytes alone and
/// is 32 bytes long.
#[verifier::external_body]
pub fn compute_hash(bytes: &[u8]) -> (r: Vec<u8>)
    ensures
        r@ == blake3_of(bytes@),
        r@.len() == 32,
{
    blake3::hash(bytes).as_bytes().to_vec()
}

/// Computes a single hash from 2 slices of bytes, fed to the hash in order.
pub fn compute_hash_from_slices(first_slice: &[u8], second_slice: &[u8]) -> (r: Vec<u8>)
    ensures
        r@ == blake3_of(first_slice@ + second_slice@),
        r@.len() == 32,
{
    let mut buf: Vec<u8> = Vec::new();
    let mut i: usize = 0;
    while i < first_slice.len()
        invariant
            0 <= i <= first_slice@.len(),
            buf@ == first_slice@.subrange(0, i as int),
        decreases first_slice@.len() - i,
    {
        buf.push(first_slice[i]);
        i = i + 1;
    }
    let mut j: usize = 0;
    while j < second_slice.len()
        invariant
            0 <= j <= second_slice@.len(),
            buf@ == first_slice@.subrange(0, first_slice@.len() as int) + second_slice@.subrange(
                0,
                j as int,
            ),
        decreases second_slice@.len() - j,
    {
        buf.push(second_slice[j]);
        j = j + 1;
    }
    proof {
        assert(buf@ =~= first_slice@ + second_slice@);
    }
    compute_hash(buf.as_slice())
}

/// One level of the pairwise fold: neighbouring hashes are combined in order,
/// and a last hash without a partner is combined with itself.
pub open spec fn fold_level_from(hs: Seq<Seq<u8>>, i: int) -> Seq<Seq<u8>>
    decreases hs.len() - i,
{
    if i < 0 || i >= hs.len() {
        Seq::empty()
    } else if i + 1 == hs.len() {
        seq![blake3_of(hs[i] + hs[i])]
    } else {
        seq![blake3_of(hs[i] + hs[i + 1])] + fold_level_from(hs, i + 2)
    }
}

pub proof fn lemma_fold_level_from_len(hs: Seq<Seq<u8>>, i: int)
    requires
        0 <= i <= hs.len(),
    ensures
        fold_level_from(hs, i).len() == (hs.len() - i + 1) / 2,
    decreases hs.len() - i,
{
    if i + 1 < hs.len() {
        lemma_fold_level_from_len(hs, i + 2);
    }
}

/// The root of the pairwise (Merkle) fold of a non-empty list of hashes:
/// levels are folded until a single hash remains.
pub open spec fn merkle_fold(hs: Seq<Seq<u8>>) -> Seq<u8>
    decreases hs.len(),
        when hs.len() >= 1
        via merkle_fold_decreases
{
    if hs.len() == 1 {
        hs[0]
    } else {
        merkle_fold(fold_level_from(hs, 0))
    }
}

#[via_fn]
proof fn merkle_fold_decreases(hs: Seq<Seq<u8>>) {
    if hs.len() > 1 {
        lemma_fold_level_from_len(hs, 0);
    }
}

/// The hashes contributed by a directory's entries from position `i` on:
/// one hash for each visible entry, in order.
pub open spec fn dir_hashes_from(s: Seq<TreeEntry>, mix: bool, i: int) -> Seq<Seq<u8>>
    decreases s, s.len() - i + 1,
{
    if i < 0 || i >= s.len() {
        Seq::empty()
    } else if entry_visible(s[i]) {
        seq![entry_hash(s[i], mix)] + dir_hashes_from(s, mix, i + 1)
    } else {
        dir_hashes_from(s, mix, i + 1)
    }
}

/// The hash an entry contributes to its parent directory: its subtree's
/// content hash, mixed with the entry's own name when name-mixing is on.
pub open spec fn entry_hash(e: TreeEntry, mix: bool) -> Seq<u8>
    decreases e, 0nat,
{
    if mix {
        blake3_of(e.name + content_hash(e.tree, mix))
    } else {
        content_hash(e.tree, mix)
    }
}

/// The content hash of a subtree.
///
/// A file hashes to the hash of its bytes.  A directory hashes to the Merkle
/// fold of its visible entries' hashes, or to the hash of the empty byte
/// string when no entry is visible.  The root's own name never enters the
/// hash; entry names below it do iff name-mixing is on.
pub open spec fn content_hash(t: Tree, mix: bool) -> Seq<u8>
    decreases t, 0nat,
{
    match t {
        Tree::File { data } => blake3_of(data),
        Tree::Symlink => blake3_of(Seq::empty()),
        Tree::Dir { entries } => {
            let hs = dir_hashes_from(entries, mix, 0);
            if hs.len() == 0 {
                blake3_of(Seq::empty())
            } else {
                merkle_fold(hs)
            }
        },
    }
}

/// One level of the executable fold.
fn fold_level(cur: &Vec<Vec<u8>>) -> (r: Vec<Vec<u8>>)
    ensures
        r.deep_view() == fold_level_from(cur.deep_view(), 0),
{
    let ghost d = cur.deep_view();
    let mut out: Vec<Vec<u8>> = Vec::new();
    let mut i: usize = 0;
    while i < cur.len()
        invariant
            d == cur.deep_view(),
            d.len() == cur@.len(),
            0 <= i <= cur@.len(),
            fold_level_from(d, 0) == out.deep_view() + fold_level_from(d, i as int),
        decreases cur@.len() - i,
    {
        assert(d[i as int] == cur@[i as int]@);
        let h = if i + 1 < cur.len() {
            assert(d[i + 1] == cur@[i + 1]@);
            compute_hash_from_slices(cur[i].as_slice(), cur[i + 1].as_slice())
        } else {
            compute_hash_from_slices(cur[i].as_slice(), cur[i].as_slice())
        };
        let ghost prev = out.deep_view();
        out.push(h);
        proof {
            assert(out.deep_view() =~~= prev + seq![h@]);
            assert(fold_level_from(d, 0) =~= out.deep_view() + fold_level_from(d, i + 2));
        }
        if i + 1 < cur.len() {
            i = i + 2;
        } else {
            i = i + 1;
            assert(fold_level_from(d, i as int) =~= Seq::empty());
        }
    }
    proof {
        assert(fold_level_from(d, i as int) =~= Seq::empty());
        assert(fold_level_from(d, 0) =~= out.deep_view());
    }
    out
}

/// The root of the pairwise fold of `hashes`; `None` iff `hashes` is empty.
pub fn compute_merkle_hash(hashes: &Vec<Vec<u8>>) -> (r: Option<Vec<u8>>)
    ensures
        hashes@.len() == 0 <==> r is None,
        hashes@.len() > 0 ==> (r matches Some(h) && h@ == merkle_fold(hashes.deep_view())),
{
    if hashes.len() == 0 {
        return None;
    }
    let mut cur: Vec<Vec<u8>> = Vec::new();
    let mut i: usize = 0;
    while i < hashes.len()
        invariant
            0 <= i <= hashes@.len(),
            cur.deep_view() == hashes.deep_view().subrange(0, i as int),
        decreases hashes@.len() - i,
    {
        let ghost prev = cur.deep_view();
        cur.push(crate::tree::copy_bytes(hashes[i].as_slice()));
        proof {
            assert(cur.deep_view() =~~= prev.push(hashes.deep_view()[i as int]));
            assert(cur.deep_view() =~~= hashes.deep_view().subrange(0, i + 1));
        }
        i = i + 1;
    }
    proof {
        assert(cur.deep_view() =~~= hashes.deep_view());
    }
    while cur.len() > 1
        invariant
            cur.deep_view().len() == cur@.len(),
            cur@.len() >= 1,
            merkle_fold(cur.deep_view()) == merkle_fold(hashes.deep_view()),
        decreases cur@.len(),
    {
        let next = fold_level(&cur);
        proof {
            lemma_fold_level_from_len(cur.deep_view(), 0);
        }
        cur = next;
    }
    let ghost d = cur.deep_view();
    let h = cur.pop().unwrap();
    proof {
        assert(h@ == d[0]);
    }
    Some(h)
}

/// The content hash of an in-memory subtree, with or without name-mixing.
#[verifier::loop_isolation(false)]
pub fn hash_node(n: &FsNode, hash_names: bool) -> (r: Vec<u8>)
    ensures
        r@ == content_hash(n@, hash_names),
    decreases *n, 1nat,
{
    match n {
        FsNode::File { data } => compute_hash(data.as_slice()),
        FsNode::Symlink => {
            let empty: Vec<u8> = Vec::new();
            compute_hash(empty.as_slice())
        },
        FsNode::Dir { entries } => {
            let ghost ev = entries_view_from(entries@, 0);
            proof {
                lemma_entries_view_from(entries@, 0);
            }
            let excl: [u8; 4] = [46u8, 103u8, 105u8, 116u8];
            let mut hs: Vec<Vec<u8>> = Vec::new();
            let mut i: usize = 0;
            while i < entries.len()
                invariant
                    ev == entries_view_from(entries@, 0),
                    ev.len() == entries@.len(),
                    forall|k: int| 0 <= k < entries@.len() ==> ev[k] == entries@[k]@,
                    excl@ == excluded_name(),
                    0 <= i <= entries@.len(),
                    dir_hashes_from(ev, hash_names, 0) == hs.deep_view() + dir_hashes_from(
                        ev,
                        hash_names,
                        i as int,
                    ),
                decreases entries@.len() - i,
            {
                let entry = &entries[i];
                let is_excluded = bytes_eq(entry.name.as_slice(), excl.as_slice());
                let is_symlink = match &entry.node {
                    FsNode::Symlink => true,
                    _ => false,
                };
                if !is_excluded && !is_symlink {
                    assert(entry_visible(ev[i as int]));
                    proof {
                        assert(decreases_to!(*n => *entries));
                        assert(decreases_to!(*entries => entries@));
                        assert(decreases_to!(entries@ => entries@[i as int]));
                        assert(decreases_to!(entries@[i as int] => entries@[i as int].node));
                        assert(entry.node == entries@[i as int].node);
                        assert(decreases_to!(*n, 1nat => entry.node, 1nat));
                    }
                    let child = hash_node(&entry.node, hash_names);
                    let h = if hash_names {
                        compute_hash_from_slices(entry.name.as_slice(), child.as_slice())
                    } else {
                        child
                    };
                    let ghost prev = hs.deep_view();
                    hs.push(h);
                    proof {
                        assert(hs.deep_view() =~~= prev + seq![h@]);
                        assert(h@ == entry_hash(ev[i as int], hash_names));
                        assert(dir_hashes_from(ev, hash_names, 0) =~= hs.deep_view()
                            + dir_hashes_from(ev, hash_names, i + 1));
                    }
                } else {
                    assert(!entry_visible(ev[i as int]));
                }
                i = i + 1;
            }
            proof {
                assert(dir_hashes_from(ev, hash_names, i as int) =~= Seq::empty());
                assert(dir_hashes_from(ev, hash_names, 0) =~= hs.deep_view());
            }
            if hs.len() == 0 {
                let empty: Vec<u8> = Vec::new();
                compute_hash(empty.as_slice())
            } else {
                compute_merkle_hash(&hs).unwrap()
            }
        },
    }
}

/// The lower-case hexadecimal digit for a value below 16.
pub open spec fn hex_digit_char(d: u8) -> char
    recommends
        d < 16,
{
    if d < 10 {
        ((d + 48) as char)
    } else {
        ((d + 87) as char)
    }
}

/// The lower-case hexadecimal rendering of the bytes from position `i` on:
/// two digits per byte, high nibble first.
pub open spec fn hex_from(b: Seq<u8>, i: int) -> Seq<char>
    decreases b.len() - i,
{
    if i < 0 || i >= b.len() {
        Seq::empty()
    } else {
        seq![hex_digit_char(b[i] / 16), hex_digit_char(b[i] % 16)] + hex_from(b, i + 1)
    }
}

/// The lower-case hexadecimal rendering of a byte string.
pub open spec fn hex_of(b: Seq<u8>) -> Seq<char> {
    hex_from(b, 0)
}

/// Appends one hexadecimal digit to a string.
fn push_hex_digit(s: &mut String, d: u8)
    requires
        d < 16,
    ensures
        final(s)@ == old(s)@ + seq![hex_digit_char(d)],
{
    let digit: &str = match d {
        0 => "0",
        1 => "1",
        2 => "2",
        3 => "3",
        4 => "4",
        5 => "5",
        6 => "6",
        7 => "7",
        8 => "8",
        9 => "9",
        10 => "a",
        11 => "b",
        12 => "c",
        13 => "d",
        14 => "e",
        _ => "f",
    };
    proof {
        reveal_strlit("0");
        reveal_strlit("1");
        reveal_strlit("2");
        reveal_strlit("3");
        reveal_strlit("4");
        reveal_strlit("5");
        reveal_strlit("6");
        reveal_strlit("7");
        reveal_strlit("8");
        reveal_strlit("9");
        reveal_strlit("a");
        reveal_strlit("b");
        reveal_strlit("c");
        reveal_strlit("d");
        reveal_strlit("e");
        reveal_strlit("f");
        assert(digit@ =~= seq![hex_digit_char(d)]);
    }
    s.append(digit);
}

/// The lower-case hexadecimal string of a digest, two digits per byte.
pub fn to_hex_string(bytes: &[u8]) -> (r: String)
    ensures
        r@ == hex_of(bytes@),
{
    let mut out = String::new();
    let mut i: usize = 0;
    while i < bytes.len()
        invariant
            0 <= i <= bytes@.len(),
            hex_of(bytes@) == out@ + hex_from(bytes@, i as int),
        decreases bytes@.len() - i,
    {
        let b = bytes[i];
        push_hex_digit(&mut out, b / 16);
        push_hex_digit(&mut out, b % 16);
        proof {
            assert(hex_of(bytes@) =~= out@ + hex_from(bytes@, i + 1));
        }
        i = i + 1;
    }
    proof {
        assert(hex_from(bytes@, i as int) =~= Seq::empty());
        assert(out@ =~= hex_of(bytes@));
    }
    out
}

/// Digests are deterministic: two digests of the same unchanged tree are
/// identical.
pub proof fn lemma_digest_deterministic(t: Tree, mix: bool, d1: Seq<u8>, d2: Seq<u8>)
    requires
        d1 == content_hash(t, mix),
        d2 == content_hash(t, mix),
    ensures
        d1 == d2,
{
}

proof fn lemma_dir_hashes_ignore_names(s1: Seq<TreeEntry>, s2: Seq<TreeEntry>, i: int)
    requires
        0 <= i <= s1.len(),
        s1.len() == s2.len(),
        forall|k: int| 0 <= k < s1.len() ==> (#[trigger] s1[k]).tree == s2[k].tree
            && entry_visible(s1[k]) == entry_visible(s2[k]),
    ensures
        dir_hashes_from(s1, false, i) == dir_hashes_from(s2, false, i),
    decreases s1.len() - i,
{
    if i < s1.len() {
        lemma_dir_hashes_ignore_names(s1, s2, i + 1);
        assert(s1[i].tree == s2[i].tree);
        assert(entry_hash(s1[i], false) == entry_hash(s2[i], false));
        assert(dir_hashes_from(s1, false, i) =~= dir_hashes_from(s2, false, i));
    }
}

/// With name-mixing off, a directory's hash does not depend on its entries'
/// names: renaming entries while keeping their order, their contents and
/// their visibility keeps the digest.  (With name-mixing on, a rename feeds
/// different bytes to the hash; the engine-wide flag decides which behaviour
/// an installation gets.)
pub proof fn lemma_rename_insensitive_without_mixing(s1: Seq<TreeEntry>, s2: Seq<TreeEntry>)
    requires
        s1.len() == s2.len(),
        forall|k: int| 0 <= k < s1.len() ==> (#[trigger] s1[k]).tree == s2[k].tree
            && entry_visible(s1[k]) == entry_visible(s2[k]),
    ensures
        content_hash(Tree::Dir { entries: s1 }, false) == content_hash(
            Tree::Dir { entries: s2 },
            false,
        ),
{
    lemma_dir_hashes_ignore_names(s1, s2, 0);
}

} // verus!

