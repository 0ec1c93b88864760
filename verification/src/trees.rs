//! The two Merkle trees that anchor a ballot: their roots, the
//! authentication paths of chosen leaves, and the leaves of the nullifier
//! tree.
//!
//! Both trees have depth 32. A node above two children is their Orchard
//! Merkle hash at the children's level; a leaf that was never written is the
//! field element 2.

use crate::field::{
    all_canonical, le_value, lemma_le_value_injective, lemma_order_unique, modulus,
    non_decreasing, small_repr, sort_by_value, values, FieldElement,
};
use crate::ranges::{build_nf_ranges, nf_ranges};
use incrementalmerkletree::{Hashable, Level};
use orchard::tree::MerkleHashOrchard;
use vstd::prelude::*;

verus! {

/// The depth of both trees.
pub const DEPTH: usize = 32;

/// The Orchard Merkle hash of two nodes at `level`, over canonical encodings.
pub uninterp spec fn merkle_combine(level: u8, left: Seq<u8>, right: Seq<u8>) -> Seq<u8>;

/// `MerkleHashOrchard::combine` of `orchard`, through `from_bytes` and
/// `to_bytes`: the result is a function of the level and the two encodings,
/// and is itself a canonical encoding.
#[verifier::external_body]
fn combine_reprs(level: u8, left: &[u8; 32], right: &[u8; 32]) -> (r: [u8; 32])
    requires
        le_value(left@) < modulus(),
        le_value(right@) < modulus(),
    ensures
        r@ == merkle_combine(level, left@, right@),
        le_value(r@) < modulus(),
{
    let l = MerkleHashOrchard::from_bytes(left).unwrap();
    let r = MerkleHashOrchard::from_bytes(right).unwrap();
    MerkleHashOrchard::combine(Level::from(level), &l, &r).to_bytes()
}

/// The hash of two nodes at `level`.
pub fn cmx_hash(level: u8, left: FieldElement, right: FieldElement) -> (h: FieldElement)
    ensures
        h@ == merkle_combine(level, left@, right@),
{
    let l = left.to_repr();
    let r = right.to_repr();
    FieldElement::from_canonical(combine_reprs(level, &l, &r))
}

/// The encodings of a sequence of field elements.
pub open spec fn reprs(s: Seq<FieldElement>) -> Seq<Seq<u8>> {
    s.map_values(|f: FieldElement| f@)
}

/// The root of a subtree of height `level` that holds no leaf.
pub open spec fn empty_root(level: nat) -> Seq<u8>
    decreases level,
{
    if level == 0 {
        small_repr(2)
    } else {
        merkle_combine(
            (level - 1) as u8,
            empty_root((level - 1) as nat),
            empty_root((level - 1) as nat),
        )
    }
}

/// The node at `index` in the row `level` rows above the leaves.
pub open spec fn node(leaves: Seq<Seq<u8>>, level: nat, index: nat) -> Seq<u8>
    decreases level,
{
    if level == 0 {
        if index < leaves.len() {
            leaves[index as int]
        } else {
            empty_root(0)
        }
    } else {
        merkle_combine(
            (level - 1) as u8,
            node(leaves, (level - 1) as nat, 2 * index),
            node(leaves, (level - 1) as nat, 2 * index + 1),
        )
    }
}

/// The root of the tree over `leaves`.
pub open spec fn tree_root(leaves: Seq<Seq<u8>>) -> Seq<u8> {
    node(leaves, 32, 0)
}

/// The index, `level` rows up, of the node above leaf `p`.
pub open spec fn ancestor(p: nat, level: nat) -> nat
    decreases level,
{
    if level == 0 {
        p
    } else {
        ancestor(p, (level - 1) as nat) / 2
    }
}

/// The index of the other child of the parent of node `i`.
pub open spec fn sibling(i: nat) -> nat {
    if i % 2 == 1 {
        (i - 1) as nat
    } else {
        i + 1
    }
}

/// The authentication path of leaf `p`: at each level the sibling of the node
/// above the leaf.
pub open spec fn auth_path(leaves: Seq<Seq<u8>>, p: nat) -> Seq<Seq<u8>> {
    Seq::new(32, |l: int| node(leaves, l as nat, sibling(ancestor(p, l as nat))))
}

/// What a path gives when `value` at leaf `p` is hashed with the first
/// `levels` entries of `path`, each on the side that `p` tells.
pub open spec fn fold_path(value: Seq<u8>, p: nat, path: Seq<Seq<u8>>, levels: nat) -> Seq<u8>
    decreases levels,
{
    if levels == 0 {
        value
    } else {
        let l = (levels - 1) as nat;
        let below = fold_path(value, p, path, l);
        if ancestor(p, l) % 2 == 0 {
            merkle_combine(l as u8, below, path[l as int])
        } else {
            merkle_combine(l as u8, path[l as int], below)
        }
    }
}

/// Folding a leaf with its authentication path up to `levels` gives the node
/// above the leaf at that level.
pub proof fn lemma_fold_reaches_node(leaves: Seq<Seq<u8>>, p: nat, levels: nat)
    requires
        levels <= 32,
    ensures
        fold_path(node(leaves, 0, p), p, auth_path(leaves, p), levels) == node(
            leaves,
            levels,
            ancestor(p, levels),
        ),
    decreases levels,
{
    if levels > 0 {
        let l = (levels - 1) as nat;
        lemma_fold_reaches_node(leaves, p, l);
        let a = ancestor(p, l);
        assert(ancestor(p, levels) == a / 2);
        assert(auth_path(leaves, p)[l as int] == node(leaves, l, sibling(a)));
        if a % 2 == 0 {
            assert(2 * (a / 2) == a);
            assert(sibling(a) == 2 * (a / 2) + 1);
        } else {
            assert(2 * (a / 2) + 1 == a);
            assert(sibling(a) == 2 * (a / 2));
        }
    }
}

/// A position below 2^32 has the root above it 32 rows up.
pub proof fn lemma_ancestor_of_position(p: nat)
    requires
        p < 0x1_0000_0000,
    ensures
        ancestor(p, 32) == 0,
{
    reveal_with_fuel(ancestor, 33);
}

/// The authentication path of a leaf, folded with the leaf, gives the root.
pub proof fn lemma_path_folds_to_root(leaves: Seq<Seq<u8>>, p: nat)
    requires
        p < 0x1_0000_0000,
    ensures
        fold_path(node(leaves, 0, p), p, auth_path(leaves, p), 32) == tree_root(leaves),
{
    lemma_fold_reaches_node(leaves, p, 32);
    lemma_ancestor_of_position(p);
}

/// Above a row in which every node from `from` on is empty, every node from
/// half of `from` (rounded up) on is empty.
pub proof fn lemma_empty_above(leaves: Seq<Seq<u8>>, level: nat, from: nat, index: nat)
    requires
        forall|j: nat| j >= from ==> #[trigger] node(leaves, level, j) == empty_root(level),
        2 * index >= from,
    ensures
        node(leaves, level + 1, index) == empty_root(level + 1),
{
    assert(node(leaves, level, 2 * index) == empty_root(level));
    assert(node(leaves, level, 2 * index + 1) == empty_root(level));
}

/// In a tree whose leaves, where there are any, are all the empty leaf, every
/// node is the empty root of its level.
pub proof fn lemma_all_empty(leaves: Seq<Seq<u8>>, level: nat, index: nat)
    requires
        forall|j: int| 0 <= j < leaves.len() ==> leaves[j] == empty_root(0),
    ensures
        node(leaves, level, index) == empty_root(level),
    decreases level,
{
    if level > 0 {
        lemma_all_empty(leaves, (level - 1) as nat, 2 * index);
        lemma_all_empty(leaves, (level - 1) as nat, 2 * index + 1);
    }
}

/// The tree without leaves and the tree over the single leaf 2 have the same
/// root: the empty root 32 rows up.
pub proof fn lemma_empty_tree_root()
    ensures
        tree_root(Seq::<Seq<u8>>::empty()) == empty_root(32),
        tree_root(seq![small_repr(2)]) == empty_root(32),
{
    lemma_all_empty(Seq::<Seq<u8>>::empty(), 32, 0);
    lemma_all_empty(seq![small_repr(2)], 32, 0);
}

/// A leaf of a tree with its authentication path.
#[derive(Clone, Copy, Debug)]
pub struct MerklePath {
    /// The leaf.
    pub value: FieldElement,
    /// The leaf's index in the tree.
    pub position: u32,
    /// The sibling at each level, from the leaves up.
    pub path: [FieldElement; 32],
}

impl MerklePath {
    /// The encodings of the path's entries.
    pub open spec fn path_reprs(self) -> Seq<Seq<u8>> {
        reprs(self.path@)
    }

    /// The root that the path gives for its leaf.
    pub open spec fn folded(self) -> Seq<u8> {
        fold_path(self.value@, self.position as nat, self.path_reprs(), 32)
    }

    /// The root that the path gives for its leaf: the leaf hashed with each
    /// entry of the path in turn, on the side that the position tells.
    pub fn root(&self) -> (r: FieldElement)
        ensures
            r@ == self.folded(),
    {
        let mut node = self.value;
        let mut cursor: u32 = self.position;
        let mut l: usize = 0;
        while l < 32
            invariant
                l <= 32,
                cursor as nat == ancestor(self.position as nat, l as nat),
                node@ == fold_path(self.value@, self.position as nat, self.path_reprs(), l as nat),
            decreases 32 - l,
        {
            let sib = self.path[l];
            assert(self.path_reprs()[l as int] == sib@);
            if cursor % 2 == 0 {
                node = cmx_hash(l as u8, node, sib);
            } else {
                node = cmx_hash(l as u8, sib, node);
            }
            cursor = cursor / 2;
            l += 1;
        }
        node
    }
}

impl Default for MerklePath {
    fn default() -> (r: MerklePath)
        ensures
            r.position == 0,
            r.value@ == small_repr(0),
            forall|l: int| 0 <= l < 32 ==> r.path[l]@ == small_repr(0),
    {
        let z = FieldElement::zero();
        MerklePath { value: z, position: 0, path: [z;32] }
    }
}

/// What holds of a path under construction once its first `level` entries
/// are written: `cursor` is the index of the node above the leaf in a row of
/// `width` nodes.
spec fn path_upto(
    mp: MerklePath,
    cursor: usize,
    hashes: Seq<FieldElement>,
    rel: nat,
    level: nat,
    width: nat,
) -> bool {
    &&& rel < hashes.len()
    &&& mp.value == hashes[rel as int]
    &&& mp.position as nat == rel
    &&& cursor as nat == ancestor(rel, level)
    &&& (cursor as nat) < width
    &&& forall|l: int|
        0 <= l < level ==> (#[trigger] mp.path@[l])@ == node(
            reprs(hashes),
            l as nat,
            sibling(ancestor(rel, l as nat)),
        )
}

/// The leaf index that `position` stands for when the first leaf has the
/// position `position_offset`.
pub open spec fn relative(position_offset: usize, position: u32) -> nat {
    (position as int - position_offset as int) as nat
}

/// What `calculate_merkle_paths` returns for one requested position: the
/// leaf, its index and its authentication path.
pub open spec fn is_path_of(mp: MerklePath, hashes: Seq<FieldElement>, rel: nat) -> bool {
    &&& mp.value == hashes[rel as int]
    &&& mp.position as nat == rel
    &&& mp.path_reprs() == auth_path(reprs(hashes), rel)
}

/// The root of the tree over `hashes` and, for each requested position, the
/// leaf at that position with its authentication path, all found in one pass
/// up the tree.
///
/// A position counts from `position_offset`, the position of the first leaf,
/// and must name one of the leaves.
pub fn calculate_merkle_paths(position_offset: usize, positions: &[u32], hashes: &[FieldElement]) -> (r: (
    FieldElement,
    Vec<MerklePath>,
))
    requires
        forall|k: int|
            0 <= k < positions@.len() ==> position_offset <= #[trigger] positions@[k]
                && positions@[k] - position_offset < hashes@.len(),
    ensures
        r.0@ == tree_root(reprs(hashes@)),
        r.1@.len() == positions@.len(),
        forall|k: int|
            0 <= k < positions@.len() ==> is_path_of(
                #[trigger] r.1@[k],
                hashes@,
                relative(position_offset, positions@[k]),
            ),
        forall|k: int| 0 <= k < positions@.len() ==> (#[trigger] r.1@[k]).folded() == r.0@,
{
    let ghost leaves = reprs(hashes@);
    let n = positions.len();
    let zero = FieldElement::zero();
    let mut paths: Vec<MerklePath> = Vec::new();
    let mut cursors: Vec<usize> = Vec::new();
    let mut k: usize = 0;
    while k < n
        invariant
            k <= n,
            n == positions@.len(),
            paths@.len() == k,
            cursors@.len() == k,
            forall|m: int|
                0 <= m < positions@.len() ==> position_offset <= #[trigger] positions@[m]
                    && positions@[m] - position_offset < hashes@.len(),
            forall|m: int|
                0 <= m < k ==> path_upto(
                    #[trigger] paths@[m],
                    cursors@[m],
                    hashes@,
                    relative(position_offset, positions@[m]),
                    0,
                    hashes@.len() as nat,
                ),
        decreases n - k,
    {
        let rel_p: usize = positions[k] as usize - position_offset;
        paths.push(MerklePath { value: hashes[rel_p], position: rel_p as u32, path: [zero;32] });
        cursors.push(rel_p);
        k += 1;
    }

    let mut er = FieldElement::from_u8(2);
    let mut layer: Vec<FieldElement> = Vec::new();
    let mut j: usize = 0;
    while j < hashes.len()
        invariant
            j <= hashes@.len(),
            layer@.len() == j,
            forall|m: int| 0 <= m < j ==> layer@[m] == hashes@[m],
        decreases hashes@.len() - j,
    {
        layer.push(hashes[j]);
        j += 1;
    }
    if layer.len() == 0 {
        layer.push(er);
    }
    if layer.len() % 2 == 1 {
        layer.push(er);
    }
    assert forall|m: int| 0 <= m < layer@.len() implies (#[trigger] layer@[m])@ == node(
        leaves,
        0,
        m as nat,
    ) by {
        if m < hashes@.len() {
            assert(leaves[m] == hashes@[m]@);
        }
    }

    let mut i: usize = 0;
    while i < 32
        invariant
            i <= 32,
            n == positions@.len(),
            leaves == reprs(hashes@),
            er@ == empty_root(i as nat),
            layer@.len() % 2 == 0,
            layer@.len() >= 2,
            forall|m: int|
                0 <= m < layer@.len() ==> (#[trigger] layer@[m])@ == node(leaves, i as nat, m as nat),
            forall|m: nat|
                m >= layer@.len() ==> #[trigger] node(leaves, i as nat, m) == empty_root(i as nat),
            paths@.len() == n,
            cursors@.len() == n,
            forall|m: int|
                0 <= m < positions@.len() ==> position_offset <= #[trigger] positions@[m]
                    && positions@[m] - position_offset < hashes@.len(),
            forall|m: int|
                0 <= m < n ==> path_upto(
                    #[trigger] paths@[m],
                    cursors@[m],
                    hashes@,
                    relative(position_offset, positions@[m]),
                    i as nat,
                    layer@.len() as nat,
                ),
        decreases 32 - i,
    {
        let mut k: usize = 0;
        while k < n
            invariant
                k <= n,
                i < 32,
                n == positions@.len(),
                leaves == reprs(hashes@),
                paths@.len() == n,
                cursors@.len() == n,
                layer@.len() % 2 == 0,
                forall|m: int|
                    0 <= m < layer@.len() ==> (#[trigger] layer@[m])@ == node(
                        leaves,
                        i as nat,
                        m as nat,
                    ),
                forall|m: int|
                    0 <= m < k ==> path_upto(
                        #[trigger] paths@[m],
                        cursors@[m],
                        hashes@,
                        relative(position_offset, positions@[m]),
                        (i + 1) as nat,
                        (layer@.len() / 2) as nat,
                    ),
                forall|m: int|
                    k <= m < n ==> path_upto(
                        #[trigger] paths@[m],
                        cursors@[m],
                        hashes@,
                        relative(position_offset, positions@[m]),
                        i as nat,
                        layer@.len() as nat,
                    ),
            decreases n - k,
        {
            let idx = cursors[k];
            let mut mp = paths[k];
            let ghost before = mp;
            if idx % 2 == 1 {
                mp.path[i] = layer[idx - 1];
            } else {
                mp.path[i] = layer[idx + 1];
            }
            assert(mp.path@ == before.path@.update(i as int, mp.path@[i as int]));
            assert(mp.path@[i as int]@ == node(leaves, i as nat, sibling(idx as nat)));
            paths.set(k, mp);
            cursors.set(k, idx / 2);
            proof {
                let rel = relative(position_offset, positions@[k as int]);
                assert(ancestor(rel, (i + 1) as nat) == ancestor(rel, i as nat) / 2);
                assert(path_upto(mp, (idx / 2) as usize, hashes@, rel, (i + 1) as nat, (layer@.len() / 2) as nat));
            }
            k += 1;
        }

        let pairs = layer.len() / 2;
        let mut next_layer: Vec<FieldElement> = Vec::new();
        let mut j: usize = 0;
        while j < pairs
            invariant
                j <= pairs,
                i < 32,
                pairs == layer@.len() / 2,
                layer@.len() <= usize::MAX,
                layer@.len() % 2 == 0,
                next_layer@.len() == j,
                forall|m: int|
                    0 <= m < layer@.len() ==> (#[trigger] layer@[m])@ == node(
                        leaves,
                        i as nat,
                        m as nat,
                    ),
                forall|m: int|
                    0 <= m < j ==> (#[trigger] next_layer@[m])@ == node(
                        leaves,
                        (i + 1) as nat,
                        m as nat,
                    ),
            decreases pairs - j,
        {
            let h = cmx_hash(i as u8, layer[j * 2], layer[j * 2 + 1]);
            assert(h@ == node(leaves, (i + 1) as nat, j as nat));
            next_layer.push(h);
            j += 1;
        }

        er = cmx_hash(i as u8, er, er);
        assert(er@ == empty_root((i + 1) as nat));
        assert forall|m: nat| m >= pairs implies #[trigger] node(leaves, (i + 1) as nat, m)
            == empty_root((i + 1) as nat) by {
            lemma_empty_above(leaves, i as nat, layer@.len() as nat, m);
        }
        if next_layer.len() % 2 == 1 {
            next_layer.push(er);
        }
        layer = next_layer;
        i += 1;
    }

    let root = layer[0];
    proof {
        assert forall|m: int| 0 <= m < positions@.len() implies is_path_of(
            #[trigger] paths@[m],
            hashes@,
            relative(position_offset, positions@[m]),
        ) && paths@[m].folded() == root@ by {
            let rel = relative(position_offset, positions@[m]);
            assert(paths@[m].path_reprs() =~= auth_path(leaves, rel));
            assert(leaves[rel as int] == hashes@[rel as int]@);
            lemma_path_folds_to_root(leaves, rel);
        }
    }
    (root, paths)
}

/// The integers that stored rows of 32 bytes encode.
pub open spec fn row_values(rows: Seq<[u8; 32]>) -> Seq<nat> {
    rows.map_values(|r: [u8; 32]| le_value(r@))
}

/// The stored rows as byte strings.
pub open spec fn row_reprs(rows: Seq<[u8; 32]>) -> Seq<Seq<u8>> {
    rows.map_values(|r: [u8; 32]| r@)
}

/// Every row is the canonical encoding of a field element.
pub open spec fn rows_canonical(rows: Seq<[u8; 32]>) -> bool {
    forall|i: int| 0 <= i < rows.len() ==> le_value((#[trigger] rows[i])@) < modulus()
}

/// The lower-case hexadecimal digit for a value below 16.
pub open spec fn hex_digit(n: int) -> char {
    if n == 0 {
        '0'
    } else if n == 1 {
        '1'
    } else if n == 2 {
        '2'
    } else if n == 3 {
        '3'
    } else if n == 4 {
        '4'
    } else if n == 5 {
        '5'
    } else if n == 6 {
        '6'
    } else if n == 7 {
        '7'
    } else if n == 8 {
        '8'
    } else if n == 9 {
        '9'
    } else if n == 10 {
        'a'
    } else if n == 11 {
        'b'
    } else if n == 12 {
        'c'
    } else if n == 13 {
        'd'
    } else if n == 14 {
        'e'
    } else {
        'f'
    }
}

/// Bytes in lower-case hexadecimal, two digits a byte, the high one first.
pub open spec fn hex_of(bytes: Seq<u8>) -> Seq<char> {
    Seq::new(
        2 * bytes.len(),
        |i: int|
            if i % 2 == 0 {
                hex_digit(bytes[i / 2] as int / 16)
            } else {
                hex_digit(bytes[i / 2] as int % 16)
            },
    )
}

/// `hex::encode`: two lower-case hexadecimal digits for each byte, the high
/// one first.
#[verifier::external_body]
fn hex_encode(bytes: &[u8; 32]) -> (s: String)
    ensures
        s@ == hex_of(bytes@),
{
    hex::encode(bytes)
}

/// A root as it is stored and as it is handed on.
#[derive(Clone, Debug, PartialEq, Eq)]
pub struct StoredRoot {
    /// The root in hexadecimal, the value of the stored property.
    pub hex: String,
    /// The root's canonical encoding.
    pub bytes: Vec<u8>,
}

impl StoredRoot {
    /// The stored form of `root`.
    pub fn new(root: &FieldElement) -> (r: StoredRoot)
        ensures
            r.bytes@ == root@,
            r.hex@ == hex_of(root@),
    {
        let repr = root.to_repr();
        let mut bytes: Vec<u8> = Vec::new();
        let mut i: usize = 0;
        while i < 32
            invariant
                i <= 32,
                bytes@.len() == i,
                forall|j: int| 0 <= j < i ==> bytes@[j] == repr@[j],
            decreases 32 - i,
        {
            bytes.push(repr[i]);
            i += 1;
        }
        assert(bytes@ =~= repr@);
        StoredRoot { hex: hex_encode(&repr), bytes }
    }
}

/// The field elements that stored rows encode, or nothing where a row is no
/// canonical encoding.
pub fn list_cmxs(rows: &Vec<[u8; 32]>) -> (r: Option<Vec<FieldElement>>)
    ensures
        r.is_some() == rows_canonical(rows@),
        r matches Some(cmxs) ==> reprs(cmxs@) == row_reprs(rows@),
{
    let mut out: Vec<FieldElement> = Vec::new();
    let mut i: usize = 0;
    while i < rows.len()
        invariant
            i <= rows@.len(),
            out@.len() == i,
            forall|j: int| 0 <= j < i ==> le_value((#[trigger] rows@[j])@) < modulus(),
            forall|j: int| 0 <= j < i ==> (#[trigger] out@[j])@ == rows@[j]@,
        decreases rows@.len() - i,
    {
        match FieldElement::from_repr(rows[i]) {
            Some(f) => {
                out.push(f);
            },
            None => {
                return None;
            },
        }
        i += 1;
    }
    assert(reprs(out@) =~= row_reprs(rows@));
    Some(out)
}

/// The leaves of the nullifier tree for stored nullifiers, in any order: the
/// ranges left by the nullifiers once they are sorted. Nothing where a row is
/// no canonical encoding.
pub fn list_nf_ranges(rows: &Vec<[u8; 32]>) -> (r: Option<Vec<FieldElement>>)
    ensures
        r.is_some() == rows_canonical(rows@),
        r matches Some(leaves) ==> all_canonical(leaves@) && exists|nfs: Seq<nat>|
            {
                &&& non_decreasing(nfs)
                &&& nfs.to_multiset() == row_values(rows@).to_multiset()
                &&& values(leaves@) == #[trigger] nf_ranges(nfs)
            },
{
    match list_cmxs(rows) {
        None => None,
        Some(nfs) => {
            assert(values(nfs@) =~= row_values(rows@)) by {
                assert(reprs(nfs@).len() == nfs@.len());
                assert(row_reprs(rows@).len() == rows@.len());
                assert forall|i: int| 0 <= i < nfs@.len() implies values(nfs@)[i] == row_values(
                    rows@,
                )[i] by {
                    assert(reprs(nfs@)[i] == row_reprs(rows@)[i]);
                }
            }
            let nfs = sort_by_value(nfs);
            let leaves = build_nf_ranges(nfs);
            Some(leaves)
        },
    }
}

/// `root` is the root of the commitment tree over the stored commitments.
pub open spec fn is_cmx_root(root: StoredRoot, rows: Seq<[u8; 32]>) -> bool {
    &&& root.bytes@ == tree_root(row_reprs(rows))
    &&& root.hex@ == hex_of(root.bytes@)
}

/// `root` is the root of the nullifier tree over the stored nullifiers: the
/// root over the ranges that the nullifiers leave once they are sorted.
pub open spec fn is_nf_root(root: StoredRoot, rows: Seq<[u8; 32]>) -> bool {
    &&& root.hex@ == hex_of(root.bytes@)
    &&& exists|nfs: Seq<nat>, leaves: Seq<FieldElement>|
        {
            &&& non_decreasing(nfs)
            &&& nfs.to_multiset() == row_values(rows).to_multiset()
            &&& all_canonical(leaves)
            &&& values(leaves) == #[trigger] nf_ranges(nfs)
            &&& root.bytes@ == #[trigger] tree_root(reprs(leaves))
        }
}

/// Canonical field elements with the same values have the same encodings.
pub proof fn lemma_values_fix_reprs(a: Seq<FieldElement>, b: Seq<FieldElement>)
    requires
        all_canonical(a),
        all_canonical(b),
        values(a) == values(b),
    ensures
        reprs(a) == reprs(b),
{
    assert(values(a).len() == a.len() && values(b).len() == b.len());
    assert forall|i: int| 0 <= i < a.len() implies reprs(a)[i] == reprs(b)[i] by {
        assert(values(a)[i] == a[i].value());
        assert(values(b)[i] == b[i].value());
        assert(a[i].canonical() && b[i].canonical());
        lemma_le_value_injective(a[i]@, b[i]@);
    }
    assert(reprs(a) =~= reprs(b));
}

/// The stored nullifiers have one root, in whatever order they are stored.
pub proof fn lemma_nf_root_unique(a: StoredRoot, b: StoredRoot, rows: Seq<[u8; 32]>)
    requires
        is_nf_root(a, rows),
        is_nf_root(b, rows),
    ensures
        a.bytes@ == b.bytes@,
        a.hex@ == b.hex@,
{
    let (nfs_a, leaves_a) = choose|nfs: Seq<nat>, leaves: Seq<FieldElement>|
        {
            &&& non_decreasing(nfs)
            &&& nfs.to_multiset() == row_values(rows).to_multiset()
            &&& all_canonical(leaves)
            &&& values(leaves) == #[trigger] nf_ranges(nfs)
            &&& a.bytes@ == #[trigger] tree_root(reprs(leaves))
        };
    let (nfs_b, leaves_b) = choose|nfs: Seq<nat>, leaves: Seq<FieldElement>|
        {
            &&& non_decreasing(nfs)
            &&& nfs.to_multiset() == row_values(rows).to_multiset()
            &&& all_canonical(leaves)
            &&& values(leaves) == #[trigger] nf_ranges(nfs)
            &&& b.bytes@ == #[trigger] tree_root(reprs(leaves))
        };
    lemma_order_unique(nfs_a, nfs_b);
    lemma_values_fix_reprs(leaves_a, leaves_b);
}

/// The root of the commitment tree over the stored commitments, in both
/// its forms.
pub fn compute_cmx_root(rows: &Vec<[u8; 32]>) -> (r: Option<StoredRoot>)
    ensures
        r.is_some() == rows_canonical(rows@),
        r matches Some(root) ==> is_cmx_root(root, rows@),
{
    match list_cmxs(rows) {
        None => None,
        Some(cmx_tree) => {
            let none: Vec<u32> = Vec::new();
            let (cmx_root, _) = calculate_merkle_paths(0, none.as_slice(), cmx_tree.as_slice());
            Some(StoredRoot::new(&cmx_root))
        },
    }
}

/// The root of the nullifier tree over the stored nullifiers, in both its
/// forms.
pub fn compute_nf_root(rows: &Vec<[u8; 32]>) -> (r: Option<StoredRoot>)
    ensures
        r.is_some() == rows_canonical(rows@),
        r matches Some(root) ==> is_nf_root(root, rows@),
{
    match list_nf_ranges(rows) {
        None => None,
        Some(nf_tree) => {
            let none: Vec<u32> = Vec::new();
            let (nf_root, _) = calculate_merkle_paths(0, none.as_slice(), nf_tree.as_slice());
            Some(StoredRoot::new(&nf_root))
        },
    }
}

/// The two roots to publish.
#[derive(Clone, Debug, PartialEq, Eq)]
pub struct Roots {
    /// The root of the nullifier tree, stored as `nf_root`.
    pub nf_root: StoredRoot,
    /// The root of the commitment tree, stored as `cmx_root`.
    pub cmx_root: StoredRoot,
}

/// What `compute_roots` found.
#[derive(Clone, Debug, PartialEq, Eq)]
pub enum RootsOutcome {
    /// Nothing was downloaded yet: no root is computed or stored.
    NotDownloaded,
    /// The roots to store.
    Computed(Roots),
    /// A stored row is no canonical encoding of a field element.
    InvalidRow,
}

/// Both roots from what is stored, once reference data was downloaded
/// (`downloaded`: the property `height` is set).
pub fn compute_roots(downloaded: bool, nf_rows: &Vec<[u8; 32]>, cmx_rows: &Vec<[u8; 32]>) -> (r:
    RootsOutcome)
    ensures
        match r {
            RootsOutcome::NotDownloaded => !downloaded,
            RootsOutcome::InvalidRow => downloaded && !(rows_canonical(nf_rows@) && rows_canonical(
                cmx_rows@,
            )),
            RootsOutcome::Computed(roots) => {
                &&& downloaded
                &&& rows_canonical(nf_rows@)
                &&& rows_canonical(cmx_rows@)
                &&& is_nf_root(roots.nf_root, nf_rows@)
                &&& is_cmx_root(roots.cmx_root, cmx_rows@)
            },
        },
{
    if !downloaded {
        return RootsOutcome::NotDownloaded;
    }
    match compute_nf_root(nf_rows) {
        None => RootsOutcome::InvalidRow,
        Some(nf_root) => match compute_cmx_root(cmx_rows) {
            None => RootsOutcome::InvalidRow,
            Some(cmx_root) => RootsOutcome::Computed(Roots { nf_root, cmx_root }),
        },
    }
}

/// With nothing stored both roots are the empty root: the root of the
/// tree over the single empty leaf, 32 rows up.
pub proof fn lemma_empty_roots(nf_root: StoredRoot, cmx_root: StoredRoot)
    requires
        is_nf_root(nf_root, Seq::<[u8; 32]>::empty()),
        is_cmx_root(cmx_root, Seq::<[u8; 32]>::empty()),
    ensures
        nf_root.bytes@ == empty_root(32),
        cmx_root.bytes@ == empty_root(32),
        nf_root.hex@ == cmx_root.hex@,
        tree_root(seq![small_repr(2)]) == empty_root(32),
{
    lemma_empty_tree_root();
    let rows = Seq::<[u8; 32]>::empty();
    assert(row_reprs(rows) =~= Seq::<Seq<u8>>::empty());
    let (nfs, leaves) = choose|nfs: Seq<nat>, leaves: Seq<FieldElement>|
        {
            &&& non_decreasing(nfs)
            &&& nfs.to_multiset() == row_values(rows).to_multiset()
            &&& all_canonical(leaves)
            &&& values(leaves) == #[trigger] nf_ranges(nfs)
            &&& nf_root.bytes@ == #[trigger] tree_root(reprs(leaves))
        };
    vstd::seq_lib::to_multiset_len(nfs);
    vstd::seq_lib::to_multiset_len(row_values(rows));
    assert(nfs.len() == 0);
    assert(values(leaves).len() == leaves.len());
    assert(reprs(leaves) =~= Seq::<Seq<u8>>::empty());
}

} // verus!
