use orchard::note::ExtractedNoteCommitment;
use orchard::tree::{Anchor, MerkleHashOrchard, MerklePath as OrchardMerklePath};
use zvote_core::field::FieldElement;
use zvote_core::ranges::build_nf_ranges;
use zvote_core::trees::{
    calculate_merkle_paths, cmx_hash, compute_cmx_root, compute_nf_root, compute_roots, list_cmxs,
    list_nf_ranges, MerklePath, RootsOutcome, StoredRoot, DEPTH,
};

const MODULUS: [u8; 32] = [
    1, 0, 0, 0, 237, 48, 45, 153, 27, 249, 76, 9, 252, 152, 70, 34, 0, 0, 0, 0, 0, 0, 0, 0, 0, 0,
    0, 0, 0, 0, 0, 64,
];

fn fe(b: u8) -> FieldElement {
    FieldElement::from_u8(b)
}

fn row(b: u8) -> [u8; 32] {
    let mut r = [0u8; 32];
    r[0] = b;
    r
}

/// The root of an empty subtree at each level, from the leaves up.
fn empty_roots() -> Vec<FieldElement> {
    let mut er = fe(2);
    let mut all = vec![er];
    for i in 0..32u8 {
        er = cmx_hash(i, er, er);
        all.push(er);
    }
    all
}

/// The root over `leaves`, one leaf's path at a time.
fn root_leaf_by_leaf(leaves: &[FieldElement]) -> FieldElement {
    let empty = empty_roots();
    let mut layer: Vec<FieldElement> = leaves.to_vec();
    for i in 0..32usize {
        let mut next = Vec::new();
        let mut j = 0;
        while j < layer.len() {
            let right = if j + 1 < layer.len() { layer[j + 1] } else { empty[i] };
            next.push(cmx_hash(i as u8, layer[j], right));
            j += 2;
        }
        if next.is_empty() {
            next.push(empty[i + 1]);
        }
        layer = next;
    }
    layer[0]
}

/// The root that `orchard` computes from a path.
fn orchard_root(mp: &MerklePath) -> [u8; 32] {
    let auth = mp.path.map(|h| MerkleHashOrchard::from_bytes(&h.to_repr()).unwrap());
    let path = OrchardMerklePath::from_parts(mp.position, auth);
    let cmx = ExtractedNoteCommitment::from_bytes(&mp.value.to_repr()).unwrap();
    path.root(cmx).to_bytes()
}

#[test]
fn the_depth_is_32() {
    assert_eq!(DEPTH, 32);
}

#[test]
fn cmx_hash_depends_on_level_and_side() {
    let a = cmx_hash(0, fe(1), fe(2));
    assert_ne!(a, fe(1));
    assert_ne!(a, fe(2));
    assert_ne!(a, cmx_hash(1, fe(1), fe(2)));
    assert_ne!(a, cmx_hash(0, fe(2), fe(1)));
    assert_eq!(a, cmx_hash(0, fe(1), fe(2)));
}

#[test]
fn cmx_hash_is_the_hash_of_orchard() {
    let empty = empty_roots();
    assert_eq!(empty[32].to_repr(), Anchor::empty_tree().to_bytes());
}

#[test]
fn empty_set_roots() {
    let (root, paths) = calculate_merkle_paths(0, &[], &[]);
    assert!(paths.is_empty());
    assert_eq!(root.to_repr(), Anchor::empty_tree().to_bytes());
    assert_eq!(root, empty_roots()[32]);
    let (again, _) = calculate_merkle_paths(0, &[], &[]);
    assert_eq!(root, again);
}

#[test]
fn a_single_empty_leaf_gives_the_empty_root() {
    let (root, _) = calculate_merkle_paths(0, &[], &[fe(2)]);
    assert_eq!(root.to_repr(), Anchor::empty_tree().to_bytes());
}

#[test]
fn the_root_is_that_of_the_tree_built_leaf_by_leaf() {
    for n in 0..9u8 {
        let leaves: Vec<FieldElement> = (0..n).map(|i| fe(10 + i)).collect();
        let (root, _) = calculate_merkle_paths(0, &[], &leaves);
        assert_eq!(root, root_leaf_by_leaf(&leaves), "{} leaves", n);
    }
}

#[test]
fn every_path_folds_to_the_root() {
    let leaves: Vec<FieldElement> = (0..7u8).map(|i| fe(100 + i)).collect();
    let positions: Vec<u32> = vec![0, 1, 2, 3, 4, 5, 6, 3, 3];
    let (root, paths) = calculate_merkle_paths(0, &positions, &leaves);
    assert_eq!(paths.len(), positions.len());
    for (k, mp) in paths.iter().enumerate() {
        assert_eq!(mp.position, positions[k]);
        assert_eq!(mp.value, leaves[positions[k] as usize]);
        assert_eq!(mp.root(), root);
        assert_eq!(orchard_root(mp), root.to_repr());
    }
}

#[test]
fn a_path_holds_the_siblings_from_the_leaves_up() {
    let leaves = vec![fe(11), fe(12), fe(13)];
    let (_, paths) = calculate_merkle_paths(0, &[2], &leaves);
    let empty = empty_roots();
    let mp = &paths[0];
    assert_eq!(mp.path[0], empty[0]);
    assert_eq!(mp.path[1], cmx_hash(0, fe(11), fe(12)));
    for l in 2..32 {
        assert_eq!(mp.path[l], empty[l]);
    }
}

#[test]
fn positions_count_from_the_offset() {
    let leaves = vec![fe(11), fe(12), fe(13), fe(14)];
    let (root, paths) = calculate_merkle_paths(1000, &[1003, 1000], &leaves);
    assert_eq!(paths[0].position, 3);
    assert_eq!(paths[0].value, fe(14));
    assert_eq!(paths[1].position, 0);
    assert_eq!(paths[1].value, fe(11));
    let (same_root, plain) = calculate_merkle_paths(0, &[3, 0], &leaves);
    assert_eq!(root, same_root);
    assert_eq!(paths[0].path, plain[0].path);
    assert_eq!(paths[1].path, plain[1].path);
}

#[test]
fn a_path_found_alone_is_the_path_found_in_a_batch() {
    let leaves: Vec<FieldElement> = (0..6u8).map(|i| fe(50 + i)).collect();
    let (root, batch) = calculate_merkle_paths(0, &[0, 1, 2, 3, 4, 5], &leaves);
    for p in 0..6u32 {
        let (alone_root, alone) = calculate_merkle_paths(0, &[p], &leaves);
        assert_eq!(alone_root, root);
        assert_eq!(alone[0].path, batch[p as usize].path);
    }
}

#[test]
fn the_default_path_is_all_zero() {
    let mp = MerklePath::default();
    assert_eq!(mp.position, 0);
    assert_eq!(mp.value, fe(0));
    assert_eq!(mp.path, [fe(0); 32]);
}

#[test]
fn a_stored_root_has_its_bytes_in_hexadecimal() {
    let r = StoredRoot::new(&fe(2));
    assert_eq!(r.bytes, row(2).to_vec());
    assert_eq!(r.hex, "0200000000000000000000000000000000000000000000000000000000000000");
    let mut bytes = [0u8; 32];
    bytes[0] = 0xab;
    bytes[1] = 0x0f;
    bytes[31] = 0x3c;
    let r = StoredRoot::new(&FieldElement::from_repr(bytes).unwrap());
    assert_eq!(r.hex, "ab0f00000000000000000000000000000000000000000000000000000000003c");
}

#[test]
fn rows_are_read_as_field_elements() {
    assert_eq!(list_cmxs(&vec![row(3), row(1)]), Some(vec![fe(3), fe(1)]));
    assert_eq!(list_cmxs(&vec![]), Some(vec![]));
    assert_eq!(list_cmxs(&vec![row(3), MODULUS]), None);
}

#[test]
fn nullifier_rows_are_sorted_before_the_ranges_are_built() {
    let rows = vec![row(200), row(5), row(10)];
    let leaves = list_nf_ranges(&rows).unwrap();
    assert_eq!(leaves, build_nf_ranges(vec![fe(5), fe(10), fe(200)]));
    assert_eq!(leaves[0], fe(0));
    assert_eq!(leaves[1], fe(4));
    assert_eq!(list_nf_ranges(&vec![MODULUS]), None);
}

#[test]
fn sorting_goes_by_the_integer_not_by_the_first_byte() {
    let mut big = [0u8; 32];
    big[1] = 1;
    let rows = vec![big, row(9)];
    let leaves = list_nf_ranges(&rows).unwrap();
    assert_eq!(leaves[0], fe(0));
    assert_eq!(leaves[1], fe(8));
    assert_eq!(leaves[2], fe(10));
    assert_eq!(leaves[3], fe(255));
}

#[test]
fn the_roots_are_those_of_the_two_trees() {
    let cmx_rows = vec![row(7), row(8), row(9)];
    let nf_rows = vec![row(30), row(20)];
    let cmx = compute_cmx_root(&cmx_rows).unwrap();
    let (cmx_root, _) = calculate_merkle_paths(0, &[], &[fe(7), fe(8), fe(9)]);
    assert_eq!(cmx.bytes, cmx_root.to_repr().to_vec());
    assert_eq!(cmx, StoredRoot::new(&cmx_root));
    let nf = compute_nf_root(&nf_rows).unwrap();
    let leaves = build_nf_ranges(vec![fe(20), fe(30)]);
    let (nf_root, _) = calculate_merkle_paths(0, &[], &leaves);
    assert_eq!(nf, StoredRoot::new(&nf_root));
    match compute_roots(true, &nf_rows, &cmx_rows) {
        RootsOutcome::Computed(roots) => {
            assert_eq!(roots.nf_root, nf);
            assert_eq!(roots.cmx_root, cmx);
        }
        other => panic!("{:?}", other),
    }
}

#[test]
fn empty_stores_give_the_empty_root_twice() {
    let empty = Anchor::empty_tree().to_bytes().to_vec();
    match compute_roots(true, &vec![], &vec![]) {
        RootsOutcome::Computed(roots) => {
            assert_eq!(roots.nf_root.bytes, empty);
            assert_eq!(roots.cmx_root.bytes, empty);
            assert_eq!(roots.nf_root.bytes.len(), 32);
            assert_eq!(roots.nf_root.hex, roots.cmx_root.hex);
        }
        other => panic!("{:?}", other),
    }
}

#[test]
fn no_roots_before_the_download() {
    assert_eq!(compute_roots(false, &vec![row(1)], &vec![row(2)]), RootsOutcome::NotDownloaded);
    assert_eq!(compute_roots(false, &vec![MODULUS], &vec![]), RootsOutcome::NotDownloaded);
}

#[test]
fn a_row_that_is_no_field_element_is_refused() {
    assert_eq!(compute_roots(true, &vec![MODULUS], &vec![row(2)]), RootsOutcome::InvalidRow);
    assert_eq!(compute_roots(true, &vec![row(1)], &vec![[255u8; 32]]), RootsOutcome::InvalidRow);
    assert_eq!(compute_cmx_root(&vec![MODULUS]), None);
    assert_eq!(compute_nf_root(&vec![MODULUS]), None);
}
