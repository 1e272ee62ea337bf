//! Merkle roots, inclusion proofs, and the mutation flag.

use bc_hash::error::ErrorKind;
use bc_hash::merkle::{compute_proof, compute_root, prove, ChildNode};
use bc_hash::sha2::Sha256;
use bc_hash::OneWayHasher;

fn sha256(data: &[u8]) -> [u8; 32] {
    let mut ctx = Sha256::init();
    ctx.update(data);
    let mut out = [0u8; 32];
    ctx.finish(&mut out);
    out
}

fn sha256_pair(a: &[u8; 32], b: &[u8; 32]) -> [u8; 32] {
    let mut ctx = Sha256::init();
    ctx.update(a);
    ctx.update(b);
    let mut out = [0u8; 32];
    ctx.finish(&mut out);
    out
}

#[test]
fn root_of_three_leaves_follows_the_procedure() {
    // Reduce [h(a), h(b), h(c)] by hand: pair the first two, duplicate the
    // last leaf, and hash the two results. The function must match exactly.
    let ha = sha256(b"a");
    let hb = sha256(b"b");
    let hc = sha256(b"c");
    let h2 = sha256_pair(&ha, &hb);
    let h3 = sha256_pair(&hc, &hc);
    let expected = sha256_pair(&h2, &h3);

    let mut leaves: Vec<[u8; 32]> = vec![ha, hb, hc];
    let mutation = compute_root::<32, Sha256>(&mut leaves).unwrap();
    assert_eq!(leaves.len(), 1);
    assert_eq!(leaves[0], expected);
    assert!(!mutation);
}

#[test]
fn root_of_single_leaf_is_the_leaf() {
    let ha = sha256(b"only");
    let mut leaves: Vec<[u8; 32]> = vec![ha];
    let mutation = compute_root::<32, Sha256>(&mut leaves).unwrap();
    assert_eq!(leaves[0], ha);
    assert!(!mutation);
}

#[test]
fn empty_leaves_are_rejected() {
    let mut leaves: Vec<[u8; 32]> = Vec::new();
    let err = compute_root::<32, Sha256>(&mut leaves).unwrap_err();
    assert_eq!(err.kind(), ErrorKind::InvalidMerkleLeaves);
}

#[test]
fn adjacent_duplicates_raise_the_mutation_flag() {
    let ha = sha256(b"a");
    let hb = sha256(b"b");
    let mut dup: Vec<[u8; 32]> = vec![ha, ha, hb];
    assert!(compute_root::<32, Sha256>(&mut dup).unwrap());

    let mut clean: Vec<[u8; 32]> = vec![ha, hb];
    assert!(!compute_root::<32, Sha256>(&mut clean).unwrap());
}

#[test]
fn proofs_reconstruct_the_root() {
    // For every index of a five-leaf tree, folding the inclusion proof from
    // that leaf gives the root.
    let data: [&[u8]; 5] = [b"one", b"two", b"three", b"four", b"five"];
    let leaves: Vec<[u8; 32]> = data.iter().map(|d| sha256(d)).collect();

    let mut for_root = leaves.clone();
    compute_root::<32, Sha256>(&mut for_root).unwrap();
    let root = for_root[0];

    for i in 0..leaves.len() {
        let mut scratch = leaves.clone();
        let (proof, mutation) = compute_proof::<32, Sha256>(&mut scratch, i).unwrap();
        assert!(!mutation);
        let mut digest = leaves[i];
        prove::<32, Sha256>(proof, &mut digest);
        assert_eq!(digest, root, "proof for leaf {} did not fold to the root", i);
    }
}

#[test]
fn proof_sides_match_the_index_parity() {
    let data: [&[u8]; 4] = [b"one", b"two", b"three", b"four"];
    let leaves: Vec<[u8; 32]> = data.iter().map(|d| sha256(d)).collect();
    let mut scratch = leaves.clone();
    let (proof, _) = compute_proof::<32, Sha256>(&mut scratch, 1).unwrap();
    assert_eq!(proof.len(), 2);
    match &proof[0] {
        ChildNode::Left(s) => assert_eq!(*s, leaves[0]),
        ChildNode::Right(_) => panic!("an odd index must record a left sibling"),
    }
}

#[test]
fn out_of_range_index_is_rejected() {
    let mut leaves: Vec<[u8; 32]> = vec![sha256(b"a")];
    let err = compute_proof::<32, Sha256>(&mut leaves, 1).unwrap_err();
    assert_eq!(err.kind(), ErrorKind::InvalidIndex);
    assert_eq!(leaves.len(), 1);
}

#[test]
fn duplicate_padding_is_reproducible() {
    // Duplicating the last leaf of an odd list by hand gives the same root.
    let ha = sha256(b"a");
    let hb = sha256(b"b");
    let hc = sha256(b"c");
    let mut odd: Vec<[u8; 32]> = vec![ha, hb, hc];
    compute_root::<32, Sha256>(&mut odd).unwrap();
    let mut padded: Vec<[u8; 32]> = vec![ha, hb, hc, hc];
    compute_root::<32, Sha256>(&mut padded).unwrap();
    assert_eq!(odd[0], padded[0]);
}
