//! Merkle-tree root computation, inclusion-proof generation and proof
//! verification over fixed-width digests.
//!
//! Reduction duplicates the last leaf at odd levels, reports (but does not
//! reject) adjacent duplicate digests as a possible mutation, and halves the
//! leaf count per level until one digest remains.

use vstd::prelude::*;
use crate::OneWayHasher;
use crate::error::{Error, ErrorKind};

verus! {

/// One sibling digest of an inclusion proof, tagged with the side it stands
/// on: `Left(s)` hashes as `H(s || d)`, `Right(s)` as `H(d || s)`.
#[derive(Debug, Clone)]
pub enum ChildNode<const MDLEN: usize> {
    Left([u8; MDLEN]),
    Right([u8; MDLEN]),
}

/// An inclusion proof: the sibling of the tracked node at each level.
pub type Proof<const MDLEN: usize> = Vec<ChildNode<MDLEN>>;

/// The ghost rendition of a proof node.
pub enum SiblingSpec {
    Left(Seq<u8>),
    Right(Seq<u8>),
}

impl<const MDLEN: usize> View for ChildNode<MDLEN> {
    type V = SiblingSpec;

    open spec fn view(&self) -> SiblingSpec {
        match self {
            ChildNode::Left(d) => SiblingSpec::Left(d@),
            ChildNode::Right(d) => SiblingSpec::Right(d@),
        }
    }
}

/// The leaves of a level as byte sequences.
pub open spec fn leaf_views<const MDLEN: usize>(s: Seq<[u8; MDLEN]>) -> Seq<Seq<u8>> {
    Seq::new(s.len(), |i: int| s[i]@)
}

/// The proof nodes as ghost siblings.
pub open spec fn nodes_view<const MDLEN: usize>(p: Seq<ChildNode<MDLEN>>) -> Seq<SiblingSpec> {
    Seq::new(p.len(), |i: int| p[i]@)
}

/// A level padded to even length by duplicating its last leaf.
pub open spec fn pad_level(leaves: Seq<Seq<u8>>) -> Seq<Seq<u8>> {
    if leaves.len() % 2 == 1 {
        leaves.push(leaves.last())
    } else {
        leaves
    }
}

/// One reduction level: adjacent pairs of the padded level, hashed.
pub open spec fn level_up<const MDLEN: usize, H: OneWayHasher<MDLEN>>(
    leaves: Seq<Seq<u8>>,
) -> Seq<Seq<u8>> {
    let p = pad_level(leaves);
    Seq::new(p.len() / 2, |i: int| H::hash_spec(p[2 * i] + p[2 * i + 1]))
}

/// The Merkle root of a non-empty leaf sequence.
pub open spec fn merkle_root<const MDLEN: usize, H: OneWayHasher<MDLEN>>(
    leaves: Seq<Seq<u8>>,
) -> Seq<u8>
    recommends
        leaves.len() > 0,
    decreases leaves.len(),
{
    if leaves.len() <= 1 {
        if leaves.len() == 1 {
            leaves[0]
        } else {
            Seq::<u8>::empty()
        }
    } else {
        merkle_root::<MDLEN, H>(level_up::<MDLEN, H>(leaves))
    }
}

/// Two byte-equal adjacent leaves in one level.
pub open spec fn has_adjacent_dup(leaves: Seq<Seq<u8>>) -> bool {
    exists|i: int| 0 <= i < leaves.len() - 1 && #[trigger] leaves[i] == leaves[i + 1]
}

/// A duplicate was seen at any level of the reduction, before padding.
pub open spec fn mutation_found<const MDLEN: usize, H: OneWayHasher<MDLEN>>(
    leaves: Seq<Seq<u8>>,
) -> bool
    decreases leaves.len(),
{
    if leaves.len() <= 1 {
        false
    } else {
        has_adjacent_dup(leaves) || mutation_found::<MDLEN, H>(level_up::<MDLEN, H>(leaves))
    }
}

/// The inclusion proof of the leaf at `index`: at each level the sibling in
/// the padded level, then the index halves.
pub open spec fn proof_nodes<const MDLEN: usize, H: OneWayHasher<MDLEN>>(
    leaves: Seq<Seq<u8>>,
    index: int,
) -> Seq<SiblingSpec>
    decreases leaves.len(),
{
    if leaves.len() <= 1 {
        Seq::<SiblingSpec>::empty()
    } else {
        let p = pad_level(leaves);
        let node = if index % 2 == 1 {
            SiblingSpec::Left(p[index - 1])
        } else {
            SiblingSpec::Right(p[index + 1])
        };
        seq![node] + proof_nodes::<MDLEN, H>(level_up::<MDLEN, H>(leaves), index / 2)
    }
}

/// Fold a proof from a starting digest up to a root candidate.
pub open spec fn fold_proof<const MDLEN: usize, H: OneWayHasher<MDLEN>>(
    nodes: Seq<SiblingSpec>,
    d: Seq<u8>,
) -> Seq<u8>
    decreases nodes.len(),
{
    if nodes.len() == 0 {
        d
    } else {
        let d2 = match nodes[0] {
            SiblingSpec::Left(s) => H::hash_spec(s + d),
            SiblingSpec::Right(s) => H::hash_spec(d + s),
        };
        fold_proof::<MDLEN, H>(nodes.drop_first(), d2)
    }
}

fn arrays_eq<const MDLEN: usize>(a: &[u8; MDLEN], b: &[u8; MDLEN]) -> (r: bool)
    ensures
        r == (a@ == b@),
{
    let mut i: usize = 0;
    while i < MDLEN
        invariant
            i <= MDLEN,
            forall|m: int| 0 <= m < i ==> a@[m] == b@[m],
        decreases MDLEN - i,
    {
        if a[i] != b[i] {
            proof {
                assert(a@ != b@);
            }
            return false;
        }
        i += 1;
    }
    proof {
        assert(a@ =~= b@);
    }
    true
}

/// Scan one level for byte-equal adjacent leaves.
fn scan_for_dup<const MDLEN: usize>(leaves: &Vec<[u8; MDLEN]>) -> (r: bool)
    ensures
        r == has_adjacent_dup(leaf_views(leaves@)),
{
    let n = leaves.len();
    if n == 0 {
        return false;
    }
    let mut i: usize = 0;
    while i < n - 1
        invariant
            n == leaves@.len(),
            n >= 1,
            i <= n,
            forall|j: int|
                0 <= j < i ==> #[trigger] leaf_views(leaves@)[j] != leaf_views(leaves@)[j + 1],
        decreases n - i,
    {
        if arrays_eq(&leaves[i], &leaves[i + 1]) {
            proof {
                assert(leaf_views(leaves@)[i as int] == leaf_views(leaves@)[i as int + 1]);
            }
            return true;
        }
        i += 1;
    }
    proof {
        assert(!has_adjacent_dup(leaf_views(leaves@)));
    }
    false
}

/// Pad the level to even length, then hash adjacent pairs in place and
/// truncate to the upper level.
fn reduce_level<const MDLEN: usize, H: OneWayHasher<MDLEN>>(
    leaves: &mut Vec<[u8; MDLEN]>,
    hasher: &mut H,
) -> (dup: bool)
    requires
        old(leaves)@.len() > 1,
        2 * MDLEN < 0x2000000000000000,
    ensures
        leaf_views(final(leaves)@) == level_up::<MDLEN, H>(leaf_views(old(leaves)@)),
        final(leaves)@.len() == pad_level(leaf_views(old(leaves)@)).len() / 2,
        dup == has_adjacent_dup(leaf_views(old(leaves)@)),
{
    let ghost entry = leaf_views(leaves@);
    let dup = scan_for_dup(leaves);
    if leaves.len() % 2 == 1 {
        let last = leaves[leaves.len() - 1];
        leaves.push(last);
    }
    proof {
        assert(leaf_views(leaves@) =~= pad_level(entry));
    }
    let ghost padded = leaf_views(leaves@);
    let ghost padded_arr = leaves@;
    let half = leaves.len() / 2;
    let mut i: usize = 0;
    while i < half
        invariant
            leaves@.len() == padded_arr.len(),
            2 * half == padded_arr.len(),
            2 * half <= usize::MAX,
            2 * MDLEN < 0x2000000000000000,
            i <= half,
            padded == leaf_views(padded_arr),
            forall|j: int| i <= j < padded_arr.len() ==> leaves@[j] == padded_arr[j],
            forall|j: int|
                0 <= j < i ==> leaf_views(leaves@)[j] == level_up::<MDLEN, H>(entry)[j],
            level_up::<MDLEN, H>(entry) == Seq::new(
                (padded.len() / 2) as nat,
                |k: int| H::hash_spec(padded[2 * k] + padded[2 * k + 1]),
            ),
        decreases half - i,
    {
        let a = leaves[2 * i];
        let b = leaves[2 * i + 1];
        hasher.reset();
        hasher.update(a.as_slice());
        hasher.update(b.as_slice());
        let mut out: [u8; MDLEN] = [0u8; MDLEN];
        hasher.finish(&mut out);
        proof {
            assert(Seq::<u8>::empty() + a@ + b@ =~= a@ + b@);
            assert(out@ == H::hash_spec(padded[2 * i as int] + padded[2 * i as int + 1]));
        }
        leaves.set(i, out);
        i += 1;
    }
    leaves.truncate(half);
    proof {
        assert(leaf_views(leaves@) =~= level_up::<MDLEN, H>(entry));
    }
    dup
}

/// Reduce the leaves to their Merkle root in place. Returns whether any
/// adjacent duplicate digests were seen, which is informational: it can be
/// legitimate odd-level duplication as well as a sign of tampering. The
/// leaves must not be empty, else `InvalidMerkleLeaves`.
pub fn compute_root<const MDLEN: usize, H: OneWayHasher<MDLEN>>(
    leaves: &mut Vec<[u8; MDLEN]>,
) -> (r: Result<bool, Error>)
    requires
        2 * MDLEN < 0x2000000000000000,
    ensures
        match r {
            Ok(mutation) => {
                &&& old(leaves)@.len() > 0
                &&& mutation == mutation_found::<MDLEN, H>(leaf_views(old(leaves)@))
                &&& final(leaves)@.len() == 1
                &&& final(leaves)@[0]@ == merkle_root::<MDLEN, H>(leaf_views(old(leaves)@))
            },
            Err(e) => {
                &&& old(leaves)@.len() == 0
                &&& e.kind == ErrorKind::InvalidMerkleLeaves
                &&& final(leaves)@ == old(leaves)@
            },
        },
{
    if leaves.len() == 0 {
        return Err(Error::new(ErrorKind::InvalidMerkleLeaves, "no leaves to reduce"));
    }
    let ghost orig = leaf_views(leaves@);
    let mut mutation = false;
    let mut hasher: H = H::init();
    while leaves.len() > 1
        invariant
            2 * MDLEN < 0x2000000000000000,
            leaves@.len() >= 1,
            merkle_root::<MDLEN, H>(leaf_views(leaves@)) == merkle_root::<MDLEN, H>(orig),
            mutation_found::<MDLEN, H>(orig) == (mutation || mutation_found::<MDLEN, H>(
                leaf_views(leaves@),
            )),
        decreases leaves@.len(),
    {
        let ghost cur = leaf_views(leaves@);
        let dup = reduce_level::<MDLEN, H>(leaves, &mut hasher);
        if dup {
            mutation = true;
        }
        proof {
            vstd::arithmetic::div_mod::lemma_mod_twice(pad_level(cur).len() as int, 2);
            assert(pad_level(cur).len() % 2 == 0);
            assert(leaves@.len() < cur.len() || cur.len() <= 1);
        }
    }
    proof {
        assert(merkle_root::<MDLEN, H>(leaf_views(leaves@)) == leaf_views(leaves@)[0]);
        assert(!mutation_found::<MDLEN, H>(leaf_views(leaves@)));
    }
    Ok(mutation)
}

/// Reduce the leaves and record the inclusion proof for the leaf at `index`:
/// at each level the sibling of the tracked node, tagged `Left` when the
/// tracked index is odd and `Right` when it is even. Fails with
/// `InvalidIndex` when `index` is out of range.
pub fn compute_proof<const MDLEN: usize, H: OneWayHasher<MDLEN>>(
    leaves: &mut Vec<[u8; MDLEN]>,
    index: usize,
) -> (r: Result<(Proof<MDLEN>, bool), Error>)
    requires
        2 * MDLEN < 0x2000000000000000,
    ensures
        match r {
            Ok(p) => {
                &&& index < old(leaves)@.len()
                &&& nodes_view(p.0@) == proof_nodes::<MDLEN, H>(
                    leaf_views(old(leaves)@),
                    index as int,
                )
                &&& p.1 == mutation_found::<MDLEN, H>(leaf_views(old(leaves)@))
                &&& final(leaves)@.len() == 1
                &&& final(leaves)@[0]@ == merkle_root::<MDLEN, H>(leaf_views(old(leaves)@))
            },
            Err(e) => {
                &&& index >= old(leaves)@.len()
                &&& e.kind == ErrorKind::InvalidIndex
                &&& final(leaves)@ == old(leaves)@
            },
        },
{
    if index >= leaves.len() {
        return Err(Error::new(ErrorKind::InvalidIndex, "leaf index is out of range"));
    }
    let ghost orig = leaf_views(leaves@);
    let mut proof: Proof<MDLEN> = Vec::new();
    let mut mutation = false;
    let mut hasher: H = H::init();
    let mut idx = index;
    while leaves.len() > 1
        invariant
            2 * MDLEN < 0x2000000000000000,
            leaves@.len() >= 1,
            idx < leaves@.len(),
            merkle_root::<MDLEN, H>(leaf_views(leaves@)) == merkle_root::<MDLEN, H>(orig),
            mutation_found::<MDLEN, H>(orig) == (mutation || mutation_found::<MDLEN, H>(
                leaf_views(leaves@),
            )),
            proof_nodes::<MDLEN, H>(orig, index as int) == nodes_view(proof@) + proof_nodes::<
                MDLEN,
                H,
            >(leaf_views(leaves@), idx as int),
        decreases leaves@.len(),
    {
        let ghost cur = leaf_views(leaves@);
        let ghost proof_entry = proof@;
        let sibling_index = if idx % 2 == 1 {
            idx - 1
        } else {
            idx + 1
        };
        // The sibling must be read from the padded level.
        if leaves.len() % 2 == 1 && sibling_index == leaves.len() {
            let last = leaves[leaves.len() - 1];
            proof.push(ChildNode::Right(last));
        } else {
            let sib = leaves[sibling_index];
            if idx % 2 == 1 {
                proof.push(ChildNode::Left(sib));
            } else {
                proof.push(ChildNode::Right(sib));
            }
        }
        proof {
            let p = pad_level(cur);
            let node = if (idx as int) % 2 == 1 {
                SiblingSpec::Left(p[idx - 1])
            } else {
                SiblingSpec::Right(p[idx + 1])
            };
            assert(nodes_view(proof@) =~= nodes_view(proof_entry).push(node));
            assert(nodes_view(proof_entry) + (seq![node] + proof_nodes::<MDLEN, H>(
                level_up::<MDLEN, H>(cur),
                idx as int / 2,
            )) =~= nodes_view(proof@) + proof_nodes::<MDLEN, H>(
                level_up::<MDLEN, H>(cur),
                idx as int / 2,
            ));
        }
        let dup = reduce_level::<MDLEN, H>(leaves, &mut hasher);
        if dup {
            mutation = true;
        }
        idx = idx / 2;
        proof {
            vstd::arithmetic::div_mod::lemma_mod_twice(pad_level(cur).len() as int, 2);
            assert(pad_level(cur).len() % 2 == 0);
            assert(leaves@.len() < cur.len() || cur.len() <= 1);
            assert(idx < leaves@.len());
        }
    }
    proof {
        assert(nodes_view(proof@) + proof_nodes::<MDLEN, H>(
            leaf_views(leaves@),
            idx as int,
        ) =~= nodes_view(proof@));
        assert(merkle_root::<MDLEN, H>(leaf_views(leaves@)) == leaf_views(leaves@)[0]);
    }
    Ok((proof, mutation))
}

/// Fold an inclusion proof from a leaf digest up to the root it implies,
/// in place: `Left(s)` steps to `H(s || d)`, `Right(s)` to `H(d || s)`.
pub fn prove<const MDLEN: usize, H: OneWayHasher<MDLEN>>(
    proof: Proof<MDLEN>,
    digest: &mut [u8; MDLEN],
)
    requires
        2 * MDLEN < 0x2000000000000000,
    ensures
        final(digest)@ == fold_proof::<MDLEN, H>(nodes_view(proof@), old(digest)@),
{
    let ghost nodes = nodes_view(proof@);
    let mut hasher: H = H::init();
    let n = proof.len();
    let mut i: usize = 0;
    proof {
        assert(nodes.skip(0) =~= nodes);
    }
    while i < n
        invariant
            2 * MDLEN < 0x2000000000000000,
            n == proof@.len(),
            i <= n,
            nodes == nodes_view(proof@),
            digest@.len() == MDLEN,
            fold_proof::<MDLEN, H>(nodes, old(digest)@) == fold_proof::<MDLEN, H>(
                nodes.skip(i as int),
                digest@,
            ),
        decreases n - i,
    {
        let d = *digest;
        hasher.reset();
        match &proof[i] {
            ChildNode::Left(sibling) => {
                hasher.update(sibling.as_slice());
                hasher.update(d.as_slice());
                proof {
                    assert(Seq::<u8>::empty() + sibling@ + d@ =~= sibling@ + d@);
                }
            },
            ChildNode::Right(sibling) => {
                hasher.update(d.as_slice());
                hasher.update(sibling.as_slice());
                proof {
                    assert(Seq::<u8>::empty() + d@ + sibling@ =~= d@ + sibling@);
                }
            },
        }
        hasher.finish(digest);
        i += 1;
        proof {
            assert(nodes.skip(i - 1).drop_first() =~= nodes.skip(i as int));
            assert(nodes.skip(i - 1)[0] == nodes[i - 1]);
        }
    }
    proof {
        assert(nodes.skip(n as int) =~= Seq::<SiblingSpec>::empty());
    }
}

/// Folding the inclusion proof of the leaf at `index` from that leaf itself
/// reconstructs exactly the Merkle root of the whole leaf sequence.
pub proof fn lemma_proof_verifies<const MDLEN: usize, H: OneWayHasher<MDLEN>>(
    leaves: Seq<Seq<u8>>,
    index: int,
)
    requires
        0 <= index < leaves.len(),
    ensures
        fold_proof::<MDLEN, H>(proof_nodes::<MDLEN, H>(leaves, index), leaves[index])
            == merkle_root::<MDLEN, H>(leaves),
    decreases leaves.len(),
{
    if leaves.len() <= 1 {
    } else {
        let p = pad_level(leaves);
        let up = level_up::<MDLEN, H>(leaves);
        let node = if index % 2 == 1 {
            SiblingSpec::Left(p[index - 1])
        } else {
            SiblingSpec::Right(p[index + 1])
        };
        let nodes = proof_nodes::<MDLEN, H>(leaves, index);
        let combined = if index % 2 == 1 {
            H::hash_spec(p[index - 1] + leaves[index])
        } else {
            H::hash_spec(leaves[index] + p[index + 1])
        };
        assert(p[index] == leaves[index]);
        assert(combined == up[index / 2]) by {
            if index % 2 == 1 {
                assert(2 * (index / 2) == index - 1);
            } else {
                assert(2 * (index / 2) == index);
            }
        }
        assert(nodes.drop_first() =~= proof_nodes::<MDLEN, H>(up, index / 2));
        assert(fold_proof::<MDLEN, H>(nodes, leaves[index]) == fold_proof::<MDLEN, H>(
            proof_nodes::<MDLEN, H>(up, index / 2),
            up[index / 2],
        ));
        lemma_proof_verifies::<MDLEN, H>(up, index / 2);
    }
}

/// Merkle reduction is insensitive to duplicate-leaf padding: duplicating the
/// last leaf of an odd level by hand derives the same root.
pub proof fn lemma_root_odd_padding<const MDLEN: usize, H: OneWayHasher<MDLEN>>(
    leaves: Seq<Seq<u8>>,
)
    requires
        leaves.len() > 1,
        leaves.len() % 2 == 1,
    ensures
        merkle_root::<MDLEN, H>(leaves) == merkle_root::<MDLEN, H>(leaves.push(leaves.last())),
{
    let padded = leaves.push(leaves.last());
    assert(pad_level(padded) =~= pad_level(leaves));
    assert(level_up::<MDLEN, H>(padded) == level_up::<MDLEN, H>(leaves));
}

} // verus!
