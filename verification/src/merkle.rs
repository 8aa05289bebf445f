//! Incremental Merkle tree for storing commitments.
//!
//! The tree keeps only `TREE_DEPTH` "filled subtree" nodes, the current root
//! and a leaf counter, yet supports appending a leaf with `TREE_DEPTH` hash
//! evaluations. Keccak-256 hashes a left and a right child into their parent.

use vstd::prelude::*;
use vstd::arithmetic::power2::{pow2, lemma_pow2_adds, lemma_pow2_pos, lemma2_to64};
use vstd::arithmetic::div_mod::{
    lemma_fundamental_div_mod, lemma_div_denominator, lemma_div_is_ordered,
};

verus! {

/// Merkle tree depth (10 levels = 2^10 = 1,024 leaves).
pub const TREE_DEPTH: usize = 10;

/// Zero value for empty leaves.
pub const ZERO_VALUE: [u8; 32] = [
    0x29, 0x0d, 0xec, 0xd9, 0x54, 0x8b, 0x62, 0xa8,
    0xd6, 0x03, 0x45, 0xa9, 0x88, 0x38, 0x6f, 0xc8,
    0x4b, 0xa6, 0xbc, 0x95, 0x48, 0x40, 0x08, 0xf6,
    0x36, 0x2f, 0x93, 0x16, 0x0e, 0xf3, 0xe5, 0x63,
];

/// Precomputed per-level "empty subtree" hashes:
/// `ZERO_HASHES[0] == ZERO_VALUE` and `ZERO_HASHES[i]` is the Keccak-256
/// hash of `ZERO_HASHES[i-1]` twice. The chain equations are checked by a
/// test against the real hash.
pub const ZERO_HASHES: [[u8; 32]; 11] = [
    [
        0x29, 0x0d, 0xec, 0xd9, 0x54, 0x8b, 0x62, 0xa8,
        0xd6, 0x03, 0x45, 0xa9, 0x88, 0x38, 0x6f, 0xc8,
        0x4b, 0xa6, 0xbc, 0x95, 0x48, 0x40, 0x08, 0xf6,
        0x36, 0x2f, 0x93, 0x16, 0x0e, 0xf3, 0xe5, 0x63,
    ],
    [
        0x63, 0x3d, 0xc4, 0xd7, 0xda, 0x72, 0x56, 0x66,
        0x0a, 0x89, 0x2f, 0x8f, 0x16, 0x04, 0xa4, 0x4b,
        0x54, 0x32, 0x64, 0x9c, 0xc8, 0xec, 0x5c, 0xb3,
        0xce, 0xd4, 0xc4, 0xe6, 0xac, 0x94, 0xdd, 0x1d,
    ],
    [
        0x89, 0x07, 0x40, 0xa8, 0xeb, 0x06, 0xce, 0x9b,
        0xe4, 0x22, 0xcb, 0x8d, 0xa5, 0xcd, 0xaf, 0xc2,
        0xb5, 0x8c, 0x0a, 0x5e, 0x24, 0x03, 0x6c, 0x57,
        0x8d, 0xe2, 0xa4, 0x33, 0xc8, 0x28, 0xff, 0x7d,
    ],
    [
        0x3b, 0x8e, 0xc0, 0x9e, 0x02, 0x6f, 0xdc, 0x30,
        0x53, 0x65, 0xdf, 0xc9, 0x4e, 0x18, 0x9a, 0x81,
        0xb3, 0x8c, 0x75, 0x97, 0xb3, 0xd9, 0x41, 0xc2,
        0x79, 0xf0, 0x42, 0xe8, 0x20, 0x6e, 0x0b, 0xd8,
    ],
    [
        0xec, 0xd5, 0x0e, 0xee, 0x38, 0xe3, 0x86, 0xbd,
        0x62, 0xbe, 0x9b, 0xed, 0xb9, 0x90, 0x70, 0x69,
        0x51, 0xb6, 0x5f, 0xe0, 0x53, 0xbd, 0x9d, 0x8a,
        0x52, 0x1a, 0xf7, 0x53, 0xd1, 0x39, 0xe2, 0xda,
    ],
    [
        0xde, 0xff, 0xf6, 0xd3, 0x30, 0xbb, 0x54, 0x03,
        0xf6, 0x3b, 0x14, 0xf3, 0x3b, 0x57, 0x82, 0x74,
        0x16, 0x0d, 0xe3, 0xa5, 0x0d, 0xf4, 0xef, 0xec,
        0xf0, 0xe0, 0xdb, 0x73, 0xbc, 0xdd, 0x3d, 0xa5,
    ],
    [
        0x61, 0x7b, 0xdd, 0x11, 0xf7, 0xc0, 0xa1, 0x1f,
        0x49, 0xdb, 0x22, 0xf6, 0x29, 0x38, 0x7a, 0x12,
        0xda, 0x75, 0x96, 0xf9, 0xd1, 0x70, 0x4d, 0x74,
        0x65, 0x17, 0x7c, 0x63, 0xd8, 0x8e, 0xc7, 0xd7,
    ],
    [
        0x29, 0x2c, 0x23, 0xa9, 0xaa, 0x1d, 0x8b, 0xea,
        0x7e, 0x24, 0x35, 0xe5, 0x55, 0xa4, 0xa6, 0x0e,
        0x37, 0x9a, 0x5a, 0x35, 0xf3, 0xf4, 0x52, 0xba,
        0xe6, 0x01, 0x21, 0x07, 0x3f, 0xb6, 0xee, 0xad,
    ],
    [
        0xe1, 0xce, 0xa9, 0x2e, 0xd9, 0x9a, 0xcd, 0xcb,
        0x04, 0x5a, 0x67, 0x26, 0xb2, 0xf8, 0x71, 0x07,
        0xe8, 0xa6, 0x16, 0x20, 0xa2, 0x32, 0xcf, 0x4d,
        0x7d, 0x5b, 0x57, 0x66, 0xb3, 0x95, 0x2e, 0x10,
    ],
    [
        0x7a, 0xd6, 0x6c, 0x0a, 0x68, 0xc7, 0x2c, 0xb8,
        0x9e, 0x4f, 0xb4, 0x30, 0x38, 0x41, 0x96, 0x6e,
        0x40, 0x62, 0xa7, 0x6a, 0xb9, 0x74, 0x51, 0xe3,
        0xb9, 0xfb, 0x52, 0x6a, 0x5c, 0xeb, 0x7f, 0x82,
    ],
    [
        0xe0, 0x26, 0xcc, 0x5a, 0x4a, 0xed, 0x3c, 0x22,
        0xa5, 0x8c, 0xbd, 0x3d, 0x2a, 0xc7, 0x54, 0xc9,
        0x35, 0x2c, 0x54, 0x36, 0xf6, 0x38, 0x04, 0x2d,
        0xca, 0x99, 0x03, 0x4e, 0x83, 0x63, 0x65, 0x16,
    ],
];

/// The Keccak-256 digest of a byte string, named but not written out:
/// every statement about hashing in this crate goes through this name.
pub uninterp spec fn keccak_of(bytes: Seq<u8>) -> Seq<u8>;

/// Relies on `solana_program::keccak::hash`: the Keccak-256 digest of the
/// input, 32 bytes long, a function of the input bytes alone.
#[verifier::external_body]
fn keccak256_pair_buffer(bytes: &[u8; 64]) -> (r: [u8; 32])
    ensures
        r@ == keccak_of(bytes@),
{
    solana_program::keccak::hash(bytes).to_bytes()
}

/// The hash of an internal node from its two 32-byte children.
pub open spec fn hash_pair_of(left: Seq<u8>, right: Seq<u8>) -> Seq<u8> {
    keccak_of(left + right)
}

/// Get zero hash for a specific level (O(1) table lookup).
pub fn get_zero_hash(level: usize) -> (r: [u8; 32])
    requires
        level <= TREE_DEPTH,
    ensures
        r@ == zero_at(level as int),
{
    ZERO_HASHES[level]
}

/// The empty-subtree hash at a level, as the table gives it.
pub open spec fn zero_at(level: int) -> Seq<u8> {
    ZERO_HASHES@[level]@
}

/// Hash two 32-byte values together using Keccak-256 over their
/// 64-byte concatenation.
pub fn hash_pair(left: &[u8; 32], right: &[u8; 32]) -> (r: [u8; 32])
    ensures
        r@ == hash_pair_of(left@, right@),
{
    let mut combined: [u8; 64] = [0u8; 64];
    for i in 0..32
        invariant
            forall|j: int| 0 <= j < i ==> combined@[j] == left@[j],
    {
        combined[i] = left[i];
    }
    for i in 0..32
        invariant
            forall|j: int| 0 <= j < 32 ==> combined@[j] == left@[j],
            forall|j: int| 32 <= j < 32 + i ==> combined@[j] == right@[j - 32],
    {
        combined[32 + i] = right[i];
    }
    proof {
        assert(combined@ =~= left@ + right@);
    }
    keccak256_pair_buffer(&combined)
}

/// Custom errors for Merkle tree operations.
#[derive(Clone, Copy, Debug, PartialEq, Eq)]
pub enum MerkleError {
    /// The tree already holds `2^TREE_DEPTH` leaves.
    TreeFull,
    /// Reserved: a membership proof did not check out.
    InvalidProof,
    /// Reserved: a leaf index outside the tree.
    InvalidLeafIndex,
}

/// The views of a sequence of 32-byte nodes.
pub open spec fn views_of(nodes: Seq<[u8; 32]>) -> Seq<Seq<u8>> {
    nodes.map_values(|node: [u8; 32]| node@)
}

/// The hash at `(level, index)` of the depth-`TREE_DEPTH` tree whose first
/// `leaves.len()` leaves are `leaves` and whose remaining leaves are empty.
/// A subtree holding no inserted leaf is the table's zero hash for its level,
/// exactly as the incremental insertion computes it.
pub open spec fn node_hash(leaves: Seq<Seq<u8>>, level: int, index: int) -> Seq<u8>
    decreases level,
{
    if level <= 0 {
        if 0 <= index < leaves.len() {
            leaves[index]
        } else {
            zero_at(0)
        }
    } else if index * pow2(level as nat) >= leaves.len() {
        zero_at(level)
    } else {
        hash_pair_of(
            node_hash(leaves, level - 1, 2 * index),
            node_hash(leaves, level - 1, 2 * index + 1),
        )
    }
}

/// Incremental Merkle tree state: the leaf counter, one pending left-hand
/// node per level, and the current root. The ordered sequence of inserted
/// leaves is carried as ghost bookkeeping; `wf` ties the executable fields
/// to it.
#[derive(Clone)]
pub struct IncrementalMerkleTree {
    /// Current number of leaves in the tree.
    pub next_index: u64,
    /// The most recently computed left-hand node at each level that is
    /// still awaiting its right sibling.
    pub filled_subtrees: [[u8; 32]; TREE_DEPTH],
    /// Current root of the tree.
    pub current_root: [u8; 32],
    /// The ordered sequence of leaves inserted so far (ghost).
    pub leaves: Ghost<Seq<Seq<u8>>>,
}

impl IncrementalMerkleTree {
    /// Size of the tree state in bytes when persisted:
    /// leaf counter, filled-subtree array, root.
    pub const SIZE: usize = 8 + (32 * TREE_DEPTH) + 32;

    /// Maximum number of leaves.
    pub const MAX_LEAVES: u64 = 1024;

    /// The root that the inserted leaves determine.
    pub open spec fn root_spec(self) -> Seq<u8> {
        node_hash(self.leaves@, TREE_DEPTH as int, 0)
    }

    /// Well-formedness: the executable fields are exactly what the ghost
    /// leaf sequence determines. `filled_subtrees[l]` matters only while
    /// the node index at level `l` is odd (a left sibling is pending).
    pub open spec fn wf(self) -> bool {
        &&& self.leaves@.len() == self.next_index as int
        &&& self.next_index <= Self::MAX_LEAVES
        &&& forall|i: int|
            0 <= i < self.leaves@.len() ==> (#[trigger] self.leaves@[i]).len() == 32
        &&& self.current_root@ == self.root_spec()
        &&& forall|l: int|
            0 <= l < TREE_DEPTH as int
                && ((self.next_index as int / pow2(l as nat) as int) % 2 == 1)
                ==> (#[trigger] self.filled_subtrees@[l])@ == node_hash(
                    self.leaves@,
                    l,
                    self.next_index as int / pow2(l as nat) as int - 1,
                )
    }

    /// Create a new empty tree.
    pub fn new() -> (r: Self)
        ensures
            r.wf(),
            r.leaves@ == Seq::<Seq<u8>>::empty(),
            r.next_index == 0,
            r.current_root@ == zero_at(TREE_DEPTH as int),
            forall|i: int|
                0 <= i < TREE_DEPTH as int ==> (#[trigger] r.filled_subtrees@[i])@ == zero_at(i),
    {
        let mut filled_subtrees: [[u8; 32]; TREE_DEPTH] = [[0u8; 32]; TREE_DEPTH];
        for i in 0..TREE_DEPTH
            invariant
                forall|j: int| 0 <= j < i ==> (#[trigger] filled_subtrees@[j])@ == zero_at(j),
        {
            filled_subtrees[i] = get_zero_hash(i);
        }
        let current_root = get_zero_hash(TREE_DEPTH);
        let t = IncrementalMerkleTree {
            next_index: 0,
            filled_subtrees,
            current_root,
            leaves: Ghost(Seq::empty()),
        };
        proof {
            lemma_pow2_pos(TREE_DEPTH as nat);
            assert(t.root_spec() == zero_at(TREE_DEPTH as int));
            assert forall|l: int|
                0 <= l < TREE_DEPTH as int
                    && ((t.next_index as int / pow2(l as nat) as int) % 2 == 1)
                    implies (#[trigger] t.filled_subtrees@[l])@ == node_hash(
                        t.leaves@, l, t.next_index as int / pow2(l as nat) as int - 1,
                    ) by {
                lemma_pow2_pos(l as nat);
                vstd::arithmetic::div_mod::lemma_div_of0(pow2(l as nat) as int);
            }
        }
        t
    }

    /// Insert a new leaf into the tree and return its index.
    ///
    /// At each level where the node index on the insertion path is even,
    /// the running hash is stored into `filled_subtrees` as the left child
    /// awaiting its right sibling; every other level keeps its old value.
    /// Fails with `TreeFull` when the tree already holds `MAX_LEAVES`
    /// leaves, in which case the state is left exactly as it was.
    #[verifier::rlimit(30)]
    pub fn insert(&mut self, leaf: [u8; 32]) -> (r: Result<u64, MerkleError>)
        requires
            old(self).wf(),
        ensures
            final(self).wf(),
            old(self).next_index < Self::MAX_LEAVES ==> {
                &&& r == Ok::<u64, MerkleError>(old(self).next_index)
                &&& final(self).leaves@ == old(self).leaves@.push(leaf@)
                &&& final(self).next_index == old(self).next_index + 1
                &&& forall|l: int|
                    0 <= l < TREE_DEPTH as int
                        && (old(self).next_index as int / pow2(l as nat) as int) % 2 == 0
                        ==> (#[trigger] final(self).filled_subtrees@[l])@ == node_hash(
                            old(self).leaves@.push(leaf@),
                            l,
                            old(self).next_index as int / pow2(l as nat) as int,
                        )
                &&& forall|l: int|
                    0 <= l < TREE_DEPTH as int
                        && (old(self).next_index as int / pow2(l as nat) as int) % 2 == 1
                        ==> #[trigger] final(self).filled_subtrees@[l]
                            == old(self).filled_subtrees@[l]
            },
            old(self).next_index >= Self::MAX_LEAVES ==> {
                &&& r == Err::<u64, MerkleError>(MerkleError::TreeFull)
                &&& *final(self) == *old(self)
            },
    {
        if self.next_index >= Self::MAX_LEAVES {
            return Err(MerkleError::TreeFull);
        }

        let ghost n = old(self).next_index as int;
        let ghost grown = old(self).leaves@.push(leaf@);

        let leaf_index = self.next_index;
        let mut current_hash = leaf;
        let mut current_index = leaf_index;

        proof {
            lemma2_to64();
            vstd::arithmetic::div_mod::lemma_div_basics(n);
            assert(grown[n] == leaf@);
        }

        // Walk up the tree, computing hashes
        for level in 0..TREE_DEPTH
            invariant
                old(self).wf(),
                old(self).next_index < Self::MAX_LEAVES,
                n == old(self).next_index as int,
                grown == old(self).leaves@.push(leaf@),
                self.next_index == old(self).next_index,
                self.current_root == old(self).current_root,
                self.leaves == old(self).leaves,
                current_index as int == n / pow2(level as nat) as int,
                current_hash@ == node_hash(grown, level as int, n / pow2(level as nat) as int),
                forall|k: int|
                    level as int <= k < TREE_DEPTH as int
                        ==> #[trigger] self.filled_subtrees@[k]
                            == old(self).filled_subtrees@[k],
                forall|k: int|
                    0 <= k < level as int && (n / pow2(k as nat) as int) % 2 == 0
                        ==> (#[trigger] self.filled_subtrees@[k])@
                            == node_hash(grown, k, n / pow2(k as nat) as int),
                forall|k: int|
                    0 <= k < level as int && (n / pow2(k as nat) as int) % 2 == 1
                        ==> #[trigger] self.filled_subtrees@[k]
                            == old(self).filled_subtrees@[k],
        {
            let ghost l = level as int;
            let ghost p = pow2(level as nat) as int;
            let ghost i = n / p;
            proof {
                lemma_pow2_pos(level as nat);
                lemma2_to64();
                lemma_pow2_adds(level as nat, 1);
                lemma_fundamental_div_mod(n, p);
                vstd::arithmetic::div_mod::lemma_mod_division_less_than_divisor(n, p);
                assert(i * p <= n) by (nonlinear_arith)
                    requires
                        n == p * i + n % p,
                        0 <= n % p;
                assert(n < i * p + p) by (nonlinear_arith)
                    requires
                        n == p * i + n % p,
                        n % p < p;
                lemma_div_denominator(n, p, 2);
                assert(n / (pow2((level + 1) as nat) as int) == i / 2);
                lemma_fundamental_div_mod(i, 2);
            }
            let is_left = current_index % 2 == 0;

            if is_left {
                // left child: remember it and pair it with the zero subtree
                let right = get_zero_hash(level);
                self.filled_subtrees[level] = current_hash;
                proof {
                    let i2 = i / 2;
                    assert(i == 2 * i2);
                    assert(i2 * (2 * p) == i * p) by (nonlinear_arith)
                        requires i == 2 * i2;
                    assert(i2 * (2 * p) <= n);
                    assert((i + 1) * p == i * p + p) by (nonlinear_arith);
                    assert(grown.len() == n + 1);
                    assert((i + 1) * p >= grown.len());
                    if l == 0 {
                        assert(p == 1);
                        assert((i + 1) * p == i + 1) by (nonlinear_arith)
                            requires p == 1;
                        assert(i + 1 >= grown.len());
                        assert(node_hash(grown, l, i + 1) == zero_at(0));
                    }
                    assert(node_hash(grown, l, i + 1) == zero_at(l));
                    assert(node_hash(grown, l + 1, i2) == hash_pair_of(
                        node_hash(grown, l, i), node_hash(grown, l, i + 1),
                    ));
                }
                current_hash = hash_pair(&current_hash, &right);
            } else {
                // right child: combine with the stored left sibling
                let left = self.filled_subtrees[level];
                proof {
                    let i2 = i / 2;
                    assert(i == 2 * i2 + 1);
                    assert(left@ == node_hash(old(self).leaves@, l, i - 1));
                    assert(i * p <= n);
                    lemma_node_hash_push(old(self).leaves@, leaf@, l, i - 1);
                    assert(left@ == node_hash(grown, l, i - 1));
                    assert(i2 * (2 * p) == (i - 1) * p) by (nonlinear_arith)
                        requires i == 2 * i2 + 1;
                    assert((i - 1) * p <= i * p) by (nonlinear_arith)
                        requires p > 0 && i >= 1;
                    assert(i2 * (2 * p) <= n);
                    assert(node_hash(grown, l + 1, i2) == hash_pair_of(
                        node_hash(grown, l, i - 1), node_hash(grown, l, i),
                    ));
                }
                current_hash = hash_pair(&left, &current_hash);
            }

            current_index = current_index / 2;
        }

        // Commit: the new root, counter and ghost leaf record together
        self.current_root = current_hash;
        self.next_index = self.next_index + 1;
        proof {
            self.leaves@ = grown;
        }

        proof {
            lemma2_to64();
            vstd::arithmetic::div_mod::lemma_basic_div(n, pow2(TREE_DEPTH as nat) as int);
            assert(self.current_root@ == node_hash(grown, TREE_DEPTH as int, 0));
            assert forall|k: int|
                0 <= k < TREE_DEPTH as int
                    && ((self.next_index as int / pow2(k as nat) as int) % 2 == 1)
                    implies (#[trigger] self.filled_subtrees@[k])@ == node_hash(
                        self.leaves@, k, self.next_index as int / pow2(k as nat) as int - 1,
                    ) by {
                let q = pow2(k as nat) as int;
                lemma_pow2_pos(k as nat);
                let m = n / q;
                let m1 = (n + 1) / q;
                lemma_fundamental_div_mod(n, q);
                vstd::arithmetic::div_mod::lemma_mod_division_less_than_divisor(n, q);
                assert(m * q <= n) by (nonlinear_arith)
                    requires
                        n == q * m + n % q,
                        0 <= n % q;
                assert(n < m * q + q) by (nonlinear_arith)
                    requires
                        n == q * m + n % q,
                        n % q < q;
                lemma_div_is_ordered(n, n + 1, q);
                assert(n + 1 <= m * q + q);
                vstd::arithmetic::div_mod::lemma_div_by_multiple(m + 1, q);
                assert((m + 1) * q == m * q + q) by (nonlinear_arith);
                lemma_div_is_ordered(n + 1, m * q + q, q);
                assert(m <= m1 <= m + 1);
                if m % 2 == 0 {
                    assert(m1 == m + 1);
                    assert(self.filled_subtrees@[k]@ == node_hash(grown, k, m));
                } else {
                    assert(m1 == m);
                    assert(self.filled_subtrees@[k] == old(self).filled_subtrees@[k]);
                    assert(old(self).filled_subtrees@[k]@
                        == node_hash(old(self).leaves@, k, m - 1));
                    assert(m * q <= n);
                    lemma_node_hash_push(old(self).leaves@, leaf@, k, m - 1);
                }
            }
        }

        Ok(leaf_index)
    }

    /// Get the current root.
    pub fn root(&self) -> (r: [u8; 32])
        ensures
            r == self.current_root,
            self.wf() ==> r@ == self.root_spec(),
    {
        self.current_root
    }

    /// Check whether a candidate root matches the current root: this tree
    /// keeps a single live root, not a history window.
    pub fn is_known_root(&self, root: &[u8; 32]) -> (r: bool)
        ensures
            r == (root@ == self.current_root@),
    {
        bytes32_eq(root, &self.current_root)
    }
}

/// Appending a leaf does not change the hash of a subtree that lies
/// entirely within the leaves already present, nor of one that lies
/// entirely beyond the appended position.
#[verifier::rlimit(30)]
proof fn lemma_node_hash_push(leaves: Seq<Seq<u8>>, leaf: Seq<u8>, level: int, index: int)
    requires
        0 <= level,
        0 <= index,
        (index + 1) * pow2(level as nat) <= leaves.len()
            || index * pow2(level as nat) > leaves.len(),
    ensures
        node_hash(leaves.push(leaf), level, index) == node_hash(leaves, level, index),
    decreases level,
{
    let p = pow2(level as nat) as int;
    lemma_pow2_pos(level as nat);
    lemma2_to64();
    if level == 0 {
        // at a leaf both trees read the same position, or both read the zero leaf
        assert(p == 1);
        assert((index + 1) * p == index + 1) by (nonlinear_arith)
            requires p == 1;
        assert(index * p == index) by (nonlinear_arith)
            requires p == 1;
    } else {
        let p1 = pow2((level - 1) as nat) as int;
        lemma_pow2_adds((level - 1) as nat, 1);
        assert(p == 2 * p1);
        if (index + 1) * p <= leaves.len() {
            assert(index * p < (index + 1) * p) by (nonlinear_arith)
                requires p > 0;
            assert((2 * index + 1) * p1 <= (2 * index + 2) * p1) by (nonlinear_arith)
                requires p1 > 0;
            assert((2 * index + 2) * p1 == (index + 1) * p) by (nonlinear_arith)
                requires p == 2 * p1;
            lemma_node_hash_push(leaves, leaf, level - 1, 2 * index);
            lemma_node_hash_push(leaves, leaf, level - 1, 2 * index + 1);
            assert(index * p < leaves.len());
            assert(index * p < leaves.push(leaf).len());
            assert(node_hash(leaves.push(leaf), level, index) == hash_pair_of(
                node_hash(leaves.push(leaf), level - 1, 2 * index),
                node_hash(leaves.push(leaf), level - 1, 2 * index + 1),
            ));
            assert(node_hash(leaves, level, index) == hash_pair_of(
                node_hash(leaves, level - 1, 2 * index),
                node_hash(leaves, level - 1, 2 * index + 1),
            ));
        } else {
            assert(index * p > leaves.len());
            assert(index * p >= leaves.push(leaf).len());
            assert(node_hash(leaves.push(leaf), level, index) == zero_at(level));
            assert(node_hash(leaves, level, index) == zero_at(level));
        }
    }
}

impl Default for IncrementalMerkleTree {
    /// The empty tree.
    fn default() -> (r: Self)
        ensures
            r.wf(),
            r.next_index == 0,
            r.leaves@ == Seq::<Seq<u8>>::empty(),
            r.current_root@ == zero_at(TREE_DEPTH as int),
            forall|i: int|
                0 <= i < TREE_DEPTH as int ==> (#[trigger] r.filled_subtrees@[i])@ == zero_at(i),
    {
        Self::new()
    }
}

/// Byte-wise equality of two 32-byte values.
fn bytes32_eq(a: &[u8; 32], b: &[u8; 32]) -> (r: bool)
    ensures
        r == (a@ == b@),
{
    let mut i: usize = 0;
    while i < 32
        invariant
            0 <= i <= 32,
            forall|j: int| 0 <= j < i ==> a@[j] == b@[j],
        decreases 32 - i,
    {
        if a[i] != b[i] {
            return false;
        }
        i = i + 1;
    }
    proof {
        assert(a@ =~= b@);
    }
    true
}

/// The node hashes of the tree that hashes every level out of the leaf
/// array zero-padded to full capacity, with no table short-cut for empty
/// subtrees: the shape that `generate_merkle_proof` computes.
pub open spec fn padded_node_hash(leaves: Seq<Seq<u8>>, level: int, index: int) -> Seq<u8>
    decreases level,
{
    if level <= 0 {
        if 0 <= index < leaves.len() {
            leaves[index]
        } else {
            zero_at(0)
        }
    } else {
        hash_pair_of(
            padded_node_hash(leaves, level - 1, 2 * index),
            padded_node_hash(leaves, level - 1, 2 * index + 1),
        )
    }
}

/// The index of the sibling of a leaf's ancestor node at a level.
pub open spec fn sibling_index(leaf_index: int, level: int) -> int {
    let i = leaf_index / pow2(level as nat) as int;
    if i % 2 == 0 {
        i + 1
    } else {
        i - 1
    }
}

/// The zero-hash table agrees with the hash: each level's entry is the
/// hash of the entry below it twice. Uninterpreted hashes cannot decide
/// this; a test holds the table to the real Keccak-256.
pub open spec fn zero_table_consistent() -> bool {
    forall|l: int|
        0 <= l < TREE_DEPTH as int ==> zero_at(l + 1) == hash_pair_of(zero_at(l), zero_at(l))
}

/// When the zero-hash table is consistent with the hash, rebuilding every
/// level from the zero-padded leaf array gives the same node hashes as the
/// incremental model with its table short-cut.
proof fn lemma_padded_node_hash_matches(leaves: Seq<Seq<u8>>, level: int, index: int)
    requires
        zero_table_consistent(),
        0 <= level <= TREE_DEPTH as int,
        0 <= index,
    ensures
        padded_node_hash(leaves, level, index) == node_hash(leaves, level, index),
    decreases level,
{
    lemma_pow2_pos(level as nat);
    lemma2_to64();
    if level == 0 {
        // both definitions read the same leaf position
    } else {
        let p = pow2(level as nat) as int;
        let p1 = pow2((level - 1) as nat) as int;
        lemma_pow2_adds((level - 1) as nat, 1);
        assert(p == 2 * p1);
        lemma_padded_node_hash_matches(leaves, level - 1, 2 * index);
        lemma_padded_node_hash_matches(leaves, level - 1, 2 * index + 1);
        if index * p >= leaves.len() {
            assert((2 * index) * p1 == index * p) by (nonlinear_arith)
                requires p == 2 * p1;
            assert((2 * index + 1) * p1 >= (2 * index) * p1) by (nonlinear_arith)
                requires p1 > 0;
            if level == 1 {
                assert(p1 == 1);
                assert((2 * index) * p1 == 2 * index) by (nonlinear_arith)
                    requires p1 == 1;
                assert((2 * index + 1) * p1 == 2 * index + 1) by (nonlinear_arith)
                    requires p1 == 1;
            }
            assert(node_hash(leaves, level - 1, 2 * index) == zero_at(level - 1));
            assert(node_hash(leaves, level - 1, 2 * index + 1) == zero_at(level - 1));
            assert(node_hash(leaves, level, index) == zero_at(level));
            assert(padded_node_hash(leaves, level, index)
                == hash_pair_of(zero_at(level - 1), zero_at(level - 1)));
            assert(zero_at(level) == hash_pair_of(zero_at(level - 1), zero_at(level - 1)));
        }
    }
}

/// The running hash that folding `siblings[0 .. upto]` into `leaf` yields,
/// combining left or right by the parity of the node index at each level.
pub open spec fn fold_path(leaf: Seq<u8>, leaf_index: int, siblings: Seq<Seq<u8>>, upto: int) -> Seq<u8>
    decreases upto,
{
    if upto <= 0 {
        leaf
    } else {
        let below = fold_path(leaf, leaf_index, siblings, upto - 1);
        if (leaf_index / pow2((upto - 1) as nat) as int) % 2 == 0 {
            hash_pair_of(below, siblings[upto - 1])
        } else {
            hash_pair_of(siblings[upto - 1], below)
        }
    }
}

/// Verify a Merkle membership proof: fold the sibling path into the leaf
/// with the same left/right parity rule that insertion uses and compare
/// the outcome to the expected root.
pub fn verify_merkle_proof(
    leaf: &[u8; 32],
    leaf_index: u64,
    siblings: &[[u8; 32]; TREE_DEPTH],
    root: &[u8; 32],
) -> (r: bool)
    ensures
        r == (fold_path(leaf@, leaf_index as int, views_of(siblings@), TREE_DEPTH as int)
            == root@),
{
    let mut current_hash: [u8; 32] = *leaf;
    let mut current_index: u64 = leaf_index;

    proof {
        lemma2_to64();
        vstd::arithmetic::div_mod::lemma_div_basics(leaf_index as int);
    }
    for level in 0..TREE_DEPTH
        invariant
            current_index as int == leaf_index as int / pow2(level as nat) as int,
            current_hash@ == fold_path(
                leaf@, leaf_index as int, views_of(siblings@), level as int,
            ),
    {
        proof {
            lemma_pow2_pos(level as nat);
        }
        let sibling = &siblings[level];
        let is_left = current_index % 2 == 0;

        current_hash = if is_left {
            hash_pair(&current_hash, sibling)
        } else {
            hash_pair(sibling, &current_hash)
        };

        proof {
            lemma2_to64();
            lemma_pow2_adds(level as nat, 1);
            lemma_div_denominator(leaf_index as int, pow2(level as nat) as int, 2);
        }
        current_index = current_index / 2;
    }

    bytes32_eq(&current_hash, root)
}

/// Generate a Merkle membership proof for one leaf out of the complete
/// leaf history, rebuilding every level from the leaf array zero-padded to
/// full capacity. A collaborator-side helper: the constrained path only
/// verifies proofs.
#[verifier::rlimit(30)]
pub fn generate_merkle_proof(leaves: &[[u8; 32]], leaf_index: usize) -> (r: Option<
    [[u8; 32]; TREE_DEPTH],
>)
    requires
        leaves@.len() <= 1024,
    ensures
        leaf_index >= leaves@.len() ==> r is None,
        leaf_index < leaves@.len() ==> {
            &&& r is Some
            &&& forall|l: int|
                0 <= l < TREE_DEPTH as int ==> (#[trigger] r->Some_0@[l])@ == padded_node_hash(
                    views_of(leaves@),
                    l,
                    sibling_index(leaf_index as int, l),
                )
        },
{
    if leaf_index >= leaves.len() {
        return None;
    }

    let ghost all = views_of(leaves@);
    let mut siblings: [[u8; 32]; TREE_DEPTH] = [[0u8; 32]; TREE_DEPTH];
    let mut level_nodes: Vec<[u8; 32]> = vstd::slice::slice_to_vec(leaves);

    // Pad to the full capacity with empty leaves
    while level_nodes.len() < 1024
        invariant
            leaves@.len() <= level_nodes@.len() <= 1024,
            all == views_of(leaves@),
            forall|j: int|
                0 <= j < level_nodes@.len() ==> (#[trigger] level_nodes@[j])@
                    == padded_node_hash(all, 0, j),
        decreases 1024 - level_nodes@.len(),
    {
        level_nodes.push(get_zero_hash(0));
    }

    let mut current_index = leaf_index;

    proof {
        lemma2_to64();
        vstd::arithmetic::div_mod::lemma_div_basics(leaf_index as int);
    }
    for level in 0..TREE_DEPTH
        invariant
            leaves@.len() <= 1024,
            leaf_index < leaves@.len(),
            all == views_of(leaves@),
            level_nodes@.len() == pow2((TREE_DEPTH - level) as nat),
            current_index as int == leaf_index as int / pow2(level as nat) as int,
            forall|j: int|
                0 <= j < level_nodes@.len() ==> (#[trigger] level_nodes@[j])@
                    == padded_node_hash(all, level as int, j),
            forall|l: int|
                0 <= l < level as int ==> (#[trigger] siblings@[l])@ == padded_node_hash(
                    all,
                    l,
                    sibling_index(leaf_index as int, l),
                ),
    {
        proof {
            lemma2_to64();
            lemma_pow2_pos(level as nat);
            lemma_pow2_pos((TREE_DEPTH - level) as nat);
            lemma_pow2_adds(level as nat, (TREE_DEPTH - level) as nat);
            lemma_pow2_adds((TREE_DEPTH - level - 1) as nat, 1);
            assert(pow2((TREE_DEPTH - level) as nat) <= 1024) by (nonlinear_arith)
                requires
                    pow2(level as nat) * pow2((TREE_DEPTH - level) as nat) == 1024,
                    pow2(level as nat) >= 1,
                    pow2((TREE_DEPTH - level) as nat) >= 1;
            assert((leaf_index as int) < pow2(level as nat) * pow2((TREE_DEPTH - level) as nat));
            vstd::arithmetic::div_mod::lemma_multiply_divide_lt(
                leaf_index as int,
                pow2(level as nat) as int,
                pow2((TREE_DEPTH - level) as nat) as int,
            );
            assert((current_index as int) < pow2((TREE_DEPTH - level) as nat));
        }
        let width = level_nodes.len();
        let sibling_pos = if current_index % 2 == 0 {
            proof {
                if current_index as int + 1 == width as int {
                    assert(width as int == 2 * pow2((TREE_DEPTH - level - 1) as nat));
                }
            }
            current_index + 1
        } else {
            current_index - 1
        };
        siblings[level] = level_nodes[sibling_pos];
        proof {
            assert(siblings@[level as int]@ == padded_node_hash(
                all, level as int, sibling_index(leaf_index as int, level as int),
            ));
        }

        // Compute the next level by hashing adjacent pairs
        let half = width / 2;
        proof {
            vstd::arithmetic::div_mod::lemma_div_by_multiple(
                pow2((TREE_DEPTH - level - 1) as nat) as int,
                2,
            );
            assert(half == pow2((TREE_DEPTH - level - 1) as nat));
        }
        let mut next_level: Vec<[u8; 32]> = Vec::new();
        for k in 0..half
            invariant
                half == pow2((TREE_DEPTH - level - 1) as nat),
                level_nodes@.len() <= 1024,
                level_nodes@.len() == pow2((TREE_DEPTH - level) as nat),
                level_nodes@.len() == 2 * pow2((TREE_DEPTH - level - 1) as nat),
                next_level@.len() == k,
                all == views_of(leaves@),
                forall|j: int|
                    0 <= j < level_nodes@.len() ==> (#[trigger] level_nodes@[j])@
                        == padded_node_hash(all, level as int, j),
                forall|j: int|
                    0 <= j < k ==> (#[trigger] next_level@[j])@
                        == padded_node_hash(all, level as int + 1, j),
        {
            let parent = hash_pair(&level_nodes[2 * k], &level_nodes[2 * k + 1]);
            next_level.push(parent);
        }
        proof {
            lemma_pow2_adds((TREE_DEPTH - level - 1) as nat, 1);
            assert(next_level@.len() == pow2((TREE_DEPTH - level - 1) as nat));
        }
        level_nodes = next_level;
        proof {
            lemma_pow2_adds(level as nat, 1);
            lemma_div_denominator(leaf_index as int, pow2(level as nat) as int, 2);
        }
        current_index = current_index / 2;
    }

    Some(siblings)
}

/// Law: the root is a pure function of the ordered sequence of inserted
/// leaves — two well-formed trees holding the same leaf sequence hold the
/// same root, however each arrived at it.
pub proof fn lemma_root_deterministic(t1: IncrementalMerkleTree, t2: IncrementalMerkleTree)
    requires
        t1.wf(),
        t2.wf(),
        t1.leaves@ == t2.leaves@,
    ensures
        t1.current_root@ == t2.current_root@,
{
}

/// Folding the true sibling path of a present leaf reproduces the node
/// hash of its ancestor at every level.
proof fn lemma_fold_path_nodes(leaves: Seq<Seq<u8>>, index: int, siblings: Seq<Seq<u8>>, upto: int)
    requires
        0 <= index < leaves.len(),
        0 <= upto <= TREE_DEPTH as int,
        forall|l: int|
            0 <= l < upto ==> siblings[l] == node_hash(leaves, l, sibling_index(index, l)),
    ensures
        fold_path(leaves[index], index, siblings, upto) == node_hash(
            leaves,
            upto,
            index / pow2(upto as nat) as int,
        ),
    decreases upto,
{
    lemma2_to64();
    if upto == 0 {
        vstd::arithmetic::div_mod::lemma_div_basics(index);
    } else {
        let u = upto - 1;
        let pu = pow2(u as nat) as int;
        let p = pow2(upto as nat) as int;
        lemma_pow2_pos(u as nat);
        lemma_pow2_pos(upto as nat);
        lemma_pow2_adds(u as nat, 1);
        assert(p == 2 * pu);
        lemma_fold_path_nodes(leaves, index, siblings, u);
        let i = index / pu;
        let i2 = index / p;
        lemma_div_denominator(index, pu, 2);
        assert(i2 == i / 2);
        lemma_fundamental_div_mod(index, pu);
        vstd::arithmetic::div_mod::lemma_mod_division_less_than_divisor(index, pu);
        assert(i * pu <= index);
        lemma_fundamental_div_mod(index, p);
        vstd::arithmetic::div_mod::lemma_mod_division_less_than_divisor(index, p);
        assert(i2 * p <= index);
        lemma_fundamental_div_mod(i, 2);
        assert(node_hash(leaves, upto, i2) == hash_pair_of(
            node_hash(leaves, u, 2 * i2),
            node_hash(leaves, u, 2 * i2 + 1),
        ));
        if i % 2 == 0 {
            assert(2 * i2 == i);
        } else {
            assert(2 * i2 + 1 == i);
        }
    }
}

/// Law: a membership proof generated for any leaf present in a tree built
/// by repeated insertion verifies against that tree's root. The one
/// hypothesis beyond well-formedness is the zero-hash table consistency,
/// a fixed fact about Keccak-256 that a test checks, since no proof can
/// evaluate an uninterpreted hash.
pub proof fn lemma_generated_proof_verifies(
    tree: IncrementalMerkleTree,
    index: int,
    siblings: Seq<Seq<u8>>,
)
    requires
        zero_table_consistent(),
        tree.wf(),
        0 <= index < tree.leaves@.len(),
        siblings.len() == TREE_DEPTH as int,
        forall|l: int|
            0 <= l < TREE_DEPTH as int ==> siblings[l] == padded_node_hash(
                tree.leaves@,
                l,
                sibling_index(index, l),
            ),
    ensures
        fold_path(tree.leaves@[index], index, siblings, TREE_DEPTH as int)
            == tree.current_root@,
{
    lemma2_to64();
    assert forall|l: int| 0 <= l < TREE_DEPTH as int implies siblings[l] == node_hash(
        tree.leaves@,
        l,
        sibling_index(index, l),
    ) by {
        lemma_pow2_pos(l as nat);
        vstd::arithmetic::div_mod::lemma_div_pos_is_pos(index, pow2(l as nat) as int);
        lemma_fundamental_div_mod(index / pow2(l as nat) as int, 2);
        assert(sibling_index(index, l) >= 0);
        lemma_padded_node_hash_matches(tree.leaves@, l, sibling_index(index, l));
    }
    lemma_fold_path_nodes(tree.leaves@, index, siblings, TREE_DEPTH as int);
    vstd::arithmetic::div_mod::lemma_basic_div(index, pow2(TREE_DEPTH as nat) as int);
}

} // verus!
