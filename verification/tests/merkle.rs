use veil_core::merkle::{
    generate_merkle_proof, get_zero_hash, hash_pair, verify_merkle_proof, IncrementalMerkleTree,
    MerkleError, TREE_DEPTH, ZERO_HASHES, ZERO_VALUE,
};

#[test]
fn test_compute_zero_hashes_for_depth_10() {
    // Compute zero hashes for TREE_DEPTH = 10
    let mut zeros = [[0u8; 32]; 11];
    zeros[0] = ZERO_VALUE;

    for i in 1..=10 {
        zeros[i] = hash_pair(&zeros[i - 1], &zeros[i - 1]);
    }

    println!("\n// Precomputed ZERO_HASHES for TREE_DEPTH = 10");
    println!("pub const ZERO_HASHES: [[u8; 32]; 11] = [");
    for (level, z) in zeros.iter().enumerate() {
        let mut text = format!("    // Level {}\n    [", level);
        for (j, b) in z.iter().enumerate() {
            if j > 0 {
                text.push_str(", ");
            }
            if j % 8 == 0 && j > 0 {
                text.push_str("\n     ");
            }
            text.push_str(&format!("0x{:02x}", b));
        }
        println!("{}],", text);
    }
    println!("];");
}

#[test]
fn test_empty_tree_root() {
    let tree = IncrementalMerkleTree::new();
    let expected_root = get_zero_hash(TREE_DEPTH);
    assert_eq!(tree.root(), expected_root);
}

#[test]
fn test_insert_single_leaf() {
    let mut tree = IncrementalMerkleTree::new();
    let leaf = [1u8; 32];

    let index = tree.insert(leaf).unwrap();
    assert_eq!(index, 0);
    assert_eq!(tree.next_index, 1);

    // Root should have changed
    assert_ne!(tree.root(), get_zero_hash(TREE_DEPTH));
}

#[test]
fn test_insert_two_leaves() {
    let mut tree = IncrementalMerkleTree::new();
    let leaf1 = [1u8; 32];
    let leaf2 = [2u8; 32];

    tree.insert(leaf1).unwrap();
    let root_after_one = tree.root();

    tree.insert(leaf2).unwrap();
    let root_after_two = tree.root();

    // Roots should be different
    assert_ne!(root_after_one, root_after_two);
}

#[test]
fn test_deterministic_root() {
    let mut tree1 = IncrementalMerkleTree::new();
    let mut tree2 = IncrementalMerkleTree::new();

    let leaf = [42u8; 32];

    tree1.insert(leaf).unwrap();
    tree2.insert(leaf).unwrap();

    assert_eq!(tree1.root(), tree2.root());
}

#[test]
fn test_verify_proof() {
    let leaves: Vec<[u8; 32]> = (0..4)
        .map(|i| {
            let mut leaf = [0u8; 32];
            leaf[0] = i as u8;
            leaf
        })
        .collect();

    // Build tree
    let mut tree = IncrementalMerkleTree::new();
    for leaf in &leaves {
        tree.insert(*leaf).unwrap();
    }

    // Generate and verify proof for leaf 0
    if let Some(siblings) = generate_merkle_proof(&leaves, 0) {
        let valid = verify_merkle_proof(&leaves[0], 0, &siblings, &tree.root());
        assert!(valid);
    }
}

#[test]
fn test_zero_hash_table_matches_hash() {
    // The table's chain equations against the real Keccak-256: each level
    // is the hash of the level below it twice.
    assert_eq!(ZERO_HASHES[0], ZERO_VALUE);
    for i in 1..=10 {
        assert_eq!(ZERO_HASHES[i], hash_pair(&ZERO_HASHES[i - 1], &ZERO_HASHES[i - 1]));
    }
    assert_eq!(get_zero_hash(7), ZERO_HASHES[7]);
}

#[test]
fn test_tree_full_leaves_state_unchanged() {
    let mut tree = IncrementalMerkleTree::new();
    for i in 0..1024u64 {
        let mut leaf = [0u8; 32];
        leaf[0] = (i % 256) as u8;
        leaf[1] = (i / 256) as u8;
        let index = tree.insert(leaf).unwrap();
        assert_eq!(index, i);
    }

    let root_before = tree.root();
    let subtrees_before = tree.filled_subtrees;
    let count_before = tree.next_index;

    let result = tree.insert([7u8; 32]);
    assert_eq!(result, Err(MerkleError::TreeFull));
    assert_eq!(tree.root(), root_before);
    assert_eq!(tree.filled_subtrees, subtrees_before);
    assert_eq!(tree.next_index, count_before);
}

#[test]
fn test_insert_two_distinct_leaves_scenario() {
    // Two distinct leaves in order: indices 0 then 1, a changing root,
    // and both roots reproducible from scratch.
    let leaf1 = [1u8; 32];
    let leaf2 = [2u8; 32];

    let mut tree = IncrementalMerkleTree::new();
    assert_eq!(tree.insert(leaf1).unwrap(), 0);
    let root_after_one = tree.root();
    assert_eq!(tree.insert(leaf2).unwrap(), 1);
    let root_after_two = tree.root();
    assert_ne!(root_after_one, root_after_two);

    let mut replay = IncrementalMerkleTree::new();
    replay.insert(leaf1).unwrap();
    assert_eq!(replay.root(), root_after_one);
    replay.insert(leaf2).unwrap();
    assert_eq!(replay.root(), root_after_two);

    // fixture roots for this exact leaf order
    let expected_after_one = [
        0xa7, 0x0b, 0x38, 0x60, 0xd6, 0x55, 0xfe, 0xba, 0x46, 0xae, 0x37, 0x0c, 0x8a, 0x9e,
        0xa4, 0x05, 0xb4, 0x01, 0x86, 0xa2, 0xc7, 0x3e, 0xd9, 0xab, 0xbc, 0xb6, 0xb9, 0xc5,
        0xe8, 0x7e, 0x42, 0x3d,
    ];
    let expected_after_two = [
        0x95, 0xca, 0x0c, 0x27, 0x75, 0x30, 0x1b, 0x92, 0x3f, 0x9e, 0xd1, 0xeb, 0xe6, 0xba,
        0x73, 0x88, 0xa2, 0xff, 0xb8, 0x25, 0x4b, 0x70, 0x5d, 0x00, 0xa3, 0x58, 0x3b, 0xa0,
        0xe9, 0x74, 0xf0, 0x38,
    ];
    assert_eq!(root_after_one, expected_after_one);
    assert_eq!(root_after_two, expected_after_two);
}

#[test]
fn test_verify_proof_every_leaf() {
    let leaves: Vec<[u8; 32]> = (0..5u8)
        .map(|i| {
            let mut leaf = [9u8; 32];
            leaf[31] = i;
            leaf
        })
        .collect();

    let mut tree = IncrementalMerkleTree::new();
    for leaf in &leaves {
        tree.insert(*leaf).unwrap();
    }
    let root = tree.root();

    for i in 0..leaves.len() {
        let siblings = generate_merkle_proof(&leaves, i).unwrap();
        assert!(verify_merkle_proof(&leaves[i], i as u64, &siblings, &root));
    }

    assert!(generate_merkle_proof(&leaves, leaves.len()).is_none());
}

#[test]
fn test_flipped_sibling_bit_rejected() {
    let leaves: Vec<[u8; 32]> = (1..=3u8).map(|i| [i; 32]).collect();
    let mut tree = IncrementalMerkleTree::new();
    for leaf in &leaves {
        tree.insert(*leaf).unwrap();
    }
    let root = tree.root();
    let siblings = generate_merkle_proof(&leaves, 1).unwrap();
    assert!(verify_merkle_proof(&leaves[1], 1, &siblings, &root));

    for level in 0..TREE_DEPTH {
        for byte in 0..32 {
            for bit in 0..8 {
                let mut tampered = siblings;
                tampered[level][byte] ^= 1u8 << bit;
                assert!(!verify_merkle_proof(&leaves[1], 1, &tampered, &root));
            }
        }
    }
}

#[test]
fn test_is_known_root() {
    let mut tree = IncrementalMerkleTree::new();
    tree.insert([5u8; 32]).unwrap();
    let root = tree.root();
    assert!(tree.is_known_root(&root));

    // a superseded root is no longer known: single-root window
    tree.insert([6u8; 32]).unwrap();
    assert!(!tree.is_known_root(&root));
    assert!(tree.is_known_root(&tree.root()));
}

#[test]
fn test_default_is_empty_tree() {
    let tree = IncrementalMerkleTree::default();
    assert_eq!(tree.next_index, 0);
    assert_eq!(tree.root(), ZERO_HASHES[TREE_DEPTH]);
    for i in 0..TREE_DEPTH {
        assert_eq!(tree.filled_subtrees[i], ZERO_HASHES[i]);
    }
}

#[test]
fn test_new_initializes_filled_subtrees() {
    let tree = IncrementalMerkleTree::new();
    for i in 0..TREE_DEPTH {
        assert_eq!(tree.filled_subtrees[i], ZERO_HASHES[i]);
    }
}

#[test]
fn test_insert_updates_filled_subtrees_per_level() {
    let leaf1 = [0xabu8; 32];
    let leaf2 = [0xcdu8; 32];

    // First insertion: every level's node index is even, so each level
    // stores the running hash of the insertion path.
    let mut tree = IncrementalMerkleTree::new();
    tree.insert(leaf1).unwrap();
    let mut running = leaf1;
    for level in 0..TREE_DEPTH {
        assert_eq!(tree.filled_subtrees[level], running);
        running = hash_pair(&running, &ZERO_HASHES[level]);
    }
    assert_eq!(tree.root(), running);

    // Second insertion: level 0 is a right child, so its slot keeps the
    // first leaf; level 1 stores the pair hash; higher levels store the
    // running hash again.
    tree.insert(leaf2).unwrap();
    assert_eq!(tree.filled_subtrees[0], leaf1);
    let mut running = hash_pair(&leaf1, &leaf2);
    for level in 1..TREE_DEPTH {
        assert_eq!(tree.filled_subtrees[level], running);
        running = hash_pair(&running, &ZERO_HASHES[level]);
    }
    assert_eq!(tree.root(), running);
}
