use incrementalmerkletree::frontier::CommitmentTree as ReferenceTree;
use incrementalmerkletree::witness::IncrementalWitness as ReferenceWitness;
use shielded_core::merkle_tree::{CommitmentTree, IncrementalWitness, MerklePath};
use shielded_core::sapling::Node;

fn leaf(i: u32) -> Node {
    let mut repr = [0u8; 32];
    repr[..4].copy_from_slice(&(i + 2).to_le_bytes());
    Node::new(repr)
}

fn reference_leaf(i: u32) -> sapling_crypto::Node {
    sapling_crypto::Node::from_bytes(leaf(i).repr).unwrap()
}

#[test]
fn empty_tree_has_the_empty_root() {
    let tree = CommitmentTree::empty();
    assert!(tree.is_empty());
    assert_eq!(tree.size(), 0);
    assert_eq!(tree.root().repr, sapling_crypto::Anchor::empty_tree().to_bytes());
    assert!(tree.last_leaf().is_none());
}

#[test]
fn blank_leaf_is_the_uncommitted_value() {
    let mut expected = [0u8; 32];
    expected[0] = 1;
    assert_eq!(Node::blank().repr, expected);
}

#[test]
fn combine_is_the_sapling_merkle_hash() {
    let a = leaf(1);
    let b = leaf(2);
    let parent = Node::combine(3, &a, &b);
    assert_eq!(parent.repr, sapling_crypto::merkle_hash(3, &a.repr, &b.repr));
    assert_ne!(parent.repr, a.repr);
    assert_ne!(Node::combine(3, &b, &a).repr, parent.repr);
}

#[test]
fn roots_match_the_reference_tree() {
    let mut tree = CommitmentTree::empty();
    let mut reference = ReferenceTree::<sapling_crypto::Node, 32>::empty();
    for i in 0..70 {
        assert!(tree.append(leaf(i)).is_ok());
        reference.append(reference_leaf(i)).unwrap();
        assert_eq!(tree.size(), u64::from(i) + 1);
        assert_eq!(tree.root().repr, reference.root().to_bytes());
        assert_eq!(tree.last_leaf().unwrap(), leaf(i));
    }
}

#[test]
fn witness_root_equals_tree_root_for_every_offset() {
    let total = 6u32;
    for made_at in 1..=total {
        let mut tree = CommitmentTree::empty();
        for i in 0..made_at {
            tree.append(leaf(i)).unwrap();
        }
        let mut witness = IncrementalWitness::from_tree(&tree);
        assert_eq!(witness.position(), Some(u64::from(made_at) - 1));
        for i in made_at..=total {
            let path = witness.path().unwrap();
            assert_eq!(path.position, u64::from(made_at) - 1);
            assert_eq!(path.auth_path.len(), 32);
            let root = tree.root();
            assert_eq!(path.root(leaf(made_at - 1)), root);
            assert_eq!(witness.root(), root);
            if i < total {
                tree.append(leaf(i)).unwrap();
                witness.append(leaf(i)).unwrap();
            }
        }
    }
}

#[test]
fn witness_paths_match_the_reference_witness() {
    let mut tree = CommitmentTree::empty();
    let mut reference = ReferenceTree::<sapling_crypto::Node, 32>::empty();
    for i in 0..5 {
        tree.append(leaf(i)).unwrap();
        reference.append(reference_leaf(i)).unwrap();
    }
    let mut witness = IncrementalWitness::from_tree(&tree);
    let mut reference_witness = ReferenceWitness::from_tree(reference.clone()).unwrap();
    for i in 5..40 {
        witness.append(leaf(i)).unwrap();
        reference_witness.append(reference_leaf(i)).unwrap();
        let path = witness.path().unwrap();
        let expected = reference_witness.path().unwrap();
        assert_eq!(path.position, u64::from(expected.position()));
        let siblings: Vec<[u8; 32]> = path.auth_path.iter().map(|(node, _)| node.repr).collect();
        let expected_siblings: Vec<[u8; 32]> =
            expected.path_elems().iter().map(|node| node.to_bytes()).collect();
        assert_eq!(siblings, expected_siblings);
        for (level, (_, is_right)) in path.auth_path.iter().enumerate() {
            assert_eq!(*is_right, (path.position >> level) & 1 == 1);
        }
    }
}

#[test]
fn witness_that_misses_an_append_stops_matching() {
    let mut tree = CommitmentTree::empty();
    tree.append(leaf(0)).unwrap();
    let mut witness = IncrementalWitness::from_tree(&tree);
    tree.append(leaf(1)).unwrap();
    tree.append(leaf(2)).unwrap();
    witness.append(leaf(2)).unwrap();
    assert_ne!(witness.path().unwrap().root(leaf(0)), tree.root());
}

#[test]
fn witness_of_an_empty_tree_has_no_path() {
    let tree = CommitmentTree::empty();
    let mut witness = IncrementalWitness::from_tree(&tree);
    assert!(witness.path().is_none());
    assert_eq!(witness.position(), None);
    witness.append(leaf(0)).unwrap();
    assert!(witness.path().is_none());
}

#[test]
fn path_of_no_levels_is_the_leaf() {
    let path = MerklePath { auth_path: vec![], position: 0 };
    assert_eq!(path.root(leaf(9)), leaf(9));
    let one = MerklePath { auth_path: vec![(leaf(1), false)], position: 0 };
    assert_eq!(one.root(leaf(9)), Node::combine(0, &leaf(9), &leaf(1)));
    let other = MerklePath { auth_path: vec![(leaf(1), true)], position: 1 };
    assert_eq!(other.root(leaf(9)), Node::combine(0, &leaf(1), &leaf(9)));
}

#[test]
fn duplicate_keeps_the_tree() {
    let mut tree = CommitmentTree::empty();
    for i in 0..7 {
        tree.append(leaf(i)).unwrap();
    }
    let mut copy = tree.duplicate();
    assert_eq!(copy.root(), tree.root());
    copy.append(leaf(7)).unwrap();
    tree.append(leaf(7)).unwrap();
    assert_eq!(copy.root(), tree.root());
}
