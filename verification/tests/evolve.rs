use heymesh::bits::Bits;
use heymesh::entropy::UniversalEntropy;
use heymesh::evolve::next;
use heymesh::evolve::next_biased;
use heymesh::evolve::op_unbiased;
use heymesh::evolve::step_bit;
use heymesh::node::Node;

fn decode_bytes(bytes: &[u8]) -> Node {
    let v: Vec<u8> = bytes.to_vec();
    Node::decode(&Bits::from_bytes(&v)).unwrap()
}

fn two_leaf_tree() -> Node {
    Node::Compound(Box::new((Node::Bit(true), Node::Bit(false))))
}

#[test]
fn op_with_self_is_all_zero() {
    // XOR of a tree's flattened form against itself: all-zero output of
    // exactly the encoded bit length.
    let tree = two_leaf_tree();
    let combined = op_unbiased(&tree, &tree);
    assert_eq!(combined.len(), 16);
    let encoded = Bits::from_bytes(&tree.encode());
    assert_eq!(combined.len(), encoded.len());
    for i in 0..16usize {
        assert_eq!(combined.at(i), false);
    }
}

#[test]
fn op_zero_pads_the_shorter_side() {
    // One leaf (8 set bits) against two leaves whose first byte is zero:
    // the first eight positions differ, the padded tail keeps the longer
    // side's bits.
    let short = Node::Bit(true);
    let long = Node::Compound(Box::new((Node::Bit(false), Node::Bit(true))));
    let combined = op_unbiased(&short, &long);
    assert_eq!(combined.len(), 16);
    for i in 0..16usize {
        assert_eq!(combined.at(i), true);
    }
}

#[test]
fn next_of_tree_with_itself_collapses_to_false_leaf() {
    let tree = two_leaf_tree();
    let evolved = next(&tree, &tree);
    assert!(matches!(evolved, Node::Bit(false)));
}

#[test]
fn step_bit_prepends_a_leftmost_leaf() {
    let state = Node::Bit(true);
    let stepped = step_bit(state, true);
    assert_eq!(stepped.size(), 2);
    assert_eq!(stepped.encode(), vec![0xFFu8, 0xFFu8]);
    match stepped {
        Node::Compound(pair) => {
            assert!(matches!(pair.0, Node::Bit(true)));
            assert!(matches!(pair.1, Node::Bit(true)));
        }
        Node::Bit(_) => panic!("expected a compound"),
    }
}

#[test]
fn step_bit_keeps_prior_state_on_the_right() {
    let state = two_leaf_tree();
    let stepped = step_bit(state, false);
    assert_eq!(stepped.size(), 3);
    assert_eq!(stepped.encode(), vec![0x00u8, 0xFFu8, 0x00u8]);
}

#[test]
fn fold_of_leaf_is_its_bare_literal() {
    // A leaf returns its own literal, at every position.
    let mut entropy = UniversalEntropy::new();
    assert_eq!(Node::Bit(true).fold(&mut entropy, 0), true);
    assert_eq!(Node::Bit(true).fold(&mut entropy, 4), true);
    assert_eq!(Node::Bit(false).fold(&mut entropy, 0), false);
}

#[test]
fn fold_of_compound_xors_children_and_entropy() {
    // fold(compound) = fold(left) ^ fold(right) ^ entropy(pos): with
    // children true and false that is true ^ entropy(pos), and the
    // entropy bit at position 0 is true, at position 4 false.
    let mut entropy = UniversalEntropy::new();
    let tree = two_leaf_tree();
    assert_eq!(tree.fold(&mut entropy, 0), false);
    assert_eq!(tree.fold(&mut entropy, 4), true);
}

#[test]
fn biased_op_of_equal_leaves_echoes_the_stream() {
    // Both folded values cancel, leaving exactly the entropy bit.
    let mut entropy = UniversalEntropy::new();
    let a = Node::Bit(true);
    let b = Node::Bit(true);
    let combined = a.op(&mut entropy, &b);
    assert_eq!(combined.len(), 1);
    assert_eq!(combined.at(0), true);
}

#[test]
fn biased_op_length_is_larger_leaf_count() {
    let mut entropy = UniversalEntropy::new();
    let small = Node::Bit(false);
    let large = step_bit(two_leaf_tree(), true);
    let combined = small.op(&mut entropy, &large);
    assert_eq!(combined.len(), 3);
}

#[test]
fn next_biased_decodes_the_combination() {
    let mut entropy = UniversalEntropy::new();
    let a = Node::Bit(true);
    let b = Node::Bit(true);
    let evolved = next_biased(&a, &mut entropy, &b);
    assert!(matches!(evolved, Node::Bit(true)));
}

#[test]
fn reflect_prepends_a_literal_input() {
    // A leaf input selects the bit-literal rule: it becomes the new
    // leftmost leaf and the prior state the right subtree.
    let mut entropy = UniversalEntropy::new();
    let mut state = two_leaf_tree();
    let input = Node::Bit(true);
    let reflected = state.reflect(&mut entropy, &input);
    assert_eq!(reflected.size(), 3);
    assert_eq!(reflected.encode(), vec![0xFFu8, 0xFF, 0x00]);
    // The state itself is left unchanged.
    assert_eq!(state.encode(), vec![0xFFu8, 0x00]);
}

#[test]
fn reflect_of_compound_input_matches_the_biased_law() {
    // A compound input selects the tree rule: decode of the biased
    // combination, with no rewrapping of a leaf outcome.
    let mut e1 = UniversalEntropy::new();
    let mut e2 = UniversalEntropy::new();
    let mut state = Node::Bit(true);
    let input = Node::Compound(Box::new((Node::Bit(true), Node::Bit(true))));
    let reflected = state.reflect(&mut e1, &input);
    let expected = next_biased(&state, &mut e2, &input);
    assert_eq!(reflected.encode(), expected.encode());
    assert!(matches!(reflected, Node::Bit(true)));
    assert_eq!(state.encode(), vec![0xFFu8]);
}

#[test]
fn unbiased_op_differs_from_input_bits() {
    // A combination against a fresh all-zero leaf keeps the other side's
    // bits, so the operator visibly reads both inputs.
    let ones = Node::Bit(true);
    let zeros = Node::Bit(false);
    let combined = op_unbiased(&ones, &zeros);
    assert_eq!(combined.len(), 8);
    for i in 0..8usize {
        assert_eq!(combined.at(i), true);
    }
    let same = decode_bytes(&[0xFF]);
    assert_eq!(same.encode(), vec![0xFFu8]);
}
