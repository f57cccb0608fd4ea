use heymesh::bits::Bits;
use heymesh::node::EmptyInputError;
use heymesh::node::Node;

fn bits_from(bytes: &[u8]) -> Bits {
    let v: Vec<u8> = bytes.to_vec();
    Bits::from_bytes(&v)
}

#[test]
fn decode_empty_fails() {
    let empty = Bits::new();
    let r = Node::decode(&empty);
    assert!(matches!(r, Err(EmptyInputError)));
}

#[test]
fn root_literal_decodes_to_true_leaf() {
    // "hey" is 24 bits with 12 ones: the tie favours `true`.
    let bits = bits_from(b"hey");
    assert_eq!(bits.len(), 24);
    let node = Node::decode(&bits).unwrap();
    assert!(matches!(node, Node::Bit(true)));
    assert_eq!(node.encode(), vec![0xFFu8]);
}

#[test]
fn decode_all_zero_byte_is_false_leaf() {
    let bits = bits_from(&[0x00]);
    let node = Node::decode(&bits).unwrap();
    assert!(matches!(node, Node::Bit(false)));
    assert_eq!(node.encode(), vec![0x00u8]);
}

#[test]
fn decode_tie_favours_true() {
    let mut bits = Bits::new();
    bits.push(true);
    bits.push(false);
    let node = Node::decode(&bits).unwrap();
    assert!(matches!(node, Node::Bit(true)));
}

#[test]
fn decode_minority_of_ones_is_false_leaf() {
    let mut bits = Bits::new();
    bits.push(true);
    bits.push(false);
    bits.push(false);
    let node = Node::decode(&bits).unwrap();
    assert!(matches!(node, Node::Bit(false)));
}

#[test]
fn decode_long_input_splits_at_midpoint() {
    // 72 bits: the first 36 are mostly ones, the last 36 all zeros.
    let bits = bits_from(&[0xFF, 0xFF, 0xFF, 0xFF, 0x00, 0x00, 0x00, 0x00, 0x00]);
    assert_eq!(bits.len(), 72);
    let node = Node::decode(&bits).unwrap();
    assert_eq!(node.size(), 2);
    assert_eq!(node.encode(), vec![0xFFu8, 0x00u8]);
    match node {
        Node::Compound(pair) => {
            assert!(matches!(pair.0, Node::Bit(true)));
            assert!(matches!(pair.1, Node::Bit(false)));
        }
        Node::Bit(_) => panic!("expected a compound"),
    }
}

#[test]
fn leaf_threshold_is_sixty_four_bits() {
    // Exactly 64 bits still fit one leaf; one bit more forces a split.
    let bytes = bits_from(&[0xFF, 0xFF, 0xFF, 0xFF, 0x00, 0x00, 0x00, 0x00, 0x00]);
    let at_threshold = bytes.slice(0, 64);
    let node = Node::decode(&at_threshold).unwrap();
    assert_eq!(node.size(), 1);
    // 32 ones of 64: the tie favours `true`.
    assert!(matches!(node, Node::Bit(true)));
    let past_threshold = bytes.slice(0, 65);
    let split = Node::decode(&past_threshold).unwrap();
    assert_eq!(split.size(), 2);
}

#[test]
fn size_counts_leaves() {
    let node = Node::Compound(Box::new((
        Node::Compound(Box::new((Node::Bit(true), Node::Bit(false)))),
        Node::Bit(true),
    )));
    assert_eq!(node.size(), 3);
}

#[test]
fn decode_size_and_bitlength() {
    // 100 raw bits decode to at least one leaf, and the encoded bit length
    // is exactly eight bits (one literal byte) per leaf.
    let bits = bits_from(&[0x12, 0x34, 0x56, 0x78, 0x9A, 0xBC, 0xDE, 0xF0, 0x11, 0x22, 0x33, 0x44, 0x55]);
    let all = bits.slice(0, 100);
    assert_eq!(all.len(), 100);
    let node = Node::decode(&all).unwrap();
    let size = node.size();
    assert!(size >= 1);
    let encoded = node.encode();
    assert_eq!(encoded.len(), size);
    let rebits = Bits::from_bytes(&encoded);
    assert_eq!(rebits.len(), 8 * size);
}

#[test]
fn clone_is_deep_equal() {
    let bits = bits_from(&[0xAB, 0xCD]);
    let node = Node::decode(&bits).unwrap();
    let copy = node.clone();
    assert_eq!(copy.size(), node.size());
    assert_eq!(copy.encode(), node.encode());
}

#[test]
fn bits_expand_most_significant_first() {
    // 0xA5 is 1010_0101.
    let bits = bits_from(&[0xA5]);
    assert_eq!(bits.len(), 8);
    let expected = [true, false, true, false, false, true, false, true];
    for (i, want) in expected.iter().enumerate() {
        assert_eq!(bits.at(i), *want);
    }
}

#[test]
fn bits_slice_and_push_and_append() {
    let bits = bits_from(&[0xA5]);
    let mid = bits.slice(2, 5);
    assert_eq!(mid.len(), 3);
    assert_eq!(mid.at(0), true);
    assert_eq!(mid.at(1), false);
    assert_eq!(mid.at(2), false);
    let mut grown = bits.slice(0, 2);
    grown.push(true);
    assert_eq!(grown.len(), 3);
    assert_eq!(grown.at(2), true);
    let mut joined = Bits::new();
    joined.append(&grown);
    joined.append(&mid);
    assert_eq!(joined.len(), 6);
    assert_eq!(joined.at(0), true);
    assert_eq!(joined.at(5), false);
}

#[test]
fn bits_into_bytes_round_trip() {
    let bits = bits_from(&[0xDE, 0xAD]);
    let bytes = bits.into_bytes();
    assert_eq!(bytes, vec![0xDEu8, 0xADu8]);
}

#[test]
fn bits_into_bytes_realigns_a_sliced_buffer() {
    // A slice taken off the byte boundary still converts to the bytes of
    // its own bits, not of the storage it was cut from.
    let bits = bits_from(&[0xF0, 0x0F]);
    let middle = bits.slice(4, 12);
    assert_eq!(middle.len(), 8);
    assert_eq!(middle.into_bytes(), vec![0x00u8]);
    let tail = bits_from(&[0xF0, 0x0F]).slice(4, 16);
    assert_eq!(tail.len(), 12);
    // Twelve bits fill one byte and half of a second; the dead half is
    // cleared.
    assert_eq!(tail.into_bytes(), vec![0x00u8, 0xF0u8]);
}
