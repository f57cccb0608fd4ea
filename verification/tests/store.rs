use heymesh::bits::Bits;
use heymesh::node::Node;
use heymesh::store::CorruptFrameError;
use heymesh::store::frame_bytes;
use heymesh::store::next_frame;

fn decode_bytes(bytes: &[u8]) -> Node {
    let v: Vec<u8> = bytes.to_vec();
    Node::decode(&Bits::from_bytes(&v)).unwrap()
}

#[test]
fn frame_layout_is_length_then_body() {
    let tree = Node::Bit(true);
    assert_eq!(frame_bytes(&tree), vec![0u8, 0, 0, 1, 0xFF]);
    let pair = Node::Compound(Box::new((Node::Bit(false), Node::Bit(true))));
    assert_eq!(frame_bytes(&pair), vec![0u8, 0, 0, 2, 0x00, 0xFF]);
}

#[test]
fn empty_log_iterates_to_zero_items() {
    let log: Vec<u8> = Vec::new();
    assert!(matches!(next_frame(&log, 0), Ok(None)));
}

#[test]
fn log_round_trip_three_trees() {
    // Append three trees, then iterate: exactly their encoded forms come
    // back, re-decoded, in insertion order.
    let t1 = Node::Bit(true);
    let t2 = Node::Compound(Box::new((Node::Bit(false), Node::Bit(true))));
    let t3 = Node::Compound(Box::new((t1.clone(), t2.clone())));
    let mut log: Vec<u8> = Vec::new();
    for t in [&t1, &t2, &t3] {
        log.extend_from_slice(&frame_bytes(t));
    }
    let mut stored: Vec<Node> = Vec::new();
    let mut pos = 0usize;
    loop {
        match next_frame(&log, pos).unwrap() {
            Some((node, end)) => {
                stored.push(node);
                pos = end;
            }
            None => break,
        }
    }
    assert_eq!(stored.len(), 3);
    for (got, original) in stored.iter().zip([&t1, &t2, &t3]) {
        let reloaded = decode_bytes(&original.encode());
        assert_eq!(got.encode(), reloaded.encode());
        assert_eq!(got.size(), reloaded.size());
    }
}

#[test]
fn truncated_trailing_frame_fails_on_last_step_only() {
    let t1 = Node::Compound(Box::new((Node::Bit(true), Node::Bit(false))));
    let mut log: Vec<u8> = frame_bytes(&t1);
    // A complete length prefix announcing more bytes than follow.
    log.extend_from_slice(&[0x00, 0x00, 0x00, 0x07, 0xAA]);
    let first = next_frame(&log, 0).unwrap();
    let (node, end) = first.expect("first frame is complete");
    // Re-decoding the 16 stored bits (8 of them ones) quantizes to one
    // leaf, the tie favouring `true`.
    assert_eq!(node.encode(), vec![0xFFu8]);
    assert_eq!(end, 6);
    assert!(matches!(next_frame(&log, end), Err(CorruptFrameError)));
}

#[test]
fn dangling_short_prefix_ends_iteration_cleanly() {
    // Fewer than four trailing bytes cannot even announce a frame: the
    // log ends cleanly there, as a short length-prefix read always has.
    let t1 = Node::Bit(true);
    let mut log: Vec<u8> = frame_bytes(&t1);
    log.extend_from_slice(&[0x00, 0x00]);
    let first = next_frame(&log, 0).unwrap();
    let (node, end) = first.expect("first frame is complete");
    assert_eq!(node.encode(), vec![0xFFu8]);
    assert!(matches!(next_frame(&log, end), Ok(None)));
}

#[test]
fn truncated_body_is_corrupt() {
    // The prefix announces five bytes; only one follows.
    let log: Vec<u8> = vec![0, 0, 0, 5, 0xFF];
    assert!(matches!(next_frame(&log, 0), Err(CorruptFrameError)));
}

#[test]
fn zero_length_frame_is_corrupt() {
    let log: Vec<u8> = vec![0, 0, 0, 0];
    assert!(matches!(next_frame(&log, 0), Err(CorruptFrameError)));
}
