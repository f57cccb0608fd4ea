//! Frames of the append-only log.
//!
//! A stored frame is one encoded tree prefixed with its byte length as four
//! big-endian bytes. This module builds and parses frames as plain bytes;
//! the file itself is an external collaborator that appends and reads those
//! bytes unchanged.

use vstd::prelude::*;

use crate::bits::Bits;
use crate::bits::MAX_BITS;
use crate::bits::bytes_to_bits;
use crate::node::EmptyInputError;
use crate::node::Node;
use crate::node::flat_bytes;
use crate::node::lemma_flat_len;
use crate::node::lemma_size_pos;
use crate::node::spec_decode;
use crate::node::spec_size;

verus! {

/// A length prefix announced more bytes than the log still holds, or a
/// frame that cannot hold any tree.
#[derive(Debug, PartialEq, Eq, Structural)]
pub struct CorruptFrameError;

/// A 32-bit length as four big-endian bytes.
pub open spec fn spec_be32(x: u32) -> Seq<u8> {
    seq![
        ((x >> 24) & 0xFF) as u8,
        ((x >> 16) & 0xFF) as u8,
        ((x >> 8) & 0xFF) as u8,
        (x & 0xFF) as u8,
    ]
}

/// The value of four big-endian bytes.
pub open spec fn be32_val(s: Seq<u8>) -> u32
    recommends
        s.len() == 4,
{
    ((s[0] as u32) << 24) | ((s[1] as u32) << 16) | ((s[2] as u32) << 8) | (s[3] as u32)
}

/// The four big-endian bytes of a value read back as that value.
pub proof fn lemma_be32_roundtrip(x: u32)
    ensures
        be32_val(spec_be32(x)) == x,
{
    let a = ((x >> 24) & 0xFF) as u8;
    let b = ((x >> 16) & 0xFF) as u8;
    let c = ((x >> 8) & 0xFF) as u8;
    let d = (x & 0xFF) as u8;
    assert(spec_be32(x)[0] == a);
    assert(spec_be32(x)[1] == b);
    assert(spec_be32(x)[2] == c);
    assert(spec_be32(x)[3] == d);
    assert((((a as u32) << 24) | ((b as u32) << 16) | ((c as u32) << 8) | (d as u32)) == x)
        by (bit_vector)
        requires
            a == ((x >> 24) & 0xFF) as u8,
            b == ((x >> 16) & 0xFF) as u8,
            c == ((x >> 8) & 0xFF) as u8,
            d == (x & 0xFF) as u8,
    ;
}

/// One log frame: the encoded byte length as four big-endian bytes, then
/// the encoded tree.
pub open spec fn spec_frame(n: Node) -> Seq<u8> {
    spec_be32(spec_size(n) as u32) + flat_bytes(n)
}

/// The tree a stored frame body reads back as: its bytes expanded to bits
/// and decoded again.
pub open spec fn spec_reload(n: Node) -> Node {
    spec_decode(bytes_to_bits(flat_bytes(n)))
}

/// The whole log read from a byte position: the sequence of stored trees,
/// or nothing if the data from there is not a clean sequence of complete
/// frames.
pub open spec fn spec_parse_log(d: Seq<u8>, pos: int) -> Option<Seq<Node>>
    decreases d.len() - pos,
    when 0 <= pos <= d.len()
{
    if pos == d.len() {
        Some(Seq::<Node>::empty())
    } else if pos + 4 > d.len() {
        None
    } else {
        let len = be32_val(d.subrange(pos, pos + 4)) as int;
        if len == 0 || pos + 4 + len > d.len() {
            None
        } else {
            match spec_parse_log(d, pos + 4 + len) {
                None => None,
                Some(rest) => Some(
                    seq![spec_decode(bytes_to_bits(d.subrange(pos + 4, pos + 4 + len)))] + rest,
                ),
            }
        }
    }
}

/// Parsing is position-relative: reading behind a fixed prefix reads the
/// same frames as reading the suffix alone.
pub proof fn lemma_parse_log_shift(prefix: Seq<u8>, d: Seq<u8>, pos: int)
    requires
        0 <= pos <= d.len(),
    ensures
        spec_parse_log(prefix + d, prefix.len() + pos) == spec_parse_log(d, pos),
    decreases d.len() - pos,
{
    let c = prefix + d;
    let p2 = prefix.len() + pos;
    if pos == d.len() {
    } else if pos + 4 > d.len() {
    } else {
        assert(c.subrange(p2, p2 + 4) =~= d.subrange(pos, pos + 4));
        let len = be32_val(d.subrange(pos, pos + 4)) as int;
        if len == 0 || pos + 4 + len > d.len() {
        } else {
            assert(c.subrange(p2 + 4, p2 + 4 + len) =~= d.subrange(pos + 4, pos + 4 + len));
            lemma_parse_log_shift(prefix, d, pos + 4 + len);
        }
    }
}

/// Reading a log that starts with one complete frame yields that frame's
/// stored tree, then whatever the rest of the log yields.
pub proof fn lemma_parse_one(t: Node, rest: Seq<u8>)
    requires
        spec_size(t) < 0x1_0000_0000,
    ensures
        spec_parse_log(spec_frame(t) + rest, 0) == (match spec_parse_log(rest, 0) {
            None => None::<Seq<Node>>,
            Some(r) => Some(seq![spec_reload(t)] + r),
        }),
{
    lemma_size_pos(t);
    lemma_flat_len(t);
    let f = spec_frame(t);
    let d = f + rest;
    let l = spec_size(t) as int;
    assert(f.len() == 4 + l);
    assert(d.subrange(0, 4) =~= spec_be32(spec_size(t) as u32));
    lemma_be32_roundtrip(spec_size(t) as u32);
    assert(be32_val(d.subrange(0, 4)) == l);
    assert(d.subrange(4, 4 + l) =~= flat_bytes(t));
    lemma_parse_log_shift(f, rest, 0);
    assert(spec_parse_log(d, f.len() as int) == spec_parse_log(rest, 0));
}

/// Log round-trip: a log holding three appended trees reads back exactly
/// their encoded forms re-decoded, in insertion order, and an empty log
/// reads back zero items.
pub proof fn lemma_log_roundtrip(t1: Node, t2: Node, t3: Node)
    requires
        spec_size(t1) < 0x1_0000_0000,
        spec_size(t2) < 0x1_0000_0000,
        spec_size(t3) < 0x1_0000_0000,
    ensures
        spec_parse_log(Seq::<u8>::empty(), 0) == Some(Seq::<Node>::empty()),
        spec_parse_log(spec_frame(t1) + spec_frame(t2) + spec_frame(t3), 0) == Some(
            seq![spec_reload(t1), spec_reload(t2), spec_reload(t3)],
        ),
{
    let f1 = spec_frame(t1);
    let f2 = spec_frame(t2);
    let f3 = spec_frame(t3);
    lemma_parse_one(t3, Seq::<u8>::empty());
    assert(f3 + Seq::<u8>::empty() =~= f3);
    lemma_parse_one(t2, f3);
    lemma_parse_one(t1, f2 + f3);
    assert(f1 + f2 + f3 =~= f1 + (f2 + f3));
    assert(seq![spec_reload(t3)] + Seq::<Node>::empty() =~= seq![spec_reload(t3)]);
    assert(seq![spec_reload(t1)] + (seq![spec_reload(t2)] + seq![spec_reload(t3)]) =~= seq![
        spec_reload(t1),
        spec_reload(t2),
        spec_reload(t3),
    ]);
}

/// Build the frame for one tree.
pub fn frame_bytes(node: &Node) -> (r: Vec<u8>)
    requires
        8 * spec_size(*node) <= MAX_BITS,
    ensures
        r@ == spec_frame(*node),
{
    proof {
        lemma_flat_len(*node);
    }
    let body = node.encode();
    let len = body.len() as u32;
    let mut out: Vec<u8> = Vec::new();
    out.push(((len >> 24) & 0xFF) as u8);
    out.push(((len >> 16) & 0xFF) as u8);
    out.push(((len >> 8) & 0xFF) as u8);
    out.push((len & 0xFF) as u8);
    out.extend_from_slice(body.as_slice());
    proof {
        assert(out@ =~= spec_frame(*node));
    }
    out
}

/// Read one frame of the log at a byte position.
///
/// A position exactly at the end, or followed by fewer than the four bytes
/// of a length prefix, is a clean end of the log. A complete prefix must be
/// followed by exactly that many body bytes; one announcing more bytes than
/// remain, or a zero-length body (which no tree encodes to), is corrupt.
/// A complete body always decodes: it is non-empty.
pub fn next_frame(data: &Vec<u8>, pos: usize) -> (r: Result<
    Option<(Node, usize)>,
    CorruptFrameError,
>)
    requires
        pos <= data@.len(),
        data@.len() < MAX_BITS / 8,
    ensures
        pos + 4 > data@.len() ==> r == Ok::<Option<(Node, usize)>, CorruptFrameError>(None),
        pos + 4 <= data@.len() ==> (r is Err <==> (be32_val(
            data@.subrange(pos as int, pos + 4),
        ) == 0 || pos + 4 + be32_val(data@.subrange(pos as int, pos + 4)) > data@.len())),
        pos + 4 <= data@.len() && be32_val(data@.subrange(pos as int, pos + 4)) != 0 && pos + 4
            + be32_val(data@.subrange(pos as int, pos + 4)) <= data@.len() ==> r == Ok::<
            Option<(Node, usize)>,
            CorruptFrameError,
        >(
            Some(
                (
                    spec_decode(
                        bytes_to_bits(
                            data@.subrange(
                                pos + 4,
                                pos + 4 + be32_val(data@.subrange(pos as int, pos + 4)),
                            ),
                        ),
                    ),
                    (pos + 4 + be32_val(data@.subrange(pos as int, pos + 4))) as usize,
                ),
            ),
        ),
{
    if pos == data.len() {
        return Ok(None);
    }
    if pos + 4 > data.len() {
        return Ok(None);
    }
    let b0 = data[pos];
    let b1 = data[pos + 1];
    let b2 = data[pos + 2];
    let b3 = data[pos + 3];
    let len_u32: u32 = ((b0 as u32) << 24) | ((b1 as u32) << 16) | ((b2 as u32) << 8) | (
    b3 as u32);
    proof {
        assert(data@.subrange(pos as int, pos + 4)[0] == b0);
        assert(data@.subrange(pos as int, pos + 4)[1] == b1);
        assert(data@.subrange(pos as int, pos + 4)[2] == b2);
        assert(data@.subrange(pos as int, pos + 4)[3] == b3);
        assert(len_u32 == be32_val(data@.subrange(pos as int, pos + 4)));
    }
    if len_u32 == 0 {
        return Err(CorruptFrameError);
    }
    let len = len_u32 as usize;
    if len > data.len() - (pos + 4) {
        return Err(CorruptFrameError);
    }
    let end = pos + 4 + len;
    let mut body: Vec<u8> = Vec::new();
    let mut i: usize = pos + 4;
    while i < end
        invariant
            pos + 4 <= i <= end,
            end <= data@.len(),
            body@ == data@.subrange(pos + 4, i as int),
        decreases end - i,
    {
        body.push(data[i]);
        proof {
            assert(body@ =~= data@.subrange(pos + 4, i + 1));
        }
        i = i + 1;
    }
    let bits = Bits::from_bytes(&body);
    proof {
        crate::bits::lemma_bytes_to_bits_len(body@);
    }
    match Node::decode(&bits) {
        Ok(n) => Ok(Some((n, end))),
        Err(EmptyInputError) => {
            proof {
                assert(false);
            }
            Err(CorruptFrameError)
        }
    }
}

} // verus!
