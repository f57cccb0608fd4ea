//! The recursive bit-tree.
//!
//! A `Node` is either a terminal `Bit` leaf summarising a chunk of raw bits
//! into one boolean, or a `Compound` owning two child trees.

use vstd::prelude::*;

use crate::bits::Bits;
use crate::bits::MAX_BITS;
use crate::bits::bits_of;
use crate::bits::byte_to_bits;
use crate::bits::bytes_to_bits;
use crate::bits::lemma_byte_to_bits_ones;
use crate::bits::lemma_byte_to_bits_zero;
use crate::bits::lemma_bytes_to_bits_concat;
use crate::bits::lemma_bytes_to_bits_inj;
use crate::bits::lemma_bytes_to_bits_len;
use crate::entropy::UniversalEntropy;
use crate::entropy::ent_bit;

verus! {

/// Decoding was attempted on a bit sequence of length zero.
#[derive(Debug, PartialEq, Eq, Structural)]
pub struct EmptyInputError;

/// A bit-tree node: a terminal leaf or an internal pair of children.
#[derive(Debug)]
pub enum Node {
    Compound(Box<(Node, Node)>),
    Bit(bool),
}

impl Clone for Node {
    /// A clone is equal to the original, including every child.
    fn clone(&self) -> (r: Node)
        ensures
            r == *self,
        decreases *self,
    {
        match self {
            Node::Bit(b) => Node::Bit(*b),
            Node::Compound(compound) => {
                let left = compound.0.clone();
                let right = compound.1.clone();
                Node::Compound(Box::new((left, right)))
            }
        }
    }
}

/// Number of leaves of the tree.
pub open spec fn spec_size(n: Node) -> nat
    decreases n,
{
    match n {
        Node::Bit(_) => 1,
        Node::Compound(p) => spec_size(p.0) + spec_size(p.1),
    }
}

/// Every tree has at least one leaf.
pub proof fn lemma_size_pos(n: Node)
    ensures
        spec_size(n) >= 1,
    decreases n,
{
    match n {
        Node::Bit(_) => {}
        Node::Compound(p) => {
            lemma_size_pos(p.0);
            lemma_size_pos(p.1);
        }
    }
}

/// Number of `true` bits in a bit sequence.
pub open spec fn count_ones(b: Seq<bool>) -> nat
    decreases b.len(),
{
    if b.len() == 0 {
        0
    } else {
        count_ones(b.drop_last()) + (if b.last() {
            1nat
        } else {
            0nat
        })
    }
}

/// The leaf a chunk of raw bits is summarised into: `true` iff the ones
/// are at least as many as the zeros (ties favour `true`).
pub open spec fn majority(b: Seq<bool>) -> bool {
    2 * count_ones(b) >= b.len()
}

/// Decoding a non-empty bit sequence: a chunk of at most 64 bits becomes a
/// leaf by majority vote; a longer sequence is split at the midpoint and each
/// half is decoded recursively.
pub open spec fn spec_decode(b: Seq<bool>) -> Node
    recommends
        b.len() > 0,
    decreases b.len(),
{
    if b.len() <= 64 {
        Node::Bit(majority(b))
    } else {
        Node::Compound(
            Box::new(
                (
                    spec_decode(b.subrange(0, b.len() as int / 2)),
                    spec_decode(b.subrange(b.len() as int / 2, b.len() as int)),
                ),
            ),
        )
    }
}

/// The flattened bit form of a tree: each leaf expands to one full byte of
/// its literal (all zeros or all ones), a compound to the concatenation of
/// its children's forms, left before right.
pub open spec fn flat_bits(n: Node) -> Seq<bool>
    decreases n,
{
    match n {
        Node::Bit(b) => Seq::new(8, |i: int| b),
        Node::Compound(p) => flat_bits(p.0) + flat_bits(p.1),
    }
}

/// The flattened byte form of a tree: one literal byte per leaf.
pub open spec fn flat_bytes(n: Node) -> Seq<u8>
    decreases n,
{
    match n {
        Node::Bit(b) => seq![
            if b {
                0xFFu8
            } else {
                0u8
            },
        ],
        Node::Compound(p) => flat_bytes(p.0) + flat_bytes(p.1),
    }
}

/// The flattened form holds exactly eight bits per leaf, one byte per leaf.
pub proof fn lemma_flat_len(n: Node)
    ensures
        flat_bits(n).len() == 8 * spec_size(n),
        flat_bytes(n).len() == spec_size(n),
    decreases n,
{
    match n {
        Node::Bit(_) => {}
        Node::Compound(p) => {
            lemma_flat_len(p.0);
            lemma_flat_len(p.1);
        }
    }
}

/// The folded value of a tree at a stream position: a leaf returns its own
/// literal, bare; a compound the exclusive-or of its children's folded
/// values, folded once more against the entropy bit at the position.
pub open spec fn spec_fold(n: Node, pos: nat) -> bool
    decreases n,
{
    match n {
        Node::Bit(b) => b,
        Node::Compound(p) => spec_fold(p.0, pos) ^ spec_fold(p.1, pos) ^ ent_bit(pos),
    }
}

/// The entropy-biased combination of two trees: one bit per position up to
/// the larger leaf count, each the three-way exclusive-or of the two folded
/// values and the entropy bit there.
pub open spec fn spec_op(s: Node, o: Node) -> Seq<bool> {
    Seq::new(
        if spec_size(s) >= spec_size(o) {
            spec_size(s)
        } else {
            spec_size(o)
        },
        |k: int| spec_fold(s, k as nat) ^ spec_fold(o, k as nat) ^ ent_bit(k as nat),
    )
}

/// A decoded tree has one leaf per chunk: exactly one leaf for a sequence
/// of up to 64 bits, and at most one leaf per 32 bits of a longer one.
pub proof fn lemma_decode_size_bound(b: Seq<bool>)
    requires
        b.len() >= 1,
    ensures
        b.len() <= 64 ==> spec_size(spec_decode(b)) == 1,
        b.len() >= 32 ==> 32 * spec_size(spec_decode(b)) <= b.len(),
    decreases b.len(),
{
    if b.len() > 64 {
        let mid = b.len() as int / 2;
        lemma_decode_size_bound(b.subrange(0, mid));
        lemma_decode_size_bound(b.subrange(mid, b.len() as int));
    }
}

/// Decoding any non-empty bit sequence yields a tree of at least one leaf,
/// whose flattened bit length is exactly the leaf literal width of eight
/// bits times its leaf count.
pub proof fn lemma_decode_size_bitlength(b: Seq<bool>)
    requires
        b.len() > 0,
    ensures
        spec_size(spec_decode(b)) >= 1,
        flat_bits(spec_decode(b)).len() == 8 * spec_size(spec_decode(b)),
{
    lemma_size_pos(spec_decode(b));
    lemma_flat_len(spec_decode(b));
}

/// The flattened byte form expands bitwise to the flattened bit form.
pub proof fn lemma_flat_bits_bytes(n: Node)
    ensures
        bytes_to_bits(flat_bytes(n)) == flat_bits(n),
    decreases n,
{
    match n {
        Node::Bit(b) => {
            let lit = if b {
                0xFFu8
            } else {
                0u8
            };
            assert(flat_bytes(n) == seq![lit]);
            assert(flat_bytes(n).skip(1) =~= Seq::<u8>::empty());
            assert(bytes_to_bits(Seq::<u8>::empty()) =~= Seq::<bool>::empty());
            assert(bytes_to_bits(flat_bytes(n)) =~= byte_to_bits(lit));
            if b {
                lemma_byte_to_bits_ones();
            } else {
                lemma_byte_to_bits_zero();
            }
            assert(bytes_to_bits(flat_bytes(n)) =~= flat_bits(n));
        }
        Node::Compound(p) => {
            lemma_flat_bits_bytes(p.0);
            lemma_flat_bits_bytes(p.1);
            lemma_bytes_to_bits_concat(flat_bytes(p.0), flat_bytes(p.1));
        }
    }
}

impl Node {
    /// Decode a non-empty bit sequence into a tree: a chunk of at most 64
    /// bits becomes one leaf by majority vote (ties favour `true`); a longer
    /// sequence is split at the midpoint and each half decoded recursively.
    /// A sequence of length zero is refused.
    pub fn decode(bits: &Bits) -> (r: Result<Node, EmptyInputError>)
        ensures
            r is Err <==> bits_of(*bits).len() == 0,
            r matches Ok(n) ==> n == spec_decode(bits_of(*bits)),
        decreases bits_of(*bits).len(),
    {
        let ghost b = bits_of(*bits);
        let len = bits.len();
        if len == 0 {
            return Err(EmptyInputError);
        }
        if len <= 64 {
            let mut ones: usize = 0;
            let mut i: usize = 0;
            while i < len
                invariant
                    i <= len,
                    len == b.len() <= 64,
                    b == bits_of(*bits),
                    ones == count_ones(b.take(i as int)),
                    ones <= i,
                decreases len - i,
            {
                proof {
                    assert(b.take(i + 1).drop_last() =~= b.take(i as int));
                    assert(b.take(i + 1).last() == b[i as int]);
                }
                if bits.at(i) {
                    ones = ones + 1;
                }
                i = i + 1;
            }
            proof {
                assert(b.take(len as int) =~= b);
            }
            Ok(Node::Bit(2 * ones >= len))
        } else {
            let mid = len / 2;
            let lo = bits.slice(0, mid);
            let hi = bits.slice(mid, len);
            let left = match Node::decode(&lo) {
                Ok(n) => n,
                Err(e) => {
                    return Err(e);
                }
            };
            let right = match Node::decode(&hi) {
                Ok(n) => n,
                Err(e) => {
                    return Err(e);
                }
            };
            Ok(Node::Compound(Box::new((left, right))))
        }
    }

    /// Flatten the tree into its bit form: one full literal byte per leaf,
    /// children in order, left before right.
    pub fn to_bits(&self) -> (r: Bits)
        requires
            8 * spec_size(*self) <= MAX_BITS,
        ensures
            bits_of(r) == flat_bits(*self),
        decreases *self,
    {
        match self {
            Node::Bit(b) => {
                let lit: u8 = if *b {
                    0xFF
                } else {
                    0
                };
                let mut block: Vec<u8> = Vec::new();
                block.push(lit);
                let r = Bits::from_bytes(&block);
                proof {
                    assert(block@.skip(1) =~= Seq::<u8>::empty());
                    assert(bytes_to_bits(Seq::<u8>::empty()) =~= Seq::<bool>::empty());
                    assert(bytes_to_bits(block@) =~= byte_to_bits(lit));
                    if *b {
                        lemma_byte_to_bits_ones();
                    } else {
                        lemma_byte_to_bits_zero();
                    }
                    assert(bits_of(r) =~= flat_bits(*self));
                }
                r
            }
            Node::Compound(compound) => {
                proof {
                    lemma_size_pos(compound.0);
                    lemma_size_pos(compound.1);
                    lemma_flat_len(compound.0);
                    lemma_flat_len(compound.1);
                }
                let mut out = compound.0.to_bits();
                let rhs = compound.1.to_bits();
                out.append(&rhs);
                out
            }
        }
    }

    /// Flatten the tree into its byte form: one literal byte per leaf.
    pub fn encode(&self) -> (r: Vec<u8>)
        requires
            8 * spec_size(*self) <= MAX_BITS,
        ensures
            r@ == flat_bytes(*self),
    {
        let bits = self.to_bits();
        proof {
            lemma_flat_len(*self);
            lemma_flat_bits_bytes(*self);
            lemma_bytes_to_bits_len(flat_bytes(*self));
        }
        let bytes = bits.into_bytes();
        proof {
            lemma_bytes_to_bits_inj(bytes@, flat_bytes(*self));
        }
        bytes
    }

    /// The folded value of this tree at a stream position: a leaf returns
    /// its own literal; a compound queries the entropy generator for the
    /// position's bit and folds it into its children's values.
    pub fn fold(&self, entropy: &mut UniversalEntropy, pos: usize) -> (r: bool)
        requires
            old(entropy).wf(),
            pos < MAX_BITS,
        ensures
            final(entropy).wf(),
            r == spec_fold(*self, pos as nat),
        decreases *self,
    {
        match self {
            Node::Bit(b) => *b,
            Node::Compound(compound) => {
                let left_bit = compound.0.fold(entropy, pos);
                let right_bit = compound.1.fold(entropy, pos);
                let expected = entropy.bit(pos);
                left_bit ^ right_bit ^ expected
            }
        }
    }

    /// Perform a three-way exclusive-or between two trees and their expected
    /// entropy value, one bit per position up to the larger leaf count.
    pub fn op(&self, entropy: &mut UniversalEntropy, other: &Node) -> (r: Bits)
        requires
            old(entropy).wf(),
            spec_size(*self) <= MAX_BITS,
            spec_size(*other) <= MAX_BITS,
        ensures
            final(entropy).wf(),
            bits_of(r) == spec_op(*self, *other),
    {
        let size_s = self.size();
        let size_o = other.size();
        let size = if size_s >= size_o {
            size_s
        } else {
            size_o
        };
        let mut result = Bits::new();
        let mut pos: usize = 0;
        while pos < size
            invariant
                old(entropy).wf(),
                entropy.wf(),
                pos <= size,
                size == spec_op(*self, *other).len(),
                spec_size(*self) <= MAX_BITS,
                spec_size(*other) <= MAX_BITS,
                bits_of(result).len() == pos,
                forall|k: int| 0 <= k < pos ==> bits_of(result)[k] == spec_op(*self, *other)[k],
            decreases size - pos,
        {
            let a_bit = self.fold(entropy, pos);
            let b_bit = other.fold(entropy, pos);
            let expected = entropy.bit(pos);
            let res_bit = a_bit ^ b_bit ^ expected;
            result.push(res_bit);
            pos = pos + 1;
        }
        proof {
            assert(bits_of(result) =~= spec_op(*self, *other));
        }
        result
    }

    /// Fold an incoming node into this state, selecting the transition
    /// rule by the input's shape: a literal leaf becomes a new leftmost
    /// leaf, demoting the whole previous state to the right subtree; a
    /// compound input is combined with the state by the entropy-biased
    /// exclusive-or and the combination decoded back into a tree. The
    /// state itself is left unchanged.
    pub fn reflect(&mut self, entropy: &mut UniversalEntropy, input: &Node) -> (r: Node)
        requires
            old(entropy).wf(),
            spec_size(*old(self)) <= MAX_BITS,
            spec_size(*input) <= MAX_BITS,
        ensures
            final(entropy).wf(),
            *final(self) == *old(self),
            (*input matches Node::Bit(b) ==> r == Node::Compound(
                Box::new((Node::Bit(b), *old(self))),
            )),
            *input is Compound ==> r == spec_decode(spec_op(*old(self), *input)),
    {
        match input {
            Node::Bit(b) => Node::Compound(Box::new((Node::Bit(*b), self.clone()))),
            Node::Compound(_) => {
                proof {
                    lemma_size_pos(*self);
                    lemma_size_pos(*input);
                }
                let combined = self.op(entropy, input);
                match Node::decode(&combined) {
                    Ok(n) => n,
                    Err(_) => {
                        proof {
                            assert(false);
                        }
                        Node::Bit(false)
                    }
                }
            }
        }
    }

    /// Leaf count, summed recursively.
    pub fn size(&self) -> (r: usize)
        requires
            spec_size(*self) <= usize::MAX,
        ensures
            r == spec_size(*self),
        decreases *self,
    {
        match self {
            Node::Bit(_) => 1,
            Node::Compound(compound) => {
                let left = &compound.0;
                let right = &compound.1;
                proof {
                    lemma_size_pos(*left);
                    lemma_size_pos(*right);
                }
                left.size() + right.size()
            }
        }
    }
}

} // verus!
