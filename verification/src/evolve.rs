//! The state-evolution operator.
//!
//! Given the current state tree and an incoming input, produce the next
//! state. A bit-literal input is prepended as a new leftmost leaf, demoting
//! the whole previous state to the right subtree. A tree input is combined
//! positionally with the state and the combination decoded back into a
//! tree. The canonical tree-input law of this crate is the positional
//! exclusive-or over the flattened bit forms with implicit zero-padding of
//! the shorter side; the entropy-biased variant combines the folded values
//! instead and is selected by calling [`next_biased`]. An alternate
//! shift-register rule (drop the state's leading bit, then concatenate the
//! input's bits) is deliberately not adopted: one law is kept across the
//! whole crate.

use vstd::prelude::*;

use crate::bits::Bits;
use crate::bits::MAX_BITS;
use crate::bits::bits_of;
use crate::entropy::UniversalEntropy;
use crate::node::Node;
use crate::node::flat_bits;
use crate::node::lemma_flat_len;
use crate::node::lemma_size_pos;
use crate::node::spec_decode;
use crate::node::spec_op;
use crate::node::spec_size;

verus! {

/// The positional exclusive-or of two bit sequences, zero-padding the
/// shorter side up to the longer length.
pub open spec fn spec_xor_pad(a: Seq<bool>, b: Seq<bool>) -> Seq<bool> {
    Seq::new(
        if a.len() >= b.len() {
            a.len()
        } else {
            b.len()
        },
        |k: int| (k < a.len() && a[k]) ^ (k < b.len() && b[k]),
    )
}

/// The canonical next state for a tree input: decode the positional
/// exclusive-or of the two flattened forms.
pub open spec fn spec_next(s: Node, i: Node) -> Node {
    spec_decode(spec_xor_pad(flat_bits(s), flat_bits(i)))
}

/// Fold a literal bit into the state: the literal becomes a new leftmost
/// leaf and the previous whole state the right subtree, so each literal
/// consumes one step without discarding prior state.
pub fn step_bit(state: Node, b: bool) -> (r: Node)
    ensures
        r == Node::Compound(Box::new((Node::Bit(b), state))),
{
    Node::Compound(Box::new((Node::Bit(b), state)))
}

/// The unbiased combination of two trees: the positional exclusive-or of
/// their flattened bit forms, the shorter side read as all-zero beyond its
/// length.
pub fn op_unbiased(s: &Node, o: &Node) -> (r: Bits)
    requires
        8 * spec_size(*s) <= MAX_BITS,
        8 * spec_size(*o) <= MAX_BITS,
    ensures
        bits_of(r) == spec_xor_pad(flat_bits(*s), flat_bits(*o)),
{
    proof {
        lemma_flat_len(*s);
        lemma_flat_len(*o);
    }
    let a = s.to_bits();
    let b = o.to_bits();
    let len_a = a.len();
    let len_b = b.len();
    let len = if len_a >= len_b {
        len_a
    } else {
        len_b
    };
    let ghost target = spec_xor_pad(flat_bits(*s), flat_bits(*o));
    let mut result = Bits::new();
    let mut k: usize = 0;
    while k < len
        invariant
            k <= len,
            len_a == bits_of(a).len(),
            len_b == bits_of(b).len(),
            bits_of(a) == flat_bits(*s),
            bits_of(b) == flat_bits(*o),
            len == target.len(),
            len <= MAX_BITS,
            target == spec_xor_pad(flat_bits(*s), flat_bits(*o)),
            bits_of(result).len() == k,
            forall|j: int| 0 <= j < k ==> bits_of(result)[j] == target[j],
        decreases len - k,
    {
        let a_bit = if k < len_a {
            a.at(k)
        } else {
            false
        };
        let b_bit = if k < len_b {
            b.at(k)
        } else {
            false
        };
        result.push(a_bit ^ b_bit);
        k = k + 1;
    }
    proof {
        assert(bits_of(result) =~= target);
    }
    result
}

/// The canonical evolution law for a tree input: the next state is the
/// decoded positional exclusive-or, with zero-padding, of the flattened
/// forms of the state and the input. Never fails: the combination is as
/// long as the longer flattened form, which is never empty.
pub fn next(state: &Node, input: &Node) -> (r: Node)
    requires
        8 * spec_size(*state) <= MAX_BITS,
        8 * spec_size(*input) <= MAX_BITS,
    ensures
        r == spec_next(*state, *input),
{
    proof {
        lemma_size_pos(*state);
        lemma_flat_len(*state);
    }
    let combined = op_unbiased(state, input);
    match Node::decode(&combined) {
        Ok(n) => n,
        Err(_) => {
            proof {
                assert(false);
            }
            Node::Bit(false)
        }
    }
}

/// The entropy-biased evolution law: the next state is the decoded
/// three-way combination of the folded values and the entropy stream.
/// Never fails: the combination is one bit per leaf of the larger tree.
pub fn next_biased(state: &Node, entropy: &mut UniversalEntropy, input: &Node) -> (r: Node)
    requires
        old(entropy).wf(),
        spec_size(*state) <= MAX_BITS,
        spec_size(*input) <= MAX_BITS,
    ensures
        final(entropy).wf(),
        r == spec_decode(spec_op(*state, *input)),
{
    proof {
        lemma_size_pos(*state);
    }
    let combined = state.op(entropy, input);
    match Node::decode(&combined) {
        Ok(n) => n,
        Err(_) => {
            proof {
                assert(false);
            }
            Node::Bit(false)
        }
    }
}

/// Combining any tree with itself, unbiased, yields the all-zero bit
/// sequence of exactly its flattened bit length.
pub proof fn lemma_op_self_zero(s: Node)
    ensures
        spec_xor_pad(flat_bits(s), flat_bits(s)) == Seq::new(
            flat_bits(s).len(),
            |k: int| false,
        ),
        spec_xor_pad(flat_bits(s), flat_bits(s)).len() == 8 * spec_size(s),
{
    lemma_flat_len(s);
    assert(spec_xor_pad(flat_bits(s), flat_bits(s)) =~= Seq::new(
        flat_bits(s).len(),
        |k: int| false,
    ));
}

} // verus!
