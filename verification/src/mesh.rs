//! Peer-discovery mesh rules.
//!
//! A node's rendezvous UDP port is derived from the bit length of its
//! encoded state; the canonical root state is the fixed three-byte literal
//! decoded like any other input. The socket itself, binding and datagram
//! exchange are external collaborators; this module holds the decisions
//! they act on: which port a state resolves to, what counts as the
//! handshake acknowledgment, and how one inbound datagram changes the
//! state.

use vstd::prelude::*;

use crate::bits::Bits;
use crate::bits::MAX_BITS;
use crate::bits::bytes_to_bits;
use crate::bits::lemma_bytes_to_bits_len;
use crate::evolve::spec_next;
use crate::node::EmptyInputError;
use crate::node::Node;
use crate::node::lemma_decode_size_bound;
use crate::node::lemma_flat_len;
use crate::node::lemma_size_pos;
use crate::node::spec_decode;
use crate::node::spec_size;

verus! {

/// Fixed low-port exclusion bound, also the receive chunk size.
pub const SIZE: usize = 4096;

/// The port a state resolves to: its encoded bit length, wrapped into the
/// port range above the excluded low ports.
pub open spec fn spec_port(n: Node) -> int {
    (8 * spec_size(n)) as int % (65535 - 4096) + 4096
}

/// The fixed three-byte root literal, `hey` in ASCII.
pub open spec fn root_seq() -> Seq<u8> {
    seq![104u8, 101u8, 121u8]
}

/// The canonical root state: the root literal decoded.
pub open spec fn spec_root() -> Node {
    spec_decode(bytes_to_bits(root_seq()))
}

/// The five-byte handshake acknowledgment literal, `HELLO` in ASCII.
pub open spec fn hello_seq() -> Seq<u8> {
    seq![72u8, 69u8, 76u8, 76u8, 79u8]
}

/// The root literal's bytes.
pub fn root_bytes() -> (r: Vec<u8>)
    ensures
        r@ == root_seq(),
{
    let mut out: Vec<u8> = Vec::new();
    out.push(104);
    out.push(101);
    out.push(121);
    proof {
        assert(out@ =~= root_seq());
    }
    out
}

/// The handshake acknowledgment bytes.
pub fn hello_bytes() -> (r: Vec<u8>)
    ensures
        r@ == hello_seq(),
{
    let mut out: Vec<u8> = Vec::new();
    out.push(72);
    out.push(69);
    out.push(76);
    out.push(76);
    out.push(79);
    proof {
        assert(out@ =~= hello_seq());
    }
    out
}

/// Whether a datagram is exactly the handshake acknowledgment.
pub fn is_handshake(data: &Vec<u8>) -> (r: bool)
    ensures
        r == (data@ == hello_seq()),
{
    let r = data.len() == 5 && data[0] == 72 && data[1] == 69 && data[2] == 76 && data[3] == 76
        && data[4] == 79;
    proof {
        if r {
            assert(data@ =~= hello_seq());
        }
    }
    r
}

/// Map a state to its UDP port: a pure function of the state's encoded
/// length, recomputed from the encoding on every call, never memoized.
pub fn to_port(node: &Node) -> (r: u16)
    requires
        8 * spec_size(*node) <= MAX_BITS,
    ensures
        r == spec_port(*node),
{
    proof {
        lemma_flat_len(*node);
    }
    let ttl: usize = 65535 - SIZE;
    let bits = node.to_bits();
    let port = (bits.len() % ttl) + SIZE;
    port as u16
}

/// The canonical root state: the root literal decoded. Its twenty-four
/// bits fall within one leaf chunk, so the root is a single leaf.
pub fn root_node() -> (r: Node)
    ensures
        r == spec_root(),
        spec_size(r) == 1,
{
    let bytes = root_bytes();
    let bits = Bits::from_bytes(&bytes);
    proof {
        lemma_bytes_to_bits_len(root_seq());
    }
    match Node::decode(&bits) {
        Ok(n) => n,
        Err(_) => {
            proof {
                assert(false);
            }
            Node::Bit(false)
        }
    }
}

/// The canonical rendezvous port, derived from the root state.
pub fn root_port() -> (r: u16)
    ensures
        r == spec_port(spec_root()),
{
    let root = root_node();
    to_port(&root)
}

/// What one inbound datagram does to a node.
pub struct DatagramOutcome {
    /// The state after the datagram is handled.
    pub state: Node,
    /// Whether the sender is to be recorded as a peer.
    pub learn_peer: bool,
    /// Whether the handshake acknowledgment is to be sent back.
    pub reply_handshake: bool,
}

/// Decide what an inbound datagram does. The handshake acknowledgment only
/// records the sender as a peer, without folding its payload into the
/// state. Any other non-empty datagram records the sender, folds its
/// decoded payload into the state under the canonical evolution law, and
/// is answered with the handshake only at the root. An empty datagram is
/// refused, leaving the state to the caller unchanged.
pub fn on_datagram(state: Node, data: &Vec<u8>, at_root: bool) -> (r: Result<
    DatagramOutcome,
    EmptyInputError,
>)
    requires
        8 * spec_size(state) <= MAX_BITS,
        64 * data@.len() <= MAX_BITS,
    ensures
        data@ == hello_seq() ==> (r matches Ok(o) && o.state == state && o.learn_peer
            && !o.reply_handshake),
        data@ != hello_seq() && data@.len() == 0 ==> r is Err,
        data@ != hello_seq() && data@.len() > 0 ==> (r matches Ok(o) && o.state == spec_next(
            state,
            spec_decode(bytes_to_bits(data@)),
        ) && o.learn_peer && o.reply_handshake == at_root),
        r matches Ok(o) ==> 8 * spec_size(o.state) <= MAX_BITS,
{
    if is_handshake(data) {
        return Ok(
            DatagramOutcome { state, learn_peer: true, reply_handshake: false },
        );
    }
    if data.len() == 0 {
        return Err(EmptyInputError);
    }
    let bits = Bits::from_bytes(data);
    proof {
        lemma_bytes_to_bits_len(data@);
    }
    let input = match Node::decode(&bits) {
        Ok(n) => n,
        Err(_) => {
            proof {
                assert(false);
            }
            Node::Bit(false)
        }
    };
    proof {
        lemma_decode_size_bound(bytes_to_bits(data@));
    }
    let next_state = crate::evolve::next(&state, &input);
    proof {
        lemma_size_pos(state);
        lemma_size_pos(input);
        lemma_flat_len(state);
        lemma_flat_len(input);
        lemma_decode_size_bound(crate::evolve::spec_xor_pad(
            crate::node::flat_bits(state),
            crate::node::flat_bits(input),
        ));
    }
    Ok(DatagramOutcome { state: next_state, learn_peer: true, reply_handshake: at_root })
}

} // verus!
