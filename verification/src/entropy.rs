//! Deterministic entropy stream.
//!
//! An iterative numeric recurrence, `f <- 1 + f / (n + 1)`, is advanced one
//! step per bit; the bit is the lowest-order bit of the accumulator's
//! fixed-width binary encoding. The accumulator is kept in Q1.52 fixed
//! point (52 fractional bits, the width of a double-precision mantissa),
//! seeded with the encoding of a fixed irrational-like constant, so every
//! generator instance reproduces exactly the same bit at the same position,
//! with no shared state.

use vstd::prelude::*;

use crate::bits::Bits;
use crate::bits::MAX_BITS;
use crate::bits::bits_of;

verus! {

/// One in Q1.52 fixed point.
pub const ENT_ONE: u64 = 0x10_0000_0000_0000;

/// The seed: e raised to 1/e (about 1.4446678610097661) in Q1.52.
pub const ENT_SEED: u64 = 0x17_1D5C_0C09_E852;

/// The accumulator after `k` advance steps: step `k` divides the previous
/// value by `k + 1` and adds one, in Q1.52 fixed point.
pub open spec fn ent_acc(k: nat) -> int
    decreases k,
{
    if k == 0 {
        ENT_SEED as int
    } else {
        ENT_ONE + ent_acc((k - 1) as nat) / (k + 1) as int
    }
}

/// The accumulator always stays within [1, 2) in Q1.52.
pub proof fn lemma_ent_acc_range(k: nat)
    ensures
        ENT_ONE <= ent_acc(k) < 2 * ENT_ONE,
    decreases k,
{
    if k > 0 {
        lemma_ent_acc_range((k - 1) as nat);
        let prev = ent_acc((k - 1) as nat);
        let d = k + 1 as int;
        assert(0 <= prev / d < ENT_ONE) by (nonlinear_arith)
            requires
                0 <= prev < 2 * (ENT_ONE as int),
                d >= 2,
        ;
    }
}

/// The deterministic entropy bit at a position: the lowest-order bit of the
/// accumulator's encoding after `pos + 1` steps. A pure function of the
/// position alone: every generator instance agrees on it, in whatever order
/// positions are queried.
pub open spec fn ent_bit(pos: nat) -> bool {
    ent_acc(pos + 1) % 2 == 1
}

/// Deterministic, lazily-extended entropy bit stream.
///
/// Holds the step index, the fixed-point accumulator, and the append-only
/// cache of bits generated so far.
pub struct UniversalEntropy {
    n: u64,
    f: u64,
    bits: Bits,
}

impl UniversalEntropy {
    /// The generator state is exactly `k` steps into the recurrence, with
    /// every cached bit equal to the stream's bit at its position.
    pub closed spec fn wf(self) -> bool {
        &&& self.n >= 1
        &&& self.n == bits_of(self.bits).len() + 1
        &&& self.f == ent_acc((self.n - 1) as nat)
        &&& forall|i: int|
            0 <= i < bits_of(self.bits).len() ==> bits_of(self.bits)[i] == ent_bit(i as nat)
    }

    /// Create a new generator, seeded at the fixed constant with an empty
    /// cache.
    pub fn new() -> (r: UniversalEntropy)
        ensures
            r.wf(),
    {
        UniversalEntropy { n: 1, f: ENT_SEED, bits: Bits::new() }
    }

    /// Advance the recurrence by one step and append the extracted bit to
    /// the cache.
    fn step(&mut self)
        requires
            old(self).wf(),
            bits_of(old(self).bits).len() < MAX_BITS,
        ensures
            final(self).wf(),
            bits_of(final(self).bits).len() == bits_of(old(self).bits).len() + 1,
    {
        let ghost k = (self.n - 1) as nat;
        proof {
            lemma_ent_acc_range(k);
            let prev = ent_acc(k);
            let d = self.n as int + 1;
            assert(0 <= prev / d < ENT_ONE) by (nonlinear_arith)
                requires
                    0 <= prev < 2 * (ENT_ONE as int),
                    d >= 2,
            ;
        }
        self.n = self.n + 1;
        self.f = ENT_ONE + self.f / self.n;
        let b = self.f % 2 == 1;
        self.bits.push(b);
        proof {
            assert(self.f == ent_acc((k + 1) as nat));
            assert(b == ent_bit(bits_of(old(self).bits).len() as nat));
        }
    }

    /// Extend the cache until it covers `pos`: a cache already past `pos`
    /// is left as it is, a shorter one grows to exactly `pos + 1` bits.
    fn ensure_pos(&mut self, pos: usize)
        requires
            old(self).wf(),
            pos < MAX_BITS,
        ensures
            final(self).wf(),
            pos < bits_of(final(self).bits).len(),
            bits_of(final(self).bits).len() == (if bits_of(old(self).bits).len() > pos {
                bits_of(old(self).bits).len() as int
            } else {
                pos + 1
            }),
    {
        while self.bits.len() <= pos
            invariant
                self.wf(),
                pos < MAX_BITS,
                (if bits_of(old(self).bits).len() > pos {
                    bits_of(self.bits).len() == bits_of(old(self).bits).len()
                } else {
                    bits_of(old(self).bits).len() <= bits_of(self.bits).len() <= pos + 1
                }),
            decreases pos + 1 - bits_of(self.bits).len(),
        {
            self.step();
        }
    }

    /// The stream's bit at `pos`: a pure function of the position, however
    /// the generator was queried before, extending the cache on demand.
    pub fn bit(&mut self, pos: usize) -> (r: bool)
        requires
            old(self).wf(),
            pos < MAX_BITS,
        ensures
            final(self).wf(),
            r == ent_bit(pos as nat),
    {
        self.ensure_pos(pos);
        self.bits.at(pos)
    }

    /// The prefix of the stream of length `n_bits`.
    pub fn bits_to_pos(&mut self, n_bits: usize) -> (r: Bits)
        requires
            old(self).wf(),
            n_bits < MAX_BITS,
        ensures
            final(self).wf(),
            bits_of(r).len() == n_bits,
            forall|i: int| 0 <= i < n_bits ==> bits_of(r)[i] == ent_bit(i as nat),
            n_bits == 0 ==> *final(self) == *old(self),
    {
        if n_bits == 0 {
            return Bits::new();
        }
        self.ensure_pos(n_bits - 1);
        self.bits.slice(0, n_bits)
    }

    /// The range `[start, start + len)` of the stream.
    pub fn bits_range(&mut self, start: usize, len: usize) -> (r: Bits)
        requires
            old(self).wf(),
            start + len < MAX_BITS,
        ensures
            final(self).wf(),
            bits_of(r).len() == len,
            forall|i: int| 0 <= i < len ==> bits_of(r)[i] == ent_bit((start + i) as nat),
            len == 0 ==> *final(self) == *old(self),
    {
        if len == 0 {
            return Bits::new();
        }
        self.ensure_pos(start + len - 1);
        self.bits.slice(start, start + len)
    }
}

} // verus!
