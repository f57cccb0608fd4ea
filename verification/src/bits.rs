//! Bit-level buffers.
//!
//! The raw currency exchanged between the components is an ordered sequence
//! of bits, most-significant-bit-first, held in a `bitvec` bit-vector. The
//! buffer is opaque here; its contents are named by [`bits_of`], and each
//! operation the logic needs is a small trusted wrapper whose contract
//! speaks over that name.

use vstd::prelude::*;

verus! {

/// Bit-level buffer used throughout: bytes expanded most significant bit
/// first, backed by a `bitvec` vector.
#[verifier::external_body]
pub struct Bits {
    inner: bitvec::vec::BitVec<u8, bitvec::order::Msb0>,
}

/// The sequence of bits a buffer holds, first bit first.
pub uninterp spec fn bits_of(b: Bits) -> Seq<bool>;

/// Bit lengths the wrappers accept. A `bitvec` span over bytes can address
/// close to `usize::MAX / 8` bits; this conservative cap stays far below
/// that limit on both 32- and 64-bit machines, so no wrapper can hit the
/// crate's capacity panic.
pub const MAX_BITS: usize = 0x0FFF_FFFF;

/// A byte expanded to its eight bits, most significant first.
pub open spec fn byte_to_bits(x: u8) -> Seq<bool> {
    Seq::new(8, |j: int| (x >> ((7 - j) as u8)) & 1 == 1)
}

/// A byte sequence expanded bytewise, in order.
pub open spec fn bytes_to_bits(s: Seq<u8>) -> Seq<bool>
    decreases s.len(),
{
    if s.len() == 0 {
        Seq::empty()
    } else {
        byte_to_bits(s[0]) + bytes_to_bits(s.skip(1))
    }
}

/// Expansion yields eight bits per byte.
pub proof fn lemma_bytes_to_bits_len(s: Seq<u8>)
    ensures
        bytes_to_bits(s).len() == 8 * s.len(),
    decreases s.len(),
{
    if s.len() > 0 {
        lemma_bytes_to_bits_len(s.skip(1));
    }
}

/// Expansion distributes over concatenation.
pub proof fn lemma_bytes_to_bits_concat(a: Seq<u8>, b: Seq<u8>)
    ensures
        bytes_to_bits(a + b) == bytes_to_bits(a) + bytes_to_bits(b),
    decreases a.len(),
{
    if a.len() == 0 {
        assert(a + b =~= b);
        assert(bytes_to_bits(a) + bytes_to_bits(b) =~= bytes_to_bits(b));
    } else {
        lemma_bytes_to_bits_concat(a.skip(1), b);
        assert((a + b).skip(1) =~= a.skip(1) + b);
        assert(bytes_to_bits(a + b) =~= bytes_to_bits(a) + bytes_to_bits(b));
    }
}

/// A byte is determined by its eight bits.
pub proof fn lemma_byte_to_bits_inj(x: u8, y: u8)
    requires
        byte_to_bits(x) == byte_to_bits(y),
    ensures
        x == y,
{
    assert(byte_to_bits(x)[0] == ((x >> 7u8) & 1 == 1));
    assert(byte_to_bits(x)[1] == ((x >> 6u8) & 1 == 1));
    assert(byte_to_bits(x)[2] == ((x >> 5u8) & 1 == 1));
    assert(byte_to_bits(x)[3] == ((x >> 4u8) & 1 == 1));
    assert(byte_to_bits(x)[4] == ((x >> 3u8) & 1 == 1));
    assert(byte_to_bits(x)[5] == ((x >> 2u8) & 1 == 1));
    assert(byte_to_bits(x)[6] == ((x >> 1u8) & 1 == 1));
    assert(byte_to_bits(x)[7] == ((x >> 0u8) & 1 == 1));
    assert(byte_to_bits(y)[0] == ((y >> 7u8) & 1 == 1));
    assert(byte_to_bits(y)[1] == ((y >> 6u8) & 1 == 1));
    assert(byte_to_bits(y)[2] == ((y >> 5u8) & 1 == 1));
    assert(byte_to_bits(y)[3] == ((y >> 4u8) & 1 == 1));
    assert(byte_to_bits(y)[4] == ((y >> 3u8) & 1 == 1));
    assert(byte_to_bits(y)[5] == ((y >> 2u8) & 1 == 1));
    assert(byte_to_bits(y)[6] == ((y >> 1u8) & 1 == 1));
    assert(byte_to_bits(y)[7] == ((y >> 0u8) & 1 == 1));
    assert(x == y) by (bit_vector)
        requires
            ((x >> 7u8) & 1 == 1) == ((y >> 7u8) & 1 == 1),
            ((x >> 6u8) & 1 == 1) == ((y >> 6u8) & 1 == 1),
            ((x >> 5u8) & 1 == 1) == ((y >> 5u8) & 1 == 1),
            ((x >> 4u8) & 1 == 1) == ((y >> 4u8) & 1 == 1),
            ((x >> 3u8) & 1 == 1) == ((y >> 3u8) & 1 == 1),
            ((x >> 2u8) & 1 == 1) == ((y >> 2u8) & 1 == 1),
            ((x >> 1u8) & 1 == 1) == ((y >> 1u8) & 1 == 1),
            ((x >> 0u8) & 1 == 1) == ((y >> 0u8) & 1 == 1),
    ;
}

/// A byte sequence is determined by its expanded bits.
pub proof fn lemma_bytes_to_bits_inj(a: Seq<u8>, b: Seq<u8>)
    requires
        a.len() == b.len(),
        bytes_to_bits(a) == bytes_to_bits(b),
    ensures
        a == b,
    decreases a.len(),
{
    if a.len() > 0 {
        lemma_bytes_to_bits_len(a.skip(1));
        lemma_bytes_to_bits_len(b.skip(1));
        assert(bytes_to_bits(a) == byte_to_bits(a[0]) + bytes_to_bits(a.skip(1)));
        assert(bytes_to_bits(b) == byte_to_bits(b[0]) + bytes_to_bits(b.skip(1)));
        assert(byte_to_bits(a[0]) =~= byte_to_bits(b[0])) by {
            assert forall|j: int| 0 <= j < 8 implies byte_to_bits(a[0])[j] == byte_to_bits(
                b[0],
            )[j] by {
                assert(bytes_to_bits(a)[j] == byte_to_bits(a[0])[j]);
                assert(bytes_to_bits(b)[j] == byte_to_bits(b[0])[j]);
                assert(bytes_to_bits(a)[j] == bytes_to_bits(b)[j]);
            }
        }
        lemma_byte_to_bits_inj(a[0], b[0]);
        assert(bytes_to_bits(a.skip(1)) =~= bytes_to_bits(b.skip(1))) by {
            assert forall|j: int| 0 <= j < bytes_to_bits(a.skip(1)).len() implies bytes_to_bits(
                a.skip(1),
            )[j] == bytes_to_bits(b.skip(1))[j] by {
                assert(bytes_to_bits(a)[8 + j] == bytes_to_bits(a.skip(1))[j]);
                assert(bytes_to_bits(b)[8 + j] == bytes_to_bits(b.skip(1))[j]);
                assert(bytes_to_bits(a)[8 + j] == bytes_to_bits(b)[8 + j]);
            }
        }
        lemma_bytes_to_bits_inj(a.skip(1), b.skip(1));
        assert forall|i: int| 0 <= i < a.len() implies a[i] == b[i] by {
            if i > 0 {
                assert(a.skip(1)[i - 1] == a[i]);
                assert(b.skip(1)[i - 1] == b[i]);
            }
        }
        assert(a =~= b);
    } else {
        assert(a =~= b);
    }
}

/// The all-zero byte expands to eight `false` bits.
pub proof fn lemma_byte_to_bits_zero()
    ensures
        byte_to_bits(0u8) == Seq::new(8, |i: int| false),
{
    assert(forall|j: u8| j < 8 ==> (0u8 >> j) & 1 == 0) by (bit_vector);
    assert(byte_to_bits(0u8) =~= Seq::new(8, |i: int| false));
}

/// The all-one byte expands to eight `true` bits.
pub proof fn lemma_byte_to_bits_ones()
    ensures
        byte_to_bits(0xFFu8) == Seq::new(8, |i: int| true),
{
    assert(forall|j: u8| j < 8 ==> (0xFFu8 >> j) & 1 == 1) by (bit_vector);
    assert(byte_to_bits(0xFFu8) =~= Seq::new(8, |i: int| true));
}

impl Bits {
    /// Relies on `BitVec::new`: a fresh buffer holds no bits.
    #[verifier::external_body]
    pub fn new() -> (r: Bits)
        ensures
            bits_of(r) == Seq::<bool>::empty(),
    {
        Bits { inner: bitvec::vec::BitVec::new() }
    }

    /// Relies on `BitVec::len`: the number of live bits in the buffer.
    #[verifier::external_body]
    pub fn len(&self) -> (r: usize)
        ensures
            r == bits_of(*self).len(),
    {
        self.inner.len()
    }

    /// Relies on `BitSlice`'s `Index<usize>`: the bit at a position.
    #[verifier::external_body]
    pub fn at(&self, i: usize) -> (r: bool)
        requires
            i < bits_of(*self).len(),
        ensures
            r == bits_of(*self)[i as int],
    {
        self.inner[i]
    }

    /// Relies on `BitVec::push`: appends one bit at the end.
    #[verifier::external_body]
    pub fn push(&mut self, v: bool)
        requires
            bits_of(*old(self)).len() < MAX_BITS,
        ensures
            bits_of(*final(self)) == bits_of(*old(self)).push(v),
    {
        self.inner.push(v)
    }

    /// Relies on `BitVec::extend_from_bitslice`: appends the other buffer's
    /// bits after this buffer's, keeping both in order.
    #[verifier::external_body]
    pub fn append(&mut self, other: &Bits)
        requires
            bits_of(*old(self)).len() + bits_of(*other).len() <= MAX_BITS,
        ensures
            bits_of(*final(self)) == bits_of(*old(self)) + bits_of(*other),
    {
        self.inner.extend_from_bitslice(other.inner.as_bitslice())
    }

    /// Relies on `BitSlice::to_bitvec` over a range index: copies the bits
    /// of `[start, end)` into a fresh buffer.
    #[verifier::external_body]
    pub fn slice(&self, start: usize, end: usize) -> (r: Bits)
        requires
            start <= end <= bits_of(*self).len(),
        ensures
            bits_of(r) == bits_of(*self).subrange(start as int, end as int),
    {
        Bits { inner: self.inner[start..end].to_bitvec() }
    }

    /// Relies on `BitVec::from_slice` with the `Msb0` ordering: each byte of
    /// the slice is expanded to its eight bits, most significant first.
    #[verifier::external_body]
    pub fn from_bytes(bytes: &Vec<u8>) -> (r: Bits)
        requires
            bytes@.len() < MAX_BITS / 8,
        ensures
            bits_of(r) == bytes_to_bits(bytes@),
    {
        Bits { inner: bitvec::vec::BitVec::from_slice(bytes.as_slice()) }
    }

    /// Relies on `BitVec::force_align`, `set_uninitialized` and `into_vec`:
    /// the live bits are moved down to the byte boundary and the dead bits
    /// cleared, so the returned bytes hold exactly the live bits from the
    /// most significant bit of the first byte on.
    #[verifier::external_body]
    pub fn into_bytes(self) -> (r: Vec<u8>)
        ensures
            r@.len() == (bits_of(self).len() + 7) / 8,
            bits_of(self).len() % 8 == 0 ==> bytes_to_bits(r@) == bits_of(self),
    {
        let mut aligned = self.inner;
        aligned.force_align();
        aligned.set_uninitialized(false);
        aligned.into_vec()
    }
}

} // verus!
