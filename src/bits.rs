//! The bit buffers that hold a world, a change set or a pattern.
//!
//! A [`Bits`] keeps its cells in a `bitvec` bit-vector. What it holds is named
//! by [`bits_of`]; every operation on it goes through one of the small methods
//! below, each a single call into `bitvec`.

use bitvec::order::Lsb0;
use bitvec::vec::BitVec;
use vstd::prelude::*;

verus! {

/// A bit buffer: one bit per cell, in index order.
#[verifier::external_body]
pub struct Bits {
    inner: BitVec<usize, Lsb0>,
}

/// The sequence of bits that a buffer holds, in index order.
pub uninterp spec fn bits_of(v: Bits) -> Seq<bool>;

/// The largest length a buffer can have (`BitSlice::MAX_BITS`).
pub const MAX_BITS: usize = usize::MAX / 8;

impl Bits {
    /// Relies on `BitVec::repeat`: a buffer of `len` copies of `bit`; it
    /// panics beyond `MAX_BITS`.
    #[verifier::external_body]
    pub fn repeat(bit: bool, len: usize) -> (r: Bits)
        requires
            len <= MAX_BITS,
        ensures
            bits_of(r) == Seq::new(len as nat, |_i: int| bit),
    {
        Bits { inner: BitVec::repeat(bit, len) }
    }

    /// Relies on `BitVec::new`: an empty buffer.
    #[verifier::external_body]
    pub fn new() -> (r: Bits)
        ensures
            bits_of(r) == Seq::<bool>::empty(),
    {
        Bits { inner: BitVec::new() }
    }

    /// Relies on `BitVec::len`: the number of bits held.
    #[verifier::external_body]
    pub fn len(&self) -> (r: usize)
        ensures
            r == bits_of(*self).len(),
    {
        self.inner.len()
    }

    /// Relies on indexing a `BitSlice`: the bit at `i`; it panics out of
    /// bounds.
    #[verifier::external_body]
    pub fn get(&self, i: usize) -> (r: bool)
        requires
            i < bits_of(*self).len(),
        ensures
            r == bits_of(*self)[i as int],
    {
        self.inner[i]
    }

    /// Relies on `BitSlice::set`: writes one bit; it panics out of bounds.
    #[verifier::external_body]
    pub fn set(&mut self, i: usize, bit: bool)
        requires
            i < bits_of(*old(self)).len(),
        ensures
            bits_of(*final(self)) == bits_of(*old(self)).update(i as int, bit),
    {
        self.inner.set(i, bit)
    }

    /// Relies on `BitVec::push`: appends one bit; it panics beyond
    /// `MAX_BITS`.
    #[verifier::external_body]
    pub fn push(&mut self, bit: bool)
        requires
            bits_of(*old(self)).len() < MAX_BITS,
        ensures
            bits_of(*final(self)) == bits_of(*old(self)).push(bit),
    {
        self.inner.push(bit)
    }

    /// The bits held, as a vector of booleans.
    pub fn to_vec(&self) -> (r: Vec<bool>)
        ensures
            r@ == bits_of(*self),
    {
        let n = self.len();
        let mut out: Vec<bool> = Vec::new();
        let mut i: usize = 0;
        while i < n
            invariant
                n == bits_of(*self).len(),
                i <= n,
                out@ == bits_of(*self).subrange(0, i as int),
            decreases n - i,
        {
            out.push(self.get(i));
            i = i + 1;
        }
        assert(out@ =~= bits_of(*self));
        out
    }
}

} // verus!
