//! The touched-set of the tape: one bit per cell, held in a `bitvec`
//! bit-vector that only the wrappers below reach.
use bitvec::order::Lsb0;
use bitvec::vec::BitVec;
use vstd::prelude::*;

verus! {

/// One bit per tape cell, set once the cell has been written.
#[verifier::external_body]
pub struct TouchedSet {
    bits: BitVec<usize, Lsb0>,
}

/// The bits a touched-set holds, in cell order.
pub uninterp spec fn touched_bits(t: TouchedSet) -> Seq<bool>;

/// Relies on `BitVec::repeat`: `n` bits, all clear.
#[verifier::external_body]
pub(crate) fn cleared(n: usize) -> (r: TouchedSet)
    ensures
        touched_bits(r) == Seq::new(n as nat, |i: int| false),
{
    TouchedSet { bits: BitVec::repeat(false, n) }
}

/// Relies on `BitSlice::get`: the bit at `i`, or `None` past the end.
#[verifier::external_body]
pub(crate) fn bit_at(t: &TouchedSet, i: usize) -> (r: Option<bool>)
    ensures
        i < touched_bits(*t).len() ==> r == Some(touched_bits(*t)[i as int]),
        i >= touched_bits(*t).len() ==> r is None,
{
    t.bits.get(i).as_deref().copied()
}

/// Relies on `BitSlice::set`: writes `v` at `i`, which must be in bounds
/// (it panics otherwise), and leaves every other bit as it was.
#[verifier::external_body]
pub(crate) fn set_bit(t: &mut TouchedSet, i: usize, v: bool)
    requires
        i < touched_bits(*old(t)).len(),
    ensures
        touched_bits(*final(t)) == touched_bits(*old(t)).update(i as int, v),
{
    t.bits.set(i, v)
}

} // verus!
