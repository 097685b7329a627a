//! Reading unsigned 64-bit offsets as signed ones, bit for bit.

use vstd::prelude::*;

verus! {

/// The signed integer with the bits of `x`, in two's complement.
pub open spec fn reinterpret_signed(x: u64) -> i64 {
    if x <= 0x7fff_ffff_ffff_ffff {
        x as i64
    } else {
        (x - 0x1_0000_0000_0000_0000) as i64
    }
}

/// Each element of `offsets`, read as a signed integer.
pub open spec fn signed_offsets(offsets: Seq<u64>) -> Seq<i64> {
    Seq::new(offsets.len(), |i: int| reinterpret_signed(offsets[i]))
}

/// Calls `bytemuck::cast_vec` from `u64` to `i64`. The two types have one
/// size and one alignment, so the cast never fails: the vector that comes
/// back has the same length and each element keeps its bits.
#[verifier::external_body]
pub(crate) fn cast_offsets_vec(offsets: Vec<u64>) -> (signed: Vec<i64>)
    ensures
        signed@ == signed_offsets(offsets@),
{
    bytemuck::cast_vec::<u64, i64>(offsets)
}

/// Calls `bytemuck::cast_slice` from `u64` to `i64`. The two types have one
/// size and one alignment, so the cast never fails: the slice that comes
/// back has the same length and each element keeps its bits.
#[verifier::external_body]
pub(crate) fn cast_offsets_slice(offsets: &[u64]) -> (signed: &[i64])
    ensures
        signed@ == signed_offsets(offsets@),
{
    bytemuck::cast_slice::<u64, i64>(offsets)
}

} // verus!
