//! The address-alignment checker: does satisfying one type's alignment
//! requirement satisfy another's?
//!
//! An address that satisfies a stricter (larger) power-of-two alignment
//! automatically satisfies every divisor of it; pure arithmetic, no slot
//! sequence is inspected.

use vstd::prelude::*;
use crate::layout::{is_pow2, lemma_is_pow2_pos};

verus! {

/// Alignment `align_u` satisfies alignment `align_t` iff it is an integer
/// multiple of it.
pub open spec fn spec_aligned_to(align_u: nat, align_t: nat) -> bool
    recommends
        align_t >= 1,
{
    align_u % align_t == 0
}

/// Whether every address aligned to `align_u` is also aligned to
/// `align_t`: true iff `align_u` is an integer multiple of `align_t`.
pub fn aligned_to(align_u: usize, align_t: usize) -> (r: bool)
    requires
        is_pow2(align_u as nat),
        is_pow2(align_t as nat),
    ensures
        r == spec_aligned_to(align_u as nat, align_t as nat),
{
    proof {
        lemma_is_pow2_pos(align_t as nat);
    }
    align_u % align_t == 0
}

/// A looser alignment never satisfies a stricter one: whenever
/// `align_u < align_t`, `align_u` is no multiple of `align_t`.
pub proof fn lemma_aligned_to_strict(align_u: nat, align_t: nat)
    requires
        is_pow2(align_u),
        is_pow2(align_t),
        align_u < align_t,
    ensures
        !spec_aligned_to(align_u, align_t),
{
    lemma_is_pow2_pos(align_u);
    lemma_is_pow2_pos(align_t);
    vstd::arithmetic::div_mod::lemma_small_mod(align_u, align_t);
}

} // verus!
