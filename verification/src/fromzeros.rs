//! The zero-validity checker: is an all-zero byte buffer a legal value of
//! a structure?
//!
//! A structure is zero-valid iff it has no padding and no field's slot
//! sequence contains a byte guaranteed non-zero. Pointer slots are
//! zero-valid: an all-zero pointer bit pattern is the null value, a legal
//! state for a raw address slot.

use vstd::prelude::*;
use crate::slot::{Slot, SlotModel, slots_view, lemma_slots_view_len, lemma_slots_view_index};
use crate::layout::{
    Struct, FieldModel, validate_spec, c_size, lemma_fields_view_len, lemma_fields_view_index,
};
use crate::padding::{spec_has_padding, has_padding};

verus! {

/// An all-zero byte is a legal value of every slot but `NonZero`.
pub open spec fn zero_valid_slot(s: SlotModel) -> bool {
    !(s is NonZero)
}

/// Every slot of the sequence admits the all-zero byte pattern.
pub open spec fn zero_valid_slots(sl: Seq<SlotModel>) -> bool {
    forall|j: int| 0 <= j < sl.len() ==> zero_valid_slot(#[trigger] sl[j])
}

/// Every field's slot sequence admits the all-zero byte pattern.
pub open spec fn zero_valid_fields(fs: Seq<FieldModel>) -> bool {
    forall|i: int| 0 <= i < fs.len() ==> zero_valid_slots(#[trigger] fs[i].slots)
}

/// A structure may be built from all-zero bytes iff it has no padding and
/// every field admits the all-zero byte pattern.
pub open spec fn spec_from_zeros(fs: Seq<FieldModel>) -> bool {
    &&& !spec_has_padding(fs)
    &&& zero_valid_fields(fs)
}

/// A structure with padding is never zero-valid.
pub proof fn lemma_padding_blocks_zero(fs: Seq<FieldModel>)
    ensures
        spec_has_padding(fs) ==> !spec_from_zeros(fs),
{
}

/// Whether every slot of `v` admits the all-zero byte pattern.
fn slots_zero_valid(v: &Vec<Slot>) -> (r: bool)
    ensures
        r == zero_valid_slots(slots_view(v@)),
{
    let n = v.len();
    proof {
        lemma_slots_view_len(v@);
    }
    let mut j: usize = 0;
    while j < n
        invariant
            n == v@.len(),
            slots_view(v@).len() == n,
            0 <= j <= n,
            forall|k: int| 0 <= k < j ==> zero_valid_slot(#[trigger] slots_view(v@)[k]),
        decreases n - j,
    {
        proof {
            lemma_slots_view_index(v@, j as int);
        }
        if let Slot::NonZero = &v[j] {
            return false;
        }
        j = j + 1;
    }
    true
}

/// Whether an all-zero buffer is a legal value of `s`: true iff `s` has
/// no padding, and no field's slot sequence contains a `NonZero` byte.
pub fn from_zeros(s: &Struct) -> (r: bool)
    requires
        validate_spec(s@) is None,
        c_size(s@) <= usize::MAX,
    ensures
        r == spec_from_zeros(s@),
{
    if has_padding(s) {
        return false;
    }
    let n = s.fields.len();
    proof {
        lemma_fields_view_len(s.fields@);
    }
    let mut i: usize = 0;
    while i < n
        invariant
            n == s.fields@.len(),
            s@.len() == n,
            0 <= i <= n,
            forall|k: int| 0 <= k < i ==> zero_valid_slots(#[trigger] s@[k].slots),
        decreases n - i,
    {
        proof {
            lemma_fields_view_index(s.fields@, i as int);
        }
        if !slots_zero_valid(&s.fields[i].slots) {
            proof {
                assert(!zero_valid_slots(s@[i as int].slots));
            }
            return false;
        }
        i = i + 1;
    }
    true
}

} // verus!
