//! The padding checker: a structure has padding exactly when its
//! `CCompatible` layout is larger than its `Compact` layout.
//!
//! Padding can only come from alignment-driven gaps, which `Compact` never
//! inserts, so a size mismatch between the two layouts is both necessary
//! and sufficient.

use vstd::prelude::*;
use crate::layout::{
    Struct, FieldModel, validate_spec, field_ok, field_pad, fields_end, max_align,
    c_size, compact_size, sum_sizes, lemma_validate_ok, lemma_fields_view_len,
    lemma_fields_view_index, lemma_is_pow2_pos, lemma_fields_end_push, lemma_fields_end_prefix,
    lemma_compact_fields, pad_amount,
};

verus! {

/// A structure has padding iff laying its fields out under `CCompatible`
/// takes more bytes than laying them out under `Compact`.
pub open spec fn spec_has_padding(fs: Seq<FieldModel>) -> bool {
    c_size(fs) != compact_size(fs)
}

/// The `CCompatible` end offset is bounded below by the sum of the field
/// sizes: padding only ever adds bytes.
pub proof fn lemma_end_ge_sum(fs: Seq<FieldModel>, offset: nat)
    ensures
        fields_end(fs, offset, true) >= offset + sum_sizes(fs),
    decreases fs,
{
    if fs.len() > 0 {
        lemma_end_ge_sum(
            fs.subrange(1, fs.len() as int),
            offset + field_pad(offset, fs[0], true) + fs[0].size,
        );
    }
}

/// The `Compact` size never exceeds the `CCompatible` size.
pub proof fn lemma_compact_le_c(fs: Seq<FieldModel>)
    ensures
        compact_size(fs) <= c_size(fs),
{
    lemma_compact_fields(fs, 0);
    lemma_end_ge_sum(fs, 0);
}

/// The end offset and the maximum field alignment of `s` under the
/// `CCompatible` (`c` true) or `Compact` (`c` false) sequencing.
fn scan(s: &Struct, c: bool) -> (r: (usize, usize))
    requires
        validate_spec(s@) is None,
        fields_end(s@, 0, c) <= usize::MAX,
    ensures
        r.0 as nat == fields_end(s@, 0, c),
        r.1 as nat == max_align(s@),
        r.1 >= 1,
{
    proof {
        lemma_validate_ok(s@);
        lemma_fields_view_len(s.fields@);
        assert(s@.subrange(0, 0) =~= Seq::<FieldModel>::empty());
    }
    let n = s.fields.len();
    let mut align: usize = 1;
    let mut offset: usize = 0;
    let mut i: usize = 0;
    while i < n
        invariant
            n == s.fields@.len(),
            s@.len() == n,
            0 <= i <= n,
            forall|k: int| 0 <= k < s@.len() ==> field_ok(#[trigger] s@[k]),
            fields_end(s@, 0, c) <= usize::MAX,
            align >= 1,
            align as nat == max_align(s@.subrange(0, i as int)),
            offset as nat == fields_end(s@.subrange(0, i as int), 0, c),
        decreases n - i,
    {
        let ghost prefix = s@.subrange(0, i as int);
        let f = &s.fields[i];
        proof {
            lemma_fields_view_index(s.fields@, i as int);
            assert(f@ == s@[i as int]);
            lemma_is_pow2_pos(s@[i as int].align);
            lemma_fields_end_push(prefix, s@[i as int], 0, c);
            assert(s@.subrange(0, i + 1) =~= prefix.push(s@[i as int]));
            lemma_fields_end_prefix(s@, i + 1, c);
            assert(s@.subrange(0, i + 1).drop_last() =~= prefix);
            assert(s@.subrange(0, i + 1).last() == s@[i as int]);
        }
        if f.align > align {
            align = f.align;
        }
        let pad: usize = if c {
            pad_amount(offset, f.align)
        } else {
            0
        };
        assert(pad as nat == field_pad(offset as nat, s@[i as int], c));
        offset = offset + pad;
        offset = offset + f.size;
        i = i + 1;
    }
    proof {
        assert(s@.subrange(0, n as int) =~= s@);
    }
    (offset, align)
}

/// Whether the fields of `s` pick up any padding: true iff the
/// `CCompatible` layout of `s` is larger than its `Compact` layout.
pub fn has_padding(s: &Struct) -> (r: bool)
    requires
        validate_spec(s@) is None,
        c_size(s@) <= usize::MAX,
    ensures
        r == spec_has_padding(s@),
{
    proof {
        lemma_compact_le_c(s@);
    }
    let (end_c, align) = scan(s, true);
    let total_c = end_c + pad_amount(end_c, align);
    let (end_p, _) = scan(s, false);
    total_c != end_p
}

} // verus!
