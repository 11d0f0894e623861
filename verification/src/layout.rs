//! The layout algorithm: given an ordered field list and a packing rule,
//! compute per-field offsets, inserted padding, and the total size and
//! alignment of the structure.
//!
//! `Compact` packs the fields back to back and never inserts padding.
//! `CCompatible` pads each field to its own alignment and the whole
//! structure to the maximum field alignment. `Transparent` adopts the
//! layout of its single field verbatim.

use vstd::prelude::*;
use crate::slot::{
    Slot, SlotModel, slots_view, slot_view, seq_size, uninit_run, lemma_slots_view_len,
    lemma_slots_view_index, lemma_seq_size_concat, clone_slot, clone_slots,
};

verus! {

/// The packing rule a layout is computed under.
#[derive(Clone, Copy, Debug, PartialEq, Eq, Structural)]
pub enum Packing {
    /// No padding is ever inserted; size is the sum of the field sizes.
    Compact,
    /// Padding is inserted as a C compiler would; alignment is the maximum
    /// field alignment.
    CCompatible,
    /// A single-field wrapper adopts its field's layout verbatim.
    Transparent,
}

/// Marker selecting the `CCompatible` packing rule.
#[derive(Clone, Copy, Debug, PartialEq, Eq, Structural)]
pub struct C;

/// Marker selecting the `Compact` packing rule.
#[derive(Clone, Copy, Debug, PartialEq, Eq, Structural)]
pub struct Packed;

/// Marker selecting the `Transparent` packing rule.
#[derive(Clone, Copy, Debug, PartialEq, Eq, Structural)]
pub struct Transparent;

/// A packing-rule marker: each marker selects one layout algorithm.
pub trait ReprMarker {
    /// The packing rule this marker stands for.
    spec fn packing_spec() -> Packing;

    /// Select the packing rule this marker stands for.
    fn packing(&self) -> (r: Packing)
        ensures
            r == Self::packing_spec(),
    ;
}

impl ReprMarker for C {
    open spec fn packing_spec() -> Packing {
        Packing::CCompatible
    }

    fn packing(&self) -> (r: Packing) {
        Packing::CCompatible
    }
}

impl ReprMarker for Packed {
    open spec fn packing_spec() -> Packing {
        Packing::Compact
    }

    fn packing(&self) -> (r: Packing) {
        Packing::Compact
    }
}

impl ReprMarker for Transparent {
    open spec fn packing_spec() -> Packing {
        Packing::Transparent
    }

    fn packing(&self) -> (r: Packing) {
        Packing::Transparent
    }
}

/// A configuration error: malformed input rejected before any layout is
/// computed.
#[derive(Clone, Copy, Debug, PartialEq, Eq, Structural)]
pub enum LayoutError {
    /// A field's declared alignment is not a positive power of two.
    AlignNotPowerOfTwo,
    /// A field's declared size differs from the byte width of its slots.
    SizeMismatch,
    /// The `Transparent` rule was applied to a field count other than one.
    TransparentFieldCount,
}

/// The mathematical model of a [`Field`].
#[verifier::ext_equal]
pub struct FieldModel {
    pub align: nat,
    pub size: nat,
    pub slots: Seq<SlotModel>,
}

/// One field of a structure: its alignment requirement, its size in bytes,
/// and its slot sequence. The name of a field plays no part in layout and
/// is not recorded.
#[derive(Debug, PartialEq, Eq)]
pub struct Field {
    pub align: usize,
    pub size: usize,
    pub slots: Vec<Slot>,
}

impl View for Field {
    type V = FieldModel;

    open spec fn view(&self) -> FieldModel {
        FieldModel {
            align: self.align as nat,
            size: self.size as nat,
            slots: slots_view(self.slots@),
        }
    }
}

/// The model of a field list, element by element.
pub open spec fn fields_view(s: Seq<Field>) -> Seq<FieldModel>
    decreases s,
{
    if s.len() == 0 {
        Seq::empty()
    } else {
        fields_view(s.drop_last()).push(s.last()@)
    }
}

/// A structure described by its ordered field list, low address first.
#[derive(Debug, PartialEq, Eq)]
pub struct Struct {
    pub fields: Vec<Field>,
}

impl View for Struct {
    type V = Seq<FieldModel>;

    open spec fn view(&self) -> Seq<FieldModel> {
        fields_view(self.fields@)
    }
}

/// The mathematical model of a [`Layout`].
#[verifier::ext_equal]
pub struct LayoutModel {
    pub align: nat,
    pub slots: Seq<SlotModel>,
}

/// The computed layout of a structure: its alignment and its slot
/// sequence, whose byte width is the structure's size.
#[derive(Debug, PartialEq, Eq)]
pub struct Layout {
    pub align: usize,
    pub size: usize,
    pub slots: Vec<Slot>,
}

impl View for Layout {
    type V = LayoutModel;

    open spec fn view(&self) -> LayoutModel {
        LayoutModel { align: self.align as nat, slots: slots_view(self.slots@) }
    }
}

impl Layout {
    /// The recorded size agrees with the byte width of the slot sequence.
    pub open spec fn wf(&self) -> bool {
        self.size as nat == seq_size(self@.slots)
    }
}

/// Whether `n` is a positive power of two.
pub open spec fn is_pow2(n: nat) -> bool
    decreases n,
{
    if n == 0 {
        false
    } else if n == 1 {
        true
    } else {
        n % 2 == 0 && is_pow2(n / 2)
    }
}

/// Bytes of padding needed to move `offset` up to a multiple of `align`.
pub open spec fn pad_to(offset: nat, align: nat) -> nat {
    if align == 0 {
        0
    } else {
        (((align - offset % align) % (align as int)) as nat)
    }
}

/// A field is well formed: its alignment is a positive power of two and
/// its declared size is the byte width of its slots.
pub open spec fn field_ok(f: FieldModel) -> bool {
    is_pow2(f.align) && seq_size(f.slots) == f.size
}

/// The error a malformed field is rejected with.
pub open spec fn field_err(f: FieldModel) -> LayoutError {
    if !is_pow2(f.align) {
        LayoutError::AlignNotPowerOfTwo
    } else {
        LayoutError::SizeMismatch
    }
}

/// The validation pass over a field list: the first malformed field
/// determines the configuration error.
pub open spec fn validate_spec(fs: Seq<FieldModel>) -> Option<LayoutError>
    decreases fs,
{
    if fs.len() == 0 {
        Option::None
    } else if !field_ok(fs[0]) {
        Option::Some(field_err(fs[0]))
    } else {
        validate_spec(fs.subrange(1, fs.len() as int))
    }
}

/// The maximum field alignment, or 1 for an empty field list.
pub open spec fn max_align(fs: Seq<FieldModel>) -> nat
    decreases fs,
{
    if fs.len() == 0 {
        1
    } else {
        let m = max_align(fs.drop_last());
        if fs.last().align > m {
            fs.last().align
        } else {
            m
        }
    }
}

/// Padding inserted before a field at `offset`: up to the field's own
/// alignment under `CCompatible` (`c` true), none under `Compact`.
pub open spec fn field_pad(offset: nat, f: FieldModel, c: bool) -> nat {
    if c {
        pad_to(offset, f.align)
    } else {
        0
    }
}

/// The offset reached after laying out `fs` starting at `offset`.
pub open spec fn fields_end(fs: Seq<FieldModel>, offset: nat, c: bool) -> nat
    decreases fs,
{
    if fs.len() == 0 {
        offset
    } else {
        fields_end(
            fs.subrange(1, fs.len() as int),
            offset + field_pad(offset, fs[0], c) + fs[0].size,
            c,
        )
    }
}

/// The slot sequence laid out for `fs` starting at `offset`: padding, then
/// the field's own slots, for each field in order.
pub open spec fn fields_repr(fs: Seq<FieldModel>, offset: nat, c: bool) -> Seq<SlotModel>
    decreases fs,
{
    if fs.len() == 0 {
        Seq::empty()
    } else {
        uninit_run(field_pad(offset, fs[0], c)) + fs[0].slots + fields_repr(
            fs.subrange(1, fs.len() as int),
            offset + field_pad(offset, fs[0], c) + fs[0].size,
            c,
        )
    }
}

/// Total size under `Compact`: the fields laid out back to back.
pub open spec fn compact_size(fs: Seq<FieldModel>) -> nat {
    fields_end(fs, 0, false)
}

/// Total size under `CCompatible`: the padded fields plus trailing padding
/// up to the structure's alignment.
pub open spec fn c_size(fs: Seq<FieldModel>) -> nat {
    fields_end(fs, 0, true) + pad_to(fields_end(fs, 0, true), max_align(fs))
}

/// Total size of the layout of `fs` under rule `p` (for `Transparent`,
/// of its single field).
pub open spec fn layout_size(fs: Seq<FieldModel>, p: Packing) -> nat {
    match p {
        Packing::Compact => compact_size(fs),
        Packing::CCompatible => c_size(fs),
        Packing::Transparent => if fs.len() == 1 {
            fs[0].size
        } else {
            0
        },
    }
}

/// The layout of `fs` under rule `p`.
pub open spec fn layout_spec(fs: Seq<FieldModel>, p: Packing) -> LayoutModel {
    match p {
        Packing::Compact => LayoutModel { align: max_align(fs), slots: fields_repr(fs, 0, false) },
        Packing::CCompatible => LayoutModel {
            align: max_align(fs),
            slots: fields_repr(fs, 0, true) + uninit_run(
                pad_to(fields_end(fs, 0, true), max_align(fs)),
            ),
        },
        Packing::Transparent => LayoutModel {
            align: if fs.len() == 1 {
                fs[0].align
            } else {
                1
            },
            slots: if fs.len() == 1 {
                fs[0].slots
            } else {
                Seq::empty()
            },
        },
    }
}

pub proof fn lemma_is_pow2_pos(n: nat)
    requires
        is_pow2(n),
    ensures
        n >= 1,
{
}

pub broadcast proof fn lemma_fields_view_len(s: Seq<Field>)
    ensures
        #[trigger] fields_view(s).len() == s.len(),
    decreases s,
{
    if s.len() > 0 {
        lemma_fields_view_len(s.drop_last());
    }
}

pub broadcast proof fn lemma_fields_view_index(s: Seq<Field>, i: int)
    requires
        0 <= i < s.len(),
    ensures
        fields_view(s).len() == s.len(),
        #[trigger] fields_view(s)[i] == s[i]@,
    decreases s,
{
    lemma_fields_view_len(s);
    if i < s.len() - 1 {
        lemma_fields_view_index(s.drop_last(), i);
    }
}

/// Validation succeeds exactly on the lists whose every field is well
/// formed.
pub proof fn lemma_validate_ok(fs: Seq<FieldModel>)
    ensures
        (validate_spec(fs) is None) == (forall|i: int| 0 <= i < fs.len() ==> field_ok(fs[i])),
    decreases fs,
{
    if fs.len() > 0 {
        let rest = fs.subrange(1, fs.len() as int);
        lemma_validate_ok(rest);
        if field_ok(fs[0]) {
            assert forall|i: int| 0 <= i < fs.len() && validate_spec(fs) is None implies field_ok(
                fs[i],
            ) by {
                if i > 0 {
                    assert(fs[i] == rest[i - 1]);
                }
            }
            if forall|i: int| 0 <= i < fs.len() ==> field_ok(fs[i]) {
                assert(forall|i: int| 0 <= i < rest.len() ==> field_ok(#[trigger] rest[i]));
            }
        }
    }
}

/// Skipping a well-formed prefix leaves the validation verdict unchanged.
pub proof fn lemma_validate_prefix(fs: Seq<FieldModel>, i: int)
    requires
        0 <= i <= fs.len(),
        forall|j: int| 0 <= j < i ==> field_ok(fs[j]),
    ensures
        validate_spec(fs) == validate_spec(fs.subrange(i, fs.len() as int)),
    decreases i,
{
    if i == 0 {
        assert(fs.subrange(0, fs.len() as int) =~= fs);
    } else {
        lemma_validate_prefix(fs, i - 1);
        let tail = fs.subrange(i - 1, fs.len() as int);
        assert(tail[0] == fs[i - 1]);
        assert(tail.subrange(1, tail.len() as int) =~= fs.subrange(i, fs.len() as int));
    }
}

/// Laying out one more field advances the end offset by that field's
/// padding and size.
pub proof fn lemma_fields_end_push(fs: Seq<FieldModel>, f: FieldModel, offset: nat, c: bool)
    ensures
        fields_end(fs.push(f), offset, c) == {
            let e = fields_end(fs, offset, c);
            e + field_pad(e, f, c) + f.size
        },
    decreases fs,
{
    let one = fs.push(f);
    if fs.len() == 0 {
        assert(one[0] == f);
        let off2 = offset + field_pad(offset, f, c) + f.size;
        assert(one.subrange(1, 1) =~= Seq::<FieldModel>::empty());
        assert(fields_end(Seq::<FieldModel>::empty(), off2, c) == off2);
        assert(fields_end(one, offset, c) == fields_end(one.subrange(1, 1), off2, c));
        assert(fields_end(fs, offset, c) == offset);
    } else {
        let rest = fs.subrange(1, fs.len() as int);
        let off2 = offset + field_pad(offset, fs[0], c) + fs[0].size;
        assert(one[0] == fs[0]);
        assert(one.subrange(1, fs.len() as int + 1) =~= rest.push(f));
        assert(fields_end(one, offset, c) == fields_end(rest.push(f), off2, c));
        lemma_fields_end_push(rest, f, off2, c);
        assert(fields_end(fs, offset, c) == fields_end(rest, off2, c));
    }
}

/// Laying out one more field appends that field's padding and slots to the
/// representation.
pub proof fn lemma_fields_repr_push(fs: Seq<FieldModel>, f: FieldModel, offset: nat, c: bool)
    ensures
        fields_repr(fs.push(f), offset, c) == fields_repr(fs, offset, c) + uninit_run(
            field_pad(fields_end(fs, offset, c), f, c),
        ) + f.slots,
    decreases fs,
{
    let one = fs.push(f);
    if fs.len() == 0 {
        assert(one[0] == f);
        let off2 = offset + field_pad(offset, f, c) + f.size;
        assert(one.subrange(1, 1) =~= Seq::<FieldModel>::empty());
        assert(fields_repr(Seq::<FieldModel>::empty(), off2, c) == Seq::<SlotModel>::empty());
        assert(fields_repr(one, offset, c) == uninit_run(field_pad(offset, f, c)) + f.slots
            + fields_repr(one.subrange(1, 1), off2, c));
        assert(fields_end(fs, offset, c) == offset);
        assert(fields_repr(fs, offset, c) == Seq::<SlotModel>::empty());
        assert(fields_repr(one, offset, c) =~= fields_repr(fs, offset, c) + uninit_run(
            field_pad(fields_end(fs, offset, c), f, c),
        ) + f.slots);
    } else {
        let rest = fs.subrange(1, fs.len() as int);
        let off2 = offset + field_pad(offset, fs[0], c) + fs[0].size;
        assert(one[0] == fs[0]);
        assert(one.subrange(1, fs.len() as int + 1) =~= rest.push(f));
        assert(fields_repr(one, offset, c) == uninit_run(field_pad(offset, fs[0], c))
            + fs[0].slots + fields_repr(rest.push(f), off2, c));
        lemma_fields_repr_push(rest, f, off2, c);
        assert(fields_end(fs, offset, c) == fields_end(rest, off2, c));
        assert(fields_repr(fs, offset, c) == uninit_run(field_pad(offset, fs[0], c)) + fs[0].slots
            + fields_repr(rest, off2, c));
        assert(fields_repr(one, offset, c) =~= fields_repr(fs, offset, c) + uninit_run(
            field_pad(fields_end(fs, offset, c), f, c),
        ) + f.slots);
    }
}

/// The end offset never moves backwards.
pub proof fn lemma_fields_end_ge(fs: Seq<FieldModel>, offset: nat, c: bool)
    ensures
        fields_end(fs, offset, c) >= offset,
    decreases fs,
{
    if fs.len() > 0 {
        lemma_fields_end_ge(
            fs.subrange(1, fs.len() as int),
            offset + field_pad(offset, fs[0], c) + fs[0].size,
            c,
        );
    }
}

/// The end offset of a concatenation is reached by laying out the second
/// part from the end of the first.
pub proof fn lemma_fields_end_concat(a: Seq<FieldModel>, b: Seq<FieldModel>, offset: nat, c: bool)
    ensures
        fields_end(a + b, offset, c) == fields_end(b, fields_end(a, offset, c), c),
    decreases a,
{
    if a.len() == 0 {
        assert(a + b =~= b);
    } else {
        assert((a + b)[0] == a[0]);
        let off2 = offset + field_pad(offset, a[0], c) + a[0].size;
        assert((a + b).subrange(1, (a + b).len() as int) =~= a.subrange(1, a.len() as int) + b);
        lemma_fields_end_concat(a.subrange(1, a.len() as int), b, off2, c);
    }
}

/// A prefix of the field list ends no later than the whole list.
pub proof fn lemma_fields_end_prefix(fs: Seq<FieldModel>, i: int, c: bool)
    requires
        0 <= i <= fs.len(),
    ensures
        fields_end(fs.subrange(0, i), 0, c) <= fields_end(fs, 0, c),
{
    let a = fs.subrange(0, i);
    let b = fs.subrange(i, fs.len() as int);
    assert(fs =~= a + b);
    lemma_fields_end_concat(a, b, 0, c);
    lemma_fields_end_ge(b, fields_end(a, 0, c), c);
}

/// A run of padding bytes is as wide as it is long.
pub proof fn lemma_uninit_run_size(n: nat)
    ensures
        seq_size(uninit_run(n)) == n,
    decreases n,
{
    if n > 0 {
        lemma_uninit_run_size((n - 1) as nat);
        assert(uninit_run(n).drop_last() =~= uninit_run((n - 1) as nat));
    }
}

/// For well-formed fields the byte width of the laid-out representation
/// accounts exactly for the distance from the start offset to the end.
pub proof fn lemma_repr_size(fs: Seq<FieldModel>, offset: nat, c: bool)
    requires
        forall|i: int| 0 <= i < fs.len() ==> field_ok(#[trigger] fs[i]),
    ensures
        offset + seq_size(fields_repr(fs, offset, c)) == fields_end(fs, offset, c),
    decreases fs,
{
    if fs.len() > 0 {
        let rest = fs.subrange(1, fs.len() as int);
        let pad = field_pad(offset, fs[0], c);
        let off2 = offset + pad + fs[0].size;
        assert(forall|i: int| 0 <= i < rest.len() ==> field_ok(#[trigger] rest[i])) by {
            assert(forall|i: int| 0 <= i < rest.len() ==> #[trigger] rest[i] == fs[i + 1]);
        }
        lemma_repr_size(rest, off2, c);
        lemma_uninit_run_size(pad);
        lemma_seq_size_concat(uninit_run(pad), fs[0].slots);
        lemma_seq_size_concat(uninit_run(pad) + fs[0].slots, fields_repr(rest, off2, c));
        assert(field_ok(fs[0]));
    }
}

/// Whether `n` is a positive power of two, decided at run time.
pub fn check_pow2(n: usize) -> (r: bool)
    ensures
        r == is_pow2(n as nat),
    decreases n,
{
    if n == 0 {
        false
    } else if n == 1 {
        true
    } else if n % 2 != 0 {
        false
    } else {
        check_pow2(n / 2)
    }
}

/// Whether the byte width of `v` equals `expect`.
fn slots_size_is(v: &Vec<Slot>, expect: usize) -> (r: bool)
    ensures
        r == (seq_size(slots_view(v@)) == expect as nat),
{
    let n = v.len();
    let mut sum: u128 = 0;
    let mut i: usize = 0;
    proof {
        lemma_slots_view_len(v@);
        assert(slots_view(v@).subrange(0, 0) =~= Seq::<SlotModel>::empty());
    }
    while i < n
        invariant
            n == v@.len(),
            slots_view(v@).len() == n,
            0 <= i <= n,
            sum <= 8 * (i as u128),
            sum as nat == seq_size(slots_view(v@).subrange(0, i as int)),
        decreases n - i,
    {
        let w: u128 = match &v[i] {
            Slot::Ptr(_) => 8,
            _ => 1,
        };
        proof {
            lemma_slots_view_index(v@, i as int);
            assert(slots_view(v@).subrange(0, i + 1).drop_last() =~= slots_view(v@).subrange(
                0,
                i as int,
            ));
            assert(slots_view(v@).subrange(0, i + 1).last() == slots_view(v@)[i as int]);
        }
        sum = sum + w;
        i = i + 1;
    }
    proof {
        assert(slots_view(v@).subrange(0, n as int) =~= slots_view(v@));
    }
    sum == expect as u128
}

/// The validation pass: the first malformed field determines the error.
pub fn validate(s: &Struct) -> (r: Option<LayoutError>)
    ensures
        r == validate_spec(s@),
{
    let n = s.fields.len();
    let mut i: usize = 0;
    proof {
        lemma_fields_view_len(s.fields@);
    }
    while i < n
        invariant
            n == s.fields@.len(),
            s@.len() == n,
            0 <= i <= n,
            forall|j: int| 0 <= j < i ==> field_ok(s@[j]),
        decreases n - i,
    {
        let f = &s.fields[i];
        proof {
            lemma_fields_view_index(s.fields@, i as int);
        }
        if !check_pow2(f.align) {
            proof {
                lemma_validate_prefix(s@, i as int);
                assert(s@.subrange(i as int, s@.len() as int)[0] == s@[i as int]);
            }
            return Option::Some(LayoutError::AlignNotPowerOfTwo);
        }
        if !slots_size_is(&f.slots, f.size) {
            proof {
                lemma_validate_prefix(s@, i as int);
                assert(s@.subrange(i as int, s@.len() as int)[0] == s@[i as int]);
            }
            return Option::Some(LayoutError::SizeMismatch);
        }
        i = i + 1;
    }
    proof {
        lemma_validate_prefix(s@, n as int);
        assert(s@.subrange(n as int, s@.len() as int) =~= Seq::<FieldModel>::empty());
    }
    Option::None
}

/// Append `n` bytes of uninitialized padding.
fn push_uninit(v: &mut Vec<Slot>, n: usize)
    ensures
        slots_view(final(v)@) == slots_view(old(v)@) + uninit_run(n as nat),
{
    let mut k: usize = 0;
    proof {
        assert(slots_view(v@) =~= slots_view(v@) + uninit_run(0));
    }
    while k < n
        invariant
            0 <= k <= n,
            slots_view(v@) == slots_view(old(v)@) + uninit_run(k as nat),
        decreases n - k,
    {
        let ghost before = v@;
        v.push(Slot::Uninit);
        proof {
            assert(v@.drop_last() =~= before);
            assert(slots_view(v@) == slots_view(before).push(slot_view(Slot::Uninit)));
            assert(slots_view(v@) =~= slots_view(old(v)@) + uninit_run((k + 1) as nat));
        }
        k = k + 1;
    }
}

/// Append a copy of the slots of `src`.
fn append_slots(dst: &mut Vec<Slot>, src: &Vec<Slot>)
    ensures
        slots_view(final(dst)@) == slots_view(old(dst)@) + slots_view(src@),
{
    let n = src.len();
    let mut j: usize = 0;
    proof {
        lemma_slots_view_len(src@);
        assert(src@.subrange(0, 0) =~= Seq::<Slot>::empty());
        assert(slots_view(Seq::<Slot>::empty()) == Seq::<SlotModel>::empty());
        assert(slots_view(dst@) =~= slots_view(dst@) + slots_view(src@.subrange(0, 0)));
    }
    while j < n
        invariant
            n == src@.len(),
            0 <= j <= n,
            slots_view(dst@) == slots_view(old(dst)@) + slots_view(src@.subrange(0, j as int)),
        decreases n - j,
    {
        let c = clone_slot(&src[j]);
        let ghost before = dst@;
        dst.push(c);
        proof {
            assert(dst@.drop_last() =~= before);
            assert(slots_view(dst@) == slots_view(before).push(slot_view(src@[j as int])));
            assert(src@.subrange(0, j + 1).drop_last() =~= src@.subrange(0, j as int));
            assert(src@.subrange(0, j + 1).last() == src@[j as int]);
            assert(slots_view(src@.subrange(0, j + 1)) == slots_view(
                src@.subrange(0, j as int),
            ).push(slot_view(src@[j as int])));
            assert(slots_view(dst@) =~= slots_view(old(dst)@) + slots_view(
                src@.subrange(0, j + 1),
            ));
        }
        j = j + 1;
    }
    proof {
        assert(src@.subrange(0, n as int) =~= src@);
    }
}

/// Padding needed to move `offset` up to a multiple of `align`.
pub(crate) fn pad_amount(offset: usize, align: usize) -> (r: usize)
    requires
        align >= 1,
    ensures
        r as nat == pad_to(offset as nat, align as nat),
{
    (align - offset % align) % align
}

/// What [`compute_layout`] returns for a field list and a packing rule:
/// exactly the layout of [`layout_spec`] when the input is well formed and
/// the rule applies, and the configuration error that rejects it otherwise.
pub open spec fn layout_result(
    fs: Seq<FieldModel>,
    p: Packing,
    r: Result<Layout, LayoutError>,
) -> bool {
    &&& (r is Ok) == (validate_spec(fs) is None && (p is Transparent ==> fs.len() == 1))
    &&& (r matches Ok(l) ==> l@ == layout_spec(fs, p) && l.wf() && l.size as nat == layout_size(
        fs,
        p,
    ))
    &&& (validate_spec(fs) matches Some(e) ==> (r matches Err(e2) && e2 == e))
    &&& (validate_spec(fs) is None && p is Transparent && fs.len() != 1 ==> (r matches Err(e2)
        && e2 == LayoutError::TransparentFieldCount))
}

/// Compute the layout of `s` under the packing rule `rule`: each field's
/// offset and padding, and the structure's total size and alignment.
///
/// A malformed field list, or the `Transparent` rule applied to a field
/// count other than one, is rejected as a configuration error before any
/// layout is computed; every other input succeeds.
pub fn compute_layout(s: &Struct, rule: Packing) -> (r: Result<Layout, LayoutError>)
    requires
        validate_spec(s@) is None ==> layout_size(s@, rule) <= usize::MAX,
    ensures
        layout_result(s@, rule, r),
{
    match validate(s) {
        Option::Some(e) => {
            return Result::Err(e);
        },
        Option::None => {},
    }
    proof {
        lemma_validate_ok(s@);
        lemma_fields_view_len(s.fields@);
    }
    if let Packing::Transparent = rule {
        if s.fields.len() != 1 {
            return Result::Err(LayoutError::TransparentFieldCount);
        }
        let f = &s.fields[0];
        proof {
            lemma_fields_view_index(s.fields@, 0);
        }
        let slots = clone_slots(&f.slots);
        let l = Layout { align: f.align, size: f.size, slots };
        proof {
            assert(l@ =~= layout_spec(s@, rule));
        }
        return Result::Ok(l);
    }
    let c = matches!(rule, Packing::CCompatible);
    let n = s.fields.len();
    let mut align: usize = 1;
    let mut offset: usize = 0;
    let mut repr: Vec<Slot> = Vec::new();
    let mut i: usize = 0;
    proof {
        assert(s@.subrange(0, 0) =~= Seq::<FieldModel>::empty());
        assert(slots_view(repr@) =~= fields_repr(s@.subrange(0, 0), 0, c));
    }
    while i < n
        invariant
            n == s.fields@.len(),
            s@.len() == n,
            0 <= i <= n,
            validate_spec(s@) is None,
            forall|k: int| 0 <= k < s@.len() ==> field_ok(#[trigger] s@[k]),
            rule is Compact || rule is CCompatible,
            c == (rule is CCompatible),
            layout_size(s@, rule) <= usize::MAX,
            align as nat == max_align(s@.subrange(0, i as int)),
            offset as nat == fields_end(s@.subrange(0, i as int), 0, c),
            slots_view(repr@) == fields_repr(s@.subrange(0, i as int), 0, c),
        decreases n - i,
    {
        let ghost prefix = s@.subrange(0, i as int);
        let f = &s.fields[i];
        proof {
            lemma_fields_view_index(s.fields@, i as int);
            assert(f@ == s@[i as int]);
            lemma_is_pow2_pos(s@[i as int].align);
            lemma_fields_end_push(prefix, s@[i as int], 0, c);
            assert(s@.subrange(0, i + 1) =~= prefix.push(s@[i as int]));
            lemma_fields_end_prefix(s@, i + 1, c);
            if c {
                assert(fields_end(s@, 0, c) <= layout_size(s@, rule));
            }
        }
        if f.align > align {
            align = f.align;
        }
        proof {
            assert(s@.subrange(0, i + 1).drop_last() =~= prefix);
            assert(s@.subrange(0, i + 1).last() == s@[i as int]);
        }
        let pad: usize = if c {
            pad_amount(offset, f.align)
        } else {
            0
        };
        assert(pad as nat == field_pad(offset as nat, s@[i as int], c));
        push_uninit(&mut repr, pad);
        offset = offset + pad;
        append_slots(&mut repr, &f.slots);
        offset = offset + f.size;
        proof {
            lemma_fields_repr_push(prefix, s@[i as int], 0, c);
            assert(slots_view(repr@) =~= fields_repr(s@.subrange(0, i + 1), 0, c));
        }
        i = i + 1;
    }
    proof {
        assert(s@.subrange(0, n as int) =~= s@);
    }
    if c {
        proof {
            lemma_max_align_pow2(s@);
            lemma_is_pow2_pos(max_align(s@));
        }
        let pad: usize = pad_amount(offset, align);
        push_uninit(&mut repr, pad);
        offset = offset + pad;
    }
    let l = Layout { align, size: offset, slots: repr };
    proof {
        lemma_repr_size(s@, 0, c);
        if c {
            lemma_uninit_run_size(pad_to(fields_end(s@, 0, true), max_align(s@)));
            lemma_seq_size_concat(
                fields_repr(s@, 0, true),
                uninit_run(pad_to(fields_end(s@, 0, true), max_align(s@))),
            );
        }
        assert(l@ =~= layout_spec(s@, rule));
    }
    Result::Ok(l)
}

/// The maximum of positive powers of two is a positive power of two.
pub proof fn lemma_max_align_pow2(fs: Seq<FieldModel>)
    requires
        forall|i: int| 0 <= i < fs.len() ==> is_pow2(#[trigger] fs[i].align),
    ensures
        is_pow2(max_align(fs)),
    decreases fs,
{
    if fs.len() == 0 {
    } else {
        assert(forall|i: int| 0 <= i < fs.len() - 1 ==> is_pow2(
            #[trigger] fs.drop_last()[i].align,
        )) by {
            assert(forall|i: int| 0 <= i < fs.len() - 1 ==> #[trigger] fs.drop_last()[i]
                == fs[i]);
        }
        lemma_max_align_pow2(fs.drop_last());
        assert(fs.last() == fs[fs.len() - 1]);
    }
}

/// The sum of the declared field sizes.
pub open spec fn sum_sizes(fs: Seq<FieldModel>) -> nat
    decreases fs,
{
    if fs.len() == 0 {
        0
    } else {
        fs[0].size + sum_sizes(fs.subrange(1, fs.len() as int))
    }
}

/// The fields' own slots, back to back, with nothing in between.
pub open spec fn concat_slots(fs: Seq<FieldModel>) -> Seq<SlotModel>
    decreases fs,
{
    if fs.len() == 0 {
        Seq::empty()
    } else {
        fs[0].slots + concat_slots(fs.subrange(1, fs.len() as int))
    }
}

/// Under `Compact` the fields are laid out back to back: the end offset
/// advances by exactly the sum of the field sizes, and the representation
/// is the fields' own slots with no padding inserted, wherever the layout
/// starts.
pub proof fn lemma_compact_fields(fs: Seq<FieldModel>, offset: nat)
    ensures
        fields_end(fs, offset, false) == offset + sum_sizes(fs),
        fields_repr(fs, offset, false) == concat_slots(fs),
    decreases fs,
{
    if fs.len() > 0 {
        let rest = fs.subrange(1, fs.len() as int);
        lemma_compact_fields(rest, offset + fs[0].size);
        assert(uninit_run(0) =~= Seq::<SlotModel>::empty());
        assert(fields_repr(fs, offset, false) =~= concat_slots(fs));
    }
}

/// Under `Compact`, the size of a layout is the sum of its field sizes and
/// no padding is ever inserted: the representation is exactly the fields'
/// own slots, concatenated in order.
pub proof fn lemma_compact_layout(fs: Seq<FieldModel>)
    ensures
        layout_size(fs, Packing::Compact) == sum_sizes(fs),
        layout_spec(fs, Packing::Compact).slots == concat_slots(fs),
{
    lemma_compact_fields(fs, 0);
}

/// The structure's alignment bounds every field's alignment and, for a
/// non-empty list, is attained by one of them; an empty list has
/// alignment 1.
pub proof fn lemma_max_align_bounds(fs: Seq<FieldModel>)
    requires
        forall|i: int| 0 <= i < fs.len() ==> #[trigger] fs[i].align >= 1,
    ensures
        max_align(fs) >= 1,
        forall|i: int| 0 <= i < fs.len() ==> max_align(fs) >= #[trigger] fs[i].align,
        fs.len() > 0 ==> exists|i: int| 0 <= i < fs.len() && max_align(fs) == #[trigger] fs[i].align,
    decreases fs,
{
    if fs.len() > 0 {
        assert(forall|i: int| 0 <= i < fs.len() - 1 ==> #[trigger] fs.drop_last()[i] == fs[i]);
        lemma_max_align_bounds(fs.drop_last());
        assert(fs.last() == fs[fs.len() - 1]);
        assert forall|i: int| 0 <= i < fs.len() implies max_align(fs) >= #[trigger] fs[i].align by {
            if i < fs.len() - 1 {
                assert(fs.drop_last()[i] == fs[i]);
                assert(max_align(fs.drop_last()) >= fs.drop_last()[i].align);
            }
        }
        if fs.last().align > max_align(fs.drop_last()) {
            assert(max_align(fs) == fs[fs.len() - 1].align);
        } else if fs.len() == 1 {
            assert(max_align(fs) == 1);
            assert(fs[0].align == 1);
            assert(max_align(fs) == fs[0].align);
        } else {
            let j = choose|j: int|
                0 <= j < fs.drop_last().len() && max_align(fs.drop_last()) == #[trigger] fs.drop_last()[j].align;
            assert(max_align(fs) == fs[j].align);
        }
    }
}

/// Moving an offset up by its padding lands on a multiple of the
/// alignment.
pub proof fn lemma_pad_to_aligned(offset: nat, align: nat)
    requires
        align >= 1,
    ensures
        (offset + pad_to(offset, align)) % align == 0,
{
    let a = align as int;
    let off = offset as int;
    let r = off % a;
    vstd::arithmetic::div_mod::lemma_mod_division_less_than_divisor(off, a);
    if r == 0 {
        vstd::arithmetic::div_mod::lemma_mod_self_0(a);
        assert(pad_to(offset, align) == 0);
    } else {
        vstd::arithmetic::div_mod::lemma_small_mod((a - r) as nat, align);
        assert(pad_to(offset, align) == a - r);
        vstd::arithmetic::div_mod::lemma_fundamental_div_mod(off, a);
        let q = off / a;
        assert(off - r == a * q);
        assert((a * q) % a == 0) by {
            vstd::arithmetic::div_mod::lemma_mod_multiples_basic(q, a);
            assert(a * q == q * a) by (nonlinear_arith);
        }
        vstd::arithmetic::div_mod::lemma_mod_add_multiples_vanish(off - r, a);
        assert((off + (a - r)) == a + (off - r));
    }
}

/// The invariants of every `CCompatible` layout: the alignment is a
/// positive power of two, it is the maximum field alignment (1 for an
/// empty structure), and the total size is a multiple of it.
pub proof fn lemma_c_layout(fs: Seq<FieldModel>)
    requires
        forall|i: int| 0 <= i < fs.len() ==> is_pow2(#[trigger] fs[i].align),
    ensures
        is_pow2(max_align(fs)),
        max_align(fs) >= 1,
        forall|i: int| 0 <= i < fs.len() ==> max_align(fs) >= #[trigger] fs[i].align,
        fs.len() > 0 ==> exists|i: int| 0 <= i < fs.len() && max_align(fs) == #[trigger] fs[i].align,
        fs.len() == 0 ==> max_align(fs) == 1,
        layout_size(fs, Packing::CCompatible) % max_align(fs) == 0,
{
    lemma_max_align_pow2(fs);
    assert forall|i: int| 0 <= i < fs.len() implies #[trigger] fs[i].align >= 1 by {
        lemma_is_pow2_pos(fs[i].align);
    }
    lemma_max_align_bounds(fs);
    lemma_pad_to_aligned(fields_end(fs, 0, true), max_align(fs));
}

/// The offset at which a field is placed: the end of the fields before it,
/// moved up by the field's own padding.
pub open spec fn field_offset(fs: Seq<FieldModel>, i: int, c: bool) -> nat
    recommends
        0 <= i < fs.len(),
{
    let e = fields_end(fs.subrange(0, i), 0, c);
    e + field_pad(e, fs[i], c)
}

/// Under `CCompatible` no field straddles a boundary that is not a
/// multiple of its own alignment: every field's offset is a multiple of
/// that field's alignment.
pub proof fn lemma_c_field_offsets_aligned(fs: Seq<FieldModel>, i: int)
    requires
        0 <= i < fs.len(),
        is_pow2(fs[i].align),
    ensures
        field_offset(fs, i, true) % fs[i].align == 0,
{
    lemma_is_pow2_pos(fs[i].align);
    lemma_pad_to_aligned(fields_end(fs.subrange(0, i), 0, true), fs[i].align);
}

/// Compute the layout selected by a packing-rule marker.
pub fn layout_of<R: ReprMarker>(s: &Struct, marker: &R) -> (r: Result<Layout, LayoutError>)
    requires
        validate_spec(s@) is None ==> layout_size(s@, R::packing_spec()) <= usize::MAX,
    ensures
        layout_result(s@, R::packing_spec(), r),
{
    let rule = marker.packing();
    compute_layout(s, rule)
}

} // verus!
