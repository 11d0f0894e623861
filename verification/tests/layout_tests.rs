use typelayout::{
    compute_layout, has_padding, layout_of, validate, check_pow2, Field, LayoutError, Packing,
    Slot, Struct, C, Packed, Transparent,
};

fn init_slots(n: usize) -> Vec<Slot> {
    (0..n).map(|_| Slot::Init).collect()
}

fn uninit_slots(n: usize) -> Vec<Slot> {
    (0..n).map(|_| Slot::Uninit).collect()
}

fn u8_field() -> Field {
    Field { align: 1, size: 1, slots: init_slots(1) }
}

fn u32_field() -> Field {
    Field { align: 4, size: 4, slots: init_slots(4) }
}

#[test]
fn scenario_u8_then_u32_under_c() {
    // Three padding bytes after the u8, total size 8, alignment 4.
    let s = Struct { fields: vec![u8_field(), u32_field()] };
    let l = compute_layout(&s, Packing::CCompatible).unwrap();
    assert_eq!(l.size, 8);
    assert_eq!(l.align, 4);
    let mut expect = init_slots(1);
    expect.extend(uninit_slots(3));
    expect.extend(init_slots(4));
    assert_eq!(l.slots, expect);
    assert!(has_padding(&s));
}

#[test]
fn scenario_u32_then_u8_under_c() {
    // No interior padding, three trailing padding bytes, size 8, alignment 4.
    let s = Struct { fields: vec![u32_field(), u8_field()] };
    let l = compute_layout(&s, Packing::CCompatible).unwrap();
    assert_eq!(l.size, 8);
    assert_eq!(l.align, 4);
    let mut expect = init_slots(5);
    expect.extend(uninit_slots(3));
    assert_eq!(l.slots, expect);
    assert!(has_padding(&s));
}

#[test]
fn scenario_four_u8_under_c() {
    let s = Struct { fields: vec![u8_field(), u8_field(), u8_field(), u8_field()] };
    let l = compute_layout(&s, Packing::CCompatible).unwrap();
    assert_eq!(l.size, 4);
    assert_eq!(l.align, 1);
    assert_eq!(l.slots, init_slots(4));
    assert!(!has_padding(&s));
}

#[test]
fn compact_size_is_sum_of_field_sizes() {
    let s = Struct { fields: vec![u8_field(), u32_field()] };
    let l = compute_layout(&s, Packing::Compact).unwrap();
    assert_eq!(l.size, 5);
    assert_eq!(l.slots, init_slots(5));
    // The compact representation holds the fields' own slots only: no
    // padding byte was inserted anywhere.
    assert!(l.slots.iter().all(|s| matches!(s, Slot::Init)));
}

#[test]
fn c_size_is_multiple_of_alignment() {
    let cases = vec![
        vec![u8_field(), u32_field()],
        vec![u32_field(), u8_field()],
        vec![u8_field()],
        vec![u8_field(), u8_field(), u32_field(), u8_field()],
    ];
    for fields in cases {
        let s = Struct { fields };
        let l = compute_layout(&s, Packing::CCompatible).unwrap();
        assert_eq!(l.size % l.align, 0);
        let max = s.fields.iter().map(|f| f.align).max().unwrap_or(1);
        assert_eq!(l.align, max);
    }
}

#[test]
fn empty_struct_has_size_zero_and_alignment_one() {
    let s = Struct { fields: vec![] };
    let l = compute_layout(&s, Packing::CCompatible).unwrap();
    assert_eq!(l.size, 0);
    assert_eq!(l.align, 1);
    assert_eq!(l.slots, vec![]);
    assert!(!has_padding(&s));
}

#[test]
fn transparent_adopts_single_field_layout() {
    let s = Struct { fields: vec![u32_field()] };
    let l = compute_layout(&s, Packing::Transparent).unwrap();
    assert_eq!(l.size, 4);
    assert_eq!(l.align, 4);
    assert_eq!(l.slots, init_slots(4));
}

#[test]
fn transparent_rejects_other_field_counts() {
    let none = Struct { fields: vec![] };
    assert_eq!(
        compute_layout(&none, Packing::Transparent),
        Err(LayoutError::TransparentFieldCount)
    );
    let two = Struct { fields: vec![u8_field(), u8_field()] };
    assert_eq!(
        compute_layout(&two, Packing::Transparent),
        Err(LayoutError::TransparentFieldCount)
    );
}

#[test]
fn alignment_must_be_power_of_two() {
    let s = Struct { fields: vec![Field { align: 3, size: 1, slots: init_slots(1) }] };
    assert_eq!(
        compute_layout(&s, Packing::CCompatible),
        Err(LayoutError::AlignNotPowerOfTwo)
    );
    let zero = Struct { fields: vec![Field { align: 0, size: 1, slots: init_slots(1) }] };
    assert_eq!(
        compute_layout(&zero, Packing::Compact),
        Err(LayoutError::AlignNotPowerOfTwo)
    );
}

#[test]
fn declared_size_must_match_slots() {
    let s = Struct { fields: vec![Field { align: 1, size: 2, slots: init_slots(1) }] };
    assert_eq!(compute_layout(&s, Packing::Compact), Err(LayoutError::SizeMismatch));
}

#[test]
fn first_malformed_field_determines_the_error() {
    let s = Struct {
        fields: vec![
            u8_field(),
            Field { align: 2, size: 9, slots: init_slots(1) },
            Field { align: 5, size: 1, slots: init_slots(1) },
        ],
    };
    assert_eq!(validate(&s), Some(LayoutError::SizeMismatch));
    // Within one field, the alignment check comes first.
    let t = Struct { fields: vec![Field { align: 5, size: 9, slots: init_slots(1) }] };
    assert_eq!(validate(&t), Some(LayoutError::AlignNotPowerOfTwo));
    assert_eq!(validate(&Struct { fields: vec![u8_field()] }), None);
}

#[test]
fn markers_select_their_packing_rule() {
    let s = Struct { fields: vec![u8_field(), u32_field()] };
    let c = layout_of(&s, &C).unwrap();
    assert_eq!(c.size, 8);
    let packed = layout_of(&s, &Packed).unwrap();
    assert_eq!(packed.size, 5);
    let single = Struct { fields: vec![u32_field()] };
    let transparent = layout_of(&single, &Transparent).unwrap();
    assert_eq!(transparent.size, 4);
}

#[test]
fn power_of_two_check() {
    assert!(check_pow2(1));
    assert!(check_pow2(2));
    assert!(check_pow2(8));
    assert!(check_pow2(4096));
    assert!(!check_pow2(0));
    assert!(!check_pow2(3));
    assert!(!check_pow2(12));
}

#[test]
fn later_field_alignment_does_not_move_earlier_fields() {
    // The u8 stays at offset 0; the u32's own padding starts after it.
    let s = Struct { fields: vec![u8_field(), u8_field(), u32_field()] };
    let l = compute_layout(&s, Packing::CCompatible).unwrap();
    assert_eq!(l.size, 8);
    let mut expect = init_slots(2);
    expect.extend(uninit_slots(2));
    expect.extend(init_slots(4));
    assert_eq!(l.slots, expect);
}
