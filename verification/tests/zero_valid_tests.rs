use typelayout::{
    aligned_to, from_zeros, has_padding, Field, Mutability, PtrSlot, Slot, Struct,
};

fn init_slots(n: usize) -> Vec<Slot> {
    (0..n).map(|_| Slot::Init).collect()
}

fn u8_field() -> Field {
    Field { align: 1, size: 1, slots: init_slots(1) }
}

fn u32_field() -> Field {
    Field { align: 4, size: 4, slots: init_slots(4) }
}

#[test]
fn four_u8_are_zero_valid() {
    let s = Struct { fields: vec![u8_field(), u8_field(), u8_field(), u8_field()] };
    assert!(from_zeros(&s));
}

#[test]
fn padding_blocks_zero_validity() {
    let a = Struct { fields: vec![u8_field(), u32_field()] };
    assert!(has_padding(&a));
    assert!(!from_zeros(&a));
    let b = Struct { fields: vec![u32_field(), u8_field()] };
    assert!(has_padding(&b));
    assert!(!from_zeros(&b));
}

#[test]
fn nonzero_byte_blocks_zero_validity() {
    // A non-zero integer encoding: no padding, yet all-zero bytes are no
    // legal value of it.
    let s = Struct {
        fields: vec![Field { align: 1, size: 1, slots: vec![Slot::NonZero] }],
    };
    assert!(!has_padding(&s));
    assert!(!from_zeros(&s));
}

#[test]
fn null_pointer_is_zero_valid() {
    let ptr = Slot::Ptr(PtrSlot {
        mutability: Mutability::Const,
        lifetime: None,
        pointee: init_slots(8),
    });
    let s = Struct { fields: vec![Field { align: 8, size: 8, slots: vec![ptr] }] };
    assert!(!has_padding(&s));
    assert!(from_zeros(&s));
}

#[test]
fn empty_struct_is_zero_valid() {
    let s = Struct { fields: vec![] };
    assert!(from_zeros(&s));
}

#[test]
fn stricter_alignment_satisfies_looser() {
    assert!(aligned_to(4, 4));
    assert!(aligned_to(8, 4));
    assert!(aligned_to(8, 1));
    assert!(aligned_to(1, 1));
    assert!(!aligned_to(4, 8));
    assert!(!aligned_to(1, 2));
    assert!(!aligned_to(2, 16));
}
