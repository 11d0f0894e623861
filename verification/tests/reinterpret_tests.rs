use typelayout::{
    clone_slot, clone_slots, compute_layout, from_bytes, from_layout, from_slot, slot_eq,
    slots_eq, subsumes, Field, Mutability, Packing, PtrSlot, Slot, Struct, PTR_BYTES,
};

fn init_slots(n: usize) -> Vec<Slot> {
    (0..n).map(|_| Slot::Init).collect()
}

fn uninit_slots(n: usize) -> Vec<Slot> {
    (0..n).map(|_| Slot::Uninit).collect()
}

fn ptr(mutability: Mutability, lifetime: Option<u64>, pointee: Vec<Slot>) -> Slot {
    Slot::Ptr(PtrSlot { mutability, lifetime, pointee })
}

/// A pointer-to-u64 slot: eight initialized pointee bytes.
fn ptr_to_u64(mutability: Mutability) -> Slot {
    ptr(mutability, None, init_slots(8))
}

#[test]
fn reflexive_on_identical_sequences() {
    let mut v = init_slots(2);
    v.push(Slot::Uninit);
    v.push(Slot::NonZero);
    v.push(ptr_to_u64(Mutability::Mut));
    let w = clone_slots(&v);
    assert!(from_layout(&v, &w));
}

#[test]
fn init_reads_as_uninit_but_never_the_reverse() {
    let init = init_slots(5);
    let uninit = uninit_slots(5);
    assert!(from_layout(&init, &uninit));
    assert!(!from_layout(&uninit, &init));
}

#[test]
fn nonzero_byte_rules() {
    let nz = vec![Slot::NonZero];
    let init = vec![Slot::Init];
    let uninit = vec![Slot::Uninit];
    let nz2 = vec![Slot::NonZero];
    assert!(from_layout(&nz, &init));
    assert!(from_layout(&nz, &uninit));
    assert!(from_layout(&nz, &nz2));
    assert!(!from_layout(&init, &nz2));
    assert!(!from_layout(&uninit, &nz2));
}

#[test]
fn length_mismatch_is_incompatible() {
    let one = init_slots(1);
    let two = init_slots(2);
    assert!(!from_layout(&one, &two));
    assert!(!from_layout(&two, &one));
    let empty: Vec<Slot> = vec![];
    assert!(from_layout(&empty, &vec![]));
    assert!(!from_layout(&empty, &one));
}

#[test]
fn scenario_mut_pointer_weakens_to_const() {
    let src = vec![ptr_to_u64(Mutability::Mut)];
    let tgt = vec![ptr_to_u64(Mutability::Const)];
    assert!(from_layout(&src, &tgt));
    assert!(!from_layout(&tgt, &src));
}

#[test]
fn scenario_init_bytes_form_const_pointer_only() {
    let bytes = init_slots(PTR_BYTES);
    let const_ptr = vec![ptr_to_u64(Mutability::Const)];
    let mut_ptr = vec![ptr_to_u64(Mutability::Mut)];
    // Initialized bytes may be read as a const raw pointer.
    assert!(from_layout(&bytes, &const_ptr));
    // Never as a mutable pointer, and never from uninitialized bytes.
    assert!(!from_layout(&bytes, &mut_ptr));
    assert!(!from_layout(&uninit_slots(PTR_BYTES), &const_ptr));
    // A pointer decomposes into its raw bytes.
    assert!(from_layout(&const_ptr, &init_slots(PTR_BYTES)));
    assert!(from_layout(&const_ptr, &uninit_slots(PTR_BYTES)));
}

#[test]
fn pointer_bytes_do_not_promise_nonzero() {
    let src = vec![ptr_to_u64(Mutability::Const)];
    let mut tgt = init_slots(PTR_BYTES - 1);
    tgt.push(Slot::NonZero);
    assert!(!from_layout(&src, &tgt));
}

#[test]
fn pointer_is_never_split() {
    let src = vec![ptr_to_u64(Mutability::Const)];
    let tgt = init_slots(4);
    assert!(!from_layout(&src, &tgt));
}

#[test]
fn pointee_compatibility_is_checked() {
    let src = vec![ptr(Mutability::Const, None, vec![Slot::NonZero])];
    let tgt_ok = vec![ptr(Mutability::Const, None, vec![Slot::Init])];
    let src_weak = vec![ptr(Mutability::Const, None, vec![Slot::Uninit])];
    assert!(from_layout(&src, &tgt_ok));
    assert!(!from_layout(&src_weak, &tgt_ok));
}

#[test]
fn outliving_bound_may_shrink_but_never_grow() {
    let long = vec![ptr(Mutability::Const, Some(5), init_slots(8))];
    let short = vec![ptr(Mutability::Const, Some(3), init_slots(8))];
    let raw = vec![ptr(Mutability::Const, None, init_slots(8))];
    assert!(from_layout(&long, &short));
    assert!(!from_layout(&short, &long));
    // A reference may be read as a raw pointer, never the reverse.
    assert!(from_layout(&long, &raw));
    assert!(!from_layout(&raw, &long));
}

#[test]
fn mutable_reference_weakens_to_shared() {
    let unique = vec![ptr(Mutability::Mut, Some(7), init_slots(8))];
    let shared = vec![ptr(Mutability::Const, Some(7), init_slots(8))];
    assert!(from_layout(&unique, &shared));
    assert!(!from_layout(&shared, &unique));
}

#[test]
fn transitive_chain_through_pointer_weakening() {
    let a = vec![ptr_to_u64(Mutability::Mut)];
    let b = vec![ptr_to_u64(Mutability::Const)];
    let c = init_slots(PTR_BYTES);
    assert!(from_layout(&a, &b));
    assert!(from_layout(&b, &c));
    assert!(from_layout(&a, &c));
}

#[test]
fn pointer_synthesis_breaks_unrestricted_transitivity() {
    // A pointer may be decomposed into initialized bytes, and initialized
    // bytes may be read as a const raw pointer to anything; composing the
    // two would launder an incompatible pointee. The relation refuses the
    // direct step.
    let a = vec![ptr(Mutability::Mut, None, init_slots(2))];
    let b = init_slots(PTR_BYTES);
    let c = vec![ptr(Mutability::Const, None, init_slots(8))];
    assert!(from_layout(&a, &b));
    assert!(from_layout(&b, &c));
    assert!(!from_layout(&a, &c));
}

#[test]
fn single_slot_rules() {
    assert!(from_slot(&Slot::Init, &Slot::Uninit));
    assert!(!from_slot(&Slot::Uninit, &Slot::Init));
    assert!(from_slot(&Slot::NonZero, &Slot::Init));
    assert!(!from_slot(&Slot::Init, &Slot::NonZero));
    let p = ptr_to_u64(Mutability::Mut);
    let q = ptr_to_u64(Mutability::Const);
    assert!(from_slot(&p, &q));
    assert!(!from_slot(&q, &p));
    // Never across the two kinds at single-slot level.
    assert!(!from_slot(&p, &Slot::Init));
    assert!(!from_slot(&Slot::Init, &q));
}

#[test]
fn layouts_relate_through_from_bytes() {
    let a = Struct { fields: vec![Field { align: 1, size: 2, slots: init_slots(2) }] };
    let b = Struct {
        fields: vec![Field { align: 1, size: 2, slots: uninit_slots(2) }],
    };
    let la = compute_layout(&a, Packing::Compact).unwrap();
    let lb = compute_layout(&b, Packing::Compact).unwrap();
    assert!(from_bytes(&la, &lb));
    assert!(!from_bytes(&lb, &la));
}

#[test]
fn subsumption_and_equality() {
    assert!(subsumes(&Slot::Uninit, &Slot::Init));
    assert!(!subsumes(&Slot::Init, &Slot::Uninit));
    assert!(subsumes(&Slot::NonZero, &Slot::NonZero));
    assert!(!subsumes(&Slot::Init, &Slot::NonZero));
    assert!(!subsumes(&Slot::Uninit, &Slot::NonZero));
    let p = ptr_to_u64(Mutability::Const);
    let q = clone_slot(&p);
    assert!(subsumes(&p, &q));
    assert!(slot_eq(&p, &q));
    assert!(!slot_eq(&p, &ptr_to_u64(Mutability::Mut)));
    assert!(slots_eq(&init_slots(3), &init_slots(3)));
    assert!(!slots_eq(&init_slots(3), &init_slots(4)));
}
