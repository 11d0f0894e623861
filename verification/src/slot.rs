//! The slot model: the atomic vocabulary of byte-level memory state.
//!
//! A slot is one unit of a value's memory image: a single byte that is
//! guaranteed initialized ([`Slot::Init`]), a byte whose initialization is
//! unknown ([`Slot::Uninit`]), an initialized byte guaranteed non-zero
//! ([`Slot::NonZero`]), or a pointer occupying [`PTR_BYTES`] bytes, tagged
//! with its pointee's layout, its mutability and, for reference-like
//! pointers, an outliving bound ([`Slot::Ptr`]).

use vstd::prelude::*;

verus! {

/// Width in bytes of one architecture pointer slot.
pub const PTR_BYTES: usize = 8;

/// Whether the target of a pointer may be mutated through it.
#[derive(Clone, Copy, Debug, PartialEq, Eq, Structural)]
pub enum Mutability {
    Const,
    Mut,
}

/// A pointer-width slot: the layout of the type it addresses, whether the
/// target may be mutated through it, and, for reference-like pointers, the
/// outliving bound it may assume (`None` for a raw pointer; a larger bound
/// outlives a smaller one).
#[derive(Debug, PartialEq, Eq)]
pub struct PtrSlot {
    pub mutability: Mutability,
    pub lifetime: Option<u64>,
    pub pointee: Vec<Slot>,
}

/// One slot of a value's memory image, in memory order.
#[derive(Debug, PartialEq, Eq)]
pub enum Slot {
    /// A byte guaranteed initialized, value unconstrained.
    Init,
    /// A byte whose initialization state is unknown.
    Uninit,
    /// An initialized byte guaranteed non-zero.
    NonZero,
    /// An architecture-pointer-width group of bytes addressing a pointee.
    Ptr(PtrSlot),
}

/// The mathematical model of a [`PtrSlot`].
#[verifier::ext_equal]
pub struct PtrModel {
    pub mutability: Mutability,
    pub lifetime: Option<u64>,
    pub pointee: Seq<SlotModel>,
}

/// The mathematical model of a [`Slot`].
#[verifier::ext_equal]
pub enum SlotModel {
    Init,
    Uninit,
    NonZero,
    Ptr(PtrModel),
}

pub open spec fn slot_view(s: Slot) -> SlotModel
    decreases s,
{
    match s {
        Slot::Init => SlotModel::Init,
        Slot::Uninit => SlotModel::Uninit,
        Slot::NonZero => SlotModel::NonZero,
        Slot::Ptr(p) => SlotModel::Ptr(
            PtrModel {
                mutability: p.mutability,
                lifetime: p.lifetime,
                pointee: slots_view(p.pointee@),
            },
        ),
    }
}

/// The model of a slot sequence, element by element.
pub open spec fn slots_view(s: Seq<Slot>) -> Seq<SlotModel>
    decreases s,
{
    if s.len() == 0 {
        Seq::empty()
    } else {
        slots_view(s.drop_last()).push(slot_view(s.last()))
    }
}

impl View for Slot {
    type V = SlotModel;

    open spec fn view(&self) -> SlotModel {
        slot_view(*self)
    }
}

/// Whether a slot is one byte wide (not a pointer).
pub open spec fn is_byte(s: SlotModel) -> bool {
    !(s is Ptr)
}

/// Width in bytes that a slot occupies in memory.
pub open spec fn slot_size(s: SlotModel) -> nat {
    if is_byte(s) {
        1
    } else {
        PTR_BYTES as nat
    }
}

/// Width in bytes of a whole slot sequence.
pub open spec fn seq_size(s: Seq<SlotModel>) -> nat
    decreases s,
{
    if s.len() == 0 {
        0
    } else {
        seq_size(s.drop_last()) + slot_size(s.last())
    }
}

/// `n` bytes guaranteed initialized.
pub open spec fn init_run(n: nat) -> Seq<SlotModel> {
    Seq::new(n, |i: int| SlotModel::Init)
}

/// `n` bytes of unknown initialization.
pub open spec fn uninit_run(n: nat) -> Seq<SlotModel> {
    Seq::new(n, |i: int| SlotModel::Uninit)
}

/// Slot `a` may stand in for slot `b`, at the conservative end: `Uninit`
/// subsumes `Init`, everything subsumes itself, nothing subsumes `NonZero`
/// but itself.
pub open spec fn spec_subsumes(a: SlotModel, b: SlotModel) -> bool {
    a == b || (a is Uninit && b is Init)
}

pub broadcast proof fn lemma_slots_view_len(s: Seq<Slot>)
    ensures
        #[trigger] slots_view(s).len() == s.len(),
    decreases s,
{
    if s.len() > 0 {
        lemma_slots_view_len(s.drop_last());
    }
}

pub broadcast proof fn lemma_slots_view_index(s: Seq<Slot>, i: int)
    requires
        0 <= i < s.len(),
    ensures
        slots_view(s).len() == s.len(),
        #[trigger] slots_view(s)[i] == slot_view(s[i]),
    decreases s,
{
    lemma_slots_view_len(s);
    if i < s.len() - 1 {
        lemma_slots_view_index(s.drop_last(), i);
    }
}

/// Byte width distributes over concatenation of slot sequences.
pub proof fn lemma_seq_size_concat(a: Seq<SlotModel>, b: Seq<SlotModel>)
    ensures
        seq_size(a + b) == seq_size(a) + seq_size(b),
    decreases b,
{
    if b.len() == 0 {
        assert(a + b =~= a);
    } else {
        lemma_seq_size_concat(a, b.drop_last());
        assert((a + b).drop_last() =~= a + b.drop_last());
        assert((a + b).last() == b.last());
    }
}

/// Deep structural equality of two slots, decided at run time.
pub fn slot_eq(a: &Slot, b: &Slot) -> (r: bool)
    ensures
        r == (a@ == b@),
    decreases *a,
{
    match (a, b) {
        (Slot::Init, Slot::Init) => true,
        (Slot::Uninit, Slot::Uninit) => true,
        (Slot::NonZero, Slot::NonZero) => true,
        (Slot::Ptr(p), Slot::Ptr(q)) => {
            let same_mut = match (p.mutability, q.mutability) {
                (Mutability::Const, Mutability::Const) => true,
                (Mutability::Mut, Mutability::Mut) => true,
                _ => false,
            };
            let same_life = match (p.lifetime, q.lifetime) {
                (Option::None, Option::None) => true,
                (Option::Some(x), Option::Some(y)) => x == y,
                _ => false,
            };
            let same_pointee = slots_eq(&p.pointee, &q.pointee);
            proof {
                if same_mut && same_life && same_pointee {
                    assert(a@ =~= b@);
                }
            }
            same_mut && same_life && same_pointee
        },
        _ => false,
    }
}

/// Deep structural equality of two slot sequences, decided at run time.
pub fn slots_eq(a: &Vec<Slot>, b: &Vec<Slot>) -> (r: bool)
    ensures
        r == (slots_view(a@) == slots_view(b@)),
    decreases a@,
{
    proof {
        lemma_slots_view_len(a@);
        lemma_slots_view_len(b@);
    }
    if a.len() != b.len() {
        return false;
    }
    let n = a.len();
    let mut i: usize = 0;
    while i < n
        invariant
            n == a@.len() == b@.len(),
            0 <= i <= n,
            forall|j: int| 0 <= j < i ==> slot_view(a@[j]) == slot_view(b@[j]),
        decreases n - i,
    {
        if !slot_eq(&a[i], &b[i]) {
            proof {
                lemma_slots_view_index(a@, i as int);
                lemma_slots_view_index(b@, i as int);
            }
            return false;
        }
        i = i + 1;
    }
    proof {
        assert(slots_view(a@) =~= slots_view(b@)) by {
            lemma_slots_view_len(a@);
            lemma_slots_view_len(b@);
            assert forall|j: int| 0 <= j < n implies slots_view(a@)[j] == slots_view(b@)[j] by {
                lemma_slots_view_index(a@, j);
                lemma_slots_view_index(b@, j);
            }
        }
    }
    true
}

/// Whether slot `a` may stand in for slot `b` (the conservative relation of
/// the slot model): `Uninit` subsumes `Init`, everything subsumes itself,
/// nothing subsumes `NonZero` but itself.
pub fn subsumes(a: &Slot, b: &Slot) -> (r: bool)
    ensures
        r == spec_subsumes(a@, b@),
{
    match (a, b) {
        (Slot::Uninit, Slot::Init) => true,
        _ => slot_eq(a, b),
    }
}

/// A copy of one slot, equal to the original in the model.
pub fn clone_slot(s: &Slot) -> (r: Slot)
    ensures
        r@ == s@,
    decreases *s,
{
    match s {
        Slot::Init => Slot::Init,
        Slot::Uninit => Slot::Uninit,
        Slot::NonZero => Slot::NonZero,
        Slot::Ptr(p) => {
            let pointee = clone_slots(&p.pointee);
            let r = Slot::Ptr(
                PtrSlot { mutability: p.mutability, lifetime: p.lifetime, pointee },
            );
            proof {
                assert(r@ =~= s@);
            }
            r
        },
    }
}

/// A copy of a slot sequence, equal to the original in the model.
pub fn clone_slots(v: &Vec<Slot>) -> (r: Vec<Slot>)
    ensures
        slots_view(r@) == slots_view(v@),
    decreases v@,
{
    let n = v.len();
    let mut r: Vec<Slot> = Vec::new();
    let mut i: usize = 0;
    while i < n
        invariant
            n == v@.len(),
            0 <= i <= n,
            r@.len() == i,
            forall|j: int| 0 <= j < i ==> slot_view(r@[j]) == slot_view(v@[j]),
        decreases n - i,
    {
        let c = clone_slot(&v[i]);
        r.push(c);
        i = i + 1;
    }
    proof {
        assert(slots_view(r@) =~= slots_view(v@)) by {
            lemma_slots_view_len(r@);
            lemma_slots_view_len(v@);
            assert forall|j: int| 0 <= j < n implies slots_view(r@)[j] == slots_view(v@)[j] by {
                lemma_slots_view_index(r@, j);
                lemma_slots_view_index(v@, j);
            }
        }
    }
    r
}

} // verus!
