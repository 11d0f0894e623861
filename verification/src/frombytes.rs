//! The byte-reinterpretation checker: may every legal value of a source
//! slot sequence be read as a legal value of a target slot sequence when
//! the same bytes are reinterpreted?
//!
//! The relation is decided position-wise, left to right over both
//! sequences at once. Initialization may be weakened but never
//! manufactured; a mutable pointer capability may be weakened to
//! read-only but never fabricated; a pointer may be viewed as its raw
//! initialized bytes; a const raw pointer may be built from initialized
//! bytes, but no other pointer may ever be synthesized from plain bytes;
//! a reference's outliving bound may shrink but never grow.

use vstd::prelude::*;
use crate::slot::{
    Slot, SlotModel, PtrModel, Mutability, PTR_BYTES, slots_view, slot_view, init_run,
    uninit_run, lemma_slots_view_len, lemma_slots_view_index,
};
use crate::layout::Layout;

verus! {

/// A plain data byte: initialized or possibly uninitialized.
pub open spec fn plain_byte(s: SlotModel) -> bool {
    s is Init || s is Uninit
}

/// The byte-level rules: a stronger initialization guarantee may stand in
/// for a weaker one, never the reverse; `NonZero` may stand in for `Init`
/// or `Uninit`, but only `NonZero` stands in for `NonZero`.
pub open spec fn byte_from(src: SlotModel, tgt: SlotModel) -> bool {
    match (src, tgt) {
        (SlotModel::Init, SlotModel::Init) => true,
        (SlotModel::Init, SlotModel::Uninit) => true,
        (SlotModel::Uninit, SlotModel::Uninit) => true,
        (SlotModel::NonZero, SlotModel::NonZero) => true,
        (SlotModel::NonZero, SlotModel::Init) => true,
        (SlotModel::NonZero, SlotModel::Uninit) => true,
        _ => false,
    }
}

/// A mutable capability may be weakened to read-only; write capability is
/// never fabricated.
pub open spec fn mut_ok(src: Mutability, tgt: Mutability) -> bool {
    !(src is Const && tgt is Mut)
}

/// An outliving bound may be dropped (a reference read as a raw pointer)
/// or shrunk, never grown, and never invented for a raw pointer.
pub open spec fn life_ok(src: Option<u64>, tgt: Option<u64>) -> bool {
    match (src, tgt) {
        (Option::None, Option::None) => true,
        (Option::Some(_), Option::None) => true,
        (Option::Some(t), Option::Some(u)) => t >= u,
        (Option::None, Option::Some(_)) => false,
    }
}

/// Whether every legal value of `src` is a legal value of `tgt` when the
/// same bytes are reinterpreted, decided position-wise left to right.
pub open spec fn reinterpretable(src: Seq<SlotModel>, tgt: Seq<SlotModel>) -> bool
    decreases src,
{
    if src.len() == 0 {
        tgt.len() == 0
    } else if tgt.len() == 0 {
        false
    } else {
        match (src[0], tgt[0]) {
            (SlotModel::Ptr(p), SlotModel::Ptr(q)) => {
                &&& mut_ok(p.mutability, q.mutability)
                &&& life_ok(p.lifetime, q.lifetime)
                &&& reinterpretable(p.pointee, q.pointee)
                &&& reinterpretable(
                    src.subrange(1, src.len() as int),
                    tgt.subrange(1, tgt.len() as int),
                )
            },
            (SlotModel::Ptr(p), _) => {
                // A pointer may be viewed as its raw bytes, all initialized.
                &&& tgt.len() >= PTR_BYTES
                &&& (forall|i: int| 0 <= i < PTR_BYTES ==> plain_byte(#[trigger] tgt[i]))
                &&& reinterpretable(
                    src.subrange(1, src.len() as int),
                    tgt.subrange(PTR_BYTES as int, tgt.len() as int),
                )
            },
            (_, SlotModel::Ptr(q)) => {
                // Only a const raw pointer may be built from plain bytes,
                // and only from fully initialized ones.
                &&& src.len() >= PTR_BYTES
                &&& (forall|i: int| 0 <= i < PTR_BYTES ==> src[i] is Init)
                &&& q.mutability is Const
                &&& q.lifetime is None
                &&& reinterpretable(
                    src.subrange(PTR_BYTES as int, src.len() as int),
                    tgt.subrange(1, tgt.len() as int),
                )
            },
            _ => byte_from(src[0], tgt[0]) && reinterpretable(
                src.subrange(1, src.len() as int),
                tgt.subrange(1, tgt.len() as int),
            ),
        }
    }
}

/// One pointer slot may stand in for another: capability and outliving
/// bound may be weakened, and the pointees must be reinterpretable.
pub open spec fn ptr_from(p: PtrModel, q: PtrModel) -> bool {
    &&& mut_ok(p.mutability, q.mutability)
    &&& life_ok(p.lifetime, q.lifetime)
    &&& reinterpretable(p.pointee, q.pointee)
}

/// The single-slot relation: bytes by the byte table, pointers by the
/// pointer rule, and never across the two kinds.
pub open spec fn slot_from(src: SlotModel, tgt: SlotModel) -> bool {
    match (src, tgt) {
        (SlotModel::Ptr(p), SlotModel::Ptr(q)) => ptr_from(p, q),
        (SlotModel::Ptr(p), _) => false,
        (_, SlotModel::Ptr(q)) => false,
        _ => byte_from(src, tgt),
    }
}

/// Reinterpretation is reflexive: every slot sequence may be read as
/// itself, since every rule of the table accepts matching kinds.
pub proof fn lemma_reinterpretable_refl(s: Seq<SlotModel>)
    ensures
        reinterpretable(s, s),
    decreases s,
{
    if s.len() > 0 {
        let rest = s.subrange(1, s.len() as int);
        match s[0] {
            SlotModel::Ptr(p) => {
                assert(decreases_to!(s => s[0]));
                assert(decreases_to!(s[0] => p.pointee));
                lemma_reinterpretable_refl(p.pointee);
                lemma_reinterpretable_refl(rest);
            },
            _ => {
                lemma_reinterpretable_refl(rest);
            },
        }
    }
}

/// A sequence of initialized bytes may be read as the same number of
/// possibly-uninitialized bytes: the guarantee is only weakened.
pub proof fn lemma_init_into_uninit(n: nat)
    ensures
        reinterpretable(init_run(n), uninit_run(n)),
    decreases n,
{
    if n > 0 {
        lemma_init_into_uninit((n - 1) as nat);
        assert(init_run(n).subrange(1, n as int) =~= init_run((n - 1) as nat));
        assert(uninit_run(n).subrange(1, n as int) =~= uninit_run((n - 1) as nat));
    }
}

/// Initialization cannot be manufactured: no non-empty run of
/// possibly-uninitialized bytes may be read as initialized bytes.
pub proof fn lemma_uninit_not_into_init(n: nat)
    requires
        n > 0,
    ensures
        !reinterpretable(uninit_run(n), init_run(n)),
{
    assert(uninit_run(n)[0] is Uninit);
    assert(init_run(n)[0] is Init);
}

/// The conservative subsumption of the slot model is sound for
/// reinterpretation: wherever `t` subsumes `s`, a value of `s` may stand
/// in a position read as `t`.
pub proof fn lemma_subsumes_sound(s: SlotModel, t: SlotModel)
    requires
        crate::slot::spec_subsumes(t, s),
    ensures
        slot_from(s, t),
{
    if t == s {
        match s {
            SlotModel::Ptr(p) => {
                lemma_reinterpretable_refl(p.pointee);
            },
            _ => {},
        }
    }
}

/// In the position-wise walk of `src` against `tgt`, every pointer slot
/// of `tgt` faces a pointer slot of `src`: the walk never asks a pointer
/// to be synthesized from plain bytes, at any level of pointee nesting.
pub open spec fn ptr_sourced(src: Seq<SlotModel>, tgt: Seq<SlotModel>) -> bool
    decreases src,
{
    if src.len() == 0 || tgt.len() == 0 {
        true
    } else {
        match (src[0], tgt[0]) {
            (SlotModel::Ptr(p), SlotModel::Ptr(q)) => {
                &&& ptr_sourced(p.pointee, q.pointee)
                &&& ptr_sourced(
                    src.subrange(1, src.len() as int),
                    tgt.subrange(1, tgt.len() as int),
                )
            },
            (SlotModel::Ptr(p), _) => tgt.len() < PTR_BYTES || ptr_sourced(
                src.subrange(1, src.len() as int),
                tgt.subrange(PTR_BYTES as int, tgt.len() as int),
            ),
            (_, SlotModel::Ptr(q)) => false,
            _ => ptr_sourced(src.subrange(1, src.len() as int), tgt.subrange(1, tgt.len() as int)),
        }
    }
}

/// Peeling `k` non-pointer slots off a reinterpretable pair whose targets
/// are pointer-sourced walks the relation byte by byte: the first `k`
/// target slots are bytes admitted by the byte table, and the remainders
/// stay related.
proof fn lemma_walk_bytes(b: Seq<SlotModel>, c: Seq<SlotModel>, k: nat)
    requires
        reinterpretable(b, c),
        ptr_sourced(b, c),
        k <= b.len(),
        forall|i: int| 0 <= i < k ==> !(#[trigger] b[i] is Ptr),
    ensures
        c.len() >= k,
        forall|i: int| 0 <= i < k ==> byte_from(b[i], #[trigger] c[i]),
        reinterpretable(
            b.subrange(k as int, b.len() as int),
            c.subrange(k as int, c.len() as int),
        ),
        ptr_sourced(b.subrange(k as int, b.len() as int), c.subrange(k as int, c.len() as int)),
    decreases k,
{
    if k == 0 {
        assert(b.subrange(0, b.len() as int) =~= b);
        assert(c.subrange(0, c.len() as int) =~= c);
    } else {
        assert(!(b[0] is Ptr));
        let b1 = b.subrange(1, b.len() as int);
        let c1 = c.subrange(1, c.len() as int);
        assert(!(c[0] is Ptr));
        assert(forall|i: int| 0 <= i < k - 1 ==> !(#[trigger] b1[i] is Ptr)) by {
            assert(forall|i: int| 0 <= i < k - 1 ==> #[trigger] b1[i] == b[i + 1]);
        }
        lemma_walk_bytes(b1, c1, (k - 1) as nat);
        assert(b1.subrange(k - 1, b1.len() as int) =~= b.subrange(k as int, b.len() as int));
        assert(c1.subrange(k - 1, c1.len() as int) =~= c.subrange(k as int, c.len() as int));
        assert forall|i: int| 0 <= i < k implies byte_from(b[i], #[trigger] c[i]) by {
            if i > 0 {
                assert(b1[i - 1] == b[i]);
                assert(c1[i - 1] == c[i]);
            }
        }
    }
}

/// A reinterpretable remainder may be extended at the front by byte pairs
/// admitted by the byte table.
proof fn lemma_bytes_prefix(a: Seq<SlotModel>, c: Seq<SlotModel>, k: nat)
    requires
        k <= a.len(),
        k <= c.len(),
        forall|i: int| 0 <= i < k ==> byte_from(#[trigger] a[i], c[i]),
        reinterpretable(
            a.subrange(k as int, a.len() as int),
            c.subrange(k as int, c.len() as int),
        ),
    ensures
        reinterpretable(a, c),
    decreases k,
{
    if k == 0 {
        assert(a.subrange(0, a.len() as int) =~= a);
        assert(c.subrange(0, c.len() as int) =~= c);
    } else {
        assert(byte_from(a[0], c[0]));
        let a1 = a.subrange(1, a.len() as int);
        let c1 = c.subrange(1, c.len() as int);
        assert(forall|i: int| 0 <= i < k - 1 ==> byte_from(#[trigger] a1[i], c1[i])) by {
            assert(forall|i: int| 0 <= i < k - 1 ==> #[trigger] a1[i] == a[i + 1]);
            assert(forall|i: int| 0 <= i < k - 1 ==> #[trigger] c1[i] == c[i + 1]);
        }
        assert(a1.subrange(k - 1, a1.len() as int) =~= a.subrange(k as int, a.len() as int));
        assert(c1.subrange(k - 1, c1.len() as int) =~= c.subrange(k as int, c.len() as int));
        lemma_bytes_prefix(a1, c1, (k - 1) as nat);
    }
}

/// Reinterpretation is transitive wherever the second step synthesizes no
/// pointer from plain bytes: if `a` may be read as `b` and `b` as `c`,
/// and every pointer slot of `c` faces a pointer slot of `b`, then `a`
/// may be read as `c`. (Without that proviso transitivity fails: a
/// pointer may be decomposed into initialized bytes and those bytes then
/// read as a const raw pointer to an arbitrary pointee.)
pub proof fn lemma_reinterpretable_trans(
    a: Seq<SlotModel>,
    b: Seq<SlotModel>,
    c: Seq<SlotModel>,
)
    requires
        reinterpretable(a, b),
        reinterpretable(b, c),
        ptr_sourced(b, c),
    ensures
        reinterpretable(a, c),
    decreases a,
{
    let pb = PTR_BYTES as int;
    if a.len() == 0 {
    } else {
        let a1 = a.subrange(1, a.len() as int);
        let b1 = b.subrange(1, b.len() as int);
        let c1 = c.subrange(1, c.len() as int);
        match (a[0], b[0]) {
            (SlotModel::Ptr(pa), SlotModel::Ptr(pbm)) => {
                match c[0] {
                    SlotModel::Ptr(pc) => {
                        assert(decreases_to!(a => a[0]));
                        assert(decreases_to!(a[0] => pa));
                        assert(decreases_to!(pa => pa.pointee));
                        lemma_reinterpretable_trans(pa.pointee, pbm.pointee, pc.pointee);
                        lemma_reinterpretable_trans(a1, b1, c1);
                    },
                    _ => {
                        lemma_reinterpretable_trans(a1, b1, c.subrange(pb, c.len() as int));
                    },
                }
            },
            (SlotModel::Ptr(pa), _) => {
                // `b` continues with plain bytes; `c` must follow byte by
                // byte, since none of its pointers may come from bytes.
                lemma_walk_bytes(b, c, PTR_BYTES as nat);
                assert forall|i: int| 0 <= i < pb implies plain_byte(#[trigger] c[i]) by {
                    assert(plain_byte(b[i]));
                    assert(byte_from(b[i], c[i]));
                }
                assert(!(c[0] is Ptr));
                lemma_reinterpretable_trans(
                    a1,
                    b.subrange(pb, b.len() as int),
                    c.subrange(pb, c.len() as int),
                );
            },
            (_, SlotModel::Ptr(pbm)) => {
                match c[0] {
                    SlotModel::Ptr(pc) => {
                        lemma_reinterpretable_trans(a.subrange(pb, a.len() as int), b1, c1);
                    },
                    _ => {
                        lemma_reinterpretable_trans(
                            a.subrange(pb, a.len() as int),
                            b1,
                            c.subrange(pb, c.len() as int),
                        );
                        assert forall|i: int| 0 <= i < pb implies byte_from(
                            #[trigger] a[i],
                            c[i],
                        ) by {
                            assert(a[i] is Init);
                            assert(plain_byte(c[i]));
                        }
                        lemma_bytes_prefix(a, c, PTR_BYTES as nat);
                    },
                }
            },
            (_, _) => {
                assert(!(c[0] is Ptr));
                lemma_reinterpretable_trans(a1, b1, c1);
            },
        }
    }
}

/// The model of the slot sequence of `v` from position `i` on.
pub open spec fn sub_model(v: Seq<Slot>, i: int) -> Seq<SlotModel>
    recommends
        0 <= i <= v.len(),
{
    slots_view(v).subrange(i, slots_view(v).len() as int)
}

/// Decide the reinterpretation relation from position `si` of `src` and
/// `ti` of `tgt` on.
fn check_from(src: &Vec<Slot>, si: usize, tgt: &Vec<Slot>, ti: usize) -> (r: bool)
    requires
        si <= src@.len(),
        ti <= tgt@.len(),
    ensures
        r == reinterpretable(sub_model(src@, si as int), sub_model(tgt@, ti as int)),
    decreases sub_model(src@, si as int),
{
    proof {
        lemma_slots_view_len(src@);
        lemma_slots_view_len(tgt@);
    }
    let ghost sm = sub_model(src@, si as int);
    let ghost tm = sub_model(tgt@, ti as int);
    let ns = src.len();
    let nt = tgt.len();
    if si == ns {
        return ti == nt;
    }
    if ti == nt {
        return false;
    }
    proof {
        lemma_slots_view_index(src@, si as int);
        lemma_slots_view_index(tgt@, ti as int);
        assert(sm[0] == slot_view(src@[si as int]));
        assert(tm[0] == slot_view(tgt@[ti as int]));
    }
    match (&src[si], &tgt[ti]) {
        (Slot::Ptr(p), Slot::Ptr(q)) => {
            let ghost pm = (sm[0])->Ptr_0;
            let ghost qm = (tm[0])->Ptr_0;
            let cap_ok = match (p.mutability, q.mutability) {
                (Mutability::Const, Mutability::Mut) => false,
                _ => true,
            };
            let out_ok = match (p.lifetime, q.lifetime) {
                (Option::None, Option::None) => true,
                (Option::Some(_), Option::None) => true,
                (Option::Some(t), Option::Some(u)) => t >= u,
                (Option::None, Option::Some(_)) => false,
            };
            proof {
                assert(cap_ok == mut_ok(pm.mutability, qm.mutability));
                assert(out_ok == life_ok(pm.lifetime, qm.lifetime));
            }
            if !cap_ok || !out_ok {
                return false;
            }
            proof {
                assert(decreases_to!(sm => sm[0]));
                assert(decreases_to!(sm[0] => pm));
                assert(decreases_to!(pm => pm.pointee));
                assert(sub_model(p.pointee@, 0) =~= pm.pointee) by {
                    lemma_slots_view_len(p.pointee@);
                }
                assert(sub_model(q.pointee@, 0) =~= qm.pointee) by {
                    lemma_slots_view_len(q.pointee@);
                }
            }
            if !check_from(&p.pointee, 0, &q.pointee, 0) {
                return false;
            }
            proof {
                assert(decreases_to!(sm => sm.subrange(1, sm.len() as int)));
                assert(sub_model(src@, si + 1) =~= sm.subrange(1, sm.len() as int));
                assert(sub_model(tgt@, ti + 1) =~= tm.subrange(1, tm.len() as int));
            }
            let tail = check_from(src, si + 1, tgt, ti + 1);
            tail
        },
        (Slot::Ptr(p), _) => {
            if nt - ti < PTR_BYTES {
                return false;
            }
            let mut k: usize = 0;
            while k < PTR_BYTES
                invariant
                    si < ns == src@.len(),
                    ti + PTR_BYTES <= nt == tgt@.len(),
                    slots_view(src@).len() == ns,
                    slots_view(tgt@).len() == nt,
                    0 <= k <= PTR_BYTES,
                    sm == sub_model(src@, si as int),
                    tm == sub_model(tgt@, ti as int),
                    sm.len() == ns - si,
                    tm.len() == nt - ti,
                    sm[0] is Ptr,
                    !(tm[0] is Ptr),
                    forall|j: int| 0 <= j < k ==> plain_byte(#[trigger] tm[j]),
                decreases PTR_BYTES - k,
            {
                proof {
                    lemma_slots_view_index(tgt@, ti + k);
                    assert(tm[k as int] == slot_view(tgt@[ti + k]));
                }
                let good = match &tgt[ti + k] {
                    Slot::Init => true,
                    Slot::Uninit => true,
                    _ => false,
                };
                if !good {
                    proof {
                        assert(!plain_byte(tm[k as int]));
                        assert(!reinterpretable(sm, tm));
                    }
                    return false;
                }
                k = k + 1;
            }
            proof {
                assert(decreases_to!(sm => sm.subrange(1, sm.len() as int)));
                assert(sub_model(src@, si + 1) =~= sm.subrange(1, sm.len() as int));
                assert(sub_model(tgt@, ti + PTR_BYTES) =~= tm.subrange(
                    PTR_BYTES as int,
                    tm.len() as int,
                ));
            }
            let tail = check_from(src, si + 1, tgt, ti + PTR_BYTES);
            tail
        },
        (_, Slot::Ptr(q)) => {
            let ghost qm = (tm[0])->Ptr_0;
            if ns - si < PTR_BYTES {
                return false;
            }
            let mut k: usize = 0;
            while k < PTR_BYTES
                invariant
                    si + PTR_BYTES <= ns == src@.len(),
                    ti < nt == tgt@.len(),
                    slots_view(src@).len() == ns,
                    slots_view(tgt@).len() == nt,
                    0 <= k <= PTR_BYTES,
                    sm == sub_model(src@, si as int),
                    tm == sub_model(tgt@, ti as int),
                    sm.len() == ns - si,
                    tm.len() == nt - ti,
                    !(sm[0] is Ptr),
                    tm[0] is Ptr,
                    forall|j: int| 0 <= j < k ==> #[trigger] sm[j] is Init,
                decreases PTR_BYTES - k,
            {
                proof {
                    lemma_slots_view_index(src@, si + k);
                    assert(sm[k as int] == slot_view(src@[si + k]));
                }
                let good = match &src[si + k] {
                    Slot::Init => true,
                    _ => false,
                };
                if !good {
                    proof {
                        assert(!(sm[k as int] is Init));
                        assert(!reinterpretable(sm, tm));
                    }
                    return false;
                }
                k = k + 1;
            }
            let cap_const = match q.mutability {
                Mutability::Const => true,
                Mutability::Mut => false,
            };
            let raw = match q.lifetime {
                Option::None => true,
                Option::Some(_) => false,
            };
            proof {
                assert(cap_const == (qm.mutability is Const));
                assert(raw == (qm.lifetime is None));
            }
            if !cap_const || !raw {
                return false;
            }
            proof {
                assert(decreases_to!(sm => sm.subrange(PTR_BYTES as int, sm.len() as int)));
                assert(sub_model(src@, si + PTR_BYTES) =~= sm.subrange(
                    PTR_BYTES as int,
                    sm.len() as int,
                ));
                assert(sub_model(tgt@, ti + 1) =~= tm.subrange(1, tm.len() as int));
            }
            let tail = check_from(src, si + PTR_BYTES, tgt, ti + 1);
            tail
        },
        (a, b) => {
            let ok = match (a, b) {
                (Slot::Init, Slot::Init) => true,
                (Slot::Init, Slot::Uninit) => true,
                (Slot::Uninit, Slot::Uninit) => true,
                (Slot::NonZero, Slot::NonZero) => true,
                (Slot::NonZero, Slot::Init) => true,
                (Slot::NonZero, Slot::Uninit) => true,
                _ => false,
            };
            proof {
                assert(ok == byte_from(sm[0], tm[0]));
            }
            if !ok {
                return false;
            }
            proof {
                assert(decreases_to!(sm => sm.subrange(1, sm.len() as int)));
                assert(sub_model(src@, si + 1) =~= sm.subrange(1, sm.len() as int));
                assert(sub_model(tgt@, ti + 1) =~= tm.subrange(1, tm.len() as int));
            }
            let tail = check_from(src, si + 1, tgt, ti + 1);
            tail
        },
    }
}

/// Whether the slot sequence `src` may be reinterpreted as the slot
/// sequence `tgt`.
pub fn from_layout(src: &Vec<Slot>, tgt: &Vec<Slot>) -> (r: bool)
    ensures
        r == reinterpretable(slots_view(src@), slots_view(tgt@)),
{
    proof {
        lemma_slots_view_len(src@);
        lemma_slots_view_len(tgt@);
        assert(sub_model(src@, 0) =~= slots_view(src@));
        assert(sub_model(tgt@, 0) =~= slots_view(tgt@));
    }
    check_from(src, 0, tgt, 0)
}

/// Whether a value laid out as `src` may be reinterpreted as a value laid
/// out as `tgt`.
pub fn from_bytes(src: &Layout, tgt: &Layout) -> (r: bool)
    ensures
        r == reinterpretable(src@.slots, tgt@.slots),
{
    from_layout(&src.slots, &tgt.slots)
}

/// Whether the single slot `src` may stand in for the single slot `tgt`.
pub fn from_slot(src: &Slot, tgt: &Slot) -> (r: bool)
    ensures
        r == slot_from(src@, tgt@),
{
    match (src, tgt) {
        (Slot::Ptr(p), Slot::Ptr(q)) => {
            let cap_ok = match (p.mutability, q.mutability) {
                (Mutability::Const, Mutability::Mut) => false,
                _ => true,
            };
            let out_ok = match (p.lifetime, q.lifetime) {
                (Option::None, Option::None) => true,
                (Option::Some(_), Option::None) => true,
                (Option::Some(t), Option::Some(u)) => t >= u,
                (Option::None, Option::Some(_)) => false,
            };
            cap_ok && out_ok && from_layout(&p.pointee, &q.pointee)
        },
        (Slot::Ptr(_), _) => false,
        (_, Slot::Ptr(_)) => false,
        (a, b) => {
            match (a, b) {
                (Slot::Init, Slot::Init) => true,
                (Slot::Init, Slot::Uninit) => true,
                (Slot::Uninit, Slot::Uninit) => true,
                (Slot::NonZero, Slot::NonZero) => true,
                (Slot::NonZero, Slot::Init) => true,
                (Slot::NonZero, Slot::Uninit) => true,
                _ => false,
            }
        },
    }
}

} // verus!
