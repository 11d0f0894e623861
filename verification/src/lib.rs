//! Byte-level memory layout of structured data.
//!
//! The crate models the memory of a structure as an ordered sequence of
//! slots (initialized bytes, possibly-uninitialized bytes, non-zero bytes,
//! and pointer-width pointer slots), computes field offsets, padding, total
//! size and alignment under a chosen packing rule, and decides three safety
//! questions over the result: byte reinterpretation, zero-validity, and
//! address alignment.

pub mod slot;
pub mod layout;
pub mod padding;
pub mod fromzeros;
pub mod frombytes;
pub mod alignedto;

pub use slot::{Slot, PtrSlot, Mutability, SlotModel, PtrModel, PTR_BYTES};
pub use slot::{slot_eq, slots_eq, subsumes, clone_slot, clone_slots};
pub use layout::{Field, Struct, Layout, LayoutError, Packing, C, Packed, Transparent, ReprMarker};
pub use layout::{compute_layout, layout_of, validate, check_pow2};
pub use padding::has_padding;
pub use fromzeros::from_zeros;
pub use frombytes::{from_layout, from_bytes, from_slot};
pub use alignedto::aligned_to;
