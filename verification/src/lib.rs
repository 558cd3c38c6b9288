//! A slab whose slots are addressed by keys of a caller-chosen type.
//!
//! [`SlotStore`] is the slot algorithm on raw indices: a dense sequence of
//! slots, the vacant ones threaded on a free list and taken again before the
//! sequence grows. [`TypedSlab`] puts the key type in front of it.

pub mod slot_store;
pub mod theory;
pub mod typed;

pub use slot_store::{Slot, SlotStore};
pub use typed::TypedSlab;
