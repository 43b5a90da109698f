//! Ordered collections of variable-length byte records, each addressed by a
//! dense zero-based identifier.
//!
//! A store appends records, replaces them in place, looks them up by
//! identifier and walks them from either end. Every store is read through
//! [`traits::IndexedAccess`]; the ones that can change are written through
//! [`traits::IndexedAccessMut`].

pub mod codec;
pub mod iter;
pub mod layout;
pub mod map;
pub mod mem_index;
pub mod memory;
pub mod persisted;
pub mod traits;
pub mod typed_iter;
pub mod vec;

pub use map::MappedFile;
pub use memory::MemFile;
pub use vec::VecFile;
