//! Device-memory allocation for a Vulkan-style device.
//!
//! A device exposes a few memory types, each drawing on one heap. `Heaps`
//! serves block requests out of a small number of raw device allocations:
//! it picks a memory type by mask and usage, keeps the heap budgets, and
//! routes each request to a dedicated, arena or dynamic sub-allocator.
//!
//! The library never talks to the device. Where raw memory has to be
//! obtained, released, mapped or flushed it says so in its result, and the
//! caller reports back what the device answered.
//!
//! A request goes through `Heaps::allocate`. Its answer is either the
//! block, cut from memory that was resident, or a `MemoryRequest` for the
//! device; the device's answer to that goes to `Heaps::complete`, which
//! hands out the block. `Heaps::free` takes a block back and returns the
//! raw allocations that the device has to free with it.

pub mod arena;
pub mod bitmap;
pub mod block;
pub mod dedicated;
pub mod dynamic;
pub mod error;
pub mod handles;
pub mod heaps;
pub mod laws;
pub mod mapping;
pub mod memory;
pub mod memory_type;
pub mod properties;
pub mod shortlist;
pub mod usage;
pub mod util;

pub use crate::block::MemoryBlock;
pub use crate::heaps::Heaps;
pub use crate::memory_type::HeapsConfig;
