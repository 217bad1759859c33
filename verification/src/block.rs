//! Blocks, as the three sub-allocators hand them out.

use vstd::prelude::*;
use std::ops::Range;
use crate::arena::ArenaBlock;
use crate::dedicated::DedicatedBlock;
use crate::dynamic::DynamicBlock;
use crate::properties::MemoryProperties;

verus! {

/// A block by the allocator it came from.
#[derive(Debug)]
pub enum BlockFlavor {
    Dedicated(DedicatedBlock),
    Arena(ArenaBlock),
    Dynamic(DynamicBlock),
}

impl BlockFlavor {
    /// Properties of the block's memory.
    pub open spec fn spec_properties(self) -> MemoryProperties {
        match self {
            BlockFlavor::Dedicated(b) => b.memory.properties,
            BlockFlavor::Arena(b) => b.properties,
            BlockFlavor::Dynamic(b) => b.properties,
        }
    }

    /// Handle of the raw allocation the block lies in.
    pub open spec fn spec_memory(self) -> u64 {
        match self {
            BlockFlavor::Dedicated(b) => b.memory.raw,
            BlockFlavor::Arena(b) => b.raw,
            BlockFlavor::Dynamic(b) => b.raw,
        }
    }

    /// The block's bytes, as offsets into its raw allocation.
    pub open spec fn spec_range(self) -> Range<u64> {
        match self {
            BlockFlavor::Dedicated(b) => b.spec_range(),
            BlockFlavor::Arena(b) => b.range,
            BlockFlavor::Dynamic(b) => b.range,
        }
    }
}

/// A block of device memory. It stays valid until it is freed and must go
/// back to the `Heaps` it came from.
pub struct MemoryBlock {
    /// The block itself.
    pub block: BlockFlavor,
    /// Index of the memory type it came from.
    pub memory_index: u32,
    /// For a dedicated block, its number among all that its memory type
    /// ever handed out.
    pub token: Ghost<nat>,
}

impl MemoryBlock {
    pub open spec fn spec_memory_type(self) -> u32 {
        self.memory_index
    }

    pub open spec fn spec_properties(self) -> MemoryProperties {
        self.block.spec_properties()
    }

    pub open spec fn spec_memory(self) -> u64 {
        self.block.spec_memory()
    }

    pub open spec fn spec_range(self) -> Range<u64> {
        self.block.spec_range()
    }

    /// Whether two blocks are the same allocation.
    pub open spec fn same_block(self, other: MemoryBlock) -> bool {
        self.memory_index == other.memory_index && match (self.block, other.block) {
            (BlockFlavor::Dedicated(_), BlockFlavor::Dedicated(_)) => self.token@ == other.token@,
            (BlockFlavor::Arena(a), BlockFlavor::Arena(b)) => a.chunk == b.chunk && a.range.start
                == b.range.start,
            (BlockFlavor::Dynamic(a), BlockFlavor::Dynamic(b)) => a.class == b.class && a.chunk
                == b.chunk && a.slot == b.slot,
            _ => false,
        }
    }

    /// Whether two blocks lie in one raw allocation: in one chunk, or they
    /// are one dedicated block.
    pub open spec fn shares_allocation(self, other: MemoryBlock) -> bool {
        self.memory_index == other.memory_index && match (self.block, other.block) {
            (BlockFlavor::Dedicated(_), BlockFlavor::Dedicated(_)) => self.token@ == other.token@,
            (BlockFlavor::Arena(a), BlockFlavor::Arena(b)) => a.chunk == b.chunk,
            (BlockFlavor::Dynamic(a), BlockFlavor::Dynamic(b)) => a.class == b.class && a.chunk
                == b.chunk,
            _ => false,
        }
    }

    /// Index of the memory type the block came from.
    pub fn memory_type(&self) -> (index: u32)
        ensures
            index == self.spec_memory_type(),
    {
        self.memory_index
    }

    /// Properties of the block's memory.
    pub fn properties(&self) -> (p: MemoryProperties)
        ensures
            p == self.spec_properties(),
    {
        match &self.block {
            BlockFlavor::Dedicated(b) => b.properties(),
            BlockFlavor::Arena(b) => b.properties,
            BlockFlavor::Dynamic(b) => b.properties,
        }
    }

    /// Handle of the raw allocation the block lies in.
    pub fn memory(&self) -> (raw: u64)
        ensures
            raw == self.spec_memory(),
    {
        match &self.block {
            BlockFlavor::Dedicated(b) => b.memory(),
            BlockFlavor::Arena(b) => b.raw,
            BlockFlavor::Dynamic(b) => b.raw,
        }
    }

    /// The block's bytes, as offsets into its raw allocation.
    pub fn range(&self) -> (r: Range<u64>)
        ensures
            r == self.spec_range(),
    {
        match &self.block {
            BlockFlavor::Dedicated(b) => b.range(),
            BlockFlavor::Arena(b) => b.range.start..b.range.end,
            BlockFlavor::Dynamic(b) => b.range.start..b.range.end,
        }
    }
}

/// The sub-allocator that serves a request.
#[derive(Clone, Copy, Debug, PartialEq, Eq, Structural)]
pub enum Route {
    Dedicated,
    Arena,
    Dynamic,
}

/// A request that needs raw memory first: the device has to allocate
/// `bytes` bytes of memory type `memory_index`, and its answer goes to
/// `Heaps::complete` together with this request.
#[derive(Clone, Copy, Debug)]
pub struct MemoryRequest {
    /// The memory type to allocate from.
    pub memory_index: u32,
    /// Bytes of raw memory to allocate.
    pub bytes: u64,
    /// The sub-allocator that takes the raw memory.
    pub route: Route,
    /// For the dynamic allocator, the size class of the new chunk.
    pub class: usize,
    /// Size of the block asked for.
    pub size: u64,
    /// Alignment of the block asked for.
    pub align: u64,
}

/// The answer to a request for a block.
pub enum Allocation {
    /// The block, cut from memory that was there.
    Ready(MemoryBlock),
    /// The device has to provide raw memory first.
    NeedsMemory(MemoryRequest),
}

} // verus!
