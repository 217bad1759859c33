//! The dedicated allocator: one raw allocation for each block.

use vstd::prelude::*;
use vstd::arithmetic::power2::is_pow2;
use std::ops::Range;
use crate::memory::Memory;
use crate::properties::MemoryProperties;
use crate::util::{align_up, aligned, lemma_align_up};

verus! {

/// A raw allocation that the device has to free, after unmapping it where
/// `unmap` is set.
#[derive(Clone, Copy, Debug, PartialEq, Eq, Structural)]
pub struct Release {
    pub raw: u64,
    pub unmap: bool,
}

/// What is owed to the device when `memory` goes.
pub open spec fn release_of(memory: Memory) -> Release {
    Release { raw: memory.raw, unmap: memory.host is Some }
}

impl Release {
    /// What is owed to the device when `memory` goes.
    pub fn of(memory: &Memory) -> (r: Release)
        ensures
            r == release_of(*memory),
    {
        Release { raw: memory.raw, unmap: memory.is_mapped() }
    }
}

/// A block that has a raw allocation to itself.
#[derive(Debug)]
pub struct DedicatedBlock {
    pub memory: Memory,
}

impl DedicatedBlock {
    /// The block spans its whole allocation.
    pub open spec fn spec_range(self) -> Range<u64> {
        Range { start: 0, end: self.memory.size }
    }

    pub fn properties(&self) -> (p: MemoryProperties)
        ensures
            p == self.memory.properties,
    {
        self.memory.properties
    }

    pub fn memory(&self) -> (raw: u64)
        ensures
            raw == self.memory.raw,
    {
        self.memory.raw
    }

    pub fn range(&self) -> (r: Range<u64>)
        ensures
            r == self.spec_range(),
    {
        0..self.memory.size
    }
}

/// Hands every block a raw allocation of its own and keeps count of the
/// bytes out.
#[derive(Debug)]
pub struct DedicatedAllocator {
    /// Index of the memory type served.
    pub memory_type: u32,
    /// Properties of that memory type.
    pub properties: MemoryProperties,
    /// The device's non-coherent atom size.
    pub atom: u64,
    /// Bytes of raw memory out.
    pub used: u64,
}

impl DedicatedAllocator {
    pub open spec fn wf(self) -> bool {
        is_pow2(self.atom as int)
    }

    /// Bytes of raw memory behind a block of `size` bytes: for host-visible
    /// memory `size` rounded up to the atom, so that a flush of the block's
    /// last bytes stays inside it; else `size`.
    pub open spec fn spec_allocation_size(self, size: u64) -> int {
        if self.properties.is_host_visible() {
            align_up(size as int, self.atom as int)
        } else {
            size as int
        }
    }

    /// Rounding never shrinks a block and adds less than one atom.
    pub proof fn lemma_allocation_size(self, size: u64)
        requires
            self.wf(),
        ensures
            size <= self.spec_allocation_size(size) < size + self.atom,
    {
        reveal(is_pow2);
        lemma_align_up(size as int, self.atom as int);
    }

    pub fn new(memory_type: u32, properties: MemoryProperties, atom: u64) -> (a: Self)
        requires
            is_pow2(atom as int),
        ensures
            a == (DedicatedAllocator { memory_type, properties, atom, used: 0 }),
            a.wf(),
    {
        DedicatedAllocator { memory_type, properties, atom, used: 0 }
    }

    /// Bytes of raw memory to ask of the device for a block of `size`
    /// bytes; `None` where they do not fit in 64 bits.
    pub fn allocation_size(&self, size: u64) -> (r: Option<u64>)
        requires
            self.wf(),
        ensures
            r == (if self.spec_allocation_size(size) <= u64::MAX {
                Some(self.spec_allocation_size(size) as u64)
            } else {
                None
            }),
    {
        proof {
            reveal(is_pow2);
        }
        if self.properties.host_visible() {
            aligned(size, self.atom)
        } else {
            Some(size)
        }
    }

    /// Makes a block of the raw allocation `raw` of `size` bytes that the
    /// device has just handed out. Returns the block and the bytes taken
    /// from the heap.
    pub fn allocate(&mut self, raw: u64, size: u64) -> (r: (DedicatedBlock, u64))
        requires
            old(self).used + size <= u64::MAX,
        ensures
            r.0.memory == Memory::new_spec(raw, size, old(self).properties),
            r.1 == size,
            *final(self) == (DedicatedAllocator { used: (old(self).used + size) as u64, ..*old(self) }),
    {
        let memory = Memory::new(raw, size, self.properties);
        self.used = self.used + size;
        (DedicatedBlock { memory }, size)
    }

    /// Takes a block back. Returns what the device has to free and the
    /// bytes given back to the heap.
    pub fn free(&mut self, block: DedicatedBlock) -> (r: (Release, u64))
        requires
            block.memory.size <= old(self).used,
        ensures
            r.0 == release_of(block.memory),
            r.1 == block.memory.size,
            *final(self) == (DedicatedAllocator {
                used: (old(self).used - block.memory.size) as u64,
                ..*old(self)
            }),
    {
        let size: u64 = block.memory.size;
        let release = Release::of(&block.memory);
        self.used = self.used - size;
        (release, size)
    }
}

} // verus!
