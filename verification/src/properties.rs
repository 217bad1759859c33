//! Property flags of a memory type.

use vstd::prelude::*;

verus! {

/// Memory that is fastest for the device to reach.
pub const DEVICE_LOCAL: u32 = 0x1;

/// Memory that the host can map.
pub const HOST_VISIBLE: u32 = 0x2;

/// Mapped memory whose host writes and reads need no flush or invalidate.
pub const HOST_COHERENT: u32 = 0x4;

/// Mapped memory that the host reads through its caches.
pub const HOST_CACHED: u32 = 0x8;

/// Memory that the device may commit lazily; never host-visible.
pub const LAZILY_ALLOCATED: u32 = 0x10;

/// The property flags of one memory type, as the device reports them.
#[derive(Clone, Copy, Debug, PartialEq, Eq, Structural)]
pub struct MemoryProperties {
    bits: u32,
}

impl MemoryProperties {
    /// The raw flag bits.
    pub closed spec fn spec_bits(self) -> u32 {
        self.bits
    }

    /// Whether every flag of `flags` is set.
    pub open spec fn has(self, flags: u32) -> bool {
        self.spec_bits() & flags == flags
    }

    pub open spec fn is_device_local(self) -> bool {
        self.has(DEVICE_LOCAL)
    }

    pub open spec fn is_host_visible(self) -> bool {
        self.has(HOST_VISIBLE)
    }

    pub open spec fn is_host_coherent(self) -> bool {
        self.has(HOST_COHERENT)
    }

    pub open spec fn is_host_cached(self) -> bool {
        self.has(HOST_CACHED)
    }

    pub open spec fn is_lazily_allocated(self) -> bool {
        self.has(LAZILY_ALLOCATED)
    }

    /// Wraps flag bits read from the device.
    pub fn from_bits(bits: u32) -> (p: Self)
        ensures
            p.spec_bits() == bits,
    {
        MemoryProperties { bits }
    }

    /// The flag bits.
    #[verifier::when_used_as_spec(spec_bits)]
    pub fn bits(self) -> (b: u32)
        ensures
            b == self.spec_bits(),
    {
        self.bits
    }

    /// Whether these properties include every flag set in `required`.
    pub fn subset(&self, required: u32) -> (b: bool)
        ensures
            b == self.has(required),
    {
        self.bits & required == required
    }

    pub fn device_local(&self) -> (b: bool)
        ensures
            b == self.is_device_local(),
    {
        self.subset(DEVICE_LOCAL)
    }

    pub fn host_visible(&self) -> (b: bool)
        ensures
            b == self.is_host_visible(),
    {
        self.subset(HOST_VISIBLE)
    }

    pub fn host_coherent(&self) -> (b: bool)
        ensures
            b == self.is_host_coherent(),
    {
        self.subset(HOST_COHERENT)
    }

    pub fn host_cached(&self) -> (b: bool)
        ensures
            b == self.is_host_cached(),
    {
        self.subset(HOST_CACHED)
    }

    pub fn lazily_allocated(&self) -> (b: bool)
        ensures
            b == self.is_lazily_allocated(),
    {
        self.subset(LAZILY_ALLOCATED)
    }
}

} // verus!
