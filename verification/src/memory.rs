//! One raw allocation of the device and its host mapping.

use vstd::prelude::*;
use std::ops::Range;
use crate::error::{DeviceError, MappingError};
use crate::mapping::{contains_range, MappedRange};
use crate::properties::MemoryProperties;

verus! {

/// One raw allocation: its handle, size and properties, and the state of
/// its host mapping. The device maps an allocation at most once, as a whole;
/// every window onto it shares that mapping and is counted.
#[derive(Debug)]
pub struct Memory {
    /// The device's handle.
    pub raw: u64,
    /// Size in bytes.
    pub size: u64,
    /// Properties of the memory type it came from.
    pub properties: MemoryProperties,
    /// Host address of byte 0 while the device has it mapped.
    pub host: Option<usize>,
    /// Number of live windows.
    pub mapped: u64,
}

/// What `Memory::map` asks of its caller.
#[derive(Debug)]
pub enum MapStep {
    /// The allocation is mapped already; here is the window.
    Mapped(MappedRange),
    /// The device must map the whole allocation, `size` bytes from offset
    /// 0, and the result goes to `Memory::attach`.
    MapMemory { raw: u64, size: u64 },
}

impl Memory {
    pub open spec fn wf(self) -> bool {
        &&& self.host is None <==> self.mapped == 0
        &&& self.host is Some ==> self.properties.is_host_visible()
    }

    /// Everything but the state of the mapping.
    pub open spec fn same_allocation(self, other: Memory) -> bool {
        self.raw == other.raw && self.size == other.size && self.properties == other.properties
    }

    /// The window over `range` while the allocation is mapped at `base`.
    pub open spec fn window(self, base: usize, range: Range<u64>) -> MappedRange {
        MappedRange {
            raw: self.raw,
            base,
            range,
            limit: self.size,
            coherent: self.properties.is_host_coherent(),
        }
    }

    /// Why `range` cannot be mapped, if it cannot.
    pub open spec fn map_refusal(self, range: Range<u64>) -> Option<MappingError> {
        if !self.properties.is_host_visible() {
            Some(MappingError::HostInvisible)
        } else if !contains_range(Range { start: 0, end: self.size }, range) {
            Some(MappingError::OutsideBlock)
        } else if self.mapped == u64::MAX {
            Some(MappingError::Device(DeviceError::TooManyObjects))
        } else {
            None
        }
    }

    /// A fresh raw allocation, not mapped.
    pub open spec fn new_spec(raw: u64, size: u64, properties: MemoryProperties) -> Memory {
        Memory { raw, size, properties, host: None, mapped: 0 }
    }

    /// Record of a fresh raw allocation, not mapped.
    pub fn new(raw: u64, size: u64, properties: MemoryProperties) -> (m: Memory)
        ensures
            m == Self::new_spec(raw, size, properties),
            m.wf(),
    {
        Memory { raw, size, properties, host: None, mapped: 0 }
    }

    /// The allocation with another state of its mapping.
    pub open spec fn with_mapping(self, host: Option<usize>, mapped: u64) -> Memory {
        Memory { host, mapped, ..self }
    }

    /// A copy of the record, to work on while the allocation stays where
    /// it is.
    pub fn snapshot(&self) -> (m: Memory)
        ensures
            m == *self,
    {
        Memory {
            raw: self.raw,
            size: self.size,
            properties: self.properties,
            host: self.host,
            mapped: self.mapped,
        }
    }

    /// Records another state of the mapping.
    pub fn set_mapping(&mut self, host: Option<usize>, mapped: u64)
        ensures
            *final(self) == old(self).with_mapping(host, mapped),
    {
        self.host = host;
        self.mapped = mapped;
    }

    /// Whether the record is one that the operations on it leave behind.
    pub fn is_well_formed(&self) -> (b: bool)
        ensures
            b == self.wf(),
    {
        match self.host {
            Some(_) => self.mapped != 0 && self.properties.host_visible(),
            None => self.mapped == 0,
        }
    }

    /// Whether the device has the allocation mapped.
    pub fn is_mapped(&self) -> (b: bool)
        ensures
            b == self.host is Some,
    {
        self.host.is_some()
    }

    /// What `map` does.
    ///
    /// It fails with `HostInvisible` where the memory cannot be mapped,
    /// whatever the range; else with `OutsideBlock` where `range` is not
    /// inside the allocation; else with `TooManyObjects` where no further
    /// window can be counted. Otherwise, where the allocation is mapped, the window shares
    /// the mapping and is counted; where it is not, nothing changes and the
    /// device is asked to map.
    pub open spec fn opens(
        before: Memory,
        after: Memory,
        range: Range<u64>,
        r: Result<MapStep, MappingError>,
    ) -> bool {
        match r {
            Err(e) => before.map_refusal(range) == Some(e) && after == before,
            Ok(MapStep::Mapped(w)) => {
                &&& before.map_refusal(range) is None
                &&& before.host matches Some(base) && w == before.window(base, range)
                &&& after == before.with_mapping(before.host, (before.mapped + 1) as u64)
            },
            Ok(MapStep::MapMemory { raw, size }) => {
                &&& before.map_refusal(range) is None
                &&& before.host is None
                &&& raw == before.raw
                &&& size == before.size
                &&& after == before
            },
        }
    }

    /// What `attach` does: on success the allocation is mapped, with the
    /// one window; on failure nothing changes.
    pub open spec fn attaches(
        before: Memory,
        after: Memory,
        range: Range<u64>,
        outcome: Result<usize, DeviceError>,
        r: Result<MappedRange, MappingError>,
    ) -> bool {
        match outcome {
            Ok(base) => {
                &&& r == Ok::<MappedRange, MappingError>(before.window(base, range))
                &&& after == before.with_mapping(Some(base), 1)
            },
            Err(e) => {
                &&& r == Err::<MappedRange, MappingError>(MappingError::Device(e))
                &&& after == before
            },
        }
    }

    /// What `close` does: one window less, and with the last window the
    /// mapping goes.
    pub open spec fn closes(before: Memory, after: Memory, unmap: bool) -> bool {
        &&& unmap == (before.mapped == 1)
        &&& after == before.with_mapping(
            if unmap {
                None
            } else {
                before.host
            },
            (before.mapped - 1) as u64,
        )
    }

    /// Opens a window over `range`.
    pub fn map(&mut self, range: &Range<u64>) -> (r: Result<MapStep, MappingError>)
        requires
            old(self).wf(),
        ensures
            final(self).wf(),
            Self::opens(*old(self), *final(self), *range, r),
    {
        if !self.properties.host_visible() {
            return Err(MappingError::HostInvisible);
        }
        if !(range.start <= range.end && range.end <= self.size) {
            return Err(MappingError::OutsideBlock);
        }
        if self.mapped == u64::MAX {
            return Err(MappingError::Device(DeviceError::TooManyObjects));
        }
        match self.host {
            Some(base) => {
                self.mapped = self.mapped + 1;
                Ok(
                    MapStep::Mapped(
                        MappedRange {
                            raw: self.raw,
                            base,
                            range: range.start..range.end,
                            limit: self.size,
                            coherent: self.properties.host_coherent(),
                        },
                    ),
                )
            },
            None => Ok(MapStep::MapMemory { raw: self.raw, size: self.size }),
        }
    }

    /// Takes the device's answer to a request to map the allocation, made
    /// for a window over `range`.
    pub fn attach(&mut self, range: &Range<u64>, outcome: Result<usize, DeviceError>) -> (r: Result<
        MappedRange,
        MappingError,
    >)
        requires
            old(self).wf(),
            old(self).host is None,
            old(self).map_refusal(*range) is None,
        ensures
            final(self).wf(),
            Self::attaches(*old(self), *final(self), *range, outcome, r),
    {
        match outcome {
            Ok(base) => {
                self.host = Some(base);
                self.mapped = 1;
                Ok(
                    MappedRange {
                        raw: self.raw,
                        base,
                        range: range.start..range.end,
                        limit: self.size,
                        coherent: self.properties.host_coherent(),
                    },
                )
            },
            Err(e) => Err(MappingError::Device(e)),
        }
    }

    /// Closes one window. Returns whether it was the last, in which case
    /// the allocation counts as unmapped and the device must unmap it.
    pub fn close(&mut self) -> (unmap: bool)
        requires
            old(self).wf(),
            old(self).mapped > 0,
        ensures
            final(self).wf(),
            Self::closes(*old(self), *final(self), unmap),
    {
        self.mapped = self.mapped - 1;
        if self.mapped == 0 {
            self.host = None;
            true
        } else {
            false
        }
    }
}

} // verus!
