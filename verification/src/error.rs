//! What can go wrong.

use vstd::prelude::*;
use crate::usage::MemoryUsage;

verus! {

/// A failure that the device reported.
#[derive(Clone, Copy, Debug, PartialEq, Eq, Structural)]
pub enum DeviceError {
    /// The device has no memory left for the allocation.
    OutOfDeviceMemory,
    /// The host has no memory left for the allocation.
    OutOfHostMemory,
    /// The device holds as many raw allocations as it supports.
    TooManyObjects,
    /// The device could not map the memory.
    MappingFailed,
}

/// Why a block could not be mapped.
#[derive(Clone, Copy, Debug, PartialEq, Eq, Structural)]
pub enum MappingError {
    /// The range asked for is not inside the block.
    OutsideBlock,
    /// The block's memory cannot be mapped by the host.
    HostInvisible,
    /// The device refused.
    Device(DeviceError),
}

/// Why a block could not be allocated.
#[derive(Clone, Copy, Debug, PartialEq, Eq, Structural)]
pub enum MemoryError {
    /// The device has no memory left.
    OutOfDeviceMemory,
    /// The host has no memory left.
    OutOfHostMemory,
    /// The device holds as many raw allocations as it supports.
    TooManyObjects,
    /// Every suitable memory type sits on a heap without room.
    HeapsExhausted,
    /// No memory type allowed by the mask suits the usage.
    NoSuitableMemory(u32, MemoryUsage),
    /// The memory could not be mapped.
    MappingFailed(MappingError),
}

impl MemoryError {
    /// The allocation error that stands for a failure of the device.
    pub open spec fn spec_from_device(e: DeviceError) -> MemoryError {
        match e {
            DeviceError::OutOfDeviceMemory => MemoryError::OutOfDeviceMemory,
            DeviceError::OutOfHostMemory => MemoryError::OutOfHostMemory,
            DeviceError::TooManyObjects => MemoryError::TooManyObjects,
            DeviceError::MappingFailed => MemoryError::MappingFailed(
                MappingError::Device(DeviceError::MappingFailed),
            ),
        }
    }

    /// Turns a failure of the device into an allocation error.
    pub fn from_device(e: DeviceError) -> (r: MemoryError)
        ensures
            r == Self::spec_from_device(e),
    {
        match e {
            DeviceError::OutOfDeviceMemory => MemoryError::OutOfDeviceMemory,
            DeviceError::OutOfHostMemory => MemoryError::OutOfHostMemory,
            DeviceError::TooManyObjects => MemoryError::TooManyObjects,
            DeviceError::MappingFailed => MemoryError::MappingFailed(
                MappingError::Device(DeviceError::MappingFailed),
            ),
        }
    }
}

} // verus!
