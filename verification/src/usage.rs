//! What a block is meant for, and how well a memory type suits it.

use vstd::prelude::*;
use crate::properties::MemoryProperties;

verus! {

/// The intended use of a block.
#[derive(Clone, Copy, Debug, PartialEq, Eq, Structural)]
pub enum MemoryUsage {
    /// Device-side data that the host rarely touches.
    Data,
    /// Data that the host updates often and the device reads.
    Dynamic,
    /// Staging memory that the host writes and the device reads once.
    Upload,
    /// Staging memory that the device writes and the host reads back.
    Download,
}

/// `weight` where `flag` holds, else nothing.
pub open spec fn score(flag: bool, weight: int) -> int {
    if flag {
        weight
    } else {
        0
    }
}

impl MemoryUsage {
    /// Whether memory with `properties` can serve this usage at all.
    pub open spec fn compatible(self, properties: MemoryProperties) -> bool {
        match self {
            MemoryUsage::Data => properties.is_device_local(),
            MemoryUsage::Dynamic => properties.is_host_visible()
                && !properties.is_lazily_allocated(),
            MemoryUsage::Upload => properties.is_host_visible()
                && !properties.is_lazily_allocated() && !properties.is_host_cached(),
            MemoryUsage::Download => properties.is_host_visible()
                && !properties.is_lazily_allocated(),
        }
    }

    /// How much this usage likes memory with `properties`; the flag named
    /// first in each line outweighs all that follow it.
    pub open spec fn preference(self, properties: MemoryProperties) -> int {
        match self {
            MemoryUsage::Data => score(properties.is_device_local(), 4) + score(
                properties.is_host_cached(),
                2,
            ) + score(properties.is_host_coherent(), 1),
            MemoryUsage::Dynamic => score(properties.is_device_local(), 4) + score(
                properties.is_host_coherent(),
                2,
            ) + score(properties.is_host_cached(), 1),
            MemoryUsage::Upload => score(properties.is_host_coherent(), 2) + score(
                properties.is_device_local(),
                1,
            ),
            MemoryUsage::Download => score(properties.is_host_cached(), 4) + score(
                properties.is_host_coherent(),
                2,
            ) + score(properties.is_device_local(), 1),
        }
    }

    /// The fitness of memory with `properties` for this usage: higher is
    /// better, `None` is unusable.
    pub open spec fn spec_fitness(self, properties: MemoryProperties) -> Option<u8> {
        if self.compatible(properties) {
            Some(self.preference(properties) as u8)
        } else {
            None
        }
    }

    /// Scores memory with `properties` for this usage.
    pub fn fitness(self, properties: MemoryProperties) -> (f: Option<u8>)
        ensures
            f == self.spec_fitness(properties),
            f matches Some(v) ==> v <= 7,
    {
        let local: bool = properties.device_local();
        let visible: bool = properties.host_visible();
        let coherent: bool = properties.host_coherent();
        let cached: bool = properties.host_cached();
        let lazy: bool = properties.lazily_allocated();
        match self {
            MemoryUsage::Data => {
                if !local {
                    None
                } else {
                    Some(points(local, 4) + points(cached, 2) + points(coherent, 1))
                }
            },
            MemoryUsage::Dynamic => {
                if !visible || lazy {
                    None
                } else {
                    Some(points(local, 4) + points(coherent, 2) + points(cached, 1))
                }
            },
            MemoryUsage::Upload => {
                if !visible || lazy || cached {
                    None
                } else {
                    Some(points(coherent, 2) + points(local, 1))
                }
            },
            MemoryUsage::Download => {
                if !visible || lazy {
                    None
                } else {
                    Some(points(cached, 4) + points(coherent, 2) + points(local, 1))
                }
            },
        }
    }
}

fn points(flag: bool, weight: u8) -> (p: u8)
    ensures
        p == score(flag, weight as int),
{
    if flag {
        weight
    } else {
        0
    }
}

} // verus!
