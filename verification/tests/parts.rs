use rendy_memory::arena::{ArenaAllocator, ArenaConfig};
use rendy_memory::bitmap::{lowest_clear, test_bit};
use rendy_memory::block::{Allocation, Route};
use rendy_memory::dedicated::{DedicatedAllocator, Release};
use rendy_memory::dynamic::{DynamicAllocator, DynamicConfig};
use rendy_memory::error::{DeviceError, MappingError, MemoryError};
use rendy_memory::mapping::widen;
use rendy_memory::memory::{MapStep, Memory};
use rendy_memory::memory_type::{HeapsConfig, MemoryType};
use rendy_memory::properties::{
    MemoryProperties, DEVICE_LOCAL, HOST_CACHED, HOST_COHERENT, HOST_VISIBLE, LAZILY_ALLOCATED,
};
use rendy_memory::usage::MemoryUsage;
use rendy_memory::util::{aligned, aligned_down, is_power_of_two};
use rendy_memory::{Heaps, MemoryBlock};

fn props(bits: u32) -> MemoryProperties {
    MemoryProperties::from_bits(bits)
}

#[test]
fn aligned_rounds_up_to_a_multiple() {
    assert_eq!(aligned(0, 256), Some(0));
    assert_eq!(aligned(1, 256), Some(256));
    assert_eq!(aligned(256, 256), Some(256));
    assert_eq!(aligned(257, 256), Some(512));
    assert_eq!(aligned(10, 3), Some(12));
    assert_eq!(aligned(u64::MAX, 1), Some(u64::MAX));
    assert_eq!(aligned(u64::MAX, 2), None);
    assert_eq!(aligned(u64::MAX - 255, 256), Some(u64::MAX - 255));
    assert_eq!(aligned(u64::MAX - 254, 256), None);
    assert_eq!(aligned_down(1023, 256), 768);
    assert_eq!(aligned_down(1024, 256), 1024);
    assert_eq!(aligned_down(7, 8), 0);
}

#[test]
fn powers_of_two_are_told_apart() {
    for k in 0..64u32 {
        assert!(is_power_of_two(1u64 << k));
    }
    for v in [0u64, 3, 5, 6, 7, 12, 255, 257, u64::MAX, (1 << 63) + 1] {
        assert!(!is_power_of_two(v));
    }
}

#[test]
fn property_flags_are_read_bit_by_bit() {
    let p = props(DEVICE_LOCAL | HOST_CACHED);
    assert!(p.device_local());
    assert!(!p.host_visible());
    assert!(!p.host_coherent());
    assert!(p.host_cached());
    assert!(!p.lazily_allocated());
    assert!(p.subset(DEVICE_LOCAL | HOST_CACHED));
    assert!(!p.subset(DEVICE_LOCAL | HOST_VISIBLE));
    assert!(p.subset(0));
    assert_eq!(p.bits(), 9);
    assert!(props(LAZILY_ALLOCATED).lazily_allocated());
}

#[test]
fn fitness_follows_the_table() {
    // Data needs device-local memory and likes cached, then coherent.
    assert_eq!(MemoryUsage::Data.fitness(props(HOST_VISIBLE | HOST_COHERENT)), None);
    assert_eq!(MemoryUsage::Data.fitness(props(DEVICE_LOCAL)), Some(4));
    assert_eq!(MemoryUsage::Data.fitness(props(DEVICE_LOCAL | HOST_VISIBLE | HOST_COHERENT)), Some(5));
    assert_eq!(MemoryUsage::Data.fitness(props(DEVICE_LOCAL | HOST_CACHED)), Some(6));
    assert_eq!(MemoryUsage::Data.fitness(props(DEVICE_LOCAL | LAZILY_ALLOCATED)), Some(4));
    assert_eq!(MemoryUsage::Data.fitness(props(DEVICE_LOCAL | HOST_CACHED | HOST_COHERENT)), Some(7));
    // Dynamic needs host-visible memory that is not lazy.
    assert_eq!(MemoryUsage::Dynamic.fitness(props(DEVICE_LOCAL)), None);
    assert_eq!(MemoryUsage::Dynamic.fitness(props(HOST_VISIBLE | LAZILY_ALLOCATED)), None);
    assert_eq!(MemoryUsage::Dynamic.fitness(props(HOST_VISIBLE)), Some(0));
    assert_eq!(MemoryUsage::Dynamic.fitness(props(HOST_VISIBLE | HOST_CACHED)), Some(1));
    assert_eq!(MemoryUsage::Dynamic.fitness(props(HOST_VISIBLE | HOST_COHERENT)), Some(2));
    assert_eq!(MemoryUsage::Dynamic.fitness(props(HOST_VISIBLE | DEVICE_LOCAL)), Some(4));
    assert_eq!(
        MemoryUsage::Dynamic.fitness(props(HOST_VISIBLE | DEVICE_LOCAL | HOST_COHERENT | HOST_CACHED)),
        Some(7)
    );
    // Upload also refuses cached memory.
    assert_eq!(MemoryUsage::Upload.fitness(props(HOST_VISIBLE | HOST_CACHED)), None);
    assert_eq!(MemoryUsage::Upload.fitness(props(HOST_VISIBLE | LAZILY_ALLOCATED)), None);
    assert_eq!(MemoryUsage::Upload.fitness(props(HOST_COHERENT)), None);
    assert_eq!(MemoryUsage::Upload.fitness(props(HOST_VISIBLE)), Some(0));
    assert_eq!(MemoryUsage::Upload.fitness(props(HOST_VISIBLE | DEVICE_LOCAL)), Some(1));
    assert_eq!(MemoryUsage::Upload.fitness(props(HOST_VISIBLE | HOST_COHERENT)), Some(2));
    assert_eq!(MemoryUsage::Upload.fitness(props(HOST_VISIBLE | HOST_COHERENT | DEVICE_LOCAL)), Some(3));
    // Download likes cached best.
    assert_eq!(MemoryUsage::Download.fitness(props(DEVICE_LOCAL)), None);
    assert_eq!(MemoryUsage::Download.fitness(props(HOST_VISIBLE | LAZILY_ALLOCATED)), None);
    assert_eq!(MemoryUsage::Download.fitness(props(HOST_VISIBLE | DEVICE_LOCAL)), Some(1));
    assert_eq!(MemoryUsage::Download.fitness(props(HOST_VISIBLE | HOST_COHERENT)), Some(2));
    assert_eq!(MemoryUsage::Download.fitness(props(HOST_VISIBLE | HOST_CACHED)), Some(4));
    assert_eq!(
        MemoryUsage::Download.fitness(props(HOST_VISIBLE | HOST_CACHED | HOST_COHERENT | DEVICE_LOCAL)),
        Some(7)
    );
}

#[test]
fn device_errors_keep_their_names() {
    assert_eq!(
        MemoryError::from_device(DeviceError::OutOfDeviceMemory),
        MemoryError::OutOfDeviceMemory
    );
    assert_eq!(
        MemoryError::from_device(DeviceError::OutOfHostMemory),
        MemoryError::OutOfHostMemory
    );
    assert_eq!(MemoryError::from_device(DeviceError::TooManyObjects), MemoryError::TooManyObjects);
    assert_eq!(
        MemoryError::from_device(DeviceError::MappingFailed),
        MemoryError::MappingFailed(MappingError::Device(DeviceError::MappingFailed))
    );
}

#[test]
fn ranges_widen_to_atoms_inside_the_limit() {
    assert_eq!(widen(&(1000..1256), 256, 4096), 768..1280);
    assert_eq!(widen(&(0..1), 64, 4096), 0..64);
    assert_eq!(widen(&(256..512), 256, 4096), 256..512);
    // The end is cut off at the end of the allocation.
    assert_eq!(widen(&(4000..4090), 256, 4090), 3840..4090);
    assert_eq!(widen(&(u64::MAX - 3..u64::MAX - 1), 256, u64::MAX), u64::MAX - 255..u64::MAX);
    assert_eq!(widen(&(5..5), 1, 10), 5..5);
}

#[test]
fn bitmap_finds_the_lowest_free_slot() {
    assert_eq!(lowest_clear(0, 32), Some(0));
    assert_eq!(lowest_clear(0b0111, 32), Some(3));
    assert_eq!(lowest_clear(0b1011, 32), Some(2));
    assert_eq!(lowest_clear(0b1111, 4), None);
    assert_eq!(lowest_clear(u64::MAX, 64), None);
    assert_eq!(lowest_clear(u64::MAX >> 1, 64), Some(63));
    assert_eq!(lowest_clear(0, 0), None);
    assert!(test_bit(0b100, 2));
    assert!(!test_bit(0b100, 1));
    assert!(test_bit(1 << 63, 63));
}

#[test]
fn raw_memory_counts_its_windows() {
    let mut memory = Memory::new(7, 4096, props(HOST_VISIBLE));
    assert!(!memory.is_mapped());
    assert_eq!(memory.map(&(0..4097)).err(), Some(MappingError::OutsideBlock));
    assert_eq!(memory.map(&(10..5)).err(), Some(MappingError::OutsideBlock));
    match memory.map(&(16..32)).unwrap() {
        MapStep::MapMemory { raw, size } => {
            assert_eq!((raw, size), (7, 4096));
        }
        MapStep::Mapped(_) => panic!("not mapped yet"),
    }
    assert_eq!(memory.mapped, 0);
    let first = memory.attach(&(16..32), Ok(0x4000)).unwrap();
    assert_eq!((first.raw, first.base, first.limit, first.coherent), (7, 0x4000, 4096, false));
    assert_eq!(first.range, 16..32);
    assert_eq!(memory.mapped, 1);
    match memory.map(&(0..4096)).unwrap() {
        MapStep::Mapped(w) => {
            assert_eq!(w.base, 0x4000);
            assert_eq!(w.range, 0..4096);
        }
        MapStep::MapMemory { .. } => panic!("mapped already"),
    }
    assert_eq!(memory.mapped, 2);
    assert!(!memory.close());
    assert!(memory.is_mapped());
    assert!(memory.close());
    assert!(!memory.is_mapped());
    assert_eq!(memory.mapped, 0);

    let mut hidden = Memory::new(8, 64, props(DEVICE_LOCAL));
    assert_eq!(hidden.map(&(0..64)).err(), Some(MappingError::HostInvisible));
    // Memory that cannot be mapped says so for every range.
    assert_eq!(hidden.map(&(0..65)).err(), Some(MappingError::HostInvisible));
    assert_eq!(hidden.map(&(9..3)).err(), Some(MappingError::HostInvisible));

    let mut crowded = Memory::new(9, 64, props(HOST_VISIBLE | HOST_COHERENT));
    crowded.set_mapping(Some(1), u64::MAX);
    assert_eq!(
        crowded.map(&(0..64)).err(),
        Some(MappingError::Device(DeviceError::TooManyObjects))
    );
    let copy = crowded.snapshot();
    assert_eq!((copy.raw, copy.size, copy.host, copy.mapped), (9, 64, Some(1), u64::MAX));
}

#[test]
fn dedicated_allocator_rounds_host_visible_blocks() {
    let mut visible = DedicatedAllocator::new(1, props(HOST_VISIBLE), 256);
    assert_eq!(visible.allocation_size(1), Some(256));
    assert_eq!(visible.allocation_size(256), Some(256));
    assert_eq!(visible.allocation_size(257), Some(512));
    assert_eq!(visible.allocation_size(u64::MAX), None);
    let local = DedicatedAllocator::new(0, props(DEVICE_LOCAL), 256);
    assert_eq!(local.allocation_size(1), Some(1));
    assert_eq!(local.allocation_size(u64::MAX), Some(u64::MAX));

    let (block, allocated) = visible.allocate(42, 512);
    assert_eq!(allocated, 512);
    assert_eq!(visible.used, 512);
    assert_eq!(block.memory(), 42);
    assert_eq!(block.range(), 0..512);
    assert_eq!(block.properties().bits(), HOST_VISIBLE);
    let (release, freed) = visible.free(block);
    assert_eq!(release, Release { raw: 42, unmap: false });
    assert_eq!(freed, 512);
    assert_eq!(visible.used, 0);
}

#[test]
fn arena_bumps_and_aligns() {
    let config = ArenaConfig { chunk_size: 4096, max_allocation: 2048 };
    assert!(config.is_valid());
    assert!(ArenaConfig { chunk_size: 4096, max_allocation: 0 }.is_valid());
    assert!(ArenaConfig { chunk_size: 0, max_allocation: 0 }.is_valid());
    assert!(!ArenaConfig { chunk_size: 4096, max_allocation: 4097 }.is_valid());
    let p = props(HOST_VISIBLE);
    let mut arena = ArenaAllocator::new(1, p, config, 64);
    assert_eq!(ArenaAllocator::properties_required(), HOST_VISIBLE);
    assert_eq!(arena.max_allocation(), 2048);
    assert_eq!(arena.chunk_size(), 4096);
    assert!(arena.is_idle());
    assert!(arena.has_room_to_grow());
    // No chunk, no block.
    assert!(arena.allocate(100, 16).is_none());
    let first = arena.grow(Memory::new(5, 4096, p), 100);
    assert_eq!((first.raw, first.chunk), (5, 0));
    assert_eq!(first.range, 0..100);
    // The next block starts on the atom, the one after on its alignment.
    let second = arena.allocate(10, 16).unwrap();
    assert_eq!(second.range, 128..138);
    let third = arena.allocate(2048, 1024).unwrap();
    assert_eq!(third.range, 1024..3072);
    assert_eq!((third.raw, third.chunk), (5, 0));
    // What does not fit leaves the arena as it is.
    assert!(arena.allocate(1025, 16).is_none());
    let fourth = arena.allocate(1024, 16).unwrap();
    assert_eq!(fourth.range, 3072..4096);
    assert!(arena.allocate(1, 1).is_none());
    assert!(!arena.is_idle());
    let fifth = arena.grow(Memory::new(6, 4096, p), 2048);
    assert_eq!((fifth.raw, fifth.chunk), (6, 1));

    assert!(arena.free(second).is_empty());
    assert!(arena.free(fourth).is_empty());
    assert!(arena.free(first).is_empty());
    let gone = arena.free(third);
    assert_eq!(gone.len(), 1);
    assert_eq!(gone[0].raw, 5);
    assert!(!arena.is_idle());
    // Chunks keep their numbers when those before them go.
    let sixth = arena.allocate(2048, 16).unwrap();
    assert_eq!((sixth.raw, sixth.chunk), (6, 1));
    assert_eq!(sixth.range, 2048..4096);
    assert!(arena.free(fifth).is_empty());
    assert!(arena.free(sixth).is_empty());
    assert!(arena.is_idle());
    let kept = arena.dispose();
    assert_eq!(kept.len(), 1);
    assert_eq!(kept[0].raw, 6);
}

#[test]
fn dynamic_allocator_has_a_class_for_each_power_of_two() {
    let config = DynamicConfig { blocks_per_chunk: 4, min_block: 64, max_block: 1024 };
    assert!(config.is_valid());
    assert!(!DynamicConfig { blocks_per_chunk: 3, ..config }.is_valid());
    assert!(!DynamicConfig { blocks_per_chunk: 128, ..config }.is_valid());
    assert!(!DynamicConfig { min_block: 96, ..config }.is_valid());
    assert!(!DynamicConfig { max_block: 32, ..config }.is_valid());
    assert!(!DynamicConfig { max_block: 1 << 63, ..config }.is_valid());
    let p = props(DEVICE_LOCAL);
    let mut dynamic = DynamicAllocator::new(0, p, config, 256);
    assert_eq!(DynamicAllocator::properties_required(), 0);
    assert_eq!(dynamic.max_allocation(), 1024);
    assert_eq!(dynamic.classes.len(), 5);
    for (k, size) in [64u64, 128, 256, 512, 1024].iter().enumerate() {
        assert_eq!(dynamic.classes[k].block_size, *size);
        assert_eq!(dynamic.chunk_size(k), 4 * size);
    }
    assert_eq!(dynamic.class_for(1, 1), 0);
    assert_eq!(dynamic.class_for(64, 64), 0);
    assert_eq!(dynamic.class_for(65, 1), 1);
    assert_eq!(dynamic.class_for(1, 512), 3);
    assert_eq!(dynamic.class_for(1024, 1), 4);
    assert!(dynamic.can_serve(1024, 1024));
    assert!(!dynamic.can_serve(1025, 1));
    assert!(!dynamic.can_serve(1, 2048));
    // Device-local memory has no atom to honour; host-visible memory has.
    let visible = DynamicAllocator::new(0, props(HOST_VISIBLE), config, 256);
    assert_eq!(visible.class_for(1, 1), 2);
    let coarse = DynamicAllocator::new(0, props(HOST_VISIBLE), config, 2048);
    assert!(!coarse.can_serve(1, 1));

    assert!(dynamic.is_idle());
    assert!(dynamic.allocate(100, 1).is_none());
    let a = dynamic.grow(1, Memory::new(11, 512, p));
    assert_eq!((a.raw, a.class, a.chunk, a.slot), (11, 1, 0, 0));
    assert_eq!(a.range, 0..128);
    let b = dynamic.allocate(100, 1).unwrap();
    assert_eq!((b.raw, b.class, b.chunk, b.slot), (11, 1, 0, 1));
    assert_eq!(b.range, 128..256);
    let c = dynamic.allocate(128, 128).unwrap();
    let d = dynamic.allocate(65, 2).unwrap();
    assert_eq!((c.slot, d.slot), (2, 3));
    // The chunk is full; another class is untouched.
    assert!(dynamic.allocate(100, 1).is_none());
    assert!(dynamic.allocate(64, 1).is_none());
    let e = dynamic.grow(1, Memory::new(12, 512, p));
    assert_eq!((e.raw, e.chunk, e.slot), (12, 1, 0));
    assert!(dynamic.free(b).is_none());
    // The first chunk with a free slot serves, at its lowest free slot.
    let f = dynamic.allocate(100, 1).unwrap();
    assert_eq!((f.raw, f.chunk, f.slot), (11, 0, 1));
    let gone = dynamic.free(e).unwrap();
    assert_eq!(gone.raw, 12);
    assert!(dynamic.free(a).is_none());
    assert!(dynamic.free(c).is_none());
    assert!(dynamic.free(d).is_none());
    assert!(!dynamic.is_idle());
    let last = dynamic.free(f).unwrap();
    assert_eq!(last.raw, 11);
    assert!(dynamic.is_idle());
    // A vacant number is taken again.
    let g = dynamic.grow(1, Memory::new(13, 512, p));
    assert_eq!((g.raw, g.chunk), (13, 0));
}

#[test]
fn memory_type_routes_by_usage_and_size() {
    let config = HeapsConfig {
        arena: Some(ArenaConfig { chunk_size: 4096, max_allocation: 1024 }),
        dynamic: Some(DynamicConfig { blocks_per_chunk: 4, min_block: 64, max_block: 1024 }),
    };
    assert!(config.is_valid());
    let mut t = MemoryType::new(3, 1, props(HOST_VISIBLE | HOST_COHERENT), config, 64);
    assert!(t.is_idle());
    let route = |t: &mut MemoryType, usage, size, available| match t.allocate(usage, size, 16, available) {
        Ok(Allocation::NeedsMemory(r)) => Ok((r.route, r.bytes)),
        Ok(Allocation::Ready(_)) => panic!("nothing is resident"),
        Err(e) => Err(e),
    };
    assert_eq!(route(&mut t, MemoryUsage::Upload, 1024, u64::MAX), Ok((Route::Arena, 4096)));
    assert_eq!(route(&mut t, MemoryUsage::Download, 1, u64::MAX), Ok((Route::Arena, 4096)));
    assert_eq!(route(&mut t, MemoryUsage::Upload, 1025, u64::MAX), Ok((Route::Dedicated, 1088)));
    assert_eq!(route(&mut t, MemoryUsage::Dynamic, 1024, u64::MAX), Ok((Route::Dynamic, 4096)));
    assert_eq!(route(&mut t, MemoryUsage::Data, 100, u64::MAX), Ok((Route::Dynamic, 512)));
    assert_eq!(route(&mut t, MemoryUsage::Data, 1025, u64::MAX), Ok((Route::Dedicated, 1088)));
    // The heap has to have what the device is asked for.
    assert_eq!(route(&mut t, MemoryUsage::Upload, 16, 4095), Err(MemoryError::HeapsExhausted));
    assert_eq!(route(&mut t, MemoryUsage::Upload, 16, 4096), Ok((Route::Arena, 4096)));
    assert_eq!(route(&mut t, MemoryUsage::Data, 100, 511), Err(MemoryError::HeapsExhausted));
    assert_eq!(route(&mut t, MemoryUsage::Upload, 2000, 2047), Err(MemoryError::HeapsExhausted));
    assert_eq!(
        route(&mut t, MemoryUsage::Data, u64::MAX, u64::MAX),
        Err(MemoryError::HeapsExhausted)
    );
    assert!(t.is_idle());
    assert_eq!(t.dedicated.used, 0);
}

#[test]
fn root_exports_name_the_main_types() {
    let heaps: Heaps =
        Heaps::new(vec![(props(DEVICE_LOCAL), 0, HeapsConfig { arena: None, dynamic: None })], vec![64], 1);
    let mut heaps = heaps;
    let step = heaps.allocate_from(0, MemoryUsage::Data, 64, 1).unwrap();
    let block: MemoryBlock = match step {
        rendy_memory::block::Allocation::NeedsMemory(r) => heaps.complete(r, Ok(1)).unwrap(),
        rendy_memory::block::Allocation::Ready(b) => b,
    };
    assert_eq!(block.memory_type(), 0);
    assert_eq!(heaps.used(0), 64);
    let released = heaps.free(block);
    assert_eq!(released, vec![Release { raw: 1, unmap: false }]);
    assert_eq!(heaps.used(0), 0);
}

#[test]
fn memory_type_counts_no_more_than_fits() {
    let bare = HeapsConfig { arena: None, dynamic: None };
    let mut t = MemoryType::new(0, 0, props(DEVICE_LOCAL), bare, 256);
    let huge = u64::MAX - 100;
    let request = match t.allocate(MemoryUsage::Data, huge, 1, u64::MAX).unwrap() {
        Allocation::NeedsMemory(r) => r,
        Allocation::Ready(_) => panic!("nothing is resident"),
    };
    assert_eq!((request.route, request.bytes), (Route::Dedicated, huge));
    assert!(t.accepts(&request));
    let (block, allocated) = t.complete(&request, 77);
    assert_eq!(allocated, huge);
    assert_eq!(t.dedicated.used, huge);
    assert!(t.is_plausible(&block));
    // 100 bytes more can be counted, 101 cannot, whatever the heap has.
    assert!(matches!(
        t.allocate(MemoryUsage::Data, 100, 1, u64::MAX),
        Ok(Allocation::NeedsMemory(_))
    ));
    assert!(matches!(
        t.allocate(MemoryUsage::Data, 101, 1, u64::MAX),
        Err(MemoryError::HeapsExhausted)
    ));
    let mut late = request;
    late.size = 101;
    late.bytes = 101;
    assert!(!t.accepts(&late));
    let (released, freed) = t.free(block);
    assert_eq!(released, vec![Release { raw: 77, unmap: false }]);
    assert_eq!(freed, huge);
    assert!(t.is_idle());
}

#[test]
fn memory_records_tell_their_state() {
    let mut memory = Memory::new(1, 64, props(HOST_VISIBLE));
    assert!(memory.is_well_formed());
    memory.set_mapping(Some(8), 0);
    assert!(!memory.is_well_formed());
    memory.set_mapping(None, 1);
    assert!(!memory.is_well_formed());
    memory.set_mapping(Some(8), 1);
    assert!(memory.is_well_formed());
    let mut hidden = Memory::new(1, 64, props(DEVICE_LOCAL));
    hidden.set_mapping(Some(8), 1);
    assert!(!hidden.is_well_formed());
}
