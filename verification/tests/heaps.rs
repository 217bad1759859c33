use rendy_memory::arena::ArenaConfig;
use rendy_memory::block::{Allocation, BlockFlavor, MemoryBlock, Route};
use rendy_memory::dedicated::Release;
use rendy_memory::dynamic::DynamicConfig;
use rendy_memory::error::{DeviceError, MappingError, MemoryError};
use rendy_memory::heaps::Heaps;
use rendy_memory::memory::MapStep;
use rendy_memory::memory_type::HeapsConfig;
use rendy_memory::properties::{
    MemoryProperties, DEVICE_LOCAL, HOST_CACHED, HOST_COHERENT, HOST_VISIBLE,
};
use rendy_memory::usage::MemoryUsage;

const KIB: u64 = 1024;
const MIB: u64 = 1024 * 1024;
const ATOM: u64 = 256;

/// A device that hands out handles in order and remembers what it was
/// asked.
struct FakeDevice {
    next: u64,
    live: Vec<(u64, u64, u32)>,
    allocations: usize,
    unmapped: Vec<u64>,
    refuse: Option<DeviceError>,
}

impl FakeDevice {
    fn new() -> Self {
        FakeDevice { next: 1, live: Vec::new(), allocations: 0, unmapped: Vec::new(), refuse: None }
    }

    fn allocate_memory(&mut self, size: u64, memory_type: u32) -> Result<u64, DeviceError> {
        if let Some(e) = self.refuse {
            return Err(e);
        }
        let raw = self.next;
        self.next += 1;
        self.allocations += 1;
        self.live.push((raw, size, memory_type));
        Ok(raw)
    }

    fn release(&mut self, released: Vec<Release>) {
        for r in released {
            if r.unmap {
                self.unmapped.push(r.raw);
            }
            let at = self.live.iter().position(|e| e.0 == r.raw).expect("freed what was not live");
            self.live.remove(at);
        }
    }

    fn size_of(&self, raw: u64) -> u64 {
        self.live.iter().find(|e| e.0 == raw).expect("not live").1
    }
}

fn config() -> HeapsConfig {
    HeapsConfig {
        arena: Some(ArenaConfig { chunk_size: 4 * MIB, max_allocation: 2 * MIB }),
        dynamic: Some(DynamicConfig { blocks_per_chunk: 32, min_block: 256, max_block: MIB }),
    }
}

/// 64 MiB device-local heap 0 and 32 MiB host-visible, coherent heap 1.
fn two_heaps(config: HeapsConfig) -> Heaps {
    let types = vec![
        (MemoryProperties::from_bits(DEVICE_LOCAL), 0u32, config),
        (MemoryProperties::from_bits(HOST_VISIBLE | HOST_COHERENT), 1u32, config),
    ];
    Heaps::new(types, vec![64 * MIB, 32 * MIB], ATOM)
}

fn finish(
    heaps: &mut Heaps,
    device: &mut FakeDevice,
    step: Result<Allocation, MemoryError>,
) -> Result<MemoryBlock, MemoryError> {
    match step? {
        Allocation::Ready(block) => Ok(block),
        Allocation::NeedsMemory(request) => {
            assert!(heaps.accepts(&request));
            let outcome = device.allocate_memory(request.bytes, request.memory_index);
            heaps.complete(request, outcome)
        }
    }
}

fn allocate(
    heaps: &mut Heaps,
    device: &mut FakeDevice,
    mask: u32,
    usage: MemoryUsage,
    size: u64,
    align: u64,
) -> Result<MemoryBlock, MemoryError> {
    let step = heaps.allocate(mask, usage, size, align);
    finish(heaps, device, step)
}

fn allocate_from(
    heaps: &mut Heaps,
    device: &mut FakeDevice,
    index: u32,
    usage: MemoryUsage,
    size: u64,
    align: u64,
) -> Result<MemoryBlock, MemoryError> {
    let step = heaps.allocate_from(index, usage, size, align);
    finish(heaps, device, step)
}

fn free(heaps: &mut Heaps, device: &mut FakeDevice, block: MemoryBlock) {
    let released = heaps.free(block);
    device.release(released);
}

fn error_of(r: Result<MemoryBlock, MemoryError>) -> MemoryError {
    match r {
        Ok(_) => panic!("a block came where an error was due"),
        Err(e) => e,
    }
}

fn is_dynamic(block: &MemoryBlock) -> bool {
    matches!(block.block, BlockFlavor::Dynamic(_))
}

fn is_arena(block: &MemoryBlock) -> bool {
    matches!(block.block, BlockFlavor::Arena(_))
}

fn is_dedicated(block: &MemoryBlock) -> bool {
    matches!(block.block, BlockFlavor::Dedicated(_))
}

#[test]
fn new_heaps_are_empty() {
    let heaps = two_heaps(config());
    assert_eq!(heaps.memory_types(), 2);
    assert_eq!(heaps.heap_count(), 2);
    assert_eq!(heaps.used(0), 0);
    assert_eq!(heaps.used(1), 0);
    assert_eq!(heaps.size(0), 64 * MIB);
    assert_eq!(heaps.size(1), 32 * MIB);
    assert_eq!(heaps.heap_of(1), 1);
    assert_eq!(heaps.properties(1).bits(), HOST_VISIBLE | HOST_COHERENT);
    assert!(heaps.is_idle());
}

#[test]
fn sub_allocators_follow_properties_and_config() {
    let heaps = two_heaps(config());
    // The arena needs host-visible memory; the dynamic allocator needs nothing.
    assert!(heaps.types[0].arena.is_none());
    assert!(heaps.types[0].dynamic.is_some());
    assert!(heaps.types[1].arena.is_some());
    assert!(heaps.types[1].dynamic.is_some());
    let bare = two_heaps(HeapsConfig { arena: None, dynamic: None });
    assert!(bare.types[1].arena.is_none());
    assert!(bare.types[1].dynamic.is_none());
}

#[test]
fn data_request_takes_a_dynamic_chunk_once() {
    let mut heaps = two_heaps(config());
    let mut device = FakeDevice::new();
    let first = allocate(&mut heaps, &mut device, 0b11, MemoryUsage::Data, 4 * KIB, 256).unwrap();
    assert!(is_dynamic(&first));
    assert_eq!(first.memory_type(), 0);
    assert_eq!(heaps.used(0), 128 * KIB);
    assert_eq!(heaps.used(1), 0);
    assert_eq!(device.allocations, 1);
    assert_eq!(device.live[0], (first.memory(), 128 * KIB, 0));
    assert_eq!(first.range(), 0..4 * KIB);

    let second = allocate(&mut heaps, &mut device, 0b11, MemoryUsage::Data, 4 * KIB, 256).unwrap();
    assert!(is_dynamic(&second));
    assert_eq!(second.memory(), first.memory());
    assert_eq!(second.range(), 4 * KIB..8 * KIB);
    assert_eq!(heaps.used(0), 128 * KIB);
    assert_eq!(device.allocations, 1);
}

#[test]
fn upload_request_reuses_the_resident_arena_chunk() {
    let mut heaps = two_heaps(config());
    let mut device = FakeDevice::new();
    let block = allocate(&mut heaps, &mut device, 0b10, MemoryUsage::Upload, MIB, 16).unwrap();
    assert!(is_arena(&block));
    assert_eq!(block.memory_type(), 1);
    assert_eq!(block.range(), 0..MIB);
    assert_eq!(heaps.used(1), 4 * MIB);
    assert_eq!(device.allocations, 1);
    let raw = block.memory();

    free(&mut heaps, &mut device, block);
    // The last chunk stays with the arena.
    assert_eq!(device.live.len(), 1);
    assert_eq!(heaps.used(1), 4 * MIB);
    assert!(heaps.is_idle());

    let again = heaps.allocate(0b10, MemoryUsage::Upload, MIB, 16).unwrap();
    match again {
        Allocation::Ready(b) => {
            assert!(is_arena(&b));
            assert_eq!(b.memory(), raw);
            // The cursor never goes back.
            assert_eq!(b.range(), MIB..2 * MIB);
        }
        Allocation::NeedsMemory(_) => panic!("the resident chunk was not used"),
    }
    assert_eq!(device.allocations, 1);
    assert_eq!(heaps.used(1), 4 * MIB);
}

#[test]
fn large_download_falls_through_to_dedicated() {
    let mut heaps = two_heaps(config());
    let mut device = FakeDevice::new();
    // Above the arena's limit of 2 MiB, so the dedicated allocator serves it.
    let block =
        allocate(&mut heaps, &mut device, 0b11, MemoryUsage::Download, 4 * MIB, 16).unwrap();
    assert!(is_dedicated(&block));
    assert_eq!(block.memory_type(), 1);
    assert_eq!(block.range(), 0..4 * MIB);
    assert_eq!(heaps.used(1), 4 * MIB);
    assert_eq!(device.live[0], (block.memory(), 4 * MIB, 1));

    // The memory type routes 64 MiB the same way, given a heap with room.
    let step = heaps.types[1].allocate(MemoryUsage::Download, 64 * MIB, 16, u64::MAX).unwrap();
    match step {
        Allocation::NeedsMemory(request) => {
            assert_eq!(request.route, Route::Dedicated);
            assert_eq!(request.bytes, 64 * MIB);
            assert_eq!(request.memory_index, 1);
        }
        Allocation::Ready(_) => panic!("no chunk can hold 64 MiB"),
    }
    // The heap of 32 MiB has no room for it.
    let refused = allocate(&mut heaps, &mut device, 0b11, MemoryUsage::Download, 64 * MIB, 16);
    assert_eq!(error_of(refused), MemoryError::HeapsExhausted);
    assert_eq!(heaps.used(1), 4 * MIB);
}

#[test]
fn upload_from_device_local_only_is_unsuitable() {
    let mut heaps = two_heaps(config());
    let mut device = FakeDevice::new();
    let r = allocate(&mut heaps, &mut device, 0b01, MemoryUsage::Upload, KIB, 16);
    assert_eq!(error_of(r), MemoryError::NoSuitableMemory(0b01, MemoryUsage::Upload));
    assert_eq!(heaps.used(0), 0);
    assert_eq!(device.allocations, 0);
    let none = allocate(&mut heaps, &mut device, 0, MemoryUsage::Data, KIB, 16);
    assert_eq!(error_of(none), MemoryError::NoSuitableMemory(0, MemoryUsage::Data));
}

#[test]
fn exhausted_heap_recovers_after_free() {
    let staging = HeapsConfig {
        arena: Some(ArenaConfig { chunk_size: 4 * MIB, max_allocation: MIB }),
        dynamic: None,
    };
    let mut heaps = two_heaps(staging);
    let mut device = FakeDevice::new();
    let mut blocks = Vec::new();
    for _ in 0..16 {
        let b =
            allocate_from(&mut heaps, &mut device, 1, MemoryUsage::Upload, 2 * MIB, 16).unwrap();
        assert!(is_dedicated(&b));
        assert!(heaps.used(1) <= heaps.size(1));
        blocks.push(b);
    }
    assert_eq!(heaps.used(1), 32 * MIB);
    assert_eq!(device.allocations, 16);
    let more = allocate_from(&mut heaps, &mut device, 1, MemoryUsage::Upload, 2 * MIB, 16);
    assert_eq!(error_of(more), MemoryError::HeapsExhausted);
    let by_mask = allocate(&mut heaps, &mut device, 0b10, MemoryUsage::Upload, 2 * MIB, 16);
    assert_eq!(error_of(by_mask), MemoryError::HeapsExhausted);
    assert_eq!(heaps.used(1), 32 * MIB);
    assert_eq!(device.allocations, 16);

    let one = blocks.pop().unwrap();
    free(&mut heaps, &mut device, one);
    assert_eq!(heaps.used(1), 30 * MIB);
    let again = allocate_from(&mut heaps, &mut device, 1, MemoryUsage::Upload, 2 * MIB, 16);
    assert!(again.is_ok());
    assert_eq!(heaps.used(1), 32 * MIB);
}

#[test]
fn selection_needs_room_to_spare() {
    // By mask a heap serves only while more than size + align is left.
    let bare = HeapsConfig { arena: None, dynamic: None };
    let mut heaps = two_heaps(bare);
    let mut device = FakeDevice::new();
    for _ in 0..15 {
        allocate(&mut heaps, &mut device, 0b10, MemoryUsage::Upload, 2 * MIB, 16).unwrap();
    }
    assert_eq!(heaps.used(1), 30 * MIB);
    let r = allocate(&mut heaps, &mut device, 0b10, MemoryUsage::Upload, 2 * MIB, 16);
    assert_eq!(error_of(r), MemoryError::HeapsExhausted);
    let small = allocate(&mut heaps, &mut device, 0b10, MemoryUsage::Upload, MIB, 16);
    assert!(small.is_ok());
}

#[test]
fn fittest_type_wins_and_lowest_index_breaks_ties() {
    let bare = HeapsConfig { arena: None, dynamic: None };
    let types = vec![
        (MemoryProperties::from_bits(HOST_VISIBLE), 0u32, bare),
        (MemoryProperties::from_bits(HOST_VISIBLE | HOST_COHERENT), 0u32, bare),
        (MemoryProperties::from_bits(HOST_VISIBLE | HOST_COHERENT), 1u32, bare),
        (MemoryProperties::from_bits(HOST_VISIBLE | HOST_COHERENT | HOST_CACHED), 1u32, bare),
    ];
    let mut heaps = Heaps::new(types, vec![MIB, MIB], ATOM);
    let mut device = FakeDevice::new();
    // Upload: coherent beats plain, cached is unusable, types 1 and 2 tie.
    let up = allocate(&mut heaps, &mut device, 0b1111, MemoryUsage::Upload, KIB, 16).unwrap();
    assert_eq!(up.memory_type(), 1);
    // Without type 1 in the mask the tie goes to type 2.
    let up = allocate(&mut heaps, &mut device, 0b1101, MemoryUsage::Upload, KIB, 16).unwrap();
    assert_eq!(up.memory_type(), 2);
    // Download likes cached memory best.
    let down = allocate(&mut heaps, &mut device, 0b1111, MemoryUsage::Download, KIB, 16).unwrap();
    assert_eq!(down.memory_type(), 3);
    // A heap without room takes its types out of the running.
    let big = allocate(&mut heaps, &mut device, 0b0011, MemoryUsage::Upload, MIB - 4 * KIB, 16);
    assert!(big.is_ok());
    assert_eq!(heaps.used(0), MIB - 3 * KIB);
    let next = allocate(&mut heaps, &mut device, 0b0111, MemoryUsage::Upload, 4 * KIB, 16).unwrap();
    assert_eq!(next.memory_type(), 2);
}

#[test]
fn device_failure_is_passed_on_and_costs_nothing() {
    let mut heaps = two_heaps(config());
    let mut device = FakeDevice::new();
    let errors = [
        (DeviceError::OutOfDeviceMemory, MemoryError::OutOfDeviceMemory),
        (DeviceError::OutOfHostMemory, MemoryError::OutOfHostMemory),
        (DeviceError::TooManyObjects, MemoryError::TooManyObjects),
        (
            DeviceError::MappingFailed,
            MemoryError::MappingFailed(MappingError::Device(DeviceError::MappingFailed)),
        ),
    ];
    for (from, to) in errors {
        device.refuse = Some(from);
        let r = allocate(&mut heaps, &mut device, 0b11, MemoryUsage::Data, 4 * KIB, 256);
        assert_eq!(error_of(r), to);
        assert_eq!(heaps.used(0), 0);
        assert!(heaps.is_idle());
    }
    device.refuse = None;
    assert!(allocate(&mut heaps, &mut device, 0b11, MemoryUsage::Data, 4 * KIB, 256).is_ok());
    assert_eq!(heaps.used(0), 128 * KIB);
}

#[test]
fn everything_freed_leaves_only_arena_chunks() {
    let mut heaps = two_heaps(config());
    let mut device = FakeDevice::new();
    let mut blocks = Vec::new();
    let requests = [
        (0b11, MemoryUsage::Data, 4 * KIB, 256),
        (0b11, MemoryUsage::Data, 300, 16),
        (0b11, MemoryUsage::Data, 2 * MIB, 16),
        (0b10, MemoryUsage::Dynamic, 64 * KIB, 64),
        (0b10, MemoryUsage::Upload, MIB, 16),
        (0b10, MemoryUsage::Upload, 2 * MIB, 512),
        (0b10, MemoryUsage::Upload, 2 * MIB, 16),
        (0b10, MemoryUsage::Download, 3 * MIB, 16),
        (0b11, MemoryUsage::Data, 4 * KIB, 256),
    ];
    for (mask, usage, size, align) in requests {
        let b = allocate(&mut heaps, &mut device, mask, usage, size, align).unwrap();
        // The mask allows the type, and the block is as asked.
        assert_ne!((1u32 << b.memory_type()) & mask, 0);
        assert!(usage.fitness(b.properties()).is_some());
        assert_eq!(b.range().start % align, 0);
        if b.properties().host_visible() {
            assert_eq!(b.range().start % ATOM, 0);
        }
        assert!(b.range().end - b.range().start >= size);
        assert!(b.range().end <= device.size_of(b.memory()));
        assert!(heaps.used(0) <= heaps.size(0));
        assert!(heaps.used(1) <= heaps.size(1));
        // No block overlaps one that is out.
        for other in &blocks {
            let other: &MemoryBlock = other;
            let apart = other.memory() != b.memory()
                || other.range().end <= b.range().start
                || b.range().end <= other.range().start;
            assert!(apart);
        }
        blocks.push(b);
    }
    assert!(!heaps.is_idle());
    // What the heaps count is what the device has out.
    let out0: u64 = device.live.iter().filter(|e| e.2 == 0).map(|e| e.1).sum();
    let out1: u64 = device.live.iter().filter(|e| e.2 == 1).map(|e| e.1).sum();
    assert_eq!(heaps.used(0), out0);
    assert_eq!(heaps.used(1), out1);

    // Free in an order of its own.
    for at in [4usize, 0, 5, 2, 1, 0, 2, 0, 0] {
        let b = blocks.remove(at);
        free(&mut heaps, &mut device, b);
        let out0: u64 = device.live.iter().filter(|e| e.2 == 0).map(|e| e.1).sum();
        let out1: u64 = device.live.iter().filter(|e| e.2 == 1).map(|e| e.1).sum();
        assert_eq!(heaps.used(0), out0);
        assert_eq!(heaps.used(1), out1);
    }
    assert!(heaps.is_idle());
    assert_eq!(heaps.used(0), 0);
    // The arena of type 1 keeps its last chunk.
    assert_eq!(heaps.used(1), 4 * MIB);
    assert_eq!(device.live.len(), 1);

    let released = heaps.dispose();
    assert_eq!(released.len(), 1);
    device.release(released);
    assert!(device.live.is_empty());
}

#[test]
fn arena_releases_chunks_from_the_head() {
    let mut heaps = two_heaps(config());
    let mut device = FakeDevice::new();
    let a = allocate(&mut heaps, &mut device, 0b10, MemoryUsage::Upload, 2 * MIB, 16).unwrap();
    let b = allocate(&mut heaps, &mut device, 0b10, MemoryUsage::Upload, 2 * MIB, 16).unwrap();
    // The first chunk is full; the third block opens a second chunk.
    let c = allocate(&mut heaps, &mut device, 0b10, MemoryUsage::Upload, 2 * MIB, 16).unwrap();
    let d = allocate(&mut heaps, &mut device, 0b10, MemoryUsage::Upload, 2 * MIB, 16).unwrap();
    let e = allocate(&mut heaps, &mut device, 0b10, MemoryUsage::Upload, MIB, 16).unwrap();
    assert_eq!(a.memory(), b.memory());
    assert_eq!(c.memory(), d.memory());
    assert_ne!(a.memory(), c.memory());
    assert_ne!(c.memory(), e.memory());
    assert_eq!(b.range(), 2 * MIB..4 * MIB);
    assert_eq!(heaps.used(1), 12 * MIB);
    let first = a.memory();
    let second = c.memory();

    // The middle chunk drains first and has to wait for the head.
    free(&mut heaps, &mut device, c);
    free(&mut heaps, &mut device, d);
    assert_eq!(heaps.used(1), 12 * MIB);
    assert_eq!(device.live.len(), 3);
    free(&mut heaps, &mut device, a);
    assert_eq!(heaps.used(1), 12 * MIB);
    // With the head drained, it and the chunk behind it go together.
    let released = heaps.free(b);
    assert_eq!(
        released,
        vec![Release { raw: first, unmap: false }, Release { raw: second, unmap: false }]
    );
    device.release(released);
    assert_eq!(heaps.used(1), 4 * MIB);
    // The last chunk stays even when it drains.
    free(&mut heaps, &mut device, e);
    assert_eq!(heaps.used(1), 4 * MIB);
    assert_eq!(device.live.len(), 1);
}

#[test]
fn dynamic_chunk_goes_when_its_last_block_comes_back() {
    let mut heaps = two_heaps(config());
    let mut device = FakeDevice::new();
    let mut blocks = Vec::new();
    for k in 0..33u64 {
        let b = allocate(&mut heaps, &mut device, 0b01, MemoryUsage::Data, 1000, 16).unwrap();
        assert!(is_dynamic(&b));
        // Blocks of 1000 bytes come from the class of 1024.
        assert_eq!(b.range().end - b.range().start, 1024);
        assert_eq!(b.range().start, (k % 32) * 1024);
        blocks.push(b);
    }
    // 32 slots fill one chunk; the 33rd block opened a second.
    assert_eq!(device.allocations, 2);
    assert_eq!(heaps.used(0), 2 * 32 * KIB);
    let last = blocks.pop().unwrap();
    let raw = last.memory();
    let released = heaps.free(last);
    assert_eq!(released, vec![Release { raw, unmap: false }]);
    device.release(released);
    assert_eq!(heaps.used(0), 32 * KIB);
    // A freed slot is the next to go out: the lowest free one.
    let third = blocks.remove(3);
    let seventh = blocks.remove(6);
    assert_eq!(third.range().start, 3 * 1024);
    assert_eq!(seventh.range().start, 7 * 1024);
    assert!(heaps.free(seventh).is_empty());
    assert!(heaps.free(third).is_empty());
    let b = allocate(&mut heaps, &mut device, 0b01, MemoryUsage::Data, 1024, 1024).unwrap();
    assert_eq!(b.range(), 3 * 1024..4 * 1024);
    assert_eq!(device.allocations, 2);
    assert_eq!(heaps.used(0), 32 * KIB);
}

#[test]
fn alignment_picks_the_size_class() {
    let mut heaps = two_heaps(config());
    let mut device = FakeDevice::new();
    // A small block on a large alignment takes a block of that size.
    let b = allocate(&mut heaps, &mut device, 0b01, MemoryUsage::Data, 16, 64 * KIB).unwrap();
    assert!(is_dynamic(&b));
    assert_eq!(b.range(), 0..64 * KIB);
    let c = allocate(&mut heaps, &mut device, 0b01, MemoryUsage::Data, 16, 64 * KIB).unwrap();
    assert_eq!(c.range(), 64 * KIB..128 * KIB);
    // Below the smallest class the smallest class serves.
    let d = allocate(&mut heaps, &mut device, 0b01, MemoryUsage::Data, 1, 1).unwrap();
    assert_eq!(d.range(), 0..256);
    // Above the largest class, by size or by alignment, the dedicated allocator serves.
    let e = allocate(&mut heaps, &mut device, 0b01, MemoryUsage::Data, MIB + 1, 1).unwrap();
    assert!(is_dedicated(&e));
    assert_eq!(e.range(), 0..MIB + 1);
    let f = allocate(&mut heaps, &mut device, 0b01, MemoryUsage::Data, 16, 2 * MIB).unwrap();
    assert!(is_dedicated(&f));
    // On host-visible memory the atom counts as alignment, and a dedicated
    // block is rounded up to it.
    let g = allocate(&mut heaps, &mut device, 0b10, MemoryUsage::Dynamic, 2 * MIB + 1, 1).unwrap();
    assert!(is_dedicated(&g));
    assert_eq!(g.range(), 0..2 * MIB + ATOM);
    assert_eq!(heaps.used(1), 2 * MIB + ATOM);
}

#[test]
fn stale_or_foreign_requests_are_not_accepted() {
    let mut heaps = two_heaps(config());
    let step = heaps.allocate(0b11, MemoryUsage::Data, 4 * KIB, 256).unwrap();
    let request = match step {
        Allocation::NeedsMemory(r) => r,
        Allocation::Ready(_) => panic!("there is no chunk yet"),
    };
    assert_eq!(request.route, Route::Dynamic);
    assert_eq!(request.bytes, 128 * KIB);
    assert_eq!(request.memory_index, 0);
    assert!(heaps.accepts(&request));
    let mut wrong = request;
    wrong.bytes = 4 * KIB;
    assert!(!heaps.accepts(&wrong));
    let mut wrong = request;
    wrong.memory_index = 7;
    assert!(!heaps.accepts(&wrong));
    let mut wrong = request;
    wrong.route = Route::Arena;
    assert!(!heaps.accepts(&wrong));
    let mut wrong = request;
    wrong.class = 0;
    assert!(!heaps.accepts(&wrong));
    let mut wrong = request;
    wrong.align = 3;
    assert!(!heaps.accepts(&wrong));
    let mut wrong = request;
    wrong.size = 0;
    assert!(!heaps.accepts(&wrong));
    // Nothing was taken by asking.
    assert_eq!(heaps.used(0), 0);
    assert!(heaps.is_idle());
}

#[test]
fn window_on_non_coherent_memory_is_flushed_by_the_atom() {
    let dynamic = HeapsConfig {
        arena: None,
        dynamic: Some(DynamicConfig { blocks_per_chunk: 32, min_block: 256, max_block: MIB }),
    };
    let types = vec![(MemoryProperties::from_bits(HOST_VISIBLE), 0u32, dynamic)];
    let mut heaps = Heaps::new(types, vec![32 * MIB], ATOM);
    let mut device = FakeDevice::new();
    let _first = allocate(&mut heaps, &mut device, 0b1, MemoryUsage::Dynamic, 4 * KIB, 16).unwrap();
    let mut block =
        allocate(&mut heaps, &mut device, 0b1, MemoryUsage::Dynamic, 4 * KIB, 16).unwrap();
    assert!(is_dynamic(&block));
    assert_eq!(block.range(), 4 * KIB..8 * KIB);
    let raw = block.memory();

    let wanted = 4 * KIB + 1000..4 * KIB + 1256;
    let step = heaps.map(&mut block, &wanted).unwrap();
    match step {
        MapStep::MapMemory { raw: asked, size } => {
            assert_eq!(asked, raw);
            assert_eq!(size, 128 * KIB);
        }
        MapStep::Mapped(_) => panic!("nothing is mapped yet"),
    }
    let window = heaps.attach(&mut block, &wanted, Ok(0x10_0000)).unwrap();
    assert_eq!(window.raw, raw);
    assert_eq!(window.base, 0x10_0000);
    assert_eq!(window.range, wanted);
    assert!(!window.coherent);
    assert!(window.covers(&wanted));

    // The write is flushed over whole atoms, inside the raw allocation.
    let flushed = window.flush(&wanted, ATOM).unwrap();
    assert_eq!(flushed, 4864..5376);
    assert_eq!(flushed.start % ATOM, 0);
    assert_eq!(flushed.end % ATOM, 0);
    assert!(flushed.start <= wanted.start && wanted.end <= flushed.end);
    assert!(flushed.end <= device.size_of(raw));
    assert_eq!(window.invalidate(&wanted, ATOM), Some(4864..5376));

    // A second window shares the mapping.
    let other = 4 * KIB..4 * KIB + 16;
    match heaps.map(&mut block, &other).unwrap() {
        MapStep::Mapped(w) => {
            assert_eq!(w.base, 0x10_0000);
            assert_eq!(w.range, other);
        }
        MapStep::MapMemory { .. } => panic!("the allocation is mapped"),
    }
    assert_eq!(heaps.memory(&block).mapped, 2);
    assert_eq!(heaps.unmap(&mut block), None);
    assert_eq!(heaps.unmap(&mut block), Some(raw));
    assert_eq!(heaps.memory(&block).mapped, 0);
    assert!(!heaps.memory(&block).is_mapped());
}

#[test]
fn mapping_refuses_what_it_must() {
    let mut heaps = two_heaps(config());
    let mut device = FakeDevice::new();
    let mut local = allocate(&mut heaps, &mut device, 0b01, MemoryUsage::Data, 4 * KIB, 16).unwrap();
    let mut second =
        allocate(&mut heaps, &mut device, 0b01, MemoryUsage::Data, 4 * KIB, 16).unwrap();
    assert_eq!(second.range(), 4 * KIB..8 * KIB);
    // Device-local memory cannot be mapped, inside the block or outside.
    assert_eq!(heaps.map(&mut local, &(0..16)).err(), Some(MappingError::HostInvisible));
    assert_eq!(heaps.map(&mut local, &(0..8 * KIB)).err(), Some(MappingError::HostInvisible));
    assert_eq!(heaps.map(&mut local, &(16..0)).err(), Some(MappingError::HostInvisible));
    assert_eq!(heaps.map(&mut second, &(4 * KIB..5 * KIB)).err(), Some(MappingError::HostInvisible));
    assert_eq!(local.range(), 0..4 * KIB);
    assert_eq!(heaps.memory(&local).mapped, 0);

    let mut first_visible =
        allocate(&mut heaps, &mut device, 0b10, MemoryUsage::Dynamic, 4 * KIB, 16).unwrap();
    let mut visible =
        allocate(&mut heaps, &mut device, 0b10, MemoryUsage::Dynamic, 4 * KIB, 16).unwrap();
    assert_eq!(visible.range(), 4 * KIB..8 * KIB);
    // Outside the block, even if inside its raw allocation.
    assert_eq!(heaps.map(&mut visible, &(0..16)).err(), Some(MappingError::OutsideBlock));
    assert_eq!(
        heaps.map(&mut visible, &(4 * KIB..8 * KIB + 1)).err(),
        Some(MappingError::OutsideBlock)
    );
    assert_eq!(
        heaps.map(&mut visible, &(5 * KIB..4 * KIB)).err(),
        Some(MappingError::OutsideBlock)
    );
    assert_eq!(
        heaps.map(&mut first_visible, &(4 * KIB..5 * KIB)).err(),
        Some(MappingError::OutsideBlock)
    );
    assert_eq!(heaps.memory(&visible).mapped, 0);

    let mut staged =
        allocate(&mut heaps, &mut device, 0b10, MemoryUsage::Upload, KIB, 16).unwrap();
    let all = 0..KIB;
    assert!(matches!(heaps.map(&mut staged, &all), Ok(MapStep::MapMemory { .. })));
    // The device refuses: nothing is mapped.
    let refused = heaps.attach(&mut staged, &all, Err(DeviceError::MappingFailed));
    assert_eq!(refused.err(), Some(MappingError::Device(DeviceError::MappingFailed)));
    assert!(!heaps.memory(&staged).is_mapped());
    // Coherent memory needs no flush.
    let window = heaps.attach(&mut staged, &all, Ok(4096)).unwrap();
    assert!(window.coherent);
    assert_eq!(window.flush(&all, ATOM), None);
    assert_eq!(window.invalidate(&all, ATOM), None);
    // A mapped chunk is unmapped before it is freed.
    let raw = staged.memory();
    let filler = allocate(&mut heaps, &mut device, 0b10, MemoryUsage::Upload, 2 * MIB, 16).unwrap();
    let next = allocate(&mut heaps, &mut device, 0b10, MemoryUsage::Upload, 2 * MIB, 16).unwrap();
    assert_ne!(next.memory(), raw);
    assert!(heaps.free(filler).is_empty());
    let released = heaps.free(staged);
    assert_eq!(released, vec![Release { raw, unmap: true }]);
}

#[test]
fn mapped_dedicated_block_is_unmapped_on_free() {
    let bare = HeapsConfig { arena: None, dynamic: None };
    let mut heaps = two_heaps(bare);
    let mut device = FakeDevice::new();
    let mut block =
        allocate(&mut heaps, &mut device, 0b10, MemoryUsage::Upload, 1000, 16).unwrap();
    assert!(is_dedicated(&block));
    // Rounded up to the atom.
    assert_eq!(block.range(), 0..1024);
    assert_eq!(heaps.used(1), 1024);
    let part = 100..200;
    assert!(matches!(heaps.map(&mut block, &part), Ok(MapStep::MapMemory { raw: _, size: 1024 })));
    let window = heaps.attach(&mut block, &part, Ok(64)).unwrap();
    assert_eq!(window.limit, 1024);
    let raw = block.memory();
    let released = heaps.free(block);
    assert_eq!(released, vec![Release { raw, unmap: true }]);
    device.release(released);
    assert_eq!(device.unmapped, vec![raw]);
    assert_eq!(heaps.used(1), 0);
    assert!(heaps.is_idle());
    assert!(heaps.dispose().is_empty());
}

#[test]
fn arena_with_a_limit_of_zero_serves_nothing() {
    let idle_arena = HeapsConfig {
        arena: Some(ArenaConfig { chunk_size: 4 * MIB, max_allocation: 0 }),
        dynamic: None,
    };
    assert!(idle_arena.is_valid());
    let mut heaps = two_heaps(idle_arena);
    assert!(heaps.types[1].arena.is_some());
    let mut device = FakeDevice::new();
    let up = allocate(&mut heaps, &mut device, 0b10, MemoryUsage::Upload, 1, 1).unwrap();
    assert!(is_dedicated(&up));
    assert_eq!(up.range(), 0..ATOM);
    let down = allocate(&mut heaps, &mut device, 0b10, MemoryUsage::Download, KIB, 16).unwrap();
    assert!(is_dedicated(&down));
    assert_eq!(heaps.used(1), ATOM + KIB);
    free(&mut heaps, &mut device, up);
    free(&mut heaps, &mut device, down);
    assert_eq!(heaps.used(1), 0);
    assert!(heaps.dispose().is_empty());
}

#[test]
fn request_too_large_to_count_is_refused() {
    let mut heaps = two_heaps(config());
    let mut device = FakeDevice::new();
    // size + align does not fit 64 bits: no heap has more than that.
    let r = allocate(&mut heaps, &mut device, 0b11, MemoryUsage::Data, u64::MAX, 256);
    assert_eq!(error_of(r), MemoryError::HeapsExhausted);
    let r = allocate(&mut heaps, &mut device, 0b11, MemoryUsage::Data, u64::MAX - 255, 256);
    assert_eq!(error_of(r), MemoryError::HeapsExhausted);
    let r = allocate(&mut heaps, &mut device, 0b01, MemoryUsage::Upload, u64::MAX, 1 << 63);
    assert_eq!(error_of(r), MemoryError::NoSuitableMemory(0b01, MemoryUsage::Upload));
    assert_eq!(heaps.used(0), 0);
    assert_eq!(device.allocations, 0);
    assert!(heaps.is_idle());
}

#[test]
fn new_blocks_are_not_mapped() {
    let mut heaps = two_heaps(config());
    let mut device = FakeDevice::new();
    let requests = [
        (MemoryUsage::Upload, KIB),
        (MemoryUsage::Dynamic, KIB),
        (MemoryUsage::Download, 3 * MIB),
    ];
    for (usage, size) in requests {
        let block = allocate(&mut heaps, &mut device, 0b10, usage, size, 16).unwrap();
        let memory = heaps.memory(&block);
        assert_eq!(memory.raw, block.memory());
        assert_eq!(memory.host, None);
        assert_eq!(memory.mapped, 0);
        assert_eq!(memory.size, device.size_of(block.memory()));
        assert_eq!(memory.properties, block.properties());
        let raw = block.memory();
        let dedicated = is_dedicated(&block);
        let released = heaps.free(block);
        if dedicated {
            assert_eq!(released, vec![Release { raw, unmap: false }]);
        }
        device.release(released);
    }
}

#[test]
fn blocks_that_are_out_are_plausible() {
    let mut heaps = two_heaps(config());
    let mut other = two_heaps(HeapsConfig { arena: None, dynamic: None });
    let mut device = FakeDevice::new();
    let data = allocate(&mut heaps, &mut device, 0b01, MemoryUsage::Data, 4 * KIB, 16).unwrap();
    let up = allocate(&mut heaps, &mut device, 0b10, MemoryUsage::Upload, KIB, 16).unwrap();
    let big = allocate(&mut heaps, &mut device, 0b10, MemoryUsage::Upload, 3 * MIB, 16).unwrap();
    for block in [&data, &up, &big] {
        assert!(heaps.is_plausible(block));
    }
    // Heaps without chunks know no chunk block, and without a dedicated
    // block out no dedicated block.
    assert!(!other.is_plausible(&data));
    assert!(!other.is_plausible(&up));
    assert!(!other.is_plausible(&big));
    let foreign =
        allocate(&mut other, &mut device, 0b10, MemoryUsage::Upload, 8 * MIB, 16).unwrap();
    assert!(other.is_plausible(&foreign));
    // A dedicated block larger than all that the type holds is not its own.
    assert!(!heaps.is_plausible(&foreign));
    // A block of the dynamic allocator is told exactly: once back, it is
    // not out.
    let again = allocate(&mut heaps, &mut device, 0b01, MemoryUsage::Data, 4 * KIB, 16).unwrap();
    let mut stale = allocate(&mut heaps, &mut device, 0b01, MemoryUsage::Data, 4 * KIB, 16).unwrap();
    assert!(heaps.is_plausible(&stale));
    if let BlockFlavor::Dynamic(b) = &mut stale.block {
        b.slot = 5;
    }
    assert!(!heaps.is_plausible(&stale));
    if let BlockFlavor::Dynamic(b) = &mut stale.block {
        b.slot = 2;
        b.raw += 1;
    }
    assert!(!heaps.is_plausible(&stale));
    if let BlockFlavor::Dynamic(b) = &mut stale.block {
        b.raw -= 1;
    }
    assert!(heaps.is_plausible(&stale));
    free(&mut heaps, &mut device, stale);
    assert!(heaps.is_plausible(&again));
    free(&mut heaps, &mut device, again);
    free(&mut heaps, &mut device, data);
    free(&mut heaps, &mut device, big);
    assert!(heaps.is_plausible(&up));
    free(&mut heaps, &mut device, up);
    assert!(heaps.is_idle());
}
